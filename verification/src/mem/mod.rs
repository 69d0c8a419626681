//! Guest virtual memory (x86-64 only).

pub mod backend;
pub mod model;
pub mod pages;
pub mod radix;
pub mod hashmap;
pub mod arena;
pub mod mmap_page;
pub mod mmap_arena;
pub mod hybrid;
pub mod protect;
pub mod region;
pub mod guest;
