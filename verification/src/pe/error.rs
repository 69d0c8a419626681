//! The error type of the PE loader.

use vstd::prelude::*;

use crate::text::{hex_padded, push_hex_padded};

verus! {

/// What is wrong, and after it what that comes from, down to the first cause.
pub type Trouble = Seq<Seq<char>>;

/// Why an image cannot be read or loaded.
#[derive(Debug)]
pub struct PeError {
    /// What is wrong.
    pub message: String,
    /// What it comes from, down to the first cause.
    pub causes: Vec<String>,
}

impl View for PeError {
    type V = Trouble;

    open spec fn view(&self) -> Trouble {
        said(self.message@) + texts(self.causes@)
    }
}

/// The texts of strings.
pub open spec fn texts(v: Seq<String>) -> Seq<Seq<char>> {
    v.map_values(|s: String| s@)
}

/// Trouble that has no further cause.
pub open spec fn said(message: Seq<char>) -> Trouble {
    seq![message]
}

/// Trouble that comes from other trouble.
pub open spec fn because(message: Seq<char>, cause: Trouble) -> Trouble {
    said(message) + cause
}

impl PeError {
    /// The message, as it is shown to the user.
    pub fn message(&self) -> (s: &str)
        ensures
            s@ == self@[0],
    {
        self.message.as_str()
    }

    /// This error as the cause of another one.
    pub fn under(self, message: String) -> (e: PeError)
        ensures
            e@ == because(message@, self@),
    {
        let mut causes = self.causes;
        causes.insert(0, self.message);
        proof {
            assert(texts(causes@) =~= said(self.message@) + texts(self.causes@));
        }
        PeError { message, causes }
    }
}

/// An error with no further cause.
pub fn pe_error_of(message: String) -> (e: PeError)
    ensures
        e@ == said(message@),
{
    let e = PeError { message, causes: Vec::new() };
    assert(e@ =~= said(message@));
    e
}

/// An error with a fixed message.
pub fn pe_error(message: &str) -> (e: PeError)
    ensures
        e@ == said(message@),
{
    pe_error_of(message.to_owned())
}

/// An error with a fixed message that comes from what an outside function reported.
pub fn pe_error_from(message: &str, cause: String) -> (e: PeError)
    ensures
        e@ == because(message@, said(cause@)),
{
    pe_error_of(cause).under(message.to_owned())
}

/// A message that ends in a relative virtual address.
pub fn message_at(message: &str, rva: u64) -> (s: String)
    ensures
        s@ == at_rva(message@, rva),
{
    let mut s = message.to_owned();
    push_hex_padded(&mut s, rva, 8);
    s
}

/// A message followed by a relative virtual address in eight digits.
pub open spec fn at_rva(message: Seq<char>, rva: u64) -> Seq<char> {
    message + hex_padded(rva as nat, 8)
}

/// The outcome of a function that may fail is the one that is wanted.
pub open spec fn pe_gives<T>(want: Result<T, Trouble>, r: Result<T, PeError>) -> bool {
    match want {
        Ok(v) => r == Ok::<T, PeError>(v),
        Err(t) => r matches Err(e) && e@ == t,
    }
}

} // verus!
