//! Names of the methods of graphics objects.

use vstd::prelude::*;
use vstd::string::StringExecFns;

use crate::text::{dec, push_dec};

verus! {

/// The interface of an object.
#[derive(Debug, Clone, Copy, PartialEq, Eq, Structural)]
pub enum ComInterface {
    /// `IDirect3D9`.
    Direct3D9,
    /// `IDirect3DDevice9`.
    Direct3DDevice9,
    /// Any other, by its number.
    Other(u8),
}

/// A number below 1000 in three digits.
pub open spec fn dec3(n: nat) -> Seq<char> {
    if n < 10 {
        seq!['0', '0'] + dec(n)
    } else if n < 100 {
        seq!['0'] + dec(n)
    } else {
        dec(n)
    }
}

/// The name of a method. `d3d9_names` are those of `IDirect3D9`, and `device_name`
/// is that of the method of `IDirect3DDevice9` with the same number.
pub open spec fn method_name(
    iface: ComInterface,
    method: u8,
    d3d9_names: Seq<Seq<char>>,
    device_name: Seq<char>,
) -> Seq<char> {
    match iface {
        ComInterface::Direct3D9 => if method < d3d9_names.len() {
            d3d9_names[method as int]
        } else {
            "IDirect3D9::Slot"@ + dec3(method as nat)
        },
        ComInterface::Direct3DDevice9 => device_name,
        ComInterface::Other(n) => "Com"@ + dec(n as nat) + "::Method"@ + dec(method as nat),
    }
}

/// The name of a method.
pub fn com_method_name(
    iface: ComInterface,
    method: u8,
    d3d9_names: &[String],
    device_name: &str,
) -> (s: String)
    ensures
        s@ == method_name(iface, method, d3d9_names@.map_values(|s: String| s@), device_name@),
{
    match iface {
        ComInterface::Direct3D9 => {
            if (method as usize) < d3d9_names.len() {
                return d3d9_names[method as usize].as_str().to_owned();
            }
            let mut s = "IDirect3D9::Slot".to_owned();
            let ghost before = s@;
            proof {
                reveal_strlit("0");
                reveal_strlit("00");
                assert("0"@ =~= seq!['0']);
                assert("00"@ =~= seq!['0', '0']);
            }
            if method < 10 {
                s.append("00");
            } else if method < 100 {
                s.append("0");
            }
            push_dec(&mut s, method as u64);
            assert(s@ =~= before + dec3(method as nat));
            s
        },
        ComInterface::Direct3DDevice9 => device_name.to_owned(),
        ComInterface::Other(n) => {
            let mut s = "Com".to_owned();
            push_dec(&mut s, n as u64);
            s.append("::Method");
            push_dec(&mut s, method as u64);
            s
        },
    }
}

} // verus!
