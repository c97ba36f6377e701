//! Filesystem roots.  On the drive-letter platform family the caller
//! probes which of the 26 candidate roots exist and hands the outcome in;
//! building the root paths and selecting the present ones is done here.
//! Elsewhere there is a single universal root.

use vstd::prelude::*;
use vstd::string::*;
use crate::chars::string_from_ascii;

verus! {

/// The canonical root path for drive letter `i` (0 for `A`): `"<L>:\\"`.
pub open spec fn drive_root(i: int) -> Seq<char> {
    seq![(((65 + i) as u8) as char), ':', '\\']
}

/// The roots for the first `n` drive letters whose probe said the root
/// exists, in letter order.
pub open spec fn drive_roots_upto(present: Seq<bool>, n: int) -> Seq<Seq<char>>
    decreases n,
{
    if n <= 0 {
        Seq::empty()
    } else {
        drive_roots_upto(present, n - 1) + (if present[n - 1] {
            seq![drive_root(n - 1)]
        } else {
            Seq::empty()
        })
    }
}

/// The roots of all present drives, `A` through `Z`.
pub open spec fn spec_drive_roots(present: Seq<bool>) -> Seq<Seq<char>> {
    drive_roots_upto(present, 26)
}

/// Builds the root paths of the present drives: `present[i]` says whether
/// the probe found a root for the letter `A` + `i`.
#[verifier::loop_isolation(false)]
pub fn drive_letter_roots(present: &Vec<bool>) -> (r: Vec<String>)
    requires
        present@.len() == 26,
    ensures
        r@.map_values(|s: String| s@) == spec_drive_roots(present@),
{
    let mut r: Vec<String> = Vec::new();
    let mut i: usize = 0;
    while i < 26
        invariant
            i <= 26,
            r@.map_values(|s: String| s@) == drive_roots_upto(present@, i as int),
        decreases 26 - i,
    {
        if present[i] {
            let mut bytes: Vec<u8> = Vec::new();
            bytes.push(65 + (i as u8));
            bytes.push(58);
            bytes.push(92);
            let root = string_from_ascii(bytes);
            proof {
                assert((58 as u8) as char == ':');
                assert((92 as u8) as char == '\\');
                assert(root@ =~= drive_root(i as int));
            }
            let ghost r0 = r@;
            r.push(root);
            proof {
                assert(r@.map_values(|s: String| s@) =~= r0.map_values(|s: String| s@).push(
                    root@,
                ));
                assert(drive_roots_upto(present@, i + 1) =~= drive_roots_upto(
                    present@,
                    i as int,
                ).push(drive_root(i as int)));
            }
        } else {
            proof {
                assert(drive_roots_upto(present@, i + 1) =~= drive_roots_upto(
                    present@,
                    i as int,
                ));
            }
        }
        i = i + 1;
    }
    r
}

/// The single universal root of the platform families without drive
/// letters.
pub fn universal_root() -> (r: Vec<String>)
    ensures
        r@.len() == 1,
        r@[0]@ == "/"@,
{
    let mut r: Vec<String> = Vec::new();
    r.push(String::from_str("/"));
    r
}

} // verus!
