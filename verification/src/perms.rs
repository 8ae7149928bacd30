//! Rendering the lower nine permission bits of a file mode as the familiar
//! `rwxrwxrwx` column string of a long directory listing.

use vstd::prelude::*;
use vstd::string::StringExecFns;

verus! {

/// The character at column `j` (0-based, left to right) of the nine-column
/// permission string for `mode`: bit `8 - j` of the mode selects whether the
/// column shows its letter or `-`, and the letters cycle r, w, x.
pub open spec fn perm_char(mode: u32, j: int) -> char
    recommends
        0 <= j < 9,
{
    if (mode >> ((8 - j) as u32)) & 1u32 == 1u32 {
        if j % 3 == 0 {
            'r'
        } else if j % 3 == 1 {
            'w'
        } else {
            'x'
        }
    } else {
        '-'
    }
}

/// The nine-column permission string for `mode`.
pub open spec fn perm_chars(mode: u32) -> Seq<char> {
    Seq::new(9, |j: int| perm_char(mode, j))
}

/// Render the lower nine permission bits of a file mode, owner to other,
/// read before write before execute: the letter where the bit is set, `-`
/// where it is clear.
pub fn get_permissions(mode: u32) -> (r: String)
    ensures
        r@ == perm_chars(mode),
{
    let mut r = String::new();
    let mut j: usize = 0;
    while j < 9
        invariant
            j <= 9,
            r@.len() == j,
            forall|k: int| 0 <= k < j ==> r@[k] == perm_char(mode, k),
        decreases 9 - j,
    {
        let shift: u32 = (8 - j) as u32;
        let bit = (mode >> shift) & 1;
        let piece: &str = if bit == 1 {
            if j % 3 == 0 {
                "r"
            } else if j % 3 == 1 {
                "w"
            } else {
                "x"
            }
        } else {
            "-"
        };
        proof {
            reveal_strlit("r");
            reveal_strlit("w");
            reveal_strlit("x");
            reveal_strlit("-");
            assert(piece@ =~= seq![perm_char(mode, j as int)]);
        }
        r.append(piece);
        j = j + 1;
    }
    proof {
        assert(r@ =~= perm_chars(mode));
    }
    r
}

} // verus!
