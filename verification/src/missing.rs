//! Missing-value tokens.

use vstd::prelude::*;

use crate::trim::{ascii_trim, trim_of};

verus! {

/// ASCII upper-casing of a single byte.
pub open spec fn spec_upper(b: u8) -> u8 {
    if 0x61 <= b && b <= 0x7A {
        (b - 0x20) as u8
    } else {
        b
    }
}

/// A missing token after ASCII-trim: empty, `-`, or one of `NA`, `N/A`,
/// `NULL`, `NAN`, `NONE` with letters compared case-insensitively.
pub open spec fn spec_is_missing_token(s: Seq<u8>) -> bool {
    let t = trim_of(s);
    let u = t.map_values(|b: u8| spec_upper(b));
    ||| t.len() == 0
    ||| t =~= seq![0x2Du8]
    ||| u =~= seq![0x4Eu8, 0x41u8]
    ||| u =~= seq![0x4Eu8, 0x2Fu8, 0x41u8]
    ||| u =~= seq![0x4Eu8, 0x55u8, 0x4Cu8, 0x4Cu8]
    ||| u =~= seq![0x4Eu8, 0x41u8, 0x4Eu8]
    ||| u =~= seq![0x4Eu8, 0x4Fu8, 0x4Eu8, 0x45u8]
}

fn upper(b: u8) -> (r: u8)
    ensures
        r == spec_upper(b),
{
    if 0x61 <= b && b <= 0x7A {
        b - 0x20
    } else {
        b
    }
}

/// The trimmed token, upper-cased, equals the given word.
fn upper_eq(t: &[u8], w: &[u8]) -> (r: bool)
    ensures
        r == (t@.map_values(|b: u8| spec_upper(b)) =~= w@),
{
    let n = t.len();
    if n != w.len() {
        proof {
            assert(t@.map_values(|b: u8| spec_upper(b)).len() == t@.len());
        }
        return false;
    }
    let mut i: usize = 0;
    while i < n
        invariant
            0 <= i <= n,
            n == t@.len() && n == w@.len(),
            forall|j: int| 0 <= j < i ==> spec_upper(t@[j]) == w@[j],
        decreases n - i,
    {
        if upper(t[i]) != w[i] {
            proof {
                assert(t@.map_values(|b: u8| spec_upper(b))[i as int] == spec_upper(t@[i as int]));
            }
            return false;
        }
        i = i + 1;
    }
    proof {
        assert(t@.map_values(|b: u8| spec_upper(b)) =~= w@);
    }
    true
}

/// Returns true if the input is a missing token after ASCII-trimming.
pub fn is_missing_token(input: &[u8]) -> (r: bool)
    ensures
        r == spec_is_missing_token(input@),
{
    let trimmed = ascii_trim(input);
    if trimmed.len() == 0 {
        return true;
    }
    if trimmed.len() == 1 && trimmed[0] == 0x2D {
        proof {
            assert(trimmed@ =~= seq![0x2Du8]);
        }
        return true;
    }
    let na: [u8; 2] = [0x4E, 0x41];
    let n_slash_a: [u8; 3] = [0x4E, 0x2F, 0x41];
    let null: [u8; 4] = [0x4E, 0x55, 0x4C, 0x4C];
    let nan: [u8; 3] = [0x4E, 0x41, 0x4E];
    let none: [u8; 4] = [0x4E, 0x4F, 0x4E, 0x45];
    let r = upper_eq(trimmed, na.as_slice()) || upper_eq(trimmed, n_slash_a.as_slice()) || upper_eq(
        trimmed,
        null.as_slice(),
    ) || upper_eq(trimmed, nan.as_slice()) || upper_eq(trimmed, none.as_slice());
    proof {
        assert(na@ =~= seq![0x4Eu8, 0x41u8]);
        assert(n_slash_a@ =~= seq![0x4Eu8, 0x2Fu8, 0x41u8]);
        assert(null@ =~= seq![0x4Eu8, 0x55u8, 0x4Cu8, 0x4Cu8]);
        assert(nan@ =~= seq![0x4Eu8, 0x41u8, 0x4Eu8]);
        assert(none@ =~= seq![0x4Eu8, 0x4Fu8, 0x4Eu8, 0x45u8]);
        if trimmed@.len() == 1 && !r {
            assert(trimmed@ != seq![0x2Du8]);
        }
    }
    r
}

} // verus!
