//! Integer formatting with US thousands separators.

use vstd::prelude::*;

use crate::bytes::dec_digits_of;

verus! {

/// Digits grouped in threes from the right, separated by commas.
pub open spec fn spec_with_commas(d: Seq<u8>) -> Seq<u8>
    decreases d.len(),
{
    if d.len() <= 3 {
        d
    } else {
        spec_with_commas(d.take(d.len() - 3)) + seq![0x2Cu8] + d.skip(d.len() - 3)
    }
}

/// The rendering of a signed integer: optional `-`, then grouped digits
/// of the magnitude.
pub open spec fn spec_int_with_commas(value: int) -> Seq<u8> {
    if value < 0 {
        seq![0x2Du8] + spec_with_commas(dec_digits_of((-value) as nat))
    } else {
        spec_with_commas(dec_digits_of(value as nat))
    }
}

/// Format an integer with thousands separators.
pub fn format_int_with_commas(value: i64) -> (r: Vec<u8>)
    ensures
        r@ == spec_int_with_commas(value as int),
{
    let negative = value < 0;
    let magnitude: u64 = if value < 0 {
        (-(value as i128)) as u64
    } else {
        value as u64
    };
    let mut digits: Vec<u8> = Vec::new();
    crate::bytes::push_dec_u64(&mut digits, magnitude);
    let mut out: Vec<u8> = Vec::new();
    if negative {
        out.push(0x2D);
    }
    push_with_commas(&mut out, digits.as_slice());
    proof {
        if negative {
            assert(out@ =~= seq![0x2Du8] + spec_with_commas(dec_digits_of(magnitude as nat)));
        }
    }
    out
}

/// Append digit groups of three, comma-separated, to `out`.
fn push_with_commas(out: &mut Vec<u8>, d: &[u8])
    ensures
        final(out)@ == old(out)@ + spec_with_commas(d@),
{
    let n = d.len();
    if n <= 3 {
        crate::bytes::push_all(out, d);
        return ;
    }
    // first group: 1 to 3 digits so the rest splits into threes
    let first = n % 3;
    let first_len = if first == 0 {
        3
    } else {
        first
    };
    let head = vstd::slice::slice_subrange(d, 0, first_len);
    crate::bytes::push_all(out, head);
    proof {
        assert(head@ =~= d@.take(first_len as int));
        assert(spec_with_commas(d@.take(first_len as int)) == d@.take(first_len as int));
    }
    let mut pos: usize = first_len;
    while pos < n
        invariant
            1 <= first_len <= pos <= n,
            n == d@.len(),
            n > 3,
            (n - pos) % 3 == 0,
            out@ == old(out)@ + spec_with_commas(d@.take(pos as int)),
        decreases n - pos,
    {
        proof {
            assert(n - pos >= 3);
        }
        out.push(0x2C);
        let group = vstd::slice::slice_subrange(d, pos, pos + 3);
        crate::bytes::push_all(out, group);
        proof {
            let t = d@.take(pos + 3);
            assert(t.len() == pos + 3);
            assert(t.take(t.len() - 3) =~= d@.take(pos as int));
            assert(t.skip(t.len() - 3) =~= d@.subrange(pos as int, pos + 3));
            assert(group@ =~= d@.subrange(pos as int, pos + 3));
            assert(spec_with_commas(t) == spec_with_commas(t.take(t.len() - 3)) + seq![0x2Cu8]
                + t.skip(t.len() - 3)) by {
                reveal_with_fuel(spec_with_commas, 2);
            }
            assert(out@ =~= old(out)@ + spec_with_commas(t));
        }
        pos = pos + 3;
    }
    proof {
        assert(d@.take(n as int) =~= d@);
    }
}


/// Trailing `0` bytes removed.
pub open spec fn spec_trim_trailing_zeros(s: Seq<u8>) -> Seq<u8>
    decreases s.len(),
{
    if s.len() > 0 && s[s.len() - 1] == 0x30 {
        spec_trim_trailing_zeros(s.drop_last())
    } else {
        s
    }
}

/// A mantissa with its fractional trailing zeros removed: when a dot is
/// present, trailing `0` bytes go, and a dot left bare goes too.
pub open spec fn spec_trim_mantissa(s: Seq<u8>) -> Seq<u8> {
    let di = crate::numeric::spec_dot_index(s);
    if di >= 0 {
        let t = spec_trim_trailing_zeros(s);
        if t.len() == di + 1 {
            t.drop_last()
        } else {
            t
        }
    } else {
        s
    }
}

/// Leading `0` bytes removed.
pub open spec fn spec_strip_leading_zeros(s: Seq<u8>) -> Seq<u8>
    decreases s.len(),
{
    if s.len() > 0 && s[0] == 0x30 {
        spec_strip_leading_zeros(s.drop_first())
    } else {
        s
    }
}

/// An exponent normalized: `+` dropped, `-` kept, leading zeros removed,
/// an all-zero body collapsed to a single `0`.
pub open spec fn spec_trim_exponent(s: Seq<u8>) -> Seq<u8> {
    let neg = s.len() > 0 && s[0] == 0x2D;
    let body = if s.len() > 0 && (s[0] == 0x2D || s[0] == 0x2B) {
        s.drop_first()
    } else {
        s
    };
    let d = spec_strip_leading_zeros(body);
    let dd = if d.len() == 0 {
        seq![0x30u8]
    } else {
        d
    };
    if neg {
        seq![0x2Du8] + dd
    } else {
        dd
    }
}

/// Trim a rendered mantissa.
pub fn trim_mantissa(input: &[u8]) -> (r: Vec<u8>)
    ensures
        r@ == spec_trim_mantissa(input@),
{
    let n = input.len();
    let mut has_dot = false;
    let mut di: usize = 0;
    let mut i: usize = 0;
    while i < n && !has_dot
        invariant
            0 <= i <= n,
            n == input@.len(),
            !has_dot ==> forall|j: int| 0 <= j < i ==> input@[j] != 0x2E,
            has_dot ==> di < n && crate::numeric::spec_dot_index(input@) == di,
        decreases n - i + (if has_dot {
            0int
        } else {
            1int
        }),
    {
        if input[i] == 0x2E {
            has_dot = true;
            di = i;
            proof {
                crate::bytes::lemma_first_index_at(input@, |b: u8| b == 0x2E, i as int);
            }
        } else {
            i = i + 1;
        }
    }
    if !has_dot {
        proof {
            crate::bytes::lemma_first_index_at(input@, |b: u8| b == 0x2E, n as int);
        }
        return crate::bytes::to_vec_bytes(input);
    }
    let mut end = n;
    proof {
        assert(input@.take(n as int) =~= input@);
    }
    while end > 0 && input[end - 1] == 0x30
        invariant
            0 <= end <= n,
            n == input@.len(),
            spec_trim_trailing_zeros(input@) == spec_trim_trailing_zeros(
                input@.take(end as int),
            ),
        decreases end,
    {
        proof {
            assert(input@.take(end as int).drop_last() =~= input@.take(end as int - 1));
        }
        end = end - 1;
    }
    proof {
        assert(spec_trim_trailing_zeros(input@.take(end as int)) == input@.take(end as int));
    }
    if end == di + 1 {
        proof {
            assert(input@.take(end as int).drop_last() =~= input@.take(di as int));
        }
        end = di;
    }
    let pre = vstd::slice::slice_subrange(input, 0, end);
    let r = crate::bytes::to_vec_bytes(pre);
    proof {
        assert(r@ =~= input@.take(end as int));
    }
    r
}

/// Trim a rendered exponent.
pub fn trim_exponent(input: &[u8]) -> (r: Vec<u8>)
    ensures
        r@ == spec_trim_exponent(input@),
{
    let n = input.len();
    let neg = n > 0 && input[0] == 0x2D;
    let mut start: usize = 0;
    if n > 0 && (input[0] == 0x2D || input[0] == 0x2B) {
        start = 1;
    }
    let ghost body = if input@.len() > 0 && (input@[0] == 0x2D || input@[0] == 0x2B) {
        input@.drop_first()
    } else {
        input@
    };
    proof {
        assert(body =~= input@.skip(start as int));
    }
    while start < n && input[start] == 0x30
        invariant
            0 <= start <= n,
            n == input@.len(),
            spec_strip_leading_zeros(body) == spec_strip_leading_zeros(
                input@.skip(start as int),
            ),
        decreases n - start,
    {
        proof {
            assert(input@.skip(start as int).drop_first() =~= input@.skip(start as int + 1));
        }
        start = start + 1;
    }
    proof {
        assert(spec_strip_leading_zeros(input@.skip(start as int)) == input@.skip(start as int));
    }
    let mut out: Vec<u8> = Vec::new();
    if neg {
        out.push(0x2D);
    }
    if start == n {
        out.push(0x30);
        proof {
            assert(input@.skip(start as int).len() == 0);
        }
    } else {
        let tail = vstd::slice::slice_subrange(input, start, n);
        proof {
            assert(tail@ =~= input@.skip(start as int));
        }
        crate::bytes::push_all(&mut out, tail);
    }
    proof {
        assert(out@ =~= spec_trim_exponent(input@));
    }
    out
}

} // verus!
