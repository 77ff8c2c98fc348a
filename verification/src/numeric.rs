//! The numeric grammar: which byte tokens count as numbers, and their
//! canonical text form.
//!
//! After ASCII-trim the grammar allows optional accounting parentheses
//! (forcing negation), at most one sign and one `$` prefix in either order,
//! a mantissa with US thousands separators in the integer part only, and an
//! optional exponent. A token whose magnitude would exceed the largest
//! finite IEEE double is not numeric; the boundary test compares the
//! significant digits against the leading digits of that bound.
//!
//! The canonical form strips parentheses, `$` and commas and carries an
//! explicit leading `-` when the value is negative, so that a standard
//! decimal float parser accepts it and yields the intended value.

use vstd::prelude::*;

use crate::trim::{ascii_trim, trim_of};

verus! {

/// An ASCII decimal digit.
pub open spec fn is_digit(b: u8) -> bool {
    0x30 <= b && b <= 0x39
}

/// Every byte is a digit.
pub open spec fn all_digits(s: Seq<u8>) -> bool {
    forall|i: int| 0 <= i < s.len() ==> is_digit(#[trigger] s[i])
}

/// Index of the first exponent marker (`e`/`E`), or -1.
pub open spec fn spec_exp_index(s: Seq<u8>) -> int {
    crate::bytes::first_index_where(s, |b: u8| b == 0x65 || b == 0x45)
}

/// Index of the first `.`, or -1.
pub open spec fn spec_dot_index(s: Seq<u8>) -> int {
    crate::bytes::first_index_where(s, |b: u8| b == 0x2E)
}

/// Index of the first `,`, or -1.
pub open spec fn spec_comma_index(s: Seq<u8>) -> int {
    crate::bytes::first_index_where(s, |b: u8| b == 0x2C)
}

/// The sequence with every comma removed.
pub open spec fn decomma(s: Seq<u8>) -> Seq<u8>
    decreases s.len(),
{
    if s.len() == 0 {
        Seq::<u8>::empty()
    } else if s[0] == 0x2C {
        decomma(s.drop_first())
    } else {
        seq![s[0]] + decomma(s.drop_first())
    }
}

/// Result of stripping the sign/`$` prefix: the rest of the token and
/// whether a minus sign was consumed.
pub open spec fn spec_strip_prefix(t: Seq<u8>, seen_sign: bool, seen_dollar: bool, neg: bool) -> (
    Seq<u8>,
    bool,
)
    decreases t.len(),
{
    if t.len() > 0 && (t[0] == 0x2B || t[0] == 0x2D) && !seen_sign {
        spec_strip_prefix(t.drop_first(), true, seen_dollar, t[0] == 0x2D)
    } else if t.len() > 0 && t[0] == 0x24 && !seen_dollar {
        spec_strip_prefix(t.drop_first(), seen_sign, true, neg)
    } else {
        (t, neg)
    }
}

/// The rest after the prefix must be non-empty, must not begin with a
/// second sign, and must not contain `$`.
pub open spec fn spec_rest_ok(rest: Seq<u8>) -> bool {
    &&& rest.len() > 0
    &&& rest[0] != 0x2B && rest[0] != 0x2D
    &&& forall|i: int| 0 <= i < rest.len() ==> rest[i] != 0x24
}

/// Exponent part including its leading `e`/`E`: optional sign then one or
/// more digits.
pub open spec fn spec_exp_ok(e: Seq<u8>) -> bool {
    if e.len() == 0 {
        true
    } else {
        let body = e.drop_first();
        if body.len() > 0 && (body[0] == 0x2B || body[0] == 0x2D) {
            body.len() >= 2 && all_digits(body.drop_first())
        } else {
            body.len() >= 1 && all_digits(body)
        }
    }
}

/// Thousands-separator rule for the integer part: without commas it must
/// be digits only; with commas, a first group of one to three digits
/// followed by groups of exactly three.
pub open spec fn spec_int_part_ok(ip: Seq<u8>) -> bool {
    if spec_comma_index(ip) < 0 {
        all_digits(ip)
    } else {
        let g = spec_comma_index(ip);
        1 <= g <= 3 && all_digits(ip.take(g)) && spec_groups_ok(ip.skip(g + 1))
    }
}

/// After the first group: comma-separated groups of exactly three digits.
pub open spec fn spec_groups_ok(s: Seq<u8>) -> bool
    decreases s.len(),
{
    if spec_comma_index(s) < 0 {
        s.len() == 3 && all_digits(s)
    } else {
        let g = spec_comma_index(s);
        if g == 3 && s.len() >= 4 {
            all_digits(s.take(3)) && spec_groups_ok(s.skip(4))
        } else {
            false
        }
    }
}

/// The mantissa (before any exponent): integer part per the comma rule, a
/// comma-free all-digit fraction, and at least one digit overall.
pub open spec fn spec_mantissa_ok(m: Seq<u8>) -> bool {
    let d = spec_dot_index(m);
    if d < 0 {
        spec_int_part_ok(m) && m.len() > 0
    } else {
        let ip = m.take(d);
        let fp = m.skip(d + 1);
        spec_int_part_ok(ip) && all_digits(fp) && (decomma(ip).len() > 0 || fp.len() > 0)
    }
}

/// The core of a token after parentheses: prefix, mantissa, exponent.
pub open spec fn spec_core_ok(core: Seq<u8>) -> bool {
    let (rest, _neg) = spec_strip_prefix(core, false, false, false);
    &&& spec_rest_ok(rest)
    &&& {
        let e = spec_exp_index(rest);
        let m = if e < 0 {
            rest
        } else {
            rest.take(e)
        };
        let ex = if e < 0 {
            Seq::<u8>::empty()
        } else {
            rest.skip(e)
        };
        &&& spec_mantissa_ok(m)
        &&& spec_exp_ok(ex)
        &&& !spec_overflows(m, ex)
    }
}

/// Leading digits of the smallest decimal magnitude that no longer fits in
/// an IEEE double (the midpoint above the largest finite value).
pub open spec fn overflow_boundary_digits() -> Seq<u8> {
    seq![
        0x31u8,
        0x37,
        0x39,
        0x37,
        0x36,
        0x39,
        0x33,
        0x31,
        0x33,
        0x34,
        0x38,
        0x36,
        0x32,
        0x33,
        0x31,
        0x35,
        0x38,
        0x30,
        0x37,
        0x39,
        0x33,
        0x37,
        0x32,
        0x38,
        0x39,
        0x37,
        0x31,
        0x34,
        0x30,
        0x35,
    ]
}

/// Saturating decimal value of an exponent digit string.
pub open spec fn spec_exp_value(s: Seq<u8>) -> int
    decreases s.len(),
{
    if s.len() == 0 {
        0
    } else {
        let prev = spec_exp_value(s.drop_last());
        let v = prev * 10 + (s[s.len() - 1] - 0x30);
        if v > 1000000000000000000 {
            1000000000000000000
        } else {
            v
        }
    }
}

/// Number of leading zero digits.
pub open spec fn spec_leading_zeros(s: Seq<u8>) -> int
    decreases s.len(),
{
    if s.len() > 0 && s[0] == 0x30 {
        1 + spec_leading_zeros(s.drop_first())
    } else {
        0
    }
}

/// Whether the significant digits, padded with zeros, reach the overflow
/// boundary digits lexicographically.
pub open spec fn spec_digits_reach_boundary(d: Seq<u8>, i: int) -> bool
    decreases overflow_boundary_digits().len() - i,
{
    let b = overflow_boundary_digits();
    if i >= b.len() {
        true
    } else {
        let x: u8 = if i < d.len() {
            d[i]
        } else {
            0x30
        };
        if x > b[i] {
            true
        } else if x < b[i] {
            false
        } else {
            spec_digits_reach_boundary(d, i + 1)
        }
    }
}

/// The token's magnitude exceeds the largest finite IEEE double. The
/// decimal exponent of the value decides, with a digit comparison at the
/// boundary.
pub open spec fn spec_overflows(m: Seq<u8>, ex: Seq<u8>) -> bool {
    let d = spec_dot_index(m);
    let ip = if d < 0 {
        m
    } else {
        m.take(d)
    };
    let fp = if d < 0 {
        Seq::<u8>::empty()
    } else {
        m.skip(d + 1)
    };
    let t = decomma(ip) + fp;
    let z = spec_leading_zeros(t);
    if z == t.len() {
        false
    } else {
        let e: int = if ex.len() == 0 {
            0
        } else {
            let body = ex.drop_first();
            if body.len() > 0 && body[0] == 0x2D {
                -spec_exp_value(body.drop_first())
            } else if body.len() > 0 && body[0] == 0x2B {
                spec_exp_value(body.drop_first())
            } else {
                spec_exp_value(body)
            }
        };
        let e10 = (t.len() - z) + e - fp.len();
        if e10 >= 310 {
            true
        } else if e10 <= 308 {
            false
        } else {
            spec_digits_reach_boundary(t.skip(z), 0)
        }
    }
}

/// A token is numeric when, after trimming and unwrapping one pair of
/// parentheses, its core passes the grammar and does not overflow.
pub open spec fn spec_is_numeric(input: Seq<u8>) -> bool {
    let t = trim_of(input);
    if t.len() == 0 {
        false
    } else {
        let has_paren = t.len() >= 2 && t[0] == 0x28 && t[t.len() - 1] == 0x29;
        let core = if has_paren {
            t.subrange(1, t.len() - 1)
        } else {
            t
        };
        core.len() > 0 && spec_core_ok(core)
    }
}

/// The canonical text of a numeric token: an optional `-`, the mantissa
/// with commas removed, then the exponent as written.
pub open spec fn spec_canonical(input: Seq<u8>) -> Seq<u8> {
    let t = trim_of(input);
    let has_paren = t.len() >= 2 && t[0] == 0x28 && t[t.len() - 1] == 0x29;
    let core = if has_paren {
        t.subrange(1, t.len() - 1)
    } else {
        t
    };
    let (rest, neg) = spec_strip_prefix(core, false, false, false);
    let e = spec_exp_index(rest);
    let m = if e < 0 {
        rest
    } else {
        rest.take(e)
    };
    let ex = if e < 0 {
        Seq::<u8>::empty()
    } else {
        rest.skip(e)
    };
    let sign: Seq<u8> = if has_paren || neg {
        seq![0x2Du8]
    } else {
        Seq::<u8>::empty()
    };
    sign + decomma(m) + ex
}

fn all_digits_exec(s: &[u8]) -> (r: bool)
    ensures
        r == all_digits(s@),
{
    let n = s.len();
    let mut i: usize = 0;
    while i < n
        invariant
            0 <= i <= n,
            n == s@.len(),
            forall|j: int| 0 <= j < i ==> is_digit(#[trigger] s@[j]),
        decreases n - i,
    {
        let b = s[i];
        if b < 0x30 || b > 0x39 {
            return false;
        }
        i = i + 1;
    }
    true
}

fn contains_dollar(s: &[u8]) -> (r: bool)
    ensures
        r == exists|i: int| 0 <= i < s@.len() && s@[i] == 0x24,
{
    let n = s.len();
    let mut i: usize = 0;
    while i < n
        invariant
            0 <= i <= n,
            n == s@.len(),
            forall|j: int| 0 <= j < i ==> s@[j] != 0x24,
        decreases n - i,
    {
        if s[i] == 0x24 {
            return true;
        }
        i = i + 1;
    }
    false
}

fn find_exp(s: &[u8]) -> (r: Option<usize>)
    ensures
        match r {
            Some(i) => spec_exp_index(s@) == i,
            None => spec_exp_index(s@) < 0,
        },
{
    let n = s.len();
    let mut i: usize = 0;
    while i < n
        invariant
            0 <= i <= n,
            n == s@.len(),
            forall|j: int| 0 <= j < i ==> !(s@[j] == 0x65 || s@[j] == 0x45),
        decreases n - i,
    {
        let b = s[i];
        if b == 0x65 || b == 0x45 {
            proof {
                crate::bytes::lemma_first_index_at(
                    s@,
                    |b: u8| b == 0x65 || b == 0x45,
                    i as int,
                );
            }
            return Some(i);
        }
        i = i + 1;
    }
    proof {
        crate::bytes::lemma_first_index_at(s@, |b: u8| b == 0x65 || b == 0x45, n as int);
    }
    None
}

fn find_dot(s: &[u8]) -> (r: Option<usize>)
    ensures
        match r {
            Some(i) => spec_dot_index(s@) == i,
            None => spec_dot_index(s@) < 0,
        },
{
    let n = s.len();
    let mut i: usize = 0;
    while i < n
        invariant
            0 <= i <= n,
            n == s@.len(),
            forall|j: int| 0 <= j < i ==> s@[j] != 0x2E,
        decreases n - i,
    {
        if s[i] == 0x2E {
            proof {
                crate::bytes::lemma_first_index_at(s@, |b: u8| b == 0x2E, i as int);
            }
            return Some(i);
        }
        i = i + 1;
    }
    proof {
        crate::bytes::lemma_first_index_at(s@, |b: u8| b == 0x2E, n as int);
    }
    None
}

fn find_comma_from(s: &[u8], from: usize) -> (r: Option<usize>)
    requires
        from <= s@.len(),
    ensures
        match r {
            Some(i) => from <= i && spec_comma_index(s@.skip(from as int)) == i - from,
            None => spec_comma_index(s@.skip(from as int)) < 0,
        },
{
    let n = s.len();
    let mut i: usize = from;
    while i < n
        invariant
            from <= i <= n,
            n == s@.len(),
            forall|j: int| from <= j < i ==> s@[j] != 0x2C,
        decreases n - i,
    {
        if s[i] == 0x2C {
            proof {
                let rest = s@.skip(from as int);
                assert(forall|k: int| 0 <= k < i - from ==> rest[k] == s@[from + k]);
                assert(rest[i - from] == s@[i as int]);
                crate::bytes::lemma_first_index_at(rest, |b: u8| b == 0x2C, i - from);
            }
            return Some(i);
        }
        i = i + 1;
    }
    proof {
        let rest = s@.skip(from as int);
        assert(forall|k: int| 0 <= k < rest.len() ==> rest[k] == s@[from + k]);
        crate::bytes::lemma_first_index_at(rest, |b: u8| b == 0x2C, rest.len() as int);
    }
    None
}

/// Append the comma-free form of `s` to `out`.
fn decomma_push(out: &mut Vec<u8>, s: &[u8])
    ensures
        final(out)@ == old(out)@ + decomma(s@),
{
    let n = s.len();
    let mut i: usize = 0;
    proof {
        assert(s@.skip(0) =~= s@);
    }
    while i < n
        invariant
            0 <= i <= n,
            n == s@.len(),
            out@ + decomma(s@.skip(i as int)) == old(out)@ + decomma(s@),
        decreases n - i,
    {
        let ghost rest = s@.skip(i as int);
        proof {
            assert(rest[0] == s@[i as int]);
            assert(rest.drop_first() =~= s@.skip(i + 1));
        }
        let b = s[i];
        if b != 0x2C {
            let ghost pre = out@;
            out.push(b);
            proof {
                assert(out@ =~= pre + seq![b]);
                assert(decomma(rest) =~= seq![b] + decomma(s@.skip(i + 1)));
                assert(out@ + decomma(s@.skip(i + 1)) =~= pre + decomma(rest));
            }
        }
        i = i + 1;
    }
    proof {
        assert(s@.skip(n as int) =~= Seq::<u8>::empty());
        assert(decomma(Seq::<u8>::empty()) =~= Seq::<u8>::empty());
        assert(out@ + Seq::<u8>::empty() =~= out@);
    }
}

/// Check the thousands-separator rule for an integer part.
fn int_part_ok_exec(s: &[u8]) -> (r: bool)
    ensures
        r == spec_int_part_ok(s@),
{
    let n = s.len();
    match find_comma_from(s, 0) {
        None => {
            proof {
                assert(s@.skip(0) =~= s@);
            }
            all_digits_exec(s)
        },
        Some(g) => {
            proof {
                assert(s@.skip(0) =~= s@);
                crate::bytes::lemma_first_index_props(s@, |b: u8| b == 0x2C);
            }
            if g < 1 || g > 3 {
                return false;
            }
            let first = vstd::slice::slice_subrange(s, 0, g);
            proof {
                assert(first@ =~= s@.take(g as int));
            }
            if !all_digits_exec(first) {
                return false;
            }
            proof {
                assert(spec_int_part_ok(s@) == spec_groups_ok(s@.skip(g + 1)));
            }
            // remaining groups, starting after the first comma
            let mut pos: usize = g + 1;
            loop
                invariant
                    g + 1 <= pos <= n,
                    n == s@.len(),
                    spec_int_part_ok(s@) == spec_groups_ok(s@.skip(pos as int)),
                decreases n - pos,
            {
                let ghost rest = s@.skip(pos as int);
                match find_comma_from(s, pos) {
                    None => {
                        let seg = vstd::slice::slice_subrange(s, pos, n);
                        proof {
                            assert(seg@ =~= rest);
                        }
                        if n - pos == 3 && all_digits_exec(seg) {
                            return true;
                        } else {
                            return false;
                        }
                    },
                    Some(c) => {
                        proof {
                            crate::bytes::lemma_first_index_props(rest, |b: u8| b == 0x2C);
                        }
                        if c - pos != 3 {
                            return false;
                        }
                        let seg = vstd::slice::slice_subrange(s, pos, pos + 3);
                        proof {
                            assert(seg@ =~= rest.take(3));
                        }
                        if !all_digits_exec(seg) {
                            return false;
                        }
                        proof {
                            assert(rest.skip(4) =~= s@.skip(pos + 4));
                        }
                        pos = pos + 4;
                    },
                }
            }
        },
    }
}

/// Check an exponent part (including its leading `e`/`E`, possibly empty).
fn exp_ok_exec(e: &[u8]) -> (r: bool)
    ensures
        r == spec_exp_ok(e@),
{
    let n = e.len();
    if n == 0 {
        return true;
    }
    let body = vstd::slice::slice_subrange(e, 1, n);
    proof {
        assert(body@ =~= e@.drop_first());
    }
    if body.len() > 0 && (body[0] == 0x2B || body[0] == 0x2D) {
        if body.len() < 2 {
            return false;
        }
        let digits = vstd::slice::slice_subrange(e, 2, n);
        proof {
            assert(digits@ =~= body@.drop_first());
        }
        all_digits_exec(digits)
    } else {
        if body.len() == 0 {
            return false;
        }
        all_digits_exec(body)
    }
}

fn exp_value_sat(s: &[u8]) -> (r: i128)
    requires
        all_digits(s@),
    ensures
        r == spec_exp_value(s@),
        0 <= r <= 1000000000000000000,
{
    let n = s.len();
    let mut v: i128 = 0;
    let mut i: usize = 0;
    proof {
        assert(s@.take(0) =~= Seq::<u8>::empty());
    }
    while i < n
        invariant
            0 <= i <= n,
            n == s@.len(),
            all_digits(s@),
            v == spec_exp_value(s@.take(i as int)),
            0 <= v <= 1000000000000000000,
        decreases n - i,
    {
        let d = s[i];
        proof {
            assert(is_digit(s@[i as int]));
            let t = s@.take(i + 1);
            assert(t.drop_last() =~= s@.take(i as int));
            assert(t[t.len() - 1] == s@[i as int]);
        }
        let next = v * 10 + (d - 0x30) as i128;
        v = if next > 1000000000000000000 {
            1000000000000000000
        } else {
            next
        };
        i = i + 1;
    }
    proof {
        assert(s@.take(n as int) =~= s@);
    }
    v
}

fn boundary_vec() -> (r: Vec<u8>)
    ensures
        r@ == overflow_boundary_digits(),
{
    let mut v: Vec<u8> = Vec::new();
    v.push(0x31);
    v.push(0x37);
    v.push(0x39);
    v.push(0x37);
    v.push(0x36);
    v.push(0x39);
    v.push(0x33);
    v.push(0x31);
    v.push(0x33);
    v.push(0x34);
    v.push(0x38);
    v.push(0x36);
    v.push(0x32);
    v.push(0x33);
    v.push(0x31);
    v.push(0x35);
    v.push(0x38);
    v.push(0x30);
    v.push(0x37);
    v.push(0x39);
    v.push(0x33);
    v.push(0x37);
    v.push(0x32);
    v.push(0x38);
    v.push(0x39);
    v.push(0x37);
    v.push(0x31);
    v.push(0x34);
    v.push(0x30);
    v.push(0x35);
    proof {
        assert(v@ =~= overflow_boundary_digits());
    }
    v
}

fn digits_reach_boundary(d: &[u8]) -> (r: bool)
    ensures
        r == spec_digits_reach_boundary(d@, 0),
{
    let b = boundary_vec();
    let bn = b.len();
    let mut i: usize = 0;
    while i < bn
        invariant
            0 <= i <= bn,
            b@ == overflow_boundary_digits(),
            bn == b@.len(),
            spec_digits_reach_boundary(d@, 0) == spec_digits_reach_boundary(d@, i as int),
        decreases bn - i,
    {
        let x: u8 = if i < d.len() {
            d[i]
        } else {
            0x30
        };
        let y = b[i];
        if x > y {
            return true;
        }
        if x < y {
            return false;
        }
        i = i + 1;
    }
    true
}

/// Decide the overflow rule for a split mantissa and exponent.
fn overflows_exec(m: &[u8], ex: &[u8], ip: &[u8], fp: &[u8], t_digits: &Vec<u8>) -> (r: bool)
    requires
        ({
            let d = spec_dot_index(m@);
            if d < 0 {
                ip@ == m@ && fp@ == Seq::<u8>::empty()
            } else {
                ip@ == m@.take(d) && fp@ == m@.skip(d + 1)
            }
        }),
        t_digits@ == decomma(ip@) + fp@,
        spec_exp_ok(ex@),
    ensures
        r == spec_overflows(m@, ex@),
{
    let tdn = t_digits.len();
    let mut z: usize = 0;
    while z < tdn && t_digits[z] == 0x30
        invariant
            0 <= z <= tdn,
            tdn == t_digits@.len(),
            forall|j: int| 0 <= j < z ==> t_digits@[j] == 0x30,
        decreases tdn - z,
    {
        z = z + 1;
    }
    proof {
        lemma_leading_zeros_at(t_digits@, z as int);
    }
    if z == tdn {
        return false;
    }
    // non-zero value: decide by decimal exponent
    let e_val: i128 = if ex.len() == 0 {
        0
    } else {
        let en = ex.len();
        let body = vstd::slice::slice_subrange(ex, 1, en);
        proof {
            assert(body@ =~= ex@.drop_first());
        }
        if body.len() > 0 && body[0] == 0x2D {
            let digits = vstd::slice::slice_subrange(ex, 2, en);
            proof {
                assert(digits@ =~= body@.drop_first());
            }
            -exp_value_sat(digits)
        } else if body.len() > 0 && body[0] == 0x2B {
            let digits = vstd::slice::slice_subrange(ex, 2, en);
            proof {
                assert(digits@ =~= body@.drop_first());
            }
            exp_value_sat(digits)
        } else {
            exp_value_sat(body)
        }
    };
    let e10: i128 = (tdn - z) as i128 + e_val - fp.len() as i128;
    if e10 >= 310 {
        true
    } else if e10 <= 308 {
        false
    } else {
        let sig = vstd::slice::slice_subrange(t_digits.as_slice(), z, tdn);
        proof {
            assert(sig@ =~= t_digits@.skip(z as int));
        }
        digits_reach_boundary(sig)
    }
}

/// Parse a token core (after parentheses): prefix, mantissa, exponent.
/// `Some` carries the consumed-minus flag and the canonical body (mantissa
/// without commas, then the exponent).
#[verifier::rlimit(60)]
fn parse_core(core: &[u8]) -> (r: Option<(bool, Vec<u8>)>)
    ensures
        r is Some <==> spec_core_ok(core@),
        r matches Some(p) ==> ({
            let (rest, neg) = spec_strip_prefix(core@, false, false, false);
            let e = spec_exp_index(rest);
            let m = if e < 0 {
                rest
            } else {
                rest.take(e)
            };
            let ex = if e < 0 {
                Seq::<u8>::empty()
            } else {
                rest.skip(e)
            };
            p.0 == neg && p.1@ == decomma(m) + ex
        }),
{
    let cn = core.len();
    // strip at most one sign and one `$`, in either order
    let mut idx: usize = 0;
    let mut seen_sign = false;
    let mut seen_dollar = false;
    let mut neg = false;
    proof {
        assert(core@.skip(0) =~= core@);
    }
    while idx < cn && (((core[idx] == 0x2B || core[idx] == 0x2D) && !seen_sign) || (core[idx]
        == 0x24 && !seen_dollar))
        invariant
            0 <= idx <= cn,
            cn == core@.len(),
            spec_strip_prefix(core@, false, false, false) == spec_strip_prefix(
                core@.skip(idx as int),
                seen_sign,
                seen_dollar,
                neg,
            ),
        decreases cn - idx,
    {
        let ghost rest = core@.skip(idx as int);
        proof {
            assert(rest[0] == core@[idx as int]);
            assert(rest.drop_first() =~= core@.skip(idx + 1));
        }
        let b = core[idx];
        if (b == 0x2B || b == 0x2D) && !seen_sign {
            neg = b == 0x2D;
            seen_sign = true;
        } else {
            seen_dollar = true;
        }
        idx = idx + 1;
    }
    let rest = vstd::slice::slice_subrange(core, idx, cn);
    proof {
        assert(rest@ =~= core@.skip(idx as int));
        let grest = core@.skip(idx as int);
        if idx < cn {
            assert(grest[0] == core@[idx as int]);
        }
        assert(spec_strip_prefix(grest, seen_sign, seen_dollar, neg) == (grest, neg));
        assert(spec_strip_prefix(core@, false, false, false) == (grest, neg));
    }
    if rest.len() == 0 {
        return None;
    }
    let r0 = rest[0];
    if r0 == 0x2B || r0 == 0x2D {
        return None;
    }
    if contains_dollar(rest) {
        return None;
    }
    let rn = rest.len();
    let (m, ex) = match find_exp(rest) {
        Some(e) => {
            proof {
                crate::bytes::lemma_first_index_props(rest@, |b: u8| b == 0x65 || b == 0x45);
            }
            (vstd::slice::slice_subrange(rest, 0, e), vstd::slice::slice_subrange(rest, e, rn))
        },
        None => (rest, vstd::slice::slice_subrange(rest, rn, rn)),
    };
    proof {
        let e = spec_exp_index(rest@);
        if e >= 0 {
            assert(m@ =~= rest@.take(e));
            assert(ex@ =~= rest@.skip(e));
        } else {
            assert(m@ =~= rest@);
            assert(ex@ =~= Seq::<u8>::empty());
        }
    }
    // mantissa: integer part, fraction part
    let mn = m.len();
    let (ip, fp) = match find_dot(m) {
        Some(d) => {
            proof {
                crate::bytes::lemma_first_index_props(m@, |b: u8| b == 0x2E);
            }
            (vstd::slice::slice_subrange(m, 0, d), vstd::slice::slice_subrange(m, d + 1, mn))
        },
        None => (m, vstd::slice::slice_subrange(m, mn, mn)),
    };
    proof {
        let d = spec_dot_index(m@);
        if d >= 0 {
            assert(ip@ =~= m@.take(d));
            assert(fp@ =~= m@.skip(d + 1));
        } else {
            assert(ip@ =~= m@);
            assert(fp@ =~= Seq::<u8>::empty());
        }
    }
    if !int_part_ok_exec(ip) {
        return None;
    }
    if !all_digits_exec(fp) {
        return None;
    }
    // at least one digit between integer and fraction parts
    let mut t_digits: Vec<u8> = Vec::new();
    decomma_push(&mut t_digits, ip);
    crate::bytes::push_all(&mut t_digits, fp);
    proof {
        lemma_int_part_decomma_digits(ip@);
    }
    if t_digits.len() == 0 {
        proof {
            assert(decomma(ip@).len() == 0 && fp@.len() == 0);
            if spec_dot_index(m@) < 0 {
                if spec_comma_index(m@) < 0 {
                    lemma_decomma_all_digits(m@);
                    assert(m@.len() == 0);
                }
            }
            assert(!spec_mantissa_ok(m@));
        }
        return None;
    }
    proof {
        assert(spec_mantissa_ok(m@));
    }
    if !exp_ok_exec(ex) {
        return None;
    }
    if overflows_exec(m, ex, ip, fp, &t_digits) {
        return None;
    }
    // canonical body
    let mut out: Vec<u8> = Vec::new();
    decomma_push(&mut out, m);
    crate::bytes::push_all(&mut out, ex);
    proof {
        assert(spec_core_ok(core@));
    }
    Some((neg, out))
}

/// Parse the full token shape; `Some` carries the canonical text.
pub fn canonical_numeric(input: &[u8]) -> (r: Option<Vec<u8>>)
    ensures
        r is Some <==> spec_is_numeric(input@),
        r matches Some(v) ==> v@ == spec_canonical(input@),
{
    let t = ascii_trim(input);
    let tn = t.len();
    if tn == 0 {
        return None;
    }
    let has_paren = tn >= 2 && t[0] == 0x28 && t[tn - 1] == 0x29;
    let core = if has_paren {
        vstd::slice::slice_subrange(t, 1, tn - 1)
    } else {
        t
    };
    proof {
        if has_paren {
            assert(core@ =~= trim_of(input@).subrange(1, trim_of(input@).len() - 1));
        }
    }
    if core.len() == 0 {
        return None;
    }
    match parse_core(core) {
        None => None,
        Some((neg, body)) => {
            let mut out: Vec<u8> = Vec::new();
            if has_paren || neg {
                out.push(0x2D);
            }
            crate::bytes::push_all(&mut out, body.as_slice());
            proof {
                assert(out@ =~= spec_canonical(input@));
            }
            Some(out)
        },
    }
}

/// Returns true when the token parses as a number under the grammar.
pub fn is_numeric_token(input: &[u8]) -> (r: bool)
    ensures
        r == spec_is_numeric(input@),
{
    canonical_numeric(input).is_some()
}

/// Removing commas distributes over concatenation.
proof fn lemma_decomma_append(a: Seq<u8>, b: Seq<u8>)
    ensures
        decomma(a + b) == decomma(a) + decomma(b),
    decreases a.len(),
{
    if a.len() == 0 {
        assert(a + b =~= b);
        assert(decomma(a) + decomma(b) =~= decomma(b));
    } else {
        let ab = a + b;
        assert(ab[0] == a[0]);
        assert(ab.drop_first() =~= a.drop_first() + b);
        lemma_decomma_append(a.drop_first(), b);
        if a[0] != 0x2C {
            assert(seq![a[0]] + (decomma(a.drop_first()) + decomma(b)) =~= (seq![a[0]] + decomma(
                a.drop_first(),
            )) + decomma(b));
        }
    }
}

/// After the first group, a valid group list strips to digits only.
proof fn lemma_groups_decomma(s: Seq<u8>)
    requires
        spec_groups_ok(s),
    ensures
        all_digits(decomma(s)),
        decomma(s).len() > 0,
    decreases s.len(),
{
    let g = spec_comma_index(s);
    crate::bytes::lemma_first_index_props(s, |b: u8| b == 0x2C);
    if g < 0 {
        lemma_decomma_all_digits(s);
    } else {
        assert(s[3] == 0x2C);
        assert(s =~= s.take(3) + seq![s[3]] + s.skip(4));
        lemma_decomma_append(s.take(3) + seq![s[3]], s.skip(4));
        lemma_decomma_append(s.take(3), seq![s[3]]);
        assert(seq![s[3]].drop_first() =~= Seq::<u8>::empty());
        assert(decomma(Seq::<u8>::empty()) =~= Seq::<u8>::empty());
        assert(decomma(seq![s[3]]) =~= Seq::<u8>::empty());
        lemma_decomma_all_digits(s.take(3));
        lemma_groups_decomma(s.skip(4));
        assert(decomma(s.take(3)) + Seq::<u8>::empty() =~= s.take(3));
        assert(decomma(s) =~= s.take(3) + decomma(s.skip(4)));
    }
}

/// A valid integer part with commas removed holds digits only; with commas
/// present it holds at least one.
proof fn lemma_int_part_decomma_digits(ip: Seq<u8>)
    requires
        spec_int_part_ok(ip),
    ensures
        all_digits(decomma(ip)),
        spec_comma_index(ip) >= 0 ==> decomma(ip).len() > 0,
{
    let g = spec_comma_index(ip);
    crate::bytes::lemma_first_index_props(ip, |b: u8| b == 0x2C);
    if g < 0 {
        lemma_decomma_all_digits(ip);
    } else {
        assert(ip[g] == 0x2C);
        assert(ip =~= ip.take(g) + seq![ip[g]] + ip.skip(g + 1));
        lemma_decomma_append(ip.take(g) + seq![ip[g]], ip.skip(g + 1));
        lemma_decomma_append(ip.take(g), seq![ip[g]]);
        assert(seq![ip[g]].drop_first() =~= Seq::<u8>::empty());
        assert(decomma(Seq::<u8>::empty()) =~= Seq::<u8>::empty());
        assert(decomma(seq![ip[g]]) =~= Seq::<u8>::empty());
        lemma_decomma_all_digits(ip.take(g));
        lemma_groups_decomma(ip.skip(g + 1));
        assert(decomma(ip.take(g)) + Seq::<u8>::empty() =~= ip.take(g));
        assert(decomma(ip) =~= ip.take(g) + decomma(ip.skip(g + 1)));
    }
}

/// Removing commas from an all-digit sequence changes nothing.
proof fn lemma_decomma_all_digits(s: Seq<u8>)
    requires
        spec_int_part_ok(s) || all_digits(s),
    ensures
        all_digits(s) ==> decomma(s) == s,
    decreases s.len(),
{
    if all_digits(s) && s.len() > 0 {
        assert(is_digit(s[0]));
        assert(s[0] != 0x2C);
        assert(all_digits(s.drop_first()));
        lemma_decomma_all_digits(s.drop_first());
        assert(decomma(s) =~= seq![s[0]] + s.drop_first());
        assert(seq![s[0]] + s.drop_first() =~= s);
    } else if all_digits(s) {
        assert(decomma(s) =~= s);
    }
}

/// Pin down `spec_leading_zeros` from a scan that stopped at `z`.
proof fn lemma_leading_zeros_at(s: Seq<u8>, z: int)
    requires
        0 <= z <= s.len(),
        forall|j: int| 0 <= j < z ==> s[j] == 0x30,
        z == s.len() || s[z] != 0x30,
    ensures
        spec_leading_zeros(s) == z,
    decreases z,
{
    if z == 0 {
    } else {
        lemma_leading_zeros_at(s.drop_first(), z - 1);
    }
}

} // verus!

