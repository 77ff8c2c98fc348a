//! Byte-slice bedrock: equality, lexicographic order, hex and decimal
//! rendering, UTF-8 validity, and searching — everything the rest of the
//! crate needs to reason about raw bytes.

use vstd::prelude::*;
use vstd::string::StringSliceAdditionalSpecFns;

verus! {

/// Strict lexicographic order on byte sequences (shorter prefix first).
pub open spec fn lex_lt(a: Seq<u8>, b: Seq<u8>) -> bool
    decreases a.len(),
{
    if b.len() == 0 {
        false
    } else if a.len() == 0 {
        true
    } else if a[0] < b[0] {
        true
    } else if a[0] > b[0] {
        false
    } else {
        lex_lt(a.drop_first(), b.drop_first())
    }
}

/// Non-strict lexicographic order.
pub open spec fn lex_le(a: Seq<u8>, b: Seq<u8>) -> bool {
    lex_lt(a, b) || a == b
}

/// Exactly one of `a < b`, `a == b`, `b < a` holds.
pub proof fn lemma_lex_trichotomy(a: Seq<u8>, b: Seq<u8>)
    ensures
        lex_lt(a, b) || a == b || lex_lt(b, a),
        lex_lt(a, b) ==> !(a == b) && !lex_lt(b, a),
        a == b ==> !lex_lt(a, b) && !lex_lt(b, a),
    decreases a.len(),
{
    if b.len() == 0 {
        if a.len() == 0 {
            assert(a =~= b);
        }
    } else if a.len() == 0 {
    } else if a[0] == b[0] {
        lemma_lex_trichotomy(a.drop_first(), b.drop_first());
        if a.drop_first() == b.drop_first() {
            assert(a.len() == b.len());
            assert forall|i: int| 0 <= i < a.len() implies a[i] == b[i] by {
                if i > 0 {
                    assert(a[i] == a.drop_first()[i - 1]);
                    assert(b[i] == b.drop_first()[i - 1]);
                }
            }
            assert(a =~= b);
        }
        if a == b {
            assert(a.drop_first() =~= b.drop_first());
        }
    }
}

/// Lexicographic order is transitive.
pub proof fn lemma_lex_transitive(a: Seq<u8>, b: Seq<u8>, c: Seq<u8>)
    requires
        lex_lt(a, b),
        lex_lt(b, c),
    ensures
        lex_lt(a, c),
    decreases a.len(),
{
    if a.len() == 0 {
    } else if b.len() == 0 {
    } else if c.len() == 0 {
    } else {
        if a[0] == b[0] && b[0] == c[0] {
            lemma_lex_transitive(a.drop_first(), b.drop_first(), c.drop_first());
        }
    }
}

/// Byte-for-byte equality of two slices.
pub fn bytes_eq(a: &[u8], b: &[u8]) -> (r: bool)
    ensures
        r == (a@ == b@),
{
    if a.len() != b.len() {
        proof {
            assert(a@.len() != b@.len());
        }
        return false;
    }
    let n = a.len();
    let mut i: usize = 0;
    while i < n
        invariant
            0 <= i <= n,
            n == a@.len() && n == b@.len(),
            forall|j: int| 0 <= j < i ==> a@[j] == b@[j],
        decreases n - i,
    {
        if a[i] != b[i] {
            return false;
        }
        i = i + 1;
    }
    proof {
        assert(a@ =~= b@);
    }
    true
}

/// Strict lexicographic comparison of two slices.
pub fn bytes_lt(a: &[u8], b: &[u8]) -> (r: bool)
    ensures
        r == lex_lt(a@, b@),
{
    let an = a.len();
    let bn = b.len();
    let n = if an < bn {
        an
    } else {
        bn
    };
    let mut i: usize = 0;
    proof {
        assert(a@.skip(0) =~= a@);
        assert(b@.skip(0) =~= b@);
    }
    while i < n
        invariant
            0 <= i <= n,
            n == if a@.len() < b@.len() {
                a@.len()
            } else {
                b@.len()
            },
            forall|j: int| 0 <= j < i ==> a@[j] == b@[j],
            lex_lt(a@, b@) == lex_lt(a@.skip(i as int), b@.skip(i as int)),
        decreases n - i,
    {
        let x = a[i];
        let y = b[i];
        proof {
            let sa = a@.skip(i as int);
            let sb = b@.skip(i as int);
            assert(sa[0] == a@[i as int]);
            assert(sb[0] == b@[i as int]);
            assert(sa.drop_first() =~= a@.skip(i + 1));
            assert(sb.drop_first() =~= b@.skip(i + 1));
        }
        if x < y {
            return true;
        }
        if x > y {
            return false;
        }
        i = i + 1;
    }
    proof {
        let sa = a@.skip(i as int);
        let sb = b@.skip(i as int);
        if a@.len() < b@.len() {
            assert(sa.len() == 0);
            assert(sb.len() > 0);
        } else if a@.len() > b@.len() {
            assert(sb.len() == 0);
        } else {
            assert(sa.len() == 0 && sb.len() == 0);
        }
    }
    an < bn
}

/// Non-strict lexicographic comparison of two slices.
pub fn bytes_le(a: &[u8], b: &[u8]) -> (r: bool)
    ensures
        r == lex_le(a@, b@),
{
    proof {
        lemma_lex_trichotomy(a@, b@);
    }
    !bytes_lt(b, a)
}

/// The low hex digit (lower case) for a nibble.
pub open spec fn spec_hex_digit(n: u8) -> u8 {
    if n < 10 {
        (0x30 + n) as u8
    } else {
        (0x61 + (n - 10)) as u8
    }
}

/// Lower-case hex rendering of a byte sequence, two digits per byte.
pub open spec fn hex_bytes_of(s: Seq<u8>) -> Seq<u8>
    decreases s.len(),
{
    if s.len() == 0 {
        Seq::<u8>::empty()
    } else {
        hex_bytes_of(s.drop_last()) + seq![
            spec_hex_digit(s[s.len() - 1] / 16),
            spec_hex_digit(s[s.len() - 1] % 16),
        ]
    }
}

/// Hex rendering is injective: distinct inputs render differently.
pub proof fn lemma_hex_injective(a: Seq<u8>, b: Seq<u8>)
    requires
        hex_bytes_of(a) == hex_bytes_of(b),
    ensures
        a == b,
    decreases a.len(),
{
    lemma_hex_len(a);
    lemma_hex_len(b);
    if a.len() == 0 {
        assert(a =~= b);
    } else {
        let ha = hex_bytes_of(a);
        let hb = hex_bytes_of(b);
        lemma_hex_len(a.drop_last());
        lemma_hex_len(b.drop_last());
        assert(hex_bytes_of(a.drop_last()) =~= ha.take(ha.len() - 2));
        assert(hex_bytes_of(b.drop_last()) =~= hb.take(hb.len() - 2));
        lemma_hex_injective(a.drop_last(), b.drop_last());
        let x = a[a.len() - 1];
        let y = b[b.len() - 1];
        assert(spec_hex_digit(x / 16) == ha[ha.len() - 2] && spec_hex_digit(x % 16) == ha[ha.len()
            - 1]);
        assert(spec_hex_digit(y / 16) == hb[hb.len() - 2] && spec_hex_digit(y % 16) == hb[hb.len()
            - 1]);
        lemma_hex_digit_injective(x / 16, y / 16);
        lemma_hex_digit_injective(x % 16, y % 16);
        assert(x == y);
        assert(a =~= a.drop_last().push(x));
        assert(b =~= b.drop_last().push(y));
    }
}

proof fn lemma_hex_digit_injective(m: u8, n: u8)
    requires
        m < 16,
        n < 16,
        spec_hex_digit(m) == spec_hex_digit(n),
    ensures
        m == n,
{
}

pub proof fn lemma_hex_len(s: Seq<u8>)
    ensures
        hex_bytes_of(s).len() == 2 * s.len(),
    decreases s.len(),
{
    if s.len() > 0 {
        lemma_hex_len(s.drop_last());
    }
}

/// Append the lower-case hex digits of `s` to `out`.
pub fn push_hex_bytes(out: &mut Vec<u8>, s: &[u8])
    ensures
        final(out)@ == old(out)@ + hex_bytes_of(s@),
{
    let n = s.len();
    let mut i: usize = 0;
    while i < n
        invariant
            0 <= i <= n,
            n == s@.len(),
            out@ == old(out)@ + hex_bytes_of(s@.take(i as int)),
        decreases n - i,
    {
        let b = s[i];
        let hi = b / 16;
        let lo = b % 16;
        out.push(if hi < 10 {
            0x30 + hi
        } else {
            0x61 + (hi - 10)
        });
        out.push(if lo < 10 {
            0x30 + lo
        } else {
            0x61 + (lo - 10)
        });
        proof {
            let t = s@.take(i + 1);
            assert(t.drop_last() =~= s@.take(i as int));
            assert(t[t.len() - 1] == b);
        }
        i = i + 1;
    }
    proof {
        assert(s@.take(n as int) =~= s@);
    }
}

/// Decimal digits of a natural number, most significant first.
pub open spec fn dec_digits_of(n: nat) -> Seq<u8>
    decreases n,
{
    if n < 10 {
        seq![(0x30 + n) as u8]
    } else {
        dec_digits_of(n / 10).push((0x30 + n % 10) as u8)
    }
}

/// Append the decimal rendering of `n` to `out`.
pub fn push_dec_u64(out: &mut Vec<u8>, n: u64)
    ensures
        final(out)@ == old(out)@ + dec_digits_of(n as nat),
{
    let mut rev: Vec<u8> = Vec::new();
    let mut m = n;
    loop
        invariant_except_break
            dec_digits_of(n as nat) == dec_digits_of(m as nat) + rev@.reverse(),
        ensures
            dec_digits_of(n as nat) == rev@.reverse(),
        decreases m,
    {
        proof {
            let r0 = rev@;
            let d = (0x30 + m % 10) as u8;
            if m >= 10 {
                assert(dec_digits_of((m as nat) / 10).push(d).add(r0.reverse()) =~= dec_digits_of(
                    (m as nat) / 10,
                ).add(r0.push(d).reverse()));
            } else {
                assert(seq![d].add(r0.reverse()) =~= r0.push(d).reverse());
                assert(dec_digits_of(m as nat) + r0.reverse() =~= r0.push(d).reverse());
            }
        }
        rev.push(0x30 + (m % 10) as u8);
        if m < 10 {
            break ;
        }
        m = m / 10;
    }
    let k = rev.len();
    let mut i: usize = 0;
    proof {
        assert(dec_digits_of(n as nat) =~= rev@.reverse());
        assert(rev@.reverse().len() == k);
    }
    while i < k
        invariant
            0 <= i <= k,
            k == rev@.len(),
            dec_digits_of(n as nat) == rev@.reverse(),
            out@ == old(out)@ + rev@.reverse().take(i as int),
        decreases k - i,
    {
        out.push(rev[k - 1 - i]);
        proof {
            assert(rev@.reverse().take(i + 1) =~= rev@.reverse().take(i as int).push(
                rev@[k - 1 - i],
            ));
        }
        i = i + 1;
    }
    proof {
        assert(rev@.reverse().take(k as int) =~= rev@.reverse());
    }
}

/// Decimal rendering never produces an empty digit string and never a
/// leading zero unless the number itself is zero.
pub proof fn lemma_dec_digits_form(n: nat)
    ensures
        dec_digits_of(n).len() > 0,
        forall|i: int|
            0 <= i < dec_digits_of(n).len() ==> 0x30 <= #[trigger] dec_digits_of(n)[i] <= 0x39,
        n > 0 ==> dec_digits_of(n)[0] != 0x30,
        n == 0 ==> dec_digits_of(n) =~= seq![0x30u8],
    decreases n,
{
    if n >= 10 {
        lemma_dec_digits_form(n / 10);
    }
}

/// True when the byte is an ASCII control byte for identifier purposes
/// (0x00–0x1F or DEL).
pub open spec fn spec_is_control(b: u8) -> bool {
    b <= 0x1F || b == 0x7F
}

/// Whether any byte of the sequence is an ASCII control byte.
pub open spec fn spec_has_control(s: Seq<u8>) -> bool {
    exists|i: int| 0 <= i < s.len() && spec_is_control(s[i])
}

/// Returns true if the slice holds an ASCII control byte (&lt;= 0x1F or 0x7F).
pub fn has_ascii_control(s: &[u8]) -> (r: bool)
    ensures
        r == spec_has_control(s@),
{
    let n = s.len();
    let mut i: usize = 0;
    while i < n
        invariant
            0 <= i <= n,
            n == s@.len(),
            forall|j: int| 0 <= j < i ==> !spec_is_control(s@[j]),
        decreases n - i,
    {
        let b = s[i];
        if b <= 0x1F || b == 0x7F {
            return true;
        }
        i = i + 1;
    }
    false
}

/// UTF-8 validity of a byte sequence, by the standard table: one- to
/// four-byte encodings, continuation bytes `80..BF`, no overlong forms,
/// no surrogates, nothing above `U+10FFFF`.
pub open spec fn spec_valid_utf8(s: Seq<u8>) -> bool
    decreases s.len(),
{
    if s.len() == 0 {
        true
    } else {
        let b0 = s[0];
        if b0 < 0x80 {
            spec_valid_utf8(s.drop_first())
        } else if 0xC2 <= b0 && b0 <= 0xDF {
            s.len() >= 2 && is_cont(s[1]) && spec_valid_utf8(s.skip(2))
        } else if b0 == 0xE0 {
            s.len() >= 3 && 0xA0 <= s[1] && s[1] <= 0xBF && is_cont(s[2]) && spec_valid_utf8(
                s.skip(3),
            )
        } else if 0xE1 <= b0 && b0 <= 0xEC {
            s.len() >= 3 && is_cont(s[1]) && is_cont(s[2]) && spec_valid_utf8(s.skip(3))
        } else if b0 == 0xED {
            s.len() >= 3 && 0x80 <= s[1] && s[1] <= 0x9F && is_cont(s[2]) && spec_valid_utf8(
                s.skip(3),
            )
        } else if 0xEE <= b0 && b0 <= 0xEF {
            s.len() >= 3 && is_cont(s[1]) && is_cont(s[2]) && spec_valid_utf8(s.skip(3))
        } else if b0 == 0xF0 {
            s.len() >= 4 && 0x90 <= s[1] && s[1] <= 0xBF && is_cont(s[2]) && is_cont(s[3])
                && spec_valid_utf8(s.skip(4))
        } else if 0xF1 <= b0 && b0 <= 0xF3 {
            s.len() >= 4 && is_cont(s[1]) && is_cont(s[2]) && is_cont(s[3]) && spec_valid_utf8(
                s.skip(4),
            )
        } else if b0 == 0xF4 {
            s.len() >= 4 && 0x80 <= s[1] && s[1] <= 0x8F && is_cont(s[2]) && is_cont(s[3])
                && spec_valid_utf8(s.skip(4))
        } else {
            false
        }
    }
}

/// A UTF-8 continuation byte: `80..BF`.
pub open spec fn is_cont(b: u8) -> bool {
    0x80 <= b && b <= 0xBF
}

fn cont_at(s: &[u8], i: usize) -> (r: bool)
    requires
        i < s@.len(),
    ensures
        r == is_cont(s@[i as int]),
{
    let b = s[i];
    0x80 <= b && b <= 0xBF
}

/// Returns true if the slice is valid UTF-8.
pub fn is_valid_utf8(s: &[u8]) -> (r: bool)
    ensures
        r == spec_valid_utf8(s@),
{
    let n = s.len();
    let mut i: usize = 0;
    proof {
        assert(s@.skip(0) =~= s@);
    }
    while i < n
        invariant
            0 <= i <= n,
            n == s@.len(),
            spec_valid_utf8(s@) == spec_valid_utf8(s@.skip(i as int)),
        decreases n - i,
    {
        let ghost rest = s@.skip(i as int);
        proof {
            assert(rest[0] == s@[i as int]);
            assert(rest.drop_first() =~= s@.skip(i + 1));
        }
        let b0 = s[i];
        if b0 < 0x80 {
            i = i + 1;
        } else if 0xC2 <= b0 && b0 <= 0xDF {
            if n - i < 2 || !cont_at(s, i + 1) {
                proof {
                    assert(rest.len() >= 2 ==> rest[1] == s@[i + 1]);
                }
                return false;
            }
            proof {
                assert(rest[1] == s@[i + 1]);
                assert(rest.skip(2) =~= s@.skip(i + 2));
            }
            i = i + 2;
        } else if b0 == 0xE0 || (0xE1 <= b0 && b0 <= 0xEF) {
            if n - i < 3 {
                proof {
                    assert(rest.len() < 3);
                }
                return false;
            }
            let b1 = s[i + 1];
            let b2 = s[i + 2];
            proof {
                assert(rest[1] == s@[i + 1] && rest[2] == s@[i + 2]);
                assert(rest.skip(3) =~= s@.skip(i + 3));
            }
            let ok1 = if b0 == 0xE0 {
                0xA0 <= b1 && b1 <= 0xBF
            } else if b0 == 0xED {
                0x80 <= b1 && b1 <= 0x9F
            } else {
                0x80 <= b1 && b1 <= 0xBF
            };
            if !ok1 || !(0x80 <= b2 && b2 <= 0xBF) {
                return false;
            }
            i = i + 3;
        } else if 0xF0 <= b0 && b0 <= 0xF4 {
            if n - i < 4 {
                proof {
                    assert(rest.len() < 4);
                }
                return false;
            }
            let b1 = s[i + 1];
            let b2 = s[i + 2];
            let b3 = s[i + 3];
            proof {
                assert(rest[1] == s@[i + 1] && rest[2] == s@[i + 2] && rest[3] == s@[i + 3]);
                assert(rest.skip(4) =~= s@.skip(i + 4));
            }
            let ok1 = if b0 == 0xF0 {
                0x90 <= b1 && b1 <= 0xBF
            } else if b0 == 0xF4 {
                0x80 <= b1 && b1 <= 0x8F
            } else {
                0x80 <= b1 && b1 <= 0xBF
            };
            if !ok1 || !(0x80 <= b2 && b2 <= 0xBF) || !(0x80 <= b3 && b3 <= 0xBF) {
                return false;
            }
            i = i + 4;
        } else {
            return false;
        }
    }
    proof {
        assert(s@.skip(n as int) =~= Seq::<u8>::empty());
    }
    true
}

/// Index of the first byte satisfying `p`, or -1 when there is none.
pub open spec fn first_index_where(s: Seq<u8>, p: spec_fn(u8) -> bool) -> int
    decreases s.len(),
{
    if s.len() == 0 {
        -1
    } else if p(s[0]) {
        0
    } else {
        let r = first_index_where(s.drop_first(), p);
        if r < 0 {
            -1
        } else {
            1 + r
        }
    }
}

/// Pin down `first_index_where` from a scan that stopped at `i`.
pub proof fn lemma_first_index_at(s: Seq<u8>, p: spec_fn(u8) -> bool, i: int)
    requires
        0 <= i <= s.len(),
        forall|j: int| 0 <= j < i ==> !p(s[j]),
        i == s.len() || p(s[i]),
    ensures
        i < s.len() ==> first_index_where(s, p) == i,
        i == s.len() ==> first_index_where(s, p) < 0,
    decreases i,
{
    if i == 0 {
    } else {
        lemma_first_index_at(s.drop_first(), p, i - 1);
    }
}

/// Basic facts about a found index: it is in range, satisfies `p`, and is
/// the first to do so.
pub proof fn lemma_first_index_props(s: Seq<u8>, p: spec_fn(u8) -> bool)
    ensures
        first_index_where(s, p) >= 0 ==> {
            &&& first_index_where(s, p) < s.len()
            &&& p(s[first_index_where(s, p)])
            &&& forall|j: int| 0 <= j < first_index_where(s, p) ==> !p(s[j])
        },
        first_index_where(s, p) < 0 ==> forall|j: int| 0 <= j < s.len() ==> !p(s[j]),
    decreases s.len(),
{
    if s.len() > 0 && !p(s[0]) {
        let t = s.drop_first();
        lemma_first_index_props(t, p);
        assert forall|j: int| 1 <= j < s.len() implies s[j] == t[j - 1] by {}
        if first_index_where(s, p) >= 0 {
            assert forall|j: int| 0 <= j < first_index_where(s, p) implies !p(s[j]) by {
                if j > 0 {
                    assert(s[j] == t[j - 1]);
                }
            }
        } else {
            assert forall|j: int| 0 <= j < s.len() implies !p(s[j]) by {
                if j > 0 {
                    assert(s[j] == t[j - 1]);
                }
            }
        }
    }
}

/// The byte views of a sequence of byte vectors.
pub open spec fn views_of(s: Seq<Vec<u8>>) -> Seq<Seq<u8>> {
    s.map_values(|v: Vec<u8>| v@)
}

/// Pushing a vector appends its view.
pub proof fn lemma_views_push(s: Seq<Vec<u8>>, v: Vec<u8>)
    ensures
        views_of(s.push(v)) == views_of(s) + seq![v@],
{
    assert(views_of(s.push(v)) =~= views_of(s) + seq![v@]);
}

/// Non-strict order is transitive.
pub proof fn lemma_lex_le_trans(a: Seq<u8>, b: Seq<u8>, c: Seq<u8>)
    requires
        lex_le(a, b),
        lex_le(b, c),
    ensures
        lex_le(a, c),
{
    if lex_lt(a, b) && lex_lt(b, c) {
        lemma_lex_transitive(a, b, c);
    }
}

/// Sort byte vectors ascending by raw bytes (insertion sort).
pub fn sort_byte_vecs(v: Vec<Vec<u8>>) -> (r: Vec<Vec<u8>>)
    ensures
        views_of(r@).to_multiset() == views_of(v@).to_multiset(),
        r@.len() == v@.len(),
        forall|i: int, j: int|
            0 <= i < j < r@.len() ==> lex_le(
                #[trigger] views_of(r@)[i],
                #[trigger] views_of(r@)[j],
            ),
{
    let n = v.len();
    let mut input = v;
    let mut out: Vec<Vec<u8>> = Vec::new();
    let mut k: usize = 0;
    proof {
        assert(views_of(out@) =~= Seq::<Seq<u8>>::empty());
        assert(views_of(input@).take(0) =~= Seq::<Seq<u8>>::empty());
        assert(Seq::<Seq<u8>>::empty().to_multiset() =~= views_of(out@).to_multiset());
    }
    while k < n
        invariant
            0 <= k <= n,
            n == input@.len(),
            out@.len() == k,
            views_of(out@).to_multiset() == views_of(input@).take(k as int).to_multiset(),
            forall|i: int, j: int|
                0 <= i < j < out@.len() ==> lex_le(
                    #[trigger] views_of(out@)[i],
                    #[trigger] views_of(out@)[j],
                ),
        decreases n - k,
    {
        proof {
            assert(views_of(input@)[k as int] == input@[k as int]@);
        }
        let x = to_vec_bytes(input[k].as_slice());
        // find the first strictly greater element
        let mut p: usize = 0;
        while p < out.len() && !bytes_lt(x.as_slice(), out[p].as_slice())
            invariant
                0 <= p <= out@.len(),
                x@ == input@[k as int]@,
                forall|j: int| 0 <= j < p ==> lex_le(#[trigger] views_of(out@)[j], x@),
            decreases out@.len() - p,
        {
            proof {
                assert(views_of(out@)[p as int] == out@[p as int]@);
                lemma_lex_trichotomy(x@, out@[p as int]@);
            }
            p = p + 1;
        }
        proof {
            if p < out@.len() {
                assert(views_of(out@)[p as int] == out@[p as int]@);
            }
        }
        let ghost pre = out@;
        out.insert(p, x);
        proof {
            let pv = views_of(pre);
            let nv = views_of(out@);
            assert(nv =~= pv.insert(p as int, x@));
            // multiset: removing the inserted element gives back the old views
            let t = pv.insert(p as int, x@);
            assert(t.remove(p as int) =~= pv);
            broadcast use vstd::seq_lib::group_to_multiset_ensures;

            assert(t.remove(p as int).to_multiset() =~= t.to_multiset().remove(t[p as int]));
            assert(t[p as int] == x@);
            assert(t.to_multiset().count(x@) > 0) by {
                assert(t.contains(x@));
            }
            assert(t.to_multiset() =~= pv.to_multiset().insert(x@));
            assert(views_of(input@).take(k + 1) =~= views_of(input@).take(k as int).push(
                input@[k as int]@,
            ));
            // sortedness around the insertion point
            assert forall|i: int, j: int|
                0 <= i < j < nv.len() implies lex_le(#[trigger] nv[i], #[trigger] nv[j]) by {
                if i < p && j == p {
                    assert(nv[i] == pv[i]);
                } else if i == p && j > p {
                    assert(nv[j] == pv[j - 1]);
                    if p < pv.len() {
                        lemma_lex_trichotomy(x@, pv[p as int]);
                        if j - 1 > p {
                            lemma_lex_le_trans(x@, pv[p as int], pv[j - 1]);
                        }
                    }
                } else if i < p && j > p {
                    assert(nv[i] == pv[i] && nv[j] == pv[j - 1]);
                } else if i > p && j > p {
                    assert(nv[i] == pv[i - 1] && nv[j] == pv[j - 1]);
                }
            }
        }
        k = k + 1;
    }
    proof {
        assert(views_of(input@).take(n as int) =~= views_of(input@));
    }
    out
}

/// The field views of a sequence of records (vectors of byte vectors).
pub open spec fn views_of_records(s: Seq<Vec<Vec<u8>>>) -> Seq<Seq<Seq<u8>>> {
    s.map_values(|r: Vec<Vec<u8>>| views_of(r@))
}

/// Pushing a record appends its field views.
pub proof fn lemma_record_views_push(s: Seq<Vec<Vec<u8>>>, r: Vec<Vec<u8>>)
    ensures
        views_of_records(s.push(r)) == views_of_records(s) + seq![views_of(r@)],
{
    assert(views_of_records(s.push(r)) =~= views_of_records(s) + seq![views_of(r@)]);
}

/// Compare two lists of byte vectors for equality of their contents.
pub fn byte_vecs_equal(a: &Vec<Vec<u8>>, b: &Vec<Vec<u8>>) -> (r: bool)
    ensures
        r == (views_of(a@) == views_of(b@)),
{
    let n = a.len();
    if n != b.len() {
        proof {
            assert(views_of(a@).len() != views_of(b@).len());
        }
        return false;
    }
    let mut i: usize = 0;
    while i < n
        invariant
            0 <= i <= n,
            n == a@.len() && n == b@.len(),
            forall|j: int| 0 <= j < i ==> views_of(a@)[j] == views_of(b@)[j],
        decreases n - i,
    {
        proof {
            assert(views_of(a@)[i as int] == a@[i as int]@);
            assert(views_of(b@)[i as int] == b@[i as int]@);
        }
        if !bytes_eq(a[i].as_slice(), b[i].as_slice()) {
            return false;
        }
        i = i + 1;
    }
    proof {
        assert(views_of(a@) =~= views_of(b@));
    }
    true
}

/// Append a whole slice to a byte vector.
pub fn push_all(out: &mut Vec<u8>, s: &[u8])
    ensures
        final(out)@ == old(out)@ + s@,
{
    let n = s.len();
    let mut i: usize = 0;
    while i < n
        invariant
            0 <= i <= n,
            n == s@.len(),
            out@ == old(out)@ + s@.take(i as int),
        decreases n - i,
    {
        out.push(s[i]);
        proof {
            assert(s@.take(i + 1) =~= s@.take(i as int).push(s@[i as int]));
        }
        i = i + 1;
    }
    proof {
        assert(s@.take(n as int) =~= s@);
    }
}

/// Append the bytes of a string to a byte vector.
pub fn push_str_bytes(out: &mut Vec<u8>, s: &str)
    ensures
        final(out)@ == old(out)@ + s.spec_bytes(),
{
    push_all(out, s.as_bytes());
}

/// Copy a slice into a fresh byte vector.
pub fn to_vec_bytes(s: &[u8]) -> (r: Vec<u8>)
    ensures
        r@ == s@,
{
    let mut out: Vec<u8> = Vec::new();
    push_all(&mut out, s);
    out
}

} // verus!
