//! Lexicographic order on sequences, and the order of strings: Rust orders
//! strings by their UTF-8 bytes, which is proved here to rank them as their
//! code points do.
use vstd::prelude::*;
use vstd::utf8::{
    encode_scalar, encode_utf8, has_width_1_encoding, has_width_2_encoding, has_width_3_encoding,
    has_width_4_encoding, is_scalar, last_continuation_byte, leading_byte_width_1,
    leading_byte_width_2, leading_byte_width_3, leading_byte_width_4,
    second_last_continuation_byte, third_last_continuation_byte,
};

verus! {

/// `a` and `b` agree on their first `i` elements.
pub open spec fn agree_before(a: Seq<int>, b: Seq<int>, i: int) -> bool {
    forall|j: int| 0 <= j < i ==> a[j] == b[j]
}

/// `a` is above `b` at index `k`, having agreed before it.
pub open spec fn above_at(a: Seq<int>, b: Seq<int>, k: int) -> bool {
    ||| (k < a.len() && k < b.len() && a[k] > b[k])
    ||| (k == b.len() && k < a.len())
}

/// Lexicographic order: `a` is greater than `b` at the first index where they
/// differ, or `b` is a proper prefix of `a`.
pub open spec fn lex_gt(a: Seq<int>, b: Seq<int>) -> bool {
    exists|k: int| 0 <= k <= a.len() && k <= b.len() && #[trigger] agree_before(a, b, k) && above_at(a, b, k)
}

/// Characters as their code points.
pub open spec fn char_ints(s: Seq<char>) -> Seq<int> {
    s.map_values(|c: char| (c as u32) as int)
}

/// Of two sequences, at most one is above the other.
pub proof fn lemma_lex_asymmetric(a: Seq<int>, b: Seq<int>)
    ensures
        !(lex_gt(a, b) && lex_gt(b, a)),
{
    if lex_gt(a, b) && lex_gt(b, a) {
        let k1 = choose|k: int| 0 <= k <= a.len() && k <= b.len() && #[trigger] agree_before(a, b, k) && above_at(a, b, k);
        let k2 = choose|k: int| 0 <= k <= b.len() && k <= a.len() && #[trigger] agree_before(b, a, k) && above_at(b, a, k);
        if k1 < k2 {
            assert(b[k1] == a[k1]);
        } else if k2 < k1 {
            assert(a[k2] == b[k2]);
        }
    }
}

/// No sequence is above itself.
pub proof fn lemma_lex_irreflexive(a: Seq<int>)
    ensures
        !lex_gt(a, a),
{
    lemma_lex_asymmetric(a, a);
}

/// Lexicographic order is transitive.
pub proof fn lemma_lex_transitive(a: Seq<int>, b: Seq<int>, c: Seq<int>)
    requires
        lex_gt(a, b),
        lex_gt(b, c),
    ensures
        lex_gt(a, c),
{
    let k1 = choose|k: int| 0 <= k <= a.len() && k <= b.len() && #[trigger] agree_before(a, b, k) && above_at(a, b, k);
    let k2 = choose|k: int| 0 <= k <= b.len() && k <= c.len() && #[trigger] agree_before(b, c, k) && above_at(b, c, k);
    if k1 < k2 {
        assert(agree_before(a, c, k1));
        assert(above_at(a, c, k1));
    } else if k2 < k1 {
        assert(agree_before(a, c, k2));
        assert(a[k2] == b[k2]);
        assert(above_at(a, c, k2));
    } else {
        assert(agree_before(a, c, k1));
        assert(above_at(a, c, k1));
    }
}

proof fn lemma_lex_scan(a: Seq<int>, b: Seq<int>, i: int)
    requires
        0 <= i <= a.len(),
        i <= b.len(),
        agree_before(a, b, i),
    ensures
        a == b || lex_gt(a, b) || lex_gt(b, a),
    decreases a.len() - i,
{
    if i == a.len() || i == b.len() {
        if a.len() == b.len() {
            assert(a =~= b);
        } else if b.len() < a.len() {
            assert(above_at(a, b, i));
        } else {
            assert(agree_before(b, a, i));
            assert(above_at(b, a, i));
        }
    } else if a[i] != b[i] {
        if a[i] > b[i] {
            assert(above_at(a, b, i));
        } else {
            assert(agree_before(b, a, i));
            assert(above_at(b, a, i));
        }
    } else {
        lemma_lex_scan(a, b, i + 1);
    }
}

/// Two different sequences are ordered one way or the other.
pub proof fn lemma_lex_total(a: Seq<int>, b: Seq<int>)
    ensures
        a == b || lex_gt(a, b) || lex_gt(b, a),
{
    lemma_lex_scan(a, b, 0);
}

/// Whether `a` is above `b` in lexicographic order of code points.
pub fn chars_gt(a: &Vec<char>, b: &Vec<char>) -> (r: bool)
    ensures
        r == lex_gt(char_ints(a@), char_ints(b@)),
{
    let ghost (x, y) = (char_ints(a@), char_ints(b@));
    let mut i: usize = 0;
    while i < a.len() && i < b.len()
        invariant
            i <= a.len(),
            i <= b.len(),
            x == char_ints(a@),
            y == char_ints(b@),
            agree_before(x, y, i as int),
        decreases a.len() - i,
    {
        let (ca, cb) = (a[i] as u32, b[i] as u32);
        assert(x[i as int] == ca as int && y[i as int] == cb as int);
        if ca != cb {
            proof {
                if ca > cb {
                    assert(above_at(x, y, i as int));
                } else {
                    assert(agree_before(y, x, i as int));
                    assert(above_at(y, x, i as int));
                    lemma_lex_asymmetric(x, y);
                }
            }
            return ca > cb;
        }
        i = i + 1;
    }
    proof {
        if a.len() == b.len() {
            assert(x =~= y);
            lemma_lex_irreflexive(x);
        } else if b.len() < a.len() {
            assert(above_at(x, y, i as int));
        } else {
            assert(agree_before(y, x, i as int));
            assert(above_at(y, x, i as int));
            lemma_lex_asymmetric(x, y);
        }
    }
    a.len() > b.len()
}

/// Bytes as integers.
pub open spec fn byte_ints(s: Seq<u8>) -> Seq<int> {
    s.map_values(|b: u8| b as int)
}

/// `a` is above `b` as Rust orders strings: by their UTF-8 bytes.
pub open spec fn str_gt(a: Seq<char>, b: Seq<char>) -> bool {
    lex_gt(byte_ints(encode_utf8(a)), byte_ints(encode_utf8(b)))
}

/// `u` is below `v` at index `k`, both having agreed before it.
pub open spec fn below_at(u: Seq<u8>, v: Seq<u8>, k: int) -> bool {
    0 <= k < u.len() && k < v.len() && u.take(k) == v.take(k) && u[k] < v[k]
}

proof fn lemma_leading_bytes(x: u32)
    by (bit_vector)
    ensures
        has_width_1_encoding(x) ==> leading_byte_width_1(x) <= 0x7f && leading_byte_width_1(x) == x,
        has_width_2_encoding(x) ==> 0xc0 <= leading_byte_width_2(x) && leading_byte_width_2(x) <= 0xdf,
        has_width_3_encoding(x) ==> 0xe0 <= leading_byte_width_3(x) && leading_byte_width_3(x) <= 0xef,
        has_width_4_encoding(x) ==> 0xf0 <= leading_byte_width_4(x) && leading_byte_width_4(x) <= 0xf7,
{
}

proof fn lemma_width_2_order(x: u32, y: u32)
    by (bit_vector)
    requires
        0x80 <= x,
        x < y,
        y <= 0x7ff,
    ensures
        leading_byte_width_2(x) < leading_byte_width_2(y) || (leading_byte_width_2(x)
            == leading_byte_width_2(y) && last_continuation_byte(x) < last_continuation_byte(y)),
{
}

proof fn lemma_width_3_order(x: u32, y: u32)
    by (bit_vector)
    requires
        0x800 <= x,
        x < y,
        y <= 0xffff,
    ensures
        leading_byte_width_3(x) < leading_byte_width_3(y) || (leading_byte_width_3(x)
            == leading_byte_width_3(y) && (second_last_continuation_byte(x)
            < second_last_continuation_byte(y) || (second_last_continuation_byte(x)
            == second_last_continuation_byte(y) && last_continuation_byte(x)
            < last_continuation_byte(y)))),
{
}

proof fn lemma_width_4_order(x: u32, y: u32)
    by (bit_vector)
    requires
        0x10000 <= x,
        x < y,
        y <= 0x10ffff,
    ensures
        leading_byte_width_4(x) < leading_byte_width_4(y) || (leading_byte_width_4(x)
            == leading_byte_width_4(y) && (third_last_continuation_byte(x)
            < third_last_continuation_byte(y) || (third_last_continuation_byte(x)
            == third_last_continuation_byte(y) && (second_last_continuation_byte(x)
            < second_last_continuation_byte(y) || (second_last_continuation_byte(x)
            == second_last_continuation_byte(y) && last_continuation_byte(x)
            < last_continuation_byte(y)))))),
{
}

/// The encodings of two scalars first differ inside both, and the smaller
/// scalar has the smaller byte there.
proof fn lemma_scalar_order(x: u32, y: u32) -> (k: int)
    requires
        is_scalar(x),
        is_scalar(y),
        x < y,
    ensures
        below_at(encode_scalar(x), encode_scalar(y), k),
{
    lemma_leading_bytes(x);
    lemma_leading_bytes(y);
    let ex = encode_scalar(x);
    let ey = encode_scalar(y);
    let same_class = (has_width_1_encoding(x) && has_width_1_encoding(y)) || (
    has_width_2_encoding(x) && has_width_2_encoding(y)) || (has_width_3_encoding(x)
        && has_width_3_encoding(y)) || (has_width_4_encoding(x) && has_width_4_encoding(y));
    if !same_class || ex[0] < ey[0] {
        assert(ex[0] < ey[0]);
        assert(ex.take(0) =~= ey.take(0));
        return 0;
    }
    if has_width_2_encoding(x) {
        lemma_width_2_order(x, y);
        assert(ex.take(1) =~= ey.take(1));
        return 1;
    }
    if has_width_3_encoding(x) {
        lemma_width_3_order(x, y);
        if ex[1] < ey[1] {
            assert(ex.take(1) =~= ey.take(1));
            return 1;
        }
        assert(ex.take(2) =~= ey.take(2));
        return 2;
    }
    lemma_width_4_order(x, y);
    if ex[1] < ey[1] {
        assert(ex.take(1) =~= ey.take(1));
        return 1;
    }
    if ex[2] < ey[2] {
        assert(ex.take(2) =~= ey.take(2));
        return 2;
    }
    assert(ex.take(3) =~= ey.take(3));
    3
}

proof fn lemma_lex_common_prefix(p: Seq<int>, x: Seq<int>, y: Seq<int>)
    ensures
        lex_gt(p + x, p + y) == lex_gt(x, y),
{
    let (a, b) = (p + x, p + y);
    let n = p.len() as int;
    if lex_gt(x, y) {
        let k = choose|k: int| 0 <= k <= x.len() && k <= y.len() && #[trigger] agree_before(x, y, k) && above_at(x, y, k);
        assert forall|j: int| 0 <= j < k + n implies a[j] == b[j] by {
            if j >= n {
                assert(x[j - n] == y[j - n]);
            }
        }
        assert(agree_before(a, b, k + n));
        assert(above_at(a, b, k + n));
    }
    if lex_gt(a, b) {
        let k = choose|k: int| 0 <= k <= a.len() && k <= b.len() && #[trigger] agree_before(a, b, k) && above_at(a, b, k);
        if k < n {
            assert(a[k] == p[k] && b[k] == p[k]);
        }
        assert forall|j: int| 0 <= j < k - n implies x[j] == y[j] by {
            assert(a[j + n] == b[j + n]);
        }
        assert(agree_before(x, y, k - n));
        assert(above_at(x, y, k - n));
    }
}

proof fn lemma_lex_first_difference(u: Seq<u8>, s: Seq<u8>, v: Seq<u8>, t: Seq<u8>, k: int)
    requires
        below_at(v, u, k),
    ensures
        lex_gt(byte_ints(u + s), byte_ints(v + t)),
        !lex_gt(byte_ints(v + t), byte_ints(u + s)),
{
    let (a, b) = (byte_ints(u + s), byte_ints(v + t));
    assert forall|j: int| 0 <= j < k implies a[j] == b[j] by {
        assert(u.take(k)[j] == v.take(k)[j]);
    }
    assert(agree_before(a, b, k));
    assert(above_at(a, b, k));
    lemma_lex_asymmetric(a, b);
}

/// Comparing strings by code point and comparing them by UTF-8 bytes agree.
pub proof fn lemma_utf8_order(a: Seq<char>, b: Seq<char>)
    ensures
        lex_gt(char_ints(a), char_ints(b)) == str_gt(a, b),
    decreases a.len(),
{
    let (ca, cb) = (char_ints(a), char_ints(b));
    let (ea, eb) = (encode_utf8(a), encode_utf8(b));
    if a.len() == 0 {
        assert(ea =~= Seq::<u8>::empty());
        assert(!lex_gt(ca, cb));
        assert(!lex_gt(byte_ints(ea), byte_ints(eb)));
    } else if b.len() == 0 {
        assert(eb =~= Seq::<u8>::empty());
        vstd::utf8::char_is_scalar(a[0]);
        assert(encode_scalar(a[0] as u32).len() > 0);
        assert(ea.len() > 0);
        assert(agree_before(ca, cb, 0));
        assert(above_at(ca, cb, 0));
        assert(agree_before(byte_ints(ea), byte_ints(eb), 0));
        assert(above_at(byte_ints(ea), byte_ints(eb), 0));
    } else {
        let (x, y) = (a[0] as u32, b[0] as u32);
        let (ra, rb) = (a.drop_first(), b.drop_first());
        vstd::utf8::char_is_scalar(a[0]);
        vstd::utf8::char_is_scalar(b[0]);
        assert(ea == encode_scalar(x) + encode_utf8(ra));
        assert(eb == encode_scalar(y) + encode_utf8(rb));
        assert(ca =~= seq![x as int] + char_ints(ra));
        assert(cb =~= seq![y as int] + char_ints(rb));
        if x == y {
            vstd::utf8::char_u32_cast(a[0], x);
            vstd::utf8::char_u32_cast(b[0], y);
            lemma_lex_common_prefix(seq![x as int], char_ints(ra), char_ints(rb));
            lemma_utf8_order(ra, rb);
            let p = byte_ints(encode_scalar(x));
            assert(byte_ints(ea) =~= p + byte_ints(encode_utf8(ra)));
            assert(byte_ints(eb) =~= p + byte_ints(encode_utf8(rb)));
            lemma_lex_common_prefix(p, byte_ints(encode_utf8(ra)), byte_ints(encode_utf8(rb)));
        } else if x > y {
            let k = lemma_scalar_order(y, x);
            lemma_lex_first_difference(encode_scalar(x), encode_utf8(ra), encode_scalar(y), encode_utf8(rb), k);
            assert(agree_before(ca, cb, 0));
            assert(above_at(ca, cb, 0));
        } else {
            let k = lemma_scalar_order(x, y);
            lemma_lex_first_difference(encode_scalar(y), encode_utf8(rb), encode_scalar(x), encode_utf8(ra), k);
            assert(agree_before(cb, ca, 0));
            assert(above_at(cb, ca, 0));
            lemma_lex_asymmetric(ca, cb);
        }
    }
}

proof fn lemma_byte_ints_injective(a: Seq<u8>, b: Seq<u8>)
    requires
        byte_ints(a) == byte_ints(b),
    ensures
        a == b,
{
    assert(a.len() == byte_ints(a).len());
    assert(b.len() == byte_ints(b).len());
    assert forall|j: int| 0 <= j < a.len() implies a[j] == b[j] by {
        assert(byte_ints(a)[j] == byte_ints(b)[j]);
        assert(byte_ints(a)[j] == a[j] as int);
        assert(byte_ints(b)[j] == b[j] as int);
    }
    assert(a =~= b);
}

/// Of two strings, at most one is above the other.
pub proof fn lemma_str_asymmetric(a: Seq<char>, b: Seq<char>)
    ensures
        !(str_gt(a, b) && str_gt(b, a)),
{
    lemma_lex_asymmetric(byte_ints(encode_utf8(a)), byte_ints(encode_utf8(b)));
}

/// The order of strings is transitive.
pub proof fn lemma_str_transitive(a: Seq<char>, b: Seq<char>, c: Seq<char>)
    requires
        str_gt(a, b),
        str_gt(b, c),
    ensures
        str_gt(a, c),
{
    lemma_lex_transitive(byte_ints(encode_utf8(a)), byte_ints(encode_utf8(b)), byte_ints(encode_utf8(c)));
}

/// Two different strings are ordered one way or the other.
pub proof fn lemma_str_total(a: Seq<char>, b: Seq<char>)
    ensures
        a == b || str_gt(a, b) || str_gt(b, a),
{
    lemma_lex_total(byte_ints(encode_utf8(a)), byte_ints(encode_utf8(b)));
    if byte_ints(encode_utf8(a)) == byte_ints(encode_utf8(b)) {
        lemma_byte_ints_injective(encode_utf8(a), encode_utf8(b));
        vstd::utf8::encode_utf8_decode_utf8(a);
        vstd::utf8::encode_utf8_decode_utf8(b);
    }
}

} // verus!
