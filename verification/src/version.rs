//! Version strings of the form `MAJOR.MINOR.PATCH[-PRE]`: splitting them into
//! their numeric components and pre-release part, and ordering them.
use vstd::prelude::*;
use crate::order::{
    above_at, agree_before, chars_gt, lemma_lex_asymmetric, lemma_lex_irreflexive,
    lemma_lex_total, lemma_lex_transitive, lemma_str_asymmetric, lemma_str_total,
    lemma_str_transitive, lemma_utf8_order, lex_gt, str_gt,
};
use crate::text::{chars_of, decimal, digit_char, split_by, string_of_range, Separator};

verus! {

// ---------------------------------------------------------------------------
// Model
// ---------------------------------------------------------------------------

/// Index of the first `c` in `s`, or `s.len()` when `s` holds no `c`.
pub open spec fn first_index_of(s: Seq<char>, c: char) -> int
    decreases s.len(),
{
    if s.len() == 0 {
        0
    } else if s[0] == c {
        0
    } else {
        1 + first_index_of(s.drop_first(), c)
    }
}

/// An ASCII decimal digit.
pub open spec fn is_digit(c: char) -> bool {
    48 <= (c as u32) <= 57
}

/// Every character of `d` is an ASCII decimal digit.
pub open spec fn all_digits(d: Seq<char>) -> bool {
    forall|j: int| 0 <= j < d.len() ==> is_digit(#[trigger] d[j])
}

/// The value of a run of decimal digits.
pub open spec fn digits_value(d: Seq<char>) -> nat
    decreases d.len(),
{
    if d.len() == 0 {
        0
    } else {
        10 * digits_value(d.drop_last()) + ((d.last() as u32) - 48) as nat
    }
}

/// `str::parse::<u64>`: an optional `+` followed by one or more ASCII digits
/// whose value fits in a `u64`; anything else is rejected.
pub open spec fn parse_u64(p: Seq<char>) -> Option<u64> {
    let d = if p.len() > 0 && p[0] == '+' {
        p.drop_first()
    } else {
        p
    };
    if d.len() > 0 && all_digits(d) && digits_value(d) <= u64::MAX {
        Some(digits_value(d) as u64)
    } else {
        None
    }
}

/// The numbers among `pieces`, in order; pieces that do not parse are dropped.
pub open spec fn parsed_numbers(pieces: Seq<Seq<char>>) -> Seq<u64>
    decreases pieces.len(),
{
    if pieces.len() == 0 {
        seq![]
    } else {
        parsed_numbers(pieces.drop_last()) + match parse_u64(pieces.last()) {
            Some(v) => seq![v],
            None => seq![],
        }
    }
}

/// The part of a version before the first `-`.
pub open spec fn version_main(s: Seq<char>) -> Seq<char> {
    s.take(first_index_of(s, '-'))
}

/// The numeric components of a version: the `.`-separated pieces of its main
/// part that parse as `u64`.
pub open spec fn version_numbers(s: Seq<char>) -> Seq<u64> {
    parsed_numbers(split_by(version_main(s), Separator::Char('.')))
}

/// The pre-release part of a version: everything after the first `-`, or
/// empty when there is no `-`.
pub open spec fn pre_release(s: Seq<char>) -> Seq<char> {
    let k = first_index_of(s, '-');
    if k < s.len() {
        s.skip(k + 1)
    } else {
        Seq::<char>::empty()
    }
}

/// Numbers as integers.
pub open spec fn num_ints(s: Seq<u64>) -> Seq<int> {
    s.map_values(|x: u64| x as int)
}

/// Order of pre-release parts: no pre-release (a release) is above every
/// pre-release; two pre-releases are ordered as Rust orders strings (by
/// their UTF-8 bytes).
pub open spec fn pre_gt(a: Seq<char>, b: Seq<char>) -> bool {
    if a.len() == 0 {
        b.len() != 0
    } else if b.len() == 0 {
        false
    } else {
        str_gt(a, b)
    }
}

/// Order of split versions: numbers first, then the pre-release part.
pub open spec fn key_gt(an: Seq<u64>, ap: Seq<char>, bn: Seq<u64>, bp: Seq<char>) -> bool {
    lex_gt(num_ints(an), num_ints(bn)) || (an == bn && pre_gt(ap, bp))
}

/// Version `a` is newer than version `b`.
pub open spec fn version_gt(a: Seq<char>, b: Seq<char>) -> bool {
    key_gt(version_numbers(a), pre_release(a), version_numbers(b), pre_release(b))
}

// ---------------------------------------------------------------------------
// Lemmas on the model
// ---------------------------------------------------------------------------

proof fn lemma_first_index_of(s: Seq<char>, c: char, i: int)
    requires
        0 <= i <= s.len(),
        forall|j: int| 0 <= j < i ==> s[j] != c,
        i == s.len() || s[i] == c,
    ensures
        first_index_of(s, c) == i,
    decreases i,
{
    if i > 0 {
        lemma_first_index_of(s.drop_first(), c, i - 1);
    }
}

proof fn lemma_digits_value_grows(d: Seq<char>, k: int)
    requires
        0 <= k <= d.len(),
    ensures
        digits_value(d.take(k)) <= digits_value(d),
    decreases d.len() - k,
{
    if k < d.len() {
        lemma_digits_value_grows(d.drop_last(), k);
        assert(d.drop_last().take(k) =~= d.take(k));
    } else {
        assert(d.take(k) =~= d);
    }
}

proof fn lemma_num_ints_injective(a: Seq<u64>, b: Seq<u64>)
    requires
        num_ints(a) == num_ints(b),
    ensures
        a == b,
{
    assert(a.len() == num_ints(a).len());
    assert(b.len() == num_ints(b).len());
    assert forall|j: int| 0 <= j < a.len() implies a[j] == b[j] by {
        assert(num_ints(a)[j] == num_ints(b)[j]);
        assert(num_ints(a)[j] == a[j] as int);
        assert(num_ints(b)[j] == b[j] as int);
    }
    assert(a =~= b);
}

proof fn lemma_pre_asymmetric(a: Seq<char>, b: Seq<char>)
    ensures
        !(pre_gt(a, b) && pre_gt(b, a)),
{
    lemma_str_asymmetric(a, b);
}

proof fn lemma_pre_transitive(a: Seq<char>, b: Seq<char>, c: Seq<char>)
    requires
        pre_gt(a, b),
        pre_gt(b, c),
    ensures
        pre_gt(a, c),
{
    if a.len() != 0 && b.len() != 0 && c.len() != 0 {
        lemma_str_transitive(a, b, c);
    }
}

proof fn lemma_pre_total(a: Seq<char>, b: Seq<char>)
    ensures
        a == b || pre_gt(a, b) || pre_gt(b, a),
{
    if a.len() == 0 && b.len() == 0 {
        assert(a =~= b);
    } else if a.len() != 0 && b.len() != 0 {
        lemma_str_total(a, b);
    }
}

// ---------------------------------------------------------------------------
// Laws
// ---------------------------------------------------------------------------

/// The decimal rendering of a number reads back as that number: it is a
/// non-empty run of digits whose value is the number.
pub proof fn lemma_decimal_reads_back(n: nat)
    ensures
        decimal(n).len() > 0,
        all_digits(decimal(n)),
        digits_value(decimal(n)) == n,
    decreases n,
{
    if n < 10 {
        assert(decimal(n) == seq![digit_char(n)]);
        assert((digit_char(n) as u32) == n + 48);
        assert(seq![digit_char(n)].drop_last() =~= Seq::<char>::empty());
        assert(is_digit(decimal(n)[0]));
        let s1 = seq![digit_char(n)];
        assert(digits_value(s1) == 10 * digits_value(s1.drop_last()) + ((s1.last() as u32) - 48) as nat);
    } else {
        lemma_decimal_reads_back(n / 10);
        let d = decimal(n / 10);
        let r = d.push(digit_char(n % 10));
        assert(decimal(n) == r);
        assert((digit_char(n % 10) as u32) == n % 10 + 48);
        assert(r.drop_last() =~= d);
        assert(r.last() == digit_char(n % 10));
        assert(digits_value(r) == 10 * digits_value(d) + ((r.last() as u32) - 48) as nat);
        assert(10 * (n / 10) + n % 10 == n) by (nonlinear_arith);
        assert(forall|j: int| 0 <= j < r.len() ==> is_digit(#[trigger] r[j])) by {
            assert forall|j: int| 0 <= j < r.len() implies is_digit(#[trigger] r[j]) by {
                if j < d.len() {
                    assert(r[j] == d[j]);
                    assert(is_digit(d[j]));
                } else {
                    assert(r[j] == digit_char(n % 10));
                }
            }
        }
    }
}

/// `str::parse::<u64>` of the decimal rendering of `n` gives `n` back.
pub proof fn lemma_parse_decimal(n: u64)
    ensures
        parse_u64(decimal(n as nat)) == Some(n),
{
    lemma_decimal_reads_back(n as nat);
    let d = decimal(n as nat);
    assert(is_digit(d[0]));
}

/// No version is newer than itself.
pub proof fn lemma_version_gt_irreflexive(a: Seq<char>)
    ensures
        !version_gt(a, a),
{
    lemma_lex_irreflexive(num_ints(version_numbers(a)));
    lemma_pre_asymmetric(pre_release(a), pre_release(a));
}

/// Of two versions, at most one is newer than the other.
pub proof fn lemma_version_gt_asymmetric(a: Seq<char>, b: Seq<char>)
    ensures
        !(version_gt(a, b) && version_gt(b, a)),
{
    let (an, bn) = (version_numbers(a), version_numbers(b));
    lemma_lex_asymmetric(num_ints(an), num_ints(bn));
    lemma_lex_irreflexive(num_ints(an));
    lemma_pre_asymmetric(pre_release(a), pre_release(b));
}

/// "Newer than" is transitive.
pub proof fn lemma_version_gt_transitive(a: Seq<char>, b: Seq<char>, c: Seq<char>)
    requires
        version_gt(a, b),
        version_gt(b, c),
    ensures
        version_gt(a, c),
{
    let (an, bn, cn) = (version_numbers(a), version_numbers(b), version_numbers(c));
    if lex_gt(num_ints(an), num_ints(bn)) && lex_gt(num_ints(bn), num_ints(cn)) {
        lemma_lex_transitive(num_ints(an), num_ints(bn), num_ints(cn));
    } else if !lex_gt(num_ints(an), num_ints(bn)) && !lex_gt(num_ints(bn), num_ints(cn)) {
        lemma_pre_transitive(pre_release(a), pre_release(b), pre_release(c));
    }
}

/// Two versions whose numbers or pre-release parts differ are ordered one way
/// or the other.
pub proof fn lemma_version_gt_total(a: Seq<char>, b: Seq<char>)
    ensures
        version_gt(a, b) || version_gt(b, a) || (version_numbers(a) == version_numbers(b)
            && pre_release(a) == pre_release(b)),
{
    let (an, bn) = (version_numbers(a), version_numbers(b));
    lemma_lex_total(num_ints(an), num_ints(bn));
    if num_ints(an) == num_ints(bn) {
        lemma_num_ints_injective(an, bn);
        lemma_pre_total(pre_release(a), pre_release(b));
    }
}

/// A release is newer than any pre-release with the same numbers.
pub proof fn lemma_release_newer_than_pre_release(a: Seq<char>, b: Seq<char>)
    requires
        version_numbers(a) == version_numbers(b),
        pre_release(a).len() == 0,
        pre_release(b).len() != 0,
    ensures
        version_gt(a, b),
{
}

/// Where the numbers first differ, the larger number is the newer version,
/// whatever the pre-release parts.
pub proof fn lemma_larger_component_newer(a: Seq<char>, b: Seq<char>, k: int)
    requires
        0 <= k < version_numbers(a).len(),
        k < version_numbers(b).len(),
        forall|j: int| 0 <= j < k ==> version_numbers(a)[j] == version_numbers(b)[j],
        version_numbers(a)[k] > version_numbers(b)[k],
    ensures
        version_gt(a, b),
{
    let (an, bn) = (num_ints(version_numbers(a)), num_ints(version_numbers(b)));
    assert(agree_before(an, bn, k));
    assert(above_at(an, bn, k));
}

// ---------------------------------------------------------------------------
// Executable code
// ---------------------------------------------------------------------------

/// `str::parse::<u64>` on the characters `s[from..to]`.
pub fn parse_u64_range(s: &Vec<char>, from: usize, to: usize) -> (r: Option<u64>)
    requires
        from <= to <= s.len(),
    ensures
        r == parse_u64(s@.subrange(from as int, to as int)),
{
    let ghost p = s@.subrange(from as int, to as int);
    let mut i = from;
    if i < to && s[i] == '+' {
        i = i + 1;
    }
    let ghost d = s@.subrange(i as int, to as int);
    proof {
        if p.len() > 0 && p[0] == '+' {
            assert(d =~= p.drop_first());
        } else {
            assert(d =~= p);
        }
    }
    if i == to {
        return None;
    }
    let start = i;
    let mut v: u64 = 0;
    while i < to
        invariant
            start <= i <= to <= s.len(),
            d == s@.subrange(start as int, to as int),
            p == s@.subrange(from as int, to as int),
            d == (if p.len() > 0 && p[0] == '+' { p.drop_first() } else { p }),
            forall|j: int| start <= j < i ==> is_digit(#[trigger] s@[j]),
            v == digits_value(s@.subrange(start as int, i as int)),
        decreases to - i,
    {
        let c = s[i];
        let u = c as u32;
        if u < 48 || u > 57 {
            assert(d[i - start] == c);
            assert(!is_digit(d[i - start]));
            proof {
                if p.len() > 0 && p[0] == '+' {
                    assert(d == p.drop_first());
                    assert(!is_digit(p.drop_first()[i - start]));
                } else {
                    assert(d == p);
                    assert(!is_digit(p[i - start]));
                }
                assert(!all_digits(d));
            }
            return None;
        }
        let ghost q = s@.subrange(start as int, i + 1);
        assert(q.drop_last() =~= s@.subrange(start as int, i as int));
        assert(q.last() == c);
        let dig = (u - 48) as u64;
        match v.checked_mul(10) {
            Some(w) => match w.checked_add(dig) {
                Some(x) => {
                    v = x;
                },
                None => {
                    proof { no_number_beyond_u64(s, start, i, to); }
                    return None;
                },
            },
            None => {
                proof { no_number_beyond_u64(s, start, i, to); }
                return None;
            },
        }
        i = i + 1;
    }
    assert(s@.subrange(start as int, to as int) =~= d);
    Some(v)
}

proof fn no_number_beyond_u64(s: &Vec<char>, start: usize, i: usize, to: usize)
    requires
        start <= i < to <= s.len(),
        digits_value(s@.subrange(start as int, i + 1)) > u64::MAX,
    ensures
        ({
            let d = s@.subrange(start as int, to as int);
            !(d.len() > 0 && all_digits(d) && digits_value(d) <= u64::MAX)
        }),
{
    let d = s@.subrange(start as int, to as int);
    lemma_digits_value_grows(d, i + 1 - start);
    assert(d.take(i + 1 - start) =~= s@.subrange(start as int, i + 1));
}

/// Splits a version into its numeric components and its pre-release part,
/// such as `0.1.1-rc.2` into `[0, 1, 1]` and `rc.2`.
pub fn split_ver(s: &str) -> (r: (Vec<u64>, String))
    ensures
        r.0@ == version_numbers(s@),
        r.1@ == pre_release(s@),
{
    let cs = chars_of(s);
    let n = cs.len();
    // first '-'
    let mut k: usize = 0;
    while k < n && cs[k] != '-'
        invariant
            k <= n == cs.len(),
            forall|j: int| 0 <= j < k ==> cs@[j] != '-',
        decreases n - k,
    {
        k = k + 1;
    }
    proof {
        lemma_first_index_of(cs@, '-', k as int);
    }
    let pre = if k < n {
        string_of_range(&cs, k + 1, n)
    } else {
        String::new()
    };
    proof {
        if k < n {
            assert(cs@.subrange(k + 1, n as int) =~= cs@.skip(k + 1));
        }
    }
    // the '.'-separated pieces of cs[0..k]
    let ghost main = cs@.take(k as int);
    let mut nums: Vec<u64> = Vec::new();
    let mut piece_start: usize = 0;
    let mut i: usize = 0;
    while i < k
        invariant
            k <= n == cs.len(),
            main == cs@.take(k as int),
            piece_start <= i <= k,
            split_by(main.take(i as int), Separator::Char('.')).len() >= 1,
            nums@ == parsed_numbers(split_by(main.take(i as int), Separator::Char('.')).drop_last()),
            split_by(main.take(i as int), Separator::Char('.')).last() == cs@.subrange(piece_start as int, i as int),
        decreases k - i,
    {
        let ghost before = split_by(main.take(i as int), Separator::Char('.'));
        assert(main.take(i + 1).drop_last() =~= main.take(i as int));
        assert(main.take(i + 1).last() == cs@[i as int]);
        if cs[i] == '.' {
            let parsed = parse_u64_range(&cs, piece_start, i);
            match parsed {
                Some(v) => nums.push(v),
                None => {},
            }
            proof {
                let after = split_by(main.take(i + 1), Separator::Char('.'));
                assert(after == before.push(Seq::<char>::empty()));
                assert(after.drop_last() =~= before);
                assert(before =~= before.drop_last().push(before.last()));
            }
            piece_start = i + 1;
            proof {
                assert(cs@.subrange(piece_start as int, i + 1) =~= Seq::<char>::empty());
            }
        } else {
            proof {
                let after = split_by(main.take(i + 1), Separator::Char('.'));
                assert(after.drop_last() =~= before.drop_last());
                assert(cs@.subrange(piece_start as int, i + 1) =~= cs@.subrange(piece_start as int, i as int).push(cs@[i as int]));
            }
        }
        i = i + 1;
    }
    let parsed = parse_u64_range(&cs, piece_start, k);
    match parsed {
        Some(v) => nums.push(v),
        None => {},
    }
    proof {
        let parts = split_by(main.take(k as int), Separator::Char('.'));
        assert(main.take(k as int) =~= main);
        assert(parts =~= parts.drop_last().push(parts.last()));
    }
    (nums, pre)
}

/// Whether `a` is above `b` in lexicographic order of numbers.
fn numbers_gt(a: &Vec<u64>, b: &Vec<u64>) -> (r: bool)
    ensures
        r == lex_gt(num_ints(a@), num_ints(b@)),
{
    let ghost (x, y) = (num_ints(a@), num_ints(b@));
    let mut i: usize = 0;
    while i < a.len() && i < b.len()
        invariant
            i <= a.len(),
            i <= b.len(),
            x == num_ints(a@),
            y == num_ints(b@),
            agree_before(x, y, i as int),
        decreases a.len() - i,
    {
        if a[i] != b[i] {
            proof {
                if a[i as int] > b[i as int] {
                    assert(above_at(x, y, i as int));
                } else {
                    assert(agree_before(y, x, i as int));
                    assert(above_at(y, x, i as int));
                    lemma_lex_asymmetric(x, y);
                }
            }
            return a[i] > b[i];
        }
        i = i + 1;
    }
    proof {
        if a.len() == b.len() {
            assert(x =~= y);
            lemma_lex_irreflexive(x);
        } else if b.len() < a.len() {
            assert(above_at(x, y, i as int));
        } else {
            assert(agree_before(y, x, i as int));
            assert(above_at(y, x, i as int));
            lemma_lex_asymmetric(x, y);
        }
    }
    a.len() > b.len()
}

/// Whether version `a` is newer than version `b`: numbers compared in order
/// (a longer list wins when one is a prefix of the other), then a release is
/// newer than a pre-release, and two pre-releases compare as strings.
pub fn ver_gt(a: &str, b: &str) -> (r: bool)
    ensures
        r == version_gt(a@, b@),
{
    let (an, ap) = split_ver(a);
    let (bn, bp) = split_ver(b);
    if numbers_gt(&an, &bn) {
        return true;
    }
    if numbers_gt(&bn, &an) {
        proof {
            lemma_lex_asymmetric(num_ints(an@), num_ints(bn@));
            lemma_lex_irreflexive(num_ints(an@));
        }
        return false;
    }
    proof {
        lemma_lex_total(num_ints(an@), num_ints(bn@));
        lemma_num_ints_injective(an@, bn@);
    }
    let apc = chars_of(ap.as_str());
    let bpc = chars_of(bp.as_str());
    if apc.len() == 0 {
        bpc.len() != 0
    } else if bpc.len() == 0 {
        false
    } else {
        proof {
            lemma_utf8_order(apc@, bpc@);
        }
        chars_gt(&apc, &bpc)
    }
}

} // verus!
