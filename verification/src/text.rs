//! Character-level helpers shared by the other modules: conversions between
//! strings and character vectors, prefixes, substrings, decimal rendering,
//! Unicode whitespace and trimming.
use vstd::prelude::*;

verus! {

/// Appends one character to a `String` (std `String::push`): the new contents
/// are the old contents followed by `c`.
#[verifier::external_body]
pub(crate) fn push_char(s: &mut String, c: char)
    ensures
        final(s)@ == old(s)@.push(c),
{
    s.push(c);
}

/// The characters of a string slice, in order.
pub fn chars_of(s: &str) -> (v: Vec<char>)
    ensures
        v@ == s@,
{
    let mut v: Vec<char> = Vec::new();
    for c in it: s.chars()
        invariant
            v@ == it.seq().take(it.index()),
    {
        v.push(c);
    }
    v
}

/// A `String` holding the characters `chars[from..to]`.
pub fn string_of_range(chars: &Vec<char>, from: usize, to: usize) -> (s: String)
    requires
        from <= to <= chars.len(),
    ensures
        s@ == chars@.subrange(from as int, to as int),
{
    let mut s = String::new();
    let mut i = from;
    while i < to
        invariant
            from <= i <= to <= chars.len(),
            s@ == chars@.subrange(from as int, i as int),
        decreases to - i,
    {
        push_char(&mut s, chars[i]);
        i = i + 1;
    }
    s
}

/// A `String` holding all of `chars`.
pub fn string_of(chars: &Vec<char>) -> (s: String)
    ensures
        s@ == chars@,
{
    let s = string_of_range(chars, 0, chars.len());
    assert(chars@.subrange(0, chars@.len() as int) =~= chars@);
    s
}

/// `p` is a prefix of `s`.
pub open spec fn has_prefix(s: Seq<char>, p: Seq<char>) -> bool {
    p.len() <= s.len() && s.take(p.len() as int) == p
}

/// `p` occurs in `s` starting at index `i`.
pub open spec fn occurs_at(s: Seq<char>, p: Seq<char>, i: int) -> bool {
    0 <= i && i + p.len() <= s.len() && s.subrange(i, i + p.len()) == p
}

/// `p` occurs somewhere in `s` (the empty pattern occurs in every string).
pub open spec fn contains_seq(s: Seq<char>, p: Seq<char>) -> bool {
    exists|i: int| #[trigger] occurs_at(s, p, i)
}

/// Whether `p` is a prefix of `s`.
pub fn starts_with_chars(s: &Vec<char>, p: &Vec<char>) -> (b: bool)
    ensures
        b == has_prefix(s@, p@),
{
    if p.len() > s.len() {
        return false;
    }
    let mut i: usize = 0;
    while i < p.len()
        invariant
            p.len() <= s.len(),
            i <= p.len(),
            forall|j: int| 0 <= j < i ==> s@[j] == p@[j],
        decreases p.len() - i,
    {
        if s[i] != p[i] {
            assert(s@.take(p.len() as int)[i as int] != p@[i as int]);
            return false;
        }
        i = i + 1;
    }
    assert(s@.take(p.len() as int) =~= p@);
    true
}

/// Whether `p` occurs in `s` at index `at`.
fn occurs_at_exec(s: &Vec<char>, p: &Vec<char>, at: usize) -> (b: bool)
    requires
        at + p.len() <= s.len(),
    ensures
        b == occurs_at(s@, p@, at as int),
{
    let mut i: usize = 0;
    while i < p.len()
        invariant
            at + p.len() <= s.len(),
            i <= p.len(),
            forall|j: int| 0 <= j < i ==> s@[at + j] == p@[j],
        decreases p.len() - i,
    {
        if s[at + i] != p[i] {
            assert(s@.subrange(at as int, at + p.len())[i as int] != p@[i as int]);
            return false;
        }
        i = i + 1;
    }
    assert(s@.subrange(at as int, at + p.len()) =~= p@);
    true
}

/// Whether `p` occurs anywhere in `s`.
pub fn contains_chars(s: &Vec<char>, p: &Vec<char>) -> (b: bool)
    ensures
        b == contains_seq(s@, p@),
{
    if p.len() > s.len() {
        assert forall|i: int| !occurs_at(s@, p@, i) by {}
        return false;
    }
    let last = s.len() - p.len();
    let mut i: usize = 0;
    while i < last
        invariant
            last == s.len() - p.len(),
            i <= last,
            forall|j: int| 0 <= j < i ==> !occurs_at(s@, p@, j),
        decreases last - i,
    {
        if occurs_at_exec(s, p, i) {
            return true;
        }
        i = i + 1;
    }
    if occurs_at_exec(s, p, last) {
        return true;
    }
    assert forall|j: int| !occurs_at(s@, p@, j) by {
        if 0 <= j && j + p@.len() <= s@.len() && j != last {
            assert(j < i);
        }
    }
    false
}

/// The decimal digit character for `d < 10`.
pub open spec fn digit_char(d: nat) -> char {
    ((d + 48) as u32) as char
}

/// The decimal rendering of `n`, without sign or leading zeros (`0` is "0").
pub open spec fn decimal(n: nat) -> Seq<char>
    decreases n,
{
    if n < 10 {
        seq![digit_char(n)]
    } else {
        decimal(n / 10).push(digit_char(n % 10))
    }
}

/// Appends the decimal rendering of `n` to `s`.
pub fn push_decimal(s: &mut String, n: u64)
    ensures
        final(s)@ == old(s)@ + decimal(n as nat),
    decreases n,
{
    if n >= 10 {
        push_decimal(s, n / 10);
    }
    let d: u64 = n % 10;
    assert(d < 10);
    let c: char = char_of_digit(d as u8);
    push_char(s, c);
    proof {
        if n >= 10 {
            assert(decimal(n as nat) == decimal((n / 10) as nat).push(digit_char((n % 10) as nat)));
        } else {
            assert(decimal(n as nat) == seq![digit_char(n as nat)]);
        }
    }
}

/// The character of a decimal digit.
fn char_of_digit(d: u8) -> (c: char)
    requires
        d < 10,
    ensures
        c == digit_char(d as nat),
{
    match d {
        0 => '0',
        1 => '1',
        2 => '2',
        3 => '3',
        4 => '4',
        5 => '5',
        6 => '6',
        7 => '7',
        8 => '8',
        _ => '9',
    }
}

/// Unicode `White_Space` characters, the set that `char::is_whitespace` and
/// `str::trim` use.
pub open spec fn is_white_space(c: char) -> bool {
    let u = c as u32;
    ||| 0x09 <= u <= 0x0d
    ||| u == 0x20
    ||| u == 0x85
    ||| u == 0xa0
    ||| u == 0x1680
    ||| 0x2000 <= u <= 0x200a
    ||| u == 0x2028
    ||| u == 0x2029
    ||| u == 0x202f
    ||| u == 0x205f
    ||| u == 0x3000
}

/// Whether `c` is Unicode white space.
pub fn white_space(c: char) -> (b: bool)
    ensures
        b == is_white_space(c),
{
    let u = c as u32;
    (0x09 <= u && u <= 0x0d) || u == 0x20 || u == 0x85 || u == 0xa0 || u == 0x1680 || (0x2000
        <= u && u <= 0x200a) || u == 0x2028 || u == 0x2029 || u == 0x202f || u == 0x205f || u
        == 0x3000
}

/// `s` without its leading white space.
pub open spec fn trim_start(s: Seq<char>) -> Seq<char>
    decreases s.len(),
{
    if s.len() > 0 && is_white_space(s[0]) {
        trim_start(s.drop_first())
    } else {
        s
    }
}

/// `s` without its trailing white space.
pub open spec fn trim_end(s: Seq<char>) -> Seq<char>
    decreases s.len(),
{
    if s.len() > 0 && is_white_space(s.last()) {
        trim_end(s.drop_last())
    } else {
        s
    }
}

/// `s` without leading and trailing white space (as `str::trim`).
pub open spec fn trim(s: Seq<char>) -> Seq<char> {
    trim_end(trim_start(s))
}

proof fn lemma_trim_start_skip(s: Seq<char>, i: int)
    requires
        0 <= i <= s.len(),
        forall|j: int| 0 <= j < i ==> is_white_space(#[trigger] s[j]),
    ensures
        trim_start(s) == trim_start(s.skip(i)),
    decreases i,
{
    if i > 0 {
        assert(s.skip(1) == s.drop_first());
        lemma_trim_start_skip(s.drop_first(), i - 1);
        assert(s.drop_first().skip(i - 1) =~= s.skip(i));
    } else {
        assert(s.skip(0) =~= s);
    }
}

proof fn lemma_trim_end_take(s: Seq<char>, k: int)
    requires
        0 <= k <= s.len(),
        forall|j: int| k <= j < s.len() ==> is_white_space(#[trigger] s[j]),
    ensures
        trim_end(s) == trim_end(s.take(k)),
    decreases s.len() - k,
{
    if k < s.len() {
        lemma_trim_end_take(s.drop_last(), k);
        assert(s.drop_last().take(k) =~= s.take(k));
    } else {
        assert(s.take(k) =~= s);
    }
}

/// The range `[from, to)` of `s` that `trim` keeps.
pub fn trim_range(s: &Vec<char>) -> (r: (usize, usize))
    ensures
        r.0 <= r.1 <= s.len(),
        s@.subrange(r.0 as int, r.1 as int) == trim(s@),
{
    let mut i: usize = 0;
    while i < s.len() && white_space(s[i])
        invariant
            i <= s.len(),
            forall|j: int| 0 <= j < i ==> is_white_space(#[trigger] s@[j]),
        decreases s.len() - i,
    {
        i = i + 1;
    }
    proof {
        lemma_trim_start_skip(s@, i as int);
        assert(trim_start(s@.skip(i as int)) == s@.skip(i as int));
    }
    let mut k: usize = s.len();
    while k > i && white_space(s[k - 1])
        invariant
            i <= k <= s.len(),
            forall|j: int| k <= j < s.len() ==> is_white_space(#[trigger] s@[j]),
        decreases k,
    {
        k = k - 1;
    }
    proof {
        let t = s@.skip(i as int);
        assert forall|j: int| k - i <= j < t.len() implies is_white_space(#[trigger] t[j]) by {
            assert(t[j] == s@[i + j]);
        }
        lemma_trim_end_take(t, k - i);
        let u = t.take(k - i);
        assert(u =~= s@.subrange(i as int, k as int));
        if u.len() > 0 {
            assert(u.last() == s@[k - 1]);
        }
        assert(trim_end(u) == u);
    }
    (i, k)
}

/// What separates the pieces of a string: one given character, or either
/// path separator (`/` or `\`).
#[derive(Clone, Copy)]
pub enum Separator {
    Char(char),
    Path,
}

/// `c` separates pieces under `sep`.
pub open spec fn separates(sep: Separator, c: char) -> bool {
    match sep {
        Separator::Char(x) => c == x,
        Separator::Path => c == '/' || c == '\\',
    }
}

fn is_separator(sep: Separator, c: char) -> (b: bool)
    ensures
        b == separates(sep, c),
{
    match sep {
        Separator::Char(x) => c == x,
        Separator::Path => c == '/' || c == '\\',
    }
}

/// The pieces of `s` between separators (as `str::split`): there is always at
/// least one piece, and `k` separators give `k + 1` pieces.
pub open spec fn split_by(s: Seq<char>, sep: Separator) -> Seq<Seq<char>>
    decreases s.len(),
{
    if s.len() == 0 {
        seq![Seq::<char>::empty()]
    } else {
        let r = split_by(s.drop_last(), sep);
        if separates(sep, s.last()) {
            r.push(Seq::<char>::empty())
        } else {
            r.update(r.len() - 1, r.last().push(s.last()))
        }
    }
}

pub proof fn lemma_split_by_nonempty(s: Seq<char>, sep: Separator)
    ensures
        split_by(s, sep).len() >= 1,
    decreases s.len(),
{
    if s.len() > 0 {
        lemma_split_by_nonempty(s.drop_last(), sep);
    }
}

/// Appending a separator to `s` ends its last piece and opens an empty one.
pub proof fn lemma_split_by_push_separator(s: Seq<char>, c: char, sep: Separator)
    requires
        separates(sep, c),
    ensures
        split_by(s.push(c), sep) == split_by(s, sep).push(Seq::<char>::empty()),
{
    assert(s.push(c).drop_last() =~= s);
}

/// Appending text without separators to `s` extends its last piece.
pub proof fn lemma_split_by_append_plain(s: Seq<char>, n: Seq<char>, sep: Separator)
    requires
        forall|i: int| 0 <= i < n.len() ==> !separates(sep, #[trigger] n[i]),
    ensures
        split_by(s + n, sep) == split_by(s, sep).update(
            split_by(s, sep).len() - 1,
            split_by(s, sep).last() + n,
        ),
    decreases n.len(),
{
    lemma_split_by_nonempty(s, sep);
    let r = split_by(s, sep);
    if n.len() == 0 {
        assert(s + n =~= s);
        assert(r.last() + n =~= r.last());
        assert(r.update(r.len() - 1, r.last()) =~= r);
    } else {
        let m = n.drop_last();
        let c = n.last();
        assert(forall|i: int| 0 <= i < m.len() ==> m[i] == n[i]);
        lemma_split_by_append_plain(s, m, sep);
        assert((s + n).drop_last() =~= s + m);
        assert((s + n).last() == c);
        assert(!separates(sep, n[n.len() - 1]));
        let rm = split_by(s + m, sep);
        assert(rm == r.update(r.len() - 1, r.last() + m));
        assert(rm.last() == r.last() + m);
        assert((r.last() + m).push(c) =~= r.last() + n);
        assert(split_by(s + n, sep) == rm.update(rm.len() - 1, rm.last().push(c)));
        assert(rm.update(rm.len() - 1, rm.last().push(c)) =~= r.update(r.len() - 1, r.last() + n));
    }
}

/// The ranges `r` of `s` whose contents `s[r.0..r.1]` are the pieces `split_by(s, sep)`.
pub open spec fn ranges_match(s: Seq<char>, r: Seq<(usize, usize)>, parts: Seq<Seq<char>>) -> bool {
    &&& r.len() == parts.len()
    &&& forall|j: int|
        0 <= j < r.len() ==> (#[trigger] r[j]).0 <= r[j].1 <= s.len() && s.subrange(
            r[j].0 as int,
            r[j].1 as int,
        ) == parts[j]
}

/// The bounds of the pieces of `s` between separators.
pub fn split_ranges(s: &Vec<char>, sep: Separator) -> (r: Vec<(usize, usize)>)
    ensures
        ranges_match(s@, r@, split_by(s@, sep)),
{
    let mut r: Vec<(usize, usize)> = Vec::new();
    let mut start: usize = 0;
    let mut i: usize = 0;
    while i < s.len()
        invariant
            start <= i <= s.len(),
            split_by(s@.take(i as int), sep).len() >= 1,
            ranges_match(s@, r@, split_by(s@.take(i as int), sep).drop_last()),
            split_by(s@.take(i as int), sep).last() == s@.subrange(start as int, i as int),
        decreases s.len() - i,
    {
        let ghost before = split_by(s@.take(i as int), sep);
        assert(s@.take(i + 1).drop_last() =~= s@.take(i as int));
        assert(s@.take(i + 1).last() == s@[i as int]);
        if is_separator(sep, s[i]) {
            r.push((start, i));
            proof {
                let after = split_by(s@.take(i + 1), sep);
                assert(after == before.push(Seq::<char>::empty()));
                assert(after.drop_last() =~= before);
                assert(before =~= before.drop_last().push(before.last()));
                assert(ranges_match(s@, r@, after.drop_last()));
            }
            start = i + 1;
            assert(s@.subrange(start as int, i + 1) =~= Seq::<char>::empty());
        } else {
            proof {
                let after = split_by(s@.take(i + 1), sep);
                assert(after.drop_last() =~= before.drop_last());
                assert(s@.subrange(start as int, i + 1) =~= s@.subrange(start as int, i as int).push(
                    s@[i as int],
                ));
            }
        }
        i = i + 1;
    }
    r.push((start, s.len()));
    proof {
        let parts = split_by(s@.take(s.len() as int), sep);
        assert(s@.take(s.len() as int) =~= s@);
        assert(parts =~= parts.drop_last().push(parts.last()));
        assert(ranges_match(s@, r@, parts));
    }
    r
}

/// Appends `chars[from..to]` to `out`.
pub fn push_range(out: &mut String, chars: &Vec<char>, from: usize, to: usize)
    requires
        from <= to <= chars.len(),
    ensures
        final(out)@ == old(out)@ + chars@.subrange(from as int, to as int),
{
    let ghost start = out@;
    let mut i = from;
    while i < to
        invariant
            from <= i <= to <= chars.len(),
            out@ == start + chars@.subrange(from as int, i as int),
        decreases to - i,
    {
        push_char(out, chars[i]);
        assert(chars@.subrange(from as int, i + 1) =~= chars@.subrange(from as int, i as int).push(
            chars@[i as int],
        ));
        i = i + 1;
    }
}

/// A line without the carriage return that ended it, if any.
pub open spec fn strip_cr(p: Seq<char>) -> Seq<char> {
    if p.len() > 0 && p.last() == '\r' {
        p.drop_last()
    } else {
        p
    }
}

/// The lines of `s` as `str::lines` gives them: split at `\n`, a `\r` just
/// before a `\n` dropped, and no empty line after a final `\n` (so the empty
/// string has no lines).
pub open spec fn text_lines(s: Seq<char>) -> Seq<Seq<char>> {
    let parts = split_by(s, Separator::Char('\n'));
    let n = parts.len();
    let count = if parts.last().len() == 0 {
        n - 1
    } else {
        n as int
    };
    Seq::new(count as nat, |i: int| if i < n - 1 { strip_cr(parts[i]) } else { parts[i] })
}

/// `parts` joined with `\n` between them (as `[&str]::join("\n")`).
pub open spec fn join_lines(parts: Seq<Seq<char>>) -> Seq<char>
    decreases parts.len(),
{
    if parts.len() == 0 {
        Seq::<char>::empty()
    } else if parts.len() == 1 {
        parts[0]
    } else {
        join_lines(parts.drop_last()) + seq!['\n'] + parts.last()
    }
}

/// The bounds of the lines of `s`.
pub fn line_ranges(s: &Vec<char>) -> (r: Vec<(usize, usize)>)
    ensures
        ranges_match(s@, r@, text_lines(s@)),
{
    let parts = split_ranges(s, Separator::Char('\n'));
    let ghost pieces = split_by(s@, Separator::Char('\n'));
    proof {
        lemma_split_by_nonempty(s@, Separator::Char('\n'));
    }
    let n = parts.len();
    let last = parts[n - 1];
    let count = if last.0 == last.1 {
        n - 1
    } else {
        n
    };
    assert(pieces.last() == s@.subrange(last.0 as int, last.1 as int));
    let mut r: Vec<(usize, usize)> = Vec::new();
    let mut j: usize = 0;
    while j < count
        invariant
            n == parts.len() == pieces.len() >= 1,
            count <= n,
            pieces == split_by(s@, Separator::Char('\n')),
            ranges_match(s@, parts@, pieces),
            count == text_lines(s@).len(),
            j <= count,
            r.len() == j,
            forall|k: int|
                0 <= k < j ==> (#[trigger] r@[k]).0 <= r@[k].1 <= s.len() && s@.subrange(
                    r@[k].0 as int,
                    r@[k].1 as int,
                ) == text_lines(s@)[k],
        decreases count - j,
    {
        let (a, b) = parts[j];
        assert(s@.subrange(a as int, b as int) == pieces[j as int]);
        if j + 1 < n && b > a && s[b - 1] == '\r' {
            r.push((a, b - 1));
            assert(s@.subrange(a as int, b - 1) =~= s@.subrange(a as int, b as int).drop_last());
        } else {
            r.push((a, b));
        }
        j = j + 1;
    }
    r
}

/// `lines[skip..]` joined with `\n`, where `ranges` are the bounds of `lines` in `s`.
pub fn join_ranges(s: &Vec<char>, ranges: &Vec<(usize, usize)>, skip: usize) -> (out: String)
    requires
        skip <= ranges.len(),
        forall|k: int| 0 <= k < ranges.len() ==> (#[trigger] ranges@[k]).0 <= ranges@[k].1 <= s.len(),
    ensures
        out@ == join_lines(
            Seq::new(
                (ranges.len() - skip) as nat,
                |k: int| s@.subrange(ranges@[skip + k].0 as int, ranges@[skip + k].1 as int),
            ),
        ),
{
    let ghost all = Seq::new(
        (ranges.len() - skip) as nat,
        |k: int| s@.subrange(ranges@[skip + k].0 as int, ranges@[skip + k].1 as int),
    );
    let mut out = String::new();
    let mut j = skip;
    while j < ranges.len()
        invariant
            skip <= j <= ranges.len(),
            forall|k: int| 0 <= k < ranges.len() ==> (#[trigger] ranges@[k]).0 <= ranges@[k].1 <= s.len(),
            all.len() == ranges.len() - skip,
            forall|k: int| 0 <= k < all.len() ==> #[trigger] all[k] == s@.subrange(ranges@[skip + k].0 as int, ranges@[skip + k].1 as int),
            out@ == join_lines(all.take(j - skip)),
        decreases ranges.len() - j,
    {
        let ghost prev = all.take(j - skip);
        let (a, b) = ranges[j];
        if j > skip {
            push_char(&mut out, '\n');
        }
        push_range(&mut out, s, a, b);
        proof {
            let next = all.take(j + 1 - skip);
            assert(next.drop_last() =~= prev);
            assert(next.last() == all[j - skip]);
            if j == skip {
                assert(out@ =~= next[0]);
            } else {
                assert(out@ =~= join_lines(next.drop_last()) + seq!['\n'] + next.last());
            }
        }
        j = j + 1;
    }
    assert(all.take(ranges.len() - skip) =~= all);
    out
}

/// Whether `s[from..to]` equals `p`.
pub fn range_is(s: &Vec<char>, from: usize, to: usize, p: &Vec<char>) -> (b: bool)
    requires
        from <= to <= s.len(),
    ensures
        b == (s@.subrange(from as int, to as int) == p@),
{
    if to - from != p.len() {
        return false;
    }
    let mut i: usize = 0;
    while i < p.len()
        invariant
            from <= to <= s.len(),
            to - from == p.len(),
            i <= p.len(),
            forall|j: int| 0 <= j < i ==> s@[from + j] == p@[j],
        decreases p.len() - i,
    {
        if s[from + i] != p[i] {
            assert(s@.subrange(from as int, to as int)[i as int] != p@[i as int]);
            return false;
        }
        i = i + 1;
    }
    assert(s@.subrange(from as int, to as int) =~= p@);
    true
}

/// Whether `a[ra.0..ra.1]` equals `b[rb.0..rb.1]`.
pub fn ranges_equal(a: &Vec<char>, ra: (usize, usize), b: &Vec<char>, rb: (usize, usize)) -> (r: bool)
    requires
        ra.0 <= ra.1 <= a.len(),
        rb.0 <= rb.1 <= b.len(),
    ensures
        r == (a@.subrange(ra.0 as int, ra.1 as int) == b@.subrange(rb.0 as int, rb.1 as int)),
{
    if ra.1 - ra.0 != rb.1 - rb.0 {
        assert(a@.subrange(ra.0 as int, ra.1 as int).len() != b@.subrange(rb.0 as int, rb.1 as int).len());
        return false;
    }
    let n = ra.1 - ra.0;
    let mut i: usize = 0;
    while i < n
        invariant
            ra.0 <= ra.1 <= a.len(),
            rb.0 <= rb.1 <= b.len(),
            n == ra.1 - ra.0 == rb.1 - rb.0,
            i <= n,
            a@.subrange(ra.0 as int, ra.0 + i) == b@.subrange(rb.0 as int, rb.0 + i),
        decreases n - i,
    {
        if a[ra.0 + i] != b[rb.0 + i] {
            assert(a@.subrange(ra.0 as int, ra.1 as int)[i as int] != b@.subrange(
                rb.0 as int,
                rb.1 as int,
            )[i as int]);
            return false;
        }
        assert(a@.subrange(ra.0 as int, ra.0 + i + 1) =~= a@.subrange(ra.0 as int, ra.0 + i).push(a@[ra.0 + i]));
        assert(b@.subrange(rb.0 as int, rb.0 + i + 1) =~= b@.subrange(rb.0 as int, rb.0 + i).push(b@[rb.0 + i]));
        i = i + 1;
    }
    true
}

/// Index of the first occurrence of `p` in `s`, if any.
pub open spec fn first_occurrence(s: Seq<char>, p: Seq<char>) -> Option<int> {
    if exists|i: int| #[trigger] occurs_at(s, p, i) && forall|j: int| 0 <= j < i ==> !occurs_at(s, p, j) {
        Some(choose|i: int| #[trigger] occurs_at(s, p, i) && forall|j: int| 0 <= j < i ==> !occurs_at(s, p, j))
    } else {
        None
    }
}

/// The first occurrence, when there is one, is an occurrence.
pub proof fn lemma_first_occurrence_occurs(s: Seq<char>, p: Seq<char>)
    ensures
        first_occurrence(s, p) matches Some(i) ==> occurs_at(s, p, i),
{
}

pub proof fn lemma_first_occurrence(s: Seq<char>, p: Seq<char>, i: int)
    requires
        occurs_at(s, p, i),
        forall|j: int| 0 <= j < i ==> !occurs_at(s, p, j),
    ensures
        first_occurrence(s, p) == Some(i),
{
    let k = choose|k: int| #[trigger] occurs_at(s, p, k) && forall|j: int| 0 <= j < k ==> !occurs_at(s, p, j);
    assert(occurs_at(s, p, k));
    assert(k == i) by {
        if k < i {
            assert(!occurs_at(s, p, k));
        } else if i < k {
            assert(!occurs_at(s, p, i));
        }
    }
}

/// The index of the first occurrence of `p` in `s`, if any.
pub fn find_chars(s: &Vec<char>, p: &Vec<char>) -> (r: Option<usize>)
    ensures
        match r {
            Some(i) => first_occurrence(s@, p@) == Some(i as int),
            None => first_occurrence(s@, p@) is None,
        },
{
    if p.len() > s.len() {
        assert forall|i: int| !occurs_at(s@, p@, i) by {}
        return None;
    }
    let last = s.len() - p.len();
    let mut i: usize = 0;
    while i < last
        invariant
            last == s.len() - p.len(),
            i <= last,
            forall|j: int| 0 <= j < i ==> !occurs_at(s@, p@, j),
        decreases last - i,
    {
        if occurs_at_exec(s, p, i) {
            proof {
                lemma_first_occurrence(s@, p@, i as int);
            }
            return Some(i);
        }
        i = i + 1;
    }
    if occurs_at_exec(s, p, last) {
        proof {
            lemma_first_occurrence(s@, p@, last as int);
        }
        return Some(last);
    }
    assert forall|j: int| !occurs_at(s@, p@, j) by {
        if 0 <= j && j + p@.len() <= s@.len() && j != last {
            assert(j < i);
        }
    }
    None
}

} // verus!
