//! Character-level text helpers used throughout the library: conversion
//! between strings and character vectors, whitespace trimming, prefix and
//! suffix stripping, line splitting, substring search and the byte-wise
//! (equivalently, code-point-wise) ordering of strings.
use vstd::prelude::*;

verus! {

broadcast use vstd::string::group_string_axioms;

// ---------------------------------------------------------------------------
// Whitespace
// ---------------------------------------------------------------------------

/// Whether a character has the Unicode `White_Space` property (the property
/// `char::is_whitespace` decides): the controls tab to carriage return, space,
/// next line, no-break space, the ogham space mark, the spaces from en quad to
/// hair space, the line and paragraph separators, the narrow no-break space,
/// the medium mathematical space and the ideographic space.
pub open spec fn char_is_whitespace(c: char) -> bool {
    let u = c as u32;
    ||| 0x09 <= u <= 0x0D
    ||| u == 0x20
    ||| u == 0x85
    ||| u == 0xA0
    ||| u == 0x1680
    ||| 0x2000 <= u <= 0x200A
    ||| u == 0x2028
    ||| u == 0x2029
    ||| u == 0x202F
    ||| u == 0x205F
    ||| u == 0x3000
}

/// Whether a character is whitespace (see [`char_is_whitespace`]).
pub fn is_whitespace(c: char) -> (r: bool)
    ensures
        r == char_is_whitespace(c),
{
    let u = c as u32;
    (0x09 <= u && u <= 0x0D) || u == 0x20 || u == 0x85 || u == 0xA0 || u == 0x1680
        || (0x2000 <= u && u <= 0x200A) || u == 0x2028 || u == 0x2029 || u == 0x202F
        || u == 0x205F || u == 0x3000
}

/// `s` without its leading whitespace.
pub open spec fn trim_start_spec(s: Seq<char>) -> Seq<char>
    decreases s.len(),
{
    if s.len() > 0 && char_is_whitespace(s[0]) {
        trim_start_spec(s.drop_first())
    } else {
        s
    }
}

/// `s` without its trailing whitespace.
pub open spec fn trim_end_spec(s: Seq<char>) -> Seq<char>
    decreases s.len(),
{
    if s.len() > 0 && char_is_whitespace(s.last()) {
        trim_end_spec(s.drop_last())
    } else {
        s
    }
}

/// `s` without leading and trailing whitespace (what `str::trim` returns).
pub open spec fn trim_spec(s: Seq<char>) -> Seq<char> {
    trim_end_spec(trim_start_spec(s))
}

// ---------------------------------------------------------------------------
// Conversions
// ---------------------------------------------------------------------------

/// Appends one character to a string (`String::push`).
#[verifier::external_body]
pub fn push_char(s: &mut String, c: char)
    ensures
        final(s)@ == old(s)@.push(c),
{
    s.push(c);
}

/// The characters of a string slice, in order.
pub fn chars_of(s: &str) -> (r: Vec<char>)
    ensures
        r@ == s@,
{
    let mut r: Vec<char> = Vec::new();
    for c in it: s.chars()
        invariant
            r@ == it.seq().take(it.index()),
    {
        r.push(c);
    }
    r
}

/// The string made of the characters `cs[from..to]`.
pub fn string_of_range(cs: &Vec<char>, from: usize, to: usize) -> (r: String)
    requires
        from <= to <= cs.len(),
    ensures
        r@ == cs@.subrange(from as int, to as int),
{
    let mut r = String::new();
    let mut i = from;
    while i < to
        invariant
            from <= i <= to <= cs.len(),
            r@ == cs@.subrange(from as int, i as int),
        decreases to - i,
    {
        push_char(&mut r, cs[i]);
        i += 1;
        assert(r@ =~= cs@.subrange(from as int, i as int));
    }
    r
}

/// The string made of the characters `cs`.
pub fn string_of(cs: &Vec<char>) -> (r: String)
    ensures
        r@ == cs@,
{
    let r = string_of_range(cs, 0, cs.len());
    assert(cs@.subrange(0, cs@.len() as int) =~= cs@);
    r
}

/// A copy of a string slice.
pub fn copy_str(s: &str) -> (r: String)
    ensures
        r@ == s@,
{
    s.to_owned()
}

/// `a` followed by `b`.
pub fn concat2(a: &str, b: &str) -> (r: String)
    ensures
        r@ == a@ + b@,
{
    let mut r = a.to_owned();
    r.append(b);
    r
}

/// `a`, `b` and `c` one after the other.
pub fn concat3(a: &str, b: &str, c: &str) -> (r: String)
    ensures
        r@ == a@ + b@ + c@,
{
    let mut r = a.to_owned();
    r.append(b);
    r.append(c);
    r
}

// ---------------------------------------------------------------------------
// Trimming
// ---------------------------------------------------------------------------

proof fn lemma_trim_start_skip(s: Seq<char>, i: int)
    requires
        0 <= i <= s.len(),
        forall|k: int| 0 <= k < i ==> char_is_whitespace(#[trigger] s[k]),
    ensures
        trim_start_spec(s) == trim_start_spec(s.skip(i)),
    decreases i,
{
    if i > 0 {
        assert(s.skip(1) =~= s.drop_first());
        lemma_trim_start_skip(s.drop_first(), i - 1);
        assert(s.drop_first().skip(i - 1) =~= s.skip(i));
    } else {
        assert(s.skip(0) =~= s);
    }
}

proof fn lemma_trim_end_take(s: Seq<char>, j: int)
    requires
        0 <= j <= s.len(),
        forall|k: int| j <= k < s.len() ==> char_is_whitespace(#[trigger] s[k]),
    ensures
        trim_end_spec(s) == trim_end_spec(s.take(j)),
    decreases s.len() - j,
{
    if j < s.len() {
        assert(s.take(s.len() - 1) =~= s.drop_last());
        lemma_trim_end_take(s.drop_last(), j);
        assert(s.drop_last().take(j) =~= s.take(j));
    } else {
        assert(s.take(j) =~= s);
    }
}

/// The bounds `(lo, hi)` such that `cs[lo..hi]` is `cs` trimmed of whitespace.
pub fn trim_bounds(cs: &Vec<char>) -> (r: (usize, usize))
    ensures
        r.0 <= r.1 <= cs.len(),
        cs@.subrange(r.0 as int, r.1 as int) == trim_spec(cs@),
{
    let mut lo: usize = 0;
    while lo < cs.len() && is_whitespace(cs[lo])
        invariant
            lo <= cs.len(),
            forall|k: int| 0 <= k < lo ==> char_is_whitespace(#[trigger] cs@[k]),
        decreases cs.len() - lo,
    {
        lo += 1;
    }
    proof {
        lemma_trim_start_skip(cs@, lo as int);
    }
    let ghost rest = cs@.skip(lo as int);
    assert(trim_start_spec(rest) == rest);
    let mut hi: usize = cs.len();
    while hi > lo && is_whitespace(cs[hi - 1])
        invariant
            lo <= hi <= cs.len(),
            rest == cs@.skip(lo as int),
            forall|k: int| hi <= k < cs.len() ==> char_is_whitespace(#[trigger] cs@[k]),
        decreases hi - lo,
    {
        hi -= 1;
    }
    proof {
        assert forall|k: int| hi - lo <= k < rest.len() implies char_is_whitespace(
            #[trigger] rest[k],
        ) by {
            assert(rest[k] == cs@[k + lo]);
        }
        lemma_trim_end_take(rest, hi - lo);
        assert(rest.take(hi - lo) =~= cs@.subrange(lo as int, hi as int));
    }
    (lo, hi)
}

/// `s` without leading and trailing whitespace (`str::trim`).
pub fn trim(s: &str) -> (r: String)
    ensures
        r@ == trim_spec(s@),
{
    let cs = chars_of(s);
    let (lo, hi) = trim_bounds(&cs);
    string_of_range(&cs, lo, hi)
}

/// The characters of `cs` trimmed of whitespace.
pub fn trim_chars(cs: &Vec<char>) -> (r: Vec<char>)
    ensures
        r@ == trim_spec(cs@),
{
    let (lo, hi) = trim_bounds(cs);
    slice_chars(cs, lo, hi)
}

/// `cs[from..to]` as a new vector.
pub fn slice_chars(cs: &Vec<char>, from: usize, to: usize) -> (r: Vec<char>)
    requires
        from <= to <= cs.len(),
    ensures
        r@ == cs@.subrange(from as int, to as int),
{
    let mut r: Vec<char> = Vec::new();
    let mut i = from;
    while i < to
        invariant
            from <= i <= to <= cs.len(),
            r@ == cs@.subrange(from as int, i as int),
        decreases to - i,
    {
        r.push(cs[i]);
        i += 1;
        assert(r@ =~= cs@.subrange(from as int, i as int));
    }
    r
}

// ---------------------------------------------------------------------------
// Prefixes and search
// ---------------------------------------------------------------------------

/// Whether `p` is a prefix of `s`.
pub open spec fn has_prefix(s: Seq<char>, p: Seq<char>) -> bool {
    p.len() <= s.len() && s.take(p.len() as int) == p
}

/// Whether `p` occurs in `s` as a contiguous run of characters.
pub open spec fn contains_spec(s: Seq<char>, p: Seq<char>) -> bool {
    exists|i: int| 0 <= i <= s.len() - p.len() && #[trigger] s.subrange(i, i + p.len()) == p
}

/// Whether `s[at..]` starts with `p`.
pub fn matches_at(s: &Vec<char>, at: usize, p: &Vec<char>) -> (r: bool)
    requires
        at <= s.len(),
    ensures
        r == (at + p.len() <= s.len() && s@.subrange(at as int, at + p.len()) == p@),
{
    if p.len() > s.len() - at {
        return false;
    }
    let mut k: usize = 0;
    while k < p.len()
        invariant
            at + p.len() <= s.len(),
            k <= p.len(),
            forall|j: int| 0 <= j < k ==> s@[at + j] == p@[j],
        decreases p.len() - k,
    {
        if s[at + k] != p[k] {
            assert(s@.subrange(at as int, at + p.len())[k as int] != p@[k as int]);
            return false;
        }
        k += 1;
    }
    assert(s@.subrange(at as int, at + p.len()) =~= p@);
    true
}

/// Whether `p` is a prefix of `s`.
pub fn starts_with(s: &Vec<char>, p: &Vec<char>) -> (r: bool)
    ensures
        r == has_prefix(s@, p@),
{
    let r = matches_at(s, 0, p);
    proof {
        if p.len() <= s.len() {
            assert(s@.subrange(0, p@.len() as int) =~= s@.take(p@.len() as int));
        }
    }
    r
}

/// Whether `p` occurs in `s`.
pub fn contains_chars(s: &Vec<char>, p: &Vec<char>) -> (r: bool)
    ensures
        r == contains_spec(s@, p@),
{
    if p.len() > s.len() {
        return false;
    }
    let last = s.len() - p.len();
    let mut i: usize = 0;
    loop
        invariant
            p.len() <= s.len(),
            last == s.len() - p.len(),
            i <= last,
            forall|j: int| 0 <= j < i ==> #[trigger] s@.subrange(j, j + p.len()) != p@,
        decreases last - i,
    {
        if matches_at(s, i, p) {
            return true;
        }
        if i == last {
            return false;
        }
        i += 1;
    }
}

// ---------------------------------------------------------------------------
// Lines
// ---------------------------------------------------------------------------

/// `s` without one trailing carriage return, if it has one.
pub open spec fn strip_cr(s: Seq<char>) -> Seq<char> {
    if s.len() > 0 && s.last() == '\r' {
        s.drop_last()
    } else {
        s
    }
}

/// The lines of `s` as `str::lines` yields them: the pieces between `'\n'`
/// characters, each without one trailing `'\r'`, with no final empty piece
/// after a trailing `'\n'`.
pub open spec fn lines_spec(s: Seq<char>) -> Seq<Seq<char>>
    decreases s.len(),
{
    if s.len() == 0 {
        Seq::empty()
    } else {
        let i = first_newline(s);
        proof {
            lemma_first_newline_bound(s);
        }
        if i == s.len() {
            seq![strip_cr(s)]
        } else {
            seq![strip_cr(s.take(i))] + lines_spec(s.skip(i + 1))
        }
    }
}

/// The index of the first `'\n'` in `s`, or its length when there is none.
pub open spec fn first_newline(s: Seq<char>) -> int
    decreases s.len(),
{
    if s.len() == 0 {
        0
    } else if s[0] == '\n' {
        0
    } else {
        1 + first_newline(s.drop_first())
    }
}

pub proof fn lemma_first_newline_bound(s: Seq<char>)
    ensures
        0 <= first_newline(s) <= s.len(),
        first_newline(s) < s.len() ==> s[first_newline(s)] == '\n',
    decreases s.len(),
{
    if s.len() > 0 && s[0] != '\n' {
        lemma_first_newline_bound(s.drop_first());
    }
}

proof fn lemma_first_newline(s: Seq<char>, i: int)
    requires
        0 <= i <= s.len(),
        forall|k: int| 0 <= k < i ==> s[k] != '\n',
        i == s.len() || s[i] == '\n',
    ensures
        first_newline(s) == i,
    decreases i,
{
    if i > 0 {
        lemma_first_newline(s.drop_first(), i - 1);
    }
}

/// The lines of the text `cs` (see [`lines_spec`]).
pub fn lines_of(cs: &Vec<char>) -> (r: Vec<Vec<char>>)
    ensures
        seqs_of(r@) == lines_spec(cs@),
{
    let mut r: Vec<Vec<char>> = Vec::new();
    let mut start: usize = 0;
    assert(cs@.skip(0) =~= cs@);
    assert(seqs_of(r@) =~= Seq::<Seq<char>>::empty());
    while start < cs.len()
        invariant
            start <= cs.len(),
            lines_spec(cs@) == seqs_of(r@) + lines_spec(cs@.skip(start as int)),
        decreases cs.len() - start,
    {
        let ghost rest = cs@.skip(start as int);
        let mut i = start;
        while i < cs.len() && cs[i] != '\n'
            invariant
                start <= i <= cs.len(),
                forall|k: int| start <= k < i ==> cs@[k] != '\n',
            decreases cs.len() - i,
        {
            i += 1;
        }
        proof {
            lemma_first_newline(rest, i - start);
        }
        let mut end = i;
        if end > start && cs[end - 1] == '\r' {
            end -= 1;
        }
        let line = slice_chars(cs, start, end);
        assert(line@ == strip_cr(rest.take(i - start)));
        let ghost old_r = seqs_of(r@);
        r.push(line);
        assert(seqs_of(r@) =~= old_r.push(line@));
        if i == cs.len() {
            assert(rest.take(i - start) =~= rest);
            assert(lines_spec(rest) == seq![line@]);
            start = i;
            assert(lines_spec(cs@.skip(start as int)) =~= Seq::<Seq<char>>::empty());
            assert(lines_spec(cs@) =~= seqs_of(r@) + lines_spec(cs@.skip(start as int)));
        } else {
            assert(rest.skip(i - start + 1) =~= cs@.skip(i + 1));
            start = i + 1;
            assert(lines_spec(cs@) =~= seqs_of(r@) + lines_spec(cs@.skip(start as int)));
        }
    }
    assert(lines_spec(cs@.skip(start as int)) =~= Seq::<Seq<char>>::empty());
    assert(lines_spec(cs@) =~= seqs_of(r@));
    r
}

// ---------------------------------------------------------------------------
// Ordering
// ---------------------------------------------------------------------------

/// The character sequences held by a vector of strings.
pub open spec fn strs_view(v: Seq<String>) -> Seq<Seq<char>> {
    v.map_values(|x: String| x@)
}

/// The character sequences held by a vector of character vectors.
pub open spec fn seqs_of(v: Seq<Vec<char>>) -> Seq<Seq<char>> {
    v.map_values(|x: Vec<char>| x@)
}

/// Lexicographic order of character sequences by code point. On UTF-8 text
/// this is the byte-wise order by which `String` values compare.
pub open spec fn chars_lt(a: Seq<char>, b: Seq<char>) -> bool
    decreases a.len(),
{
    if a.len() == 0 {
        b.len() > 0
    } else if b.len() == 0 {
        false
    } else if a[0] != b[0] {
        (a[0] as int) < (b[0] as int)
    } else {
        chars_lt(a.drop_first(), b.drop_first())
    }
}

/// Every element is strictly below the next ones in [`chars_lt`] order.
pub open spec fn strictly_sorted(s: Seq<Seq<char>>) -> bool {
    forall|i: int, j: int| 0 <= i < j < s.len() ==> chars_lt(#[trigger] s[i], #[trigger] s[j])
}

pub proof fn lemma_chars_lt_irreflexive(a: Seq<char>)
    ensures
        !chars_lt(a, a),
    decreases a.len(),
{
    if a.len() > 0 {
        lemma_chars_lt_irreflexive(a.drop_first());
    }
}

pub proof fn lemma_chars_lt_transitive(a: Seq<char>, b: Seq<char>, c: Seq<char>)
    requires
        chars_lt(a, b),
        chars_lt(b, c),
    ensures
        chars_lt(a, c),
    decreases a.len(),
{
    if a.len() > 0 && b.len() > 0 && c.len() > 0 {
        if a[0] == b[0] && b[0] == c[0] {
            lemma_chars_lt_transitive(a.drop_first(), b.drop_first(), c.drop_first());
        }
    }
}

pub proof fn lemma_chars_lt_total(a: Seq<char>, b: Seq<char>)
    ensures
        a == b || chars_lt(a, b) || chars_lt(b, a),
    decreases a.len(),
{
    if a.len() > 0 && b.len() > 0 {
        if a[0] == b[0] {
            lemma_chars_lt_total(a.drop_first(), b.drop_first());
            if a.drop_first() == b.drop_first() {
                assert(a =~= seq![a[0]] + a.drop_first());
                assert(b =~= seq![b[0]] + b.drop_first());
            }
        } else {
            assert((a[0] as int) != (b[0] as int));
        }
    } else if a.len() == 0 && b.len() == 0 {
        assert(a =~= b);
    }
}

pub proof fn lemma_chars_lt_asymmetric(a: Seq<char>, b: Seq<char>)
    requires
        chars_lt(a, b),
    ensures
        !chars_lt(b, a),
{
    if chars_lt(b, a) {
        lemma_chars_lt_transitive(a, b, a);
        lemma_chars_lt_irreflexive(a);
    }
}

proof fn lemma_chars_lt_common_prefix(a: Seq<char>, b: Seq<char>, i: int)
    requires
        0 <= i <= a.len(),
        i <= b.len(),
        a.take(i) == b.take(i),
    ensures
        chars_lt(a, b) == chars_lt(a.skip(i), b.skip(i)),
    decreases i,
{
    if i > 0 {
        assert(a[0] == a.take(i)[0]);
        assert(b[0] == b.take(i)[0]);
        assert(a.drop_first().take(i - 1) =~= a.take(i).drop_first());
        assert(b.drop_first().take(i - 1) =~= b.take(i).drop_first());
        lemma_chars_lt_common_prefix(a.drop_first(), b.drop_first(), i - 1);
        assert(a.drop_first().skip(i - 1) =~= a.skip(i));
        assert(b.drop_first().skip(i - 1) =~= b.skip(i));
    } else {
        assert(a.skip(0) =~= a);
        assert(b.skip(0) =~= b);
    }
}

/// Three-way comparison of two character sequences in [`chars_lt`] order:
/// negative, zero or positive as `a` is below, equal to or above `b`.
pub fn compare_chars(a: &Vec<char>, b: &Vec<char>) -> (r: i8)
    ensures
        r < 0 <==> chars_lt(a@, b@),
        r == 0 <==> a@ == b@,
        r > 0 <==> chars_lt(b@, a@),
{
    let mut i: usize = 0;
    while i < a.len() && i < b.len()
        invariant
            i <= a.len(),
            i <= b.len(),
            a@.take(i as int) == b@.take(i as int),
        decreases a.len() - i,
    {
        if a[i] != b[i] {
            proof {
                lemma_chars_lt_common_prefix(a@, b@, i as int);
                lemma_chars_lt_common_prefix(b@, a@, i as int);
                assert(a@.skip(i as int)[0] == a@[i as int]);
                assert(b@.skip(i as int)[0] == b@[i as int]);
                assert((a[i as int] as int) != (b[i as int] as int));
                if a@ == b@ {
                    assert(a@[i as int] == b@[i as int]);
                }
            }
            if a[i] < b[i] {
                return -1;
            } else {
                return 1;
            }
        }
        assert(a@.take(i + 1) =~= a@.take(i as int).push(a@[i as int]));
        assert(b@.take(i + 1) =~= b@.take(i as int).push(b@[i as int]));
        i += 1;
    }
    proof {
        lemma_chars_lt_common_prefix(a@, b@, i as int);
        lemma_chars_lt_common_prefix(b@, a@, i as int);
        if i == a.len() {
            assert(a@.take(i as int) =~= a@);
        }
        if i == b.len() {
            assert(b@.take(i as int) =~= b@);
        }
        if a@ == b@ {
            lemma_chars_lt_irreflexive(a@);
        }
    }
    if a.len() == b.len() {
        0
    } else if a.len() < b.len() {
        assert(a@ != b@) by {
            assert(a@.len() != b@.len());
        }
        -1
    } else {
        1
    }
}

/// Inserts `x` into the strictly sorted set `v`, keeping it strictly sorted;
/// nothing changes when `x` is already there.
pub fn insert_sorted(v: &mut Vec<Vec<char>>, x: Vec<char>)
    requires
        strictly_sorted(seqs_of(old(v)@)),
    ensures
        strictly_sorted(seqs_of(final(v)@)),
        forall|y: Seq<char>|
            seqs_of(final(v)@).contains(y) <==> (seqs_of(old(v)@).contains(y) || y == x@),
{
    let mut i: usize = 0;
    while i < v.len()
        invariant
            i <= v.len(),
            seqs_of(v@) == seqs_of(old(v)@),
            strictly_sorted(seqs_of(v@)),
            forall|k: int| 0 <= k < i ==> chars_lt(#[trigger] seqs_of(v@)[k], x@),
        ensures
            i <= v.len(),
            seqs_of(v@) == seqs_of(old(v)@),
            forall|k: int| 0 <= k < i ==> chars_lt(#[trigger] seqs_of(v@)[k], x@),
            i < v.len() ==> chars_lt(x@, seqs_of(v@)[i as int]),
        decreases v.len() - i,
    {
        let c = compare_chars(&v[i], &x);
        if c == 0 {
            assert(seqs_of(v@)[i as int] == x@);
            return;
        }
        if c > 0 {
            break;
        }
        i += 1;
    }
    let ghost old_dv = seqs_of(v@);
    let ghost xv = x@;
    proof {
        assert forall|k: int| i <= k < old_dv.len() implies chars_lt(xv, #[trigger] old_dv[k]) by {
            if k > i {
                lemma_chars_lt_transitive(xv, old_dv[i as int], old_dv[k]);
            }
        }
    }
    v.insert(i, x);
    proof {
        assert(old_dv == seqs_of(old(v)@));
        assert(xv == x@);
        assert(seqs_of(v@) =~= old_dv.insert(i as int, xv));
        assert forall|y: Seq<char>|
            seqs_of(v@).contains(y) <==> (old_dv.contains(y) || y == xv) by {
            if old_dv.contains(y) {
                let k = choose|k: int| 0 <= k < old_dv.len() && old_dv[k] == y;
                if k < i {
                    assert(seqs_of(v@)[k] == y);
                } else {
                    assert(seqs_of(v@)[k + 1] == y);
                }
            }
            if y == xv {
                assert(seqs_of(v@)[i as int] == y);
            }
            if seqs_of(v@).contains(y) {
                let k = choose|k: int| 0 <= k < seqs_of(v@).len() && seqs_of(v@)[k] == y;
                if k < i {
                    assert(old_dv[k] == y);
                } else if k > i {
                    assert(old_dv[k - 1] == y);
                }
            }
        }
        assert(strictly_sorted(seqs_of(v@)));
        assert(forall|y: Seq<char>| seqs_of(v@).contains(y) <==> (seqs_of(old(v)@).contains(y) || y == x@));
    }
}

} // verus!
