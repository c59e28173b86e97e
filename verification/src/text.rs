//! Character-sequence helpers: conversion between `str`/`String` and
//! `Vec<char>`, trimming, splitting and searching.
use vstd::prelude::*;

verus! {

/// The Unicode `White_Space` property, as `char::is_whitespace` documents it.
pub open spec fn is_white_space(c: char) -> bool {
    ||| ('\u{9}' <= c && c <= '\u{d}')
    ||| c == ' '
    ||| c == '\u{85}'
    ||| c == '\u{a0}'
    ||| c == '\u{1680}'
    ||| ('\u{2000}' <= c && c <= '\u{200a}')
    ||| c == '\u{2028}'
    ||| c == '\u{2029}'
    ||| c == '\u{202f}'
    ||| c == '\u{205f}'
    ||| c == '\u{3000}'
}

/// Whitespace test used by trimming.
pub fn char_is_whitespace(c: char) -> (r: bool)
    ensures
        r == is_white_space(c),
{
    ('\u{9}' <= c && c <= '\u{d}') || c == ' ' || c == '\u{85}' || c == '\u{a0}' || c
        == '\u{1680}' || ('\u{2000}' <= c && c <= '\u{200a}') || c == '\u{2028}' || c
        == '\u{2029}' || c == '\u{202f}' || c == '\u{205f}' || c == '\u{3000}'
}

/// Removes leading whitespace.
pub open spec fn trim_start(s: Seq<char>) -> Seq<char>
    decreases s.len(),
{
    if s.len() > 0 && is_white_space(s[0]) {
        trim_start(s.drop_first())
    } else {
        s
    }
}

/// Removes trailing whitespace.
pub open spec fn trim_end(s: Seq<char>) -> Seq<char>
    decreases s.len(),
{
    if s.len() > 0 && is_white_space(s.last()) {
        trim_end(s.drop_last())
    } else {
        s
    }
}

/// Removes leading and trailing whitespace, as `str::trim` does.
pub open spec fn trim(s: Seq<char>) -> Seq<char> {
    trim_end(trim_start(s))
}

/// `trim_start` drops a prefix of whitespace.
pub proof fn lemma_trim_start_skip(s: Seq<char>, i: int)
    requires
        0 <= i <= s.len(),
        forall|k: int| 0 <= k < i ==> is_white_space(#[trigger] s[k]),
    ensures
        trim_start(s) == trim_start(s.skip(i)),
    decreases i,
{
    if i > 0 {
        assert(is_white_space(s[0]));
        assert(s.drop_first().skip(i - 1) =~= s.skip(i));
        lemma_trim_start_skip(s.drop_first(), i - 1);
    } else {
        assert(s.skip(0) =~= s);
    }
}

/// `trim_end` drops a suffix of whitespace.
pub proof fn lemma_trim_end_take(s: Seq<char>, j: int)
    requires
        0 <= j <= s.len(),
        forall|k: int| j <= k < s.len() ==> is_white_space(#[trigger] s[k]),
    ensures
        trim_end(s) == trim_end(s.take(j)),
    decreases s.len() - j,
{
    if j < s.len() {
        assert(is_white_space(s[s.len() - 1]));
        assert(s.drop_last().take(j) =~= s.take(j));
        lemma_trim_end_take(s.drop_last(), j);
        assert(s.last() == s[s.len() - 1]);
        assert(trim_end(s) == trim_end(s.drop_last()));
    } else {
        assert(s.take(j) =~= s);
    }
}

/// Trimming never lengthens a sequence and yields a contiguous piece of it.
pub proof fn lemma_trim_is_subrange(s: Seq<char>)
    ensures
        exists|a: int, b: int| 0 <= a <= b <= s.len() && trim(s) == s.subrange(a, b),
        trim(s).len() <= s.len(),
{
    lemma_trim_start_sub(s);
    let a = choose|a: int| 0 <= a <= s.len() && trim_start(s) == s.subrange(a, s.len() as int);
    let t = trim_start(s);
    lemma_trim_end_sub(t);
    let b = choose|b: int| 0 <= b <= t.len() && trim_end(t) == t.subrange(0, b);
    assert(trim(s) =~= s.subrange(a, a + b));
}

proof fn lemma_trim_start_sub(s: Seq<char>)
    ensures
        exists|a: int| 0 <= a <= s.len() && trim_start(s) == s.subrange(a, s.len() as int),
    decreases s.len(),
{
    if s.len() > 0 && is_white_space(s[0]) {
        lemma_trim_start_sub(s.drop_first());
        let a = choose|a: int|
            0 <= a <= s.drop_first().len() && trim_start(s.drop_first()) == s.drop_first().subrange(
                a,
                s.drop_first().len() as int,
            );
        assert(s.drop_first().subrange(a, s.drop_first().len() as int) =~= s.subrange(
            a + 1,
            s.len() as int,
        ));
    } else {
        assert(s.subrange(0, s.len() as int) =~= s);
    }
}

proof fn lemma_trim_end_sub(s: Seq<char>)
    ensures
        exists|b: int| 0 <= b <= s.len() && trim_end(s) == s.subrange(0, b),
    decreases s.len(),
{
    if s.len() > 0 && is_white_space(s.last()) {
        lemma_trim_end_sub(s.drop_last());
        let b = choose|b: int|
            0 <= b <= s.drop_last().len() && trim_end(s.drop_last()) == s.drop_last().subrange(
                0,
                b,
            );
        assert(s.drop_last().subrange(0, b) =~= s.subrange(0, b));
    } else {
        assert(s.subrange(0, s.len() as int) =~= s);
    }
}

/// Copies the characters of a string slice into a vector.
pub fn chars_of(s: &str) -> (r: Vec<char>)
    ensures
        r@ == s@,
{
    let mut r: Vec<char> = Vec::new();
    for c in it: s.chars()
        invariant
            r@ == it.seq().take(it.index() as int),
            it.seq() == s@,
    {
        r.push(c);
    }
    r
}

/// Appends one character to a `String`.
///
/// Calls `String::push`, which appends the given `char` to the end of the
/// string; the contract states exactly that of the character view.
#[verifier::external_body]
fn string_push(s: &mut String, c: char)
    ensures
        final(s)@ == old(s)@.push(c),
{
    s.push(c);
}

/// Builds a `String` holding exactly the given characters.
pub fn string_of(cs: &Vec<char>) -> (r: String)
    ensures
        r@ == cs@,
{
    let mut r = String::new();
    let mut i: usize = 0;
    while i < cs.len()
        invariant
            i <= cs.len(),
            r@ == cs@.take(i as int),
        decreases cs.len() - i,
    {
        string_push(&mut r, cs[i]);
        assert(cs@.take(i + 1) =~= cs@.take(i as int).push(cs@[i as int]));
        i += 1;
    }
    assert(cs@.take(cs.len() as int) =~= cs@);
    r
}

/// Builds a `String` from a string slice.
pub fn string_from(s: &str) -> (r: String)
    ensures
        r@ == s@,
{
    let cs = chars_of(s);
    string_of(&cs)
}

/// Concatenates two character sequences into a `String`.
pub fn concat_str(a: &str, b: &str) -> (r: String)
    ensures
        r@ == a@ + b@,
{
    let mut cs = chars_of(a);
    let bs = chars_of(b);
    let mut i: usize = 0;
    while i < bs.len()
        invariant
            i <= bs.len(),
            cs@ == a@ + bs@.take(i as int),
        decreases bs.len() - i,
    {
        cs.push(bs[i]);
        assert(a@ + bs@.take(i + 1) =~= (a@ + bs@.take(i as int)).push(bs@[i as int]));
        i += 1;
    }
    assert(bs@.take(bs.len() as int) =~= bs@);
    string_of(&cs)
}

/// Copies the characters `s[lo..hi]` into a new vector.
pub fn sub_chars(s: &Vec<char>, lo: usize, hi: usize) -> (r: Vec<char>)
    requires
        lo <= hi <= s.len(),
    ensures
        r@ == s@.subrange(lo as int, hi as int),
{
    let mut r: Vec<char> = Vec::new();
    let mut i = lo;
    while i < hi
        invariant
            lo <= i <= hi <= s.len(),
            r@ == s@.subrange(lo as int, i as int),
        decreases hi - i,
    {
        r.push(s[i]);
        assert(s@.subrange(lo as int, i + 1) =~= s@.subrange(lo as int, i as int).push(
            s@[i as int],
        ));
        i += 1;
    }
    r
}

/// Trims leading and trailing whitespace.
pub fn trim_chars(s: &Vec<char>) -> (r: Vec<char>)
    ensures
        r@ == trim(s@),
{
    let mut lo: usize = 0;
    while lo < s.len() && char_is_whitespace(s[lo])
        invariant
            lo <= s.len(),
            forall|k: int| 0 <= k < lo ==> is_white_space(#[trigger] s@[k]),
        decreases s.len() - lo,
    {
        lo += 1;
    }
    proof {
        lemma_trim_start_skip(s@, lo as int);
    }
    let t = sub_chars(s, lo, s.len());
    assert(t@ =~= s@.skip(lo as int));
    assert(trim_start(t@) == t@);
    let mut hi: usize = t.len();
    while hi > 0 && char_is_whitespace(t[hi - 1])
        invariant
            hi <= t.len(),
            forall|k: int| hi <= k < t.len() ==> is_white_space(#[trigger] t@[k]),
        decreases hi,
    {
        hi -= 1;
    }
    proof {
        lemma_trim_end_take(t@, hi as int);
        assert(trim_end(t@.take(hi as int)) == t@.take(hi as int));
    }
    let r = sub_chars(&t, 0, hi);
    assert(r@ =~= t@.take(hi as int));
    r
}

/// Trims a string slice into a new vector of characters.
pub fn trim_str(s: &str) -> (r: Vec<char>)
    ensures
        r@ == trim(s@),
{
    let cs = chars_of(s);
    trim_chars(&cs)
}

/// Equality of two character sequences.
pub fn chars_eq(a: &Vec<char>, b: &Vec<char>) -> (r: bool)
    ensures
        r == (a@ == b@),
{
    if a.len() != b.len() {
        return false;
    }
    let mut i: usize = 0;
    while i < a.len()
        invariant
            a.len() == b.len(),
            i <= a.len(),
            forall|k: int| 0 <= k < i ==> a@[k] == b@[k],
        decreases a.len() - i,
    {
        if a[i] != b[i] {
            return false;
        }
        i += 1;
    }
    assert(a@ =~= b@);
    true
}

/// Equality of two string slices by their characters.
pub fn str_eq(a: &str, b: &str) -> (r: bool)
    ensures
        r == (a@ == b@),
{
    let ca = chars_of(a);
    let cb = chars_of(b);
    chars_eq(&ca, &cb)
}

/// Equality of a character vector with a string slice.
pub fn chars_eq_str(a: &Vec<char>, b: &str) -> (r: bool)
    ensures
        r == (a@ == b@),
{
    let cb = chars_of(b);
    chars_eq(a, &cb)
}

/// `p` occurs in `s` at position `i`.
pub open spec fn occurs_at(s: Seq<char>, i: int, p: Seq<char>) -> bool {
    0 <= i && i + p.len() <= s.len() && s.subrange(i, i + p.len()) == p
}

/// Prefix test.
pub open spec fn has_prefix(s: Seq<char>, p: Seq<char>) -> bool {
    occurs_at(s, 0, p)
}

/// A sequence is a prefix of itself followed by anything.
pub proof fn lemma_prefix_of_concat(a: Seq<char>, b: Seq<char>)
    ensures
        has_prefix(a + b, a),
{
    assert((a + b).subrange(0, a.len() as int) =~= a);
}

/// Suffix test.
pub open spec fn has_suffix(s: Seq<char>, p: Seq<char>) -> bool {
    p.len() <= s.len() && occurs_at(s, s.len() - p.len(), p)
}

/// Substring test.
pub open spec fn has_infix(s: Seq<char>, p: Seq<char>) -> bool {
    exists|i: int| occurs_at(s, i, p)
}

/// Tests whether `p` occurs in `s` starting at position `i`.
pub fn occurs_at_exec(s: &Vec<char>, i: usize, p: &Vec<char>) -> (r: bool)
    ensures
        r == occurs_at(s@, i as int, p@),
{
    if i > s.len() || p.len() > s.len() - i {
        return false;
    }
    let mut k: usize = 0;
    while k < p.len()
        invariant
            i + p.len() <= s.len(),
            k <= p.len(),
            forall|j: int| 0 <= j < k ==> s@[i + j] == p@[j],
        decreases p.len() - k,
    {
        if s[i + k] != p[k] {
            assert(s@.subrange(i as int, i + p.len())[k as int] != p@[k as int]);
            return false;
        }
        k += 1;
    }
    assert(s@.subrange(i as int, i + p.len()) =~= p@);
    true
}

/// Prefix test on vectors.
pub fn starts_with_chars(s: &Vec<char>, p: &Vec<char>) -> (r: bool)
    ensures
        r == has_prefix(s@, p@),
{
    occurs_at_exec(s, 0, p)
}

/// Suffix test on vectors.
pub fn ends_with_chars(s: &Vec<char>, p: &Vec<char>) -> (r: bool)
    ensures
        r == has_suffix(s@, p@),
{
    if p.len() > s.len() {
        return false;
    }
    occurs_at_exec(s, s.len() - p.len(), p)
}

/// Substring test on vectors.
pub fn contains_chars(s: &Vec<char>, p: &Vec<char>) -> (r: bool)
    ensures
        r == has_infix(s@, p@),
{
    let mut i: usize = 0;
    while i < s.len()
        invariant
            i <= s.len(),
            forall|j: int| 0 <= j < i ==> !occurs_at(s@, j, p@),
        decreases s.len() - i,
    {
        if occurs_at_exec(s, i, p) {
            return true;
        }
        i += 1;
    }
    if occurs_at_exec(s, i, p) {
        return true;
    }
    assert forall|j: int| !occurs_at(s@, j, p@) by {
        if 0 <= j <= i {
        } else if j > i {
        }
    }
    false
}

/// Position of the first occurrence of `p` in `s` at or after `i`.
pub open spec fn find_from(s: Seq<char>, p: Seq<char>, i: int) -> Option<int>
    decreases s.len() + 1 - i,
{
    if i < 0 || i > s.len() {
        None
    } else if occurs_at(s, i, p) {
        Some(i)
    } else {
        find_from(s, p, i + 1)
    }
}

/// Position of the first occurrence of `p` in `s`, as `str::find` gives it.
pub open spec fn first_occurrence(s: Seq<char>, p: Seq<char>) -> Option<int> {
    find_from(s, p, 0)
}

/// Finds the first occurrence of `p` in `s`.
pub fn find_chars(s: &Vec<char>, p: &Vec<char>) -> (r: Option<usize>)
    ensures
        match r {
            Some(i) => first_occurrence(s@, p@) == Some(i as int) && i + p.len() <= s.len(),
            None => first_occurrence(s@, p@) is None,
        },
{
    let mut i: usize = 0;
    while i < s.len()
        invariant
            i <= s.len(),
            find_from(s@, p@, 0) == find_from(s@, p@, i as int),
        decreases s.len() - i,
    {
        if occurs_at_exec(s, i, p) {
            return Some(i);
        }
        i += 1;
    }
    if occurs_at_exec(s, i, p) {
        return Some(i);
    }
    assert(find_from(s@, p@, i + 1) is None);
    None
}

/// Substring test on string slices.
pub fn str_contains(s: &str, p: &str) -> (r: bool)
    ensures
        r == has_infix(s@, p@),
{
    let cs = chars_of(s);
    let cp = chars_of(p);
    contains_chars(&cs, &cp)
}

/// Pieces of `s` between occurrences of `sep`, as `str::split` with a
/// `char` pattern yields them (one more piece than there are separators).
pub open spec fn split_on(s: Seq<char>, sep: char) -> Seq<Seq<char>>
    decreases s.len(),
{
    if s.len() == 0 {
        seq![Seq::empty()]
    } else {
        let p = split_on(s.drop_last(), sep);
        if s.last() == sep {
            p.push(Seq::empty())
        } else {
            p.update(p.len() - 1, p.last().push(s.last()))
        }
    }
}

/// `split_on` always yields at least one piece.
pub proof fn lemma_split_on_nonempty(s: Seq<char>, sep: char)
    ensures
        split_on(s, sep).len() >= 1,
    decreases s.len(),
{
    if s.len() > 0 {
        lemma_split_on_nonempty(s.drop_last(), sep);
    }
}

/// Splits a character sequence on a separator character.
pub fn split_chars(s: &Vec<char>, sep: char) -> (r: Vec<Vec<char>>)
    ensures
        r@.map_values(|v: Vec<char>| v@) == split_on(s@, sep),
{
    let mut done: Vec<Vec<char>> = Vec::new();
    let mut cur: Vec<char> = Vec::new();
    let mut i: usize = 0;
    while i < s.len()
        invariant
            i <= s.len(),
            done@.map_values(|v: Vec<char>| v@).push(cur@) == split_on(s@.take(i as int), sep),
        decreases s.len() - i,
    {
        let c = s[i];
        proof {
            lemma_split_on_nonempty(s@.take(i as int), sep);
            assert(s@.take(i + 1).drop_last() =~= s@.take(i as int));
        }
        if c == sep {
            let old_cur = cur;
            done.push(old_cur);
            cur = Vec::new();
            assert(done@.map_values(|v: Vec<char>| v@) =~= split_on(s@.take(i as int), sep));
            assert(done@.map_values(|v: Vec<char>| v@).push(cur@) =~= split_on(
                s@.take(i + 1),
                sep,
            ));
        } else {
            cur.push(c);
            assert(done@.map_values(|v: Vec<char>| v@).push(cur@) =~= split_on(
                s@.take(i + 1),
                sep,
            ));
        }
        i += 1;
    }
    done.push(cur);
    assert(s@.take(s.len() as int) =~= s@);
    assert(done@.map_values(|v: Vec<char>| v@) =~= split_on(s@, sep));
    done
}

/// The trimmed, non-empty pieces of `s` between occurrences of `sep`, as
/// `split(sep).map(str::trim).filter(|p| !p.is_empty())` gives them.
pub open spec fn split_items(s: Seq<char>, sep: char) -> Seq<Seq<char>> {
    nonempty_items(split_on(s, sep).map_values(|p: Seq<char>| trim(p)))
}

/// The trimmed, non-empty pieces of a comma-separated list.
pub open spec fn csv_items(s: Seq<char>) -> Seq<Seq<char>> {
    split_items(s, ',')
}

/// Keeps the non-empty members, in order.
pub open spec fn nonempty_items(ps: Seq<Seq<char>>) -> Seq<Seq<char>>
    decreases ps.len(),
{
    if ps.len() == 0 {
        Seq::empty()
    } else if ps.last().len() > 0 {
        nonempty_items(ps.drop_last()).push(ps.last())
    } else {
        nonempty_items(ps.drop_last())
    }
}

/// Every member of `nonempty_items(ps)` is a non-empty member of `ps`.
pub proof fn lemma_nonempty_items_members(ps: Seq<Seq<char>>)
    ensures
        forall|i: int|
            0 <= i < nonempty_items(ps).len() ==> nonempty_items(ps)[i].len() > 0 && ps.contains(
                #[trigger] nonempty_items(ps)[i],
            ),
    decreases ps.len(),
{
    if ps.len() > 0 {
        lemma_nonempty_items_members(ps.drop_last());
        assert forall|i: int| 0 <= i < nonempty_items(ps).len() implies nonempty_items(ps)[i].len()
            > 0 && ps.contains(#[trigger] nonempty_items(ps)[i]) by {
            if i < nonempty_items(ps.drop_last()).len() {
                let x = nonempty_items(ps.drop_last())[i];
                let k = choose|k: int| 0 <= k < ps.drop_last().len() && ps.drop_last()[k] == x;
                assert(ps[k] == x);
            } else {
                assert(ps[ps.len() - 1] == ps.last());
            }
        }
    }
}

/// Splits on `sep` into trimmed, non-empty items.
pub fn split_items_chars(s: &Vec<char>, sep: char) -> (r: Vec<Vec<char>>)
    ensures
        r@.map_values(|v: Vec<char>| v@) == split_items(s@, sep),
{
    let pieces = split_chars(s, sep);
    let ghost ps = split_on(s@, sep).map_values(|p: Seq<char>| trim(p));
    let mut r: Vec<Vec<char>> = Vec::new();
    let mut i: usize = 0;
    while i < pieces.len()
        invariant
            i <= pieces.len(),
            pieces@.map_values(|v: Vec<char>| v@) == split_on(s@, sep),
            ps == split_on(s@, sep).map_values(|p: Seq<char>| trim(p)),
            r@.map_values(|v: Vec<char>| v@) == nonempty_items(ps.take(i as int)),
        decreases pieces.len() - i,
    {
        let t = trim_chars(&pieces[i]);
        assert(pieces@.map_values(|v: Vec<char>| v@)[i as int] == pieces@[i as int]@);
        assert(ps.take(i + 1).drop_last() =~= ps.take(i as int));
        assert(split_on(s@, sep)[i as int] == pieces@[i as int]@);
        assert(ps[i as int] == trim(pieces@[i as int]@));
        assert(ps.take(i + 1).last() == t@);
        if t.len() > 0 {
            r.push(t);
            assert(r@.map_values(|v: Vec<char>| v@) =~= nonempty_items(ps.take(i as int)).push(
                t@,
            ));
        }
        i += 1;
    }
    assert(ps.take(pieces.len() as int) =~= ps);
    r
}

/// Splits a comma-separated list into trimmed, non-empty items.
pub fn csv_chars(s: &Vec<char>) -> (r: Vec<Vec<char>>)
    ensures
        r@.map_values(|v: Vec<char>| v@) == csv_items(s@),
{
    split_items_chars(s, ',')
}

/// Converts a vector of character vectors into a vector of strings.
pub fn strings_of(items: &Vec<Vec<char>>) -> (r: Vec<String>)
    ensures
        r@.map_values(|s: String| s@) == items@.map_values(|v: Vec<char>| v@),
{
    let mut r: Vec<String> = Vec::new();
    let mut i: usize = 0;
    while i < items.len()
        invariant
            i <= items.len(),
            r.len() == i,
            r@.map_values(|s: String| s@) == items@.map_values(|v: Vec<char>| v@).take(i as int),
        decreases items.len() - i,
    {
        let s = string_of(&items[i]);
        r.push(s);
        assert(r@[i as int]@ == items@[i as int]@);
        assert(r@.map_values(|s: String| s@) =~= items@.map_values(|v: Vec<char>| v@).take(
            i + 1,
        ));
        i += 1;
    }
    assert(items@.map_values(|v: Vec<char>| v@).take(items.len() as int) =~= items@.map_values(
        |v: Vec<char>| v@,
    ));
    r
}

/// ASCII lower-case form of a character.
pub open spec fn ascii_lower(c: char) -> char {
    if 'A' <= c <= 'Z' {
        ((c as u32) + 32) as char
    } else {
        c
    }
}

/// `a` equals `b` ignoring ASCII case, as `str::eq_ignore_ascii_case`.
pub open spec fn eq_ignore_ascii_case(a: Seq<char>, b: Seq<char>) -> bool {
    a.len() == b.len() && forall|i: int| 0 <= i < a.len() ==> ascii_lower(#[trigger] a[i]) == ascii_lower(b[i])
}

/// ASCII lower-case form of a character.
pub fn lower_ascii(c: char) -> (r: char)
    ensures
        r == ascii_lower(c),
{
    if 'A' <= c && c <= 'Z' {
        let u: u32 = (c as u32) + 32;
        assert(0x61 <= u <= 0x7a);
        char_from_ascii(u)
    } else {
        c
    }
}

/// The character with a given code in `a..=z`.
fn char_from_ascii(u: u32) -> (r: char)
    requires
        0x61 <= u <= 0x7a,
    ensures
        r == u as char,
{
    let b: u8 = u as u8;
    b as char
}

/// Compares two character vectors ignoring ASCII case.
pub fn chars_eq_ignore_ascii_case(a: &Vec<char>, b: &Vec<char>) -> (r: bool)
    ensures
        r == eq_ignore_ascii_case(a@, b@),
{
    if a.len() != b.len() {
        return false;
    }
    let mut i: usize = 0;
    while i < a.len()
        invariant
            i <= a.len(),
            a.len() == b.len(),
            forall|k: int| 0 <= k < i ==> ascii_lower(#[trigger] a@[k]) == ascii_lower(b@[k]),
        decreases a.len() - i,
    {
        if lower_ascii(a[i]) != lower_ascii(b[i]) {
            return false;
        }
        i += 1;
    }
    true
}

/// Concatenation of two character vectors.
pub fn join_chars(a: &Vec<char>, b: &Vec<char>) -> (r: Vec<char>)
    ensures
        r@ == a@ + b@,
{
    let mut r = a.clone();
    let mut i: usize = 0;
    while i < b.len()
        invariant
            i <= b.len(),
            r@ == a@ + b@.take(i as int),
        decreases b.len() - i,
    {
        r.push(b[i]);
        assert(a@ + b@.take(i + 1) =~= (a@ + b@.take(i as int)).push(b@[i as int]));
        i += 1;
    }
    assert(b@.take(b.len() as int) =~= b@);
    r
}

/// A `String` made of a text, then characters, then a text.
pub fn text_around(before: &str, middle: &Vec<char>, after: &str) -> (r: String)
    ensures
        r@ == before@ + middle@ + after@,
{
    let a = chars_of(before);
    let c = chars_of(after);
    let ab = join_chars(&a, middle);
    let abc = join_chars(&ab, &c);
    string_of(&abc)
}

/// The string views of a vector of strings.
pub open spec fn views(v: Seq<String>) -> Seq<Seq<char>> {
    v.map_values(|s: String| s@)
}

} // verus!
