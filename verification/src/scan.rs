//! Nesting-aware scanning of query expressions.
//!
//! A scan walks the characters of an expression and tracks the depth of
//! parentheses, braces and brackets, and whether it sits inside a
//! double-quoted string (with backslash escapes). A position is *top level*
//! when the characters before it leave every depth at zero and no string open.
use vstd::prelude::*;
use crate::text::{occurs_at, occurs_at_exec, sub_chars, trim, trim_chars, lemma_trim_is_subrange};

verus! {

/// Mathematical scanner state.
pub struct ScanV {
    pub paren: int,
    pub brace: int,
    pub bracket: int,
    pub in_string: bool,
    pub escaped: bool,
}

/// Scanner state before any character.
pub open spec fn scan_init() -> ScanV {
    ScanV { paren: 0, brace: 0, bracket: 0, in_string: false, escaped: false }
}

/// One scanning step over character `c`.
pub open spec fn scan_step(st: ScanV, c: char) -> ScanV {
    if st.in_string {
        if st.escaped {
            ScanV { escaped: false, ..st }
        } else if c == '\\' {
            ScanV { escaped: true, ..st }
        } else if c == '"' {
            ScanV { in_string: false, ..st }
        } else {
            st
        }
    } else if c == '"' {
        ScanV { in_string: true, ..st }
    } else if c == '(' {
        ScanV { paren: st.paren + 1, ..st }
    } else if c == ')' {
        ScanV { paren: st.paren - 1, ..st }
    } else if c == '{' {
        ScanV { brace: st.brace + 1, ..st }
    } else if c == '}' {
        ScanV { brace: st.brace - 1, ..st }
    } else if c == '[' {
        ScanV { bracket: st.bracket + 1, ..st }
    } else if c == ']' {
        ScanV { bracket: st.bracket - 1, ..st }
    } else {
        st
    }
}

/// The state is outside every group and string.
pub open spec fn scan_top(st: ScanV) -> bool {
    !st.in_string && st.paren == 0 && st.brace == 0 && st.bracket == 0
}

/// Scanner state after the first `k` characters of `s`.
pub open spec fn scan_prefix(s: Seq<char>, k: int) -> ScanV
    decreases k,
{
    if k <= 0 {
        scan_init()
    } else {
        scan_step(scan_prefix(s, k - 1), s[k - 1])
    }
}

/// Position `k` of `s` is at top level.
pub open spec fn top_at(s: Seq<char>, k: int) -> bool {
    scan_top(scan_prefix(s, k))
}

/// Characters whose scanning step can change a top-level state.
pub open spec fn structural(c: char) -> bool {
    c == '"' || c == '(' || c == ')' || c == '{' || c == '}' || c == '[' || c == ']'
}

/// Depths after `k` characters are bounded by `k`.
pub proof fn lemma_scan_bounds(s: Seq<char>, k: int)
    requires
        0 <= k,
    ensures
        -k <= scan_prefix(s, k).paren <= k,
        -k <= scan_prefix(s, k).brace <= k,
        -k <= scan_prefix(s, k).bracket <= k,
    decreases k,
{
    if k > 0 {
        lemma_scan_bounds(s, k - 1);
    }
}

/// The scan of a prefix depends only on that prefix.
pub proof fn lemma_scan_prefix_take(s: Seq<char>, n: int, k: int)
    requires
        0 <= k <= n <= s.len(),
    ensures
        scan_prefix(s.take(n), k) == scan_prefix(s, k),
    decreases k,
{
    if k > 0 {
        lemma_scan_prefix_take(s, n, k - 1);
    }
}

/// The scan of a suffix-extended sequence agrees on the common prefix.
pub proof fn lemma_scan_prefix_same(s: Seq<char>, t: Seq<char>, k: int)
    requires
        0 <= k <= s.len(),
        k <= t.len(),
        s.take(k) == t.take(k),
    ensures
        scan_prefix(s, k) == scan_prefix(t, k),
    decreases k,
{
    if k > 0 {
        assert(s.take(k - 1) =~= s.take(k).take(k - 1));
        assert(t.take(k - 1) =~= t.take(k).take(k - 1));
        assert(s[k - 1] == s.take(k)[k - 1]);
        assert(t[k - 1] == t.take(k)[k - 1]);
        lemma_scan_prefix_same(s, t, k - 1);
    }
}

/// Executable scanner state (`ScanState`).
#[derive(Clone, Debug)]
pub struct ScanState {
    pub paren_depth: i128,
    pub brace_depth: i128,
    pub bracket_depth: i128,
    pub in_string: bool,
    pub escaped: bool,
}

impl View for ScanState {
    type V = ScanV;

    open spec fn view(&self) -> ScanV {
        ScanV {
            paren: self.paren_depth as int,
            brace: self.brace_depth as int,
            bracket: self.bracket_depth as int,
            in_string: self.in_string,
            escaped: self.escaped,
        }
    }
}

impl ScanState {
    /// Fresh scanner.
    pub fn new() -> (r: Self)
        ensures
            r@ == scan_init(),
    {
        ScanState { paren_depth: 0, brace_depth: 0, bracket_depth: 0, in_string: false, escaped: false }
    }

    /// Reports whether scanner currently sits at top level.
    pub fn is_top_level(&self) -> (r: bool)
        ensures
            r == scan_top(self@),
    {
        !self.in_string && self.paren_depth == 0 && self.brace_depth == 0 && self.bracket_depth == 0
    }

    /// Advances nesting state for one scanned character.
    pub fn step(&mut self, ch: char)
        requires
            -0x7fff_ffff_ffff_ffff_ffff_ffff_ffff_fff0 < old(self).paren_depth
                < 0x7fff_ffff_ffff_ffff_ffff_ffff_ffff_fff0,
            -0x7fff_ffff_ffff_ffff_ffff_ffff_ffff_fff0 < old(self).brace_depth
                < 0x7fff_ffff_ffff_ffff_ffff_ffff_ffff_fff0,
            -0x7fff_ffff_ffff_ffff_ffff_ffff_ffff_fff0 < old(self).bracket_depth
                < 0x7fff_ffff_ffff_ffff_ffff_ffff_ffff_fff0,
        ensures
            final(self)@ == scan_step(old(self)@, ch),
    {
        if self.in_string {
            if self.escaped {
                self.escaped = false;
            } else if ch == '\\' {
                self.escaped = true;
            } else if ch == '"' {
                self.in_string = false;
            }
            return;
        }
        if ch == '"' {
            self.in_string = true;
        } else if ch == '(' {
            self.paren_depth = self.paren_depth + 1;
        } else if ch == ')' {
            self.paren_depth = self.paren_depth - 1;
        } else if ch == '{' {
            self.brace_depth = self.brace_depth + 1;
        } else if ch == '}' {
            self.brace_depth = self.brace_depth - 1;
        } else if ch == '[' {
            self.bracket_depth = self.bracket_depth + 1;
        } else if ch == ']' {
            self.bracket_depth = self.bracket_depth - 1;
        }
    }
}

/// Steps the scanner over `s[i]`, keeping it equal to the scan of `s`.
fn advance(st: &mut ScanState, s: &Vec<char>, i: usize)
    requires
        i < s.len(),
        old(st)@ == scan_prefix(s@, i as int),
    ensures
        final(st)@ == scan_prefix(s@, i + 1),
{
    proof {
        lemma_scan_bounds(s@, i as int);
    }
    st.step(s[i]);
}

/// Least top-level position holding `needle`, if any.
pub open spec fn first_top_char(s: Seq<char>, needle: char) -> Option<int> {
    if exists|k: int| 0 <= k < s.len() && top_at(s, k) && s[k] == needle {
        Some(
            choose|k: int|
                0 <= k < s.len() && top_at(s, k) && s[k] == needle && forall|j: int|
                    0 <= j < k ==> !(top_at(s, j) && s[j] == needle),
        )
    } else {
        None
    }
}

/// Finds first top-level occurrence of character.
pub fn find_top_level_char(s: &Vec<char>, needle: char) -> (r: Option<usize>)
    ensures
        match r {
            Some(k) => k < s.len() && top_at(s@, k as int) && s@[k as int] == needle && forall|
                j: int,
            |
                0 <= j < k ==> !(top_at(s@, j) && s@[j] == needle),
            None => forall|k: int| 0 <= k < s.len() ==> !(top_at(s@, k) && s@[k] == needle),
        },
        r matches Some(k) ==> first_top_char(s@, needle) == Some(k as int),
        r is None ==> first_top_char(s@, needle) is None,
{
    let mut st = ScanState::new();
    let mut i: usize = 0;
    while i < s.len()
        invariant
            i <= s.len(),
            st@ == scan_prefix(s@, i as int),
            forall|j: int| 0 <= j < i ==> !(top_at(s@, j) && s@[j] == needle),
        decreases s.len() - i,
    {
        if st.is_top_level() && s[i] == needle {
            return Some(i);
        }
        advance(&mut st, s, i);
        i += 1;
    }
    None
}

/// Top-level positions of `s` below `n` that hold one of `seps`.
pub open spec fn is_top_sep(s: Seq<char>, seps: Seq<char>, k: int) -> bool {
    0 <= k < s.len() && top_at(s, k) && seps.contains(s[k])
}

/// Untrimmed pieces of `s.take(n)` between top-level separators.
pub open spec fn raw_top_pieces(s: Seq<char>, seps: Seq<char>, n: int) -> Seq<Seq<char>>
    decreases n,
{
    if n <= 0 {
        seq![Seq::empty()]
    } else {
        let p = raw_top_pieces(s, seps, n - 1);
        if is_top_sep(s, seps, n - 1) {
            p.push(Seq::empty())
        } else {
            p.update(p.len() - 1, p.last().push(s[n - 1]))
        }
    }
}

/// Pieces of `s` between top-level separators, each trimmed, as
/// `split_top_level` returns them.
pub open spec fn split_top(s: Seq<char>, seps: Seq<char>) -> Seq<Seq<char>> {
    raw_top_pieces(s, seps, s.len() as int).map_values(|p: Seq<char>| trim(p))
}

/// Number of top-level separators below `n`.
pub open spec fn count_top_seps(s: Seq<char>, seps: Seq<char>, n: int) -> nat
    decreases n,
{
    if n <= 0 {
        0
    } else {
        count_top_seps(s, seps, n - 1) + if is_top_sep(s, seps, n - 1) {
            1nat
        } else {
            0nat
        }
    }
}

/// There is one more piece than there are top-level separators.
pub proof fn lemma_raw_top_pieces_len(s: Seq<char>, seps: Seq<char>, n: int)
    requires
        0 <= n,
    ensures
        raw_top_pieces(s, seps, n).len() == count_top_seps(s, seps, n) + 1,
    decreases n,
{
    if n > 0 {
        lemma_raw_top_pieces_len(s, seps, n - 1);
    }
}

/// At most `n` separators lie below `n`.
pub proof fn lemma_count_top_seps_bound(s: Seq<char>, seps: Seq<char>, n: int)
    requires
        0 <= n,
    ensures
        count_top_seps(s, seps, n) <= n,
    decreases n,
{
    if n > 0 {
        lemma_count_top_seps_bound(s, seps, n - 1);
    }
}

/// A piece is no longer than the prefix it came from.
pub proof fn lemma_raw_top_pieces_short(s: Seq<char>, seps: Seq<char>, n: int)
    requires
        0 <= n,
    ensures
        forall|i: int|
            0 <= i < raw_top_pieces(s, seps, n).len() ==> #[trigger] raw_top_pieces(
                s,
                seps,
                n,
            )[i].len() + count_top_seps(s, seps, n) <= n,
    decreases n,
{
    if n > 0 {
        lemma_raw_top_pieces_short(s, seps, n - 1);
        lemma_raw_top_pieces_len(s, seps, n - 1);
        lemma_count_top_seps_bound(s, seps, n - 1);
        let p = raw_top_pieces(s, seps, n - 1);
        let q = raw_top_pieces(s, seps, n);
        assert forall|i: int| 0 <= i < q.len() implies #[trigger] q[i].len() + count_top_seps(
            s,
            seps,
            n,
        ) <= n by {
            if is_top_sep(s, seps, n - 1) {
                if i < p.len() {
                    assert(q[i] == p[i]);
                    assert(p[i].len() + count_top_seps(s, seps, n - 1) <= n - 1);
                } else {
                    assert(q[i].len() == 0);
                }
            } else {
                assert(p[i].len() + count_top_seps(s, seps, n - 1) <= n - 1);
                if i == p.len() - 1 {
                    assert(q[i].len() == p[i].len() + 1);
                } else {
                    assert(q[i] == p[i]);
                }
            }
        }
    }
}

/// Every piece of a split is no longer than the whole.
pub proof fn lemma_split_top_not_longer(s: Seq<char>, seps: Seq<char>)
    ensures
        forall|i: int|
            0 <= i < split_top(s, seps).len() ==> #[trigger] split_top(s, seps)[i].len()
                <= s.len(),
{
    let n = s.len() as int;
    lemma_raw_top_pieces_len(s, seps, n);
    lemma_raw_top_pieces_short(s, seps, n);
    assert forall|i: int|
        0 <= i < split_top(s, seps).len() implies #[trigger] split_top(s, seps)[i].len()
        <= s.len() by {
        let p = raw_top_pieces(s, seps, n)[i];
        lemma_trim_is_subrange(p);
    }
}

/// Splits expression by separators while respecting nesting.
pub fn split_top_level(s: &Vec<char>, seps: &Vec<char>) -> (r: Vec<Vec<char>>)
    requires
        forall|i: int| 0 <= i < seps.len() ==> !structural(#[trigger] seps@[i]),
    ensures
        r@.map_values(|v: Vec<char>| v@) == split_top(s@, seps@),
        r.len() == count_top_seps(s@, seps@, s.len() as int) + 1,
{
    let mut done: Vec<Vec<char>> = Vec::new();
    let mut cur: Vec<char> = Vec::new();
    let mut st = ScanState::new();
    let mut i: usize = 0;
    while i < s.len()
        invariant
            i <= s.len(),
            forall|i: int| 0 <= i < seps.len() ==> !structural(#[trigger] seps@[i]),
            st@ == scan_prefix(s@, i as int),
            done@.map_values(|v: Vec<char>| v@).push(cur@) == raw_top_pieces(
                s@,
                seps@,
                i as int,
            ),
            forall|k: int| 0 <= k < done.len() ==> #[trigger] done@[k]@ == raw_top_pieces(s@, seps@, i as int)[k],
        decreases s.len() - i,
    {
        let c = s[i];
        let mut is_sep = false;
        let mut k: usize = 0;
        while k < seps.len()
            invariant
                k <= seps.len(),
                is_sep == (exists|j: int| 0 <= j < k && seps@[j] == c),
            decreases seps.len() - k,
        {
            if seps[k] == c {
                is_sep = true;
            }
            k += 1;
        }
        assert(is_sep == seps@.contains(c));
        let top = st.is_top_level();
        if top && is_sep {
            proof {
                let j = choose|j: int| 0 <= j < seps.len() && seps@[j] == c;
                assert(!structural(seps@[j]));
                assert(scan_step(st@, c) == st@);
            }
            let old_cur = cur;
            done.push(old_cur);
            cur = Vec::new();
            assert(done@.map_values(|v: Vec<char>| v@).push(cur@) =~= raw_top_pieces(
                s@,
                seps@,
                i + 1,
            ));
            i += 1;
        } else {
            cur.push(c);
            assert(done@.map_values(|v: Vec<char>| v@).push(cur@) =~= raw_top_pieces(
                s@,
                seps@,
                i + 1,
            ));
            advance(&mut st, s, i);
            i += 1;
        }
        assert forall|k: int| 0 <= k < done.len() implies #[trigger] done@[k]@ == raw_top_pieces(s@, seps@, i as int)[k] by {
            assert(done@.map_values(|v: Vec<char>| v@).push(cur@)[k] == done@[k]@);
        }
    }
    done.push(cur);
    let ghost raw = raw_top_pieces(s@, seps@, s.len() as int);
    assert(done@.map_values(|v: Vec<char>| v@) =~= raw);
    let mut r: Vec<Vec<char>> = Vec::new();
    let mut j: usize = 0;
    while j < done.len()
        invariant
            j <= done.len(),
            done@.map_values(|v: Vec<char>| v@) == raw,
            r.len() == j,
            r@.map_values(|v: Vec<char>| v@) == raw.map_values(|p: Seq<char>| trim(p)).take(
                j as int,
            ),
        decreases done.len() - j,
    {
        let t = trim_chars(&done[j]);
        assert(done@.map_values(|v: Vec<char>| v@)[j as int] == done@[j as int]@);
        r.push(t);
        assert(r@[j as int]@ == trim(raw[j as int]));
        assert(r@.map_values(|v: Vec<char>| v@) =~= raw.map_values(|p: Seq<char>| trim(p)).take(
            j + 1,
        ));
        j += 1;
    }
    assert(raw.map_values(|p: Seq<char>| trim(p)).take(done.len() as int) =~= raw.map_values(
        |p: Seq<char>| trim(p),
    ));
    proof {
        lemma_raw_top_pieces_len(s@, seps@, s.len() as int);
    }
    r
}

/// Least top-level position at which `needle` occurs, if any.
pub open spec fn first_top_occurrence(s: Seq<char>, needle: Seq<char>) -> Option<int> {
    if exists|k: int| 0 <= k < s.len() && top_at(s, k) && occurs_at(s, k, needle) {
        Some(
            choose|k: int|
                0 <= k < s.len() && top_at(s, k) && occurs_at(s, k, needle) && forall|j: int|
                    0 <= j < k ==> !(top_at(s, j) && occurs_at(s, j, needle)),
        )
    } else {
        None
    }
}

/// Splits expression once on top-level needle.
pub fn split_once_top_level(s: &Vec<char>, needle: &Vec<char>) -> (r: Option<
    (Vec<char>, Vec<char>),
>)
    ensures
        match r {
            Some((a, b)) => exists|k: int|
                0 <= k < s.len() && top_at(s@, k) && occurs_at(s@, k, needle@) && (forall|j: int|
                    0 <= j < k ==> !(top_at(s@, j) && occurs_at(s@, j, needle@))) && a@
                    == s@.take(k) && b@ == s@.skip(k + needle.len()),
            None => forall|k: int|
                0 <= k < s.len() ==> !(top_at(s@, k) && occurs_at(s@, k, needle@)),
        },
{
    let mut st = ScanState::new();
    let mut i: usize = 0;
    while i < s.len()
        invariant
            i <= s.len(),
            st@ == scan_prefix(s@, i as int),
            forall|j: int| 0 <= j < i ==> !(top_at(s@, j) && occurs_at(s@, j, needle@)),
        decreases s.len() - i,
    {
        if st.is_top_level() && occurs_at_exec(s, i, needle) {
            let a = sub_chars(s, 0, i);
            let b = sub_chars(s, i + needle.len(), s.len());
            assert(a@ =~= s@.take(i as int));
            assert(b@ =~= s@.skip(i + needle.len()));
            assert(0 <= i < s.len() && top_at(s@, i as int) && occurs_at(s@, i as int, needle@) && (
            forall|j: int| 0 <= j < i ==> !(top_at(s@, j) && occurs_at(s@, j, needle@))) && a@
                == s@.take(i as int) && b@ == s@.skip(i + needle.len()));
            return Some((a, b));
        }
        advance(&mut st, s, i);
        i += 1;
    }
    None
}

/// The comparison operators of the `q` language, in the order in which a
/// position is tested against them.
pub open spec fn q_operator(j: int) -> Seq<char> {
    if j == 0 {
        seq!['!', '~', '=']
    } else if j == 1 {
        seq!['~', '=']
    } else if j == 2 {
        seq!['>', '=']
    } else if j == 3 {
        seq!['<', '=']
    } else if j == 4 {
        seq!['!', '=']
    } else if j == 5 {
        seq!['=', '=']
    } else if j == 6 {
        seq!['>']
    } else {
        seq!['<']
    }
}

/// Number of `q` operators.
pub open spec fn q_operator_count() -> int {
    8
}

/// Some operator occurs at position `k`.
pub open spec fn operator_occurs(s: Seq<char>, k: int) -> bool {
    exists|j: int| 0 <= j < q_operator_count() && occurs_at(s, k, q_operator(j))
}

/// The first operator (in list order) occurring at position `k`.
pub open spec fn operator_at(s: Seq<char>, k: int) -> int {
    choose|j: int|
        0 <= j < q_operator_count() && occurs_at(s, k, q_operator(j)) && forall|i: int|
            0 <= i < j ==> !occurs_at(s, k, q_operator(i))
}

/// Characters of operator `j`.
pub fn operator_chars(j: usize) -> (r: Vec<char>)
    requires
        j < 8,
    ensures
        r@ == q_operator(j as int),
{
    if j == 0 {
        vec!['!', '~', '=']
    } else if j == 1 {
        vec!['~', '=']
    } else if j == 2 {
        vec!['>', '=']
    } else if j == 3 {
        vec!['<', '=']
    } else if j == 4 {
        vec!['!', '=']
    } else if j == 5 {
        vec!['=', '=']
    } else if j == 6 {
        vec!['>']
    } else {
        vec!['<']
    }
}

/// Finds first top-level query operator in expression; returns its
/// position and its index in the operator list.
pub fn find_top_level_operator(s: &Vec<char>) -> (r: Option<(usize, usize)>)
    ensures
        match r {
            Some((k, j)) => k < s.len() && top_at(s@, k as int) && j < 8 && occurs_at(
                s@,
                k as int,
                q_operator(j as int),
            ) && (forall|i: int| 0 <= i < j ==> !occurs_at(s@, k as int, q_operator(i))) && (
            forall|m: int| 0 <= m < k ==> !(top_at(s@, m) && operator_occurs(s@, m))),
            None => forall|m: int| 0 <= m < s.len() ==> !(top_at(s@, m) && operator_occurs(s@, m)),
        },
{
    let mut st = ScanState::new();
    let mut i: usize = 0;
    while i < s.len()
        invariant
            i <= s.len(),
            st@ == scan_prefix(s@, i as int),
            forall|m: int| 0 <= m < i ==> !(top_at(s@, m) && operator_occurs(s@, m)),
        decreases s.len() - i,
    {
        if st.is_top_level() {
            let mut j: usize = 0;
            while j < 8
                invariant
                    j <= 8,
                    i < s.len(),
                    st@ == scan_prefix(s@, i as int),
                    scan_top(st@),
                    forall|m: int| 0 <= m < i ==> !(top_at(s@, m) && operator_occurs(s@, m)),
                    forall|m: int| 0 <= m < j ==> !occurs_at(s@, i as int, q_operator(m)),
                decreases 8 - j,
            {
                let op = operator_chars(j);
                if occurs_at_exec(s, i, &op) {
                    return Some((i, j));
                }
                j += 1;
            }
            assert(!operator_occurs(s@, i as int));
        }
        advance(&mut st, s, i);
        i += 1;
    }
    None
}

/// Scanner state of `find_matching_delimiter`: depth, inside string, after
/// a backslash inside a string.
pub struct DelimV {
    pub depth: int,
    pub in_string: bool,
    pub escaped: bool,
}

/// One step of the delimiter scan; `closes` reports whether this character
/// brings the depth back to zero.
pub open spec fn delim_step(st: DelimV, c: char, open: char, close: char) -> DelimV {
    if st.in_string {
        if st.escaped {
            DelimV { escaped: false, ..st }
        } else if c == '\\' {
            DelimV { escaped: true, ..st }
        } else if c == '"' {
            DelimV { in_string: false, ..st }
        } else {
            st
        }
    } else if c == '"' {
        DelimV { in_string: true, ..st }
    } else if c == open {
        DelimV { depth: st.depth + 1, ..st }
    } else if c == close {
        DelimV { depth: st.depth - 1, ..st }
    } else {
        st
    }
}

/// Delimiter-scan state after the characters `s[from..k]`.
pub open spec fn delim_prefix(s: Seq<char>, from: int, k: int, open: char, close: char) -> DelimV
    decreases k - from,
{
    if k <= from {
        DelimV { depth: 0, in_string: false, escaped: false }
    } else {
        delim_step(delim_prefix(s, from, k - 1, open, close), s[k - 1], open, close)
    }
}

/// Position `k` closes the group opened at `from`.
pub open spec fn closes_at(s: Seq<char>, from: int, k: int, open: char, close: char) -> bool {
    let st = delim_prefix(s, from, k, open, close);
    !st.in_string && s[k] != '"' && s[k] != open && s[k] == close && st.depth - 1 == 0
}

proof fn lemma_delim_bounds(s: Seq<char>, from: int, k: int, open: char, close: char)
    requires
        from <= k,
    ensures
        from - k <= delim_prefix(s, from, k, open, close).depth <= k - from,
    decreases k - from,
{
    if k > from {
        lemma_delim_bounds(s, from, k - 1, open, close);
    }
}

/// Finds closing delimiter matching given opening delimiter.
pub fn find_matching_delimiter(s: &Vec<char>, open_index: usize, open: char, close: char) -> (r:
    Option<usize>)
    requires
        open_index <= s.len(),
    ensures
        match r {
            Some(k) => open_index <= k < s.len() && closes_at(
                s@,
                open_index as int,
                k as int,
                open,
                close,
            ) && forall|j: int|
                open_index <= j < k ==> !closes_at(s@, open_index as int, j, open, close),
            None => forall|j: int|
                open_index <= j < s.len() ==> !closes_at(s@, open_index as int, j, open, close),
        },
{
    let mut depth: i128 = 0;
    let mut in_string = false;
    let mut escaped = false;
    let mut i = open_index;
    while i < s.len()
        invariant
            open_index <= i <= s.len(),
            delim_prefix(s@, open_index as int, i as int, open, close) == (DelimV {
                depth: depth as int,
                in_string,
                escaped,
            }),
            forall|j: int|
                open_index <= j < i ==> !closes_at(s@, open_index as int, j, open, close),
        decreases s.len() - i,
    {
        proof {
            lemma_delim_bounds(s@, open_index as int, i as int, open, close);
        }
        let ch = s[i];
        if in_string {
            if escaped {
                escaped = false;
            } else if ch == '\\' {
                escaped = true;
            } else if ch == '"' {
                in_string = false;
            }
        } else if ch == '"' {
            in_string = true;
        } else if ch == open {
            depth = depth + 1;
        } else if ch == close {
            depth = depth - 1;
            if depth == 0 {
                return Some(i);
            }
        }
        i += 1;
    }
    None
}

/// `s` opens with `(` whose matching `)` is the last character: the scan
/// first returns to top level after the whole of `s`.
pub open spec fn wrapped(s: Seq<char>) -> bool {
    &&& s.len() > 0
    &&& s[0] == '('
    &&& s.last() == ')'
    &&& top_at(s, s.len() as int)
    &&& forall|m: int| 1 <= m < s.len() ==> !top_at(s, m)
}

/// Reports whether expression is fully wrapped by one parenthesis pair.
pub fn is_wrapped_by_parentheses(s: &Vec<char>) -> (r: bool)
    ensures
        r == wrapped(s@),
{
    if s.len() == 0 || s[0] != '(' || s[s.len() - 1] != ')' {
        return false;
    }
    let mut st = ScanState::new();
    let mut i: usize = 0;
    while i < s.len()
        invariant
            0 < s.len(),
            s@[0] == '(',
            s@[s.len() - 1] == ')',
            i <= s.len(),
            st@ == scan_prefix(s@, i as int),
            forall|m: int| 1 <= m <= i ==> !top_at(s@, m),
        decreases s.len() - i,
    {
        advance(&mut st, s, i);
        if st.is_top_level() {
            assert(top_at(s@, i + 1));
            assert(s@.last() == s@[s.len() - 1]);
            return i + 1 == s.len();
        }
        i += 1;
    }
    assert(!top_at(s@, s.len() as int));
    false
}

/// Removes redundant wrapping parentheses (and surrounding whitespace).
pub open spec fn strip_parens(s: Seq<char>) -> Seq<char>
    decreases s.len(),
{
    let t = trim(s);
    if wrapped(t) && t.len() <= s.len() {
        strip_parens(t.subrange(1, t.len() - 1))
    } else {
        t
    }
}

/// Stripping never lengthens the expression.
pub proof fn lemma_strip_parens_len(s: Seq<char>)
    ensures
        strip_parens(s).len() <= s.len(),
    decreases s.len(),
{
    let t = trim(s);
    lemma_trim_is_subrange(s);
    if wrapped(t) && t.len() <= s.len() {
        lemma_strip_parens_len(t.subrange(1, t.len() - 1));
    }
}

/// Removes redundant wrapping parentheses around expression.
pub fn strip_wrapping_parentheses(s: &Vec<char>) -> (r: Vec<char>)
    ensures
        r@ == strip_parens(s@),
    decreases s.len(),
{
    let t = trim_chars(s);
    proof {
        lemma_trim_is_subrange(s@);
    }
    if is_wrapped_by_parentheses(&t) {
        let inner = sub_chars(&t, 1, t.len() - 1);
        strip_wrapping_parentheses(&inner)
    } else {
        t
    }
}

} // verus!
