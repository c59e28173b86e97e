//! The NGSI-LD `scopeQ` language: parsing and matching of scope paths.
//!
//! A scope is a path such as `/Madrid/Gardens`. A pattern lists levels,
//! each a name or the wildcard `+`, and may end in `/#` to take in every
//! descendant; `/#` alone matches any non-empty scope. Patterns combine
//! with `;` inside parentheses (all must match) and with `|` or `,` (one
//! must match).
use vstd::prelude::*;
use crate::error::{BrokerError, error_message};
use crate::query::language::{all_some, first_failing, lemma_first_failing, name_error, valid_name, validate_name};
use crate::scan::{is_wrapped_by_parentheses, split_top, split_top_level, structural, wrapped};
use crate::text::{
    chars_eq, chars_of, has_suffix, trim_str, nonempty_items, split_items, split_items_chars, split_on, split_chars,
    string_of, sub_chars, text_around, trim, trim_chars, views,
};

verus! {

/// One level of a scope pattern.
#[derive(Debug)]
pub enum ScopeLevel {
    Exact(String),
    SingleLevelWildcard,
}

/// A scope pattern.
#[derive(Debug)]
pub struct ScopePattern {
    pub levels: Vec<ScopeLevel>,
    pub include_descendants: bool,
}

/// A parsed `scopeQ` expression.
#[derive(Debug)]
pub enum ScopeExpression {
    AnyNonEmpty,
    Pattern(ScopePattern),
    And(Vec<ScopePattern>),
    Or(Vec<ScopeExpression>),
}

/// View of a level.
pub enum ScopeLevelV {
    Exact(Seq<char>),
    SingleLevelWildcard,
}

/// View of a pattern.
pub struct ScopePatternV {
    pub levels: Seq<ScopeLevelV>,
    pub include_descendants: bool,
}

/// View of a `scopeQ` expression.
pub enum ScopeExpressionV {
    AnyNonEmpty,
    Pattern(ScopePatternV),
    And(Seq<ScopePatternV>),
    Or(Seq<ScopeExpressionV>),
}

impl View for ScopeLevel {
    type V = ScopeLevelV;

    open spec fn view(&self) -> ScopeLevelV {
        match self {
            ScopeLevel::Exact(s) => ScopeLevelV::Exact(s@),
            ScopeLevel::SingleLevelWildcard => ScopeLevelV::SingleLevelWildcard,
        }
    }
}

impl View for ScopePattern {
    type V = ScopePatternV;

    open spec fn view(&self) -> ScopePatternV {
        ScopePatternV {
            levels: self.levels@.map_values(|l: ScopeLevel| l@),
            include_descendants: self.include_descendants,
        }
    }
}

/// Views of patterns.
pub open spec fn pattern_views(ps: Seq<ScopePattern>) -> Seq<ScopePatternV> {
    ps.map_values(|p: ScopePattern| p@)
}

/// View of a `scopeQ` expression.
pub open spec fn scope_view(e: ScopeExpression) -> ScopeExpressionV
    decreases e,
{
    match e {
        ScopeExpression::AnyNonEmpty => ScopeExpressionV::AnyNonEmpty,
        ScopeExpression::Pattern(p) => ScopeExpressionV::Pattern(p@),
        ScopeExpression::And(ps) => ScopeExpressionV::And(pattern_views(ps@)),
        ScopeExpression::Or(parts) => ScopeExpressionV::Or(
            Seq::new(
                parts@.len(),
                |i: int|
                    if 0 <= i < parts@.len() {
                        scope_view(parts@[i])
                    } else {
                        ScopeExpressionV::AnyNonEmpty
                    },
            ),
        ),
    }
}

impl View for ScopeExpression {
    type V = ScopeExpressionV;

    open spec fn view(&self) -> ScopeExpressionV {
        scope_view(*self)
    }
}

/// Views of expressions.
pub open spec fn scope_views(parts: Seq<ScopeExpression>) -> Seq<ScopeExpressionV> {
    parts.map_values(|e: ScopeExpression| e@)
}

/// The view of an `Or` node is the views of its parts.
pub proof fn lemma_scope_or_view(parts: Vec<ScopeExpression>)
    ensures
        ScopeExpression::Or(parts)@ == ScopeExpressionV::Or(scope_views(parts@)),
{
    reveal_with_fuel(scope_view, 2);
    let ev = scope_views(parts@);
    match scope_view(ScopeExpression::Or(parts)) {
        ScopeExpressionV::Or(s) => {
            assert forall|i: int| 0 <= i < ev.len() implies #[trigger] s[i] == ev[i] by {
                assert(s[i] == scope_view(parts@[i]));
            }
            assert(s =~= ev);
        },
        _ => {},
    }
}

/// A level of a pattern: `+` is the wildcard, else a valid name.
pub open spec fn scope_level(piece: Seq<char>) -> Option<ScopeLevelV> {
    if piece == seq!['+'] {
        Some(ScopeLevelV::SingleLevelWildcard)
    } else if valid_name(piece) {
        Some(ScopeLevelV::Exact(piece))
    } else {
        None
    }
}

/// One scope pattern: `/#`, or a path starting with `/`, optionally ending
/// in `/#`, with at least one level.
pub open spec fn scope_pattern(raw: Seq<char>) -> Option<ScopePatternV> {
    if raw == seq!['/', '#'] {
        Some(ScopePatternV { levels: Seq::empty(), include_descendants: true })
    } else {
        let include_descendants = has_suffix(raw, seq!['/', '#']);
        let r = if include_descendants {
            raw.take(raw.len() - 2)
        } else {
            raw
        };
        if !(r.len() > 0 && r[0] == '/') {
            None
        } else {
            let pieces = split_items(r, '/');
            match all_some(pieces.map_values(|p: Seq<char>| scope_level(p))) {
                Some(levels) => if levels.len() == 0 {
                    None
                } else {
                    Some(ScopePatternV { levels, include_descendants })
                },
                None => None,
            }
        }
    }
}

/// One `scopeQ` branch: `/#`, a parenthesised conjunction of patterns, or
/// one pattern (a bare conjunction is refused).
pub open spec fn scope_branch(e: Seq<char>) -> Option<ScopeExpressionV> {
    let t = trim(e);
    if t == seq!['/', '#'] {
        Some(ScopeExpressionV::AnyNonEmpty)
    } else if wrapped(t) && t.len() >= 2 {
        let parts = split_top(t.subrange(1, t.len() - 1), seq![';']);
        match all_some(parts.map_values(|p: Seq<char>| scope_pattern(p))) {
            Some(ps) => if ps.len() == 1 {
                Some(ScopeExpressionV::Pattern(ps[0]))
            } else {
                Some(ScopeExpressionV::And(ps))
            },
            None => None,
        }
    } else if split_top(t, seq![';']).len() > 1 {
        None
    } else {
        match scope_pattern(t) {
            Some(p) => Some(ScopeExpressionV::Pattern(p)),
            None => None,
        }
    }
}

/// A `scopeQ` expression: branches separated by top-level `|` or `,`.
pub open spec fn scope_or(e: Seq<char>) -> Option<ScopeExpressionV> {
    let t = trim(e);
    let parts = split_top(t, seq!['|', ',']);
    if parts.len() > 1 {
        match all_some(parts.map_values(|p: Seq<char>| scope_branch(p))) {
            Some(bs) => Some(ScopeExpressionV::Or(bs)),
            None => None,
        }
    } else {
        scope_branch(t)
    }
}

/// An optional `scopeQ` parameter: absent or blank means no filter.
pub open spec fn scope_expression(q: Option<Seq<char>>) -> Option<Option<ScopeExpressionV>> {
    match q {
        None => Some(None),
        Some(text) => if trim(text).len() == 0 {
            Some(None)
        } else {
            match scope_or(trim(text)) {
                Some(e) => Some(Some(e)),
                None => None,
            }
        },
    }
}

/// The message for a scope pattern that `scope_pattern` refuses: the
/// first level that is neither `+` nor a valid name, else the path itself.
#[verifier::opaque]
pub open spec fn pattern_error(raw: Seq<char>) -> Seq<char> {
    let r = if has_suffix(raw, seq!['/', '#']) {
        raw.take(raw.len() - 2)
    } else {
        raw
    };
    let pieces = split_items(r, '/');
    let i = first_failing(pieces, |p: Seq<char>| scope_level(p) is Some);
    if r.len() > 0 && r[0] == '/' && 0 <= i < pieces.len() {
        name_error(pieces[i], "scope"@)
    } else {
        "invalid scopeQ scope "@ + r
    }
}

/// The message for a branch that `scope_branch` refuses.
#[verifier::opaque]
pub open spec fn branch_error(e: Seq<char>) -> Seq<char> {
    let t = trim(e);
    if wrapped(t) && t.len() >= 2 {
        let parts = split_top(t.subrange(1, t.len() - 1), seq![';']);
        let i = first_failing(parts, |p: Seq<char>| scope_pattern(p) is Some);
        pattern_error(parts[i])
    } else if split_top(t, seq![';']).len() > 1 {
        "scopeQ conjunctions require parentheses"@
    } else {
        pattern_error(t)
    }
}

/// The message for an expression that `scope_or` refuses: that of its
/// first refused branch.
#[verifier::opaque]
pub open spec fn or_error(e: Seq<char>) -> Seq<char> {
    let t = trim(e);
    let parts = split_top(t, seq!['|', ',']);
    if parts.len() > 1 {
        branch_error(parts[first_failing(parts, |p: Seq<char>| scope_branch(p) is Some)])
    } else {
        branch_error(t)
    }
}

/// The message for a `scopeQ` parameter that `scope_expression` refuses.
pub open spec fn scope_expression_error(q: Option<Seq<char>>) -> Seq<char> {
    match q {
        Some(text) => or_error(trim(text)),
        None => Seq::empty(),
    }
}

/// The levels of a concrete scope: the non-empty pieces after the first
/// `/`-separated piece.
pub open spec fn scope_levels(scope: Seq<char>) -> Seq<Seq<char>> {
    let pieces = split_on(scope, '/');
    nonempty_items(pieces.skip(1))
}

/// A concrete scope matches a pattern.
pub open spec fn pattern_matches(scope: Seq<char>, p: ScopePatternV) -> bool {
    if p.levels.len() == 0 {
        trim(scope).len() > 0
    } else {
        let levels = scope_levels(scope);
        &&& levels.len() > 0
        &&& if p.include_descendants {
            levels.len() >= p.levels.len()
        } else {
            levels.len() == p.levels.len()
        }
        &&& forall|i: int|
            0 <= i < p.levels.len() ==> match #[trigger] p.levels[i] {
                ScopeLevelV::Exact(x) => x == levels[i],
                ScopeLevelV::SingleLevelWildcard => true,
            }
    }
}

/// Some scope of the list matches a pattern.
pub open spec fn some_scope_matches(scopes: Seq<Seq<char>>, p: ScopePatternV) -> bool {
    exists|k: int| 0 <= k < scopes.len() && #[trigger] pattern_matches(scopes[k], p)
}

/// A `scopeQ` expression matches a list of scopes.
pub open spec fn scope_matches(e: ScopeExpressionV, scopes: Seq<Seq<char>>) -> bool
    decreases e,
{
    match e {
        ScopeExpressionV::AnyNonEmpty => exists|k: int|
            0 <= k < scopes.len() && #[trigger] trim(scopes[k]).len() > 0,
        ScopeExpressionV::Pattern(p) => some_scope_matches(scopes, p),
        ScopeExpressionV::And(ps) => forall|i: int|
            0 <= i < ps.len() ==> some_scope_matches(scopes, #[trigger] ps[i]),
        ScopeExpressionV::Or(parts) => exists|i: int|
            0 <= i < parts.len() && scope_matches(#[trigger] parts[i], scopes),
    }
}

/// Parses one level of a pattern.
fn parse_scope_level(piece: &Vec<char>) -> (r: Result<ScopeLevel, BrokerError>)
    ensures
        match r {
            Ok(l) => scope_level(piece@) == Some(l@),
            Err(e) => scope_level(piece@) is None && e is BadRequest && error_message(e) == name_error(
                piece@,
                "scope"@,
            ),
        },
{
    if piece.len() == 1 && piece[0] == '+' {
        assert(piece@ =~= seq!['+']);
        return Ok(ScopeLevel::SingleLevelWildcard);
    }
    assert(piece@ != seq!['+']);
    match validate_name(piece, "scope") {
        Ok(()) => Ok(ScopeLevel::Exact(string_of(piece))),
        Err(e) => Err(e),
    }
}

/// Parses one concrete `scopeQ` pattern.
pub fn parse_scope_pattern(raw: &Vec<char>) -> (r: Result<ScopePattern, BrokerError>)
    ensures
        match r {
            Ok(p) => scope_pattern(raw@) == Some(p@),
            Err(e) => scope_pattern(raw@) is None && e is BadRequest && error_message(e) == pattern_error(
                raw@,
            ),
        },
{
    if raw.len() == 2 && raw[0] == '/' && raw[1] == '#' {
        assert(raw@ =~= seq!['/', '#']);
        let levels: Vec<ScopeLevel> = Vec::new();
        let r = ScopePattern { levels, include_descendants: true };
        assert(r@.levels =~= Seq::<ScopeLevelV>::empty());
        return Ok(r);
    }
    assert(raw@ != seq!['/', '#']);
    let include_descendants = raw.len() >= 2 && raw[raw.len() - 2] == '/' && raw[raw.len() - 1]
        == '#';
    assert(include_descendants == has_suffix(raw@, seq!['/', '#'])) by {
        if raw.len() >= 2 {
            let tail = raw@.subrange(raw.len() - 2, raw.len() as int);
            if include_descendants {
                assert(tail =~= seq!['/', '#']);
            } else {
                assert(tail[0] == raw@[raw.len() - 2]);
                assert(tail[1] == raw@[raw.len() - 1]);
            }
        }
    }
    let r = if include_descendants {
        sub_chars(raw, 0, raw.len() - 2)
    } else {
        sub_chars(raw, 0, raw.len())
    };
    assert(include_descendants ==> r@ =~= raw@.take(raw.len() - 2));
    assert(!include_descendants ==> r@ =~= raw@);
    if !(r.len() > 0 && r[0] == '/') {
        let err = text_error("invalid scopeQ scope ", &r);
        assert(error_message(err) == pattern_error(raw@)) by {
            reveal(pattern_error);
        }
        return Err(err);
    }
    let pieces = split_items_chars(&r, '/');
    let ghost ps = split_items(r@, '/');
    let ghost ls = ps.map_values(|p: Seq<char>| scope_level(p));
    let mut levels: Vec<ScopeLevel> = Vec::new();
    let mut i: usize = 0;
    while i < pieces.len()
        invariant
            i <= pieces.len(),
            pieces@.map_values(|v: Vec<char>| v@) == ps,
            ps == split_items(r@, '/'),
            include_descendants == has_suffix(raw@, seq!['/', '#']),
            raw@ != seq!['/', '#'],
            r@ == (if include_descendants {
                raw@.take(raw.len() - 2)
            } else {
                raw@
            }),
            r.len() > 0 && r@[0] == '/',
            ls == ps.map_values(|p: Seq<char>| scope_level(p)),
            levels.len() == i,
            forall|k: int| 0 <= k < i ==> #[trigger] ls[k] == Some(levels@[k]@),
        decreases pieces.len() - i,
    {
        assert(ps[i as int] == pieces@[i as int]@);
        match parse_scope_level(&pieces[i]) {
            Ok(l) => {
                levels.push(l);
            },
            Err(e) => {
                assert(ls[i as int] is None);
                assert(all_some(ls) is None);
                proof {
                    assert forall|k: int| 0 <= k < i implies (|p: Seq<char>| scope_level(p) is Some)(
                        #[trigger] ps[k],
                    ) by {
                        assert(ls[k] == scope_level(ps[k]));
                    }
                    lemma_first_failing(ps, |p: Seq<char>| scope_level(p) is Some, i as int);
                }
                assert(error_message(e) == pattern_error(raw@)) by {
                    reveal(pattern_error);
                }
                return Err(e);
            },
        }
        i += 1;
    }
    assert(all_some(ls) == Some(levels@.map_values(|l: ScopeLevel| l@))) by {
        assert(ls.map_values(|o: Option<ScopeLevelV>| o->0) =~= levels@.map_values(|l: ScopeLevel| l@));
    }
    if levels.len() == 0 {
        assert(first_failing(ps, |p: Seq<char>| scope_level(p) is Some) == ps.len()) by {
            assert(ps.len() == 0);
        }
        let err = text_error("invalid scopeQ scope ", &r);
        assert(error_message(err) == pattern_error(raw@)) by {
            reveal(pattern_error);
        }
        return Err(err);
    }
    Ok(ScopePattern { levels, include_descendants })
}

/// A bad-request error: a text followed by characters.
fn text_error(before: &str, text: &Vec<char>) -> (r: BrokerError)
    ensures
        r is BadRequest,
        error_message(r) == before@ + text@,
{
    let r = BrokerError::BadRequest(text_around(before, text, ""));
    proof {
        reveal_strlit("");
    }
    assert(error_message(r) =~= before@ + text@);
    r
}

/// Parses one `scopeQ` branch or grouped conjunction.
pub fn parse_scope_branch(e: &Vec<char>) -> (r: Result<ScopeExpression, BrokerError>)
    ensures
        match r {
            Ok(x) => scope_branch(e@) == Some(x@),
            Err(err) => scope_branch(e@) is None && err is BadRequest && error_message(err)
                == branch_error(e@),
        },
{
    let t = trim_chars(e);
    if t.len() == 2 && t[0] == '/' && t[1] == '#' {
        assert(t@ =~= seq!['/', '#']);
        return Ok(ScopeExpression::AnyNonEmpty);
    }
    assert(t@ != seq!['/', '#']);
    let semi = vec![';'];
    assert(semi@ =~= seq![';']);
    assert(!structural(semi@[0]));
    if is_wrapped_by_parentheses(&t) {
        assert(t.len() >= 2) by {
            if t.len() == 1 {
                assert(t@[0] == t@.last());
            }
        }
        let inner = sub_chars(&t, 1, t.len() - 1);
        let parts = split_top_level(&inner, &semi);
        let ghost ps = split_top(inner@, seq![';']);
        let ghost qs = ps.map_values(|p: Seq<char>| scope_pattern(p));
        let mut pats: Vec<ScopePattern> = Vec::new();
        let mut i: usize = 0;
        while i < parts.len()
            invariant
                i <= parts.len(),
                parts@.map_values(|v: Vec<char>| v@) == ps,
                ps == split_top(inner@, seq![';']),
                inner@ == t@.subrange(1, t.len() - 1),
                t@ == trim(e@),
                wrapped(t@),
                t.len() >= 2,
                t@ != seq!['/', '#'],
                qs == ps.map_values(|p: Seq<char>| scope_pattern(p)),
                pats.len() == i,
                forall|k: int| 0 <= k < i ==> #[trigger] qs[k] == Some(pats@[k]@),
            decreases parts.len() - i,
        {
            assert(ps[i as int] == parts@[i as int]@);
            match parse_scope_pattern(&parts[i]) {
                Ok(p) => {
                    pats.push(p);
                },
                Err(err) => {
                    assert(qs[i as int] is None);
                    assert(all_some(qs) is None);
                    proof {
                        assert forall|k: int| 0 <= k < i implies (|p: Seq<char>| scope_pattern(p) is Some)(
                            #[trigger] ps[k],
                        ) by {
                            assert(qs[k] == scope_pattern(ps[k]));
                        }
                        lemma_first_failing(ps, |p: Seq<char>| scope_pattern(p) is Some, i as int);
                    }
                    assert(error_message(err) == branch_error(e@)) by {
                        reveal(branch_error);
                    }
                    return Err(err);
                },
            }
            i += 1;
        }
        assert(all_some(qs) == Some(pattern_views(pats@))) by {
            assert(qs.map_values(|o: Option<ScopePatternV>| o->0) =~= pattern_views(pats@));
        }
        if pats.len() == 1 {
            let p = pats.pop().unwrap();
            Ok(ScopeExpression::Pattern(p))
        } else {
            Ok(ScopeExpression::And(pats))
        }
    } else {
        let parts = split_top_level(&t, &semi);
        if parts.len() > 1 {
            let err = BrokerError::bad_request("scopeQ conjunctions require parentheses");
            assert(error_message(err) == branch_error(e@)) by {
                reveal(branch_error);
            }
            return Err(err);
        }
        match parse_scope_pattern(&t) {
            Ok(p) => Ok(ScopeExpression::Pattern(p)),
            Err(err) => {
                assert(error_message(err) == branch_error(e@)) by {
                    reveal(branch_error);
                }
                Err(err)
            },
        }
    }
}

/// Parses top-level `scopeQ` OR branches.
pub fn parse_scope_or(e: &Vec<char>) -> (r: Result<ScopeExpression, BrokerError>)
    ensures
        match r {
            Ok(x) => scope_or(e@) == Some(x@),
            Err(err) => scope_or(e@) is None && err is BadRequest && error_message(err) == or_error(e@),
        },
{
    let t = trim_chars(e);
    let seps = vec!['|', ','];
    assert(seps@ =~= seq!['|', ',']);
    assert(!structural(seps@[0]) && !structural(seps@[1]));
    let parts = split_top_level(&t, &seps);
    let ghost ps = split_top(t@, seq!['|', ',']);
    if parts.len() > 1 {
        let ghost qs = ps.map_values(|p: Seq<char>| scope_branch(p));
        let mut out: Vec<ScopeExpression> = Vec::new();
        let mut i: usize = 0;
        while i < parts.len()
            invariant
                i <= parts.len(),
                parts@.map_values(|v: Vec<char>| v@) == ps,
                ps == split_top(t@, seq!['|', ',']),
                t@ == trim(e@),
                parts.len() > 1,
                qs == ps.map_values(|p: Seq<char>| scope_branch(p)),
                out.len() == i,
                forall|k: int| 0 <= k < i ==> #[trigger] qs[k] == Some(out@[k]@),
            decreases parts.len() - i,
        {
            assert(ps[i as int] == parts@[i as int]@);
            match parse_scope_branch(&parts[i]) {
                Ok(x) => {
                    out.push(x);
                },
                Err(err) => {
                    assert(qs[i as int] is None);
                    assert(all_some(qs) is None);
                    proof {
                        assert forall|k: int| 0 <= k < i implies (|p: Seq<char>| scope_branch(p) is Some)(
                            #[trigger] ps[k],
                        ) by {
                            assert(qs[k] == scope_branch(ps[k]));
                        }
                        lemma_first_failing(ps, |p: Seq<char>| scope_branch(p) is Some, i as int);
                    }
                    assert(error_message(err) == or_error(e@)) by {
                        reveal(or_error);
                    }
                    return Err(err);
                },
            }
            i += 1;
        }
        proof {
            lemma_scope_or_view(out);
            assert(qs.map_values(|o: Option<ScopeExpressionV>| o->0) =~= scope_views(out@));
        }
        Ok(ScopeExpression::Or(out))
    } else {
        let r = parse_scope_branch(&t);
        assert(r matches Err(err) ==> error_message(err) == or_error(e@)) by {
            reveal(or_error);
        }
        r
    }
}

/// Parses optional `scopeQ` string into expression tree.
pub fn parse_scope_expression(scope_q: Option<&str>) -> (r: Result<Option<ScopeExpression>, BrokerError>)
    ensures
        match r {
            Ok(x) => scope_expression(match scope_q {
                Some(t) => Some(t@),
                None => None,
            }) == Some(
                match x {
                    Some(e) => Some(e@),
                    None => None,
                },
            ),
            Err(err) => scope_expression(match scope_q {
                Some(t) => Some(t@),
                None => None,
            }) is None && err is BadRequest && error_message(err) == scope_expression_error(
                match scope_q {
                    Some(t) => Some(t@),
                    None => None,
                },
            ),
        },
{
    match scope_q {
        None => Ok(None),
        Some(text) => {
            let t = trim_chars(&chars_of(text));
            if t.len() == 0 {
                Ok(None)
            } else {
                match parse_scope_or(&t) {
                    Ok(e) => Ok(Some(e)),
                    Err(err) => Err(err),
                }
            }
        },
    }
}

/// The levels of a concrete scope.
fn scope_level_pieces(scope: &Vec<char>) -> (r: Vec<Vec<char>>)
    ensures
        r@.map_values(|v: Vec<char>| v@) == scope_levels(scope@),
{
    let pieces = split_chars(scope, '/');
    let ghost ps = split_on(scope@, '/');
    let mut r: Vec<Vec<char>> = Vec::new();
    assert(ps.len() == pieces@.map_values(|v: Vec<char>| v@).len());
    proof {
        crate::text::lemma_split_on_nonempty(scope@, '/');
    }
    if pieces.len() <= 1 {
        assert(ps.skip(1) =~= Seq::<Seq<char>>::empty());
        assert(r@.map_values(|v: Vec<char>| v@) =~= Seq::<Seq<char>>::empty());
        return r;
    }
    let mut i: usize = 1;
    assert(ps.skip(1).take(0) =~= Seq::<Seq<char>>::empty());
    while i < pieces.len()
        invariant
            1 <= i <= pieces.len(),
            pieces@.map_values(|v: Vec<char>| v@) == ps,
            r@.map_values(|v: Vec<char>| v@) == nonempty_items(ps.skip(1).take(i - 1)),
        decreases pieces.len() - i,
    {
        assert(ps[i as int] == pieces@[i as int]@);
        assert(ps.skip(1).take(i as int).drop_last() =~= ps.skip(1).take(i - 1));
        assert(ps.skip(1).take(i as int).last() == ps[i as int]);
        if pieces[i].len() > 0 {
            let c = pieces[i].clone();
            r.push(c);
            assert(r@.map_values(|v: Vec<char>| v@) =~= nonempty_items(ps.skip(1).take(i - 1)).push(
                ps[i as int],
            ));
        }
        i += 1;
    }
    assert(ps.skip(1).take(pieces.len() - 1) =~= ps.skip(1));
    r
}

/// Matches one concrete scope string against parsed scope pattern.
pub fn scope_pattern_matches(scope: &str, pattern: &ScopePattern) -> (r: bool)
    ensures
        r == pattern_matches(scope@, pattern@),
{
    let sc = chars_of(scope);
    if pattern.levels.len() == 0 {
        let t = trim_chars(&sc);
        return t.len() > 0;
    }
    let levels = scope_level_pieces(&sc);
    let ghost lv = scope_levels(scope@);
    assert(levels@.map_values(|v: Vec<char>| v@) == lv);
    if levels.len() == 0 {
        return false;
    }
    if pattern.include_descendants {
        if levels.len() < pattern.levels.len() {
            return false;
        }
    } else if levels.len() != pattern.levels.len() {
        return false;
    }
    let ghost pv = pattern@.levels;
    let mut i: usize = 0;
    while i < pattern.levels.len()
        invariant
            i <= pattern.levels.len() <= levels.len(),
            levels@.map_values(|v: Vec<char>| v@) == lv,
            lv == scope_levels(scope@),
            lv.len() > 0,
            pv.len() > 0,
            if pattern.include_descendants {
                lv.len() >= pv.len()
            } else {
                lv.len() == pv.len()
            },
            pv == pattern@.levels,
            forall|k: int|
                0 <= k < i ==> match #[trigger] pv[k] {
                    ScopeLevelV::Exact(x) => x == lv[k],
                    ScopeLevelV::SingleLevelWildcard => true,
                },
        decreases pattern.levels.len() - i,
    {
        assert(pv[i as int] == pattern.levels@[i as int]@);
        assert(lv[i as int] == levels@[i as int]@);
        match &pattern.levels[i] {
            ScopeLevel::Exact(x) => {
                let xc = chars_of(x.as_str());
                if !chars_eq(&xc, &levels[i]) {
                    assert(!(match pv[i as int] {
                        ScopeLevelV::Exact(x) => x == lv[i as int],
                        ScopeLevelV::SingleLevelWildcard => true,
                    }));
                    return false;
                }
            },
            ScopeLevel::SingleLevelWildcard => {},
        }
        i += 1;
    }
    true
}

/// Evaluates parsed `scopeQ` expression against scope values.
pub fn scope_expression_matches_values(expression: &ScopeExpression, scopes: &[String]) -> (r: bool)
    ensures
        r == scope_matches(expression@, views(scopes@)),
    decreases expression,
{
    let ghost sv = views(scopes@);
    proof {
        lemma_scope_matches_unfold(expression@, sv);
    }
    match expression {
        ScopeExpression::AnyNonEmpty => {
            let mut i: usize = 0;
            while i < scopes.len()
                invariant
                    i <= scopes.len(),
                    sv == views(scopes@),
                    *expression == ScopeExpression::AnyNonEmpty,
                    forall|k: int| 0 <= k < i ==> !(#[trigger] trim(sv[k]).len() > 0),
                decreases scopes.len() - i,
            {
                let t = trim_str(scopes[i].as_str());
                assert(sv[i as int] == scopes@[i as int]@);
                if t.len() > 0 {
                    assert(trim(sv[i as int]).len() > 0);
                    return true;
                }
                i += 1;
            }
            false
        },
        ScopeExpression::Pattern(p) => any_scope_matches(scopes, p),
        ScopeExpression::And(ps) => {
            let mut i: usize = 0;
            while i < ps.len()
                invariant
                    i <= ps.len(),
                    sv == views(scopes@),
                    *expression == ScopeExpression::And(*ps),
                    forall|k: int| 0 <= k < i ==> some_scope_matches(sv, #[trigger] pattern_views(ps@)[k]),
                decreases ps.len() - i,
            {
                assert(pattern_views(ps@)[i as int] == ps@[i as int]@);
                if !any_scope_matches(scopes, &ps[i]) {
                    assert(!some_scope_matches(sv, pattern_views(ps@)[i as int]));
                    assert(expression@ == ScopeExpressionV::And(pattern_views(ps@)));
                    proof {
                        lemma_scope_matches_unfold(expression@, sv);
                    }
                    assert(!scope_matches(expression@, sv));
                    return false;
                }
                i += 1;
            }
            true
        },
        ScopeExpression::Or(parts) => {
            proof {
                lemma_scope_or_view(*parts);
            }
            let mut i: usize = 0;
            while i < parts.len()
                invariant
                    i <= parts.len(),
                    sv == views(scopes@),
                    *expression == ScopeExpression::Or(*parts),
                    expression@ == ScopeExpressionV::Or(scope_views(parts@)),
                    forall|k: int| 0 <= k < i ==> !scope_matches(#[trigger] scope_views(parts@)[k], sv),
                decreases parts.len() - i,
            {
                assert(scope_views(parts@)[i as int] == parts@[i as int]@);
                proof {
                    lemma_scope_part_decreases(*parts, i as int);
                }
                if scope_expression_matches_values(&parts[i], scopes) {
                    assert(scope_matches(scope_views(parts@)[i as int], sv));
                    proof {
                        lemma_scope_matches_unfold(expression@, sv);
                    }
                    assert(scope_matches(expression@, sv));
                    return true;
                }
                i += 1;
            }
            false
        },
    }
}

/// A part of an `Or` expression is smaller than the expression.
proof fn lemma_scope_part_decreases(parts: Vec<ScopeExpression>, i: int)
    requires
        0 <= i < parts.len(),
    ensures
        decreases_to!(ScopeExpression::Or(parts) => parts[i]),
{
    vstd::std_specs::vec::axiom_vec_index_decreases(parts, i);
    let e = ScopeExpression::Or(parts);
    assert(decreases_to!(e => e->Or_0));
}

/// Some scope of a list matches a pattern.
fn any_scope_matches(scopes: &[String], p: &ScopePattern) -> (r: bool)
    ensures
        r == some_scope_matches(views(scopes@), p@),
{
    let ghost sv = views(scopes@);
    let mut i: usize = 0;
    while i < scopes.len()
        invariant
            i <= scopes.len(),
            sv == views(scopes@),
            forall|k: int| 0 <= k < i ==> !pattern_matches(#[trigger] sv[k], p@),
        decreases scopes.len() - i,
    {
        assert(sv[i as int] == scopes@[i as int]@);
        if scope_pattern_matches(scopes[i].as_str(), p) {
            return true;
        }
        i += 1;
    }
    false
}

/// Evaluates raw `scopeQ` filter against extracted scope values; no filter
/// (absent or blank) matches everything.
pub fn scope_query_matches_values(scopes: &[String], scope_q: Option<&str>) -> (r: Result<bool, BrokerError>)
    ensures
        match r {
            Ok(b) => match scope_expression(match scope_q {
                Some(t) => Some(t@),
                None => None,
            }) {
                Some(None) => b,
                Some(Some(e)) => b == scope_matches(e, views(scopes@)),
                None => false,
            },
            Err(err) => scope_expression(match scope_q {
                Some(t) => Some(t@),
                None => None,
            }) is None && err is BadRequest && error_message(err) == scope_expression_error(
                match scope_q {
                    Some(t) => Some(t@),
                    None => None,
                },
            ),
        },
{
    match parse_scope_expression(scope_q) {
        Ok(None) => Ok(true),
        Ok(Some(e)) => Ok(scope_expression_matches_values(&e, scopes)),
        Err(err) => Err(err),
    }
}

/// A pattern ending in `/#` takes in the scope it names and every scope
/// below it: whatever the exact pattern matches, the same pattern with
/// descendants matches; a scope with at least as many levels whose first
/// levels agree with the pattern matches it with descendants; and with
/// descendants a scope of exactly the pattern's depth matches iff the
/// exact pattern does.
pub proof fn law_scope_descendants(s: Seq<char>, levels: Seq<ScopeLevelV>)
    ensures
        ({
            let exact = ScopePatternV { levels, include_descendants: false };
            let below = ScopePatternV { levels, include_descendants: true };
            let lv = scope_levels(s);
            &&& pattern_matches(s, exact) ==> pattern_matches(s, below)
            &&& (levels.len() > 0 && lv.len() >= levels.len() && forall|i: int|
                0 <= i < levels.len() ==> match #[trigger] levels[i] {
                    ScopeLevelV::Exact(x) => x == lv[i],
                    ScopeLevelV::SingleLevelWildcard => true,
                }) ==> pattern_matches(s, below)
            &&& (levels.len() > 0 && lv.len() == levels.len()) ==> (pattern_matches(s, below) == pattern_matches(s, exact))
        }),
{
}

/// A pattern of named levels only, without `/#`, matches exactly the
/// scopes whose levels are those names, in order.
pub proof fn law_scope_exact_names(s: Seq<char>, names: Seq<Seq<char>>)
    requires
        names.len() > 0,
    ensures
        pattern_matches(
            s,
            ScopePatternV { levels: names.map_values(|x: Seq<char>| ScopeLevelV::Exact(x)), include_descendants: false },
        ) == (scope_levels(s) == names),
{
    let p = ScopePatternV { levels: names.map_values(|x: Seq<char>| ScopeLevelV::Exact(x)), include_descendants: false };
    let lv = scope_levels(s);
    if pattern_matches(s, p) {
        assert forall|i: int| 0 <= i < names.len() implies lv[i] == names[i] by {
            assert(p.levels[i] == ScopeLevelV::Exact(names[i]));
        }
        assert(lv =~= names);
    }
    if lv == names {
        assert forall|i: int| 0 <= i < p.levels.len() implies match #[trigger] p.levels[i] {
            ScopeLevelV::Exact(x) => x == lv[i],
            ScopeLevelV::SingleLevelWildcard => true,
        } by {
            assert(p.levels[i] == ScopeLevelV::Exact(names[i]));
        }
    }
}

/// How a `scopeQ` expression matches the scopes of an entity: `/#` when
/// some scope is not blank; a pattern when some scope matches it (its
/// levels, the non-empty pieces after the leading `/`, agree with the
/// pattern's levels, `+` taking any level, and are as many, or at least
/// as many with `/#`); a conjunction when each of its patterns is matched
/// by some scope, not necessarily the same; a disjunction when some part
/// matches.
pub proof fn law_scope_matching(e: ScopeExpressionV, scopes: Seq<Seq<char>>)
    ensures
        scope_matches(e, scopes) == match e {
            ScopeExpressionV::AnyNonEmpty => exists|k: int| 0 <= k < scopes.len() && #[trigger] trim(scopes[k]).len() > 0,
            ScopeExpressionV::Pattern(p) => some_scope_matches(scopes, p),
            ScopeExpressionV::And(ps) => forall|i: int| 0 <= i < ps.len() ==> some_scope_matches(scopes, #[trigger] ps[i]),
            ScopeExpressionV::Or(parts) => exists|i: int| 0 <= i < parts.len() && scope_matches(#[trigger] parts[i], scopes),
        },
        forall|p: ScopePatternV| #[trigger] some_scope_matches(scopes, p) == exists|k: int|
            0 <= k < scopes.len() && #[trigger] pattern_matches(scopes[k], p),
{
    lemma_scope_matches_unfold(e, scopes);
}

/// One unfolding of `scope_matches`.
pub proof fn lemma_scope_matches_unfold(e: ScopeExpressionV, scopes: Seq<Seq<char>>)
    ensures
        scope_matches(e, scopes) == match e {
            ScopeExpressionV::AnyNonEmpty => exists|k: int|
                0 <= k < scopes.len() && #[trigger] trim(scopes[k]).len() > 0,
            ScopeExpressionV::Pattern(p) => some_scope_matches(scopes, p),
            ScopeExpressionV::And(ps) => forall|i: int|
                0 <= i < ps.len() ==> some_scope_matches(scopes, #[trigger] ps[i]),
            ScopeExpressionV::Or(parts) => exists|i: int|
                0 <= i < parts.len() && scope_matches(#[trigger] parts[i], scopes),
        },
{
    match e {
        ScopeExpressionV::Or(parts) => {
            assert forall|i: int| 0 <= i < parts.len() implies decreases_to!(e => parts[i]) by {
                assert(decreases_to!(e => e->Or_0));
                assert(decreases_to!(parts => parts[i]));
            }
        },
        _ => {},
    }
}

} // verus!
