use vstd::prelude::*;
use crate::custom::{
    atom_outcome, body_outcome, element_outcome, find_rule, pattern_outcome,
    repeat_outcome, seq_outcome, skip_ws, Failure, Outcome, Parser,
};
use crate::definition::{InternalPattern, InternalPatternKind, ParserDefinition, Pattern, TokenPattern};
use crate::lexer::Token;

verus! {

/// The significant tokens of `toks[a..b]`, in order.
pub open spec fn significant(toks: Seq<Token>, a: nat, b: nat) -> Seq<Token>
    decreases b - a,
{
    if a >= b {
        Seq::empty()
    } else if toks[a as int] is Ws {
        significant(toks, a + 1, b)
    } else {
        seq![toks[a as int]] + significant(toks, a + 1, b)
    }
}

proof fn lemma_skip(toks: Seq<Token>, a: nat)
    requires
        a <= toks.len(),
    ensures
        a <= skip_ws(toks, a) <= toks.len(),
        significant(toks, a, skip_ws(toks, a)) == Seq::<Token>::empty(),
        skip_ws(toks, a) < toks.len() ==> !(toks[skip_ws(toks, a) as int] is Ws),
    decreases toks.len() - a,
{
    if a < toks.len() && toks[a as int] is Ws {
        lemma_skip(toks, a + 1);
    }
}

proof fn lemma_concat(toks: Seq<Token>, a: nat, m: nat, b: nat)
    requires
        a <= m <= b,
    ensures
        significant(toks, a, m) + significant(toks, m, b) == significant(toks, a, b),
    decreases m - a,
{
    if a < m {
        lemma_concat(toks, a + 1, m, b);
        assert(significant(toks, a, m) + significant(toks, m, b) =~= significant(toks, a, b));
    } else {
        assert(significant(toks, a, m) + significant(toks, m, b) =~= significant(toks, a, b));
    }
}

proof fn lemma_one(toks: Seq<Token>, a: nat)
    requires
        a <= toks.len(),
        skip_ws(toks, a) < toks.len(),
    ensures
        significant(toks, a, skip_ws(toks, a) + 1) == seq![toks[skip_ws(toks, a) as int]],
{
    let q = skip_ws(toks, a);
    lemma_skip(toks, a);
    lemma_concat(toks, a, q, q + 1);
    assert(significant(toks, q + 1, q + 1) == Seq::<Token>::empty());
    assert(significant(toks, q, q + 1) =~= seq![toks[q as int]]);
    assert(significant(toks, a, q + 1) =~= seq![toks[q as int]]);
}

/// What a match consumes, as the model states it: a stretch of the stream
/// from `pos`, and its significant tokens in order.
pub open spec fn consumes_window(o: Outcome, toks: Seq<Token>, pos: nat) -> bool {
    o matches Outcome::Matched(e, t) ==> pos <= e <= toks.len() && t == significant(toks, pos, e)
}

proof fn lemma_body_window(g: ParserDefinition, toks: Seq<Token>, rule: Option<Seq<char>>, pats: Seq<Pattern>, i: int, pos: nat, d: nat)
    requires
        pos <= toks.len(),
    ensures
        consumes_window(body_outcome(g, toks, rule, pats, i, pos, d), toks, pos),
    decreases d, 5int, pats.len() - i,
{
    if 0 <= i < pats.len() {
        lemma_pattern_window(g, toks, rule, pats[i], pos, d);
        if let Outcome::Matched(p, t) = pattern_outcome(g, toks, rule, pats[i], pos, d) {
            lemma_body_window(g, toks, rule, pats, i + 1, p, d);
            if let Outcome::Matched(e, u) = body_outcome(g, toks, rule, pats, i + 1, p, d) {
                lemma_concat(toks, pos, p, e);
            }
        }
    }
}

proof fn lemma_pattern_window(g: ParserDefinition, toks: Seq<Token>, rule: Option<Seq<char>>, p: Pattern, pos: nat, d: nat)
    requires
        pos <= toks.len(),
    ensures
        consumes_window(pattern_outcome(g, toks, rule, p, pos, d), toks, pos),
    decreases d, 4int, crate::custom::alt_len(p),
{
    match p {
        Pattern::Token(elems) => lemma_seq_window(g, toks, rule, elems@, 0, pos, d),
        Pattern::Alternative { left, right } => {
            lemma_seq_window(g, toks, rule, left@, 0, pos, d);
            lemma_pattern_window(g, toks, rule, *right, pos, d);
        },
    }
}

proof fn lemma_seq_window(g: ParserDefinition, toks: Seq<Token>, rule: Option<Seq<char>>, elems: Seq<TokenPattern>, j: int, pos: nat, d: nat)
    requires
        pos <= toks.len(),
    ensures
        consumes_window(seq_outcome(g, toks, rule, elems, j, pos, d), toks, pos),
    decreases d, 3int, elems.len() - j,
{
    if 0 <= j < elems.len() {
        lemma_element_window(g, toks, rule, elems[j], pos, d);
        if let Outcome::Matched(p, t) = element_outcome(g, toks, rule, elems[j], pos, d) {
            lemma_seq_window(g, toks, rule, elems, j + 1, p, d);
            if let Outcome::Matched(e, u) = seq_outcome(g, toks, rule, elems, j + 1, p, d) {
                lemma_concat(toks, pos, p, e);
            }
        }
    }
}

proof fn lemma_element_window(g: ParserDefinition, toks: Seq<Token>, rule: Option<Seq<char>>, e: TokenPattern, pos: nat, d: nat)
    requires
        pos <= toks.len(),
    ensures
        consumes_window(element_outcome(g, toks, rule, e, pos, d), toks, pos),
    decreases d, 2int, 0int,
{
    lemma_atom_window(g, toks, rule, e.pattern, pos, d);
    if e.repeat_mode is Some {
        if let Outcome::Matched(p, t) = atom_outcome(g, toks, rule, e.pattern, pos, d) {
            lemma_repeat_window(g, toks, rule, e, p, d);
            if let Outcome::Matched(q, u) = repeat_outcome(g, toks, rule, e, p, d) {
                lemma_concat(toks, pos, p, q);
            }
        }
    }
}

proof fn lemma_repeat_window(g: ParserDefinition, toks: Seq<Token>, rule: Option<Seq<char>>, e: TokenPattern, pos: nat, d: nat)
    requires
        pos <= toks.len(),
    ensures
        consumes_window(repeat_outcome(g, toks, rule, e, pos, d), toks, pos),
    decreases d, 1int, toks.len() - pos,
{
    let start: Option<(nat, Seq<Token>)> = match e.separator {
        Some(sep) => if crate::custom::separator_at(toks, sep@, pos) {
            Some((skip_ws(toks, pos) + 1, seq![toks[skip_ws(toks, pos) as int]]))
        } else {
            None
        },
        None => Some((pos, Seq::empty())),
    };
    lemma_skip(toks, pos);
    if let Some((s, st)) = start {
        if e.separator is Some {
            lemma_one(toks, pos);
        }
        assert(pos <= s <= toks.len() && st == significant(toks, pos, s));
        lemma_atom_window(g, toks, rule, e.pattern, s, d);
        if let Outcome::Matched(p, t) = atom_outcome(g, toks, rule, e.pattern, s, d) {
            if pos < p <= toks.len() {
                lemma_repeat_window(g, toks, rule, e, p, d);
                if let Outcome::Matched(q, u) = repeat_outcome(g, toks, rule, e, p, d) {
                    lemma_concat(toks, s, p, q);
                    lemma_concat(toks, pos, s, q);
                    assert(st + t + u == st + (t + u));
                }
            }
        }
    }
}

proof fn lemma_atom_window(g: ParserDefinition, toks: Seq<Token>, rule: Option<Seq<char>>, p: InternalPattern, pos: nat, d: nat)
    requires
        pos <= toks.len(),
    ensures
        consumes_window(atom_outcome(g, toks, rule, p, pos, d), toks, pos),
    decreases d, 0int, 0int,
{
    match p {
        InternalPattern::Named { kind: InternalPatternKind::Custom(name), .. } => {
            if let Some(k) = find_rule(g.rules@, name@, 0) {
                if d > 0 {
                    lemma_body_window(g, toks, Some(name@), g.rules@[k].1@, 0, pos, (d - 1) as nat);
                }
            }
        },
        _ => {
            lemma_skip(toks, pos);
            if skip_ws(toks, pos) < toks.len() {
                lemma_one(toks, pos);
            }
        },
    }
}

/// Round trip: a successful parse of the entry patterns from `start` consumes
/// a stretch of the stream, never moving back, and the tokens it consumed,
/// taken in order, are exactly the significant tokens of that stretch, with
/// the whitespace between them left out.
pub proof fn lemma_round_trip(parser: &Parser, start: nat)
    requires
        start <= parser.tokens().len(),
    ensures
        parser.entry_outcome(start) matches Outcome::Matched(end, consumed) ==> start <= end
            <= parser.tokens().len() && consumed == significant(parser.tokens(), start, end),
{
    lemma_body_window(parser.grammar(), parser.tokens(), None, parser.grammar().entry@, 0, start, parser.max_depth());
}

/// Determinism: two parsers built from the same grammar, the same tokens and
/// the same depth bound give the same outcome from the same start position.
pub proof fn lemma_deterministic(a: &Parser, b: &Parser, start: nat)
    requires
        a.grammar() == b.grammar(),
        a.tokens() == b.tokens(),
        a.max_depth() == b.max_depth(),
    ensures
        a.entry_outcome(start) == b.entry_outcome(start),
{
}

/// A reference to a rule that the grammar lacks fails with that rule's name
/// when it is resolved, whatever the tokens, the position or the element's
/// multiplicity: no alternative, optional or repetition recovers from it.
pub proof fn lemma_unknown_rule(g: ParserDefinition, toks: Seq<Token>, rule: Option<Seq<char>>, e: TokenPattern, pos: nat, d: nat)
    requires
        e.pattern matches InternalPattern::Named { kind: InternalPatternKind::Custom(name), .. }
            && find_rule(g.rules@, name@, 0) is None,
    ensures
        e.pattern matches InternalPattern::Named { kind: InternalPatternKind::Custom(name), .. }
            && atom_outcome(g, toks, rule, e.pattern, pos, d) == Outcome::Failed(Failure::UnknownRule(name@))
            && element_outcome(g, toks, rule, e, pos, d) == Outcome::Failed(Failure::UnknownRule(name@)),
{
}

/// A plain reference, not optional and not repeated, to one of the rules `names`.
pub open spec fn plain_reference_into(e: TokenPattern, names: Set<Seq<char>>) -> bool {
    &&& e.pattern matches InternalPattern::Named { kind: InternalPatternKind::Custom(n), .. }
    &&& names.contains(n@)
    &&& !e.is_optional
    &&& e.repeat_mode is None
}

/// Whether the first pattern of a rule body begins with a plain reference to
/// one of the rules `names`.
pub open spec fn begins_with_reference_into(pats: Seq<Pattern>, names: Set<Seq<char>>) -> bool {
    &&& pats.len() > 0
    &&& match pats[0] {
        Pattern::Token(elems) => elems@.len() > 0 && plain_reference_into(elems@[0], names),
        Pattern::Alternative { left, .. } => left@.len() > 0 && plain_reference_into(left@[0], names),
    }
}

/// The rules `names` all exist, and each starts by calling one of them again
/// before it consumes anything: a cycle of left recursion, direct when
/// `names` holds one rule, indirect otherwise.
pub open spec fn left_cycle(g: ParserDefinition, names: Set<Seq<char>>) -> bool {
    forall|n: Seq<char>|
        #[trigger] names.contains(n) ==> (find_rule(g.rules@, n, 0) matches Some(k)
            && begins_with_reference_into(g.rules@[k].1@, names))
}

/// Rules that call themselves, directly or through one another, before they
/// consume anything do not run forever: however many nested references are
/// allowed, a reference into such a cycle fails with the recursion limit at
/// the first significant token.
pub proof fn lemma_left_cycle_stops(
    g: ParserDefinition,
    toks: Seq<Token>,
    rule: Option<Seq<char>>,
    names: Set<Seq<char>>,
    e: TokenPattern,
    pos: nat,
    d: nat,
)
    requires
        left_cycle(g, names),
        plain_reference_into(e, names),
    ensures
        atom_outcome(g, toks, rule, e.pattern, pos, d) == Outcome::Failed(
            Failure::RecursionLimit(skip_ws(toks, pos)),
        ),
    decreases d,
{
    let name = e.pattern->kind->Custom_0;
    assert(names.contains(name@));
    let k = find_rule(g.rules@, name@, 0)->Some_0;
    if d > 0 {
        let pats = g.rules@[k].1@;
        let elems = match pats[0] {
            Pattern::Token(elems) => elems@,
            Pattern::Alternative { left, .. } => left@,
        };
        let first = elems[0];
        lemma_left_cycle_stops(g, toks, Some(name@), names, first, pos, (d - 1) as nat);
        assert(element_outcome(g, toks, Some(name@), first, pos, (d - 1) as nat) == Outcome::Failed(
            Failure::RecursionLimit(skip_ws(toks, pos)),
        ));
        assert(seq_outcome(g, toks, Some(name@), elems, 0, pos, (d - 1) as nat) == Outcome::Failed(
            Failure::RecursionLimit(skip_ws(toks, pos)),
        ));
        assert(pattern_outcome(g, toks, Some(name@), pats[0], pos, (d - 1) as nat)
            == Outcome::Failed(Failure::RecursionLimit(skip_ws(toks, pos))));
    }
}

} // verus!
