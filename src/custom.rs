use vstd::prelude::*;
use crate::definition::{opt_chars, InternalPattern, InternalPatternKind, ParserDefinition, Pattern, RepeatMode, TokenPattern};
use crate::lexer::Token;
use crate::regex_match::{regex_search, regex_verdict};

verus! {

/// Why a parse failed. Each index is a position in the token stream.
#[derive(Debug)]
pub enum ParseError {
    /// A rule reference names no rule of the grammar.
    UnknownRule { name: String },
    /// The token at `index` is not the one the grammar asks for; `rule` is
    /// the rule being matched (none for the entry patterns) and `expected`
    /// describes the pattern that failed.
    TokenMismatch { rule: Option<String>, index: usize, expected: String },
    /// A token was required but only whitespace, or nothing, was left.
    EndOfInput { rule: Option<String>, index: usize, expected: String },
    /// Rule references nested deeper than the parser's limit.
    RecursionLimit { index: usize },
}

/// A captured value.
#[derive(Debug)]
pub enum AstValue {
    Leaf(Token),
    List(Vec<AstValue>),
    Node(Ast),
    Absent,
}

/// A syntax tree node: the rule that made it, and its named captures in
/// first-write order.
#[derive(Debug)]
pub struct Ast {
    pub rule: Option<String>,
    pub fields: Vec<(String, AstValue)>,
}

/// The failures of the model; a position is a token index.
pub enum Failure {
    UnknownRule(Seq<char>),
    /// The rule being matched, the position, and what was expected there.
    TokenMismatch(Option<Seq<char>>, nat, Seq<char>),
    EndOfInput(Option<Seq<char>>, nat, Seq<char>),
    RecursionLimit(nat),
}

/// What an attempt to match gives in the model: the position after the match
/// with the tokens it consumed, in order, or a failure.
pub enum Outcome {
    Matched(nat, Seq<Token>),
    Failed(Failure),
}

impl ParseError {
    pub open spec fn model(&self) -> Failure {
        match self {
            ParseError::UnknownRule { name } => Failure::UnknownRule(name@),
            ParseError::TokenMismatch { rule, index, expected } => Failure::TokenMismatch(
                opt_chars(*rule),
                *index as nat,
                expected@,
            ),
            ParseError::EndOfInput { rule, index, expected } => Failure::EndOfInput(
                opt_chars(*rule),
                *index as nat,
                expected@,
            ),
            ParseError::RecursionLimit { index } => Failure::RecursionLimit(*index as nat),
        }
    }
}

/// A failure that an enclosing alternative, optional or repetition recovers
/// from; an unknown rule or the recursion limit ends the whole parse.
pub open spec fn recoverable(f: Failure) -> bool {
    f is TokenMismatch || f is EndOfInput
}

/// Two outcomes end alike: the same failure, or matches that stop at the same
/// position.
pub open spec fn same_end(a: Outcome, b: Outcome) -> bool {
    match (a, b) {
        (Outcome::Matched(p, _), Outcome::Matched(q, _)) => p == q,
        (Outcome::Failed(f), Outcome::Failed(h)) => f == h,
        _ => false,
    }
}

/// An executable result agrees with a model outcome.
pub open spec fn agrees<T>(r: Result<(usize, T), ParseError>, o: Outcome) -> bool {
    match r {
        Ok((p, _)) => o matches Outcome::Matched(e, _) && e == p as nat,
        Err(e) => o == Outcome::Failed(e.model()),
    }
}

/// The first position at or after `pos` that holds a significant token, or
/// the stream's length.
pub open spec fn skip_ws(toks: Seq<Token>, pos: nat) -> nat
    decreases toks.len() - pos,
{
    if pos < toks.len() && toks[pos as int] is Ws {
        skip_ws(toks, pos + 1)
    } else {
        pos
    }
}

/// The index of the first rule at or after `i` named `name`.
pub open spec fn find_rule(rules: Seq<(String, Vec<Pattern>)>, name: Seq<char>, i: int) -> Option<int>
    decreases rules.len() - i,
{
    if i < 0 || i >= rules.len() {
        None
    } else if rules[i].0@ == name {
        Some(i)
    } else {
        find_rule(rules, name, i + 1)
    }
}

/// A regular expression that holds exactly when `src` matches a whole text.
pub open spec fn anchored(src: Seq<char>) -> Seq<char> {
    "^(?:"@ + src + ")$"@
}

/// The token's text, for tokens that carry one.
pub open spec fn lexeme(t: Token) -> Option<Seq<char>> {
    match t {
        Token::Symbol(s) => Some(s@),
        Token::Ident(s) => Some(s@),
        _ => None,
    }
}

/// Whether one token satisfies a pattern that is not a rule reference.
pub open spec fn accepts(p: InternalPattern, t: Token) -> bool {
    match p {
        InternalPattern::Raw { value } => lexeme(t) == Some(value@),
        InternalPattern::Named { kind, .. } => match kind {
            InternalPatternKind::Ident => t is Ident,
            InternalPatternKind::Int => t is Integer,
            InternalPatternKind::Float => t is Float,
            InternalPatternKind::String => false,
            InternalPatternKind::Bool => t is True || t is False,
            InternalPatternKind::Regex(src) => lexeme(t) matches Some(l) && regex_verdict(
                anchored(src@),
                l,
            ) == Some(true),
            InternalPatternKind::Keyword(k) => t matches Token::Ident(s) && s@ == k@,
            InternalPatternKind::Symbol(k) => t matches Token::Symbol(s) && s@ == k@,
            InternalPatternKind::Custom(_) => false,
        },
    }
}

/// The number of ordered choices chained in a pattern.
pub open spec fn alt_len(p: Pattern) -> nat
    decreases p,
{
    match p {
        Pattern::Alternative { right, .. } => 1 + alt_len(*right),
        Pattern::Token(_) => 0,
    }
}

/// Matching the patterns `pats[i..]` one after the other from `pos`, with `d`
/// further rule references allowed.
pub open spec fn body_outcome(
    g: ParserDefinition,
    toks: Seq<Token>,
    rule: Option<Seq<char>>,
    pats: Seq<Pattern>,
    i: int,
    pos: nat,
    d: nat,
) -> Outcome
    decreases d, 5int, pats.len() - i,
{
    if i < 0 || i >= pats.len() {
        Outcome::Matched(pos, Seq::empty())
    } else {
        match pattern_outcome(g, toks, rule, pats[i], pos, d) {
            Outcome::Matched(p, t) => match body_outcome(g, toks, rule, pats, i + 1, p, d) {
                Outcome::Matched(e, u) => Outcome::Matched(e, t + u),
                f => f,
            },
            Outcome::Failed(f) => Outcome::Failed(f),
        }
    }
}

/// Ordered choice: the first alternative that matches wins; a recoverable
/// failure of the primary moves on to the fallback from the same position.
pub open spec fn pattern_outcome(g: ParserDefinition, toks: Seq<Token>, rule: Option<Seq<char>>, p: Pattern, pos: nat, d: nat) -> Outcome
    decreases d, 4int, alt_len(p),
{
    match p {
        Pattern::Token(elems) => seq_outcome(g, toks, rule, elems@, 0, pos, d),
        Pattern::Alternative { left, right } => match seq_outcome(g, toks, rule, left@, 0, pos, d) {
            Outcome::Matched(e, t) => Outcome::Matched(e, t),
            Outcome::Failed(f) => if recoverable(f) {
                pattern_outcome(g, toks, rule, *right, pos, d)
            } else {
                Outcome::Failed(f)
            },
        },
    }
}

/// A sequence: every element in order; the first failure fails the whole.
pub open spec fn seq_outcome(
    g: ParserDefinition,
    toks: Seq<Token>,
    rule: Option<Seq<char>>,
    elems: Seq<TokenPattern>,
    j: int,
    pos: nat,
    d: nat,
) -> Outcome
    decreases d, 3int, elems.len() - j,
{
    if j < 0 || j >= elems.len() {
        Outcome::Matched(pos, Seq::empty())
    } else {
        match element_outcome(g, toks, rule, elems[j], pos, d) {
            Outcome::Matched(p, t) => match seq_outcome(g, toks, rule, elems, j + 1, p, d) {
                Outcome::Matched(e, u) => Outcome::Matched(e, t + u),
                f => f,
            },
            Outcome::Failed(f) => Outcome::Failed(f),
        }
    }
}

/// One element with its multiplicity.
pub open spec fn element_outcome(g: ParserDefinition, toks: Seq<Token>, rule: Option<Seq<char>>, e: TokenPattern, pos: nat, d: nat) -> Outcome
    decreases d, 2int, 0int,
{
    match e.repeat_mode {
        Some(mode) => match atom_outcome(g, toks, rule, e.pattern, pos, d) {
            Outcome::Matched(p, t) => match repeat_outcome(g, toks, rule, e, p, d) {
                Outcome::Matched(q, u) => Outcome::Matched(q, t + u),
                f => f,
            },
            Outcome::Failed(f) => if recoverable(f) && mode == RepeatMode::ZeroOrMore {
                Outcome::Matched(pos, Seq::empty())
            } else {
                Outcome::Failed(f)
            },
        },
        None => if e.is_optional {
            match atom_outcome(g, toks, rule, e.pattern, pos, d) {
                Outcome::Failed(f) => if recoverable(f) {
                    Outcome::Matched(pos, Seq::empty())
                } else {
                    Outcome::Failed(f)
                },
                o => o,
            }
        } else {
            atom_outcome(g, toks, rule, e.pattern, pos, d)
        },
    }
}

/// Whether the separator `sep` stands at the first significant token from `pos`.
pub open spec fn separator_at(toks: Seq<Token>, sep: Seq<char>, pos: nat) -> bool {
    skip_ws(toks, pos) < toks.len() && lexeme(toks[skip_ws(toks, pos) as int]) == Some(sep)
}

/// Further repetitions after one that ended at `pos`: a separator, when there
/// is one, must stand between two repetitions; the first repetition that does
/// not match, or matches without moving on, ends the list at `pos`.
pub open spec fn repeat_outcome(g: ParserDefinition, toks: Seq<Token>, rule: Option<Seq<char>>, e: TokenPattern, pos: nat, d: nat) -> Outcome
    decreases d, 1int, toks.len() - pos,
{
    let start: Option<(nat, Seq<Token>)> = match e.separator {
        Some(sep) => if separator_at(toks, sep@, pos) {
            Some((skip_ws(toks, pos) + 1, seq![toks[skip_ws(toks, pos) as int]]))
        } else {
            None
        },
        None => Some((pos, Seq::empty())),
    };
    match start {
        None => Outcome::Matched(pos, Seq::empty()),
        Some((s, st)) => match atom_outcome(g, toks, rule, e.pattern, s, d) {
            Outcome::Matched(p, t) => if pos < p <= toks.len() {
                match repeat_outcome(g, toks, rule, e, p, d) {
                    Outcome::Matched(q, u) => Outcome::Matched(q, st + t + u),
                    f => f,
                }
            } else {
                Outcome::Matched(pos, Seq::empty())
            },
            Outcome::Failed(f) => if recoverable(f) {
                Outcome::Matched(pos, Seq::empty())
            } else {
                Outcome::Failed(f)
            },
        },
    }
}

/// A single pattern: one token, or a whole rule for a rule reference.
pub open spec fn atom_outcome(g: ParserDefinition, toks: Seq<Token>, rule: Option<Seq<char>>, p: InternalPattern, pos: nat, d: nat) -> Outcome
    decreases d, 0int, 0int,
{
    match p {
        InternalPattern::Named { kind: InternalPatternKind::Custom(name), .. } => match find_rule(
            g.rules@,
            name@,
            0,
        ) {
            None => Outcome::Failed(Failure::UnknownRule(name@)),
            Some(k) => if d == 0 {
                Outcome::Failed(Failure::RecursionLimit(skip_ws(toks, pos)))
            } else {
                body_outcome(g, toks, Some(name@), g.rules@[k].1@, 0, pos, (d - 1) as nat)
            },
        },
        _ => {
            let q = skip_ws(toks, pos);
            if q >= toks.len() {
                Outcome::Failed(Failure::EndOfInput(rule, q, expectation(p)))
            } else if accepts(p, toks[q as int]) {
                Outcome::Matched(q + 1, seq![toks[q as int]])
            } else {
                Outcome::Failed(Failure::TokenMismatch(rule, q, expectation(p)))
            }
        },
    }
}

/// A captured value, as the model sees it.
pub enum ValueModel {
    Leaf(Token),
    List(Seq<ValueModel>),
    Node(Option<Seq<char>>, Seq<(Seq<char>, ValueModel)>),
    Absent,
}

/// The model of a captured value.
pub open spec fn value_view(v: AstValue) -> ValueModel
    decreases v,
{
    match v {
        AstValue::Leaf(t) => ValueModel::Leaf(t),
        AstValue::List(items) => ValueModel::List(
            Seq::new(
                items@.len(),
                |i: int|
                    if 0 <= i < items@.len() {
                        value_view(items@[i])
                    } else {
                        ValueModel::Absent
                    },
            ),
        ),
        AstValue::Node(ast) => ValueModel::Node(
            opt_chars(ast.rule),
            Seq::new(
                ast.fields@.len(),
                |i: int|
                    if 0 <= i < ast.fields@.len() {
                        (ast.fields@[i].0@, value_view(ast.fields@[i].1))
                    } else {
                        (Seq::empty(), ValueModel::Absent)
                    },
            ),
        ),
        AstValue::Absent => ValueModel::Absent,
    }
}

/// The model of a list of captures.
pub open spec fn fields_view(fs: Seq<(String, AstValue)>) -> Seq<(Seq<char>, ValueModel)> {
    Seq::new(fs.len(), |i: int| (fs[i].0@, value_view(fs[i].1)))
}

/// The model of a list of values.
pub open spec fn values_view(vs: Seq<AstValue>) -> Seq<ValueModel> {
    Seq::new(vs.len(), |i: int| value_view(vs[i]))
}

/// Records `v` under `name`, looking from index `i`: the first capture of
/// that name takes the new value in its place; a new name goes last.
pub open spec fn put_from(fields: Seq<(Seq<char>, ValueModel)>, name: Seq<char>, v: ValueModel, i: int) -> Seq<(Seq<char>, ValueModel)>
    decreases fields.len() - i,
{
    if i < 0 || i >= fields.len() {
        fields.push((name, v))
    } else if fields[i].0 == name {
        fields.update(i, (name, v))
    } else {
        put_from(fields, name, v, i + 1)
    }
}

pub open spec fn put(fields: Seq<(Seq<char>, ValueModel)>, name: Seq<char>, v: ValueModel) -> Seq<(Seq<char>, ValueModel)> {
    put_from(fields, name, v, 0)
}

/// Records each capture of `extra` in turn.
pub open spec fn merge(fields: Seq<(Seq<char>, ValueModel)>, extra: Seq<(Seq<char>, ValueModel)>) -> Seq<(Seq<char>, ValueModel)>
    decreases extra.len(),
{
    if extra.len() == 0 {
        fields
    } else {
        merge(put(fields, extra[0].0, extra[0].1), extra.drop_first())
    }
}

/// The capture name of a pattern that yields a value; keywords, symbols and
/// raw lexemes are syntax only.
pub open spec fn binding(p: InternalPattern) -> Option<Seq<char>> {
    match p {
        InternalPattern::Named { name: Some(n), kind } => match kind {
            InternalPatternKind::Keyword(_) => None,
            InternalPatternKind::Symbol(_) => None,
            _ => Some(n@),
        },
        _ => None,
    }
}

/// Records what an element yielded, when it has a capture name.
pub open spec fn bind(acc: Seq<(Seq<char>, ValueModel)>, e: TokenPattern, v: Option<ValueModel>) -> Seq<(Seq<char>, ValueModel)> {
    match (binding(e.pattern), v) {
        (Some(n), Some(x)) => put(acc, n, x),
        _ => acc,
    }
}

pub open spec fn opt_seq(v: Option<ValueModel>) -> Seq<ValueModel> {
    match v {
        Some(x) => seq![x],
        None => Seq::empty(),
    }
}

/// The captures of the patterns `pats[i..]` after `acc`, when they match.
pub open spec fn body_fields(g: ParserDefinition, toks: Seq<Token>, rule: Option<Seq<char>>, pats: Seq<Pattern>, i: int, pos: nat, d: nat, acc: Seq<(Seq<char>, ValueModel)>) -> Seq<(Seq<char>, ValueModel)>
    decreases d, 5int, pats.len() - i,
{
    if i < 0 || i >= pats.len() {
        acc
    } else {
        match pattern_outcome(g, toks, rule, pats[i], pos, d) {
            Outcome::Matched(p, _) => body_fields(g, toks, rule, pats, i + 1, p, d, merge(acc, pattern_fields(g, toks, rule, pats[i], pos, d))),
            Outcome::Failed(_) => acc,
        }
    }
}

/// The captures of the winning alternative.
pub open spec fn pattern_fields(g: ParserDefinition, toks: Seq<Token>, rule: Option<Seq<char>>, p: Pattern, pos: nat, d: nat) -> Seq<(Seq<char>, ValueModel)>
    decreases d, 4int, alt_len(p),
{
    match p {
        Pattern::Token(elems) => seq_fields(g, toks, rule, elems@, 0, pos, d, Seq::empty()),
        Pattern::Alternative { left, right } => if seq_outcome(g, toks, rule, left@, 0, pos, d) is Matched {
            seq_fields(g, toks, rule, left@, 0, pos, d, Seq::empty())
        } else {
            pattern_fields(g, toks, rule, *right, pos, d)
        },
    }
}

/// The captures of the elements `elems[j..]` after `acc`.
pub open spec fn seq_fields(g: ParserDefinition, toks: Seq<Token>, rule: Option<Seq<char>>, elems: Seq<TokenPattern>, j: int, pos: nat, d: nat, acc: Seq<(Seq<char>, ValueModel)>) -> Seq<(Seq<char>, ValueModel)>
    decreases d, 3int, elems.len() - j,
{
    if j < 0 || j >= elems.len() {
        acc
    } else {
        match element_outcome(g, toks, rule, elems[j], pos, d) {
            Outcome::Matched(p, _) => seq_fields(g, toks, rule, elems, j + 1, p, d, bind(acc, elems[j], element_value(g, toks, rule, elems[j], pos, d))),
            Outcome::Failed(_) => acc,
        }
    }
}

/// What an element yields: a list for a repetition, `Absent` for a missing
/// optional, else what its pattern yields.
pub open spec fn element_value(g: ParserDefinition, toks: Seq<Token>, rule: Option<Seq<char>>, e: TokenPattern, pos: nat, d: nat) -> Option<ValueModel>
    decreases d, 2int, 0int,
{
    match e.repeat_mode {
        Some(_) => match atom_outcome(g, toks, rule, e.pattern, pos, d) {
            Outcome::Matched(p, _) => Some(ValueModel::List(
                opt_seq(atom_value(g, toks, rule, e.pattern, pos, d)) + repeat_values(g, toks, rule, e, p, d),
            )),
            Outcome::Failed(_) => Some(ValueModel::List(Seq::empty())),
        },
        None => if e.is_optional && atom_outcome(g, toks, rule, e.pattern, pos, d) is Failed {
            Some(ValueModel::Absent)
        } else {
            atom_value(g, toks, rule, e.pattern, pos, d)
        },
    }
}

/// The values of the further repetitions after one that ended at `pos`.
pub open spec fn repeat_values(g: ParserDefinition, toks: Seq<Token>, rule: Option<Seq<char>>, e: TokenPattern, pos: nat, d: nat) -> Seq<ValueModel>
    decreases d, 1int, toks.len() - pos,
{
    let start: Option<nat> = match e.separator {
        Some(sep) => if separator_at(toks, sep@, pos) {
            Some(skip_ws(toks, pos) + 1)
        } else {
            None
        },
        None => Some(pos),
    };
    match start {
        None => Seq::empty(),
        Some(s) => match atom_outcome(g, toks, rule, e.pattern, s, d) {
            Outcome::Matched(p, _) => if pos < p <= toks.len() {
                opt_seq(atom_value(g, toks, rule, e.pattern, s, d)) + repeat_values(g, toks, rule, e, p, d)
            } else {
                Seq::empty()
            },
            Outcome::Failed(_) => Seq::empty(),
        },
    }
}

/// What a matched pattern yields: the token for a capturing token pattern,
/// a node of the rule's captures for a rule reference.
pub open spec fn atom_value(g: ParserDefinition, toks: Seq<Token>, rule: Option<Seq<char>>, p: InternalPattern, pos: nat, d: nat) -> Option<ValueModel>
    decreases d, 0int, 0int,
{
    match p {
        InternalPattern::Named { kind: InternalPatternKind::Custom(name), .. } => match find_rule(g.rules@, name@, 0) {
            Some(k) => if d > 0 {
                Some(ValueModel::Node(Some(name@), body_fields(g, toks, Some(name@), g.rules@[k].1@, 0, pos, (d - 1) as nat, Seq::empty())))
            } else {
                None
            },
            None => None,
        },
        _ => if binding(p) is Some {
            Some(ValueModel::Leaf(toks[skip_ws(toks, pos) as int]))
        } else {
            None
        },
    }
}

/// A text that names what a pattern expects, in the grammar's own notation.
pub open spec fn expectation(p: InternalPattern) -> Seq<char> {
    match p {
        InternalPattern::Raw { value } => value@,
        InternalPattern::Named { kind, .. } => match kind {
            InternalPatternKind::Ident => "ident"@,
            InternalPatternKind::Int => "int"@,
            InternalPatternKind::Float => "float"@,
            InternalPatternKind::String => "string"@,
            InternalPatternKind::Bool => "bool"@,
            InternalPatternKind::Regex(src) => "s/"@ + src@ + "/"@,
            InternalPatternKind::Keyword(k) => "kw["@ + k@ + "]"@,
            InternalPatternKind::Symbol(k) => "sym["@ + k@ + "]"@,
            InternalPatternKind::Custom(n) => n@,
        },
    }
}

fn describe(p: &InternalPattern) -> (r: String)
    ensures
        r@ == expectation(*p),
{
    match p {
        InternalPattern::Raw { value } => value.clone(),
        InternalPattern::Named { kind, .. } => match kind {
            InternalPatternKind::Ident => String::from_str("ident"),
            InternalPatternKind::Int => String::from_str("int"),
            InternalPatternKind::Float => String::from_str("float"),
            InternalPatternKind::String => String::from_str("string"),
            InternalPatternKind::Bool => String::from_str("bool"),
            InternalPatternKind::Regex(src) => String::from_str("s/").concat(src.as_str()).concat("/"),
            InternalPatternKind::Keyword(k) => String::from_str("kw[").concat(k.as_str()).concat("]"),
            InternalPatternKind::Symbol(k) => String::from_str("sym[").concat(k.as_str()).concat("]"),
            InternalPatternKind::Custom(n) => n.clone(),
        },
    }
}

fn copy_name(rule: &Option<String>) -> (r: Option<String>)
    ensures
        r == *rule,
{
    match rule {
        Some(n) => Some(n.clone()),
        None => None,
    }
}

/// How many rule references a parse may nest unless told otherwise.
pub const DEFAULT_DEPTH: usize = 128;

/// The grammar interpreter: a grammar, a token stream, and a bound on nested
/// rule references.
pub struct Parser {
    definition: ParserDefinition,
    lexer: Vec<Token>,
    depth: usize,
}

fn is_ws(t: &Token) -> (r: bool)
    ensures
        r == (*t is Ws),
{
    match t {
        Token::Ws => true,
        _ => false,
    }
}

fn is_recoverable(e: &ParseError) -> (r: bool)
    ensures
        r == recoverable(e.model()),
{
    match e {
        ParseError::TokenMismatch { .. } => true,
        ParseError::EndOfInput { .. } => true,
        _ => false,
    }
}

fn anchor(src: &String) -> (r: String)
    ensures
        r@ == anchored(src@),
{
    String::from_str("^(?:").concat(src.as_str()).concat(")$")
}

fn lexeme_is(t: &Token, text: &String) -> (r: bool)
    ensures
        r == (lexeme(*t) == Some(text@)),
{
    match t {
        Token::Symbol(s) => *s == *text,
        Token::Ident(s) => *s == *text,
        _ => false,
    }
}

fn token_accepts(p: &InternalPattern, t: &Token) -> (r: bool)
    ensures
        r == accepts(*p, *t),
{
    match p {
        InternalPattern::Raw { value } => lexeme_is(t, value),
        InternalPattern::Named { kind, .. } => match kind {
            InternalPatternKind::Ident => match t {
                Token::Ident(_) => true,
                _ => false,
            },
            InternalPatternKind::Int => match t {
                Token::Integer(_) => true,
                _ => false,
            },
            InternalPatternKind::Float => match t {
                Token::Float(_) => true,
                _ => false,
            },
            InternalPatternKind::String => false,
            InternalPatternKind::Bool => match t {
                Token::True => true,
                Token::False => true,
                _ => false,
            },
            InternalPatternKind::Regex(src) => {
                let text = match t {
                    Token::Symbol(s) => s,
                    Token::Ident(s) => s,
                    _ => {
                        return false;
                    },
                };
                let re = anchor(src);
                match regex_search(re.as_str(), text.as_str()) {
                    Some(b) => b,
                    None => false,
                }
            },
            InternalPatternKind::Keyword(k) => match t {
                Token::Ident(s) => *s == *k,
                _ => false,
            },
            InternalPatternKind::Symbol(k) => match t {
                Token::Symbol(s) => *s == *k,
                _ => false,
            },
            InternalPatternKind::Custom(_) => false,
        },
    }
}

/// The capture name of a pattern that yields a value; keywords, symbols and
/// raw lexemes are syntax only.
fn binding_name(p: &InternalPattern) -> (r: Option<String>)
    ensures
        opt_chars(r) == binding(*p),
{
    match p {
        InternalPattern::Named { name: Some(n), kind } => match kind {
            InternalPatternKind::Keyword(_) => None,
            InternalPatternKind::Symbol(_) => None,
            _ => Some(n.clone()),
        },
        _ => None,
    }
}

/// The model of an optional captured value.
pub open spec fn opt_value_view(v: Option<AstValue>) -> Option<ValueModel> {
    match v {
        Some(x) => Some(value_view(x)),
        None => None,
    }
}

fn copy_token(t: &Token) -> (r: Token)
    ensures
        r == *t,
{
    match t {
        Token::Ws => Token::Ws,
        Token::True => Token::True,
        Token::False => Token::False,
        Token::Symbol(s) => Token::Symbol(s.clone()),
        Token::Ident(s) => Token::Ident(s.clone()),
        Token::Float(s) => Token::Float(s.clone()),
        Token::Integer(i) => Token::Integer(*i),
    }
}

proof fn lemma_node_view(ast: Ast)
    ensures
        value_view(AstValue::Node(ast)) == ValueModel::Node(opt_chars(ast.rule), fields_view(ast.fields@)),
{
    assert(value_view(AstValue::Node(ast))->Node_1 =~= fields_view(ast.fields@));
}

proof fn lemma_list_view(items: Vec<AstValue>)
    ensures
        value_view(AstValue::List(items)) == ValueModel::List(values_view(items@)),
{
    assert(value_view(AstValue::List(items))->List_0 =~= values_view(items@));
}

/// The names of a list of captures.
pub open spec fn field_names(fields: Seq<(String, AstValue)>) -> Seq<Seq<char>> {
    fields.map_values(|f: (String, AstValue)| f.0@)
}

/// Records a capture: a name already present keeps its place and takes the
/// new value; a new name goes last.
fn set_field(fields: &mut Vec<(String, AstValue)>, name: String, value: AstValue)
    ensures
        fields_view(final(fields)@) == put(fields_view(old(fields)@), name@, value_view(value)),
{
    let ghost vv = value_view(value);
    let ghost target = put(fields_view(fields@), name@, vv);
    let mut i: usize = 0;
    while i < fields.len()
        invariant
            i <= fields@.len(),
            fields@ == old(fields)@,
            vv == value_view(value),
            target == put(fields_view(old(fields)@), name@, vv),
            target == put_from(fields_view(fields@), name@, vv, i as int),
        decreases fields@.len() - i,
    {
        if fields[i].0 == name {
            let ghost before = fields@;
            assert(fields_view(before)[i as int].0 == name@);
            fields.set(i, (name, value));
            assert(fields_view(fields@) =~= fields_view(before).update(i as int, (name@, vv)));
            return;
        }
        i += 1;
    }
    fields.push((name, value));
    assert(fields_view(fields@) =~= fields_view(old(fields)@).push((name@, vv)));
}

impl Ast {
    /// The value captured under `name`, if any.
    pub fn get(&self, name: &str) -> (r: Option<&AstValue>)
        ensures
            r is None <==> !field_names(self.fields@).contains(name@),
            r matches Some(v) ==> exists|i: int|
                0 <= i < self.fields@.len() && self.fields@[i].0@ == name@ && &self.fields@[i].1 == v,
    {
        let key = String::from_str(name);
        let mut i: usize = 0;
        while i < self.fields.len()
            invariant
                i <= self.fields@.len(),
                key@ == name@,
                forall|j: int| 0 <= j < i ==> field_names(self.fields@)[j] != name@,
            decreases self.fields@.len() - i,
        {
            if self.fields[i].0 == key {
                assert(field_names(self.fields@)[i as int] == name@);
                return Some(&self.fields[i].1);
            }
            i += 1;
        }
        proof {
            assert forall|j: int| 0 <= j < field_names(self.fields@).len() implies field_names(
                self.fields@,
            )[j] != name@ by {}
        }
        None
    }
}

impl Parser {
    /// The grammar this parser interprets.
    pub closed spec fn grammar(&self) -> ParserDefinition {
        self.definition
    }

    /// The token stream, whitespace included.
    pub closed spec fn tokens(&self) -> Seq<Token> {
        self.lexer@
    }

    /// How many rule references may nest.
    pub closed spec fn max_depth(&self) -> nat {
        self.depth as nat
    }

    /// What parsing the entry patterns from `start` gives in the model.
    pub open spec fn entry_outcome(&self, start: nat) -> Outcome {
        body_outcome(self.grammar(), self.tokens(), None, self.grammar().entry@, 0, start, self.max_depth())
    }

    /// The captures that a successful parse of the entry patterns from
    /// `start` records, in first-write order.
    pub open spec fn entry_fields(&self, start: nat) -> Seq<(Seq<char>, ValueModel)> {
        body_fields(self.grammar(), self.tokens(), None, self.grammar().entry@, 0, start, self.max_depth(), Seq::empty())
    }

    pub fn new(definition: ParserDefinition, lexer: Vec<Token>) -> (r: Self)
        ensures
            r.grammar() == definition,
            r.tokens() == lexer@,
            r.max_depth() == DEFAULT_DEPTH,
    {
        Parser { definition, lexer, depth: DEFAULT_DEPTH }
    }

    /// A parser that allows at most `depth` nested rule references.
    pub fn with_max_depth(definition: ParserDefinition, lexer: Vec<Token>, depth: usize) -> (r: Self)
        ensures
            r.grammar() == definition,
            r.tokens() == lexer@,
            r.max_depth() == depth,
    {
        Parser { definition, lexer, depth }
    }

    fn skip(&self, pos: usize) -> (r: usize)
        ensures
            r == skip_ws(self.tokens(), pos as nat),
    {
        let mut i = pos;
        while i < self.lexer.len() && is_ws(&self.lexer[i])
            invariant
                skip_ws(self.tokens(), pos as nat) == skip_ws(self.tokens(), i as nat),
            decreases self.lexer@.len() - i,
        {
            i += 1;
        }
        i
    }

    fn find(&self, name: &String) -> (r: Option<usize>)
        ensures
            match r {
                Some(k) => find_rule(self.grammar().rules@, name@, 0) == Some(k as int) && k
                    < self.grammar().rules@.len(),
                None => find_rule(self.grammar().rules@, name@, 0) is None,
            },
    {
        let mut i: usize = 0;
        while i < self.definition.rules.len()
            invariant
                i <= self.definition.rules@.len(),
                find_rule(self.grammar().rules@, name@, 0) == find_rule(
                    self.grammar().rules@,
                    name@,
                    i as int,
                ),
            decreases self.definition.rules@.len() - i,
        {
            if self.definition.rules[i].0 == *name {
                return Some(i);
            }
            i += 1;
        }
        None
    }

    fn parse_atom(&self, p: &InternalPattern, pos: usize, d: usize, rule: &Option<String>) -> (r: Result<
        (usize, Option<AstValue>),
        ParseError,
    >)
        ensures
            agrees(r, atom_outcome(self.grammar(), self.tokens(), opt_chars(*rule), *p, pos as nat, d as nat)),
            r matches Ok((_, v)) ==> opt_value_view(v) == atom_value(self.grammar(), self.tokens(), opt_chars(*rule), *p, pos as nat, d as nat),
        decreases d, 0int, 0int,
    {
        match p {
            InternalPattern::Named { kind: InternalPatternKind::Custom(name), .. } => {
                match self.find(name) {
                    None => Err(ParseError::UnknownRule { name: name.clone() }),
                    Some(k) => {
                        if d == 0 {
                            Err(ParseError::RecursionLimit { index: self.skip(pos) })
                        } else {
                            let pats = &self.definition.rules[k].1;
                            match self.parse_body(pats, pos, d - 1, &Some(name.clone())) {
                                Ok((end, fields)) => {
                                    let ast = Ast { rule: Some(name.clone()), fields };
                                    proof {
                                        lemma_node_view(ast);
                                    }
                                    Ok((end, Some(AstValue::Node(ast))))
                                },
                                Err(e) => Err(e),
                            }
                        }
                    },
                }
            },
            _ => {
                let q = self.skip(pos);
                if q >= self.lexer.len() {
                    Err(ParseError::EndOfInput { rule: copy_name(rule), index: q, expected: describe(p) })
                } else if token_accepts(p, &self.lexer[q]) {
                    let v = match binding_name(p) {
                        Some(_) => Some(AstValue::Leaf(copy_token(&self.lexer[q]))),
                        None => None,
                    };
                    Ok((q + 1, v))
                } else {
                    Err(ParseError::TokenMismatch { rule: copy_name(rule), index: q, expected: describe(p) })
                }
            },
        }
    }

    fn separator_here(&self, sep: &String, pos: usize) -> (r: Option<usize>)
        ensures
            r == (if separator_at(self.tokens(), sep@, pos as nat) {
                Some((skip_ws(self.tokens(), pos as nat) + 1) as usize)
            } else {
                None
            }),
    {
        let q = self.skip(pos);
        if q < self.lexer.len() && lexeme_is(&self.lexer[q], sep) {
            Some(q + 1)
        } else {
            None
        }
    }

    fn parse_element(&self, e: &TokenPattern, pos: usize, d: usize, rule: &Option<String>) -> (r: Result<
        (usize, Option<AstValue>),
        ParseError,
    >)
        ensures
            agrees(r, element_outcome(self.grammar(), self.tokens(), opt_chars(*rule), *e, pos as nat, d as nat)),
            r matches Ok((_, v)) ==> opt_value_view(v) == element_value(self.grammar(), self.tokens(), opt_chars(*rule), *e, pos as nat, d as nat),
        decreases d, 2int, 0int,
    {
        let ghost g = self.grammar();
        let ghost toks = self.tokens();
        let ghost rl = opt_chars(*rule);
        match e.repeat_mode {
            Some(mode) => {
                match self.parse_atom(&e.pattern, pos, d, rule) {
                    Err(err) => {
                        if is_recoverable(&err) && mode == RepeatMode::ZeroOrMore {
                            let empty: Vec<AstValue> = Vec::new();
                            proof {
                                lemma_list_view(empty);
                                assert(values_view(empty@) =~= Seq::<ValueModel>::empty());
                            }
                            Ok((pos, Some(AstValue::List(empty))))
                        } else {
                            Err(err)
                        }
                    },
                    Ok((first, v)) => {
                        let ghost total = opt_seq(atom_value(g, toks, rl, e.pattern, pos as nat, d as nat))
                            + repeat_values(g, toks, rl, *e, first as nat, d as nat);
                        let mut values: Vec<AstValue> = Vec::new();
                        match v {
                            Some(x) => values.push(x),
                            None => {},
                        }
                        assert(values_view(values@) + repeat_values(g, toks, rl, *e, first as nat, d as nat) =~= total);
                        let len = self.lexer.len();
                        let mut cur = first;
                        loop
                            invariant
                                len == toks.len(),
                                rl == opt_chars(*rule),
                                g == self.grammar(),
                                toks == self.tokens(),
                                element_outcome(g, toks, rl, *e, pos as nat, d as nat) is Matched
                                    <==> repeat_outcome(g, toks, rl, *e, cur as nat, d as nat) is Matched,
                                repeat_outcome(g, toks, rl, *e, cur as nat, d as nat) is Failed ==> element_outcome(g, toks, rl, *e, pos as nat, d as nat) == repeat_outcome(g, toks, rl, *e, cur as nat, d as nat),
                                repeat_outcome(g, toks, rl, *e, cur as nat, d as nat) matches Outcome::Matched(q, _) ==> element_outcome(g, toks, rl, *e, pos as nat, d as nat) matches Outcome::Matched(q2, _) && q == q2,
                                values_view(values@) + repeat_values(g, toks, rl, *e, cur as nat, d as nat) == total,
                            ensures
                                element_outcome(g, toks, rl, *e, pos as nat, d as nat) matches Outcome::Matched(q, _) && q == cur as nat,
                                values_view(values@) == total,
                            decreases (if cur <= len { len - cur } else { len + 1 }),
                        {
                            let start = match &e.separator {
                                Some(sep) => self.separator_here(sep, cur),
                                None => Some(cur),
                            };
                            match start {
                                None => {
                                    assert(values_view(values@) =~= total);
                                    break ;
                                },
                                Some(s) => match self.parse_atom(&e.pattern, s, d, rule) {
                                    Ok((p, v)) => {
                                        if cur < p && p <= len {
                                            let ghost before = values_view(values@);
                                            match v {
                                                Some(x) => values.push(x),
                                                None => {},
                                            }
                                            assert(values_view(values@) =~= before + opt_seq(opt_value_view(v)));
                                            cur = p;
                                        } else {
                                            assert(values_view(values@) =~= total);
                                            break ;
                                        }
                                    },
                                    Err(err) => {
                                        if is_recoverable(&err) {
                                            assert(values_view(values@) =~= total);
                                            break ;
                                        } else {
                                            return Err(err);
                                        }
                                    },
                                },
                            }
                        }
                        proof {
                            lemma_list_view(values);
                        }
                        Ok((cur, Some(AstValue::List(values))))
                    },
                }
            },
            None => {
                if e.is_optional {
                    match self.parse_atom(&e.pattern, pos, d, rule) {
                        Ok(x) => Ok(x),
                        Err(err) => {
                            if is_recoverable(&err) {
                                Ok((pos, Some(AstValue::Absent)))
                            } else {
                                Err(err)
                            }
                        },
                    }
                } else {
                    self.parse_atom(&e.pattern, pos, d, rule)
                }
            },
        }
    }

    fn parse_sequence(&self, elems: &Vec<TokenPattern>, pos: usize, d: usize, rule: &Option<String>) -> (r: Result<
        (usize, Vec<(String, AstValue)>),
        ParseError,
    >)
        ensures
            agrees(r, seq_outcome(self.grammar(), self.tokens(), opt_chars(*rule), elems@, 0, pos as nat, d as nat)),
            r matches Ok((_, fs)) ==> fields_view(fs@) == seq_fields(self.grammar(), self.tokens(), opt_chars(*rule), elems@, 0, pos as nat, d as nat, Seq::empty()),
        decreases d, 3int, 0int,
    {
        let mut fields: Vec<(String, AstValue)> = Vec::new();
        assert(fields_view(fields@) =~= Seq::empty());
        let mut cur = pos;
        let mut j: usize = 0;
        while j < elems.len()
            invariant
                j <= elems@.len(),
                same_end(seq_outcome(self.grammar(), self.tokens(), opt_chars(*rule), elems@, 0, pos as nat, d as nat),
                    seq_outcome(self.grammar(), self.tokens(), opt_chars(*rule), elems@, j as int, cur as nat, d as nat)),
                seq_fields(self.grammar(), self.tokens(), opt_chars(*rule), elems@, 0, pos as nat, d as nat, Seq::empty())
                    == seq_fields(self.grammar(), self.tokens(), opt_chars(*rule), elems@, j as int, cur as nat, d as nat, fields_view(fields@)),
            decreases elems@.len() - j,
        {
            match self.parse_element(&elems[j], cur, d, rule) {
                Ok((p, v)) => {
                    match (binding_name(&elems[j].pattern), v) {
                        (Some(n), Some(x)) => set_field(&mut fields, n, x),
                        _ => {},
                    }
                    cur = p;
                },
                Err(e) => {
                    return Err(e);
                },
            }
            j += 1;
        }
        Ok((cur, fields))
    }

    fn parse_pattern(&self, p: &Pattern, pos: usize, d: usize, rule: &Option<String>) -> (r: Result<
        (usize, Vec<(String, AstValue)>),
        ParseError,
    >)
        ensures
            agrees(r, pattern_outcome(self.grammar(), self.tokens(), opt_chars(*rule), *p, pos as nat, d as nat)),
            r matches Ok((_, fs)) ==> fields_view(fs@) == pattern_fields(self.grammar(), self.tokens(), opt_chars(*rule), *p, pos as nat, d as nat),
        decreases d, 4int, alt_len(*p),
    {
        match p {
            Pattern::Token(elems) => self.parse_sequence(elems, pos, d, rule),
            Pattern::Alternative { left, right } => match self.parse_sequence(left, pos, d, rule) {
                Ok(x) => Ok(x),
                Err(e) => {
                    if is_recoverable(&e) {
                        self.parse_pattern(right, pos, d, rule)
                    } else {
                        Err(e)
                    }
                },
            },
        }
    }

    fn parse_body(&self, pats: &Vec<Pattern>, pos: usize, d: usize, rule: &Option<String>) -> (r: Result<
        (usize, Vec<(String, AstValue)>),
        ParseError,
    >)
        ensures
            agrees(r, body_outcome(self.grammar(), self.tokens(), opt_chars(*rule), pats@, 0, pos as nat, d as nat)),
            r matches Ok((_, fs)) ==> fields_view(fs@) == body_fields(self.grammar(), self.tokens(), opt_chars(*rule), pats@, 0, pos as nat, d as nat, Seq::empty()),
        decreases d, 5int, 0int,
    {
        let mut fields: Vec<(String, AstValue)> = Vec::new();
        assert(fields_view(fields@) =~= Seq::empty());
        let mut cur = pos;
        let mut i: usize = 0;
        while i < pats.len()
            invariant
                i <= pats@.len(),
                same_end(body_outcome(self.grammar(), self.tokens(), opt_chars(*rule), pats@, 0, pos as nat, d as nat),
                    body_outcome(self.grammar(), self.tokens(), opt_chars(*rule), pats@, i as int, cur as nat, d as nat)),
                body_fields(self.grammar(), self.tokens(), opt_chars(*rule), pats@, 0, pos as nat, d as nat, Seq::empty())
                    == body_fields(self.grammar(), self.tokens(), opt_chars(*rule), pats@, i as int, cur as nat, d as nat, fields_view(fields@)),
            decreases pats@.len() - i,
        {
            match self.parse_pattern(&pats[i], cur, d, rule) {
                Ok((p, mut found)) => {
                    let ghost target = merge(fields_view(fields@), fields_view(found@));
                    while found.len() > 0
                        invariant
                            merge(fields_view(fields@), fields_view(found@)) == target,
                        decreases found@.len(),
                    {
                        let ghost rest = found@;
                        let (n, v) = found.remove(0);
                        assert(fields_view(found@) =~= fields_view(rest).drop_first());
                        assert(fields_view(rest)[0] == (n@, value_view(v)));
                        set_field(&mut fields, n, v);
                    }
                    assert(merge(fields_view(fields@), fields_view(found@)) == fields_view(fields@));
                    cur = p;
                },
                Err(e) => {
                    return Err(e);
                },
            }
            i += 1;
        }
        Ok((cur, fields))
    }

    /// Parses the entry patterns from token position `start`; gives the tree
    /// and the position after the match.
    pub fn parse_from(&self, start: usize) -> (r: Result<(Ast, usize), ParseError>)
        ensures
            match r {
                Ok((ast, end)) => self.entry_outcome(start as nat) matches Outcome::Matched(e, _) && e
                    == end as nat && ast.rule is None && fields_view(ast.fields@) == self.entry_fields(start as nat),
                Err(e) => self.entry_outcome(start as nat) == Outcome::Failed(e.model()),
            },
    {
        match self.parse_body(&self.definition.entry, start, self.depth, &None) {
            Ok((end, fields)) => Ok((Ast { rule: None, fields }, end)),
            Err(e) => Err(e),
        }
    }

    /// Parses the entry patterns from the start of the token stream.
    pub fn parse(&self) -> (r: Result<Ast, ParseError>)
        ensures
            r is Ok <==> self.entry_outcome(0) is Matched,
            r matches Err(e) ==> self.entry_outcome(0) == Outcome::Failed(e.model()),
            r matches Ok(ast) ==> ast.rule is None && fields_view(ast.fields@) == self.entry_fields(0),
    {
        match self.parse_from(0) {
            Ok((ast, _)) => Ok(ast),
            Err(e) => Err(e),
        }
    }
}

} // verus!
