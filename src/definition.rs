use vstd::prelude::*;
use crate::regex_match::{regex_search, regex_verdict};

verus! {

/// Why a grammar definition could not be built.
#[derive(Debug)]
pub enum DefinitionParseError {
    Unknown,
    MissingMainRule,
    InvalidRegex(String),
    InvalidRepeatMode(String),
    InvalidChar(char),
}

/// What a named element tests a token against.
#[derive(Debug, Clone)]
pub enum InternalPatternKind {
    Ident,
    Int,
    Float,
    String,
    Bool,
    /// The source text of a regular expression that must match a whole lexeme.
    Regex(String),
    Keyword(String),
    /// A reference to another rule, by name.
    Custom(String),
    Symbol(String),
}

/// One matchable unit: a typed matcher with an optional capture name, or a
/// literal lexeme.
#[derive(Debug, Clone)]
pub enum InternalPattern {
    Named { name: Option<String>, kind: InternalPatternKind },
    Raw { value: String },
}

pub fn ident(name: Option<String>) -> (r: InternalPattern)
    ensures
        r == (InternalPattern::Named { name, kind: InternalPatternKind::Ident }),
{
    InternalPattern::Named { name, kind: InternalPatternKind::Ident }
}

pub fn integer(name: Option<String>) -> (r: InternalPattern)
    ensures
        r == (InternalPattern::Named { name, kind: InternalPatternKind::Int }),
{
    InternalPattern::Named { name, kind: InternalPatternKind::Int }
}

pub fn float(name: Option<String>) -> (r: InternalPattern)
    ensures
        r == (InternalPattern::Named { name, kind: InternalPatternKind::Float }),
{
    InternalPattern::Named { name, kind: InternalPatternKind::Float }
}

pub fn string(name: Option<String>) -> (r: InternalPattern)
    ensures
        r == (InternalPattern::Named { name, kind: InternalPatternKind::String }),
{
    InternalPattern::Named { name, kind: InternalPatternKind::String }
}

pub fn bool(name: Option<String>) -> (r: InternalPattern)
    ensures
        r == (InternalPattern::Named { name, kind: InternalPatternKind::Bool }),
{
    InternalPattern::Named { name, kind: InternalPatternKind::Bool }
}

/// A regex matcher; refused when `value` does not compile as a regular expression.
pub fn regex(name: Option<String>, value: &str) -> (r: Result<InternalPattern, DefinitionParseError>)
    ensures
        regex_verdict(value@, Seq::empty()) is None ==> (r matches Err(
            DefinitionParseError::InvalidRegex(s),
        ) && s@ == value@),
        regex_verdict(value@, Seq::empty()) is Some ==> (r matches Ok(
            InternalPattern::Named { name: n, kind: InternalPatternKind::Regex(s) },
        ) && n == name && s@ == value@),
{
    let source = String::from_str(value);
    proof {
        reveal_strlit("");
        assert(""@ =~= Seq::<char>::empty());
    }
    match regex_search(value, "") {
        Some(_) => Ok(InternalPattern::Named { name, kind: InternalPatternKind::Regex(source) }),
        None => Err(DefinitionParseError::InvalidRegex(source)),
    }
}

pub fn raw(value: &str) -> (r: InternalPattern)
    ensures
        r matches InternalPattern::Raw { value: v } && v@ == value@,
{
    InternalPattern::Raw { value: String::from_str(value) }
}

pub fn keyword(name: Option<String>, value: &str) -> (r: InternalPattern)
    ensures
        r matches InternalPattern::Named { name: n, kind: InternalPatternKind::Keyword(v) } && n
            == name && v@ == value@,
{
    InternalPattern::Named { name, kind: InternalPatternKind::Keyword(String::from_str(value)) }
}

pub fn symbol(name: Option<String>, value: &str) -> (r: InternalPattern)
    ensures
        r matches InternalPattern::Named { name: n, kind: InternalPatternKind::Symbol(v) } && n
            == name && v@ == value@,
{
    InternalPattern::Named { name, kind: InternalPatternKind::Symbol(String::from_str(value)) }
}

pub fn custom(name: Option<String>, value: &str) -> (r: InternalPattern)
    ensures
        r matches InternalPattern::Named { name: n, kind: InternalPatternKind::Custom(v) } && n
            == name && v@ == value@,
{
    InternalPattern::Named { name, kind: InternalPatternKind::Custom(String::from_str(value)) }
}

#[derive(Debug, Clone, Copy, PartialEq, Eq, Structural)]
pub enum RepeatMode {
    ZeroOrMore,
    OneOrMore,
}

/// An element of a sequence: a pattern with its multiplicity and, for a
/// repetition, an optional separator lexeme.
#[derive(Debug, Clone)]
pub struct TokenPattern {
    pub pattern: InternalPattern,
    pub is_optional: bool,
    pub repeat_mode: Option<RepeatMode>,
    pub separator: Option<String>,
}

pub fn optional(pattern: InternalPattern) -> (r: Result<TokenPattern, DefinitionParseError>)
    ensures
        r == Ok::<TokenPattern, DefinitionParseError>(
            TokenPattern { pattern, is_optional: true, repeat_mode: None, separator: None },
        ),
{
    Ok(TokenPattern { pattern, is_optional: true, repeat_mode: None, separator: None })
}

pub fn repeated(pattern: InternalPattern, repeat_mode: RepeatMode) -> (r: Result<
    TokenPattern,
    DefinitionParseError,
>)
    ensures
        r == Ok::<TokenPattern, DefinitionParseError>(
            TokenPattern {
                pattern,
                is_optional: false,
                repeat_mode: Some(repeat_mode),
                separator: None,
            },
        ),
{
    Ok(TokenPattern { pattern, is_optional: false, repeat_mode: Some(repeat_mode), separator: None })
}

pub fn separated(pattern: InternalPattern, repeat_mode: RepeatMode, separator: String) -> (r:
    Result<TokenPattern, DefinitionParseError>)
    ensures
        r == Ok::<TokenPattern, DefinitionParseError>(
            TokenPattern {
                pattern,
                is_optional: false,
                repeat_mode: Some(repeat_mode),
                separator: Some(separator),
            },
        ),
{
    Ok(
        TokenPattern {
            pattern,
            is_optional: false,
            repeat_mode: Some(repeat_mode),
            separator: Some(separator),
        },
    )
}

pub fn rw(pattern: InternalPattern) -> (r: Result<TokenPattern, DefinitionParseError>)
    ensures
        r == Ok::<TokenPattern, DefinitionParseError>(
            TokenPattern { pattern, is_optional: false, repeat_mode: None, separator: None },
        ),
{
    Ok(TokenPattern { pattern, is_optional: false, repeat_mode: None, separator: None })
}

/// One rule-body alternative: a plain sequence, or an ordered choice between a
/// sequence and a further pattern.
#[derive(Debug)]
pub enum Pattern {
    Alternative { left: Vec<TokenPattern>, right: Box<Pattern> },
    Token(Vec<TokenPattern>),
}

pub fn alternative(left: Vec<TokenPattern>, right: Pattern) -> (r: Result<
    Pattern,
    DefinitionParseError,
>)
    ensures
        r matches Ok(Pattern::Alternative { left: l, right: rt }) && l@ == left@ && *rt == right,
{
    Ok(Pattern::Alternative { left, right: Box::new(right) })
}

pub fn token(left: Vec<TokenPattern>) -> (r: Result<Pattern, DefinitionParseError>)
    ensures
        r matches Ok(Pattern::Token(l)) && l@ == left@,
{
    Ok(Pattern::Token(left))
}

/// Collects the successes of a list of results, or hands back the first error.
pub fn unpack<T>(value: Vec<Result<T, DefinitionParseError>>) -> (r: Result<Vec<T>, DefinitionParseError>)
    ensures
        (forall|i: int| 0 <= i < value@.len() ==> value@[i] is Ok) <==> r is Ok,
        r matches Ok(out) ==> out@.len() == value@.len() && forall|i: int|
            0 <= i < value@.len() ==> value@[i] == Ok::<T, DefinitionParseError>(#[trigger] out@[i]),
        r matches Err(e) ==> exists|i: int|
            0 <= i < value@.len() && value@[i] == Err::<T, DefinitionParseError>(e) && forall|j: int|
                0 <= j < i ==> (#[trigger] value@[j]) is Ok,
{
    let ghost orig = value@;
    let mut rest = value;
    let mut out: Vec<T> = Vec::new();
    while rest.len() > 0
        invariant
            orig == value@,
            out@.len() + rest@.len() == orig.len(),
            rest@ == orig.subrange(out@.len() as int, orig.len() as int),
            forall|i: int| 0 <= i < out@.len() ==> orig[i] == Ok::<T, DefinitionParseError>(#[trigger] out@[i]),
        decreases rest@.len(),
    {
        let ghost k = out@.len() as int;
        assert(rest@[0] == orig[k]);
        let item = rest.remove(0);
        assert(rest@ == orig.subrange(k + 1, orig.len() as int));
        match item {
            Ok(x) => {
                out.push(x);
            },
            Err(e) => {
                assert(forall|j: int| 0 <= j < k ==> orig[j] == Ok::<T, DefinitionParseError>(out@[j]));
                assert(orig[k] == Err::<T, DefinitionParseError>(e));
                assert(!(orig[k] is Ok));
                assert(forall|j: int| 0 <= j < k ==> (#[trigger] orig[j]) is Ok);
                assert(0 <= k < orig.len() && orig[k] == Err::<T, DefinitionParseError>(e) && forall|j: int|
                    0 <= j < k ==> (#[trigger] orig[j]) is Ok);
                return Err(e);
            },
        }
    }
    assert(forall|i: int| 0 <= i < orig.len() ==> orig[i] == Ok::<T, DefinitionParseError>(out@[i]));
    assert(forall|i: int| 0 <= i < orig.len() ==> (#[trigger] orig[i]) is Ok);
    Ok(out)
}

/// What a repetition suffix asks for: whether the element is optional, its
/// repetition mode, and its separator; `None` for a suffix that is not one of
/// `?`, `*`, `+`, `**sep`, `++sep`.
pub open spec fn suffix_shape(s: Seq<char>) -> Option<(bool, Option<RepeatMode>, Option<Seq<char>>)> {
    if s.len() >= 2 && s[0] == '*' && s[1] == '*' {
        Some((false, Some(RepeatMode::ZeroOrMore), Some(s.subrange(2, s.len() as int))))
    } else if s.len() >= 2 && s[0] == '+' && s[1] == '+' {
        Some((false, Some(RepeatMode::OneOrMore), Some(s.subrange(2, s.len() as int))))
    } else if s =~= seq!['?'] {
        Some((true, None, None))
    } else if s =~= seq!['*'] {
        Some((false, Some(RepeatMode::ZeroOrMore), None))
    } else if s =~= seq!['+'] {
        Some((false, Some(RepeatMode::OneOrMore), None))
    } else {
        None
    }
}

/// The view of an optional string.
pub open spec fn opt_chars(o: Option<String>) -> Option<Seq<char>> {
    match o {
        Some(x) => Some(x@),
        None => None,
    }
}

/// Reads a repetition suffix: `?`, `*`, `+`, or `**`/`++` followed by a
/// separator; no suffix at all makes a plain element.
pub fn with_repeat_mode(pat: InternalPattern, re: Option<String>) -> (r: Result<
    TokenPattern,
    DefinitionParseError,
>)
    ensures
        re is None ==> r == Ok::<TokenPattern, DefinitionParseError>(
            TokenPattern { pattern: pat, is_optional: false, repeat_mode: None, separator: None },
        ),
        re matches Some(s) ==> match suffix_shape(s@) {
            Some((o, m, sep)) => r matches Ok(tp) && tp.pattern == pat && tp.is_optional == o
                && tp.repeat_mode == m && opt_chars(tp.separator) == sep,
            None => r matches Err(DefinitionParseError::InvalidRepeatMode(t)) && t@ == s@,
        },
{
    match re {
        None => rw(pat),
        Some(s) => {
            let n = s.as_str().unicode_len();
            if n >= 2 && s.as_str().get_char(0) == '*' && s.as_str().get_char(1) == '*' {
                let rest = String::from_str(s.as_str().substring_char(2, n));
                separated(pat, RepeatMode::ZeroOrMore, rest)
            } else if n >= 2 && s.as_str().get_char(0) == '+' && s.as_str().get_char(1) == '+' {
                let rest = String::from_str(s.as_str().substring_char(2, n));
                separated(pat, RepeatMode::OneOrMore, rest)
            } else if n == 1 && s.as_str().get_char(0) == '?' {
                optional(pat)
            } else if n == 1 && s.as_str().get_char(0) == '*' {
                repeated(pat, RepeatMode::ZeroOrMore)
            } else if n == 1 && s.as_str().get_char(0) == '+' {
                repeated(pat, RepeatMode::OneOrMore)
            } else {
                proof {
                    assert(!(s@ =~= seq!['?']) && !(s@ =~= seq!['*']) && !(s@ =~= seq!['+']));
                }
                Err(DefinitionParseError::InvalidRepeatMode(s))
            }
        },
    }
}

/// A constant value declared by a grammar.
#[derive(Debug)]
pub enum Value {
    Char(char),
    String(String),
    Int(String),
    Float(String),
    Bool(bool),
    List(Vec<Value>),
}

/// A named constant of a grammar.
#[derive(Debug)]
pub struct Define {
    pub name: String,
    pub value: Value,
}

/// One top-level item of a grammar text: a rule or a constant.
#[derive(Debug)]
pub enum RuleOrDefine {
    Rule { name: String, pattern: Vec<Pattern> },
    Define(Define),
}

/// A grammar: its entry patterns, its named rules (in a table whose names
/// are unique), and its constants.
#[derive(Debug)]
pub struct ParserDefinition {
    pub entry: Vec<Pattern>,
    pub rules: Vec<(String, Vec<Pattern>)>,
    pub defines: Vec<Define>,
}

/// The patterns of the last rule named `name` among `items`.
pub open spec fn last_rule(items: Seq<RuleOrDefine>, name: Seq<char>) -> Option<Seq<Pattern>>
    decreases items.len(),
{
    if items.len() == 0 {
        None
    } else {
        match items.last() {
            RuleOrDefine::Rule { name: n, pattern } => if n@ == name {
                Some(pattern@)
            } else {
                last_rule(items.drop_last(), name)
            },
            RuleOrDefine::Define(_) => last_rule(items.drop_last(), name),
        }
    }
}

/// The constants among `items`, in order.
pub open spec fn defines_of(items: Seq<RuleOrDefine>) -> Seq<Define>
    decreases items.len(),
{
    if items.len() == 0 {
        Seq::empty()
    } else {
        match items.last() {
            RuleOrDefine::Define(d) => defines_of(items.drop_last()).push(d),
            RuleOrDefine::Rule { .. } => defines_of(items.drop_last()),
        }
    }
}

/// The name of the entry rule.
pub open spec fn main_name() -> Seq<char> {
    "Main"@
}

impl ParserDefinition {
    /// The rule table's names are pairwise distinct.
    pub open spec fn names_unique(&self) -> bool {
        forall|i: int, j: int|
            0 <= i < j < self.rules@.len() ==> self.rules@[i].0@ != self.rules@[j].0@
    }

    /// Builds a grammar from its items: a later rule replaces an earlier one of
    /// the same name, the rule `Main` becomes the entry, and the constants keep
    /// their order. Without a rule `Main` the grammar is refused.
    pub fn from_items(items: Vec<RuleOrDefine>) -> (r: Result<ParserDefinition, DefinitionParseError>)
        ensures
            last_rule(items@, main_name()) is None <==> r matches Err(
                DefinitionParseError::MissingMainRule,
            ),
            r matches Ok(def) ==> {
                &&& last_rule(items@, main_name()) == Some(def.entry@)
                &&& def.names_unique()
                &&& def.defines@ == defines_of(items@)
                &&& forall|k: int| 0 <= k < def.rules@.len() ==> def.rules@[k].0@ != main_name()
                    && last_rule(items@, def.rules@[k].0@) == Some(def.rules@[k].1@)
                &&& forall|n: Seq<char>| n != main_name() && #[trigger] last_rule(items@, n) is Some
                    ==> exists|k: int| 0 <= k < def.rules@.len() && def.rules@[k].0@ == n
            },
            r is Err ==> r matches Err(DefinitionParseError::MissingMainRule),
    {
        let ghost all = items@;
        let main = String::from_str("Main");
        let mut rest = items;
        let mut rules: Vec<(String, Vec<Pattern>)> = Vec::new();
        let mut defines: Vec<Define> = Vec::new();
        let mut entry: Option<Vec<Pattern>> = None;
        let mut done: usize = 0;
        let total = rest.len();
        while rest.len() > 0
            invariant
                all == items@,
                all.len() == total,
                main@ == main_name(),
                done + rest@.len() == all.len(),
                rest@ == all.subrange(done as int, all.len() as int),
                defines@ == defines_of(all.subrange(0, done as int)),
                match entry {
                    Some(e) => last_rule(all.subrange(0, done as int), main_name()) == Some(e@),
                    None => last_rule(all.subrange(0, done as int), main_name()) is None,
                },
                forall|i: int, j: int| 0 <= i < j < rules@.len() ==> rules@[i].0@ != rules@[j].0@,
                forall|k: int| 0 <= k < rules@.len() ==> rules@[k].0@ != main_name()
                    && last_rule(all.subrange(0, done as int), rules@[k].0@) == Some(rules@[k].1@),
                forall|n: Seq<char>| n != main_name() && #[trigger] last_rule(all.subrange(0, done as int), n) is Some
                    ==> exists|k: int| 0 <= k < rules@.len() && rules@[k].0@ == n,
            decreases rest@.len(),
        {
            let ghost before = all.subrange(0, done as int);
            let ghost after = all.subrange(0, done + 1);
            assert(rest@[0] == all[done as int]);
            assert(after.drop_last() =~= before);
            assert(after.last() == all[done as int]);
            let item = rest.remove(0);
            assert(rest@ =~= all.subrange(done + 1, all.len() as int));
            match item {
                RuleOrDefine::Define(d) => {
                    defines.push(d);
                    assert(forall|n: Seq<char>| last_rule(after, n) == last_rule(before, n));
                },
                RuleOrDefine::Rule { name, pattern } => {
                    assert(forall|n: Seq<char>| n != name@ ==> last_rule(after, n) == last_rule(before, n));
                    assert(last_rule(after, name@) == Some(pattern@));
                    if name == main {
                        entry = Some(pattern);
                    } else {
                        let mut k: usize = 0;
                        while k < rules.len() && !(rules[k].0 == name)
                            invariant
                                k <= rules@.len(),
                                forall|j: int| 0 <= j < k ==> rules@[j].0@ != name@,
                            decreases rules@.len() - k,
                        {
                            k += 1;
                        }
                        let ghost old_rules = rules@;
                        if k < rules.len() {
                            rules.set(k, (name, pattern));
                            assert(forall|j: int| 0 <= j < rules@.len() ==> rules@[j].0@ == old_rules[j].0@);
                            assert forall|n: Seq<char>| n != main_name() && #[trigger] last_rule(after, n) is Some
                                implies exists|j: int| 0 <= j < rules@.len() && rules@[j].0@ == n by {
                                if n == rules@[k as int].0@ {
                                } else {
                                    assert(last_rule(before, n) is Some);
                                    let j = choose|j: int| 0 <= j < old_rules.len() && old_rules[j].0@ == n;
                                    assert(rules@[j].0@ == n);
                                }
                            }
                        } else {
                            rules.push((name, pattern));
                            assert forall|n: Seq<char>| n != main_name() && #[trigger] last_rule(after, n) is Some
                                implies exists|j: int| 0 <= j < rules@.len() && rules@[j].0@ == n by {
                                if n == rules@[k as int].0@ {
                                } else {
                                    assert(last_rule(before, n) is Some);
                                    let j = choose|j: int| 0 <= j < old_rules.len() && old_rules[j].0@ == n;
                                    assert(rules@[j].0@ == n);
                                }
                            }
                        }
                    }
                },
            }
            done += 1;
        }
        assert(all.subrange(0, done as int) =~= all);
        match entry {
            Some(e) => Ok(ParserDefinition { entry: e, rules, defines }),
            None => Err(DefinitionParseError::MissingMainRule),
        }
    }
}

} // verus!
