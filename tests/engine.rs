use tmpl::custom::{Ast, AstValue, ParseError, Parser};
use tmpl::definition::{
    alternative, custom, ident, integer, keyword, raw, regex, rw, separated, symbol, token,
    bool as bool_pattern, float, optional, repeated, string, ParserDefinition, Pattern,
    RepeatMode, TokenPattern,
};
use tmpl::lexer::Token;

fn id(s: &str) -> Token {
    Token::Ident(s.to_string())
}

fn sym(s: &str) -> Token {
    Token::Symbol(s.to_string())
}

fn grammar(entry: Vec<Pattern>, rules: Vec<(String, Vec<Pattern>)>) -> ParserDefinition {
    ParserDefinition { entry, rules, defines: Vec::new() }
}

fn seq(elems: Vec<TokenPattern>) -> Pattern {
    token(elems).unwrap()
}

fn one(p: tmpl::definition::InternalPattern) -> TokenPattern {
    rw(p).unwrap()
}

fn name(s: &str) -> Option<String> {
    Some(s.to_string())
}

fn ints(v: &AstValue) -> Vec<i64> {
    match v {
        AstValue::List(items) => items
            .iter()
            .map(|i| match i {
                AstValue::Leaf(Token::Integer(n)) => *n,
                other => panic!("not an integer leaf: {:?}", other),
            })
            .collect(),
        other => panic!("not a list: {:?}", other),
    }
}

fn run(g: ParserDefinition, toks: Vec<Token>) -> Result<(Ast, usize), ParseError> {
    Parser::new(g, toks).parse_from(0)
}

#[test]
fn ordered_choice_takes_longer_primary() {
    let entry = vec![alternative(vec![one(raw("a")), one(raw("b"))], seq(vec![one(raw("a"))])).unwrap()];
    let (_, end) = run(grammar(entry, vec![]), vec![id("a"), Token::Ws, id("b")]).unwrap();
    assert_eq!(end, 3);
}

#[test]
fn ordered_choice_falls_back() {
    let entry = vec![alternative(vec![one(raw("a")), one(raw("b"))], seq(vec![one(raw("a"))])).unwrap()];
    let (_, end) = run(grammar(entry, vec![]), vec![id("a"), id("c")]).unwrap();
    assert_eq!(end, 1);
}

#[test]
fn optional_absent_consumes_nothing() {
    let entry = vec![seq(vec![optional(integer(name("x"))).unwrap()])];
    let (ast, end) = run(grammar(entry, vec![]), vec![id("foo")]).unwrap();
    assert_eq!(end, 0);
    assert!(matches!(ast.get("x"), Some(AstValue::Absent)));
}

#[test]
fn optional_present_binds_leaf() {
    let entry = vec![seq(vec![optional(integer(name("x"))).unwrap()])];
    let (ast, end) = run(grammar(entry, vec![]), vec![Token::Integer(7)]).unwrap();
    assert_eq!(end, 1);
    assert!(matches!(ast.get("x"), Some(AstValue::Leaf(Token::Integer(7)))));
}

#[test]
fn separated_repetition_full_list() {
    let entry = vec![seq(vec![separated(integer(name("n")), RepeatMode::ZeroOrMore, ",".to_string()).unwrap()])];
    let toks = vec![
        Token::Integer(1),
        Token::Ws,
        sym(","),
        Token::Ws,
        Token::Integer(2),
        sym(","),
        Token::Integer(3),
    ];
    let (ast, end) = run(grammar(entry, vec![]), toks).unwrap();
    assert_eq!(ints(ast.get("n").unwrap()), vec![1, 2, 3]);
    assert_eq!(end, 7);
}

#[test]
fn separated_repetition_trailing_separator_kept() {
    let entry = vec![seq(vec![separated(integer(name("n")), RepeatMode::ZeroOrMore, ",".to_string()).unwrap()])];
    let toks = vec![Token::Integer(1), sym(","), Token::Integer(2), sym(",")];
    let (ast, end) = run(grammar(entry, vec![]), toks).unwrap();
    assert_eq!(ints(ast.get("n").unwrap()), vec![1, 2]);
    assert_eq!(end, 3);
}

#[test]
fn zero_or_more_accepts_empty() {
    let entry = vec![seq(vec![repeated(integer(name("n")), RepeatMode::ZeroOrMore).unwrap()])];
    let (ast, end) = run(grammar(entry, vec![]), vec![id("xy")]).unwrap();
    assert_eq!(end, 0);
    assert!(ints(ast.get("n").unwrap()).is_empty());
}

#[test]
fn one_or_more_needs_one() {
    let entry = vec![seq(vec![repeated(integer(name("n")), RepeatMode::OneOrMore).unwrap()])];
    let err = run(grammar(entry, vec![]), vec![id("xy")]).unwrap_err();
    assert!(matches!(err, ParseError::TokenMismatch { index: 0, .. }));
}

#[test]
fn one_or_more_collects_in_order() {
    let entry = vec![seq(vec![repeated(integer(name("n")), RepeatMode::OneOrMore).unwrap()])];
    let toks = vec![Token::Integer(4), Token::Integer(5), Token::Ws, Token::Integer(6), id("end")];
    let (ast, end) = run(grammar(entry, vec![]), toks).unwrap();
    assert_eq!(ints(ast.get("n").unwrap()), vec![4, 5, 6]);
    assert_eq!(end, 4);
}

#[test]
fn unknown_rule_at_resolution() {
    let entry = vec![seq(vec![one(custom(name("v"), "Missing"))])];
    let parser = Parser::new(grammar(entry, vec![]), vec![id("ab")]);
    match parser.parse() {
        Err(ParseError::UnknownRule { name }) => assert_eq!(name, "Missing"),
        other => panic!("unexpected {:?}", other),
    }
}

#[test]
fn unknown_rule_not_recovered_by_alternative() {
    let entry = vec![alternative(vec![one(custom(None, "Missing"))], seq(vec![one(ident(None))])).unwrap()];
    let err = run(grammar(entry, vec![]), vec![id("ab")]).unwrap_err();
    assert!(matches!(err, ParseError::UnknownRule { .. }));
}

#[test]
fn self_reference_hits_recursion_limit() {
    let rules = vec![("Loop".to_string(), vec![seq(vec![one(custom(None, "Loop"))])])];
    let entry = vec![seq(vec![one(custom(None, "Loop"))])];
    let parser = Parser::with_max_depth(grammar(entry, rules), vec![Token::Ws, id("ab")], 16);
    let err = parser.parse().unwrap_err();
    assert!(matches!(err, ParseError::RecursionLimit { index: 1 }));
}

#[test]
fn self_reference_default_depth_terminates() {
    let rules = vec![("Loop".to_string(), vec![seq(vec![optional(custom(None, "Loop")).unwrap()])])];
    let entry = vec![seq(vec![one(custom(None, "Loop"))])];
    let err = run(grammar(entry, rules), vec![]).unwrap_err();
    assert!(matches!(err, ParseError::RecursionLimit { index: 0 }));
}

#[test]
fn repetition_of_empty_match_stops() {
    let rules = vec![("Empty".to_string(), vec![seq(vec![])])];
    let entry = vec![seq(vec![repeated(custom(name("e"), "Empty"), RepeatMode::ZeroOrMore).unwrap()])];
    let (ast, end) = run(grammar(entry, rules), vec![id("ab")]).unwrap();
    assert_eq!(end, 0);
    match ast.get("e") {
        Some(AstValue::List(items)) => assert_eq!(items.len(), 1),
        other => panic!("unexpected {:?}", other),
    }
}

#[test]
fn rule_reference_builds_node() {
    let rules = vec![(
        "Pair".to_string(),
        vec![seq(vec![one(ident(name("key"))), one(symbol(None, "=")), one(integer(name("val")))])],
    )];
    let entry = vec![seq(vec![one(custom(name("pair"), "Pair"))])];
    let (ast, end) = run(grammar(entry, rules), vec![id("width"), sym("="), Token::Integer(3)]).unwrap();
    assert_eq!(end, 3);
    match ast.get("pair") {
        Some(AstValue::Node(node)) => {
            assert_eq!(node.rule.as_deref(), Some("Pair"));
            assert_eq!(node.fields.len(), 2);
            assert!(matches!(node.get("key"), Some(AstValue::Leaf(Token::Ident(s))) if s == "width"));
            assert!(matches!(node.get("val"), Some(AstValue::Leaf(Token::Integer(3)))));
        }
        other => panic!("unexpected {:?}", other),
    }
}

#[test]
fn unnamed_rule_reference_adds_no_field() {
    let rules = vec![("Word".to_string(), vec![seq(vec![one(ident(name("w")))])])];
    let entry = vec![seq(vec![one(custom(None, "Word"))])];
    let (ast, end) = run(grammar(entry, rules), vec![id("hello")]).unwrap();
    assert_eq!(end, 1);
    assert!(ast.fields.is_empty());
}

#[test]
fn discarded_alternative_leaves_no_binding() {
    let entry = vec![alternative(
        vec![one(ident(name("first"))), one(symbol(None, ";"))],
        seq(vec![one(ident(name("second")))]),
    )
    .unwrap()];
    let (ast, _) = run(grammar(entry, vec![]), vec![id("abc")]).unwrap();
    assert!(ast.get("first").is_none());
    assert!(ast.get("second").is_some());
}

#[test]
fn duplicate_binding_overwrites_in_place() {
    let entry = vec![seq(vec![one(ident(name("a"))), one(integer(name("b"))), one(ident(name("a")))])];
    let (ast, _) = run(grammar(entry, vec![]), vec![id("xx"), Token::Integer(1), id("yy")]).unwrap();
    assert_eq!(ast.fields.len(), 2);
    assert_eq!(ast.fields[0].0, "a");
    assert!(matches!(ast.get("a"), Some(AstValue::Leaf(Token::Ident(s))) if s == "yy"));
}

#[test]
fn keyword_and_symbol_never_bind() {
    let entry = vec![seq(vec![one(keyword(name("k"), "let")), one(symbol(name("s"), "="))])];
    let (ast, end) = run(grammar(entry, vec![]), vec![id("let"), sym("=")]).unwrap();
    assert_eq!(end, 2);
    assert!(ast.fields.is_empty());
}

#[test]
fn keyword_is_case_sensitive() {
    let entry = vec![seq(vec![one(keyword(None, "let"))])];
    let err = run(grammar(entry, vec![]), vec![id("Let")]).unwrap_err();
    assert!(matches!(err, ParseError::TokenMismatch { index: 0, .. }));
}

#[test]
fn end_of_input_reported_after_whitespace() {
    let entry = vec![seq(vec![one(ident(None)), one(integer(None))])];
    let err = run(grammar(entry, vec![]), vec![id("ab"), Token::Ws]).unwrap_err();
    assert!(matches!(err, ParseError::EndOfInput { index: 2, .. }));
}

#[test]
fn mismatch_reports_token_index() {
    let entry = vec![seq(vec![one(ident(None)), one(integer(None))])];
    let err = run(grammar(entry, vec![]), vec![id("ab"), Token::Ws, sym("+")]).unwrap_err();
    assert!(matches!(err, ParseError::TokenMismatch { index: 2, .. }));
}

#[test]
fn builtin_kinds_match_their_tokens() {
    let entry = vec![seq(vec![
        one(bool_pattern(name("b"))),
        one(float(name("f"))),
        one(integer(name("i"))),
        one(ident(name("n"))),
    ])];
    let toks = vec![Token::False, Token::Float("1.5".to_string()), Token::Integer(-2), id("zz")];
    let (ast, end) = run(grammar(entry, vec![]), toks).unwrap();
    assert_eq!(end, 4);
    assert!(matches!(ast.get("b"), Some(AstValue::Leaf(Token::False))));
    assert!(matches!(ast.get("f"), Some(AstValue::Leaf(Token::Float(s))) if s == "1.5"));
}

#[test]
fn string_kind_matches_no_token() {
    let entry = vec![seq(vec![one(string(None))])];
    let err = run(grammar(entry, vec![]), vec![id("ab")]).unwrap_err();
    assert!(matches!(err, ParseError::TokenMismatch { index: 0, .. }));
}

#[test]
fn regex_must_match_whole_lexeme() {
    let entry = vec![seq(vec![one(regex(name("r"), "[a-z]+").unwrap())])];
    let (ast, _) = run(grammar(entry, vec![]), vec![id("abc")]).unwrap();
    assert!(matches!(ast.get("r"), Some(AstValue::Leaf(Token::Ident(s))) if s == "abc"));
    let entry = vec![seq(vec![one(regex(None, "[a-z]+").unwrap())])];
    let err = run(grammar(entry, vec![]), vec![id("abc1")]).unwrap_err();
    assert!(matches!(err, ParseError::TokenMismatch { index: 0, .. }));
}

#[test]
fn regex_matches_symbols_not_integers() {
    let entry = vec![seq(vec![one(regex(None, "[-+]").unwrap())])];
    assert!(run(grammar(entry, vec![]), vec![sym("+")]).is_ok());
    let entry = vec![seq(vec![one(regex(None, "[0-9]+").unwrap())])];
    assert!(run(grammar(entry, vec![]), vec![Token::Integer(12)]).is_err());
}

#[test]
fn entry_patterns_run_in_order() {
    let entry = vec![seq(vec![one(ident(name("a")))]), seq(vec![one(integer(name("b")))])];
    let (ast, end) = run(grammar(entry, vec![]), vec![id("qq"), Token::Integer(9)]).unwrap();
    assert_eq!(end, 2);
    assert_eq!(ast.fields.len(), 2);
}

#[test]
fn parse_from_later_start() {
    let entry = vec![seq(vec![one(integer(name("n")))])];
    let parser = Parser::new(grammar(entry, vec![]), vec![id("skip"), Token::Integer(5)]);
    let (ast, end) = parser.parse_from(1).unwrap();
    assert_eq!(end, 2);
    assert!(matches!(ast.get("n"), Some(AstValue::Leaf(Token::Integer(5)))));
    assert!(parser.parse().is_err());
}

#[test]
fn repeated_parse_is_deterministic() {
    let entry = vec![alternative(vec![one(ident(name("x"))), one(integer(name("y")))], seq(vec![one(ident(name("z")))])).unwrap()];
    let parser = Parser::new(grammar(entry, vec![]), vec![id("ab"), sym("+")]);
    let a = parser.parse_from(0).unwrap();
    let b = parser.parse_from(0).unwrap();
    assert_eq!(a.1, b.1);
    assert_eq!(format!("{:?}", a.0), format!("{:?}", b.0));
}

#[test]
fn raw_lexeme_matches_ident_or_symbol() {
    let entry = vec![seq(vec![one(raw("if")), one(raw("=="))])];
    let (ast, end) = run(grammar(entry, vec![]), vec![id("if"), sym("==")]).unwrap();
    assert_eq!(end, 2);
    assert!(ast.fields.is_empty());
}

#[test]
fn mismatch_names_rule_and_expectation() {
    let rules = vec![(
        "Assign".to_string(),
        vec![seq(vec![one(ident(None)), one(symbol(None, "="))])],
    )];
    let entry = vec![seq(vec![one(custom(None, "Assign"))])];
    match run(grammar(entry, rules), vec![id("xy"), sym("+")]) {
        Err(ParseError::TokenMismatch { rule, index, expected }) => {
            assert_eq!(rule.as_deref(), Some("Assign"));
            assert_eq!(index, 1);
            assert_eq!(expected, "sym[=]");
        }
        other => panic!("unexpected {:?}", other),
    }
}

#[test]
fn end_of_input_in_entry_has_no_rule() {
    let entry = vec![seq(vec![one(keyword(None, "let"))])];
    match run(grammar(entry, vec![]), vec![]) {
        Err(ParseError::EndOfInput { rule, index, expected }) => {
            assert!(rule.is_none());
            assert_eq!(index, 0);
            assert_eq!(expected, "kw[let]");
        }
        other => panic!("unexpected {:?}", other),
    }
}

#[test]
fn alternative_reports_last_failure() {
    let entry = vec![alternative(vec![one(integer(None))], seq(vec![one(regex(None, "[a-z]+").unwrap())])).unwrap()];
    match run(grammar(entry, vec![]), vec![sym("+")]) {
        Err(ParseError::TokenMismatch { expected, .. }) => assert_eq!(expected, "s/[a-z]+/"),
        other => panic!("unexpected {:?}", other),
    }
}

#[test]
fn consumed_tokens_are_the_significant_window() {
    let entry = vec![seq(vec![repeated(ident(name("w")), RepeatMode::OneOrMore).unwrap()])];
    let toks = vec![id("ab"), Token::Ws, id("cd"), Token::Ws, Token::Ws, id("ef"), Token::Ws, sym(";")];
    let (ast, end) = run(grammar(entry, vec![]), toks.clone()).unwrap();
    assert_eq!(end, 6);
    let window: Vec<String> = toks[..end]
        .iter()
        .filter_map(|t| match t {
            Token::Ident(s) => Some(s.clone()),
            Token::Ws => None,
            other => panic!("unexpected {:?}", other),
        })
        .collect();
    let captured: Vec<String> = match ast.get("w") {
        Some(AstValue::List(items)) => items
            .iter()
            .map(|i| match i {
                AstValue::Leaf(Token::Ident(s)) => s.clone(),
                other => panic!("unexpected {:?}", other),
            })
            .collect(),
        other => panic!("unexpected {:?}", other),
    };
    assert_eq!(window.concat(), captured.concat());
    assert_eq!(captured, vec!["ab", "cd", "ef"]);
}

#[test]
fn indirect_self_reference_hits_recursion_limit() {
    let rules = vec![
        ("Left".to_string(), vec![seq(vec![one(custom(None, "Right")), one(ident(None))])]),
        ("Right".to_string(), vec![alternative(vec![one(custom(None, "Left"))], seq(vec![one(ident(None))])).unwrap()]),
    ];
    let entry = vec![seq(vec![one(custom(None, "Left"))])];
    let parser = Parser::with_max_depth(grammar(entry, rules), vec![id("ab"), id("cd")], 9);
    assert!(matches!(parser.parse(), Err(ParseError::RecursionLimit { index: 0 })));
}
