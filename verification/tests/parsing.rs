use lenar::ast::ParserObject;
use lenar::parser::Parser;
use lenar::tokenizer::{Token, Tokenizer};

/// The arena rendered as text, nodes in key order, for structural
/// comparison.
fn arena_dump(p: &Parser) -> String {
    let mut out = String::new();
    let mut key = 0usize;
    while let Some(node) = p.get_object(key) {
        out.push_str(&format!("{}: {:?}\n", key, node));
        key += 1;
    }
    out
}

#[test]
fn parses_a_variable_definition() {
    let p = Parser::new("let a = 1205;");
    let global = p.get_object(p.get_global()).unwrap();
    let children = match global {
        ParserObject::Block { objects } => objects.clone(),
        _ => panic!("the global node must be a block"),
    };
    assert_eq!(children.len(), 1);
    match p.get_object(children[0]).unwrap() {
        ParserObject::VarDef { var_name, block_value } => {
            assert_eq!(var_name, &b"a".to_vec());
            match p.get_object(*block_value).unwrap() {
                ParserObject::Block { objects } => {
                    assert_eq!(objects.len(), 1);
                    match p.get_object(objects[0]).unwrap() {
                        ParserObject::NumberVal { value } => assert_eq!(*value, 1205),
                        _ => panic!("the value block must hold a number"),
                    }
                }
                _ => panic!("a definition's value must be a block"),
            }
        }
        _ => panic!("the child must be a variable definition"),
    }
}

#[test]
fn parses_calls_strings_and_paths() {
    let p = Parser::new("println(\"hi\" other.prop);");
    let global = p.get_object(p.get_global()).unwrap();
    let children = match global {
        ParserObject::Block { objects } => objects.clone(),
        _ => panic!("the global node must be a block"),
    };
    assert_eq!(children.len(), 1);
    match p.get_object(children[0]).unwrap() {
        ParserObject::FunctionCall { fn_name, arguments } => {
            assert_eq!(fn_name, &b"println".to_vec());
            match p.get_object(*arguments).unwrap() {
                ParserObject::Block { objects } => {
                    assert_eq!(objects.len(), 2);
                    match p.get_object(objects[0]).unwrap() {
                        ParserObject::BytesVal { value } => assert_eq!(value, &b"hi".to_vec()),
                        _ => panic!("the first argument must be a string literal"),
                    }
                    match p.get_object(objects[1]).unwrap() {
                        ParserObject::PropertyRef { path } => {
                            assert_eq!(path.len(), 2);
                            assert_eq!(path[0], b"other".to_vec());
                            assert_eq!(path[1], b"prop".to_vec());
                        }
                        _ => panic!("the second argument must be a property path"),
                    }
                }
                _ => panic!("arguments must sit in a block"),
            }
        }
        _ => panic!("the child must be a call"),
    }
}

#[test]
fn parses_function_literals() {
    let p = Parser::new("let f = fn(x) [a] { x };");
    let mut found_fn = false;
    let mut key = 0usize;
    while let Some(node) = p.get_object(key) {
        if let ParserObject::FnDef { .. } = node {
            found_fn = true;
        }
        key += 1;
    }
    assert!(found_fn);
}

#[test]
fn incremental_parse_matches_one_shot() {
    let first = "let a = 1; println(a);";
    let second = "let b = 2; println(b);";
    let mut incremental = Parser::new(first);
    let r = incremental.parse(second);
    assert!(r.is_ok());
    let mut oneshot_src = String::new();
    oneshot_src.push_str(first);
    oneshot_src.push_str(second);
    let oneshot = Parser::new(&oneshot_src);
    assert_eq!(arena_dump(&incremental), arena_dump(&oneshot));
}

#[test]
fn misplaced_operator_is_a_syntax_error() {
    let mut p = Parser::new("");
    match p.parse("= 1;") {
        Err(lenar::value::LenarError::SyntaxError(_)) => {}
        _ => panic!("a leading operator must be a syntax error"),
    }
}

#[test]
fn stray_closer_is_a_syntax_error() {
    let mut p = Parser::new("");
    match p.parse(") x") {
        Err(lenar::value::LenarError::SyntaxError(_)) => {}
        _ => panic!("a stray closing token must be a syntax error"),
    }
}

#[test]
fn number_overflow_is_dropped() {
    let p = Parser::new("println(99999999999999999999999999);");
    // the malformed literal is consumed and no number node appears
    let mut key = 0usize;
    while let Some(node) = p.get_object(key) {
        if let ParserObject::NumberVal { .. } = node {
            panic!("an overflowing literal must not produce a node");
        }
        key += 1;
    }
}

#[test]
fn tokenizer_walks_blocks() {
    let code = "var test = { \"test\" };{ { } }";
    let t = Tokenizer::from_str(code);
    let global = t.get_token(t.get_global()).unwrap();
    let children = match global {
        Token::Block { tokens } => tokens.clone(),
        _ => panic!("the global token must be a block"),
    };
    // one definition and one block at the top level
    assert_eq!(children.len(), 2);
    match t.get_token(children[0]).unwrap() {
        Token::VarDef { .. } => {}
        _ => panic!("the first token must be a definition"),
    }
    match t.get_token(children[1]).unwrap() {
        Token::Block { tokens } => assert_eq!(tokens.len(), 1),
        _ => panic!("the second token must be a block"),
    }
}

#[test]
fn parses_the_largest_number() {
    let p = Parser::new("println(18446744073709551615);");
    let mut found = false;
    let mut key = 0usize;
    while let Some(node) = p.get_object(key) {
        if let ParserObject::NumberVal { value } = node {
            assert_eq!(*value, usize::MAX);
            found = true;
        }
        key += 1;
    }
    assert!(found);
}

#[test]
fn scanning_helpers_take_their_tokens() {
    let code = b"abc(def, ghi;";
    assert_eq!(lenar::scan::slice_with_size(0, 3, code), Some(&code[0..3]));
    assert_eq!(lenar::scan::slice_with_size(0, 99, code), None);
    let (tok, end) = lenar::scan::slice_until(40, code, 0);
    assert_eq!(tok, b"abc".to_vec());
    assert_eq!(end, 3);
    let (tok, end) = lenar::scan::slice_until_delimeter(code, 4);
    assert_eq!(tok, b"def".to_vec());
    assert_eq!(end, 7);
    assert_eq!(lenar::scan::count_unexpected_between(0, 40, code), 0);
    assert_eq!(lenar::scan::count_unexpected_between(4, 40, code), 2);
}
