use dbm::errors::MakerErrorType;
use dbm::lexer::{lex, TokenType};
use dbm::nodes::Expression;
use dbm::parser::Parser;

fn parse(code: &str) -> Result<dbm::nodes::Block, dbm::errors::MakerError> {
    Parser::new(lex(code.to_string(), "c".to_string()).unwrap()).parse()
}

fn parse_error(code: &str) -> String {
    let e = parse(code).unwrap_err();
    assert_eq!(e.error_type, MakerErrorType::ParserError);
    e.message
}

#[test]
fn parsing_twice_gives_the_same_tree() {
    let code = "var a = message.reply(\"x\", 1)\nif a == 2 do a end else if a do 3 end";
    let first = format!("{:?}", parse(code).unwrap());
    let second = format!("{:?}", parse(code).unwrap());
    assert_eq!(first, second);
}

#[test]
fn statements_have_expected_shapes() {
    let block = parse("var a = 1\nf(a, \"s\")\nx.y\nb == c").unwrap();
    assert_eq!(block.nodes.len(), 4);
    match &block.nodes[0] {
        Expression::VariableDeclaration(d) => {
            assert_eq!(d.name.name, "a");
            assert!(matches!(*d.value, Expression::Number(ref n) if n.value == "1"));
        }
        other => panic!("{:?}", other),
    }
    match &block.nodes[1] {
        Expression::Call(c) => {
            assert_eq!(c.args.len(), 2);
            assert_eq!(c.location.start, 1);
        }
        other => panic!("{:?}", other),
    }
    assert!(matches!(block.nodes[2], Expression::Member(_)));
    assert!(matches!(block.nodes[3], Expression::Logical(_)));
}

#[test]
fn empty_and_trailing_comma_arguments() {
    let block = parse("f()\ng(1,)").unwrap();
    match (&block.nodes[0], &block.nodes[1]) {
        (Expression::Call(a), Expression::Call(b)) => {
            assert_eq!(a.args.len(), 0);
            assert_eq!(b.args.len(), 1);
        }
        other => panic!("{:?}", other),
    }
}

#[test]
fn member_chains_stop_after_one_level() {
    let block = parse("a.b.c").unwrap_err();
    assert!(block.message.starts_with("Cannot handle this: ."));
}

#[test]
fn parser_errors_name_the_expectation() {
    assert_eq!(parse_error("var = 1"), "Expected an identifier");
    assert_eq!(parse_error("var x 1"), "Expected =");
    assert_eq!(parse_error("if 1 2 end"), "Expected do");
    assert_eq!(parse_error("if 1 do 2"), "Expected end");
    assert_eq!(parse_error("f("), "Expected closing of arguments");
    assert_eq!(parse_error("f(1,"), "Expected closing of arguments");
    assert_eq!(parse_error("if 1 do 2 end else 3"), "Expected if or do");
    assert_eq!(parse_error("f(1 2)"), "Expected closing of arguments");
    assert_eq!(parse_error("= 1"), "Cannot handle this: =");
}

#[test]
fn errors_are_located_at_the_found_token() {
    let e = parse("var x 1").unwrap_err();
    assert_eq!(e.location.unwrap().start, 6);
    let e = parse("if 1 do 2").unwrap_err();
    assert_eq!(e.location.unwrap().start, 9);
}

#[test]
fn exhausted_tokens_are_reported() {
    let mut tokens = lex("f(1".to_string(), "c".to_string()).unwrap();
    tokens.pop();
    let e = Parser::new(tokens).parse().unwrap_err();
    assert_eq!(e.message, "Expected closing of arguments");
    assert!(e.location.is_none());
    let e = Parser::new(Vec::new()).parse().unwrap_err();
    assert_eq!(e.message, "Unexpected end of input");
}

#[test]
fn expect_and_identifier_consume_one_token() {
    let tokens = lex("x = y".to_string(), "c".to_string()).unwrap();
    let mut parser = Parser::new(tokens);
    assert_eq!(parser.at().unwrap().value, "x");
    let id = parser.get_identifier().unwrap();
    assert_eq!(id.name, "x");
    let e = parser.get_identifier().unwrap_err();
    assert_eq!(e.message, "Expected an identifier");
    let t = parser.expect(TokenType::Assign, "Expected =".to_string()).unwrap();
    assert_eq!(t.value, "=");
    assert_eq!(parser.pos, 2);
}
