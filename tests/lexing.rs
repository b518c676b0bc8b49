use dbm::errors::MakerErrorType;
use dbm::lexer::{lex, lex_chars, Location, Token, TokenType};

fn kinds(tokens: &[Token]) -> Vec<TokenType> {
    tokens.iter().map(|t| t.token_type).collect()
}

fn texts(tokens: &[Token]) -> Vec<String> {
    tokens.iter().map(|t| t.value.clone()).collect()
}

#[test]
fn token_texts_spell_the_literals() {
    let tokens = lex("var name = \"hello world\"\nname_2 == 042".to_string(), "c".to_string()).unwrap();
    assert_eq!(texts(&tokens), vec!["var", "name", "=", "hello world", "name_2", "==", "042", ""]);
    assert_eq!(
        kinds(&tokens),
        vec![
            TokenType::Var,
            TokenType::Identifier,
            TokenType::Assign,
            TokenType::String,
            TokenType::Identifier,
            TokenType::Equals,
            TokenType::Number,
            TokenType::EOF
        ]
    );
}

#[test]
fn locations_track_columns_and_lines() {
    let tokens = lex("if  x\n\tdo".to_string(), "ctx".to_string()).unwrap();
    let places: Vec<(usize, usize, usize)> =
        tokens.iter().map(|t| (t.location.start, t.location.end, t.location.line)).collect();
    assert_eq!(places, vec![(0, 2, 0), (4, 5, 0), (1, 3, 1), (3, 3, 1)]);
    assert!(tokens.iter().all(|t| t.location.context == "ctx"));
}

#[test]
fn keywords_and_symbols() {
    let tokens = lex("do end else if var(){}.,= elsewhere".to_string(), "c".to_string()).unwrap();
    assert_eq!(
        kinds(&tokens),
        vec![
            TokenType::Do,
            TokenType::End,
            TokenType::Else,
            TokenType::If,
            TokenType::Var,
            TokenType::OpenBrace,
            TokenType::CloseBrace,
            TokenType::OpenCurly,
            TokenType::CloseCurly,
            TokenType::Dot,
            TokenType::Comma,
            TokenType::Assign,
            TokenType::Identifier,
            TokenType::EOF
        ]
    );
}

#[test]
fn unicode_letters_make_identifiers() {
    let tokens = lex("été2 Ωx".to_string(), "c".to_string()).unwrap();
    assert_eq!(texts(&tokens), vec!["été2", "Ωx", ""]);
    assert_eq!(kinds(&tokens)[0], TokenType::Identifier);
    assert_eq!(tokens[1].location.start, 5);
}

#[test]
fn unexpected_character_is_reported() {
    let e = lex("x + 1".to_string(), "c".to_string()).unwrap_err();
    assert_eq!(e.error_type, MakerErrorType::LexerError);
    assert_eq!(e.message, "Unexpected character: +");
    assert_eq!(e.location.unwrap().start, 2);
}

#[test]
fn unterminated_string_location() {
    let e = lex("x\n  \"abc".to_string(), "c".to_string()).unwrap_err();
    assert_eq!(e.message, "Expected end of string");
    let loc = e.location.unwrap();
    assert_eq!((loc.start, loc.line), (2, 1));
}

#[test]
fn empty_source_is_just_eof() {
    let tokens = lex(String::new(), "c".to_string()).unwrap();
    assert_eq!(kinds(&tokens), vec![TokenType::EOF]);
}

#[test]
fn classified_lexing_uses_given_classes() {
    let chars: Vec<char> = "a1".chars().collect();
    let tokens = lex_chars(&chars, &vec![false, false], &vec![false, false], "c".to_string());
    assert_eq!(tokens.unwrap_err().message, "Unexpected character: a");
    let tokens = lex_chars(&chars, &vec![true, false], &vec![true, true], "c".to_string()).unwrap();
    assert_eq!(texts(&tokens), vec!["a1", ""]);
}

#[test]
fn no_location_is_unknown() {
    let l = Location::no_location();
    assert_eq!((l.start, l.end, l.line, l.context.as_str()), (0, 0, 0, "<unknown>"));
}

#[test]
fn joined_texts_rebuild_source_without_blanks_and_quotes() {
    let tokens = lex("var s = \"a b\"\n\tx==f(1)".to_string(), "c".to_string()).unwrap();
    let joined: String = tokens.iter().map(|t| t.value.as_str()).collect();
    assert_eq!(joined, "vars=a bx==f(1)");
}
