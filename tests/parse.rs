use imglang::parse::{full_program, literal, Literal, Token};

fn ident(s: &str) -> Token {
    Token::Ident(s.to_string())
}

#[test]
fn test_valid_literals() {
    let raw = r#""Hello""#;
    assert_eq!(
        Token::Literal(Literal::String("Hello".to_string())),
        literal(raw).unwrap().0
    );

    let raw = "0.1234";
    let token = literal(raw).unwrap().0;
    assert_eq!(Token::Literal(Literal::Float("0.1234".to_string())), token);
    if let Token::Literal(Literal::Float(text)) = token {
        assert_eq!(0.1234, text.parse::<f64>().unwrap());
    }

    let raw = "-12";
    assert_eq!(Token::Literal(Literal::Int(-12)), literal(raw).unwrap().0);

    let raw = "true";
    assert_eq!(Token::Literal(Literal::Bool(true)), literal(raw).unwrap().0);
}

#[test]
fn test_input_declaration() {
    let raw = "let extern r = externInt 10 15";
    let program = full_program(raw);

    assert_eq!(7, program.tokens.len());
    assert_eq!(Token::Let, program.tokens[0]);
    assert_eq!(Token::Extern, program.tokens[1]);
    assert_eq!(Token::Ident("r".to_string()), program.tokens[2]);
    assert_eq!(Token::Assign, program.tokens[3]);
    assert_eq!(Token::Ident("externInt".to_string()), program.tokens[4]);
    assert_eq!(Token::Literal(Literal::Int(10)), program.tokens[5]);
    assert_eq!(Token::Literal(Literal::Int(15)), program.tokens[6]);
}

#[test]
fn test_declaration() {
    let raw = "let canvas = canvasWidthHeight 300 400";
    let program = full_program(raw);
    let mut tokens = program.tokens.into_iter();

    assert_eq!(6, tokens.len());
    assert_eq!(Token::Let, tokens.next().unwrap());
    assert_eq!(Token::Ident("canvas".to_string()), tokens.next().unwrap());
    assert_eq!(Token::Assign, tokens.next().unwrap());
    assert_eq!(
        Token::Ident("canvasWidthHeight".to_string()),
        tokens.next().unwrap()
    );
    assert_eq!(Token::Literal(Literal::Int(300)), tokens.next().unwrap());
    assert_eq!(Token::Literal(Literal::Int(400)), tokens.next().unwrap());
}

#[test]
fn test_pipe() {
    let raw = r#"
  canvas
  |> draw circle circleStroke
  |> out
        "#;
    let program = full_program(raw);
    let mut tokens = program.tokens.into_iter();

    assert_eq!(7, tokens.len());
    assert_eq!(Token::Ident("canvas".to_string()), tokens.next().unwrap());
    assert_eq!(Token::Pipe, tokens.next().unwrap());
    assert_eq!(Token::Ident("draw".to_string()), tokens.next().unwrap());
    assert_eq!(Token::Ident("circle".to_string()), tokens.next().unwrap());
    assert_eq!(
        Token::Ident("circleStroke".to_string()),
        tokens.next().unwrap()
    );
    assert_eq!(Token::Pipe, tokens.next().unwrap());
    assert_eq!(Token::Ident("out".to_string()), tokens.next().unwrap());
}

#[test]
fn declaration_with_other_spacing_gives_same_kinds() {
    let program = full_program("\n\n   let\textern  r =\n externInt   10\t15  ");
    assert_eq!(
        program.tokens,
        vec![
            Token::Let,
            Token::Extern,
            ident("r"),
            Token::Assign,
            ident("externInt"),
            Token::Literal(Literal::Int(10)),
            Token::Literal(Literal::Int(15)),
        ]
    );
}

#[test]
fn empty_and_blank_input_give_no_tokens() {
    assert!(full_program("").tokens.is_empty());
    assert!(full_program(" \n\t\r\n ").tokens.is_empty());
}

#[test]
fn integer_followed_by_point_is_a_float() {
    assert_eq!(
        Token::Literal(Literal::Float("10.5".to_string())),
        literal("10.5").unwrap().0
    );
    assert_eq!(
        Token::Literal(Literal::Float("1e3".to_string())),
        literal("1e3").unwrap().0
    );
    assert_eq!(
        Token::Literal(Literal::Float("-2.".to_string())),
        literal("-2.").unwrap().0
    );
    assert_eq!(
        Token::Literal(Literal::Float(".5".to_string())),
        literal(".5 rest").unwrap().0
    );
}

#[test]
fn literal_reports_characters_taken() {
    assert_eq!(Some((Token::Literal(Literal::Int(42)), 2)), literal("42 x"));
    assert_eq!(
        Some((Token::Literal(Literal::Bool(false)), 5)),
        literal("false")
    );
    assert_eq!(None, literal("name"));
    assert_eq!(None, literal("=1"));
}

#[test]
fn integer_limits() {
    assert_eq!(
        Token::Literal(Literal::Int(i64::MAX)),
        literal("9223372036854775807").unwrap().0
    );
    assert_eq!(
        Token::Literal(Literal::Int(i64::MIN)),
        literal("-9223372036854775808").unwrap().0
    );
    // too large for an integer: read as a float instead
    assert_eq!(
        Token::Literal(Literal::Float("9223372036854775808".to_string())),
        literal("9223372036854775808").unwrap().0
    );
}

#[test]
fn keyword_needs_following_space() {
    let program = full_program("letter = 5");
    assert_eq!(
        program.tokens,
        vec![ident("letter"), Token::Assign, Token::Literal(Literal::Int(5))]
    );
}

#[test]
fn comment_runs_to_end_of_line() {
    let program = full_program("// a note\nx = 1");
    assert_eq!(
        program.tokens,
        vec![
            Token::Comment,
            ident("x"),
            Token::Assign,
            Token::Literal(Literal::Int(1)),
        ]
    );
}

#[test]
fn lexing_stops_at_unknown_character() {
    let program = full_program("a = 1 ; b = 2");
    assert_eq!(
        program.tokens,
        vec![ident("a"), Token::Assign, Token::Literal(Literal::Int(1))]
    );
}

#[test]
fn broken_exponent_stops_lexing() {
    let program = full_program("x 1e y");
    assert_eq!(program.tokens, vec![ident("x")]);
}

#[test]
fn string_literal_and_pipe() {
    let program = full_program("\"abc\" |> f");
    assert_eq!(
        program.tokens,
        vec![
            Token::Literal(Literal::String("abc".to_string())),
            Token::Pipe,
            ident("f"),
        ]
    );
}

#[test]
fn lexing_reports_unread_rest() {
    let raw = "let x = 1 ; let y = 2";
    let program = full_program(raw);
    assert_eq!(
        program.tokens,
        vec![Token::Let, ident("x"), Token::Assign, Token::Literal(Literal::Int(1))]
    );
    assert_eq!(10, program.end);
    assert_eq!("; let y = 2", program.rest(raw));
}

#[test]
fn complete_lexing_reads_everything() {
    let raw = "  let r = externInt 10 15\n";
    let program = full_program(raw);
    assert_eq!(raw.chars().count(), program.end);
    assert_eq!("", program.rest(raw));
}
