//! Tests driving the parser through a small tokenizer helper, so each case
//! can be written as the source text it came from.

use json_parser::{parse, Json, ParseError, ParseErrorType, Token, TokenType};

/// Turns text into the token stream the parser consumes. Tokenization is an
/// external collaborator of the library; this helper covers what the tests
/// need: punctuation, quoted strings without escapes, simple numbers, the
/// three keyword literals, and whitespace. A bare word that is no keyword is
/// not valid at any position, so it is handed over as a token the grammar
/// must reject wherever it stands.
fn lex(raw: &str) -> Vec<Token> {
    let mut tokens = Vec::new();
    let chars: Vec<char> = raw.chars().collect();
    let mut i = 0;
    let mut line: usize = 1;
    let mut col: usize = 1;
    while i < chars.len() {
        let c = chars[i];
        let (tline, tcol) = (line, col);
        let mut push = |tt: TokenType| {
            tokens.push(Token {
                token_type: tt,
                line: tline,
                col: tcol,
            })
        };
        match c {
            '\n' => {
                line += 1;
                col = 0;
                i += 1;
            }
            c if c.is_whitespace() => {
                i += 1;
            }
            ':' => {
                push(TokenType::Colon);
                i += 1;
            }
            ',' => {
                push(TokenType::Comma);
                i += 1;
            }
            '{' => {
                push(TokenType::OpenCurly);
                i += 1;
            }
            '}' => {
                push(TokenType::CloseCurly);
                i += 1;
            }
            '[' => {
                push(TokenType::OpenSquare);
                i += 1;
            }
            ']' => {
                push(TokenType::CloseSquare);
                i += 1;
            }
            '"' => {
                let mut j = i + 1;
                let mut s = String::new();
                while j < chars.len() && chars[j] != '"' {
                    s.push(chars[j]);
                    j += 1;
                }
                push(TokenType::String(s));
                col += (j - i) - 1;
                i = j + 1;
            }
            c if c.is_ascii_digit() => {
                let mut j = i;
                let mut s = String::new();
                while j < chars.len() && (chars[j].is_ascii_digit() || chars[j] == '.') {
                    s.push(chars[j]);
                    j += 1;
                }
                let n: f64 = s.parse().unwrap();
                push(TokenType::Number(n.to_bits()));
                col += (j - i) - 1;
                i = j;
            }
            _ => {
                let mut j = i;
                while j < chars.len() && chars[j].is_alphanumeric() {
                    j += 1;
                }
                let word: String = chars[i..j].iter().collect();
                match word.as_str() {
                    "null" => push(TokenType::Null),
                    "true" => push(TokenType::Bool(true)),
                    "false" => push(TokenType::Bool(false)),
                    // a bare word fits no grammar position
                    _ => push(TokenType::Colon),
                }
                col += (j - i) - 1;
                i = j;
            }
        }
        if c != '\n' {
            col += 1;
        }
    }
    tokens
}

fn num(x: f64) -> Json {
    Json::Number(x.to_bits())
}

fn num_token(x: f64) -> TokenType {
    TokenType::Number(x.to_bits())
}

fn assert_case(case: &'static str, actual: Result<Json, ParseError>, expected: Result<Json, ParseError>) {
    if actual != expected {
        panic!(
            "\nFailed test case {}\nactual: {:?}\nexpected: {:?}\n",
            case, actual, expected
        );
    }
}

#[test]
fn test_value_unexpected_token() {
    let cases = vec![":", ",", "}", "]", "hello"];

    for raw in cases {
        let tokens = lex(raw);
        let value = parse(&tokens);

        let expected = Err(ParseError::new(
            ParseErrorType::UnexpectedToken,
            Some(tokens[0].clone()),
            None,
        ));

        assert_eq!(value, expected);
    }
}

#[test]
fn test_parse() {
    let cases = vec![
        (
            "",
            Err(ParseError::new(ParseErrorType::UnexpectedEnd, None, None)),
        ),
        (
            "[1  , 2",
            Err(ParseError::new(ParseErrorType::UnexpectedEnd, None, None)),
        ),
        (
            "[1, 2,  ",
            Err(ParseError::new(ParseErrorType::UnexpectedEnd, None, None)),
        ),
        ("null  ", Ok(Json::Null)),
        ("true", Ok(Json::Bool(true))),
        ("  false ", Ok(Json::Bool(false))),
        (" 1234", Ok(num(1234.0))),
        ("\"foo\"", Ok(Json::String("foo".to_string()))),
        (
            "{\"foo\":{   \"bar\":1234}   }",
            Ok(Json::Object(vec![(
                "foo".to_string(),
                Json::Object(vec![("bar".to_string(), num(1234.0))]),
            )])),
        ),
        (
            "{\"foo\":{   \"bar\":1234},  \"another\": \"testing\" }",
            Ok(Json::Object(vec![
                (
                    "foo".to_string(),
                    Json::Object(vec![("bar".to_string(), num(1234.0))]),
                ),
                ("another".to_string(), Json::String("testing".to_string())),
            ])),
        ),
        (
            "[1,   2,3  ,  4]",
            Ok(Json::Array(vec![
                num(1.0),
                num(2.0),
                num(3.0),
                num(4.0),
            ])),
        ),
    ];

    for case in cases {
        let (raw, expected) = case;
        let tokens = lex(raw);
        let value = parse(&tokens);

        assert_case(raw, value, expected)
    }
}

#[test]
fn test_parse_located_error() {
    let cases: Vec<(&str, ParseErrorType, usize, Option<TokenType>)> = vec![
        (
            "[ 1, 2, 3 4]",
            ParseErrorType::UnexpectedToken,
            6,
            Some(TokenType::CloseSquare),
        ),
        ("[1, 2, 3,]", ParseErrorType::TrailingComma, 6, None),
        (
            "{\"foo\":123, \"foo\": 432}",
            ParseErrorType::DuplicateKey,
            5,
            None,
        ),
        (
            "{\"foo\":123, foo: 432}",
            ParseErrorType::KeyNotInQuotes,
            5,
            None,
        ),
        (
            "{\"foo\" 123}",
            ParseErrorType::MissingColon,
            2,
            Some(TokenType::Colon),
        ),
    ];

    for case in cases {
        let (raw, expected_error, token_location, expected_token_type) = case;

        let tokens = lex(raw);
        let expected = Err(ParseError::new(
            expected_error,
            Some(tokens.get(token_location).unwrap().clone()),
            expected_token_type,
        ));

        let value = parse(&tokens);

        assert_case(raw, value, expected)
    }
}

#[test]
fn test_single_entry_object() {
    let tokens = lex("{\"foo\": 123}");
    let value = parse(&tokens);
    assert_eq!(
        value,
        Ok(Json::Object(vec![("foo".to_string(), num(123.0))]))
    );
}

#[test]
fn test_whitespace_only_moves_tokens() {
    let dense = parse(&lex("[1,2,3]"));
    let spread = parse(&lex("  [ 1 ,\n      2 ,  3 ]  "));
    assert_eq!(dense, spread);
    assert_eq!(dense, Ok(Json::Array(vec![num(1.0), num(2.0), num(3.0)])));
}

#[test]
fn test_tokens_after_first_value_are_ignored() {
    let tokens = lex("1234 5678");
    assert_eq!(parse(&tokens), Ok(num(1234.0)));
    let tokens = lex("null  true");
    assert_eq!(parse(&tokens), Ok(Json::Null));
}

#[test]
fn test_empty_containers() {
    // An empty array is a value; an empty object's contents position must
    // hold a quoted key, so the closing brace there is KeyNotInQuotes.
    let tokens = lex("[]");
    assert_eq!(parse(&tokens), Ok(Json::Array(vec![])));

    let tokens = lex("{}");
    let expected = Err(ParseError::new(
        ParseErrorType::KeyNotInQuotes,
        Some(tokens[1].clone()),
        None,
    ));
    assert_eq!(parse(&tokens), expected);
}

#[test]
fn test_duplicate_key_aborts_whole_parse() {
    // The earlier entry is not kept as a partial result: the parse fails.
    let tokens = lex("[{\"a\":1, \"a\":2}]");
    let value = parse(&tokens);
    assert!(matches!(
        value,
        Err(e) if e == ParseError::new(ParseErrorType::DuplicateKey, Some(tokens[6].clone()), None)
    ));
}

#[test]
fn test_expect_finds_and_rejects() {
    let tokens = lex(", :");
    let found = json_parser::expect(
        &TokenType::Comma,
        ParseErrorType::UnexpectedToken,
        &tokens,
        0,
    );
    assert_eq!(found, Ok(tokens[0].clone()));

    let rejected = json_parser::expect(
        &TokenType::Comma,
        ParseErrorType::UnexpectedToken,
        &tokens,
        1,
    );
    assert_eq!(
        rejected,
        Err(ParseError::new(
            ParseErrorType::UnexpectedToken,
            Some(tokens[1].clone()),
            Some(TokenType::Comma),
        ))
    );

    let ran_out = json_parser::expect(
        &TokenType::Comma,
        ParseErrorType::UnexpectedToken,
        &tokens,
        2,
    );
    assert_eq!(
        ran_out,
        Err(ParseError::new(ParseErrorType::UnexpectedEnd, None, None))
    );
}

#[test]
fn test_expect_key_wants_quotes() {
    let tokens = lex("\"key\" 1");
    assert_eq!(json_parser::expect_key(&tokens, 0), Ok("key".to_string()));
    assert_eq!(
        json_parser::expect_key(&tokens, 1),
        Err(ParseError::new(
            ParseErrorType::KeyNotInQuotes,
            Some(tokens[1].clone()),
            None,
        ))
    );
    assert_eq!(
        json_parser::expect_key(&tokens, 2),
        Err(ParseError::new(ParseErrorType::UnexpectedEnd, None, None))
    );
}

#[test]
fn test_check_trailing_comma_judgment() {
    let tokens = lex(",");
    assert_eq!(json_parser::check_trailing_comma(None, 7), Ok(7));
    assert_eq!(
        json_parser::check_trailing_comma(Some(&tokens[0]), 7),
        Err(ParseError::new(
            ParseErrorType::TrailingComma,
            Some(tokens[0].clone()),
            None,
        ))
    );
}

#[test]
fn test_number_keeps_token_payload() {
    let tokens = vec![Token {
        token_type: num_token(0.5),
        line: 1,
        col: 1,
    }];
    assert_eq!(parse(&tokens), Ok(num(0.5)));
}

#[test]
fn test_array_order_is_input_order() {
    let tokens = lex("[\"b\", \"a\"]");
    assert_eq!(
        parse(&tokens),
        Ok(Json::Array(vec![
            Json::String("b".to_string()),
            Json::String("a".to_string()),
        ]))
    );
}
