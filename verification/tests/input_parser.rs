use networking::logic::input_parser::{
    handle_escape, handle_string, is_float_text, is_whitespace, parse_input, parse_integer,
    parse_token, InputToken,
};

fn general(word: &str) -> InputToken {
    InputToken::General(word.to_string())
}

fn quoted(text: &str) -> InputToken {
    InputToken::String(text.to_string())
}

fn float(word: &str) -> InputToken {
    InputToken::Float(word.to_string())
}

#[test]
fn test_handle_escape() {
    let str = r#""\n\t\r\0\"\\\u0041""#;
    let mut idx = 1;
    let mut buffer = String::new();
    handle_escape(&str, &mut idx, &mut buffer).unwrap();
    assert_eq!(buffer, "\n");
    buffer.clear();
    handle_escape(&str, &mut idx, &mut buffer).unwrap();
    assert_eq!(buffer, "\t");
    buffer.clear();
    handle_escape(&str, &mut idx, &mut buffer).unwrap();
    assert_eq!(buffer, "\r");
    buffer.clear();
    handle_escape(&str, &mut idx, &mut buffer).unwrap();
    assert_eq!(buffer, "\0");
    buffer.clear();
    handle_escape(&str, &mut idx, &mut buffer).unwrap();
    assert_eq!(buffer, "\"");
    buffer.clear();
    handle_escape(&str, &mut idx, &mut buffer).unwrap();
    assert_eq!(buffer, "\\");
    buffer.clear();
    handle_escape(&str, &mut idx, &mut buffer).unwrap();
    assert_eq!(buffer, "A");
}

#[test]
fn test_handle_string() {
    let str = r#""Hello, \"world\"!\t\n\u0042\"""#;
    let mut idx = 0;
    let mut buffer = String::new();
    handle_string(&str, &mut idx, &mut buffer).unwrap();
    assert_eq!(buffer, "Hello, \"world\"!\t\nB\"");
}

#[test]
fn test_parse_input() {
    let input = r#"Hello, "world\u0042\"!" 42 3.14"#;
    let tokens = parse_input(input).unwrap();
    assert_eq!(tokens.len(), 4);
    match &tokens[0] {
        InputToken::General(s) => assert_eq!(s, "Hello,"),
        _ => panic!("Unexpected token"),
    }
    match &tokens[1] {
        InputToken::String(s) => assert_eq!(s, "worldB\"!"),
        _ => panic!("Unexpected token"),
    }
    match &tokens[2] {
        InputToken::Integer(i) => assert_eq!(i, &42),
        _ => panic!("Unexpected token"),
    }
    match &tokens[3] {
        InputToken::Float(f) => assert_eq!(&f.parse::<f64>().unwrap(), &3.14),
        _ => panic!("Unexpected token"),
    }
}

#[test]
fn tokenizer_round_trip() {
    let tokens = parse_input(r#"a "b\"c" 1 2.5"#).unwrap();
    assert_eq!(
        tokens,
        vec![general("a"), quoted("b\"c"), InputToken::Integer(1), float("2.5")]
    );
    match &tokens[3] {
        InputToken::Float(word) => assert_eq!(word.parse::<f64>().unwrap(), 2.5),
        _ => panic!("not a float"),
    }
}

#[test]
fn unterminated_string_is_reported() {
    assert_eq!(parse_input(r#"say "hello"#), Err("Unexpected end of input".to_string()));
    assert_eq!(parse_input(r#"""#), Err("Unexpected end of input".to_string()));
    assert_eq!(parse_input(r#""abc\"#), Err("Unexpected end of input".to_string()));
    assert_eq!(parse_input(r#""abc\u00"#), Err("Unexpected end of input".to_string()));
}

#[test]
fn quote_inside_word_is_reported() {
    assert_eq!(parse_input(r#"abc"def""#), Err("Unexpected quote".to_string()));
    assert_eq!(
        parse_input(r#""abc"def"#),
        Ok(vec![quoted("abc"), general("def")])
    );
    assert_eq!(parse_input(r#""a""b""#), Ok(vec![quoted("a"), quoted("b")]));
}

#[test]
fn invalid_escapes_are_reported() {
    assert_eq!(parse_input(r#""\q""#), Err("Invalid escape character".to_string()));
    assert_eq!(parse_input(r#""\u12g4""#), Err("Invalid unicode escape".to_string()));
    assert_eq!(parse_input(r#""\u12""#), Err("Invalid unicode escape".to_string()));
    assert_eq!(parse_input(r#""\ud800""#), Err("Invalid unicode escape".to_string()));
    assert_eq!(parse_input(r#""\uDFFF""#), Err("Invalid unicode escape".to_string()));
}

#[test]
fn escape_positions_on_faults() {
    let line = r#""\q rest""#;
    let mut idx = 1;
    let mut buffer = String::from("kept");
    assert_eq!(
        handle_escape(&line, &mut idx, &mut buffer),
        Err("Invalid escape character".to_string())
    );
    assert_eq!(idx, 3);
    assert_eq!(buffer, "kept");

    let line = r#"\u00zz"#;
    let mut idx = 0;
    assert_eq!(
        handle_escape(&line, &mut idx, &mut buffer),
        Err("Invalid unicode escape".to_string())
    );
    assert_eq!(idx, 4);
    assert_eq!(buffer, "kept");

    let line = r#"\udabc"#;
    let mut idx = 0;
    assert_eq!(
        handle_escape(&line, &mut idx, &mut buffer),
        Err("Invalid unicode escape".to_string())
    );
    assert_eq!(idx, 6);

    let line = "\\";
    let mut idx = 0;
    assert_eq!(
        handle_escape(&line, &mut idx, &mut buffer),
        Err("Unexpected end of input".to_string())
    );
    assert_eq!(idx, 1);
    assert_eq!(buffer, "kept");
}

#[test]
fn unicode_escapes_name_characters() {
    assert_eq!(parse_input(r#""\u00e9\ufffd\u0000""#), Ok(vec![quoted("\u{e9}\u{fffd}\0")]));
    assert_eq!(parse_input(r#""\ud7ff\uE000""#), Ok(vec![quoted("\u{d7ff}\u{e000}")]));
}

#[test]
fn handle_string_appends_and_stops_behind_the_quote() {
    let line = r#"x "ab" y"#;
    let mut idx = 2;
    let mut buffer = String::from(">");
    assert_eq!(handle_string(&line, &mut idx, &mut buffer), Ok(()));
    assert_eq!(buffer, ">ab");
    assert_eq!(idx, 6);

    let line = r#""ab\qcd""#;
    let mut idx = 0;
    let mut buffer = String::new();
    assert_eq!(
        handle_string(&line, &mut idx, &mut buffer),
        Err("Invalid escape character".to_string())
    );
    assert_eq!(buffer, "ab");
    assert_eq!(idx, 5);
}

#[test]
fn characters_count_as_one_position() {
    assert_eq!(
        parse_input("send \"jos\u{e9}\" \"h\u{e9}llo w\u{f6}rld\""),
        Ok(vec![general("send"), quoted("jos\u{e9}"), quoted("h\u{e9}llo w\u{f6}rld")])
    );
    assert_eq!(
        parse_input("\u{3b1}\u{3b2}\u{3000}\u{3b3} 7"),
        Ok(vec![general("\u{3b1}\u{3b2}"), general("\u{3b3}"), InputToken::Integer(7)])
    );
}

#[test]
fn empty_and_blank_lines_have_no_tokens() {
    assert_eq!(parse_input(""), Ok(vec![]));
    assert_eq!(parse_input(" \t\r\n "), Ok(vec![]));
    assert_eq!(parse_input("  a  "), Ok(vec![general("a")]));
    assert_eq!(parse_input("\"\""), Ok(vec![quoted("")]));
}

#[test]
fn whitespace_agrees_with_the_standard_library() {
    let mut code: u32 = 0;
    while code <= 0x10ffff {
        if let Some(c) = char::from_u32(code) {
            assert_eq!(is_whitespace(c), c.is_whitespace(), "code {:x}", code);
        }
        code += 1;
    }
}

#[test]
fn integers_agree_with_the_standard_library() {
    let words = [
        "0", "7", "42", "-42", "+42", "007", "-0", "+0", "9223372036854775807",
        "9223372036854775808", "-9223372036854775808", "-9223372036854775809",
        "+9223372036854775807", "18446744073709551616", "99999999999999999999999999", "", "+",
        "-", "--1", "+-1", "1-", "1_000", "1.0", "0x10", "12a", "a12", " 1", "1 ",
        "\u{663}", "\u{ff11}", "1e3", "000000000000000000000000000001",
        "-000000000000000000009223372036854775808",
    ];
    for word in words {
        assert_eq!(parse_integer(word), word.parse::<i64>().ok(), "word {:?}", word);
    }
    assert_eq!(parse_integer("-9223372036854775808"), Some(i64::MIN));
    assert_eq!(parse_integer("9223372036854775807"), Some(i64::MAX));
    assert_eq!(parse_integer("9223372036854775808"), None);
}

#[test]
fn floats_agree_with_the_standard_library() {
    let words = [
        "3.14", "2.5", "0", "1", "-1", "+1", "1.", ".5", "-.5", "+.5", ".", "-.", "+", "-", "",
        "1e5", "1E5", "1e+5", "1e-5", "1e", "1e+", "e5", ".e5", "1.e5", ".5e5", "1.5e", "1.5e5x",
        "1..5", "1.5.5", "inf", "INF", "Inf", "-inf", "+inf", "infinity", "INFINITY", "-Infinity",
        "infinit", "infinityy", "nan", "NaN", "-nan", "+NAN", "nanx", "na", "in", "1f32", "0x10",
        "1_000.0", " 1.0", "1.0 ", "1e5.0", "1e5e5", "--1.0", "+-1.0", "1,5",
        "99999999999999999999999999", "1e99999", "0.000000000000000000000000000000001",
        "\u{663}.5", "1.\u{ff11}", "i\u{307}nf", "\u{130}nf", "nan\u{e9}", "-", "+e5", "1e5-",
        "e", "E", "1E", "1E+", "1E-3",
    ];
    for word in words {
        assert_eq!(is_float_text(word), word.parse::<f64>().is_ok(), "word {:?}", word);
    }
}

#[test]
fn words_become_tokens() {
    assert_eq!(parse_token("42".to_string()), InputToken::Integer(42));
    assert_eq!(parse_token("-7".to_string()), InputToken::Integer(-7));
    assert_eq!(parse_token("3.14".to_string()), float("3.14"));
    assert_eq!(parse_token("9223372036854775808".to_string()), float("9223372036854775808"));
    assert_eq!(parse_token("nan".to_string()), float("nan"));
    assert_eq!(parse_token("Hello,".to_string()), general("Hello,"));
    assert_eq!(parse_token("1.2.3".to_string()), general("1.2.3"));
    assert_eq!(parse_token("".to_string()), general(""));
}

#[test]
fn tokens_clone_equal() {
    for token in parse_input(r#"word "text" -12 1e3"#).unwrap() {
        assert_eq!(token.clone(), token);
    }
}

#[test]
fn an_unclosed_string_is_reported_wherever_it_opens() {
    let end = Err("Unexpected end of input".to_string());
    assert_eq!(parse_input("a 1 \"b c"), end);
    assert_eq!(parse_input("\"closed\" \"open"), end);
    assert_eq!(parse_input("\"closed\"\"open"), end);
    assert_eq!(parse_input(r#"say "he said \"hi\" and left"#), end);
    assert_eq!(parse_input(r#"say "tab\t and quote \""#), end);
    assert_eq!(parse_input(r#"x "a\\\"#), end);
    assert_eq!(parse_input(r#"x "\u0041 \" more"#), end);
    assert_eq!(
        parse_input(r#"x "bad \q escape"#),
        Err("Invalid escape character".to_string())
    );
    assert_eq!(
        parse_input(r#"x "bad \u12 escape"#),
        Err("Invalid unicode escape".to_string())
    );
}
