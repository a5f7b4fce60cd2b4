use fsm_lexer::lexical_analyzer::{LexicalAnalyzer, Token, TokenKind, TokenRecorder};

fn scan(text: &str) -> Vec<Token> {
    let mut analyzer = LexicalAnalyzer::new(TokenRecorder::new());
    analyzer.lex(text);
    analyzer.into_collector().tokens
}

fn tag(t: &Token) -> String {
    match t.kind {
        TokenKind::OpenBrace => "{".to_string(),
        TokenKind::CloseBrace => "}".to_string(),
        TokenKind::OpenParenthesis => "(".to_string(),
        TokenKind::CloseParenthesis => ")".to_string(),
        TokenKind::OpenAngleBracket => "<".to_string(),
        TokenKind::CloseAngleBracket => ">".to_string(),
        TokenKind::Dash => "-".to_string(),
        TokenKind::Colon => ":".to_string(),
        TokenKind::Name => t.text.clone(),
        TokenKind::Error => "ERROR".to_string(),
    }
}

fn trace(text: &str) -> String {
    scan(text).iter().map(tag).collect::<Vec<String>>().join(",")
}

fn assert_lines(lines: &str, expected: &str) {
    assert_eq!(trace(lines), expected);
}

fn summary(text: &str) -> Vec<(TokenKind, String, u32, u32)> {
    scan(text).into_iter().map(|t| (t.kind, t.text, t.line, t.position)).collect()
}

#[test]
fn test_empty_line() {
    assert_lines("", "");
}

#[test]
fn test_whitespace_line() {
    assert_lines("  ", "");
}

#[test]
fn test_single_char_tokens() {
    assert_lines("{", "{");
    assert_lines("}", "}");
    assert_lines("(", "(");
    assert_lines(")", ")");
    assert_lines("<", "<");
    assert_lines(">", ">");
    assert_lines("-", "-");
    assert_lines(":", ":");
}

#[test]
fn test_name() {
    assert_lines("name", "name");
    assert_lines("name1", "name1");
    assert_lines("name_1", "name_1");
    assert_lines("name 1", "name,1");
}

#[test]
fn test_assert_combination() {
    assert_lines("{ name }", "{,name,}");
    assert_lines("{     name1 }", "{,name1,}");
    assert_lines("{ name_1   }", "{,name_1,}");
    assert_lines("{ name 1       }", "{,name,1,}");
}

#[test]
fn test_multiline() {
    assert_lines("{ name }\n{ name1 }", "{,name,},{,name1,}");
}

#[test]
fn test_error() {
    assert_lines("{ name }\n{ name1 } %", "{,name,},{,name1,},ERROR");
    assert_lines(
        "{ name }\n{ name1 } %$ ^ ",
        "{,name,},{,name1,},ERROR,ERROR,ERROR",
    );
}

#[test]
fn punctuation_kinds_and_positions() {
    assert_eq!(
        summary("{}()<>-:"),
        vec![
            (TokenKind::OpenBrace, String::new(), 1, 0),
            (TokenKind::CloseBrace, String::new(), 1, 1),
            (TokenKind::OpenParenthesis, String::new(), 1, 2),
            (TokenKind::CloseParenthesis, String::new(), 1, 3),
            (TokenKind::OpenAngleBracket, String::new(), 1, 4),
            (TokenKind::CloseAngleBracket, String::new(), 1, 5),
            (TokenKind::Dash, String::new(), 1, 6),
            (TokenKind::Colon, String::new(), 1, 7),
        ]
    );
}

#[test]
fn each_punctuation_alone_is_one_call() {
    let cases = [
        ("{", TokenKind::OpenBrace),
        ("}", TokenKind::CloseBrace),
        ("(", TokenKind::OpenParenthesis),
        (")", TokenKind::CloseParenthesis),
        ("<", TokenKind::OpenAngleBracket),
        (">", TokenKind::CloseAngleBracket),
        ("-", TokenKind::Dash),
        (":", TokenKind::Colon),
    ];
    for (text, kind) in cases {
        assert_eq!(summary(text), vec![(kind, String::new(), 1, 0)]);
    }
}

#[test]
fn name_is_reported_at_its_first_column() {
    assert_eq!(
        summary("  ab_9 x"),
        vec![
            (TokenKind::Name, "ab_9".to_string(), 1, 2),
            (TokenKind::Name, "x".to_string(), 1, 7),
        ]
    );
}

#[test]
fn name_run_is_one_call() {
    assert_eq!(
        summary("__long_Name_42__"),
        vec![(TokenKind::Name, "__long_Name_42__".to_string(), 1, 0)]
    );
}

#[test]
fn unknown_character_reports_error_and_resumes() {
    assert_eq!(
        summary("a%b"),
        vec![
            (TokenKind::Name, "a".to_string(), 1, 0),
            (TokenKind::Error, "Unknown token".to_string(), 1, 1),
            (TokenKind::Name, "b".to_string(), 1, 2),
        ]
    );
    assert_eq!(
        summary("$"),
        vec![(TokenKind::Error, "Unknown token".to_string(), 1, 0)]
    );
    assert_eq!(
        summary("^^"),
        vec![
            (TokenKind::Error, "Unknown token".to_string(), 1, 0),
            (TokenKind::Error, "Unknown token".to_string(), 1, 1),
        ]
    );
}

#[test]
fn lines_count_from_one_and_columns_reset() {
    assert_eq!(
        summary("a\n  b\n\n:c"),
        vec![
            (TokenKind::Name, "a".to_string(), 1, 0),
            (TokenKind::Name, "b".to_string(), 2, 2),
            (TokenKind::Colon, String::new(), 4, 0),
            (TokenKind::Name, "c".to_string(), 4, 1),
        ]
    );
}

#[test]
fn trailing_separator_adds_an_empty_line() {
    assert_eq!(summary("x\n"), vec![(TokenKind::Name, "x".to_string(), 1, 0)]);
    assert_eq!(summary("\n\nx"), vec![(TokenKind::Name, "x".to_string(), 3, 0)]);
}

#[test]
fn blank_text_is_silent() {
    assert!(scan(" \t\n\r\n  \u{0b}\u{0c}").is_empty());
}

#[test]
fn unicode_white_space_is_passed_over() {
    assert_eq!(
        summary("a\u{a0}b\u{3000}c"),
        vec![
            (TokenKind::Name, "a".to_string(), 1, 0),
            (TokenKind::Name, "b".to_string(), 1, 2),
            (TokenKind::Name, "c".to_string(), 1, 4),
        ]
    );
}

#[test]
fn unicode_letters_and_digits_make_names() {
    assert_eq!(
        summary("état_٣ ²"),
        vec![
            (TokenKind::Name, "état_٣".to_string(), 1, 0),
            (TokenKind::Name, "²".to_string(), 1, 7),
        ]
    );
}

#[test]
fn columns_count_characters_not_bytes() {
    assert_eq!(
        summary("éé:"),
        vec![
            (TokenKind::Name, "éé".to_string(), 1, 0),
            (TokenKind::Colon, String::new(), 1, 2),
        ]
    );
}

#[test]
fn columns_stay_within_their_line() {
    let text = "{ a }\nlong_name\n%\n  -";
    let lines: Vec<&str> = text.split('\n').collect();
    let tokens = scan(text);
    assert_eq!(tokens.len(), 6);
    let mut last = (0u32, 0u32);
    for t in &tokens {
        assert!(t.line >= 1 && (t.line as usize) <= lines.len());
        assert!((t.position as usize) < lines[t.line as usize - 1].chars().count());
        assert!((t.line, t.position) > last || last == (0, 0));
        last = (t.line, t.position);
    }
}

#[test]
fn recorder_keeps_earlier_tokens_across_scans() {
    let mut analyzer = LexicalAnalyzer::new(TokenRecorder::new());
    analyzer.lex("a");
    analyzer.lex("b");
    let tokens = &analyzer.collector().tokens;
    assert_eq!(tokens.len(), 2);
    assert_eq!(tokens[0].text, "a");
    assert_eq!(tokens[1].text, "b");
    assert_eq!(tokens[1].line, 1);
}

#[test]
fn white_space_run_is_passed_whole() {
    assert_eq!(summary(" \t\r{"), vec![(TokenKind::OpenBrace, String::new(), 1, 3)]);
    assert_eq!(
        summary("\u{a0}\u{2003}a"),
        vec![(TokenKind::Name, "a".to_string(), 1, 2)]
    );
}

#[test]
fn every_unicode_white_space_is_silent() {
    assert!(scan("\u{85}\u{1680}\u{2000}\u{200a}\u{2028}\u{2029}\u{202f}\u{205f}\u{3000}").is_empty());
}

#[test]
fn accented_name_then_brace() {
    assert_eq!(
        summary("é{"),
        vec![
            (TokenKind::Name, "é".to_string(), 1, 0),
            (TokenKind::OpenBrace, String::new(), 1, 1),
        ]
    );
}

#[test]
fn calls_add_up_by_line() {
    // line 1: two punctuation marks and one name; line 2: nothing; line 3: one error and one name
    assert_eq!(scan("{ ab }\n   \n% x").len(), 5);
}
