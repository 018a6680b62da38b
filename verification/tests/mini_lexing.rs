use strawberry::mini::lexer::Lexer;
use strawberry::mini::table::Tables;
use strawberry::mini::token::Token;

fn all(text: &str) -> (Vec<(usize, Token, usize)>, Tables) {
    let mut l = Lexer::new(text, Tables::new());
    let mut out = vec![];
    while let Some(r) = l.next() {
        out.push(r.unwrap());
    }
    (out, l.tables)
}

fn name(t: &Token) -> String {
    format!("{:?}", t)
}

#[test]
fn a_small_class_lexes_with_lines_and_offsets() {
    let (toks, tables) = all("class Main inherits Object {\n  let x = 42;\n}");
    let got: Vec<(usize, String, usize)> = toks.iter().map(|(l, t, o)| (*l, name(t), *o)).collect();
    let want: Vec<(usize, String, usize)> = vec![
        (1, "Class_", 5),
        (1, "TypeId(\"Main\")", 10),
        (1, "Inherits", 19),
        (1, "TypeId(\"Object\")", 26),
        (1, "Lbrace", 28),
        (2, "Let", 5),
        (2, "Identifier(\"x\")", 7),
        (2, "Assign", 9),
        (2, "IntConst(\"42\")", 12),
        (2, "Semicolon", 13),
        (3, "Rbrace", 1),
    ]
    .into_iter()
    .map(|(l, t, o)| (l, t.to_string(), o))
    .collect();
    assert_eq!(got, want);
    assert_eq!(tables.id_table, vec!["x".to_string()]);
    assert_eq!(tables.int_table, vec!["42".to_string()]);
    assert!(tables.string_table.is_empty());
}

#[test]
fn the_longest_lexeme_wins_and_then_the_first_rule() {
    let (toks, _) = all("classy => == = <= // note\nisvoid");
    let got: Vec<String> = toks.iter().map(|(_, t, _)| name(t)).collect();
    assert_eq!(
        got,
        vec!["Identifier(\"classy\")", "MoreE", "Equal", "Assign", "LessE", "Isvoid"]
            .into_iter()
            .map(|s| s.to_string())
            .collect::<Vec<String>>()
    );
    assert_eq!(toks[5].0, 2);
}

#[test]
fn offsets_count_bytes_and_strings_read_escapes() {
    let (toks, tables) = all("\"\u{e9}\\n\" \u{e9}");
    assert!(matches!(&toks[0].1, Token::StringConst(s) if s == "\u{e9}\n"));
    assert_eq!(toks[0].2, 6);
    assert!(matches!(&toks[1].1, Token::Error(s) if s == "Unexpected character: \u{e9}"));
    assert_eq!(toks[1].2, 9);
    assert_eq!(tables.string_table, vec!["\u{e9}\n".to_string()]);
}

#[test]
fn comments_and_blanks_are_skipped() {
    let (toks, _) = all("\t/* a\nb */ true\r false");
    let got: Vec<String> = toks.iter().map(|(_, t, _)| name(t)).collect();
    assert_eq!(got, vec!["BoolConst(true)".to_string(), "BoolConst(false)".to_string()]);
    assert_eq!(toks[0].0, 1);
}
