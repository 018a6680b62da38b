use strawberry::ctx::CompileContext;
use strawberry::lexer::lexer_parse;
use strawberry::lexer::token::Token;

fn lex(text: &str) -> (Vec<(usize, Token, usize)>, CompileContext) {
    let mut ctx = CompileContext::new();
    ctx.preprocess(text.to_string());
    let mut lexer = lexer_parse(ctx);
    let mut out = vec![];
    while let Some(r) = lexer.next() {
        out.push(r.unwrap());
    }
    (out, lexer.ctx)
}

#[test]
fn context_starts_with_its_constants() {
    let ctx = CompileContext::new();
    assert_eq!(ctx.tables.string_table.len(), 5);
    assert_eq!(ctx.tables.string_table[1], "Object".to_string());
    assert_eq!(ctx.tables.int_table, vec!["0".to_string()]);
    assert!(ctx.classes.is_empty());
}

#[test]
fn lexes_a_let() {
    let (toks, ctx) = lex("let x = 12;");
    assert_eq!(toks.len(), 5);
    assert!(matches!(toks[0], (1, Token::Let(p), 3) if p.row == 1 && p.column == 3));
    assert!(matches!(&toks[1], (1, Token::Identifier(name, p), 5) if name == "x" && p.column == 5));
    assert!(matches!(toks[2], (1, Token::Assign(_), 7)));
    assert!(matches!(&toks[3], (1, Token::IntConst(v), 10) if v == "12"));
    assert!(matches!(toks[4], (1, Token::Semicolon, 11)));
    assert!(ctx.tables.int_table.contains(&"12".to_string()));
    assert!(ctx.tables.id_table.contains(&"x".to_string()));
}

#[test]
fn newlines_count_lines_and_reset_columns() {
    let (toks, _) = lex("class A\n{\n}");
    assert!(matches!(&toks[0], (1, Token::Class_(p, _), 5) if p.row == 1));
    assert!(matches!(&toks[1], (1, Token::TypeId(t), 7) if t == "A"));
    assert!(matches!(toks[2], (2, Token::Lbrace, 1)));
    assert!(matches!(toks[3], (3, Token::Rbrace, 1)));
}

#[test]
fn longest_match_wins() {
    let (toks, _) = lex("<= == => integer");
    assert!(matches!(toks[0].1, Token::LessE));
    assert!(matches!(toks[1].1, Token::Equal));
    assert!(matches!(toks[2].1, Token::MoreE));
    assert!(matches!(&toks[3].1, Token::Identifier(n, _) if n == "integer"));
}

#[test]
fn strings_are_unescaped_and_recorded() {
    let (toks, ctx) = lex("\"a\\nb\"");
    assert!(matches!(&toks[0].1, Token::StringConst(v) if v == "a\nb"));
    assert!(ctx.tables.string_table.contains(&"a\nb".to_string()));
}

#[test]
fn comments_and_spaces_are_skipped() {
    let (toks, _) = lex("// note\n  true /* x */ false");
    assert_eq!(toks.len(), 2);
    assert!(matches!(toks[0], (2, Token::BoolConst(true), _)));
    assert!(matches!(toks[1], (2, Token::BoolConst(false), _)));
}

#[test]
fn unknown_characters_are_errors() {
    let (toks, _) = lex("#");
    assert!(matches!(&toks[0].1, Token::Error(m) if m == "Unexpected character: #"));
}

#[test]
fn empty_text_gives_no_token() {
    let (toks, _) = lex("");
    assert!(toks.is_empty());
}

#[test]
fn block_comments_count_the_lines_they_span() {
    let (toks, _) = lex("x\n/* one\ntwo\n*/ y\n\nz");
    assert!(matches!(&toks[0], (1, Token::Identifier(n, _), _) if n == "x"));
    assert!(matches!(&toks[1], (4, Token::Identifier(n, _), _) if n == "y"));
    assert!(matches!(&toks[2], (6, Token::Identifier(n, _), _) if n == "z"));
}

#[test]
fn a_string_literal_spanning_a_line_is_not_counted() {
    let (toks, _) = lex("\"a\nb\" c");
    assert!(matches!(&toks[0].1, Token::StringConst(v) if v == "a\nb"));
    assert!(matches!(&toks[1], (1, Token::Identifier(n, _), _) if n == "c"));
}
