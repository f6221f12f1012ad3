//! Tokenizing schema source text.

use phenix::compiler::lexer::{tokenize, LineMap, TokenKind};

fn kinds(src: &str) -> Vec<TokenKind> {
    tokenize(src).into_iter().map(|t| t.kind).collect()
}

#[test]
fn tokenize_struct_item() {
    let toks = tokenize("struct Point { x: uint, y: uint }");
    let expected = [
        (TokenKind::KwStruct, "struct"),
        (TokenKind::Ident, "Point"),
        (TokenKind::LBrace, ""),
        (TokenKind::Ident, "x"),
        (TokenKind::Colon, ""),
        (TokenKind::Ident, "uint"),
        (TokenKind::Comma, ""),
        (TokenKind::Ident, "y"),
        (TokenKind::Colon, ""),
        (TokenKind::Ident, "uint"),
        (TokenKind::RBrace, ""),
    ];
    assert_eq!(toks.len(), expected.len());
    for (tok, (kind, text)) in toks.iter().zip(expected.iter()) {
        assert_eq!(tok.kind, *kind);
        assert_eq!(tok.text, *text);
    }
    assert_eq!(toks[0].start, 0);
    assert_eq!(toks[1].start, 7);
}

#[test]
fn tokenize_import_line() {
    let toks = tokenize("import Point as P, Size from \"nested.phenix\"");
    assert_eq!(
        kinds("import Point as P, Size from \"nested.phenix\""),
        vec![
            TokenKind::KwImport,
            TokenKind::Ident,
            TokenKind::KwAs,
            TokenKind::Ident,
            TokenKind::Comma,
            TokenKind::Ident,
            TokenKind::KwFrom,
            TokenKind::StrLit,
        ]
    );
    assert_eq!(toks[7].text, "nested.phenix");
}

#[test]
fn tokenize_drops_comments_and_newlines() {
    let src = "flags F { // trailing words\n  a,\r\n  b\n}";
    assert_eq!(
        kinds(src),
        vec![
            TokenKind::KwFlags,
            TokenKind::Ident,
            TokenKind::LBrace,
            TokenKind::Ident,
            TokenKind::Comma,
            TokenKind::Ident,
            TokenKind::RBrace,
        ]
    );
}

#[test]
fn tokenize_generics_and_star() {
    assert_eq!(
        kinds("vector<stream<bool>> *"),
        vec![
            TokenKind::Ident,
            TokenKind::Lt,
            TokenKind::Ident,
            TokenKind::Lt,
            TokenKind::Ident,
            TokenKind::Gt,
            TokenKind::Gt,
            TokenKind::Star,
        ]
    );
}

#[test]
fn tokenize_unknown_and_unterminated() {
    assert_eq!(kinds("?"), vec![TokenKind::Unknown]);
    // an unterminated string ends the scan with one unknown token
    assert_eq!(kinds("enum \"oops"), vec![TokenKind::KwEnum, TokenKind::Unknown]);
}

#[test]
fn line_and_column_positions() {
    let map = LineMap::new("ab\ncd\n\nx");
    assert_eq!(map.line_col(0), (1, 1));
    assert_eq!(map.line_col(1), (1, 2));
    assert_eq!(map.line_col(3), (2, 1));
    assert_eq!(map.line_col(4), (2, 2));
    assert_eq!(map.line_col(6), (3, 1));
    assert_eq!(map.line_col(7), (4, 1));
}
