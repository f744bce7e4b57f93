use jolt_witness::enum_decl::{EnumParser, Token, VariantParser};

fn ident(s: &str) -> Token {
    Token::Ident(String::from(s))
}

fn lit(s: &str) -> Token {
    Token::Literal(String::from(s))
}

/// `Subtables, EqSubtable, sub::LtSubtable<8, 16>, a::b::Id`
fn declaration(trailing: bool) -> Vec<Token> {
    let mut t = vec![
        ident("Subtables"),
        Token::Comma,
        ident("EqSubtable"),
        Token::Comma,
        ident("sub"),
        Token::PathSep,
        ident("LtSubtable"),
        Token::Lt,
        lit("8"),
        Token::Comma,
        lit("16"),
        Token::Gt,
        Token::Comma,
        ident("a"),
        Token::PathSep,
        ident("b"),
        Token::PathSep,
        ident("Id"),
    ];
    if trailing {
        t.push(Token::Comma);
    }
    t
}

fn check_declaration(e: &EnumParser) {
    assert_eq!(e.id, "Subtables");
    assert_eq!(e.entries.len(), 3);
    assert!(e.entries[0].path.is_empty());
    assert_eq!(e.entries[0].id, "EqSubtable");
    assert!(e.entries[0].const_generics.is_empty());
    assert_eq!(e.entries[1].path, vec![String::from("sub")]);
    assert_eq!(e.entries[1].id, "LtSubtable");
    assert_eq!(e.entries[1].const_generics, vec![String::from("8"), String::from("16")]);
    assert_eq!(e.entries[2].path, vec![String::from("a"), String::from("b")]);
    assert_eq!(e.entries[2].id, "Id");
}

#[test]
fn parse_declaration() {
    let e = EnumParser::parse(&declaration(false)).unwrap();
    check_declaration(&e);
}

#[test]
fn parse_declaration_trailing_comma() {
    let e = EnumParser::parse(&declaration(true)).unwrap();
    check_declaration(&e);
}

#[test]
fn parse_declaration_without_variants() {
    let e = EnumParser::parse(&[ident("Empty"), Token::Comma]).unwrap();
    assert_eq!(e.id, "Empty");
    assert!(e.entries.is_empty());
}

#[test]
fn parse_rejects_missing_comma_after_name() {
    assert!(EnumParser::parse(&[ident("E")]).is_err());
    assert!(EnumParser::parse(&[ident("E"), ident("A")]).is_err());
    assert!(EnumParser::parse(&[]).is_err());
}

#[test]
fn parse_rejects_non_identifier_name() {
    assert!(EnumParser::parse(&[lit("1"), Token::Comma]).is_err());
    assert!(EnumParser::parse(&[Token::Other, Token::Comma]).is_err());
}

#[test]
fn parse_rejects_lone_or_double_comma() {
    assert!(EnumParser::parse(&[ident("E"), Token::Comma, Token::Comma]).is_err());
    assert!(EnumParser::parse(&[ident("E"), Token::Comma, ident("A"), Token::Comma, Token::Comma]).is_err());
}

#[test]
fn parse_rejects_bad_generics() {
    // `E, A<>`
    assert!(EnumParser::parse(&[ident("E"), Token::Comma, ident("A"), Token::Lt, Token::Gt]).is_err());
    // `E, A<8,>`
    assert!(EnumParser::parse(&[
        ident("E"),
        Token::Comma,
        ident("A"),
        Token::Lt,
        lit("8"),
        Token::Comma,
        Token::Gt
    ])
    .is_err());
    // `E, A<8`
    assert!(EnumParser::parse(&[ident("E"), Token::Comma, ident("A"), Token::Lt, lit("8")]).is_err());
}

#[test]
fn parse_rejects_dangling_path() {
    // `E, a::`
    assert!(EnumParser::parse(&[ident("E"), Token::Comma, ident("a"), Token::PathSep]).is_err());
    // `E, A B`
    assert!(EnumParser::parse(&[ident("E"), Token::Comma, ident("A"), ident("B")]).is_err());
}

#[test]
fn parse_error_position() {
    let err = EnumParser::parse(&[ident("E"), ident("A")]).unwrap_err();
    assert_eq!(err.position, 1);
}

fn error_at(toks: &[Token]) -> usize {
    EnumParser::parse(toks).unwrap_err().position
}

#[test]
fn parse_error_points_at_first_bad_token() {
    assert_eq!(error_at(&[]), 0);
    assert_eq!(error_at(&[Token::Comma]), 0);
    assert_eq!(error_at(&[ident("E")]), 1);
    // `E, A B`: the second identifier
    assert_eq!(error_at(&[ident("E"), Token::Comma, ident("A"), ident("B")]), 3);
    // `E, A<8`: the tokens end too early
    assert_eq!(error_at(&[ident("E"), Token::Comma, ident("A"), Token::Lt, lit("8")]), 5);
    // `E, a::`
    assert_eq!(error_at(&[ident("E"), Token::Comma, ident("a"), Token::PathSep]), 4);
    // `E,,`
    assert_eq!(error_at(&[ident("E"), Token::Comma, Token::Comma]), 2);
    // `E, A<>`: the `>`
    assert_eq!(error_at(&[ident("E"), Token::Comma, ident("A"), Token::Lt, Token::Gt]), 4);
    // `E, A<8,>`: the `>`
    assert_eq!(
        error_at(&[ident("E"), Token::Comma, ident("A"), Token::Lt, lit("8"), Token::Comma, Token::Gt]),
        6
    );
    // `E, A,,`: the second comma
    assert_eq!(error_at(&[ident("E"), Token::Comma, ident("A"), Token::Comma, Token::Comma]), 4);
}

#[test]
fn variant_parse_error_position() {
    // `m::` from position 0 ends too early
    let err = VariantParser::parse(&[ident("m"), Token::PathSep], 0).unwrap_err();
    assert_eq!(err.position, 2);
    // `T<,` stops at the comma
    let err = VariantParser::parse(&[ident("T"), Token::Lt, Token::Comma], 0).unwrap_err();
    assert_eq!(err.position, 2);
}

#[test]
fn parse_variant_alone() {
    let toks = vec![ident("m"), Token::PathSep, ident("T"), Token::Lt, lit("4"), Token::Gt, Token::Comma];
    let (v, end) = VariantParser::parse(&toks, 0).unwrap();
    assert_eq!(end, 6);
    assert_eq!(v.path, vec![String::from("m")]);
    assert_eq!(v.id, "T");
    assert_eq!(v.const_generics, vec![String::from("4")]);
}

#[test]
fn variant_ident_appends_const_generics() {
    let e = EnumParser::parse(&declaration(false)).unwrap();
    assert_eq!(e.entries[0].to_ident(), "EqSubtable");
    assert_eq!(e.entries[1].to_ident(), "LtSubtable_8_16");
    assert_eq!(e.entries[2].to_ident(), "Id");
}

use jolt_witness::lexer::{lex, RawToken};

fn raw_ident(s: &str) -> RawToken {
    RawToken::Ident(String::from(s))
}

fn punct(ch: char, joint: bool) -> RawToken {
    RawToken::Punct { ch, joint }
}

#[test]
fn lex_joins_path_separators() {
    // `E, a::B<8>`
    let raw = vec![
        raw_ident("E"),
        punct(',', false),
        raw_ident("a"),
        punct(':', true),
        punct(':', false),
        raw_ident("B"),
        punct('<', false),
        RawToken::Literal(String::from("8")),
        punct('>', false),
    ];
    let (tokens, origins) = lex(&raw);
    assert_eq!(origins, vec![0, 1, 2, 3, 5, 6, 7, 8]);
    let e = EnumParser::parse(&tokens).unwrap();
    assert_eq!(e.id, "E");
    assert_eq!(e.entries.len(), 1);
    assert_eq!(e.entries[0].path, vec![String::from("a")]);
    assert_eq!(e.entries[0].id, "B");
    assert_eq!(e.entries[0].to_ident(), "B_8");
}

#[test]
fn lex_separate_colons_are_not_a_path() {
    // `E, a: :B`
    let raw = vec![
        raw_ident("E"),
        punct(',', false),
        raw_ident("a"),
        punct(':', false),
        punct(':', false),
        raw_ident("B"),
    ];
    let (tokens, _) = lex(&raw);
    assert!(matches!(tokens[3], Token::Other));
    assert!(EnumParser::parse(&tokens).is_err());
}

#[test]
fn lex_groups_without_delimiters_are_transparent() {
    // `E, $v` where `$v` stands for `a::B<8>` passed through a macro
    let raw = vec![
        raw_ident("E"),
        punct(',', false),
        RawToken::EnterInvisible,
        raw_ident("a"),
        punct(':', true),
        punct(':', false),
        raw_ident("B"),
        punct('<', false),
        RawToken::EnterInvisible,
        RawToken::Literal(String::from("8")),
        RawToken::LeaveInvisible,
        punct('>', false),
        RawToken::LeaveInvisible,
    ];
    let (tokens, origins) = lex(&raw);
    assert_eq!(origins, vec![0, 1, 3, 4, 6, 7, 9, 11]);
    let e = EnumParser::parse(&tokens).unwrap();
    assert_eq!(e.entries[0].path, vec![String::from("a")]);
    assert_eq!(e.entries[0].to_ident(), "B_8");
}

#[test]
fn lex_delimited_groups_are_single_tokens() {
    let raw = vec![raw_ident("E"), punct(',', false), raw_ident("A"), RawToken::Group];
    let (tokens, _) = lex(&raw);
    assert!(matches!(tokens[3], Token::Other));
    assert!(EnumParser::parse(&tokens).is_err());
}

#[test]
fn lex_keywords_are_not_identifiers() {
    let raw = vec![
        raw_ident("fn"),
        raw_ident("foo"),
        raw_ident("r#type"),
        RawToken::Group,
        raw_ident("_"),
        raw_ident("Self"),
        raw_ident("yield"),
        raw_ident("union"),
    ];
    let (mut tokens, _) = lex(&raw);
    assert!(matches!(tokens[4], Token::Other));
    assert!(matches!(tokens[5], Token::Other));
    assert!(matches!(tokens[6], Token::Other));
    assert!(matches!(&tokens[7], Token::Ident(s) if s == "union"));
    assert!(matches!(tokens[0], Token::Other));
    assert!(matches!(&tokens[1], Token::Ident(s) if s == "foo"));
    assert!(matches!(&tokens[2], Token::Ident(s) if s == "r#type"));
    assert!(matches!(tokens[3], Token::Other));
    assert!(EnumParser::parse(&[tokens.remove(0), Token::Comma]).is_err());
}

fn lexes_as_ident(w: &str) -> bool {
    let (tokens, _) = lex(&[RawToken::Ident(String::from(w))]);
    matches!(&tokens[0], Token::Ident(s) if s == w)
}

#[test]
fn keywords_are_not_identifiers() {
    for w in ["_", "fn", "struct", "Self", "self", "dyn", "async", "yield", "unsized"] {
        assert!(!lexes_as_ident(w), "{}", w);
    }
    for w in ["union", "auto", "Foo", "r#fn", "fnx"] {
        assert!(lexes_as_ident(w), "{}", w);
    }
    // text that is no single identifier
    assert!(!lexes_as_ident(""));
    assert!(!lexes_as_ident("a b"));
}

#[test]
fn variant_ident_drops_raw_prefix_with_const_generics() {
    let with = VariantParser {
        path: vec![],
        id: String::from("r#Foo"),
        const_generics: vec![String::from("1")],
    };
    assert_eq!(with.to_ident(), "Foo_1");
    let without = VariantParser { path: vec![], id: String::from("r#type"), const_generics: vec![] };
    assert_eq!(without.to_ident(), "r#type");
    let short = VariantParser { path: vec![], id: String::from("r"), const_generics: vec![String::from("2")] };
    assert_eq!(short.to_ident(), "r_2");
}
