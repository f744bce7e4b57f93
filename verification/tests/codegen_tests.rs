use jolt_witness::codegen::{instructions_enum_source, subtables_enum_source};
use jolt_witness::enum_decl::{EnumParser, Token};

fn ident(s: &str) -> Token {
    Token::Ident(String::from(s))
}

/// `Subtables, EqSubtable, sub::LtSubtable<8, 16>`
fn declaration() -> EnumParser {
    EnumParser::parse(&[
        ident("Subtables"),
        Token::Comma,
        ident("EqSubtable"),
        Token::Comma,
        ident("sub"),
        Token::PathSep,
        ident("LtSubtable"),
        Token::Lt,
        Token::Literal(String::from("8")),
        Token::Comma,
        Token::Literal(String::from("16")),
        Token::Gt,
    ])
    .unwrap()
}

#[test]
fn subtables_source_is_rust() {
    let src = subtables_enum_source(&declaration());
    syn::parse_file(&src).expect("the generated source parses as Rust");
}

#[test]
fn subtables_source_variants_and_names() {
    let src = subtables_enum_source(&declaration());
    assert!(src.starts_with(
        "pub enum Subtables<F: crate::util::ZkLeanReprField> {\n\
         #[allow(non_camel_case_types)]\nEqSubtable(EqSubtable<F, >),\n\
         #[allow(non_camel_case_types)]\nLtSubtable_8_16(sub::LtSubtable<F, 8, 16>),\n}\n"
    ));
    assert!(src.contains("Self::EqSubtable(_) => \"EqSubtable\",\nSelf::LtSubtable_8_16(_) => \"LtSubtable_8_16\",\n"));
    assert!(src.contains("Self::LtSubtable_8_16(sub::LtSubtable::new()),\n"));
    assert!(src.contains(
        "if t == sub::LtSubtable::<F, 8, 16>::new().subtable_id() {\nreturn Self::LtSubtable_8_16(sub::LtSubtable::<F, 8, 16>::new());\n}\n"
    ));
    assert!(src.contains("fn LtSubtable_8_16(values_u64 in proptest::collection::vec(proptest::num::u64::ANY, 8))"));
}

#[test]
fn instructions_source_is_rust() {
    let src = instructions_enum_source(&declaration());
    syn::parse_file(&src).expect("the generated source parses as Rust");
    assert!(src.starts_with(
        "pub enum Subtables<const WORD_SIZE: usize> {\n\
         #[allow(non_camel_case_types)]\nEqSubtable(EqSubtable<WORD_SIZE, >),\n"
    ));
    assert!(src.contains("Self::LtSubtable_8_16(i) => i.combine_lookups(&vars, c, m),\n"));
    assert!(src.contains("Self::EqSubtable(i) => i.subtables(c, m),\n"));
    assert!(src.contains("Self::LtSubtable_8_16(sub::LtSubtable(42, 9001)),\n"));
}

#[test]
fn empty_declaration_source_is_rust() {
    let e = EnumParser::parse(&[ident("Nothing"), Token::Comma]).unwrap();
    syn::parse_file(&subtables_enum_source(&e)).expect("parses");
    syn::parse_file(&instructions_enum_source(&e)).expect("parses");
}
