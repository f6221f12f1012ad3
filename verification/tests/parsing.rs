//! Parsing tokenized schema text into items and imports.

use phenix::compiler::ir::ItemData;
use phenix::compiler::lexer::tokenize;
use phenix::compiler::parser::{parse, ParseOutput};

fn parse_src(src: &str) -> ParseOutput {
    parse(&tokenize(src))
}

#[test]
fn parse_struct_def() {
    let out = parse_src("struct Point { x: uint, y: vector<bool> }");
    assert!(out.errors.is_empty());
    assert!(out.imports.is_empty());
    assert_eq!(out.items.len(), 1);
    match &out.items[0] {
        ItemData::Struct(d) => {
            assert_eq!(d.name, "Point");
            assert_eq!(d.fields.len(), 2);
            assert_eq!(d.fields[0].name, "x");
            assert_eq!(d.fields[0].ty.name, "uint");
            assert_eq!(d.fields[1].ty.name, "vector");
            assert_eq!(d.fields[1].ty.generics.len(), 1);
            assert_eq!(d.fields[1].ty.generics[0].name, "bool");
        },
        _ => panic!("expected a struct"),
    }
}

#[test]
fn parse_enum_and_flags_defs() {
    let out = parse_src("enum Degree { Unknown, Highest { name: string }, }\nflags Marks { a, b }");
    assert!(out.errors.is_empty());
    assert_eq!(out.items.len(), 2);
    match &out.items[0] {
        ItemData::Enum(d) => {
            assert_eq!(d.name, "Degree");
            assert_eq!(d.variants.len(), 2);
            assert_eq!(d.variants[0].name, "Unknown");
            assert!(d.variants[0].fields.is_empty());
            assert_eq!(d.variants[1].fields.len(), 1);
        },
        _ => panic!("expected an enum"),
    }
    match &out.items[1] {
        ItemData::Flags(d) => {
            assert_eq!(d.name, "Marks");
            assert_eq!(d.flags.len(), 2);
            assert_eq!(d.flags[1].name, "b");
        },
        _ => panic!("expected flags"),
    }
}

#[test]
fn parse_imports_star_and_aliases() {
    let out = parse_src("import * from \"nested.phenix\"\nimport Point as P, Size from \"lib.phenix\"");
    assert!(out.errors.is_empty());
    assert_eq!(out.imports.len(), 2);
    assert!(out.imports[0].star);
    assert_eq!(out.imports[0].path, "nested.phenix");
    assert!(!out.imports[1].star);
    assert_eq!(out.imports[1].aliases.len(), 2);
    assert_eq!(out.imports[1].aliases[0].from, "Point");
    assert_eq!(out.imports[1].aliases[0].to, "P");
    assert_eq!(out.imports[1].aliases[1].from, "Size");
    assert_eq!(out.imports[1].aliases[1].to, "Size");
}

#[test]
fn parse_recovers_at_next_item_keyword() {
    // the first struct's body breaks; parsing resumes at the enum
    let out = parse_src("struct Bad { x: } enum Ok { A, }");
    assert_eq!(out.errors.len(), 1);
    assert_eq!(out.items.len(), 1);
    match &out.items[0] {
        ItemData::Enum(d) => assert_eq!(d.name, "Ok"),
        _ => panic!("expected the enum"),
    }
}

#[test]
fn parse_unknown_top_level_token() {
    let out = parse_src("? struct P { }");
    assert_eq!(out.errors.len(), 1);
    assert_eq!(out.errors[0], 0);
    assert_eq!(out.items.len(), 1);
}
