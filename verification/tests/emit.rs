//! Emitting target source for a compiled project, and the type-dependency
//! order with its cycle detection.

use phenix::codegen::order::type_dependency_order;
use phenix::codegen::rust::generate;
use phenix::compiler::db::{compile, FileImport, SchemaFile};
use phenix::compiler::ir::{FieldData, ItemData, StructData, TypeData, VariantData, EnumData};
use phenix::project::{
    BuiltinType, Field, FlagsType, Language, Module, ModuleId, ModulePath, Project, StructType,
    Type, TypeId, UserType, UserTypeId,
};

fn comps(parts: &[&str]) -> Vec<String> {
    parts.iter().map(|p| p.to_string()).collect()
}

fn ty_ref(name: &str) -> TypeData {
    TypeData { name: name.to_string(), generics: Vec::new() }
}

fn cross_module_project() -> Project {
    let files = vec![
        SchemaFile {
            path: comps(&["dir", "index.phenix"]),
            items: vec![ItemData::Struct(StructData {
                name: "Holder".to_string(),
                fields: vec![
                    FieldData { name: "kind".to_string(), ty: ty_ref("Kind") },
                    FieldData { name: "count".to_string(), ty: ty_ref("uint") },
                ],
            })],
            imports: vec![FileImport {
                star: true,
                aliases: Vec::new(),
                path: comps(&["nested.phenix"]),
            }],
        },
        SchemaFile {
            path: comps(&["dir", "nested.phenix"]),
            items: vec![ItemData::Enum(EnumData {
                name: "Kind".to_string(),
                variants: vec![
                    VariantData { name: "Soft".to_string(), fields: Vec::new() },
                    VariantData { name: "Hard".to_string(), fields: Vec::new() },
                ],
            })],
            imports: Vec::new(),
        },
    ];
    compile(&files, 0)
}

#[test]
fn emit_nested_module_namespace() {
    // a struct embedding an enum from an imported file: the nested module
    // is emitted under its namespace and referenced by relative path
    let project = cross_module_project();
    let text = generate(&project, Language::Rust).unwrap();
    assert!(text.contains("pub struct Holder {"));
    assert!(text.contains("pub kind:self::nested::Kind,"));
    assert!(text.contains("pub count:::phenix_runtime::Uint,"));
    assert!(text.contains("pub mod nested {"));
    assert!(text.contains("pub enum Kind {Soft,Hard,}"));
    assert!(text.starts_with("use phenix_runtime::prelude::*;"));
    assert!(text.ends_with("}"));
}

fn plain_struct(id: usize, name: &str, field_tys: &[TypeId]) -> UserType {
    UserType::Struct(StructType {
        id: UserTypeId(id),
        name: name.to_string(),
        fields: field_tys
            .iter()
            .enumerate()
            .map(|(k, t)| Field {
                name: format!("f{}", k),
                ty: Type { id: *t, generics: Vec::new() },
                attrs: Vec::new(),
            })
            .collect(),
        attrs: Vec::new(),
    })
}

fn one_module_project(types: Vec<UserType>) -> Project {
    Project {
        modules: vec![Module { id: ModuleId(0), path: ModulePath(Vec::new()), types }],
    }
}

#[test]
fn dependency_order_places_uses_first() {
    // a uses b, b uses c: the order must list c, then b, then a
    let project = one_module_project(vec![
        plain_struct(0, "a", &[TypeId::User(UserTypeId(1))]),
        plain_struct(1, "b", &[TypeId::User(UserTypeId(2))]),
        plain_struct(2, "c", &[]),
    ]);
    let ord = type_dependency_order(&project).unwrap();
    assert_eq!(ord, vec![UserTypeId(2), UserTypeId(1), UserTypeId(0)]);
}

#[test]
fn dependency_cycle_is_an_error() {
    let project = one_module_project(vec![
        plain_struct(0, "a", &[TypeId::User(UserTypeId(1))]),
        plain_struct(1, "b", &[TypeId::User(UserTypeId(0))]),
    ]);
    assert!(type_dependency_order(&project).is_err());
    assert!(generate(&project, Language::Rust).is_err());
}

#[test]
fn emit_flags_and_generics() {
    let project = one_module_project(vec![
        UserType::Flags(FlagsType {
            id: UserTypeId(0),
            name: "marks".to_string(),
            flags: vec!["read_only".to_string(), "hidden".to_string()],
            attrs: Vec::new(),
        }),
        plain_struct(1, "bag", &[]),
        UserType::Struct(StructType {
            id: UserTypeId(2),
            name: "holder".to_string(),
            fields: vec![Field {
                name: "items".to_string(),
                ty: Type {
                    id: TypeId::Builtin(BuiltinType::Vector),
                    generics: vec![Type {
                        id: TypeId::Builtin(BuiltinType::Bool),
                        generics: Vec::new(),
                    }],
                },
                attrs: Vec::new(),
            }],
            attrs: Vec::new(),
        }),
    ]);
    let text = generate(&project, Language::Rust).unwrap();
    assert!(text.contains("pub enum MarksFlag {ReadOnly,Hidden,}"));
    assert!(text.contains("pub type Marks = ::phenix_runtime::Flags<MarksFlag>;"));
    assert!(text.contains("pub items:::std::vec::Vec<bool>,"));
    assert!(text.contains("pub struct Holder {"));
}
