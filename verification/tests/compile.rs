//! The compiler's name resolution and file closure: module paths, type
//! resolution against a scope, item lowering, and reachable files.

use phenix::compiler::db::{compile, reachable_files, FileImport, SchemaFile};
use phenix::compiler::ir::{
    AliasData, EnumData, FieldData, FlagData, FlagsData, ItemData, StructData, TypeData,
    VariantData,
};
use phenix::compiler::semantics::{make_def, resolve_module_path, resolve_type};
use phenix::config::{output_name, Config};
use phenix::project::Language;
use phenix::project::{BuiltinType, ModuleId, TypeId, UserType, UserTypeId};

fn comps(parts: &[&str]) -> Vec<String> {
    parts.iter().map(|p| p.to_string()).collect()
}

#[test]
fn module_path_normalization() {
    let root = comps(&["home", "schemas"]);
    let file = comps(&["home", "schemas", "nested", "my-types.phenix"]);
    let path = resolve_module_path(&root, &file);
    assert_eq!(path, comps(&["nested", "my_types"]));
}

#[test]
fn module_path_strips_leading_nonalphabetic() {
    let root = comps(&["home"]);
    let file = comps(&["home", "01_shapes!!v2.phenix"]);
    let path = resolve_module_path(&root, &file);
    assert_eq!(path, comps(&["shapes_v2"]));
}

#[test]
fn module_path_outside_root_is_external() {
    let root = comps(&["home", "schemas"]);
    let file = comps(&["home", "other", "lib.phenix"]);
    let path = resolve_module_path(&root, &file);
    assert_eq!(path, comps(&["external"]));
}

fn ty(name: &str) -> TypeData {
    TypeData { name: name.to_string(), generics: Vec::new() }
}

fn ty_of(name: &str, generics: Vec<TypeData>) -> TypeData {
    TypeData { name: name.to_string(), generics }
}

#[test]
fn resolve_builtin_types() {
    let scope = Vec::new();
    let t = resolve_type(&scope, &ty("u32")).unwrap();
    assert_eq!(t.id, TypeId::Builtin(BuiltinType::U32));

    let t = resolve_type(&scope, &ty_of("vector", vec![ty("bool")])).unwrap();
    assert_eq!(t.id, TypeId::Builtin(BuiltinType::Vector));
    assert_eq!(t.generics.len(), 1);
    assert_eq!(t.generics[0].id, TypeId::Builtin(BuiltinType::Bool));
}

#[test]
fn resolve_user_types_and_shadowing() {
    let scope = vec![("Point".to_string(), 4usize), ("bool".to_string(), 9usize)];
    let t = resolve_type(&scope, &ty("Point")).unwrap();
    assert_eq!(t.id, TypeId::User(UserTypeId(4)));

    // a built-in name shadows a user item of the same spelling
    let t = resolve_type(&scope, &ty("bool")).unwrap();
    assert_eq!(t.id, TypeId::Builtin(BuiltinType::Bool));

    assert!(resolve_type(&scope, &ty("Missing")).is_none());
}

#[test]
fn make_def_lowers_a_struct() {
    let scope = vec![("Point".to_string(), 4usize)];
    let item = ItemData::Struct(StructData {
        name: "Shape".to_string(),
        fields: vec![
            FieldData { name: "origin".to_string(), ty: ty("Point") },
            FieldData { name: "label".to_string(), ty: ty("string") },
        ],
    });
    let out = make_def(&scope, 11, &item).unwrap();
    match out {
        UserType::Struct(s) => {
            assert_eq!(s.id, UserTypeId(11));
            assert_eq!(s.name, "Shape");
            assert_eq!(s.fields.len(), 2);
            assert_eq!(s.fields[0].name, "origin");
            assert_eq!(s.fields[0].ty.id, TypeId::User(UserTypeId(4)));
            assert_eq!(s.fields[1].ty.id, TypeId::Builtin(BuiltinType::StringType));
        },
        _ => panic!("expected a struct"),
    }
}

#[test]
fn make_def_drops_unresolved_items() {
    let scope = Vec::new();
    let item = ItemData::Struct(StructData {
        name: "Shape".to_string(),
        fields: vec![FieldData { name: "origin".to_string(), ty: ty("Point") }],
    });
    assert!(make_def(&scope, 0, &item).is_none());
}

#[test]
fn make_def_lowers_enums_and_flags() {
    let scope = Vec::new();
    let item = ItemData::Enum(EnumData {
        name: "Shape".to_string(),
        variants: vec![
            VariantData { name: "Dot".to_string(), fields: Vec::new() },
            VariantData {
                name: "Line".to_string(),
                fields: vec![FieldData { name: "len".to_string(), ty: ty("uint") }],
            },
        ],
    });
    match make_def(&scope, 3, &item).unwrap() {
        UserType::Enum(e) => {
            assert_eq!(e.variants.len(), 2);
            assert_eq!(e.variants[1].fields[0].ty.id, TypeId::Builtin(BuiltinType::Uint));
        },
        _ => panic!("expected an enum"),
    }

    let item = ItemData::Flags(FlagsData {
        name: "Marks".to_string(),
        flags: vec![FlagData { name: "a".to_string() }, FlagData { name: "b".to_string() }],
    });
    match make_def(&scope, 5, &item).unwrap() {
        UserType::Flags(f) => {
            assert_eq!(f.flags, vec!["a".to_string(), "b".to_string()]);
        },
        _ => panic!("expected flags"),
    }
}

fn file(path: &[&str], import_paths: &[&[&str]]) -> SchemaFile {
    SchemaFile {
        path: comps(path),
        items: Vec::new(),
        imports: import_paths
            .iter()
            .map(|p| FileImport { star: true, aliases: Vec::new(), path: comps(p) })
            .collect(),
    }
}

#[test]
fn reachable_files_closure() {
    let files = vec![
        file(&["dir", "index.phenix"], &[&["nested.phenix"]]),
        file(&["dir", "nested.phenix"], &[&["deep", "more.phenix"]]),
        file(&["dir", "deep", "more.phenix"], &[]),
        file(&["dir", "unrelated.phenix"], &[]),
    ];
    let r = reachable_files(&files, 0);
    assert_eq!(r, vec![0, 1, 2]);
}

#[test]
fn reachable_files_cycles_and_dot_dot() {
    let files = vec![
        file(&["dir", "a.phenix"], &[&["sub", "b.phenix"]]),
        file(&["dir", "sub", "b.phenix"], &[&["..", "a.phenix"]]),
    ];
    let r = reachable_files(&files, 0);
    assert_eq!(r, vec![0, 1]);
}

#[test]
fn alias_import_record() {
    let alias = AliasData { from: "Point".to_string(), to: "P".to_string() };
    assert_eq!(alias.from, "Point");
    assert_eq!(alias.to, "P");
}


#[test]
fn compile_cross_module_project() {
    // the root file imports a nested file and uses its enum in a struct
    let files = vec![
        SchemaFile {
            path: comps(&["dir", "index.phenix"]),
            items: vec![ItemData::Struct(StructData {
                name: "Holder".to_string(),
                fields: vec![
                    FieldData { name: "kind".to_string(), ty: ty("Kind") },
                    FieldData { name: "count".to_string(), ty: ty("uint") },
                ],
            })],
            imports: vec![FileImport {
                star: true,
                aliases: Vec::new(),
                path: comps(&["nested.phenix"]),
            }],
        },
        SchemaFile {
            path: comps(&["dir", "nested.phenix"]),
            items: vec![ItemData::Enum(EnumData {
                name: "Kind".to_string(),
                variants: vec![
                    VariantData { name: "Soft".to_string(), fields: Vec::new() },
                    VariantData { name: "Hard".to_string(), fields: Vec::new() },
                ],
            })],
            imports: Vec::new(),
        },
    ];
    let project = compile(&files, 0);

    assert_eq!(project.modules.len(), 2);
    assert_eq!(project.modules[0].id, ModuleId(0));
    assert!(project.modules[0].path.0.is_empty());
    assert_eq!(project.modules[1].id, ModuleId(1));
    assert_eq!(project.modules[1].path.0, comps(&["nested"]));

    // the struct's first field resolves to the nested enum's identifier
    match &project.modules[0].types[0] {
        UserType::Struct(s) => {
            assert_eq!(s.name, "Holder");
            assert_eq!(s.fields[0].ty.id, TypeId::User(UserTypeId(1)));
            assert_eq!(s.fields[1].ty.id, TypeId::Builtin(BuiltinType::Uint));
        },
        _ => panic!("expected a struct"),
    }
    match &project.modules[1].types[0] {
        UserType::Enum(e) => {
            assert_eq!(e.name, "Kind");
            assert_eq!(e.id, UserTypeId(1));
        },
        _ => panic!("expected an enum"),
    }
}

#[test]
fn compile_aliased_import() {
    let files = vec![
        SchemaFile {
            path: comps(&["dir", "index.phenix"]),
            items: vec![ItemData::Struct(StructData {
                name: "Holder".to_string(),
                fields: vec![FieldData { name: "kind".to_string(), ty: ty("K") }],
            })],
            imports: vec![FileImport {
                star: false,
                aliases: vec![AliasData { from: "Kind".to_string(), to: "K".to_string() }],
                path: comps(&["nested.phenix"]),
            }],
        },
        SchemaFile {
            path: comps(&["dir", "nested.phenix"]),
            items: vec![ItemData::Enum(EnumData {
                name: "Kind".to_string(),
                variants: vec![VariantData { name: "Soft".to_string(), fields: Vec::new() }],
            })],
            imports: Vec::new(),
        },
    ];
    let project = compile(&files, 0);
    match &project.modules[0].types[0] {
        UserType::Struct(s) => {
            assert_eq!(s.fields[0].ty.id, TypeId::User(UserTypeId(1)));
        },
        _ => panic!("expected a struct"),
    }
}

#[test]
fn compile_drops_unresolved_types() {
    let files = vec![SchemaFile {
        path: comps(&["index.phenix"]),
        items: vec![
            ItemData::Struct(StructData {
                name: "Bad".to_string(),
                fields: vec![FieldData { name: "x".to_string(), ty: ty("Missing") }],
            }),
            ItemData::Struct(StructData {
                name: "Good".to_string(),
                fields: vec![FieldData { name: "x".to_string(), ty: ty("bool") }],
            }),
        ],
        imports: Vec::new(),
    }];
    let project = compile(&files, 0);
    assert_eq!(project.modules.len(), 1);
    assert_eq!(project.modules[0].types.len(), 1);
    match &project.modules[0].types[0] {
        UserType::Struct(s) => assert_eq!(s.name, "Good"),
        _ => panic!("expected a struct"),
    }
}


#[test]
fn basic() {
    // a single-file project lowers to one root module
    let files = vec![SchemaFile {
        path: comps(&["index.phenix"]),
        items: vec![ItemData::Struct(StructData {
            name: "Point".to_string(),
            fields: vec![
                FieldData { name: "x".to_string(), ty: ty("uint") },
                FieldData { name: "y".to_string(), ty: ty("uint") },
            ],
        })],
        imports: Vec::new(),
    }];
    let project = compile(&files, 0);
    assert_eq!(project.modules.len(), 1);
    assert!(project.modules[0].path.0.is_empty());
    assert_eq!(project.modules[0].types.len(), 1);
}

#[test]
fn imports() {
    // an import chain lowers to one module per reachable file, root first
    let files = vec![
        SchemaFile {
            path: comps(&["index.phenix"]),
            items: Vec::new(),
            imports: vec![FileImport {
                star: true,
                aliases: Vec::new(),
                path: comps(&["nested.phenix"]),
            }],
        },
        SchemaFile {
            path: comps(&["nested.phenix"]),
            items: vec![ItemData::Flags(FlagsData {
                name: "Marks".to_string(),
                flags: vec![FlagData { name: "a".to_string() }],
            })],
            imports: Vec::new(),
        },
    ];
    let project = compile(&files, 0);
    assert_eq!(project.modules.len(), 2);
    assert_eq!(project.modules[1].path.0, comps(&["nested"]));
    assert_eq!(project.modules[1].types.len(), 1);
}

#[test]
fn output_file_name_defaults() {
    assert_eq!(output_name("index", Language::Rust), "index.rs");

    let mut config = Config::new();
    assert!(config.chosen_dir().is_none());
    config.out_dir("target".to_string());
    config.out_file("schema".to_string());
    assert_eq!(config.chosen_dir().unwrap(), "target");
    assert_eq!(config.chosen_file().unwrap(), "schema");
}
