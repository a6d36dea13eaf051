use marine_macro_impl::{ParsedType, FnArgument, FnSignature, FnType, RecordType, RecordFields, RecordField, SDKAst, ExternModType, ExternFnType};
use marine_macro_impl::builder::{
    BuildError, FieldAttribute, FieldDecl, FieldsDecl, StructDecl, FnDecl, ArgDecl, ExternFnDecl, check_field, check_record,
    fields_into_ast, parse_struct, build_function, build_extern_mod,
};
use marine_macro_impl::module::assemble;
use marine_macro_impl::classify::{TypeDecl, classify};

fn path(name: &str) -> TypeDecl {
    TypeDecl::Path { name: name.to_string(), args: vec![] }
}

fn field(name: &str, public: bool, attrs: Vec<FieldAttribute>, ty: TypeDecl) -> FieldDecl {
    FieldDecl { name: Some(name.to_string()), is_public: public, attributes: attrs, ty }
}

fn strukt(name: &str, fields: FieldsDecl) -> StructDecl {
    StructDecl { name: name.to_string(), has_generics: false, fields }
}

fn fn_decl(name: &str, args: Vec<(&str, TypeDecl)>, out: Option<TypeDecl>) -> FnDecl {
    FnDecl {
        name: name.to_string(),
        has_generics: false,
        arguments: args.into_iter().map(|(n, ty)| ArgDecl { name: n.to_string(), ty }).collect(),
        output_type: out,
    }
}

fn vec_of(t: TypeDecl) -> TypeDecl {
    TypeDecl::Path { name: "Vec".to_string(), args: vec![t] }
}

fn rec_item(name: &str, fields: Vec<(&str, ParsedType)>) -> SDKAst {
    SDKAst::Record(RecordType {
        name: name.to_string(),
        fields: RecordFields::Named(fields.into_iter().map(|(n, ty)| RecordField { name: Some(n.to_string()), ty }).collect()),
    })
}

fn fn_item(name: &str, args: Vec<(&str, TypeDecl)>, out: Option<TypeDecl>) -> SDKAst {
    SDKAst::Function(FnType { signature: build_function(&fn_decl(name, args, out)).unwrap() })
}

#[test]
fn private_field_is_rejected() {
    let d = strukt("S", FieldsDecl::Named(vec![
        field("a", true, vec![FieldAttribute::Doc], path("i32")),
        field("b", false, vec![], path("i32")),
    ]));
    assert_eq!(parse_struct(&d), Err(BuildError::VisibilityViolation));
}

#[test]
fn field_attributes_must_be_doc() {
    let ok = field("a", true, vec![FieldAttribute::Doc, FieldAttribute::Doc], path("u8"));
    assert_eq!(check_field(&ok), Ok(()));
    let bad = field("a", true, vec![FieldAttribute::Doc, FieldAttribute::Other("serde".to_string())], path("u8"));
    assert_eq!(check_field(&bad), Err(BuildError::UnsupportedFieldAttribute));
    let both = field("a", false, vec![FieldAttribute::Other("x".to_string())], path("u8"));
    assert_eq!(check_field(&both), Err(BuildError::VisibilityViolation));
}

#[test]
fn only_named_structs_without_generics() {
    let tuple = strukt("T", FieldsDecl::Unnamed(vec![]));
    assert_eq!(parse_struct(&tuple), Err(BuildError::OnlyNamedFieldsSupported));
    assert_eq!(parse_struct(&strukt("U", FieldsDecl::Unit)), Err(BuildError::OnlyNamedFieldsSupported));
    let mut generic = strukt("G", FieldsDecl::Named(vec![]));
    generic.has_generics = true;
    assert_eq!(check_record(&generic), Err(BuildError::UnsupportedGenerics));
    assert_eq!(parse_struct(&generic), Err(BuildError::UnsupportedGenerics));
}

#[test]
fn struct_becomes_record() {
    let d = strukt("Point", FieldsDecl::Named(vec![
        field("x", true, vec![], path("i32")),
        field("name", true, vec![FieldAttribute::Doc], path("String")),
    ]));
    let r = parse_struct(&d).unwrap();
    assert_eq!(r.name, "Point");
    assert_eq!(
        r.fields,
        RecordFields::Named(vec![
            RecordField { name: Some("x".to_string()), ty: ParsedType::I32 },
            RecordField { name: Some("name".to_string()), ty: ParsedType::Utf8String },
        ])
    );
    let fields = fields_into_ast(&vec![]).unwrap();
    assert!(fields.is_empty());
}

#[test]
fn generic_function_is_rejected() {
    let mut d = fn_decl("f", vec![("a", path("u8"))], None);
    d.has_generics = true;
    assert_eq!(build_function(&d), Err(BuildError::UnsupportedGenerics));
}

#[test]
fn duplicate_arguments_are_rejected() {
    let d = fn_decl("f", vec![("a", path("u8")), ("b", path("u8")), ("a", path("i8"))], None);
    assert_eq!(build_function(&d), Err(BuildError::DuplicateDeclaration));
    let d = fn_decl("f", vec![("a", TypeDecl::Other), ("a", path("u8"))], None);
    assert_eq!(build_function(&d), Err(BuildError::DuplicateDeclaration));
    let ok = build_function(&fn_decl("f", vec![("a", path("u8"))], Some(path("bool")))).unwrap();
    assert_eq!(ok, FnSignature::new("f".to_string(), vec![FnArgument { name: "a".to_string(), ty: ParsedType::U8 }], Some(ParsedType::Boolean)));
}

#[test]
fn extern_module_keeps_link_names() {
    let decls = || vec![
        ExternFnDecl { link_name: Some("real".to_string()), function: fn_decl("alias", vec![], None) },
        ExternFnDecl {
            link_name: None,
            function: fn_decl("plain", vec![("s", TypeDecl::Reference(Box::new(path("str"))))], Some(path("i32"))),
        },
    ];
    let m = build_extern_mod(&"host".to_string(), &decls()).unwrap();
    assert_eq!(m.namespace, "host");
    assert_eq!(m.imports.len(), 2);
    assert_eq!(m.imports[0].link_name, Some("real".to_string()));
    assert_eq!(m.imports[0].signature.name, "alias");
    assert_eq!(m.imports[1].link_name, None);
    assert_eq!(m.imports[1].signature.output_types, vec![ParsedType::I32]);
    assert_eq!(m.imports[1].signature.arguments, vec![FnArgument { name: "s".to_string(), ty: ParsedType::Utf8Str }]);
    let mut bad = decls();
    bad[1].function.has_generics = true;
    assert_eq!(build_extern_mod(&"host".to_string(), &bad), Err(BuildError::UnsupportedGenerics));
}

#[test]
fn duplicate_records_are_rejected() {
    let items = vec![rec_item("R", vec![("a", ParsedType::U8)]), rec_item("R", vec![])];
    assert_eq!(assemble(&items).unwrap_err(), BuildError::DuplicateDeclaration);
}

#[test]
fn duplicate_functions_are_rejected() {
    let items = vec![fn_item("f", vec![], None), fn_item("f", vec![("x", path("u8"))], None)];
    assert_eq!(assemble(&items).unwrap_err(), BuildError::DuplicateDeclaration);
}

#[test]
fn unresolved_records_are_rejected() {
    let items = vec![fn_item("f", vec![("x", vec_of(path("Nope")))], None)];
    assert_eq!(assemble(&items).unwrap_err(), BuildError::UnresolvedRecordReference);
    let items = vec![SDKAst::ExternMod(ExternModType {
        namespace: "m".to_string(),
        imports: vec![ExternFnType {
            link_name: None,
            signature: FnSignature::new("g".to_string(), vec![], Some(ParsedType::Record("Gone".to_string()))),
        }],
    })];
    assert_eq!(assemble(&items).unwrap_err(), BuildError::UnresolvedRecordReference);
}

#[test]
fn module_collects_functions_and_records() {
    let items = vec![
        rec_item("Point", vec![("x", ParsedType::I32), ("y", ParsedType::I32)]),
        fn_item("move_point", vec![("p", path("Point")), ("dx", path("i32"))], Some(path("Point"))),
        fn_item("hello", vec![], Some(path("String"))),
    ];
    let m = assemble(&items).unwrap();
    assert_eq!(m.exports.len(), 2);
    assert_eq!(m.exports[0].export_name, "move_point");
    assert_eq!(m.exports[0].prolog.raw_params.len(), 2);
    assert_eq!(m.exports[1].export_name, "hello");
    assert_eq!(m.records.len(), 1);
    assert_eq!(m.records[0].name, "Point");
    assert_eq!(m.records[0].steps.len(), 2);
}

#[test]
fn field_types_are_classified() {
    let d = strukt("S", FieldsDecl::Named(vec![
        field("a", true, vec![], path("u16")),
        field("b", true, vec![], TypeDecl::Other),
    ]));
    assert_eq!(parse_struct(&d), Err(BuildError::UnsupportedType));
    let d = strukt("S", FieldsDecl::Named(vec![field("v", true, vec![], TypeDecl::Path { name: "Vec".to_string(), args: vec![path("Inner")] })]));
    assert_eq!(
        parse_struct(&d).unwrap().fields,
        RecordFields::Named(vec![RecordField {
            name: Some("v".to_string()),
            ty: ParsedType::Vector(Box::new(ParsedType::Record("Inner".to_string()))),
        }])
    );
}

#[test]
fn classify_maps_each_type_once() {
    let cases = vec![
        ("bool", ParsedType::Boolean),
        ("i8", ParsedType::I8),
        ("i16", ParsedType::I16),
        ("i32", ParsedType::I32),
        ("i64", ParsedType::I64),
        ("u8", ParsedType::U8),
        ("u16", ParsedType::U16),
        ("u32", ParsedType::U32),
        ("u64", ParsedType::U64),
        ("f32", ParsedType::F32),
        ("f64", ParsedType::F64),
        ("String", ParsedType::Utf8String),
        ("MyRecord", ParsedType::Record("MyRecord".to_string())),
    ];
    for (name, expected) in cases {
        assert_eq!(classify(&path(name)), Ok(expected));
    }
    assert_eq!(classify(&TypeDecl::Reference(Box::new(path("str")))), Ok(ParsedType::Utf8Str));
    let nested = TypeDecl::Path {
        name: "Vec".to_string(),
        args: vec![TypeDecl::Path { name: "Vec".to_string(), args: vec![path("u8")] }],
    };
    assert_eq!(
        classify(&nested),
        Ok(ParsedType::Vector(Box::new(ParsedType::Vector(Box::new(ParsedType::U8)))))
    );
}

#[test]
fn classify_rejects_unmapped_types() {
    assert_eq!(classify(&TypeDecl::Other), Err(BuildError::UnsupportedType));
    assert_eq!(classify(&path("str")), Err(BuildError::UnsupportedType));
    assert_eq!(classify(&path("Vec")), Err(BuildError::UnsupportedType));
    assert_eq!(classify(&TypeDecl::Reference(Box::new(path("u8")))), Err(BuildError::UnsupportedType));
    let generic = TypeDecl::Path { name: "Option".to_string(), args: vec![path("u8")] };
    assert_eq!(classify(&generic), Err(BuildError::UnsupportedType));
    let two = TypeDecl::Path { name: "Vec".to_string(), args: vec![path("u8"), path("u8")] };
    assert_eq!(classify(&two), Err(BuildError::UnsupportedType));
    let bad_inner = TypeDecl::Path { name: "Vec".to_string(), args: vec![TypeDecl::Other] };
    assert_eq!(classify(&bad_inner), Err(BuildError::UnsupportedType));
}

#[test]
fn function_types_are_classified() {
    let d = fn_decl("f", vec![("a", path("u8")), ("b", TypeDecl::Other)], None);
    assert_eq!(build_function(&d), Err(BuildError::UnsupportedType));
    let d = fn_decl("f", vec![], Some(path("str")));
    assert_eq!(build_function(&d), Err(BuildError::UnsupportedType));
    let sig = build_function(&fn_decl("f", vec![("v", vec_of(path("u64")))], Some(vec_of(path("String"))))).unwrap();
    assert_eq!(sig.arguments[0].ty, ParsedType::Vector(Box::new(ParsedType::U64)));
    assert_eq!(sig.output_types, vec![ParsedType::Vector(Box::new(ParsedType::Utf8String))]);
}
