use marine_macro_impl::{ParsedType, FnArgument, FnSignature, FnType, ExternFnType};
use marine_macro_impl::fn_glue::{
    generate_prolog, generate_epilog, generate_export, link_name_of, RawParam, RawRole, WasmType, ReturnShape, GlueStep,
};

fn arg(name: &str, ty: ParsedType) -> FnArgument {
    FnArgument { name: name.to_string(), ty }
}

#[test]
fn arguments_keep_their_order() {
    let args = vec![
        arg("x", ParsedType::Boolean),
        arg("y", ParsedType::Vector(Box::new(ParsedType::I32))),
        arg("z", ParsedType::Record("MyRecord".to_string())),
    ];
    let prolog = generate_prolog(&args);
    assert_eq!(
        prolog.raw_params,
        vec![
            RawParam { argument: 0, role: RawRole::Value, ty: WasmType::I32 },
            RawParam { argument: 1, role: RawRole::Pointer, ty: WasmType::I32 },
            RawParam { argument: 1, role: RawRole::Length, ty: WasmType::I32 },
            RawParam { argument: 2, role: RawRole::Pointer, ty: WasmType::I32 },
        ]
    );
    let firsts: Vec<(usize, usize)> = prolog.conversions.iter().map(|c| (c.argument, c.first_raw)).collect();
    assert_eq!(firsts, vec![(0, 0), (1, 1), (2, 3)]);

    let f = FnType { signature: FnSignature::new("f".to_string(), args, None) };
    let glue = generate_export(&f);
    assert_eq!(glue.export_name, "f");
    assert_eq!(
        glue.steps,
        vec![GlueStep::DecodeArgument(0), GlueStep::DecodeArgument(1), GlueStep::DecodeArgument(2), GlueStep::Call]
    );
}

#[test]
fn scalar_raw_types() {
    let args = vec![
        arg("a", ParsedType::U64),
        arg("b", ParsedType::F32),
        arg("c", ParsedType::F64),
        arg("d", ParsedType::I8),
        arg("e", ParsedType::Utf8Str),
    ];
    let prolog = generate_prolog(&args);
    let tys: Vec<WasmType> = prolog.raw_params.iter().map(|p| p.ty).collect();
    assert_eq!(tys, vec![WasmType::I64, WasmType::F32, WasmType::F64, WasmType::I32, WasmType::I32, WasmType::I32]);
    assert_eq!(prolog.conversions[4].first_raw, 4);
    assert_eq!(prolog.conversions[4].ty, ParsedType::Utf8Str);
}

#[test]
fn return_shapes() {
    assert_eq!(generate_epilog(&vec![]).shape, ReturnShape::Nothing);
    assert_eq!(generate_epilog(&vec![]).output, None);
    let s = generate_epilog(&vec![ParsedType::Utf8String]);
    assert_eq!(s.shape, ReturnShape::PointerLength);
    assert_eq!(s.output, Some(ParsedType::Utf8String));
    assert_eq!(generate_epilog(&vec![ParsedType::Vector(Box::new(ParsedType::U8))]).shape, ReturnShape::PointerLength);
    assert_eq!(generate_epilog(&vec![ParsedType::Record("R".to_string())]).shape, ReturnShape::Pointer);
    assert_eq!(generate_epilog(&vec![ParsedType::I64]).shape, ReturnShape::Value(WasmType::I64));
    assert_eq!(generate_epilog(&vec![ParsedType::Boolean]).shape, ReturnShape::Value(WasmType::I32));
}

#[test]
fn string_result_is_encoded_after_the_call() {
    let f = FnType {
        signature: FnSignature::new("greet".to_string(), vec![arg("name", ParsedType::Utf8String)], Some(ParsedType::Utf8String)),
    };
    let glue = generate_export(&f);
    assert_eq!(glue.epilog.shape, ReturnShape::PointerLength);
    assert_eq!(glue.steps, vec![GlueStep::DecodeArgument(0), GlueStep::Call, GlueStep::EncodeResult]);
    assert_eq!(glue.wrapped_name, "greet");
}

#[test]
fn signature_output_is_zero_or_one() {
    let s = FnSignature::new("g".to_string(), vec![], Some(ParsedType::U8));
    assert_eq!(s.output_types, vec![ParsedType::U8]);
    let s = FnSignature::new("g".to_string(), vec![], None);
    assert!(s.output_types.is_empty());
}

#[test]
fn link_names() {
    let sig = FnSignature::new("local".to_string(), vec![], None);
    let with = ExternFnType { link_name: Some("remote".to_string()), signature: sig.clone() };
    let without = ExternFnType { link_name: None, signature: sig };
    assert_eq!(link_name_of(&with), "remote");
    assert_eq!(link_name_of(&without), "local");
}
