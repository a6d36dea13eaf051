use vstd::prelude::*;
use crate::parsed_type::ParsedType;
use crate::ast::{FnArgument, FnSignature, FnType, ExternFnType};

verus! {

/// The value types of the flat calling convention.
#[derive(Clone, Copy, Debug, PartialEq, Eq)]
pub enum WasmType {
    I32,
    I64,
    F32,
    F64,
}

/// What a raw parameter carries for its argument.
#[derive(Clone, Copy, Debug, PartialEq, Eq)]
pub enum RawRole {
    /// The scalar itself (a boolean as 0 or 1).
    Value,
    /// The address of the argument's bytes in linear memory.
    Pointer,
    /// The byte length of text, or the element count of a vector.
    Length,
}

/// One raw parameter of a generated wrapper.
#[derive(Clone, Copy, Debug, PartialEq, Eq)]
pub struct RawParam {
    /// Position of the declared argument it belongs to.
    pub argument: usize,
    pub role: RawRole,
    pub ty: WasmType,
}

/// Rebuilding declared argument `argument`, of type `ty`, from the raw
/// parameters that start at position `first_raw`.
#[derive(Debug, PartialEq, Eq)]
pub struct ArgConversion {
    pub argument: usize,
    pub first_raw: usize,
    pub ty: ParsedType,
}

/// The argument side of a wrapper: its raw parameters in call order, and the
/// conversions that rebuild the declared arguments, in declared order.
#[derive(Debug, PartialEq, Eq)]
pub struct FnProlog {
    pub raw_params: Vec<RawParam>,
    pub conversions: Vec<ArgConversion>,
}

/// How a wrapper hands back the result.
#[derive(Clone, Copy, Debug, PartialEq, Eq)]
pub enum ReturnShape {
    /// No return value.
    Nothing,
    /// A scalar, returned directly.
    Value(WasmType),
    /// Address and length of a freshly serialized buffer (text or vector),
    /// left allocated for the caller.
    PointerLength,
    /// Address of a freshly serialized record, left allocated for the caller.
    Pointer,
}

/// The return side of a wrapper.
#[derive(Debug, PartialEq, Eq)]
pub struct FnEpilog {
    pub shape: ReturnShape,
    /// The native type the result is converted from, if there is one.
    pub output: Option<ParsedType>,
}

/// One step of a wrapper body, in execution order.
#[derive(Clone, Copy, Debug, PartialEq, Eq)]
pub enum GlueStep {
    DecodeArgument(usize),
    Call,
    EncodeResult,
}

/// The whole plan of an exported wrapper.
#[derive(Debug, PartialEq, Eq)]
pub struct FnGlue {
    pub export_name: String,
    pub wrapped_name: String,
    pub prolog: FnProlog,
    pub epilog: FnEpilog,
    pub steps: Vec<GlueStep>,
}

pub open spec fn scalar_wasm_type(t: ParsedType) -> WasmType {
    match t {
        ParsedType::I64 | ParsedType::U64 => WasmType::I64,
        ParsedType::F32 => WasmType::F32,
        ParsedType::F64 => WasmType::F64,
        _ => WasmType::I32,
    }
}

/// The raw parameters of declared argument `arg`, of type `t`.
pub open spec fn raw_shape(arg: nat, t: ParsedType) -> Seq<RawParam> {
    match t {
        ParsedType::Utf8Str | ParsedType::Utf8String | ParsedType::Vector(_) => seq![
            RawParam { argument: arg as usize, role: RawRole::Pointer, ty: WasmType::I32 },
            RawParam { argument: arg as usize, role: RawRole::Length, ty: WasmType::I32 },
        ],
        ParsedType::Record(_) => seq![RawParam { argument: arg as usize, role: RawRole::Pointer, ty: WasmType::I32 }],
        _ => seq![RawParam { argument: arg as usize, role: RawRole::Value, ty: scalar_wasm_type(t) }],
    }
}

/// The raw parameters of `args`, argument after argument.
pub open spec fn raw_params_of(args: Seq<FnArgument>) -> Seq<RawParam>
    decreases args.len(),
{
    if args.len() == 0 {
        Seq::empty()
    } else {
        let k = args.len() - 1;
        raw_params_of(args.subrange(0, k)) + raw_shape(k as nat, args[k].ty)
    }
}

/// Number of raw words that argument of type `t` takes.
pub open spec fn raw_word_count(t: ParsedType) -> nat {
    raw_shape(0, t).len()
}

pub open spec fn total_raw_words(args: Seq<FnArgument>) -> nat
    decreases args.len(),
{
    if args.len() == 0 {
        0
    } else {
        total_raw_words(args.subrange(0, args.len() - 1)) + raw_word_count(args[args.len() - 1].ty)
    }
}

pub open spec fn return_shape(outputs: Seq<ParsedType>) -> ReturnShape {
    if outputs.len() == 0 {
        ReturnShape::Nothing
    } else {
        match outputs[0] {
            ParsedType::Utf8Str | ParsedType::Utf8String | ParsedType::Vector(_) => ReturnShape::PointerLength,
            ParsedType::Record(_) => ReturnShape::Pointer,
            _ => ReturnShape::Value(scalar_wasm_type(outputs[0])),
        }
    }
}

pub open spec fn glue_steps(n: nat, has_output: bool) -> Seq<GlueStep> {
    Seq::new(n, |i: int| GlueStep::DecodeArgument(i as usize)) + seq![GlueStep::Call] + if has_output {
        seq![GlueStep::EncodeResult]
    } else {
        Seq::empty()
    }
}

fn raw_shape_of(arg: usize, t: &ParsedType) -> (r: Vec<RawParam>)
    ensures
        r@ == raw_shape(arg as nat, *t),
{
    match t {
        ParsedType::Utf8Str | ParsedType::Utf8String | ParsedType::Vector(_) => vec![
            RawParam { argument: arg, role: RawRole::Pointer, ty: WasmType::I32 },
            RawParam { argument: arg, role: RawRole::Length, ty: WasmType::I32 },
        ],
        ParsedType::Record(_) => vec![RawParam { argument: arg, role: RawRole::Pointer, ty: WasmType::I32 }],
        ParsedType::I64 | ParsedType::U64 => vec![RawParam { argument: arg, role: RawRole::Value, ty: WasmType::I64 }],
        ParsedType::F32 => vec![RawParam { argument: arg, role: RawRole::Value, ty: WasmType::F32 }],
        ParsedType::F64 => vec![RawParam { argument: arg, role: RawRole::Value, ty: WasmType::F64 }],
        _ => vec![RawParam { argument: arg, role: RawRole::Value, ty: WasmType::I32 }],
    }
}

proof fn lemma_raw_count(args: Seq<FnArgument>)
    ensures
        raw_params_of(args).len() == total_raw_words(args),
    decreases args.len(),
{
    if args.len() > 0 {
        let k = args.len() - 1;
        lemma_raw_count(args.subrange(0, k));
    }
}

/// Raw parameters, in call order, and the conversions of the arguments, in
/// declared order, each starting at the first raw parameter of its argument.
/// There are as many raw parameters as the arguments' raw words together.
pub fn generate_prolog(args: &Vec<FnArgument>) -> (r: FnProlog)
    ensures
        r.raw_params@ == raw_params_of(args@),
        r.raw_params@.len() == total_raw_words(args@),
        r.conversions@.len() == args@.len(),
        forall|i: int| 0 <= i < args@.len() ==> #[trigger] r.conversions@[i] == (ArgConversion {
            argument: i as usize,
            first_raw: raw_params_of(args@.subrange(0, i)).len() as usize,
            ty: args@[i].ty,
        }),
{
    let mut raw_params: Vec<RawParam> = Vec::new();
    let mut conversions: Vec<ArgConversion> = Vec::new();
    let mut i: usize = 0;
    assert(args@.subrange(0, 0) =~= Seq::<FnArgument>::empty());
    while i < args.len()
        invariant
            i <= args@.len(),
            raw_params@ == raw_params_of(args@.subrange(0, i as int)),
            raw_params@.len() <= 2 * i,
            conversions@.len() == i,
            forall|j: int| 0 <= j < i ==> #[trigger] conversions@[j] == (ArgConversion {
                argument: j as usize,
                first_raw: raw_params_of(args@.subrange(0, j)).len() as usize,
                ty: args@[j].ty,
            }),
        decreases args.len() - i,
    {
        assert(args@.subrange(0, i + 1).subrange(0, i as int) =~= args@.subrange(0, i as int));
        conversions.push(ArgConversion { argument: i, first_raw: raw_params.len(), ty: args[i].ty.clone() });
        let mut shape = raw_shape_of(i, &args[i].ty);
        raw_params.append(&mut shape);
        i = i + 1;
    }
    assert(args@.subrange(0, i as int) =~= args@);
    proof {
        lemma_raw_count(args@);
    }
    FnProlog { raw_params, conversions }
}

/// The return side: nothing without an output type; a scalar directly;
/// text and vectors as address and length, records as an address.
pub fn generate_epilog(outputs: &Vec<ParsedType>) -> (r: FnEpilog)
    requires
        outputs@.len() <= 1,
    ensures
        r.shape == return_shape(outputs@),
        r.output == (if outputs@.len() == 0 { None } else { Some(outputs@[0]) }),
{
    if outputs.len() == 0 {
        return FnEpilog { shape: ReturnShape::Nothing, output: None };
    }
    let t = &outputs[0];
    let shape = match t {
        ParsedType::Utf8Str | ParsedType::Utf8String | ParsedType::Vector(_) => ReturnShape::PointerLength,
        ParsedType::Record(_) => ReturnShape::Pointer,
        ParsedType::I64 | ParsedType::U64 => ReturnShape::Value(WasmType::I64),
        ParsedType::F32 => ReturnShape::Value(WasmType::F32),
        ParsedType::F64 => ReturnShape::Value(WasmType::F64),
        _ => ReturnShape::Value(WasmType::I32),
    };
    FnEpilog { shape, output: Some(t.clone()) }
}

/// The plan of the wrapper exported for `f`: it is exported under the
/// function's name, decodes every argument in declared order, then calls the
/// function, then encodes the result if there is one.
pub fn generate_export(f: &FnType) -> (r: FnGlue)
    requires
        f.signature.output_types@.len() <= 1,
    ensures
        r.export_name == f.signature.name,
        r.wrapped_name == f.signature.name,
        r.prolog.raw_params@ == raw_params_of(f.signature.arguments@),
        r.prolog.conversions@.len() == f.signature.arguments@.len(),
        forall|i: int| 0 <= i < f.signature.arguments@.len() ==> #[trigger] r.prolog.conversions@[i] == (ArgConversion {
            argument: i as usize,
            first_raw: raw_params_of(f.signature.arguments@.subrange(0, i)).len() as usize,
            ty: f.signature.arguments@[i].ty,
        }),
        r.epilog.shape == return_shape(f.signature.output_types@),
        r.epilog.output == (if f.signature.output_types@.len() == 0 {
            None
        } else {
            Some(f.signature.output_types@[0])
        }),
        r.steps@ == glue_steps(f.signature.arguments@.len(), f.signature.output_types@.len() > 0),
{
    let sig: &FnSignature = &f.signature;
    let prolog = generate_prolog(&sig.arguments);
    let epilog = generate_epilog(&sig.output_types);
    let mut steps: Vec<GlueStep> = Vec::new();
    let mut i: usize = 0;
    while i < sig.arguments.len()
        invariant
            i <= sig.arguments@.len(),
            steps@ == Seq::new(i as nat, |j: int| GlueStep::DecodeArgument(j as usize)),
        decreases sig.arguments.len() - i,
    {
        steps.push(GlueStep::DecodeArgument(i));
        i = i + 1;
        assert(steps@ =~= Seq::new(i as nat, |j: int| GlueStep::DecodeArgument(j as usize)));
    }
    steps.push(GlueStep::Call);
    if sig.output_types.len() > 0 {
        steps.push(GlueStep::EncodeResult);
    }
    assert(steps@ =~= glue_steps(sig.arguments@.len(), sig.output_types@.len() > 0));
    FnGlue { export_name: sig.name.clone(), wrapped_name: sig.name.clone(), prolog, epilog, steps }
}

/// The symbol an imported function is called by: its explicit link name if
/// it has one, else its own name.
pub fn link_name_of(f: &ExternFnType) -> (r: String)
    ensures
        r == (match f.link_name {
            Some(n) => n,
            None => f.signature.name,
        }),
{
    match &f.link_name {
        Some(n) => n.clone(),
        None => f.signature.name.clone(),
    }
}

} // verus!
