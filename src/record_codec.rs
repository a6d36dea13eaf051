use vstd::prelude::*;
use vstd::bytes::*;
use crate::parsed_type::{ParsedType, wire_size};
use crate::ast::{RecordType, RecordField, RecordFields, record_fields, field_types};
use crate::wire::{Value, WireValue, LinearMemory, CodecError, encode, encode_list, decode_list, models, word, word_max, max_depth, depth, write_fields, read_fields, lemma_round_trip_list};

verus! {

/// How generated code reaches a field: by name, or by position in a tuple-like record.
#[derive(Clone, Debug, PartialEq, Eq)]
pub enum FieldAccess {
    Named(String),
    Position(usize),
}

/// How one field is written to (and read back from) the packed layout.
#[derive(Debug, PartialEq, Eq)]
pub enum FieldWrite {
    /// Raw little-endian bytes of a number of the given width.
    Scalar(usize),
    /// One byte, 0 or 1.
    BoolByte,
    /// Address and byte length of the text, two 32-bit words.
    TextPointerLength,
    /// Address and element count of a buffer produced by the element
    /// serializer `helper`, two 32-bit words.
    VectorPointerLength { element: ParsedType, helper: VectorHelper },
    /// Address of the record's own serialized form, one 32-bit word.
    RecordPointer(String),
}

/// The identity of a generated vector-element serializer, derived from the
/// enclosing field's name and position, so that two fields never share one.
#[derive(Clone, Debug, PartialEq, Eq)]
pub struct VectorHelper {
    pub field: Option<String>,
    pub position: usize,
}

/// One step of a record serializer: which field, and how it is written.
#[derive(Debug, PartialEq, Eq)]
pub struct FieldStep {
    pub access: FieldAccess,
    pub write: FieldWrite,
}

pub open spec fn access_of(f: RecordField, i: nat) -> FieldAccess {
    match f.name {
        Some(n) => FieldAccess::Named(n),
        None => FieldAccess::Position(i as usize),
    }
}

pub open spec fn write_of(f: RecordField, i: nat) -> FieldWrite {
    match f.ty {
        ParsedType::Boolean => FieldWrite::BoolByte,
        ParsedType::Utf8Str | ParsedType::Utf8String => FieldWrite::TextPointerLength,
        ParsedType::Vector(et) => FieldWrite::VectorPointerLength {
            element: *et,
            helper: VectorHelper { field: f.name, position: i as usize },
        },
        ParsedType::Record(name) => FieldWrite::RecordPointer(name),
        _ => FieldWrite::Scalar(wire_size(f.ty) as usize),
    }
}

fn clone_name(n: &Option<String>) -> (r: Option<String>)
    ensures
        r == *n,
{
    match n {
        Some(s) => Some(s.clone()),
        None => None,
    }
}

/// `steps` holds one step per field of `rf`, in declared order.
pub open spec fn plan_of(steps: Seq<FieldStep>, rf: RecordFields) -> bool {
    &&& steps.len() == record_fields(rf).len()
    &&& forall|i: int| 0 <= i < steps.len() ==> #[trigger] steps[i] == (FieldStep {
        access: access_of(record_fields(rf)[i], i as nat),
        write: write_of(record_fields(rf)[i], i as nat),
    })
}

/// The serializer plan of a record: one step per field, in declared order;
/// a unit record has none. Deserialization reads the same steps in the same
/// order.
pub fn serializer_plan(record: &RecordType) -> (r: Vec<FieldStep>)
    ensures
        plan_of(r@, record.fields),
{
    let fields = record.fields.fields();
    let mut plan: Vec<FieldStep> = Vec::new();
    let mut i: usize = 0;
    while i < fields.len()
        invariant
            i <= fields@.len(),
            fields@ == record_fields(record.fields),
            plan@.len() == i,
            forall|j: int| 0 <= j < i ==> #[trigger] plan@[j] == (FieldStep {
                access: access_of(fields@[j], j as nat),
                write: write_of(fields@[j], j as nat),
            }),
        decreases fields.len() - i,
    {
        let field = &fields[i];
        let access = match &field.name {
            Some(n) => FieldAccess::Named(n.clone()),
            None => FieldAccess::Position(i),
        };
        let write = match &field.ty {
            ParsedType::Boolean => FieldWrite::BoolByte,
            ParsedType::Utf8Str | ParsedType::Utf8String => FieldWrite::TextPointerLength,
            ParsedType::Vector(et) => FieldWrite::VectorPointerLength {
                element: (**et).clone(),
                helper: VectorHelper { field: clone_name(&field.name), position: i },
            },
            ParsedType::Record(name) => FieldWrite::RecordPointer(name.clone()),
            _ => FieldWrite::Scalar(field.ty.wire_size()),
        };
        plan.push(FieldStep { access, write });
        i = i + 1;
    }
    plan
}

/// Reading a record of field types `ts` from the `len` bytes at `ptr`. An
/// empty layout is read without touching memory.
pub open spec fn record_from(m: Seq<u8>, reg: Seq<RecordType>, ts: Seq<ParsedType>, ptr: nat, len: nat, fuel: nat) -> Option<Seq<WireValue>> {
    if len == 0 {
        decode_list(m, reg, ts, Seq::empty(), fuel)
    } else if ptr + len <= m.len() {
        decode_list(m, reg, ts, m.subrange(ptr as int, (ptr + len) as int), fuel)
    } else {
        None
    }
}

/// Serializes the field values `values` of `record`: the fields are packed
/// in declared order into one buffer, which is allocated in `mem`; returns
/// its address and byte length.
pub fn serialize_record(mem: &mut LinearMemory, reg: &[RecordType], record: &RecordType, values: &[Value]) -> (r: Result<(u32, u32), CodecError>)
    ensures
        match encode_list(old(mem)@, reg@, field_types(record.fields), models(values@)) {
            Ok((m1, b)) => if m1.len() + b.len() <= word_max() {
                r == Ok::<(u32, u32), CodecError>((m1.len() as u32, b.len() as u32)) && final(mem)@ == m1 + b
            } else {
                r == Err::<(u32, u32), CodecError>(CodecError::OutOfMemory)
            },
            Err(e) => r == Err::<(u32, u32), CodecError>(e),
        },
{
    let fields = record.fields.fields();
    let mut payload: Vec<u8> = Vec::new();
    match write_fields(mem, reg, fields, values, &mut payload) {
        Ok(()) => {},
        Err(e) => return Err(e),
    }
    assert(Seq::<u8>::empty() + payload@ =~= payload@);
    match mem.allocate(payload.as_slice()) {
        Some(addr) => Ok((addr, payload.len() as u32)),
        None => Err(CodecError::OutOfMemory),
    }
}

/// Deserializes a record of type `record` from the `len` bytes at `ptr`,
/// following at most `fuel` further levels of vectors and records.
pub fn deserialize_record(mem: &LinearMemory, reg: &[RecordType], record: &RecordType, ptr: u32, len: u32, fuel: usize) -> (r: Option<Vec<Value>>)
    ensures
        match record_from(mem@, reg@, field_types(record.fields), ptr as nat, len as nat, fuel as nat) {
            Some(ws) => r matches Some(vs) && models(vs@) == ws,
            None => r is None,
        },
{
    let fields = record.fields.fields();
    if len == 0 {
        let empty: Vec<u8> = Vec::new();
        return read_fields(mem, reg, fields, empty.as_slice(), fuel);
    }
    match mem.read(ptr as usize, len as usize) {
        Some(payload) => read_fields(mem, reg, fields, payload, fuel),
        None => None,
    }
}

/// A record of fields `a: i32, b: string` is laid out as the four bytes of
/// `a` followed by the address and length of `b`, without padding, and reads
/// back as the same values.
pub proof fn law_packed_field_order(m: Seq<u8>, reg: Seq<RecordType>, a: i32, b: Seq<u8>, fuel: nat)
    requires
        m.len() + b.len() <= word_max(),
    ensures
        ({
            let ts = seq![ParsedType::I32, ParsedType::Utf8String];
            let vs = seq![WireValue::I32(a), WireValue::Text(b)];
            let bytes = spec_u32_to_le_bytes(a as u32) + word(m.len()) + word(b.len());
            &&& encode_list(m, reg, ts, vs) == Ok::<(Seq<u8>, Seq<u8>), CodecError>((m + b, bytes))
            &&& bytes.len() == 12
            &&& decode_list(m + b, reg, ts, bytes, fuel) == Some(vs)
        }),
{
    let ts = seq![ParsedType::I32, ParsedType::Utf8String];
    let vs = seq![WireValue::I32(a), WireValue::Text(b)];
    lemma_auto_spec_u32_to_from_le_bytes();
    assert(ts.subrange(0, 1) =~= seq![ParsedType::I32]);
    assert(vs.subrange(0, 1) =~= seq![WireValue::I32(a)]);
    assert(ts.subrange(0, 1).subrange(0, 0) =~= Seq::<ParsedType>::empty());
    assert(vs.subrange(0, 1).subrange(0, 0) =~= Seq::<WireValue>::empty());
    assert(Seq::<u8>::empty() + spec_u32_to_le_bytes(a as u32) =~= spec_u32_to_le_bytes(a as u32));
    assert(spec_u32_to_le_bytes(a as u32) + (word(m.len()) + word(b.len())) =~= spec_u32_to_le_bytes(a as u32) + word(m.len()) + word(b.len()));
    assert(max_depth(vs.subrange(0, 1).subrange(0, 0)) == 0);
    assert(depth(vs.subrange(0, 1)[0]) == 0);
    assert(depth(vs[1]) == 0);
    assert(max_depth(vs.subrange(0, 1)) == 0);
    assert(max_depth(vs) == 0);
    assert(encode_list(m, reg, ts.subrange(0, 1).subrange(0, 0), vs.subrange(0, 1).subrange(0, 0)) == Ok::<(Seq<u8>, Seq<u8>), CodecError>((m, Seq::<u8>::empty())));
    assert(ts.subrange(0, 1)[0] == ParsedType::I32);
    assert(encode(m, reg, ParsedType::I32, WireValue::I32(a)) == Ok::<(Seq<u8>, Seq<u8>), CodecError>((m, spec_u32_to_le_bytes(a as u32))));
    assert(encode_list(m, reg, ts.subrange(0, 1), vs.subrange(0, 1)) == Ok::<(Seq<u8>, Seq<u8>), CodecError>((m, spec_u32_to_le_bytes(a as u32))));
    assert(encode(m, reg, ts[1], vs[1]) == Ok::<(Seq<u8>, Seq<u8>), CodecError>((m + b, word(m.len()) + word(b.len()))));
    lemma_round_trip_list(m, reg, ts, vs, m + b, fuel);
    assert((m + b).subrange(0, (m + b).len() as int) =~= m + b);
}

/// A record without fields is serialized as zero bytes, and zero bytes read
/// back as the record without fields, whatever the address and the memory.
pub proof fn law_unit_record(m: Seq<u8>, reg: Seq<RecordType>, ptr: nat, fuel: nat)
    ensures
        encode_list(m, reg, field_types(RecordFields::Unit), Seq::empty()) == Ok::<(Seq<u8>, Seq<u8>), CodecError>((m, Seq::<u8>::empty())),
        record_from(m, reg, field_types(RecordFields::Unit), ptr, 0, fuel) == Some(Seq::<WireValue>::empty()),
{
    assert(field_types(RecordFields::Unit) =~= Seq::<ParsedType>::empty());
}

} // verus!
