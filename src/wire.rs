use vstd::prelude::*;
use vstd::bytes::*;
use crate::parsed_type::{ParsedType, wire_size, is_scalar, is_text};
use crate::ast::{RecordType, RecordField, field_types};

verus! {

/// A value as it exists on the host side, before it is written to, or after
/// it is read from, the wire. Floating-point values are carried as their raw
/// IEEE-754 bits.
#[derive(Debug, PartialEq)]
pub enum Value {
    Boolean(bool),
    I8(i8),
    I16(i16),
    I32(i32),
    I64(i64),
    U8(u8),
    U16(u16),
    U32(u32),
    U64(u64),
    F32(u32),
    F64(u64),
    Text(Vec<u8>),
    Vector(Vec<Value>),
    /// The field values of a record, in declared order.
    Record(Vec<Value>),
}

/// The mathematical model of a `Value`.
pub enum WireValue {
    Boolean(bool),
    I8(i8),
    I16(i16),
    I32(i32),
    I64(i64),
    U8(u8),
    U16(u16),
    U32(u32),
    U64(u64),
    F32(u32),
    F64(u64),
    Text(Seq<u8>),
    Vector(Seq<WireValue>),
    Record(Seq<WireValue>),
}

pub open spec fn models(s: Seq<Value>) -> Seq<WireValue>
    decreases s,
{
    if s.len() == 0 {
        Seq::empty()
    } else {
        models(s.subrange(0, s.len() - 1)).push(model(s[s.len() - 1]))
    }
}

pub open spec fn model(v: Value) -> WireValue
    decreases v,
{
    match v {
        Value::Boolean(b) => WireValue::Boolean(b),
        Value::I8(x) => WireValue::I8(x),
        Value::I16(x) => WireValue::I16(x),
        Value::I32(x) => WireValue::I32(x),
        Value::I64(x) => WireValue::I64(x),
        Value::U8(x) => WireValue::U8(x),
        Value::U16(x) => WireValue::U16(x),
        Value::U32(x) => WireValue::U32(x),
        Value::U64(x) => WireValue::U64(x),
        Value::F32(x) => WireValue::F32(x),
        Value::F64(x) => WireValue::F64(x),
        Value::Text(b) => WireValue::Text(b@),
        Value::Vector(vs) => WireValue::Vector(models(vs@)),
        Value::Record(vs) => WireValue::Record(models(vs@)),
    }
}

impl View for Value {
    type V = WireValue;

    open spec fn view(&self) -> WireValue {
        model(*self)
    }
}

/// The largest address, or length, that a 32-bit word can carry.
pub open spec fn word_max() -> nat {
    0xffff_ffff
}

pub open spec fn word(n: nat) -> Seq<u8> {
    spec_u32_to_le_bytes(n as u32)
}

pub open spec fn word_at(b: Seq<u8>, off: int) -> nat {
    spec_u32_from_le_bytes(b.subrange(off, off + 4)) as nat
}

/// The little-endian bytes of a scalar value; booleans are one byte, 0 or 1.
pub open spec fn scalar_bytes(v: WireValue) -> Seq<u8> {
    match v {
        WireValue::Boolean(b) => seq![if b { 1u8 } else { 0u8 }],
        WireValue::I8(x) => seq![x as u8],
        WireValue::U8(x) => seq![x],
        WireValue::I16(x) => spec_u16_to_le_bytes(x as u16),
        WireValue::U16(x) => spec_u16_to_le_bytes(x),
        WireValue::I32(x) => spec_u32_to_le_bytes(x as u32),
        WireValue::U32(x) => spec_u32_to_le_bytes(x),
        WireValue::F32(x) => spec_u32_to_le_bytes(x),
        WireValue::I64(x) => spec_u64_to_le_bytes(x as u64),
        WireValue::U64(x) => spec_u64_to_le_bytes(x),
        WireValue::F64(x) => spec_u64_to_le_bytes(x),
        _ => Seq::empty(),
    }
}

/// The scalar value of type `t` that the bytes `b` stand for.
pub open spec fn scalar_value(t: ParsedType, b: Seq<u8>) -> WireValue {
    match t {
        ParsedType::Boolean => WireValue::Boolean(b[0] != 0),
        ParsedType::I8 => WireValue::I8(b[0] as i8),
        ParsedType::U8 => WireValue::U8(b[0]),
        ParsedType::I16 => WireValue::I16(spec_u16_from_le_bytes(b) as i16),
        ParsedType::U16 => WireValue::U16(spec_u16_from_le_bytes(b)),
        ParsedType::I32 => WireValue::I32(spec_u32_from_le_bytes(b) as i32),
        ParsedType::U32 => WireValue::U32(spec_u32_from_le_bytes(b)),
        ParsedType::F32 => WireValue::F32(spec_u32_from_le_bytes(b)),
        ParsedType::I64 => WireValue::I64(spec_u64_from_le_bytes(b) as i64),
        ParsedType::U64 => WireValue::U64(spec_u64_from_le_bytes(b)),
        ParsedType::F64 => WireValue::F64(spec_u64_from_le_bytes(b)),
        _ => WireValue::Boolean(false),
    }
}

/// Whether the scalar value `v` is of the scalar type `t`.
pub open spec fn scalar_of_type(t: ParsedType, v: WireValue) -> bool {
    match (t, v) {
        (ParsedType::Boolean, WireValue::Boolean(_)) => true,
        (ParsedType::I8, WireValue::I8(_)) => true,
        (ParsedType::U8, WireValue::U8(_)) => true,
        (ParsedType::I16, WireValue::I16(_)) => true,
        (ParsedType::U16, WireValue::U16(_)) => true,
        (ParsedType::I32, WireValue::I32(_)) => true,
        (ParsedType::U32, WireValue::U32(_)) => true,
        (ParsedType::F32, WireValue::F32(_)) => true,
        (ParsedType::I64, WireValue::I64(_)) => true,
        (ParsedType::U64, WireValue::U64(_)) => true,
        (ParsedType::F64, WireValue::F64(_)) => true,
        _ => false,
    }
}

/// The field types of the first record of `reg` named `name`.
pub open spec fn lookup(reg: Seq<RecordType>, name: Seq<char>) -> Option<Seq<ParsedType>>
    decreases reg.len(),
{
    if reg.len() == 0 {
        None
    } else if reg[0].name@ == name {
        Some(field_types(reg[0].fields))
    } else {
        lookup(reg.subrange(1, reg.len() as int), name)
    }
}

/// Sum of the inline sizes of `ts`: the length of a packed record layout.
pub open spec fn packed_size(ts: Seq<ParsedType>) -> nat
    decreases ts.len(),
{
    if ts.len() == 0 {
        0
    } else {
        packed_size(ts.subrange(0, ts.len() - 1)) + wire_size(ts[ts.len() - 1])
    }
}

pub open spec fn repeat(t: ParsedType, n: nat) -> Seq<ParsedType> {
    Seq::new(n, |_i: int| t)
}

/// Writing `v` as a value of type `t` into memory `m`: on success, the memory
/// after every payload of `v` was allocated in it, and the inline bytes of `v`.
/// Text, vectors and records are allocated after everything they refer to.
/// A value of another shape than its type is a `TypeMismatch`, a record type
/// missing from `reg` an `UnknownRecord`, and an address or a length that
/// does not fit a 32-bit word `OutOfMemory`; the first error met is returned.
pub open spec fn encode(m: Seq<u8>, reg: Seq<RecordType>, t: ParsedType, v: WireValue) -> Result<(Seq<u8>, Seq<u8>), CodecError>
    decreases v,
{
    match v {
        WireValue::Text(b) => {
            if !is_text(t) {
                Err(CodecError::TypeMismatch)
            } else if m.len() + b.len() <= word_max() {
                Ok((m + b, word(m.len()) + word(b.len())))
            } else {
                Err(CodecError::OutOfMemory)
            }
        },
        WireValue::Vector(vs) => {
            match t {
                ParsedType::Vector(et) => match encode_list(m, reg, repeat(*et, vs.len()), vs) {
                    Ok((m1, payload)) => if m1.len() + payload.len() <= word_max() && vs.len() <= word_max() {
                        Ok((m1 + payload, word(m1.len()) + word(vs.len())))
                    } else {
                        Err(CodecError::OutOfMemory)
                    },
                    Err(e) => Err(e),
                },
                _ => Err(CodecError::TypeMismatch),
            }
        },
        WireValue::Record(fs) => {
            match t {
                ParsedType::Record(name) => match lookup(reg, name@) {
                    Some(ts) => match encode_list(m, reg, ts, fs) {
                        Ok((m1, payload)) => if m1.len() + payload.len() <= word_max() {
                            Ok((m1 + payload, word(m1.len())))
                        } else {
                            Err(CodecError::OutOfMemory)
                        },
                        Err(e) => Err(e),
                    },
                    None => Err(CodecError::UnknownRecord),
                },
                _ => Err(CodecError::TypeMismatch),
            }
        },
        _ => {
            if scalar_of_type(t, v) {
                Ok((m, scalar_bytes(v)))
            } else {
                Err(CodecError::TypeMismatch)
            }
        },
    }
}

/// Writing the values `vs`, of types `ts`, one after the other: the memory
/// afterwards and their packed inline bytes, or the first error met.
pub open spec fn encode_list(m: Seq<u8>, reg: Seq<RecordType>, ts: Seq<ParsedType>, vs: Seq<WireValue>) -> Result<(Seq<u8>, Seq<u8>), CodecError>
    decreases vs,
{
    if ts.len() != vs.len() {
        Err(CodecError::TypeMismatch)
    } else if vs.len() == 0 {
        Ok((m, Seq::empty()))
    } else {
        let k = vs.len() - 1;
        match encode_list(m, reg, ts.subrange(0, k), vs.subrange(0, k)) {
            Ok((m1, b1)) => match encode(m1, reg, ts[k], vs[k]) {
                Ok((m2, b2)) => Ok((m2, b1 + b2)),
                Err(e) => Err(e),
            },
            Err(e) => Err(e),
        }
    }
}

/// Reading a value of type `t` from its inline bytes `inl`, following
/// addresses into memory `m`. At most `fuel` levels of vectors and records are
/// followed, which bounds the work on memory whose addresses form a cycle.
pub open spec fn decode(m: Seq<u8>, reg: Seq<RecordType>, t: ParsedType, inl: Seq<u8>, fuel: nat) -> Option<WireValue>
    decreases fuel, 0nat,
{
    if inl.len() != wire_size(t) {
        None
    } else {
        match t {
            ParsedType::Utf8Str | ParsedType::Utf8String => {
                let p = word_at(inl, 0);
                let n = word_at(inl, 4);
                if p + n <= m.len() {
                    Some(WireValue::Text(m.subrange(p as int, (p + n) as int)))
                } else {
                    None
                }
            },
            ParsedType::Vector(et) => {
                let p = word_at(inl, 0);
                let n = word_at(inl, 4);
                let size = n * wire_size(*et);
                if fuel == 0 || p + size > m.len() {
                    None
                } else {
                    match decode_list(m, reg, repeat(*et, n), m.subrange(p as int, (p + size) as int), (fuel - 1) as nat) {
                        Some(vs) => Some(WireValue::Vector(vs)),
                        None => None,
                    }
                }
            },
            ParsedType::Record(name) => {
                match lookup(reg, name@) {
                    Some(ts) => {
                        let p = word_at(inl, 0);
                        let size = packed_size(ts);
                        if fuel == 0 || p + size > m.len() {
                            None
                        } else {
                            match decode_list(m, reg, ts, m.subrange(p as int, (p + size) as int), (fuel - 1) as nat) {
                                Some(vs) => Some(WireValue::Record(vs)),
                                None => None,
                            }
                        }
                    },
                    None => None,
                }
            },
            _ => Some(scalar_value(t, inl)),
        }
    }
}

/// Reading values of types `ts` from their packed inline bytes `b`.
pub open spec fn decode_list(m: Seq<u8>, reg: Seq<RecordType>, ts: Seq<ParsedType>, b: Seq<u8>, fuel: nat) -> Option<Seq<WireValue>>
    decreases fuel, ts.len(),
{
    if b.len() != packed_size(ts) {
        None
    } else if ts.len() == 0 {
        Some(Seq::empty())
    } else {
        let k = ts.len() - 1;
        let pre = packed_size(ts.subrange(0, k));
        match decode_list(m, reg, ts.subrange(0, k), b.subrange(0, pre as int), fuel) {
            Some(vs) => match decode(m, reg, ts[k], b.subrange(pre as int, b.len() as int), fuel) {
                Some(v) => Some(vs.push(v)),
                None => None,
            },
            None => None,
        }
    }
}

/// Levels of vectors and records nested in `v`.
pub open spec fn depth(v: WireValue) -> nat
    decreases v,
{
    match v {
        WireValue::Vector(vs) => 1 + max_depth(vs),
        WireValue::Record(vs) => 1 + max_depth(vs),
        _ => 0,
    }
}

pub open spec fn max_depth(vs: Seq<WireValue>) -> nat
    decreases vs,
{
    if vs.len() == 0 {
        0
    } else {
        let a = max_depth(vs.subrange(0, vs.len() - 1));
        let b = depth(vs[vs.len() - 1]);
        if a >= b { a } else { b }
    }
}

/// `b` starts with all of `a`.
pub open spec fn extends(a: Seq<u8>, b: Seq<u8>) -> bool {
    a.len() <= b.len() && b.subrange(0, a.len() as int) =~= a
}

proof fn lemma_words(a: nat, b: nat)
    requires
        a <= word_max(),
        b <= word_max(),
    ensures
        word(a).len() == 4,
        word(b).len() == 4,
        word_at(word(a) + word(b), 0) == a,
        word_at(word(a) + word(b), 4) == b,
        word_at(word(a), 0) == a,
{
    lemma_auto_spec_u32_to_from_le_bytes();
    let s = word(a) + word(b);
    assert(s.subrange(0, 4) =~= word(a));
    assert(s.subrange(4, 8) =~= word(b));
    assert(word(a).subrange(0, 4) =~= word(a));
}

proof fn lemma_scalar_round_trip(t: ParsedType, v: WireValue)
    requires
        scalar_of_type(t, v),
    ensures
        scalar_bytes(v).len() == wire_size(t),
        scalar_value(t, scalar_bytes(v)) == v,
        is_scalar(t),
{
    lemma_auto_spec_u16_to_from_le_bytes();
    lemma_auto_spec_u32_to_from_le_bytes();
    lemma_auto_spec_u64_to_from_le_bytes();
    match v {
        WireValue::I8(x) => {
            assert((x as u8) as i8 == x) by (bit_vector);
        },
        WireValue::I16(x) => {
            assert((x as u16) as i16 == x) by (bit_vector);
        },
        WireValue::I32(x) => {
            assert((x as u32) as i32 == x) by (bit_vector);
        },
        WireValue::I64(x) => {
            assert((x as u64) as i64 == x) by (bit_vector);
        },
        _ => {},
    }
}

proof fn lemma_packed_repeat(t: ParsedType, n: nat)
    ensures
        packed_size(repeat(t, n)) == n * wire_size(t),
    decreases n,
{
    if n > 0 {
        assert(repeat(t, n).subrange(0, n - 1) =~= repeat(t, (n - 1) as nat));
        lemma_packed_repeat(t, (n - 1) as nat);
        assert(n * wire_size(t) == (n - 1) * wire_size(t) + wire_size(t)) by (nonlinear_arith);
    }
}

proof fn lemma_max_depth_bounds(vs: Seq<WireValue>, k: int)
    requires
        0 < vs.len(),
        k == vs.len() - 1,
    ensures
        max_depth(vs.subrange(0, k)) <= max_depth(vs),
        depth(vs[k]) <= max_depth(vs),
{
}

/// Reading back what was written gives the value written: for every type and
/// every value that can be written as it, the inline bytes have the type's
/// width, writing only appends to memory, and the inline bytes read back as
/// exactly `v` from the memory written (or any later one), given fuel for
/// the value's nesting depth.
pub proof fn lemma_round_trip(m: Seq<u8>, reg: Seq<RecordType>, t: ParsedType, v: WireValue, m3: Seq<u8>, fuel: nat)
    requires
        encode(m, reg, t, v) is Ok,
        extends((encode(m, reg, t, v)->Ok_0).0, m3),
        fuel >= depth(v),
    ensures
        (encode(m, reg, t, v)->Ok_0).1.len() == wire_size(t),
        extends(m, (encode(m, reg, t, v)->Ok_0).0),
        decode(m3, reg, t, (encode(m, reg, t, v)->Ok_0).1, fuel) == Some(v),
    decreases v,
{
    let (m2, b) = encode(m, reg, t, v)->Ok_0;
    match v {
        WireValue::Text(bytes) => {
            lemma_words(m.len(), bytes.len());
            assert(m3.subrange(m.len() as int, (m.len() + bytes.len()) as int) =~= bytes) by {
                assert(m2.subrange(m.len() as int, m2.len() as int) =~= bytes);
                assert(m3.subrange(0, m2.len() as int) =~= m2);
                assert(m3.subrange(m.len() as int, (m.len() + bytes.len()) as int) =~= m3.subrange(0, m2.len() as int).subrange(m.len() as int, m2.len() as int));
            }
            assert(m2.subrange(0, m.len() as int) =~= m);
        },
        WireValue::Vector(vs) => {
            let et = *t->Vector_0;
            let ts = repeat(et, vs.len());
            let (m1, payload) = encode_list(m, reg, ts, vs)->Ok_0;
            lemma_words(m1.len(), vs.len());
            lemma_packed_repeat(et, vs.len());
            assert(extends(m1, m3)) by {
                assert(m3.subrange(0, m1.len() as int) =~= m3.subrange(0, m2.len() as int).subrange(0, m1.len() as int));
                assert(m2.subrange(0, m1.len() as int) =~= m1);
            }
            lemma_round_trip_list(m, reg, ts, vs, m3, (fuel - 1) as nat);
            assert(m3.subrange(m1.len() as int, (m1.len() + payload.len()) as int) =~= payload) by {
                assert(m3.subrange(0, m2.len() as int) =~= m2);
                assert(m3.subrange(m1.len() as int, (m1.len() + payload.len()) as int) =~= m3.subrange(0, m2.len() as int).subrange(m1.len() as int, m2.len() as int));
            }
            assert(m2.subrange(0, m.len() as int) =~= m) by {
                assert(m2.subrange(0, m.len() as int) =~= m1.subrange(0, m.len() as int));
            }
        },
        WireValue::Record(fs) => {
            let ts = lookup(reg, t->Record_0@)->0;
            let (m1, payload) = encode_list(m, reg, ts, fs)->Ok_0;
            lemma_words(m1.len(), 0);
            assert(extends(m1, m3)) by {
                assert(m3.subrange(0, m1.len() as int) =~= m3.subrange(0, m2.len() as int).subrange(0, m1.len() as int));
                assert(m2.subrange(0, m1.len() as int) =~= m1);
            }
            lemma_round_trip_list(m, reg, ts, fs, m3, (fuel - 1) as nat);
            assert(m3.subrange(m1.len() as int, (m1.len() + payload.len()) as int) =~= payload) by {
                assert(m3.subrange(0, m2.len() as int) =~= m2);
                assert(m3.subrange(m1.len() as int, (m1.len() + payload.len()) as int) =~= m3.subrange(0, m2.len() as int).subrange(m1.len() as int, m2.len() as int));
            }
            assert(m2.subrange(0, m.len() as int) =~= m) by {
                assert(m2.subrange(0, m.len() as int) =~= m1.subrange(0, m.len() as int));
            }
        },
        _ => {
            lemma_scalar_round_trip(t, v);
            assert(m2.subrange(0, m.len() as int) =~= m);
        },
    }
}

/// The list form of `lemma_round_trip`: packed bytes of the width of the
/// types, memory that only grows, and the values read back in order.
pub proof fn lemma_round_trip_list(m: Seq<u8>, reg: Seq<RecordType>, ts: Seq<ParsedType>, vs: Seq<WireValue>, m3: Seq<u8>, fuel: nat)
    requires
        encode_list(m, reg, ts, vs) is Ok,
        extends((encode_list(m, reg, ts, vs)->Ok_0).0, m3),
        fuel >= max_depth(vs),
    ensures
        (encode_list(m, reg, ts, vs)->Ok_0).1.len() == packed_size(ts),
        extends(m, (encode_list(m, reg, ts, vs)->Ok_0).0),
        decode_list(m3, reg, ts, (encode_list(m, reg, ts, vs)->Ok_0).1, fuel) == Some(vs),
    decreases vs,
{
    let (m2, b) = encode_list(m, reg, ts, vs)->Ok_0;
    if vs.len() == 0 {
        assert(m.subrange(0, m.len() as int) =~= m);
    } else {
        let k = vs.len() - 1;
        let (m1, b1) = encode_list(m, reg, ts.subrange(0, k), vs.subrange(0, k))->Ok_0;
        let b2 = (encode(m1, reg, ts[k], vs[k])->Ok_0).1;
        lemma_max_depth_bounds(vs, k);
        lemma_round_trip(m1, reg, ts[k], vs[k], m3, fuel);
        assert(extends(m1, m3)) by {
            assert(m3.subrange(0, m1.len() as int) =~= m3.subrange(0, m2.len() as int).subrange(0, m1.len() as int));
            assert(m2.subrange(0, m1.len() as int) =~= m1);
        }
        lemma_round_trip_list(m, reg, ts.subrange(0, k), vs.subrange(0, k), m3, fuel);
        assert(b.subrange(0, b1.len() as int) =~= b1);
        assert(b.subrange(b1.len() as int, b.len() as int) =~= b2);
        assert(vs.subrange(0, k).push(vs[k]) =~= vs);
        assert(m2.subrange(0, m.len() as int) =~= m) by {
            assert(m2.subrange(0, m.len() as int) =~= m1.subrange(0, m.len() as int));
        }
    }
}

/// Why a value could not be written.
#[derive(Debug, PartialEq, Eq, Clone, Copy)]
pub enum CodecError {
    /// The value does not have the shape of the type it is written as.
    TypeMismatch,
    /// A record type that the registry does not declare.
    UnknownRecord,
    /// The linear memory would grow past what a 32-bit address can reach.
    OutOfMemory,
}

proof fn lemma_models(s: Seq<Value>)
    ensures
        models(s).len() == s.len(),
        forall|i: int| 0 <= i < s.len() ==> #[trigger] models(s)[i] == model(s[i]),
    decreases s.len(),
{
    if s.len() > 0 {
        lemma_models(s.subrange(0, s.len() - 1));
    }
}

proof fn lemma_models_push(s: Seq<Value>, x: Value)
    ensures
        models(s.push(x)) == models(s).push(model(x)),
{
    assert(s.push(x).subrange(0, s.len() as int) =~= s);
}

/// The first failure in a list is the failure of the whole list.
proof fn lemma_encode_list_error(m: Seq<u8>, reg: Seq<RecordType>, ts: Seq<ParsedType>, vs: Seq<WireValue>, j: int)
    requires
        ts.len() == vs.len(),
        0 <= j <= vs.len(),
        encode_list(m, reg, ts.subrange(0, j), vs.subrange(0, j)) is Err,
    ensures
        encode_list(m, reg, ts, vs) == encode_list(m, reg, ts.subrange(0, j), vs.subrange(0, j)),
    decreases vs.len(),
{
    if j < vs.len() {
        let k = vs.len() - 1;
        assert(ts.subrange(0, k).subrange(0, j) =~= ts.subrange(0, j));
        assert(vs.subrange(0, k).subrange(0, j) =~= vs.subrange(0, j));
        lemma_encode_list_error(m, reg, ts.subrange(0, k), vs.subrange(0, k), j);
    } else {
        assert(ts.subrange(0, j) =~= ts);
        assert(vs.subrange(0, j) =~= vs);
    }
}

proof fn lemma_encode_list_step(m: Seq<u8>, reg: Seq<RecordType>, ts: Seq<ParsedType>, vs: Seq<WireValue>, i: int)
    requires
        0 <= i < vs.len(),
        ts.len() == vs.len(),
    ensures
        encode_list(m, reg, ts.subrange(0, i + 1), vs.subrange(0, i + 1)) == (match encode_list(m, reg, ts.subrange(0, i), vs.subrange(0, i)) {
            Ok((m1, b1)) => match encode(m1, reg, ts[i], vs[i]) {
                Ok((m2, b2)) => Ok((m2, b1 + b2)),
                Err(e) => Err(e),
            },
            Err(e) => Err(e),
        }),
{
    assert(ts.subrange(0, i + 1).subrange(0, i) =~= ts.subrange(0, i));
    assert(vs.subrange(0, i + 1).subrange(0, i) =~= vs.subrange(0, i));
}

/// A flat, 32-bit addressed byte space shared by both sides of the boundary.
/// Allocation appends, so an address stays valid once handed out: what is
/// allocated here is owned by the reader across the boundary, not freed.
pub struct LinearMemory {
    bytes: Vec<u8>,
}

impl View for LinearMemory {
    type V = Seq<u8>;

    closed spec fn view(&self) -> Seq<u8> {
        self.bytes@
    }
}

impl LinearMemory {
    pub fn new() -> (r: Self)
        ensures
            r@ == Seq::<u8>::empty(),
    {
        LinearMemory { bytes: Vec::new() }
    }

    /// Adopts existing memory contents; fails if they exceed the 32-bit space.
    pub fn from_bytes(bytes: Vec<u8>) -> (r: Option<Self>)
        ensures
            bytes@.len() <= word_max() <==> r is Some,
            r matches Some(mem) ==> mem@ == bytes@,
    {
        if bytes.len() <= 0xffff_ffff {
            Some(LinearMemory { bytes })
        } else {
            None
        }
    }

    pub fn len(&self) -> (r: usize)
        ensures
            r == self@.len(),
    {
        self.bytes.len()
    }

    pub fn as_bytes(&self) -> (r: &[u8])
        ensures
            r@ == self@,
    {
        self.bytes.as_slice()
    }

    /// Copies `data` to the end of memory and returns its address, or `None`
    /// (memory unchanged) when it would not be addressable.
    pub fn allocate(&mut self, data: &[u8]) -> (r: Option<u32>)
        ensures
            old(self)@.len() + data@.len() <= word_max() ==> r == Some(old(self)@.len() as u32)
                && final(self)@ == old(self)@ + data@,
            old(self)@.len() + data@.len() > word_max() ==> r is None && final(self)@ == old(self)@,
    {
        if data.len() as u64 > 0xffff_ffff || self.bytes.len() as u64 > 0xffff_ffff - data.len() as u64 {
            return None;
        }
        let addr = self.bytes.len() as u32;
        self.bytes.extend_from_slice(data);
        Some(addr)
    }

    /// The `len` bytes at `addr`, if they lie inside memory.
    pub fn read(&self, addr: usize, len: usize) -> (r: Option<&[u8]>)
        ensures
            addr + len <= self@.len() <==> r is Some,
            r matches Some(b) ==> b@ == self@.subrange(addr as int, addr + len),
    {
        if addr > self.bytes.len() || len > self.bytes.len() - addr {
            None
        } else {
            Some(vstd::slice::slice_subrange(self.bytes.as_slice(), addr, addr + len))
        }
    }
}

fn push_word(out: &mut Vec<u8>, w: u32)
    ensures
        final(out)@ == old(out)@ + word(w as nat),
{
    let mut b = u32_to_le_bytes(w);
    out.append(&mut b);
}

/// The index of the first record of `reg` named `name`.
pub fn find_record(reg: &[RecordType], name: &String) -> (r: Option<usize>)
    ensures
        match lookup(reg@, name@) {
            Some(ts) => r matches Some(i) && i < reg@.len() && field_types(reg@[i as int].fields) == ts,
            None => r is None,
        },
{
    let mut i: usize = 0;
    assert(reg@.subrange(0, reg@.len() as int) =~= reg@);
    while i < reg.len()
        invariant
            i <= reg@.len(),
            lookup(reg@, name@) == lookup(reg@.subrange(i as int, reg@.len() as int), name@),
        decreases reg.len() - i,
    {
        proof {
            let rest = reg@.subrange(i as int, reg@.len() as int);
            assert(rest.subrange(1, rest.len() as int) =~= reg@.subrange(i + 1, reg@.len() as int));
        }
        if reg[i].name == *name {
            return Some(i);
        }
        i = i + 1;
    }
    None
}

pub open spec fn types_of(fields: Seq<RecordField>) -> Seq<ParsedType> {
    fields.map_values(|f: RecordField| f.ty)
}

fn write_scalar(t: &ParsedType, v: &Value, out: &mut Vec<u8>) -> (r: Result<(), CodecError>)
    requires
        is_scalar(*t),
    ensures
        scalar_of_type(*t, v@) ==> r is Ok && final(out)@ == old(out)@ + scalar_bytes(v@),
        !scalar_of_type(*t, v@) ==> r == Err::<(), CodecError>(CodecError::TypeMismatch),
{
    let mut b: Vec<u8> = match (t, v) {
        (ParsedType::Boolean, Value::Boolean(x)) => vec![if *x { 1u8 } else { 0u8 }],
        (ParsedType::I8, Value::I8(x)) => vec![*x as u8],
        (ParsedType::U8, Value::U8(x)) => vec![*x],
        (ParsedType::I16, Value::I16(x)) => u16_to_le_bytes(*x as u16),
        (ParsedType::U16, Value::U16(x)) => u16_to_le_bytes(*x),
        (ParsedType::I32, Value::I32(x)) => u32_to_le_bytes(*x as u32),
        (ParsedType::U32, Value::U32(x)) => u32_to_le_bytes(*x),
        (ParsedType::F32, Value::F32(x)) => u32_to_le_bytes(*x),
        (ParsedType::I64, Value::I64(x)) => u64_to_le_bytes(*x as u64),
        (ParsedType::U64, Value::U64(x)) => u64_to_le_bytes(*x),
        (ParsedType::F64, Value::F64(x)) => u64_to_le_bytes(*x),
        _ => return Err(CodecError::TypeMismatch),
    };
    out.append(&mut b);
    Ok(())
}

/// Writes `v` as a value of type `t`: whatever it refers to is allocated in
/// `mem` first, then its inline bytes are appended to `out`.
pub fn write_value(mem: &mut LinearMemory, reg: &[RecordType], t: &ParsedType, v: &Value, out: &mut Vec<u8>) -> (r: Result<(), CodecError>)
    ensures
        match encode(old(mem)@, reg@, *t, v@) {
            Ok((m2, b)) => r is Ok && final(mem)@ == m2 && final(out)@ == old(out)@ + b,
            Err(e) => r == Err::<(), CodecError>(e),
        },
    decreases v,
{
    match v {
        Value::Text(b) => {
            match t {
                ParsedType::Utf8Str | ParsedType::Utf8String => {},
                _ => return Err(CodecError::TypeMismatch),
            }
            let ghost m0 = mem@;
            match mem.allocate(b.as_slice()) {
                Some(addr) => {
                    let ghost o0 = out@;
                    push_word(out, addr);
                    push_word(out, b.len() as u32);
                    assert(out@ =~= o0 + (word(m0.len()) + word(b@.len())));
                    Ok(())
                },
                None => Err(CodecError::OutOfMemory),
            }
        },
        Value::Vector(vs) => {
            let et: &ParsedType = match t {
                ParsedType::Vector(et) => et,
                _ => return Err(CodecError::TypeMismatch),
            };
            let ghost m0 = mem@;
            let ghost ts = repeat(*et, vs@.len());
            let ghost ws = models(vs@);
            proof {
                lemma_models(vs@);
            }
            let mut payload: Vec<u8> = Vec::new();
            let mut i: usize = 0;
            while i < vs.len()
                invariant
                    i <= vs@.len(),
                    ws == models(vs@),
                    ws.len() == vs@.len(),
                    forall|j: int| 0 <= j < vs@.len() ==> #[trigger] ws[j] == model(vs@[j]),
                    ts == repeat(*et, vs@.len()),
                    m0 == old(mem)@,
                    *v == Value::Vector(*vs),
                    *t == ParsedType::Vector(Box::new(*et)),
                    encode_list(m0, reg@, ts.subrange(0, i as int), ws.subrange(0, i as int)) == Ok::<(Seq<u8>, Seq<u8>), CodecError>((mem@, payload@)),
                decreases vs.len() - i,
            {
                proof {
                    lemma_encode_list_step(m0, reg@, ts, ws, i as int);
                    assert(decreases_to!(*v => *vs));
                    assert(decreases_to!(*vs => vs@));
                    assert(decreases_to!(vs@ => vs@[i as int]));
                }
                let ghost mi = mem@;
                match write_value(mem, reg, et, &vs[i], &mut payload) {
                    Ok(()) => {},
                    Err(e) => {
                        proof {
                            assert(encode(mi, reg@, ts[i as int], ws[i as int]) == Err::<(Seq<u8>, Seq<u8>), CodecError>(e));
                            lemma_encode_list_error(m0, reg@, ts, ws, i + 1);
                            assert(v@ == WireValue::Vector(ws));
                        }
                        return Err(e);
                    },
                }
                i = i + 1;
            }
            assert(ts.subrange(0, i as int) =~= ts);
            assert(ws.subrange(0, i as int) =~= ws);
            if vs.len() > 0xffff_ffff {
                return Err(CodecError::OutOfMemory);
            }
            let ghost m1 = mem@;
            match mem.allocate(payload.as_slice()) {
                Some(addr) => {
                    let ghost o0 = out@;
                    push_word(out, addr);
                    push_word(out, vs.len() as u32);
                    assert(out@ =~= o0 + (word(m1.len()) + word(vs@.len())));
                    Ok(())
                },
                None => Err(CodecError::OutOfMemory),
            }
        },
        Value::Record(fs) => {
            let name: &String = match t {
                ParsedType::Record(name) => name,
                _ => return Err(CodecError::TypeMismatch),
            };
            let idx = match find_record(reg, name) {
                Some(idx) => idx,
                None => return Err(CodecError::UnknownRecord),
            };
            let fields = reg[idx].fields.fields();
            let mut payload: Vec<u8> = Vec::new();
            match write_fields(mem, reg, fields, fs.as_slice(), &mut payload) {
                Ok(()) => {},
                Err(e) => return Err(e),
            }
            match mem.allocate(payload.as_slice()) {
                Some(addr) => {
                    push_word(out, addr);
                    Ok(())
                },
                None => Err(CodecError::OutOfMemory),
            }
        },
        _ => {
            match t {
                ParsedType::Utf8Str | ParsedType::Utf8String | ParsedType::Vector(_) | ParsedType::Record(_) => {
                    Err(CodecError::TypeMismatch)
                },
                _ => write_scalar(t, v, out),
            }
        },
    }
}

/// Writes the values `vs` as the fields `fields`, packed one after the other.
pub fn write_fields(mem: &mut LinearMemory, reg: &[RecordType], fields: &[RecordField], vs: &[Value], out: &mut Vec<u8>) -> (r: Result<(), CodecError>)
    ensures
        match encode_list(old(mem)@, reg@, types_of(fields@), models(vs@)) {
            Ok((m2, b)) => r is Ok && final(mem)@ == m2 && final(out)@ == old(out)@ + b,
            Err(e) => r == Err::<(), CodecError>(e),
        },
    decreases vs@,
{
    let ghost m0 = mem@;
    let ghost o0 = out@;
    let ghost ts = types_of(fields@);
    let ghost ws = models(vs@);
    proof {
        lemma_models(vs@);
    }
    if fields.len() != vs.len() {
        return Err(CodecError::TypeMismatch);
    }
    let mut i: usize = 0;
    assert(o0 + Seq::<u8>::empty() =~= o0);
    while i < vs.len()
        invariant
            i <= vs@.len(),
            fields@.len() == vs@.len(),
            ws == models(vs@),
            ws.len() == vs@.len(),
            forall|j: int| 0 <= j < vs@.len() ==> #[trigger] ws[j] == model(vs@[j]),
            ts == types_of(fields@),
            m0 == old(mem)@,
            o0 == old(out)@,
            encode_list(m0, reg@, ts.subrange(0, i as int), ws.subrange(0, i as int)) matches Ok((m, b))
                && mem@ == m && out@ == o0 + b,
        decreases vs.len() - i,
    {
        proof {
            lemma_encode_list_step(m0, reg@, ts, ws, i as int);
        }
        let ghost o1 = out@;
        let ghost mi = mem@;
        match write_value(mem, reg, &fields[i].ty, &vs[i], out) {
            Ok(()) => {},
            Err(e) => {
                proof {
                    assert(encode(mi, reg@, ts[i as int], ws[i as int]) == Err::<(Seq<u8>, Seq<u8>), CodecError>(e));
                    lemma_encode_list_error(m0, reg@, ts, ws, i + 1);
                }
                return Err(e);
            },
        }
        assert(out@ =~= o0 + (o1.subrange(o0.len() as int, o1.len() as int) + out@.subrange(o1.len() as int, out@.len() as int)));
        i = i + 1;
    }
    assert(ts.subrange(0, i as int) =~= ts);
    assert(ws.subrange(0, i as int) =~= ws);
    Ok(())
}

proof fn lemma_packed_step(ts: Seq<ParsedType>, i: int)
    requires
        0 <= i < ts.len(),
    ensures
        packed_size(ts.subrange(0, i + 1)) == packed_size(ts.subrange(0, i)) + wire_size(ts[i]),
{
    assert(ts.subrange(0, i + 1).subrange(0, i) =~= ts.subrange(0, i));
}

proof fn lemma_packed_mono(ts: Seq<ParsedType>, j: int)
    requires
        0 <= j <= ts.len(),
    ensures
        packed_size(ts.subrange(0, j)) <= packed_size(ts),
    decreases ts.len(),
{
    if j < ts.len() {
        let k = ts.len() - 1;
        lemma_packed_mono(ts.subrange(0, k), j);
        assert(ts.subrange(0, k).subrange(0, j) =~= ts.subrange(0, j));
    } else {
        assert(ts.subrange(0, j) =~= ts);
    }
}

proof fn lemma_decode_list_step(m: Seq<u8>, reg: Seq<RecordType>, ts: Seq<ParsedType>, b: Seq<u8>, fuel: nat, i: int)
    requires
        0 <= i < ts.len(),
        packed_size(ts.subrange(0, i + 1)) <= b.len(),
    ensures
        ({
            let lo = packed_size(ts.subrange(0, i));
            let hi = packed_size(ts.subrange(0, i + 1));
            decode_list(m, reg, ts.subrange(0, i + 1), b.subrange(0, hi as int), fuel) == match decode_list(m, reg, ts.subrange(0, i), b.subrange(0, lo as int), fuel) {
                Some(vs) => match decode(m, reg, ts[i], b.subrange(lo as int, hi as int), fuel) {
                    Some(v) => Some(vs.push(v)),
                    None => None,
                },
                None => None,
            }
        }),
{
    lemma_packed_step(ts, i);
    let lo = packed_size(ts.subrange(0, i));
    let hi = packed_size(ts.subrange(0, i + 1));
    let b1 = b.subrange(0, hi as int);
    assert(ts.subrange(0, i + 1).subrange(0, i) =~= ts.subrange(0, i));
    assert(b1.subrange(0, lo as int) =~= b.subrange(0, lo as int));
    assert(b1.subrange(lo as int, b1.len() as int) =~= b.subrange(lo as int, hi as int));
}

proof fn lemma_decode_list_prefix(m: Seq<u8>, reg: Seq<RecordType>, ts: Seq<ParsedType>, b: Seq<u8>, fuel: nat, j: int)
    requires
        decode_list(m, reg, ts, b, fuel) is Some,
        0 <= j <= ts.len(),
    ensures
        decode_list(m, reg, ts.subrange(0, j), b.subrange(0, packed_size(ts.subrange(0, j)) as int), fuel) is Some,
    decreases ts.len(),
{
    if j < ts.len() {
        let k = ts.len() - 1;
        let pre = packed_size(ts.subrange(0, k));
        lemma_decode_list_prefix(m, reg, ts.subrange(0, k), b.subrange(0, pre as int), fuel, j);
        assert(ts.subrange(0, k).subrange(0, j) =~= ts.subrange(0, j));
        lemma_packed_mono(ts.subrange(0, k), j);
        let pj = packed_size(ts.subrange(0, j));
        assert(b.subrange(0, pre as int).subrange(0, pj as int) =~= b.subrange(0, pj as int));
    } else {
        assert(ts.subrange(0, j) =~= ts);
        assert(b.subrange(0, b.len() as int) =~= b);
    }
}

/// Reads a value of type `t` from its inline bytes `inl`, following at most
/// `fuel` levels of vectors and records into `mem`.
pub fn read_value(mem: &LinearMemory, reg: &[RecordType], t: &ParsedType, inl: &[u8], fuel: usize) -> (r: Option<Value>)
    ensures
        match decode(mem@, reg@, *t, inl@, fuel as nat) {
            Some(w) => r matches Some(v) && v@ == w,
            None => r is None,
        },
    decreases fuel, 0nat,
{
    if inl.len() != t.wire_size() {
        return None;
    }
    match t {
        ParsedType::Utf8Str | ParsedType::Utf8String => {
            let p = u32_from_le_bytes(vstd::slice::slice_subrange(inl, 0, 4));
            let n = u32_from_le_bytes(vstd::slice::slice_subrange(inl, 4, 8));
            match mem.read(p as usize, n as usize) {
                Some(b) => Some(Value::Text(vstd::slice::slice_to_vec(b))),
                None => None,
            }
        },
        ParsedType::Vector(et) => {
            let et: &ParsedType = et;
            let p = u32_from_le_bytes(vstd::slice::slice_subrange(inl, 0, 4));
            let n = u32_from_le_bytes(vstd::slice::slice_subrange(inl, 4, 8));
            let sz = et.wire_size();
            assert(n as u64 * sz as u64 <= 0xffff_ffff * 8) by (nonlinear_arith)
                requires
                    n <= 0xffff_ffff,
                    sz <= 8,
            ;
            let size: u64 = n as u64 * sz as u64;
            if fuel == 0 || p as u64 + size > mem.len() as u64 {
                return None;
            }
            let payload = match mem.read(p as usize, size as usize) {
                Some(b) => b,
                None => return None,
            };
            let ghost ts = repeat(*et, n as nat);
            let ghost m = mem@;
            proof {
                lemma_packed_repeat(*et, n as nat);
            }
            let mut out: Vec<Value> = Vec::new();
            let mut i: usize = 0;
            let mut off: usize = 0;
            assert(payload@.subrange(0, 0) =~= Seq::<u8>::empty());
            assert(ts.subrange(0, 0) =~= Seq::<ParsedType>::empty());
            while i < n as usize
                invariant
                    i <= n,
                    ts == repeat(*et, n as nat),
                    m == mem@,
                    payload@.len() == packed_size(ts),
                    sz == wire_size(*et),
                    fuel > 0,
                    off == packed_size(ts.subrange(0, i as int)),
                    decode_list(m, reg@, ts.subrange(0, i as int), payload@.subrange(0, off as int), (fuel - 1) as nat) == Some(models(out@)),
                    *t == ParsedType::Vector(Box::new(*et)),
                    inl@.len() == 8,
                    p == word_at(inl@, 0),
                    n == word_at(inl@, 4),
                    size == n * sz,
                    p + size <= m.len(),
                    payload@ == m.subrange(p as int, p + size),
                decreases n - i,
            {
                proof {
                    assert(ts[i as int] == *et);
                    lemma_packed_step(ts, i as int);
                    lemma_packed_mono(ts, i + 1);
                    lemma_decode_list_step(m, reg@, ts, payload@, (fuel - 1) as nat, i as int);
                }
                assert(payload@.len() == payload.len());
                let elem = vstd::slice::slice_subrange(payload, off, off + sz);
                match read_value(mem, reg, et, elem, fuel - 1) {
                    Some(v) => {
                        proof {
                            lemma_models_push(out@, v);
                        }
                        out.push(v);
                    },
                    None => {
                        proof {
                            if decode_list(m, reg@, ts, payload@, (fuel - 1) as nat) is Some {
                                lemma_decode_list_prefix(m, reg@, ts, payload@, (fuel - 1) as nat, i + 1);
                            }
                        }
                        return None;
                    },
                }
                off = off + sz;
                i = i + 1;
            }
            assert(ts.subrange(0, i as int) =~= ts);
            assert(payload@.subrange(0, off as int) =~= payload@);
            Some(Value::Vector(out))
        },
        ParsedType::Record(name) => {
            let idx = match find_record(reg, name) {
                Some(idx) => idx,
                None => return None,
            };
            if fuel == 0 {
                return None;
            }
            let fields = reg[idx].fields.fields();
            let ghost ts = types_of(fields@);
            let p = u32_from_le_bytes(vstd::slice::slice_subrange(inl, 0, 4));
            let mut size: u64 = 0;
            let mut i: usize = 0;
            assert(ts.subrange(0, 0) =~= Seq::<ParsedType>::empty());
            assert(lookup(reg@, name@) == Some(ts));
            while i < fields.len()
                invariant
                    i <= fields@.len(),
                    ts == types_of(fields@),
                    size == packed_size(ts.subrange(0, i as int)),
                    size <= mem@.len(),
                    lookup(reg@, name@) == Some(ts),
                    *t == ParsedType::Record(*name),
                    fuel > 0,
                    inl@.len() == 4,
                    p == word_at(inl@, 0),
                decreases fields.len() - i,
            {
                proof {
                    assert(ts[i as int] == fields@[i as int].ty);
                    lemma_packed_step(ts, i as int);
                    lemma_packed_mono(ts, i + 1);
                }
                let sz = fields[i].ty.wire_size() as u64;
                if sz > mem.len() as u64 - size {
                    return None;
                }
                size = size + sz;
                i = i + 1;
            }
            assert(ts.subrange(0, i as int) =~= ts);
            if size > mem.len() as u64 || p as u64 > mem.len() as u64 - size {
                return None;
            }
            let payload = match mem.read(p as usize, size as usize) {
                Some(b) => b,
                None => return None,
            };
            match read_fields(mem, reg, fields, payload, fuel - 1) {
                Some(vs) => Some(Value::Record(vs)),
                None => None,
            }
        },
        _ => {
            proof {
                lemma_auto_spec_u16_to_from_le_bytes();
            }
            let v = match t {
                ParsedType::Boolean => Value::Boolean(inl[0] != 0),
                ParsedType::I8 => Value::I8(#[verifier::truncate] (inl[0] as i8)),
                ParsedType::U8 => Value::U8(inl[0]),
                ParsedType::I16 => Value::I16(#[verifier::truncate] (u16_from_le_bytes(inl) as i16)),
                ParsedType::U16 => Value::U16(u16_from_le_bytes(inl)),
                ParsedType::I32 => Value::I32(#[verifier::truncate] (u32_from_le_bytes(inl) as i32)),
                ParsedType::U32 => Value::U32(u32_from_le_bytes(inl)),
                ParsedType::F32 => Value::F32(u32_from_le_bytes(inl)),
                ParsedType::I64 => Value::I64(#[verifier::truncate] (u64_from_le_bytes(inl) as i64)),
                ParsedType::U64 => Value::U64(u64_from_le_bytes(inl)),
                _ => Value::F64(u64_from_le_bytes(inl)),
            };
            Some(v)
        },
    }
}

/// Reads the fields `fields` from their packed bytes `payload`.
pub fn read_fields(mem: &LinearMemory, reg: &[RecordType], fields: &[RecordField], payload: &[u8], fuel: usize) -> (r: Option<Vec<Value>>)
    ensures
        match decode_list(mem@, reg@, types_of(fields@), payload@, fuel as nat) {
            Some(ws) => r matches Some(vs) && models(vs@) == ws,
            None => r is None,
        },
    decreases fuel, fields@.len(),
{
    let ghost ts = types_of(fields@);
    let ghost m = mem@;
    let mut total: usize = 0;
    let mut i: usize = 0;
    assert(ts.subrange(0, 0) =~= Seq::<ParsedType>::empty());
    while i < fields.len()
        invariant
            i <= fields@.len(),
            ts == types_of(fields@),
            total == packed_size(ts.subrange(0, i as int)),
            total <= payload@.len(),
        decreases fields.len() - i,
    {
        proof {
            assert(ts[i as int] == fields@[i as int].ty);
            lemma_packed_step(ts, i as int);
        }
        let sz = fields[i].ty.wire_size();
        if sz > payload.len() - total {
            proof {
                lemma_packed_mono(ts, i + 1);
            }
            return None;
        }
        total = total + sz;
        i = i + 1;
    }
    assert(ts.subrange(0, i as int) =~= ts);
    if total != payload.len() {
        return None;
    }
    let mut out: Vec<Value> = Vec::new();
    let mut i: usize = 0;
    let mut off: usize = 0;
    assert(payload@.subrange(0, 0) =~= Seq::<u8>::empty());
    while i < fields.len()
        invariant
            i <= fields@.len(),
            ts == types_of(fields@),
            m == mem@,
            payload@.len() == packed_size(ts),
            off == packed_size(ts.subrange(0, i as int)),
            decode_list(m, reg@, ts.subrange(0, i as int), payload@.subrange(0, off as int), fuel as nat) == Some(models(out@)),
        decreases fields.len() - i,
    {
        proof {
            assert(ts[i as int] == fields@[i as int].ty);
            lemma_packed_step(ts, i as int);
            lemma_packed_mono(ts, i + 1);
            lemma_decode_list_step(m, reg@, ts, payload@, fuel as nat, i as int);
            assert(packed_size(ts.subrange(0, i + 1)) <= packed_size(ts));
            assert(off + wire_size(ts[i as int]) <= payload@.len());
        }
        let sz = fields[i].ty.wire_size();
        assert(payload@.len() == payload.len());
        let elem = vstd::slice::slice_subrange(payload, off, off + sz);
        match read_value(mem, reg, &fields[i].ty, elem, fuel) {
            Some(v) => {
                proof {
                    lemma_models_push(out@, v);
                }
                out.push(v);
            },
            None => {
                proof {
                    if decode_list(m, reg@, ts, payload@, fuel as nat) is Some {
                        lemma_decode_list_prefix(m, reg@, ts, payload@, fuel as nat, i + 1);
                    }
                }
                return None;
            },
        }
        off = off + sz;
        i = i + 1;
    }
    assert(ts.subrange(0, i as int) =~= ts);
    assert(payload@.subrange(0, off as int) =~= payload@);
    Some(out)
}

} // verus!
