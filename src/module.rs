use vstd::prelude::*;
use crate::parsed_type::ParsedType;
use crate::ast::{FnSignature, RecordType, SDKAst, ExternFnType, field_types, record_fields};
use crate::builder::BuildError;
use crate::fn_glue::{FnGlue, generate_export, raw_params_of, glue_steps};
use crate::record_codec::{FieldStep, serializer_plan, plan_of};

verus! {

/// The serializer (and, read in the same order, deserializer) plan of one record.
#[derive(Debug, PartialEq, Eq)]
pub struct RecordCodec {
    pub name: String,
    pub steps: Vec<FieldStep>,
}

/// Everything generated for one compilation unit.
#[derive(Debug, PartialEq, Eq)]
pub struct GeneratedModule {
    /// One wrapper per exported function, in declaration order.
    pub exports: Vec<FnGlue>,
    /// One codec per record, in declaration order.
    pub records: Vec<RecordCodec>,
}

/// The signatures of the exported functions, in declaration order.
pub open spec fn exported(items: Seq<SDKAst>) -> Seq<FnSignature>
    decreases items.len(),
{
    if items.len() == 0 {
        Seq::empty()
    } else {
        let k = items.len() - 1;
        exported(items.subrange(0, k)) + match items[k] {
            SDKAst::Function(f) => seq![f.signature],
            _ => Seq::empty(),
        }
    }
}

/// The records, in declaration order.
pub open spec fn declared_records(items: Seq<SDKAst>) -> Seq<RecordType>
    decreases items.len(),
{
    if items.len() == 0 {
        Seq::empty()
    } else {
        let k = items.len() - 1;
        declared_records(items.subrange(0, k)) + match items[k] {
            SDKAst::Record(r) => seq![r],
            _ => Seq::empty(),
        }
    }
}

pub open spec fn has_duplicate(names: Seq<Seq<char>>) -> bool {
    exists|i: int, j: int| 0 <= i < j < names.len() && names[i] == names[j]
}

pub open spec fn signature_names(sigs: Seq<FnSignature>) -> Seq<Seq<char>> {
    sigs.map_values(|s: FnSignature| s.name@)
}

pub open spec fn record_names(rs: Seq<RecordType>) -> Seq<Seq<char>> {
    rs.map_values(|r: RecordType| r.name@)
}

/// Every record that `t` refers to is among `names`.
pub open spec fn type_resolves(t: ParsedType, names: Seq<Seq<char>>) -> bool
    decreases t,
{
    match t {
        ParsedType::Vector(et) => type_resolves(*et, names),
        ParsedType::Record(n) => names.contains(n@),
        _ => true,
    }
}

pub open spec fn signature_resolves(sig: FnSignature, names: Seq<Seq<char>>) -> bool {
    &&& forall|i: int| 0 <= i < sig.arguments@.len() ==> type_resolves((#[trigger] sig.arguments@[i]).ty, names)
    &&& forall|i: int| 0 <= i < sig.output_types@.len() ==> type_resolves(#[trigger] sig.output_types@[i], names)
}

pub open spec fn item_resolves(item: SDKAst, names: Seq<Seq<char>>) -> bool {
    match item {
        SDKAst::Function(f) => signature_resolves(f.signature, names),
        SDKAst::ExternMod(m) => forall|i: int| 0 <= i < m.imports@.len() ==> signature_resolves((#[trigger] m.imports@[i]).signature, names),
        SDKAst::Record(r) => forall|i: int| 0 <= i < field_types(r.fields).len() ==> type_resolves(#[trigger] field_types(r.fields)[i], names),
    }
}

/// Every record referred to anywhere in `items` is declared among them.
pub open spec fn references_resolve(items: Seq<SDKAst>) -> bool {
    forall|i: int| 0 <= i < items.len() ==> item_resolves(#[trigger] items[i], record_names(declared_records(items)))
}

/// Whether every exported function has at most one output type.
pub open spec fn single_outputs(items: Seq<SDKAst>) -> bool {
    forall|i: int| 0 <= i < items.len() ==> (#[trigger] items[i] matches SDKAst::Function(f) ==> f.signature.output_types@.len() <= 1)
}

fn find_duplicate(names: &Vec<&String>) -> (r: bool)
    ensures
        r == has_duplicate(names@.map_values(|s: &String| s@)),
{
    let ghost ns = names@.map_values(|s: &String| s@);
    let mut j: usize = 0;
    while j < names.len()
        invariant
            j <= names@.len(),
            ns == names@.map_values(|s: &String| s@),
            forall|a: int, b: int| 0 <= a < b < ns.len() && a < j ==> ns[a] != ns[b],
        decreases names.len() - j,
    {
        let mut k: usize = j + 1;
        while k < names.len()
            invariant
                j < names@.len(),
                j + 1 <= k <= names@.len(),
                ns == names@.map_values(|s: &String| s@),
                forall|a: int, b: int| 0 <= a < b < ns.len() && a < j ==> ns[a] != ns[b],
                forall|b: int| j < b < k ==> ns[j as int] != ns[b],
            decreases names.len() - k,
        {
            if *names[j] == *names[k] {
                assert(ns[j as int] == ns[k as int]);
                return true;
            }
            k = k + 1;
        }
        j = j + 1;
    }
    false
}

fn contains_name(names: &Vec<&String>, n: &String) -> (r: bool)
    ensures
        r == names@.map_values(|s: &String| s@).contains(n@),
{
    let ghost ns = names@.map_values(|s: &String| s@);
    let mut i: usize = 0;
    while i < names.len()
        invariant
            i <= names@.len(),
            ns == names@.map_values(|s: &String| s@),
            forall|j: int| 0 <= j < i ==> ns[j] != n@,
        decreases names.len() - i,
    {
        if *names[i] == *n {
            assert(ns[i as int] == n@);
            return true;
        }
        i = i + 1;
    }
    false
}

fn resolves(t: &ParsedType, names: &Vec<&String>) -> (r: bool)
    ensures
        r == type_resolves(*t, names@.map_values(|s: &String| s@)),
    decreases t,
{
    match t {
        ParsedType::Vector(et) => resolves(et, names),
        ParsedType::Record(n) => contains_name(names, n),
        _ => true,
    }
}

fn signature_ok(sig: &FnSignature, names: &Vec<&String>) -> (r: bool)
    ensures
        r == signature_resolves(*sig, names@.map_values(|s: &String| s@)),
{
    let mut i: usize = 0;
    while i < sig.arguments.len()
        invariant
            i <= sig.arguments@.len(),
            forall|j: int| 0 <= j < i ==> type_resolves((#[trigger] sig.arguments@[j]).ty, names@.map_values(|s: &String| s@)),
        decreases sig.arguments.len() - i,
    {
        if !resolves(&sig.arguments[i].ty, names) {
            return false;
        }
        i = i + 1;
    }
    let mut i: usize = 0;
    while i < sig.output_types.len()
        invariant
            i <= sig.output_types@.len(),
            forall|j: int| 0 <= j < sig.arguments@.len() ==> type_resolves((#[trigger] sig.arguments@[j]).ty, names@.map_values(|s: &String| s@)),
            forall|j: int| 0 <= j < i ==> type_resolves(#[trigger] sig.output_types@[j], names@.map_values(|s: &String| s@)),
        decreases sig.output_types.len() - i,
    {
        if !resolves(&sig.output_types[i], names) {
            return false;
        }
        i = i + 1;
    }
    true
}

fn item_ok(item: &SDKAst, names: &Vec<&String>) -> (r: bool)
    ensures
        r == item_resolves(*item, names@.map_values(|s: &String| s@)),
{
    match item {
        SDKAst::Function(f) => signature_ok(&f.signature, names),
        SDKAst::ExternMod(m) => {
            let mut i: usize = 0;
            while i < m.imports.len()
                invariant
                    i <= m.imports@.len(),
                    *item == SDKAst::ExternMod(*m),
                    forall|j: int| 0 <= j < i ==> signature_resolves((#[trigger] m.imports@[j]).signature, names@.map_values(|s: &String| s@)),
                decreases m.imports.len() - i,
            {
                let imp: &ExternFnType = &m.imports[i];
                if !signature_ok(&imp.signature, names) {
                    assert(!signature_resolves(m.imports@[i as int].signature, names@.map_values(|s: &String| s@)));
                    return false;
                }
                i = i + 1;
            }
            true
        },
        SDKAst::Record(r) => {
            let fields = r.fields.fields();
            let mut i: usize = 0;
            while i < fields.len()
                invariant
                    i <= fields@.len(),
                    fields@ == record_fields(r.fields),
                    *item == SDKAst::Record(*r),
                    forall|j: int| 0 <= j < i ==> type_resolves(#[trigger] field_types(r.fields)[j], names@.map_values(|s: &String| s@)),
                decreases fields.len() - i,
            {
                assert(field_types(r.fields)[i as int] == fields@[i as int].ty);
                if !resolves(&fields[i].ty, names) {
                    return false;
                }
                i = i + 1;
            }
            true
        },
    }
}

/// Assembles the glue of one compilation unit. Duplicate exported function
/// names or duplicate record names are rejected first, then references to
/// undeclared records; otherwise every exported function gets its wrapper and
/// every record its codec, in declaration order.
pub fn assemble(items: &Vec<SDKAst>) -> (r: Result<GeneratedModule, BuildError>)
    requires
        single_outputs(items@),
    ensures
        has_duplicate(signature_names(exported(items@))) || has_duplicate(record_names(declared_records(items@)))
            ==> r == Err::<GeneratedModule, BuildError>(BuildError::DuplicateDeclaration),
        !has_duplicate(signature_names(exported(items@))) && !has_duplicate(record_names(declared_records(items@)))
            && !references_resolve(items@) ==> r == Err::<GeneratedModule, BuildError>(BuildError::UnresolvedRecordReference),
        !has_duplicate(signature_names(exported(items@))) && !has_duplicate(record_names(declared_records(items@)))
            && references_resolve(items@) ==> (r matches Ok(m) && {
                let fs = exported(items@);
                let rs = declared_records(items@);
                &&& m.exports@.len() == fs.len()
                &&& forall|i: int| 0 <= i < fs.len() ==> {
                    &&& (#[trigger] m.exports@[i]).export_name == fs[i].name
                    &&& m.exports@[i].prolog.raw_params@ == raw_params_of(fs[i].arguments@)
                    &&& m.exports@[i].steps@ == glue_steps(fs[i].arguments@.len(), fs[i].output_types@.len() > 0)
                }
                &&& m.records@.len() == rs.len()
                &&& forall|i: int| 0 <= i < rs.len() ==> {
                    &&& (#[trigger] m.records@[i]).name == rs[i].name
                    &&& plan_of(m.records@[i].steps@, rs[i].fields)
                }
            }),
{
    let mut fn_names: Vec<&String> = Vec::new();
    let mut rec_names: Vec<&String> = Vec::new();
    let mut exports: Vec<FnGlue> = Vec::new();
    let mut records: Vec<RecordCodec> = Vec::new();
    let mut i: usize = 0;
    assert(items@.subrange(0, 0) =~= Seq::<SDKAst>::empty());
    while i < items.len()
        invariant
            i <= items@.len(),
            single_outputs(items@),
            fn_names@.map_values(|s: &String| s@) == signature_names(exported(items@.subrange(0, i as int))),
            rec_names@.map_values(|s: &String| s@) == record_names(declared_records(items@.subrange(0, i as int))),
            exports@.len() == exported(items@.subrange(0, i as int)).len(),
            forall|j: int| 0 <= j < exports@.len() ==> {
                let f = #[trigger] exported(items@.subrange(0, i as int))[j];
                &&& (#[trigger] exports@[j]).export_name == f.name
                &&& exports@[j].prolog.raw_params@ == raw_params_of(f.arguments@)
                &&& exports@[j].steps@ == glue_steps(f.arguments@.len(), f.output_types@.len() > 0)
            },
            records@.len() == declared_records(items@.subrange(0, i as int)).len(),
            forall|j: int| 0 <= j < records@.len() ==> {
                let rt = #[trigger] declared_records(items@.subrange(0, i as int))[j];
                &&& (#[trigger] records@[j]).name == rt.name
                &&& plan_of(records@[j].steps@, rt.fields)
            },
        decreases items.len() - i,
    {
        let ghost pre = items@.subrange(0, i as int);
        assert(items@.subrange(0, i + 1).subrange(0, i as int) =~= pre);
        assert(items@.subrange(0, i + 1)[i as int] == items@[i as int]);
        let ghost now = items@.subrange(0, i + 1);
        let ghost fn0 = fn_names@;
        let ghost rec0 = rec_names@;
        match &items[i] {
            SDKAst::Function(f) => {
                assert(items@[i as int] matches SDKAst::Function(g) ==> g.signature.output_types@.len() <= 1);
                fn_names.push(&f.signature.name);
                exports.push(generate_export(f));
                assert(exported(now) == exported(pre) + seq![f.signature]);
                assert(declared_records(now) =~= declared_records(pre));
                assert(fn_names@.map_values(|s: &String| s@) =~= fn0.map_values(|s: &String| s@).push(f.signature.name@));
                assert(signature_names(exported(now)) =~= signature_names(exported(pre)).push(f.signature.name@));
                assert(rec_names@ == rec0);
            },
            SDKAst::Record(rt) => {
                rec_names.push(&rt.name);
                records.push(RecordCodec { name: rt.name.clone(), steps: serializer_plan(rt) });
                assert(declared_records(now) == declared_records(pre) + seq![*rt]);
                assert(exported(now) =~= exported(pre));
                assert(rec_names@.map_values(|s: &String| s@) =~= rec0.map_values(|s: &String| s@).push(rt.name@));
                assert(record_names(declared_records(now)) =~= record_names(declared_records(pre)).push(rt.name@));
                assert(fn_names@ == fn0);
            },
            SDKAst::ExternMod(_) => {
                assert(exported(now) =~= exported(pre));
                assert(declared_records(now) =~= declared_records(pre));
            },
        }
        i = i + 1;
    }
    assert(items@.subrange(0, i as int) =~= items@);
    if find_duplicate(&fn_names) || find_duplicate(&rec_names) {
        return Err(BuildError::DuplicateDeclaration);
    }
    let mut i: usize = 0;
    while i < items.len()
        invariant
            i <= items@.len(),
            rec_names@.map_values(|s: &String| s@) == record_names(declared_records(items@)),
            !has_duplicate(signature_names(exported(items@))),
            !has_duplicate(record_names(declared_records(items@))),
            forall|j: int| 0 <= j < i ==> item_resolves(#[trigger] items@[j], record_names(declared_records(items@))),
        decreases items.len() - i,
    {
        if !item_ok(&items[i], &rec_names) {
            return Err(BuildError::UnresolvedRecordReference);
        }
        i = i + 1;
    }
    Ok(GeneratedModule { exports, records })
}

proof fn lemma_records_concat(a: Seq<SDKAst>, b: Seq<SDKAst>)
    ensures
        declared_records(a + b) == declared_records(a) + declared_records(b),
    decreases b.len(),
{
    if b.len() == 0 {
        assert(a + b =~= a);
        assert(declared_records(a) + declared_records(b) =~= declared_records(a));
    } else {
        let k = b.len() - 1;
        lemma_records_concat(a, b.subrange(0, k));
        assert((a + b).subrange(0, a.len() + k) =~= a + b.subrange(0, k));
        assert((a + b)[a.len() + k] == b[k]);
        assert(declared_records(a) + declared_records(b) =~= declared_records(a) + declared_records(b.subrange(0, k)) + match b[k] {
            SDKAst::Record(r) => seq![r],
            _ => Seq::<RecordType>::empty(),
        });
    }
}

/// Two records declared under one name make the unit a duplicate
/// declaration, which `assemble` rejects with `DuplicateDeclaration`.
pub proof fn law_duplicate_records_rejected(items: Seq<SDKAst>, i: int, j: int)
    requires
        0 <= i < j < items.len(),
        items[i] is Record,
        items[j] is Record,
        items[i]->Record_0.name@ == items[j]->Record_0.name@,
    ensures
        has_duplicate(record_names(declared_records(items))),
{
    let a = items.subrange(0, i);
    let b = items.subrange(i, j);
    let c = items.subrange(j, items.len() as int);
    assert(items =~= a + b + c);
    lemma_records_concat(a + b, c);
    lemma_records_concat(a, b);
    assert(b =~= seq![items[i]] + b.subrange(1, b.len() as int));
    lemma_records_concat(seq![items[i]], b.subrange(1, b.len() as int));
    assert(c =~= seq![items[j]] + c.subrange(1, c.len() as int));
    lemma_records_concat(seq![items[j]], c.subrange(1, c.len() as int));
    assert(seq![items[i]].subrange(0, 0) =~= Seq::<SDKAst>::empty());
    assert(seq![items[j]].subrange(0, 0) =~= Seq::<SDKAst>::empty());
    assert(declared_records(Seq::<SDKAst>::empty()) == Seq::<RecordType>::empty());
    assert(seq![items[i]][0] == items[i]);
    assert(declared_records(seq![items[i]]) =~= seq![items[i]->Record_0]);
    assert(declared_records(seq![items[j]]) =~= seq![items[j]->Record_0]);
    let rs = declared_records(items);
    let p = declared_records(a).len() as int;
    let q = (declared_records(a).len() + declared_records(b).len()) as int;
    assert(rs[p] == items[i]->Record_0);
    assert(rs[q] == items[j]->Record_0);
    let ns = record_names(rs);
    assert(ns[p] == ns[q]);
}

} // verus!
