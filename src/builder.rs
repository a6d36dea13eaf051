use vstd::prelude::*;
use crate::parsed_type::ParsedType;
use crate::classify::{TypeDecl, classification, classify};
use crate::ast::{FnArgument, FnSignature, RecordType, RecordFields, RecordField, ExternFnType, ExternModType};

verus! {

/// Why a declaration cannot be turned into glue code.
#[derive(Clone, Copy, Debug, PartialEq, Eq)]
pub enum BuildError {
    /// A declared type has no mapping to the calling convention.
    UnsupportedType,
    /// Generic or lifetime parameters are present.
    UnsupportedGenerics,
    /// A record field carries an attribute other than documentation.
    UnsupportedFieldAttribute,
    /// A tuple-like or unit struct was given where named fields are required.
    OnlyNamedFieldsSupported,
    /// A record field is not public.
    VisibilityViolation,
    /// Two exported functions, two records, or two arguments share a name.
    DuplicateDeclaration,
    /// A record type is referred to but not declared.
    UnresolvedRecordReference,
}

/// An attribute on a declared field: documentation, or anything else (by its path).
#[derive(Clone, Debug, PartialEq, Eq)]
pub enum FieldAttribute {
    Doc,
    Other(String),
}

/// A struct field as the parsing front end sees it.
#[derive(Debug, PartialEq)]
pub struct FieldDecl {
    pub name: Option<String>,
    pub is_public: bool,
    pub attributes: Vec<FieldAttribute>,
    pub ty: TypeDecl,
}

#[derive(Debug, PartialEq)]
pub enum FieldsDecl {
    Named(Vec<FieldDecl>),
    Unnamed(Vec<FieldDecl>),
    Unit,
}

/// A struct declaration as the parsing front end sees it.
#[derive(Debug, PartialEq)]
pub struct StructDecl {
    pub name: String,
    /// Whether it declares generic or lifetime parameters, or a where clause.
    pub has_generics: bool,
    pub fields: FieldsDecl,
}

/// A declared function argument as the parsing front end sees it.
#[derive(Debug, PartialEq)]
pub struct ArgDecl {
    pub name: String,
    pub ty: TypeDecl,
}

/// A function declaration as the parsing front end sees it.
#[derive(Debug, PartialEq)]
pub struct FnDecl {
    pub name: String,
    pub has_generics: bool,
    pub arguments: Vec<ArgDecl>,
    pub output_type: Option<TypeDecl>,
}

/// A function declared in an import block, with its optional link name.
#[derive(Debug, PartialEq)]
pub struct ExternFnDecl {
    pub link_name: Option<String>,
    pub function: FnDecl,
}

/// The error that `check_field` rejects a field with, if any.
pub open spec fn check_error(f: FieldDecl) -> Option<BuildError> {
    if !f.is_public {
        Some(BuildError::VisibilityViolation)
    } else if exists|i: int| 0 <= i < f.attributes@.len() && !(#[trigger] f.attributes@[i] is Doc) {
        Some(BuildError::UnsupportedFieldAttribute)
    } else {
        None
    }
}

/// The error a single field is rejected with, if any: its visibility and
/// attributes are checked first, then its type.
pub open spec fn field_error(f: FieldDecl) -> Option<BuildError> {
    match check_error(f) {
        Some(e) => Some(e),
        None => if classification(f.ty) is None {
            Some(BuildError::UnsupportedType)
        } else {
            None
        },
    }
}

/// The error of the first rejected field, if any.
pub open spec fn first_field_error(fs: Seq<FieldDecl>) -> Option<BuildError>
    decreases fs.len(),
{
    if fs.len() == 0 {
        None
    } else {
        match first_field_error(fs.subrange(0, fs.len() - 1)) {
            Some(e) => Some(e),
            None => field_error(fs[fs.len() - 1]),
        }
    }
}

pub open spec fn field_of(f: FieldDecl) -> RecordField {
    RecordField { name: f.name, ty: classification(f.ty).unwrap() }
}

/// Whether no two arguments share a name.
pub open spec fn argument_names_unique(args: Seq<ArgDecl>) -> bool {
    forall|i: int, j: int| 0 <= i < j < args.len() ==> (#[trigger] args[i]).name@ != (#[trigger] args[j]).name@
}

/// Whether every argument type, and the output type if any, has a mapping.
pub open spec fn types_classify(d: FnDecl) -> bool {
    &&& forall|i: int| 0 <= i < d.arguments@.len() ==> classification((#[trigger] d.arguments@[i]).ty) is Some
    &&& d.output_type matches Some(t) ==> classification(t) is Some
}

/// The error a function declaration is rejected with, if any: generics
/// first, then duplicate argument names, then unmapped types.
pub open spec fn function_error(d: FnDecl) -> Option<BuildError> {
    if d.has_generics {
        Some(BuildError::UnsupportedGenerics)
    } else if !argument_names_unique(d.arguments@) {
        Some(BuildError::DuplicateDeclaration)
    } else if !types_classify(d) {
        Some(BuildError::UnsupportedType)
    } else {
        None
    }
}

pub open spec fn argument_of(a: ArgDecl) -> FnArgument {
    FnArgument { name: a.name, ty: classification(a.ty).unwrap() }
}

/// The arguments of an accepted function declaration, with their types mapped.
pub open spec fn arguments_of(d: FnDecl) -> Seq<FnArgument> {
    d.arguments@.map_values(|a: ArgDecl| argument_of(a))
}

/// The output types of an accepted function declaration: zero or one.
pub open spec fn outputs_of(d: FnDecl) -> Seq<ParsedType> {
    match d.output_type {
        Some(t) => seq![classification(t).unwrap()],
        None => Seq::<ParsedType>::empty(),
    }
}

/// The error of the first rejected function, if any.
pub open spec fn first_function_error(ds: Seq<ExternFnDecl>) -> Option<BuildError>
    decreases ds.len(),
{
    if ds.len() == 0 {
        None
    } else {
        match first_function_error(ds.subrange(0, ds.len() - 1)) {
            Some(e) => Some(e),
            None => function_error(ds[ds.len() - 1].function),
        }
    }
}

/// Accepts a field only if it is public and carries documentation attributes alone.
pub fn check_field(f: &FieldDecl) -> (r: Result<(), BuildError>)
    ensures
        match check_error(*f) {
            Some(e) => r == Err::<(), BuildError>(e),
            None => r is Ok,
        },
{
    if !f.is_public {
        return Err(BuildError::VisibilityViolation);
    }
    let mut i: usize = 0;
    while i < f.attributes.len()
        invariant
            i <= f.attributes@.len(),
            f.is_public,
            forall|j: int| 0 <= j < i ==> #[trigger] f.attributes@[j] is Doc,
        decreases f.attributes.len() - i,
    {
        match &f.attributes[i] {
            FieldAttribute::Doc => {},
            FieldAttribute::Other(_) => {
                assert(!(f.attributes@[i as int] is Doc));
                return Err(BuildError::UnsupportedFieldAttribute);
            },
        }
        i = i + 1;
    }
    Ok(())
}

/// Rejects a struct with generic or lifetime parameters.
pub fn check_record(d: &StructDecl) -> (r: Result<(), BuildError>)
    ensures
        d.has_generics ==> r == Err::<(), BuildError>(BuildError::UnsupportedGenerics),
        !d.has_generics ==> r is Ok,
{
    if d.has_generics {
        Err(BuildError::UnsupportedGenerics)
    } else {
        Ok(())
    }
}

fn clone_field_name(n: &Option<String>) -> (r: Option<String>)
    ensures
        r == *n,
{
    match n {
        Some(s) => Some(s.clone()),
        None => None,
    }
}

/// Checks every field in order and turns them into record fields; fails with
/// the error of the first field rejected.
pub fn fields_into_ast(fs: &Vec<FieldDecl>) -> (r: Result<Vec<RecordField>, BuildError>)
    ensures
        match first_field_error(fs@) {
            Some(e) => r == Err::<Vec<RecordField>, BuildError>(e),
            None => r matches Ok(out) && out@ == fs@.map_values(|f: FieldDecl| field_of(f)),
        },
{
    let mut out: Vec<RecordField> = Vec::new();
    let mut i: usize = 0;
    assert(fs@.subrange(0, 0) =~= Seq::<FieldDecl>::empty());
    while i < fs.len()
        invariant
            i <= fs@.len(),
            first_field_error(fs@.subrange(0, i as int)) is None,
            out@ == fs@.subrange(0, i as int).map_values(|f: FieldDecl| field_of(f)),
        decreases fs.len() - i,
    {
        let ghost pre = fs@.subrange(0, i as int);
        assert(fs@.subrange(0, i + 1).subrange(0, i as int) =~= pre);
        match check_field(&fs[i]) {
            Ok(()) => {},
            Err(e) => {
                proof {
                    lemma_first_error_prefix(fs@, i + 1);
                }
                return Err(e);
            },
        }
        let ty = match classify(&fs[i].ty) {
            Ok(ty) => ty,
            Err(e) => {
                proof {
                    lemma_first_error_prefix(fs@, i + 1);
                }
                return Err(e);
            },
        };
        let f = RecordField { name: clone_field_name(&fs[i].name), ty };
        out.push(f);
        i = i + 1;
        assert(out@ =~= fs@.subrange(0, i as int).map_values(|f: FieldDecl| field_of(f)));
    }
    assert(fs@.subrange(0, i as int) =~= fs@);
    Ok(out)
}

proof fn lemma_first_error_prefix(fs: Seq<FieldDecl>, j: int)
    requires
        0 <= j <= fs.len(),
        first_field_error(fs.subrange(0, j)) is Some,
    ensures
        first_field_error(fs) == first_field_error(fs.subrange(0, j)),
    decreases fs.len(),
{
    if j < fs.len() {
        let k = fs.len() - 1;
        assert(fs.subrange(0, k).subrange(0, j) =~= fs.subrange(0, j));
        lemma_first_error_prefix(fs.subrange(0, k), j);
    } else {
        assert(fs.subrange(0, j) =~= fs);
    }
}

/// Builds a record from a struct declaration: no generics, named fields
/// only, and every field public with documentation attributes alone.
pub fn parse_struct(d: &StructDecl) -> (r: Result<RecordType, BuildError>)
    ensures
        d.has_generics ==> r == Err::<RecordType, BuildError>(BuildError::UnsupportedGenerics),
        !d.has_generics && !(d.fields is Named) ==> r == Err::<RecordType, BuildError>(BuildError::OnlyNamedFieldsSupported),
        !d.has_generics ==> (d.fields matches FieldsDecl::Named(fs) ==> match first_field_error(fs@) {
            Some(e) => r == Err::<RecordType, BuildError>(e),
            None => r matches Ok(rt) && rt.name == d.name && (rt.fields matches RecordFields::Named(out)
                && out@ == fs@.map_values(|f: FieldDecl| field_of(f))),
        }),
{
    match check_record(d) {
        Ok(()) => {},
        Err(e) => return Err(e),
    }
    let fs = match &d.fields {
        FieldsDecl::Named(fs) => fs,
        _ => return Err(BuildError::OnlyNamedFieldsSupported),
    };
    match fields_into_ast(fs) {
        Ok(fields) => Ok(RecordType { name: d.name.clone(), fields: RecordFields::Named(fields) }),
        Err(e) => Err(e),
    }
}

fn classify_arguments(args: &Vec<ArgDecl>) -> (r: Result<Vec<FnArgument>, BuildError>)
    ensures
        (forall|i: int| 0 <= i < args@.len() ==> classification((#[trigger] args@[i]).ty) is Some)
            ==> (r matches Ok(out) && out@ == args@.map_values(|a: ArgDecl| argument_of(a))),
        !(forall|i: int| 0 <= i < args@.len() ==> classification((#[trigger] args@[i]).ty) is Some)
            ==> r == Err::<Vec<FnArgument>, BuildError>(BuildError::UnsupportedType),
{
    let mut out: Vec<FnArgument> = Vec::new();
    let mut i: usize = 0;
    while i < args.len()
        invariant
            i <= args@.len(),
            forall|j: int| 0 <= j < i ==> classification((#[trigger] args@[j]).ty) is Some,
            out@ == args@.subrange(0, i as int).map_values(|a: ArgDecl| argument_of(a)),
        decreases args.len() - i,
    {
        let ty = match classify(&args[i].ty) {
            Ok(ty) => ty,
            Err(e) => {
                assert(classification(args@[i as int].ty) is None);
                return Err(e);
            },
        };
        out.push(FnArgument { name: args[i].name.clone(), ty });
        i = i + 1;
        assert(out@ =~= args@.subrange(0, i as int).map_values(|a: ArgDecl| argument_of(a)));
    }
    assert(args@.subrange(0, i as int) =~= args@);
    Ok(out)
}

/// Builds a signature from a function declaration: no generics, no two
/// arguments with one name, and every type mapped.
pub fn build_function(d: &FnDecl) -> (r: Result<FnSignature, BuildError>)
    ensures
        match function_error(*d) {
            Some(e) => r == Err::<FnSignature, BuildError>(e),
            None => r matches Ok(sig) && sig.name == d.name && sig.arguments@ == arguments_of(*d)
                && sig.output_types@ == outputs_of(*d),
        },
{
    if d.has_generics {
        return Err(BuildError::UnsupportedGenerics);
    }
    let args = &d.arguments;
    let mut j: usize = 0;
    while j < args.len()
        invariant
            j <= args@.len(),
            !d.has_generics,
            args == &d.arguments,
            forall|a: int, b: int| 0 <= a < b < args@.len() && a < j ==> (#[trigger] args@[a]).name@ != (#[trigger] args@[b]).name@,
        decreases args.len() - j,
    {
        let mut k: usize = j + 1;
        while k < args.len()
            invariant
                j < args@.len(),
                j + 1 <= k <= args@.len(),
                !d.has_generics,
                args == &d.arguments,
                forall|a: int, b: int| 0 <= a < b < args@.len() && a < j ==> (#[trigger] args@[a]).name@ != (#[trigger] args@[b]).name@,
                forall|b: int| j < b < k ==> args@[j as int].name@ != (#[trigger] args@[b]).name@,
            decreases args.len() - k,
        {
            if args[j].name == args[k].name {
                assert(!argument_names_unique(args@)) by {
                    assert(args@[j as int].name@ == args@[k as int].name@);
                }
                return Err(BuildError::DuplicateDeclaration);
            }
            k = k + 1;
        }
        j = j + 1;
    }
    let arguments = match classify_arguments(args) {
        Ok(a) => a,
        Err(e) => return Err(e),
    };
    let output = match &d.output_type {
        Some(t) => match classify(t) {
            Ok(p) => Some(p),
            Err(e) => return Err(e),
        },
        None => None,
    };
    Ok(FnSignature::new(d.name.clone(), arguments, output))
}

/// Builds an import block: one imported function per declaration, in order,
/// each keeping its explicit link name if it has one; fails with the error of
/// the first declaration rejected.
pub fn build_extern_mod(namespace: &String, decls: &Vec<ExternFnDecl>) -> (r: Result<ExternModType, BuildError>)
    ensures
        match first_function_error(decls@) {
            Some(e) => r == Err::<ExternModType, BuildError>(e),
            None => r matches Ok(m) && m.namespace == *namespace && m.imports@.len() == decls@.len()
                && forall|i: int| 0 <= i < decls@.len() ==> {
                    &&& (#[trigger] m.imports@[i]).link_name == decls@[i].link_name
                    &&& m.imports@[i].signature.name == decls@[i].function.name
                    &&& m.imports@[i].signature.arguments@ == arguments_of(decls@[i].function)
                    &&& m.imports@[i].signature.output_types@ == outputs_of(decls@[i].function)
                },
        },
{
    let mut imports: Vec<ExternFnType> = Vec::new();
    let mut i: usize = 0;
    assert(decls@.subrange(0, 0) =~= Seq::<ExternFnDecl>::empty());
    while i < decls.len()
        invariant
            i <= decls@.len(),
            first_function_error(decls@.subrange(0, i as int)) is None,
            imports@.len() == i,
            forall|j: int| 0 <= j < i ==> {
                &&& (#[trigger] imports@[j]).link_name == decls@[j].link_name
                &&& imports@[j].signature.name == decls@[j].function.name
                &&& imports@[j].signature.arguments@ == arguments_of(decls@[j].function)
                &&& imports@[j].signature.output_types@ == outputs_of(decls@[j].function)
            },
        decreases decls.len() - i,
    {
        assert(decls@.subrange(0, i + 1).subrange(0, i as int) =~= decls@.subrange(0, i as int));
        match build_function(&decls[i].function) {
            Ok(signature) => {
                imports.push(ExternFnType { link_name: clone_field_name(&decls[i].link_name), signature });
            },
            Err(e) => {
                proof {
                    lemma_first_function_error_prefix(decls@, i + 1);
                }
                return Err(e);
            },
        }
        i = i + 1;
    }
    assert(decls@.subrange(0, i as int) =~= decls@);
    Ok(ExternModType { namespace: namespace.clone(), imports })
}

proof fn lemma_first_function_error_prefix(ds: Seq<ExternFnDecl>, j: int)
    requires
        0 <= j <= ds.len(),
        first_function_error(ds.subrange(0, j)) is Some,
    ensures
        first_function_error(ds) == first_function_error(ds.subrange(0, j)),
    decreases ds.len(),
{
    if j < ds.len() {
        let k = ds.len() - 1;
        assert(ds.subrange(0, k).subrange(0, j) =~= ds.subrange(0, j));
        lemma_first_function_error_prefix(ds.subrange(0, k), j);
    } else {
        assert(ds.subrange(0, j) =~= ds);
    }
}

proof fn lemma_no_error_prefix(fs: Seq<FieldDecl>, i: int)
    requires
        0 <= i <= fs.len(),
        forall|j: int| 0 <= j < i ==> field_error(#[trigger] fs[j]) is None,
    ensures
        first_field_error(fs.subrange(0, i)) is None,
    decreases i,
{
    if i > 0 {
        assert(fs.subrange(0, i).subrange(0, i - 1) =~= fs.subrange(0, i - 1));
        lemma_no_error_prefix(fs, i - 1);
    }
}

/// A struct whose fields are accepted up to a private one is rejected with
/// `VisibilityViolation`.
pub proof fn law_private_field_rejected(fs: Seq<FieldDecl>, i: int)
    requires
        0 <= i < fs.len(),
        !fs[i].is_public,
        forall|j: int| 0 <= j < i ==> field_error(#[trigger] fs[j]) is None,
    ensures
        first_field_error(fs) == Some(BuildError::VisibilityViolation),
{
    lemma_no_error_prefix(fs, i);
    assert(fs.subrange(0, i + 1).subrange(0, i) =~= fs.subrange(0, i));
    lemma_first_error_prefix(fs, i + 1);
}

/// A function declaration with generic or lifetime parameters is rejected
/// with `UnsupportedGenerics`.
pub proof fn law_generic_function_rejected(d: FnDecl)
    requires
        d.has_generics,
    ensures
        function_error(d) == Some(BuildError::UnsupportedGenerics),
{
}

} // verus!
