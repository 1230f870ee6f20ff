//! The declarations of an API description, and their resolution.
//!
//! The types here mirror those of the type model, but refer to other types
//! by name instead of holding them.  A description can then be read without
//! regard to meaning; what it means is settled afterwards, by
//! [`resolve_types`].
use vstd::prelude::*;
use vstd::string::StringExecFns;
use crate::error::Error;
use crate::function::{Function, FunctionView};
use crate::typ::{
    Decl, DeclView, EnumValue, Type, TypeView, clone_enum_values, distinct, enum_values_view,
    fields_view, has_duplicate, names_view, pair_names, types_view,
};
use crate::variable::{ScalarOp, Source, SourceView, dispatch, generator, sources_view};

verus! {

/// The type of a declared entity.
#[derive(Debug)]
pub enum DeclType {
    /// A type that needs no other declaration.
    Basic(Type),
    /// A struct, given by its fields.
    Struct(Vec<UDTDecl>),
    /// An enumeration, given by its variants.
    Enum(Vec<EnumValue>),
    /// A struct that is declared elsewhere, by name.
    StructRef(String),
    /// An enumeration that is declared elsewhere, by name.
    EnumRef(String),
}

/// A user-defined type, or a field of one: a name and a type.
#[derive(Debug)]
pub struct UDTDecl {
    pub name: String,
    pub ty: DeclType,
}

/// A free variable.
#[derive(Debug)]
pub struct FreeVarDecl {
    pub name: String,
    pub op: ScalarOp,
    pub genname: String,
    /// `Struct` and `Enum` are not valid here, but the references are.
    pub ty: DeclType,
}

/// A function.
#[derive(Debug)]
pub struct FuncDecl {
    pub name: String,
    pub retval: DeclType,
    pub arguments: Vec<DeclType>,
}

/// A call of a function, with every type and argument given as text.
#[derive(Debug, PartialEq)]
pub struct FuncCall {
    pub name: String,
    pub retval: String,
    pub arguments: Vec<String>,
}

/// One declaration of a description.
#[derive(Debug)]
pub enum Declaration {
    Free(FreeVarDecl),
    Function(FuncDecl),
    UDT(UDTDecl),
}

/// The mathematical value of a [`DeclType`].
pub enum DeclTypeView {
    Basic(TypeView),
    Struct(Seq<UDTDeclView>),
    Enum(Seq<(Seq<char>, int)>),
    StructRef(Seq<char>),
    EnumRef(Seq<char>),
}

/// The mathematical value of a [`UDTDecl`].
pub struct UDTDeclView {
    pub name: Seq<char>,
    pub ty: DeclTypeView,
}

/// The mathematical value of a [`FreeVarDecl`].
pub struct FreeVarDeclView {
    pub name: Seq<char>,
    pub op: ScalarOp,
    pub genname: Seq<char>,
    pub ty: DeclTypeView,
}

/// The mathematical value of a [`FuncDecl`].
pub struct FuncDeclView {
    pub name: Seq<char>,
    pub retval: DeclTypeView,
    pub arguments: Seq<DeclTypeView>,
}

/// The mathematical value of a [`Declaration`].
pub enum DeclarationView {
    Free(FreeVarDeclView),
    Function(FuncDeclView),
    UDT(UDTDeclView),
}

/// The mathematical values of a list of fields.
pub open spec fn udts_view(fields: Seq<UDTDecl>) -> Seq<UDTDeclView>
    decreases fields,
{
    Seq::new(
        fields.len(),
        |i: int|
            if 0 <= i < fields.len() {
                fields[i].model()
            } else {
                UDTDeclView { name: Seq::empty(), ty: DeclTypeView::StructRef(Seq::empty()) }
            },
    )
}

/// The mathematical values of a list of declared types.
pub open spec fn decl_types_view(types: Seq<DeclType>) -> Seq<DeclTypeView> {
    Seq::new(types.len(), |i: int| types[i]@)
}

/// The mathematical values of a list of declarations.
pub open spec fn declarations_view(decls: Seq<Declaration>) -> Seq<DeclarationView> {
    Seq::new(decls.len(), |i: int| decls[i]@)
}

impl DeclType {
    /// The mathematical value of the declared type.
    pub open spec fn model(&self) -> DeclTypeView
        decreases self,
    {
        match self {
            DeclType::Basic(t) => DeclTypeView::Basic(t@),
            DeclType::Struct(fields) => DeclTypeView::Struct(udts_view(fields@)),
            DeclType::Enum(values) => DeclTypeView::Enum(enum_values_view(values@)),
            DeclType::StructRef(n) => DeclTypeView::StructRef(n@),
            DeclType::EnumRef(n) => DeclTypeView::EnumRef(n@),
        }
    }
}

impl UDTDecl {
    /// The mathematical value of the declaration.
    pub open spec fn model(&self) -> UDTDeclView
        decreases self,
    {
        UDTDeclView { name: self.name@, ty: self.ty.model() }
    }
}

impl View for DeclType {
    type V = DeclTypeView;

    open spec fn view(&self) -> DeclTypeView {
        self.model()
    }
}

impl View for UDTDecl {
    type V = UDTDeclView;

    open spec fn view(&self) -> UDTDeclView {
        self.model()
    }
}

impl View for FreeVarDecl {
    type V = FreeVarDeclView;

    open spec fn view(&self) -> FreeVarDeclView {
        FreeVarDeclView { name: self.name@, op: self.op, genname: self.genname@, ty: self.ty@ }
    }
}

impl View for FuncDecl {
    type V = FuncDeclView;

    open spec fn view(&self) -> FuncDeclView {
        FuncDeclView {
            name: self.name@,
            retval: self.retval@,
            arguments: decl_types_view(self.arguments@),
        }
    }
}

impl View for Declaration {
    type V = DeclarationView;

    open spec fn view(&self) -> DeclarationView {
        match self {
            Declaration::Free(f) => DeclarationView::Free(f@),
            Declaration::Function(f) => DeclarationView::Function(f@),
            Declaration::UDT(u) => DeclarationView::UDT(u@),
        }
    }
}

/// The names of a list of fields.
pub open spec fn udt_names(fields: Seq<UDTDeclView>) -> Seq<Seq<char>> {
    Seq::new(fields.len(), |i: int| fields[i].name)
}

/// The name given to an aggregate that is declared without one.
pub open spec fn anonymous_name(d: DeclTypeView) -> Seq<char> {
    if d is Enum {
        "_unnamed_enum_"@
    } else {
        "_unnamed_struct_"@
    }
}

/// The type that a declared type stands for, under the given name, or the
/// fault found in it.
///
/// A basic type stands for itself.  A struct must have no two fields of
/// one name; its fields are lowered in order, an aggregate among them as
/// one without a name, and the first fault among them is the struct's.  An
/// enumeration must have a variant, and no two of one name.  A reference by
/// name alone is not lowered.
pub open spec fn lower(name: Seq<char>, d: DeclTypeView) -> Result<TypeView, Error>
    decreases d, 0nat,
{
    match d {
        DeclTypeView::Basic(t) => Ok(t),
        DeclTypeView::Struct(fields) => if !distinct(udt_names(fields)) {
            Err(Error::DuplicateMember)
        } else {
            match lower_fields(fields, fields.len()) {
                Ok(lowered) => Ok(TypeView::Struct(name, lowered)),
                Err(e) => Err(e),
            }
        },
        DeclTypeView::Enum(values) => if values.len() == 0 {
            Err(Error::NoVariants)
        } else if !distinct(pair_names(values)) {
            Err(Error::DuplicateMember)
        } else {
            Ok(TypeView::Enum(name, values))
        },
        DeclTypeView::StructRef(_) => Err(Error::Unimplemented),
        DeclTypeView::EnumRef(_) => Err(Error::Unimplemented),
    }
}

/// The first `n` fields of a struct, lowered, or the fault of the first
/// field that has one.
pub open spec fn lower_fields(fields: Seq<UDTDeclView>, n: nat) -> Result<
    Seq<(Seq<char>, TypeView)>,
    Error,
>
    decreases fields, n,
{
    if n == 0 || n > fields.len() {
        Ok(Seq::empty())
    } else {
        match lower_fields(fields, (n - 1) as nat) {
            Err(e) => Err(e),
            Ok(lowered) => match lower(anonymous_name(fields[n - 1].ty), fields[n - 1].ty) {
                Ok(t) => Ok(lowered.push((fields[n - 1].name, t))),
                Err(e) => Err(e),
            },
        }
    }
}

/// The type that a declared type stands for where no name is at hand.
pub open spec fn type_of(d: DeclTypeView) -> Result<TypeView, Error> {
    lower(anonymous_name(d), d)
}

/// The first `n` of a list of declared types, lowered, or the fault of the
/// first that has one.
pub open spec fn type_of_all(types: Seq<DeclTypeView>, n: nat) -> Result<Seq<TypeView>, Error>
    decreases n,
{
    if n == 0 || n > types.len() {
        Ok(Seq::empty())
    } else {
        match type_of_all(types, (n - 1) as nat) {
            Err(e) => Err(e),
            Ok(lowered) => match type_of(types[n - 1]) {
                Ok(t) => Ok(lowered.push(t)),
                Err(e) => Err(e),
            },
        }
    }
}

/// A fault among the first fields is the fault of them all.
pub proof fn lemma_lower_fields(fields: Seq<UDTDeclView>, k: nat, n: nat)
    requires
        k <= n <= fields.len(),
    ensures
        lower_fields(fields, k) is Err ==> lower_fields(fields, n) == lower_fields(fields, k),
        lower_fields(fields, n) matches Ok(lowered) ==> lowered.len() == n,
    decreases n,
{
    if n > 0 {
        if k < n {
            lemma_lower_fields(fields, k, (n - 1) as nat);
        } else {
            lemma_lower_fields(fields, (n - 1) as nat, (n - 1) as nat);
        }
    }
}

/// A fault among the first types is the fault of them all.
pub proof fn lemma_type_of_all(types: Seq<DeclTypeView>, k: nat, n: nat)
    requires
        k <= n <= types.len(),
    ensures
        type_of_all(types, k) is Err ==> type_of_all(types, n) == type_of_all(types, k),
        type_of_all(types, n) matches Ok(lowered) ==> lowered.len() == n,
    decreases n,
{
    if n > 0 {
        if k < n {
            lemma_type_of_all(types, k, (n - 1) as nat);
        } else {
            lemma_type_of_all(types, (n - 1) as nat, (n - 1) as nat);
        }
    }
}

impl DeclTypeView {
    /// Every basic type within the declared type has unique member names.
    pub open spec fn basics_unique(self) -> bool
        decreases self,
    {
        match self {
            DeclTypeView::Basic(t) => t.unique_members(),
            DeclTypeView::Struct(fields) => forall|i: int|
                0 <= i < fields.len() ==> (#[trigger] fields[i]).ty.basics_unique(),
            _ => true,
        }
    }
}

/// Member names are unique in every type that is lowered: a struct with
/// two fields of one name, or an enumeration with two variants of one name,
/// never becomes a type.
pub proof fn lemma_lower_unique(name: Seq<char>, d: DeclTypeView)
    requires
        d.basics_unique(),
        lower(name, d) is Ok,
    ensures
        lower(name, d)->Ok_0.unique_members(),
    decreases d, 0nat,
{
    match d {
        DeclTypeView::Struct(fields) => {
            lemma_lower_fields_unique(fields, fields.len());
            let lowered = lower_fields(fields, fields.len())->Ok_0;
            assert(pair_names(lowered) =~= udt_names(fields));
        },
        _ => {},
    }
}

/// The first `n` fields keep their names when they are lowered, and their
/// types have unique member names.
proof fn lemma_lower_fields_unique(fields: Seq<UDTDeclView>, n: nat)
    requires
        n <= fields.len(),
        forall|i: int| 0 <= i < fields.len() ==> (#[trigger] fields[i]).ty.basics_unique(),
        lower_fields(fields, n) is Ok,
    ensures
        lower_fields(fields, n)->Ok_0.len() == n,
        forall|i: int|
            0 <= i < n ==> {
                let f = #[trigger] lower_fields(fields, n)->Ok_0[i];
                f.0 == fields[i].name && f.1.unique_members()
            },
    decreases fields, n,
{
    if n > 0 {
        lemma_lower_fields_unique(fields, (n - 1) as nat);
        assert(fields[n - 1].ty.basics_unique());
        lemma_lower_unique(anonymous_name(fields[n - 1].ty), fields[n - 1].ty);
    }
}

/// Gives the type from the declaration, under the given name.
fn lower_decl(name: &str, decl: &DeclType) -> (r: Result<Type, Error>)
    ensures
        match r {
            Ok(t) => lower(name@, decl@) == Ok::<TypeView, Error>(t@),
            Err(e) => lower(name@, decl@) == Err::<TypeView, Error>(e),
        },
    decreases decl,
{
    match decl {
        DeclType::Basic(ty) => Ok(ty.clone()),
        DeclType::Struct(udt) => {
            let ghost views = udts_view(udt@);
            let n = udt.len();
            let mut names: Vec<String> = Vec::new();
            let mut k: usize = 0;
            while k < n
                invariant
                    n == udt.len(),
                    k <= n,
                    names.len() == k,
                    forall|j: int| 0 <= j < k ==> names@[j]@ == udt@[j].name@,
                decreases n - k,
            {
                names.push(udt[k].name.clone());
                k += 1;
            }
            assert(names_view(names@) =~= udt_names(views));
            if has_duplicate(&names) {
                return Err(Error::DuplicateMember);
            }
            let mut flds: Vec<(String, Type)> = Vec::new();
            let mut i: usize = 0;
            assert(fields_view(flds@) =~= Seq::empty());
            while i < n
                invariant
                    decl is Struct,
                    decl->Struct_0 == *udt,
                    views == udts_view(udt@),
                    distinct(udt_names(views)),
                    n == udt.len(),
                    i <= n,
                    flds.len() == i,
                    lower_fields(views, i as nat) == Ok::<Seq<(Seq<char>, TypeView)>, Error>(
                        fields_view(flds@),
                    ),
                decreases n - i,
            {
                let f = &udt[i];
                assert(views[i as int] == f.model());
                let anonymous = match f.ty {
                    DeclType::Enum(_) => "_unnamed_enum_",
                    _ => "_unnamed_struct_",
                };
                match lower_decl(anonymous, &f.ty) {
                    Ok(subtype) => {
                        proof {
                            let added = (f.name@, subtype@);
                            assert(fields_view(flds@.push((f.name, subtype))) =~= fields_view(
                                flds@,
                            ).push(added));
                        }
                        flds.push((f.name.clone(), subtype));
                    },
                    Err(e) => {
                        proof {
                            assert(lower_fields(views, (i + 1) as nat) == Err::<
                                Seq<(Seq<char>, TypeView)>,
                                Error,
                            >(e));
                            lemma_lower_fields(views, (i + 1) as nat, n as nat);
                        }
                        return Err(e);
                    },
                }
                i += 1;
            }
            Ok(Type::Struct(String::from_str(name), flds))
        },
        DeclType::Enum(en) => {
            if en.len() == 0 {
                return Err(Error::NoVariants);
            }
            let mut names: Vec<String> = Vec::new();
            let mut k: usize = 0;
            while k < en.len()
                invariant
                    k <= en.len(),
                    names.len() == k,
                    forall|j: int| 0 <= j < k ==> names@[j]@ == en@[j].0@,
                decreases en.len() - k,
            {
                names.push(en[k].0.clone());
                k += 1;
            }
            assert(names_view(names@) =~= pair_names(enum_values_view(en@)));
            if has_duplicate(&names) {
                return Err(Error::DuplicateMember);
            }
            Ok(Type::Enum(String::from_str(name), clone_enum_values(en)))
        },
        DeclType::StructRef(_) => Err(Error::Unimplemented),
        DeclType::EnumRef(_) => Err(Error::Unimplemented),
    }
}

/// Gives the type from the declaration.  An aggregate that is declared
/// here, without a name, is given a placeholder for one.
pub fn type_from_decl(decl: &DeclType) -> (r: Result<Type, Error>)
    ensures
        match r {
            Ok(t) => type_of(decl@) == Ok::<TypeView, Error>(t@),
            Err(e) => type_of(decl@) == Err::<TypeView, Error>(e),
        },
{
    let anonymous = match decl {
        DeclType::Enum(_) => "_unnamed_enum_",
        _ => "_unnamed_struct_",
    };
    lower_decl(anonymous, decl)
}

/// What one declaration resolves to, or the fault found in it.
///
/// A free variable resolves to its type, which must have a generator.  A
/// function resolves to its name, its return type and the types of its
/// parameters.  A user-defined type resolves to the struct or enumeration
/// of its own name.
pub open spec fn resolve(d: DeclarationView) -> Result<DeclView, Error> {
    match d {
        DeclarationView::Free(f) => match type_of(f.ty) {
            Err(e) => Err(e),
            Ok(t) => match dispatch(t) {
                Err(e) => Err(e),
                Ok(_) => Ok(DeclView::Ty(t)),
            },
        },
        DeclarationView::Function(f) => match type_of(f.retval) {
            Err(e) => Err(e),
            Ok(ret) => match type_of_all(f.arguments, f.arguments.len()) {
                Err(e) => Err(e),
                Ok(parameters) => Ok(
                    DeclView::Fqn(
                        FunctionView {
                            retval: ret,
                            arguments: Seq::empty(),
                            parameters: parameters,
                            name: f.name,
                        },
                    ),
                ),
            },
        },
        DeclarationView::UDT(u) => match lower(u.name, u.ty) {
            Err(e) => Err(e),
            Ok(t) => Ok(DeclView::Ty(t)),
        },
    }
}

/// The source that a declaration gives rise to: a free variable is the
/// root of a source, with the generator of its type in its first state.
pub open spec fn source_of(d: DeclarationView) -> Option<SourceView> {
    match d {
        DeclarationView::Free(f) => if resolve(d) is Ok {
            Some(
                SourceView {
                    name: f.name,
                    generator: dispatch(type_of(f.ty)->Ok_0)->Ok_0,
                    op: f.op,
                    parent: None,
                    fqn: Seq::empty(),
                },
            )
        } else {
            None
        },
        _ => None,
    }
}

/// The sources of the first `n` declarations, in order.
pub open spec fn sources_of(decls: Seq<DeclarationView>, n: nat) -> Seq<SourceView>
    decreases n,
{
    if n == 0 || n > decls.len() {
        Seq::empty()
    } else {
        match source_of(decls[n - 1]) {
            Some(s) => sources_of(decls, (n - 1) as nat).push(s),
            None => sources_of(decls, (n - 1) as nat),
        }
    }
}

/// Resolves one declaration, and makes the source of a free variable.
pub fn resolve_declaration(decl: &Declaration) -> (r: Result<(Decl, Option<Source>), Error>)
    ensures
        match r {
            Ok((d, s)) => {
                &&& resolve(decl@) == Ok::<DeclView, Error>(d@)
                &&& match s {
                    Some(src) => source_of(decl@) == Some(src@),
                    None => source_of(decl@) is None,
                }
            },
            Err(e) => resolve(decl@) == Err::<DeclView, Error>(e),
        },
{
    match decl {
        Declaration::Free(fvar) => {
            let ty = match type_from_decl(&fvar.ty) {
                Ok(ty) => ty,
                Err(e) => {
                    return Err(e);
                },
            };
            let gen = match generator(&ty) {
                Ok(gen) => gen,
                Err(e) => {
                    return Err(e);
                },
            };
            let src = Source::free_gen(fvar.name.as_str(), gen, fvar.op);
            Ok((Decl::Ty(ty), Some(src)))
        },
        Declaration::Function(fqn) => {
            let ret = match type_from_decl(&fqn.retval) {
                Ok(ty) => ty,
                Err(e) => {
                    return Err(e);
                },
            };
            let ghost views = decl_types_view(fqn.arguments@);
            let n = fqn.arguments.len();
            let mut parameters: Vec<Type> = Vec::new();
            let mut i: usize = 0;
            assert(types_view(parameters@) =~= Seq::empty());
            while i < n
                invariant
                    views == decl_types_view(fqn.arguments@),
                    type_of(fqn.retval@) == Ok::<TypeView, Error>(ret@),
                    decl is Function,
                    decl->Function_0 == *fqn,
                    n == fqn.arguments.len(),
                    i <= n,
                    parameters.len() == i,
                    type_of_all(views, i as nat) == Ok::<Seq<TypeView>, Error>(
                        types_view(parameters@),
                    ),
                decreases n - i,
            {
                assert(views[i as int] == fqn.arguments@[i as int]@);
                match type_from_decl(&fqn.arguments[i]) {
                    Ok(ty) => {
                        proof {
                            assert(types_view(parameters@.push(ty)) =~= types_view(
                                parameters@,
                            ).push(ty@));
                        }
                        parameters.push(ty);
                    },
                    Err(e) => {
                        proof {
                            assert(type_of_all(views, (i + 1) as nat) == Err::<Seq<TypeView>, Error>(
                                e,
                            ));
                            lemma_type_of_all(views, (i + 1) as nat, n as nat);
                        }
                        return Err(e);
                    },
                }
                i += 1;
            }
            Ok((Decl::Fqn(Function::param(fqn.name.as_str(), &ret, &parameters)), None))
        },
        Declaration::UDT(udecl) => match lower_decl(udecl.name.as_str(), &udecl.ty) {
            Ok(ty) => Ok((Decl::Ty(ty), None)),
            Err(e) => Err(e),
        },
    }
}

/// Replaces the declarations of a description with their counterparts in
/// the type model, and makes a source for each free variable.
///
/// A description without declarations is rejected.  Otherwise the
/// declarations are resolved in order, and the first fault is returned with
/// the index of the declaration that has it: a description is resolved as a
/// whole or not at all.
pub fn resolve_types(decls: &Vec<Declaration>) -> (r: Result<(Vec<Decl>, Vec<Source>), (usize, Error)>)
    ensures
        match r {
            Ok((resolved, sources)) => {
                &&& decls.len() > 0
                &&& resolved.len() == decls.len()
                &&& forall|i: int|
                    0 <= i < decls.len() ==> resolve(#[trigger] decls@[i]@) == Ok::<DeclView, Error>(
                        resolved@[i]@,
                    )
                &&& sources_view(sources@) == sources_of(
                    declarations_view(decls@),
                    decls.len() as nat,
                )
            },
            Err((at, e)) => if decls.len() == 0 {
                at == 0 && e == Error::EmptyDescription
            } else {
                &&& at < decls.len()
                &&& resolve(decls@[at as int]@) == Err::<DeclView, Error>(e)
                &&& forall|i: int| 0 <= i < at ==> resolve(#[trigger] decls@[i]@) is Ok
            },
        },
{
    if decls.len() == 0 {
        return Err((0, Error::EmptyDescription));
    }
    let ghost views = declarations_view(decls@);
    let mut drv: Vec<Decl> = Vec::new();
    let mut sources: Vec<Source> = Vec::new();
    let n = decls.len();
    let mut i: usize = 0;
    assert(sources_view(sources@) =~= Seq::empty());
    while i < n
        invariant
            views == declarations_view(decls@),
            n == decls.len(),
            i <= n,
            drv.len() == i,
            forall|k: int|
                0 <= k < i ==> resolve(#[trigger] decls@[k]@) == Ok::<DeclView, Error>(drv@[k]@),
            sources_view(sources@) == sources_of(views, i as nat),
        decreases n - i,
    {
        assert(views[i as int] == decls@[i as int]@);
        match resolve_declaration(&decls[i]) {
            Ok((decl, source)) => {
                drv.push(decl);
                match source {
                    Some(src) => {
                        proof {
                            assert(sources_view(sources@.push(src)) =~= sources_view(
                                sources@,
                            ).push(src@));
                        }
                        sources.push(src);
                    },
                    None => {},
                }
            },
            Err(e) => {
                return Err((i, e));
            },
        }
        i += 1;
    }
    Ok((drv, sources))
}

} // verus!
