//! The type model: the closed set of type shapes an API description can name.
use vstd::prelude::*;
use vstd::string::StringExecFns;
use crate::function::{Function, FunctionView};

verus! {

/// A native scalar kind.
#[derive(Clone, Copy, Debug, PartialEq, Eq, Structural)]
pub enum Native {
    /// The platform's plain signed integer.
    Integer,
    /// A signed integer of exactly 32 bits.
    I32,
    /// The unsigned integer that holds a size.
    Usize,
    /// A single character.
    Character,
    /// The absence of a value.
    Void,
}

impl Native {
    /// The kind's name in emitted text.
    pub open spec fn name_spec(self) -> Seq<char> {
        match self {
            Native::Integer => "int"@,
            Native::I32 => "int32_t"@,
            Native::Usize => "size_t"@,
            Native::Character => "char"@,
            Native::Void => "void"@,
        }
    }

    /// The kind's name in emitted text.
    pub fn name(&self) -> (text: &'static str)
        ensures
            text@ == self.name_spec(),
    {
        match self {
            Native::Integer => "int",
            Native::I32 => "int32_t",
            Native::Usize => "size_t",
            Native::Character => "char",
            Native::Void => "void",
        }
    }
}

/// One variant of an enumeration: its name and its integer value.
pub type EnumValue = (String, i64);

/// A type of the described API.
///
/// `Field` wraps a member of a composite with its name; `UDT` is a
/// user-defined aggregate given as the list of its members.
#[derive(Debug, PartialEq, Eq)]
pub enum Type {
    Builtin(Native),
    Pointer(Box<Type>),
    Struct(String, Vec<(String, Type)>),
    Enum(String, Vec<EnumValue>),
    Field(String, Box<Type>),
    UDT(String, Vec<Type>),
}

/// The mathematical value of a [`Type`]: names are sequences of characters,
/// member lists are sequences.
pub enum TypeView {
    Builtin(Native),
    Pointer(Box<TypeView>),
    Struct(Seq<char>, Seq<(Seq<char>, TypeView)>),
    Enum(Seq<char>, Seq<(Seq<char>, int)>),
    Field(Seq<char>, Box<TypeView>),
    UDT(Seq<char>, Seq<TypeView>),
}

/// The names of a list of (name, value) pairs, in order.
pub open spec fn pair_names<T>(pairs: Seq<(Seq<char>, T)>) -> Seq<Seq<char>> {
    Seq::new(pairs.len(), |i: int| pairs[i].0)
}

/// No name occurs twice.
pub open spec fn distinct(names: Seq<Seq<char>>) -> bool {
    forall|i: int, j: int| 0 <= i < j < names.len() ==> names[i] != names[j]
}

impl TypeView {
    /// The canonical textual identifier of a type.
    pub open spec fn name(self) -> Seq<char>
        decreases self,
    {
        match self {
            TypeView::Builtin(n) => n.name_spec(),
            TypeView::Pointer(t) => t.name() + "*"@,
            TypeView::Struct(n, _) => "struct "@ + n,
            TypeView::Enum(n, _) => "enum "@ + n,
            TypeView::Field(n, _) => n,
            TypeView::UDT(n, _) => "struct "@ + n,
        }
    }

    /// No struct of the type has two fields of one name, and no enumeration
    /// two variants of one name, at any depth.
    pub open spec fn unique_members(self) -> bool
        decreases self,
    {
        match self {
            TypeView::Builtin(_) => true,
            TypeView::Pointer(t) => t.unique_members(),
            TypeView::Struct(_, fields) => distinct(pair_names(fields)) && forall|i: int|
                0 <= i < fields.len() ==> (#[trigger] fields[i]).1.unique_members(),
            TypeView::Enum(_, variants) => distinct(pair_names(variants)),
            TypeView::Field(_, t) => t.unique_members(),
            TypeView::UDT(_, members) => forall|i: int|
                0 <= i < members.len() ==> (#[trigger] members[i]).unique_members(),
        }
    }

    /// The type is pointer-to-character, which stands for a C string.
    pub open spec fn is_c_string(self) -> bool {
        self == TypeView::Pointer(Box::new(TypeView::Builtin(Native::Character)))
    }
}

/// The views of a list of enumeration variants.
pub open spec fn enum_values_view(values: Seq<EnumValue>) -> Seq<(Seq<char>, int)> {
    Seq::new(values.len(), |i: int| (values[i].0@, values[i].1 as int))
}

/// The mathematical values of a list of types.
pub open spec fn types_view(members: Seq<Type>) -> Seq<TypeView>
    decreases members,
{
    Seq::new(
        members.len(),
        |i: int|
            if 0 <= i < members.len() {
                members[i].model()
            } else {
                TypeView::Builtin(Native::Void)
            },
    )
}

/// The mathematical values of a list of named fields.
pub open spec fn fields_view(fields: Seq<(String, Type)>) -> Seq<(Seq<char>, TypeView)>
    decreases fields,
{
    Seq::new(
        fields.len(),
        |i: int|
            if 0 <= i < fields.len() {
                (fields[i].0@, fields[i].1.model())
            } else {
                (Seq::empty(), TypeView::Builtin(Native::Void))
            },
    )
}

impl Type {
    /// The mathematical value of this type.
    pub open spec fn model(&self) -> TypeView
        decreases self,
    {
        match self {
            Type::Builtin(n) => TypeView::Builtin(*n),
            Type::Pointer(t) => TypeView::Pointer(Box::new(t.model())),
            Type::Struct(n, fields) => TypeView::Struct(n@, fields_view(fields@)),
            Type::Enum(n, values) => TypeView::Enum(n@, enum_values_view(values@)),
            Type::Field(n, t) => TypeView::Field(n@, Box::new(t.model())),
            Type::UDT(n, members) => TypeView::UDT(n@, types_view(members@)),
        }
    }

    /// The canonical textual identifier of the type: a native kind's own
    /// name, `*` after the pointee's name for a pointer, `struct` or `enum`
    /// before the name of an aggregate or an enumeration, and a field's own
    /// name.
    pub fn name(&self) -> (text: String)
        ensures
            text@ == self@.name(),
        decreases self,
    {
        match self {
            Type::Builtin(n) => String::from_str(n.name()),
            Type::Pointer(t) => {
                let mut s = t.name();
                s.append("*");
                s
            },
            Type::Struct(n, _) => {
                let mut s = String::from_str("struct ");
                s.append(n.as_str());
                s
            },
            Type::Enum(n, _) => {
                let mut s = String::from_str("enum ");
                s.append(n.as_str());
                s
            },
            Type::Field(n, _) => n.clone(),
            Type::UDT(n, _) => {
                let mut s = String::from_str("struct ");
                s.append(n.as_str());
                s
            },
        }
    }

    /// Whether the type is pointer-to-character.
    pub fn is_c_string(&self) -> (r: bool)
        ensures
            r == self@.is_c_string(),
    {
        proof {
            reveal_with_fuel(Type::model, 2);
        }
        match self {
            Type::Pointer(t) => match **t {
                Type::Builtin(Native::Character) => true,
                _ => false,
            },
            _ => false,
        }
    }
}

impl View for Type {
    type V = TypeView;

    open spec fn view(&self) -> TypeView {
        self.model()
    }
}

/// A deep copy of a list of enumeration variants.
pub fn clone_enum_values(values: &Vec<EnumValue>) -> (copy: Vec<EnumValue>)
    ensures
        enum_values_view(copy@) == enum_values_view(values@),
{
    let mut copy: Vec<EnumValue> = Vec::new();
    let mut i: usize = 0;
    while i < values.len()
        invariant
            i <= values.len(),
            copy.len() == i,
            forall|k: int| 0 <= k < i ==> copy@[k].0@ == values@[k].0@ && copy@[k].1 == values@[k].1,
        decreases values.len() - i,
    {
        copy.push((values[i].0.clone(), values[i].1));
        i += 1;
    }
    assert(enum_values_view(copy@) =~= enum_values_view(values@));
    copy
}

impl Clone for Type {
    /// A deep copy: the copy has the same mathematical value.
    fn clone(&self) -> (copy: Type)
        ensures
            copy@ == self@,
        decreases self,
    {
        match self {
            Type::Builtin(n) => Type::Builtin(*n),
            Type::Pointer(t) => Type::Pointer(Box::new((**t).clone())),
            Type::Struct(n, fields) => {
                let mut copy: Vec<(String, Type)> = Vec::new();
                let mut i: usize = 0;
                while i < fields.len()
                    invariant
                        self is Struct,
                        self->Struct_1 == *fields,
                        i <= fields.len(),
                        copy.len() == i,
                        forall|k: int|
                            0 <= k < i ==> copy@[k].0@ == fields@[k].0@ && copy@[k].1@
                                == fields@[k].1@,
                    decreases fields.len() - i,
                {
                    copy.push((fields[i].0.clone(), fields[i].1.clone()));
                    i += 1;
                }
                let out = Type::Struct(n.clone(), copy);
                assert(fields_view(copy@) =~= fields_view(fields@));
                out
            },
            Type::Enum(n, values) => Type::Enum(n.clone(), clone_enum_values(values)),
            Type::Field(n, t) => Type::Field(n.clone(), Box::new((**t).clone())),
            Type::UDT(n, members) => {
                let mut copy: Vec<Type> = Vec::new();
                let mut i: usize = 0;
                while i < members.len()
                    invariant
                        self is UDT,
                        self->UDT_1 == *members,
                        i <= members.len(),
                        copy.len() == i,
                        forall|k: int| 0 <= k < i ==> copy@[k]@ == members@[k]@,
                    decreases members.len() - i,
                {
                    copy.push(members[i].clone());
                    i += 1;
                }
                let out = Type::UDT(n.clone(), copy);
                assert(types_view(copy@) =~= types_view(members@));
                out
            },
        }
    }
}

/// A deep copy of a list of types.
pub fn clone_types(types: &Vec<Type>) -> (copy: Vec<Type>)
    ensures
        types_view(copy@) == types_view(types@),
{
    let mut copy: Vec<Type> = Vec::new();
    let mut i: usize = 0;
    while i < types.len()
        invariant
            i <= types.len(),
            copy.len() == i,
            forall|k: int| 0 <= k < i ==> copy@[k]@ == types@[k]@,
        decreases types.len() - i,
    {
        copy.push(types[i].clone());
        i += 1;
    }
    assert(types_view(copy@) =~= types_view(types@));
    copy
}

/// What a declaration of a description resolves to.
#[derive(Debug)]
pub enum Decl {
    /// A type: that of a free variable, or a user-defined type.
    Ty(Type),
    /// A function, with its name, return type and parameter types.
    Fqn(Function),
}

/// The mathematical value of a [`Decl`].
pub enum DeclView {
    Ty(TypeView),
    Fqn(FunctionView),
}

impl View for Decl {
    type V = DeclView;

    open spec fn view(&self) -> DeclView {
        match self {
            Decl::Ty(t) => DeclView::Ty(t@),
            Decl::Fqn(f) => DeclView::Fqn(f@),
        }
    }
}

/// The views of a list of names.
pub open spec fn names_view(names: Seq<String>) -> Seq<Seq<char>> {
    Seq::new(names.len(), |i: int| names[i]@)
}

/// Whether some name occurs twice in the list.
pub fn has_duplicate(names: &Vec<String>) -> (r: bool)
    ensures
        r == !distinct(names_view(names@)),
{
    let ghost views = names_view(names@);
    let n = names.len();
    let mut j: usize = 0;
    while j < n
        invariant
            views == names_view(names@),
            n == names.len(),
            j <= n,
            forall|a: int, b: int| 0 <= a < b < j ==> views[a] != views[b],
        decreases n - j,
    {
        let mut i: usize = 0;
        while i < j
            invariant
                views == names_view(names@),
                n == names.len(),
                j < n,
                i <= j,
                forall|a: int| 0 <= a < i ==> views[a] != views[j as int],
            decreases j - i,
        {
            if names[i] == names[j] {
                assert(views[i as int] == views[j as int]);
                return true;
            }
            i += 1;
        }
        j += 1;
    }
    false
}

} // verus!
