//! The catalog of equivalence classes.
//!
//! Every primitive kind of type has a fixed, ordered list of classes, each
//! with a representative literal.  Class 0 is the kind's canonical value:
//! zero, null, or the first declared variant.  The order never changes, so a
//! class index names the same class on every run.
use vstd::prelude::*;
use crate::decimal::{integer_text, natural_text};
use crate::error::Error;
use crate::model::{GenState, lemma_walk};
use crate::typ::{Native, Type, TypeView, pair_names};
use crate::variable::{Generator, dispatch, generator};

verus! {

/// The values that stand for a bounded signed integer: zero, one, the
/// least and the greatest representable value, a small positive and a small
/// negative value.
pub open spec fn integer_classes() -> Seq<int> {
    seq![0, 1, -2147483648, 2147483647, 42, -42]
}

/// The values that stand for an unsigned size: zero, one, the greatest
/// representable value and a small positive value.
pub open spec fn size_classes() -> Seq<int> {
    seq![0, 1, 18446744073709551615, 42]
}

/// The addresses that stand for a pointer: null, the lowest address after
/// it, a sentinel pattern and the highest address.
pub open spec fn pointer_classes() -> Seq<int> {
    seq![0, 1, 3735928559, 18446744073709551615]
}

/// The number of classes of a C string.
pub open spec fn c_string_classes() -> nat {
    8
}

/// A character that may stand in a string literal as it is: printable, and
/// none of the double quote, the question mark and the backslash.
pub open spec fn is_normal(c: char) -> bool {
    32 <= (c as int) < 126 && c != '"' && c != '?' && c != '\\'
}

/// A control character that does not disturb the layout of the emitted
/// text: below 31, and none of the codes 7 to 13.
pub open spec fn is_control(c: char) -> bool {
    0 <= (c as int) < 31 && !(7 <= (c as int) <= 13)
}

/// How many normal characters there are.
pub open spec fn normal_count() -> nat {
    91
}

/// How many permitted control characters there are.
pub open spec fn control_count() -> nat {
    24
}

/// How many of the three excluded printable characters lie below `code`.
pub open spec fn excluded_printable_below(code: int) -> int {
    (if code > 34 { 1int } else { 0int }) + (if code > 63 { 1int } else { 0int }) + (if code > 92 {
        1int
    } else {
        0int
    })
}

/// The text between the quotes of a C string literal of class `idx`, for
/// the classes that are quoted.
pub open spec fn c_string_body(idx: nat, body: Seq<char>) -> bool {
    if idx == 1 {
        body.len() == 0
    } else if idx == 2 {
        body.len() == 1 && is_normal(body[0])
    } else if idx == 3 {
        body.len() == 1 && is_control(body[0])
    } else if idx == 4 {
        3 <= body.len() < 128 && forall|i: int| 0 <= i < body.len() ==> is_normal(#[trigger] body[i])
    } else if idx == 5 {
        3 <= body.len() < 128 && forall|i: int|
            0 <= i < body.len() ==> is_control(#[trigger] body[i])
    } else if idx == 6 {
        3 <= body.len() < 128 && forall|i: int|
            0 <= i < body.len() ==> is_normal(#[trigger] body[i]) || is_control(body[i])
    } else if idx == 7 {
        512 <= body.len() < 32768 && forall|i: int|
            0 <= i < body.len() ==> is_normal(#[trigger] body[i])
    } else {
        false
    }
}

/// A primitive kind of type: one entry of the catalog.
pub enum Kind {
    /// An enumeration, with the names of its variants in declaration order.
    Enumerated(Seq<Seq<char>>),
    /// A bounded signed integer.
    Integer,
    /// An unsigned size.
    Size,
    /// A pointer to anything but a character, with the pointer type's name.
    Pointer(Seq<char>),
    /// A pointer to a character: a C string.
    CString,
}

impl Kind {
    /// The number of classes of the kind.
    pub open spec fn count(self) -> nat {
        match self {
            Kind::Enumerated(names) => names.len(),
            Kind::Integer => integer_classes().len(),
            Kind::Size => size_classes().len(),
            Kind::Pointer(_) => pointer_classes().len(),
            Kind::CString => c_string_classes(),
        }
    }

    /// Class `idx` has one literal, the same at every reading.  The classes
    /// of a C string from the third on are drawn at random each time.
    pub open spec fn is_fixed(self, idx: nat) -> bool {
        self is CString ==> idx < 2
    }

    /// The literal of a fixed class.
    pub open spec fn text(self, idx: nat) -> Seq<char> {
        match self {
            Kind::Enumerated(names) => names[idx as int],
            Kind::Integer => integer_text(integer_classes()[idx as int]),
            Kind::Size => natural_text(size_classes()[idx as int] as nat) + "ull"@,
            Kind::Pointer(ty) => "("@ + ty + ")"@ + natural_text(
                pointer_classes()[idx as int] as nat,
            ) + "ull"@,
            Kind::CString => if idx == 0 {
                "NULL"@
            } else {
                "\"\""@
            },
        }
    }

    /// `text` is a literal of class `idx`.
    pub open spec fn admits(self, idx: nat, text: Seq<char>) -> bool {
        if self.is_fixed(idx) {
            text == self.text(idx)
        } else {
            exists|body: Seq<char>|
                c_string_body(idx, body) && text == "\""@ + #[trigger] body.push('"')
        }
    }

    /// The canonical literal of the kind: zero, the null pointer, or the
    /// first variant.
    pub open spec fn canonical(self) -> Seq<char> {
        match self {
            Kind::Enumerated(names) => names[0],
            Kind::Integer => "0"@,
            Kind::Size => "0ull"@,
            Kind::Pointer(ty) => "("@ + ty + ")0ull"@,
            Kind::CString => "NULL"@,
        }
    }

    /// The short name of the kind.
    pub open spec fn label(self) -> Seq<char> {
        match self {
            Kind::Enumerated(_) => "enum"@,
            Kind::Integer => "i32"@,
            Kind::Size => "usize"@,
            Kind::Pointer(_) => "ptr"@,
            Kind::CString => "cstr"@,
        }
    }

    /// The kind has at least one class.
    pub open spec fn wf(self) -> bool {
        self matches Kind::Enumerated(names) ==> names.len() > 0
    }
}

/// The catalog entry of a type, or the reason why it has none.
///
/// An enumeration must have a variant.  The plain and the 32-bit integer
/// share the integer classes.  A pointer to a character is a C string.  A
/// named field has the entry of the type it wraps.  Characters, void and
/// aggregates have no classes of their own.
pub open spec fn kind_of(t: TypeView) -> Result<Kind, Error>
    decreases t,
{
    match t {
        TypeView::Enum(_, variants) => if variants.len() == 0 {
            Err(Error::NoVariants)
        } else {
            Ok(Kind::Enumerated(pair_names(variants)))
        },
        TypeView::Builtin(native) => match native {
            Native::Integer => Ok(Kind::Integer),
            Native::I32 => Ok(Kind::Integer),
            Native::Usize => Ok(Kind::Size),
            Native::Character => Err(Error::NoPolicy),
            Native::Void => Err(Error::NoPolicy),
        },
        TypeView::Pointer(_) => if t.is_c_string() {
            Ok(Kind::CString)
        } else {
            Ok(Kind::Pointer(t.name()))
        },
        TypeView::Field(_, inner) => kind_of(*inner),
        TypeView::UDT(_, _) => Err(Error::NoPolicy),
        TypeView::Struct(_, _) => Err(Error::NoPolicy),
    }
}

/// The catalog entry of a type is a valid kind, and the type's generator
/// starts at its class 0.
pub proof fn lemma_kind_of(t: TypeView)
    requires
        kind_of(t) is Ok,
    ensures
        kind_of(t)->Ok_0.wf(),
        dispatch(t) == Ok::<GenState, Error>(GenState::Class(kind_of(t)->Ok_0, 0)),
    decreases t,
{
    match t {
        TypeView::Field(_, inner) => {
            lemma_kind_of(*inner);
        },
        _ => {},
    }
}

/// The number of equivalence classes of a primitive type, or the reason
/// why the type has none.
pub fn class_count(t: &Type) -> (r: Result<usize, Error>)
    ensures
        match r {
            Ok(n) => kind_of(t@) is Ok && n == kind_of(t@)->Ok_0.count() && n >= 1,
            Err(e) => kind_of(t@) == Err::<Kind, Error>(e),
        },
    decreases t,
{
    match t {
        Type::Enum(_, values) => {
            if values.len() == 0 {
                Err(Error::NoVariants)
            } else {
                Ok(values.len())
            }
        },
        Type::Builtin(native) => match native {
            Native::Integer => Ok(TC_I32::new().n()),
            Native::I32 => Ok(TC_I32::new().n()),
            Native::Usize => Ok(TC_Usize::new().n()),
            Native::Character => Err(Error::NoPolicy),
            Native::Void => Err(Error::NoPolicy),
        },
        Type::Pointer(_) => {
            if t.is_c_string() {
                Ok(8)
            } else {
                Ok(TC_Pointer::new().n())
            }
        },
        Type::Field(_, inner) => class_count(inner),
        Type::UDT(_, _) => Err(Error::NoPolicy),
        Type::Struct(_, _) => Err(Error::NoPolicy),
    }
}

/// A literal of class `idx` of a primitive type, or the reason why the
/// type has no classes.  Class 0 gives the canonical literal.
pub fn class_value(t: &Type, idx: usize) -> (r: Result<String, Error>)
    requires
        kind_of(t@) matches Ok(kind) ==> idx < kind.count(),
    ensures
        match r {
            Ok(text) => kind_of(t@) is Ok && kind_of(t@)->Ok_0.admits(idx as nat, text@) && (idx
                == 0 ==> text@ == kind_of(t@)->Ok_0.canonical()),
            Err(e) => kind_of(t@) == Err::<Kind, Error>(e),
        },
{
    match class_count(t) {
        Err(e) => {
            return Err(e);
        },
        Ok(_) => {},
    }
    proof {
        lemma_kind_of(t@);
        lemma_class_zero(kind_of(t@)->Ok_0);
    }
    let mut g = match generator(t) {
        Ok(g) => g,
        Err(e) => {
            return Err(e);
        },
    };
    let ghost first = g.model();
    let mut i: usize = 0;
    while i < idx
        invariant
            first == GenState::Class(kind_of(t@)->Ok_0, 0),
            first.wf(),
            idx < first.count(),
            i <= idx,
            g.model() == first.walk(i as nat),
            g.model().wf(),
        decreases idx - i,
    {
        g.next();
        i += 1;
        proof {
            lemma_walk(first, i as nat);
        }
    }
    proof {
        lemma_walk(first, idx as nat);
        crate::model::lemma_rank_determines_state(
            g.model(),
            GenState::Class(kind_of(t@)->Ok_0, idx as nat),
        );
    }
    Ok(g.value())
}

/// Every kind has a class, and class 0 is fixed and is the kind's canonical
/// literal.
pub proof fn lemma_class_zero(kind: Kind)
    requires
        kind.wf(),
    ensures
        kind.count() >= 1,
        kind.is_fixed(0),
        kind.text(0) == kind.canonical(),
        kind.admits(0, kind.canonical()),
{
    reveal_strlit("0");
    reveal_strlit("0ull");
    reveal_strlit("ull");
    reveal_strlit(")");
    reveal_strlit(")0ull");
    match kind {
        Kind::Size => {
            assert(kind.text(0) =~= kind.canonical());
        },
        Kind::Pointer(ty) => {
            assert(kind.text(0) =~= kind.canonical());
        },
        _ => {},
    }
}

/// The classes of an enumeration: its variants, in declaration order.
#[allow(non_camel_case_types)]
#[derive(Debug)]
pub struct TC_Enum {
    names: Vec<String>,
}

impl TC_Enum {
    /// The names of the variants.
    pub closed spec fn names(&self) -> Seq<Seq<char>> {
        Seq::new(self.names.len() as nat, |i: int| self.names[i]@)
    }

    /// The catalog entry of this enumeration.
    pub open spec fn kind(&self) -> Kind {
        Kind::Enumerated(self.names())
    }

    /// The classes of the enumeration type `t`.
    pub fn new(t: &Type) -> (cls: TC_Enum)
        requires
            t@ is Enum,
        ensures
            cls.names() == crate::typ::pair_names(t@->Enum_1),
    {
        let mut names: Vec<String> = Vec::new();
        match t {
            Type::Enum(_, values) => {
                let mut i: usize = 0;
                while i < values.len()
                    invariant
                        i <= values.len(),
                        names.len() == i,
                        forall|k: int| 0 <= k < i ==> names@[k]@ == values@[k].0@,
                    decreases values.len() - i,
                {
                    names.push(values[i].0.clone());
                    i += 1;
                }
                let cls = TC_Enum { names };
                assert(cls.names() =~= crate::typ::pair_names(t@->Enum_1));
                cls
            },
            _ => TC_Enum { names },
        }
    }

    /// The number of classes.
    pub fn n(&self) -> (n: usize)
        ensures
            n == self.kind().count(),
    {
        self.names.len()
    }

    /// The name of variant `idx`.
    pub fn value(&self, idx: usize) -> (text: String)
        requires
            idx < self.kind().count(),
        ensures
            text@ == self.kind().text(idx as nat),
    {
        self.names[idx].clone()
    }
}

/// The classes of a bounded signed integer.
#[allow(non_camel_case_types)]
#[derive(Debug)]
pub struct TC_I32 {}

impl TC_I32 {
    pub fn new() -> (cls: TC_I32) {
        TC_I32 {  }
    }

    /// The number of classes.
    pub fn n(&self) -> (n: usize)
        ensures
            n == Kind::Integer.count(),
    {
        6
    }

    /// The value that stands for class `idx`.
    pub fn value(&self, idx: usize) -> (v: i32)
        requires
            idx < Kind::Integer.count(),
        ensures
            v == integer_classes()[idx as int],
    {
        if idx == 0 {
            0
        } else if idx == 1 {
            1
        } else if idx == 2 {
            i32::MIN
        } else if idx == 3 {
            i32::MAX
        } else if idx == 4 {
            42
        } else {
            -42
        }
    }
}

/// The classes of an unsigned size.
#[allow(non_camel_case_types)]
#[derive(Debug)]
pub struct TC_Usize {}

impl TC_Usize {
    pub fn new() -> (cls: TC_Usize) {
        TC_Usize {  }
    }

    /// The number of classes.
    pub fn n(&self) -> (n: usize)
        ensures
            n == Kind::Size.count(),
    {
        4
    }

    /// The value that stands for class `idx`.
    pub fn value(&self, idx: usize) -> (v: u64)
        requires
            idx < Kind::Size.count(),
        ensures
            v == size_classes()[idx as int],
    {
        if idx == 0 {
            0
        } else if idx == 1 {
            1
        } else if idx == 2 {
            u64::MAX
        } else {
            42
        }
    }
}

/// The classes of a pointer to anything but a character.
#[allow(non_camel_case_types)]
#[derive(Debug)]
pub struct TC_Pointer {}

impl TC_Pointer {
    pub fn new() -> (cls: TC_Pointer) {
        TC_Pointer {  }
    }

    /// The number of classes.
    pub fn n(&self) -> (n: usize)
        ensures
            n == (Kind::Pointer(Seq::empty())).count(),
    {
        4
    }

    /// The address that stands for class `idx`.
    pub fn value(&self, idx: usize) -> (v: u64)
        requires
            idx < (Kind::Pointer(Seq::empty())).count(),
        ensures
            v == pointer_classes()[idx as int],
    {
        if idx == 0 {
            0
        } else if idx == 1 {
            1
        } else if idx == 2 {
            0xdead_beef
        } else {
            u64::MAX
        }
    }
}

} // verus!
