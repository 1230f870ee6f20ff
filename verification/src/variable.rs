//! Variables of an API and the generators of their values.
//!
//! A [`Source`] says where a variable comes from, a [`ScalarOp`] how it is
//! transformed where it is used, and a [`Generator`] walks through the
//! equivalence classes of its type.
use vstd::prelude::*;
use vstd::string::StringExecFns;
use crate::decimal::{signed, unsigned};
use crate::error::Error;
use crate::model::{GenState, aggregate_text, class_summary, members_text, summaries};
use crate::random::{draw_control, draw_normal, push_char, sample};
use crate::tc::{
    Kind, TC_Enum, TC_I32, TC_Pointer, TC_Usize, c_string_body, is_control, is_normal, kind_of,
};
use crate::typ::{Native, Type, TypeView, fields_view, pair_names, types_view};

verus! {

/// How a variable's storage is transformed at a place of use.  A variable
/// on the stack, say, needs its address taken to be passed by pointer.
#[derive(Clone, Copy, Debug, PartialEq, Eq, Structural)]
pub enum ScalarOp {
    /// No transformation.
    Null,
    /// Dereference once.
    Deref,
    /// Take the address.
    AddressOf,
}

impl ScalarOp {
    /// The operator's text: nothing, `*` or `&`.
    pub open spec fn text(self) -> Seq<char> {
        match self {
            ScalarOp::Null => ""@,
            ScalarOp::Deref => "*"@,
            ScalarOp::AddressOf => "&"@,
        }
    }

    /// The operator's text: nothing, `*` or `&`.
    pub fn to_string(&self) -> (text: String)
        ensures
            text@ == self.text(),
    {
        match self {
            ScalarOp::Null => String::from_str(""),
            ScalarOp::Deref => String::from_str("*"),
            ScalarOp::AddressOf => String::from_str("&"),
        }
    }
}

/// A cursor over the equivalence classes of a type.
///
/// `model` is the generator's mathematical state; every operation does to
/// it what the function of the same purpose does to that state.
pub trait Generator {
    /// The mathematical state of the generator.
    spec fn model(&self) -> GenState;

    /// The current state as an expression.  Only a generator that has a
    /// value can be read.
    fn value(&self) -> (text: String)
        requires
            self.model().wf(),
            self.model().has_value(),
        ensures
            self.model().admits(text@),
    ;

    /// Moves to the next state.  Does nothing at the end state.
    fn next(&mut self)
        requires
            old(self).model().wf(),
        ensures
            final(self).model() == old(self).model().advance(),
            final(self).model().wf(),
    ;

    /// At the end state?
    fn done(&self) -> (r: bool)
        requires
            self.model().wf(),
        ensures
            r == self.model().at_end(),
    ;

    /// The number of states, where a machine word can hold it.
    fn n_state(&self) -> (n: usize)
        requires
            self.model().wf(),
            self.model().count() <= usize::MAX,
        ensures
            n == self.model().count(),
    ;

    /// The number of states, or `None` where no machine word can hold it.
    fn checked_n_state(&self) -> (n: Option<usize>)
        requires
            self.model().wf(),
        ensures
            match n {
                Some(n) => n == self.model().count(),
                None => self.model().count() > usize::MAX,
            },
    ;

    /// Sets the state back to the first.
    fn reset(&mut self)
        requires
            old(self).model().wf(),
        ensures
            final(self).model() == old(self).model().reset(),
            final(self).model().wf(),
    ;

    /// Where the generator stands, for a person to read.
    fn dbg(&self) -> (text: String)
        requires
            self.model().wf(),
        ensures
            text@ == self.model().summary(),
    ;
}

/// Where a primitive generator stands.
fn summarize(label: &str, idx: usize, count: usize) -> (text: String)
    ensures
        text@ == class_summary(label@, idx as nat, count as nat),
{
    let mut text = String::from_str(label);
    text.append("{");
    let at = unsigned(idx as u64);
    text.append(at.as_str());
    text.append(" of ");
    let of = unsigned(count as u64);
    text.append(of.as_str());
    text.append("}");
    text
}

/// The generator of a variable that takes no generated value: one that is
/// bound to another, or that a function returns.  Every source holds a
/// generator, and such a source holds this one.  It has a single state, at
/// which it is at its end, and it has no value: its value is never to be
/// read.
#[derive(Debug)]
pub struct GenNothing {}

impl Generator for GenNothing {
    open spec fn model(&self) -> GenState {
        GenState::Nothing
    }

    /// Not to be called: this generator has no value, so no caller can meet
    /// what the method asks for.
    fn value(&self) -> (text: String) {
        String::new()
    }

    fn next(&mut self) {
    }

    fn done(&self) -> (r: bool) {
        true
    }

    fn n_state(&self) -> (n: usize) {
        1
    }

    fn checked_n_state(&self) -> (n: Option<usize>) {
        Some(1)
    }

    fn reset(&mut self) {
    }

    fn dbg(&self) -> (text: String) {
        String::from_str("(none)")
    }
}

/// The generator of a free variable that is an opaque pointer which some
/// API will initialise.  No value can be generated for it, so it has a
/// single state, whose value is an empty initialiser marked with the type.
#[derive(Debug)]
pub struct GenOpaque {
    ty: String,
}

impl GenOpaque {
    pub fn create(typ: &Type) -> (g: GenOpaque)
        ensures
            g.model() == GenState::Opaque(typ@.name()),
    {
        GenOpaque { ty: typ.name() }
    }
}

impl Generator for GenOpaque {
    closed spec fn model(&self) -> GenState {
        GenState::Opaque(self.ty@)
    }

    fn value(&self) -> (text: String) {
        let mut rv = String::from_str("/*(");
        rv.append(self.ty.as_str());
        rv.append(")*/{}");
        rv
    }

    fn next(&mut self) {
    }

    fn done(&self) -> (r: bool) {
        true
    }

    fn n_state(&self) -> (n: usize) {
        1
    }

    fn checked_n_state(&self) -> (n: Option<usize>) {
        Some(1)
    }

    fn reset(&mut self) {
    }

    fn dbg(&self) -> (text: String) {
        String::from_str("(opaque-none)")
    }
}

/// The generator of an enumeration: one state for each variant, in
/// declaration order.
#[derive(Debug)]
pub struct GenEnum {
    cls: TC_Enum,
    idx: usize,
}

impl GenEnum {
    pub fn create(t: &Type) -> (g: GenEnum)
        requires
            t@ is Enum,
            t@->Enum_1.len() > 0,
        ensures
            g.model() == GenState::Class(Kind::Enumerated(pair_names(t@->Enum_1)), 0),
            g.model().wf(),
    {
        GenEnum { cls: TC_Enum::new(t), idx: 0 }
    }
}

impl Generator for GenEnum {
    closed spec fn model(&self) -> GenState {
        GenState::Class(self.cls.kind(), self.idx as nat)
    }

    fn value(&self) -> (text: String) {
        self.cls.value(self.idx)
    }

    fn next(&mut self) {
        if self.idx < self.cls.n() - 1 {
            self.idx = self.idx + 1;
        }
    }

    fn done(&self) -> (r: bool) {
        self.idx >= self.cls.n() - 1
    }

    fn n_state(&self) -> (n: usize) {
        self.cls.n()
    }

    fn checked_n_state(&self) -> (n: Option<usize>) {
        Some(self.cls.n())
    }

    fn reset(&mut self) {
        self.idx = 0;
    }

    fn dbg(&self) -> (text: String) {
        summarize("enum", self.idx, self.cls.n())
    }
}

/// The generator of a bounded signed integer.
#[derive(Debug)]
pub struct GenI32 {
    cls: TC_I32,
    idx: usize,
}

impl GenI32 {
    pub fn create(_t: &Type) -> (g: GenI32)
        ensures
            g.model() == GenState::Class(Kind::Integer, 0),
            g.model().wf(),
    {
        GenI32 { cls: TC_I32::new(), idx: 0 }
    }
}

impl Generator for GenI32 {
    closed spec fn model(&self) -> GenState {
        GenState::Class(Kind::Integer, self.idx as nat)
    }

    fn value(&self) -> (text: String) {
        signed(self.cls.value(self.idx) as i64)
    }

    fn next(&mut self) {
        if self.idx < self.cls.n() - 1 {
            self.idx = self.idx + 1
        }
    }

    fn done(&self) -> (r: bool) {
        self.idx >= self.cls.n() - 1
    }

    fn n_state(&self) -> (n: usize) {
        self.cls.n()
    }

    fn checked_n_state(&self) -> (n: Option<usize>) {
        Some(self.cls.n())
    }

    fn reset(&mut self) {
        self.idx = 0;
    }

    fn dbg(&self) -> (text: String) {
        summarize("i32", self.idx, self.cls.n())
    }
}

/// The generator of an unsigned size.  Its literals carry the suffix of an
/// unsigned constant.
#[derive(Debug)]
pub struct GenUsize {
    cls: TC_Usize,
    idx: usize,
}

impl GenUsize {
    pub fn create(_t: &Type) -> (g: GenUsize)
        ensures
            g.model() == GenState::Class(Kind::Size, 0),
            g.model().wf(),
    {
        GenUsize { cls: TC_Usize::new(), idx: 0 }
    }
}

impl Generator for GenUsize {
    closed spec fn model(&self) -> GenState {
        GenState::Class(Kind::Size, self.idx as nat)
    }

    fn value(&self) -> (text: String) {
        let mut rv = unsigned(self.cls.value(self.idx));
        rv.append("ull");
        rv
    }

    fn next(&mut self) {
        if self.idx < self.cls.n() - 1 {
            self.idx = self.idx + 1
        }
    }

    fn done(&self) -> (r: bool) {
        self.idx >= self.cls.n() - 1
    }

    fn n_state(&self) -> (n: usize) {
        self.cls.n()
    }

    fn checked_n_state(&self) -> (n: Option<usize>) {
        Some(self.cls.n())
    }

    fn reset(&mut self) {
        self.idx = 0;
    }

    fn dbg(&self) -> (text: String) {
        summarize("usize", self.idx, self.cls.n())
    }
}

/// The generator of a pointer to anything but a character.  Its literals
/// are addresses cast to the pointer type.
#[derive(Debug)]
pub struct GenPointer {
    ty: String,
    cls: TC_Pointer,
    idx: usize,
}

impl GenPointer {
    pub fn create(t: &Type) -> (g: GenPointer)
        requires
            t@ is Pointer,
        ensures
            g.model() == GenState::Class(Kind::Pointer(t@.name()), 0),
            g.model().wf(),
    {
        GenPointer { ty: t.name(), cls: TC_Pointer::new(), idx: 0 }
    }
}

impl Generator for GenPointer {
    closed spec fn model(&self) -> GenState {
        GenState::Class(Kind::Pointer(self.ty@), self.idx as nat)
    }

    fn value(&self) -> (text: String) {
        let mut rv = String::from_str("(");
        rv.append(self.ty.as_str());
        rv.append(")");
        let address = unsigned(self.cls.value(self.idx));
        rv.append(address.as_str());
        rv.append("ull");
        assert(rv@ =~= Kind::Pointer(self.ty@).text(self.idx as nat));
        rv
    }

    fn next(&mut self) {
        if self.idx < self.cls.n() - 1 {
            self.idx = self.idx + 1
        }
    }

    fn done(&self) -> (r: bool) {
        self.idx >= self.cls.n() - 1
    }

    fn n_state(&self) -> (n: usize) {
        self.cls.n()
    }

    fn checked_n_state(&self) -> (n: Option<usize>) {
        Some(self.cls.n())
    }

    fn reset(&mut self) {
        self.idx = 0;
    }

    fn dbg(&self) -> (text: String) {
        summarize("ptr", self.idx, self.cls.n())
    }
}

/// The generator of a C string.  Its eight classes are: the null pointer;
/// the empty string; one normal character; one control character; several
/// normal characters; several control characters; several characters of
/// both sorts; and a very long string of normal characters.  From the third
/// class on the characters, and where there are several their number, are
/// drawn at random at every reading.
#[derive(Debug)]
pub struct GenCString {
    idx: usize,
}

/// The sort of characters that a class of C strings is made of.
#[derive(Clone, Copy, PartialEq, Eq, Structural)]
enum Sort {
    Normal,
    Control,
    /// Either sort, by the toss of a coin for each character.
    Mixed,
}

impl Sort {
    spec fn admits(self, c: char) -> bool {
        match self {
            Sort::Normal => is_normal(c),
            Sort::Control => is_control(c),
            Sort::Mixed => is_normal(c) || is_control(c),
        }
    }
}

impl GenCString {
    pub fn create(t: &Type) -> (g: GenCString)
        requires
            t@.is_c_string(),
        ensures
            g.model() == GenState::Class(Kind::CString, 0),
            g.model().wf(),
    {
        GenCString { idx: 0 }
    }

    /// Appends `length` characters of the given sort to `text`.
    fn fill(text: &mut String, rng: &mut rand::ThreadRng, length: u32, sort: Sort) -> (body: Ghost<
        Seq<char>,
    >)
        ensures
            final(text)@ == old(text)@ + body@,
            body@.len() == length,
            forall|i: int| 0 <= i < body@.len() ==> sort.admits(#[trigger] body@[i]),
    {
        let ghost mut body: Seq<char> = Seq::empty();
        let mut i: u32 = 0;
        while i < length
            invariant
                i <= length,
                body.len() == i,
                text@ == old(text)@ + body,
                forall|k: int| 0 <= k < body.len() ==> sort.admits(#[trigger] body[k]),
            decreases length - i,
        {
            let c = match sort {
                Sort::Normal => draw_normal(rng),
                Sort::Control => draw_control(rng),
                Sort::Mixed => if sample(rng, 0, 2) == 0 {
                    draw_normal(rng)
                } else {
                    draw_control(rng)
                },
            };
            push_char(text, c);
            proof {
                let longer = body.push(c);
                assert(text@ =~= old(text)@ + longer);
                body = longer;
            }
            i += 1;
        }
        Ghost(body)
    }
}

impl Generator for GenCString {
    closed spec fn model(&self) -> GenState {
        GenState::Class(Kind::CString, self.idx as nat)
    }

    fn value(&self) -> (text: String) {
        // The null pointer is the one class that is not wrapped in quotes.
        if self.idx == 0 {
            return String::from_str("NULL");
        }
        let mut rv = String::from_str("\"");
        let ghost opening = rv@;
        let mut rng = rand::thread_rng();
        let body = if self.idx == 1 {
            Ghost(Seq::<char>::empty())
        } else if self.idx == 2 {
            Self::fill(&mut rv, &mut rng, 1, Sort::Normal)
        } else if self.idx == 3 {
            Self::fill(&mut rv, &mut rng, 1, Sort::Control)
        } else if self.idx == 4 {
            let length = sample(&mut rng, 3, 128);
            Self::fill(&mut rv, &mut rng, length, Sort::Normal)
        } else if self.idx == 5 {
            let length = sample(&mut rng, 3, 128);
            Self::fill(&mut rv, &mut rng, length, Sort::Control)
        } else if self.idx == 6 {
            let length = sample(&mut rng, 3, 128);
            Self::fill(&mut rv, &mut rng, length, Sort::Mixed)
        } else {
            let length = sample(&mut rng, 512, 32768);
            Self::fill(&mut rv, &mut rng, length, Sort::Normal)
        };
        push_char(&mut rv, '"');
        proof {
            assert(rv@ =~= "\""@ + body@.push('"'));
            assert(c_string_body(self.idx as nat, body@));
            if self.idx == 1 {
                reveal_strlit("\"");
                reveal_strlit("\"\"");
                assert(rv@ =~= "\"\""@);
            }
        }
        rv
    }

    fn next(&mut self) {
        if self.idx < 7 {
            self.idx = self.idx + 1
        }
    }

    fn done(&self) -> (r: bool) {
        self.idx >= 7
    }

    fn n_state(&self) -> (n: usize) {
        8
    }

    fn checked_n_state(&self) -> (n: Option<usize>) {
        Some(8)
    }

    fn reset(&mut self) {
        self.idx = 0;
    }

    fn dbg(&self) -> (text: String) {
        summarize("cstr", self.idx, 8)
    }
}

/// A generator of any kind.
#[derive(Debug)]
pub enum AnyGenerator {
    Nothing(GenNothing),
    Opaque(GenOpaque),
    Enum(GenEnum),
    I32(GenI32),
    Usize(GenUsize),
    UDT(GenUDT),
    Pointer(GenPointer),
    CString(GenCString),
}

/// The generator of a user-defined aggregate: one generator for each
/// member.  Its states are all combinations of its members' states, walked
/// through as an odometer does, the last member turning fastest.
#[derive(Debug)]
pub struct GenUDT {
    names: Vec<String>,
    values: Vec<AnyGenerator>,
}

/// The views of a list of names.
pub open spec fn names_of(names: Seq<String>) -> Seq<Seq<char>> {
    Seq::new(names.len(), |i: int| names[i]@)
}

/// The states of a list of generators.
pub closed spec fn states_of(values: Seq<AnyGenerator>) -> Seq<GenState>
    decreases values,
{
    Seq::new(
        values.len(),
        |i: int|
            if 0 <= i < values.len() {
                values[i].state()
            } else {
                GenState::Nothing
            },
    )
}

/// The states of a list of generators.
pub open spec fn models_of(values: Seq<AnyGenerator>) -> Seq<GenState> {
    Seq::new(values.len(), |i: int| values[i].model())
}

/// The views of a list of texts.
pub open spec fn texts_view(texts: Seq<String>) -> Seq<Seq<char>> {
    Seq::new(texts.len(), |i: int| texts[i]@)
}

/// `values` holds one value for each member of the composite `s`, in
/// declaration order.
pub open spec fn tuple_admits(s: GenState, values: Seq<Seq<char>>) -> bool {
    &&& s is Composite
    &&& values.len() == s->Composite_1.len()
    &&& forall|i: int|
        0 <= i < values.len() ==> (#[trigger] s->Composite_1[i]).admits(values[i])
}

/// The states of a list of generators are the generators' models, one for
/// one.
pub proof fn lemma_states_of(values: Seq<AnyGenerator>)
    ensures
        states_of(values) == models_of(values),
{
    assert(states_of(values) =~= models_of(values));
}

impl GenUDT {
    /// The mathematical state of the generator.
    pub closed spec fn state(&self) -> GenState
        decreases self,
    {
        GenState::Composite(names_of(self.names@), states_of(self.values@))
    }
}

impl AnyGenerator {
    /// The mathematical state of the generator.
    pub closed spec fn state(&self) -> GenState
        decreases self,
    {
        match self {
            AnyGenerator::Nothing(g) => g.model(),
            AnyGenerator::Opaque(g) => g.model(),
            AnyGenerator::Enum(g) => g.model(),
            AnyGenerator::I32(g) => g.model(),
            AnyGenerator::Usize(g) => g.model(),
            AnyGenerator::UDT(g) => g.state(),
            AnyGenerator::Pointer(g) => g.model(),
            AnyGenerator::CString(g) => g.model(),
        }
    }
}

impl Generator for GenUDT {
    closed spec fn model(&self) -> GenState {
        self.state()
    }

    fn value(&self) -> (text: String)
        decreases self,
    {
        let ghost names = names_of(self.names@);
        let ghost fields = states_of(self.values@);
        let mut rv = String::from_str("{\n");
        let ghost mut values: Seq<Seq<char>> = Seq::empty();
        let n = self.values.len();
        let mut i: usize = 0;
        while i < n
            invariant
                names == names_of(self.names@),
                fields == states_of(self.values@),
                self.model().wf(),
                self.model().has_value(),
                n == self.values.len(),
                n == self.names.len(),
                i <= n,
                values.len() == i,
                rv@ == "{\n"@ + members_text(names.take(i as int), values),
                forall|k: int| 0 <= k < i ==> (#[trigger] fields[k]).admits(values[k]),
            decreases n - i,
        {
            assert(fields[i as int].wf() && fields[i as int].has_value());
            let v = self.values[i].value();
            rv.append("\t\t.");
            rv.append(self.names[i].as_str());
            rv.append(" = ");
            rv.append(v.as_str());
            rv.append(",\n");
            proof {
                let longer = values.push(v@);
                let upto = names.take(i as int + 1);
                assert(upto.drop_last() =~= names.take(i as int));
                assert(longer.drop_last() =~= values);
                assert(upto.last() == self.names@[i as int]@);
                assert(rv@ =~= "{\n"@ + members_text(upto, longer));
                values = longer;
            }
            i += 1;
        }
        rv.append("\t}");
        proof {
            assert(names.take(n as int) =~= names);
            assert(rv@ =~= aggregate_text(names, values));
        }
        rv
    }

    fn next(&mut self)
        decreases *old(self),
    {
        let ghost before = old(self).model();
        let ghost fields = states_of(old(self).values@);
        let n = self.values.len();
        let mut p: usize = n;
        let mut found = false;
        while p > 0 && !found
            invariant
                *self == *old(self),
                fields == states_of(self.values@),
                self.model().wf(),
                n == self.values.len(),
                p <= n,
                forall|k: int| p <= k < n ==> (#[trigger] fields[k]).at_end(),
                found ==> p > 0 && !fields[p - 1].at_end(),
            decreases p + (if found { 0nat } else { 1nat }),
        {
            assert(fields[p - 1].wf());
            if self.values[p - 1].done() {
                p -= 1;
            } else {
                found = true;
            }
        }
        proof {
            crate::model::lemma_last_unfinished(fields);
            crate::model::lemma_advance(before);
        }
        if !found {
            assert(crate::model::last_unfinished(fields) < 0) by {
                let q = crate::model::last_unfinished(fields);
                if q >= 0 {
                    assert(fields[q].at_end());
                }
            }
            return ;
        }
        let pos = p - 1;
        assert(crate::model::last_unfinished(fields) == pos) by {
            let q = crate::model::last_unfinished(fields);
            if q > pos {
                assert(fields[q].at_end());
            }
            if q < pos {
                assert(fields[pos as int].at_end());
            }
        }
        assert(fields[pos as int].wf());
        self.values[pos].next();
        let mut k: usize = pos + 1;
        while k < n
            invariant
                pos < k <= n,
                n == self.values.len(),
                n == old(self).values.len(),
                self.names == old(self).names,
                fields == states_of(old(self).values@),
                before == old(self).model(),
                before.wf(),
                forall|j: int| 0 <= j < pos ==> self.values@[j] == old(self).values@[j],
                self.values@[pos as int].state() == fields[pos as int].advance(),
                forall|j: int| pos < j < k ==>
                    (#[trigger] self.values@[j]).state() == fields[j].reset(),
                forall|j: int| k <= j < n ==> self.values@[j] == old(self).values@[j],
            decreases n - k,
        {
            assert(fields[k as int].wf());
            assert(self.values@[k as int] == old(self).values@[k as int]);
            self.values[k].reset();
            k += 1;
        }
        proof {
            let after = states_of(self.values@);
            let expected = before.advance()->Composite_1;
            assert(after.len() == expected.len());
            assert forall|j: int| 0 <= j < after.len() implies after[j] == expected[j] by {
                if j < pos {
                    assert(self.values@[j] == old(self).values@[j]);
                }
            }
            assert(after =~= expected);
        }
    }

    fn done(&self) -> (r: bool)
        decreases self,
    {
        let ghost fields = states_of(self.values@);
        let n = self.values.len();
        let mut i: usize = 0;
        while i < n
            invariant
                fields == states_of(self.values@),
                self.model().wf(),
                n == self.values.len(),
                i <= n,
                forall|k: int| 0 <= k < i ==> (#[trigger] fields[k]).at_end(),
            decreases n - i,
        {
            assert(fields[i as int].wf());
            if !self.values[i].done() {
                return false;
            }
            i += 1;
        }
        true
    }

    fn n_state(&self) -> (n: usize) {
        match self.checked_n_state() {
            Some(n) => n,
            None => vstd::pervasive::unreached(),
        }
    }

    fn checked_n_state(&self) -> (n: Option<usize>)
        decreases self,
    {
        let ghost fields = states_of(self.values@);
        let ghost counts = crate::model::counts_of(fields);
        proof {
            crate::model::lemma_members(fields);
        }
        let len = self.values.len();
        let mut acc: usize = 1;
        let mut i: usize = 0;
        while i < len
            invariant
                fields == states_of(self.values@),
                counts == crate::model::counts_of(fields),
                crate::odometer::all_positive(counts),
                self.model().wf(),
                len == self.values.len(),
                i <= len,
                acc == crate::odometer::product(counts.take(i as int)),
            decreases len - i,
        {
            assert(fields[i as int].wf());
            proof {
                crate::odometer::lemma_product_take_next(counts, i as int);
                crate::odometer::lemma_product_prefix(counts, i as int + 1);
                crate::odometer::lemma_product_positive(counts.take(i as int));
            }
            let ghost so_far = crate::odometer::product(counts.take(i as int));
            let ghost c = counts[i as int];
            match self.values[i].checked_n_state() {
                None => {
                    assert(so_far * c >= c) by (nonlinear_arith)
                        requires
                            so_far >= 1,
                            c >= 0,
                    ;
                    return None;
                },
                Some(member) => match acc.checked_mul(member) {
                    None => {
                        return None;
                    },
                    Some(more) => {
                        acc = more;
                    },
                },
            }
            i += 1;
        }
        proof {
            assert(counts.take(len as int) =~= counts);
        }
        Some(acc)
    }

    fn reset(&mut self)
        decreases *old(self),
    {
        let ghost before = old(self).model();
        let ghost fields = states_of(old(self).values@);
        let n = self.values.len();
        let mut k: usize = 0;
        while k < n
            invariant
                k <= n,
                n == self.values.len(),
                n == old(self).values.len(),
                self.names == old(self).names,
                fields == states_of(old(self).values@),
                before == old(self).model(),
                before.wf(),
                forall|j: int| 0 <= j < k ==> (#[trigger] self.values@[j]).state() == fields[j].reset(),
                forall|j: int| k <= j < n ==> self.values@[j] == old(self).values@[j],
            decreases n - k,
        {
            assert(fields[k as int].wf());
            assert(self.values@[k as int] == old(self).values@[k as int]);
            self.values[k].reset();
            k += 1;
        }
        proof {
            crate::model::lemma_reset(before);
            let after = states_of(self.values@);
            let expected = before.reset()->Composite_1;
            assert(after.len() == expected.len());
            assert forall|j: int| 0 <= j < after.len() implies after[j] == expected[j] by {
            }
            assert(after =~= expected);
        }
    }

    fn dbg(&self) -> (text: String)
        decreases self,
    {
        let ghost fields = states_of(self.values@);
        let mut text = String::from_str("udt{");
        let n = self.values.len();
        let mut i: usize = 0;
        while i < n
            invariant
                fields == states_of(self.values@),
                self.model().wf(),
                n == self.values.len(),
                i <= n,
                text@ == "udt{"@ + summaries(fields, i as nat),
            decreases n - i,
        {
            assert(fields[i as int].wf());
            if i > 0 {
                text.append(", ");
            }
            text.append("f");
            let place = unsigned(i as u64);
            text.append(place.as_str());
            text.append(":");
            let member = self.values[i].dbg();
            text.append(member.as_str());
            proof {
                assert(text@ =~= "udt{"@ + summaries(fields, (i + 1) as nat));
            }
            i += 1;
        }
        text.append("}");
        text
    }
}

impl Generator for AnyGenerator {
    closed spec fn model(&self) -> GenState {
        self.state()
    }

    fn value(&self) -> (text: String)
        decreases self,
    {
        match self {
            AnyGenerator::Nothing(g) => g.value(),
            AnyGenerator::Opaque(g) => g.value(),
            AnyGenerator::Enum(g) => g.value(),
            AnyGenerator::I32(g) => g.value(),
            AnyGenerator::Usize(g) => g.value(),
            AnyGenerator::UDT(g) => g.value(),
            AnyGenerator::Pointer(g) => g.value(),
            AnyGenerator::CString(g) => g.value(),
        }
    }

    fn next(&mut self)
        decreases *old(self),
    {
        match self {
            AnyGenerator::Nothing(g) => g.next(),
            AnyGenerator::Opaque(g) => g.next(),
            AnyGenerator::Enum(g) => g.next(),
            AnyGenerator::I32(g) => g.next(),
            AnyGenerator::Usize(g) => g.next(),
            AnyGenerator::UDT(g) => g.next(),
            AnyGenerator::Pointer(g) => g.next(),
            AnyGenerator::CString(g) => g.next(),
        }
    }

    fn done(&self) -> (r: bool)
        decreases self,
    {
        match self {
            AnyGenerator::Nothing(g) => g.done(),
            AnyGenerator::Opaque(g) => g.done(),
            AnyGenerator::Enum(g) => g.done(),
            AnyGenerator::I32(g) => g.done(),
            AnyGenerator::Usize(g) => g.done(),
            AnyGenerator::UDT(g) => g.done(),
            AnyGenerator::Pointer(g) => g.done(),
            AnyGenerator::CString(g) => g.done(),
        }
    }

    fn n_state(&self) -> (n: usize) {
        match self.checked_n_state() {
            Some(n) => n,
            None => vstd::pervasive::unreached(),
        }
    }

    fn checked_n_state(&self) -> (n: Option<usize>)
        decreases self,
    {
        match self {
            AnyGenerator::Nothing(g) => g.checked_n_state(),
            AnyGenerator::Opaque(g) => g.checked_n_state(),
            AnyGenerator::Enum(g) => g.checked_n_state(),
            AnyGenerator::I32(g) => g.checked_n_state(),
            AnyGenerator::Usize(g) => g.checked_n_state(),
            AnyGenerator::UDT(g) => g.checked_n_state(),
            AnyGenerator::Pointer(g) => g.checked_n_state(),
            AnyGenerator::CString(g) => g.checked_n_state(),
        }
    }

    fn reset(&mut self)
        decreases *old(self),
    {
        match self {
            AnyGenerator::Nothing(g) => g.reset(),
            AnyGenerator::Opaque(g) => g.reset(),
            AnyGenerator::Enum(g) => g.reset(),
            AnyGenerator::I32(g) => g.reset(),
            AnyGenerator::Usize(g) => g.reset(),
            AnyGenerator::UDT(g) => g.reset(),
            AnyGenerator::Pointer(g) => g.reset(),
            AnyGenerator::CString(g) => g.reset(),
        }
    }

    fn dbg(&self) -> (text: String)
        decreases self,
    {
        match self {
            AnyGenerator::Nothing(g) => g.dbg(),
            AnyGenerator::Opaque(g) => g.dbg(),
            AnyGenerator::Enum(g) => g.dbg(),
            AnyGenerator::I32(g) => g.dbg(),
            AnyGenerator::Usize(g) => g.dbg(),
            AnyGenerator::UDT(g) => g.dbg(),
            AnyGenerator::Pointer(g) => g.dbg(),
            AnyGenerator::CString(g) => g.dbg(),
        }
    }
}

/// The generator that a type is given, in its first state, or the reason
/// why it has none.
///
/// An enumeration gets one class for each variant, and must have a variant.
/// The integer kinds and the size kind get their integer classes.  A
/// pointer to a character is a C string; any other pointer gets the pointer
/// classes.  A named field is generated as the type it wraps.  A struct
/// and a user-defined aggregate get one generator for each member; the
/// members of a user-defined aggregate must be named fields.  Characters
/// and void have no classes.
pub open spec fn dispatch(t: TypeView) -> Result<GenState, Error>
    decreases t, 0nat,
{
    match t {
        TypeView::Field(_, inner) => dispatch(*inner),
        TypeView::UDT(_, members) => match dispatch_members(members, members.len()) {
            Ok(states) => Ok(GenState::Composite(member_names(members), states)),
            Err(e) => Err(e),
        },
        TypeView::Struct(_, fields) => match dispatch_fields(fields, fields.len()) {
            Ok(states) => Ok(GenState::Composite(pair_names(fields), states)),
            Err(e) => Err(e),
        },
        _ => match kind_of(t) {
            Ok(kind) => Ok(GenState::Class(kind, 0)),
            Err(e) => Err(e),
        },
    }
}

/// The names of the members of a user-defined aggregate.
pub open spec fn member_names(members: Seq<TypeView>) -> Seq<Seq<char>> {
    Seq::new(members.len(), |i: int| members[i]->Field_0)
}

/// The generators of the first `n` members of a user-defined aggregate, or
/// the fault of the first member that has one.
pub open spec fn dispatch_members(members: Seq<TypeView>, n: nat) -> Result<Seq<GenState>, Error>
    decreases members, n,
{
    if n == 0 || n > members.len() {
        Ok(Seq::empty())
    } else {
        match dispatch_members(members, (n - 1) as nat) {
            Err(e) => Err(e),
            Ok(states) => match members[n - 1] {
                TypeView::Field(_, inner) => match dispatch(*inner) {
                    Ok(state) => Ok(states.push(state)),
                    Err(e) => Err(e),
                },
                _ => Err(Error::Unimplemented),
            },
        }
    }
}

/// The generators of the first `n` fields of a struct, or the fault of the
/// first field that has one.
pub open spec fn dispatch_fields(fields: Seq<(Seq<char>, TypeView)>, n: nat) -> Result<
    Seq<GenState>,
    Error,
>
    decreases fields, n,
{
    if n == 0 || n > fields.len() {
        Ok(Seq::empty())
    } else {
        match dispatch_fields(fields, (n - 1) as nat) {
            Err(e) => Err(e),
            Ok(states) => match dispatch(fields[n - 1].1) {
                Ok(state) => Ok(states.push(state)),
                Err(e) => Err(e),
            },
        }
    }
}

/// A fault among the first members is the fault of the whole aggregate, and
/// without one there is a generator for each of them.
pub proof fn lemma_dispatch_members(members: Seq<TypeView>, k: nat, n: nat)
    requires
        k <= n <= members.len(),
    ensures
        dispatch_members(members, k) is Err ==> dispatch_members(members, n) == dispatch_members(
            members,
            k,
        ),
        dispatch_members(members, n) matches Ok(states) ==> states.len() == n,
    decreases n,
{
    if n > 0 {
        if k < n {
            lemma_dispatch_members(members, k, (n - 1) as nat);
        } else {
            lemma_dispatch_members(members, (n - 1) as nat, (n - 1) as nat);
        }
    }
}

/// A fault among the first fields is the fault of the whole struct, and
/// without one there is a generator for each of them.
pub proof fn lemma_dispatch_fields(fields: Seq<(Seq<char>, TypeView)>, k: nat, n: nat)
    requires
        k <= n <= fields.len(),
    ensures
        dispatch_fields(fields, k) is Err ==> dispatch_fields(fields, n) == dispatch_fields(
            fields,
            k,
        ),
        dispatch_fields(fields, n) matches Ok(states) ==> states.len() == n,
    decreases n,
{
    if n > 0 {
        if k < n {
            lemma_dispatch_fields(fields, k, (n - 1) as nat);
        } else {
            lemma_dispatch_fields(fields, (n - 1) as nat, (n - 1) as nat);
        }
    }
}

/// The generator that a type is given starts valid, at rank zero, and has a
/// value.
pub proof fn lemma_dispatch_initial(t: TypeView)
    requires
        dispatch(t) is Ok,
    ensures
        dispatch(t)->Ok_0.wf(),
        dispatch(t)->Ok_0.has_value(),
        dispatch(t)->Ok_0.rank() == 0,
        dispatch(t)->Ok_0.reset() == dispatch(t)->Ok_0,
    decreases t, 0nat,
{
    let s = dispatch(t)->Ok_0;
    match t {
        TypeView::Field(_, inner) => {
            lemma_dispatch_initial(*inner);
        },
        TypeView::UDT(_, members) => {
            lemma_dispatch_members_initial(members, members.len());
            lemma_dispatch_members(members, members.len(), members.len());
            crate::model::lemma_reset(s);
            initial_rank(s);
        },
        TypeView::Struct(_, fields) => {
            lemma_dispatch_fields_initial(fields, fields.len());
            lemma_dispatch_fields(fields, fields.len(), fields.len());
            crate::model::lemma_reset(s);
            initial_rank(s);
        },
        _ => {},
    }
}

/// A composite whose members are all at rank zero is at rank zero.
proof fn initial_rank(s: GenState)
    requires
        s is Composite,
        s.wf(),
        forall|i: int| 0 <= i < s->Composite_1.len() ==> (#[trigger] s->Composite_1[i]).rank() == 0,
    ensures
        s.rank() == 0,
        s.reset() == s,
{
    let fields = s->Composite_1;
    crate::model::lemma_reset(s);
    let zeroed = s.reset()->Composite_1;
    assert forall|i: int| 0 <= i < fields.len() implies zeroed[i] == fields[i] by {
        crate::model::lemma_reset(fields[i]);
    }
    assert(zeroed =~= fields);
}

proof fn lemma_dispatch_members_initial(members: Seq<TypeView>, n: nat)
    requires
        n <= members.len(),
        dispatch_members(members, n) is Ok,
    ensures
        dispatch_members(members, n)->Ok_0.len() == n,
        forall|i: int|
            0 <= i < n ==> {
                let s = #[trigger] dispatch_members(members, n)->Ok_0[i];
                s.wf() && s.has_value() && s.rank() == 0
            },
    decreases members, n,
{
    if n > 0 {
        lemma_dispatch_members_initial(members, (n - 1) as nat);
        match members[n - 1] {
            TypeView::Field(_, inner) => {
                lemma_dispatch_initial(*inner);
            },
            _ => {},
        }
    }
}

proof fn lemma_dispatch_fields_initial(fields: Seq<(Seq<char>, TypeView)>, n: nat)
    requires
        n <= fields.len(),
        dispatch_fields(fields, n) is Ok,
    ensures
        dispatch_fields(fields, n)->Ok_0.len() == n,
        forall|i: int|
            0 <= i < n ==> {
                let s = #[trigger] dispatch_fields(fields, n)->Ok_0[i];
                s.wf() && s.has_value() && s.rank() == 0
            },
    decreases fields, n,
{
    if n > 0 {
        lemma_dispatch_fields_initial(fields, (n - 1) as nat);
        lemma_dispatch_initial(fields[n - 1].1);
    }
}

impl GenUDT {
    /// The composite generator over the given generators, each under its
    /// name.  There must be as many names as generators; otherwise both
    /// lists are handed back.
    pub fn from_parts(names: Vec<String>, values: Vec<AnyGenerator>) -> (r: Result<
        GenUDT,
        (Vec<String>, Vec<AnyGenerator>),
    >)
        ensures
            match r {
                Ok(g) => names.len() == values.len() && g.model() == GenState::Composite(
                    names_of(names@),
                    models_of(values@),
                ),
                Err(back) => names.len() != values.len() && back == (names, values),
            },
    {
        if names.len() == values.len() {
            proof {
                lemma_states_of(values@);
            }
            Ok(GenUDT { names, values })
        } else {
            Err((names, values))
        }
    }

    /// The number of members.
    pub fn len(&self) -> (n: usize)
        requires
            self.model().wf(),
        ensures
            self.model() is Composite,
            n == self.model()->Composite_1.len(),
    {
        self.values.len()
    }

    /// The generator of member `i`.
    pub fn member(&self, i: usize) -> (g: &AnyGenerator)
        requires
            self.model().wf(),
            i < self.model()->Composite_1.len(),
        ensures
            g.model() == self.model()->Composite_1[i as int],
    {
        &self.values[i]
    }

    /// The generator of the user-defined aggregate `t`.
    pub fn create(t: &Type) -> (g: GenUDT)
        requires
            t@ is UDT,
            dispatch(t@) is Ok,
        ensures
            dispatch(t@) == Ok::<GenState, Error>(g.model()),
    {
        match t {
            Type::UDT(_, members) => match Self::of_members(members) {
                Ok(g) => g,
                Err(_) => vstd::pervasive::unreached(),
            },
            _ => vstd::pervasive::unreached(),
        }
    }

    /// The composite generator over the members of a user-defined
    /// aggregate, each of which must be a named field.
    fn of_members(members: &Vec<Type>) -> (r: Result<GenUDT, Error>)
        ensures
            match r {
                Ok(g) => dispatch_members(types_view(members@), members.len() as nat) == Ok::<
                    Seq<GenState>,
                    Error,
                >(states_of(g.values@)) && names_of(g.names@) == member_names(
                    types_view(members@),
                ),
                Err(e) => dispatch_members(types_view(members@), members.len() as nat) == Err::<
                    Seq<GenState>,
                    Error,
                >(e),
            },
        decreases members,
    {
        let ghost views = types_view(members@);
        let mut names: Vec<String> = Vec::new();
        let mut values: Vec<AnyGenerator> = Vec::new();
        let n = members.len();
        let mut i: usize = 0;
        assert(states_of(values@) =~= Seq::empty());
        while i < n
            invariant
                views == types_view(members@),
                n == members.len(),
                i <= n,
                names.len() == i,
                values.len() == i,
                dispatch_members(views, i as nat) == Ok::<Seq<GenState>, Error>(states_of(values@)),
                forall|k: int| 0 <= k < i ==> names@[k]@ == (#[trigger] views[k])->Field_0,
            decreases n - i,
        {
            assert(views[i as int] == members@[i as int].model());
            match &members[i] {
                Type::Field(name, inner) => match generator(inner) {
                    Ok(g) => {
                        proof {
                            assert(states_of(values@.push(g)) =~= states_of(values@).push(
                                g.state(),
                            ));
                        }
                        names.push(name.clone());
                        values.push(g);
                    },
                    Err(e) => {
                        proof {
                            lemma_dispatch_members(views, (i + 1) as nat, n as nat);
                        }
                        return Err(e);
                    },
                },
                _ => {
                    proof {
                        lemma_dispatch_members(views, (i + 1) as nat, n as nat);
                    }
                    return Err(Error::Unimplemented);
                },
            }
            i += 1;
        }
        let g = GenUDT { names, values };
        assert(names_of(g.names@) =~= member_names(views));
        Ok(g)
    }

    /// The composite generator over the fields of a struct.
    fn of_fields(fields: &Vec<(String, Type)>) -> (r: Result<GenUDT, Error>)
        ensures
            match r {
                Ok(g) => dispatch_fields(fields_view(fields@), fields.len() as nat) == Ok::<
                    Seq<GenState>,
                    Error,
                >(states_of(g.values@)) && names_of(g.names@) == pair_names(fields_view(fields@)),
                Err(e) => dispatch_fields(fields_view(fields@), fields.len() as nat) == Err::<
                    Seq<GenState>,
                    Error,
                >(e),
            },
        decreases fields,
    {
        let ghost views = fields_view(fields@);
        let mut names: Vec<String> = Vec::new();
        let mut values: Vec<AnyGenerator> = Vec::new();
        let n = fields.len();
        let mut i: usize = 0;
        assert(states_of(values@) =~= Seq::empty());
        while i < n
            invariant
                views == fields_view(fields@),
                n == fields.len(),
                i <= n,
                names.len() == i,
                values.len() == i,
                dispatch_fields(views, i as nat) == Ok::<Seq<GenState>, Error>(states_of(values@)),
                forall|k: int| 0 <= k < i ==> names@[k]@ == (#[trigger] views[k]).0,
            decreases n - i,
        {
            assert(views[i as int] == (fields@[i as int].0@, fields@[i as int].1.model()));
            match generator(&fields[i].1) {
                Ok(g) => {
                    proof {
                        assert(states_of(values@.push(g)) =~= states_of(values@).push(g.state()));
                    }
                    names.push(fields[i].0.clone());
                    values.push(g);
                },
                Err(e) => {
                    proof {
                        lemma_dispatch_fields(views, (i + 1) as nat, n as nat);
                    }
                    return Err(e);
                },
            }
            i += 1;
        }
        let g = GenUDT { names, values };
        assert(names_of(g.names@) =~= pair_names(views));
        Ok(g)
    }
}

/// The most general generator for the type `t`, in its first state, or the
/// reason why the type has none.
pub fn generator(t: &Type) -> (r: Result<AnyGenerator, Error>)
    ensures
        match r {
            Ok(g) => {
                &&& dispatch(t@) == Ok::<GenState, Error>(g.model())
                &&& g.model().wf()
                &&& g.model().has_value()
                &&& g.model().rank() == 0
            },
            Err(e) => dispatch(t@) == Err::<GenState, Error>(e),
        },
    decreases t,
{
    proof {
        if dispatch(t@) is Ok {
            lemma_dispatch_initial(t@);
        }
    }
    match t {
        Type::Enum(_, values) => {
            if values.len() == 0 {
                Err(Error::NoVariants)
            } else {
                Ok(AnyGenerator::Enum(GenEnum::create(t)))
            }
        },
        Type::Builtin(native) => match native {
            Native::Integer => Ok(AnyGenerator::I32(GenI32::create(t))),
            Native::I32 => Ok(AnyGenerator::I32(GenI32::create(t))),
            Native::Usize => Ok(AnyGenerator::Usize(GenUsize::create(t))),
            Native::Character => Err(Error::NoPolicy),
            Native::Void => Err(Error::NoPolicy),
        },
        // Pointers to characters are interpreted to mean C strings.
        Type::Pointer(_) => {
            if t.is_c_string() {
                Ok(AnyGenerator::CString(GenCString::create(t)))
            } else {
                Ok(AnyGenerator::Pointer(GenPointer::create(t)))
            }
        },
        Type::Field(_, x) => generator(x),
        Type::UDT(_, members) => match GenUDT::of_members(members) {
            Ok(g) => Ok(AnyGenerator::UDT(g)),
            Err(e) => Err(e),
        },
        Type::Struct(_, fields) => match GenUDT::of_fields(fields) {
            Ok(g) => Ok(AnyGenerator::UDT(g)),
            Err(e) => Err(e),
        },
    }
}

/// Where the value of a variable comes from.
///
/// A free variable is given a generated value.  A bound variable is
/// another variable, its parent, seen through a scalar transformation of its
/// own.  A return value is what the function of the given fully-qualified
/// name returns.  A parent is named by its index in a [`Sources`] store.
#[derive(Debug)]
pub struct Source {
    name: String,
    pub generator: AnyGenerator,
    pub op: ScalarOp,
    pub parent: Option<usize>,
    fqn: String,
}

/// The mathematical value of a [`Source`].
pub struct SourceView {
    pub name: Seq<char>,
    pub generator: GenState,
    pub op: ScalarOp,
    pub parent: Option<usize>,
    pub fqn: Seq<char>,
}

impl SourceView {
    /// A free variable has a name and no function.
    pub open spec fn is_free(self) -> bool {
        self.name.len() != 0 && self.fqn.len() == 0
    }

    /// A bound variable has a parent.
    pub open spec fn is_bound(self) -> bool {
        self.parent is Some
    }

    /// A return value has the name of a function.
    pub open spec fn is_retval(self) -> bool {
        self.fqn.len() != 0
    }

    /// The source is of one of the three sorts.
    pub open spec fn is_valid(self) -> bool {
        self.is_free() || self.is_bound() || self.is_retval()
    }
}

impl View for Source {
    type V = SourceView;

    closed spec fn view(&self) -> SourceView {
        SourceView {
            name: self.name@,
            generator: self.generator.model(),
            op: self.op,
            parent: self.parent,
            fqn: self.fqn@,
        }
    }
}

impl Source {
    /// A free variable of the given type that needs the given
    /// transformation, with the most general generator for the type.
    pub fn free(nm: &str, ty: &Type, o: ScalarOp) -> (src: Source)
        requires
            dispatch(ty@) is Ok,
        ensures
            src@ == (SourceView {
                name: nm@,
                generator: dispatch(ty@)->Ok_0,
                op: o,
                parent: None,
                fqn: Seq::empty(),
            }),
    {
        match generator(ty) {
            Ok(g) => Source {
                name: String::from_str(nm),
                generator: g,
                op: o,
                parent: None,
                fqn: String::new(),
            },
            Err(_) => vstd::pervasive::unreached(),
        }
    }

    /// A free variable with an explicit generator, for when the most
    /// general one for the type is inappropriate.
    pub fn free_gen(nm: &str, gen: AnyGenerator, o: ScalarOp) -> (src: Source)
        ensures
            src@ == (SourceView {
                name: nm@,
                generator: gen.model(),
                op: o,
                parent: None,
                fqn: Seq::empty(),
            }),
    {
        Source { name: String::from_str(nm), generator: gen, op: o, parent: None, fqn: String::new() }
    }

    pub fn is_free(&self) -> (r: bool)
        ensures
            r == self@.is_free(),
    {
        // Both free and return variables have names; but free variables
        // have no associated function.
        !self.name.as_str().is_empty() && self.fqn.as_str().is_empty()
    }

    /// A variable bound to the source at index `parent` of a store.
    pub fn bound(parent: usize, o: ScalarOp) -> (src: Source)
        ensures
            src@ == (SourceView {
                name: Seq::empty(),
                generator: GenState::Nothing,
                op: o,
                parent: Some(parent),
                fqn: Seq::empty(),
            }),
    {
        Source {
            name: String::new(),
            generator: AnyGenerator::Nothing(GenNothing {  }),
            op: o,
            parent: Some(parent),
            fqn: String::new(),
        }
    }

    pub fn is_bound(&self) -> (r: bool)
        ensures
            r == self@.is_bound(),
    {
        self.parent.is_some()
    }

    /// The value that the function `fqn` returns.
    pub fn retval(name: &str, fqn: &str, oper: ScalarOp) -> (src: Source)
        ensures
            src@ == (SourceView {
                name: name@,
                generator: GenState::Nothing,
                op: oper,
                parent: None,
                fqn: fqn@,
            }),
    {
        Source {
            name: String::from_str(name),
            generator: AnyGenerator::Nothing(GenNothing {  }),
            op: oper,
            parent: None,
            fqn: String::from_str(fqn),
        }
    }

    pub fn is_retval(&self) -> (r: bool)
        ensures
            r == self@.is_retval(),
    {
        !self.fqn.as_str().is_empty()
    }
}

/// The sources of a list, as mathematical values.
pub open spec fn sources_view(nodes: Seq<Source>) -> Seq<SourceView> {
    Seq::new(nodes.len(), |i: int| nodes[i]@)
}

/// Every source is of one of the three sorts, and every parent stands
/// before its child: the sources form trees, with no cycle.
pub open spec fn is_forest(nodes: Seq<SourceView>) -> bool {
    forall|i: int|
        0 <= i < nodes.len() ==> (#[trigger] nodes[i]).is_valid() && (nodes[i].parent matches Some(
            p,
        ) ==> p < i)
}

/// The source whose name stands for source `i`: `i` itself where it is
/// free, else the root of its parent where it is bound, else `i` itself, a
/// return value.
pub open spec fn root(nodes: Seq<SourceView>, i: int) -> int
    decreases i,
{
    if 0 <= i < nodes.len() && !nodes[i].is_free() && nodes[i].parent is Some && nodes[i].parent->0
        < i {
        root(nodes, nodes[i].parent->0 as int)
    } else {
        i
    }
}

/// The name under which source `i` is displayed: its root's own name where
/// the root is free, its function's name where the root is a return value.
pub open spec fn display_name(nodes: Seq<SourceView>, i: int) -> Seq<char> {
    let r = nodes[root(nodes, i)];
    if r.is_free() {
        r.name
    } else {
        r.fqn
    }
}

/// The root of a source of a forest is a source of the forest that is free
/// or a return value, and is its own root.
pub proof fn lemma_root(nodes: Seq<SourceView>, i: int)
    requires
        is_forest(nodes),
        0 <= i < nodes.len(),
    ensures
        0 <= root(nodes, i) <= i,
        nodes[root(nodes, i)].is_free() || (!nodes[root(nodes, i)].is_bound() && nodes[root(
            nodes,
            i,
        )].is_retval()),
        root(nodes, root(nodes, i)) == root(nodes, i),
    decreases i,
{
    if !nodes[i].is_free() && nodes[i].parent is Some {
        lemma_root(nodes, nodes[i].parent->0 as int);
    }
}

/// A flat store of sources, in which a bound source names its parent by
/// index.
#[derive(Debug)]
pub struct Sources {
    nodes: Vec<Source>,
}

impl View for Sources {
    type V = Seq<SourceView>;

    closed spec fn view(&self) -> Seq<SourceView> {
        sources_view(self.nodes@)
    }
}

impl Sources {
    /// The store is a forest.
    pub open spec fn wf(&self) -> bool {
        is_forest(self@)
    }

    /// An empty store.
    pub fn new() -> (store: Sources)
        ensures
            store@ == Seq::<SourceView>::empty(),
            store.wf(),
    {
        let store = Sources { nodes: Vec::new() };
        assert(store@ =~= Seq::<SourceView>::empty());
        store
    }

    /// The number of sources in the store.
    pub fn len(&self) -> (n: usize)
        ensures
            n == self@.len(),
    {
        self.nodes.len()
    }

    /// The source at index `id`.
    pub fn get(&self, id: usize) -> (src: &Source)
        requires
            id < self@.len(),
        ensures
            src@ == self@[id as int],
    {
        &self.nodes[id]
    }

    /// Puts `src` into the store and gives its index.  A source that is of
    /// none of the three sorts, or whose parent is not in the store, is
    /// handed back and the store stays as it was.
    pub fn add(&mut self, src: Source) -> (r: Result<usize, Source>)
        requires
            old(self).wf(),
        ensures
            final(self).wf(),
            match r {
                Ok(id) => {
                    &&& id == old(self)@.len()
                    &&& final(self)@ == old(self)@.push(src@)
                    &&& src@.is_valid()
                    &&& src@.parent matches Some(p) ==> p < old(self)@.len()
                },
                Err(back) => {
                    &&& back == src
                    &&& final(self)@ == old(self)@
                    &&& !(src@.is_valid() && (src@.parent matches Some(p) ==> p < old(self)@.len()))
                },
            },
    {
        let valid = src.is_free() || src.is_bound() || src.is_retval();
        let reachable = match src.parent {
            Some(p) => p < self.nodes.len(),
            None => true,
        };
        if valid && reachable {
            let id = self.nodes.len();
            let ghost added = src@;
            self.nodes.push(src);
            assert(self@ =~= old(self)@.push(added));
            Ok(id)
        } else {
            Err(src)
        }
    }

    /// The name under which source `id` is displayed.
    pub fn name(&self, id: usize) -> (text: String)
        requires
            self.wf(),
            id < self@.len(),
        ensures
            text@ == display_name(self@, id as int),
        decreases id,
    {
        let src = &self.nodes[id];
        assert(self@[id as int] == src@ && self@[id as int].is_valid());
        if src.is_free() {
            return src.name.clone();
        }
        match src.parent {
            Some(p) => self.name(p),
            None => src.fqn.clone(),
        }
    }
}

/// Reads every value from the current state to the last: reads, then
/// advances, until the generator is at its end.  From the first state these
/// are the values of all states, each read once, in the order of
/// enumeration.
pub fn traverse<G: Generator>(g: &mut G) -> (out: Vec<String>)
    requires
        old(g).model().wf(),
        old(g).model().has_value(),
    ensures
        out.len() == old(g).model().count() - old(g).model().rank(),
        forall|k: int|
            0 <= k < out.len() ==> old(g).model().walk(k as nat).admits((#[trigger] out@[k])@),
        final(g).model() == old(g).model().walk((out.len() - 1) as nat),
        final(g).model().at_end(),
        final(g).model().wf(),
{
    let ghost start = g.model();
    let ghost mut steps: nat = 0;
    let mut out: Vec<String> = Vec::new();
    let mut finished = false;
    proof {
        crate::model::lemma_state(start);
    }
    while !finished
        invariant
            start == old(g).model(),
            start.wf(),
            start.has_value(),
            g.model() == start.walk(steps),
            g.model().wf(),
            g.model().has_value(),
            g.model().count() == start.count(),
            g.model().rank() == start.rank() + steps,
            g.model().rank() < start.count(),
            !finished ==> out.len() == steps,
            finished ==> out.len() == steps + 1 && g.model().at_end(),
            forall|k: int| 0 <= k < out.len() ==> start.walk(k as nat).admits((#[trigger] out@[k])@),
        decreases
                start.count() - g.model().rank() + (if finished {
                    0nat
                } else {
                    1nat
                }),
    {
        let value = g.value();
        out.push(value);
        proof {
            crate::model::lemma_state(g.model());
            crate::model::lemma_advance(g.model());
        }
        if g.done() {
            finished = true;
        } else {
            g.next();
            proof {
                steps = steps + 1;
                crate::model::lemma_walk(start, steps);
            }
        }
    }
    proof {
        crate::model::lemma_state(g.model());
    }
    out
}

} // verus!
