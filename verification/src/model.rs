//! The mathematical model of a generator: a cursor over a finite, ordered
//! space of states.
//!
//! A primitive generator is a catalog kind with a class index.  A composite
//! generator is an odometer whose wheels are its members' generators, the
//! first member most significant.  The executable generators are verified
//! against the functions of this module, and the laws of enumeration are
//! proved here once, for every generator.
use vstd::prelude::*;
use crate::odometer::{
    all_last, all_positive, is_reading, lemma_product_positive, lemma_rank_bound,
    lemma_rank_injective, lemma_rank_last, lemma_rank_lexicographic, lemma_step, lex_less, pivot,
    product, rank, step,
};
use crate::decimal::natural_text;
use crate::tc::Kind;

verus! {

/// The state of a generator.
pub enum GenState {
    /// The generator of a variable that takes no generated value.
    Nothing,
    /// The generator of a value that only the API itself can make, with the
    /// name of its type.
    Opaque(Seq<char>),
    /// A primitive generator: a catalog kind and the index of the current
    /// class.
    Class(Kind, nat),
    /// A composite generator: the names of the members and the members'
    /// generators, in declaration order.
    Composite(Seq<Seq<char>>, Seq<GenState>),
}

/// The state counts of a list of generators.
pub open spec fn counts_of(fields: Seq<GenState>) -> Seq<nat>
    decreases fields,
{
    Seq::new(
        fields.len(),
        |i: int|
            if 0 <= i < fields.len() {
                fields[i].count()
            } else {
                1
            },
    )
}

/// The ranks of a list of generators.
pub open spec fn ranks_of(fields: Seq<GenState>) -> Seq<nat>
    decreases fields,
{
    Seq::new(
        fields.len(),
        |i: int|
            if 0 <= i < fields.len() {
                fields[i].rank()
            } else {
                0
            },
    )
}

/// The values of a list of generators in fixed states.
pub open spec fn texts_of(fields: Seq<GenState>) -> Seq<Seq<char>>
    decreases fields,
{
    Seq::new(
        fields.len(),
        |i: int|
            if 0 <= i < fields.len() {
                fields[i].text()
            } else {
                Seq::empty()
            },
    )
}

/// The rightmost generator of a list that is not at its end, or -1 when
/// all of them are.
pub open spec fn last_unfinished(fields: Seq<GenState>) -> int
    decreases fields.len(),
{
    if fields.len() == 0 {
        -1
    } else if !fields.last().at_end() {
        fields.len() - 1
    } else {
        last_unfinished(fields.drop_last())
    }
}

/// The text of one member of an aggregate literal.
pub open spec fn member_text(name: Seq<char>, value: Seq<char>) -> Seq<char> {
    "\t\t."@ + name + " = "@ + value + ",\n"@
}

/// The texts of the members of an aggregate literal, one after the other.
pub open spec fn members_text(names: Seq<Seq<char>>, values: Seq<Seq<char>>) -> Seq<char>
    decreases values.len(),
{
    if values.len() == 0 {
        Seq::empty()
    } else {
        members_text(names.drop_last(), values.drop_last()) + member_text(
            names.last(),
            values.last(),
        )
    }
}

/// An aggregate literal: every member's value tagged with the member's
/// name, in declaration order, between braces.
pub open spec fn aggregate_text(names: Seq<Seq<char>>, values: Seq<Seq<char>>) -> Seq<char> {
    "{\n"@ + members_text(names, values) + "\t}"@
}

/// Where a primitive generator stands: its kind, the index of its class
/// and the number of its classes.
pub open spec fn class_summary(label: Seq<char>, idx: nat, count: nat) -> Seq<char> {
    label + "{"@ + natural_text(idx) + " of "@ + natural_text(count) + "}"@
}

/// Where the first `n` of a list of generators stand, each after the
/// number of its place, with a comma between one and the next.
pub open spec fn summaries(fields: Seq<GenState>, n: nat) -> Seq<char>
    decreases fields, n,
{
    if n == 0 || n > fields.len() {
        Seq::empty()
    } else {
        summaries(fields, (n - 1) as nat) + (if n > 1 {
            ", "@
        } else {
            Seq::empty()
        }) + "f"@ + natural_text((n - 1) as nat) + ":"@ + fields[n - 1].summary()
    }
}

/// The text that stands for a value which cannot be generated.
pub open spec fn opaque_text(ty: Seq<char>) -> Seq<char> {
    "/*("@ + ty + ")*/{}"@
}

impl GenState {
    /// The state is valid: a class index is below the kind's class count,
    /// and a composite has one name for each member.
    pub open spec fn wf(self) -> bool
        decreases self,
    {
        match self {
            GenState::Nothing => true,
            GenState::Opaque(_) => true,
            GenState::Class(kind, idx) => kind.wf() && idx < kind.count(),
            GenState::Composite(names, fields) => names.len() == fields.len() && forall|i: int|
                0 <= i < fields.len() ==> (#[trigger] fields[i]).wf(),
        }
    }

    /// The number of states.  For a composite, the product of the members'
    /// state counts.
    pub open spec fn count(self) -> nat
        decreases self,
    {
        match self {
            GenState::Nothing => 1,
            GenState::Opaque(_) => 1,
            GenState::Class(kind, _) => kind.count(),
            GenState::Composite(_, fields) => product(counts_of(fields)),
        }
    }

    /// The position of the state in the order of enumeration, counted from
    /// zero.  For a composite, the lexicographic rank of its members' ranks,
    /// first member most significant.
    pub open spec fn rank(self) -> nat
        decreases self,
    {
        match self {
            GenState::Nothing => 0,
            GenState::Opaque(_) => 0,
            GenState::Class(_, idx) => idx,
            GenState::Composite(_, fields) => rank(counts_of(fields), ranks_of(fields)),
        }
    }

    /// The generator is at its last state.  For a composite, every member
    /// is.
    pub open spec fn at_end(self) -> bool
        decreases self,
    {
        match self {
            GenState::Nothing => true,
            GenState::Opaque(_) => true,
            GenState::Class(kind, idx) => idx + 1 == kind.count(),
            GenState::Composite(_, fields) => forall|i: int|
                0 <= i < fields.len() ==> (#[trigger] fields[i]).at_end(),
        }
    }

    /// The first state of the same generator.
    pub open spec fn reset(self) -> GenState
        decreases self,
    {
        match self {
            GenState::Nothing => self,
            GenState::Opaque(_) => self,
            GenState::Class(kind, _) => GenState::Class(kind, 0),
            GenState::Composite(names, fields) => GenState::Composite(
                names,
                Seq::new(
                    fields.len(),
                    |i: int|
                        if 0 <= i < fields.len() {
                            fields[i].reset()
                        } else {
                            GenState::Nothing
                        },
                ),
            ),
        }
    }

    /// The next state.  A primitive generator moves to the next class.  In
    /// a composite, the rightmost member that is not at its end advances and
    /// every member to its right is reset.  At the end nothing changes.
    pub open spec fn advance(self) -> GenState
        decreases self,
    {
        match self {
            GenState::Nothing => self,
            GenState::Opaque(_) => self,
            GenState::Class(kind, idx) => if idx + 1 < kind.count() {
                GenState::Class(kind, idx + 1)
            } else {
                self
            },
            GenState::Composite(names, fields) => {
                let p = last_unfinished(fields);
                if p < 0 {
                    self
                } else {
                    GenState::Composite(
                        names,
                        Seq::new(
                            fields.len(),
                            |i: int|
                                if 0 <= i < fields.len() {
                                    if i < p {
                                        fields[i]
                                    } else if i == p {
                                        fields[i].advance()
                                    } else {
                                        fields[i].reset()
                                    }
                                } else {
                                    GenState::Nothing
                                },
                        ),
                    )
                }
            },
        }
    }

    /// The generator has a value to give.  Only the generator of a variable
    /// that takes no generated value has none.
    pub open spec fn has_value(self) -> bool
        decreases self,
    {
        match self {
            GenState::Nothing => false,
            GenState::Opaque(_) => true,
            GenState::Class(_, _) => true,
            GenState::Composite(_, fields) => forall|i: int|
                0 <= i < fields.len() ==> (#[trigger] fields[i]).has_value(),
        }
    }

    /// Reading the value gives the same text every time: no class that is
    /// drawn at random is involved.
    pub open spec fn is_fixed(self) -> bool
        decreases self,
    {
        match self {
            GenState::Nothing => true,
            GenState::Opaque(_) => true,
            GenState::Class(kind, idx) => kind.is_fixed(idx),
            GenState::Composite(_, fields) => forall|i: int|
                0 <= i < fields.len() ==> (#[trigger] fields[i]).is_fixed(),
        }
    }

    /// The value of a fixed state.
    pub open spec fn text(self) -> Seq<char>
        decreases self,
    {
        match self {
            GenState::Nothing => Seq::empty(),
            GenState::Opaque(ty) => opaque_text(ty),
            GenState::Class(kind, idx) => kind.text(idx),
            GenState::Composite(names, fields) => aggregate_text(names, texts_of(fields)),
        }
    }

    /// `text` is a value of the state: a literal of the current class, or
    /// the aggregate literal of values of the members.
    pub open spec fn admits(self, text: Seq<char>) -> bool
        decreases self,
    {
        match self {
            GenState::Nothing => false,
            GenState::Opaque(ty) => text == opaque_text(ty),
            GenState::Class(kind, idx) => kind.admits(idx, text),
            GenState::Composite(names, fields) => exists|values: Seq<Seq<char>>|
                #![trigger aggregate_text(names, values)]
                values.len() == fields.len() && (forall|i: int|
                    0 <= i < fields.len() ==> (#[trigger] fields[i]).admits(values[i])) && text
                    == aggregate_text(names, values),
        }
    }

    /// Where the generator stands, for a person to read.
    pub open spec fn summary(self) -> Seq<char>
        decreases self, 0nat,
    {
        match self {
            GenState::Nothing => "(none)"@,
            GenState::Opaque(_) => "(opaque-none)"@,
            GenState::Class(kind, idx) => class_summary(kind.label(), idx, kind.count()),
            GenState::Composite(_, fields) => "udt{"@ + summaries(fields, fields.len()) + "}"@,
        }
    }

    /// The state after `steps` advances.
    pub open spec fn walk(self, steps: nat) -> GenState
        decreases steps,
    {
        if steps == 0 {
            self
        } else {
            self.walk((steps - 1) as nat).advance()
        }
    }
}

/// The wheels of a valid composite: every member has a state, its rank is
/// below its state count, and it is at its end exactly at its last rank.
pub proof fn lemma_state(s: GenState)
    requires
        s.wf(),
    ensures
        s.count() >= 1,
        s.rank() < s.count(),
        s.at_end() <==> s.rank() + 1 == s.count(),
    decreases s,
{
    match s {
        GenState::Composite(_, fields) => {
            lemma_members(fields);
            let cs = counts_of(fields);
            let rs = ranks_of(fields);
            lemma_product_positive(cs);
            lemma_rank_bound(cs, rs);
            lemma_rank_last(cs, rs);
        },
        _ => {},
    }
}

/// The members of a valid composite, read as an odometer.
pub proof fn lemma_members(fields: Seq<GenState>)
    requires
        forall|i: int| 0 <= i < fields.len() ==> (#[trigger] fields[i]).wf(),
    ensures
        all_positive(counts_of(fields)),
        is_reading(counts_of(fields), ranks_of(fields)),
        all_last(counts_of(fields), ranks_of(fields)) <==> (forall|i: int|
            0 <= i < fields.len() ==> (#[trigger] fields[i]).at_end()),
        pivot(counts_of(fields), ranks_of(fields)) == last_unfinished(fields),
    decreases fields, 1nat,
{
    let cs = counts_of(fields);
    let rs = ranks_of(fields);
    assert forall|i: int| 0 <= i < fields.len() implies cs[i] >= 1 && rs[i] < cs[i] && (
    fields[i].at_end() <==> rs[i] + 1 == cs[i]) by {
        lemma_state(fields[i]);
    }
    if all_last(cs, rs) {
        assert forall|i: int| 0 <= i < fields.len() implies (#[trigger] fields[i]).at_end() by {
            assert(rs[i] + 1 == cs[i]);
        }
    }
    lemma_pivot_members(fields, fields.len() as int);
    assert(fields.take(fields.len() as int) =~= fields);
    assert(cs.take(fields.len() as int) =~= cs);
    assert(rs.take(fields.len() as int) =~= rs);
}

/// The pivot of the first `n` wheels is the last unfinished of the first
/// `n` members.
proof fn lemma_pivot_members(fields: Seq<GenState>, n: int)
    requires
        0 <= n <= fields.len(),
        forall|i: int|
            0 <= i < fields.len() ==> ((#[trigger] fields[i]).at_end() <==> ranks_of(fields)[i] + 1
                == counts_of(fields)[i]),
    ensures
        pivot(counts_of(fields).take(n), ranks_of(fields).take(n)) == last_unfinished(
            fields.take(n),
        ),
    decreases n,
{
    if n > 0 {
        lemma_pivot_members(fields, n - 1);
        let f = fields.take(n);
        let cs = counts_of(fields).take(n);
        let rs = ranks_of(fields).take(n);
        assert(f.drop_last() =~= fields.take(n - 1));
        assert(cs.drop_last() =~= counts_of(fields).take(n - 1));
        assert(rs.drop_last() =~= ranks_of(fields).take(n - 1));
        assert(f.last() == fields[n - 1]);
    }
}

/// The number of states of a composite is the product of the numbers of
/// states of its members.
pub proof fn lemma_composite_count(names: Seq<Seq<char>>, fields: Seq<GenState>)
    ensures
        GenState::Composite(names, fields).count() == product(counts_of(fields)),
        counts_of(fields).len() == fields.len(),
        forall|i: int| 0 <= i < fields.len() ==> counts_of(fields)[i] == (#[trigger] fields[i]).count(),
{
}

/// An odometer whose wheels all show zero has rank zero.
proof fn lemma_rank_zero(counts: Seq<nat>, digits: Seq<nat>)
    requires
        counts.len() == digits.len(),
        forall|i: int| 0 <= i < digits.len() ==> digits[i] == 0,
    ensures
        rank(counts, digits) == 0,
    decreases counts.len(),
{
    if counts.len() > 0 {
        lemma_rank_zero(counts.drop_last(), digits.drop_last());
        let c = counts.last();
        assert(0 * c == 0) by (nonlinear_arith);
    }
}

/// Resetting gives a valid state of rank zero, with the same number of
/// states, that a second reset leaves as it is; its value is fixed.
pub proof fn lemma_reset(s: GenState)
    requires
        s.wf(),
    ensures
        s.reset().wf(),
        s.reset().count() == s.count(),
        s.reset().rank() == 0,
        s.reset().reset() == s.reset(),
        s.reset().is_fixed(),
        s.reset().has_value() == s.has_value(),
        s.rank() == 0 ==> s.reset() == s,
    decreases s,
{
    match s {
        GenState::Composite(names, fields) => {
            let zeroed = s.reset()->Composite_1;
            assert forall|i: int| 0 <= i < fields.len() implies (#[trigger] zeroed[i]).wf()
                && zeroed[i].count() == fields[i].count() && zeroed[i].rank() == 0
                && zeroed[i].reset() == zeroed[i] && zeroed[i].is_fixed() && zeroed[i].has_value()
                == fields[i].has_value() && (fields[i].rank() == 0 ==> zeroed[i] == fields[i]) by {
                lemma_reset(fields[i]);
            }
            assert(counts_of(zeroed) =~= counts_of(fields));
            lemma_rank_zero(counts_of(zeroed), ranks_of(zeroed));
            assert(s.reset().reset()->Composite_1 =~= zeroed);
            if s.has_value() {
                assert forall|i: int| 0 <= i < zeroed.len() implies
                    (#[trigger] zeroed[i]).has_value() by {
                    assert(fields[i].has_value());
                }
            }
            if s.reset().has_value() {
                assert forall|i: int| 0 <= i < fields.len() implies
                    (#[trigger] fields[i]).has_value() by {
                    assert(zeroed[i].has_value());
                }
            }
            if s.rank() == 0 {
                lemma_members(fields);
                lemma_members(zeroed);
                lemma_rank_injective(counts_of(fields), ranks_of(fields), ranks_of(zeroed));
                assert forall|i: int| 0 <= i < fields.len() implies zeroed[i] == fields[i] by {
                    assert(ranks_of(fields)[i] == ranks_of(zeroed)[i]);
                }
                assert(zeroed =~= fields);
            }
        },
        _ => {},
    }
}

/// Where the rightmost unfinished member stands.
pub proof fn lemma_last_unfinished(fields: Seq<GenState>)
    ensures
        -1 <= last_unfinished(fields) < fields.len(),
        last_unfinished(fields) >= 0 ==> !fields[last_unfinished(fields)].at_end(),
        forall|i: int|
            last_unfinished(fields) < i < fields.len() ==> (#[trigger] fields[i]).at_end(),
    decreases fields.len(),
{
    if fields.len() > 0 && fields.last().at_end() {
        let front = fields.drop_last();
        lemma_last_unfinished(front);
        assert forall|i: int| last_unfinished(fields) < i < fields.len() implies (
        #[trigger] fields[i]).at_end() by {
            if i < front.len() {
                assert(front[i].at_end());
            }
        }
    }
}

/// Advancing keeps the generator and moves one rank up; at the end it
/// changes nothing.
pub proof fn lemma_advance(s: GenState)
    requires
        s.wf(),
    ensures
        s.advance().wf(),
        s.advance().count() == s.count(),
        s.advance().reset() == s.reset(),
        s.advance().has_value() == s.has_value(),
        s.at_end() ==> s.advance() == s,
        !s.at_end() ==> s.advance().rank() == s.rank() + 1,
    decreases s,
{
    match s {
        GenState::Composite(names, fields) => {
            lemma_members(fields);
            lemma_last_unfinished(fields);
            let p = last_unfinished(fields);
            let cs = counts_of(fields);
            let rs = ranks_of(fields);
            lemma_rank_last(cs, rs);
            lemma_step(cs, rs);
            if p >= 0 {
                let moved = s.advance()->Composite_1;
                assert forall|i: int| 0 <= i < fields.len() implies (#[trigger] moved[i]).wf()
                    && moved[i].count() == fields[i].count() && moved[i].reset()
                    == fields[i].reset() && moved[i].rank() == step(cs, rs)[i]
                    && moved[i].has_value() == fields[i].has_value() by {
                    lemma_advance(fields[i]);
                    lemma_reset(fields[i]);
                }
                assert(counts_of(moved) =~= cs);
                assert(ranks_of(moved) =~= step(cs, rs));
                assert(s.advance().reset()->Composite_1 =~= s.reset()->Composite_1);
                assert(!s.at_end());
                if s.has_value() {
                    assert forall|i: int| 0 <= i < moved.len() implies
                        (#[trigger] moved[i]).has_value() by {
                        assert(fields[i].has_value());
                    }
                }
                if s.advance().has_value() {
                    assert forall|i: int| 0 <= i < fields.len() implies
                        (#[trigger] fields[i]).has_value() by {
                        assert(moved[i].has_value());
                    }
                }
            }
        },
        _ => {},
    }
}

/// Two states of one generator that have the same rank are the same state:
/// the rank determines every member's index.
pub proof fn lemma_rank_determines_state(a: GenState, b: GenState)
    requires
        a.wf(),
        b.wf(),
        a.reset() == b.reset(),
        a.rank() == b.rank(),
    ensures
        a == b,
    decreases a,
{
    match a {
        GenState::Composite(names, fields) => {
            let others = b->Composite_1;
            let za = a.reset()->Composite_1;
            let zb = b.reset()->Composite_1;
            assert(za.len() == fields.len());
            assert(zb.len() == others.len());
            lemma_members(fields);
            lemma_members(others);
            assert forall|i: int| 0 <= i < fields.len() implies fields[i].count()
                == others[i].count() && fields[i].reset() == others[i].reset() by {
                lemma_reset(fields[i]);
                lemma_reset(others[i]);
                assert(za[i] == fields[i].reset());
                assert(zb[i] == others[i].reset());
            }
            assert(counts_of(fields) =~= counts_of(others));
            lemma_rank_injective(counts_of(fields), ranks_of(fields), ranks_of(others));
            assert forall|i: int| 0 <= i < fields.len() implies fields[i] == others[i] by {
                assert(ranks_of(fields)[i] == ranks_of(others)[i]);
                lemma_rank_determines_state(fields[i], others[i]);
            }
            assert(fields =~= others);
        },
        _ => {},
    }
}

/// Two states of one composite have their members' numbers of states in
/// common.
proof fn lemma_same_counts(a: GenState, b: GenState)
    requires
        a.wf(),
        b.wf(),
        a is Composite,
        a.reset() == b.reset(),
    ensures
        b is Composite,
        counts_of(a->Composite_1) == counts_of(b->Composite_1),
{
    let fields = a->Composite_1;
    let others = b->Composite_1;
    let za = a.reset()->Composite_1;
    let zb = b.reset()->Composite_1;
    assert(za.len() == fields.len());
    assert(zb.len() == others.len());
    assert forall|i: int| 0 <= i < fields.len() implies fields[i].count() == others[i].count() by {
        lemma_reset(fields[i]);
        lemma_reset(others[i]);
        assert(za[i] == fields[i].reset());
        assert(zb[i] == others[i].reset());
    }
    assert(counts_of(fields) =~= counts_of(others));
}

/// The order of enumeration of a composite is the lexicographic order of
/// its members' ranks, first member most significant: of two states, the
/// one whose members' ranks come first in that order is enumerated first.
pub proof fn lemma_lexicographic_order(a: GenState, b: GenState)
    requires
        a.wf(),
        b.wf(),
        a is Composite,
        a.reset() == b.reset(),
        lex_less(ranks_of(a->Composite_1), ranks_of(b->Composite_1)),
    ensures
        a.rank() < b.rank(),
{
    lemma_same_counts(a, b);
    lemma_members(a->Composite_1);
    lemma_members(b->Composite_1);
    lemma_rank_lexicographic(
        counts_of(a->Composite_1),
        ranks_of(a->Composite_1),
        ranks_of(b->Composite_1),
    );
}

/// After `steps` advances the rank has grown by `steps`, but not beyond the
/// last rank.
pub proof fn lemma_walk(s: GenState, steps: nat)
    requires
        s.wf(),
    ensures
        s.walk(steps).wf(),
        s.walk(steps).count() == s.count(),
        s.walk(steps).reset() == s.reset(),
        s.walk(steps).has_value() == s.has_value(),
        s.walk(steps).rank() == if s.rank() + steps < s.count() {
            s.rank() + steps
        } else {
            (s.count() - 1) as nat
        },
    decreases steps,
{
    lemma_state(s);
    if steps > 0 {
        let before = s.walk((steps - 1) as nat);
        lemma_walk(s, (steps - 1) as nat);
        lemma_state(before);
        lemma_advance(before);
    }
}

/// Enumeration visits every state exactly once.  From a state of rank zero,
/// reading and then advancing gives the state of rank `k` at the `k`-th
/// reading, for every rank below the number of states; the generator is at
/// its end exactly at the last of these readings; and no two of the readings
/// find the same state.
pub proof fn lemma_enumerates_each_state_once(s: GenState, j: nat, k: nat)
    requires
        s.wf(),
        s.rank() == 0,
        j < k < s.count(),
    ensures
        s.walk(k).rank() == k,
        s.walk(k).at_end() <==> k + 1 == s.count(),
        s.walk(j) != s.walk(k),
{
    lemma_walk(s, j);
    lemma_walk(s, k);
    lemma_state(s.walk(k));
}

/// Advancing at the end is a no-op, however often it is done.
pub proof fn lemma_advance_at_end(s: GenState, steps: nat)
    requires
        s.wf(),
        s.at_end(),
    ensures
        s.advance() == s,
        s.walk(steps) == s,
    decreases steps,
{
    lemma_advance(s);
    if steps > 0 {
        lemma_advance_at_end(s, (steps - 1) as nat);
    }
}

/// A reset brings back the first state, wherever the generator has got to:
/// the state, and hence the value, is the one that a reset gave before.
pub proof fn lemma_reset_restores(s: GenState, steps: nat)
    requires
        s.wf(),
    ensures
        s.walk(steps).reset() == s.reset(),
        s.rank() == 0 ==> s.walk(steps).reset() == s,
        s.reset().is_fixed(),
{
    lemma_walk(s, steps);
    lemma_reset(s);
}

/// A fixed state has exactly one value.
pub proof fn lemma_fixed_value(s: GenState, text: Seq<char>)
    requires
        s.wf(),
        s.has_value(),
        s.is_fixed(),
    ensures
        s.admits(text) <==> text == s.text(),
    decreases s,
{
    match s {
        GenState::Composite(names, fields) => {
            let texts = texts_of(fields);
            assert forall|i: int| 0 <= i < fields.len() implies (#[trigger] fields[i]).admits(
                texts[i],
            ) by {
                lemma_fixed_value(fields[i], texts[i]);
            }
            if s.admits(text) {
                let values = choose|values: Seq<Seq<char>>|
                    #![trigger aggregate_text(names, values)]
                    values.len() == fields.len() && (forall|i: int|
                        0 <= i < fields.len() ==> (#[trigger] fields[i]).admits(values[i])) && text
                        == aggregate_text(names, values);
                assert forall|i: int| 0 <= i < fields.len() implies values[i] == texts[i] by {
                    lemma_fixed_value(fields[i], values[i]);
                }
                assert(values =~= texts);
            }
            if text == s.text() {
                assert(text == aggregate_text(names, texts));
            }
        },
        _ => {},
    }
}

} // verus!
