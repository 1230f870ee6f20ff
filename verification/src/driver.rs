//! The combination driver: the odometer over the free variables of one
//! function invocation.
//!
//! Every combination assigns one equivalence class to each free variable.
//! The driver is one more odometer layer above the generators of the
//! variables, with the same carry rule: the last variable turns fastest.
use vstd::prelude::*;
use crate::model::{GenState, lemma_advance, lemma_state, lemma_walk};
use crate::variable::{
    AnyGenerator, GenUDT, Generator, models_of, names_of, texts_view, tuple_admits,
};

verus! {

/// The odometer over the generators of the free variables.
#[derive(Debug)]
pub struct Driver {
    /// The generators of the variables, each under its variable's name.
    pub variables: GenUDT,
}

/// The views of a list of combinations.
pub open spec fn combinations_view(out: Seq<Vec<String>>) -> Seq<Seq<Seq<char>>> {
    Seq::new(out.len(), |i: int| texts_view(out[i]@))
}

impl Driver {
    /// A driver over the given generators, each under the name of its
    /// variable.  There must be as many names as generators; otherwise both
    /// lists are handed back.
    pub fn new(names: Vec<String>, generators: Vec<AnyGenerator>) -> (r: Result<
        Driver,
        (Vec<String>, Vec<AnyGenerator>),
    >)
        ensures
            match r {
                Ok(d) => names.len() == generators.len() && d.variables.model() == GenState::Composite(
                    names_of(names@),
                    models_of(generators@),
                ),
                Err(back) => names.len() != generators.len() && back == (names, generators),
            },
    {
        match GenUDT::from_parts(names, generators) {
            Ok(variables) => Ok(Driver { variables }),
            Err(back) => Err(back),
        }
    }

    /// The current combination: the value of every variable, in order.
    pub fn current(&self) -> (values: Vec<String>)
        requires
            self.variables.model().wf(),
            self.variables.model().has_value(),
        ensures
            tuple_admits(self.variables.model(), texts_view(values@)),
    {
        let mut values: Vec<String> = Vec::new();
        let n = self.variables.len();
        let mut i: usize = 0;
        while i < n
            invariant
                self.variables.model().wf(),
                self.variables.model().has_value(),
                self.variables.model() is Composite,
                n == self.variables.model()->Composite_1.len(),
                i <= n,
                values.len() == i,
                forall|k: int|
                    0 <= k < i ==>
                        (#[trigger] self.variables.model()->Composite_1[k]).admits(values@[k]@),
            decreases n - i,
        {
            let member = self.variables.member(i);
            assert(self.variables.model()->Composite_1[i as int].wf());
            assert(self.variables.model()->Composite_1[i as int].has_value());
            values.push(member.value());
            i += 1;
        }
        values
    }

    /// Moves to the next combination.  Does nothing at the last one.
    pub fn advance(&mut self)
        requires
            old(self).variables.model().wf(),
        ensures
            final(self).variables.model() == old(self).variables.model().advance(),
            final(self).variables.model().wf(),
    {
        self.variables.next();
    }

    /// Whether every variable is at its last class.
    pub fn done(&self) -> (r: bool)
        requires
            self.variables.model().wf(),
        ensures
            r == self.variables.model().at_end(),
    {
        self.variables.done()
    }

    /// Goes back to the first combination.
    pub fn reset(&mut self)
        requires
            old(self).variables.model().wf(),
        ensures
            final(self).variables.model() == old(self).variables.model().reset(),
            final(self).variables.model().wf(),
    {
        self.variables.reset();
    }

    /// The number of combinations: the product of the variables' state
    /// counts, or `None` where no machine word can hold it.
    pub fn combinations(&self) -> (n: Option<usize>)
        requires
            self.variables.model().wf(),
        ensures
            match n {
                Some(n) => n == self.variables.model().count(),
                None => self.variables.model().count() > usize::MAX,
            },
    {
        self.variables.checked_n_state()
    }

    /// Emits every combination from the current one to the last, in order:
    /// reads the values, then advances, until every variable is at its
    /// end.  From the first combination these are all of them, each once.
    pub fn run(&mut self) -> (out: Vec<Vec<String>>)
        requires
            old(self).variables.model().wf(),
            old(self).variables.model().has_value(),
        ensures
            out.len() == old(self).variables.model().count() - old(self).variables.model().rank(),
            forall|k: int|
                0 <= k < out.len() ==> tuple_admits(
                    old(self).variables.model().walk(k as nat),
                    #[trigger] combinations_view(out@)[k],
                ),
            final(self).variables.model() == old(self).variables.model().walk((out.len() - 1) as nat),
            final(self).variables.model().at_end(),
            final(self).variables.model().wf(),
    {
        let ghost start = self.variables.model();
        let ghost mut steps: nat = 0;
        let mut out: Vec<Vec<String>> = Vec::new();
        let mut finished = false;
        proof {
            lemma_state(start);
        }
        while !finished
            invariant
                start == old(self).variables.model(),
                start.wf(),
                start.has_value(),
                self.variables.model() == start.walk(steps),
                self.variables.model().wf(),
                self.variables.model().has_value(),
                self.variables.model().count() == start.count(),
                self.variables.model().rank() == start.rank() + steps,
                self.variables.model().rank() < start.count(),
                !finished ==> out.len() == steps,
                finished ==> out.len() == steps + 1 && self.variables.model().at_end(),
                forall|k: int|
                    0 <= k < out.len() ==> tuple_admits(
                        start.walk(k as nat),
                        #[trigger] combinations_view(out@)[k],
                    ),
            decreases
                    start.count() - self.variables.model().rank() + (if finished {
                        0nat
                    } else {
                        1nat
                    }),
        {
            let values = self.current();
            let ghost before = combinations_view(out@);
            out.push(values);
            proof {
                let after = combinations_view(out@);
                assert forall|k: int| 0 <= k < out.len() implies tuple_admits(
                    start.walk(k as nat),
                    #[trigger] after[k],
                ) by {
                    if k < out.len() - 1 {
                        assert(after[k] == before[k]);
                    }
                }
                lemma_state(self.variables.model());
                lemma_advance(self.variables.model());
            }
            if self.done() {
                finished = true;
            } else {
                self.advance();
                proof {
                    steps = steps + 1;
                    lemma_walk(start, steps);
                }
            }
        }
        proof {
            lemma_state(self.variables.model());
        }
        out
    }
}

} // verus!
