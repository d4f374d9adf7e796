//! How one step is cut into substeps.
//!
//! A step of duration `dt` is advanced in one piece unless continuous
//! collision detection is active. When it is, each iteration of the stepping
//! loop asks for the earliest time of impact within what is left of the step
//! and takes a slice that reaches just past it. Whatever the answers are, the
//! slices add up to `dt`.

use vstd::prelude::*;

verus! {

/// What is left of the current step: the state of the substep loop.
#[derive(Copy, Clone, Debug, PartialEq, Eq, Structural)]
pub struct SubstepBudget {
    /// Ticks of the step that no substep has covered yet.
    pub remaining_time: u64,
    /// Substeps that may still be taken, the next one included.
    pub remaining_substeps: usize,
}

/// The smaller of two durations.
pub open spec fn earlier(a: u64, b: u64) -> u64 {
    if a < b {
        a
    } else {
        b
    }
}

impl SubstepBudget {
    /// Whether the next substep is cut short of the rest of the step: only
    /// then is the earliest impact looked for.
    pub open spec fn splits(self, ccd_active: bool) -> bool {
        ccd_active && self.remaining_substeps > 1
    }

    /// Length of the slice before the remainder is looked at: an even share of
    /// what is left when the impact comes sooner than that, else the time of
    /// impact and an even share of what follows it. An impact reported beyond
    /// the end of the step counts as one at its end.
    pub open spec fn slice(self, toi: u64) -> u64 {
        let uniform = self.remaining_time / (self.remaining_substeps as u64);
        let impact = earlier(toi, self.remaining_time);
        if impact < uniform {
            uniform
        } else {
            (impact + (self.remaining_time - impact) as u64 / (self.remaining_substeps as u64)) as u64
        }
    }

    /// Length of the next substep before a short remainder is folded into it.
    pub open spec fn unfolded_length(self, ccd_active: bool, toi: Option<u64>) -> u64 {
        if self.splits(ccd_active) && toi is Some {
            self.slice(toi->Some_0)
        } else {
            self.remaining_time
        }
    }

    /// Whether what the next substep leaves over is too short to stand alone.
    pub open spec fn folds(self, ccd_active: bool, toi: Option<u64>, min_ccd_dt: u64) -> bool {
        self.splits(ccd_active) && self.remaining_time - self.unfolded_length(ccd_active, toi)
            < min_ccd_dt
    }

    /// Length of the next substep.
    pub open spec fn next_length(self, ccd_active: bool, toi: Option<u64>, min_ccd_dt: u64) -> u64 {
        if self.folds(ccd_active, toi, min_ccd_dt) {
            self.remaining_time
        } else {
            self.unfolded_length(ccd_active, toi)
        }
    }

    /// The budget once the next substep has been planned.
    pub open spec fn after(self, ccd_active: bool, toi: Option<u64>, min_ccd_dt: u64)
        -> SubstepBudget {
        SubstepBudget {
            remaining_time: if self.folds(ccd_active, toi, min_ccd_dt) {
                0
            } else {
                (self.remaining_time - self.unfolded_length(ccd_active, toi)) as u64
            },
            remaining_substeps: if self.splits(ccd_active) && toi is Some && !self.folds(
                ccd_active,
                toi,
                min_ccd_dt,
            ) {
                (self.remaining_substeps - 1) as usize
            } else {
                1
            },
        }
    }

    /// Whether the substep just planned is the last of the step: it is when
    /// the step is not being split, or when no time is left to cover.
    pub open spec fn exhausted(self, ccd_active: bool) -> bool {
        !ccd_active || self.remaining_time == 0
    }

    /// The budget at the start of a step.
    pub fn new(dt: u64, max_ccd_substeps: usize) -> (budget: SubstepBudget)
        ensures
            budget == (SubstepBudget {
                remaining_time: dt,
                remaining_substeps: max_ccd_substeps,
            }),
    {
        SubstepBudget { remaining_time: dt, remaining_substeps: max_ccd_substeps }
    }

    /// Whether the earliest impact has to be looked for before the next
    /// substep is planned.
    pub fn needs_impact(&self, ccd_active: bool) -> (needed: bool)
        ensures
            needed == self.splits(ccd_active),
    {
        ccd_active && self.remaining_substeps > 1
    }

    /// Plans the next substep and returns its length. `toi` is the earliest
    /// time of impact within the remaining time, if one was looked for and
    /// found.
    pub fn plan(&mut self, ccd_active: bool, toi: Option<u64>, min_ccd_dt: u64) -> (dt: u64)
        ensures
            dt == old(self).next_length(ccd_active, toi, min_ccd_dt),
            *final(self) == old(self).after(ccd_active, toi, min_ccd_dt),
    {
        if ccd_active && self.remaining_substeps > 1 {
            let mut dt: u64;
            let mut substeps: usize;
            match toi {
                Some(toi) => {
                    let count: u64 = self.remaining_substeps as u64;
                    let uniform: u64 = self.remaining_time / count;
                    let impact: u64 = if toi < self.remaining_time {
                        toi
                    } else {
                        self.remaining_time
                    };
                    if impact < uniform {
                        dt = uniform;
                    } else {
                        dt = impact + (self.remaining_time - impact) / count;
                    }
                    substeps = self.remaining_substeps - 1;
                },
                None => {
                    dt = self.remaining_time;
                    substeps = 1;
                },
            }
            proof {
                lemma_slice_fits(*self, ccd_active, toi);
            }
            let mut left: u64 = self.remaining_time - dt;
            if left < min_ccd_dt {
                dt = dt + left;
                left = 0;
                substeps = 1;
            }
            self.remaining_time = left;
            self.remaining_substeps = substeps;
            dt
        } else {
            let dt: u64 = self.remaining_time;
            self.remaining_time = 0;
            self.remaining_substeps = 1;
            dt
        }
    }

    /// Whether the stepping loop ends after the substep just planned.
    pub fn is_exhausted(&self, ccd_active: bool) -> (done: bool)
        ensures
            done == self.exhausted(ccd_active),
    {
        !ccd_active || self.remaining_time == 0
    }
}

/// A substep never reaches beyond the end of the step.
pub proof fn lemma_slice_fits(budget: SubstepBudget, ccd_active: bool, toi: Option<u64>)
    ensures
        budget.unfolded_length(ccd_active, toi) <= budget.remaining_time,
{
    if budget.splits(ccd_active) && toi is Some {
        let n = budget.remaining_substeps as u64;
        let rem = budget.remaining_time;
        let impact = earlier(toi->Some_0, rem);
        assert(rem / n <= rem) by (nonlinear_arith)
            requires
                n >= 1,
        ;
        assert((rem - impact) as u64 / n <= rem - impact) by (nonlinear_arith)
            requires
                n >= 1,
                impact <= rem,
        ;
    }
}

/// Sum of a sequence of durations.
pub open spec fn total(lengths: Seq<u64>) -> int
    decreases lengths.len(),
{
    if lengths.len() == 0 {
        0
    } else {
        total(lengths.drop_last()) + lengths.last()
    }
}

/// The budget once a substep has been planned for each of `answers`, the
/// answers of the searches for an impact, in their order.
pub open spec fn budget_after(
    initial: SubstepBudget,
    ccd_active: bool,
    answers: Seq<Option<u64>>,
    min_ccd_dt: u64,
) -> SubstepBudget
    decreases answers.len(),
{
    if answers.len() == 0 {
        initial
    } else {
        budget_after(initial, ccd_active, answers.drop_last(), min_ccd_dt).after(
            ccd_active,
            answers.last(),
            min_ccd_dt,
        )
    }
}

/// The lengths of the substeps that are planned when the searches for an
/// impact answer `answers`, one substep for each answer.
pub open spec fn lengths_of(
    initial: SubstepBudget,
    ccd_active: bool,
    answers: Seq<Option<u64>>,
    min_ccd_dt: u64,
) -> Seq<u64>
    decreases answers.len(),
{
    if answers.len() == 0 {
        Seq::empty()
    } else {
        lengths_of(initial, ccd_active, answers.drop_last(), min_ccd_dt).push(
            budget_after(initial, ccd_active, answers.drop_last(), min_ccd_dt).next_length(
                ccd_active,
                answers.last(),
                min_ccd_dt,
            ),
        )
    }
}

/// Whether the stepping loop goes on after the first `k` substeps.
pub open spec fn goes_on(
    initial: SubstepBudget,
    ccd_active: bool,
    answers: Seq<Option<u64>>,
    min_ccd_dt: u64,
    k: int,
) -> bool {
    !budget_after(initial, ccd_active, answers.take(k), min_ccd_dt).exhausted(ccd_active)
}

/// Whether `answers` are the answers of one whole step: there is one answer
/// for each substep, the loop goes on after each substep but the last, and
/// ends after the last.
pub open spec fn whole_step(
    initial: SubstepBudget,
    ccd_active: bool,
    answers: Seq<Option<u64>>,
    min_ccd_dt: u64,
) -> bool {
    &&& answers.len() >= 1
    &&& budget_after(initial, ccd_active, answers, min_ccd_dt).exhausted(ccd_active)
    &&& forall|k: int| 1 <= k < answers.len() ==> #[trigger] goes_on(initial, ccd_active, answers, min_ccd_dt, k)
}

/// What the substeps cover and what is left of the step add up to the step.
pub proof fn lemma_plan_conserves_time(
    initial: SubstepBudget,
    ccd_active: bool,
    answers: Seq<Option<u64>>,
    min_ccd_dt: u64,
)
    ensures
        lengths_of(initial, ccd_active, answers, min_ccd_dt).len() == answers.len(),
        total(lengths_of(initial, ccd_active, answers, min_ccd_dt)) + budget_after(
            initial,
            ccd_active,
            answers,
            min_ccd_dt,
        ).remaining_time == initial.remaining_time,
    decreases answers.len(),
{
    if answers.len() > 0 {
        let before = budget_after(initial, ccd_active, answers.drop_last(), min_ccd_dt);
        lemma_plan_conserves_time(initial, ccd_active, answers.drop_last(), min_ccd_dt);
        lemma_slice_fits(before, ccd_active, answers.last());
        let lengths = lengths_of(initial, ccd_active, answers, min_ccd_dt);
        assert(lengths.drop_last() =~= lengths_of(initial, ccd_active, answers.drop_last(), min_ccd_dt));
    }
}

/// Time conservation. Whatever the searches for an impact answer, the
/// substeps of one whole step add up to the duration of the step.
pub proof fn lemma_substeps_conserve_time(
    initial: SubstepBudget,
    ccd_active: bool,
    answers: Seq<Option<u64>>,
    min_ccd_dt: u64,
)
    requires
        whole_step(initial, ccd_active, answers, min_ccd_dt),
    ensures
        total(lengths_of(initial, ccd_active, answers, min_ccd_dt)) == initial.remaining_time,
{
    lemma_plan_conserves_time(initial, ccd_active, answers, min_ccd_dt);
    let before = budget_after(initial, ccd_active, answers.drop_last(), min_ccd_dt);
    lemma_slice_fits(before, ccd_active, answers.last());
}

/// Without continuous collision detection, or with at most one substep
/// allowed, a step is advanced in exactly one substep, of the step's length.
pub proof fn lemma_single_substep(
    initial: SubstepBudget,
    ccd_active: bool,
    answers: Seq<Option<u64>>,
    min_ccd_dt: u64,
)
    requires
        whole_step(initial, ccd_active, answers, min_ccd_dt),
        !ccd_active || initial.remaining_substeps <= 1,
    ensures
        lengths_of(initial, ccd_active, answers, min_ccd_dt) == seq![initial.remaining_time],
{
    if answers.len() >= 2 {
        assert(goes_on(initial, ccd_active, answers, min_ccd_dt, 1));
        let first = answers.take(1);
        assert(first.drop_last() =~= Seq::<Option<u64>>::empty());
        assert(budget_after(initial, ccd_active, first.drop_last(), min_ccd_dt) == initial);
    }
    assert(answers.drop_last() =~= Seq::<Option<u64>>::empty());
    assert(budget_after(initial, ccd_active, answers.drop_last(), min_ccd_dt) == initial);
    assert(lengths_of(initial, ccd_active, answers.drop_last(), min_ccd_dt) =~= Seq::<u64>::empty());
    assert(lengths_of(initial, ccd_active, answers, min_ccd_dt) =~= seq![initial.remaining_time]);
}

/// As long as the loop goes on, each substep uses up one of the substeps
/// that the step is allowed.
pub proof fn lemma_substeps_are_used_up(
    initial: SubstepBudget,
    ccd_active: bool,
    answers: Seq<Option<u64>>,
    min_ccd_dt: u64,
    k: int,
)
    requires
        0 <= k <= answers.len(),
        forall|j: int| 1 <= j <= k ==> #[trigger] goes_on(initial, ccd_active, answers, min_ccd_dt, j),
    ensures
        k >= 1 ==> ccd_active && budget_after(initial, ccd_active, answers.take(k), min_ccd_dt).remaining_substeps
            + k == initial.remaining_substeps,
    decreases k,
{
    if k >= 1 {
        lemma_substeps_are_used_up(initial, ccd_active, answers, min_ccd_dt, k - 1);
        assert(goes_on(initial, ccd_active, answers, min_ccd_dt, k));
        assert(answers.take(k).drop_last() =~= answers.take(k - 1));
        assert(answers.take(0) =~= Seq::<Option<u64>>::empty());
        let before = budget_after(initial, ccd_active, answers.take(k - 1), min_ccd_dt);
        lemma_slice_fits(before, ccd_active, answers.take(k).last());
    }
}

/// A step never takes more substeps than it is allowed, and always takes one.
pub proof fn lemma_substep_count(
    initial: SubstepBudget,
    ccd_active: bool,
    answers: Seq<Option<u64>>,
    min_ccd_dt: u64,
)
    requires
        whole_step(initial, ccd_active, answers, min_ccd_dt),
    ensures
        1 <= lengths_of(initial, ccd_active, answers, min_ccd_dt).len(),
        lengths_of(initial, ccd_active, answers, min_ccd_dt).len() <= if initial.remaining_substeps > 1 {
            initial.remaining_substeps as int
        } else {
            1
        },
{
    lemma_plan_conserves_time(initial, ccd_active, answers, min_ccd_dt);
    let n = answers.len() as int;
    if n >= 2 {
        assert forall|j: int| 1 <= j <= n - 1 implies #[trigger] goes_on(
            initial,
            ccd_active,
            answers,
            min_ccd_dt,
            j,
        ) by {}
        lemma_substeps_are_used_up(initial, ccd_active, answers, min_ccd_dt, n - 1);
        // After all but the last substep the loop still goes on: there is
        // time left, so the last step before was cut, and a substep was left.
        let before = budget_after(initial, ccd_active, answers.take(n - 1), min_ccd_dt);
        assert(answers.take(n - 1).drop_last() =~= answers.take(n - 2));
        let earlier_budget = budget_after(initial, ccd_active, answers.take(n - 2), min_ccd_dt);
        lemma_slice_fits(earlier_budget, ccd_active, answers.take(n - 1).last());
        assert(before.remaining_substeps >= 1);
    }
}

} // verus!
