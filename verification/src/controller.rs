//! Stages and the stage set's state machine.
//!
//! A stage set runs in rounds. In a round it looks at its stages in order and
//! enters the first one that can be entered; it then stays in that stage,
//! checking once a second whether the stage should be left, and starts a new
//! round as soon as it should. A round that finds no stage enters the default
//! stage, unless the set is in the default stage already, and waits a second.
//!
//! The conditions themselves read sensors and clocks, so the caller evaluates
//! them: the machine says which condition to evaluate next ([`Step::CheckEntry`],
//! [`Step::CheckStay`]) and is told the answer through [`StageSet::report`].
use crate::peripheral::{same_preset, CommandSendError, GenericCommand, PlannedCommand};
use vstd::prelude::*;

verus! {

/// What a stage is, as far as the decisions about it go.
pub struct StageView<C> {
    /// The presets sent when the stage is entered, in order, each with the
    /// channel it sends on.
    pub presets: Seq<GenericCommand>,
    /// The commands sent when the stage is entered, in order, each with the
    /// index of the peripheral it goes to.
    pub commands: Seq<PlannedCommand>,
    /// The condition under which the stage may be entered; without one the
    /// stage enters whenever given the chance.
    pub condition: Option<C>,
    /// While this condition holds, the stage is not left.
    pub stay_condition: Option<C>,
    pub name: Seq<char>,
    /// The commands the stage has handed to its peripherals' channels, in
    /// the order they were handed.
    pub sent: Seq<PlannedCommand>,
}

/// A stage can be entered when it has no condition or its condition holds.
pub open spec fn stage_can_enter<C>(stage: StageView<C>, condition_met: bool) -> bool {
    stage.condition is None || condition_met
}

/// A stage should be left when its stay condition does not hold; without a
/// stay condition, when its condition does not hold; without either, never.
pub open spec fn stage_should_exit<C>(stage: StageView<C>, stay_met: bool, condition_met: bool) -> bool {
    !(match stage.stay_condition {
        Some(_) => stay_met,
        None => match stage.condition {
            Some(_) => condition_met,
            None => true,
        },
    })
}

/// `after` is the stage `before` once entered: each preset, in order, has
/// handed its command to its channel once, keeping its channel and command;
/// the stage's record of what it handed has grown by its commands, in order;
/// nothing else has changed.
pub open spec fn entered<C>(before: StageView<C>, after: StageView<C>) -> bool {
    &&& after.condition == before.condition
    &&& after.stay_condition == before.stay_condition
    &&& after.name == before.name
    &&& after.commands == before.commands
    &&& after.presets.len() == before.presets.len()
    &&& forall|i: int|
        0 <= i < before.presets.len() ==> {
            &&& same_preset(#[trigger] after.presets[i], before.presets[i])
            &&& after.presets[i].sent() == before.presets[i].sent().push(before.commands[i].value)
        }
    &&& after.sent == before.sent + before.commands
}

/// A stage: the commands it sends when entered, its conditions and its name.
pub struct Stage<C> {
    entry: Vec<GenericCommand>,
    condition: Option<C>,
    stay_condition: Option<C>,
    name: String,
    sent: Ghost<Seq<PlannedCommand>>,
}

impl<C> View for Stage<C> {
    type V = StageView<C>;

    closed spec fn view(&self) -> StageView<C> {
        StageView {
            presets: self.entry@,
            commands: self.entry@.map_values(|c: GenericCommand| c.command()),
            condition: self.condition,
            stay_condition: self.stay_condition,
            name: self.name@,
            sent: self.sent@,
        }
    }
}

impl<C> Stage<C> {
    /// Makes a stage. Without `condition` the stage enters whenever given the
    /// chance; while `stay_condition` holds the stage is not left.
    pub fn new(
        entry: Vec<GenericCommand>,
        condition: Option<C>,
        stay_condition: Option<C>,
        name: String,
    ) -> (r: Stage<C>)
        ensures
            r@ == (StageView {
                presets: entry@,
                commands: entry@.map_values(|c: GenericCommand| c.command()),
                condition,
                stay_condition,
                name: name@,
                sent: Seq::empty(),
            }),
    {
        Stage { entry, condition, stay_condition, name, sent: Ghost(Seq::empty()) }
    }

    /// Sends the stage's commands in order, each to its peripheral's
    /// channel, and tells for each whether it was delivered. Each preset hands
    /// its value to its channel once; the stage's record of what it handed
    /// grows by its commands, in order.
    pub fn enter(&mut self) -> (r: Vec<Result<(), CommandSendError>>)
        ensures
            r.len() == old(self)@.commands.len(),
            entered(old(self)@, final(self)@),
    {
        let mut results: Vec<Result<(), CommandSendError>> = Vec::new();
        let n: usize = self.entry.len();
        let ghost start = self.entry@;
        let ghost sent_before = self.sent@;
        for i in 0..n
            invariant
                n == self.entry.len(),
                start.len() == n,
                results.len() == i,
                start == old(self).entry@,
                sent_before == old(self).sent@,
                self.condition == old(self).condition,
                self.stay_condition == old(self).stay_condition,
                self.name == old(self).name,
                forall|j: int|
                    0 <= j < i ==> {
                        &&& same_preset(#[trigger] self.entry@[j], start[j])
                        &&& self.entry@[j].sent() == start[j].sent().push(start[j].command().value)
                    },
                forall|j: int| i <= j < n ==> #[trigger] self.entry@[j] == start[j],
                self.sent@ == sent_before + start.take(i as int).map_values(
                    |c: GenericCommand| c.command(),
                ),
        {
            let result = self.entry[i].send();
            results.push(result);
            proof {
                assert(start.take(i + 1).map_values(|c: GenericCommand| c.command())
                    =~= start.take(i as int).map_values(|c: GenericCommand| c.command()).push(
                    start[i as int].command(),
                ));
            }
            self.sent = Ghost(self.sent@.push(start[i as int].command()));
        }
        proof {
            assert(start.take(n as int) =~= start);
            assert forall|j: int| 0 <= j < n implies #[trigger] self.entry@[j].command() == start[
                j
            ].command() by {
                assert(same_preset(self.entry@[j], start[j]));
            }
            assert(self.entry@.map_values(|c: GenericCommand| c.command()) =~= start.map_values(
                |c: GenericCommand| c.command(),
            ));
        }
        results
    }

    /// Whether the stage can be entered, given what its condition reports
    /// (ignored where it has none).
    pub fn can_enter(&self, condition_met: bool) -> (r: bool)
        ensures
            r == stage_can_enter(self@, condition_met),
    {
        self.condition.is_none() || condition_met
    }

    /// Whether the stage should be left, given what its stay condition and its
    /// condition report (each ignored where the stage has none).
    pub fn should_exit(&self, stay_met: bool, condition_met: bool) -> (r: bool)
        ensures
            r == stage_should_exit(self@, stay_met, condition_met),
    {
        let stays = if self.stay_condition.is_some() {
            stay_met
        } else if self.condition.is_some() {
            condition_met
        } else {
            true
        };
        !stays
    }

    /// The stage's name.
    pub fn name(&self) -> (r: &str)
        ensures
            r@ == self@.name,
    {
        self.name.as_str()
    }

    /// The stage as text, `Stage("<name>")`.
    pub fn describe(&self) -> (r: String)
        ensures
            r@ == "Stage(\""@ + self@.name + "\")"@,
    {
        String::from_str("Stage(\"").concat(self.name.as_str()).concat("\")")
    }

    /// The stage's condition.
    pub fn condition(&self) -> (r: &Option<C>)
        ensures
            *r == self@.condition,
    {
        &self.condition
    }

    /// The stage's stay condition.
    pub fn stay_condition(&self) -> (r: &Option<C>)
        ensures
            *r == self@.stay_condition,
    {
        &self.stay_condition
    }
}

/// Where a stage set stands.
#[derive(Clone, Copy, Debug, PartialEq, Eq, Structural)]
pub enum Phase {
    /// Looking for a stage to enter; the stages before this index have been
    /// found unable to enter in this round.
    Choosing(usize),
    /// In the stage at this index.
    Staying(usize),
}

/// What the caller does next for a stage set.
#[derive(Clone, Copy, Debug, PartialEq, Eq, Structural)]
pub enum Step {
    /// Evaluate the condition of the stage at this index, and report it.
    CheckEntry(usize),
    /// Evaluate the stay condition of the stage at this index, and report it.
    CheckStay(usize),
    /// Enter the stage at this index (send its commands), then advance.
    Enter(usize),
    /// Enter the default stage, wait a second, then advance.
    EnterDefault,
    /// Wait a second, then advance.
    Wait,
}

/// The decision state of a stage set: which of its stages have a condition and
/// a stay condition, its phase, and whether it is in its default stage.
pub struct Machine {
    pub has_condition: Seq<bool>,
    pub has_stay: Seq<bool>,
    pub phase: Phase,
    pub in_default: bool,
}

impl Machine {
    pub open spec fn stage_count(self) -> int {
        self.has_condition.len() as int
    }

    /// The phase points at a stage (or, while choosing, just past the last),
    /// and every stage before the one being chosen has a condition: a stage
    /// without one is entered as soon as it is reached.
    pub open spec fn wf(self) -> bool {
        &&& self.has_stay.len() == self.has_condition.len()
        &&& match self.phase {
            Phase::Choosing(k) => {
                &&& k <= self.stage_count()
                &&& forall|j: int| 0 <= j < k ==> #[trigger] self.has_condition[j]
            },
            Phase::Staying(i) => i < self.stage_count(),
        }
    }

    pub open spec fn with_phase(self, phase: Phase) -> Machine {
        Machine { phase, ..self }
    }

    /// The step to take when nothing has to be reported.
    pub open spec fn advance(self) -> (Machine, Step) {
        match self.phase {
            Phase::Choosing(k) => if k < self.stage_count() {
                if self.has_condition[k as int] {
                    (self, Step::CheckEntry(k))
                } else {
                    (Machine { phase: Phase::Staying(k), in_default: false, ..self }, Step::Enter(k))
                }
            } else if self.in_default {
                (self.with_phase(Phase::Choosing(0)), Step::Wait)
            } else {
                (Machine { phase: Phase::Choosing(0), in_default: true, ..self }, Step::EnterDefault)
            },
            Phase::Staying(i) => if self.has_stay[i as int] {
                (self, Step::CheckStay(i))
            } else if self.has_condition[i as int] {
                (self, Step::CheckEntry(i))
            } else {
                (self, Step::Wait)
            },
        }
    }

    /// The machine waits for the value of a condition.
    pub open spec fn awaiting(self) -> bool {
        match self.phase {
            Phase::Choosing(k) => k < self.stage_count() && self.has_condition[k as int],
            Phase::Staying(i) => i < self.stage_count() && (self.has_stay[i as int]
                || self.has_condition[i as int]),
        }
    }

    /// The step to take once the condition asked for has been evaluated to `met`.
    pub open spec fn report(self, met: bool) -> (Machine, Step) {
        match self.phase {
            Phase::Choosing(k) => if met {
                (Machine { phase: Phase::Staying(k), in_default: false, ..self }, Step::Enter(k))
            } else {
                self.with_phase(Phase::Choosing((k + 1) as usize)).advance()
            },
            Phase::Staying(i) => if met {
                (self, Step::Wait)
            } else {
                self.with_phase(Phase::Choosing(0)).advance()
            },
        }
    }
}

/// Advancing keeps a machine well formed.
pub proof fn lemma_advance_wf(m: Machine)
    requires
        m.wf(),
    ensures
        m.advance().0.wf(),
        m.advance().0.has_condition == m.has_condition,
        m.advance().0.has_stay == m.has_stay,
{
}

/// Reporting the awaited condition keeps a machine well formed.
pub proof fn lemma_report_wf(m: Machine, met: bool)
    requires
        m.wf(),
        m.awaiting(),
    ensures
        m.report(met).0.wf(),
        m.report(met).0.has_condition == m.has_condition,
        m.report(met).0.has_stay == m.has_stay,
{
    match m.phase {
        Phase::Choosing(k) => {
            if !met {
                let next = m.with_phase(Phase::Choosing((k + 1) as usize));
                assert(next.wf());
                lemma_advance_wf(next);
            }
        },
        Phase::Staying(i) => {
            if !met {
                lemma_advance_wf(m.with_phase(Phase::Choosing(0)));
            }
        },
    }
}

/// A stage without a condition is entered whenever the search reaches it.
pub proof fn lemma_unconditioned_stage_entered(m: Machine, k: usize)
    requires
        m.wf(),
        m.phase == Phase::Choosing(k),
        k < m.stage_count(),
        !m.has_condition[k as int],
    ensures
        m.advance().1 == Step::Enter(k),
        m.advance().0.phase == Phase::Staying(k),
        !m.advance().0.in_default,
{
}

/// While its stay condition holds, a stage is not left: the machine asks for
/// the stay condition, and a report that it holds leaves everything as it was.
pub proof fn lemma_stay_condition_keeps_stage(m: Machine, i: usize)
    requires
        m.wf(),
        m.phase == Phase::Staying(i),
        m.has_stay[i as int],
    ensures
        m.advance() == (m, Step::CheckStay(i)),
        m.report(true) == (m, Step::Wait),
{
}

/// A stage with neither a condition nor a stay condition is never left.
pub proof fn lemma_unconditioned_stage_kept(m: Machine, i: usize)
    requires
        m.wf(),
        m.phase == Phase::Staying(i),
        !m.has_stay[i as int],
        !m.has_condition[i as int],
    ensures
        m.advance() == (m, Step::Wait),
{
}

/// The default stage is not entered again while the set is in it: from a
/// machine in its default stage no step enters the default stage, and the
/// machine stays in its default stage unless it enters one of the stages.
pub proof fn lemma_default_not_reentered(m: Machine, met: bool)
    requires
        m.wf(),
        m.in_default,
    ensures
        m.advance().1 != Step::EnterDefault,
        m.advance().1 is Enter || m.advance().0.in_default,
        m.awaiting() ==> m.report(met).1 != Step::EnterDefault,
        m.awaiting() ==> (m.report(met).1 is Enter || m.report(met).0.in_default),
{
}

/// The default stage is entered only by a round that finds no stage to enter
/// after the set has been in one of its stages, and it leaves the set in its
/// default stage, looking for a stage again.
pub proof fn lemma_default_entry(m: Machine, met: bool)
    requires
        m.wf(),
    ensures
        m.advance().1 == Step::EnterDefault ==> {
            &&& !m.in_default
            &&& m.advance().0.in_default
            &&& m.advance().0.phase == Phase::Choosing(0)
        },
        (m.awaiting() && m.report(met).1 == Step::EnterDefault) ==> {
            &&& !m.in_default
            &&& !met
            &&& m.report(met).0.in_default
            &&& m.report(met).0.phase == Phase::Choosing(0)
        },
{
}

/// Stages come first to first served: a stage is entered only when every stage
/// before it has a condition (a stage without one is entered as soon as the
/// search reaches it, so the stages after it are never entered).
pub proof fn lemma_entered_stage_follows_conditioned(m: Machine, met: bool, k: usize)
    requires
        m.wf(),
    ensures
        m.advance().1 == Step::Enter(k) ==> forall|j: int| 0 <= j < k ==> #[trigger] m.has_condition[j],
        (m.awaiting() && m.report(met).1 == Step::Enter(k)) ==> forall|j: int|
            0 <= j < k ==> #[trigger] m.has_condition[j],
{
    lemma_advance_wf(m);
    if m.awaiting() {
        lemma_report_wf(m, met);
    }
}

/// The machine decides as the stages do: in a search, the stage being looked
/// at is entered exactly when it can enter by its condition's value; in a
/// stage, the set stays exactly when the stage should not exit by the value of
/// the condition asked for.
pub proof fn lemma_machine_follows_stages<C>(m: Machine, stages: Seq<StageView<C>>, met: bool)
    requires
        m.wf(),
        m.awaiting(),
        m.has_condition == stages.map_values(|s: StageView<C>| s.condition is Some),
        m.has_stay == stages.map_values(|s: StageView<C>| s.stay_condition is Some),
    ensures
        m.phase matches Phase::Choosing(k) ==> ((m.report(met).1 == Step::Enter(k))
            == stage_can_enter(stages[k as int], met)),
        m.phase matches Phase::Staying(i) ==> ((m.report(met) == (m, Step::Wait))
            == !stage_should_exit(stages[i as int], met, met)),
{
    match m.phase {
        Phase::Choosing(k) => {
            assert(m.has_condition[k as int] == (stages[k as int].condition is Some));
            if !met {
                let next = m.with_phase(Phase::Choosing((k + 1) as usize));
                assert(next.wf());
            }
        },
        Phase::Staying(i) => {
            assert(m.has_condition[i as int] == (stages[i as int].condition is Some));
            assert(m.has_stay[i as int] == (stages[i as int].stay_condition is Some));
            if !met {
                let next = m.with_phase(Phase::Choosing(0));
                assert(next.advance().0.phase != m.phase || next.advance().1 != Step::Wait);
            }
        },
    }
}

/// How far a search has come: the index being looked at; zero in a stage.
pub open spec fn search_index(m: Machine) -> int {
    match m.phase {
        Phase::Choosing(k) => k as int,
        Phase::Staying(_) => 0,
    }
}

/// Where a round of the search ends when the caller answers each entry check
/// of stage `j` with `met[j]`, from the state `m` and the step `step` just
/// given: the state and the first step that is not an entry check of the search.
pub open spec fn answer_entry_checks(m: Machine, step: Step, met: Seq<bool>) -> (Machine, Step)
    decreases m.stage_count() - search_index(m),
{
    match step {
        Step::CheckEntry(j) => if m.phase == Phase::Choosing(j) && j < m.stage_count() {
            let next = m.report(met[j as int]);
            match next.0.phase {
                Phase::Choosing(k) => if j < k && k <= m.stage_count() && next.0.stage_count()
                    == m.stage_count() {
                    answer_entry_checks(next.0, next.1, met)
                } else {
                    next
                },
                Phase::Staying(_) => next,
            }
        } else {
            (m, step)
        },
        _ => (m, step),
    }
}

/// The first stage from `k` on that can enter when each stage `j`'s condition
/// has the value `met[j]`: one without a condition, or one whose condition
/// holds. The stage count where there is none.
pub open spec fn first_enterable(has_condition: Seq<bool>, met: Seq<bool>, k: int) -> int
    decreases has_condition.len() - k,
{
    if k >= has_condition.len() {
        has_condition.len() as int
    } else if !has_condition[k] || met[k] {
        k
    } else {
        first_enterable(has_condition, met, k + 1)
    }
}

/// The first enterable stage from `k` is one that can enter, and every stage
/// before it from `k` on has a condition that does not hold.
pub proof fn lemma_first_enterable(has_condition: Seq<bool>, met: Seq<bool>, k: int)
    requires
        0 <= k <= has_condition.len(),
    ensures
        k <= first_enterable(has_condition, met, k) <= has_condition.len(),
        first_enterable(has_condition, met, k) < has_condition.len() ==> (
        !has_condition[first_enterable(has_condition, met, k)] || met[first_enterable(
            has_condition,
            met,
            k,
        )]),
        forall|j: int|
            k <= j < first_enterable(has_condition, met, k) ==> #[trigger] has_condition[j]
                && !met[j],
    decreases has_condition.len() - k,
{
    if k < has_condition.len() && has_condition[k] && !met[k] {
        lemma_first_enterable(has_condition, met, k + 1);
    }
}

/// A round of the search enters the first stage that can enter: once the
/// caller has answered every entry check the round asks for, the set is in the
/// first stage (from where the search stands) that has no condition or whose
/// condition holds; where there is none, it enters its default stage unless it
/// is in it already, and looks again from the first stage.
pub proof fn lemma_round_enters_first_enterable(m: Machine, met: Seq<bool>)
    requires
        m.wf(),
        m.phase is Choosing,
        met.len() == m.stage_count(),
        m.stage_count() <= usize::MAX,
    ensures
        ({
            let r = answer_entry_checks(m.advance().0, m.advance().1, met);
            let f = first_enterable(m.has_condition, met, search_index(m));
            &&& r.0.has_condition == m.has_condition
            &&& r.0.has_stay == m.has_stay
            &&& f < m.stage_count() ==> {
                &&& r.1 == Step::Enter(f as usize)
                &&& r.0.phase == Phase::Staying(f as usize)
                &&& !r.0.in_default
            }
            &&& f >= m.stage_count() ==> {
                &&& r.1 == (if m.in_default {
                    Step::Wait
                } else {
                    Step::EnterDefault
                })
                &&& r.0.phase == Phase::Choosing(0)
                &&& r.0.in_default
            }
        }),
    decreases m.stage_count() - search_index(m),
{
    let k = search_index(m);
    if k < m.stage_count() && m.has_condition[k] && !met[k] {
        let next_m = m.with_phase(Phase::Choosing((k + 1) as usize));
        assert(next_m.wf());
        lemma_round_enters_first_enterable(next_m, met);
        assert(first_enterable(m.has_condition, met, k) == first_enterable(
            next_m.has_condition,
            met,
            k + 1,
        ));
        let a = next_m.advance();
        assert(m.report(met[k]) == a);
        assert(answer_entry_checks(m, Step::CheckEntry(k as usize), met) == answer_entry_checks(
            a.0,
            a.1,
            met,
        )) by {
            match a.0.phase {
                Phase::Choosing(k2) => {
                    if !(k < k2 && k2 <= m.stage_count()) {
                        assert(a.1 != Step::CheckEntry(k2));
                    }
                },
                Phase::Staying(_) => {},
            }
        }
    }
}

/// In terms of the stages: a round that starts at the first stage, with each
/// stage's condition answered by `met`, enters the first stage that can enter
/// by `stage_can_enter`; where none can, it enters no stage.
pub proof fn lemma_round_enters_first_stage_that_can<C>(
    m: Machine,
    stages: Seq<StageView<C>>,
    met: Seq<bool>,
    f: int,
)
    requires
        m.wf(),
        m.phase == Phase::Choosing(0),
        m.has_condition == stages.map_values(|s: StageView<C>| s.condition is Some),
        met.len() == m.stage_count(),
        m.stage_count() <= usize::MAX,
    ensures
        ({
            let r = answer_entry_checks(m.advance().0, m.advance().1, met);
            &&& (0 <= f < stages.len() && stage_can_enter(stages[f], met[f]) && forall|j: int|
                0 <= j < f ==> !#[trigger] stage_can_enter(stages[j], met[j])) ==> {
                &&& r.1 == Step::Enter(f as usize)
                &&& r.0.phase == Phase::Staying(f as usize)
            }
            &&& (forall|j: int| 0 <= j < stages.len() ==> !#[trigger] stage_can_enter(stages[j], met[j]))
                ==> !(r.1 is Enter) && r.0.phase == Phase::Choosing(0)
        }),
{
    lemma_round_enters_first_enterable(m, met);
    lemma_first_enterable(m.has_condition, met, 0);
    let g = first_enterable(m.has_condition, met, 0);
    assert(m.stage_count() == stages.len());
    assert forall|j: int| 0 <= j < stages.len() implies (m.has_condition[j] == (
    stages[j].condition is Some)) by {}
    if 0 <= f < stages.len() && stage_can_enter(stages[f], met[f]) && forall|j: int|
        0 <= j < f ==> !#[trigger] stage_can_enter(stages[j], met[j]) {
        if g < f {
            assert(!stage_can_enter(stages[g], met[g]));
        }
        if g > f {
            assert(m.has_condition[f] && !met[f]);
        }
    }
    if forall|j: int| 0 <= j < stages.len() ==> !#[trigger] stage_can_enter(stages[j], met[j]) {
        if g < stages.len() {
            assert(!stage_can_enter(stages[g], met[g]));
        }
    }
}

/// While the set is in one of its stages it is not in its default stage, and
/// no step taken there says otherwise: asking for a condition, waiting, or a
/// report that the stage stays leaves the set out of its default stage. So
/// once the set leaves the stage, a round that finds no stage to enter enters
/// the default stage.
pub proof fn lemma_staying_is_not_default(m: Machine, met: bool)
    requires
        m.wf(),
        m.phase is Staying,
        !m.in_default,
    ensures
        !m.advance().0.in_default,
        m.advance().0.phase == m.phase,
        (m.awaiting() && met) ==> !m.report(met).0.in_default && m.report(met).0.phase == m.phase,
{
}

/// Leaving a stage when no stage can be entered enters the default stage:
/// from a stage (not the default), a report that the stage should be left,
/// followed by a round in which every stage's condition is reported not to
/// hold, ends in entering the default stage.
pub proof fn lemma_leaving_stage_enters_default(m: Machine, met: Seq<bool>)
    requires
        m.wf(),
        m.phase is Staying,
        !m.in_default,
        m.awaiting(),
        met.len() == m.stage_count(),
        m.stage_count() <= usize::MAX,
        forall|j: int| 0 <= j < m.stage_count() ==> #[trigger] m.has_condition[j] && !met[j],
    ensures
        ({
            let left = m.report(false);
            let r = answer_entry_checks(left.0, left.1, met);
            &&& r.1 == Step::EnterDefault
            &&& r.0.in_default
            &&& r.0.phase == Phase::Choosing(0)
        }),
{
    let start = m.with_phase(Phase::Choosing(0));
    assert(start.wf());
    lemma_round_enters_first_enterable(start, met);
    lemma_first_enterable(start.has_condition, met, 0);
    let f = first_enterable(start.has_condition, met, 0);
    if f < m.stage_count() {
        assert(start.has_condition[f] && !met[f]);
    }
}

/// A set of stages, of which at most one is active, with a default stage.
pub struct StageSet<C> {
    stages: Vec<Stage<C>>,
    default: Stage<C>,
    is_in_default: bool,
    name: String,
    phase: Phase,
}

impl<C> StageSet<C> {
    /// The stages' views, in order.
    pub closed spec fn stages_view(self) -> Seq<StageView<C>> {
        self.stages@.map_values(|s: Stage<C>| s@)
    }

    pub closed spec fn default_view(self) -> StageView<C> {
        self.default@
    }

    pub closed spec fn name_view(self) -> Seq<char> {
        self.name@
    }

    /// The set's phase.
    pub closed spec fn current_phase(self) -> Phase {
        self.phase
    }

    /// Whether the set is in its default stage.
    pub closed spec fn in_default_stage(self) -> bool {
        self.is_in_default
    }

    /// The decision state of the set.
    pub open spec fn machine(self) -> Machine {
        Machine {
            has_condition: self.stages_view().map_values(|s: StageView<C>| s.condition is Some),
            has_stay: self.stages_view().map_values(|s: StageView<C>| s.stay_condition is Some),
            phase: self.current_phase(),
            in_default: self.in_default_stage(),
        }
    }

    #[verifier::type_invariant]
    closed spec fn inv(self) -> bool {
        self.machine().wf()
    }

    /// Makes a stage set. It starts by looking for a stage, counting itself as
    /// in its default stage already.
    pub fn new(stage: Vec<Stage<C>>, default: Stage<C>, name: String) -> (r: StageSet<C>)
        ensures
            r.stages_view() == stage@.map_values(|s: Stage<C>| s@),
            r.default_view() == default@,
            r.name_view() == name@,
            r.machine().phase == Phase::Choosing(0),
            r.machine().in_default,
            r.machine().wf(),
    {
        StageSet { stages: stage, default, is_in_default: true, name, phase: Phase::Choosing(0) }
    }

    /// The next step, where no condition's value is awaited.
    pub fn advance(&mut self) -> (r: Step)
        ensures
            (final(self).machine(), r) == old(self).machine().advance(),
            final(self).machine().wf(),
            final(self).stages_view() == old(self).stages_view(),
            final(self).default_view() == old(self).default_view(),
            final(self).name_view() == old(self).name_view(),
    {
        proof {
            use_type_invariant(&*self);
            lemma_advance_wf(self.machine());
        }
        match self.phase {
            Phase::Choosing(k) => {
                if k < self.stages.len() {
                    if self.stages[k].condition.is_some() {
                        Step::CheckEntry(k)
                    } else {
                        self.is_in_default = false;
                        self.phase = Phase::Staying(k);
                        Step::Enter(k)
                    }
                } else if self.is_in_default {
                    self.phase = Phase::Choosing(0);
                    Step::Wait
                } else {
                    self.is_in_default = true;
                    self.phase = Phase::Choosing(0);
                    Step::EnterDefault
                }
            },
            Phase::Staying(i) => {
                if self.stages[i].stay_condition.is_some() {
                    Step::CheckStay(i)
                } else if self.stages[i].condition.is_some() {
                    Step::CheckEntry(i)
                } else {
                    Step::Wait
                }
            },
        }
    }

    /// The next step, once the condition that the last step asked for has
    /// been evaluated to `met`.
    pub fn report(&mut self, met: bool) -> (r: Step)
        requires
            old(self).machine().awaiting(),
        ensures
            (final(self).machine(), r) == old(self).machine().report(met),
            final(self).machine().wf(),
            final(self).stages_view() == old(self).stages_view(),
            final(self).default_view() == old(self).default_view(),
            final(self).name_view() == old(self).name_view(),
    {
        proof {
            use_type_invariant(&*self);
            lemma_report_wf(self.machine(), met);
            assert(self.machine().stage_count() == self.stages@.len());
        }
        match self.phase {
            Phase::Choosing(k) => {
                if met {
                    self.is_in_default = false;
                    self.phase = Phase::Staying(k);
                    Step::Enter(k)
                } else {
                    let n: usize = self.stages.len();
                    assert(k < n);
                    self.phase = Phase::Choosing(k + 1);
                    self.advance()
                }
            },
            Phase::Staying(i) => {
                if met {
                    Step::Wait
                } else {
                    self.phase = Phase::Choosing(0);
                    self.advance()
                }
            },
        }
    }

    /// Whether the set stands where a condition's value is asked for: at a
    /// stage with a condition while choosing, or at a stage with a condition
    /// or a stay condition while in it.
    pub fn is_awaiting(&self) -> (r: bool)
        ensures
            r == self.machine().awaiting(),
    {
        proof {
            assert(self.machine().stage_count() == self.stages@.len());
        }
        match self.phase {
            Phase::Choosing(k) => k < self.stages.len() && self.stages[k].condition.is_some(),
            Phase::Staying(i) => i < self.stages.len() && (self.stages[i].stay_condition.is_some()
                || self.stages[i].condition.is_some()),
        }
    }

    /// Enters the stage at an index: sends its commands, as `Stage::enter`.
    pub fn enter_stage(&mut self, index: usize) -> (r: Vec<Result<(), CommandSendError>>)
        requires
            index < old(self).stages_view().len(),
        ensures
            r.len() == old(self).stages_view()[index as int].commands.len(),
            entered(old(self).stages_view()[index as int], final(self).stages_view()[index as int]),
            final(self).stages_view().len() == old(self).stages_view().len(),
            forall|j: int|
                0 <= j < old(self).stages_view().len() && j != index
                    ==> #[trigger] final(self).stages_view()[j] == old(self).stages_view()[j],
            final(self).default_view() == old(self).default_view(),
            final(self).name_view() == old(self).name_view(),
            final(self).machine() == old(self).machine(),
    {
        proof {
            use_type_invariant(&*self);
        }
        let phase = self.phase;
        self.phase = Phase::Choosing(0);
        let mut stages: Vec<Stage<C>> = Vec::new();
        std::mem::swap(&mut stages, &mut self.stages);
        let ghost before = stages@;
        let r = stages[index].enter();
        proof {
            let views = stages@.map_values(|s: Stage<C>| s@);
            let old_views = before.map_values(|s: Stage<C>| s@);
            assert(views.map_values(|s: StageView<C>| s.condition is Some) =~= old_views.map_values(
                |s: StageView<C>| s.condition is Some,
            ));
            assert(views.map_values(|s: StageView<C>| s.stay_condition is Some)
                =~= old_views.map_values(|s: StageView<C>| s.stay_condition is Some));
        }
        std::mem::swap(&mut stages, &mut self.stages);
        self.phase = phase;
        proof {
            assert(self.machine().has_condition =~= old(self).machine().has_condition);
            assert(self.machine().has_stay =~= old(self).machine().has_stay);
        }
        r
    }

    /// Enters the default stage: sends its commands, as `Stage::enter`.
    pub fn enter_default(&mut self) -> (r: Vec<Result<(), CommandSendError>>)
        ensures
            r.len() == old(self).default_view().commands.len(),
            entered(old(self).default_view(), final(self).default_view()),
            final(self).stages_view() == old(self).stages_view(),
            final(self).name_view() == old(self).name_view(),
            final(self).machine() == old(self).machine(),
    {
        proof {
            use_type_invariant(&*self);
        }
        let mut default: Stage<C> = Stage::new(Vec::new(), None, None, String::new());
        std::mem::swap(&mut default, &mut self.default);
        let r = default.enter();
        std::mem::swap(&mut default, &mut self.default);
        r
    }

    /// The number of stages, the default not counted.
    pub fn stage_count(&self) -> (r: usize)
        ensures
            r == self.stages_view().len(),
    {
        self.stages.len()
    }

    /// The stage at an index.
    pub fn stage(&self, index: usize) -> (r: &Stage<C>)
        requires
            index < self.stages_view().len(),
        ensures
            r@ == self.stages_view()[index as int],
    {
        &self.stages[index]
    }

    /// The default stage.
    pub fn default_stage(&self) -> (r: &Stage<C>)
        ensures
            r@ == self.default_view(),
    {
        &self.default
    }

    /// The set's name.
    pub fn name(&self) -> (r: &str)
        ensures
            r@ == self.name_view(),
    {
        self.name.as_str()
    }

    /// Where the set stands.
    pub fn phase(&self) -> (r: Phase)
        ensures
            r == self.machine().phase,
    {
        self.phase
    }

    /// Whether the set is in its default stage.
    pub fn is_in_default(&self) -> (r: bool)
        ensures
            r == self.machine().in_default,
    {
        self.is_in_default
    }
}

} // verus!
