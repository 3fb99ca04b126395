//! The mission lifecycle: the linear order of the phases, the hand-off of the
//! resource set from one phase operator to the next, and the driver that
//! advances the mission one tick at a time.
use vstd::prelude::*;

use crate::resources::{
    claimed_part, disjoint, empty_view, first_missing, is_complete, lemma_merge_empty,
    lemma_split_then_merge, leftover_part, merged, peripheral_count, Claim, ResourceSet,
    ResourceView, Slot,
};

verus! {

/// A stage of the mission, in the order they are gone through.
#[derive(Clone, Copy, Debug, PartialEq, Eq, Structural)]
pub enum Phase {
    Search,
    ReturnSetup,
    Return,
    RunSetup,
    Run,
}

/// Position of a phase in the mission; the finished mission comes after all.
pub open spec fn phase_rank(p: Phase) -> nat {
    match p {
        Phase::Search => 0,
        Phase::ReturnSetup => 1,
        Phase::Return => 2,
        Phase::RunSetup => 3,
        Phase::Run => 4,
    }
}

/// Rank of the finished mission.
pub open spec fn finished_rank() -> nat {
    5
}

/// The phase that follows `p`, or `None` when `p` ends the mission.
pub open spec fn successor(p: Phase) -> Option<Phase> {
    match p {
        Phase::Search => Some(Phase::ReturnSetup),
        Phase::ReturnSetup => Some(Phase::Return),
        Phase::Return => Some(Phase::RunSetup),
        Phase::RunSetup => Some(Phase::Run),
        Phase::Run => None,
    }
}

/// The phases gone through from `p` to the end of the mission.
pub open spec fn phases_from(p: Phase) -> Seq<Phase>
    decreases finished_rank() - phase_rank(p),
{
    match successor(p) {
        Some(q) => {
            if phase_rank(q) > phase_rank(p) {
                seq![p] + phases_from(q)
            } else {
                seq![p]
            }
        },
        None => seq![p],
    }
}

/// A mission started at Search goes through ReturnSetup, Return, RunSetup
/// and Run in that order, once each, and then finishes; every step moves one
/// rank forward, so no phase is entered twice.
pub proof fn lemma_phase_sequence()
    ensures
        phases_from(Phase::Search) == seq![
            Phase::Search,
            Phase::ReturnSetup,
            Phase::Return,
            Phase::RunSetup,
            Phase::Run,
        ],
        successor(Phase::Run) is None,
        forall|p: Phase| #[trigger]
            successor(p) is Some ==> phase_rank(successor(p)->0) == phase_rank(p) + 1,
        forall|p: Phase, q: Phase|
            #[trigger] phase_rank(p) == #[trigger] phase_rank(q) ==> p == q,
{
    reveal_with_fuel(phases_from, 6);
    assert(phases_from(Phase::Run) =~= seq![Phase::Run]);
    assert(phases_from(Phase::RunSetup) =~= seq![Phase::RunSetup, Phase::Run]);
    assert(phases_from(Phase::Return) =~= seq![Phase::Return, Phase::RunSetup, Phase::Run]);
    assert(phases_from(Phase::ReturnSetup) =~= seq![
        Phase::ReturnSetup,
        Phase::Return,
        Phase::RunSetup,
        Phase::Run,
    ]);
    assert(phases_from(Phase::Search) =~= seq![
        Phase::Search,
        Phase::ReturnSetup,
        Phase::Return,
        Phase::RunSetup,
        Phase::Run,
    ]);
}

/// The phase that follows `p`, or `None` when `p` ends the mission.
pub fn next_phase(p: Phase) -> (r: Option<Phase>)
    ensures
        r == successor(p),
{
    match p {
        Phase::Search => Some(Phase::ReturnSetup),
        Phase::ReturnSetup => Some(Phase::Return),
        Phase::Return => Some(Phase::RunSetup),
        Phase::RunSetup => Some(Phase::Run),
        Phase::Run => None,
    }
}

/// What one unit of a phase's algorithm reports.
#[derive(Debug, PartialEq, Eq)]
pub enum RunStatus<Fault> {
    /// The phase has more work to do.
    Incomplete,
    /// The phase reached its goal.
    Completed,
    /// The algorithm failed; the mission cannot go on.
    Failed(Fault),
}

/// The algorithms of the phases, as the mission's owner supplies them. Each
/// phase operator takes the slots that its phase claims; they are lent to the
/// algorithm on each call, and stay with the operator.
pub trait PhaseAlgorithm<R>: Sized {
    /// Parameters shared by every phase.
    type Config;

    /// The agent's pose and map knowledge, handed from phase to phase.
    type State;

    /// An error of the algorithm, passed on as it is.
    type Error;

    /// The algorithm of `phase` as `start` makes it from `config` and `state`.
    /// An implementation states it by overriding this definition.
    closed spec fn initial(phase: Phase, config: Self::Config, state: Self::State) -> Self {
        arbitrary()
    }

    /// What `run` reports of this algorithm with these resources.
    closed spec fn report(&self, resources: R) -> RunStatus<Self::Error> {
        arbitrary()
    }

    /// What `tick` gives for this algorithm with these resources.
    closed spec fn tick_result(&self, resources: R) -> Result<(), Self::Error> {
        arbitrary()
    }

    /// The mission state that `finish` gives.
    closed spec fn reached(&self) -> Self::State {
        arbitrary()
    }

    /// The slots that the operator of `phase` takes.
    fn claim(phase: Phase) -> Claim;

    /// The algorithm of `phase`, started from `state`.
    fn start(phase: Phase, config: &Self::Config, state: &Self::State) -> (a: Self)
        ensures
            a == Self::initial(phase, *config, *state),
    ;

    /// One unit of the algorithm's own work.
    fn run(&self, resources: &R) -> (s: RunStatus<Self::Error>)
        ensures
            s == self.report(*resources),
    ;

    /// One time unit of interaction with the agent: read sensors, drive motors.
    fn tick(&self, resources: &R) -> (t: Result<(), Self::Error>)
        ensures
            t == self.tick_result(*resources),
    ;

    /// Ends the phase, giving the mission state it reached.
    fn finish(self) -> (s: Self::State)
        ensures
            s == self.reached(),
    ;
}

/// The physical simulation of the agent.
pub trait Physics {
    /// What is reported of the agent after each tick.
    type Observation;

    /// Simulated time, in periods. An implementation states it by
    /// overriding this definition.
    closed spec fn time(&self) -> nat {
        0
    }

    /// What `observe` gives in this state.
    closed spec fn observation(&self) -> Self::Observation {
        arbitrary()
    }

    /// Advances simulated time by one period.
    fn step(&mut self)
        ensures
            final(self).time() == old(self).time() + 1,
    ;

    /// The agent as it stands now.
    fn observe(&self) -> (o: Self::Observation)
        ensures
            o == self.observation(),
    ;
}

/// Why a tick did not produce an observation.
#[derive(Debug, PartialEq, Eq)]
pub enum StepError<Fault> {
    /// The mission is over: there is nothing left to tick.
    Finished,
    /// A phase algorithm failed.
    Failed(Fault),
}

/// The result says that the mission is over.
pub open spec fn reports_finished<O, Fault>(r: Result<O, StepError<Fault>>) -> bool {
    r == Err::<O, StepError<Fault>>(StepError::Finished)
}

/// How a batch run ended.
#[derive(Debug, PartialEq, Eq)]
pub enum BatchEnd<Fault> {
    /// The mission finished.
    Finished,
    /// A phase algorithm failed.
    Failed(Fault),
    /// The allowed number of ticks ran out first.
    TickLimit,
}

/// What the driver does next, given what a phase's run reported.
#[derive(Debug, PartialEq, Eq)]
pub enum Action<Fault> {
    /// The phase is done: hand the resource set on to the next one.
    HandOver,
    /// The phase has work left: advance time and tick it.
    Tick,
    /// The phase failed: stop with its error.
    Stop(Fault),
}

pub open spec fn action_of<Fault>(s: RunStatus<Fault>) -> Action<Fault> {
    match s {
        RunStatus::Completed => Action::HandOver,
        RunStatus::Incomplete => Action::Tick,
        RunStatus::Failed(e) => Action::Stop(e),
    }
}

/// What the driver does next, given what a phase's run reported.
pub fn next_action<Fault>(s: RunStatus<Fault>) -> (a: Action<Fault>)
    ensures
        a == action_of(s),
{
    match s {
        RunStatus::Completed => Action::HandOver,
        RunStatus::Incomplete => Action::Tick,
        RunStatus::Failed(e) => Action::Stop(e),
    }
}

/// One thing the driver did, as a mission's log records it.
pub enum Event<A, R, Fault> {
    /// The phase's algorithm ran with these resources, and reported this.
    Ran(Phase, A, R, RunStatus<Fault>),
    /// Simulated time advanced one period.
    Stepped,
    /// The phase's algorithm ticked with these resources, with this result.
    Ticked(Phase, A, R, Result<(), Fault>),
}

/// How a tick ended, the observation aside.
pub enum Outcome<Fault> {
    Observed,
    Finished,
    Failed(Fault),
}

pub open spec fn outcome_of<O, Fault>(r: Result<O, StepError<Fault>>) -> Outcome<Fault> {
    match r {
        Ok(_) => Outcome::Observed,
        Err(StepError::Finished) => Outcome::Finished,
        Err(StepError::Failed(e)) => Outcome::Failed(e),
    }
}

/// The algorithm that follows `a`, which ran phase `p`: the next phase's,
/// started from `config` and from the state that `a` reached.
pub open spec fn next_algorithm<R, A: PhaseAlgorithm<R>>(p: Phase, a: A, config: A::Config) -> A {
    match successor(p) {
        Some(n) => A::initial(n, config, a.reached()),
        None => a,
    }
}

/// `ev` is a run of phases, from `from` with algorithm `alg` on, each of
/// which ran, reported that it completed, and handed over to its successor,
/// ending at `to` with algorithm `alg_to`.
pub open spec fn completed_through<R, A: PhaseAlgorithm<R>>(
    from: Option<Phase>,
    alg: A,
    config: A::Config,
    ev: Seq<Event<A, R, A::Error>>,
    to: Option<Phase>,
    alg_to: A,
) -> bool
    decreases ev.len(),
{
    if ev.len() == 0 {
        from == to && (to is Some ==> alg_to == alg)
    } else {
        &&& from is Some
        &&& match ev[0] {
            Event::Ran(ph, a, r, st) => {
                &&& ph == from->0
                &&& a == alg
                &&& st is Completed
                &&& st == a.report(r)
                &&& completed_through(
                    successor(ph),
                    next_algorithm(ph, a, config),
                    config,
                    ev.drop_first(),
                    to,
                    alg_to,
                )
            },
            _ => false,
        }
    }
}

/// `ev` is what one tick does from phase `p` (`None`: finished) with
/// algorithm `alg`, ending at phase `end` with `out`. The phase's algorithm
/// runs; while it reports that it completed, the next phase's algorithm is
/// started from `config` and from the state the last one reached, and runs
/// in turn; after Run the mission is finished. A run that fails stops the
/// tick with its error. The first run that reports work left is followed by
/// one step of simulated time and one tick of the same algorithm with the
/// same resources, whose failure stops the tick with its error.
pub open spec fn tick_trace<R, A: PhaseAlgorithm<R>>(
    p: Option<Phase>,
    alg: A,
    config: A::Config,
    ev: Seq<Event<A, R, A::Error>>,
    end: Option<Phase>,
    out: Outcome<A::Error>,
) -> bool
    decreases ev.len(),
{
    match p {
        None => ev.len() == 0 && end is None && out is Finished,
        Some(q) => ev.len() > 0 && match ev[0] {
            Event::Ran(ph, a, r, st) => ph == q && a == alg && st == a.report(r) && match st {
                RunStatus::Completed => tick_trace(
                    successor(q),
                    next_algorithm(q, a, config),
                    config,
                    ev.drop_first(),
                    end,
                    out,
                ),
                RunStatus::Failed(e) => ev.len() == 1 && end == Some(q) && out == Outcome::Failed(
                    e,
                ),
                RunStatus::Incomplete => {
                    &&& ev.len() == 3
                    &&& ev[1] is Stepped
                    &&& end == Some(q)
                    &&& match ev[2] {
                        Event::Ticked(ph2, a2, r2, t) => {
                            &&& ph2 == q
                            &&& a2 == a
                            &&& r2 == r
                            &&& t == a.tick_result(r)
                            &&& out == match t {
                                Ok(_) => Outcome::<A::Error>::Observed,
                                Err(e) => Outcome::Failed(e),
                            }
                        },
                        _ => false,
                    }
                },
            },
            _ => false,
        },
    }
}

/// A run of completed phases followed by one tick is one tick.
pub proof fn lemma_completed_then_tick<R, A: PhaseAlgorithm<R>>(
    from: Option<Phase>,
    alg: A,
    config: A::Config,
    pre: Seq<Event<A, R, A::Error>>,
    p: Option<Phase>,
    alg_p: A,
    rest: Seq<Event<A, R, A::Error>>,
    end: Option<Phase>,
    out: Outcome<A::Error>,
)
    requires
        completed_through(from, alg, config, pre, p, alg_p),
        tick_trace(p, alg_p, config, rest, end, out),
        p is None ==> rest.len() == 0,
    ensures
        tick_trace(from, alg, config, pre + rest, end, out),
    decreases pre.len(),
{
    if pre.len() == 0 {
        assert(pre + rest =~= rest);
    } else {
        let ph = pre[0]->Ran_0;
        let a = pre[0]->Ran_1;
        lemma_completed_then_tick(
            successor(ph),
            next_algorithm(ph, a, config),
            config,
            pre.drop_first(),
            p,
            alg_p,
            rest,
            end,
            out,
        );
        assert((pre + rest).drop_first() =~= pre.drop_first() + rest);
        assert((pre + rest)[0] == pre[0]);
    }
}

/// A run of completed phases goes on by one more completed phase.
pub proof fn lemma_completed_push<R, A: PhaseAlgorithm<R>>(
    from: Option<Phase>,
    alg: A,
    config: A::Config,
    pre: Seq<Event<A, R, A::Error>>,
    q: Phase,
    a: A,
    r: R,
    a_next: A,
)
    requires
        completed_through(from, alg, config, pre, Some(q), a),
        a.report(r) == RunStatus::<A::Error>::Completed,
        successor(q) is Some ==> a_next == next_algorithm(q, a, config),
    ensures
        completed_through(
            from,
            alg,
            config,
            pre.push(Event::Ran(q, a, r, RunStatus::Completed)),
            successor(q),
            a_next,
        ),
    decreases pre.len(),
{
    let ev = pre.push(Event::<A, R, A::Error>::Ran(q, a, r, RunStatus::Completed));
    if pre.len() == 0 {
        assert(ev.drop_first() =~= Seq::<Event<A, R, A::Error>>::empty());
        assert(completed_through(
            successor(q),
            next_algorithm(q, a, config),
            config,
            Seq::<Event<A, R, A::Error>>::empty(),
            successor(q),
            a_next,
        ));
    } else {
        let ph = pre[0]->Ran_0;
        let a0 = pre[0]->Ran_1;
        lemma_completed_push(successor(ph), next_algorithm(ph, a0, config), config, pre.drop_first(), q, a, r, a_next);
        assert(ev.drop_first() =~= pre.drop_first().push(Event::Ran(q, a, r, RunStatus::Completed)));
        assert(ev[0] == pre[0]);
    }
}

/// Every event of a run of completed phases is a run report.
pub proof fn lemma_completed_all_ran<R, A: PhaseAlgorithm<R>>(
    from: Option<Phase>,
    alg: A,
    config: A::Config,
    ev: Seq<Event<A, R, A::Error>>,
    to: Option<Phase>,
    alg_to: A,
)
    requires
        completed_through(from, alg, config, ev, to, alg_to),
    ensures
        forall|k: int| 0 <= k < ev.len() ==> (#[trigger] ev[k]) is Ran,
    decreases ev.len(),
{
    if ev.len() > 0 {
        let ph = ev[0]->Ran_0;
        let a = ev[0]->Ran_1;
        lemma_completed_all_ran(successor(ph), next_algorithm(ph, a, config), config, ev.drop_first(), to, alg_to);
        assert forall|k: int| 0 <= k < ev.len() implies (#[trigger] ev[k]) is Ran by {
            if k > 0 {
                assert(ev[k] == ev.drop_first()[k - 1]);
            }
        }
    }
}

/// Who holds the claimed part of the resource set: the operator of the
/// current phase, or the finished mission, which holds all of it.
/// `Transitioning` stands only inside a hand-off.
enum Holder<A, R> {
    Transitioning,
    Active(Phase, A, R),
    Finished(R),
}

/// A mission in progress: the current phase operator with the slots it
/// claimed, the slots left over, and the physical simulation that the
/// operator drives.
pub struct Simulator<A: PhaseAlgorithm<ResourceSet<E, I, M, D, W>>, P: Physics, E, I, M, D, W> {
    holder: Holder<A, ResourceSet<E, I, M, D, W>>,
    spare: ResourceSet<E, I, M, D, W>,
    physics: P,
    config: A::Config,
    initial: Ghost<ResourceView<E, I, M, D, W>>,
    claim: Ghost<Claim>,
    log: Ghost<Seq<Event<A, ResourceSet<E, I, M, D, W>, A::Error>>>,
}

impl<A: PhaseAlgorithm<ResourceSet<E, I, M, D, W>>, P: Physics, E, I, M, D, W> Simulator<
    A,
    P,
    E,
    I,
    M,
    D,
    W,
> {
    /// The phase under way, or `None` once the mission is finished.
    pub closed spec fn current(&self) -> Option<Phase> {
        match self.holder {
            Holder::Active(p, _, _) => Some(p),
            _ => None,
        }
    }

    /// The last phase has completed.
    pub closed spec fn is_finished(&self) -> bool {
        self.holder is Finished
    }

    /// How far the mission has come: the current phase's rank, or the
    /// finished rank.
    pub open spec fn rank(&self) -> nat {
        match self.current() {
            Some(p) => phase_rank(p),
            None => finished_rank(),
        }
    }

    /// The part of the resource set that the operator, or the finished
    /// mission, holds.
    pub closed spec fn held(&self) -> ResourceView<E, I, M, D, W> {
        match self.holder {
            Holder::Active(_, _, r) => r@,
            Holder::Finished(r) => r@,
            Holder::Transitioning => empty_view(),
        }
    }

    /// The part of the resource set that is left over.
    pub closed spec fn spare(&self) -> ResourceView<E, I, M, D, W> {
        self.spare@
    }

    /// The whole resource set: the held part and the leftover together.
    pub open spec fn resources(&self) -> ResourceView<E, I, M, D, W> {
        merged(self.held(), self.spare())
    }

    /// What the current phase's operator claimed.
    pub closed spec fn claim(&self) -> Claim {
        self.claim@
    }

    /// The resource set that the mission was given.
    pub closed spec fn initial_resources(&self) -> ResourceView<E, I, M, D, W> {
        self.initial@
    }

    /// Every run, step and tick of the mission so far, in order.
    pub closed spec fn log(&self) -> Seq<Event<A, ResourceSet<E, I, M, D, W>, A::Error>> {
        self.log@
    }

    /// The current phase's algorithm.
    pub closed spec fn algorithm(&self) -> A {
        match self.holder {
            Holder::Active(_, a, _) => a,
            _ => arbitrary(),
        }
    }

    /// The resources that the current phase's operator holds.
    pub closed spec fn held_set(&self) -> ResourceSet<E, I, M, D, W> {
        match self.holder {
            Holder::Active(_, _, r) => r,
            Holder::Finished(r) => r,
            _ => arbitrary(),
        }
    }

    /// The physical simulation.
    pub closed spec fn physics(&self) -> P {
        self.physics
    }

    /// The configuration shared by every phase.
    pub closed spec fn config(&self) -> A::Config {
        self.config
    }

    /// The resource set is held in two parts that share no slot: the part
    /// that the current phase claims, held by its operator, and the rest;
    /// once finished, the mission holds all of it. Together they are the set
    /// the mission was given, which is complete.
    pub closed spec fn wf(&self) -> bool {
        &&& !(self.holder is Transitioning)
        &&& disjoint(self.held(), self.spare())
        &&& self.resources() == self.initial@
        &&& first_missing(self.initial@) is None
        &&& self.holder is Finished ==> self.spare() == empty_view::<E, I, M, D, W>()
        &&& self.holder is Active ==> self.held() == claimed_part(self.initial@, self.claim@)
            && self.spare() == leftover_part(self.initial@, self.claim@)
    }

    /// A well-formed mission holds exactly one resource set, split in two
    /// parts that share no slot: together they are the complete set the
    /// mission was given.
    pub proof fn lemma_single_complete_set(&self)
        requires
            self.wf(),
        ensures
            disjoint(self.held(), self.spare()),
            self.resources() == self.initial_resources(),
            is_complete(self.resources()),
            peripheral_count(self.resources()) == peripheral_count(self.held())
                + peripheral_count(self.spare()),
            self.current() is Some ==> self.held() == claimed_part(
                self.initial_resources(),
                self.claim(),
            ) && self.spare() == leftover_part(self.initial_resources(), self.claim()),
    {
        crate::resources::lemma_merge_keeps_count(self.held(), self.spare());
    }

    /// Starts a mission at the Search phase with the given resource set, or
    /// names the first slot of the set that is empty.
    pub fn new(
        config: A::Config,
        state: &A::State,
        resources: ResourceSet<E, I, M, D, W>,
        physics: P,
    ) -> (r: Result<Self, Slot>)
        ensures
            match r {
                Ok(s) => {
                    &&& first_missing(resources@) is None
                    &&& s.wf()
                    &&& s.current() == Some(Phase::Search)
                    &&& s.initial_resources() == resources@
                    &&& s.log().len() == 0
                    &&& s.physics() == physics
                    &&& s.config() == config
                    &&& s.resources() == resources@
                    &&& disjoint(s.held(), s.spare())
                    &&& s.held() == claimed_part(resources@, s.claim())
                    &&& s.spare() == leftover_part(resources@, s.claim())
                },
                Err(slot) => first_missing(resources@) == Some(slot),
            },
    {
        let ghost given = resources@;
        match resources.build() {
            Err(slot) => Err(slot),
            Ok(resources) => {
                let claim = A::claim(Phase::Search);
                let (claimed, spare) = resources.split(claim);
                proof {
                    lemma_split_then_merge(given, claim);
                }
                let algorithm = A::start(Phase::Search, &config, state);
                Ok(Simulator {
                    holder: Holder::Active(Phase::Search, algorithm, claimed),
                    spare,
                    physics,
                    config,
                    initial: Ghost(given),
                    claim: Ghost(claim),
                    log: Ghost(Seq::empty()),
                })
            },
        }
    }

    /// The phase under way, or `None` once the mission is finished.
    pub fn phase(&self) -> (r: Option<Phase>)
        ensures
            r == self.current(),
    {
        match &self.holder {
            Holder::Active(p, _, _) => Some(*p),
            _ => None,
        }
    }

    /// Ends the current phase and hands the resource set on: the operator's
    /// part is merged back with the leftover, and the whole set goes to the
    /// operator of the next phase, started from the state the phase reached,
    /// which takes its claim and leaves the rest; after the last phase the
    /// finished mission holds it.
    fn hand_over(&mut self)
        requires
            old(self).wf(),
            !old(self).is_finished(),
        ensures
            final(self).wf(),
            final(self).initial_resources() == old(self).initial_resources(),
            final(self).log() == old(self).log(),
            final(self).physics() == old(self).physics(),
            final(self).config() == old(self).config(),
            match old(self).current() {
                Some(p) => final(self).current() == successor(p),
                None => false,
            },
            final(self).current() is Some ==> final(self).algorithm() == next_algorithm(
                old(self).current()->0,
                old(self).algorithm(),
                old(self).config(),
            ),
            final(self).is_finished() <==> old(self).current() == Some(Phase::Run),
    {
        let ghost whole = old(self).initial@;
        let mut taken = Holder::Transitioning;
        std::mem::swap(&mut taken, &mut self.holder);
        let mut spare = ResourceSet::new();
        std::mem::swap(&mut spare, &mut self.spare);
        match taken {
            Holder::Active(phase, algorithm, held) => {
                let state = algorithm.finish();
                let resources = held.merge(spare);
                match next_phase(phase) {
                    Some(next) => {
                        let claim = A::claim(next);
                        let (claimed, rest) = resources.split(claim);
                        proof {
                            lemma_split_then_merge(whole, claim);
                        }
                        let algorithm = A::start(next, &self.config, &state);
                        self.holder = Holder::Active(next, algorithm, claimed);
                        self.spare = rest;
                        self.claim = Ghost(claim);
                    },
                    None => {
                        proof {
                            lemma_merge_empty(whole);
                        }
                        self.holder = Holder::Finished(resources);
                    },
                }
            },
            other => {
                self.holder = other;
                self.spare = spare;
            },
        }
    }

    /// Advances the mission by one tick: first every phase that reports its
    /// goal reached hands over to the next, then simulated time advances one
    /// period, the current phase ticks once, and the agent is observed.
    /// After the last phase has completed, every call reports `Finished`.
    /// What the phases reported, and what was done, is added to the log.
    pub fn simulate_one_step(&mut self) -> (r: Result<P::Observation, StepError<A::Error>>)
        requires
            old(self).wf(),
        ensures
            final(self).wf(),
            final(self).initial_resources() == old(self).initial_resources(),
            final(self).resources() == old(self).resources(),
            peripheral_count(final(self).resources()) == peripheral_count(old(self).resources()),
            final(self).rank() >= old(self).rank(),
            final(self).config() == old(self).config(),
            old(self).log().len() <= final(self).log().len(),
            final(self).log().subrange(0, old(self).log().len() as int) == old(self).log(),
            tick_trace(
                old(self).current(),
                old(self).algorithm(),
                old(self).config(),
                final(self).log().subrange(
                    old(self).log().len() as int,
                    final(self).log().len() as int,
                ),
                final(self).current(),
                outcome_of(r),
            ),
            r is Ok ==> final(self).physics().time() == old(self).physics().time() + 1
                && r->Ok_0 == final(self).physics().observation(),
            !final(self).log().subrange(
                old(self).log().len() as int,
                final(self).log().len() as int,
            ).contains(Event::Stepped) ==> final(self).physics() == old(self).physics(),
            old(self).is_finished() ==> *final(self) == *old(self),
            final(self).is_finished() <==> reports_finished(r),
    {
        let ghost start = self.log@.len();
        proof {
            assert(self.log@.subrange(0, start as int) =~= old(self).log@);
            assert(self.log@.subrange(start as int, start as int) =~= Seq::<
                Event<A, ResourceSet<E, I, M, D, W>, A::Error>,
            >::empty());
        }
        loop
            invariant_except_break
                completed_through(
                    old(self).current(),
                    old(self).algorithm(),
                    old(self).config(),
                    self.log@.subrange(start as int, self.log@.len() as int),
                    self.current(),
                    self.algorithm(),
                ),
            invariant
                self.wf(),
                self.initial_resources() == old(self).initial_resources(),
                self.resources() == old(self).resources(),
                self.rank() >= old(self).rank(),
                self.config == old(self).config,
                self.physics == old(self).physics,
                start == old(self).log@.len(),
                start <= self.log@.len(),
                self.log@.subrange(0, start as int) == old(self).log@,
                old(self).is_finished() ==> *self == *old(self),
            ensures
                self.wf(),
                self.initial_resources() == old(self).initial_resources(),
                self.resources() == old(self).resources(),
                self.rank() >= old(self).rank(),
                self.config == old(self).config,
                self.physics == old(self).physics,
                !old(self).is_finished(),
                self.current() is Some,
                start < self.log@.len(),
                self.log@.subrange(0, start as int) == old(self).log@,
                self.log@.last() == Event::<A, ResourceSet<E, I, M, D, W>, A::Error>::Ran(
                    self.current()->0,
                    self.algorithm(),
                    self.held_set(),
                    RunStatus::Incomplete,
                ),
                self.algorithm().report(self.held_set()) == RunStatus::<A::Error>::Incomplete,
                completed_through(
                    old(self).current(),
                    old(self).algorithm(),
                    old(self).config(),
                    self.log@.subrange(start as int, self.log@.len() - 1),
                    self.current(),
                    self.algorithm(),
                ),
            decreases finished_rank() - self.rank(),
        {
            let ghost before = self.log@;
            let ghost alg = self.algorithm();
            let ghost held = self.held_set();
            let (phase, status) = match &self.holder {
                Holder::Active(p, algorithm, resources) => (*p, algorithm.run(resources)),
                _ => {
                    proof {
                        let pre = before.subrange(start as int, before.len() as int);
                        lemma_completed_then_tick(
                            old(self).current(),
                            old(self).algorithm(),
                            old(self).config(),
                            pre,
                            None,
                            alg,
                            Seq::empty(),
                            None,
                            Outcome::Finished,
                        );
                        assert(pre + Seq::<Event<A, ResourceSet<E, I, M, D, W>, A::Error>>::empty()
                            =~= pre);
                    }
                    return Err(StepError::Finished);
                },
            };
            assert(status == alg.report(held));
            self.log = Ghost(self.log@.push(Event::Ran(phase, alg, held, status)));
            proof {
                assert(self.log@.subrange(0, start as int) =~= old(self).log@);
                assert(self.log@.subrange(start as int, self.log@.len() - 1) =~= before.subrange(
                    start as int,
                    before.len() as int,
                ));
            }
            match next_action(status) {
                Action::HandOver => {
                    assert(status == RunStatus::<A::Error>::Completed);
                    assert(Some(phase) == self.current() && alg == self.algorithm());
                    self.hand_over();
                    assert(self.current() == successor(phase));
                    assert(self.current() is Some ==> self.algorithm() == next_algorithm(
                        phase,
                        alg,
                        old(self).config(),
                    ));
                    proof {
                        let pre = before.subrange(start as int, before.len() as int);
                        lemma_completed_push(
                            old(self).current(),
                            old(self).algorithm(),
                            old(self).config(),
                            pre,
                            phase,
                            alg,
                            held,
                            self.algorithm(),
                        );
                        assert(self.log@.subrange(start as int, self.log@.len() as int) =~= pre.push(
                            Event::Ran(phase, alg, held, RunStatus::Completed),
                        ));
                    }
                },
                Action::Tick => {
                    break ;
                },
                Action::Stop(e) => {
                    proof {
                        let pre = before.subrange(start as int, before.len() as int);
                        let rest = seq![Event::Ran(phase, alg, held, RunStatus::Failed(e))];
                        assert(rest.drop_first().len() == 0);
                        lemma_completed_then_tick(
                            old(self).current(),
                            old(self).algorithm(),
                            old(self).config(),
                            pre,
                            Some(phase),
                            alg,
                            rest,
                            Some(phase),
                            Outcome::Failed(e),
                        );
                        assert(self.log@.subrange(start as int, self.log@.len() as int) =~= pre
                            + rest);
                        lemma_completed_all_ran(
                            old(self).current(),
                            old(self).algorithm(),
                            old(self).config(),
                            pre,
                            Some(phase),
                            alg,
                        );
                        let t = self.log@.subrange(start as int, self.log@.len() as int);
                        assert forall|k: int| 0 <= k < t.len() implies #[trigger] t[k] is Ran by {
                            if k < pre.len() {
                                assert(t[k] == pre[k]);
                            }
                        }
                    }
                    return Err(StepError::Failed(e));
                },
            }
        }
        let ghost mid = self.log@;
        let ghost alg = self.algorithm();
        let ghost held = self.held_set();
        self.physics.step();
        self.log = Ghost(self.log@.push(Event::Stepped));
        let (phase, ticked) = match &self.holder {
            Holder::Active(p, algorithm, resources) => (*p, algorithm.tick(resources)),
            _ => {
                return Err(StepError::Finished);
            },
        };
        assert(ticked == alg.tick_result(held));
        self.log = Ghost(self.log@.push(Event::Ticked(phase, alg, held, ticked)));
        let r = match ticked {
            Ok(()) => Ok(self.physics.observe()),
            Err(e) => Err(StepError::Failed(e)),
        };
        proof {
            let pre = mid.subrange(start as int, mid.len() - 1);
            let rest = seq![
                Event::Ran(phase, alg, held, RunStatus::Incomplete),
                Event::Stepped,
                Event::Ticked(phase, alg, held, ticked),
            ];
            lemma_completed_then_tick(
                old(self).current(),
                old(self).algorithm(),
                old(self).config(),
                pre,
                Some(phase),
                alg,
                rest,
                Some(phase),
                outcome_of(r),
            );
            assert(self.log@.subrange(0, start as int) =~= old(self).log@);
            assert(self.log@.subrange(start as int, self.log@.len() as int) =~= pre + rest);
            assert(self.log@.subrange(start as int, self.log@.len() as int)[pre.len() + 1int]
                == Event::<A, ResourceSet<E, I, M, D, W>, A::Error>::Stepped);
        }
        r
    }

    /// Runs the mission tick after tick, at most `max_ticks` times, until it
    /// finishes or a phase fails, and gives the observation of every tick in
    /// order with the reason it stopped.
    pub fn simulate_to_end(&mut self, max_ticks: usize) -> (r: (
        Vec<P::Observation>,
        BatchEnd<A::Error>,
    ))
        requires
            old(self).wf(),
        ensures
            final(self).wf(),
            final(self).initial_resources() == old(self).initial_resources(),
            final(self).resources() == old(self).resources(),
            final(self).rank() >= old(self).rank(),
            r.0@.len() <= max_ticks,
            r.1 is Finished <==> final(self).is_finished(),
            r.1 is TickLimit ==> r.0@.len() == max_ticks,
            final(self).config() == old(self).config(),
            old(self).is_finished() ==> r.0@.len() == 0 && r.1 is Finished,
    {
        let mut observations: Vec<P::Observation> = Vec::new();
        if self.phase().is_none() {
            return (observations, BatchEnd::Finished);
        }
        let mut k: usize = 0;
        while k < max_ticks
            invariant
                self.wf(),
                self.initial_resources() == old(self).initial_resources(),
                self.resources() == old(self).resources(),
                self.rank() >= old(self).rank(),
                k <= max_ticks,
                observations@.len() == k,
                self.config() == old(self).config(),
                old(self).log().len() <= self.log().len(),
                self.log().subrange(0, old(self).log().len() as int) == old(self).log(),
                !self.is_finished(),
                !old(self).is_finished(),
            decreases max_ticks - k,
        {
            match self.simulate_one_step() {
                Ok(o) => {
                    observations.push(o);
                },
                Err(StepError::Finished) => {
                    return (observations, BatchEnd::Finished);
                },
                Err(StepError::Failed(e)) => {
                    return (observations, BatchEnd::Failed(e));
                },
            }
            k = k + 1;
        }
        (observations, BatchEnd::TickLimit)
    }
}

} // verus!
