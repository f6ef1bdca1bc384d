//! The driver of a run, as a state machine: after each piece of outside work
//! it is told how the work ended, and it says what has to be done next. The
//! caller performs the work; every decision is taken here.

use crate::chain::is_linear;
use crate::graph::{as_ints, failure_subject, links_of, RevisionGraph, RevisionGraphError};
use crate::ledger::{after_delete, after_insert, Applied};
use crate::migrator::{
    all_recorded, graph_of, same_declarations, Direction, Migration, MigrationError,
};
use crate::plan::names_at;
use crate::migrator::{
    build_graph, declare, is_latest, latest_revision, read_of, reported_for, status_of,
};
use crate::revision::{opt_text, MigrationMeta};
use crate::text::{debug_quoted, quoted, views};
use uuid::Uuid;
use vstd::prelude::*;

verus! {

/// How the outside work that the driver asked for ended.
pub enum Event {
    /// The work was done.
    Done,
    /// The ledger was read: these are the applied migrations.
    Retrieved(Applied),
    /// The work failed.
    Failed,
}

/// The outside work that the driver asks for.
#[derive(Debug)]
pub enum Action {
    /// Make sure that the ledger's collection exists.
    Ensure,
    /// Read the applied migrations from the ledger.
    Retrieve,
    /// Run the upward action of the migration at this position.
    Up(usize),
    /// Run the downward action of the migration at this position.
    Down(usize),
    /// Record these names in the ledger.
    Insert(Vec<String>),
    /// Delete the records with these handles from the ledger.
    Delete(Vec<Uuid>),
    /// Nothing is left to do: the run succeeded.
    Finish,
    /// Nothing is left to do: the run stops on the failure that was reported.
    Abort,
    /// Nothing is left to do: the run stops on this error.
    Fail(MigrationError),
}

/// The two legs of a run.
#[derive(Clone, Copy, Debug, PartialEq, Eq, Structural)]
pub enum Leg {
    Down,
    Up,
}

/// What an error of the migrator says, as plain text.
pub enum Fault {
    NotFound(Seq<char>),
    Missing(Seq<char>),
    Context(Seq<char>),
    Other(Seq<char>),
}

/// Where a run stands.
pub enum Phase {
    /// The ledger's collection is being ensured.
    Ensuring,
    /// The ledger is being read.
    Retrieving,
    /// A migration of the current leg is running.
    Migrating,
    /// The ledger is being updated for the current leg.
    Writing,
    /// The run succeeded.
    Finished,
    /// The run stopped on a failure of the outside work.
    Aborted,
    /// The run stopped on an error of its own.
    Failed(Fault),
}

/// The progress of a run to which a graph is known: the phase, the leg, the
/// steps of the leg, and how many of them are done.
pub struct Progress {
    pub phase: Phase,
    pub leg: Leg,
    pub steps: Seq<int>,
    pub done: int,
}

enum Stage {
    Ensuring,
    Retrieving,
    Migrating,
    Writing,
    Finished,
    Aborted,
    Failed(MigrationError),
}

impl MigrationError {
    /// What the error says, as plain text.
    pub open spec fn fault(self) -> Fault {
        match self {
            MigrationError::Graph(error) => Fault::NotFound(error.subject()),
            MigrationError::Missing(what) => Fault::Missing(what@),
            MigrationError::Context(error) => Fault::Context(error.detail()),
            MigrationError::Other(what) => Fault::Other(what@),
        }
    }

    /// A copy of the error.
    pub fn duplicate(&self) -> (copy: MigrationError)
        ensures
            copy == *self,
    {
        match self {
            MigrationError::Graph(RevisionGraphError::NotFound(what)) => MigrationError::Graph(
                RevisionGraphError::NotFound(what.clone()),
            ),
            MigrationError::Missing(what) => MigrationError::Missing(what.clone()),
            MigrationError::Context(crate::context::ContextError::Resource(what)) => {
                MigrationError::Context(crate::context::ContextError::Resource(what.clone()))
            },
            MigrationError::Other(what) => MigrationError::Other(what.clone()),
        }
    }
}

/// The error for an applied migration that has no handle: the migration's
/// name, as `{:?}` prints it, is not found.
pub fn missing_handle(name: &str) -> (error: MigrationError)
    ensures
        error.fault() == Fault::NotFound(debug_quoted(name@)),
{
    MigrationError::Graph(RevisionGraphError::NotFound(quoted(name)))
}

/// What is reported when the driver is told of work that it did not ask for.
pub open spec fn unexpected() -> Fault {
    Fault::Other("unexpected event"@)
}

/// Where a run stands once `done` steps of a leg are done: on the next step
/// where one is left, on the update of the ledger where the steps are all
/// done, and at the end of the leg where there was no step at all. A step of
/// a downward leg needs the handle of its ledger record; where the entry has
/// none, the run stops before the step.
pub open spec fn settle<M>(
    graph: RevisionGraph<M>,
    direction: Direction,
    leg: Leg,
    steps: Seq<int>,
    done: int,
) -> Progress {
    if done < steps.len() {
        let entry = graph.nodes()[steps[done]].migration;
        if leg == Leg::Down && entry.id is None {
            Progress {
                phase: Phase::Failed(Fault::NotFound(debug_quoted(entry.meta.name@))),
                leg,
                steps,
                done,
            }
        } else {
            Progress { phase: Phase::Migrating, leg, steps, done }
        }
    } else if steps.len() > 0 {
        Progress { phase: Phase::Writing, leg, steps, done }
    } else {
        end_leg(graph, direction, leg)
    }
}

/// Where a run stands at the end of a leg: a refresh goes from its downward
/// leg to its upward leg, which runs every migration from the queue to the
/// head; every other leg ends the run.
pub open spec fn end_leg<M>(graph: RevisionGraph<M>, direction: Direction, leg: Leg) -> Progress {
    if direction == Direction::Refresh && leg == Leg::Down && graph.chain().len() > 0 {
        Progress { phase: Phase::Migrating, leg: Leg::Up, steps: graph.chain(), done: 0 }
    } else {
        Progress { phase: Phase::Finished, leg, steps: Seq::empty(), done: 0 }
    }
}

/// Where a run stands once its graph is built: at the start of its first
/// leg. An upward or a downward run to a revision that no node carries stops
/// at once: the target is not found, and nothing is run or written.
pub open spec fn first_leg<M>(
    graph: RevisionGraph<M>,
    direction: Direction,
    from: Option<Seq<char>>,
    to: Option<Seq<char>>,
) -> Progress {
    match direction {
        Direction::Up => if to is Some && !graph.known(to->0) {
            Progress {
                phase: Phase::Failed(Fault::NotFound(to->0)),
                leg: Leg::Up,
                steps: Seq::empty(),
                done: 0,
            }
        } else {
            settle(graph, direction, Leg::Up, graph.up_steps(from, to), 0)
        },
        Direction::Down => if to is Some && !graph.known(to->0) {
            Progress {
                phase: Phase::Failed(Fault::NotFound(to->0)),
                leg: Leg::Down,
                steps: Seq::empty(),
                done: 0,
            }
        } else {
            settle(graph, direction, Leg::Down, graph.down_steps(to), 0)
        },
        Direction::Refresh => settle(graph, direction, Leg::Down, graph.down_steps(None), 0),
    }
}

/// The steps that a leg of a run has: the pending entries on the upward path
/// for an upward run, the applied entries on the downward path for a downward
/// run; for a refresh, the applied entries from the head down to the queue,
/// and then every entry from the queue to the head.
pub open spec fn planned<M>(
    graph: RevisionGraph<M>,
    direction: Direction,
    leg: Leg,
    from: Option<Seq<char>>,
    to: Option<Seq<char>>,
) -> Seq<int> {
    match direction {
        Direction::Up => graph.up_steps(from, to),
        Direction::Down => graph.down_steps(to),
        Direction::Refresh => match leg {
            Leg::Down => graph.down_steps(None),
            Leg::Up => graph.chain(),
        },
    }
}

/// The handles of the entries at the given positions, in order.
pub open spec fn handles_at<M>(graph: RevisionGraph<M>, positions: Seq<int>) -> Seq<Uuid> {
    positions.map_values(|i: int| graph.nodes()[i].migration.id->0)
}

/// The names that the ledger holds while a leg runs: what the run read,
/// but for the upward leg of a refresh, which runs on what the downward leg
/// left.
pub open spec fn leg_store<M>(
    graph: RevisionGraph<M>,
    ledger: Map<Seq<char>, Uuid>,
    direction: Direction,
    leg: Leg,
) -> Set<Seq<char>> {
    if direction == Direction::Refresh && leg == Leg::Up {
        after_delete(ledger, handles_at(graph, graph.down_steps(None))).dom()
    } else {
        ledger.dom()
    }
}

/// The names that the ledger holds at the end of a leg: after the names of
/// the steps of an upward leg are inserted, or the records of the steps of a
/// downward leg are deleted.
pub open spec fn leg_end_store<M>(
    graph: RevisionGraph<M>,
    ledger: Map<Seq<char>, Uuid>,
    direction: Direction,
    leg: Leg,
    from: Option<Seq<char>>,
    to: Option<Seq<char>>,
) -> Set<Seq<char>> {
    match leg {
        Leg::Up => leg_store(graph, ledger, direction, leg).union(
            names_at(graph.nodes(), planned(graph, direction, leg, from, to)).to_set(),
        ),
        Leg::Down => after_delete(
            ledger,
            handles_at(graph, planned(graph, direction, leg, from, to)),
        ).dom(),
    }
}

/// The leg that a run in the given direction ends with.
pub open spec fn last_of(direction: Direction) -> Leg {
    match direction {
        Direction::Down => Leg::Down,
        _ => Leg::Up,
    }
}

/// The driver of one run of the migrator.
pub struct Driver<M> {
    direction: Direction,
    from: Option<String>,
    to: Option<String>,
    stage: Stage,
    declared: Vec<Migration<M>>,
    graph: Option<RevisionGraph<M>>,
    leg: Leg,
    steps: Vec<usize>,
    done: usize,
    ledger: Ghost<Map<Seq<char>, Uuid>>,
    store: Ghost<Set<Seq<char>>>,
}

impl<M> Driver<M> {
    /// The direction of the run.
    pub closed spec fn direction(&self) -> Direction {
        self.direction
    }

    /// The revision from which an upward run starts, where one is given.
    pub closed spec fn from(&self) -> Option<Seq<char>> {
        opt_text(self.from)
    }

    /// The target of the run, where one is given.
    pub closed spec fn to(&self) -> Option<Seq<char>> {
        opt_text(self.to)
    }

    /// The declared migrations, as long as no graph is built of them.
    pub closed spec fn declared(&self) -> Seq<Migration<M>> {
        self.declared@
    }

    /// The graph, once it is built.
    pub closed spec fn graph(&self) -> Option<RevisionGraph<M>> {
        self.graph
    }

    /// The applied migrations as the run read them from the ledger.
    pub closed spec fn ledger(&self) -> Map<Seq<char>, Uuid> {
        self.ledger@
    }

    /// The names that the ledger holds, as far as the run has read and
    /// written it: what the run read, changed by every update that the run
    /// asked for and was told to be done.
    pub closed spec fn store(&self) -> Set<Seq<char>> {
        self.store@
    }

    /// The progress of the run: where it stands, on which leg, with which
    /// steps, and how many of them are done.
    pub closed spec fn progress(&self) -> Progress {
        Progress {
            phase: match self.stage {
                Stage::Ensuring => Phase::Ensuring,
                Stage::Retrieving => Phase::Retrieving,
                Stage::Migrating => Phase::Migrating,
                Stage::Writing => Phase::Writing,
                Stage::Finished => Phase::Finished,
                Stage::Aborted => Phase::Aborted,
                Stage::Failed(error) => Phase::Failed(error.fault()),
            },
            leg: self.leg,
            steps: as_ints(self.steps@),
            done: self.done as int,
        }
    }

    /// Where the run stands: the phase of its progress.
    pub open spec fn phase(&self) -> Phase {
        self.progress().phase
    }

    /// The run is over.
    pub open spec fn over(&self) -> bool {
        self.phase() is Finished || self.phase() is Aborted || self.phase() is Failed
    }

    /// The invariant of a driver. While a migration runs or the ledger is
    /// written, a graph is there whose entries agree with the ledger as it
    /// was read, and which carries the target of an upward or a downward
    /// run; the steps are the steps planned for the leg, and the step
    /// that runs is one of them; the ledger is written only after the last
    /// step of a leg that had steps; a step of a downward leg that ran, or
    /// runs, has a handle; and the ledger holds what it held when the leg
    /// began. Once the run has finished, the ledger holds what the last leg
    /// left in it.
    #[verifier::type_invariant]
    pub closed spec fn wf(&self) -> bool {
        &&& self.stage is Migrating || self.stage is Writing || self.stage is Finished ==> {
            &&& self.graph matches Some(graph)
            &&& graph.wf()
            &&& all_recorded(graph.entries(), self.ledger@)
            &&& self.direction == Direction::Up ==> self.leg == Leg::Up
            &&& self.direction == Direction::Down ==> self.leg == Leg::Down
            &&& self.direction != Direction::Refresh ==> (self.to matches Some(revision)
                ==> graph.known(revision@))
        }
        &&& self.stage is Migrating || self.stage is Writing ==> {
            &&& self.graph matches Some(graph)
            &&& as_ints(self.steps@) == planned(
                graph,
                self.direction,
                self.leg,
                opt_text(self.from),
                opt_text(self.to),
            )
            &&& self.store@ == leg_store(graph, self.ledger@, self.direction, self.leg)
            &&& forall|k: int|
                0 <= k < self.steps@.len() ==> (#[trigger] self.steps@[k]) < graph.nodes().len()
            &&& self.leg == Leg::Down ==> forall|k: int|
                0 <= k < self.steps@.len() && k <= self.done ==> graph.nodes()[(
                #[trigger] self.steps@[k]) as int].migration.id is Some
        }
        &&& self.stage is Migrating ==> self.done < self.steps@.len()
        &&& self.stage is Writing ==> self.done == self.steps@.len() && self.done > 0
        &&& self.stage is Finished ==> {
            &&& self.graph matches Some(graph)
            &&& self.leg == last_of(self.direction)
            &&& self.store@ == leg_end_store(
                graph,
                self.ledger@,
                self.direction,
                self.leg,
                opt_text(self.from),
                opt_text(self.to),
            )
        }
    }

    /// What the invariant says of the progress.
    pub proof fn lemma_progress(&self)
        requires
            self.wf(),
        ensures
            self.phase() is Migrating ==> 0 <= self.progress().done < self.progress().steps.len(),
            self.phase() is Writing ==> self.progress().done == self.progress().steps.len()
                && self.progress().done > 0,
            self.phase() is Migrating || self.phase() is Writing || self.phase() is Finished ==> {
                &&& self.graph() matches Some(graph)
                &&& graph.wf()
                &&& all_recorded(graph.entries(), self.ledger())
                &&& self.direction() == Direction::Up ==> self.progress().leg == Leg::Up
                &&& self.direction() == Direction::Down ==> self.progress().leg == Leg::Down
                &&& self.direction() != Direction::Refresh ==> (self.to() matches Some(revision)
                    ==> graph.known(revision))
            },
            self.phase() is Migrating || self.phase() is Writing ==> {
                &&& self.progress().steps == planned(
                    self.graph()->0,
                    self.direction(),
                    self.progress().leg,
                    self.from(),
                    self.to(),
                )
                &&& self.store() == leg_store(
                    self.graph()->0,
                    self.ledger(),
                    self.direction(),
                    self.progress().leg,
                )
            },
            self.phase() is Finished ==> {
                &&& self.progress().leg == last_of(self.direction())
                &&& self.store() == leg_end_store(
                    self.graph()->0,
                    self.ledger(),
                    self.direction(),
                    self.progress().leg,
                    self.from(),
                    self.to(),
                )
            },
    {
    }

    /// A driver for a run over the declared migrations, in the given
    /// direction. The first work it asks for is to ensure the ledger.
    pub fn new(
        declared: Vec<Migration<M>>,
        from: Option<String>,
        to: Option<String>,
        direction: Direction,
    ) -> (driver: Driver<M>)
        ensures
            driver.wf(),
            driver.phase() is Ensuring,
            driver.direction() == direction,
            driver.from() == opt_text(from),
            driver.to() == opt_text(to),
            driver.declared() == declared@,
            driver.graph() is None,
    {
        Driver {
            direction,
            from,
            to,
            stage: Stage::Ensuring,
            declared,
            graph: None,
            leg: Leg::Up,
            steps: Vec::new(),
            done: 0,
            ledger: Ghost(Map::empty()),
            store: Ghost(Set::empty()),
        }
    }

    /// The migration object at a position of the graph: the one to run for
    /// an action that names the position.
    pub fn runner(&self, position: usize) -> (runner: Option<&M>)
        ensures
            match runner {
                Some(runner) => self.graph() matches Some(graph) && position < graph.nodes().len()
                    && *runner == graph.nodes()[position as int].migration.runner,
                None => self.graph() matches Some(graph) ==> position >= graph.nodes().len(),
            },
    {
        match &self.graph {
            Some(graph) => match graph.node(position) {
                Some(node) => Some(&node.migration.runner),
                None => None,
            },
            None => None,
        }
    }

    /// The graph of the run, once the ledger is read.
    pub fn revision_graph(&self) -> (graph: Option<&RevisionGraph<M>>)
        ensures
            match graph {
                Some(graph) => self.graph() == Some(*graph),
                None => self.graph() is None,
            },
    {
        self.graph.as_ref()
    }

    /// The action is the one that the driver waits for in its phase.
    pub open spec fn awaits(&self, action: Action) -> bool {
        let progress = self.progress();
        match self.phase() {
            Phase::Ensuring => action is Ensure,
            Phase::Retrieving => action is Retrieve,
            Phase::Migrating => match progress.leg {
                Leg::Up => action == Action::Up(progress.steps[progress.done] as usize),
                Leg::Down => action == Action::Down(progress.steps[progress.done] as usize),
            },
            Phase::Writing => match progress.leg {
                Leg::Up => action matches Action::Insert(names) && views(names@) == names_at(
                    self.graph()->0.nodes(),
                    progress.steps,
                ),
                Leg::Down => action matches Action::Delete(handles) && handles@ == handles_at(
                    self.graph()->0,
                    progress.steps,
                ),
            },
            Phase::Finished => action is Finish,
            Phase::Aborted => action is Abort,
            Phase::Failed(fault) => action matches Action::Fail(error) && error.fault() == fault,
        }
    }

    /// The outside work that the driver waits for.
    pub fn action(&self) -> (action: Action)
        ensures
            self.awaits(action),
    {
        proof {
            use_type_invariant(self);
        }
        match &self.stage {
            Stage::Ensuring => Action::Ensure,
            Stage::Retrieving => Action::Retrieve,
            Stage::Migrating => {
                let position = self.steps[self.done];
                assert(as_ints(self.steps@)[self.done as int] == position);
                match self.leg {
                    Leg::Up => Action::Up(position),
                    Leg::Down => Action::Down(position),
                }
            },
            Stage::Writing => match self.leg {
                Leg::Up => Action::Insert(self.names()),
                Leg::Down => Action::Delete(self.handles()),
            },
            Stage::Finished => Action::Finish,
            Stage::Aborted => Action::Abort,
            Stage::Failed(error) => Action::Fail(error.duplicate()),
        }
    }

    /// The names that the ledger holds once the update that the driver waits
    /// for is done.
    pub open spec fn after_write(&self) -> Set<Seq<char>> {
        match self.progress().leg {
            Leg::Up => self.store().union(
                names_at(self.graph()->0.nodes(), self.progress().steps).to_set(),
            ),
            Leg::Down => after_delete(
                self.ledger(),
                handles_at(self.graph()->0, self.progress().steps),
            ).dom(),
        }
    }

    /// What follows in a run: where the driver stands after it is told how
    /// the work that it waited for ended.
    ///
    /// A run that is over stays as it is. A reported failure stops the run at
    /// once, before any further work, so that no ledger update follows it.
    /// After the ledger is ensured it is read. Once it is read, the graph is
    /// built of the declared migrations, each with the handle and status that
    /// the ledger gives it, and the first leg starts. After each migration the
    /// run settles on the next step, and after the last on the update of the
    /// ledger. After the update the leg ends. Work that was not asked for
    /// stops the run.
    pub open spec fn follows(&self, event: Event, next: Driver<M>) -> bool {
        &&& next.direction() == self.direction()
        &&& next.from() == self.from()
        &&& next.to() == self.to()
        &&& if self.over() {
            next.phase() == self.phase() && next.store() == self.store()
        } else {
            match (self.phase(), event) {
                (_, Event::Failed) => next.phase() is Aborted && next.store() == self.store(),
                (Phase::Ensuring, Event::Done) => {
                    &&& next.phase() is Retrieving
                    &&& next.declared() == self.declared()
                    &&& next.graph() is None
                },
                (Phase::Retrieving, Event::Retrieved(applied)) => {
                    if is_linear(links_of(self.declared())) {
                        &&& next.graph() matches Some(graph)
                        &&& graph.wf()
                        &&& same_declarations(graph.entries(), self.declared())
                        &&& all_recorded(graph.entries(), applied@)
                        &&& next.ledger() == applied@
                        &&& next.store() == applied@.dom()
                        &&& next.progress() == first_leg(
                            graph,
                            self.direction(),
                            self.from(),
                            self.to(),
                        )
                    } else {
                        next.phase() == Phase::Failed(
                            Fault::NotFound(failure_subject(links_of(self.declared()))),
                        )
                    }
                },
                (Phase::Migrating, Event::Done) => {
                    &&& next.graph() == self.graph()
                    &&& next.ledger() == self.ledger()
                    &&& next.store() == self.store()
                    &&& next.progress() == settle(
                        self.graph()->0,
                        self.direction(),
                        self.progress().leg,
                        self.progress().steps,
                        self.progress().done + 1,
                    )
                },
                (Phase::Writing, Event::Done) => {
                    &&& next.graph() == self.graph()
                    &&& next.ledger() == self.ledger()
                    &&& next.store() == self.after_write()
                    &&& next.progress() == end_leg(
                        self.graph()->0,
                        self.direction(),
                        self.progress().leg,
                    )
                },
                _ => next.phase() == Phase::Failed(unexpected()) && next.store() == self.store(),
            }
        }
    }

    /// Takes in how the work that the driver waited for ended.
    #[verifier::rlimit(40)]
    pub fn step(self, event: Event) -> (next: Driver<M>)
        ensures
            next.wf(),
            self.follows(event, next),
    {
        proof {
            use_type_invariant(&self);
        }
        match &self.stage {
            Stage::Finished | Stage::Aborted | Stage::Failed(_) => {
                return self;
            },
            _ => {},
        }
        match event {
            Event::Failed => self.halt(Stage::Aborted),
            Event::Done => match &self.stage {
                Stage::Ensuring => Driver {
                    direction: self.direction,
                    from: self.from,
                    to: self.to,
                    stage: Stage::Retrieving,
                    declared: self.declared,
                    graph: None,
                    leg: self.leg,
                    steps: self.steps,
                    done: self.done,
                    ledger: self.ledger,
                    store: self.store,
                },
                Stage::Migrating => {
                    let graph = match self.graph {
                        Some(graph) => graph,
                        None => vstd::pervasive::unreached(),
                    };
                    let total = self.steps.len();
                    assert(self.done < total);
                    let done = self.done + 1;
                    Driver::settled(
                        self.direction,
                        self.from,
                        self.to,
                        graph,
                        self.leg,
                        self.steps,
                        done,
                        self.ledger,
                        self.store,
                    )
                },
                Stage::Writing => {
                    let ghost written = self.after_write();
                    let graph = match self.graph {
                        Some(graph) => graph,
                        None => vstd::pervasive::unreached(),
                    };
                    Driver::ended(
                        self.direction,
                        self.from,
                        self.to,
                        graph,
                        self.leg,
                        self.ledger,
                        Ghost(written),
                    )
                },
                _ => self.halt(Stage::Failed(MigrationError::Other("unexpected event".to_string()))),
            },
            Event::Retrieved(applied) => match &self.stage {
                Stage::Retrieving => {
                    match graph_of(self.declared, &applied) {
                        Ok(graph) => Driver::started(
                            self.direction,
                            self.from,
                            self.to,
                            graph,
                            Ghost(applied@),
                        ),
                        Err(error) => {
                            let failed = Driver {
                                direction: self.direction,
                                from: self.from,
                                to: self.to,
                                stage: Stage::Failed(error),
                                declared: Vec::new(),
                                graph: None,
                                leg: self.leg,
                                steps: self.steps,
                                done: self.done,
                                ledger: Ghost(applied@),
                                store: Ghost(applied@.dom()),
                            };
                            failed
                        },
                    }
                },
                _ => self.halt(Stage::Failed(MigrationError::Other("unexpected event".to_string()))),
            },
        }
    }

    /// The driver stopped in `stage`.
    fn halt(self, stage: Stage) -> (next: Driver<M>)
        requires
            stage is Aborted || stage is Failed,
        ensures
            next.wf(),
            next.direction() == self.direction(),
            next.from() == self.from(),
            next.to() == self.to(),
            next.store() == self.store(),
            next.stage == stage,
    {
        Driver {
            direction: self.direction,
            from: self.from,
            to: self.to,
            stage,
            declared: self.declared,
            graph: self.graph,
            leg: self.leg,
            steps: self.steps,
            done: self.done,
            ledger: self.ledger,
            store: self.store,
        }
    }

    /// The driver at the start of the first leg of its run.
    #[verifier::rlimit(40)]
    fn started(
        direction: Direction,
        from: Option<String>,
        to: Option<String>,
        graph: RevisionGraph<M>,
        Ghost(ledger): Ghost<Map<Seq<char>, Uuid>>,
    ) -> (next: Driver<M>)
        requires
            graph.wf(),
            all_recorded(graph.entries(), ledger),
        ensures
            next.wf(),
            next.direction() == direction,
            next.from() == opt_text(from),
            next.to() == opt_text(to),
            next.graph() == Some(graph),
            next.ledger() == ledger,
            next.store() == ledger.dom(),
            next.progress() == first_leg(graph, direction, opt_text(from), opt_text(to)),
    {
        match direction {
            Direction::Up => {
                let planned = graph.plan_up(
                    match &from {
                        Some(revision) => Some(revision.as_str()),
                        None => None,
                    },
                    match &to {
                        Some(revision) => Some(revision.as_str()),
                        None => None,
                    },
                );
                match planned {
                    Ok(steps) => Driver::settled(
                        direction,
                        from,
                        to,
                        graph,
                        Leg::Up,
                        steps,
                        0,
                        Ghost(ledger),
                        Ghost(ledger.dom()),
                    ),
                    Err(error) => {
                        let next = Driver {
                            direction,
                            from,
                            to,
                            stage: Stage::Failed(error),
                            declared: Vec::new(),
                            graph: Some(graph),
                            leg: Leg::Up,
                            steps: Vec::new(),
                            done: 0,
                            ledger: Ghost(ledger),
                            store: Ghost(ledger.dom()),
                        };
                        assert(as_ints(next.steps@) == Seq::<int>::empty());
                        next
                    },
                }
            },
            Direction::Down => {
                let planned = graph.plan_down(
                    match &to {
                        Some(revision) => Some(revision.as_str()),
                        None => None,
                    },
                );
                match planned {
                    Ok(steps) => Driver::settled(
                        direction,
                        from,
                        to,
                        graph,
                        Leg::Down,
                        steps,
                        0,
                        Ghost(ledger),
                        Ghost(ledger.dom()),
                    ),
                    Err(error) => {
                        let next = Driver {
                            direction,
                            from,
                            to,
                            stage: Stage::Failed(error),
                            declared: Vec::new(),
                            graph: Some(graph),
                            leg: Leg::Down,
                            steps: Vec::new(),
                            done: 0,
                            ledger: Ghost(ledger),
                            store: Ghost(ledger.dom()),
                        };
                        assert(as_ints(next.steps@) == Seq::<int>::empty());
                        next
                    },
                }
            },
            Direction::Refresh => {
                let steps = match graph.plan_down(None) {
                    Ok(steps) => steps,
                    Err(_) => vstd::pervasive::unreached(),
                };
                Driver::settled(
                    direction,
                    from,
                    to,
                    graph,
                    Leg::Down,
                    steps,
                    0,
                    Ghost(ledger),
                    Ghost(ledger.dom()),
                )
            },
        }
    }

    /// The driver once `done` steps of a leg are done.
    #[verifier::rlimit(40)]
    fn settled(
        direction: Direction,
        from: Option<String>,
        to: Option<String>,
        graph: RevisionGraph<M>,
        leg: Leg,
        steps: Vec<usize>,
        done: usize,
        Ghost(ledger): Ghost<Map<Seq<char>, Uuid>>,
        Ghost(store): Ghost<Set<Seq<char>>>,
    ) -> (next: Driver<M>)
        requires
            graph.wf(),
            all_recorded(graph.entries(), ledger),
            as_ints(steps@) == planned(graph, direction, leg, opt_text(from), opt_text(to)),
            store == leg_store(graph, ledger, direction, leg),
            direction == Direction::Up ==> leg == Leg::Up,
            direction == Direction::Down ==> leg == Leg::Down,
            direction != Direction::Refresh ==> (to matches Some(revision) ==> graph.known(
                revision@,
            )),
            done <= steps@.len(),
            forall|k: int| 0 <= k < steps@.len() ==> (#[trigger] steps@[k]) < graph.nodes().len(),
            leg == Leg::Down ==> forall|k: int|
                0 <= k < done ==> graph.nodes()[(#[trigger] steps@[k]) as int].migration.id is Some,
        ensures
            next.wf(),
            next.direction() == direction,
            next.from() == opt_text(from),
            next.to() == opt_text(to),
            next.graph() == Some(graph),
            next.ledger() == ledger,
            next.store() == store,
            next.progress() == settle(graph, direction, leg, as_ints(steps@), done as int),
    {
        if done < steps.len() {
            let position = steps[done];
            assert(as_ints(steps@)[done as int] == position);
            let entry = &graph.node_at(position).migration;
            let missing = match leg {
                Leg::Down => match entry.id {
                    Some(_) => None,
                    None => Some(missing_handle(entry.meta.name.as_str())),
                },
                Leg::Up => None,
            };
            match missing {
                Some(error) => Driver {
                    direction,
                    from,
                    to,
                    stage: Stage::Failed(error),
                    declared: Vec::new(),
                    graph: Some(graph),
                    leg,
                    steps,
                    done,
                    ledger: Ghost(ledger),
                    store: Ghost(store),
                },
                None => Driver {
                    direction,
                    from,
                    to,
                    stage: Stage::Migrating,
                    declared: Vec::new(),
                    graph: Some(graph),
                    leg,
                    steps,
                    done,
                    ledger: Ghost(ledger),
                    store: Ghost(store),
                },
            }
        } else if steps.len() > 0 {
            Driver {
                direction,
                from,
                to,
                stage: Stage::Writing,
                declared: Vec::new(),
                graph: Some(graph),
                leg,
                steps,
                done,
                ledger: Ghost(ledger),
                store: Ghost(store),
            }
        } else {
            proof {
                graph.lemma_chain();
                let none = as_ints(steps@);
                assert(none.len() == 0);
                assert(names_at(graph.nodes(), none).to_set() =~= Set::<Seq<char>>::empty());
                assert(after_delete(ledger, handles_at(graph, none)).dom() =~= ledger.dom());
                assert(store =~= leg_end_store(
                    graph,
                    ledger,
                    direction,
                    leg,
                    opt_text(from),
                    opt_text(to),
                ));
            }
            Driver::ended(direction, from, to, graph, leg, Ghost(ledger), Ghost(store))
        }
    }

    /// The driver at the end of a leg.
    #[verifier::rlimit(40)]
    fn ended(
        direction: Direction,
        from: Option<String>,
        to: Option<String>,
        graph: RevisionGraph<M>,
        leg: Leg,
        Ghost(ledger): Ghost<Map<Seq<char>, Uuid>>,
        Ghost(store): Ghost<Set<Seq<char>>>,
    ) -> (next: Driver<M>)
        requires
            graph.wf(),
            all_recorded(graph.entries(), ledger),
            direction == Direction::Up ==> leg == Leg::Up,
            direction == Direction::Down ==> leg == Leg::Down,
            direction != Direction::Refresh ==> (to matches Some(revision) ==> graph.known(
                revision@,
            )),
            store == leg_end_store(graph, ledger, direction, leg, opt_text(from), opt_text(to)),
        ensures
            next.wf(),
            next.direction() == direction,
            next.from() == opt_text(from),
            next.to() == opt_text(to),
            next.graph() == Some(graph),
            next.ledger() == ledger,
            next.store() == store,
            next.progress() == end_leg(graph, direction, leg),
    {
        let again = match direction {
            Direction::Refresh => match leg {
                Leg::Down => true,
                Leg::Up => false,
            },
            _ => false,
        };
        if again {
            let steps = graph.plan_all();
            proof {
                graph.lemma_chain();
            }
            Driver {
                direction,
                from,
                to,
                stage: Stage::Migrating,
                declared: Vec::new(),
                graph: Some(graph),
                leg: Leg::Up,
                steps,
                done: 0,
                ledger: Ghost(ledger),
                store: Ghost(store),
            }
        } else {
            let next = Driver {
                direction,
                from,
                to,
                stage: Stage::Finished,
                declared: Vec::new(),
                graph: Some(graph),
                leg,
                steps: Vec::new(),
                done: 0,
                ledger: Ghost(ledger),
                store: Ghost(store),
            };
            assert(as_ints(next.steps@) == Seq::<int>::empty());
            next
        }
    }

    /// The names of the entries at the steps of the leg.
    fn names(&self) -> (names: Vec<String>)
        requires
            self.stage is Writing,
        ensures
            views(names@) == names_at(self.graph()->0.nodes(), as_ints(self.steps@)),
    {
        proof {
            use_type_invariant(self);
        }
        let graph = match &self.graph {
            Some(graph) => graph,
            None => vstd::pervasive::unreached(),
        };
        let mut names: Vec<String> = Vec::new();
        let mut k: usize = 0;
        while k < self.steps.len()
            invariant
                k <= self.steps@.len(),
                forall|j: int|
                    0 <= j < self.steps@.len() ==> (#[trigger] self.steps@[j])
                        < graph.nodes().len(),
                names@.len() == k,
                forall|j: int|
                    0 <= j < k ==> (#[trigger] names@[j])@ == graph.nodes()[self.steps@[j] as int].migration.meta.name@,
            decreases self.steps@.len() - k,
        {
            names.push(graph.node_at(self.steps[k]).migration.meta.name.clone());
            k = k + 1;
        }
        proof {
            assert(views(names@) =~= names_at(graph.nodes(), as_ints(self.steps@)));
        }
        names
    }

    /// The handles of the entries at the steps of the leg.
    fn handles(&self) -> (handles: Vec<Uuid>)
        requires
            self.stage is Writing,
            self.leg == Leg::Down,
        ensures
            handles@ == handles_at(self.graph()->0, as_ints(self.steps@)),
    {
        proof {
            use_type_invariant(self);
        }
        let graph = match &self.graph {
            Some(graph) => graph,
            None => vstd::pervasive::unreached(),
        };
        let mut handles: Vec<Uuid> = Vec::new();
        let mut k: usize = 0;
        while k < self.steps.len()
            invariant
                k <= self.steps@.len(),
                self.done == self.steps@.len(),
                forall|j: int|
                    0 <= j < self.steps@.len() ==> (#[trigger] self.steps@[j])
                        < graph.nodes().len(),
                forall|j: int|
                    0 <= j < self.steps@.len() && j <= self.done ==> graph.nodes()[(
                    #[trigger] self.steps@[j]) as int].migration.id is Some,
                handles@.len() == k,
                forall|j: int|
                    0 <= j < k ==> (#[trigger] handles@[j]) == graph.nodes()[self.steps@[j] as int].migration.id->0,
            decreases self.steps@.len() - k,
        {
            let id = match graph.node_at(self.steps[k]).migration.id {
                Some(id) => id,
                None => vstd::pervasive::unreached(),
            };
            handles.push(id);
            k = k + 1;
        }
        proof {
            assert(handles@ =~= handles_at(*graph, as_ints(self.steps@)));
        }
        handles
    }
}

impl<M: MigrationMeta> Driver<M> {
    /// A driver for a run over the given migrations, by the metadata that
    /// each reports when the driver is made.
    pub fn exec(migrations: Vec<M>, from: Option<String>, to: Option<String>, direction: Direction) -> (driver: Driver<M>)
        ensures
            driver.wf(),
            driver.phase() is Ensuring,
            driver.direction() == direction,
            driver.from() == opt_text(from),
            driver.to() == opt_text(to),
            driver.graph() is None,
            read_of(driver.declared(), migrations@),
    {
        Driver::new(declare(migrations), from, to, direction)
    }

    /// A driver that runs the pending migrations, up to `to` or to the head.
    pub fn up(migrations: Vec<M>, to: Option<String>) -> (driver: Driver<M>)
        ensures
            driver.wf(),
            driver.phase() is Ensuring,
            driver.direction() == Direction::Up,
            driver.from() is None,
            driver.to() == opt_text(to),
            driver.graph() is None,
            read_of(driver.declared(), migrations@),
    {
        Driver::exec(migrations, None, to, Direction::Up)
    }

    /// A driver that reverts the applied migrations, down to but not
    /// including `to`, or all of them. A target that no migration declares
    /// is not found once the graph is built, and nothing is reverted.
    pub fn down(migrations: Vec<M>, to: Option<String>) -> (driver: Driver<M>)
        ensures
            driver.wf(),
            driver.phase() is Ensuring,
            driver.direction() == Direction::Down,
            driver.from() is None,
            driver.to() == opt_text(to),
            driver.graph() is None,
            read_of(driver.declared(), migrations@),
    {
        Driver::exec(migrations, None, to, Direction::Down)
    }

    /// A driver that reverts every applied migration and then runs them all.
    pub fn refresh(migrations: Vec<M>) -> (driver: Driver<M>)
        ensures
            driver.wf(),
            driver.phase() is Ensuring,
            driver.direction() == Direction::Refresh,
            driver.from() is None,
            driver.to() is None,
            driver.graph() is None,
            read_of(driver.declared(), migrations@),
    {
        Driver::exec(migrations, None, None, Direction::Refresh)
    }

    /// A driver that reverts every applied migration.
    pub fn reset(migrations: Vec<M>) -> (driver: Driver<M>)
        ensures
            driver.wf(),
            driver.phase() is Ensuring,
            driver.direction() == Direction::Down,
            driver.from() is None,
            driver.to() is None,
            driver.graph() is None,
            read_of(driver.declared(), migrations@),
    {
        Driver::exec(migrations, None, None, Direction::Down)
    }
}

/// What a project hands to the engine: its migrations. Everything else comes
/// with the trait.
pub trait MigratorTrait {
    /// The type of the project's migrations.
    type Migration: MigrationMeta;

    /// The declared migrations. Their order is the insertion order of the
    /// graph; the order of the chain comes from the parent pointers alone.
    fn migrations() -> Vec<Self::Migration>;

    /// The graph of the declared migrations, each with the handle and the
    /// status that the ledger gives it.
    fn build_graph(applied: &Applied) -> (result: Result<
        RevisionGraph<Self::Migration>,
        MigrationError,
    >)
        default_ensures
            result matches Ok(graph) ==> graph.wf() && graph.shaped() && all_recorded(
                graph.entries(),
                applied@,
            ),
            result matches Err(error) ==> error is Graph,
    {
        build_graph(Self::migrations(), applied)
    }

    /// The lines of the status report for the declared migrations, given the
    /// applied ones.
    ///
    /// What the migrations declare is theirs to say. Whatever they say, a
    /// report that comes back is the report of declarations that form one
    /// simple chain: a line for each of them, in the order of the chain, with
    /// the status that the applied set gives to its name. Where nothing comes
    /// back, the graph could not be built.
    fn status(applied: &Applied) -> (result: Result<Vec<String>, MigrationError>)
        default_ensures
            result matches Ok(lines) ==> exists|declared: Seq<Migration<Self::Migration>>|
                is_linear(links_of(declared)) && #[trigger] reported_for(
                    declared,
                    applied@,
                    lines@,
                ),
            result matches Err(error) ==> error is Graph,
    {
        let declared = declare(Self::migrations());
        let ghost read = declared@;
        let result = status_of(declared, applied);
        proof {
            if result is Ok {
                assert(reported_for(read, applied@, result->Ok_0@));
            }
        }
        result
    }

    /// The declared migration with the latest date; of several with that
    /// date, the one declared last. Which migrations are declared, and with
    /// which dates, is theirs to say; without any migration, that is the
    /// error.
    fn latest_revision() -> (result: Result<Self::Migration, MigrationError>)
        default_ensures
            result matches Ok(migration) ==> exists|
                declared: Seq<Self::Migration>,
                dates: Seq<String>,
                latest: int,
            |
                dates.len() == declared.len() && #[trigger] is_latest(dates, latest) && migration
                    == #[trigger] declared[latest],
            result matches Err(error) ==> error matches MigrationError::Missing(what) && what@
                == "no migrations"@,
    {
        let declared = Self::migrations();
        let ghost read = declared@;
        let result = latest_revision(declared);
        proof {
            if result is Ok {
                let (dates, latest) = choose|dates: Seq<String>, latest: int|
                    dates.len() == read.len() && #[trigger] is_latest(dates, latest)
                        && result->Ok_0 == read[latest];
                assert(dates.len() == read.len() && is_latest(dates, latest) && result->Ok_0
                    == read[latest]);
            }
        }
        result
    }

    /// A driver that reverts every applied migration and then runs them all.
    fn refresh() -> (driver: Driver<Self::Migration>)
        default_ensures
            driver.wf(),
            driver.phase() is Ensuring,
            driver.direction() == Direction::Refresh,
            driver.from() is None,
            driver.to() is None,
    {
        Driver::refresh(Self::migrations())
    }

    /// A driver that reverts every applied migration.
    fn reset() -> (driver: Driver<Self::Migration>)
        default_ensures
            driver.wf(),
            driver.phase() is Ensuring,
            driver.direction() == Direction::Down,
            driver.from() is None,
            driver.to() is None,
    {
        Driver::reset(Self::migrations())
    }

    /// A driver that runs the pending migrations, up to `to` or to the head.
    fn up(to: Option<String>) -> (driver: Driver<Self::Migration>)
        default_ensures
            driver.wf(),
            driver.phase() is Ensuring,
            driver.direction() == Direction::Up,
            driver.from() is None,
            driver.to() == opt_text(to),
    {
        Driver::up(Self::migrations(), to)
    }

    /// A driver that reverts the applied migrations, down to but not
    /// including `to`, or all of them. A target that no migration declares
    /// is not found once the graph is built, and nothing is reverted.
    fn down(to: Option<String>) -> (driver: Driver<Self::Migration>)
        default_ensures
            driver.wf(),
            driver.phase() is Ensuring,
            driver.direction() == Direction::Down,
            driver.from() is None,
            driver.to() == opt_text(to),
    {
        Driver::down(Self::migrations(), to)
    }

    /// A driver for a run in the given direction.
    fn exec(from: Option<String>, to: Option<String>, direction: Direction) -> (driver: Driver<
        Self::Migration,
    >)
        default_ensures
            driver.wf(),
            driver.phase() is Ensuring,
            driver.direction() == direction,
            driver.from() == opt_text(from),
            driver.to() == opt_text(to),
    {
        Driver::exec(Self::migrations(), from, to, direction)
    }
}

} // verus!
