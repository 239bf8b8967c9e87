//! Batch operations over the catalog: relocating the saves of every entry,
//! linking them again, and taking them back. A batch is driven like a job of
//! the link engine, request by request.
use crate::errors::{result_view, FailureKind, Fault, FaultView};
use crate::database::{views, Database};
use crate::disk::{run_batch, Disk};
use crate::effects::lemma_run_batch;
use crate::game::{Game, GameView};
use crate::linker::{
    request_view, Linker, LinkerView, NodeKind, Operation, Reply, ReplyView, Request, RequestView,
};
use crate::paths::{join, joined};
use crate::settings::{texts, Settings};
use crate::simulation::Simulation;
use vstd::prelude::*;
use vstd::string::*;

verus! {

/// What a batch does to the entries it selects.
#[derive(Clone, Copy, PartialEq, Eq, Debug, Structural)]
pub enum BatchKind {
    /// Relocates the saves into storage and links to them.
    Link,
    /// Links to saves that are in storage already.
    Restore,
    /// Removes the links and moves the saves back out of storage.
    Unlink,
}

/// One save path of an entry: where the application looks for the data, and
/// where storage keeps it.
#[derive(Debug)]
pub struct Route {
    pub source: String,
    pub destination: String,
}

/// A [`Route`] as plain values.
pub struct RouteView {
    pub source: Seq<char>,
    pub destination: Seq<char>,
}

impl View for Route {
    type V = RouteView;

    open spec fn view(&self) -> RouteView {
        RouteView { source: self.source@, destination: self.destination@ }
    }
}

/// What a batch needs to know of one entry.
#[derive(Debug)]
pub struct Plan {
    pub id: String,
    /// The directory that storage keeps for the entry.
    pub dir: String,
    /// Whether the entry is passed over.
    pub ignored: bool,
    pub saves: Vec<Route>,
}

/// A [`Plan`] as plain values.
pub struct PlanView {
    pub id: Seq<char>,
    pub dir: Seq<char>,
    pub ignored: bool,
    pub saves: Seq<RouteView>,
}

impl View for Plan {
    type V = PlanView;

    open spec fn view(&self) -> PlanView {
        PlanView {
            id: self.id@,
            dir: self.dir@,
            ignored: self.ignored,
            saves: self.saves@.map_values(|r: Route| r@),
        }
    }
}

/// The plans of a list, as plain values.
pub open spec fn plan_views(plans: Seq<Plan>) -> Seq<PlanView> {
    plans.map_values(|p: Plan| p@)
}

/// The plan for `game` with its saves kept under `storage_path`: the entry
/// has the directory named by its id, and each save path the place in it
/// named by its own id.
pub open spec fn plan_of(game: GameView, storage_path: Seq<char>, ignored: bool) -> PlanView {
    PlanView {
        id: game.id,
        dir: joined(storage_path, game.id),
        ignored,
        saves: Seq::new(
            game.saves.len(),
            |j: int|
                RouteView {
                    source: game.saves[j].expanded,
                    destination: joined(joined(storage_path, game.id), game.saves[j].id),
                },
        ),
    }
}

/// How a batch dealt with one entry.
#[derive(Debug)]
pub enum Status {
    /// The entry is ignored, and nothing was done.
    Ignored,
    /// The batch only reports, and nothing was done.
    Planned,
    /// Every save path of the entry was dealt with.
    Completed,
    /// A step failed; the steps after it for this entry were not taken.
    Failed(Fault),
}

/// A [`Status`] as plain values.
pub enum StatusView {
    Ignored,
    Planned,
    Completed,
    Failed(FaultView),
}

impl View for Status {
    type V = StatusView;

    open spec fn view(&self) -> StatusView {
        match *self {
            Status::Ignored => StatusView::Ignored,
            Status::Planned => StatusView::Planned,
            Status::Completed => StatusView::Completed,
            Status::Failed(fault) => StatusView::Failed(fault@),
        }
    }
}

/// How a batch dealt with the entry at the place `entry` of its list.
#[derive(Debug)]
pub struct Outcome {
    pub entry: usize,
    pub status: Status,
}

/// An [`Outcome`] as plain values.
pub struct OutcomeView {
    pub entry: nat,
    pub status: StatusView,
}

impl View for Outcome {
    type V = OutcomeView;

    open spec fn view(&self) -> OutcomeView {
        OutcomeView { entry: self.entry as nat, status: self.status@ }
    }
}

/// The outcomes of a list, as plain values.
pub open spec fn outcome_views(report: Seq<Outcome>) -> Seq<OutcomeView> {
    report.map_values(|o: Outcome| o@)
}

/// The plain values of the result of a batch.
pub open spec fn report_view(r: Result<Vec<Outcome>, Fault>) -> Result<
    Seq<OutcomeView>,
    FaultView,
> {
    match r {
        Ok(report) => Ok(outcome_views(report@)),
        Err(fault) => Err(fault@),
    }
}

/// The places of a list, as numbers.
pub open spec fn places(selected: Seq<usize>) -> Seq<nat> {
    selected.map_values(|i: usize| i as nat)
}

/// Where a batch stands.
#[derive(Debug)]
pub enum Stage {
    /// Asking whether links can be made.
    Clearance,
    /// Selecting: asking about the entry at the place `entry`, for a batch
    /// that relocates about its save path `save`.
    Select { entry: usize, save: usize },
    /// Making the storage directory of the entry selected at `turn`.
    Prepare { turn: usize },
    /// Running `job` for the save path `save` of the entry selected at
    /// `turn`.
    Work { turn: usize, save: usize, job: Linker },
    /// Removing the storage directory of the entry selected at `turn`.
    CleanUp { turn: usize },
    /// Done: with every selected entry dealt with, or with the fault that
    /// stopped the batch before it began.
    Finished(Result<(), Fault>),
}

/// A [`Stage`] as plain values.
pub enum StageView {
    Clearance,
    Select { entry: nat, save: nat },
    Prepare { turn: nat },
    Work { turn: nat, save: nat, job: LinkerView },
    CleanUp { turn: nat },
    Finished(Result<(), FaultView>),
}

impl View for Stage {
    type V = StageView;

    open spec fn view(&self) -> StageView {
        match *self {
            Stage::Clearance => StageView::Clearance,
            Stage::Select { entry, save } => StageView::Select {
                entry: entry as nat,
                save: save as nat,
            },
            Stage::Prepare { turn } => StageView::Prepare { turn: turn as nat },
            Stage::Work { turn, save, job } => StageView::Work {
                turn: turn as nat,
                save: save as nat,
                job: job@,
            },
            Stage::CleanUp { turn } => StageView::CleanUp { turn: turn as nat },
            Stage::Finished(result) => StageView::Finished(result_view(result)),
        }
    }
}

/// What a batch keeps throughout: its entries, the ones selected, and
/// what it has to report, as plain values.
pub struct LedgerView {
    pub kind: BatchKind,
    /// Whether the batch only reports what it would do.
    pub dry_run: bool,
    /// Whether the entries were selected by the caller.
    pub preselected: bool,
    pub plans: Seq<PlanView>,
    /// The places of the entries selected so far, in ascending order.
    pub selected: Seq<nat>,
    /// The outcomes so far, in the order of the selected entries.
    pub report: Seq<OutcomeView>,
}

/// A batch as plain values.
pub struct BatchView {
    pub ledger: LedgerView,
    pub stage: StageView,
}

/// Whether something of this kind at a save path can be relocated: anything
/// but a link.
pub open spec fn is_movable(kind: NodeKind) -> bool {
    !(kind is Missing) && !(kind is Link)
}

/// The operation that a batch of the kind carries out on each save path.
pub open spec fn operation_of(kind: BatchKind) -> Operation {
    match kind {
        BatchKind::Link => Operation::Relocate,
        BatchKind::Restore => Operation::Link,
        BatchKind::Unlink => Operation::Unlink,
    }
}

impl LedgerView {
    /// The selected places lie within the list of plans.
    pub open spec fn well_formed(self) -> bool {
        forall|t: int|
            0 <= t < self.selected.len() ==> (#[trigger] self.selected[t]) < self.plans.len()
    }

    /// The operation that the batch carries out on each save path.
    pub open spec fn operation(self) -> Operation {
        operation_of(self.kind)
    }

    /// The plan of the entry selected at `turn`.
    pub open spec fn plan(self, turn: nat) -> PlanView {
        self.plans[self.selected[turn as int] as int]
    }

    /// The batch at the given stage.
    pub open spec fn at(self, stage: StageView) -> BatchView {
        BatchView { ledger: self, stage }
    }

    /// The batch stopped because a reply did not answer its request.
    pub open spec fn derailed(self) -> BatchView {
        self.at(StageView::Finished(Err(FaultView::Protocol)))
    }

    /// The ledger with the entry at the place `entry` selected.
    pub open spec fn chosen(self, entry: nat) -> LedgerView {
        LedgerView {
            kind: self.kind,
            dry_run: self.dry_run,
            preselected: self.preselected,
            plans: self.plans,
            selected: self.selected.push(entry),
            report: self.report,
        }
    }

    /// The ledger with `status` reported for the entry selected at `turn`.
    pub open spec fn reported(self, turn: nat, status: StatusView) -> LedgerView {
        LedgerView {
            kind: self.kind,
            dry_run: self.dry_run,
            preselected: self.preselected,
            plans: self.plans,
            selected: self.selected,
            report: self.report.push(OutcomeView { entry: self.selected[turn as int], status }),
        }
    }

    /// The batch once it may go ahead: it selects its entries, unless the
    /// caller has.
    pub open spec fn after_clearance(self) -> BatchView {
        if self.preselected {
            self.execute_from(0)
        } else {
            self.select_from(0, 0)
        }
    }

    /// The batch at its next question of selection, from the save path `save`
    /// of the entry at `entry` on; with none left, it goes on to act. A batch
    /// that relocates asks about each save path of an entry in turn; the
    /// others ask about the storage directory of each entry that has an id.
    pub open spec fn select_from(self, entry: nat, save: nat) -> BatchView
        decreases self.plans.len() - entry,
    {
        if entry >= self.plans.len() {
            self.execute_from(0)
        } else if self.kind is Link {
            if save < self.plans[entry as int].saves.len() {
                self.at(StageView::Select { entry, save })
            } else {
                self.select_from(entry + 1, 0)
            }
        } else {
            if self.plans[entry as int].id.len() > 0 {
                self.at(StageView::Select { entry, save: 0 })
            } else {
                self.select_from(entry + 1, 0)
            }
        }
    }

    /// The batch at its next request on behalf of the entries selected at
    /// `turn` and after; with none left, it is finished. Ignored entries are
    /// reported as such, and so is every entry by a batch that only reports.
    pub open spec fn execute_from(self, turn: nat) -> BatchView
        decreases self.selected.len() - turn, 1nat,
    {
        if turn >= self.selected.len() {
            self.at(StageView::Finished(Ok(())))
        } else if self.plan(turn).ignored {
            self.reported(turn, StatusView::Ignored).execute_from(turn + 1)
        } else if self.dry_run {
            self.reported(turn, StatusView::Planned).execute_from(turn + 1)
        } else if self.kind is Link {
            self.at(StageView::Prepare { turn })
        } else {
            self.work_from(turn, 0)
        }
    }

    /// The batch at its next request on behalf of the entry selected at
    /// `turn`, from its save path `save` on. With no save path left, a batch
    /// that takes saves back removes the storage directory, and the others
    /// report the entry as completed.
    pub open spec fn work_from(self, turn: nat, save: nat) -> BatchView
        decreases self.selected.len() - turn, 0nat,
    {
        if turn >= self.selected.len() {
            self.at(StageView::Finished(Ok(())))
        } else if save < self.plan(turn).saves.len() {
            self.at(
                StageView::Work {
                    turn,
                    save,
                    job: LinkerView::start(
                        self.operation(),
                        self.plan(turn).saves[save as int].source,
                        self.plan(turn).saves[save as int].destination,
                    ),
                },
            )
        } else if self.kind is Unlink {
            self.at(StageView::CleanUp { turn })
        } else {
            self.reported(turn, StatusView::Completed).execute_from(turn + 1)
        }
    }
}

impl BatchView {
    /// The places that the stage names lie within the lists, and a job under
    /// way is the one for its save path and has not finished.
    pub open spec fn well_formed(self) -> bool {
        &&& self.ledger.well_formed()
        &&& match self.stage {
            StageView::Clearance => true,
            StageView::Select { entry, save } => {
                &&& entry < self.ledger.plans.len()
                &&& self.ledger.kind is Link ==> save < self.ledger.plans[entry as int].saves.len()
            },
            StageView::Prepare { turn } => turn < self.ledger.selected.len(),
            StageView::Work { turn, save, job } => {
                &&& turn < self.ledger.selected.len()
                &&& save < self.ledger.plan(turn).saves.len()
                &&& job.operation == self.ledger.operation()
                &&& job.source == self.ledger.plan(turn).saves[save as int].source
                &&& job.target == self.ledger.plan(turn).saves[save as int].destination
                &&& job.request().is_some()
            },
            StageView::CleanUp { turn } => turn < self.ledger.selected.len(),
            StageView::Finished(_) => true,
        }
    }

    /// A batch over `plans` before its first request. One that only reports
    /// does not ask whether links can be made.
    pub open spec fn begin(kind: BatchKind, dry_run: bool, preselected: bool, plans: Seq<PlanView>)
        -> BatchView {
        let ledger = LedgerView {
            kind,
            dry_run,
            preselected,
            plans,
            selected: if preselected {
                Seq::new(plans.len(), |i: int| i as nat)
            } else {
                Seq::empty()
            },
            report: Seq::empty(),
        };
        if dry_run {
            ledger.after_clearance()
        } else {
            ledger.at(StageView::Clearance)
        }
    }

    /// The request that the batch is waiting on, if it has not finished.
    pub open spec fn request(self) -> Option<RequestView> {
        match self.stage {
            StageView::Clearance => Some(RequestView::CheckLinks),
            StageView::Select { entry, save } => Some(
                if self.ledger.kind is Link {
                    RequestView::Inspect(self.ledger.plans[entry as int].saves[save as int].source)
                } else {
                    RequestView::Exists(self.ledger.plans[entry as int].dir)
                },
            ),
            StageView::Prepare { turn } => Some(
                RequestView::CreateDirAll(self.ledger.plan(turn).dir),
            ),
            StageView::Work { job, .. } => job.request(),
            StageView::CleanUp { turn } => Some(RequestView::RemoveDir(self.ledger.plan(turn).dir)),
            StageView::Finished(_) => None,
        }
    }

    /// How the batch ended, if it has finished: with an outcome for each
    /// selected entry, or with the fault that stopped it before it began.
    pub open spec fn outcome(self) -> Option<Result<Seq<OutcomeView>, FaultView>> {
        match self.stage {
            StageView::Finished(Ok(())) => Some(Ok(self.ledger.report)),
            StageView::Finished(Err(fault)) => Some(Err(fault)),
            _ => None,
        }
    }

    /// The batch after the reply to its request. A finished batch stays as it
    /// is.
    pub open spec fn resumed(self, reply: ReplyView) -> BatchView {
        let ledger = self.ledger;
        match self.stage {
            StageView::Finished(_) => self,
            StageView::Clearance => match reply {
                ReplyView::Checked(Ok(())) => ledger.after_clearance(),
                ReplyView::Checked(Err(fault)) => ledger.at(StageView::Finished(Err(fault))),
                _ => ledger.derailed(),
            },
            StageView::Select { entry, save } => match reply {
                ReplyView::Kind(kind) => if !(ledger.kind is Link) {
                    ledger.derailed()
                } else if is_movable(kind) {
                    ledger.chosen(entry).select_from(entry + 1, 0)
                } else {
                    ledger.select_from(entry, save + 1)
                },
                ReplyView::Flag(found) => if ledger.kind is Link {
                    ledger.derailed()
                } else if found {
                    ledger.chosen(entry).select_from(entry + 1, 0)
                } else {
                    ledger.select_from(entry + 1, 0)
                },
                _ => ledger.derailed(),
            },
            StageView::Prepare { turn } => match reply {
                ReplyView::Done(Ok(())) => ledger.work_from(turn, 0),
                ReplyView::Done(Err(failure)) => if failure.kind is AlreadyExists {
                    ledger.work_from(turn, 0)
                } else {
                    ledger.reported(turn, StatusView::Failed(FaultView::Io(failure))).execute_from(
                        turn + 1,
                    )
                },
                _ => ledger.derailed(),
            },
            StageView::Work { turn, save, job } => {
                let next = job.resumed(reply);
                match next.outcome() {
                    None => ledger.at(StageView::Work { turn, save, job: next }),
                    Some(Ok(())) => ledger.work_from(turn, save + 1),
                    Some(Err(fault)) => ledger.reported(turn, StatusView::Failed(fault)).execute_from(
                        turn + 1,
                    ),
                }
            },
            StageView::CleanUp { turn } => match reply {
                ReplyView::Done(Ok(())) => ledger.reported(
                    turn,
                    StatusView::Completed,
                ).execute_from(turn + 1),
                ReplyView::Done(Err(failure)) => ledger.reported(
                    turn,
                    StatusView::Failed(FaultView::Io(failure)),
                ).execute_from(turn + 1),
                _ => ledger.derailed(),
            },
        }
    }
}

impl BatchView {
    /// How far the batch is from its end, coarsely: yet to be let through,
    /// selecting, acting, or finished.
    pub open spec fn class(self) -> nat {
        match self.stage {
            StageView::Clearance => 3,
            StageView::Select { .. } => 2,
            StageView::Prepare { .. } | StageView::Work { .. } | StageView::CleanUp { .. } => 1,
            StageView::Finished(_) => 0,
        }
    }

    /// The turn of the entry that the batch is acting on.
    pub open spec fn turn(self) -> nat {
        match self.stage {
            StageView::Prepare { turn } => turn,
            StageView::Work { turn, .. } => turn,
            StageView::CleanUp { turn } => turn,
            _ => 0,
        }
    }

    /// The entries that the batch has yet to go through at its stage.
    pub open spec fn entries_left(self) -> nat {
        match self.stage {
            StageView::Select { entry, .. } => (self.ledger.plans.len() - entry) as nat,
            StageView::Prepare { .. } | StageView::Work { .. } | StageView::CleanUp { .. } => (
            self.ledger.selected.len() - self.turn()) as nat,
            _ => 0,
        }
    }

    /// The steps that the batch has yet to take on its entry.
    pub open spec fn saves_left(self) -> nat {
        match self.stage {
            StageView::Select { entry, save } => (self.ledger.plans[entry as int].saves.len()
                - save) as nat,
            StageView::Prepare { turn } => self.ledger.plan(turn).saves.len() + 1,
            StageView::Work { turn, save, .. } => (self.ledger.plan(turn).saves.len()
                - save) as nat,
            _ => 0,
        }
    }

    /// A bound on the requests that the job under way has yet to ask.
    pub open spec fn job_steps(self) -> nat {
        match self.stage {
            StageView::Work { job, .. } => job.steps_left(),
            _ => 0,
        }
    }

    /// `self` is nearer to the end than `other`.
    pub open spec fn nearer_than(self, other: BatchView) -> bool {
        ||| self.class() < other.class()
        ||| self.class() == other.class() && self.entries_left() < other.entries_left()
        ||| self.class() == other.class() && self.entries_left() == other.entries_left()
            && self.saves_left() < other.saves_left()
        ||| self.class() == other.class() && self.entries_left() == other.entries_left()
            && self.saves_left() == other.saves_left() && self.job_steps() < other.job_steps()
    }
}

proof fn lemma_execute_from(ledger: LedgerView, turn: nat)
    requires
        ledger.well_formed(),
        turn <= ledger.selected.len(),
    ensures
        ledger.execute_from(turn).well_formed(),
        ledger.execute_from(turn).ledger.selected == ledger.selected,
        ledger.execute_from(turn).ledger.plans == ledger.plans,
        ledger.execute_from(turn).class() <= 1,
        ledger.execute_from(turn).class() == 1 ==> ledger.execute_from(turn).turn() >= turn,
    decreases ledger.selected.len() - turn, 1nat,
{
    if turn >= ledger.selected.len() {
    } else if ledger.plan(turn).ignored {
        lemma_execute_from(ledger.reported(turn, StatusView::Ignored), turn + 1);
    } else if ledger.dry_run {
        lemma_execute_from(ledger.reported(turn, StatusView::Planned), turn + 1);
    } else if ledger.kind is Link {
    } else {
        lemma_work_from(ledger, turn, 0);
    }
}

proof fn lemma_work_from(ledger: LedgerView, turn: nat, save: nat)
    requires
        ledger.well_formed(),
        turn < ledger.selected.len(),
    ensures
        ledger.work_from(turn, save).well_formed(),
        ledger.work_from(turn, save).ledger.selected == ledger.selected,
        ledger.work_from(turn, save).ledger.plans == ledger.plans,
        ledger.work_from(turn, save).class() <= 1,
        ledger.work_from(turn, save).class() == 1 ==> ledger.work_from(turn, save).turn() > turn
            || (ledger.work_from(turn, save).turn() == turn && match ledger.work_from(
            turn,
            save,
        ).stage {
            StageView::Work { save: at, .. } => at == save,
            StageView::CleanUp { .. } => true,
            _ => false,
        }),
    decreases ledger.selected.len() - turn, 0nat,
{
    if save < ledger.plan(turn).saves.len() {
    } else if ledger.kind is Unlink {
    } else {
        lemma_execute_from(ledger.reported(turn, StatusView::Completed), turn + 1);
    }
}

proof fn lemma_select_from(ledger: LedgerView, entry: nat, save: nat)
    requires
        ledger.well_formed(),
    ensures
        ledger.select_from(entry, save).well_formed(),
        ledger.select_from(entry, save).ledger.plans == ledger.plans,
        ledger.select_from(entry, save).class() <= 2,
        ledger.select_from(entry, save).stage matches StageView::Select { entry: e, save: s }
            ==> e > entry || (e == entry && (s == save || !(ledger.kind is Link))),
    decreases ledger.plans.len() - entry,
{
    if entry >= ledger.plans.len() {
        lemma_execute_from(ledger, 0);
    } else if ledger.kind is Link {
        if save < ledger.plans[entry as int].saves.len() {
        } else {
            lemma_select_from(ledger, entry + 1, 0);
        }
    } else {
        if ledger.plans[entry as int].id.len() > 0 {
        } else {
            lemma_select_from(ledger, entry + 1, 0);
        }
    }
}

/// A batch before its first request is well formed.
pub proof fn lemma_begin(kind: BatchKind, dry_run: bool, preselected: bool, plans: Seq<PlanView>)
    ensures
        BatchView::begin(kind, dry_run, preselected, plans).well_formed(),
{
    let ledger = BatchView::begin(kind, false, preselected, plans).ledger;
    let dry = BatchView::begin(kind, true, preselected, plans);
    let quiet = LedgerView {
        kind,
        dry_run: true,
        preselected,
        plans,
        selected: ledger.selected,
        report: Seq::empty(),
    };
    lemma_execute_from(quiet, 0);
    lemma_select_from(quiet, 0, 0);
}

/// Every reply brings a batch that has not finished nearer to its end, and
/// leaves it well formed.
pub proof fn lemma_resumed(batch: BatchView, reply: ReplyView)
    requires
        batch.well_formed(),
        batch.request().is_some(),
    ensures
        batch.resumed(reply).well_formed(),
        batch.resumed(reply).nearer_than(batch),
{
    let ledger = batch.ledger;
    match batch.stage {
        StageView::Finished(_) => {},
        StageView::Clearance => {
            lemma_execute_from(ledger, 0);
            lemma_select_from(ledger, 0, 0);
        },
        StageView::Select { entry, save } => {
            lemma_select_from(ledger.chosen(entry), entry + 1, 0);
            lemma_select_from(ledger, entry + 1, 0);
            lemma_select_from(ledger, entry, save + 1);
        },
        StageView::Prepare { turn } => {
            lemma_work_from(ledger, turn, 0);
            match reply {
                ReplyView::Done(Err(failure)) => {
                    lemma_execute_from(
                        ledger.reported(turn, StatusView::Failed(FaultView::Io(failure))),
                        turn + 1,
                    );
                },
                _ => {},
            }
        },
        StageView::Work { turn, save, job } => {
            let next = job.resumed(reply);
            crate::linker::lemma_job_resumed(job, reply);
            lemma_work_from(ledger, turn, save + 1);
            match next.outcome() {
                Some(Err(fault)) => {
                    lemma_execute_from(ledger.reported(turn, StatusView::Failed(fault)), turn + 1);
                },
                _ => {},
            }
        },
        StageView::CleanUp { turn } => {
            match reply {
                ReplyView::Done(Ok(())) => {
                    lemma_execute_from(ledger.reported(turn, StatusView::Completed), turn + 1);
                },
                ReplyView::Done(Err(failure)) => {
                    lemma_execute_from(
                        ledger.reported(turn, StatusView::Failed(FaultView::Io(failure))),
                        turn + 1,
                    );
                },
                _ => {},
            }
        },
    }
}

/// The plans for `games` with their saves kept under `storage_path`; an
/// entry is passed over where its id is among `ignored`.
pub open spec fn plans_of(games: Seq<GameView>, storage_path: Seq<char>, ignored: Seq<Seq<char>>)
    -> Seq<PlanView> {
    Seq::new(
        games.len(),
        |i: int| plan_of(games[i], storage_path, ignored.contains(games[i].id)),
    )
}

/// What a batch keeps throughout.
#[derive(Debug)]
struct Ledger {
    kind: BatchKind,
    dry_run: bool,
    preselected: bool,
    plans: Vec<Plan>,
    selected: Vec<usize>,
    report: Vec<Outcome>,
}

impl View for Ledger {
    type V = LedgerView;

    closed spec fn view(&self) -> LedgerView {
        LedgerView {
            kind: self.kind,
            dry_run: self.dry_run,
            preselected: self.preselected,
            plans: plan_views(self.plans@),
            selected: places(self.selected@),
            report: outcome_views(self.report@),
        }
    }
}

/// A batch operation under way. The driver asks it for the [`Batch::next`]
/// request, carries that out, and hands the reply to [`Batch::resume`], until
/// no request is left; [`Batch::outcome`] then gives the report.
#[derive(Debug)]
pub struct Batch {
    ledger: Ledger,
    stage: Stage,
}

impl View for Batch {
    type V = BatchView;

    closed spec fn view(&self) -> BatchView {
        BatchView { ledger: self.ledger@, stage: self.stage@ }
    }
}

impl Ledger {
    #[verifier::type_invariant]
    spec fn inv(self) -> bool {
        self@.well_formed()
    }

    fn at(self, stage: Stage) -> (r: Batch)
        requires
            self@.at(stage@).well_formed(),
        ensures
            r@ == self@.at(stage@),
    {
        Batch { ledger: self, stage }
    }

    fn derailed(self) -> (r: Batch)
        ensures
            r@ == self@.derailed(),
    {
        proof {
            use_type_invariant(&self);
        }
        self.at(Stage::Finished(Err(Fault::Protocol)))
    }

    fn chosen(self, entry: usize) -> (r: Ledger)
        requires
            entry < self@.plans.len(),
        ensures
            r@ == self@.chosen(entry as nat),
    {
        proof {
            use_type_invariant(&self);
        }
        let mut selected = self.selected;
        proof {
            assert(places(selected@.push(entry)) =~= places(selected@).push(entry as nat));
        }
        selected.push(entry);
        Ledger {
            kind: self.kind,
            dry_run: self.dry_run,
            preselected: self.preselected,
            plans: self.plans,
            selected,
            report: self.report,
        }
    }

    fn reported(self, turn: usize, status: Status) -> (r: Ledger)
        requires
            turn < self@.selected.len(),
        ensures
            r@ == self@.reported(turn as nat, status@),
    {
        proof {
            use_type_invariant(&self);
        }
        let outcome = Outcome { entry: self.selected[turn], status };
        let mut report = self.report;
        proof {
            assert(outcome_views(report@.push(outcome)) =~= outcome_views(report@).push(outcome@));
        }
        report.push(outcome);
        Ledger {
            kind: self.kind,
            dry_run: self.dry_run,
            preselected: self.preselected,
            plans: self.plans,
            selected: self.selected,
            report,
        }
    }

    fn after_clearance(self) -> (r: Batch)
        ensures
            r@ == self@.after_clearance(),
    {
        if self.preselected {
            self.execute_from(0)
        } else {
            self.select_from(0, 0)
        }
    }

    fn select_from(self, entry: usize, save: usize) -> (r: Batch)
        requires
            entry <= self@.plans.len(),
        ensures
            r@ == self@.select_from(entry as nat, save as nat),
    {
        proof {
            use_type_invariant(&self);
        }
        let mut e = entry;
        let mut s = save;
        while e < self.plans.len()
            invariant
                e <= self@.plans.len(),
                self@.well_formed(),
                self@.select_from(e as nat, s as nat) == self@.select_from(entry as nat, save as nat),
            decreases self@.plans.len() - e,
        {
            if self.kind == BatchKind::Link {
                if s < self.plans[e].saves.len() {
                    return self.at(Stage::Select { entry: e, save: s });
                }
            } else {
                if !self.plans[e].id.as_str().is_empty() {
                    return self.at(Stage::Select { entry: e, save: 0 });
                }
            }
            e += 1;
            s = 0;
        }
        self.execute_from(0)
    }

    fn execute_from(self, turn: usize) -> (r: Batch)
        requires
            turn <= self@.selected.len(),
        ensures
            r@ == self@.execute_from(turn as nat),
        decreases self@.selected.len() - turn, 1nat,
    {
        let mut ledger = self;
        let mut t = turn;
        loop
            invariant
                turn <= t <= ledger@.selected.len(),
                ledger@.selected == self@.selected,
                ledger@.execute_from(t as nat) == self@.execute_from(turn as nat),
            decreases ledger@.selected.len() - t,
        {
            proof {
                use_type_invariant(&ledger);
            }
            if t >= ledger.selected.len() {
                return ledger.at(Stage::Finished(Ok(())));
            }
            let ignored = ledger.plans[ledger.selected[t]].ignored;
            if ignored {
                ledger = ledger.reported(t, Status::Ignored);
            } else if ledger.dry_run {
                ledger = ledger.reported(t, Status::Planned);
            } else if ledger.kind == BatchKind::Link {
                return ledger.at(Stage::Prepare { turn: t });
            } else {
                return ledger.work_from(t, 0);
            }
            t += 1;
        }
    }

    fn work_from(self, turn: usize, save: usize) -> (r: Batch)
        requires
            turn < self@.selected.len(),
        ensures
            r@ == self@.work_from(turn as nat, save as nat),
        decreases self@.selected.len() - turn, 0nat,
    {
        proof {
            use_type_invariant(&self);
            assert(self.selected@.len() == self.selected.len());
        }
        let entry = self.selected[turn];
        if save < self.plans[entry].saves.len() {
            let source = self.plans[entry].saves[save].source.clone();
            let destination = self.plans[entry].saves[save].destination.clone();
            let job = match self.kind {
                BatchKind::Link => Linker::relocate_and_link(source, destination),
                BatchKind::Restore => Linker::symlink(source, destination),
                BatchKind::Unlink => Linker::unlink(source, destination),
            };
            self.at(Stage::Work { turn, save, job })
        } else if self.kind == BatchKind::Unlink {
            self.at(Stage::CleanUp { turn })
        } else {
            self.reported(turn, Status::Completed).execute_from(turn + 1)
        }
    }
}

impl Batch {
    #[verifier::type_invariant]
    spec fn inv(self) -> bool {
        self@.well_formed()
    }

    /// A batch of the given kind over `plans`, before its first request.
    /// Driven to its end, it comes to what [`Disk::batch`] says.
    pub fn begin(kind: BatchKind, dry_run: bool, preselected: bool, plans: Vec<Plan>) -> (r: Batch)
        ensures
            r@ == BatchView::begin(kind, dry_run, preselected, plan_views(plans@)),
            forall|disk: Disk| #[trigger]
                run_batch(r@, disk) == disk.batch(kind, dry_run, preselected, plan_views(plans@)),
    {
        proof {
            assert forall|disk: Disk| #[trigger]
                run_batch(
                    BatchView::begin(kind, dry_run, preselected, plan_views(plans@)),
                    disk,
                ) == disk.batch(kind, dry_run, preselected, plan_views(plans@)) by {
                lemma_run_batch(kind, dry_run, preselected, plan_views(plans@), disk);
            }
        }
        let mut selected: Vec<usize> = Vec::new();
        if preselected {
            let mut i: usize = 0;
            while i < plans.len()
                invariant
                    i <= plans@.len(),
                    selected@.len() == i,
                    forall|t: int| 0 <= t < i ==> selected@[t] == t,
                decreases plans@.len() - i,
            {
                selected.push(i);
                i += 1;
            }
        }
        proof {
            assert(places(selected@) =~= if preselected {
                Seq::new(plans@.len(), |i: int| i as nat)
            } else {
                Seq::empty()
            });
            assert(outcome_views(Seq::<Outcome>::empty()) =~= Seq::<OutcomeView>::empty());
        }
        let ledger = Ledger { kind, dry_run, preselected, plans, selected, report: Vec::new() };
        if dry_run {
            ledger.after_clearance()
        } else {
            ledger.at(Stage::Clearance)
        }
    }

    /// The request to carry out next, or `None` once the batch has finished.
    pub fn next(&self) -> (r: Option<Request>)
        ensures
            request_view(r) == self@.request(),
    {
        proof {
            use_type_invariant(self);
        }
        let ledger = &self.ledger;
        match &self.stage {
            Stage::Clearance => Some(Request::CheckLinks),
            Stage::Select { entry, save } => if ledger.kind == BatchKind::Link {
                Some(Request::Inspect(ledger.plans[*entry].saves[*save].source.clone()))
            } else {
                Some(Request::Exists(ledger.plans[*entry].dir.clone()))
            },
            Stage::Prepare { turn } => Some(
                Request::CreateDirAll(ledger.plans[ledger.selected[*turn]].dir.clone()),
            ),
            Stage::Work { job, .. } => job.next(),
            Stage::CleanUp { turn } => Some(
                Request::RemoveDir(ledger.plans[ledger.selected[*turn]].dir.clone()),
            ),
            Stage::Finished(_) => None,
        }
    }

    /// Whether the batch has finished.
    pub fn is_finished(&self) -> (r: bool)
        ensures
            r == self@.request().is_none(),
            r == self@.outcome().is_some(),
    {
        proof {
            use_type_invariant(self);
        }
        match &self.stage {
            Stage::Finished(_) => true,
            _ => false,
        }
    }

    /// The plans that the batch was made over.
    pub fn plans(&self) -> (r: &Vec<Plan>)
        ensures
            plan_views(r@) == self@.ledger.plans,
    {
        &self.ledger.plans
    }

    /// How the batch ended, or `None` while it has not finished: an outcome
    /// for each selected entry, in their order, or the fault that stopped the
    /// batch before it began.
    pub fn outcome(self) -> (r: Option<Result<Vec<Outcome>, Fault>>)
        ensures
            match r {
                Some(Ok(report)) => self@.outcome() == Some(
                    Ok::<Seq<OutcomeView>, FaultView>(outcome_views(report@)),
                ),
                Some(Err(fault)) => self@.outcome() == Some(
                    Err::<Seq<OutcomeView>, FaultView>(fault@),
                ),
                None => self@.outcome().is_none(),
            },
    {
        match self.stage {
            Stage::Finished(Ok(())) => Some(Ok(self.ledger.report)),
            Stage::Finished(Err(fault)) => Some(Err(fault)),
            _ => None,
        }
    }

    /// Drives the batch to its end on the file system `disk`.
    pub fn run(self, disk: &mut Simulation) -> (r: Result<Vec<Outcome>, Fault>)
        ensures
            (final(disk)@, report_view(r)) == run_batch(self@, old(disk)@),
    {
        proof {
            use_type_invariant(&self);
        }
        let ghost goal = run_batch(self@, disk@);
        let mut current = self;
        loop
            invariant
                current@.well_formed(),
                run_batch(current@, disk@) == goal,
                goal == run_batch(self@, old(disk)@),
            decreases
                    current@.class(),
                    current@.entries_left(),
                    current@.saves_left(),
                    current@.job_steps(),
        {
            match current.next() {
                Some(request) => {
                    let reply = disk.respond(request);
                    proof {
                        lemma_resumed(current@, reply@);
                    }
                    current = current.resume(reply);
                },
                None => {
                    match current.outcome() {
                        Some(result) => {
                            return result;
                        },
                        None => {
                            return Err(Fault::Protocol);
                        },
                    }
                },
            }
        }
    }

    /// Takes the reply to the request that [`Batch::next`] gave, and goes on
    /// to the next request. A reply of a kind that does not answer a request
    /// of the batch itself ends the batch with [`Fault::Protocol`], and one
    /// that does not answer the request of the job under way fails the entry
    /// with it; a finished batch stays as it is.
    pub fn resume(self, reply: Reply) -> (r: Batch)
        ensures
            r@ == self@.resumed(reply@),
    {
        proof {
            use_type_invariant(&self);
        }
        let Batch { ledger, stage } = self;
        proof {
            use_type_invariant(&ledger);
            assert(ledger.plans@.len() == ledger.plans.len());
            assert(ledger.selected@.len() == ledger.selected.len());
        }
        match stage {
            Stage::Finished(result) => Batch { ledger, stage: Stage::Finished(result) },
            Stage::Clearance => match reply {
                Reply::Checked(Ok(())) => ledger.after_clearance(),
                Reply::Checked(Err(fault)) => ledger.at(Stage::Finished(Err(fault))),
                _ => ledger.derailed(),
            },
            Stage::Select { entry, save } => {
                proof {
                    let saves = ledger.plans@[entry as int].saves;
                    assert(saves@.len() == saves.len());
                }
                match reply {
                    Reply::Kind(found) => if ledger.kind != BatchKind::Link {
                        ledger.derailed()
                    } else if found != NodeKind::Missing && found != NodeKind::Link {
                        ledger.chosen(entry).select_from(entry + 1, 0)
                    } else {
                        ledger.select_from(entry, save + 1)
                    },
                    Reply::Flag(found) => if ledger.kind == BatchKind::Link {
                        ledger.derailed()
                    } else if found {
                        ledger.chosen(entry).select_from(entry + 1, 0)
                    } else {
                        ledger.select_from(entry + 1, 0)
                    },
                    _ => ledger.derailed(),
                }
            },
            Stage::Prepare { turn } => match reply {
                Reply::Done(Ok(())) => ledger.work_from(turn, 0),
                Reply::Done(Err(failure)) => if failure.kind == FailureKind::AlreadyExists {
                    ledger.work_from(turn, 0)
                } else {
                    ledger.reported(turn, Status::Failed(Fault::Io(failure))).execute_from(turn + 1)
                },
                _ => ledger.derailed(),
            },
            Stage::Work { turn, save, job } => {
                proof {
                    let saves = ledger.plans@[ledger.selected@[turn as int] as int].saves;
                    assert(saves@.len() == saves.len());
                }
                let mut job = job;
                job.resume(reply);
                if job.is_finished() {
                    match job.outcome() {
                        Some(Err(fault)) => ledger.reported(
                            turn,
                            Status::Failed(fault),
                        ).execute_from(turn + 1),
                        _ => ledger.work_from(turn, save + 1),
                    }
                } else {
                    ledger.at(Stage::Work { turn, save, job })
                }
            },
            Stage::CleanUp { turn } => match reply {
                Reply::Done(Ok(())) => ledger.reported(turn, Status::Completed).execute_from(
                    turn + 1,
                ),
                Reply::Done(Err(failure)) => ledger.reported(
                    turn,
                    Status::Failed(Fault::Io(failure)),
                ).execute_from(turn + 1),
                _ => ledger.derailed(),
            },
        }
    }
}

/// The plans for `games` under `settings`.
fn plans_for(games: &Vec<Game>, storage_path: &str, ignored: Option<&Settings>) -> (r: Vec<Plan>)
    ensures
        plan_views(r@) == plans_of(
            views(games@),
            storage_path@,
            match ignored {
                Some(settings) => texts(settings.ignored@),
                None => Seq::empty(),
            },
        ),
{
    let ghost ids = match ignored {
        Some(settings) => texts(settings.ignored@),
        None => Seq::empty(),
    };
    let mut plans: Vec<Plan> = Vec::new();
    let mut i: usize = 0;
    while i < games.len()
        invariant
            i <= games@.len(),
            plans@.len() == i,
            ids == match ignored {
                Some(settings) => texts(settings.ignored@),
                None => Seq::empty(),
            },
            forall|k: int|
                0 <= k < i ==> (#[trigger] plans@[k])@ == plan_of(
                    games@[k]@,
                    storage_path@,
                    ids.contains(games@[k].id@),
                ),
        decreases games@.len() - i,
    {
        let passed_over = match ignored {
            Some(settings) => settings.game_is_ignored(&games[i].id),
            None => false,
        };
        plans.push(games[i].plan(storage_path, passed_over));
        i += 1;
    }
    proof {
        assert(plan_views(plans@) =~= plans_of(views(games@), storage_path@, ids));
    }
    plans
}

impl Game {
    /// What a batch needs to know of this entry, with its saves kept under
    /// `storage_path`.
    pub fn plan(&self, storage_path: &str, ignored: bool) -> (r: Plan)
        ensures
            r@ == plan_of(self@, storage_path@, ignored),
    {
        let dir = join(storage_path, self.id.as_str());
        let mut saves: Vec<Route> = Vec::new();
        let mut j: usize = 0;
        while j < self.saves.len()
            invariant
                j <= self.saves@.len(),
                saves@.len() == j,
                dir@ == joined(storage_path@, self.id@),
                forall|k: int|
                    0 <= k < j ==> (#[trigger] saves@[k])@ == (RouteView {
                        source: self.saves@[k].expanded@,
                        destination: joined(dir@, self.saves@[k].id@),
                    }),
            decreases self.saves@.len() - j,
        {
            saves.push(
                Route {
                    source: self.saves[j].expanded.clone(),
                    destination: join(dir.as_str(), self.saves[j].id.as_str()),
                },
            );
            j += 1;
        }
        let plan = Plan { id: self.id.clone(), dir, ignored, saves };
        proof {
            assert(plan@.saves =~= plan_of(self@, storage_path@, ignored).saves);
        }
        plan
    }

    /// The batch that relocates the saves of every entry of the catalog
    /// that has something to relocate: an entry is selected where something
    /// other than a link stands at one of its save paths. For each selected
    /// entry that is not ignored the batch makes the entry's storage
    /// directory and relocates each save path into it; a failure ends the
    /// work on that entry, not the batch.
    pub fn link_all(db: &Database, settings: &Settings) -> (r: Batch)
        ensures
            r@ == BatchView::begin(
                BatchKind::Link,
                settings.dry_run,
                false,
                plans_of(views(db.games@), settings.storage_path@, texts(settings.ignored@)),
            ),
            forall|disk: Disk| #[trigger]
                run_batch(r@, disk) == disk.batch(
                    BatchKind::Link,
                    settings.dry_run,
                    false,
                    plans_of(views(db.games@), settings.storage_path@, texts(settings.ignored@)),
                ),
    {
        let plans = plans_for(&db.games, settings.storage_path.as_str(), Some(settings));
        Batch::begin(BatchKind::Link, settings.dry_run, false, plans)
    }

    /// The batch that links again to the saves that are in storage: an entry
    /// is selected where it has an id and its storage directory exists. For
    /// each selected entry that is not ignored the batch makes a link at each
    /// save path; no data is moved.
    pub fn restore_all(db: &Database, settings: &Settings) -> (r: Batch)
        ensures
            r@ == BatchView::begin(
                BatchKind::Restore,
                settings.dry_run,
                false,
                plans_of(views(db.games@), settings.storage_path@, texts(settings.ignored@)),
            ),
            forall|disk: Disk| #[trigger]
                run_batch(r@, disk) == disk.batch(
                    BatchKind::Restore,
                    settings.dry_run,
                    false,
                    plans_of(views(db.games@), settings.storage_path@, texts(settings.ignored@)),
                ),
    {
        let plans = plans_for(&db.games, settings.storage_path.as_str(), Some(settings));
        Batch::begin(BatchKind::Restore, settings.dry_run, false, plans)
    }

    /// The batch that undoes [`Game::link_all`]: it selects as
    /// [`Game::restore_all`] does. For each selected entry that is not ignored
    /// it removes the link at each save path and moves the data back there,
    /// and then removes the entry's storage directory.
    pub fn unlink_all(db: &Database, settings: &Settings) -> (r: Batch)
        ensures
            r@ == BatchView::begin(
                BatchKind::Unlink,
                settings.dry_run,
                false,
                plans_of(views(db.games@), settings.storage_path@, texts(settings.ignored@)),
            ),
            forall|disk: Disk| #[trigger]
                run_batch(r@, disk) == disk.batch(
                    BatchKind::Unlink,
                    settings.dry_run,
                    false,
                    plans_of(views(db.games@), settings.storage_path@, texts(settings.ignored@)),
                ),
    {
        let plans = plans_for(&db.games, settings.storage_path.as_str(), Some(settings));
        Batch::begin(BatchKind::Unlink, settings.dry_run, false, plans)
    }

    /// The batch that only selects, as [`Game::link_all`] does: its report
    /// names the entries that have something to relocate.
    pub fn all_with_movable_saves(games: &Vec<Game>, storage_path: &str) -> (r: Batch)
        ensures
            r@ == BatchView::begin(
                BatchKind::Link,
                true,
                false,
                plans_of(views(games@), storage_path@, Seq::empty()),
            ),
            forall|disk: Disk| #[trigger]
                run_batch(r@, disk) == disk.batch(
                    BatchKind::Link,
                    true,
                    false,
                    plans_of(views(games@), storage_path@, Seq::empty()),
                ),
    {
        Batch::begin(BatchKind::Link, true, false, plans_for(games, storage_path, None))
    }

    /// The batch that only selects, as [`Game::restore_all`] does: its report
    /// names the entries that have saves in storage.
    pub fn all_with_moved_saves(games: &Vec<Game>, storage_path: &str) -> (r: Batch)
        ensures
            r@ == BatchView::begin(
                BatchKind::Restore,
                true,
                false,
                plans_of(views(games@), storage_path@, Seq::empty()),
            ),
            forall|disk: Disk| #[trigger]
                run_batch(r@, disk) == disk.batch(
                    BatchKind::Restore,
                    true,
                    false,
                    plans_of(views(games@), storage_path@, Seq::empty()),
                ),
    {
        Batch::begin(BatchKind::Restore, true, false, plans_for(games, storage_path, None))
    }

    fn alone(&self, kind: BatchKind, storage_path: &str, dry_run: bool, preselected: bool) -> (r:
        Batch)
        ensures
            r@ == BatchView::begin(
                kind,
                dry_run,
                preselected,
                seq![plan_of(self@, storage_path@, false)],
            ),
            forall|disk: Disk| #[trigger]
                run_batch(r@, disk) == disk.batch(
                    kind,
                    dry_run,
                    preselected,
                    seq![plan_of(self@, storage_path@, false)],
                ),
    {
        let mut plans: Vec<Plan> = Vec::new();
        plans.push(self.plan(storage_path, false));
        proof {
            assert(plan_views(plans@) =~= seq![plan_of(self@, storage_path@, false)]);
        }
        Batch::begin(kind, dry_run, preselected, plans)
    }

    /// The batch that only tells whether this entry has something to
    /// relocate: its report is empty where it has not.
    pub fn has_movable_saves(&self, storage_path: &str) -> (r: Batch)
        ensures
            r@ == BatchView::begin(
                BatchKind::Link,
                true,
                false,
                seq![plan_of(self@, storage_path@, false)],
            ),
            forall|disk: Disk| #[trigger]
                run_batch(r@, disk) == disk.batch(
                    BatchKind::Link,
                    true,
                    false,
                    seq![plan_of(self@, storage_path@, false)],
                ),
    {
        self.alone(BatchKind::Link, storage_path, true, false)
    }

    /// The batch that relocates the saves of this entry, whatever stands at
    /// its save paths, and links to them.
    pub fn link(&self, storage_path: &str, dry_run: bool) -> (r: Batch)
        ensures
            r@ == BatchView::begin(
                BatchKind::Link,
                dry_run,
                true,
                seq![plan_of(self@, storage_path@, false)],
            ),
            forall|disk: Disk| #[trigger]
                run_batch(r@, disk) == disk.batch(
                    BatchKind::Link,
                    dry_run,
                    true,
                    seq![plan_of(self@, storage_path@, false)],
                ),
    {
        self.alone(BatchKind::Link, storage_path, dry_run, true)
    }

    /// The batch that links to the saves of this entry in storage.
    pub fn restore(&self, storage_path: &str, dry_run: bool) -> (r: Batch)
        ensures
            r@ == BatchView::begin(
                BatchKind::Restore,
                dry_run,
                true,
                seq![plan_of(self@, storage_path@, false)],
            ),
            forall|disk: Disk| #[trigger]
                run_batch(r@, disk) == disk.batch(
                    BatchKind::Restore,
                    dry_run,
                    true,
                    seq![plan_of(self@, storage_path@, false)],
                ),
    {
        self.alone(BatchKind::Restore, storage_path, dry_run, true)
    }

    /// The batch that undoes [`Game::link`] for this entry.
    pub fn unlink(&self, storage_path: &str, dry_run: bool) -> (r: Batch)
        ensures
            r@ == BatchView::begin(
                BatchKind::Unlink,
                dry_run,
                true,
                seq![plan_of(self@, storage_path@, false)],
            ),
            forall|disk: Disk| #[trigger]
                run_batch(r@, disk) == disk.batch(
                    BatchKind::Unlink,
                    dry_run,
                    true,
                    seq![plan_of(self@, storage_path@, false)],
                ),
    {
        self.alone(BatchKind::Unlink, storage_path, dry_run, true)
    }
}

} // verus!
