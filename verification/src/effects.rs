//! What batches come to on the model of the file system, said outright, and
//! the proof that driving a batch request by request comes to just that.
use crate::batch::{
    is_movable, lemma_resumed, operation_of, BatchKind, BatchView, LedgerView, OutcomeView,
    PlanView, RouteView, StageView, StatusView,
};
use crate::disk::{failure, lemma_run, run, run_batch, Disk};
use crate::errors::{FailureKind, FaultView, LinkErrorView, RelocateErrorView};
use crate::linker::{lemma_job_resumed, LinkerView, Operation, RequestView};
use vstd::prelude::*;

verus! {

/// The status that the result of the last step of an entry stands for.
pub open spec fn status_of(result: Result<(), FaultView>) -> StatusView {
    match result {
        Ok(()) => StatusView::Completed,
        Err(fault) => StatusView::Failed(fault),
    }
}

/// The ledger with other entries selected.
pub open spec fn with_selected(ledger: LedgerView, selected: Seq<nat>) -> LedgerView {
    LedgerView {
        kind: ledger.kind,
        dry_run: ledger.dry_run,
        preselected: ledger.preselected,
        plans: ledger.plans,
        selected,
        report: ledger.report,
    }
}

impl Disk {
    /// What carrying out `operation` on each of the `routes` from the place
    /// `from` on comes to, in their order and up to the first failure.
    pub open spec fn perform_all(self, operation: Operation, routes: Seq<RouteView>, from: nat) -> (
        Disk,
        Result<(), FaultView>,
    )
        decreases routes.len() - from,
    {
        if from >= routes.len() {
            (self, Ok(()))
        } else {
            let (next, result) = self.perform(
                operation,
                routes[from as int].source,
                routes[from as int].destination,
            );
            if result is Ok {
                next.perform_all(operation, routes, from + 1)
            } else {
                (next, result)
            }
        }
    }

    /// What is left of a batch's work on an entry once the save paths before
    /// `save` are dealt with: the remaining save paths and, for a batch that
    /// takes saves back, the removal of the entry's storage directory.
    pub open spec fn finish(self, kind: BatchKind, plan: PlanView, save: nat) -> (Disk, StatusView) {
        let (after, result) = self.perform_all(operation_of(kind), plan.saves, save);
        if result is Ok && kind is Unlink {
            let (gone, removed) = after.remove_dir(plan.dir);
            (
                gone,
                match removed {
                    Ok(()) => StatusView::Completed,
                    Err(failure) => StatusView::Failed(FaultView::Io(failure)),
                },
            )
        } else {
            (after, status_of(result))
        }
    }

    /// What a batch's work on an entry comes to. A batch that relocates first
    /// makes the entry's storage directory, and goes on where something stands
    /// in its place already.
    pub open spec fn deal(self, kind: BatchKind, plan: PlanView) -> (Disk, StatusView) {
        if kind is Link {
            let (made, result) = self.create_dir_all(plan.dir);
            match result {
                Err(failure) => if failure.kind is AlreadyExists {
                    made.finish(kind, plan, 0)
                } else {
                    (made, StatusView::Failed(FaultView::Io(failure)))
                },
                Ok(()) => made.finish(kind, plan, 0),
            }
        } else {
            self.finish(kind, plan, 0)
        }
    }

    /// What a batch's work on the entries selected at `turn` and after comes
    /// to: the disk in the end, and the whole report.
    pub open spec fn act(self, ledger: LedgerView, turn: nat) -> (Disk, Seq<OutcomeView>)
        decreases ledger.selected.len() - turn,
    {
        if turn >= ledger.selected.len() {
            (self, ledger.report)
        } else if ledger.plan(turn).ignored {
            self.act(ledger.reported(turn, StatusView::Ignored), turn + 1)
        } else if ledger.dry_run {
            self.act(ledger.reported(turn, StatusView::Planned), turn + 1)
        } else {
            let (after, status) = self.deal(ledger.kind, ledger.plan(turn));
            after.act(ledger.reported(turn, status), turn + 1)
        }
    }

    /// Whether a batch selects the entry, going by its save paths from `save`
    /// on: one that relocates does where something other than a link stands
    /// at one of them, and the others do where the entry has an id and its
    /// storage directory exists.
    pub open spec fn selects_from(self, kind: BatchKind, plan: PlanView, save: nat) -> bool {
        if kind is Link {
            exists|j: int|
                save <= j < plan.saves.len() && is_movable(
                    self.kind((#[trigger] plan.saves[j]).source),
                )
        } else {
            plan.id.len() > 0 && self.reachable(plan.dir)
        }
    }

    /// The places of the entries that a batch selects among those from
    /// `entry` on, the first of them going by its save paths from `save` on.
    pub open spec fn selection_from(self, kind: BatchKind, plans: Seq<PlanView>, entry: nat, save: nat)
        -> Seq<nat>
        decreases plans.len() - entry,
    {
        if entry >= plans.len() {
            Seq::empty()
        } else if self.selects_from(kind, plans[entry as int], save) {
            seq![entry] + self.selection_from(kind, plans, entry + 1, 0)
        } else {
            self.selection_from(kind, plans, entry + 1, 0)
        }
    }

    /// What a batch comes to: the disk in the end, and the report or the
    /// fault that stopped the batch before it began. A batch that does not
    /// only report is stopped where links cannot be made.
    pub open spec fn batch(
        self,
        kind: BatchKind,
        dry_run: bool,
        preselected: bool,
        plans: Seq<PlanView>,
    ) -> (Disk, Result<Seq<OutcomeView>, FaultView>) {
        if !dry_run && !self.may_link {
            (
                self,
                Err(FaultView::Link(LinkErrorView::Io(failure(FailureKind::PermissionDenied)))),
            )
        } else {
            let ledger = LedgerView {
                kind,
                dry_run,
                preselected,
                plans,
                selected: if preselected {
                    Seq::new(plans.len(), |i: int| i as nat)
                } else {
                    self.selection_from(kind, plans, 0, 0)
                },
                report: Seq::empty(),
            };
            (self.act(ledger, 0).0, Ok(self.act(ledger, 0).1))
        }
    }
}

/// The ledger after the job for a save path has ended with `result`.
spec fn settled(ledger: LedgerView, turn: nat, save: nat, result: Result<(), FaultView>)
    -> BatchView {
    match result {
        Ok(()) => ledger.work_from(turn, save + 1),
        Err(fault) => ledger.reported(turn, StatusView::Failed(fault)).execute_from(turn + 1),
    }
}

proof fn lemma_run_job(ledger: LedgerView, turn: nat, save: nat, job: LinkerView, disk: Disk)
    requires
        ledger.at(StageView::Work { turn, save, job }).well_formed(),
    ensures
        run_batch(ledger.at(StageView::Work { turn, save, job }), disk) == run_batch(
            settled(ledger, turn, save, run(job, disk).1),
            run(job, disk).0,
        ),
    decreases job.steps_left(),
{
    let batch = ledger.at(StageView::Work { turn, save, job });
    let (next_disk, reply) = disk.respond(job.request().unwrap());
    let next_job = job.resumed(reply);
    lemma_resumed(batch, reply);
    lemma_job_resumed(job, reply);
    assert(run(job, disk) == run(next_job, next_disk));
    assert(run_batch(batch, disk) == run_batch(batch.resumed(reply), next_disk));
    match next_job.outcome() {
        None => {
            lemma_run_job(ledger, turn, save, next_job, next_disk);
        },
        Some(result) => {
            assert(run(next_job, next_disk) == (next_disk, result));
        },
    }
}

proof fn lemma_run_work(ledger: LedgerView, turn: nat, save: nat, disk: Disk)
    requires
        ledger.well_formed(),
        turn < ledger.selected.len(),
    ensures
        run_batch(ledger.work_from(turn, save), disk) == run_batch(
            ledger.reported(
                turn,
                disk.finish(ledger.kind, ledger.plan(turn), save).1,
            ).execute_from(turn + 1),
            disk.finish(ledger.kind, ledger.plan(turn), save).0,
        ),
    decreases ledger.plan(turn).saves.len() - save,
{
    let plan = ledger.plan(turn);
    if save < plan.saves.len() {
        let source = plan.saves[save as int].source;
        let destination = plan.saves[save as int].destination;
        let job = LinkerView::start(ledger.operation(), source, destination);
        lemma_run_job(ledger, turn, save, job, disk);
        lemma_run(ledger.operation(), source, destination, disk);
        let (after, result) = disk.perform(ledger.operation(), source, destination);
        if result is Ok {
            lemma_run_work(ledger, turn, save + 1, after);
        }
    } else if ledger.kind is Unlink {
        let batch = ledger.at(StageView::CleanUp { turn });
        let (gone, reply) = disk.respond(RequestView::RemoveDir(plan.dir));
        lemma_resumed(batch, reply);
        assert(run_batch(batch, disk) == run_batch(batch.resumed(reply), gone));
    } else {
    }
}

proof fn lemma_run_execute(ledger: LedgerView, turn: nat, disk: Disk)
    requires
        ledger.well_formed(),
        turn <= ledger.selected.len(),
    ensures
        run_batch(ledger.execute_from(turn), disk) == (
            disk.act(ledger, turn).0,
            Ok::<Seq<OutcomeView>, FaultView>(disk.act(ledger, turn).1),
        ),
    decreases ledger.selected.len() - turn,
{
    if turn >= ledger.selected.len() {
        let done = ledger.at(StageView::Finished(Ok(())));
        assert(done.well_formed());
        assert(run_batch(done, disk) == (disk, done.outcome().unwrap()));
    } else if ledger.plan(turn).ignored {
        lemma_run_execute(ledger.reported(turn, StatusView::Ignored), turn + 1, disk);
    } else if ledger.dry_run {
        lemma_run_execute(ledger.reported(turn, StatusView::Planned), turn + 1, disk);
    } else {
        let plan = ledger.plan(turn);
        let (after, status) = disk.deal(ledger.kind, plan);
        lemma_run_execute(ledger.reported(turn, status), turn + 1, after);
        if ledger.kind is Link {
            let batch = ledger.at(StageView::Prepare { turn });
            let (made, reply) = disk.respond(RequestView::CreateDirAll(plan.dir));
            lemma_resumed(batch, reply);
            assert(run_batch(batch, disk) == run_batch(batch.resumed(reply), made));
            lemma_run_work(ledger, turn, 0, made);
        } else {
            lemma_run_work(ledger, turn, 0, disk);
        }
    }
}

proof fn lemma_run_select(ledger: LedgerView, entry: nat, save: nat, disk: Disk)
    requires
        ledger.well_formed(),
    ensures
        run_batch(ledger.select_from(entry, save), disk) == (
            disk.act(
                with_selected(
                    ledger,
                    ledger.selected + disk.selection_from(ledger.kind, ledger.plans, entry, save),
                ),
                0,
            ).0,
            Ok::<Seq<OutcomeView>, FaultView>(
                disk.act(
                    with_selected(
                        ledger,
                        ledger.selected + disk.selection_from(
                            ledger.kind,
                            ledger.plans,
                            entry,
                            save,
                        ),
                    ),
                    0,
                ).1,
            ),
        ),
    decreases ledger.plans.len() - entry, ledger.plans[entry as int].saves.len() - save,
{
    let kind = ledger.kind;
    let plans = ledger.plans;
    let rest = disk.selection_from(kind, plans, entry, save);
    if entry >= plans.len() {
        assert(ledger.selected + rest =~= ledger.selected);
        assert(with_selected(ledger, ledger.selected + rest) == ledger);
        lemma_run_execute(ledger, 0, disk);
    } else {
        let plan = plans[entry as int];
        let later = disk.selection_from(kind, plans, entry + 1, 0);
        let taken = ledger.chosen(entry);
        assert(taken.selected + later =~= ledger.selected + (seq![entry] + later));
        assert(taken == with_selected(ledger, taken.selected));
        assert(with_selected(taken, taken.selected + later) == with_selected(
            ledger,
            ledger.selected + (seq![entry] + later),
        ));
        if kind is Link {
            if save < plan.saves.len() {
                let batch = ledger.at(StageView::Select { entry, save });
                let source = plan.saves[save as int].source;
                let (same, reply) = disk.respond(RequestView::Inspect(source));
                lemma_resumed(batch, reply);
                assert(run_batch(batch, disk) == run_batch(batch.resumed(reply), disk));
                if is_movable(disk.kind(source)) {
                    assert(disk.selects_from(kind, plan, save));
                    lemma_run_select(taken, entry + 1, 0, disk);
                } else {
                    assert(disk.selects_from(kind, plan, save) == disk.selects_from(
                        kind,
                        plan,
                        save + 1,
                    )) by {
                        if disk.selects_from(kind, plan, save) {
                            let j = choose|j: int|
                                save <= j < plan.saves.len() && is_movable(
                                    disk.kind((#[trigger] plan.saves[j]).source),
                                );
                            assert(j != save);
                        }
                    }
                    lemma_run_select(ledger, entry, save + 1, disk);
                }
            } else {
                assert(!disk.selects_from(kind, plan, save));
                lemma_run_select(ledger, entry + 1, 0, disk);
            }
        } else {
            if plan.id.len() > 0 {
                let batch = ledger.at(StageView::Select { entry, save: 0 });
                let (same, reply) = disk.respond(RequestView::Exists(plan.dir));
                lemma_resumed(batch, reply);
                assert(run_batch(batch, disk) == run_batch(batch.resumed(reply), disk));
                if disk.reachable(plan.dir) {
                    lemma_run_select(taken, entry + 1, 0, disk);
                } else {
                    lemma_run_select(ledger, entry + 1, 0, disk);
                }
            } else {
                lemma_run_select(ledger, entry + 1, 0, disk);
            }
        }
    }
}

/// Driving a batch to its end on the model comes to what [`Disk::batch`]
/// says of it.
pub proof fn lemma_run_batch(
    kind: BatchKind,
    dry_run: bool,
    preselected: bool,
    plans: Seq<PlanView>,
    disk: Disk,
)
    ensures
        run_batch(BatchView::begin(kind, dry_run, preselected, plans), disk) == disk.batch(
            kind,
            dry_run,
            preselected,
            plans,
        ),
{
    let ledger = LedgerView {
        kind,
        dry_run,
        preselected,
        plans,
        selected: if preselected {
            Seq::new(plans.len(), |i: int| i as nat)
        } else {
            Seq::empty()
        },
        report: Seq::empty(),
    };
    let found = disk.selection_from(kind, plans, 0, 0);
    assert(ledger.selected + found =~= if preselected {
        ledger.selected + found
    } else {
        found
    });
    lemma_run_execute(ledger, 0, disk);
    lemma_run_select(ledger, 0, 0, disk);
    if !dry_run {
        let batch = ledger.at(StageView::Clearance);
        let (same, reply) = disk.respond(RequestView::CheckLinks);
        lemma_resumed(batch, reply);
        assert(run_batch(batch, disk) == run_batch(batch.resumed(reply), disk));
        if !disk.may_link {
            let stopped = batch.resumed(reply);
            assert(run_batch(stopped, disk) == (disk, stopped.outcome().unwrap()));
        }
    }
}

/// The report of a batch over one entry that failed with `fault`.
pub open spec fn failed_alone(fault: FaultView) -> Result<Seq<OutcomeView>, FaultView> {
    Ok(seq![OutcomeView { entry: 0, status: StatusView::Failed(fault) }])
}

/// Relocating the saves of an entry where nothing stands at its first save
/// path fails with "source not found", and makes nothing but the entry's
/// storage directory: nothing stands at the save path afterwards, and every
/// path but the storage directory is as it was. The save path must not be
/// the storage directory itself.
pub proof fn lemma_link_missing_source(disk: Disk, plan: PlanView)
    requires
        disk.may_link,
        !plan.ignored,
        plan.saves.len() > 0,
        plan.saves[0].source != plan.dir,
        !disk.present(plan.saves[0].source),
    ensures
        disk.batch(BatchKind::Link, false, true, seq![plan]) == (
            disk.create_dir_all(plan.dir).0,
            failed_alone(
                FaultView::Relocate(RelocateErrorView::SourceNotFound(plan.saves[0].source)),
            ),
        ),
        !disk.batch(BatchKind::Link, false, true, seq![plan]).0.present(plan.saves[0].source),
        disk.batch(BatchKind::Link, false, true, seq![plan]).0.nodes.remove(plan.dir)
            == disk.nodes.remove(plan.dir),
{
    lemma_link_first_fails(
        disk,
        plan,
        FaultView::Relocate(RelocateErrorView::SourceNotFound(plan.saves[0].source)),
    );
    let made = disk.create_dir_all(plan.dir).0;
    assert(made.nodes.remove(plan.dir) =~= disk.nodes.remove(plan.dir));
}

/// Relocating the saves of an entry whose first save path is its own place
/// in storage fails with "destination already exists", and makes nothing but
/// the entry's storage directory: what stood at the save path stands there
/// as before. Something must stand at the save path, other than a link to
/// itself, and the save path must not be the storage directory itself.
pub proof fn lemma_link_onto_itself(disk: Disk, plan: PlanView)
    requires
        disk.may_link,
        !plan.ignored,
        plan.saves.len() > 0,
        plan.saves[0].source == plan.saves[0].destination,
        plan.saves[0].source != plan.dir,
        disk.present(plan.saves[0].source),
        !disk.leads(plan.saves[0].source, plan.saves[0].source),
    ensures
        disk.batch(BatchKind::Link, false, true, seq![plan]) == (
            disk.create_dir_all(plan.dir).0,
            failed_alone(
                FaultView::Relocate(RelocateErrorView::DestinationExists(plan.saves[0].source)),
            ),
        ),
        disk.batch(BatchKind::Link, false, true, seq![plan]).0.present(plan.saves[0].source),
        disk.batch(BatchKind::Link, false, true, seq![plan]).0.nodes[plan.saves[0].source]
            == disk.nodes[plan.saves[0].source],
{
    lemma_link_first_fails(
        disk,
        plan,
        FaultView::Relocate(RelocateErrorView::DestinationExists(plan.saves[0].source)),
    );
}

/// Where relocating the first save path of an entry fails without a change,
/// the batch over the entry has made the storage directory and reports the
/// failure.
proof fn lemma_link_first_fails(disk: Disk, plan: PlanView, fault: FaultView)
    requires
        disk.may_link,
        !plan.ignored,
        plan.saves.len() > 0,
        disk.create_dir_all(plan.dir).0.relocate(plan.saves[0].source, plan.saves[0].destination)
            == (disk.create_dir_all(plan.dir).0, Err::<(), FaultView>(fault)),
    ensures
        disk.batch(BatchKind::Link, false, true, seq![plan]) == (
            disk.create_dir_all(plan.dir).0,
            failed_alone(fault),
        ),
{
    let plans = seq![plan];
    let ledger = LedgerView {
        kind: BatchKind::Link,
        dry_run: false,
        preselected: true,
        plans,
        selected: Seq::new(plans.len(), |i: int| i as nat),
        report: Seq::empty(),
    };
    let made = disk.create_dir_all(plan.dir).0;
    assert(ledger.plan(0) == plan);
    reveal_with_fuel(Disk::act, 2);
    reveal_with_fuel(Disk::perform_all, 2);
    assert(disk.deal(BatchKind::Link, plan) == (made, StatusView::Failed(fault)));
    assert(disk.act(ledger, 0).1 =~= seq![
        OutcomeView { entry: 0, status: StatusView::Failed(fault) },
    ]);
}

} // verus!
