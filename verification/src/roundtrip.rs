//! Taking saves back undoes relocating them: the proof, on the model of the
//! file system, for one entry and for whole batches.
use crate::batch::{BatchKind, LedgerView, OutcomeView, PlanView, RouteView, StatusView};
use crate::disk::{Disk, Node};
use crate::linker::Operation;
use vstd::prelude::*;

verus! {

/// The two disks have the same at `path`.
pub open spec fn agree(a: Disk, b: Disk, path: Seq<char>) -> bool {
    a.present(path) == b.present(path) && (a.present(path) ==> a.nodes[path] == b.nodes[path])
}

/// `path` is one of the paths of the plan: its storage directory, or the
/// source or the destination of one of its save paths.
pub open spec fn touches(plan: PlanView, path: Seq<char>) -> bool {
    path == plan.dir || exists|j: int|
        0 <= j < plan.saves.len() && ((#[trigger] plan.saves[j]).source == path
            || plan.saves[j].destination == path)
}

/// The paths of the plan are all different.
pub open spec fn tidy(plan: PlanView) -> bool {
    &&& forall|j: int|
        0 <= j < plan.saves.len() ==> (#[trigger] plan.saves[j]).source != plan.dir
            && plan.saves[j].destination != plan.dir
    &&& forall|j: int, k: int|
        0 <= j < plan.saves.len() && 0 <= k < plan.saves.len() ==> (#[trigger] plan.saves[j]).source
            != (#[trigger] plan.saves[k]).destination
    &&& forall|j: int, k: int|
        0 <= j < k < plan.saves.len() ==> (#[trigger] plan.saves[j]).source
            != (#[trigger] plan.saves[k]).source && plan.saves[j].destination
            != plan.saves[k].destination
}

/// Nothing stands on `disk` where storage is to keep the entry: not at its
/// storage directory, and not at the destination of a save path.
pub open spec fn vacant(disk: Disk, plan: PlanView) -> bool {
    &&& !disk.present(plan.dir)
    &&& forall|j: int|
        0 <= j < plan.saves.len() ==> !disk.present((#[trigger] plan.saves[j]).destination)
}

/// What stood at the source of the route on `before` stands at its
/// destination on `after`, and a link to it at the source.
pub open spec fn relocated(before: Disk, after: Disk, route: RouteView) -> bool {
    &&& before.present(route.source)
    &&& after.leads(route.source, route.destination)
    &&& after.present(route.destination)
    &&& after.nodes[route.destination] == before.nodes[route.source]
}

/// On `after` the entry is in storage, with what stood at its save paths on
/// `before`: the storage directory is there, empty as far as the model
/// tells, and every save path is relocated.
pub open spec fn stored(before: Disk, after: Disk, plan: PlanView) -> bool {
    stored_upto(before, after, plan, plan.saves.len())
}

/// As [`stored`], for the save paths before `n`; the others are as they were
/// on `before`, with nothing at their destinations.
pub open spec fn stored_upto(before: Disk, after: Disk, plan: PlanView, n: nat) -> bool {
    &&& after.may_link == before.may_link
    &&& after.one_device == before.one_device
    &&& after.present(plan.dir)
    &&& after.nodes[plan.dir] == Node::Dir(0)
    &&& forall|j: int| 0 <= j < n && j < plan.saves.len() ==> relocated(
        before,
        after,
        #[trigger] plan.saves[j],
    )
    &&& forall|j: int|
        n <= j < plan.saves.len() ==> agree(before, after, (#[trigger] plan.saves[j]).source)
            && !after.present(plan.saves[j].destination)
}

/// The save paths before `n` are back on `after` as they were on `before`,
/// with nothing at their destinations; the others are in storage still.
pub open spec fn returned_upto(before: Disk, after: Disk, plan: PlanView, n: nat) -> bool {
    &&& after.may_link == before.may_link
    &&& after.one_device == before.one_device
    &&& after.present(plan.dir)
    &&& after.nodes[plan.dir] == Node::Dir(0)
    &&& forall|j: int|
        0 <= j < n && j < plan.saves.len() ==> agree(
            before,
            after,
            (#[trigger] plan.saves[j]).source,
        ) && before.present(plan.saves[j].source) && !after.present(plan.saves[j].destination)
    &&& forall|j: int| n <= j < plan.saves.len() ==> relocated(
        before,
        after,
        #[trigger] plan.saves[j],
    )
}

/// An operation leaves every path but its two as it was.
pub proof fn lemma_perform_frame(
    disk: Disk,
    operation: Operation,
    source: Seq<char>,
    target: Seq<char>,
    path: Seq<char>,
)
    requires
        path != source,
        path != target,
    ensures
        agree(disk, disk.perform(operation, source, target).0, path),
        disk.perform(operation, source, target).0.may_link == disk.may_link,
        disk.perform(operation, source, target).0.one_device == disk.one_device,
{
}

/// Operations on routes leave every path that is on none of them as it was.
pub proof fn lemma_perform_all_frame(
    disk: Disk,
    operation: Operation,
    routes: Seq<RouteView>,
    from: nat,
    path: Seq<char>,
)
    requires
        forall|j: int|
            from <= j < routes.len() ==> (#[trigger] routes[j]).source != path
                && routes[j].destination != path,
    ensures
        agree(disk, disk.perform_all(operation, routes, from).0, path),
        disk.perform_all(operation, routes, from).0.may_link == disk.may_link,
        disk.perform_all(operation, routes, from).0.one_device == disk.one_device,
    decreases routes.len() - from,
{
    if from < routes.len() {
        let route = routes[from as int];
        let (next, result) = disk.perform(operation, route.source, route.destination);
        lemma_perform_frame(disk, operation, route.source, route.destination, path);
        if result is Ok {
            lemma_perform_all_frame(next, operation, routes, from + 1, path);
        }
    }
}

/// A batch's work on an entry leaves every path that is not the entry's as
/// it was.
pub proof fn lemma_deal_frame(disk: Disk, kind: BatchKind, plan: PlanView, path: Seq<char>)
    requires
        !touches(plan, path),
    ensures
        agree(disk, disk.deal(kind, plan).0, path),
        disk.deal(kind, plan).0.may_link == disk.may_link,
        disk.deal(kind, plan).0.one_device == disk.one_device,
{
    assert forall|j: int| 0 <= j < plan.saves.len() implies (#[trigger] plan.saves[j]).source != path
        && plan.saves[j].destination != path by {}
    let start = if kind is Link {
        disk.create_dir_all(plan.dir).0
    } else {
        disk
    };
    lemma_perform_all_frame(start, crate::batch::operation_of(kind), plan.saves, 0, path);
}

/// Relocating the save path `n` of an entry, where it succeeds, puts it in
/// storage with those before it.
proof fn lemma_relocation(before: Disk, disk: Disk, plan: PlanView, n: nat)
    requires
        tidy(plan),
        n < plan.saves.len(),
        stored_upto(before, disk, plan, n),
        disk.relocate(plan.saves[n as int].source, plan.saves[n as int].destination).1 is Ok,
    ensures
        stored_upto(
            before,
            disk.relocate(plan.saves[n as int].source, plan.saves[n as int].destination).0,
            plan,
            n + 1,
        ),
{
    let route = plan.saves[n as int];
    let (next, result) = disk.relocate(route.source, route.destination);
    assert(agree(before, disk, route.source) && !disk.present(route.destination));
    assert(next.nodes == disk.without(route.source).with(
        route.destination,
        disk.nodes[route.source],
    ).with(route.source, Node::Link(route.destination)).nodes);
    assert forall|j: int| 0 <= j < n + 1 && j < plan.saves.len() implies relocated(
        before,
        next,
        #[trigger] plan.saves[j],
    ) by {
        if j < n {
            assert(relocated(before, disk, plan.saves[j]));
        }
    }
    assert forall|j: int| n + 1 <= j < plan.saves.len() implies agree(
        before,
        next,
        (#[trigger] plan.saves[j]).source,
    ) && !next.present(plan.saves[j].destination) by {
        assert(agree(before, disk, plan.saves[j].source));
    }
}

/// Relocating the remaining save paths of an entry, where it succeeds, puts
/// them in storage.
proof fn lemma_relocations(before: Disk, disk: Disk, plan: PlanView, n: nat)
    requires
        tidy(plan),
        n <= plan.saves.len(),
        stored_upto(before, disk, plan, n),
        disk.perform_all(Operation::Relocate, plan.saves, n).1 is Ok,
    ensures
        stored(before, disk.perform_all(Operation::Relocate, plan.saves, n).0, plan),
    decreases plan.saves.len() - n,
{
    if n < plan.saves.len() {
        let route = plan.saves[n as int];
        let (next, result) = disk.relocate(route.source, route.destination);
        lemma_relocation(before, disk, plan, n);
        lemma_relocations(before, next, plan, n + 1);
    }
}

/// A file or a directory stands at every save path of the entry.
pub open spec fn holds_data(disk: Disk, plan: PlanView) -> bool {
    forall|j: int|
        0 <= j < plan.saves.len() ==> disk.kind((#[trigger] plan.saves[j]).source) is File
            || disk.kind(plan.saves[j].source) is Dir
}

/// Relocating the remaining save paths of an entry succeeds where links can
/// be made and a file or a directory stood at each of them.
proof fn lemma_relocations_succeed(before: Disk, disk: Disk, plan: PlanView, n: nat)
    requires
        tidy(plan),
        n <= plan.saves.len(),
        stored_upto(before, disk, plan, n),
        holds_data(before, plan),
        disk.may_link,
    ensures
        disk.perform_all(Operation::Relocate, plan.saves, n).1 is Ok,
    decreases plan.saves.len() - n,
{
    if n < plan.saves.len() {
        let route = plan.saves[n as int];
        let (next, result) = disk.relocate(route.source, route.destination);
        assert(agree(before, disk, route.source) && !disk.present(route.destination));
        assert(before.kind(route.source) is File || before.kind(route.source) is Dir);
        assert(result is Ok);
        lemma_relocation(before, disk, plan, n);
        lemma_relocations_succeed(before, next, plan, n + 1);
    }
}

/// A batch that relocates completes its work on an entry whose places in
/// storage are vacant, where links can be made and a file or a directory
/// stands at each of its save paths.
proof fn lemma_link_completes(before: Disk, disk: Disk, plan: PlanView)
    requires
        tidy(plan),
        vacant(disk, plan),
        forall|path: Seq<char>| #[trigger] touches(plan, path) ==> agree(before, disk, path),
        alike(before, disk),
        disk.may_link,
        holds_data(before, plan),
    ensures
        disk.deal(BatchKind::Link, plan).1 == StatusView::Completed,
{
    let made = disk.create_dir_all(plan.dir).0;
    assert forall|j: int| 0 <= j < plan.saves.len() implies agree(
        before,
        made,
        (#[trigger] plan.saves[j]).source,
    ) && !made.present(plan.saves[j].destination) by {
        assert(touches(plan, plan.saves[j].source));
    }
    lemma_relocations_succeed(before, made, plan, 0);
}

/// Unlinking the remaining save paths of an entry in storage succeeds, and
/// gives them back.
proof fn lemma_unlinks(before: Disk, disk: Disk, plan: PlanView, n: nat)
    requires
        tidy(plan),
        n <= plan.saves.len(),
        returned_upto(before, disk, plan, n),
    ensures
        disk.perform_all(Operation::Unlink, plan.saves, n).1 is Ok,
        returned_upto(
            before,
            disk.perform_all(Operation::Unlink, plan.saves, n).0,
            plan,
            plan.saves.len(),
        ),
    decreases plan.saves.len() - n,
{
    if n < plan.saves.len() {
        let route = plan.saves[n as int];
        let (next, result) = disk.unlink(route.source, route.destination);
        assert(relocated(before, disk, route));
        assert(next.nodes == disk.without(route.source).moved(
            route.destination,
            route.source,
        ).nodes);
        assert forall|j: int| 0 <= j < n + 1 && j < plan.saves.len() implies agree(
            before,
            next,
            (#[trigger] plan.saves[j]).source,
        ) && before.present(plan.saves[j].source) && !next.present(plan.saves[j].destination) by {
            if j < n {
                assert(agree(before, disk, plan.saves[j].source));
            }
        }
        assert forall|j: int| n + 1 <= j < plan.saves.len() implies relocated(
            before,
            next,
            #[trigger] plan.saves[j],
        ) by {
            assert(relocated(before, disk, plan.saves[j]));
        }
        lemma_unlinks(before, next, plan, n + 1);
    }
}

/// Where a batch that relocates completes its work on an entry whose places
/// in storage were vacant, the entry is in storage afterwards.
pub proof fn lemma_link_stores(before: Disk, disk: Disk, plan: PlanView)
    requires
        tidy(plan),
        vacant(disk, plan),
        forall|path: Seq<char>| #[trigger] touches(plan, path) ==> agree(before, disk, path),
        disk.may_link == before.may_link,
        disk.one_device == before.one_device,
        disk.deal(BatchKind::Link, plan).1 == StatusView::Completed,
    ensures
        stored(before, disk.deal(BatchKind::Link, plan).0, plan),
{
    let made = disk.create_dir_all(plan.dir).0;
    assert forall|j: int| 0 <= j < plan.saves.len() implies agree(
        before,
        made,
        (#[trigger] plan.saves[j]).source,
    ) && !made.present(plan.saves[j].destination) by {
        assert(touches(plan, plan.saves[j].source));
    }
    lemma_relocations(before, made, plan, 0);
}

/// A batch that takes saves back completes its work on an entry that is in
/// storage, and leaves the entry's paths as they were before it was
/// relocated: the saves at their sources, and nothing at its places in
/// storage.
pub proof fn lemma_unlink_returns(before: Disk, disk: Disk, plan: PlanView)
    requires
        tidy(plan),
        vacant(before, plan),
        stored(before, disk, plan),
    ensures
        disk.deal(BatchKind::Unlink, plan).1 == StatusView::Completed,
        forall|path: Seq<char>|
            #[trigger] touches(plan, path) ==> agree(before, disk.deal(BatchKind::Unlink, plan).0, path),
{
    lemma_unlinks(before, disk, plan, 0);
    let after = disk.perform_all(Operation::Unlink, plan.saves, 0).0;
    let gone = disk.deal(BatchKind::Unlink, plan).0;
    assert(gone == after.without(plan.dir));
    assert forall|path: Seq<char>| #[trigger] touches(plan, path) implies agree(before, gone, path) by {
        if path != plan.dir {
            let j = choose|j: int|
                0 <= j < plan.saves.len() && ((#[trigger] plan.saves[j]).source == path
                    || plan.saves[j].destination == path);
            assert(agree(before, after, plan.saves[j].source));
        }
    }
}

/// For one entry, taking its saves back undoes relocating them: where a
/// batch that relocates completes its work on an entry whose places in
/// storage were vacant, a batch that takes saves back completes its work on
/// the entry too, and the disk is as it was at first.
pub proof fn lemma_unlink_undoes_link(disk: Disk, plan: PlanView)
    requires
        tidy(plan),
        vacant(disk, plan),
        disk.deal(BatchKind::Link, plan).1 == StatusView::Completed,
    ensures
        disk.deal(BatchKind::Link, plan).0.deal(BatchKind::Unlink, plan) == (
            disk,
            StatusView::Completed,
        ),
{
    let linked = disk.deal(BatchKind::Link, plan).0;
    let back = linked.deal(BatchKind::Unlink, plan).0;
    lemma_link_stores(disk, disk, plan);
    lemma_unlink_returns(disk, linked, plan);
    assert forall|path: Seq<char>|
        disk.nodes.contains_key(path) == #[trigger] back.nodes.contains_key(path) && (
        disk.nodes.contains_key(path) ==> disk.nodes[path] == back.nodes[path]) by {
        if !touches(plan, path) {
            lemma_deal_frame(disk, BatchKind::Link, plan, path);
            lemma_deal_frame(linked, BatchKind::Unlink, plan, path);
        } else {
            assert(agree(disk, back, path));
        }
    }
    assert(back.nodes =~= disk.nodes);
    assert(back.may_link == disk.may_link && back.one_device == disk.one_device) by {
        lemma_flags(disk, BatchKind::Link, plan);
        lemma_flags(linked, BatchKind::Unlink, plan);
    }
}

/// A batch's work on an entry does not change what the disk can do.
pub proof fn lemma_flags(disk: Disk, kind: BatchKind, plan: PlanView)
    ensures
        disk.deal(kind, plan).0.may_link == disk.may_link,
        disk.deal(kind, plan).0.one_device == disk.one_device,
{
    let start = if kind is Link {
        disk.create_dir_all(plan.dir).0
    } else {
        disk
    };
    lemma_flags_all(start, crate::batch::operation_of(kind), plan.saves, 0);
}

proof fn lemma_flags_all(disk: Disk, operation: Operation, routes: Seq<RouteView>, from: nat)
    ensures
        disk.perform_all(operation, routes, from).0.may_link == disk.may_link,
        disk.perform_all(operation, routes, from).0.one_device == disk.one_device,
    decreases routes.len() - from,
{
    if from < routes.len() {
        let route = routes[from as int];
        let (next, result) = disk.perform(operation, route.source, route.destination);
        if result is Ok {
            lemma_flags_all(next, operation, routes, from + 1);
        }
    }
}

/// No path belongs to both plans.
pub open spec fn separate(a: PlanView, b: PlanView) -> bool {
    forall|path: Seq<char>|
        #![trigger touches(a, path)]
        #![trigger touches(b, path)]
        !(touches(a, path) && touches(b, path))
}

/// The places ascend strictly.
pub open spec fn ascending(selected: Seq<nat>) -> bool {
    forall|i: int, k: int| 0 <= i < k < selected.len() ==> selected[i] < selected[k]
}

/// The two disks can do the same.
pub open spec fn alike(a: Disk, b: Disk) -> bool {
    a.may_link == b.may_link && a.one_device == b.one_device
}

/// The place in the report of the outcome for the entry selected at `turn`,
/// for work that began at the turn `first` with `reported` outcomes in the
/// report.
pub open spec fn place(reported: nat, first: nat, turn: nat) -> int {
    reported + turn - first
}

/// Every entry other than `entry` that the batch works on from `turn` on
/// shares no path with it.
pub open spec fn clear_of(ledger: LedgerView, turn: nat, entry: nat) -> bool {
    forall|t: nat|
        turn <= t < ledger.selected.len() && #[trigger] ledger.selected[t as int] != entry
            && !ledger.plan(t).ignored ==> separate(ledger.plan(t), ledger.plans[entry as int])
}

/// The selection ascends, stays within the plans, and holds exactly the
/// entries that are to be selected.
pub proof fn lemma_selection(disk: Disk, kind: BatchKind, plans: Seq<PlanView>, entry: nat, save: nat)
    ensures
        forall|i: int|
            0 <= i < disk.selection_from(kind, plans, entry, save).len() ==> entry
                <= #[trigger] disk.selection_from(kind, plans, entry, save)[i] < plans.len(),
        ascending(disk.selection_from(kind, plans, entry, save)),
        forall|e: int|
            entry < e < plans.len() && disk.selects_from(kind, #[trigger] plans[e], 0)
                ==> disk.selection_from(kind, plans, entry, save).contains(e as nat),
        entry < plans.len() && disk.selects_from(kind, plans[entry as int], save)
            ==> disk.selection_from(kind, plans, entry, save).contains(entry),
        forall|i: int|
            0 <= i < disk.selection_from(kind, plans, entry, save).len() ==> disk.selects_from(
                kind,
                plans[(#[trigger] disk.selection_from(kind, plans, entry, save)[i]) as int],
                if disk.selection_from(kind, plans, entry, save)[i] == entry {
                    save
                } else {
                    0
                },
            ),
    decreases plans.len() - entry,
{
    let found = disk.selection_from(kind, plans, entry, save);
    if entry < plans.len() {
        let later = disk.selection_from(kind, plans, entry + 1, 0);
        lemma_selection(disk, kind, plans, entry + 1, 0);
        if disk.selects_from(kind, plans[entry as int], save) {
            assert(found[0] == entry);
            assert forall|i: int| 0 < i < found.len() implies found[i] == later[i - 1] by {}
            assert forall|e: int|
                entry < e < plans.len() && disk.selects_from(
                    kind,
                    #[trigger] plans[e],
                    0,
                ) implies found.contains(e as nat) by {
                let i = choose|i: int| 0 <= i < later.len() && later[i] == e as nat;
                assert(found[i + 1] == e as nat);
            }
            assert forall|i: int| 0 <= i < found.len() implies disk.selects_from(
                kind,
                plans[(#[trigger] found[i]) as int],
                if found[i] == entry {
                    save
                } else {
                    0
                },
            ) by {
                if i > 0 {
                    assert(found[i] == later[i - 1]);
                }
            }
        }
    }
}

/// Work on the selected entries adds one outcome for each to the report, in
/// their order, and leaves the outcomes before them as they were.
pub proof fn lemma_act_report(disk: Disk, ledger: LedgerView, turn: nat)
    requires
        turn <= ledger.selected.len(),
    ensures
        disk.act(ledger, turn).1.len() == ledger.report.len() + ledger.selected.len() - turn,
        forall|i: int|
            0 <= i < ledger.report.len() ==> #[trigger] disk.act(ledger, turn).1[i]
                == ledger.report[i],
        forall|t: nat|
            turn <= t < ledger.selected.len() ==> (#[trigger] disk.act(ledger, turn).1[place(
                ledger.report.len(),
                turn,
                t,
            )]).entry == ledger.selected[t as int],
        alike(disk.act(ledger, turn).0, disk),
    decreases ledger.selected.len() - turn,
{
    if turn < ledger.selected.len() {
        let (next, status) = if ledger.plan(turn).ignored {
            (disk, StatusView::Ignored)
        } else if ledger.dry_run {
            (disk, StatusView::Planned)
        } else {
            disk.deal(ledger.kind, ledger.plan(turn))
        };
        lemma_flags(disk, ledger.kind, ledger.plan(turn));
        let after = ledger.reported(turn, status);
        lemma_act_report(next, after, turn + 1);
        let report = next.act(after, turn + 1).1;
        assert(disk.act(ledger, turn) == next.act(after, turn + 1));
        assert forall|i: int| 0 <= i < ledger.report.len() implies #[trigger] report[i]
            == ledger.report[i] by {
            assert(after.report[i] == ledger.report[i]);
        }
        assert forall|t: nat| turn <= t < ledger.selected.len() implies (#[trigger] report[place(
            ledger.report.len(),
            turn,
            t,
        )]).entry == ledger.selected[t as int] by {
            if t == turn {
                assert(report[ledger.report.len() as int] == after.report[ledger.report.len() as int]);
            } else {
                assert(place(ledger.report.len(), turn, t) == place(
                    after.report.len(),
                    turn + 1,
                    t,
                ));
            }
        }
    }
}

/// An entry that is in storage on one disk is in storage on every disk that
/// has the same at the entry's paths.
proof fn lemma_stored_frame(before: Disk, a: Disk, b: Disk, plan: PlanView)
    requires
        stored(before, a, plan),
        alike(a, b),
        forall|path: Seq<char>| #[trigger] touches(plan, path) ==> agree(a, b, path),
    ensures
        stored(before, b, plan),
{
    assert(touches(plan, plan.dir));
    assert forall|j: int| 0 <= j < plan.saves.len() implies relocated(
        before,
        b,
        #[trigger] plan.saves[j],
    ) by {
        assert(relocated(before, a, plan.saves[j]));
        assert(touches(plan, plan.saves[j].source));
        assert(touches(plan, plan.saves[j].destination));
    }
}

/// The disk after the work on the entry selected at `turn`, and the status
/// that is reported for it.
spec fn step(disk: Disk, ledger: LedgerView, turn: nat) -> (Disk, StatusView) {
    if ledger.plan(turn).ignored {
        (disk, StatusView::Ignored)
    } else if ledger.dry_run {
        (disk, StatusView::Planned)
    } else {
        disk.deal(ledger.kind, ledger.plan(turn))
    }
}

/// Work on one selected entry leaves the paths of `entry` as they were,
/// where the two share no path.
proof fn lemma_step_keeps(disk: Disk, ledger: LedgerView, turn: nat, entry: nat)
    requires
        turn < ledger.selected.len(),
        clear_of(ledger, turn, entry),
        ledger.selected[turn as int] != entry,
    ensures
        forall|path: Seq<char>|
            #[trigger] touches(ledger.plans[entry as int], path) ==> agree(
                disk,
                step(disk, ledger, turn).0,
                path,
            ),
        alike(disk, step(disk, ledger, turn).0),
{
    let plan = ledger.plan(turn);
    lemma_flags(disk, ledger.kind, plan);
    if !plan.ignored && !ledger.dry_run {
        assert(separate(plan, ledger.plans[entry as int]));
        assert forall|path: Seq<char>| #[trigger] touches(ledger.plans[entry as int], path) implies agree(
            disk,
            step(disk, ledger, turn).0,
            path,
        ) by {
            assert(!touches(plan, path));
            lemma_deal_frame(disk, ledger.kind, plan, path);
        }
    }
}

/// The work of a batch leaves the paths of `entry` as they were, where the
/// entry is not among those the batch has yet to go through and shares no
/// path with those it works on.
proof fn lemma_act_keeps(disk: Disk, ledger: LedgerView, turn: nat, entry: nat)
    requires
        turn <= ledger.selected.len(),
        clear_of(ledger, turn, entry),
        forall|t: nat| turn <= t < ledger.selected.len() ==> ledger.selected[t as int] != entry,
    ensures
        forall|path: Seq<char>|
            #[trigger] touches(ledger.plans[entry as int], path) ==> agree(
                disk,
                disk.act(ledger, turn).0,
                path,
            ),
    decreases ledger.selected.len() - turn,
{
    if turn < ledger.selected.len() {
        let (next, status) = step(disk, ledger, turn);
        let after = ledger.reported(turn, status);
        assert(disk.act(ledger, turn) == next.act(after, turn + 1));
        lemma_step_keeps(disk, ledger, turn, entry);
        assert(clear_of(after, turn + 1, entry)) by {
            assert forall|t: nat|
                turn + 1 <= t < after.selected.len() && #[trigger] after.selected[t as int] != entry
                    && !after.plan(t).ignored implies separate(
                after.plan(t),
                after.plans[entry as int],
            ) by {
                assert(ledger.selected[t as int] != entry);
            }
        }
        lemma_act_keeps(next, after, turn + 1, entry);
    }
}

/// What a batch that relocates leaves of `entry`: where the batch reports it
/// as completed, the entry is in storage, and it was not ignored.
proof fn lemma_link_act(before: Disk, disk: Disk, ledger: LedgerView, turn: nat, entry: nat)
    requires
        ledger.kind is Link,
        ascending(ledger.selected),
        turn <= ledger.selected.len(),
        entry < ledger.plans.len(),
        tidy(ledger.plans[entry as int]),
        vacant(before, ledger.plans[entry as int]),
        alike(before, disk),
        forall|path: Seq<char>|
            #[trigger] touches(ledger.plans[entry as int], path) ==> agree(before, disk, path),
        clear_of(ledger, turn, entry),
    ensures
        forall|t: nat|
            turn <= t < ledger.selected.len() && ledger.selected[t as int] == entry
                && (#[trigger] disk.act(ledger, turn).1[place(ledger.report.len(), turn, t)]).status
                == StatusView::Completed ==> stored(
                before,
                disk.act(ledger, turn).0,
                ledger.plans[entry as int],
            ) && !ledger.plans[entry as int].ignored,
    decreases ledger.selected.len() - turn,
{
    if turn < ledger.selected.len() {
        let plan = ledger.plans[entry as int];
        let (next, status) = step(disk, ledger, turn);
        let after = ledger.reported(turn, status);
        let (end, report) = next.act(after, turn + 1);
        assert(disk.act(ledger, turn) == (end, report));
        lemma_act_report(next, after, turn + 1);
        lemma_flags(disk, ledger.kind, ledger.plan(turn));
        assert(clear_of(after, turn + 1, entry)) by {
            assert forall|t: nat|
                turn + 1 <= t < after.selected.len() && #[trigger] after.selected[t as int] != entry
                    && !after.plan(t).ignored implies separate(
                after.plan(t),
                after.plans[entry as int],
            ) by {
                assert(ledger.selected[t as int] != entry);
            }
        }
        if ledger.selected[turn as int] == entry {
            assert(ledger.plan(turn) == plan);
            assert(report[ledger.report.len() as int] == after.report[ledger.report.len() as int]);
            if status == StatusView::Completed {
                assert(vacant(disk, plan)) by {
                    assert(touches(plan, plan.dir));
                    assert forall|j: int| 0 <= j < plan.saves.len() implies !disk.present(
                        (#[trigger] plan.saves[j]).destination,
                    ) by {
                        assert(touches(plan, plan.saves[j].destination));
                    }
                }
                lemma_link_stores(before, disk, plan);
                assert forall|t: nat| turn + 1 <= t < after.selected.len() implies after.selected[t as int]
                    != entry by {
                    assert(ledger.selected[turn as int] < ledger.selected[t as int]);
                }
                lemma_act_keeps(next, after, turn + 1, entry);
                lemma_stored_frame(before, next, end, plan);
            }
            assert forall|t: nat|
                turn <= t < ledger.selected.len() && ledger.selected[t as int] == entry
                    && (#[trigger] report[place(ledger.report.len(), turn, t)]).status
                    == StatusView::Completed implies stored(before, end, plan) && !plan.ignored by {
                if t > turn {
                    assert(ledger.selected[turn as int] < ledger.selected[t as int]);
                }
            }
        } else {
            lemma_step_keeps(disk, ledger, turn, entry);
            lemma_link_act(before, next, after, turn + 1, entry);
            assert forall|t: nat|
                turn <= t < ledger.selected.len() && ledger.selected[t as int] == entry
                    && (#[trigger] report[place(ledger.report.len(), turn, t)]).status
                    == StatusView::Completed implies stored(before, end, plan) && !plan.ignored by {
                assert(place(ledger.report.len(), turn, t) == place(
                    after.report.len(),
                    turn + 1,
                    t,
                ));
                assert(after.selected[t as int] == entry);
            }
        }
    }
}

/// What a batch that takes saves back leaves of `entry`, which is in
/// storage: where the batch goes through the entry and does not ignore it,
/// it reports it as completed, and leaves its paths as they were before the
/// entry was relocated.
proof fn lemma_unlink_act(
    before: Disk,
    linked: Disk,
    disk: Disk,
    ledger: LedgerView,
    turn: nat,
    entry: nat,
)
    requires
        ledger.kind is Unlink,
        !ledger.dry_run,
        ascending(ledger.selected),
        turn <= ledger.selected.len(),
        entry < ledger.plans.len(),
        !ledger.plans[entry as int].ignored,
        tidy(ledger.plans[entry as int]),
        vacant(before, ledger.plans[entry as int]),
        stored(before, linked, ledger.plans[entry as int]),
        alike(linked, disk),
        forall|path: Seq<char>|
            #[trigger] touches(ledger.plans[entry as int], path) ==> agree(linked, disk, path),
        clear_of(ledger, turn, entry),
    ensures
        forall|t: nat|
            turn <= t < ledger.selected.len() && ledger.selected[t as int] == entry ==> (
            #[trigger] disk.act(ledger, turn).1[place(ledger.report.len(), turn, t)]).status
                == StatusView::Completed && (forall|path: Seq<char>|
                #[trigger] touches(ledger.plans[entry as int], path) ==> agree(
                    before,
                    disk.act(ledger, turn).0,
                    path,
                )),
    decreases ledger.selected.len() - turn,
{
    if turn < ledger.selected.len() {
        let plan = ledger.plans[entry as int];
        let (next, status) = step(disk, ledger, turn);
        let after = ledger.reported(turn, status);
        let (end, report) = next.act(after, turn + 1);
        assert(disk.act(ledger, turn) == (end, report));
        lemma_act_report(next, after, turn + 1);
        lemma_flags(disk, ledger.kind, ledger.plan(turn));
        assert(clear_of(after, turn + 1, entry)) by {
            assert forall|t: nat|
                turn + 1 <= t < after.selected.len() && #[trigger] after.selected[t as int] != entry
                    && !after.plan(t).ignored implies separate(
                after.plan(t),
                after.plans[entry as int],
            ) by {
                assert(ledger.selected[t as int] != entry);
            }
        }
        if ledger.selected[turn as int] == entry {
            assert(ledger.plan(turn) == plan);
            assert(report[ledger.report.len() as int] == after.report[ledger.report.len() as int]);
            lemma_stored_frame(before, linked, disk, plan);
            lemma_unlink_returns(before, disk, plan);
            assert forall|t: nat| turn + 1 <= t < after.selected.len() implies after.selected[t as int]
                != entry by {
                assert(ledger.selected[turn as int] < ledger.selected[t as int]);
            }
            lemma_act_keeps(next, after, turn + 1, entry);
            assert forall|t: nat|
                turn <= t < ledger.selected.len() && ledger.selected[t as int]
                    == entry implies (#[trigger] report[place(
                ledger.report.len(),
                turn,
                t,
            )]).status == StatusView::Completed && (forall|path: Seq<char>|
                #[trigger] touches(plan, path) ==> agree(before, end, path)) by {
                if t > turn {
                    assert(ledger.selected[turn as int] < ledger.selected[t as int]);
                }
            }
        } else {
            lemma_step_keeps(disk, ledger, turn, entry);
            lemma_unlink_act(before, linked, next, after, turn + 1, entry);
            assert forall|t: nat|
                turn <= t < ledger.selected.len() && ledger.selected[t as int]
                    == entry implies (#[trigger] report[place(
                ledger.report.len(),
                turn,
                t,
            )]).status == StatusView::Completed && (forall|path: Seq<char>|
                #[trigger] touches(plan, path) ==> agree(before, end, path)) by {
                assert(place(ledger.report.len(), turn, t) == place(
                    after.report.len(),
                    turn + 1,
                    t,
                ));
                assert(after.selected[t as int] == entry);
            }
        }
    }
}

/// A batch that relocates reports `entry` as completed where it goes
/// through it, links can be made, and a file or a directory stands at each
/// of its save paths.
proof fn lemma_link_act_completes(
    before: Disk,
    disk: Disk,
    ledger: LedgerView,
    turn: nat,
    entry: nat,
)
    requires
        ledger.kind is Link,
        !ledger.dry_run,
        ascending(ledger.selected),
        turn <= ledger.selected.len(),
        entry < ledger.plans.len(),
        !ledger.plans[entry as int].ignored,
        tidy(ledger.plans[entry as int]),
        vacant(before, ledger.plans[entry as int]),
        holds_data(before, ledger.plans[entry as int]),
        before.may_link,
        alike(before, disk),
        forall|path: Seq<char>|
            #[trigger] touches(ledger.plans[entry as int], path) ==> agree(before, disk, path),
        clear_of(ledger, turn, entry),
    ensures
        forall|t: nat|
            turn <= t < ledger.selected.len() && ledger.selected[t as int] == entry ==> (
            #[trigger] disk.act(ledger, turn).1[place(ledger.report.len(), turn, t)]).status
                == StatusView::Completed,
    decreases ledger.selected.len() - turn,
{
    if turn < ledger.selected.len() {
        let plan = ledger.plans[entry as int];
        let (next, status) = step(disk, ledger, turn);
        let after = ledger.reported(turn, status);
        let (end, report) = next.act(after, turn + 1);
        assert(disk.act(ledger, turn) == (end, report));
        lemma_act_report(next, after, turn + 1);
        if ledger.selected[turn as int] == entry {
            assert(ledger.plan(turn) == plan);
            assert(report[ledger.report.len() as int] == after.report[ledger.report.len() as int]);
            assert(vacant(disk, plan)) by {
                assert(touches(plan, plan.dir));
                assert forall|j: int| 0 <= j < plan.saves.len() implies !disk.present(
                    (#[trigger] plan.saves[j]).destination,
                ) by {
                    assert(touches(plan, plan.saves[j].destination));
                }
            }
            lemma_link_completes(before, disk, plan);
            assert forall|t: nat|
                turn <= t < ledger.selected.len() && ledger.selected[t as int]
                    == entry implies (#[trigger] report[place(
                ledger.report.len(),
                turn,
                t,
            )]).status == StatusView::Completed by {
                if t > turn {
                    assert(ledger.selected[turn as int] < ledger.selected[t as int]);
                }
            }
        } else {
            lemma_step_keeps(disk, ledger, turn, entry);
            assert(clear_of(after, turn + 1, entry)) by {
                assert forall|t: nat|
                    turn + 1 <= t < after.selected.len() && #[trigger] after.selected[t as int]
                        != entry && !after.plan(t).ignored implies separate(
                    after.plan(t),
                    after.plans[entry as int],
                ) by {
                    assert(ledger.selected[t as int] != entry);
                }
            }
            lemma_link_act_completes(before, next, after, turn + 1, entry);
            assert forall|t: nat|
                turn <= t < ledger.selected.len() && ledger.selected[t as int]
                    == entry implies (#[trigger] report[place(
                ledger.report.len(),
                turn,
                t,
            )]).status == StatusView::Completed by {
                assert(place(ledger.report.len(), turn, t) == place(
                    after.report.len(),
                    turn + 1,
                    t,
                ));
                assert(after.selected[t as int] == entry);
            }
        }
    }
}

/// The batch that relocates, or the one that takes saves back run on what
/// the first left, works on the entry at the place `other`: it selects the
/// entry, and the entry is not ignored.
pub open spec fn worked_on(disk: Disk, plans: Seq<PlanView>, other: int) -> bool {
    &&& !plans[other].ignored
    &&& disk.selects_from(BatchKind::Link, plans[other], 0) || disk.batch(
        BatchKind::Link,
        false,
        false,
        plans,
    ).0.selects_from(BatchKind::Unlink, plans[other], 0)
}

/// Taking saves back undoes relocating them. Let the paths of an entry be
/// all different, the entry have an id, nothing stand on `disk` where
/// storage is to keep it, and let it share no path with the other entries
/// that the two batches work on. Then if the batch that relocates reports
/// the entry as completed, the batch that takes saves back, run on what the
/// first left, reports it as completed too, and leaves each of its paths as
/// it was on `disk`: what stood at the sources stands there again, and its
/// storage directory is gone.
pub proof fn lemma_unlink_all_undoes_link_all(disk: Disk, plans: Seq<PlanView>, entry: nat)
    requires
        entry < plans.len(),
        tidy(plans[entry as int]),
        vacant(disk, plans[entry as int]),
        plans[entry as int].id.len() > 0,
        forall|other: int|
            0 <= other < plans.len() && other != entry && #[trigger] worked_on(disk, plans, other)
                ==> separate(plans[other], plans[entry as int]),
        disk.batch(BatchKind::Link, false, false, plans).1 matches Ok(report) && report.contains(
            OutcomeView { entry, status: StatusView::Completed },
        ),
    ensures
        disk.batch(BatchKind::Link, false, false, plans).0.batch(
            BatchKind::Unlink,
            false,
            false,
            plans,
        ).1 matches Ok(report) && report.contains(
            OutcomeView { entry, status: StatusView::Completed },
        ),
        forall|path: Seq<char>|
            #[trigger] touches(plans[entry as int], path) ==> agree(
                disk,
                disk.batch(BatchKind::Link, false, false, plans).0.batch(
                    BatchKind::Unlink,
                    false,
                    false,
                    plans,
                ).0,
                path,
            ),
{
    let plan = plans[entry as int];
    let first = disk.selection_from(BatchKind::Link, plans, 0, 0);
    let linking = LedgerView {
        kind: BatchKind::Link,
        dry_run: false,
        preselected: false,
        plans,
        selected: first,
        report: Seq::empty(),
    };
    let (linked, linked_report) = disk.act(linking, 0);
    assert(linked == disk.batch(BatchKind::Link, false, false, plans).0);
    lemma_selection(disk, BatchKind::Link, plans, 0, 0);
    lemma_act_report(disk, linking, 0);
    assert(clear_of(linking, 0, entry)) by {
        assert forall|t: nat|
            0 <= t < linking.selected.len() && #[trigger] linking.selected[t as int] != entry
                && !linking.plan(t).ignored implies separate(linking.plan(t), plan) by {
            let other = first[t as int] as int;
            assert(disk.selects_from(BatchKind::Link, plans[other], 0));
            assert(worked_on(disk, plans, other));
        }
    }
    lemma_link_act(disk, disk, linking, 0, entry);
    let done = OutcomeView { entry, status: StatusView::Completed };
    let i = choose|i: int| 0 <= i < linked_report.len() && linked_report[i] == done;
    assert(linked_report[place(0, 0, i as nat)] == done);
    assert(first[i] == entry);
    assert(stored(disk, linked, plan) && !plan.ignored);

    let second = linked.selection_from(BatchKind::Unlink, plans, 0, 0);
    let unlinking = LedgerView {
        kind: BatchKind::Unlink,
        dry_run: false,
        preselected: false,
        plans,
        selected: second,
        report: Seq::empty(),
    };
    let (back, back_report) = linked.act(unlinking, 0);
    lemma_selection(linked, BatchKind::Unlink, plans, 0, 0);
    assert(linked.selects_from(BatchKind::Unlink, plan, 0));
    assert(second.contains(entry));
    let t = choose|t: int| 0 <= t < second.len() && second[t] == entry;
    lemma_act_report(linked, unlinking, 0);
    assert(clear_of(unlinking, 0, entry)) by {
        assert forall|u: nat|
            0 <= u < unlinking.selected.len() && #[trigger] unlinking.selected[u as int] != entry
                && !unlinking.plan(u).ignored implies separate(unlinking.plan(u), plan) by {
            let other = second[u as int] as int;
            assert(linked.selects_from(BatchKind::Unlink, plans[other], 0));
            assert(worked_on(disk, plans, other));
        }
    }
    lemma_unlink_act(disk, linked, linked, unlinking, 0, entry);
    let found = back_report[place(0, 0, t as nat)];
    assert(unlinking.selected[t] == entry);
    assert(found.status == StatusView::Completed);
    assert(found.entry == entry);
    assert(back_report[t] == done);
}

/// The batch that relocates completes its work on an entry that holds data.
/// Let links be possible, the entry not be ignored and have a save path, a
/// file or a directory stand at each of its save paths, its paths be all
/// different, nothing stand on `disk` where storage is to keep it, and let
/// it share no path with the other entries that are worked on. Then the
/// batch reports the entry as completed.
pub proof fn lemma_link_all_completes(disk: Disk, plans: Seq<PlanView>, entry: nat)
    requires
        disk.may_link,
        entry < plans.len(),
        !plans[entry as int].ignored,
        plans[entry as int].saves.len() > 0,
        holds_data(disk, plans[entry as int]),
        tidy(plans[entry as int]),
        vacant(disk, plans[entry as int]),
        forall|other: int|
            0 <= other < plans.len() && other != entry && #[trigger] worked_on(disk, plans, other)
                ==> separate(plans[other], plans[entry as int]),
    ensures
        disk.batch(BatchKind::Link, false, false, plans).1 matches Ok(report) && report.contains(
            OutcomeView { entry, status: StatusView::Completed },
        ),
{
    let plan = plans[entry as int];
    let first = disk.selection_from(BatchKind::Link, plans, 0, 0);
    let linking = LedgerView {
        kind: BatchKind::Link,
        dry_run: false,
        preselected: false,
        plans,
        selected: first,
        report: Seq::empty(),
    };
    let report = disk.act(linking, 0).1;
    lemma_selection(disk, BatchKind::Link, plans, 0, 0);
    lemma_act_report(disk, linking, 0);
    assert(clear_of(linking, 0, entry)) by {
        assert forall|t: nat|
            0 <= t < linking.selected.len() && #[trigger] linking.selected[t as int] != entry
                && !linking.plan(t).ignored implies separate(linking.plan(t), plan) by {
            let other = first[t as int] as int;
            assert(disk.selects_from(BatchKind::Link, plans[other], 0));
            assert(worked_on(disk, plans, other));
        }
    }
    assert(disk.selects_from(BatchKind::Link, plan, 0)) by {
        assert(crate::batch::is_movable(disk.kind(plan.saves[0].source)));
    }
    assert(first.contains(entry));
    let t = choose|t: int| 0 <= t < first.len() && first[t] == entry;
    lemma_link_act_completes(disk, disk, linking, 0, entry);
    let found = report[place(0, 0, t as nat)];
    assert(linking.selected[t] == entry);
    assert(found.status == StatusView::Completed);
    assert(found.entry == entry);
    assert(report[t] == OutcomeView { entry, status: StatusView::Completed });
}

/// The round trip from the state before it: under the conditions of
/// [`lemma_link_all_completes`], and with an id on the entry, the batch that
/// relocates and then the batch that takes saves back both report the entry
/// as completed, and leave each of its paths as it was on `disk`.
pub proof fn lemma_round_trip(disk: Disk, plans: Seq<PlanView>, entry: nat)
    requires
        disk.may_link,
        entry < plans.len(),
        !plans[entry as int].ignored,
        plans[entry as int].id.len() > 0,
        plans[entry as int].saves.len() > 0,
        holds_data(disk, plans[entry as int]),
        tidy(plans[entry as int]),
        vacant(disk, plans[entry as int]),
        forall|other: int|
            0 <= other < plans.len() && other != entry && #[trigger] worked_on(disk, plans, other)
                ==> separate(plans[other], plans[entry as int]),
    ensures
        disk.batch(BatchKind::Link, false, false, plans).1 matches Ok(report) && report.contains(
            OutcomeView { entry, status: StatusView::Completed },
        ),
        disk.batch(BatchKind::Link, false, false, plans).0.batch(
            BatchKind::Unlink,
            false,
            false,
            plans,
        ).1 matches Ok(report) && report.contains(
            OutcomeView { entry, status: StatusView::Completed },
        ),
        forall|path: Seq<char>|
            #[trigger] touches(plans[entry as int], path) ==> agree(
                disk,
                disk.batch(BatchKind::Link, false, false, plans).0.batch(
                    BatchKind::Unlink,
                    false,
                    false,
                    plans,
                ).0,
                path,
            ),
{
    lemma_link_all_completes(disk, plans, entry);
    lemma_unlink_all_undoes_link_all(disk, plans, entry);
}

} // verus!
