use saveli::batch::{Batch, BatchKind, Outcome, Status};
use saveli::database::{CatalogFile, Database};
use saveli::environment::Environment;
use saveli::errors::{Failure, FailureKind, Fault, LinkError, RelocateError};
use saveli::game::{Game, SavePath};
use saveli::linker::{NodeKind, Reply, Request};
use saveli::settings::Settings;
use saveli::simulation::{Item, Simulation};

fn join(base: &str, part: &str) -> String {
    std::path::Path::new(base).join(part).to_str().unwrap().to_owned()
}

fn game_with(id: &str, saves: &[(&str, &str)]) -> Game {
    let vars = Environment::new();
    Game {
        title: id.to_uppercase(),
        id: id.to_owned(),
        custom: false,
        saves: saves
            .iter()
            .map(|(save_id, path)| SavePath::new((*save_id).to_owned(), path, &vars).unwrap())
            .collect(),
    }
}

fn catalog(games: Vec<Game>) -> Database {
    Database::load(CatalogFile { version: 1, games }, &Environment::new()).unwrap()
}

fn settings(dry_run: bool) -> Settings {
    Settings { storage_path: "/storage".to_owned(), dry_run, ignored: vec![] }
}

fn statuses(report: &[Outcome]) -> Vec<(usize, String)> {
    report.iter().map(|o| (o.entry, format!("{:?}", o.status))).collect()
}

#[test]
fn test_all_with_moved_saves_matches() {
    let game = Game { id: "gameid".to_owned(), ..Default::default() };
    let storage_path = "/storage".to_owned();
    let mut disk = Simulation::new(true, true);
    disk.put(join(&storage_path, &game.id), Item::Dir(0));
    assert_eq!(
        Game::all_with_moved_saves(&vec![game], &storage_path).run(&mut disk).unwrap().len(),
        1
    )
}

#[test]
fn test_all_with_moved_saves_empty() {
    let storage_path = "/storage".to_owned();
    let mut disk = Simulation::new(true, true);
    disk.put(storage_path.clone(), Item::Dir(0));
    assert_eq!(
        Game::all_with_moved_saves(&vec![Game::default()], &storage_path)
            .run(&mut disk)
            .unwrap()
            .len(),
        0
    )
}

#[test]
fn test_link_file() {
    let mut disk = Simulation::new(true, true);
    let src = "/tmp/file".to_owned();
    disk.put(src.clone(), Item::File(7));
    assert!(disk.present(&src));
    let game = Game {
        id: "gameid".to_owned(),
        saves: vec![SavePath::new("saveid".to_owned(), &src, &Environment::new()).unwrap()],
        ..Default::default()
    };
    let storage_path = "/storage".to_owned();
    let report = Game::link(&game, &storage_path, false).run(&mut disk).unwrap();
    assert!(matches!(report[0].status, Status::Completed));
    let dest = join(&join(&storage_path, &game.id), "saveid");
    assert_eq!(disk.target(&src).unwrap(), dest);
}

#[test]
fn test_move_and_link_dir() {
    let mut disk = Simulation::new(true, true);
    let src = "/tmp/dir".to_owned();
    disk.put(src.clone(), Item::Dir(7));
    assert!(disk.present(&src));
    let game = Game {
        id: "gameid".to_owned(),
        saves: vec![SavePath::new("saveid".to_owned(), &src, &Environment::new()).unwrap()],
        ..Default::default()
    };
    let storage_path = "/storage".to_owned();
    let report = Game::link(&game, &storage_path, false).run(&mut disk).unwrap();
    assert!(matches!(report[0].status, Status::Completed));
    let dest = join(&join(&storage_path, &game.id), "saveid");
    assert_eq!(disk.target(&src).unwrap(), dest);
}

#[test]
fn test_move_and_link_existing_file() {
    let mut disk = Simulation::new(true, true);
    let src = "/tmp/file".to_owned();
    disk.put(src.clone(), Item::File(7));
    assert!(disk.present(&src));
    let game = Game {
        id: "gameid".to_owned(),
        saves: vec![SavePath::new("saveid".to_owned(), &src, &Environment::new()).unwrap()],
        ..Default::default()
    };
    let storage_path = "/storage".to_owned();
    let dest = join(&join(&storage_path, &game.id), "saveid");
    disk.put(join(&storage_path, &game.id), Item::Dir(0));
    disk.put(dest.clone(), Item::File(1));
    // What is in storage is never overwritten.
    let report = Game::link(&game, &storage_path, false).run(&mut disk).unwrap();
    assert!(matches!(
        &report[0].status,
        Status::Failed(Fault::Relocate(RelocateError::DestinationExists(path))) if *path == dest
    ));
    assert_eq!(disk.contents(&dest), Some(1));
    assert_eq!(disk.contents(&src), Some(7));
}

#[test]
fn test_move_and_link_existing_dir() {
    let mut disk = Simulation::new(true, true);
    let src = "/tmp/dir".to_owned();
    disk.put(src.clone(), Item::Dir(7));
    assert!(disk.present(&src));
    let game = Game {
        id: "gameid".to_owned(),
        saves: vec![SavePath::new("saveid".to_owned(), &src, &Environment::new()).unwrap()],
        ..Default::default()
    };
    let storage_path = "/storage".to_owned();
    let dest = join(&join(&storage_path, &game.id), "saveid");
    disk.put(dest.clone(), Item::Dir(1));
    // What is in storage is never overwritten.
    let report = Game::link(&game, &storage_path, false).run(&mut disk).unwrap();
    assert!(matches!(
        &report[0].status,
        Status::Failed(Fault::Relocate(RelocateError::DestinationExists(path))) if *path == dest
    ));
    assert_eq!(disk.contents(&dest), Some(1));
    assert_eq!(disk.contents(&src), Some(7));
}

fn stored(kind: Item) -> (Simulation, Game, String) {
    let mut disk = Simulation::new(true, true);
    let game = game_with("gameid", &[("saveid", "/home/saves")]);
    let dest = join(&join("/storage", "gameid"), "saveid");
    disk.put(join("/storage", "gameid"), Item::Dir(0));
    disk.put(dest.clone(), kind);
    (disk, game, dest)
}

#[test]
fn test_restore_dir() {
    let (mut disk, game, dest) = stored(Item::Dir(3));
    let report = game.restore("/storage", false).run(&mut disk).unwrap();
    assert!(matches!(report[0].status, Status::Completed));
    assert_eq!(disk.target("/home/saves"), Some(dest.clone()));
    assert_eq!(disk.contents(&dest), Some(3));
}

#[test]
fn test_restore_file() {
    let (mut disk, game, dest) = stored(Item::File(3));
    let report = game.restore("/storage", false).run(&mut disk).unwrap();
    assert!(matches!(report[0].status, Status::Completed));
    assert_eq!(disk.target("/home/saves"), Some(dest.clone()));
    assert_eq!(disk.kind(&dest), NodeKind::File);
}

#[test]
fn test_restore_existing_dir() {
    let (mut disk, game, dest) = stored(Item::Dir(3));
    disk.put("/home/saves".to_owned(), Item::Dir(9));
    let report = game.restore("/storage", false).run(&mut disk).unwrap();
    assert!(matches!(
        &report[0].status,
        Status::Failed(Fault::Link(LinkError::SourceExists(path))) if path == "/home/saves"
    ));
    assert_eq!(disk.contents("/home/saves"), Some(9));
    assert_eq!(disk.contents(&dest), Some(3));
}

#[test]
fn test_restore_existing_file() {
    let (mut disk, game, dest) = stored(Item::File(3));
    disk.put("/home/saves".to_owned(), Item::File(9));
    let report = game.restore("/storage", false).run(&mut disk).unwrap();
    assert!(matches!(
        &report[0].status,
        Status::Failed(Fault::Link(LinkError::SourceExists(path))) if path == "/home/saves"
    ));
    assert_eq!(disk.contents("/home/saves"), Some(9));
    assert_eq!(disk.contents(&dest), Some(3));
}

#[test]
fn plan_places_each_save_under_the_entry_in_storage() {
    let game = game_with("gameid", &[("one", "/a"), ("two", "/b")]);
    let plan = game.plan("/storage", true);
    assert_eq!(plan.id, "gameid");
    assert_eq!(plan.dir, join("/storage", "gameid"));
    assert_ne!(plan.dir, "/storage");
    assert!(plan.ignored);
    assert_eq!(plan.saves.len(), 2);
    assert_eq!(plan.saves[0].source, "/a");
    assert_eq!(plan.saves[0].destination, join(&join("/storage", "gameid"), "one"));
    assert_eq!(plan.saves[1].source, "/b");
    assert_eq!(plan.saves[1].destination, join(&join("/storage", "gameid"), "two"));
}

fn world() -> (Simulation, Database) {
    let mut disk = Simulation::new(true, true);
    disk.put("/storage".to_owned(), Item::Dir(0));
    disk.put("/home/a/saves".to_owned(), Item::Dir(11));
    disk.put("/home/a/config".to_owned(), Item::File(12));
    disk.put("/home/c/saves".to_owned(), Item::File(31));
    let db = catalog(vec![
        game_with("a", &[("saves", "/home/a/saves"), ("config", "/home/a/config")]),
        game_with("b", &[("saves", "/home/b/saves")]),
        game_with("c", &[("saves", "/home/c/saves")]),
        game_with("d", &[]),
    ]);
    (disk, db)
}

#[test]
fn link_all_relocates_what_is_there() {
    let (mut disk, db) = world();
    let report = Game::link_all(&db, &settings(false)).run(&mut disk).unwrap();
    assert_eq!(
        statuses(&report),
        vec![(0, "Completed".to_owned()), (2, "Completed".to_owned())]
    );
    assert_eq!(disk.target("/home/a/saves"), Some(join(&join("/storage", "a"), "saves")));
    assert_eq!(disk.target("/home/a/config"), Some(join(&join("/storage", "a"), "config")));
    assert_eq!(disk.contents(&join(&join("/storage", "a"), "saves")), Some(11));
    assert_eq!(disk.contents(&join(&join("/storage", "a"), "config")), Some(12));
    assert_eq!(disk.contents(&join(&join("/storage", "c"), "saves")), Some(31));
    assert_eq!(disk.kind(&join("/storage", "a")), NodeKind::Dir);
    assert!(!disk.present(&join("/storage", "b")));
    assert!(!disk.present("/home/b/saves"));
}

#[test]
fn link_all_then_unlink_all_restores_everything() {
    for one_device in [true, false] {
        let (mut disk, db) = world();
        if !one_device {
            let mut other = Simulation::new(true, false);
            other.put("/storage".to_owned(), Item::Dir(0));
            other.put("/home/a/saves".to_owned(), Item::Dir(11));
            other.put("/home/a/config".to_owned(), Item::File(12));
            other.put("/home/c/saves".to_owned(), Item::File(31));
            disk = other;
        }
        let linked = Game::link_all(&db, &settings(false)).run(&mut disk).unwrap();
        assert_eq!(linked.len(), 2);
        let unlinked = Game::unlink_all(&db, &settings(false)).run(&mut disk).unwrap();
        assert_eq!(
            statuses(&unlinked),
            vec![(0, "Completed".to_owned()), (2, "Completed".to_owned())]
        );
        assert_eq!(disk.kind("/home/a/saves"), NodeKind::Dir);
        assert_eq!(disk.contents("/home/a/saves"), Some(11));
        assert_eq!(disk.kind("/home/a/config"), NodeKind::File);
        assert_eq!(disk.contents("/home/a/config"), Some(12));
        assert_eq!(disk.contents("/home/c/saves"), Some(31));
        assert!(!disk.present(&join("/storage", "a")));
        assert!(!disk.present(&join("/storage", "c")));
        assert!(!disk.present(&join(&join("/storage", "a"), "saves")));
        assert!(!disk.present(&join(&join("/storage", "c"), "saves")));
        assert_eq!(disk.kind("/storage"), NodeKind::Dir);
    }
}

#[test]
fn link_all_twice_fails_nothing_and_moves_nothing() {
    let (mut disk, db) = world();
    Game::link_all(&db, &settings(false)).run(&mut disk).unwrap();
    let again = Game::link_all(&db, &settings(false)).run(&mut disk).unwrap();
    assert!(again.is_empty());
    assert_eq!(disk.contents(&join(&join("/storage", "a"), "saves")), Some(11));
}

#[test]
fn a_failure_ends_the_entry_and_not_the_batch() {
    let (mut disk, db) = world();
    disk.remove("/home/a/saves".to_owned());
    let report = Game::link_all(&db, &settings(false)).run(&mut disk).unwrap();
    assert_eq!(report.len(), 2);
    assert_eq!(report[0].entry, 0);
    assert!(matches!(
        &report[0].status,
        Status::Failed(Fault::Relocate(RelocateError::SourceNotFound(path))) if path == "/home/a/saves"
    ));
    assert_eq!(disk.contents("/home/a/config"), Some(12));
    assert!(matches!(report[1].status, Status::Completed));
    assert_eq!(disk.target("/home/c/saves"), Some(join(&join("/storage", "c"), "saves")));
}

#[test]
fn ignored_entries_are_passed_over() {
    let (mut disk, db) = world();
    let mut settings = settings(false);
    settings.ignore_game(db.find_by_id("a").unwrap()).unwrap();
    let report = Game::link_all(&db, &settings).run(&mut disk).unwrap();
    assert_eq!(statuses(&report), vec![(0, "Ignored".to_owned()), (2, "Completed".to_owned())]);
    assert_eq!(disk.contents("/home/a/saves"), Some(11));
    assert!(!disk.present(&join("/storage", "a")));
}

#[test]
fn dry_run_asks_but_changes_nothing() {
    let (mut disk, db) = world();
    let mut batch = Game::link_all(&db, &settings(true));
    let mut asked = Vec::new();
    while let Some(request) = batch.next() {
        asked.push(format!("{:?}", request));
        let reply = disk.respond(request);
        batch = batch.resume(reply);
    }
    assert_eq!(
        asked,
        vec![
            "Inspect(\"/home/a/saves\")",
            "Inspect(\"/home/b/saves\")",
            "Inspect(\"/home/c/saves\")",
        ]
    );
    let report = batch.outcome().unwrap().unwrap();
    assert_eq!(statuses(&report), vec![(0, "Planned".to_owned()), (2, "Planned".to_owned())]);
    assert_eq!(disk.contents("/home/a/saves"), Some(11));
    assert!(!disk.present(&join("/storage", "a")));
}

#[test]
fn a_batch_stops_before_it_begins_when_links_cannot_be_made() {
    let (_, db) = world();
    let mut disk = Simulation::new(false, true);
    disk.put("/home/a/saves".to_owned(), Item::Dir(11));
    let batch = Game::link_all(&db, &settings(false));
    assert!(matches!(batch.next(), Some(Request::CheckLinks)));
    match batch.run(&mut disk) {
        Err(Fault::Link(LinkError::Io(failure))) => {
            assert_eq!(failure.kind, FailureKind::PermissionDenied)
        }
        other => panic!("unexpected result: {:?}", other),
    }
    assert_eq!(disk.contents("/home/a/saves"), Some(11));
}

#[test]
fn link_all_asks_in_order() {
    let db = catalog(vec![game_with("a", &[("one", "/one"), ("two", "/two")])]);
    let mut batch = Game::link_all(&db, &settings(false));
    assert!(!batch.is_finished());
    assert_eq!(batch.plans().len(), 1);
    assert!(matches!(batch.next(), Some(Request::CheckLinks)));
    batch = batch.resume(Reply::Checked(Ok(())));
    assert!(matches!(batch.next(), Some(Request::Inspect(p)) if p == "/one"));
    batch = batch.resume(Reply::Kind(NodeKind::Link));
    assert!(matches!(batch.next(), Some(Request::Inspect(p)) if p == "/two"));
    batch = batch.resume(Reply::Kind(NodeKind::File));
    assert!(matches!(batch.next(), Some(Request::CreateDirAll(p)) if p == join("/storage", "a")));
    batch = batch.resume(Reply::Done(Err(Failure { kind: FailureKind::AlreadyExists, code: 17 })));
    assert!(matches!(batch.next(), Some(Request::Inspect(p)) if p == "/one"));
    batch = batch.resume(Reply::Kind(NodeKind::Link));
    assert!(matches!(batch.next(), Some(Request::Inspect(p)) if p == join(&join("/storage", "a"), "one")));
    batch = batch.resume(Reply::Kind(NodeKind::Dir));
    assert!(matches!(batch.next(), Some(Request::ReadLink(p)) if p == "/one"));
    batch = batch.resume(Reply::Target(Some(join(&join("/storage", "a"), "one"))));
    assert!(matches!(batch.next(), Some(Request::Inspect(p)) if p == "/two"));
    batch = batch.resume(Reply::Flag(true));
    assert!(batch.is_finished());
    let report = batch.outcome().unwrap().unwrap();
    assert_eq!(report.len(), 1);
    assert!(matches!(report[0].status, Status::Failed(Fault::Protocol)));
}

#[test]
fn the_storage_directory_must_be_makeable() {
    let db = catalog(vec![game_with("a", &[("one", "/one")]), game_with("b", &[("one", "/b")])]);
    let mut batch = Game::link_all(&db, &settings(false));
    batch = batch.resume(Reply::Checked(Ok(())));
    batch = batch.resume(Reply::Kind(NodeKind::Dir));
    batch = batch.resume(Reply::Kind(NodeKind::Other));
    let denied = Failure { kind: FailureKind::PermissionDenied, code: 13 };
    batch = batch.resume(Reply::Done(Err(denied)));
    assert!(matches!(batch.next(), Some(Request::CreateDirAll(p)) if p == join("/storage", "b")));
    batch = batch.resume(Reply::Done(Ok(())));
    assert!(matches!(batch.next(), Some(Request::Inspect(p)) if p == "/b"));
    batch = batch.resume(Reply::Kind(NodeKind::Missing));
    let report = batch.outcome().unwrap().unwrap();
    assert!(matches!(report[0].status, Status::Failed(Fault::Io(f)) if f == denied));
    assert_eq!(report[0].entry, 0);
    assert_eq!(report[1].entry, 1);
    assert!(matches!(
        &report[1].status,
        Status::Failed(Fault::Relocate(RelocateError::SourceNotFound(p))) if p == "/b"
    ));
}

#[test]
fn restore_all_selects_what_is_in_storage() {
    let mut disk = Simulation::new(true, true);
    disk.put(join("/storage", "a"), Item::Dir(0));
    disk.put(join(&join("/storage", "a"), "saves"), Item::Dir(5));
    let db = catalog(vec![
        game_with("a", &[("saves", "/home/a/saves")]),
        game_with("b", &[("saves", "/home/b/saves")]),
        game_with("", &[("saves", "/home/none")]),
    ]);
    let report = Game::restore_all(&db, &settings(false)).run(&mut disk).unwrap();
    assert_eq!(statuses(&report), vec![(1, "Completed".to_owned())]);
    assert_eq!(db.games[1].id, "a");
    assert_eq!(disk.target("/home/a/saves"), Some(join(&join("/storage", "a"), "saves")));
    assert!(!disk.present("/home/b/saves"));
    assert!(!disk.present("/home/none"));
}

#[test]
fn unlink_all_keeps_a_directory_that_is_not_empty() {
    let (mut disk, db) = world();
    Game::link_all(&db, &settings(false)).run(&mut disk).unwrap();
    disk.put(join("/storage", "a"), Item::Dir(99));
    let report = Game::unlink_all(&db, &settings(false)).run(&mut disk).unwrap();
    assert!(matches!(
        report[0].status,
        Status::Failed(Fault::Io(Failure { kind: FailureKind::Other, code: 0 }))
    ));
    assert_eq!(disk.contents("/home/a/saves"), Some(11));
    assert!(matches!(report[1].status, Status::Completed));
}

#[test]
fn has_movable_saves_tells_by_its_report() {
    let mut disk = Simulation::new(true, true);
    disk.put("/real".to_owned(), Item::Dir(1));
    disk.put("/link".to_owned(), Item::Link("/real".to_owned()));
    let movable = game_with("a", &[("x", "/missing"), ("y", "/link"), ("z", "/real")]);
    let fixed = game_with("b", &[("x", "/missing"), ("y", "/link")]);
    assert_eq!(movable.has_movable_saves("/storage").run(&mut disk).unwrap().len(), 1);
    assert_eq!(fixed.has_movable_saves("/storage").run(&mut disk).unwrap().len(), 0);
    let both = vec![fixed, movable];
    let report = Game::all_with_movable_saves(&both, "/storage").run(&mut disk).unwrap();
    assert_eq!(statuses(&report), vec![(1, "Planned".to_owned())]);
}

#[test]
fn link_then_unlink_of_one_entry() {
    let mut disk = Simulation::new(true, true);
    disk.put("/one".to_owned(), Item::Dir(1));
    disk.put("/two".to_owned(), Item::File(2));
    let game = game_with("g", &[("one", "/one"), ("two", "/two")]);
    let planned = game.link("/storage", true).run(&mut disk).unwrap();
    assert!(matches!(planned[0].status, Status::Planned));
    assert_eq!(disk.contents("/one"), Some(1));
    game.link("/storage", false).run(&mut disk).unwrap();
    assert_eq!(disk.kind("/one"), NodeKind::Link);
    assert_eq!(disk.kind("/two"), NodeKind::Link);
    let report = game.unlink("/storage", false).run(&mut disk).unwrap();
    assert!(matches!(report[0].status, Status::Completed));
    assert_eq!(disk.contents("/one"), Some(1));
    assert_eq!(disk.contents("/two"), Some(2));
    assert!(!disk.present(&join("/storage", "g")));
}

#[test]
fn a_reply_of_the_wrong_kind_stops_the_batch() {
    let db = catalog(vec![game_with("a", &[("one", "/one")])]);
    let batch = Game::link_all(&db, &settings(false)).resume(Reply::Flag(true));
    assert!(matches!(batch.outcome(), Some(Err(Fault::Protocol))));
    let batch = Game::restore_all(&db, &settings(true)).resume(Reply::Kind(NodeKind::Dir));
    assert!(matches!(batch.outcome(), Some(Err(Fault::Protocol))));
}

#[test]
fn begin_takes_plans_as_they_are() {
    let batch = Batch::begin(BatchKind::Unlink, true, true, vec![]);
    assert!(batch.is_finished());
    assert!(batch.outcome().unwrap().unwrap().is_empty());
}

#[test]
fn link_without_a_source_makes_no_link_and_stores_nothing() {
    let mut disk = Simulation::new(true, true);
    disk.put("/two".to_owned(), Item::File(2));
    let game = game_with("g", &[("one", "/one"), ("two", "/two")]);
    let report = game.link("/storage", false).run(&mut disk).unwrap();
    assert_eq!(report.len(), 1);
    assert!(matches!(
        &report[0].status,
        Status::Failed(Fault::Relocate(RelocateError::SourceNotFound(path))) if path == "/one"
    ));
    assert!(!disk.present("/one"));
    assert!(!disk.present(&join(&join("/storage", "g"), "one")));
    assert_eq!(disk.contents("/two"), Some(2));
    assert!(!disk.present(&join(&join("/storage", "g"), "two")));
}

#[test]
fn link_onto_the_place_in_storage_itself_is_refused() {
    let mut disk = Simulation::new(true, true);
    let place = join(&join("/storage", "g"), "one");
    disk.put(place.clone(), Item::Dir(7));
    let game = game_with("g", &[("one", &place)]);
    let report = game.link("/storage", false).run(&mut disk).unwrap();
    assert!(matches!(
        &report[0].status,
        Status::Failed(Fault::Relocate(RelocateError::DestinationExists(path))) if *path == place
    ));
    assert_eq!(disk.kind(&place), NodeKind::Dir);
    assert_eq!(disk.contents(&place), Some(7));
}

#[test]
fn a_stray_entry_does_not_disturb_the_round_trip_of_another() {
    let mut disk = Simulation::new(true, true);
    disk.put("/home/a/saves".to_owned(), Item::Dir(11));
    let db = catalog(vec![
        game_with("a", &[("saves", "/home/a/saves")]),
        game_with("b", &[("saves", "/home/a/saves"), ("again", "/home/a/saves")]),
        game_with("", &[("saves", "/home/none")]),
    ]);
    let ids: Vec<&str> = db.games.iter().map(|g| g.id.as_str()).collect();
    assert_eq!(ids, vec!["", "a", "b"]);
    let mut settings = settings(false);
    settings.ignored.push("b".to_owned());
    let linked = Game::link_all(&db, &settings).run(&mut disk).unwrap();
    assert_eq!(statuses(&linked), vec![(1, "Completed".to_owned()), (2, "Ignored".to_owned())]);
    let unlinked = Game::unlink_all(&db, &settings).run(&mut disk).unwrap();
    assert_eq!(statuses(&unlinked), vec![(1, "Completed".to_owned())]);
    assert_eq!(disk.kind("/home/a/saves"), NodeKind::Dir);
    assert_eq!(disk.contents("/home/a/saves"), Some(11));
    assert!(!disk.present(&join("/storage", "a")));
}
