use saveli::errors::{Failure, FailureKind, Fault, LinkError, MoveError, RelocateError};
use saveli::linker::{Linker, NodeKind, Reply, Request};
use saveli::simulation::{Item, Simulation};

/// A scratch directory of its own, as a fresh temporary directory would be.
fn tempdir(disk: &mut Simulation, name: &str) -> String {
    let path = format!("/tmp/{}", name);
    disk.put(path.clone(), Item::Dir(0));
    path
}

/// A scratch file of its own.
fn tempfile(disk: &mut Simulation, name: &str) -> String {
    let path = format!("/tmp/{}", name);
    disk.put(path.clone(), Item::File(0));
    path
}

fn join(dir: &str, name: &str) -> String {
    format!("{}/{}", dir, name)
}

fn symlink(disk: &mut Simulation, from: &str, to: &str) -> Result<(), Fault> {
    Linker::symlink(from.to_owned(), to.to_owned()).run(disk)
}

#[test]
fn symlink_src_none_dest_none() {
    let mut disk = Simulation::new(true, true);
    let c = tempdir(&mut disk, "c");
    let src = join(&c, "src");
    let dest = join(&c, "dest");
    let err = symlink(&mut disk, &src, &dest).unwrap_err();

    assert!(match err {
        Fault::Link(LinkError::DestinationDoesNotExist(_)) => true,
        _ => false,
    });
}

#[test]
fn symlink_src_none_dest_dir() {
    let mut disk = Simulation::new(true, true);
    let c = tempdir(&mut disk, "c");
    let src = join(&c, "src");
    let dest = tempdir(&mut disk, "dest");
    symlink(&mut disk, &src, &dest).unwrap();
}

#[test]
fn symlink_src_none_dest_dir_twice() {
    let mut disk = Simulation::new(true, true);
    let c = tempdir(&mut disk, "c");
    let src = join(&c, "src");
    let dest = tempdir(&mut disk, "dest");
    symlink(&mut disk, &src, &dest).unwrap();
    symlink(&mut disk, &src, &dest).unwrap();
}

#[test]
fn symlink_src_none_dest_file() {
    let mut disk = Simulation::new(true, true);
    let c = tempdir(&mut disk, "c");
    let src = join(&c, "src");
    let dest = tempfile(&mut disk, "dest");
    symlink(&mut disk, &src, &dest).unwrap();
}

#[test]
fn symlink_src_none_dest_file_twice() {
    let mut disk = Simulation::new(true, true);
    let c = tempdir(&mut disk, "c");
    let src = join(&c, "src");
    let dest = tempfile(&mut disk, "dest");
    symlink(&mut disk, &src, &dest).unwrap();
    symlink(&mut disk, &src, &dest).unwrap();
}

#[test]
fn symlink_src_file_dest_file() {
    let mut disk = Simulation::new(true, true);
    let src = tempfile(&mut disk, "a");
    let dest = tempfile(&mut disk, "b");
    let err = symlink(&mut disk, &src, &dest).unwrap_err();

    assert!(match err {
        Fault::Link(LinkError::SourceExists(_)) => true,
        _ => false,
    });
}

#[test]
fn symlink_src_file_dest_dir() {
    let mut disk = Simulation::new(true, true);
    let src = tempfile(&mut disk, "a");
    let dest = tempdir(&mut disk, "b");
    let err = symlink(&mut disk, &src, &dest).unwrap_err();

    assert!(match err {
        Fault::Link(LinkError::SourceExists(_)) => true,
        _ => false,
    });
}

#[test]
fn symlink_src_dir_dest_file() {
    let mut disk = Simulation::new(true, true);
    let src = tempdir(&mut disk, "a");
    let dest = tempfile(&mut disk, "b");
    let err = symlink(&mut disk, &src, &dest).unwrap_err();

    assert!(match err {
        Fault::Link(LinkError::SourceExists(_)) => true,
        _ => false,
    });
}

#[test]
fn symlink_src_dir_dest_dir() {
    let mut disk = Simulation::new(true, true);
    let src = tempdir(&mut disk, "a");
    let dest = tempdir(&mut disk, "b");
    let err = symlink(&mut disk, &src, &dest).unwrap_err();

    assert!(match err {
        Fault::Link(LinkError::SourceExists(_)) => true,
        _ => false,
    });
}

#[test]
fn symlink_makes_the_link() {
    let mut disk = Simulation::new(true, true);
    disk.put("/data".to_owned(), Item::Dir(5));
    symlink(&mut disk, "/link", "/data").unwrap();
    assert_eq!(disk.kind("/link"), NodeKind::Link);
    assert_eq!(disk.target("/link"), Some("/data".to_owned()));
    assert_eq!(disk.contents("/data"), Some(5));
}

#[test]
fn symlink_twice_changes_nothing_the_second_time() {
    let mut disk = Simulation::new(true, true);
    disk.put("/data".to_owned(), Item::File(1));
    symlink(&mut disk, "/link", "/data").unwrap();
    let first = format!("{:?}", (disk.kind("/link"), disk.target("/link"), disk.contents("/data")));
    symlink(&mut disk, "/link", "/data").unwrap();
    let second = format!("{:?}", (disk.kind("/link"), disk.target("/link"), disk.contents("/data")));
    assert_eq!(first, second);
}

#[test]
fn symlink_names_the_path_that_the_source_leads_to() {
    let mut disk = Simulation::new(true, true);
    disk.put("/data".to_owned(), Item::File(1));
    disk.put("/elsewhere".to_owned(), Item::File(2));
    disk.put("/link".to_owned(), Item::Link("/elsewhere".to_owned()));
    match symlink(&mut disk, "/link", "/data") {
        Err(Fault::Link(LinkError::AlreadyLinked(target))) => assert_eq!(target, "/elsewhere"),
        other => panic!("unexpected result: {:?}", other),
    }
    assert_eq!(disk.target("/link"), Some("/elsewhere".to_owned()));
}

#[test]
fn symlink_reports_what_the_system_said_when_nothing_explains_it() {
    let mut disk = Simulation::new(false, true);
    disk.put("/data".to_owned(), Item::File(1));
    match symlink(&mut disk, "/link", "/data") {
        Err(Fault::Link(LinkError::Io(failure))) => {
            assert_eq!(failure, Failure { kind: FailureKind::PermissionDenied, code: 0 })
        }
        other => panic!("unexpected result: {:?}", other),
    }
    assert!(!disk.present("/link"));
    disk.put("/odd".to_owned(), Item::Other);
    assert!(matches!(
        symlink(&mut disk, "/odd", "/data"),
        Err(Fault::Link(LinkError::Io(Failure { kind: FailureKind::PermissionDenied, code: 0 })))
    ));
}

#[test]
fn symlink_asks_one_thing_at_a_time() {
    let mut job = Linker::symlink("/link".to_owned(), "/data".to_owned());
    assert!(!job.is_finished());
    assert!(matches!(job.next(), Some(Request::Exists(path)) if path == "/data"));
    job.resume(Reply::Flag(true));
    assert!(matches!(job.next(), Some(Request::CreateLink { at, to }) if at == "/link" && to == "/data"));
    let denied = Failure { kind: FailureKind::PermissionDenied, code: 13 };
    job.resume(Reply::Done(Err(denied)));
    assert!(matches!(job.next(), Some(Request::Inspect(path)) if path == "/link"));
    job.resume(Reply::Kind(NodeKind::Link));
    assert!(matches!(job.next(), Some(Request::ReadLink(path)) if path == "/link"));
    job.resume(Reply::Target(None));
    assert!(job.next().is_none());
    assert!(job.is_finished());
    assert!(matches!(job.outcome(), Some(Err(Fault::Link(LinkError::Io(f)))) if f == denied));
}

#[test]
fn a_reply_of_the_wrong_kind_ends_the_job() {
    let mut job = Linker::symlink("/link".to_owned(), "/data".to_owned());
    job.resume(Reply::Kind(NodeKind::Dir));
    assert!(matches!(job.outcome(), Some(Err(Fault::Protocol))));
}

#[test]
fn a_finished_job_stays_as_it_is() {
    let mut job = Linker::symlink("/link".to_owned(), "/data".to_owned());
    job.resume(Reply::Flag(false));
    job.resume(Reply::Flag(true));
    assert!(job.next().is_none());
    assert!(matches!(
        job.outcome(),
        Some(Err(Fault::Link(LinkError::DestinationDoesNotExist(path)))) if path == "/data"
    ));
}

#[test]
fn an_unfinished_job_has_no_outcome() {
    let job = Linker::move_item("/a".to_owned(), "/b".to_owned());
    assert!(job.outcome().is_none());
}

#[test]
fn move_item_renames_where_it_can() {
    let mut disk = Simulation::new(true, true);
    disk.put("/a".to_owned(), Item::File(7));
    Linker::move_item("/a".to_owned(), "/b".to_owned()).run(&mut disk).unwrap();
    assert!(!disk.present("/a"));
    assert_eq!(disk.contents("/b"), Some(7));
}

#[test]
fn move_item_copies_across_devices() {
    let mut disk = Simulation::new(true, false);
    disk.put("/a".to_owned(), Item::Dir(7));
    disk.put("/f".to_owned(), Item::File(8));
    Linker::move_item("/a".to_owned(), "/b".to_owned()).run(&mut disk).unwrap();
    Linker::move_item("/f".to_owned(), "/g".to_owned()).run(&mut disk).unwrap();
    assert!(!disk.present("/a"));
    assert_eq!(disk.kind("/b"), NodeKind::Dir);
    assert_eq!(disk.contents("/b"), Some(7));
    assert_eq!(disk.kind("/g"), NodeKind::File);
}

#[test]
fn move_item_falls_back_in_the_right_order() {
    let mut job = Linker::move_item("/a".to_owned(), "/b".to_owned());
    assert!(matches!(job.next(), Some(Request::Rename { from, to }) if from == "/a" && to == "/b"));
    job.resume(Reply::Done(Err(Failure { kind: FailureKind::Other, code: 18 })));
    assert!(matches!(job.next(), Some(Request::IsDir(path)) if path == "/a"));
    job.resume(Reply::Flag(true));
    assert!(matches!(job.next(), Some(Request::MoveDir { from, to }) if from == "/a" && to == "/b"));
    job.resume(Reply::Done(Ok(())));
    assert!(matches!(job.outcome(), Some(Ok(()))));

    let mut job = Linker::move_item("/a".to_owned(), "/b".to_owned());
    job.resume(Reply::Done(Err(Failure { kind: FailureKind::Other, code: 18 })));
    job.resume(Reply::Flag(false));
    assert!(matches!(job.next(), Some(Request::MoveFile { from, to }) if from == "/a" && to == "/b"));
}

#[test]
fn move_item_reports_both_paths_when_it_fails() {
    let mut disk = Simulation::new(true, true);
    match Linker::move_item("/a".to_owned(), "/b".to_owned()).run(&mut disk) {
        Err(Fault::Move(MoveError::FailedToMove(from, to, cause))) => {
            assert_eq!(from, "/a");
            assert_eq!(to, "/b");
            assert_eq!(cause.kind, FailureKind::Other);
        }
        other => panic!("unexpected result: {:?}", other),
    }
}

#[test]
fn relocate_moves_the_data_and_links_to_it() {
    let mut disk = Simulation::new(true, true);
    disk.put("/saves".to_owned(), Item::Dir(42));
    Linker::relocate_and_link("/saves".to_owned(), "/storage/g/s".to_owned())
        .run(&mut disk)
        .unwrap();
    assert_eq!(disk.target("/saves"), Some("/storage/g/s".to_owned()));
    assert_eq!(disk.kind("/storage/g/s"), NodeKind::Dir);
    assert_eq!(disk.contents("/storage/g/s"), Some(42));
}

#[test]
fn relocate_twice_is_a_no_op_the_second_time() {
    let mut disk = Simulation::new(true, true);
    disk.put("/saves".to_owned(), Item::File(42));
    for _ in 0..2 {
        Linker::relocate_and_link("/saves".to_owned(), "/stored".to_owned())
            .run(&mut disk)
            .unwrap();
        assert_eq!(disk.target("/saves"), Some("/stored".to_owned()));
        assert_eq!(disk.contents("/stored"), Some(42));
    }
}

#[test]
fn relocate_fails_without_a_source_and_touches_nothing() {
    let mut disk = Simulation::new(true, true);
    disk.put("/other".to_owned(), Item::File(1));
    match Linker::relocate_and_link("/saves".to_owned(), "/stored".to_owned()).run(&mut disk) {
        Err(Fault::Relocate(RelocateError::SourceNotFound(path))) => assert_eq!(path, "/saves"),
        other => panic!("unexpected result: {:?}", other),
    }
    assert!(!disk.present("/saves"));
    assert!(!disk.present("/stored"));
    assert_eq!(disk.contents("/other"), Some(1));

    let mut job = Linker::relocate_and_link("/saves".to_owned(), "/stored".to_owned());
    assert!(matches!(job.next(), Some(Request::Inspect(path)) if path == "/saves"));
    job.resume(Reply::Kind(NodeKind::Missing));
    assert!(job.next().is_none());
}

#[test]
fn relocate_never_overwrites() {
    let mut disk = Simulation::new(true, true);
    disk.put("/saves".to_owned(), Item::File(1));
    disk.put("/stored".to_owned(), Item::File(2));
    match Linker::relocate_and_link("/saves".to_owned(), "/stored".to_owned()).run(&mut disk) {
        Err(Fault::Relocate(RelocateError::DestinationExists(path))) => assert_eq!(path, "/stored"),
        other => panic!("unexpected result: {:?}", other),
    }
    assert_eq!(disk.contents("/saves"), Some(1));
    assert_eq!(disk.contents("/stored"), Some(2));
}

#[test]
fn relocate_onto_itself_is_refused() {
    let mut disk = Simulation::new(true, true);
    disk.put("/saves".to_owned(), Item::Dir(1));
    match Linker::relocate_and_link("/saves".to_owned(), "/saves".to_owned()).run(&mut disk) {
        Err(Fault::Relocate(RelocateError::DestinationExists(path))) => assert_eq!(path, "/saves"),
        other => panic!("unexpected result: {:?}", other),
    }
    assert_eq!(disk.contents("/saves"), Some(1));
}

#[test]
fn relocate_with_a_link_to_elsewhere_at_the_source_is_refused_when_the_destination_exists() {
    let mut disk = Simulation::new(true, true);
    disk.put("/saves".to_owned(), Item::Link("/elsewhere".to_owned()));
    disk.put("/stored".to_owned(), Item::File(2));
    assert!(matches!(
        Linker::relocate_and_link("/saves".to_owned(), "/stored".to_owned()).run(&mut disk),
        Err(Fault::Relocate(RelocateError::DestinationExists(_)))
    ));
}

#[test]
fn relocate_passes_on_the_failure_of_the_move_and_of_the_link() {
    let mut job = Linker::relocate_and_link("/saves".to_owned(), "/stored".to_owned());
    job.resume(Reply::Kind(NodeKind::Dir));
    assert!(matches!(job.next(), Some(Request::Inspect(path)) if path == "/stored"));
    job.resume(Reply::Kind(NodeKind::Missing));
    job.resume(Reply::Done(Err(Failure { kind: FailureKind::Other, code: 18 })));
    job.resume(Reply::Flag(true));
    let full = Failure { kind: FailureKind::Other, code: 28 };
    job.resume(Reply::Done(Err(full)));
    assert!(matches!(
        job.outcome(),
        Some(Err(Fault::Move(MoveError::FailedToMove(from, to, cause))))
            if from == "/saves" && to == "/stored" && cause == full
    ));

    let mut disk = Simulation::new(false, true);
    disk.put("/saves".to_owned(), Item::Dir(3));
    assert!(matches!(
        Linker::relocate_and_link("/saves".to_owned(), "/stored".to_owned()).run(&mut disk),
        Err(Fault::Link(LinkError::Io(Failure { kind: FailureKind::PermissionDenied, code: 0 })))
    ));
    assert_eq!(disk.contents("/stored"), Some(3));
    assert!(!disk.present("/saves"));
}

#[test]
fn unlink_undoes_relocate() {
    for one_device in [true, false] {
        let mut disk = Simulation::new(true, one_device);
        disk.put("/saves".to_owned(), Item::Dir(42));
        Linker::relocate_and_link("/saves".to_owned(), "/stored".to_owned())
            .run(&mut disk)
            .unwrap();
        Linker::unlink("/saves".to_owned(), "/stored".to_owned()).run(&mut disk).unwrap();
        assert_eq!(disk.kind("/saves"), NodeKind::Dir);
        assert_eq!(disk.contents("/saves"), Some(42));
        assert!(!disk.present("/stored"));
    }
}

#[test]
fn unlink_leaves_real_data_alone() {
    let mut disk = Simulation::new(true, true);
    disk.put("/saves".to_owned(), Item::Dir(1));
    disk.put("/stored".to_owned(), Item::Dir(2));
    assert!(matches!(
        Linker::unlink("/saves".to_owned(), "/stored".to_owned()).run(&mut disk),
        Err(Fault::Io(Failure { kind: FailureKind::Other, code: 0 }))
    ));
    assert_eq!(disk.contents("/saves"), Some(1));
    assert_eq!(disk.contents("/stored"), Some(2));
    assert!(matches!(
        Linker::unlink("/nothing".to_owned(), "/stored".to_owned()).run(&mut disk),
        Err(Fault::Io(Failure { kind: FailureKind::NotFound, code: 0 }))
    ));
}

#[test]
fn check_reparse_privilege_links_between_the_scratch_directories() {
    let expected = std::path::Path::new("/tmp/one").join("src");
    let job = Linker::check_reparse_privilege("/tmp/one", "/tmp/two".to_owned());
    assert!(matches!(job.next(), Some(Request::Exists(path)) if path == "/tmp/two"));
    let mut disk = Simulation::new(true, true);
    disk.put("/tmp/one".to_owned(), Item::Dir(0));
    disk.put("/tmp/two".to_owned(), Item::Dir(0));
    job.run(&mut disk).unwrap();
    assert_eq!(disk.target(expected.to_str().unwrap()), Some("/tmp/two".to_owned()));
    assert_ne!(expected.to_str().unwrap(), "/tmp/one");

    let mut disk = Simulation::new(false, true);
    disk.put("/tmp/two".to_owned(), Item::Dir(0));
    assert!(Linker::check_reparse_privilege("/tmp/one", "/tmp/two".to_owned())
        .run(&mut disk)
        .is_err());
}

#[test]
fn simulation_answers_requests() {
    let mut disk = Simulation::new(true, true);
    assert!(matches!(disk.respond(Request::CheckLinks), Reply::Checked(Ok(()))));
    assert!(matches!(disk.respond(Request::CreateDirAll("/d".to_owned())), Reply::Done(Ok(()))));
    assert!(matches!(disk.respond(Request::CreateDirAll("/d".to_owned())), Reply::Done(Ok(()))));
    assert!(matches!(disk.respond(Request::IsDir("/d".to_owned())), Reply::Flag(true)));
    disk.put("/f".to_owned(), Item::File(3));
    assert!(matches!(
        disk.respond(Request::CreateDirAll("/f".to_owned())),
        Reply::Done(Err(Failure { kind: FailureKind::AlreadyExists, code: 0 }))
    ));
    assert!(matches!(disk.respond(Request::Inspect("/f".to_owned())), Reply::Kind(NodeKind::File)));
    assert!(matches!(disk.respond(Request::Inspect("/x".to_owned())), Reply::Kind(NodeKind::Missing)));
    disk.put("/dangling".to_owned(), Item::Link("/x".to_owned()));
    assert!(matches!(disk.respond(Request::Exists("/dangling".to_owned())), Reply::Flag(false)));
    assert!(matches!(disk.respond(Request::Exists("/f".to_owned())), Reply::Flag(true)));
    assert!(matches!(disk.respond(Request::ReadLink("/f".to_owned())), Reply::Target(None)));
    assert!(matches!(disk.respond(Request::RemoveDir("/d".to_owned())), Reply::Done(Ok(()))));
    assert!(!disk.present("/d"));
    disk.put("/full".to_owned(), Item::Dir(9));
    assert!(matches!(disk.respond(Request::RemoveDir("/full".to_owned())), Reply::Done(Err(_))));
    assert!(matches!(disk.respond(Request::RemoveLink("/f".to_owned())), Reply::Done(Err(_))));
    assert!(matches!(disk.respond(Request::RemoveLink("/dangling".to_owned())), Reply::Done(Ok(()))));
    disk.remove("/f".to_owned());
    assert!(disk.get("/f").is_none());
    assert!(matches!(disk.get("/full"), Some(Item::Dir(9))));
    assert!(matches!(Item::Link("/t".to_owned()).copy(), Item::Link(t) if t == "/t"));
    assert_eq!(Item::Other.kind(), NodeKind::Other);
}

#[test]
fn unlink_makes_the_link_again_when_the_data_cannot_be_moved_back() {
    let mut disk = Simulation::new(true, true);
    disk.put("/saves".to_owned(), Item::Link("/stored".to_owned()));
    match Linker::unlink("/saves".to_owned(), "/stored".to_owned()).run(&mut disk) {
        Err(Fault::Move(MoveError::FailedToMove(from, to, _))) => {
            assert_eq!(from, "/stored");
            assert_eq!(to, "/saves");
        }
        other => panic!("unexpected result: {:?}", other),
    }
    assert_eq!(disk.target("/saves"), Some("/stored".to_owned()));

    let mut job = Linker::unlink("/saves".to_owned(), "/stored".to_owned());
    assert!(matches!(job.next(), Some(Request::RemoveLink(path)) if path == "/saves"));
    job.resume(Reply::Done(Ok(())));
    assert!(matches!(job.next(), Some(Request::Rename { from, to }) if from == "/stored" && to == "/saves"));
    job.resume(Reply::Done(Err(Failure { kind: FailureKind::Other, code: 18 })));
    assert!(matches!(job.next(), Some(Request::IsDir(path)) if path == "/stored"));
    job.resume(Reply::Flag(true));
    assert!(matches!(job.next(), Some(Request::MoveDir { from, to }) if from == "/stored" && to == "/saves"));
    let full = Failure { kind: FailureKind::Other, code: 28 };
    job.resume(Reply::Done(Err(full)));
    assert!(matches!(job.next(), Some(Request::CreateLink { at, to }) if at == "/saves" && to == "/stored"));
    job.resume(Reply::Done(Ok(())));
    assert!(matches!(
        job.outcome(),
        Some(Err(Fault::Move(MoveError::FailedToMove(_, _, cause)))) if cause == full
    ));
}
