use filesync::admin_panel::ClientPacket;
use filesync::admin_panel::Log;
use filesync::admin_panel::LogHolder;
use filesync::admin_panel::LogLevel;
use filesync::admin_panel::ServerPacket;
use filesync::admin_panel::TgUser;
use filesync::db::PatchNoteHolder;
use filesync::file_updater::FileHolder;
use filesync::pipeline::decompress_in_mem;

fn fresh() -> (FileHolder, PatchNoteHolder) {
    (FileHolder::new(), PatchNoteHolder::new())
}

#[test]
fn list_unknown_dir_stays_silent() {
    let (mut h, mut n) = fresh();
    let (rs, art) = ClientPacket::FileList { dir: String::from("nowhere") }.handle(
        &mut h, &mut n, 1,
    );
    assert!(rs.is_empty());
    assert!(art.is_none());
}

#[test]
fn create_folder_then_listing_refreshes() {
    let (mut h, mut n) = fresh();
    let (rs, _art) = ClientPacket::CreateFolder {
        dir: String::new(),
        name: String::from("data"),
    }.handle(&mut h, &mut n, 1);
    assert_eq!(rs.len(), 1);
    match &rs[0] {
        ServerPacket::FileList { dir, files, folders } => {
            assert_eq!(dir, "");
            assert!(files.is_empty());
            assert_eq!(folders.len(), 1);
            assert_eq!(folders[0].name, "data");
        },
        _ => panic!("expected a listing"),
    }
    assert!(h.folder_info("data").is_some());
}

#[test]
fn upload_acknowledges_twice_and_yields_artifact() {
    let (mut h, mut n) = fresh();
    let (rs, art) = ClientPacket::AddFile {
        id: 99,
        dir: String::from("notes"),
        name: String::from("doc.txt"),
        file: b"hello".to_vec(),
    }.handle(&mut h, &mut n, 7);
    assert_eq!(rs.len(), 2);
    assert!(matches!(rs[0], ServerPacket::FileUploaded { id } if id == 99));
    assert!(matches!(rs[1], ServerPacket::FileProceeded { id } if id == 99));
    let artifact = art.expect("uploads produce the compressed artifact");
    assert_eq!(decompress_in_mem(&artifact).unwrap(), b"hello");
    let e = h.file_info("notes", "doc.txt").unwrap();
    assert_eq!(e.size, 5);
    assert_eq!(e.created_at, 7);
    // Aggregates were refreshed as part of the upload.
    assert_eq!(h.root_folder.size, 5);
    assert_eq!(h.root_folder.files_count, 1);
}

#[test]
fn remove_file_toggles_and_reports() {
    let (mut h, mut n) = fresh();
    let _ = ClientPacket::AddFile {
        id: 1,
        dir: String::from("d"),
        name: String::from("f"),
        file: vec![1, 2],
    }.handle(&mut h, &mut n, 1);
    let (rs, _) = ClientPacket::RemoveFile {
        dir: String::from("d"),
        name: String::from("f"),
    }.handle(&mut h, &mut n, 2);
    assert_eq!(rs.len(), 1);
    match &rs[0] {
        ServerPacket::FileList { files, .. } => {
            assert_eq!(files.len(), 1);
            assert!(files[0].deleted);
        },
        _ => panic!("expected a listing"),
    }
}

#[test]
fn remove_folder_joins_parent_and_name() {
    let (mut h, mut n) = fresh();
    let _ = ClientPacket::CreateFolder { dir: String::new(), name: String::from("a") }
        .handle(&mut h, &mut n, 1);
    let _ = ClientPacket::CreateFolder { dir: String::from("a"), name: String::from("b") }
        .handle(&mut h, &mut n, 1);
    let (rs, _) = ClientPacket::RemoveFolder {
        dir: String::from("a"),
        name: String::from("b"),
    }.handle(&mut h, &mut n, 2);
    assert!(h.folder_info("a/b").unwrap().deleted);
    assert!(!h.folder_info("a").unwrap().deleted);
    assert_eq!(rs.len(), 1);

    // With an empty parent the name alone is the path.
    let (_rs, _) = ClientPacket::RemoveFolder {
        dir: String::new(),
        name: String::from("a"),
    }.handle(&mut h, &mut n, 3);
    assert!(h.folder_info("a").unwrap().deleted);
}

#[test]
fn toggle_hash_check_via_packet() {
    let (mut h, mut n) = fresh();
    let _ = ClientPacket::AddFile {
        id: 1,
        dir: String::from("d"),
        name: String::from("user.ini"),
        file: vec![0],
    }.handle(&mut h, &mut n, 1);
    let (rs, _) = ClientPacket::SkipFileHashCheck {
        dir: String::from("d"),
        name: String::from("user.ini"),
    }.handle(&mut h, &mut n, 2);
    assert!(h.file_info("d", "user.ini").unwrap().skip_hash_check);
    assert_eq!(rs.len(), 1);
}

#[test]
fn patch_note_flow() {
    let (mut h, mut n) = fresh();
    let (rs, _) = ClientPacket::AddPatchNote { data: String::from("v1 released") }
        .handle(&mut h, &mut n, 1);
    assert_eq!(rs.len(), 1);
    assert!(matches!(&rs[0], ServerPacket::OpenPatchNote(note)
        if note.id == 0 && note.data == "v1 released"));

    let (rs, _) = ClientPacket::SavePatchNote { id: 0, data: String::from("v1 final") }
        .handle(&mut h, &mut n, 2);
    assert!(rs.is_empty());

    let (rs, _) = ClientPacket::PatchNotes { take: 10, skip: 0 }.handle(&mut h, &mut n, 3);
    assert_eq!(rs.len(), 1);
    match &rs[0] {
        ServerPacket::PatchNotes { take, skip, total, patch_notes } => {
            assert_eq!((*take, *skip, *total), (1, 0, 1));
            assert_eq!(patch_notes.len(), 1);
            assert_eq!(patch_notes[0].data, "v1 final");
        },
        _ => panic!("expected notes"),
    }

    let (rs, _) = ClientPacket::DeletePatchNote { id: 0 }.handle(&mut h, &mut n, 4);
    assert!(rs.is_empty());

    let (rs, _) = ClientPacket::RequestEditPatchNote { id: 5 }.handle(&mut h, &mut n, 5);
    assert_eq!(rs.len(), 1);
    assert!(matches!(&rs[0], ServerPacket::OpenPatchNote(note)
        if note.id == 5 && note.data.contains("MarkupLanguage")));
}

#[test]
fn logs_request_returns_monitor_line() {
    let (mut h, mut n) = fresh();
    let (rs, _) = ClientPacket::Logs.handle(&mut h, &mut n, 777);
    assert_eq!(rs.len(), 1);
    match &rs[0] {
        ServerPacket::Logs(logs) => {
            assert_eq!(logs.len(), 1);
            assert!(matches!(logs[0].level, LogLevel::Info));
            assert_eq!(logs[0].producer, "Monitor");
            assert_eq!(logs[0].time, 777);
        },
        _ => panic!("expected logs"),
    }
}

#[test]
fn patch_note_store_updates_and_lists() {
    let mut n = PatchNoteHolder::new();
    assert!(n.add(String::from("a")).is_some());
    assert!(n.add(String::from("b")).is_some());
    assert!(n.update_patch_note(1, String::from("b2")));
    assert!(!n.update_patch_note(9, String::from("zz")));
    let all = n.patch_notes();
    assert_eq!(all.len(), 2);
    assert_eq!(all[0].id, 0);
    assert_eq!(all[0].data, "a");
    assert_eq!(all[1].id, 1);
    assert_eq!(all[1].data, "b2");
}

#[test]
fn shared_log_holder_collects_producers() {
    let mut lh = LogHolder::new();
    assert_eq!(lh.producers.len(), 1);
    assert_eq!(lh.producers[0], "All");
    lh.add_server(vec![
        Log { level: LogLevel::Error, producer: String::from("srv"), log: String::from("boom"), time: 1 },
        Log { level: LogLevel::Debug, producer: String::from("srv"), log: String::from("calm"), time: 2 },
        Log { level: LogLevel::Info, producer: String::from("web"), log: String::from("hi"), time: 3 },
    ]);
    assert_eq!(lh.server_logs.len(), 3);
    assert_eq!(lh.producers.len(), 3);
    assert_eq!(lh.producers[1], "srv");
    assert_eq!(lh.producers[2], "web");
    assert!(matches!(lh.max_log_level, LogLevel::Error));
    lh.add_app(Log { level: LogLevel::Debug, producer: String::from("App"), log: String::from("x"), time: 4 });
    assert_eq!(lh.app_logs.len(), 1);
}

#[test]
fn sample_operator() {
    let u = TgUser::test();
    assert_eq!(u.id, 1488);
    assert_eq!(u.user_name, "Test User");
}
