use filesync::admin_panel::ClientPacket;
use filesync::admin_panel::FileInfo;
use filesync::admin_panel::PatchNote;
use filesync::admin_panel::ServerPacket;
use filesync::backend::Backend;
use filesync::backend::BackendCommand;
use filesync::backend::FileUploadState;
use filesync::backend::FrontendEvent;
use filesync::backend::Notification;
use filesync::backend::remove_leading_dot;
use filesync::backend::Screen;
use filesync::log_holder::Log as PanelLog;
use filesync::log_holder::LogHolder as PanelLogHolder;
use filesync::log_holder::LogLevel as PanelLevel;

#[test]
fn leading_dot_removal() {
    assert_eq!(remove_leading_dot("."), "");
    assert_eq!(remove_leading_dot("./a/b"), "a/b");
    assert_eq!(remove_leading_dot("./x"), "x");
}

#[test]
fn listing_packet_updates_holder_and_opens_observer() {
    let mut b = Backend::new();
    let (cmds, outs) = b.handle_packet(ServerPacket::FileList {
        dir: String::from("a"),
        files: vec![FileInfo {
            name: String::from("f"),
            size: 1,
            created: 0,
            modified_at: 0,
            updated_by: 0,
            skip_hash_check: false,
            deleted: false,
        }],
        folders: vec![],
    });
    assert!(outs.is_empty());
    assert_eq!(cmds.len(), 1);
    assert!(matches!(&cmds[0], BackendCommand::OpenFileObserve { dir } if dir == "./a"));
    assert_eq!(b.file_info_holder.current_dir, "./a");
    assert_eq!(b.file_info_holder.files.len(), 1);

    // The root listing displays as a bare dot.
    let (cmds, _) = b.handle_packet(ServerPacket::FileList {
        dir: String::new(),
        files: vec![],
        folders: vec![],
    });
    assert!(matches!(&cmds[0], BackendCommand::OpenFileObserve { dir } if dir == "."));
}

#[test]
fn upload_events_then_completion_refreshes_listing() {
    let mut b = Backend::new();
    // Show the listing of ./up first, so completion refreshes it.
    let _ = b.handle_packet(ServerPacket::FileList {
        dir: String::from("up"),
        files: vec![],
        folders: vec![],
    });

    let (cmds, outs) = b.handle_frontend_event(
        FrontendEvent::UploadFiles {
            dir: String::from("./up"),
            files: vec![
                (String::from("one.bin"), vec![1]),
                (String::from("two.bin"), vec![2, 2]),
            ],
        },
        424242,
    );
    assert!(cmds.is_empty());
    assert_eq!(outs.len(), 2);
    assert!(matches!(&outs[0], ClientPacket::AddFile { id, dir, name, file }
        if *id == 424242 && dir == "up" && name == "one.bin" && file == &vec![1]));
    assert!(matches!(&outs[1], ClientPacket::AddFile { id, dir, name, file }
        if *id == 424242 && dir == "up" && name == "two.bin" && file == &vec![2, 2]));
    assert_eq!(b.notifications.len(), 2);
    assert!(matches!(&b.notifications[0], Notification::FileUpload { state, .. }
        if matches!(state, FileUploadState::Uploading)));

    // Receipt marks the first matching notification as processing.
    let (_c, outs) = b.handle_packet(ServerPacket::FileUploaded { id: 424242 });
    assert!(outs.is_empty());
    assert!(matches!(&b.notifications[0], Notification::FileUpload { state, .. }
        if matches!(state, FileUploadState::Processing)));
    assert!(matches!(&b.notifications[1], Notification::FileUpload { state, .. }
        if matches!(state, FileUploadState::Uploading)));

    // Completion marks it done and re-requests the current listing.
    let (_c, outs) = b.handle_packet(ServerPacket::FileProceeded { id: 424242 });
    assert!(matches!(&b.notifications[0], Notification::FileUpload { state, .. }
        if matches!(state, FileUploadState::Completed)));
    assert_eq!(outs.len(), 1);
    assert!(matches!(&outs[0], ClientPacket::FileList { dir } if dir == "up"));

    // An unknown identifier changes nothing.
    let (_c, outs) = b.handle_packet(ServerPacket::FileProceeded { id: 1 });
    assert!(outs.is_empty());
}

#[test]
fn navigation_events_emit_requests() {
    let mut b = Backend::new();
    let (cmds, outs) = b.handle_frontend_event(
        FrontendEvent::RequestOpenScreen(Screen::Files { dir: String::from("./a/b") }),
        0,
    );
    assert!(cmds.is_empty());
    assert_eq!(outs.len(), 1);
    assert!(matches!(&outs[0], ClientPacket::FileList { dir } if dir == "a/b"));

    let (_, outs) = b.handle_frontend_event(
        FrontendEvent::RequestOpenScreen(Screen::PatchNotes),
        0,
    );
    assert!(matches!(&outs[0], ClientPacket::PatchNotes { take: 10, skip: 0 }));

    let (_, outs) = b.handle_frontend_event(
        FrontendEvent::RequestOpenScreen(Screen::Logs),
        0,
    );
    assert!(matches!(&outs[0], ClientPacket::Logs));

    let (cmds, outs) = b.handle_frontend_event(
        FrontendEvent::RequestOpenScreen(Screen::EditPatchNote { id: None }),
        0,
    );
    assert!(outs.is_empty());
    assert!(matches!(&cmds[0], BackendCommand::OpenPatchNote { id: None, data }
        if data.contains("MarkupLanguage")));

    let (_, outs) = b.handle_frontend_event(
        FrontendEvent::RequestOpenScreen(Screen::EditPatchNote { id: Some(4) }),
        0,
    );
    assert!(matches!(&outs[0], ClientPacket::RequestEditPatchNote { id: 4 }));
}

#[test]
fn folder_and_file_events_translate_paths() {
    let mut b = Backend::new();
    let (_, outs) = b.handle_frontend_event(
        FrontendEvent::CreateFolder { dir: String::from("./a"), name: String::from("n") },
        0,
    );
    assert!(matches!(&outs[0], ClientPacket::CreateFolder { dir, name }
        if dir == "a" && name == "n"));

    let (_, outs) = b.handle_frontend_event(
        FrontendEvent::RemoveFile { dir: String::from("."), name: String::from("f") },
        0,
    );
    assert!(matches!(&outs[0], ClientPacket::RemoveFile { dir, name }
        if dir == "" && name == "f"));

    let (_, outs) = b.handle_frontend_event(
        FrontendEvent::RemoveFolder { dir: String::from("./a"), name: String::from("b") },
        0,
    );
    assert!(matches!(&outs[0], ClientPacket::RemoveFolder { dir, name }
        if dir == "a" && name == "b"));

    let (_, outs) = b.handle_frontend_event(
        FrontendEvent::SkipFileHashCheck { dir: String::from("."), name: String::from("u.ini") },
        0,
    );
    assert!(matches!(&outs[0], ClientPacket::SkipFileHashCheck { dir, name }
        if dir == "" && name == "u.ini"));

    let (_, outs) = b.handle_frontend_event(
        FrontendEvent::SavePatchNote { id: Some(2), data: String::from("t") },
        0,
    );
    assert!(matches!(&outs[0], ClientPacket::SavePatchNote { id: 2, data } if data == "t"));

    let (_, outs) = b.handle_frontend_event(
        FrontendEvent::SavePatchNote { id: None, data: String::from("t2") },
        0,
    );
    assert!(matches!(&outs[0], ClientPacket::AddPatchNote { data } if data == "t2"));

    let (_, outs) = b.handle_frontend_event(FrontendEvent::DeletePatchNote { id: 8 }, 0);
    assert!(matches!(&outs[0], ClientPacket::DeletePatchNote { id: 8 }));
}

#[test]
fn open_patch_note_and_notes_listing_packets() {
    let mut b = Backend::new();
    let (cmds, _) = b.handle_packet(ServerPacket::PatchNotes {
        take: 1,
        skip: 0,
        total: 1,
        patch_notes: vec![PatchNote { id: 0, data: String::from("d") }],
    });
    assert!(matches!(&cmds[0], BackendCommand::OpenPatchNotes));
    assert_eq!(b.patch_note_holder.total, 1);
    assert_eq!(b.patch_note_holder.patch_notes.len(), 1);

    let (cmds, _) = b.handle_packet(ServerPacket::OpenPatchNote(PatchNote {
        id: 3,
        data: String::from("body"),
    }));
    assert!(matches!(&cmds[0], BackendCommand::OpenPatchNote { id: Some(3), data }
        if data == "body"));

    let mut dbg = Backend::new();
    dbg.debug("hello log", 9);
    assert_eq!(dbg.log_holder.app_logs.len(), 1);
    assert_eq!(dbg.log_holder.app_logs[0].log, "hello log");
}

#[test]
fn panel_log_holder_registers_producers() {
    let mut lh = PanelLogHolder::new();
    assert_eq!(lh.producers.len(), 1);
    lh.add(PanelLog {
        level: PanelLevel::Error,
        producer: String::from("net"),
        log: String::from("lost"),
        time: 5,
    });
    lh.add(PanelLog {
        level: PanelLevel::Debug,
        producer: String::from("net"),
        log: String::from("back"),
        time: 6,
    });
    assert_eq!(lh.producers.len(), 2);
    assert_eq!(lh.producers[1], "net");
    assert_eq!(lh.logs.len(), 2);
    assert!(matches!(lh.max_level, PanelLevel::Error));
}

#[test]
fn patch_note_ids_can_run_out() {
    let mut n = filesync::db::PatchNoteHolder { next_id: u32::MAX, items: Vec::new() };
    assert!(n.add(String::from("too late")).is_none());
    assert_eq!(n.next_id, u32::MAX);
}
