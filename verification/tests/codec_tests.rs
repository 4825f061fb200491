use filesync::admin_panel::ClientPacket;
use filesync::admin_panel::FileInfo;
use filesync::admin_panel::FolderInfo;
use filesync::admin_panel::Log;
use filesync::admin_panel::LogLevel;
use filesync::admin_panel::PatchNote;
use filesync::admin_panel::ServerPacket;

#[test]
fn add_file_round_trip_exact() {
    let payload: Vec<u8> = vec![0, 1, 2, 3, 250, 255, 0, 42];
    let p = ClientPacket::AddFile {
        id: 0x0123_4567_89ab_cdef_0011_2233_4455_6677,
        dir: String::from("games/cfg"),
        name: String::from("settings.ini"),
        file: payload.clone(),
    };
    let bytes = p.to_bin().unwrap();
    assert_eq!(bytes[0], 1);
    let q = ClientPacket::from_bin(&bytes).unwrap();
    assert!(matches!(q, ClientPacket::AddFile { id, dir, name, file }
        if id == 0x0123_4567_89ab_cdef_0011_2233_4455_6677
            && dir == "games/cfg" && name == "settings.ini" && file == payload));
}

#[test]
fn add_file_round_trip_empty_payload() {
    let p = ClientPacket::AddFile {
        id: 7,
        dir: String::new(),
        name: String::from("x"),
        file: Vec::new(),
    };
    let bytes = p.to_bin().unwrap();
    let q = ClientPacket::from_bin(&bytes).unwrap();
    assert!(matches!(q, ClientPacket::AddFile { id, dir, name, file }
        if id == 7 && dir.is_empty() && name == "x" && file.is_empty()));
}

#[test]
fn add_file_raw_layout() {
    // byte 0 = 0x1, then LE u32 length + UTF-8 for dir and name, then
    // the 16-byte correlation id, then the raw payload to the end.
    let p = ClientPacket::AddFile {
        id: 0x10,
        dir: String::from("ab"),
        name: String::from("c"),
        file: vec![9, 8],
    };
    let bytes = p.to_bin().unwrap();
    assert_eq!(bytes[0], 0x1);
    assert_eq!(&bytes[1..5], &[2, 0, 0, 0]);
    assert_eq!(&bytes[5..7], b"ab");
    assert_eq!(&bytes[7..11], &[1, 0, 0, 0]);
    assert_eq!(&bytes[11..12], b"c");
    assert_eq!(bytes[12], 0x10);
    assert_eq!(&bytes[13..28], &[0u8; 15]);
    assert_eq!(&bytes[28..], &[9, 8]);
}

#[test]
fn control_messages_round_trip() {
    let samples = vec![
        ClientPacket::FileList { dir: String::from("a/b") },
        ClientPacket::RemoveFile { dir: String::from("a"), name: String::from("f.txt") },
        ClientPacket::RemoveFolder { dir: String::new(), name: String::from("sub") },
        ClientPacket::PatchNotes { take: 10, skip: 3 },
        ClientPacket::SavePatchNote { id: 4, data: String::from("text") },
        ClientPacket::AddPatchNote { data: String::from("fresh note") },
        ClientPacket::DeletePatchNote { id: 9 },
        ClientPacket::RequestEditPatchNote { id: 1 },
        ClientPacket::CreateFolder { dir: String::from("x"), name: String::from("y") },
        ClientPacket::SkipFileHashCheck { dir: String::from("x"), name: String::from("u.ini") },
        ClientPacket::Logs,
    ];
    for p in samples {
        let before = format!("{:?}", describe_client(&p));
        let bytes = p.to_bin().unwrap();
        assert_eq!(bytes[0], 0);
        let q = ClientPacket::from_bin(&bytes).unwrap();
        let after = format!("{:?}", describe_client(&q));
        assert_eq!(before, after);
    }
}

fn describe_client(p: &ClientPacket) -> (u8, String, String, u32, u32) {
    match p {
        ClientPacket::FileList { dir } => (0, dir.clone(), String::new(), 0, 0),
        ClientPacket::RemoveFile { dir, name } => (1, dir.clone(), name.clone(), 0, 0),
        ClientPacket::RemoveFolder { dir, name } => (2, dir.clone(), name.clone(), 0, 0),
        ClientPacket::AddFile { .. } => (3, String::new(), String::new(), 0, 0),
        ClientPacket::PatchNotes { take, skip } => (4, String::new(), String::new(), *take, *skip),
        ClientPacket::SavePatchNote { id, data } => (5, data.clone(), String::new(), *id, 0),
        ClientPacket::AddPatchNote { data } => (6, data.clone(), String::new(), 0, 0),
        ClientPacket::DeletePatchNote { id } => (7, String::new(), String::new(), *id, 0),
        ClientPacket::RequestEditPatchNote { id } => (8, String::new(), String::new(), *id, 0),
        ClientPacket::CreateFolder { dir, name } => (9, dir.clone(), name.clone(), 0, 0),
        ClientPacket::SkipFileHashCheck { dir, name } => (10, dir.clone(), name.clone(), 0, 0),
        ClientPacket::Logs => (11, String::new(), String::new(), 0, 0),
    }
}

#[test]
fn unicode_strings_round_trip() {
    let p = ClientPacket::CreateFolder {
        dir: String::from("p\u{00e4}th/\u{4e2d}\u{6587}"),
        name: String::from("\u{1f600}name"),
    };
    let bytes = p.to_bin().unwrap();
    let q = ClientPacket::from_bin(&bytes).unwrap();
    assert!(matches!(q, ClientPacket::CreateFolder { dir, name }
        if dir == "p\u{00e4}th/\u{4e2d}\u{6587}" && name == "\u{1f600}name"));
}

#[test]
fn server_file_list_round_trip() {
    let p = ServerPacket::FileList {
        dir: String::from("notes"),
        files: vec![
            FileInfo {
                name: String::from("doc.txt"),
                size: 5,
                created: 100,
                modified_at: 200,
                updated_by: 0,
                skip_hash_check: false,
                deleted: true,
            },
            FileInfo {
                name: String::from("other.bin"),
                size: 0,
                created: -5,
                modified_at: i64::MIN,
                updated_by: 3,
                skip_hash_check: true,
                deleted: false,
            },
        ],
        folders: vec![FolderInfo {
            name: String::from("sub"),
            size: 42,
            created: 1,
            modified_at: 2,
            updated_by: 0,
            deleted: false,
        }],
    };
    let bytes = p.to_bin().unwrap();
    let q = ServerPacket::from_bin(&bytes).unwrap();
    match q {
        ServerPacket::FileList { dir, files, folders } => {
            assert_eq!(dir, "notes");
            assert_eq!(files.len(), 2);
            assert_eq!(files[0].name, "doc.txt");
            assert_eq!(files[0].size, 5);
            assert_eq!(files[0].created, 100);
            assert_eq!(files[0].modified_at, 200);
            assert!(!files[0].skip_hash_check);
            assert!(files[0].deleted);
            assert_eq!(files[1].name, "other.bin");
            assert_eq!(files[1].modified_at, i64::MIN);
            assert!(files[1].skip_hash_check);
            assert_eq!(folders.len(), 1);
            assert_eq!(folders[0].name, "sub");
            assert_eq!(folders[0].size, 42);
        },
        _ => panic!("wrong variant"),
    }
}

#[test]
fn server_logs_and_ids_round_trip() {
    let p = ServerPacket::Logs(vec![Log {
        level: LogLevel::Warning,
        producer: String::from("Monitor"),
        log: String::from("something happened"),
        time: -12345,
    }]);
    let bytes = p.to_bin().unwrap();
    match ServerPacket::from_bin(&bytes).unwrap() {
        ServerPacket::Logs(logs) => {
            assert_eq!(logs.len(), 1);
            assert!(matches!(logs[0].level, LogLevel::Warning));
            assert_eq!(logs[0].producer, "Monitor");
            assert_eq!(logs[0].log, "something happened");
            assert_eq!(logs[0].time, -12345);
        },
        _ => panic!("wrong variant"),
    }

    let up = ServerPacket::FileUploaded { id: u128::MAX };
    let bytes = up.to_bin().unwrap();
    assert!(matches!(ServerPacket::from_bin(&bytes).unwrap(),
        ServerPacket::FileUploaded { id } if id == u128::MAX));

    let pr = ServerPacket::FileProceeded { id: 0 };
    let bytes = pr.to_bin().unwrap();
    assert!(matches!(ServerPacket::from_bin(&bytes).unwrap(),
        ServerPacket::FileProceeded { id } if id == 0));
}

#[test]
fn server_patch_notes_round_trip() {
    let p = ServerPacket::PatchNotes {
        take: 2,
        skip: 0,
        total: 2,
        patch_notes: vec![
            PatchNote { id: 0, data: String::from("first") },
            PatchNote { id: 1, data: String::from("second") },
        ],
    };
    let bytes = p.to_bin().unwrap();
    match ServerPacket::from_bin(&bytes).unwrap() {
        ServerPacket::PatchNotes { take, skip, total, patch_notes } => {
            assert_eq!((take, skip, total), (2, 0, 2));
            assert_eq!(patch_notes.len(), 2);
            assert_eq!(patch_notes[0].id, 0);
            assert_eq!(patch_notes[0].data, "first");
            assert_eq!(patch_notes[1].id, 1);
            assert_eq!(patch_notes[1].data, "second");
        },
        _ => panic!("wrong variant"),
    }

    let open = ServerPacket::OpenPatchNote(PatchNote { id: 3, data: String::from("x") });
    let bytes = open.to_bin().unwrap();
    assert!(matches!(ServerPacket::from_bin(&bytes).unwrap(),
        ServerPacket::OpenPatchNote(n) if n.id == 3 && n.data == "x"));
}

#[test]
fn decode_rejects_bad_frames() {
    // Empty frame.
    assert!(ClientPacket::from_bin(&[]).is_err());
    // Unknown discriminant.
    assert!(ClientPacket::from_bin(&[9, 0, 0]).is_err());
    // Unknown control variant.
    assert!(ClientPacket::from_bin(&[0, 200]).is_err());
    // Truncated string length.
    assert!(ClientPacket::from_bin(&[0, 0, 5, 0]).is_err());
    // String length pointing past the end.
    assert!(ClientPacket::from_bin(&[0, 0, 5, 0, 0, 0, b'a']).is_err());
    // Invalid UTF-8 in a string.
    assert!(ClientPacket::from_bin(&[0, 0, 1, 0, 0, 0, 0xff]).is_err());
    // Trailing garbage after a complete message.
    let ok = ClientPacket::Logs.to_bin().unwrap();
    let mut with_tail = ok.clone();
    with_tail.push(0);
    assert!(ClientPacket::from_bin(&ok).is_ok());
    assert!(ClientPacket::from_bin(&with_tail).is_err());
    // Raw frame too short for the correlation id.
    assert!(ClientPacket::from_bin(&[1, 0, 0, 0, 0, 0, 0, 0, 0, 1, 2, 3]).is_err());
    // Server side: unknown variant and truncated id.
    assert!(ServerPacket::from_bin(&[77]).is_err());
    assert!(ServerPacket::from_bin(&[2, 1, 2, 3]).is_err());
}

#[test]
fn is_heavy_only_for_uploads() {
    let up = ClientPacket::AddFile {
        id: 1,
        dir: String::new(),
        name: String::from("n"),
        file: vec![1],
    };
    assert!(up.is_heavy());
    assert!(!ClientPacket::Logs.is_heavy());
    assert!(!ClientPacket::FileList { dir: String::new() }.is_heavy());
}
