use mimir::watcher::{
    debounced_events, is_audio_path, to_ingest, to_ingest_pair, EventKind, IngestEvent,
    NotifyKind, RawEvent,
};

fn raw(kind: NotifyKind, paths: &[&str]) -> RawEvent {
    RawEvent { kind, paths: paths.iter().map(|p| p.to_string()).collect() }
}

#[test]
fn ingest_event_carries_path_and_kind() {
    let ev = IngestEvent { path: String::from("/music/a.mp3"), kind: EventKind::Created };
    assert_eq!(ev.path, String::from("/music/a.mp3"));
    assert_eq!(ev.kind, EventKind::Created);

    let renamed = IngestEvent {
        path: String::from("/music/b.flac"),
        kind: EventKind::Renamed {
            from: String::from("/music/a.flac"),
            to: String::from("/music/b.flac"),
        },
    };
    assert_eq!(
        renamed.kind,
        EventKind::Renamed {
            from: String::from("/music/a.flac"),
            to: String::from("/music/b.flac"),
        }
    );
}

#[test]
fn audio_paths_are_recognised_case_insensitively() {
    assert!(is_audio_path("/music/a.mp3"));
    assert!(is_audio_path("/music/A.FLAC"));
    assert!(is_audio_path("song.Opus"));
    assert!(is_audio_path("/x/y.aif"));
    assert!(!is_audio_path("/music/cover.jpg"));
    assert!(!is_audio_path("/music/noext"));
    assert!(!is_audio_path("/music/.mp3"));
    assert!(!is_audio_path("/music/dir.mp3/.."));
}

#[test]
fn notifications_map_to_ingest_events() {
    assert_eq!(
        to_ingest(&raw(NotifyKind::Create, &["/m/a.mp3"])),
        Some(IngestEvent { path: "/m/a.mp3".into(), kind: EventKind::Created })
    );
    assert_eq!(
        to_ingest(&raw(NotifyKind::Modify, &["/m/a.wav"])),
        Some(IngestEvent { path: "/m/a.wav".into(), kind: EventKind::Modified })
    );
    assert_eq!(
        to_ingest(&raw(NotifyKind::Remove, &["/m/a.ogg", "/m/b.ogg"])),
        Some(IngestEvent { path: "/m/a.ogg".into(), kind: EventKind::Removed })
    );
    assert_eq!(to_ingest(&raw(NotifyKind::Create, &["/m/a.txt"])), None);
    assert_eq!(to_ingest(&raw(NotifyKind::Other, &["/m/a.mp3"])), None);
    assert_eq!(to_ingest(&raw(NotifyKind::RenameTo, &["/m/a.mp3"])), None);
    assert_eq!(to_ingest(&raw(NotifyKind::Create, &[])), None);
}

#[test]
fn paired_rename_becomes_renamed_event() {
    let from = raw(NotifyKind::RenameFrom, &["/m/old.txt"]);
    let to = raw(NotifyKind::RenameTo, &["/m/new.txt"]);
    assert_eq!(
        to_ingest_pair(Some(&from), &to),
        Some(IngestEvent {
            path: "/m/new.txt".into(),
            kind: EventKind::Renamed { from: "/m/old.txt".into(), to: "/m/new.txt".into() },
        })
    );
    // A pair whose second half is not the new name falls back to the
    // single-event mapping.
    let create = raw(NotifyKind::Create, &["/m/new.mp3"]);
    assert_eq!(
        to_ingest_pair(Some(&from), &create),
        Some(IngestEvent { path: "/m/new.mp3".into(), kind: EventKind::Created })
    );
}

#[test]
fn debounced_notifications_yield_one_event_per_audio_path() {
    let paths: Vec<String> = vec!["/m/a.mp3".into(), "/m/b.jpg".into(), "/m/c.flac".into()];
    assert_eq!(
        debounced_events(NotifyKind::RenameTo, &paths),
        vec![
            IngestEvent { path: "/m/a.mp3".into(), kind: EventKind::Modified },
            IngestEvent { path: "/m/c.flac".into(), kind: EventKind::Modified },
        ]
    );
    assert_eq!(
        debounced_events(NotifyKind::Remove, &paths),
        vec![
            IngestEvent { path: "/m/a.mp3".into(), kind: EventKind::Removed },
            IngestEvent { path: "/m/c.flac".into(), kind: EventKind::Removed },
        ]
    );
    assert!(debounced_events(NotifyKind::Other, &paths).is_empty());
}
