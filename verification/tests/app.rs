use mimir::app::{
    check_move, check_position, cover_id_from_path, editable_fields, escape_like_folder,
    folder_rename_rewrite, order_by_request, path_rewrite, play_and_enqueue_command,
    queue_command, subdir_rename_target, AppError, EditableTrackFields, RowError, Session,
};
use mimir::playlist::PlayerCommand;

#[test]
fn app_error_messages_name_the_kind() {
    assert_eq!(AppError::Io("disk".into()).message(), "io: disk");
    assert_eq!(AppError::Sqlite("locked".into()).message(), "sqlite: locked");
    assert_eq!(AppError::Decode("bad".into()).message(), "decode: bad");
    assert_eq!(AppError::PathNotFound("/missing".into()).message(), "path not found: /missing");
    assert_eq!(AppError::Internal("oops".into()).message(), "internal: oops");
}

#[test]
fn search_before_open_returns_error() {
    let session: Session<u32> = Session::new();
    let err = session.library().expect_err("should error");
    assert!(matches!(err, AppError::Internal(_)));
    assert_eq!(err, AppError::Internal("library not opened yet".into()));
}

#[test]
fn open_library_records_failure_on_status() {
    let mut session: Session<u32> = Session::new();
    session.record_open("/ok/library.sqlite".into(), Ok(7));
    assert!(session.is_open());
    session.record_open("\0/definitely/not/a/real/path/db.sqlite".into(), Err("unable to open".into()));
    assert!(session.status.last_error.is_some(), "failure must be recorded");
    assert_eq!(
        session.status.path.as_deref(),
        Some("\0/definitely/not/a/real/path/db.sqlite"),
        "path should still be set to the attempt"
    );
    assert!(!session.is_open(), "library must remain closed after failed open");
}

#[test]
fn open_library_clears_previous_last_error() {
    let mut session: Session<u32> = Session::new();
    session.record_open("\0/nope/db.sqlite".into(), Err("bad path".into()));
    assert_eq!(session.status.last_error.as_deref(), Some("bad path"));
    session.record_open("/good/db.sqlite".into(), Ok(1));
    assert!(session.status.last_error.is_none());
    assert_eq!(session.library(), Ok(&1));
}

#[test]
fn cover_ids_are_read_from_cover_paths() {
    assert_eq!(cover_id_from_path("/cover/5"), Some(5));
    assert_eq!(cover_id_from_path("/cover/-3"), Some(-3));
    assert_eq!(cover_id_from_path("/cover/9223372036854775807"), Some(i64::MAX));
    assert_eq!(cover_id_from_path("/cover/9223372036854775808"), None);
    assert_eq!(cover_id_from_path("/cover/"), None);
    assert_eq!(cover_id_from_path("/cover/5x"), None);
    assert_eq!(cover_id_from_path("/covers/5"), None);
    assert_eq!(cover_id_from_path("cover/5"), None);
}

#[test]
fn like_escaping_protects_wildcards() {
    assert_eq!(escape_like_folder("/music/100%_done\\x"), "/music/100\\%\\_done\\\\x");
    assert_eq!(escape_like_folder("/plain/path"), "/plain/path");
    assert_eq!(escape_like_folder(""), "");
}

#[test]
fn folder_rename_rewrites_track_prefix() {
    let w = folder_rename_rewrite("/music/old_name", "/music/new").expect("a rewrite");
    assert_eq!(w.new_prefix, "/music/new");
    assert_eq!(w.keep_from, 16);
    assert_eq!(w.pattern, "/music/old\\_name/%");
    assert!(folder_rename_rewrite("/same", "/same").is_none());
    // SQLite's substr counts characters: the kept part starts one character
    // past the old prefix, at its slash.
    let w = path_rewrite("/müsic", "/x");
    assert_eq!(w.keep_from, 7);
    let w = folder_rename_rewrite("/m/Björk", "/m/Bjork").expect("a rewrite");
    assert_eq!(w.keep_from, 9);
    assert_eq!(w.pattern, "/m/Björk/%");
    // "/m/Björk/a.mp3" keeps its part from character 9: "/a.mp3".
    let kept: String = "/m/Björk/a.mp3".chars().skip((w.keep_from - 1) as usize).collect();
    assert_eq!(format!("{}{}", w.new_prefix, kept), "/m/Bjork/a.mp3");
}

#[test]
fn subdir_rename_target_checks_the_name() {
    assert_eq!(
        subdir_rename_target("/music/a/old", "new"),
        Ok("/music/a/new".to_string())
    );
    assert_eq!(
        subdir_rename_target("/music/a/old", "a/b"),
        Err(AppError::Internal("new name must be a single path segment".into()))
    );
    assert_eq!(
        subdir_rename_target("/music/a/old", ""),
        Err(AppError::Internal("new name must be a single path segment".into()))
    );
    assert_eq!(
        subdir_rename_target("/", "x"),
        Err(AppError::Internal("cannot rename a root path".into()))
    );
}

#[test]
fn requested_order_is_kept_and_missing_ids_dropped() {
    let ids = vec![30, 10, 99, 20, 10];
    let resolved = vec![10, 20, 30];
    assert_eq!(order_by_request(&ids, &resolved), vec![2, 0, 1, 0]);
    assert!(order_by_request(&vec![], &resolved).is_empty());
}

#[test]
fn only_the_first_track_on_an_empty_list_starts() {
    assert_eq!(queue_command("a", 0, true), PlayerCommand::Play("a"));
    assert_eq!(queue_command("b", 1, true), PlayerCommand::Enqueue("b"));
    assert_eq!(queue_command("c", 0, false), PlayerCommand::Enqueue("c"));
    assert_eq!(
        play_and_enqueue_command(vec![1, 2, 3]),
        Some(PlayerCommand::PlayAndEnqueue { first: 1, rest: vec![2, 3] })
    );
    assert_eq!(play_and_enqueue_command(Vec::<u8>::new()), None);
}

#[test]
fn playlist_positions_are_checked() {
    assert_eq!(check_position("play_at", 2, 3), Ok(()));
    assert_eq!(
        check_position("remove_at", 3, 3),
        Err(AppError::Internal("remove_at index out of range".into()))
    );
    assert_eq!(check_move(1, 1, 0), Ok(false));
    assert_eq!(check_move(0, 2, 3), Ok(true));
    assert_eq!(check_move(0, 3, 3), Err(AppError::Internal("move index out of range".into())));
}

#[test]
fn editable_fields_map_lookup_failures() {
    let f = EditableTrackFields {
        title: Some("T".into()),
        genre: None,
        year: Some(1999),
        track_no: Some(3),
        disc_no: None,
    };
    assert_eq!(editable_fields(7, Ok(f.clone())), Ok(f));
    assert_eq!(
        editable_fields(-42, Err(RowError::NoRows)),
        Err(AppError::Internal("no track with id -42".into()))
    );
    assert_eq!(
        editable_fields(7, Err(RowError::Store("disk I/O error".into()))),
        Err(AppError::Sqlite("disk I/O error".into()))
    );
}
