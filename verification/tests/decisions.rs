use mimir::app::{cover_id_from_path, folder_not_found, folder_removal, no_track, resolve_query, AppError};
use mimir::edit::{update_outcome, SqlValue, TrackPatch, UpdateError};
use mimir::extract::Tags;
use mimir::ingest::{ingest_error_of_probe, plan_ingest, IngestError};
use mimir::playlist::{PlayerAction, PlayerCommand, Playlist};
use mimir::probe::{Probe, ProbeError};
use mimir::scanner::{folder_upsert, FolderUpsert};
use mimir::search::{like_fallback, rewrite_as_prefix, rewrite_defined};

#[test]
fn missing_rows_name_their_id() {
    assert_eq!(no_track(42), AppError::Internal("no track with id 42".into()));
    assert_eq!(folder_not_found(-1), AppError::Internal("folder -1 not found".into()));
    assert_eq!(folder_removal(3, 1), Ok(()));
    assert_eq!(
        folder_removal(3, 0),
        Err(AppError::Internal("folder 3 not found or already removed".into()))
    );
}

#[test]
fn update_track_unknown_id_returns_not_found() {
    let patch = TrackPatch { title: Some(Some("x".into())), ..TrackPatch::default() };
    assert_eq!(update_outcome(9_999_999, false, &patch), Err(UpdateError::NotFound(9_999_999)));
    assert_eq!(UpdateError::NotFound(9_999_999).message(), "track 9999999 not found");
    assert_eq!(update_outcome(5, true, &TrackPatch::default()), Ok(None));
    assert_eq!(
        update_outcome(5, true, &patch),
        Ok(Some((
            "UPDATE track SET title = ? WHERE id = ?".to_string(),
            vec![SqlValue::Text(Some("x".into())), SqlValue::Int(Some(5))]
        )))
    );
}

#[test]
fn probe_failures_become_ingest_errors() {
    assert_eq!(ingest_error_of_probe(ProbeError::Lofty("bad".into())), IngestError::Probe("bad".into()));
    assert_eq!(ingest_error_of_probe(ProbeError::UnknownExtension("x".into())), IngestError::Probe("x".into()));
    assert_eq!(ingest_error_of_probe(ProbeError::Io("gone".into())), IngestError::Io("gone".into()));
    assert_eq!(IngestError::Probe("bad".into()).message(), "probe: bad");
}

#[test]
fn ingest_plan_files_by_artist_then_album_artist() {
    let probe = Probe {
        codec: "flac".into(),
        duration_ms: Some(1000),
        sample_rate: Some(44100),
        channels: Some(2),
        bitrate: None,
    };
    let tags = Tags {
        title: Some("Money".into()),
        album: Some("Dark Side".into()),
        album_artist: Some("Pink Floyd".into()),
        track_no: Some(5),
        year: Some(1973),
        lyrics: Some("la".into()),
        ..Tags::default()
    };
    let plan = plan_ingest("/m/05 - Money.flac", &probe, &tags);
    assert_eq!(plan.artist, Some("Pink Floyd".into()));
    assert_eq!(plan.album, Some(("Dark Side".into(), Some(1973))));
    assert_eq!(plan.track.path, "/m/05 - Money.flac");
    assert_eq!(plan.track.codec, "flac");
    assert_eq!(plan.track.channels, Some(2));
    assert_eq!(plan.track.track_no, Some(5));
    assert_eq!(plan.track.disc_no, None);
    assert_eq!(plan.lyrics, Some("la".into()));
    let bare = plan_ingest("/m/x.mp3", &probe, &Tags::default());
    assert_eq!((bare.artist, bare.album), (None, None));
}

#[test]
fn folder_rows_are_revived_or_reused() {
    assert_eq!(folder_upsert(None), FolderUpsert::Insert);
    assert_eq!(folder_upsert(Some((7, 0))), FolderUpsert::Revive(7));
    assert_eq!(folder_upsert(Some((7, 1))), FolderUpsert::Existing(7));
}

#[test]
fn resolve_query_lists_one_placeholder_per_id() {
    assert_eq!(
        resolve_query(2),
        "SELECT id, path, COALESCE(replaygain_album_db, replaygain_track_db) FROM track WHERE id IN (?, ?)"
    );
}

#[test]
fn search_fallback_only_for_short_tokens() {
    assert_eq!(like_fallback(true, "q"), Some("%q%".to_string()));
    assert_eq!(like_fallback(true, "q*"), None);
    assert_eq!(like_fallback(false, "q"), None);
    assert_eq!(like_fallback(true, "queen"), None);
    assert!(rewrite_defined("foo bar"));
    assert!(!rewrite_defined("foo\u{3000}bar"));
    assert!(rewrite_defined("\"foo\u{3000}bar"));
}

#[test]
fn rewriting_twice_changes_nothing() {
    for q in ["que", "foo bar", "que*", "title:foo", "foo -", "  "] {
        let once = rewrite_as_prefix(q);
        assert_eq!(rewrite_as_prefix(&once), once);
    }
}

#[test]
fn cover_paths_round_trip() {
    for id in [0i64, 5, -3, i64::MAX, i64::MIN] {
        assert_eq!(cover_id_from_path(&format!("/cover/{id}")), Some(id));
    }
}

#[test]
fn failed_play_still_puts_playhead_on_the_new_track() {
    let mut p: Playlist<&str> = Playlist::new();
    p.apply(PlayerCommand::PlayAndEnqueue { first: "a", rest: vec!["b", "c"] });
    p.started(0, true);
    p.apply(PlayerCommand::PlayAt(2));
    p.started(2, true);
    // The list shrinks to one track whose start fails: the playhead is 0.
    assert_eq!(p.apply(PlayerCommand::Play("z")), PlayerAction::Start(0));
    p.started(0, false);
    assert_eq!(p.tracks(), &["z"]);
    assert_eq!(p.playhead(), Some(0));
    // Previous from there wraps onto the only track.
    assert_eq!(p.apply(PlayerCommand::Previous), PlayerAction::Start(0));
}

#[test]
fn failed_start_after_removing_the_current_track_keeps_the_slot() {
    let mut p: Playlist<&str> = Playlist::new();
    p.apply(PlayerCommand::PlayAndEnqueue { first: "a", rest: vec!["b", "c"] });
    p.apply(PlayerCommand::PlayAt(2));
    p.started(2, true);
    assert_eq!(p.apply(PlayerCommand::RemoveAt(2)), PlayerAction::Start(1));
    p.started(1, false);
    assert_eq!(p.tracks(), &["a", "b"]);
    assert_eq!(p.playhead(), Some(1));
}

#[test]
fn an_open_phrase_anywhere_in_a_long_query_blocks_the_rewrite() {
    let mut q = "a ".repeat(3000);
    q.push_str("\"open phrase");
    assert_eq!(rewrite_as_prefix(&q), q);
    let mut closed = "a ".repeat(3000);
    closed.push_str("\"closed\" word");
    assert_eq!(rewrite_as_prefix(&closed), format!("{closed}*"));
}
