use mimir::catalog::{LyricsPayload, LyricsRow, TrackFilter};
use mimir::edit::{
    build_clear_patch, patch_from_input, update_outcome, update_statement, SqlValue, TrackPatch,
    TrackPatchInput,
};

// A fresh library gives the first inserted track the id 1.

#[test]
fn update_track_writes_provided_fields() {
    let patch = TrackPatch {
        title: Some(Some("New Title".into())),
        genre: Some(Some("Indie".into())),
        track_no: Some(Some(7)),
        ..TrackPatch::default()
    };
    let (sql, binds) = update_statement(&patch, 1).expect("a statement");
    assert_eq!(sql, "UPDATE track SET title = ?, genre = ?, track_no = ? WHERE id = ?");
    assert_eq!(
        binds,
        vec![
            SqlValue::Text(Some("New Title".into())),
            SqlValue::Text(Some("Indie".into())),
            SqlValue::Int(Some(7)),
            SqlValue::Int(Some(1)),
        ]
    );
}

#[test]
fn update_statement_sets_every_field_in_order() {
    let patch = TrackPatch {
        title: Some(Some("New Title".into())),
        genre: Some(Some("Jazz".into())),
        year: Some(Some(2001)),
        track_no: Some(Some(4)),
        disc_no: Some(Some(2)),
    };
    let (sql, binds) = update_statement(&patch, 42).expect("a statement");
    assert_eq!(
        sql,
        "UPDATE track SET title = ?, genre = ?, year = ?, track_no = ?, disc_no = ? WHERE id = ?"
    );
    assert_eq!(
        binds,
        vec![
            SqlValue::Text(Some("New Title".into())),
            SqlValue::Text(Some("Jazz".into())),
            SqlValue::Int(Some(2001)),
            SqlValue::Int(Some(4)),
            SqlValue::Int(Some(2)),
            SqlValue::Int(Some(42)),
        ]
    );
}

#[test]
fn update_track_clears_when_inner_option_is_none() {
    let patch = TrackPatch { genre: Some(None), ..TrackPatch::default() };
    let (sql, binds) = update_statement(&patch, 1).expect("a statement");
    assert_eq!(sql, "UPDATE track SET genre = ? WHERE id = ?");
    assert_eq!(binds, vec![SqlValue::Text(None), SqlValue::Int(Some(1))]);
}

#[test]
fn update_statement_clears_several_fields() {
    let patch = TrackPatch { genre: Some(None), year: Some(None), ..TrackPatch::default() };
    let (sql, binds) = update_statement(&patch, 7).expect("a statement");
    assert_eq!(sql, "UPDATE track SET genre = ?, year = ? WHERE id = ?");
    assert_eq!(binds, vec![SqlValue::Text(None), SqlValue::Int(None), SqlValue::Int(Some(7))]);
}

#[test]
fn update_track_leaves_untouched_fields_alone() {
    let patch = TrackPatch { genre: Some(Some("Rock".into())), ..TrackPatch::default() };
    let (sql, binds) = update_statement(&patch, 1).expect("a statement");
    assert_eq!(sql, "UPDATE track SET genre = ? WHERE id = ?");
    assert!(!sql.contains("title"));
    assert_eq!(binds, vec![SqlValue::Text(Some("Rock".into())), SqlValue::Int(Some(1))]);
}

#[test]
fn update_track_empty_patch_is_noop() {
    assert_eq!(update_statement(&TrackPatch::default(), 1), None);
    assert_eq!(update_outcome(1, true, &TrackPatch::default()), Ok(None));
}

#[test]
fn clear_patch_touches_one_field() {
    assert_eq!(build_clear_patch("title"), TrackPatch { title: Some(None), ..TrackPatch::default() });
    assert_eq!(build_clear_patch("disc_no"), TrackPatch { disc_no: Some(None), ..TrackPatch::default() });
    assert_eq!(build_clear_patch("artist"), TrackPatch::default());
}

#[test]
fn patch_input_values_win_over_clears() {
    let input = TrackPatchInput {
        title: Some("T".into()),
        genre: None,
        year: None,
        track_no: Some(3),
        disc_no: None,
        clear: vec!["title".into(), "genre".into(), "bogus".into()],
    };
    assert_eq!(
        patch_from_input(input),
        TrackPatch {
            title: Some(Some("T".into())),
            genre: Some(None),
            year: None,
            track_no: Some(Some(3)),
            disc_no: None,
        }
    );
}

const HEAD: &str = "SELECT t.id, t.path, t.title, t.track_no, t.disc_no, t.duration_ms, t.codec, t.genre, a.year, a.id, a.title, ar.id, ar.name FROM track t LEFT JOIN album a  ON a.id  = t.album_id LEFT JOIN artist ar ON ar.id = a.album_artist_id WHERE 1 = 1";

fn tail(limit: i64, offset: i64) -> Vec<SqlValue> {
    vec![SqlValue::Int(Some(limit)), SqlValue::Int(Some(offset))]
}

#[test]
fn list_tracks_filtered_by_genre_only() {
    let f = TrackFilter { genre: Some("Electronic".into()), ..TrackFilter::default() };
    let (sql, binds) = f.statement(100, 0);
    assert_eq!(sql, format!("{HEAD} AND t.genre = ? ORDER BY t.id LIMIT ? OFFSET ?"));
    let mut want = vec![SqlValue::Text(Some("Electronic".into()))];
    want.extend(tail(100, 0));
    assert_eq!(binds, want);
}

#[test]
fn list_tracks_filtered_by_year_only() {
    let f = TrackFilter { year: Some(1997), ..TrackFilter::default() };
    let (sql, binds) = f.statement(100, 0);
    assert_eq!(sql, format!("{HEAD} AND a.year = ? ORDER BY t.id LIMIT ? OFFSET ?"));
    let mut want = vec![SqlValue::Int(Some(1997))];
    want.extend(tail(100, 0));
    assert_eq!(binds, want);
}

#[test]
fn list_tracks_filtered_combines_predicates() {
    let f = TrackFilter { genre: Some("Electronic".into()), year: Some(1997), ..TrackFilter::default() };
    let (sql, binds) = f.statement(100, 0);
    assert_eq!(sql, format!("{HEAD} AND t.genre = ? AND a.year = ? ORDER BY t.id LIMIT ? OFFSET ?"));
    let mut want = vec![SqlValue::Text(Some("Electronic".into())), SqlValue::Int(Some(1997))];
    want.extend(tail(100, 0));
    assert_eq!(binds, want);
}

#[test]
fn list_tracks_filtered_empty_returns_all() {
    let (sql, binds) = TrackFilter::default().statement(100, 0);
    assert_eq!(sql, format!("{HEAD} ORDER BY t.id LIMIT ? OFFSET ?"));
    assert_eq!(binds, tail(100, 0));
}

#[test]
fn list_tracks_filtered_pagination() {
    let f = TrackFilter { genre: Some("Electronic".into()), ..TrackFilter::default() };
    let (sql1, binds1) = f.statement(2, 0);
    let (sql2, binds2) = f.statement(2, 2);
    // Both pages run the same statement; only the window moves.
    assert_eq!(sql1, sql2);
    assert_eq!(binds1[..1], binds2[..1]);
    assert_eq!(binds1[1..], tail(2, 0)[..]);
    assert_eq!(binds2[1..], tail(2, 2)[..]);
}

#[test]
fn filter_statement_binds_every_facet_in_order() {
    let f = TrackFilter { genre: Some("Rock".into()), year: Some(1999), artist_id: Some(3), album_id: Some(4) };
    let (sql, binds) = f.statement(10, 20);
    assert_eq!(
        sql,
        format!("{HEAD} AND t.genre = ? AND a.year = ? AND ar.id = ? AND a.id = ? ORDER BY t.id LIMIT ? OFFSET ?")
    );
    assert_eq!(
        binds,
        vec![
            SqlValue::Text(Some("Rock".into())),
            SqlValue::Int(Some(1999)),
            SqlValue::Int(Some(3)),
            SqlValue::Int(Some(4)),
            SqlValue::Int(Some(10)),
            SqlValue::Int(Some(20)),
        ]
    );
}

#[test]
fn lyrics_payload_carries_the_row() {
    let p = LyricsPayload::from_row(LyricsRow {
        text: "la la".into(),
        language: "und".into(),
        source: "embedded".into(),
    });
    assert_eq!((p.text.as_str(), p.language.as_str(), p.source.as_str()), ("la la", "und", "embedded"));
}
