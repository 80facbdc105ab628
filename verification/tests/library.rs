use mimir::folders::{
    add_fallback_rows, audio_files, count_files, files_for, files_query, flatten, folder_view,
    index_rows, needs_fallback, node_name, FolderFile, FolderNode,
};
use mimir::migrations::migration_plan;
use mimir::names::{sort_char_of, sort_key_of_lowercase, sort_name};
use mimir::probe::{
    codec_from_extension, codec_name, cover_outcome, probe_outcome, select_cover, FileKind,
    MimeKind, PictureInfo, Probe, ProbeError,
};
use mimir::scanner::{
    check_root, content_hash, file_hash_from, file_hash_with_digest, folder_hash, FileHash,
    HashError, ScanError, ScanOutcome, ScanSummary,
};

fn leaf(path: &str, files: usize) -> FolderNode {
    FolderNode {
        folder_id: None,
        name: None,
        path: path.into(),
        files: (0..files)
            .map(|i| FolderFile { path: format!("{path}/{i}.mp3"), title: None, track_id: None })
            .collect(),
        children: vec![],
    }
}

fn tree() -> FolderNode {
    FolderNode {
        folder_id: Some(1),
        name: None,
        path: "/music".into(),
        files: vec![FolderFile { path: "/music/x.mp3".into(), title: None, track_id: None }],
        children: vec![
            FolderNode { children: vec![leaf("/music/b/c", 3)], ..leaf("/music/b", 0) },
            leaf("/music/a", 2),
        ],
    }
}

#[test]
fn only_audio_files_are_listed_sorted() {
    let entries: Vec<(String, bool)> = vec![
        ("/m/b.mp3".into(), true),
        ("/m/a.flac".into(), true),
        ("/m/c.txt".into(), true),
        ("/m/d.mp3".into(), false),
        ("/m/A.OGG".into(), true),
    ];
    assert_eq!(audio_files(&entries), vec!["/m/A.OGG", "/m/a.flac", "/m/b.mp3"]);
}

#[test]
fn file_lookup_query_has_one_placeholder_per_path() {
    assert_eq!(files_query(3), "SELECT path, id, title FROM track WHERE path IN (?,?,?)");
    assert_eq!(files_query(1), "SELECT path, id, title FROM track WHERE path IN (?)");
}

#[test]
fn files_are_matched_to_rows_with_fallback() {
    let paths: Vec<String> = vec!["/m/a.flac".into(), "/m/b.mp3".into(), "/m/c.mp3".into()];
    let mut idx = index_rows(vec![
        ("/m/a.flac".into(), 1, Some("A".into())),
        ("/m/a.flac".into(), 2, Some("A2".into())),
    ]);
    assert!(needs_fallback(&idx, paths.len()));
    add_fallback_rows(
        &mut idx,
        vec![
            ("/m/b.mp3".into(), 5, None),
            ("/other/c.mp3".into(), 6, Some("no".into())),
            ("/m/a.flac".into(), 9, Some("late".into())),
        ],
        "/m",
        &paths,
    );
    assert!(needs_fallback(&idx, paths.len()));
    assert_eq!(
        files_for(&paths, &idx),
        vec![
            FolderFile { path: "/m/a.flac".into(), title: Some("A2".into()), track_id: Some(2) },
            FolderFile { path: "/m/b.mp3".into(), title: None, track_id: Some(5) },
            FolderFile { path: "/m/c.mp3".into(), title: None, track_id: None },
        ]
    );
}

#[test]
fn tree_is_flattened_depth_first_and_counted() {
    let t = tree();
    let mut out = Vec::new();
    flatten(&t, &mut out);
    let paths: Vec<&str> = out.iter().map(|n| n.path.as_str()).collect();
    assert_eq!(paths, vec!["/music", "/music/b", "/music/b/c", "/music/a"]);
    assert_eq!(count_files(&t), 6);
}

#[test]
fn folder_view_sorts_the_flat_list() {
    let view = folder_view(vec![tree(), leaf("/books", 1)]);
    let flat: Vec<&str> = view.flat.iter().map(|n| n.path.as_str()).collect();
    assert_eq!(flat, vec!["/books", "/music", "/music/a", "/music/b", "/music/b/c"]);
    let roots: Vec<&str> = view.root_children.iter().map(|n| n.path.as_str()).collect();
    assert_eq!(roots, vec!["/music", "/books"]);
}

#[test]
fn node_names_hide_root_paths() {
    assert_eq!(node_name("/music/Rock", false), Some("Rock".into()));
    assert_eq!(node_name("/music/Rock/", false), Some("Rock".into()));
    assert_eq!(node_name("/music/Rock", true), None);
    assert_eq!(node_name("/", false), None);
}

#[test]
fn content_hash_is_blake3() {
    assert_eq!(content_hash(b"cover bytes"), *blake3::hash(b"cover bytes").as_bytes());
    assert_ne!(content_hash(b"cover bytes"), [0u8; 32]);
    assert_eq!(folder_hash("/music"), blake3::hash("/music".as_bytes()).as_bytes().to_vec());
}

#[test]
fn file_hash_checks_the_modification_time() {
    let h = file_hash_from(b"abc", 3, Some(1_700_000_000_000_000_000)).expect("hash");
    assert_eq!(h.path_hash, *blake3::hash(b"abc").as_bytes());
    assert_eq!(h.mtime_ns, 1_700_000_000_000_000_000);
    assert_eq!(h.size_bytes, 3);
    assert_eq!(file_hash_from(b"abc", 3, None), Err(HashError::MtimeBeforeEpoch));
    assert_eq!(
        file_hash_from(b"abc", 3, Some(i64::MAX as u128 + 1)),
        Err(HashError::MtimeBeforeEpoch)
    );
    assert_eq!(HashError::MtimeBeforeEpoch.message(), "mtime predates unix epoch");
}

#[test]
fn scan_roots_must_be_directories() {
    assert_eq!(check_root("/m", Some(true)), Ok(()));
    assert_eq!(check_root("/m", Some(false)), Err(ScanError::NotADirectory("/m".into())));
    assert_eq!(check_root("/m", None), Err(ScanError::NotFound("/m".into())));
    assert_eq!(ScanError::NotFound("/m".into()).message(), "folder does not exist: /m");
    assert_eq!(ScanError::NotADirectory("/m".into()).message(), "path is not a directory: /m");
    assert_eq!(ScanError::Sqlite("locked".into()).message(), "sqlite: locked");
}

#[test]
fn scan_summary_counts_outcomes() {
    let mut s = ScanSummary::default();
    for o in [ScanOutcome::Sent, ScanOutcome::Known, ScanOutcome::HashFailed, ScanOutcome::SendFailed, ScanOutcome::Sent] {
        s.record(o);
    }
    assert_eq!(s, ScanSummary { walked: 5, sent: 2, known: 1, hashed_fail: 1 });
}

#[test]
fn codecs_follow_extensions_and_formats() {
    assert_eq!(codec_from_extension("/a/b.MP3"), Some("mp3"));
    assert_eq!(codec_from_extension("x.ogg"), Some("vorbis"));
    assert_eq!(codec_from_extension("x.aif"), Some("aiff"));
    assert_eq!(codec_from_extension("x.m4a"), Some("mp4"));
    assert_eq!(codec_from_extension("x.txt"), None);
    assert_eq!(codec_from_extension("noext"), None);
    assert_eq!(codec_name(FileKind::Mpeg), "mp3");
    assert_eq!(codec_name(FileKind::Vorbis), "vorbis");
    assert_eq!(codec_name(FileKind::Ape), "unknown");
}

#[test]
fn probe_falls_back_to_extension() {
    let p = Probe::from_properties(FileKind::Flac, 215_000, Some(44_100), Some(2), Some(3_000_000_000));
    assert_eq!(
        p,
        Probe {
            codec: "flac".into(),
            duration_ms: Some(215_000),
            sample_rate: Some(44_100),
            channels: Some(2),
            bitrate: None,
        }
    );
    assert_eq!(
        probe_outcome("/a/b.flac", Err(ProbeError::Lofty("bad".into()))),
        Ok(Probe { codec: "flac".into(), duration_ms: None, sample_rate: None, channels: None, bitrate: None })
    );
    assert_eq!(
        probe_outcome("/a/b.xyz", Err(ProbeError::Lofty("bad".into()))),
        Err(ProbeError::Lofty("bad".into()))
    );
    assert_eq!(probe_outcome("/a/b.xyz", Ok(p.clone())), Ok(p));
}

fn pic(front: bool, mime: Option<MimeKind>, data: &[u8]) -> PictureInfo {
    PictureInfo { front_cover: front, mime, data: data.to_vec() }
}

#[test]
fn select_cover_returns_none_for_empty_list() {
    let pics: Vec<PictureInfo> = vec![];
    assert!(select_cover(&pics).is_none());
}

#[test]
fn select_cover_prefers_front_cover_when_present() {
    let back = pic(false, Some(MimeKind::Jpeg), b"back-bytes");
    let front = pic(true, Some(MimeKind::Png), b"front-bytes");
    let other = pic(false, Some(MimeKind::Jpeg), b"other-bytes");
    let picks = vec![other, back, front];
    let chosen = select_cover(&picks).expect("a pick");
    assert_eq!(chosen.mime_type, "image/png");
    assert_eq!(chosen.data, b"front-bytes");
}

#[test]
fn select_cover_falls_back_to_first_when_no_front() {
    let picks = vec![pic(false, Some(MimeKind::Jpeg), b"back-bytes")];
    let chosen = select_cover(&picks).expect("a pick");
    assert_eq!(chosen.mime_type, "image/jpeg");
    assert_eq!(chosen.data, b"back-bytes");
}

#[test]
fn select_cover_uses_octet_stream_when_mime_unknown() {
    let picks = vec![pic(true, None, b"raw-bytes")];
    let chosen = select_cover(&picks).expect("a pick");
    assert_eq!(chosen.mime_type, "application/octet-stream");
    assert_eq!(chosen.data, b"raw-bytes");
}

#[test]
fn embedded_cover_outcomes() {
    assert_eq!(cover_outcome(Err(ProbeError::Io("gone".into()))), Err(ProbeError::Io("gone".into())));
    assert_eq!(cover_outcome(Err(ProbeError::Lofty("no tags".into()))), Ok(None));
    assert_eq!(cover_outcome(Ok(None)), Ok(None));
    let c = cover_outcome(Ok(Some(vec![pic(false, Some(MimeKind::Gif), b"g")]))).expect("ok").expect("cover");
    assert_eq!(c.mime_type, "image/gif");
}

#[test]
fn sort_names_fold_case_and_drop_articles() {
    assert_eq!(sort_name("The Beatles"), "beatles");
    assert_eq!(sort_name("A Tribe Called Quest"), "tribe called quest");
    assert_eq!(sort_name("AC/DC"), "ac dc");
    assert_eq!(sort_name("Björk"), "bjork");
    assert_eq!(sort_name("  Theatre  "), "theatre");
    assert_eq!(sort_name("ÀBBA"), "abba");
    assert_eq!(sort_name("Motörhead"), "motorhead");
    assert_eq!(sort_name("Sigur Rós"), "sigur ros");
    assert_eq!(sort_name("Łona"), "ona");
    assert_eq!(sort_name("Žiga Šarić"), "ziga saric");
}

#[test]
fn sort_keys_of_lowercase_names() {
    assert_eq!(sort_key_of_lowercase("the the"), "the");
    assert_eq!(sort_key_of_lowercase("a-ha"), "a ha");
    assert_eq!(sort_key_of_lowercase("a "), "");
    // Upper-case letters are kept as they are: folding is `sort_name`'s step.
    assert_eq!(sort_key_of_lowercase("The Beatles"), "The Beatles");
    assert_eq!(sort_key_of_lowercase("björk"), "bjork");
    assert_eq!(sort_key_of_lowercase("æther ø"), "ther");
}

#[test]
fn file_hash_keys_from_a_digest() {
    let d = [7u8; 32];
    assert_eq!(
        file_hash_with_digest(d, 10, Some(5)),
        Ok(FileHash { path_hash: d, mtime_ns: 5, size_bytes: 10 })
    );
    assert_eq!(file_hash_with_digest(d, 10, None), Err(HashError::MtimeBeforeEpoch));
    assert_eq!(
        file_hash_with_digest(d, u64::MAX, Some(0)),
        Ok(FileHash { path_hash: d, mtime_ns: 0, size_bytes: -1 })
    );
}

#[test]
fn migrations_apply_once_in_order() {
    let versions = vec![1, 2, 3, 4, 5, 6, 7, 8, 9];
    assert_eq!(migration_plan(&versions, 0), ((0..9).collect::<Vec<usize>>(), 9));
    assert_eq!(migration_plan(&versions, 6), (vec![6, 7, 8], 9));
    assert_eq!(migration_plan(&versions, 9), (vec![], 9));
    let (_, after) = migration_plan(&versions, 3);
    assert_eq!(migration_plan(&versions, after), (vec![], 9));
}

#[test]
fn sort_chars_fold_latin_diacritics() {
    assert_eq!(sort_char_of('ö'), 'o');
    assert_eq!(sort_char_of('Å'), 'A');
    assert_eq!(sort_char_of('ÿ'), 'y');
    assert_eq!(sort_char_of('Ÿ'), 'Y');
    assert_eq!(sort_char_of('ľ'), 'l');
    assert_eq!(sort_char_of('Ľ'), 'L');
    assert_eq!(sort_char_of('ő'), 'o');
    assert_eq!(sort_char_of('ž'), 'z');
    assert_eq!(sort_char_of('ß'), ' ');
    assert_eq!(sort_char_of('ø'), ' ');
    assert_eq!(sort_char_of('7'), ' ');
    assert_eq!(sort_char_of('q'), 'q');
}
