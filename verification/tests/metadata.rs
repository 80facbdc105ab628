use mimir::extract::{apply_heuristic, parse_year_string, read_artist, read_track_no, read_year, Tags};
use mimir::heuristic::{parse_filename, HeuristicTags};
use mimir::sidecar::{
    cover_from_sidecar, cover_sidecar_names, find_cover_sidecar, find_lyrics_sidecar,
    lyrics_from_sidecar, lyrics_sidecar_names, strip_lrc_timing,
};

#[test]
fn parse_year_handles_iso_date() {
    assert_eq!(parse_year_string("2024-03-15"), Some(2024));
    assert_eq!(parse_year_string("2024/03/15"), Some(2024));
    assert_eq!(parse_year_string("2024"), Some(2024));
    assert_eq!(parse_year_string("20240315"), Some(2024));
    assert_eq!(parse_year_string("1999-12-31T23:59:59"), Some(1999));
}

#[test]
fn parse_year_rejects_non_years() {
    assert_eq!(parse_year_string(""), None);
    assert_eq!(parse_year_string("abc"), None);
    assert_eq!(parse_year_string("24"), None); // 2 digits is not a year
}

#[test]
fn read_year_falls_back_to_recording_date() {
    assert_eq!(read_year(&Some("2023-06-12".into()), &None), Some(2023));
    assert_eq!(read_year(&None, &Some("1995".into())), Some(1995));
    // Both set — the recording date wins because it carries the full date.
    assert_eq!(read_year(&Some("2024".into()), &Some("2000".into())), Some(2024));
    // A recording date without a year falls back to the year item.
    assert_eq!(read_year(&Some("n/a".into()), &Some("2000".into())), Some(2000));
}

#[test]
fn read_track_no_handles_total_format() {
    assert_eq!(read_track_no("3/12"), Some(3));
    assert_eq!(read_track_no(" 7 "), Some(7));
    assert_eq!(read_track_no("nope"), None);
    assert_eq!(read_track_no("03"), Some(3));
}

#[test]
fn read_artist_trims_and_skips_empty() {
    assert_eq!(read_artist("  Björk  "), Some("Björk".into()));
    assert_eq!(read_artist("   "), None);
}

#[test]
fn strip_lrc_timing_removes_timestamps_and_metadata() {
    let raw = "[ti:Bohemian Rhapsody]\n\
               [ar:Queen]\n\
               [lang:en]\n\
               [00:00.00]Is this the real life?\n\
               [00:05.12]Is this just fantasy?\n\
               \n\
               [00:11.00]Caught in a landslide\n";
    let (body, lang) = strip_lrc_timing(raw);
    assert_eq!(
        body,
        "Is this the real life?\nIs this just fantasy?\nCaught in a landslide"
    );
    assert_eq!(lang.as_deref(), Some("en"));
}

#[test]
fn strip_lrc_timing_keeps_plain_text() {
    let raw = "All you need is love\nLove is all you need\n";
    let (body, lang) = strip_lrc_timing(raw);
    assert_eq!(body, "All you need is love\nLove is all you need");
    assert_eq!(lang, None);
}

#[test]
fn strip_lrc_timing_handles_crlf_and_unclosed_brackets() {
    let (body, lang) = strip_lrc_timing("[00:01.00] hello \r\n[oops\r\n[]\r\n");
    assert_eq!(body, "hello\n[oops");
    assert_eq!(lang, None);
}

#[test]
fn heuristic_parses_artist_album_track_title() {
    let h = parse_filename("/music/Pink Floyd/Dark Side of the Moon/05 - Money.flac")
        .expect("heuristic");
    assert_eq!(
        h,
        HeuristicTags {
            artist: Some("Pink Floyd".into()),
            album: Some("Dark Side of the Moon".into()),
            track_no: Some(5),
            title: Some("Money".into()),
        }
    );
}

#[test]
fn heuristic_returns_none_for_unparseable() {
    assert!(parse_filename("/music/random.mp3").is_none());
}

#[test]
fn heuristic_handles_two_digit_track_no() {
    let h = parse_filename("/music/Bon Iver/For Emma/12 - re: stacks.flac").expect("heuristic");
    assert_eq!(h.track_no, Some(12));
}

#[test]
fn heuristic_without_track_number_keeps_whole_leaf() {
    let h = parse_filename("A/B/Intro - Live.mp3").expect("heuristic");
    assert_eq!(h.track_no, None);
    assert_eq!(h.title.as_deref(), Some("Intro - Live"));
    let h = parse_filename("./A//B/./song").expect("heuristic");
    assert_eq!(h.artist.as_deref(), Some("A"));
    assert_eq!(h.album.as_deref(), Some("B"));
    assert_eq!(h.title.as_deref(), Some("song"));
}

#[test]
fn apply_heuristic_fills_only_gaps() {
    let mut tags = Tags::default();
    tags.title = Some("Tagged".into());
    apply_heuristic(
        &mut tags,
        Some(HeuristicTags {
            artist: Some("A".into()),
            album: Some("B".into()),
            track_no: Some(3),
            title: Some("From name".into()),
        }),
    );
    assert_eq!(tags.title.as_deref(), Some("Tagged"));
    assert_eq!(tags.artist.as_deref(), Some("A"));
    assert_eq!(tags.album.as_deref(), Some("B"));
    assert_eq!(tags.track_no, Some(3));

    let mut tags = Tags::default();
    tags.album_artist = Some("Various".into());
    apply_heuristic(
        &mut tags,
        Some(HeuristicTags { artist: Some("A".into()), album: None, track_no: None, title: None }),
    );
    assert_eq!(tags.artist, None);
}

#[test]
fn find_lyrics_sidecar_reads_lrc() {
    let names = lyrics_sidecar_names("song");
    assert_eq!(names, vec!["song.lrc".to_string(), "song.txt".to_string()]);
    let candidates = vec![
        (names[0].clone(), Some("[00:01.00]hello\n[00:02.00]world\n".to_string())),
        (names[1].clone(), Some("ignored".to_string())),
    ];
    let out = find_lyrics_sidecar(&candidates).expect("lyrics");
    assert_eq!(out.text, "hello\nworld");
    assert_eq!(out.language, "und");
    assert!(out.source.starts_with("sidecar:"));
    assert_eq!(out.source, "sidecar:song.lrc");
}

#[test]
fn find_lyrics_sidecar_returns_none_when_missing() {
    let candidates = vec![("song.lrc".to_string(), None), ("song.txt".to_string(), None)];
    assert!(find_lyrics_sidecar(&candidates).is_none());
    // A file with only metadata yields nothing, and the next is tried.
    let candidates = vec![
        ("song.lrc".to_string(), Some("[ti:x]\n".to_string())),
        ("song.txt".to_string(), Some("plain\n".to_string())),
    ];
    assert_eq!(find_lyrics_sidecar(&candidates).expect("txt").source, "sidecar:song.txt");
    assert!(lyrics_from_sidecar("a.lrc", "  \n").is_none());
}

#[test]
fn find_cover_sidecar_picks_cover_over_folder() {
    let names = cover_sidecar_names();
    assert_eq!(names[0], "cover.jpg");
    assert_eq!(names[3], "folder.jpg");
    let candidates: Vec<(String, Option<Vec<u8>>)> = names
        .iter()
        .map(|n| {
            let data = match n.as_str() {
                "cover.jpg" => Some(b"cover-bytes".to_vec()),
                "folder.jpg" => Some(b"folder-bytes".to_vec()),
                _ => None,
            };
            (n.clone(), data)
        })
        .collect();
    let out = find_cover_sidecar(candidates).expect("cover");
    assert_eq!(out.mime_type, "image/jpeg");
    assert_eq!(out.data, b"cover-bytes");
    assert!(out.source.contains("cover.jpg"));
}

#[test]
fn find_cover_sidecar_falls_back_to_folder() {
    let candidates: Vec<(String, Option<Vec<u8>>)> = cover_sidecar_names()
        .into_iter()
        .map(|n| {
            let data = if n == "folder.png" { Some(b"folder-png".to_vec()) } else { None };
            (n, data)
        })
        .collect();
    let out = find_cover_sidecar(candidates).expect("cover");
    assert_eq!(out.mime_type, "image/png");
    assert_eq!(out.data, b"folder-png");
}

#[test]
fn find_cover_sidecar_returns_none_when_no_candidate() {
    let candidates: Vec<(String, Option<Vec<u8>>)> =
        cover_sidecar_names().into_iter().map(|n| (n, None)).collect();
    assert!(find_cover_sidecar(candidates).is_none());
    assert!(cover_from_sidecar("cover.jpg", Vec::new()).is_none());
    assert!(cover_from_sidecar("cover.gif", b"x".to_vec()).is_none());
    assert_eq!(cover_from_sidecar("COVER.JPEG", b"x".to_vec()).unwrap().mime_type, "image/jpeg");
}
