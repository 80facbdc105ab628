//! Filesystem events relevant to ingest: which paths are audio, and how the
//! watcher's raw notifications map to ingest events.

use vstd::prelude::*;
use crate::path::{path_extension, path_extension_of};
use crate::text::{ascii_lower_seq, ascii_lowercase, chars_of, eq_str};

verus! {

/// What happened to a file on disk.
#[derive(Debug, Clone, PartialEq, Eq)]
pub enum EventKind {
    /// The file was just created.
    Created,
    /// The file was modified (mtime/content changed).
    Modified,
    /// The file was removed.
    Removed,
    /// The file was renamed from `from` to `to`.
    Renamed { from: String, to: String },
}

/// A single ingest-relevant filesystem event.
#[derive(Debug, Clone, PartialEq, Eq)]
pub struct IngestEvent {
    pub path: String,
    pub kind: EventKind,
}

/// Lower-case file extensions recognised as audio.
pub open spec fn is_audio_ext(e: Seq<char>) -> bool {
    ||| e == "mp3"@
    ||| e == "flac"@
    ||| e == "wav"@
    ||| e == "m4a"@
    ||| e == "aac"@
    ||| e == "ogg"@
    ||| e == "opus"@
    ||| e == "aiff"@
    ||| e == "aif"@
    ||| e == "alac"@
}

/// `path` has an extension recognised as audio, in any letter case.
pub open spec fn is_audio_path_spec(path: Seq<char>) -> bool {
    match path_extension(path) {
        Some(e) => is_audio_ext(ascii_lower_seq(e)),
        None => false,
    }
}

/// Audio is recognised by the file's extension, in any letter case: a file
/// named `base.ext` in any directory is audio exactly when `ext`,
/// ASCII-lower-cased, is one of mp3, flac, wav, m4a, aac, ogg, opus, aiff,
/// aif or alac.
pub proof fn law_audio_extensions(dir: Seq<char>, base: Seq<char>, ext: Seq<char>)
    requires
        dir.len() == 0 || dir.last() == '/',
        base.len() > 0,
        ext.len() > 0,
        forall|i: int| 0 <= i < base.len() ==> base[i] != '/',
        forall|i: int| 0 <= i < ext.len() ==> ext[i] != '/' && ext[i] != '.',
    ensures
        is_audio_path_spec(dir + (base + seq!['.'] + ext)) == ({
            let e = ascii_lower_seq(ext);
            ||| e == "mp3"@
            ||| e == "flac"@
            ||| e == "wav"@
            ||| e == "m4a"@
            ||| e == "aac"@
            ||| e == "ogg"@
            ||| e == "opus"@
            ||| e == "aiff"@
            ||| e == "aif"@
            ||| e == "alac"@
        }),
{
    crate::path::lemma_extension_of_last(dir, base, ext);
}

fn is_audio_ext_exec(e: &Vec<char>) -> (r: bool)
    ensures
        r == is_audio_ext(e@),
{
    eq_str(e, "mp3") || eq_str(e, "flac") || eq_str(e, "wav") || eq_str(e, "m4a") || eq_str(
        e,
        "aac",
    ) || eq_str(e, "ogg") || eq_str(e, "opus") || eq_str(e, "aiff") || eq_str(e, "aif")
        || eq_str(e, "alac")
}

/// True if `path` has an extension treated as audio. Case-insensitive.
pub fn is_audio_path(path: &str) -> (r: bool)
    ensures
        r == is_audio_path_spec(path@),
{
    let p = chars_of(path);
    match path_extension_of(&p) {
        Some(e) => {
            let lower = ascii_lowercase(&e);
            is_audio_ext_exec(&lower)
        },
        None => false,
    }
}

/// Coarse classification of a raw watcher notification.
#[derive(Debug, Clone, Copy, PartialEq, Eq, Structural)]
pub enum NotifyKind {
    Create,
    Modify,
    Remove,
    /// The first half of a rename: the old name.
    RenameFrom,
    /// The second half of a rename: the new name.
    RenameTo,
    Other,
}

/// A raw watcher notification: its kind and the paths it concerns.
#[derive(Debug, Clone)]
pub struct RawEvent {
    pub kind: NotifyKind,
    pub paths: Vec<String>,
}

pub open spec fn kind_of(k: NotifyKind) -> Option<EventKind> {
    match k {
        NotifyKind::Create => Some(EventKind::Created),
        NotifyKind::Modify => Some(EventKind::Modified),
        NotifyKind::Remove => Some(EventKind::Removed),
        _ => None,
    }
}

pub open spec fn event_is(e: IngestEvent, path: Seq<char>, kind: EventKind) -> bool {
    e.path@ == path && e.kind == kind
}

pub open spec fn renamed_is(e: IngestEvent, from: Seq<char>, to: Seq<char>) -> bool {
    &&& e.path@ == to
    &&& e.kind matches EventKind::Renamed { from: f, to: t }
    &&& f@ == from
    &&& t@ == to
}

/// Map a notification plus an optional paired "from" rename notification to
/// at most one ingest event.
///
/// A `RenameTo` paired with a `from` notification becomes `Renamed` (whatever
/// the extension). Otherwise only audio paths count: `Create`, `Modify` and
/// `Remove` map to `Created`, `Modified`, `Removed`; other kinds are ignored.
pub fn to_ingest_pair(from_rename: Option<&RawEvent>, event: &RawEvent) -> (r: Option<IngestEvent>)
    ensures
        event.paths@.len() == 0 ==> r is None,
        event.paths@.len() > 0 ==> {
            let path = event.paths@[0]@;
            if from_rename is Some && from_rename->0.paths@.len() > 0 && event.kind
                == NotifyKind::RenameTo {
                &&& r is Some
                &&& renamed_is(r->0, from_rename->0.paths@[0]@, path)
            } else if !is_audio_path_spec(path) {
                r is None
            } else {
                match kind_of(event.kind) {
                    Some(k) => r is Some && event_is(r->0, path, k),
                    None => r is None,
                }
            }
        },
{
    if event.paths.len() == 0 {
        return None;
    }
    let path = &event.paths[0];
    match from_rename {
        Some(from) => {
            if from.paths.len() > 0 && event.kind == NotifyKind::RenameTo {
                let from_path = from.paths[0].clone();
                return Some(
                    IngestEvent {
                        path: path.clone(),
                        kind: EventKind::Renamed { from: from_path, to: path.clone() },
                    },
                );
            }
        },
        None => {},
    }
    if !is_audio_path(path.as_str()) {
        return None;
    }
    let kind = match event.kind {
        NotifyKind::Create => EventKind::Created,
        NotifyKind::Modify => EventKind::Modified,
        NotifyKind::Remove => EventKind::Removed,
        _ => return None,
    };
    Some(IngestEvent { path: path.clone(), kind })
}

/// Map a single notification to at most one ingest event.
pub fn to_ingest(event: &RawEvent) -> (r: Option<IngestEvent>)
    ensures
        event.paths@.len() == 0 ==> r is None,
        event.paths@.len() > 0 ==> {
            let path = event.paths@[0]@;
            if !is_audio_path_spec(path) {
                r is None
            } else {
                match kind_of(event.kind) {
                    Some(k) => r is Some && event_is(r->0, path, k),
                    None => r is None,
                }
            }
        },
{
    to_ingest_pair(None, event)
}

/// Kind of the events a debounced notification yields: renames arrive as
/// modifications of the new path.
pub open spec fn debounced_kind(k: NotifyKind) -> Option<EventKind> {
    match k {
        NotifyKind::Create => Some(EventKind::Created),
        NotifyKind::Modify | NotifyKind::RenameFrom | NotifyKind::RenameTo => Some(
            EventKind::Modified,
        ),
        NotifyKind::Remove => Some(EventKind::Removed),
        NotifyKind::Other => None,
    }
}

fn debounced_event_kind(kind: NotifyKind) -> (r: Option<EventKind>)
    ensures
        r == debounced_kind(kind),
{
    match kind {
        NotifyKind::Create => Some(EventKind::Created),
        NotifyKind::Modify | NotifyKind::RenameFrom | NotifyKind::RenameTo => Some(
            EventKind::Modified,
        ),
        NotifyKind::Remove => Some(EventKind::Removed),
        NotifyKind::Other => None,
    }
}

pub open spec fn audio_pred() -> spec_fn(String) -> bool {
    |p: String| is_audio_path_spec(p@)
}

/// The ingest events of a debounced notification: one per audio path, in
/// order, all of the notification's kind; none when the kind is not handled.
pub fn debounced_events(kind: NotifyKind, paths: &Vec<String>) -> (r: Vec<IngestEvent>)
    ensures
        debounced_kind(kind) is None ==> r@.len() == 0,
        debounced_kind(kind) matches Some(k) ==> {
            let audio = paths@.filter(audio_pred());
            &&& r@.len() == audio.len()
            &&& forall|i: int| 0 <= i < r@.len() ==> event_is(#[trigger] r@[i], audio[i]@, k)
        },
{
    let mut out: Vec<IngestEvent> = Vec::new();
    let ghost ek = match debounced_kind(kind) {
        Some(k) => k,
        None => EventKind::Modified,
    };
    if debounced_event_kind(kind).is_none() {
        return out;
    }
    let mut i: usize = 0;
    while i < paths.len()
        invariant
            i <= paths.len(),
            debounced_kind(kind) == Some(ek),
            out@.len() == paths@.take(i as int).filter(audio_pred()).len(),
            forall|j: int|
                0 <= j < out@.len() ==> event_is(
                    #[trigger] out@[j],
                    paths@.take(i as int).filter(audio_pred())[j]@,
                    ek,
                ),
        decreases paths.len() - i,
    {
        proof {
            reveal_with_fuel(Seq::<String>::filter, 1);
            assert(paths@.take(i + 1).drop_last() == paths@.take(i as int));
            assert(paths@.take(i + 1).last() == paths@[i as int]);
            assert(audio_pred()(paths@[i as int]) == is_audio_path_spec(paths@[i as int]@));
        }
        let ghost prev = out@;
        if is_audio_path(paths[i].as_str()) {
            let k = debounced_event_kind(kind).unwrap();
            out.push(IngestEvent { path: paths[i].clone(), kind: k });
            proof {
                let f = paths@.take(i + 1).filter(audio_pred());
                assert forall|j: int| 0 <= j < out@.len() implies event_is(
                    #[trigger] out@[j],
                    f[j]@,
                    ek,
                ) by {
                    if j < prev.len() {
                        assert(out@[j] == prev[j]);
                    }
                }
            }
        }
        i += 1;
    }
    proof {
        assert(paths@.take(i as int) =~= paths@);
    }
    out
}

} // verus!
