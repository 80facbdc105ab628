//! Decisions behind the front-end commands: error values, the library-open
//! status, cover URLs, folder renames and the playlist requests.

use vstd::prelude::*;
use crate::fmt::{push_signed, signed_decimal};
use vstd::string::StringSliceAdditionalSpecFns;
use crate::playlist::PlayerCommand;
use crate::text::{chars_of, extend_chars, parse_i64_range, parse_i64_spec, string_from_chars};

verus! {

/// Error returned from a front-end command: a kind and a message.
#[derive(Debug, Clone, PartialEq, Eq)]
pub enum AppError {
    Io(String),
    Sqlite(String),
    Decode(String),
    PathNotFound(String),
    Internal(String),
}

/// The text of an error: its kind's prefix, then its message.
pub open spec fn app_error_text(e: AppError) -> Seq<char> {
    match e {
        AppError::Io(m) => "io: "@ + m@,
        AppError::Sqlite(m) => "sqlite: "@ + m@,
        AppError::Decode(m) => "decode: "@ + m@,
        AppError::PathNotFound(m) => "path not found: "@ + m@,
        AppError::Internal(m) => "internal: "@ + m@,
    }
}

fn prefixed(prefix: &str, m: &String) -> (r: String)
    ensures
        r@ == prefix@ + m@,
{
    let mut v = chars_of(prefix);
    extend_chars(&mut v, &chars_of(m.as_str()));
    string_from_chars(v)
}

impl AppError {
    /// The human-readable text of the error (`io: ...`, `sqlite: ...`).
    pub fn message(&self) -> (r: String)
        ensures
            r@ == app_error_text(*self),
    {
        match self {
            AppError::Io(m) => prefixed("io: ", m),
            AppError::Sqlite(m) => prefixed("sqlite: ", m),
            AppError::Decode(m) => prefixed("decode: ", m),
            AppError::PathNotFound(m) => prefixed("path not found: ", m),
            AppError::Internal(m) => prefixed("internal: ", m),
        }
    }
}

fn internal(text: &str) -> (r: AppError)
    ensures
        r matches AppError::Internal(m) && m@ == text@,
{
    AppError::Internal(string_from_chars(chars_of(text)))
}

// ---------------------------------------------------------------------------
// Library status.
// ---------------------------------------------------------------------------

/// Snapshot of the library status for the front-end.
#[derive(Debug, Clone)]
pub struct LibraryStatus {
    /// Path the library was opened at, if any.
    pub path: Option<String>,
    /// Most recent open error, if any. Cleared on the next successful open.
    pub last_error: Option<String>,
}

impl Default for LibraryStatus {
    fn default() -> (r: Self)
        ensures
            r.path is None,
            r.last_error is None,
    {
        LibraryStatus { path: None, last_error: None }
    }
}

/// The open library (if any) together with the status shown for it.
pub struct Session<L> {
    pub library: Option<L>,
    pub status: LibraryStatus,
}

impl<L> Session<L> {
    /// Either the library at `status.path` is open and no error is
    /// recorded, or no library is open.
    pub open spec fn consistent(&self) -> bool {
        &&& self.library is Some ==> self.status.last_error is None && self.status.path is Some
        &&& self.status.last_error is Some ==> self.library is None
    }

    /// No library open, nothing attempted yet.
    pub fn new() -> (r: Self)
        ensures
            r.library is None,
            r.status.path is None,
            r.status.last_error is None,
            r.consistent(),
    {
        Session { library: None, status: LibraryStatus::default() }
    }

    /// The session after an attempt to open the library at `path` ended with
    /// `outcome`. Nothing of the session before survives the attempt.
    pub open spec fn after_open(path: String, outcome: Result<L, String>) -> Session<L> {
        match outcome {
            Ok(lib) => Session {
                library: Some(lib),
                status: LibraryStatus { path: Some(path), last_error: None },
            },
            Err(msg) => Session {
                library: None,
                status: LibraryStatus { path: Some(path), last_error: Some(msg) },
            },
        }
    }

    /// Records an attempt to open the library at `path`: the path is
    /// remembered whatever happened; on success the library is installed and
    /// the last error cleared, on failure any open library is closed and the
    /// error text kept.
    pub fn record_open(&mut self, path: String, outcome: Result<L, String>)
        ensures
            *final(self) == Session::after_open(path, outcome),
            final(self).consistent(),
    {
        self.status.path = Some(path);
        match outcome {
            Ok(lib) => {
                self.library = Some(lib);
                self.status.last_error = None;
            },
            Err(msg) => {
                self.library = None;
                self.status.last_error = Some(msg);
            },
        }
    }

    /// The open library, or an `Internal` error when none is open.
    pub fn library(&self) -> (r: Result<&L, AppError>)
        ensures
            self.library matches Some(l) ==> r == Ok::<&L, AppError>(&l),
            self.library is None ==> (r matches Err(AppError::Internal(m)) && m@
                == "library not opened yet"@),
    {
        match &self.library {
            Some(l) => Ok(l),
            None => Err(internal("library not opened yet")),
        }
    }

    /// True when a library is open and queries can be run.
    pub fn is_open(&self) -> (r: bool)
        ensures
            r == self.library is Some,
    {
        self.library.is_some()
    }
}

/// Whatever came before, an open attempt leaves a consistent session that
/// names the path tried: a success clears any earlier error and serves
/// queries; a failure closes the library, so queries are refused until the
/// next successful open.
pub proof fn law_open_keeps_session_consistent<L>(path: String, outcome: Result<L, String>)
    ensures
        Session::after_open(path, outcome).consistent(),
        Session::after_open(path, outcome).status.path == Some(path),
        outcome is Ok <==> Session::after_open(path, outcome).library is Some,
        outcome is Ok ==> Session::after_open(path, outcome).status.last_error is None,
        outcome matches Err(m) ==> Session::after_open(path, outcome).status.last_error == Some(m),
{
}

// ---------------------------------------------------------------------------
// Cover URLs.
// ---------------------------------------------------------------------------

pub open spec fn cover_prefix() -> Seq<char> {
    "/cover/"@
}

/// The album id named by a cover path `/cover/{id}`.
pub open spec fn cover_id_spec(path: Seq<char>) -> Option<i64> {
    if path.len() >= cover_prefix().len() && path.take(cover_prefix().len() as int)
        == cover_prefix() {
        parse_i64_spec(path.skip(cover_prefix().len() as int))
    } else {
        None
    }
}

/// Pull the album id out of a `mimircover://localhost/cover/{id}` path:
/// the path must start with `/cover/` and the rest must be an `i64`.
pub fn cover_id_from_path(path: &str) -> (r: Option<i64>)
    ensures
        r == cover_id_spec(path@),
{
    let p = chars_of(path);
    let prefix = chars_of("/cover/");
    if p.len() < prefix.len() {
        return None;
    }
    let mut i: usize = 0;
    while i < prefix.len()
        invariant
            i <= prefix.len() <= p.len(),
            prefix@ == cover_prefix(),
            p@ == path@,
            forall|k: int| 0 <= k < i ==> p@[k] == prefix@[k],
        decreases prefix.len() - i,
    {
        if p[i] != prefix[i] {
            proof {
                assert(p@.take(prefix.len() as int)[i as int] != cover_prefix()[i as int]);
            }
            return None;
        }
        i += 1;
    }
    proof {
        assert(p@.take(prefix.len() as int) =~= cover_prefix());
    }
    let r = parse_i64_range(&p, prefix.len(), p.len());
    proof {
        assert(p@.subrange(prefix.len() as int, p.len() as int) =~= p@.skip(prefix.len() as int));
    }
    r
}

// ---------------------------------------------------------------------------
// Folder renames.
// ---------------------------------------------------------------------------

/// Characters that are special in a `LIKE` pattern.
pub open spec fn like_special(c: char) -> bool {
    c == '\\' || c == '%' || c == '_'
}

/// `s` with a backslash before every backslash, `%` and `_`, so that a
/// `LIKE` pattern built from it matches it literally.
pub open spec fn like_escape(s: Seq<char>) -> Seq<char>
    decreases s.len(),
{
    if s.len() == 0 {
        Seq::empty()
    } else {
        let c = s.last();
        like_escape(s.drop_last()) + if like_special(c) {
            seq!['\\', c]
        } else {
            seq![c]
        }
    }
}

/// LIKE-escape user input: backslash, `%` and `_` get prefixed with `\`,
/// so `WHERE path LIKE '<input>%'` only matches the actual prefix.
pub fn escape_like_folder(s: &str) -> (r: String)
    ensures
        r@ == like_escape(s@),
{
    let v = chars_of(s);
    let mut out: Vec<char> = Vec::new();
    let mut i: usize = 0;
    while i < v.len()
        invariant
            i <= v.len(),
            v@ == s@,
            out@ == like_escape(v@.take(i as int)),
        decreases v.len() - i,
    {
        let ch = v[i];
        proof {
            assert(v@.take(i + 1).drop_last() =~= v@.take(i as int));
        }
        if ch == '\\' || ch == '%' || ch == '_' {
            out.push('\\');
            out.push(ch);
            proof {
                assert(out@ =~= like_escape(v@.take(i as int)) + seq!['\\', ch]);
            }
        } else {
            out.push(ch);
            proof {
                assert(out@ =~= like_escape(v@.take(i as int)) + seq![ch]);
            }
        }
        i += 1;
    }
    proof {
        assert(v@.take(v.len() as int) =~= v@);
    }
    string_from_chars(out)
}

/// The escaped form of one character.
pub open spec fn escaped_char(c: char) -> Seq<char> {
    if like_special(c) {
        seq!['\\', c]
    } else {
        seq![c]
    }
}

/// The literal text a `LIKE` pattern (with `\` as escape) stands for: an
/// escaped character stands for itself.
pub open spec fn like_unescape(p: Seq<char>) -> Seq<char>
    decreases p.len(),
{
    if p.len() == 0 {
        Seq::empty()
    } else if p[0] == '\\' && p.len() >= 2 {
        seq![p[1]] + like_unescape(p.skip(2))
    } else {
        seq![p[0]] + like_unescape(p.skip(1))
    }
}

/// A `LIKE` pattern with no unescaped `%` or `_`: it matches only the text
/// it spells.
pub open spec fn no_bare_wildcards(p: Seq<char>) -> bool
    decreases p.len(),
{
    if p.len() == 0 {
        true
    } else if p[0] == '\\' && p.len() >= 2 {
        no_bare_wildcards(p.skip(2))
    } else {
        p[0] != '%' && p[0] != '_' && no_bare_wildcards(p.skip(1))
    }
}

proof fn lemma_escape_front(s: Seq<char>)
    requires
        s.len() > 0,
    ensures
        like_escape(s) == escaped_char(s[0]) + like_escape(s.drop_first()),
    decreases s.len(),
{
    if s.len() == 1 {
        assert(s.drop_last() =~= Seq::<char>::empty());
        assert(s.drop_first() =~= Seq::<char>::empty());
        assert(like_escape(s) =~= escaped_char(s[0]));
    } else {
        lemma_escape_front(s.drop_last());
        assert(s.drop_last().drop_first() =~= s.drop_first().drop_last());
        assert(s.drop_first().last() == s.last());
        assert(like_escape(s) =~= escaped_char(s[0]) + like_escape(s.drop_first()));
    }
}

/// An escaped text, read back as a `LIKE` pattern, has no bare wildcard and
/// stands for exactly the original text: `WHERE path LIKE '<escaped>%'`
/// matches only paths that start with it.
pub proof fn law_like_escape_is_literal(s: Seq<char>)
    ensures
        no_bare_wildcards(like_escape(s)),
        like_unescape(like_escape(s)) == s,
    decreases s.len(),
{
    if s.len() == 0 {
        assert(like_escape(s) =~= Seq::<char>::empty());
    } else {
        lemma_escape_front(s);
        law_like_escape_is_literal(s.drop_first());
        let rest = like_escape(s.drop_first());
        let e = like_escape(s);
        let c = s[0];
        if like_special(c) {
            assert(e.skip(2) =~= rest);
            assert(e[0] == '\\' && e[1] == c);
        } else {
            assert(e.skip(1) =~= rest);
            assert(e[0] == c);
        }
        assert(like_unescape(e) =~= s);
    }
}

/// The parameters of the statement that moves every track under one
/// directory to another: tracks whose path matches `pattern` get the path
/// `new_prefix || substr(path, keep_from)`.
pub struct PathRewrite {
    /// The directory the tracks move to.
    pub new_prefix: String,
    /// `substr` start (1-based, in characters, as SQLite counts in text) of
    /// the part of the old path that is kept: the number of characters of the
    /// old directory plus one, which skips its trailing `/`.
    pub keep_from: i64,
    /// `LIKE` pattern (with `\` as escape) matching every path under the old
    /// directory.
    pub pattern: String,
}

/// The rewrite of track paths when directory `old_dir` becomes `new_dir`.
pub fn path_rewrite(old_dir: &str, new_dir: &str) -> (r: PathRewrite)
    requires
        old_dir@.len() < i64::MAX,
    ensures
        r.new_prefix@ == new_dir@,
        r.keep_from == old_dir@.len() + 1,
        r.pattern@ == like_escape(old_dir@.push('/')) + seq!['%'],
{
    let mut dir = chars_of(old_dir);
    let keep = dir.len() as i64 + 1;
    dir.push('/');
    let escaped = escape_like_folder(string_from_chars(dir).as_str());
    let mut pattern = chars_of(escaped.as_str());
    pattern.push('%');
    PathRewrite {
        new_prefix: string_from_chars(chars_of(new_dir)),
        keep_from: keep,
        pattern: string_from_chars(pattern),
    }
}

/// The track-path rewrite for moving watched folder `old_path` to
/// `new_path`, or `None` when the path does not change.
pub fn folder_rename_rewrite(old_path: &str, new_path: &str) -> (r: Option<PathRewrite>)
    requires
        old_path@.len() < i64::MAX,
    ensures
        (old_path@ == new_path@) <==> r is None,
        r matches Some(w) ==> w.new_prefix@ == new_path@ && w.keep_from == old_path@.len() + 1
            && w.pattern@ == like_escape(old_path@.push('/')) + seq!['%'],
{
    let a = chars_of(old_path);
    let b = chars_of(new_path);
    if crate::text::vec_eq(&a, &b) {
        None
    } else {
        Some(path_rewrite(old_path, new_path))
    }
}

/// A single path segment: non-empty, with no `/`, `\` or NUL.
pub open spec fn is_single_segment(name: Seq<char>) -> bool {
    &&& name.len() > 0
    &&& forall|i: int| 0 <= i < name.len() ==> #[trigger] name[i] != '/' && name[i] != '\\'
        && name[i] != '\0'
}

/// The parent of a path, as `std::path::Path::parent` gives it.
pub uninterp spec fn std_path_parent(path: Seq<char>) -> Option<Seq<char>>;

/// A path extended by another, as `std::path::Path::join` gives it.
pub uninterp spec fn std_path_join(base: Seq<char>, more: Seq<char>) -> Seq<char>;

/// `Path::parent` of `path`, as a string (`None` for a root or an empty
/// path); the contract only names the result.
#[verifier::external_body]
fn path_parent(path: &str) -> (r: Option<String>)
    ensures
        match r {
            Some(p) => std_path_parent(path@) == Some(p@),
            None => std_path_parent(path@) is None,
        },
{
    std::path::Path::new(path).parent().map(|p| p.to_string_lossy().into_owned())
}

/// `Path::join` of `base` and `more`, as a string; the contract only names
/// the result.
#[verifier::external_body]
fn path_join(base: &str, more: &str) -> (r: String)
    ensures
        r@ == std_path_join(base@, more@),
{
    std::path::Path::new(base).join(more).to_string_lossy().into_owned()
}

fn single_segment(name: &str) -> (r: bool)
    ensures
        r == is_single_segment(name@),
{
    let v = chars_of(name);
    if v.len() == 0 {
        return false;
    }
    let mut i: usize = 0;
    while i < v.len()
        invariant
            i <= v.len(),
            v@ == name@,
            forall|k: int| 0 <= k < i ==> #[trigger] v@[k] != '/' && v@[k] != '\\' && v@[k] != '\0',
        decreases v.len() - i,
    {
        if v[i] == '/' || v[i] == '\\' || v[i] == '\0' {
            return false;
        }
        i += 1;
    }
    true
}

/// Where renaming the directory `current_path` to `new_name` puts it: the
/// new name must be a single path segment, and the directory must have a
/// parent; the result is the parent joined with the new name.
pub fn subdir_rename_target(current_path: &str, new_name: &str) -> (r: Result<String, AppError>)
    ensures
        !is_single_segment(new_name@) ==> (r matches Err(AppError::Internal(m)) && m@
            == "new name must be a single path segment"@),
        is_single_segment(new_name@) && std_path_parent(current_path@) is None ==> (r matches Err(
            AppError::Internal(m),
        ) && m@ == "cannot rename a root path"@),
        is_single_segment(new_name@) && std_path_parent(current_path@) is Some ==> (r matches Ok(
            t,
        ) && t@ == std_path_join(std_path_parent(current_path@)->0, new_name@)),
{
    if !single_segment(new_name) {
        return Err(internal("new name must be a single path segment"));
    }
    match path_parent(current_path) {
        None => Err(internal("cannot rename a root path")),
        Some(parent) => Ok(path_join(parent.as_str(), new_name)),
    }
}

// ---------------------------------------------------------------------------
// Playlist requests.
// ---------------------------------------------------------------------------

/// Position of the first `x` in `s`.
pub open spec fn first_index(s: Seq<i64>, x: i64) -> Option<int>
    decreases s.len(),
{
    if s.len() == 0 {
        None
    } else if s[0] == x {
        Some(0)
    } else {
        match first_index(s.drop_first(), x) {
            Some(i) => Some(i + 1),
            None => None,
        }
    }
}

/// For each requested id in order, the position of its first resolved
/// entry; ids that did not resolve are skipped.
pub open spec fn request_order(ids: Seq<i64>, resolved: Seq<i64>) -> Seq<int>
    decreases ids.len(),
{
    if ids.len() == 0 {
        Seq::empty()
    } else {
        let rest = request_order(ids.drop_last(), resolved);
        match first_index(resolved, ids.last()) {
            Some(i) => rest.push(i),
            None => rest,
        }
    }
}

proof fn lemma_first_index_bounds(s: Seq<i64>, x: i64)
    ensures
        first_index(s, x) matches Some(i) ==> 0 <= i < s.len() && s[i] == x,
        first_index(s, x) is None ==> forall|k: int| 0 <= k < s.len() ==> s[k] != x,
    decreases s.len(),
{
    if s.len() > 0 && s[0] != x {
        lemma_first_index_bounds(s.drop_first(), x);
        if first_index(s, x) is None {
            assert forall|k: int| 0 <= k < s.len() implies s[k] != x by {
                if k > 0 {
                    assert(s.drop_first()[k - 1] == s[k]);
                }
            }
        }
    }
}

fn find_first(s: &Vec<i64>, x: i64) -> (r: Option<usize>)
    ensures
        match r {
            Some(i) => first_index(s@, x) == Some(i as int),
            None => first_index(s@, x) is None,
        },
{
    let mut i: usize = 0;
    proof {
        assert(s@.skip(0) =~= s@);
    }
    while i < s.len()
        invariant
            i <= s.len(),
            first_index(s@, x) == (match first_index(s@.skip(i as int), x) {
                Some(j) => Some(j + i),
                None => None::<int>,
            }),
        decreases s.len() - i,
    {
        proof {
            assert(s@.skip(i as int).drop_first() =~= s@.skip(i + 1));
        }
        if s[i] == x {
            proof {
                assert(s@.skip(i as int)[0] == x);
            }
            return Some(i);
        }
        i += 1;
    }
    proof {
        assert(s@.skip(i as int).len() == 0);
    }
    None
}

/// The positions in `resolved_ids` of the requested ids, in request order:
/// the first entry resolved for each id; unresolved ids are dropped.
pub fn order_by_request(ids: &Vec<i64>, resolved_ids: &Vec<i64>) -> (r: Vec<usize>)
    ensures
        r@.len() == request_order(ids@, resolved_ids@).len(),
        forall|k: int| 0 <= k < r@.len() ==> r@[k] as int == #[trigger] request_order(
            ids@,
            resolved_ids@,
        )[k],
        forall|k: int| 0 <= k < r@.len() ==> r@[k] < resolved_ids@.len(),
{
    let mut r: Vec<usize> = Vec::new();
    let mut i: usize = 0;
    while i < ids.len()
        invariant
            i <= ids.len(),
            r@.len() == request_order(ids@.take(i as int), resolved_ids@).len(),
            forall|k: int| 0 <= k < r@.len() ==> r@[k] as int == #[trigger] request_order(
                ids@.take(i as int),
                resolved_ids@,
            )[k],
            forall|k: int| 0 <= k < r@.len() ==> r@[k] < resolved_ids@.len(),
        decreases ids.len() - i,
    {
        proof {
            assert(ids@.take(i + 1).drop_last() =~= ids@.take(i as int));
            lemma_first_index_bounds(resolved_ids@, ids@[i as int]);
        }
        match find_first(resolved_ids, ids[i]) {
            Some(j) => {
                r.push(j);
            },
            None => {},
        }
        i += 1;
    }
    proof {
        assert(ids@.take(ids.len() as int) =~= ids@);
    }
    r
}

/// The command that adds one resolved track to the playlist: it starts
/// playback only when it is the first track added and the playlist was
/// empty; otherwise it is appended.
pub fn queue_command<T>(track: T, appended_before: usize, list_was_empty: bool) -> (r:
    PlayerCommand<T>)
    ensures
        (appended_before == 0 && list_was_empty) ==> r == PlayerCommand::Play(track),
        !(appended_before == 0 && list_was_empty) ==> r == PlayerCommand::Enqueue(track),
{
    if appended_before == 0 && list_was_empty {
        PlayerCommand::Play(track)
    } else {
        PlayerCommand::Enqueue(track)
    }
}

/// The one command that plays the first of `tracks` and queues the rest
/// behind it, or `None` when there are none.
pub fn play_and_enqueue_command<T>(tracks: Vec<T>) -> (r: Option<PlayerCommand<T>>)
    ensures
        tracks@.len() == 0 <==> r is None,
        tracks@.len() > 0 ==> (r matches Some(PlayerCommand::PlayAndEnqueue { first, rest })
            && first == tracks@[0] && rest@ == tracks@.drop_first()),
{
    let mut tracks = tracks;
    if tracks.len() == 0 {
        return None;
    }
    let first = tracks.remove(0);
    Some(PlayerCommand::PlayAndEnqueue { first, rest: tracks })
}

/// Checks a playlist position before a command that needs one: `Ok` when
/// `index` is inside a playlist of `len` tracks, else an `Internal` error
/// whose text is `{what} index out of range`.
pub fn check_position(what: &str, index: usize, len: usize) -> (r: Result<(), AppError>)
    ensures
        index < len <==> r is Ok,
        r matches Err(AppError::Internal(m)) ==> m@ == what@ + " index out of range"@,
        r matches Err(e) ==> e is Internal,
{
    if index >= len {
        let mut m = chars_of(what);
        extend_chars(&mut m, &chars_of(" index out of range"));
        Err(AppError::Internal(string_from_chars(m)))
    } else {
        Ok(())
    }
}

/// Checks a move request: `Ok(false)` when nothing moves (`from == to`,
/// checked first), `Ok(true)` when both positions are inside the playlist,
/// else an `Internal` error.
pub fn check_move(from: usize, to: usize, len: usize) -> (r: Result<bool, AppError>)
    ensures
        from == to ==> r == Ok::<bool, AppError>(false),
        from != to && from < len && to < len ==> r == Ok::<bool, AppError>(true),
        from != to && (from >= len || to >= len) ==> (r matches Err(AppError::Internal(m)) && m@
            == "move index out of range"@),
{
    if from == to {
        return Ok(false);
    }
    if from >= len || to >= len {
        return Err(internal("move index out of range"));
    }
    Ok(true)
}

// ---------------------------------------------------------------------------
// Editable tags and lyrics.
// ---------------------------------------------------------------------------

/// Editable tags for a single track.
#[derive(Debug, Clone, PartialEq, Eq)]
pub struct EditableTrackFields {
    pub title: Option<String>,
    pub genre: Option<String>,
    pub year: Option<i32>,
    pub track_no: Option<i32>,
    pub disc_no: Option<i32>,
}

/// Why a single-row query gave no row.
pub enum RowError {
    /// The query matched no row.
    NoRows,
    /// The store failed; its message.
    Store(String),
}

/// The message for a track id with no row.
pub open spec fn no_track_text(track_id: i64) -> Seq<char> {
    "no track with id "@ + signed_decimal(track_id as int)
}

/// The editable tags of `track_id` from the result of looking its row up:
/// no row is an `Internal` error naming the id, a store failure a `Sqlite`
/// error carrying its message.
pub fn editable_fields(track_id: i64, row: Result<EditableTrackFields, RowError>) -> (r: Result<
    EditableTrackFields,
    AppError,
>)
    ensures
        row matches Ok(f) ==> r == Ok::<EditableTrackFields, AppError>(f),
        row matches Err(RowError::NoRows) ==> r matches Err(AppError::Internal(m)) && m@
            == no_track_text(track_id),
        row matches Err(RowError::Store(s)) ==> r == Err::<EditableTrackFields, AppError>(
            AppError::Sqlite(s),
        ),
{
    match row {
        Ok(f) => Ok(f),
        Err(RowError::NoRows) => {
            let mut m = chars_of("no track with id ");
            push_signed(&mut m, track_id);
            Err(AppError::Internal(string_from_chars(m)))
        },
        Err(RowError::Store(s)) => Err(AppError::Sqlite(s)),
    }
}

/// The error for a track id with no row (`no track with id {id}`).
pub fn no_track(track_id: i64) -> (r: AppError)
    ensures
        r matches AppError::Internal(m) && m@ == no_track_text(track_id),
{
    let mut m = chars_of("no track with id ");
    push_signed(&mut m, track_id);
    AppError::Internal(string_from_chars(m))
}

/// The error for a watched-folder id with no row.
pub fn folder_not_found(folder_id: i64) -> (r: AppError)
    ensures
        r matches AppError::Internal(m) && m@ == "folder "@ + signed_decimal(folder_id as int)
            + " not found"@,
{
    let mut m = chars_of("folder ");
    push_signed(&mut m, folder_id);
    extend_chars(&mut m, &chars_of(" not found"));
    AppError::Internal(string_from_chars(m))
}

/// The result of deactivating watched folder `folder_id`, given how many
/// active rows the update changed: none means it was unknown or already
/// removed.
pub fn folder_removal(folder_id: i64, changed: usize) -> (r: Result<(), AppError>)
    ensures
        changed > 0 ==> r is Ok,
        changed == 0 ==> (r matches Err(AppError::Internal(m)) && m@ == "folder "@ + signed_decimal(
            folder_id as int,
        ) + " not found or already removed"@),
{
    if changed > 0 {
        return Ok(());
    }
    let mut m = chars_of("folder ");
    push_signed(&mut m, folder_id);
    extend_chars(&mut m, &chars_of(" not found or already removed"));
    Err(AppError::Internal(string_from_chars(m)))
}

proof fn lemma_decimal_parses(n: nat)
    ensures
        crate::fmt::decimal(n).len() > 0,
        crate::text::all_ascii_digits(crate::fmt::decimal(n)),
        crate::text::digits_value(crate::fmt::decimal(n)) == n,
    decreases n,
{
    let d = crate::fmt::decimal(n);
    let c = crate::fmt::digit_char(n % 10);
    assert(crate::text::is_ascii_digit(c) && crate::text::digit_value(c) == n % 10);
    if n >= 10 {
        lemma_decimal_parses(n / 10);
        let p = crate::fmt::decimal(n / 10);
        assert(d == p.push(c));
        assert(d.drop_last() =~= p);
        assert forall|i: int| 0 <= i < d.len() implies crate::text::is_ascii_digit(#[trigger] d[i]) by {
            if i < p.len() {
                assert(d[i] == p[i]);
            }
        }
        assert(d.last() == c);
        assert(crate::text::digits_value(d) == (crate::text::digits_value(d.drop_last()) * 10
            + crate::text::digit_value(d.last())) as nat);
        assert(crate::text::digits_value(d.drop_last()) == n / 10);
        assert((n / 10) * 10 + n % 10 == n) by (nonlinear_arith);
        assert(crate::text::digits_value(d) == (n / 10) * 10 + n % 10);
    } else {
        assert(d == seq![c]);
        assert(d.drop_last() =~= Seq::<char>::empty());
        assert(crate::text::digits_value(d.drop_last()) == 0);
        assert(d.last() == c);
        assert(crate::text::digits_value(d) == (crate::text::digits_value(d.drop_last()) * 10
            + crate::text::digit_value(d.last())) as nat);
        assert(n % 10 == n);
    }
}

/// Reading back a cover path built from an album id gives that id: for
/// every `i64`, `/cover/{id}` names `id`.
pub proof fn law_cover_path_round_trip(id: i64)
    ensures
        cover_id_spec(cover_prefix() + signed_decimal(id as int)) == Some(id),
{
    reveal_strlit("/cover/");
    let text = signed_decimal(id as int);
    let path = cover_prefix() + text;
    assert(path.take(7) =~= cover_prefix());
    assert(path.skip(7) =~= text);
    if id < 0 {
        let body = crate::fmt::decimal((-id) as nat);
        lemma_decimal_parses((-id) as nat);
        assert(text == seq!['-'] + body);
        assert(text.drop_first() =~= body);
    } else {
        let body = crate::fmt::decimal(id as nat);
        lemma_decimal_parses(id as nat);
        assert(body[0] != '+') by {
            assert(crate::text::is_ascii_digit(body[0]));
        }
        assert(body[0] != '-') by {
            assert(crate::text::is_ascii_digit(body[0]));
        }
    }
}

/// The statement resolving `n` track ids to their path and ReplayGain.
pub open spec fn resolve_sql(n: nat) -> Seq<char> {
    "SELECT id, path, COALESCE(replaygain_album_db, replaygain_track_db) FROM track WHERE id IN ("@
        + crate::fmt::repeat_join("?"@, ", "@, n) + ")"@
}

/// The statement resolving `n` track ids to their path and ReplayGain.
pub fn resolve_query(n: usize) -> (r: String)
    ensures
        r@ == resolve_sql(n as nat),
{
    let mut sql = chars_of(
        "SELECT id, path, COALESCE(replaygain_album_db, replaygain_track_db) FROM track WHERE id IN (",
    );
    let marks = crate::fmt::repeat_joined(&chars_of("?"), &chars_of(", "), n);
    extend_chars(&mut sql, &marks);
    extend_chars(&mut sql, &chars_of(")"));
    string_from_chars(sql)
}

} // verus!
