//! Track tag edits: a patch names the columns to touch, and the update
//! statement that applies it is built here.
//!
//! In a patch, an outer `None` means "leave the column unchanged",
//! `Some(Some(v))` writes `v` and `Some(None)` clears the column. Numeric
//! values are written verbatim (callers validate).

use vstd::prelude::*;
use crate::fmt::{join_chars, join_with, views};
use crate::text::{chars_of, extend_chars, string_from_chars};

verus! {

/// Editable subset of a track row. Outer `Option` = "should we touch this
/// field?"; inner `Option` = "value or clear?".
#[derive(Debug, Clone, PartialEq, Eq)]
pub struct TrackPatch {
    pub title: Option<Option<String>>,
    pub genre: Option<Option<String>>,
    pub year: Option<Option<i32>>,
    pub track_no: Option<Option<i32>>,
    pub disc_no: Option<Option<i32>>,
}

impl Default for TrackPatch {
    fn default() -> (r: Self)
        ensures
            r.title is None,
            r.genre is None,
            r.year is None,
            r.track_no is None,
            r.disc_no is None,
    {
        TrackPatch { title: None, genre: None, year: None, track_no: None, disc_no: None }
    }
}

/// A value bound to a `?` placeholder of a statement.
#[derive(Debug, Clone, PartialEq, Eq)]
pub enum SqlValue {
    /// A text column value; `None` binds SQL `NULL`.
    Text(Option<String>),
    /// An integer column value; `None` binds SQL `NULL`.
    Int(Option<i64>),
}

/// What a bound value stands for.
pub enum SqlParam {
    Text(Option<Seq<char>>),
    Int(Option<int>),
}

pub open spec fn opt_text(o: Option<String>) -> Option<Seq<char>> {
    match o {
        Some(s) => Some(s@),
        None => None,
    }
}

pub open spec fn opt_int32(o: Option<i32>) -> Option<int> {
    match o {
        Some(i) => Some(i as int),
        None => None,
    }
}

pub open spec fn opt_int64(o: Option<i64>) -> Option<int> {
    match o {
        Some(i) => Some(i as int),
        None => None,
    }
}

impl View for SqlValue {
    type V = SqlParam;

    open spec fn view(&self) -> SqlParam {
        match self {
            SqlValue::Text(o) => SqlParam::Text(opt_text(*o)),
            SqlValue::Int(o) => SqlParam::Int(opt_int64(*o)),
        }
    }
}

pub open spec fn params_of(v: Seq<SqlValue>) -> Seq<SqlParam> {
    v.map_values(|x: SqlValue| x@)
}

/// One `SET` assignment, as its text and the value it binds.
pub open spec fn text_part(col: Seq<char>, field: Option<Option<String>>) -> Seq<(Seq<char>, SqlParam)> {
    match field {
        Some(v) => seq![(col, SqlParam::Text(opt_text(v)))],
        None => Seq::empty(),
    }
}

pub open spec fn int_part(col: Seq<char>, field: Option<Option<i32>>) -> Seq<(Seq<char>, SqlParam)> {
    match field {
        Some(v) => seq![(col, SqlParam::Int(opt_int32(v)))],
        None => Seq::empty(),
    }
}

/// The assignments a patch makes, in column order: title, genre, year,
/// track number, disc number.
pub open spec fn update_parts(p: TrackPatch) -> Seq<(Seq<char>, SqlParam)> {
    text_part("title = ?"@, p.title) + text_part("genre = ?"@, p.genre) + int_part(
        "year = ?"@,
        p.year,
    ) + int_part("track_no = ?"@, p.track_no) + int_part("disc_no = ?"@, p.disc_no)
}

pub open spec fn part_texts(parts: Seq<(Seq<char>, SqlParam)>) -> Seq<Seq<char>> {
    parts.map_values(|x: (Seq<char>, SqlParam)| x.0)
}

pub open spec fn part_params(parts: Seq<(Seq<char>, SqlParam)>) -> Seq<SqlParam> {
    parts.map_values(|x: (Seq<char>, SqlParam)| x.1)
}

/// A patch that touches no column.
pub open spec fn is_empty_patch(p: TrackPatch) -> bool {
    update_parts(p).len() == 0
}

/// The `UPDATE` statement for a patch's assignments.
pub open spec fn update_sql(parts: Seq<(Seq<char>, SqlParam)>) -> Seq<char> {
    "UPDATE track SET "@ + join_with(part_texts(parts), ", "@) + " WHERE id = ?"@
}

fn clone_text(o: &Option<String>) -> (r: Option<String>)
    ensures
        r == *o,
{
    match o {
        Some(s) => Some(s.clone()),
        None => None,
    }
}

fn widen(o: Option<i32>) -> (r: Option<i64>)
    ensures
        opt_int64(r) == opt_int32(o),
{
    match o {
        Some(i) => Some(i as i64),
        None => None,
    }
}

fn push_text(
    sets: &mut Vec<Vec<char>>,
    binds: &mut Vec<SqlValue>,
    col: &str,
    field: &Option<Option<String>>,
    Ghost(parts): Ghost<Seq<(Seq<char>, SqlParam)>>,
) -> (r: Ghost<Seq<(Seq<char>, SqlParam)>>)
    requires
        views(old(sets)@) == part_texts(parts),
        params_of(old(binds)@) == part_params(parts),
    ensures
        r@ == parts + text_part(col@, *field),
        views(final(sets)@) == part_texts(r@),
        params_of(final(binds)@) == part_params(r@),
{
    match field {
        Some(v) => {
            sets.push(chars_of(col));
            binds.push(SqlValue::Text(clone_text(v)));
            let ghost np = parts + text_part(col@, *field);
            proof {
                let e = text_part(col@, *field)[0];
                assert(np =~= parts.push(e));
                assert(part_texts(np) =~= part_texts(parts).push(e.0));
                assert(part_params(np) =~= part_params(parts).push(e.1));
                assert(views(sets@) =~= views(old(sets)@).push(col@));
                assert(params_of(binds@) =~= params_of(old(binds)@).push(binds@.last()@));
            }
            Ghost(np)
        },
        None => {
            proof {
                assert(parts + text_part(col@, *field) =~= parts);
            }
            Ghost(parts + text_part(col@, *field))
        },
    }
}

fn push_int(
    sets: &mut Vec<Vec<char>>,
    binds: &mut Vec<SqlValue>,
    col: &str,
    field: Option<Option<i32>>,
    Ghost(parts): Ghost<Seq<(Seq<char>, SqlParam)>>,
) -> (r: Ghost<Seq<(Seq<char>, SqlParam)>>)
    requires
        views(old(sets)@) == part_texts(parts),
        params_of(old(binds)@) == part_params(parts),
    ensures
        r@ == parts + int_part(col@, field),
        views(final(sets)@) == part_texts(r@),
        params_of(final(binds)@) == part_params(r@),
{
    match field {
        Some(v) => {
            sets.push(chars_of(col));
            binds.push(SqlValue::Int(widen(v)));
            let ghost np = parts + int_part(col@, field);
            proof {
                let e = int_part(col@, field)[0];
                assert(np =~= parts.push(e));
                assert(part_texts(np) =~= part_texts(parts).push(e.0));
                assert(part_params(np) =~= part_params(parts).push(e.1));
                assert(views(sets@) =~= views(old(sets)@).push(col@));
                assert(params_of(binds@) =~= params_of(old(binds)@).push(binds@.last()@));
            }
            Ghost(np)
        },
        None => {
            proof {
                assert(parts + int_part(col@, field) =~= parts);
            }
            Ghost(parts + int_part(col@, field))
        },
    }
}

/// The statement and bound values that apply `patch` to track `track_id`,
/// or `None` when the patch touches no column (then nothing is written).
///
/// The statement assigns the touched columns in the order title, genre,
/// year, track number, disc number; the values follow in the same order,
/// then the track id.
pub fn update_statement(patch: &TrackPatch, track_id: i64) -> (r: Option<(String, Vec<SqlValue>)>)
    ensures
        r is None <==> is_empty_patch(*patch),
        r matches Some(p) ==> {
            &&& p.0@ == update_sql(update_parts(*patch))
            &&& params_of(p.1@) == part_params(update_parts(*patch)).push(
                SqlParam::Int(Some(track_id as int)),
            )
        },
{
    let mut sets: Vec<Vec<char>> = Vec::new();
    let mut binds: Vec<SqlValue> = Vec::new();
    let ghost parts: Seq<(Seq<char>, SqlParam)> = Seq::empty();
    proof {
        assert(views(sets@) =~= part_texts(parts));
        assert(params_of(binds@) =~= part_params(parts));
    }
    let Ghost(parts) = push_text(&mut sets, &mut binds, "title = ?", &patch.title, Ghost(parts));
    let Ghost(parts) = push_text(&mut sets, &mut binds, "genre = ?", &patch.genre, Ghost(parts));
    let Ghost(parts) = push_int(&mut sets, &mut binds, "year = ?", patch.year, Ghost(parts));
    let Ghost(parts) = push_int(&mut sets, &mut binds, "track_no = ?", patch.track_no, Ghost(parts));
    let Ghost(parts) = push_int(&mut sets, &mut binds, "disc_no = ?", patch.disc_no, Ghost(parts));
    proof {
        assert(parts =~= update_parts(*patch));
    }
    if sets.len() == 0 {
        proof {
            assert(part_texts(parts).len() == 0);
        }
        return None;
    }
    let mut sql = chars_of("UPDATE track SET ");
    let joined = join_chars(&sets, &chars_of(", "));
    extend_chars(&mut sql, &joined);
    extend_chars(&mut sql, &chars_of(" WHERE id = ?"));
    let ghost before = params_of(binds@);
    binds.push(SqlValue::Int(Some(track_id)));
    proof {
        assert(params_of(binds@) =~= before.push(SqlParam::Int(Some(track_id as int))));
    }
    Some((string_from_chars(sql), binds))
}

/// The patch that clears one named field (`title`, `genre`, `year`,
/// `track_no` or `disc_no`) and touches nothing else; an unknown name gives
/// the empty patch.
pub fn build_clear_patch(field: &str) -> (r: TrackPatch)
    ensures
        r.title == (if field@ == "title"@ {
            Some(None::<String>)
        } else {
            None
        }),
        r.genre == (if field@ == "genre"@ {
            Some(None::<String>)
        } else {
            None
        }),
        r.year == (if field@ == "year"@ {
            Some(None::<i32>)
        } else {
            None
        }),
        r.track_no == (if field@ == "track_no"@ {
            Some(None::<i32>)
        } else {
            None
        }),
        r.disc_no == (if field@ == "disc_no"@ {
            Some(None::<i32>)
        } else {
            None
        }),
{
    let f = chars_of(field);
    let mut p = TrackPatch::default();
    if crate::text::eq_str(&f, "title") {
        p.title = Some(None);
    }
    if crate::text::eq_str(&f, "genre") {
        p.genre = Some(None);
    }
    if crate::text::eq_str(&f, "year") {
        p.year = Some(None);
    }
    if crate::text::eq_str(&f, "track_no") {
        p.track_no = Some(None);
    }
    if crate::text::eq_str(&f, "disc_no") {
        p.disc_no = Some(None);
    }
    p
}

/// Patch input as the front-end sends it: new values, plus the names of
/// fields to clear (`title`, `genre`, `year`, `track_no`, `disc_no`).
#[derive(Debug, Clone)]
pub struct TrackPatchInput {
    pub title: Option<String>,
    pub genre: Option<String>,
    pub year: Option<i32>,
    pub track_no: Option<i32>,
    pub disc_no: Option<i32>,
    /// Field names to clear (set to NULL). Use this to unset a column
    /// rather than replace it.
    pub clear: Vec<String>,
}

pub open spec fn names_field(clear: Seq<String>, name: Seq<char>) -> bool {
    exists|i: int| 0 <= i < clear.len() && (#[trigger] clear[i])@ == name
}

/// How one field of the input lands in the patch: a given value wins;
/// otherwise a listed clear clears it; otherwise it is left alone.
pub open spec fn merged_field<T>(value: Option<T>, cleared: bool) -> Option<Option<T>> {
    if value is Some {
        Some(value)
    } else if cleared {
        Some(None)
    } else {
        None
    }
}

fn lists_field(clear: &Vec<String>, name: &str) -> (r: bool)
    ensures
        r == names_field(clear@, name@),
{
    let want = chars_of(name);
    let mut i: usize = 0;
    while i < clear.len()
        invariant
            i <= clear.len(),
            want@ == name@,
            forall|k: int| 0 <= k < i ==> (#[trigger] clear@[k])@ != name@,
        decreases clear.len() - i,
    {
        let c = chars_of(clear[i].as_str());
        if crate::text::vec_eq(&c, &want) {
            return true;
        }
        i += 1;
    }
    false
}

/// Turns the front-end's input into a patch: each given value is written,
/// each field named in `clear` (and given no value) is cleared, and the rest
/// are left unchanged. Unknown names in `clear` are ignored.
pub fn patch_from_input(input: TrackPatchInput) -> (r: TrackPatch)
    ensures
        r.title == merged_field(input.title, names_field(input.clear@, "title"@)),
        r.genre == merged_field(input.genre, names_field(input.clear@, "genre"@)),
        r.year == merged_field(input.year, names_field(input.clear@, "year"@)),
        r.track_no == merged_field(input.track_no, names_field(input.clear@, "track_no"@)),
        r.disc_no == merged_field(input.disc_no, names_field(input.clear@, "disc_no"@)),
{
    let clear_title = lists_field(&input.clear, "title");
    let clear_genre = lists_field(&input.clear, "genre");
    let clear_year = lists_field(&input.clear, "year");
    let clear_track = lists_field(&input.clear, "track_no");
    let clear_disc = lists_field(&input.clear, "disc_no");
    let title = if input.title.is_some() {
        Some(input.title)
    } else if clear_title {
        Some(None)
    } else {
        None
    };
    let genre = if input.genre.is_some() {
        Some(input.genre)
    } else if clear_genre {
        Some(None)
    } else {
        None
    };
    let year = if input.year.is_some() {
        Some(input.year)
    } else if clear_year {
        Some(None)
    } else {
        None
    };
    let track_no = if input.track_no.is_some() {
        Some(input.track_no)
    } else if clear_track {
        Some(None)
    } else {
        None
    };
    let disc_no = if input.disc_no.is_some() {
        Some(input.disc_no)
    } else if clear_disc {
        Some(None)
    } else {
        None
    };
    TrackPatch { title, genre, year, track_no, disc_no }
}

/// Why a track could not be updated.
#[derive(Debug, Clone, PartialEq, Eq)]
pub enum UpdateError {
    /// The store failed; its message.
    Sqlite(String),
    /// No track has this id.
    NotFound(i64),
}

impl UpdateError {
    /// The human-readable text of the error.
    pub fn message(&self) -> (r: String)
        ensures
            match self {
                UpdateError::Sqlite(m) => r@ == "sqlite: "@ + m@,
                UpdateError::NotFound(id) => r@ == "track "@ + crate::fmt::signed_decimal(*id as int)
                    + " not found"@,
            },
    {
        match self {
            UpdateError::Sqlite(m) => {
                let mut v = chars_of("sqlite: ");
                extend_chars(&mut v, &chars_of(m.as_str()));
                string_from_chars(v)
            },
            UpdateError::NotFound(id) => {
                let mut v = chars_of("track ");
                crate::fmt::push_signed(&mut v, *id);
                extend_chars(&mut v, &chars_of(" not found"));
                string_from_chars(v)
            },
        }
    }
}

/// What applying `patch` to track `track_id` does, given whether the track
/// exists: an unknown id is `NotFound`; otherwise the statement to run, or
/// `None` when the patch touches nothing (the store is left alone).
pub fn update_outcome(track_id: i64, exists: bool, patch: &TrackPatch) -> (r: Result<
    Option<(String, Vec<SqlValue>)>,
    UpdateError,
>)
    ensures
        !exists ==> r == Err::<Option<(String, Vec<SqlValue>)>, UpdateError>(
            UpdateError::NotFound(track_id),
        ),
        exists ==> (r matches Ok(o) && (o is None <==> is_empty_patch(*patch)) && (o matches Some(
            p,
        ) ==> p.0@ == update_sql(update_parts(*patch)) && params_of(p.1@) == part_params(
            update_parts(*patch),
        ).push(SqlParam::Int(Some(track_id as int))))),
{
    if !exists {
        return Err(UpdateError::NotFound(track_id));
    }
    Ok(update_statement(patch, track_id))
}

} // verus!
