//! Unix path text: the file name and extension of a `/`-separated path, as
//! `std::path::Path` computes them.

use vstd::prelude::*;
use crate::heuristic::{has_dot, last_dot};
use crate::text::{split_char, split_spec, views_match};

verus! {

/// A piece that is a component at all (not empty and not `.`).
pub open spec fn is_component(piece: Seq<char>) -> bool {
    piece.len() > 0 && piece != seq!['.']
}

pub open spec fn component_pred() -> spec_fn(Seq<char>) -> bool {
    |c: Seq<char>| is_component(c)
}

/// The file name of a path (`Path::file_name`): its last component, unless
/// that is `..` or there is none.
pub open spec fn file_name_spec(p: Seq<char>) -> Option<Seq<char>> {
    let comps = split_spec(p, '/').filter(component_pred());
    if comps.len() == 0 || comps.last() == seq!['.', '.'] {
        None
    } else {
        Some(comps.last())
    }
}

/// The extension of a file name (`Path::extension`): the text after the last
/// `.`, unless that `.` starts the name.
pub open spec fn extension_of(name: Seq<char>) -> Option<Seq<char>> {
    if has_dot(name) && last_dot(name) > 0 {
        Some(name.skip(last_dot(name) + 1))
    } else {
        None
    }
}

/// The extension of a path (`Path::extension`).
pub open spec fn path_extension(p: Seq<char>) -> Option<Seq<char>> {
    match file_name_spec(p) {
        Some(name) => extension_of(name),
        None => None,
    }
}

/// The file name of a path that ends in a plain name: the name itself.
pub proof fn lemma_file_name_of_last(prefix: Seq<char>, name: Seq<char>)
    requires
        prefix.len() == 0 || prefix.last() == '/',
        forall|i: int| 0 <= i < name.len() ==> name[i] != '/',
        name.len() > 0,
        name != seq!['.'],
        name != seq!['.', '.'],
    ensures
        file_name_spec(prefix + name) == Some(name),
{
    crate::text::lemma_split_last_piece(prefix, name, '/');
    let pieces = split_spec(prefix, '/').drop_last();
    pieces.lemma_filter_push(name, component_pred());
    assert(component_pred()(name));
}

/// The extension of a path that ends in `base.ext`, with `base` and `ext`
/// non-empty and `ext` free of `.` and `/`: `ext`.
pub proof fn lemma_extension_of_last(prefix: Seq<char>, base: Seq<char>, ext: Seq<char>)
    requires
        prefix.len() == 0 || prefix.last() == '/',
        base.len() > 0,
        ext.len() > 0,
        forall|i: int| 0 <= i < base.len() ==> base[i] != '/',
        forall|i: int| 0 <= i < ext.len() ==> ext[i] != '/' && ext[i] != '.',
    ensures
        path_extension(prefix + (base + seq!['.'] + ext)) == Some(ext),
{
    let name = base + seq!['.'] + ext;
    assert forall|i: int| 0 <= i < name.len() implies name[i] != '/' by {
        if i < base.len() {
            assert(name[i] == base[i]);
        } else if i > base.len() {
            assert(name[i] == ext[i - base.len() - 1]);
        }
    }
    assert(name.len() >= 3);
    lemma_file_name_of_last(prefix, name);
    crate::heuristic::lemma_last_dot_before_ext(base, ext);
}

/// The file name of `p` (see [`file_name_spec`]).
pub fn file_name(p: &Vec<char>) -> (r: Option<Vec<char>>)
    ensures
        match file_name_spec(p@) {
            Some(n) => r matches Some(v) && v@ == n,
            None => r is None,
        },
{
    let pieces = split_char(p, '/');
    let ghost all = split_spec(p@, '/');
    let mut last: Option<usize> = None;
    let mut i: usize = 0;
    while i < pieces.len()
        invariant
            i <= pieces.len(),
            views_match(pieces@, all),
            match last {
                Some(k) => k < i && all.take(i as int).filter(component_pred()).len() > 0
                    && all.take(i as int).filter(component_pred()).last() == all[k as int],
                None => all.take(i as int).filter(component_pred()).len() == 0,
            },
        decreases pieces.len() - i,
    {
        proof {
            reveal_with_fuel(Seq::<Seq<char>>::filter, 1);
            assert(all.take(i + 1).drop_last() == all.take(i as int));
            assert(all.take(i + 1).last() == all[i as int]);
            assert(component_pred()(all[i as int]) == is_component(all[i as int]));
        }
        let piece = &pieces[i];
        let keep = piece.len() > 0 && !(piece.len() == 1 && piece[0] == '.');
        proof {
            let pv = pieces@[i as int]@;
            if pv.len() == 1 && pv[0] == '.' {
                assert(pv =~= seq!['.']);
            }
            assert(keep == is_component(pv));
        }
        if keep {
            last = Some(i);
        }
        i += 1;
    }
    proof {
        assert(all.take(i as int) =~= all);
    }
    match last {
        None => None,
        Some(k) => {
            let piece = &pieces[k];
            let dotdot = piece.len() == 2 && piece[0] == '.' && piece[1] == '.';
            proof {
                let pv = pieces@[k as int]@;
                if pv.len() == 2 && pv[0] == '.' && pv[1] == '.' {
                    assert(pv =~= seq!['.', '.']);
                }
                assert(dotdot == (pv == seq!['.', '.']));
            }
            if dotdot {
                None
            } else {
                let copy = crate::text::slice_chars(piece, 0, piece.len());
                proof {
                    assert(copy@ =~= pieces@[k as int]@);
                }
                Some(copy)
            }
        },
    }
}

/// Where the extension of `name` starts (see [`extension_of`]).
pub fn extension_start(name: &Vec<char>) -> (r: Option<usize>)
    ensures
        match extension_of(name@) {
            Some(e) => r matches Some(k) && k <= name.len() && name@.skip(k as int) == e,
            None => r is None,
        },
{
    let mut j = name.len();
    while j > 0 && name[j - 1] != '.'
        invariant
            j <= name.len(),
            forall|k: int| j <= k < name.len() ==> name@[k] != '.',
        decreases j,
    {
        j -= 1;
    }
    if j == 0 {
        proof {
            assert(!has_dot(name@));
        }
        None
    } else {
        proof {
            assert(has_dot(name@));
            assert(last_dot(name@) == j - 1);
        }
        if j - 1 == 0 {
            None
        } else {
            Some(j)
        }
    }
}

/// The extension of the path `p`, if it has one.
pub fn path_extension_of(p: &Vec<char>) -> (r: Option<Vec<char>>)
    ensures
        match path_extension(p@) {
            Some(e) => r matches Some(v) && v@ == e,
            None => r is None,
        },
{
    match file_name(p) {
        None => None,
        Some(name) => match extension_start(&name) {
            None => None,
            Some(k) => {
                let e = crate::text::slice_chars(&name, k, name.len());
                proof {
                    assert(e@ =~= name@.skip(k as int));
                }
                Some(e)
            },
        },
    }
}

} // verus!
