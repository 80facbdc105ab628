//! Lexicographic order of character sequences (the order of `str`, since
//! UTF-8 preserves code point order) and a stable sort by such keys.

use vstd::prelude::*;

verus! {

/// `a` sorts strictly before `b`: at the first difference `a` has the
/// smaller character, or `a` is a proper prefix of `b`.
pub open spec fn lex_lt(a: Seq<char>, b: Seq<char>) -> bool
    decreases a.len(),
{
    if a.len() == 0 {
        b.len() > 0
    } else if b.len() == 0 {
        false
    } else if a[0] != b[0] {
        (a[0] as int) < (b[0] as int)
    } else {
        lex_lt(a.drop_first(), b.drop_first())
    }
}

/// `a` sorts no later than `b`.
pub open spec fn lex_le(a: Seq<char>, b: Seq<char>) -> bool {
    !lex_lt(b, a)
}

pub proof fn lemma_lex_irreflexive(a: Seq<char>)
    ensures
        !lex_lt(a, a),
    decreases a.len(),
{
    if a.len() > 0 {
        lemma_lex_irreflexive(a.drop_first());
    }
}

pub proof fn lemma_lex_transitive(a: Seq<char>, b: Seq<char>, c: Seq<char>)
    requires
        lex_lt(a, b),
        lex_lt(b, c),
    ensures
        lex_lt(a, c),
    decreases a.len(),
{
    if a.len() > 0 && b.len() > 0 && c.len() > 0 {
        if a[0] == b[0] && b[0] == c[0] {
            lemma_lex_transitive(a.drop_first(), b.drop_first(), c.drop_first());
        }
    }
}

pub proof fn lemma_lex_total(a: Seq<char>, b: Seq<char>)
    ensures
        lex_lt(a, b) || a == b || lex_lt(b, a),
    decreases a.len(),
{
    if a.len() > 0 && b.len() > 0 {
        if a[0] == b[0] {
            lemma_lex_total(a.drop_first(), b.drop_first());
            if a.drop_first() == b.drop_first() {
                assert(a =~= seq![a[0]] + a.drop_first());
                assert(b =~= seq![b[0]] + b.drop_first());
            }
        } else {
            assert((a[0] as int) != (b[0] as int));
        }
    } else if a.len() == 0 && b.len() == 0 {
        assert(a =~= b);
    }
}

/// Whether `a` sorts strictly before `b`.
pub fn chars_lt(a: &Vec<char>, b: &Vec<char>) -> (r: bool)
    ensures
        r == lex_lt(a@, b@),
{
    let mut i: usize = 0;
    proof {
        assert(a@.skip(0) =~= a@);
        assert(b@.skip(0) =~= b@);
    }
    while i < a.len() && i < b.len()
        invariant
            i <= a.len(),
            i <= b.len(),
            lex_lt(a@, b@) == lex_lt(a@.skip(i as int), b@.skip(i as int)),
        decreases a.len() - i,
    {
        proof {
            assert(a@.skip(i as int)[0] == a@[i as int]);
            assert(b@.skip(i as int)[0] == b@[i as int]);
            assert(a@.skip(i as int).drop_first() =~= a@.skip(i + 1));
            assert(b@.skip(i as int).drop_first() =~= b@.skip(i + 1));
        }
        if a[i] != b[i] {
            return a[i] < b[i];
        }
        i += 1;
    }
    proof {
        assert(a@.skip(i as int).len() == a@.len() - i);
    }
    i == a.len() && i < b.len()
}

/// The keys listed in `order` are sorted (no later key sorts before an
/// earlier one).
pub open spec fn sorted_by(keys: Seq<Seq<char>>, order: Seq<int>) -> bool {
    forall|i: int, j: int|
        0 <= i < j < order.len() ==> lex_le(#[trigger] keys[order[i]], #[trigger] keys[order[j]])
}

/// `order` lists every position of a sequence of length `n` exactly once.
pub open spec fn is_permutation(order: Seq<int>, n: nat) -> bool {
    &&& order.len() == n
    &&& forall|i: int| 0 <= i < order.len() ==> 0 <= #[trigger] order[i] < n
    &&& forall|i: int, j: int| 0 <= i < j < order.len() ==> #[trigger] order[i] != #[trigger] order[j]
}

/// Keys that sort equal keep their original relative order.
pub open spec fn stable(keys: Seq<Seq<char>>, order: Seq<int>) -> bool {
    forall|i: int, j: int|
        0 <= i < j < order.len() && keys[order[i]] == keys[order[j]] ==> #[trigger] order[i]
            < #[trigger] order[j]
}

pub open spec fn as_ints(v: Seq<usize>) -> Seq<int> {
    v.map_values(|x: usize| x as int)
}

/// A stable sorting permutation of `keys`: position `i` of the sorted
/// sequence holds the element at position `r[i]`.
pub fn sort_order(keys: &Vec<Vec<char>>) -> (r: Vec<usize>)
    ensures
        is_permutation(as_ints(r@), keys@.len()),
        sorted_by(crate::fmt::views(keys@), as_ints(r@)),
        stable(crate::fmt::views(keys@), as_ints(r@)),
{
    let ghost ks = crate::fmt::views(keys@);
    let mut order: Vec<usize> = Vec::new();
    let mut k: usize = 0;
    while k < keys.len()
        invariant
            k <= keys.len(),
            ks == crate::fmt::views(keys@),
            ks.len() == keys@.len(),
            as_ints(order@).len() == k,
            forall|i: int| 0 <= i < order@.len() ==> 0 <= #[trigger] order@[i] < k,
            forall|i: int, j: int|
                0 <= i < j < order@.len() ==> #[trigger] order@[i] != #[trigger] order@[j],
            sorted_by(ks, as_ints(order@)),
            stable(ks, as_ints(order@)),
        decreases keys.len() - k,
    {
        // First position whose key sorts strictly after key `k`.
        let mut j: usize = 0;
        while j < order.len() && !chars_lt(&keys[k], &keys[order[j]])
            invariant
                j <= order@.len(),
                k < keys.len(),
                ks == crate::fmt::views(keys@),
                ks.len() == keys@.len(),
                forall|i: int| 0 <= i < order@.len() ==> 0 <= #[trigger] order@[i] < k,
                forall|i: int| 0 <= i < j ==> !lex_lt(ks[k as int], ks[#[trigger] order@[i] as int]),
            decreases order@.len() - j,
        {
            j += 1;
        }
        let ghost before = order@;
        order.insert(j, k);
        proof {
            assert(order@ =~= before.subrange(0, j as int).push(k).add(before.subrange(
                j as int,
                before.len() as int,
            )));
            assert forall|i: int| 0 <= i < order@.len() implies 0 <= #[trigger] order@[i] < k + 1 by {
                if i < j {
                    assert(order@[i] == before[i]);
                } else if i > j {
                    assert(order@[i] == before[i - 1]);
                }
            }
            assert forall|a: int, b: int| 0 <= a < b < order@.len() implies #[trigger] order@[a]
                != #[trigger] order@[b] by {
                if a < j && b < j {
                    assert(order@[a] == before[a] && order@[b] == before[b]);
                } else if a < j && b == j {
                } else if a < j {
                    assert(order@[a] == before[a] && order@[b] == before[b - 1]);
                } else if a == j {
                    assert(order@[b] == before[b - 1]);
                } else {
                    assert(order@[a] == before[a - 1] && order@[b] == before[b - 1]);
                }
            }
            assert forall|a: int, b: int| 0 <= a < b < as_ints(order@).len() implies lex_le(
                #[trigger] ks[as_ints(order@)[a]],
                #[trigger] ks[as_ints(order@)[b]],
            ) by {
                let oa = as_ints(order@)[a];
                let ob = as_ints(order@)[b];
                if a < j && b < j {
                    assert(oa == before[a] && ob == before[b]);
                    assert(lex_le(ks[as_ints(before)[a]], ks[as_ints(before)[b]]));
                } else if a < j && b == j {
                    assert(oa == before[a]);
                } else if a < j {
                    assert(oa == before[a] && ob == before[b - 1]);
                    assert(lex_le(ks[as_ints(before)[a]], ks[as_ints(before)[b - 1]]));
                } else if a == j {
                    assert(ob == before[b - 1]);
                    if j < before.len() {
                        assert(lex_lt(ks[k as int], ks[before[j as int] as int]));
                        if b - 1 > j {
                            assert(lex_le(ks[as_ints(before)[j as int]], ks[as_ints(before)[b - 1]]));
                        }
                        if lex_lt(ks[ob], ks[k as int]) {
                            lemma_lex_transitive(ks[ob], ks[k as int], ks[before[j as int] as int]);
                            if b - 1 == j {
                                lemma_lex_irreflexive(ks[ob]);
                            }
                        }
                    }
                } else {
                    assert(oa == before[a - 1] && ob == before[b - 1]);
                    assert(lex_le(ks[as_ints(before)[a - 1]], ks[as_ints(before)[b - 1]]));
                }
            }
            assert forall|a: int, b: int|
                0 <= a < b < as_ints(order@).len() && ks[as_ints(order@)[a]] == ks[as_ints(
                    order@,
                )[b]] implies #[trigger] as_ints(order@)[a] < #[trigger] as_ints(order@)[b] by {
                let oa = as_ints(order@)[a];
                let ob = as_ints(order@)[b];
                if a < j && b < j {
                    assert(oa == before[a] && ob == before[b]);
                    assert(as_ints(before)[a] < as_ints(before)[b]);
                } else if a < j && b == j {
                    assert(oa == before[a]);
                } else if a < j {
                    assert(oa == before[a] && ob == before[b - 1]);
                    assert(as_ints(before)[a] < as_ints(before)[b - 1]);
                } else if a == j {
                    assert(ob == before[b - 1]);
                    assert(lex_lt(ks[k as int], ks[before[j as int] as int]));
                    if b - 1 > j {
                        assert(lex_le(ks[as_ints(before)[j as int]], ks[as_ints(before)[b - 1]]));
                        lemma_lex_total(ks[before[j as int] as int], ks[ob]);
                        if lex_lt(ks[before[j as int] as int], ks[ob]) {
                            lemma_lex_transitive(ks[k as int], ks[before[j as int] as int], ks[ob]);
                        }
                    }
                    lemma_lex_irreflexive(ks[k as int]);
                } else {
                    assert(oa == before[a - 1] && ob == before[b - 1]);
                    assert(as_ints(before)[a - 1] < as_ints(before)[b - 1]);
                }
            }
        }
        k += 1;
    }
    order
}

} // verus!
