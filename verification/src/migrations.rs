//! Which schema migrations a store still needs.
//!
//! Migrations are listed oldest first, each with a version. A run applies,
//! in list order, every migration whose version is above the highest one
//! applied so far, and records that version.

use vstd::prelude::*;

verus! {

/// The versions a run applies, in order, starting from `current`.
pub open spec fn pending(versions: Seq<i64>, current: i64) -> Seq<i64>
    decreases versions.len(),
{
    if versions.len() == 0 {
        Seq::empty()
    } else if versions[0] <= current {
        pending(versions.drop_first(), current)
    } else {
        seq![versions[0]] + pending(versions.drop_first(), versions[0])
    }
}

/// The version recorded after a run from `current`.
pub open spec fn version_after(versions: Seq<i64>, current: i64) -> i64
    decreases versions.len(),
{
    if versions.len() == 0 {
        current
    } else if versions[0] <= current {
        version_after(versions.drop_first(), current)
    } else {
        version_after(versions.drop_first(), versions[0])
    }
}

/// The migrations a run applies (their positions in `versions`, in order)
/// and the version it leaves recorded.
pub fn migration_plan(versions: &Vec<i64>, current: i64) -> (r: (Vec<usize>, i64))
    ensures
        r.0@.len() == pending(versions@, current).len(),
        forall|k: int| 0 <= k < r.0@.len() ==> (#[trigger] r.0@[k]) < versions@.len() && versions@[r.0@[k] as int]
            == pending(versions@, current)[k],
        r.1 == version_after(versions@, current),
{
    let mut applied = current;
    let mut out: Vec<usize> = Vec::new();
    let mut i: usize = 0;
    proof {
        assert(versions@.skip(0) =~= versions@);
    }
    while i < versions.len()
        invariant
            i <= versions.len(),
            out@.len() + pending(versions@.skip(i as int), applied).len() == pending(
                versions@,
                current,
            ).len(),
            forall|k: int| 0 <= k < out@.len() ==> (#[trigger] out@[k]) < versions@.len() && versions@[out@[k] as int]
                == pending(versions@, current)[k],
            forall|k: int|
                0 <= k < pending(versions@.skip(i as int), applied).len() ==> #[trigger] pending(
                    versions@.skip(i as int),
                    applied,
                )[k] == pending(versions@, current)[out@.len() + k],
            version_after(versions@.skip(i as int), applied) == version_after(versions@, current),
        decreases versions.len() - i,
    {
        let ghost rest = versions@.skip(i as int);
        proof {
            assert(rest.drop_first() =~= versions@.skip(i + 1));
            assert(rest[0] == versions@[i as int]);
        }
        if versions[i] > applied {
            proof {
                assert(pending(rest, applied) == seq![versions@[i as int]] + pending(
                    versions@.skip(i + 1),
                    versions@[i as int],
                ));
                assert(pending(rest, applied)[0] == versions@[i as int]);
            }
            let ghost before = out@;
            let ghost old_applied = applied;
            out.push(i);
            applied = versions[i];
            proof {
                assert forall|k: int|
                    0 <= k < pending(versions@.skip(i + 1), applied).len() implies #[trigger] pending(
                    versions@.skip(i + 1),
                    applied,
                )[k] == pending(versions@, current)[out@.len() + k] by {
                    assert(pending(rest, old_applied)[k + 1] == pending(versions@.skip(i + 1), applied)[k]);
                }
                assert forall|k: int| 0 <= k < out@.len() implies (#[trigger] out@[k]) < versions@.len() && versions@[out@[k] as int]
                    == pending(versions@, current)[k] by {
                    if k < before.len() {
                        assert(out@[k] == before[k]);
                    }
                }
            }
        }
        i += 1;
    }
    proof {
        assert(versions@.skip(i as int).len() == 0);
    }
    (out, applied)
}

proof fn lemma_after_bounds(versions: Seq<i64>, current: i64)
    ensures
        version_after(versions, current) >= current,
        forall|k: int| 0 <= k < versions.len() ==> #[trigger] versions[k] <= version_after(versions, current),
    decreases versions.len(),
{
    if versions.len() > 0 {
        let next = if versions[0] <= current {
            current
        } else {
            versions[0]
        };
        lemma_after_bounds(versions.drop_first(), next);
        assert forall|k: int| 0 <= k < versions.len() implies #[trigger] versions[k] <= version_after(versions, current) by {
            if k > 0 {
                assert(versions.drop_first()[k - 1] == versions[k]);
            }
        }
    }
}

proof fn lemma_nothing_above(versions: Seq<i64>, current: i64)
    requires
        forall|k: int| 0 <= k < versions.len() ==> #[trigger] versions[k] <= current,
    ensures
        pending(versions, current).len() == 0,
    decreases versions.len(),
{
    if versions.len() > 0 {
        assert forall|k: int| 0 <= k < versions.drop_first().len() implies #[trigger] versions.drop_first()[k] <= current by {
            assert(versions.drop_first()[k] == versions[k + 1]);
        }
        lemma_nothing_above(versions.drop_first(), current);
    }
}

proof fn lemma_pending_increasing(versions: Seq<i64>, current: i64)
    ensures
        forall|a: int, b: int|
            0 <= a < b < pending(versions, current).len() ==> #[trigger] pending(versions, current)[a]
                < #[trigger] pending(versions, current)[b],
        forall|a: int| 0 <= a < pending(versions, current).len() ==> current < #[trigger] pending(versions, current)[a],
    decreases versions.len(),
{
    if versions.len() > 0 {
        if versions[0] <= current {
            lemma_pending_increasing(versions.drop_first(), current);
            assert(pending(versions, current) == pending(versions.drop_first(), current));
        } else {
            lemma_pending_increasing(versions.drop_first(), versions[0]);
            let p = pending(versions, current);
            let q = pending(versions.drop_first(), versions[0]);
            assert(p == seq![versions[0]] + q);
            assert forall|a: int, b: int| 0 <= a < b < p.len() implies #[trigger] p[a] < #[trigger] p[b] by {
                if a > 0 {
                    assert(p[a] == q[a - 1] && p[b] == q[b - 1]);
                } else {
                    assert(p[b] == q[b - 1]);
                }
            }
            assert forall|a: int| 0 <= a < p.len() implies current < #[trigger] p[a] by {
                if a > 0 {
                    assert(p[a] == q[a - 1]);
                }
            }
        }
    }
}

/// Each migration is applied at most once: a run applies versions in
/// strictly increasing order, all above the recorded one, and a second run
/// from the version the first recorded applies nothing.
pub proof fn law_migrations_apply_once(versions: Seq<i64>, current: i64)
    ensures
        forall|a: int, b: int|
            0 <= a < b < pending(versions, current).len() ==> #[trigger] pending(versions, current)[a]
                < #[trigger] pending(versions, current)[b],
        forall|a: int| 0 <= a < pending(versions, current).len() ==> current < #[trigger] pending(versions, current)[a],
        pending(versions, version_after(versions, current)).len() == 0,
        version_after(versions, version_after(versions, current)) == version_after(versions, current),
{
    lemma_pending_increasing(versions, current);
    lemma_after_bounds(versions, current);
    lemma_nothing_above(versions, version_after(versions, current));
    lemma_after_fixed(versions, version_after(versions, current));
}

proof fn lemma_after_fixed(versions: Seq<i64>, current: i64)
    requires
        forall|k: int| 0 <= k < versions.len() ==> #[trigger] versions[k] <= current,
    ensures
        version_after(versions, current) == current,
    decreases versions.len(),
{
    if versions.len() > 0 {
        assert forall|k: int| 0 <= k < versions.drop_first().len() implies #[trigger] versions.drop_first()[k] <= current by {
            assert(versions.drop_first()[k] == versions[k + 1]);
        }
        lemma_after_fixed(versions.drop_first(), current);
    }
}

} // verus!
