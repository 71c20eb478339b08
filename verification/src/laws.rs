//! The general laws of the simulation, proved over the frame transformers:
//! no self-interaction, monotonic growth across frames, exclusivity of the
//! eat outcome, deferred destruction, and the first frame of a spawned
//! entity.

use vstd::prelude::*;

use crate::game::{frame_next, spawn_slot, staged, with_spawn};
use crate::stages::{
    bounced, bounced_seq, eaten_by, eaten_by_prefix, eats, fed, fed_seq, grow_applies, grow_by_of,
    grow_fits, grown, grown_seq, growth_fits, is_eater, is_prey, lemma_eaten_le_prey, moved,
    moved_seq, prey_size_prefix, size_of, someone_eats, total_prey_size,
};
use crate::world::{committed, committed_seq, wf, wf_slot, Slot};

verus! {

/// An entity never evaluates the eat condition against itself: the
/// interaction predicate is irreflexive, since nothing is strictly larger
/// than itself. The stage sums and marks skip the diagonal as well.
pub proof fn lemma_no_self_interaction(s: Slot)
    ensures
        !eats(s, s),
{
}

/// Sizes never shrink between two states of the store: every entity that is
/// live in both (identities are slot indices, which the registry never
/// reuses) keeps at least the size it had, and no destroyed entity returns.
pub open spec fn sizes_nondecreasing(a: Seq<Slot>, b: Seq<Slot>) -> bool {
    &&& a.len() <= b.len()
    &&& forall|k: int|
        0 <= k < a.len() && (#[trigger] b[k]).live ==> {
            &&& a[k].live
            &&& (a[k].size is Some ==> b[k].size is Some && size_of(b[k]) >= size_of(a[k]))
        }
}

/// Monotonic growth holds across any number of frames because each frame
/// establishes `sizes_nondecreasing` and the relation chains.
pub proof fn lemma_sizes_nondecreasing_trans(a: Seq<Slot>, b: Seq<Slot>, c: Seq<Slot>)
    requires
        sizes_nondecreasing(a, b),
        sizes_nondecreasing(b, c),
    ensures
        sizes_nondecreasing(a, c),
{
    assert forall|k: int| 0 <= k < a.len() && (#[trigger] c[k]).live implies {
        &&& a[k].live
        &&& (a[k].size is Some ==> c[k].size is Some && size_of(c[k]) >= size_of(a[k]))
    } by {
        assert(b[k].live);
    }
}

/// The movement stage preserves well-formedness: it only rewrites positions.
pub proof fn lemma_wf_moved(s: Seq<Slot>, dt: int)
    requires
        wf(s),
    ensures
        wf(moved_seq(s, dt)),
{
    assert forall|k: int| 0 <= k < s.len() implies wf_slot(#[trigger] moved_seq(s, dt)[k]) by {
        assert(moved_seq(s, dt)[k] == moved(s[k], dt));
    }
}

/// The boundary stage preserves well-formedness: it only rewrites positions
/// and velocities.
pub proof fn lemma_wf_bounced(s: Seq<Slot>, width: i64, height: i64)
    requires
        wf(s),
    ensures
        wf(bounced_seq(s, width, height)),
{
    assert forall|k: int|
        0 <= k < s.len() implies wf_slot(#[trigger] bounced_seq(s, width, height)[k]) by {
        assert(bounced_seq(s, width, height)[k] == bounced(s[k], width, height));
    }
}

/// The movement and boundary stages leave everything the interaction and
/// growth stages read — liveness, visibility, record presence, sizes and
/// pending growth — untouched, so the growth bound carries over.
pub proof fn lemma_growth_fits_carries(s: Seq<Slot>, dt: int, width: i64, height: i64)
    requires
        growth_fits(s),
    ensures
        growth_fits(bounced_seq(moved_seq(s, dt), width, height)),
{
    let b = bounced_seq(moved_seq(s, dt), width, height);
    assert forall|k: int| 0 <= k < s.len() implies {
        &&& is_prey(#[trigger] b[k]) == is_prey(s[k])
        &&& b[k].size == s[k].size
        &&& b[k].grow_by == s[k].grow_by
    } by {
        assert(moved_seq(s, dt)[k] == moved(s[k], dt));
        assert(b[k] == bounced(moved(s[k], dt), width, height));
    }
    crate::game::lemma_prey_prefix_eq(s, b, s.len() as int);
    assert forall|k: int|
        0 <= k < b.len() && #[trigger] b[k].size is Some && b[k].grow_by is Some implies size_of(
        b[k],
    ) + grow_by_of(b[k]) + total_prey_size(b) <= i64::MAX by {
        assert(s[k].size is Some && s[k].grow_by is Some);
    }
}

/// The interaction stage preserves well-formedness — absorbed totals are
/// never negative and marks land only on visible prey — and leaves every
/// size plus pending growth representable for the growth stage.
pub proof fn lemma_wf_fed(s: Seq<Slot>)
    requires
        wf(s),
        growth_fits(s),
    ensures
        wf(fed_seq(s)),
        grow_fits(fed_seq(s)),
{
    let n = s.len() as int;
    assert forall|q: int| 0 <= q < n implies wf_slot(#[trigger] fed_seq(s)[q]) by {
        assert(fed_seq(s)[q] == fed(s, q));
        lemma_eaten_le_prey(s, q, n);
        if someone_eats(s, q) {
            let i0 = choose|i0: int| 0 <= i0 < s.len() && i0 != q && eats(s[i0], s[q]);
            assert(is_prey(s[q]));
        }
    }
    assert forall|q: int|
        0 <= q < n && grow_applies(#[trigger] fed_seq(s)[q]) implies size_of(fed_seq(s)[q])
        + grow_by_of(fed_seq(s)[q]) <= i64::MAX by {
        assert(fed_seq(s)[q] == fed(s, q));
        lemma_eaten_le_prey(s, q, n);
        assert(s[q].size is Some);
    }
}

/// The growth stage preserves well-formedness: sizes only gain non-negative
/// pending growth, and the accumulators reset to zero.
pub proof fn lemma_wf_grown(s: Seq<Slot>)
    requires
        wf(s),
        grow_fits(s),
    ensures
        wf(grown_seq(s)),
{
    assert forall|k: int| 0 <= k < s.len() implies wf_slot(#[trigger] grown_seq(s)[k]) by {
        assert(grown_seq(s)[k] == grown(s[k]));
    }
}

/// One frame's stages and commit never shrink a surviving entity's size:
/// movement and boundary do not touch sizes, the interaction stage only adds
/// non-negative absorbed totals to pending growth, the growth stage folds
/// that growth in, and the commit keeps every unmarked entity whole.
pub proof fn lemma_staged_sizes_nondecreasing(s: Seq<Slot>, dt: int, width: i64, height: i64)
    requires
        wf(s),
        growth_fits(s),
    ensures
        sizes_nondecreasing(s, staged(s, dt, width, height)),
{
    let s2 = moved_seq(s, dt);
    let s3 = bounced_seq(s2, width, height);
    let s4 = fed_seq(s3);
    let s5 = grown_seq(s4);
    let b = committed_seq(s5);
    lemma_wf_moved(s, dt);
    lemma_wf_bounced(s2, width, height);
    lemma_growth_fits_carries(s, dt, width, height);
    lemma_wf_fed(s3);
    lemma_wf_grown(s4);
    assert forall|k: int| 0 <= k < s.len() && (#[trigger] b[k]).live implies {
        &&& s[k].live
        &&& (s[k].size is Some ==> b[k].size is Some && size_of(b[k]) >= size_of(s[k]))
    } by {
        assert(s2[k] == moved(s[k], dt));
        assert(s3[k] == bounced(s2[k], width, height));
        assert(s4[k] == fed(s3, k));
        assert(s5[k] == grown(s4[k]));
        assert(b[k] == committed(s5[k]));
        lemma_eaten_le_prey(s3, k, s3.len() as int);
        assert(wf_slot(s3[k]));
        assert(wf_slot(s4[k]));
    }
}

/// Monotonic growth over one whole frame, spawn included: the optional spawn
/// only appends a new identity, so every already existing survivor keeps at
/// least its size.
pub proof fn lemma_frame_sizes_nondecreasing(
    s: Seq<Slot>,
    dt: int,
    width: i64,
    height: i64,
    spawning: bool,
    sp: Slot,
)
    requires
        wf(with_spawn(s, spawning, sp)),
        growth_fits(with_spawn(s, spawning, sp)),
    ensures
        sizes_nondecreasing(s, frame_next(s, dt, width, height, spawning, sp)),
{
    let s1 = with_spawn(s, spawning, sp);
    lemma_staged_sizes_nondecreasing(s1, dt, width, height);
    let b = frame_next(s, dt, width, height, spawning, sp);
    assert forall|k: int| 0 <= k < s.len() && (#[trigger] b[k]).live implies {
        &&& s[k].live
        &&& (s[k].size is Some ==> b[k].size is Some && size_of(b[k]) >= size_of(s[k]))
    } by {
        assert(s1[k] == s[k]);
    }
}

/// What a lone eligible prey contributes to an eater's prefix sum: its own
/// size once it is inside the prefix, and nothing before that.
proof fn lemma_single_prey_prefix(s: Seq<Slot>, i: int, j: int, n: int)
    requires
        0 <= i < s.len(),
        0 <= j < s.len(),
        i != j,
        0 <= n <= s.len(),
        eats(s[i], s[j]),
        forall|q: int| 0 <= q < s.len() && q != i && q != j ==> !eats(s[i], #[trigger] s[q]),
    ensures
        eaten_by_prefix(s, i, n) == if j < n {
            size_of(s[j])
        } else {
            0int
        },
    decreases n,
{
    if n > 0 {
        lemma_single_prey_prefix(s, i, j, n - 1);
    }
}

/// Exclusivity of outcome, not of evaluation: where exactly one entity is
/// eligible prey for an eater, the eater's absorbed total is exactly that
/// prey's size, and the prey is marked — the growth and commit of the same
/// frame then raise the eater's size by exactly that amount and destroy the
/// prey once.
pub proof fn lemma_single_prey_exact(s: Seq<Slot>, i: int, j: int)
    requires
        0 <= i < s.len(),
        0 <= j < s.len(),
        i != j,
        eats(s[i], s[j]),
        forall|q: int| 0 <= q < s.len() && q != i && q != j ==> !eats(s[i], #[trigger] s[q]),
    ensures
        eaten_by(s, i) == size_of(s[j]),
        someone_eats(s, j),
{
    lemma_single_prey_prefix(s, i, j, s.len() as int);
    assert(0 <= i < s.len() && i != j && eats(s[i], s[j]));
}

/// Deferred destruction: an eaten entity is only marked during the
/// interaction stage — its records stay in place and visible through the
/// rest of the pass and through the growth stage, and it stops being live
/// exactly at the commit point.
pub proof fn lemma_deferred_destruction(s: Seq<Slot>, j: int)
    requires
        wf(s),
        growth_fits(s),
        0 <= j < s.len(),
        someone_eats(s, j),
    ensures
        fed_seq(s)[j].live,
        fed_seq(s)[j].visible,
        fed_seq(s)[j].marked,
        fed_seq(s)[j].pos == s[j].pos,
        fed_seq(s)[j].size == s[j].size,
        grown_seq(fed_seq(s))[j].live,
        grown_seq(fed_seq(s))[j].visible,
        !committed_seq(grown_seq(fed_seq(s)))[j].live,
{
    let i0 = choose|i0: int| 0 <= i0 < s.len() && i0 != j && eats(s[i0], s[j]);
    assert(is_prey(s[j]));
    assert(fed_seq(s)[j] == fed(s, j));
    assert(grown_seq(fed_seq(s))[j] == grown(fed_seq(s)[j]));
    assert(committed_seq(grown_seq(fed_seq(s)))[j] == committed(grown_seq(fed_seq(s))[j]));
}

/// A spawned entity's first frame: it is appended invisible, so no stage of
/// its creation frame moves, bounces, feeds or grows it; the commit point
/// then lets it into iteration, still at the arena centre and the initial
/// size, with its pending growth at zero.
pub proof fn lemma_spawned_entity_first_frame(
    s: Seq<Slot>,
    dt: int,
    width: i64,
    height: i64,
    vx: i64,
    vy: i64,
    visual: u64,
)
    ensures
        ({
            let sp = spawn_slot(width, height, vx, vy, visual);
            let b = frame_next(s, dt, width, height, true, sp);
            &&& b.len() == s.len() + 1
            &&& b[s.len() as int] == (Slot { visible: true, ..sp })
        }),
{
    let sp = spawn_slot(width, height, vx, vy, visual);
    let s1 = with_spawn(s, true, sp);
    let k = s.len() as int;
    let s2 = moved_seq(s1, dt);
    let s3 = bounced_seq(s2, width, height);
    let s4 = fed_seq(s3);
    let s5 = grown_seq(s4);
    assert(s1[k] == sp);
    assert(s2[k] == moved(sp, dt));
    assert(s3[k] == bounced(sp, width, height));
    assert(s4[k] == fed(s3, k));
    assert(!is_eater(s3[k]));
    assert(!someone_eats(s3, k)) by {
        if someone_eats(s3, k) {
            let i0 = choose|i0: int| 0 <= i0 < s3.len() && i0 != k && eats(s3[i0], s3[k]);
            assert(is_prey(s3[k]));
        }
    }
    assert(s5[k] == grown(s4[k]));
    assert(frame_next(s, dt, width, height, true, sp)[k] == committed(s5[k]));
}

} // verus!
