//! The per-frame stages over the component store: movement, boundary
//! reflection, the pairwise interaction ("eat") scan, and growth. Each stage
//! is a function from the store to the store, with a spec-level transformer
//! that says exactly what it does to every slot.

use vstd::prelude::*;

use crate::components::{GrowBy, Position, Size, Velocity};
use crate::geometry::{encloses, encloses_check, Vec2};
use crate::world::{wf, wf_slot, Slot, World};

verus! {

/// Whether the movement and boundary stages touch a slot: it must be visible
/// to iteration and own both a position and a velocity.
pub open spec fn move_applies(s: Slot) -> bool {
    s.live && s.visible && s.pos is Some && s.vel is Some
}

/// The x coordinate of a slot's position record.
pub open spec fn pos_x(s: Slot) -> int {
    (s.pos->0).0.x as int
}

/// The y coordinate of a slot's position record.
pub open spec fn pos_y(s: Slot) -> int {
    (s.pos->0).0.y as int
}

/// The x component of a slot's velocity record.
pub open spec fn vel_x(s: Slot) -> int {
    (s.vel->0).velocity.x as int
}

/// The y component of a slot's velocity record.
pub open spec fn vel_y(s: Slot) -> int {
    (s.vel->0).velocity.y as int
}

/// The value of a slot's size record.
pub open spec fn size_of(s: Slot) -> int {
    (s.size->0).0 as int
}

/// The value of a slot's pending-growth record.
pub open spec fn grow_by_of(s: Slot) -> int {
    (s.grow_by->0).0 as int
}

/// One slot after the movement stage: position advanced by velocity times the
/// elapsed time, exactly; everything else untouched. Slots that iteration
/// does not see, or that lack a position or velocity, are untouched.
pub open spec fn moved(s: Slot, dt: int) -> Slot {
    if move_applies(s) {
        Slot {
            pos: Some(
                Position(
                    Vec2 {
                        x: (((s.pos->0).0.x + (s.vel->0).velocity.x * dt) as i64),
                        y: (((s.pos->0).0.y + (s.vel->0).velocity.y * dt) as i64),
                    },
                ),
            ),
            ..s
        }
    } else {
        s
    }
}

/// The whole store after the movement stage.
pub open spec fn moved_seq(s: Seq<Slot>, dt: int) -> Seq<Slot> {
    Seq::new(s.len(), |k: int| moved(s[k], dt))
}

/// One axis after the boundary stage: a coordinate beyond the upper bound is
/// clamped to it and the velocity reflected; one below zero is clamped to
/// zero and the velocity reflected; a coordinate on or inside the bounds is
/// left alone, velocity included. Returns (position, velocity).
pub open spec fn bounce_axis(p: i64, v: i64, limit: i64) -> (i64, i64) {
    if p > limit {
        (limit, ((0 - v) as i64))
    } else if p < 0 {
        (0i64, ((0 - v) as i64))
    } else {
        (p, v)
    }
}

/// One slot after the boundary stage: each axis clamped and reflected
/// independently against its own bound.
pub open spec fn bounced(s: Slot, width: i64, height: i64) -> Slot {
    if move_applies(s) {
        Slot {
            pos: Some(
                Position(
                    Vec2 {
                        x: bounce_axis((s.pos->0).0.x, (s.vel->0).velocity.x, width).0,
                        y: bounce_axis((s.pos->0).0.y, (s.vel->0).velocity.y, height).0,
                    },
                ),
            ),
            vel: Some(
                Velocity {
                    velocity: Vec2 {
                        x: bounce_axis((s.pos->0).0.x, (s.vel->0).velocity.x, width).1,
                        y: bounce_axis((s.pos->0).0.y, (s.vel->0).velocity.y, height).1,
                    },
                },
            ),
            ..s
        }
    } else {
        s
    }
}

/// The whole store after the boundary stage.
pub open spec fn bounced_seq(s: Seq<Slot>, width: i64, height: i64) -> Seq<Slot> {
    Seq::new(s.len(), |k: int| bounced(s[k], width, height))
}

/// Whether a slot can eat: visible to iteration, with a position, a size and
/// a pending-growth record to accumulate into.
pub open spec fn is_eater(s: Slot) -> bool {
    s.live && s.visible && s.pos is Some && s.size is Some && s.grow_by is Some
}

/// Whether a slot can be eaten: visible to iteration, with a position and a
/// size.
pub open spec fn is_prey(s: Slot) -> bool {
    s.live && s.visible && s.pos is Some && s.size is Some
}

/// The interaction predicate: `a` can eat, `b` can be eaten, and `b`'s disc
/// lies entirely inside `a`'s.
pub open spec fn eats(a: Slot, b: Slot) -> bool {
    &&& is_eater(a)
    &&& is_prey(b)
    &&& encloses((a.pos->0).0, (a.size->0).0 as int, (b.pos->0).0, (b.size->0).0 as int)
}

/// Total size the eater at index `i` absorbs from the prey at indices below
/// `n`: the sum of the sizes of every other entity it encloses. Evaluated
/// over the store as it stands at the start of the stage.
pub open spec fn eaten_by_prefix(s: Seq<Slot>, i: int, n: int) -> int
    decreases n,
{
    if n <= 0 {
        0
    } else {
        eaten_by_prefix(s, i, n - 1) + if n - 1 != i && eats(s[i], s[n - 1]) {
            (s[n - 1].size->0).0 as int
        } else {
            0int
        }
    }
}

/// Total size the eater at index `i` absorbs this frame.
pub open spec fn eaten_by(s: Seq<Slot>, i: int) -> int {
    eaten_by_prefix(s, i, s.len() as int)
}

/// Whether some other entity eats the one at index `j` this frame.
pub open spec fn someone_eats(s: Seq<Slot>, j: int) -> bool {
    exists|i: int| 0 <= i < s.len() && i != j && eats(s[i], s[j])
}

/// Sum of the sizes of every entity the interaction stage could eat.
pub open spec fn prey_size_prefix(s: Seq<Slot>, n: int) -> int
    decreases n,
{
    if n <= 0 {
        0
    } else {
        prey_size_prefix(s, n - 1) + if is_prey(s[n - 1]) {
            (s[n - 1].size->0).0 as int
        } else {
            0int
        }
    }
}

/// Sum of the sizes of every entity the interaction stage could eat, over the
/// whole store.
pub open spec fn total_prey_size(s: Seq<Slot>) -> int {
    prey_size_prefix(s, s.len() as int)
}

/// One slot after the interaction stage, given the whole store `s` as it
/// stood at the start of the stage: an eater's pending growth has gained the
/// sizes of everything it enclosed, and an eaten entity is marked for
/// destruction — not yet removed.
pub open spec fn fed(s: Seq<Slot>, j: int) -> Slot {
    Slot {
        grow_by: if is_eater(s[j]) {
            Some(GrowBy((((s[j].grow_by->0).0 + eaten_by(s, j)) as i64)))
        } else {
            s[j].grow_by
        },
        marked: s[j].marked || someone_eats(s, j),
        ..s[j]
    }
}

/// The whole store after the interaction stage.
pub open spec fn fed_seq(s: Seq<Slot>) -> Seq<Slot> {
    Seq::new(s.len(), |j: int| fed(s, j))
}

/// Whether the growth stage touches a slot: visible to iteration, with a size
/// and a pending-growth record.
pub open spec fn grow_applies(s: Slot) -> bool {
    s.live && s.visible && s.size is Some && s.grow_by is Some
}

/// One slot after the growth stage: pending growth folded into the size and
/// reset to zero; everything else untouched.
pub open spec fn grown(s: Slot) -> Slot {
    if grow_applies(s) {
        Slot {
            size: Some(Size((((s.size->0).0 + (s.grow_by->0).0) as i64))),
            grow_by: Some(GrowBy(0)),
            ..s
        }
    } else {
        s
    }
}

/// The whole store after the growth stage.
pub open spec fn grown_seq(s: Seq<Slot>) -> Seq<Slot> {
    Seq::new(s.len(), |k: int| grown(s[k]))
}

/// What the interaction stage adds to the pending growth of the slot at `k`:
/// everything it eats, or nothing where it cannot eat.
pub open spec fn add_for(s: Seq<Slot>, k: int) -> int {
    if is_eater(s[k]) {
        eaten_by(s, k)
    } else {
        0
    }
}

/// Whether, among the entities at indices below `n`, some entity other than
/// the one at `j` eats the one at `j`.
pub open spec fn someone_eats_prefix(s: Seq<Slot>, j: int, n: int) -> bool
    decreases n,
{
    if n <= 0 {
        false
    } else {
        someone_eats_prefix(s, j, n - 1) || (n - 1 != j && eats(s[n - 1], s[j]))
    }
}

/// The prefix scan of the interaction stage finds an eater of `j` exactly
/// when one exists among the first `n` entities.
pub proof fn lemma_someone_eats_prefix_exists(s: Seq<Slot>, j: int, n: int)
    requires
        0 <= n <= s.len(),
    ensures
        someone_eats_prefix(s, j, n) <==> (exists|i: int|
            0 <= i < n && i != j && eats(s[i], s[j])),
    decreases n,
{
    if n > 0 {
        lemma_someone_eats_prefix_exists(s, j, n - 1);
        if someone_eats_prefix(s, j, n) {
            if someone_eats_prefix(s, j, n - 1) {
                let i = choose|i: int| 0 <= i < n - 1 && i != j && eats(s[i], s[j]);
                assert(0 <= i < n && i != j && eats(s[i], s[j]));
            } else {
                assert(n - 1 != j && eats(s[n - 1], s[j]));
            }
        }
        if exists|i: int| 0 <= i < n && i != j && eats(s[i], s[j]) {
            let i = choose|i: int| 0 <= i < n && i != j && eats(s[i], s[j]);
            if i < n - 1 {
                assert(exists|q: int| 0 <= q < n - 1 && q != j && eats(s[q], s[j]));
            }
        }
    }
}

/// What one eater absorbs from a prefix is non-negative and no more than the
/// total size of the prey in that prefix.
pub proof fn lemma_eaten_le_prey(s: Seq<Slot>, i: int, n: int)
    requires
        wf(s),
        0 <= n <= s.len(),
    ensures
        0 <= eaten_by_prefix(s, i, n) <= prey_size_prefix(s, n),
    decreases n,
{
    if n > 0 {
        lemma_eaten_le_prey(s, i, n - 1);
    }
}

/// The total size of the prey in a prefix never shrinks as the prefix grows.
pub proof fn lemma_prey_prefix_mono(s: Seq<Slot>, m: int, n: int)
    requires
        wf(s),
        0 <= m <= n <= s.len(),
    ensures
        prey_size_prefix(s, m) <= prey_size_prefix(s, n),
    decreases n,
{
    if m < n {
        lemma_prey_prefix_mono(s, m, n - 1);
    }
}

/// No overflow in the movement stage: every advanced coordinate stays a
/// machine integer.
pub open spec fn move_fits(s: Seq<Slot>, dt: int) -> bool {
    forall|k: int|
        0 <= k < s.len() && move_applies(#[trigger] s[k]) ==> {
            &&& i64::MIN <= (s[k].pos->0).0.x + (s[k].vel->0).velocity.x * dt <= i64::MAX
            &&& i64::MIN <= (s[k].pos->0).0.y + (s[k].vel->0).velocity.y * dt <= i64::MAX
        }
}

/// No overflow in the boundary stage: every velocity that may be reflected
/// has a representable negation.
pub open spec fn bounce_fits(s: Seq<Slot>) -> bool {
    forall|k: int|
        0 <= k < s.len() && move_applies(#[trigger] s[k]) ==> {
            &&& (s[k].vel->0).velocity.x > i64::MIN
            &&& (s[k].vel->0).velocity.y > i64::MIN
        }
}

/// No overflow in the interaction and growth stages: every entity's size plus
/// its pending growth plus everything it could possibly absorb this frame
/// stays a machine integer.
pub open spec fn growth_fits(s: Seq<Slot>) -> bool {
    forall|k: int|
        0 <= k < s.len() && #[trigger] s[k].size is Some && s[k].grow_by is Some ==> (s[k].size->0).0
            + (s[k].grow_by->0).0 + total_prey_size(s) <= i64::MAX
}

/// No overflow in the growth stage alone: every size plus its pending growth
/// stays a machine integer.
pub open spec fn grow_fits(s: Seq<Slot>) -> bool {
    forall|k: int|
        0 <= k < s.len() && grow_applies(#[trigger] s[k]) ==> size_of(s[k]) + grow_by_of(s[k])
            <= i64::MAX
}

/// The movement stage: advances every visible entity that has a position and
/// a velocity by velocity times elapsed time, exactly and independently of
/// iteration order; every other entity, and every other attribute, is
/// untouched.
pub fn move_stage(w: &mut World, dt: i64)
    requires
        wf(old(w).slots@),
        dt >= 0,
        move_fits(old(w).slots@, dt as int),
    ensures
        final(w).slots@ == moved_seq(old(w).slots@, dt as int),
        wf(final(w).slots@),
        forall|k: int|
            0 <= k < old(w).slots@.len() && move_applies(#[trigger] old(w).slots@[k]) ==> {
                let a = old(w).slots@[k];
                let b = final(w).slots@[k];
                &&& pos_x(b) == pos_x(a) + vel_x(a) * dt
                &&& pos_y(b) == pos_y(a) + vel_y(a) * dt
            },
{
    let ghost s0 = w.slots@;
    let n = w.slots.len();
    let mut k: usize = 0;
    while k < n
        invariant
            n == s0.len(),
            w.slots@.len() == n,
            wf(s0),
            dt >= 0,
            move_fits(s0, dt as int),
            forall|j: int| 0 <= j < k ==> w.slots@[j] == moved(#[trigger] s0[j], dt as int),
            forall|j: int| k <= j < n ==> w.slots@[j] == #[trigger] s0[j],
        decreases n - k,
    {
        let s = w.slots[k];
        if s.live && s.visible && s.pos.is_some() && s.vel.is_some() {
            proof {
                assert(s == s0[k as int]);
                assert(move_applies(s0[k as int]));
            }
            let p = s.pos.unwrap().0;
            let v = s.vel.unwrap().velocity;
            let nx = advance_axis(p.x, v.x, dt);
            let ny = advance_axis(p.y, v.y, dt);
            let mut t = s;
            t.pos = Some(Position(Vec2 { x: nx, y: ny }));
            w.slots[k] = t;
        }
        k += 1;
    }
    proof {
        assert(w.slots@ =~= moved_seq(s0, dt as int));
        assert forall|j: int| 0 <= j < n implies wf_slot(#[trigger] w.slots@[j]) by {
            assert(w.slots@[j] == moved(s0[j], dt as int));
        }
    }
}

/// One coordinate advanced by one axis of velocity over the elapsed time.
/// The product and sum are taken in 128-bit arithmetic, which cannot
/// overflow; the caller guarantees the result fits back into 64 bits.
fn advance_axis(p: i64, v: i64, dt: i64) -> (r: i64)
    requires
        i64::MIN <= p + v * dt <= i64::MAX,
    ensures
        r == p + v * dt,
{
    proof {
        assert(-0x8000_0000_0000_0000 * 0x7fff_ffff_ffff_ffff <= (v as int) * (dt as int)
            <= 0x8000_0000_0000_0000 * 0x8000_0000_0000_0000) by (nonlinear_arith)
            requires
                -0x8000_0000_0000_0000 <= v <= 0x7fff_ffff_ffff_ffff,
                -0x8000_0000_0000_0000 <= dt <= 0x7fff_ffff_ffff_ffff,
        ;
    }
    let wide: i128 = (p as i128) + (v as i128) * (dt as i128);
    wide as i64
}

/// The boundary stage: clamps every visible entity that has a position and a
/// velocity into the arena `[0, width] × [0, height]` and reflects the
/// velocity of each violated axis; at most one clamp per axis, and an entity
/// on or inside the bounds keeps both records unchanged. Every other entity,
/// and every other attribute, is untouched.
pub fn bounce_stage(w: &mut World, width: i64, height: i64)
    requires
        wf(old(w).slots@),
        width >= 0,
        height >= 0,
        bounce_fits(old(w).slots@),
    ensures
        final(w).slots@ == bounced_seq(old(w).slots@, width, height),
        wf(final(w).slots@),
        forall|k: int|
            0 <= k < old(w).slots@.len() && move_applies(#[trigger] old(w).slots@[k]) ==> {
                let a = old(w).slots@[k];
                let b = final(w).slots@[k];
                &&& 0 <= pos_x(b) <= width
                &&& 0 <= pos_y(b) <= height
                &&& (pos_x(a) > width ==> pos_x(b) == width && vel_x(b) == -vel_x(a))
                &&& (pos_x(a) < 0 ==> pos_x(b) == 0 && vel_x(b) == -vel_x(a))
                &&& (0 <= pos_x(a) <= width ==> pos_x(b) == pos_x(a) && vel_x(b) == vel_x(a))
                &&& (pos_y(a) > height ==> pos_y(b) == height && vel_y(b) == -vel_y(a))
                &&& (pos_y(a) < 0 ==> pos_y(b) == 0 && vel_y(b) == -vel_y(a))
                &&& (0 <= pos_y(a) <= height ==> pos_y(b) == pos_y(a) && vel_y(b) == vel_y(a))
            },
{
    let ghost s0 = w.slots@;
    let n = w.slots.len();
    let mut k: usize = 0;
    while k < n
        invariant
            n == s0.len(),
            w.slots@.len() == n,
            wf(s0),
            width >= 0,
            height >= 0,
            bounce_fits(s0),
            forall|j: int| 0 <= j < k ==> w.slots@[j] == bounced(#[trigger] s0[j], width, height),
            forall|j: int| k <= j < n ==> w.slots@[j] == #[trigger] s0[j],
        decreases n - k,
    {
        let s = w.slots[k];
        if s.live && s.visible && s.pos.is_some() && s.vel.is_some() {
            proof {
                assert(s == s0[k as int]);
                assert(move_applies(s0[k as int]));
            }
            let p = s.pos.unwrap().0;
            let v = s.vel.unwrap().velocity;
            let mut px = p.x;
            let mut vx = v.x;
            if p.x > width {
                px = width;
                vx = -v.x;
            } else if p.x < 0 {
                px = 0;
                vx = -v.x;
            }
            let mut py = p.y;
            let mut vy = v.y;
            if p.y > height {
                py = height;
                vy = -v.y;
            } else if p.y < 0 {
                py = 0;
                vy = -v.y;
            }
            let mut t = s;
            t.pos = Some(Position(Vec2 { x: px, y: py }));
            t.vel = Some(Velocity { velocity: Vec2 { x: vx, y: vy } });
            w.slots[k] = t;
        }
        k += 1;
    }
    proof {
        assert(w.slots@ =~= bounced_seq(s0, width, height));
        assert forall|j: int| 0 <= j < n implies wf_slot(#[trigger] w.slots@[j]) by {
            assert(w.slots@[j] == bounced(s0[j], width, height));
        }
    }
}

/// The interaction stage: an exhaustive scan over every ordered pair of
/// distinct entities as the store stands at the start of the stage. Where the
/// larger entity's disc entirely encloses the smaller one's, the smaller is
/// marked for destruction — it stays visible until the commit point, so later
/// comparisons in the same pass still see it — and the larger one's pending
/// growth gains the smaller one's size. An entity enclosed by several eaters
/// in the same pass is credited to each of them, and destroyed once.
pub fn eat_stage(w: &mut World)
    requires
        wf(old(w).slots@),
        growth_fits(old(w).slots@),
    ensures
        final(w).slots@ == fed_seq(old(w).slots@),
        wf(final(w).slots@),
        grow_fits(final(w).slots@),
        forall|j: int|
            #![trigger old(w).slots@[j]]
            0 <= j < old(w).slots@.len() ==> {
                let a = old(w).slots@[j];
                let b = final(w).slots@[j];
                &&& b.marked == (a.marked || someone_eats(old(w).slots@, j))
                &&& b.live == a.live
                &&& b.visible == a.visible
                &&& b.pos == a.pos
                &&& b.vel == a.vel
                &&& b.size == a.size
                &&& b.color == a.color
                &&& b.visual == a.visual
                &&& (is_eater(a) ==> grow_by_of(b) == grow_by_of(a) + eaten_by(old(w).slots@, j))
                &&& (!is_eater(a) ==> b.grow_by == a.grow_by)
            },
{
    let ghost s0 = w.slots@;
    let n = w.slots.len();

    // First pass: how much each eater absorbs, over the unchanged store.
    let mut adds: Vec<i64> = Vec::new();
    let mut i: usize = 0;
    while i < n
        invariant
            n == s0.len(),
            w.slots@ == s0,
            wf(s0),
            growth_fits(s0),
            adds@.len() == i,
            0 <= i <= n,
            forall|k: int| 0 <= k < i ==> #[trigger] adds@[k] == add_for(s0, k),
        decreases n - i,
    {
        let si = w.slots[i];
        let mut acc: i64 = 0;
        if si.live && si.visible && si.pos.is_some() && si.size.is_some() && si.grow_by.is_some() {
            proof {
                assert(si == s0[i as int]);
                assert(is_eater(s0[i as int]));
            }
            let my_pos = si.pos.unwrap().0;
            let my_size = si.size.unwrap().0;
            let mut j: usize = 0;
            while j < n
                invariant
                    n == s0.len(),
                    w.slots@ == s0,
                    wf(s0),
                    growth_fits(s0),
                    i < n,
                    is_eater(s0[i as int]),
                    my_pos == (s0[i as int].pos->0).0,
                    my_size == (s0[i as int].size->0).0,
                    0 <= j <= n,
                    acc == eaten_by_prefix(s0, i as int, j as int),
                decreases n - j,
            {
                let sj = w.slots[j];
                proof {
                    assert(sj == s0[j as int]);
                }
                if j != i && sj.live && sj.visible && sj.pos.is_some() && sj.size.is_some() {
                    let other_pos = sj.pos.unwrap().0;
                    let other_size = sj.size.unwrap().0;
                    if encloses_check(my_pos, my_size, other_pos, other_size) {
                        proof {
                            assert(eats(s0[i as int], s0[j as int]));
                            lemma_eaten_le_prey(s0, i as int, j as int + 1);
                            lemma_prey_prefix_mono(s0, j as int + 1, n as int);
                            assert(grow_by_of(s0[i as int]) + total_prey_size(s0) <= i64::MAX);
                            assert(acc + other_size == eaten_by_prefix(s0, i as int, j as int + 1));
                        }
                        acc = acc + other_size;
                    } else {
                        proof {
                            assert(!eats(s0[i as int], s0[j as int]));
                        }
                    }
                } else {
                    proof {
                        assert(j == i || !is_prey(s0[j as int]));
                    }
                }
                j += 1;
            }
        }
        adds.push(acc);
        i += 1;
    }

    // Second pass: which entities some other entity eats, over the unchanged
    // store.
    let mut flags: Vec<bool> = Vec::new();
    let mut j: usize = 0;
    while j < n
        invariant
            n == s0.len(),
            w.slots@ == s0,
            wf(s0),
            flags@.len() == j,
            0 <= j <= n,
            forall|q: int| 0 <= q < j ==> #[trigger] flags@[q] == someone_eats(s0, q),
        decreases n - j,
    {
        let sj = w.slots[j];
        let mut any = false;
        if sj.live && sj.visible && sj.pos.is_some() && sj.size.is_some() {
            proof {
                assert(sj == s0[j as int]);
                assert(is_prey(s0[j as int]));
            }
            let other_pos = sj.pos.unwrap().0;
            let other_size = sj.size.unwrap().0;
            let mut i2: usize = 0;
            while i2 < n
                invariant
                    n == s0.len(),
                    w.slots@ == s0,
                    wf(s0),
                    j < n,
                    is_prey(s0[j as int]),
                    other_pos == (s0[j as int].pos->0).0,
                    other_size == (s0[j as int].size->0).0,
                    0 <= i2 <= n,
                    any == someone_eats_prefix(s0, j as int, i2 as int),
                decreases n - i2,
            {
                let si = w.slots[i2];
                proof {
                    assert(si == s0[i2 as int]);
                }
                if i2 != j && si.live && si.visible && si.pos.is_some() && si.size.is_some()
                    && si.grow_by.is_some() {
                    let my_pos = si.pos.unwrap().0;
                    let my_size = si.size.unwrap().0;
                    if encloses_check(my_pos, my_size, other_pos, other_size) {
                        proof {
                            assert(eats(s0[i2 as int], s0[j as int]));
                        }
                        any = true;
                    } else {
                        proof {
                            assert(!eats(s0[i2 as int], s0[j as int]));
                        }
                    }
                } else {
                    proof {
                        assert(i2 == j || !is_eater(s0[i2 as int]));
                    }
                }
                i2 += 1;
            }
            proof {
                lemma_someone_eats_prefix_exists(s0, j as int, n as int);
            }
        } else {
            proof {
                assert(!is_prey(s0[j as int]));
                assert(!someone_eats(s0, j as int));
            }
        }
        flags.push(any);
        j += 1;
    }

    // Third pass: fold the absorbed sizes into the pending growth and set the
    // destruction marks.
    let mut k: usize = 0;
    while k < n
        invariant
            n == s0.len(),
            w.slots@.len() == n,
            wf(s0),
            growth_fits(s0),
            adds@.len() == n,
            flags@.len() == n,
            forall|q: int| 0 <= q < n ==> #[trigger] adds@[q] == add_for(s0, q),
            forall|q: int| 0 <= q < n ==> #[trigger] flags@[q] == someone_eats(s0, q),
            forall|q: int| 0 <= q < k ==> #[trigger] w.slots@[q] == fed(s0, q),
            forall|q: int| k <= q < n ==> w.slots@[q] == #[trigger] s0[q],
            0 <= k <= n,
        decreases n - k,
    {
        let s = w.slots[k];
        proof {
            assert(s == s0[k as int]);
        }
        let mut t = s;
        if s.live && s.visible && s.pos.is_some() && s.size.is_some() && s.grow_by.is_some() {
            proof {
                assert(is_eater(s0[k as int]));
                lemma_eaten_le_prey(s0, k as int, n as int);
                assert(size_of(s0[k as int]) + grow_by_of(s0[k as int]) + total_prey_size(s0)
                    <= i64::MAX);
            }
            let g = s.grow_by.unwrap().0;
            t.grow_by = Some(GrowBy(g + adds[k]));
        }
        t.marked = s.marked || flags[k];
        w.slots[k] = t;
        proof {
            assert(w.slots@[k as int] == fed(s0, k as int));
        }
        k += 1;
    }
    proof {
        assert(w.slots@ =~= fed_seq(s0));
        assert forall|q: int| 0 <= q < n implies wf_slot(#[trigger] w.slots@[q]) by {
            assert(w.slots@[q] == fed(s0, q));
            lemma_eaten_le_prey(s0, q, n as int);
            if someone_eats(s0, q) {
                let i0 = choose|i0: int| 0 <= i0 < s0.len() && i0 != q && eats(s0[i0], s0[q]);
                assert(is_prey(s0[q]));
            }
        }
        assert forall|q: int|
            0 <= q < n && grow_applies(#[trigger] w.slots@[q]) implies size_of(w.slots@[q])
            + grow_by_of(w.slots@[q]) <= i64::MAX by {
            assert(w.slots@[q] == fed(s0, q));
            lemma_eaten_le_prey(s0, q, n as int);
            assert(s0[q].size is Some);
        }
        assert forall|j: int| #![trigger s0[j]] 0 <= j < n implies {
            let a = s0[j];
            let b = w.slots@[j];
            &&& (is_eater(a) ==> grow_by_of(b) == grow_by_of(a) + eaten_by(s0, j))
            &&& (!is_eater(a) ==> b.grow_by == a.grow_by)
        } by {
            assert(w.slots@[j] == fed(s0, j));
            lemma_eaten_le_prey(s0, j, n as int);
            if is_eater(s0[j]) {
                assert(grow_by_of(s0[j]) + eaten_by(s0, j) <= grow_by_of(s0[j]) + total_prey_size(
                    s0,
                ));
                assert(size_of(s0[j]) >= 0);
            }
        }
    }
}

/// The growth stage: folds every visible entity's pending growth into its
/// size and resets the pending growth to zero, independently across entities;
/// entities lacking either record, and every other attribute, are untouched.
pub fn grow_stage(w: &mut World)
    requires
        wf(old(w).slots@),
        grow_fits(old(w).slots@),
    ensures
        final(w).slots@ == grown_seq(old(w).slots@),
        wf(final(w).slots@),
        forall|k: int|
            0 <= k < old(w).slots@.len() && grow_applies(#[trigger] old(w).slots@[k]) ==> {
                let a = old(w).slots@[k];
                let b = final(w).slots@[k];
                &&& size_of(b) == size_of(a) + grow_by_of(a)
                &&& grow_by_of(b) == 0
            },
{
    let ghost s0 = w.slots@;
    let n = w.slots.len();
    let mut k: usize = 0;
    while k < n
        invariant
            n == s0.len(),
            w.slots@.len() == n,
            wf(s0),
            grow_fits(s0),
            forall|j: int| 0 <= j < k ==> w.slots@[j] == grown(#[trigger] s0[j]),
            forall|j: int| k <= j < n ==> w.slots@[j] == #[trigger] s0[j],
        decreases n - k,
    {
        let s = w.slots[k];
        if s.live && s.visible && s.size.is_some() && s.grow_by.is_some() {
            proof {
                assert(s == s0[k as int]);
                assert(grow_applies(s0[k as int]));
            }
            let mut t = s;
            t.size = Some(Size(s.size.unwrap().0 + s.grow_by.unwrap().0));
            t.grow_by = Some(GrowBy(0));
            w.slots[k] = t;
        }
        k += 1;
    }
    proof {
        assert(w.slots@ =~= grown_seq(s0));
        assert forall|j: int| 0 <= j < n implies wf_slot(#[trigger] w.slots@[j]) by {
            assert(w.slots@[j] == grown(s0[j]));
        }
    }
}

} // verus!
