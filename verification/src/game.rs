//! The frame scheduler: one external tick runs the optional spawn, then
//! movement, boundary, interaction and growth in that fixed order, then the
//! commit point that applies deferred destructions and lets entities created
//! this frame join iteration from the next frame on.

use vstd::prelude::*;

use crate::components::{
    Color, EntitiesCount, GrowBy, Position, Rgba, Size, Velocity, COLOR_UNIT, SPAWN_SIZE,
    SPAWN_SPEED_LIMIT,
};
use crate::geometry::Vec2;
use crate::stages::{
    bounce_fits, bounce_stage, bounced_seq, eat_stage, fed_seq, grow_fits, grow_stage,
    growth_fits, grown_seq, is_prey, move_applies, move_fits, move_stage, moved_seq,
    prey_size_prefix, total_prey_size,
};
use crate::world::{committed_seq, wf, wf_slot, Slot, World};

verus! {

/// The frame-rate threshold above which a frame spawns one new entity, in
/// thousandths of a frame per second: spare capacity shows as a rate above
/// sixty.
pub const SPAWN_FPS_MILLI: u64 = 60000;

/// Whether a frame that measures this rate spawns a new entity.
pub open spec fn spawning_at(fps_milli: u64) -> bool {
    fps_milli > SPAWN_FPS_MILLI
}

/// The arena's centre along one dimension.
pub open spec fn arena_center(v: i64) -> i64 {
    (v / 2) as i64
}

/// The slot a spawn appends: at the arena centre, with the caller's randomly
/// drawn velocity, the fixed initial size, a half-transparent white colour,
/// and the renderable handle made for it — live at once, but invisible to
/// iteration until the commit point at the end of its creation frame.
pub open spec fn spawn_slot(width: i64, height: i64, vx: i64, vy: i64, visual: u64) -> Slot {
    Slot {
        live: true,
        visible: false,
        marked: false,
        pos: Some(Position(Vec2 { x: arena_center(width), y: arena_center(height) })),
        vel: Some(Velocity { velocity: Vec2 { x: vx, y: vy } }),
        size: Some(Size(SPAWN_SIZE)),
        grow_by: Some(GrowBy(0)),
        color: Some(
            Color {
                value: Rgba {
                    red: COLOR_UNIT,
                    green: COLOR_UNIT,
                    blue: COLOR_UNIT,
                    alpha: ((COLOR_UNIT / 2) as u32),
                },
            },
        ),
        visual: Some(visual),
    }
}

/// The store just after the optional spawn.
pub open spec fn with_spawn(s: Seq<Slot>, spawning: bool, sp: Slot) -> Seq<Slot> {
    if spawning {
        s.push(sp)
    } else {
        s
    }
}

/// The store after the four stages and the commit point of one frame.
pub open spec fn staged(s: Seq<Slot>, dt: int, width: i64, height: i64) -> Seq<Slot> {
    committed_seq(grown_seq(fed_seq(bounced_seq(moved_seq(s, dt), width, height))))
}

/// The store after one whole frame: the optional spawn, then the stages and
/// the commit point.
pub open spec fn frame_next(
    s: Seq<Slot>,
    dt: int,
    width: i64,
    height: i64,
    spawning: bool,
    sp: Slot,
) -> Seq<Slot> {
    staged(with_spawn(s, spawning, sp), dt, width, height)
}

/// A read-only snapshot of one entity as the drawing collaborator needs it.
#[derive(Clone, Copy, Debug, PartialEq, Eq, Structural)]
pub struct Drawable {
    pub position: Position,
    pub size: Size,
    pub color: Color,
    pub visual: u64,
}

/// Whether an entity is drawn: visible to iteration and owning all four
/// records a draw call needs.
pub open spec fn drawable_applies(s: Slot) -> bool {
    s.live && s.visible && s.pos is Some && s.size is Some && s.color is Some && s.visual is Some
}

/// The snapshot of one drawable entity.
pub open spec fn drawable_of(s: Slot) -> Drawable {
    Drawable { position: s.pos->0, size: s.size->0, color: s.color->0, visual: s.visual->0 }
}

/// The drawable snapshots of the entities at indices below `n`, in identity
/// order.
pub open spec fn drawables_prefix(s: Seq<Slot>, n: int) -> Seq<Drawable>
    decreases n,
{
    if n <= 0 {
        Seq::empty()
    } else {
        drawables_prefix(s, n - 1) + if drawable_applies(s[n - 1]) {
            seq![drawable_of(s[n - 1])]
        } else {
            Seq::empty()
        }
    }
}

/// The drawable snapshots of the whole store, in identity order.
pub open spec fn drawables_of(s: Seq<Slot>) -> Seq<Drawable> {
    drawables_prefix(s, s.len() as int)
}

/// Whether a frame with these inputs would spawn; lets the caller make the
/// renderable handle for the new entity before it advances the frame, and
/// only then.
pub fn will_spawn(fps_milli: u64) -> (r: bool)
    ensures
        r == spawning_at(fps_milli),
{
    fps_milli > SPAWN_FPS_MILLI
}

/// The simulation: the component store, and the created-entity counter owned
/// by the frame scheduler.
pub struct Game {
    pub world: World,
    pub entities_count: EntitiesCount,
}

/// When one frame's inputs are admissible: no negative time or arena bounds,
/// no coordinate, reflection or growth that would leave the machine integers,
/// and — on a spawning frame — a spawn velocity inside the symmetric range
/// and room for one more entity.
pub open spec fn frame_inputs_ok(
    g: Game,
    dt: i64,
    width: i64,
    height: i64,
    fps_milli: u64,
    spawn_vx: i64,
    spawn_vy: i64,
) -> bool {
    &&& dt >= 0
    &&& width >= 0
    &&& height >= 0
    &&& move_fits(g.world.slots@, dt as int)
    &&& bounce_fits(g.world.slots@)
    &&& growth_fits(g.world.slots@)
    &&& (spawning_at(fps_milli) ==> {
        &&& -SPAWN_SPEED_LIMIT <= spawn_vx <= SPAWN_SPEED_LIMIT
        &&& -SPAWN_SPEED_LIMIT <= spawn_vy <= SPAWN_SPEED_LIMIT
        &&& g.entities_count.0 < usize::MAX
        &&& SPAWN_SIZE + total_prey_size(g.world.slots@) <= i64::MAX
    })
}

impl Game {
    /// A fresh simulation: no entities yet, counter at zero.
    pub fn new() -> (r: Game)
        ensures
            r.world.slots@.len() == 0,
            r.entities_count.0 == 0,
            wf(r.world.slots@),
    {
        Game { world: World::new(), entities_count: EntitiesCount::new() }
    }

    /// How many entities iteration sees after the last commit point.
    pub fn live_entity_count(&self) -> (r: usize)
        ensures
            r == crate::world::live_visible_count(self.world.slots@, self.world.slots@.len() as int),
    {
        self.world.live_count()
    }

    /// Decides, exactly, whether one frame's inputs are admissible for
    /// `advance_frame`: an unverified driver calls this first and treats a
    /// refusal as the fatal fault it is.
    pub fn frame_ready(
        &self,
        dt: i64,
        width: i64,
        height: i64,
        fps_milli: u64,
        spawn_vx: i64,
        spawn_vy: i64,
    ) -> (r: bool)
        requires
            wf(self.world.slots@),
        ensures
            r == frame_inputs_ok(*self, dt, width, height, fps_milli, spawn_vx, spawn_vy),
    {
        let ghost s = self.world.slots@;
        if dt < 0 || width < 0 || height < 0 {
            return false;
        }
        let n = self.world.slots.len();

        // Every coordinate the movement stage would compute, and every
        // velocity the boundary stage might reflect, must stay a machine
        // integer.
        let mut k: usize = 0;
        while k < n
            invariant
                n == s.len(),
                s == self.world.slots@,
                wf(s),
                dt >= 0,
                0 <= k <= n,
                forall|j: int|
                    0 <= j < k && move_applies(#[trigger] s[j]) ==> {
                        &&& i64::MIN <= (s[j].pos->0).0.x + (s[j].vel->0).velocity.x * dt
                            <= i64::MAX
                        &&& i64::MIN <= (s[j].pos->0).0.y + (s[j].vel->0).velocity.y * dt
                            <= i64::MAX
                        &&& (s[j].vel->0).velocity.x > i64::MIN
                        &&& (s[j].vel->0).velocity.y > i64::MIN
                    },
            decreases n - k,
        {
            let sl = self.world.slots[k];
            if sl.live && sl.visible && sl.pos.is_some() && sl.vel.is_some() {
                proof {
                    assert(sl == s[k as int]);
                    assert(move_applies(s[k as int]));
                }
                let p = sl.pos.unwrap().0;
                let v = sl.vel.unwrap().velocity;
                if v.x == i64::MIN || v.y == i64::MIN {
                    proof {
                        assert(!bounce_fits(s)) by {
                            if bounce_fits(s) {
                                assert(move_applies(s[k as int]));
                            }
                        }
                    }
                    return false;
                }
                proof {
                    assert(-0x8000_0000_0000_0000 * 0x7fff_ffff_ffff_ffff <= (v.x as int) * (
                    dt as int) <= 0x8000_0000_0000_0000 * 0x8000_0000_0000_0000)
                        by (nonlinear_arith)
                        requires
                            -0x8000_0000_0000_0000 <= v.x <= 0x7fff_ffff_ffff_ffff,
                            0 <= dt <= 0x7fff_ffff_ffff_ffff,
                    ;
                    assert(-0x8000_0000_0000_0000 * 0x7fff_ffff_ffff_ffff <= (v.y as int) * (
                    dt as int) <= 0x8000_0000_0000_0000 * 0x8000_0000_0000_0000)
                        by (nonlinear_arith)
                        requires
                            -0x8000_0000_0000_0000 <= v.y <= 0x7fff_ffff_ffff_ffff,
                            0 <= dt <= 0x7fff_ffff_ffff_ffff,
                    ;
                }
                let nx: i128 = (p.x as i128) + (v.x as i128) * (dt as i128);
                let ny: i128 = (p.y as i128) + (v.y as i128) * (dt as i128);
                let lo: i128 = i64::MIN as i128;
                let hi: i128 = i64::MAX as i128;
                if nx < lo || nx > hi || ny < lo || ny > hi {
                    proof {
                        assert(!move_fits(s, dt as int)) by {
                            if move_fits(s, dt as int) {
                                assert(move_applies(s[k as int]));
                            }
                        }
                    }
                    return false;
                }
            }
            k += 1;
        }

        // Sum what the interaction stage could feed to any one eater; the sum
        // is taken in 128-bit arithmetic, which the slot count cannot
        // overflow.
        let mut total: i128 = 0;
        let mut k2: usize = 0;
        while k2 < n
            invariant
                n == s.len(),
                s == self.world.slots@,
                wf(s),
                0 <= k2 <= n,
                total == prey_size_prefix(s, k2 as int),
                0 <= total <= (k2 as int) * (i64::MAX as int),
            decreases n - k2,
        {
            let sl = self.world.slots[k2];
            if sl.live && sl.visible && sl.pos.is_some() && sl.size.is_some() {
                proof {
                    assert(sl == s[k2 as int]);
                    assert(is_prey(s[k2 as int]));
                    assert(((k2 as int) + 1) * (i64::MAX as int) == (k2 as int) * (i64::MAX as int)
                        + i64::MAX) by (nonlinear_arith);
                    assert(((k2 as int) + 1) * (i64::MAX as int) <= (n as int) * (i64::MAX as int))
                        by (nonlinear_arith)
                        requires
                            k2 + 1 <= n,
                    ;
                    assert((n as int) * (i64::MAX as int) <= 0xffff_ffff_ffff_ffff
                        * 0x7fff_ffff_ffff_ffff) by (nonlinear_arith)
                        requires
                            0 <= n <= 0xffff_ffff_ffff_ffff,
                    ;
                }
                total = total + (sl.size.unwrap().0 as i128);
            } else {
                proof {
                    assert(!is_prey(s[k2 as int]));
                }
            }
            k2 += 1;
        }
        proof {
            assert(total == total_prey_size(s));
            assert((n as int) * (i64::MAX as int) <= 0xffff_ffff_ffff_ffff * 0x7fff_ffff_ffff_ffff)
                by (nonlinear_arith)
                requires
                    0 <= n <= 0xffff_ffff_ffff_ffff,
            ;
        }

        // No entity's size plus its pending growth plus everything it could
        // absorb may leave the machine integers.
        let hi: i128 = i64::MAX as i128;
        let mut k3: usize = 0;
        while k3 < n
            invariant
                n == s.len(),
                s == self.world.slots@,
                wf(s),
                0 <= k3 <= n,
                total == total_prey_size(s),
                0 <= total <= 0xffff_ffff_ffff_ffff * 0x7fff_ffff_ffff_ffff,
                hi == i64::MAX as i128,
                forall|j: int|
                    0 <= j < k3 && #[trigger] s[j].size is Some && s[j].grow_by is Some ==> {
                        crate::stages::size_of(s[j]) + crate::stages::grow_by_of(s[j])
                            + total_prey_size(s) <= i64::MAX
                    },
            decreases n - k3,
        {
            let sl = self.world.slots[k3];
            if sl.size.is_some() && sl.grow_by.is_some() {
                proof {
                    assert(sl == s[k3 as int]);
                }
                let sz: i128 = sl.size.unwrap().0 as i128;
                let g: i128 = sl.grow_by.unwrap().0 as i128;
                if sz + g + total > hi {
                    proof {
                        assert(!growth_fits(s)) by {
                            if growth_fits(s) {
                                assert(s[k3 as int].size is Some);
                            }
                        }
                    }
                    return false;
                }
            }
            k3 += 1;
        }

        // On a spawning frame, the spawn velocity must lie in the symmetric
        // range, the counter must have room, and the new entity's size must
        // leave the growth sums representable.
        if fps_milli > SPAWN_FPS_MILLI {
            if spawn_vx < -SPAWN_SPEED_LIMIT || spawn_vx > SPAWN_SPEED_LIMIT {
                return false;
            }
            if spawn_vy < -SPAWN_SPEED_LIMIT || spawn_vy > SPAWN_SPEED_LIMIT {
                return false;
            }
            if self.entities_count.0 == usize::MAX {
                return false;
            }
            if (SPAWN_SIZE as i128) + total > hi {
                return false;
            }
        }
        true
    }

    /// A restartable, read-only snapshot of every drawable entity, taken in
    /// identity order: safe to re-iterate on every draw call.
    pub fn for_each_drawable(&self) -> (r: Vec<Drawable>)
        ensures
            r@ == drawables_of(self.world.slots@),
    {
        let n = self.world.slots.len();
        let mut r: Vec<Drawable> = Vec::new();
        let mut k: usize = 0;
        while k < n
            invariant
                n == self.world.slots@.len(),
                0 <= k <= n,
                r@ == drawables_prefix(self.world.slots@, k as int),
            decreases n - k,
        {
            let s = self.world.slots[k];
            if s.live && s.visible && s.pos.is_some() && s.size.is_some() && s.color.is_some()
                && s.visual.is_some() {
                r.push(
                    Drawable {
                        position: s.pos.unwrap(),
                        size: s.size.unwrap(),
                        color: s.color.unwrap(),
                        visual: s.visual.unwrap(),
                    },
                );
                proof {
                    assert(r@ =~= drawables_prefix(self.world.slots@, k as int + 1));
                }
            } else {
                proof {
                    assert(r@ =~= drawables_prefix(self.world.slots@, k as int + 1));
                }
            }
            k += 1;
        }
        r
    }

    /// Runs one whole frame: if the measured frame rate is over the spawn
    /// threshold, creates one entity at the arena centre with the given
    /// velocity and handle and counts it; then movement, boundary,
    /// interaction and growth in that order; then the commit point. The new
    /// store is exactly `frame_next` of the old one, so the spawned entity is
    /// untouched by this frame's stages and visible from the next frame on.
    pub fn advance_frame(
        &mut self,
        dt: i64,
        width: i64,
        height: i64,
        fps_milli: u64,
        spawn_vx: i64,
        spawn_vy: i64,
        spawn_visual: u64,
    )
        requires
            wf(old(self).world.slots@),
            frame_inputs_ok(*old(self), dt, width, height, fps_milli, spawn_vx, spawn_vy),
        ensures
            final(self).world.slots@ == frame_next(
                old(self).world.slots@,
                dt as int,
                width,
                height,
                spawning_at(fps_milli),
                spawn_slot(width, height, spawn_vx, spawn_vy, spawn_visual),
            ),
            wf(final(self).world.slots@),
            final(self).entities_count.0 == old(self).entities_count.0 + if spawning_at(
                fps_milli,
            ) {
                1int
            } else {
                0int
            },
    {
        let ghost s0 = self.world.slots@;
        let ghost sp = spawn_slot(width, height, spawn_vx, spawn_vy, spawn_visual);
        let spawning = fps_milli > SPAWN_FPS_MILLI;
        if spawning {
            let cx = width / 2;
            let cy = height / 2;
            self.world.slots.push(
                Slot {
                    live: true,
                    visible: false,
                    marked: false,
                    pos: Some(Position(Vec2 { x: cx, y: cy })),
                    vel: Some(Velocity { velocity: Vec2 { x: spawn_vx, y: spawn_vy } }),
                    size: Some(Size(SPAWN_SIZE)),
                    grow_by: Some(GrowBy(0)),
                    color: Some(
                        Color {
                            value: Rgba {
                                red: COLOR_UNIT,
                                green: COLOR_UNIT,
                                blue: COLOR_UNIT,
                                alpha: COLOR_UNIT / 2,
                            },
                        },
                    ),
                    visual: Some(spawn_visual),
                },
            );
            self.entities_count.0 = self.entities_count.0 + 1;
            proof {
                assert(self.world.slots@ =~= with_spawn(s0, spawning, sp));
            }
        }
        let ghost s1 = self.world.slots@;
        proof {
            assert(s1 == with_spawn(s0, spawning, sp));
            assert(wf(s1)) by {
                assert forall|k: int| 0 <= k < s1.len() implies wf_slot(#[trigger] s1[k]) by {
                    if k < s0.len() {
                        assert(s1[k] == s0[k]);
                    }
                }
            }
            assert(move_fits(s1, dt as int)) by {
                assert forall|k: int|
                    0 <= k < s1.len() && move_applies(#[trigger] s1[k]) implies {
                    &&& i64::MIN <= (s1[k].pos->0).0.x + (s1[k].vel->0).velocity.x * dt <= i64::MAX
                    &&& i64::MIN <= (s1[k].pos->0).0.y + (s1[k].vel->0).velocity.y * dt <= i64::MAX
                } by {
                    assert(k < s0.len() && s1[k] == s0[k]);
                }
            }
            assert(bounce_fits(s1)) by {
                assert forall|k: int|
                    0 <= k < s1.len() && move_applies(#[trigger] s1[k]) implies {
                    &&& (s1[k].vel->0).velocity.x > i64::MIN
                    &&& (s1[k].vel->0).velocity.y > i64::MIN
                } by {
                    assert(k < s0.len() && s1[k] == s0[k]);
                }
            }
            lemma_prey_prefix_eq(s0, s1, s0.len() as int);
            assert(total_prey_size(s1) == total_prey_size(s0)) by {
                if spawning {
                    assert(!is_prey(s1[s0.len() as int]));
                    assert(prey_size_prefix(s1, s1.len() as int) == prey_size_prefix(
                        s1,
                        s0.len() as int,
                    ));
                }
            }
            assert(growth_fits(s1)) by {
                assert forall|k: int|
                    0 <= k < s1.len() && #[trigger] s1[k].size is Some && s1[k].grow_by
                        is Some implies crate::stages::size_of(s1[k]) + crate::stages::grow_by_of(
                    s1[k],
                ) + total_prey_size(s1) <= i64::MAX by {
                    if k < s0.len() {
                        assert(s1[k] == s0[k]);
                    } else {
                        assert(s1[k] == sp);
                    }
                }
            }
        }
        move_stage(&mut self.world, dt);
        let ghost s2 = self.world.slots@;
        proof {
            assert(s2 == moved_seq(s1, dt as int));
            assert(bounce_fits(s2)) by {
                assert forall|k: int|
                    0 <= k < s2.len() && move_applies(#[trigger] s2[k]) implies {
                    &&& (s2[k].vel->0).velocity.x > i64::MIN
                    &&& (s2[k].vel->0).velocity.y > i64::MIN
                } by {
                    assert(s2[k] == crate::stages::moved(s1[k], dt as int));
                    assert(move_applies(s1[k]));
                }
            }
        }
        bounce_stage(&mut self.world, width, height);
        let ghost s3 = self.world.slots@;
        proof {
            assert(s3 == bounced_seq(s2, width, height));
            assert forall|k: int| 0 <= k < s3.len() implies {
                &&& is_prey(#[trigger] s3[k]) == is_prey(s1[k])
                &&& s3[k].size == s1[k].size
                &&& s3[k].grow_by == s1[k].grow_by
            } by {
                assert(s2[k] == crate::stages::moved(s1[k], dt as int));
                assert(s3[k] == crate::stages::bounced(s2[k], width, height));
            }
            lemma_prey_prefix_eq(s1, s3, s1.len() as int);
            assert(growth_fits(s3)) by {
                assert forall|k: int|
                    0 <= k < s3.len() && #[trigger] s3[k].size is Some && s3[k].grow_by
                        is Some implies crate::stages::size_of(s3[k]) + crate::stages::grow_by_of(
                    s3[k],
                ) + total_prey_size(s3) <= i64::MAX by {
                    assert(s1[k].size is Some && s1[k].grow_by is Some);
                }
            }
        }
        eat_stage(&mut self.world);
        grow_stage(&mut self.world);
        self.world.commit();
        proof {
            assert(self.world.slots@ == frame_next(s0, dt as int, width, height, spawning, sp));
        }
    }
}

/// Two stores whose first `n` slots agree on who is prey and on every size
/// hold the same total prey size over those slots.
pub proof fn lemma_prey_prefix_eq(a: Seq<Slot>, b: Seq<Slot>, n: int)
    requires
        0 <= n <= a.len(),
        n <= b.len(),
        forall|k: int|
            0 <= k < n ==> is_prey(#[trigger] b[k]) == is_prey(a[k]) && b[k].size == a[k].size,
    ensures
        prey_size_prefix(b, n) == prey_size_prefix(a, n),
    decreases n,
{
    if n > 0 {
        lemma_prey_prefix_eq(a, b, n - 1);
    }
}

} // verus!
