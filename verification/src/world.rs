//! The component store and entity registry: per-entity attribute slots keyed
//! by a stable identity, with liveness tracking and destruction deferred to an
//! explicit commit point.

use vstd::prelude::*;

use crate::components::{rgba_wf, Color, GrowBy, Position, Size, Velocity};

verus! {

/// Every attribute record one entity can own, together with its registry
/// state. A slot is never reused: once its entity is destroyed it stays
/// empty, so an identity (the slot's index) stays stable for the whole run.
#[derive(Clone, Copy, Debug, PartialEq, Eq, Structural)]
pub struct Slot {
    /// The identity exists and has not been destroyed.
    pub live: bool,
    /// The entity takes part in iteration; false from creation until the next
    /// commit point.
    pub visible: bool,
    /// Destruction has been requested and waits for the next commit point.
    pub marked: bool,
    pub pos: Option<Position>,
    pub vel: Option<Velocity>,
    pub size: Option<Size>,
    pub grow_by: Option<GrowBy>,
    pub color: Option<Color>,
    /// An opaque renderable handle, issued by the drawing collaborator at
    /// creation time and never shared between entities.
    pub visual: Option<u64>,
}

/// A slot with no entity in it.
pub open spec fn empty_slot() -> Slot {
    Slot {
        live: false,
        visible: false,
        marked: false,
        pos: None,
        vel: None,
        size: None,
        grow_by: None,
        color: None,
        visual: None,
    }
}

/// A freshly created entity: live, carrying no attributes yet, and invisible
/// to iteration until the next commit point.
pub open spec fn fresh_slot() -> Slot {
    Slot { live: true, ..empty_slot() }
}

/// Well-formedness of one slot: sizes and pending growth are never negative,
/// colour channels are whole, a visible or marked entity is live, marks are
/// only held by visible entities, and a destroyed slot carries nothing.
pub open spec fn wf_slot(s: Slot) -> bool {
    &&& (s.size is Some ==> (s.size->0).0 >= 0)
    &&& (s.grow_by is Some ==> (s.grow_by->0).0 >= 0)
    &&& (s.color is Some ==> rgba_wf((s.color->0).value))
    &&& (s.visible ==> s.live)
    &&& (s.marked ==> s.live && s.visible)
    &&& (!s.live ==> s == empty_slot())
}

/// Well-formedness of the whole store.
pub open spec fn wf(s: Seq<Slot>) -> bool {
    forall|k: int| 0 <= k < s.len() ==> wf_slot(#[trigger] s[k])
}

/// What the commit point makes of one slot: a marked entity is destroyed and
/// its attributes removed; an entity created since the last commit becomes
/// visible; every other slot is untouched.
pub open spec fn committed(s: Slot) -> Slot {
    if s.marked {
        empty_slot()
    } else if s.live && !s.visible {
        Slot { visible: true, ..s }
    } else {
        s
    }
}

/// The whole store after the commit point.
pub open spec fn committed_seq(s: Seq<Slot>) -> Seq<Slot> {
    Seq::new(s.len(), |k: int| committed(s[k]))
}

/// How many entities an iteration over the store sees: live and visible.
pub open spec fn live_visible_count(s: Seq<Slot>, n: int) -> int
    decreases n,
{
    if n <= 0 {
        0
    } else {
        live_visible_count(s, n - 1) + if s[n - 1].live && s[n - 1].visible {
            1int
        } else {
            0int
        }
    }
}

/// The store itself: one slot per identity ever created.
pub struct World {
    pub slots: Vec<Slot>,
}

impl World {
    /// An empty store: no identities yet.
    pub fn new() -> (r: World)
        ensures
            r.slots@.len() == 0,
            wf(r.slots@),
    {
        World { slots: Vec::new() }
    }

    /// How many identities have ever been created in this store.
    pub fn slot_count(&self) -> (r: usize)
        ensures
            r == self.slots@.len(),
    {
        self.slots.len()
    }

    /// Creates a new entity identity: live, attribute-less, and invisible to
    /// iteration until the next commit point. Returns the identity.
    pub fn create(&mut self) -> (id: usize)
        requires
            wf(old(self).slots@),
        ensures
            id == old(self).slots@.len(),
            final(self).slots@ == old(self).slots@.push(fresh_slot()),
            wf(final(self).slots@),
    {
        let id = self.slots.len();
        self.slots.push(Slot {
            live: true,
            visible: false,
            marked: false,
            pos: None,
            vel: None,
            size: None,
            grow_by: None,
            color: None,
            visual: None,
        });
        proof {
            assert(final(self).slots@[id as int] == fresh_slot());
            assert(final(self).slots@ =~= old(self).slots@.push(fresh_slot()));
        }
        id
    }

    /// Gives a live entity a position record.
    pub fn insert_position(&mut self, id: usize, p: Position)
        requires
            wf(old(self).slots@),
            id < old(self).slots@.len(),
            old(self).slots@[id as int].live,
        ensures
            final(self).slots@ == old(self).slots@.update(
                id as int,
                (Slot { pos: Some(p), ..old(self).slots@[id as int] }),
            ),
            wf(final(self).slots@),
    {
        let mut s = self.slots[id];
        s.pos = Some(p);
        self.slots[id] = s;
    }

    /// Gives a live entity a velocity record.
    pub fn insert_velocity(&mut self, id: usize, v: Velocity)
        requires
            wf(old(self).slots@),
            id < old(self).slots@.len(),
            old(self).slots@[id as int].live,
        ensures
            final(self).slots@ == old(self).slots@.update(
                id as int,
                (Slot { vel: Some(v), ..old(self).slots@[id as int] }),
            ),
            wf(final(self).slots@),
    {
        let mut s = self.slots[id];
        s.vel = Some(v);
        self.slots[id] = s;
    }

    /// Gives a live entity a size record.
    pub fn insert_size(&mut self, id: usize, sz: Size)
        requires
            wf(old(self).slots@),
            id < old(self).slots@.len(),
            old(self).slots@[id as int].live,
            sz.0 >= 0,
        ensures
            final(self).slots@ == old(self).slots@.update(
                id as int,
                (Slot { size: Some(sz), ..old(self).slots@[id as int] }),
            ),
            wf(final(self).slots@),
    {
        let mut s = self.slots[id];
        s.size = Some(sz);
        self.slots[id] = s;
    }

    /// Gives a live entity a pending-growth record.
    pub fn insert_grow_by(&mut self, id: usize, g: GrowBy)
        requires
            wf(old(self).slots@),
            id < old(self).slots@.len(),
            old(self).slots@[id as int].live,
            g.0 >= 0,
        ensures
            final(self).slots@ == old(self).slots@.update(
                id as int,
                (Slot { grow_by: Some(g), ..old(self).slots@[id as int] }),
            ),
            wf(final(self).slots@),
    {
        let mut s = self.slots[id];
        s.grow_by = Some(g);
        self.slots[id] = s;
    }

    /// Gives a live entity a colour record.
    pub fn insert_color(&mut self, id: usize, c: Color)
        requires
            wf(old(self).slots@),
            id < old(self).slots@.len(),
            old(self).slots@[id as int].live,
            rgba_wf(c.value),
        ensures
            final(self).slots@ == old(self).slots@.update(
                id as int,
                (Slot { color: Some(c), ..old(self).slots@[id as int] }),
            ),
            wf(final(self).slots@),
    {
        let mut s = self.slots[id];
        s.color = Some(c);
        self.slots[id] = s;
    }

    /// Gives a live entity its renderable handle.
    pub fn insert_visual(&mut self, id: usize, h: u64)
        requires
            wf(old(self).slots@),
            id < old(self).slots@.len(),
            old(self).slots@[id as int].live,
        ensures
            final(self).slots@ == old(self).slots@.update(
                id as int,
                (Slot { visual: Some(h), ..old(self).slots@[id as int] }),
            ),
            wf(final(self).slots@),
    {
        let mut s = self.slots[id];
        s.visual = Some(h);
        self.slots[id] = s;
    }

    /// Requests destruction of an entity. The removal itself waits for the
    /// next commit point; asking again for the same identity, or for one that
    /// is already gone or not yet visible, is a safe no-op.
    pub fn mark_destroy(&mut self, id: usize)
        requires
            wf(old(self).slots@),
            id < old(self).slots@.len(),
        ensures
            final(self).slots@ == if old(self).slots@[id as int].live && old(
                self,
            ).slots@[id as int].visible {
                old(self).slots@.update(
                    id as int,
                    (Slot { marked: true, ..old(self).slots@[id as int] }),
                )
            } else {
                old(self).slots@
            },
            wf(final(self).slots@),
    {
        let mut s = self.slots[id];
        if s.live && s.visible {
            s.marked = true;
            self.slots[id] = s;
        } else {
            proof {
                assert(final(self).slots@ =~= old(self).slots@);
            }
        }
    }

    /// The commit point: applies every deferred destruction, then lets the
    /// entities created since the last commit join iteration.
    pub fn commit(&mut self)
        requires
            wf(old(self).slots@),
        ensures
            final(self).slots@ == committed_seq(old(self).slots@),
            wf(final(self).slots@),
    {
        let ghost s0 = self.slots@;
        let n = self.slots.len();
        let mut k: usize = 0;
        while k < n
            invariant
                n == s0.len(),
                self.slots@.len() == n,
                forall|j: int| 0 <= j < k ==> self.slots@[j] == committed(#[trigger] s0[j]),
                forall|j: int| k <= j < n ==> self.slots@[j] == #[trigger] s0[j],
                wf(s0),
            decreases n - k,
        {
            let s = self.slots[k];
            if s.marked {
                self.slots[k] = Slot {
                    live: false,
                    visible: false,
                    marked: false,
                    pos: None,
                    vel: None,
                    size: None,
                    grow_by: None,
                    color: None,
                    visual: None,
                };
            } else if s.live && !s.visible {
                let mut t = s;
                t.visible = true;
                self.slots[k] = t;
            }
            k += 1;
        }
        proof {
            assert(self.slots@ =~= committed_seq(s0));
            assert forall|j: int| 0 <= j < n implies wf_slot(#[trigger] self.slots@[j]) by {
                assert(self.slots@[j] == committed(s0[j]));
            }
        }
    }

    /// How many entities iteration sees now: live and visible.
    pub fn live_count(&self) -> (r: usize)
        ensures
            r == live_visible_count(self.slots@, self.slots@.len() as int),
    {
        let n = self.slots.len();
        let mut count: usize = 0;
        let mut k: usize = 0;
        while k < n
            invariant
                n == self.slots@.len(),
                0 <= k <= n,
                count == live_visible_count(self.slots@, k as int),
                count <= k,
            decreases n - k,
        {
            let s = self.slots[k];
            if s.live && s.visible {
                count += 1;
            }
            k += 1;
        }
        count
    }

    /// Reads an entity's position record, if it has one.
    pub fn position_of(&self, id: usize) -> (r: Option<Position>)
        requires
            id < self.slots@.len(),
        ensures
            r == self.slots@[id as int].pos,
    {
        self.slots[id].pos
    }

    /// Reads an entity's velocity record, if it has one.
    pub fn velocity_of(&self, id: usize) -> (r: Option<Velocity>)
        requires
            id < self.slots@.len(),
        ensures
            r == self.slots@[id as int].vel,
    {
        self.slots[id].vel
    }

    /// Reads an entity's size record, if it has one.
    pub fn size_of(&self, id: usize) -> (r: Option<Size>)
        requires
            id < self.slots@.len(),
        ensures
            r == self.slots@[id as int].size,
    {
        self.slots[id].size
    }

    /// Reads an entity's pending-growth record, if it has one.
    pub fn grow_by_of(&self, id: usize) -> (r: Option<GrowBy>)
        requires
            id < self.slots@.len(),
        ensures
            r == self.slots@[id as int].grow_by,
    {
        self.slots[id].grow_by
    }

    /// Reads an entity's colour record, if it has one.
    pub fn color_of(&self, id: usize) -> (r: Option<Color>)
        requires
            id < self.slots@.len(),
        ensures
            r == self.slots@[id as int].color,
    {
        self.slots[id].color
    }

    /// Reads an entity's renderable handle, if it has one.
    pub fn visual_of(&self, id: usize) -> (r: Option<u64>)
        requires
            id < self.slots@.len(),
        ensures
            r == self.slots@[id as int].visual,
    {
        self.slots[id].visual
    }

    /// Whether an identity is still live.
    pub fn is_live(&self, id: usize) -> (r: bool)
        requires
            id < self.slots@.len(),
        ensures
            r == self.slots@[id as int].live,
    {
        self.slots[id].live
    }

    /// Whether an entity takes part in iteration.
    pub fn is_visible(&self, id: usize) -> (r: bool)
        requires
            id < self.slots@.len(),
        ensures
            r == self.slots@[id as int].visible,
    {
        self.slots[id].visible
    }

    /// Whether an entity's destruction is pending.
    pub fn is_marked(&self, id: usize) -> (r: bool)
        requires
            id < self.slots@.len(),
        ensures
            r == self.slots@[id as int].marked,
    {
        self.slots[id].marked
    }
}

} // verus!
