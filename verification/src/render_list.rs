//! The rebuildable render list: a flat, append-only collection of
//! renderable entities with stable indices for one map activation,
//! frustum-culled iteration in insertion order, and per-entity dirty
//! flags kept as an incremental-update extension point.

use vstd::prelude::*;
use crate::geom::{Aabb, Frustum, Vec3M, frustum_intersects};

verus! {

/// What one render-list entry refers back to: a section of an active
/// trail, or an active POI.
#[derive(Clone, Copy, PartialEq, Eq, Structural, Debug)]
pub enum RenderId {
    TrailSection { pack_idx: usize, trail_idx: usize, section: usize },
    Poi { pack_idx: usize, poi_idx: usize },
}

/// One renderable entity: spatial bounds, a representative position,
/// whether it wants back-to-front ordering, and its render id.
#[derive(Clone, Copy, PartialEq, Eq, Structural, Debug)]
pub struct RenderEntity {
    pub bounds: Aabb,
    pub position: Vec3M,
    pub draw_ordered: bool,
    pub render_id: RenderId,
}

/// An append-only list under construction during one map activation.
pub struct RenderListBuilder {
    pub entities: Vec<RenderEntity>,
}

impl RenderListBuilder {
    /// Start an empty builder.
    pub fn new() -> (r: RenderListBuilder)
        ensures
            r.entities@ == Seq::<RenderEntity>::empty(),
    {
        RenderListBuilder { entities: Vec::new() }
    }

    /// Finalise into a queryable list, all dirty flags clear.
    pub fn build(self) -> (r: RenderList)
        ensures
            r.entities@ == self.entities@,
            r.dirty@.len() == self.entities@.len(),
            forall|i: int| 0 <= i < r.dirty@.len() ==> !r.dirty@[i],
    {
        let n = self.entities.len();
        let mut dirty: Vec<bool> = Vec::new();
        for i in 0..n
            invariant
                dirty@.len() == i,
                forall|j: int| 0 <= j < i ==> !dirty@[j],
        {
            dirty.push(false);
        }
        RenderList { entities: self.entities, dirty }
    }
}

/// The queryable render list of the current map activation.
pub struct RenderList {
    /// Entities, at indices stable for the lifetime of one activation.
    pub entities: Vec<RenderEntity>,
    /// Entities flagged for re-evaluation without a rebuild.
    pub dirty: Vec<bool>,
}

impl RenderList {
    /// An empty list, before any activation.
    pub fn new() -> (r: RenderList)
        ensures
            r.entities@ == Seq::<RenderEntity>::empty(),
            r.dirty@ == Seq::<bool>::empty(),
    {
        RenderList { entities: Vec::new(), dirty: Vec::new() }
    }

    /// Flags and entities stay in step and every box is well-shaped.
    pub open spec fn wf(self) -> bool {
        &&& self.dirty@.len() == self.entities@.len()
        &&& forall|i: int|
            0 <= i < self.entities@.len() ==> (#[trigger] self.entities@[i]).bounds.wf()
    }

    /// Start a fresh append-only list for the next activation.
    pub fn rebuild(&self) -> (r: RenderListBuilder)
        ensures
            r.entities@ == Seq::<RenderEntity>::empty(),
    {
        RenderListBuilder::new()
    }

    /// Flag one entity for re-evaluation; indices out of the current
    /// activation's range are ignored.
    pub fn mark_dirty(&mut self, index: usize)
        ensures
            final(self).entities@ == old(self).entities@,
            final(self).dirty@ == (if index < old(self).dirty@.len() {
                old(self).dirty@.update(index as int, true)
            } else {
                old(self).dirty@
            }),
    {
        if index < self.dirty.len() {
            self.dirty[index] = true;
        }
    }

    /// The culled sequence for drawing: exactly the entities whose
    /// bounds intersect the frustum, in insertion order, so that runs of
    /// same-variant entities stay contiguous for the caller's batching.
    pub fn get_entities_for_drawing(
        &self,
        cam_origin: Vec3M,
        cam_dir: Vec3M,
        frustum: &Frustum,
    ) -> (r: Vec<RenderEntity>)
        requires
            self.wf(),
            frustum.wf(),
        ensures
            r@ == self.entities@.filter(
                |e: RenderEntity| frustum_intersects(frustum.planes@, e.bounds),
            ),
    {
        let _ = cam_origin;
        let _ = cam_dir;
        let ghost pred = |e: RenderEntity| frustum_intersects(frustum.planes@, e.bounds);
        let n = self.entities.len();
        let mut r: Vec<RenderEntity> = Vec::new();
        assert(self.entities@.take(0).filter(pred) =~= Seq::<RenderEntity>::empty()) by {
            reveal_with_fuel(Seq::filter, 1);
        }
        for i in 0..n
            invariant
                self.wf(),
                frustum.wf(),
                n == self.entities@.len(),
                pred == (|e: RenderEntity| frustum_intersects(frustum.planes@, e.bounds)),
                r@ == self.entities@.take(i as int).filter(pred),
        {
            let e = self.entities[i];
            if frustum.intersects(&e.bounds) {
                r.push(e);
            }
            proof {
                reveal_with_fuel(Seq::filter, 1);
                assert(self.entities@.take(i + 1).drop_last() =~= self.entities@.take(i as int));
                assert(self.entities@.take(i + 1).last() == e);
            }
        }
        assert(self.entities@.take(n as int) =~= self.entities@);
        r
    }
}

} // verus!
