//! The collection of loaded packs: it drives map-transition activation
//! across all of them and merges their entities into one render list.

use vstd::prelude::*;
use crate::pack::{
    activated, inherited_defs, lemma_activated_append, load_run, paths_disabled,
    within_event_budget, xml_paths, Pack, UnloadedReason,
};
use crate::parser::ParseError;
use crate::render_list::{RenderEntity, RenderList, RenderListBuilder};
use crate::source::PackSource;
use crate::geom::{Frustum, Vec3M};

verus! {

/// Every loaded pack, every pack that could not load with its reason,
/// and the merged render list of the current map.
pub struct PackCollection {
    /// The packs in load order.
    pub loaded_packs: Vec<Pack>,
    /// Name and reason of every pack that is not loaded.
    pub unloaded_packs: Vec<(String, UnloadedReason)>,
    /// The map the render list was last built for.
    pub current_map: Option<i32>,
    /// The merged, frustum-queryable entity list.
    pub render_list: RenderList,
}

impl PackCollection {
    /// Every pack and the render list are well-formed.
    pub open spec fn wf(self) -> bool {
        &&& forall|i: int| 0 <= i < self.loaded_packs@.len() ==> (#[trigger] self.loaded_packs@[i]).wf()
        &&& self.render_list.wf()
    }

    /// An empty collection.
    pub fn new() -> (r: PackCollection)
        ensures
            r.wf(),
            r.loaded_packs@.len() == 0,
            r.unloaded_packs@.len() == 0,
            r.current_map is None,
    {
        PackCollection {
            loaded_packs: Vec::new(),
            unloaded_packs: Vec::new(),
            current_map: None,
            render_list: RenderList::new(),
        }
    }

    /// Forget every pack, loaded or not.
    pub fn clear(&mut self)
        ensures
            final(self).loaded_packs@.len() == 0,
            final(self).unloaded_packs@.len() == 0,
            final(self).current_map == old(self).current_map,
            final(self).render_list == old(self).render_list,
    {
        self.loaded_packs.clear();
        self.unloaded_packs.clear();
    }

    /// Load one pack from its byte streams.  Exactly one record is
    /// added: the pack itself when every definition file parses, else
    /// an unloaded entry carrying the failure; nothing else changes.
    pub fn load_pack(&mut self, name: String, source: PackSource)
        requires
            old(self).wf(),
        ensures
            final(self).wf(),
            final(self).current_map == old(self).current_map,
            final(self).render_list == old(self).render_list,
            forall|i: int|
                0 <= i < old(self).loaded_packs@.len() ==> final(self).loaded_packs@[i] == old(self).loaded_packs@[i],
            forall|i: int|
                0 <= i < old(self).unloaded_packs@.len() ==> final(self).unloaded_packs@[i] == old(self).unloaded_packs@[i],
            final(self).loaded_packs@.len() + final(self).unloaded_packs@.len() == old(self).loaded_packs@.len() + old(self).unloaded_packs@.len() + 1,
            ({
                let grew = final(self).loaded_packs@.len() == old(self).loaded_packs@.len() + 1;
                &&& (grew ==> {
                    let p = final(self).loaded_packs@.last();
                    &&& final(self).unloaded_packs@ == old(self).unloaded_packs@
                    &&& p.wf()
                    &&& p.name@ == name@
                    &&& p.source.files@ == source.files@
                    &&& p.active_pois@.len() == 0 && p.active_trails@.len() == 0
                    &&& (within_event_budget(source.files@) ==> p.defs@ == inherited_defs(
                        load_run(source.files@, xml_paths(source.files@).len() as int).0,
                    ))
                })
                &&& (!grew ==> {
                    &&& final(self).loaded_packs@ == old(self).loaded_packs@
                    &&& final(self).unloaded_packs@.last().0@ == name@
                    &&& final(self).unloaded_packs@.last().1 is LoadingFailed
                })
                &&& (within_event_budget(source.files@) ==> (grew <==> load_run(
                    source.files@,
                    xml_paths(source.files@).len() as int,
                ).1))
            }),
    {
        let reported = name.clone();
        match Pack::load(name, source) {
            Ok(p) => {
                self.loaded_packs.push(p);
            },
            Err(e) => {
                self.unloaded_packs.push((reported, UnloadedReason::LoadingFailed(e.message)));
            },
        }
    }

    /// Record a pack that never reached parsing: disabled by the user,
    /// or in a format the adapter does not recognise.
    pub fn record_unloaded(&mut self, name: String, reason: UnloadedReason)
        requires
            old(self).wf(),
        ensures
            final(self).wf(),
            final(self).unloaded_packs@.len() == old(self).unloaded_packs@.len() + 1,
            final(self).loaded_packs@ == old(self).loaded_packs@,
    {
        self.unloaded_packs.push((name, reason));
    }

    /// Force the user bits of exactly the named categories off in every
    /// pack, leaving every other bit unchanged, and recompute each
    /// pack's effective state.
    pub fn disable_paths(&mut self, paths: &Vec<String>)
        requires
            old(self).wf(),
        ensures
            final(self).wf(),
            final(self).loaded_packs@.len() == old(self).loaded_packs@.len(),
            final(self).unloaded_packs@ == old(self).unloaded_packs@,
            final(self).current_map == old(self).current_map,
            final(self).render_list == old(self).render_list,
            forall|p: int|
                0 <= p < old(self).loaded_packs@.len() ==> paths_disabled(
                    old(self).loaded_packs@[p],
                    #[trigger] final(self).loaded_packs@[p],
                    crate::source::strs_view(paths@),
                ),
    {
        let n = self.loaded_packs.len();
        let mut k: usize = 0;
        while k < n
            invariant
                n == self.loaded_packs@.len(),
                self.wf(),
                self.loaded_packs@.len() == old(self).loaded_packs@.len(),
                self.unloaded_packs@ == old(self).unloaded_packs@,
                self.current_map == old(self).current_map,
                self.render_list == old(self).render_list,
                k <= n,
                forall|p: int|
                    k <= p < n ==> self.loaded_packs@[p] == old(self).loaded_packs@[p],
                forall|p: int|
                    0 <= p < k ==> paths_disabled(
                        old(self).loaded_packs@[p],
                        #[trigger] self.loaded_packs@[p],
                        crate::source::strs_view(paths@),
                    ),
            decreases n - k,
        {
            self.loaded_packs[k].disable_paths(paths);
            k = k + 1;
        }
    }

    /// Activate every pack for the target map and rebuild the merged
    /// render list as the concatenation of the per-pack activations; a
    /// map already active is left alone.
    pub fn prepare_new_map(&mut self, map_id: i32)
        requires
            old(self).wf(),
        ensures
            final(self).wf(),
            final(self).current_map == Some(map_id),
            final(self).unloaded_packs@ == old(self).unloaded_packs@,
            final(self).loaded_packs@.len() == old(self).loaded_packs@.len(),
            old(self).current_map == Some(map_id) ==> *final(self) == *old(self),
            old(self).current_map != Some(map_id) ==> {
                &&& forall|p: int|
                    0 <= p < old(self).loaded_packs@.len() ==> activated(
                        old(self).loaded_packs@[p],
                        #[trigger] final(self).loaded_packs@[p],
                        final(self).render_list.entities@,
                        p,
                        map_id as int,
                    )
                &&& forall|i: int|
                    0 <= i < final(self).render_list.dirty@.len() ==> !final(self).render_list.dirty@[i]
                &&& final(self).render_list.dirty@.len() == final(self).render_list.entities@.len()
            },
    {
        match self.current_map {
            Some(m) if m == map_id => {
                return ;
            },
            _ => {},
        }
        self.current_map = Some(map_id);
        let builder = self.render_list.rebuild();
        let mut entities = builder.entities;
        assert(entities@.len() == 0);
        let n = self.loaded_packs.len();
        let mut k: usize = 0;
        while k < n
            invariant
                n == self.loaded_packs@.len(),
                self.wf(),
                self.loaded_packs@.len() == old(self).loaded_packs@.len(),
                self.unloaded_packs@ == old(self).unloaded_packs@,
                self.current_map == Some(map_id),
                k <= n,
                forall|p: int|
                    k <= p < n ==> self.loaded_packs@[p] == old(self).loaded_packs@[p],
                forall|p: int|
                    0 <= p < k ==> activated(
                        old(self).loaded_packs@[p],
                        #[trigger] self.loaded_packs@[p],
                        entities@,
                        p,
                        map_id as int,
                    ),
                forall|i: int|
                    0 <= i < entities@.len() ==> (#[trigger] entities@[i]).bounds.wf(),
            decreases n - k,
        {
            let ghost pre_entities = entities@;
            let ghost pre_packs = self.loaded_packs@;
            self.loaded_packs[k].prepare_new_map(k, map_id, &mut entities);
            proof {
                assert forall|p: int|
                    0 <= p < k + 1 implies activated(
                    old(self).loaded_packs@[p],
                    #[trigger] self.loaded_packs@[p],
                    entities@,
                    p,
                    map_id as int,
                ) by {
                    if p < k {
                        assert(self.loaded_packs@[p] == pre_packs[p]);
                        lemma_activated_append(
                            old(self).loaded_packs@[p],
                            self.loaded_packs@[p],
                            pre_entities,
                            entities@,
                            p,
                            map_id as int,
                        );
                    }
                }
            }
            k = k + 1;
        }
        let rebuilt = RenderListBuilder { entities };
        self.render_list = rebuilt.build();
    }

    /// Per-frame upkeep across all packs: an extension point, cheap by
    /// design.
    pub fn update(&mut self)
        requires
            old(self).wf(),
        ensures
            final(self).wf(),
    {
        let n = self.loaded_packs.len();
        let mut k: usize = 0;
        while k < n
            invariant
                n == self.loaded_packs@.len(),
                self.wf(),
            decreases n - k,
        {
            let mut rl = RenderList::new();
            std::mem::swap(&mut rl, &mut self.render_list);
            self.loaded_packs[k].update(&mut rl);
            std::mem::swap(&mut rl, &mut self.render_list);
            k = k + 1;
        }
    }

    /// The culled sequence for one frame's drawing: exactly the
    /// entities whose bounds intersect the frustum, in insertion order.
    pub fn get_entities_for_drawing(
        &self,
        cam_origin: Vec3M,
        cam_dir: Vec3M,
        frustum: &Frustum,
    ) -> (r: Vec<RenderEntity>)
        requires
            self.wf(),
            frustum.wf(),
        ensures
            r@ == self.render_list.entities@.filter(
                |e: RenderEntity| crate::geom::frustum_intersects(frustum.planes@, e.bounds),
            ),
    {
        self.render_list.get_entities_for_drawing(cam_origin, cam_dir, frustum)
    }
}

} // verus!
