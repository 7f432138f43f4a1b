//! One loaded marker pack: its parsed definitions, the category enable
//! state, the per-map active entities, and the texture registry with
//! its mark-and-sweep lifecycle across map transitions.

use vstd::prelude::*;
use crate::category::{self, cat_views, CategoryView, effective, get_index_of, has_key, idx_of};
use crate::geom::{Aabb, in_coord_range, Vec3M};
use crate::guid;
use crate::parser::{self, defs_wf, PackDefs, ParseError};
use crate::poi::Poi;
use crate::render_list::{RenderEntity, RenderId};
use crate::source::{file_of, files_view, strs_view, PackSource};
use crate::texture::{PackTextureHandle, TextureRegistry};
use crate::attributes::merged;

verus! {

/// Clamp a coordinate into the range the spatial code multiplies.
pub open spec fn clamp_coord(v: int) -> int {
    if v > 0x2000000000000000 {
        0x2000000000000000
    } else if v < -0x2000000000000000 {
        -0x2000000000000000
    } else {
        v
    }
}

fn clamp61(v: i128) -> (r: i64)
    ensures
        r as int == clamp_coord(v as int),
        -0x4000000000000000 < r < 0x4000000000000000,
{
    if v > 0x2000000000000000 {
        0x2000000000000000
    } else if v < -0x2000000000000000 {
        -0x2000000000000000
    } else {
        v as i64
    }
}

/// A live POI entity of the current map activation.
pub struct ActivePoi {
    /// Index of its category in the table, for fast filter lookup.
    pub category_idx: usize,
    /// Mirrors the category's effective bit, inverted.
    pub filtered: bool,
    /// Conservative spatial bounds.
    pub bounds: Aabb,
    /// Billboard position.
    pub position: Vec3M,
    /// Packed RGBA tint.
    pub tint: u32,
    /// Opacity in thousandths.
    pub opacity: i64,
    /// Scale in thousandths.
    pub scale: i64,
    /// The registry handle of its icon.
    pub icon: PackTextureHandle,
    /// Index of the source POI definition.
    pub poi_idx: usize,
}

/// A live trail entity of the current map activation.
pub struct ActiveTrail {
    /// Index of its category in the table, for fast filter lookup.
    pub category_idx: usize,
    /// Mirrors the category's effective bit, inverted.
    pub filtered: bool,
    /// Conservative bounds of each rendered section.
    pub section_bounds: Vec<Aabb>,
    /// Index of this trail's first entity in the render list.
    pub render_bookmark: usize,
    /// The registry handle of its path texture.
    pub texture: PackTextureHandle,
    /// Index of the source trail definition.
    pub trail_idx: usize,
}

/// Why a pack is not loaded.
pub enum UnloadedReason {
    Disabled,
    UnknownFormat,
    LoadingFailed(String),
}

/// One loaded pack and all its derived state.
pub struct Pack {
    /// The pack's name, as the collection registered it.
    pub name: String,
    /// Parsed definitions: categories, roots, POIs, trails.
    pub defs: PackDefs,
    /// Effective per-category bits (user AND ancestors).
    pub enabled_categories: Vec<bool>,
    /// What the user explicitly chose, defaulting to each category's
    /// default toggle.
    pub user_category_state: Vec<bool>,
    /// Identifiers of the active trails, unique within the pack.
    pub active_trail_ids: Vec<u128>,
    /// The active trails, index-aligned with their identifiers.
    pub active_trails: Vec<ActiveTrail>,
    /// Identifiers of the active POIs, unique within the pack.
    pub active_poi_ids: Vec<u128>,
    /// The active POIs, index-aligned with their identifiers.
    pub active_pois: Vec<ActivePoi>,
    /// The named byte streams the pack was loaded from.
    pub source: PackSource,
    /// The pack-local texture registry.
    pub textures: TextureRegistry,
    /// Per-trail dirty bits (an incremental-update extension point).
    pub dirty_trails: Vec<bool>,
    /// Per-POI dirty bits (an incremental-update extension point).
    pub dirty_pois: Vec<bool>,
    /// Index of this pack's first trail entity in the render list.
    pub render_list_bookmark: usize,
    /// Index of this pack's first POI entity in the render list.
    pub poi_bookmark: usize,
}

/// The asset at this path is present and decodes to an image.
pub open spec fn asset_decodes(files: Seq<(Seq<char>, Seq<u8>)>, path: Seq<char>) -> bool {
    match file_of(files, path) {
        Some(b) => crate::texture::decoded_rgba(b) is Some,
        None => false,
    }
}

/// Every resident texture slot is backed by a decodable asset of the
/// pack source: what makes re-resolving a resident slot honest.
pub open spec fn registry_backed(reg: TextureRegistry, files: Seq<(Seq<char>, Seq<u8>)>) -> bool {
    forall|h: int|
        0 <= h < reg.textures@.len() ==> (#[trigger] reg.loaded@[h] ==> slot_is_decode(
            reg.textures@[h],
            files,
        ))
}

/// A slot holds exactly the decode of its own asset's bytes.
pub open spec fn slot_is_decode(
    slot: crate::texture::PackTexture,
    files: Seq<(Seq<char>, Seq<u8>)>,
) -> bool {
    match file_of(files, slot.asset@) {
        Some(b) => match crate::texture::decoded_rgba(b) {
            Some(t) => slot.texture matches Some(img) && img.width == t.0 && img.height == t.1
                && img.rgba@ == t.2,
            None => false,
        },
        None => false,
    }
}

/// A POI definition that will activate: some category entry to index,
/// an icon named, and the icon's asset present and decodable.
pub open spec fn poi_activates(
    p: crate::poi::PoiView,
    cats: Seq<CategoryView>,
    files: Seq<(Seq<char>, Seq<u8>)>,
) -> bool {
    &&& cats.len() > 0
    &&& p.attrs.icon_file matches Some(path) && asset_decodes(files, path)
}

/// A trail definition that will activate: some category entry to
/// index, a path texture named, and its asset present and decodable.
pub open spec fn trail_activates(
    t: crate::trail::TrailView,
    cats: Seq<CategoryView>,
    files: Seq<(Seq<char>, Seq<u8>)>,
) -> bool {
    &&& cats.len() > 0
    &&& t.attrs.texture matches Some(path) && asset_decodes(files, path)
}

/// The category slot an entity resolves: its category's entry, else
/// the first slot when the name is unknown.
pub open spec fn resolved_cat_idx(cats: Seq<CategoryView>, name: Seq<char>) -> int {
    if has_key(cats, name) {
        idx_of(cats, name)
    } else {
        0
    }
}

/// Half-diagonal of a POI billboard's bounding cube: the absolute
/// scale times two, times the rational square-root-of-two bound.
pub open spec fn poi_half_diag(scale: int) -> int {
    (if scale < 0 {
        -scale
    } else {
        scale
    }) * 2 * 1415 / 1000
}

/// The centre of a well-formed box.
pub open spec fn aabb_center(b: Aabb) -> Vec3M {
    Vec3M {
        x: (b.min.x + (b.max.x - b.min.x) / 2) as i64,
        y: (b.min.y + (b.max.y - b.min.y) / 2) as i64,
        z: (b.min.z + (b.max.z - b.min.z) / 2) as i64,
    }
}

/// The axis-aligned box of one path segment.
pub open spec fn segment_box(a: Vec3M, b: Vec3M) -> Aabb {
    Aabb {
        min: Vec3M {
            x: if a.x <= b.x {
                a.x
            } else {
                b.x
            },
            y: if a.y <= b.y {
                a.y
            } else {
                b.y
            },
            z: if a.z <= b.z {
                a.z
            } else {
                b.z
            },
        },
        max: Vec3M {
            x: if a.x <= b.x {
                b.x
            } else {
                a.x
            },
            y: if a.y <= b.y {
                b.y
            } else {
                a.y
            },
            z: if a.z <= b.z {
                b.z
            } else {
                a.z
            },
        },
    }
}

/// Active trails whose definition token collides with no earlier
/// active identifier keep that token-derived identifier; only the
/// colliding entity is redrawn.
pub open spec fn trail_ids_keep_tokens(
    ids: Seq<u128>,
    actives: Seq<ActiveTrail>,
    trails: Seq<crate::trail::TrailView>,
) -> bool {
    forall|j: int|
        0 <= j < ids.len() ==> ((!exists|j2: int|
            0 <= j2 < j && ids[j2] as int == trails[(#[trigger] actives[j]).trail_idx as int].guid)
            ==> ids[j] as int == trails[actives[j].trail_idx as int].guid)
}

/// The POI analogue of `trail_ids_keep_tokens`.
pub open spec fn poi_ids_keep_tokens(
    ids: Seq<u128>,
    actives: Seq<ActivePoi>,
    pois: Seq<crate::poi::PoiView>,
) -> bool {
    forall|j: int|
        0 <= j < ids.len() ==> ((!exists|j2: int|
            0 <= j2 < j && ids[j2] as int == pois[(#[trigger] actives[j]).poi_idx as int].guid)
            ==> ids[j] as int == pois[actives[j].poi_idx as int].guid)
}

/// Every active trail's registry slot carries its own definition's
/// path-texture asset.
pub open spec fn trail_slots_tied(
    actives: Seq<ActiveTrail>,
    reg: TextureRegistry,
    trails: Seq<crate::trail::TrailView>,
) -> bool {
    forall|j: int|
        0 <= j < actives.len() ==> reg.textures@[(#[trigger] actives[j]).texture.0 as int].asset@
            == trails[actives[j].trail_idx as int].attrs.texture->Some_0
}

/// Every active POI's registry slot carries its own definition's icon
/// asset.
pub open spec fn poi_slots_tied(
    actives: Seq<ActivePoi>,
    reg: TextureRegistry,
    pois: Seq<crate::poi::PoiView>,
) -> bool {
    forall|j: int|
        0 <= j < actives.len() ==> reg.textures@[(#[trigger] actives[j]).icon.0 as int].asset@
            == pois[actives[j].poi_idx as int].attrs.icon_file->Some_0
}

/// Bookmark chaining, the sections' end, and every trail section's
/// render entity at its recorded slot: the placement half of an
/// activation, kept in one opaque bundle so callers carry it whole.
#[verifier::opaque]
pub open spec fn trail_placement(
    trails: Seq<ActiveTrail>,
    entities: Seq<RenderEntity>,
    base: int,
    pack_idx: int,
    end: int,
) -> bool {
    &&& forall|j: int|
        0 <= j < trails.len() ==> (#[trigger] trails[j]).render_bookmark as int == (if j == 0 {
            base
        } else {
            trails[j - 1].render_bookmark + trails[j - 1].section_bounds@.len()
        })
    &&& end == (if trails.len() == 0 {
        base
    } else {
        trails.last().render_bookmark + trails.last().section_bounds@.len() as int
    })
    &&& base <= end <= entities.len()
    &&& forall|j: int, s: int|
        0 <= j < trails.len() && 0 <= s < (#[trigger] trails[j]).section_bounds@.len()
            ==> #[trigger] entities[trails[j].render_bookmark + s] == (RenderEntity {
            bounds: trails[j].section_bounds@[s],
            position: aabb_center(trails[j].section_bounds@[s]),
            draw_ordered: false,
            render_id: RenderId::TrailSection {
                pack_idx: pack_idx as usize,
                trail_idx: j as usize,
                section: s as usize,
            },
        })
}

/// Chained bookmarks stay between the pack's first slot and the
/// sections' end.
proof fn lemma_chain_bounds(
    trails: Seq<ActiveTrail>,
    entities: Seq<RenderEntity>,
    base: int,
    pack_idx: int,
    end: int,
    j: int,
)
    requires
        trail_placement(trails, entities, base, pack_idx, end),
        0 <= j < trails.len(),
    ensures
        base <= trails[j].render_bookmark as int,
        trails[j].render_bookmark + trails[j].section_bounds@.len() <= end,
{
    reveal(trail_placement);
    lemma_chain_lower(trails, entities, base, pack_idx, end, j);
    lemma_chain_upper(trails, entities, base, pack_idx, end, j, trails.len() as int - 1);
}

proof fn lemma_chain_lower(
    trails: Seq<ActiveTrail>,
    entities: Seq<RenderEntity>,
    base: int,
    pack_idx: int,
    end: int,
    j: int,
)
    requires
        trail_placement(trails, entities, base, pack_idx, end),
        0 <= j < trails.len(),
    ensures
        base <= trails[j].render_bookmark as int,
    decreases j,
{
    reveal(trail_placement);
    if j > 0 {
        lemma_chain_lower(trails, entities, base, pack_idx, end, j - 1);
    }
}

proof fn lemma_chain_upper(
    trails: Seq<ActiveTrail>,
    entities: Seq<RenderEntity>,
    base: int,
    pack_idx: int,
    end: int,
    j: int,
    k: int,
)
    requires
        trail_placement(trails, entities, base, pack_idx, end),
        0 <= j <= k < trails.len(),
    ensures
        trails[j].render_bookmark + trails[j].section_bounds@.len() <= trails[k].render_bookmark
            + trails[k].section_bounds@.len(),
    decreases k - j,
{
    reveal(trail_placement);
    if j < k {
        lemma_chain_upper(trails, entities, base, pack_idx, end, j, k - 1);
    }
}

/// Placement survives appending entities at or past the sections' end.
proof fn lemma_placement_append(
    trails: Seq<ActiveTrail>,
    e1: Seq<RenderEntity>,
    e2: Seq<RenderEntity>,
    base: int,
    pack_idx: int,
    end: int,
)
    requires
        trail_placement(trails, e1, base, pack_idx, end),
        e1.len() <= e2.len(),
        forall|i: int| 0 <= i < e1.len() ==> e2[i] == e1[i],
    ensures
        trail_placement(trails, e2, base, pack_idx, end),
{
    reveal(trail_placement);
    assert forall|j: int, s: int|
        0 <= j < trails.len() && 0 <= s < (#[trigger] trails[j]).section_bounds@.len()
        implies #[trigger] e2[trails[j].render_bookmark + s] == (RenderEntity {
        bounds: trails[j].section_bounds@[s],
        position: aabb_center(trails[j].section_bounds@[s]),
        draw_ordered: false,
        render_id: RenderId::TrailSection {
            pack_idx: pack_idx as usize,
            trail_idx: j as usize,
            section: s as usize,
        },
    }) by {
        lemma_chain_bounds(trails, e1, base, pack_idx, end, j);
        assert(e2[trails[j].render_bookmark + s] == e1[trails[j].render_bookmark + s]);
    }
}

/// Placement survives per-entity changes that keep every bookkeeping
/// field: only the filtered flags may differ.
proof fn lemma_placement_refiltered(
    t1: Seq<ActiveTrail>,
    t2: Seq<ActiveTrail>,
    entities: Seq<RenderEntity>,
    base: int,
    pack_idx: int,
    end: int,
)
    requires
        trail_placement(t1, entities, base, pack_idx, end),
        t2.len() == t1.len(),
        forall|j: int|
            0 <= j < t1.len() ==> #[trigger] t2[j] == (ActiveTrail {
                filtered: t2[j].filtered,
                ..t1[j]
            }),
    ensures
        trail_placement(t2, entities, base, pack_idx, end),
{
    reveal(trail_placement);
    assert forall|j: int|
        0 <= j < t2.len() implies (#[trigger] t2[j]).render_bookmark as int == (if j == 0 {
        base
    } else {
        t2[j - 1].render_bookmark + t2[j - 1].section_bounds@.len()
    }) by {
        assert(t2[j].render_bookmark == t1[j].render_bookmark);
        if j > 0 {
            assert(t2[j - 1].render_bookmark == t1[j - 1].render_bookmark);
            assert(t2[j - 1].section_bounds@ == t1[j - 1].section_bounds@);
        }
    }
    if t1.len() > 0 {
        assert(t2.last() == t2[t1.len() - 1]);
    }
    assert forall|j: int, s: int|
        0 <= j < t2.len() && 0 <= s < (#[trigger] t2[j]).section_bounds@.len()
        implies #[trigger] entities[t2[j].render_bookmark + s] == (RenderEntity {
        bounds: t2[j].section_bounds@[s],
        position: aabb_center(t2[j].section_bounds@[s]),
        draw_ordered: false,
        render_id: RenderId::TrailSection {
            pack_idx: pack_idx as usize,
            trail_idx: j as usize,
            section: s as usize,
        },
    }) by {
        assert(t2[j].section_bounds@ == t1[j].section_bounds@);
        assert(t2[j].render_bookmark == t1[j].render_bookmark);
    }
}

/// Placement extends by one trail whose sections were appended at the
/// old end.
proof fn lemma_placement_push(
    prev: Seq<ActiveTrail>,
    at: ActiveTrail,
    e1: Seq<RenderEntity>,
    e2: Seq<RenderEntity>,
    base: int,
    pack_idx: int,
)
    requires
        trail_placement(prev, e1, base, pack_idx, e1.len() as int),
        at.render_bookmark as int == e1.len() as int,
        e2.len() == e1.len() + at.section_bounds@.len(),
        forall|i: int| 0 <= i < e1.len() ==> e2[i] == e1[i],
        forall|s: int|
            0 <= s < at.section_bounds@.len() ==> #[trigger] e2[e1.len() + s] == (RenderEntity {
                bounds: at.section_bounds@[s],
                position: aabb_center(at.section_bounds@[s]),
                draw_ordered: false,
                render_id: RenderId::TrailSection {
                    pack_idx: pack_idx as usize,
                    trail_idx: prev.len() as usize,
                    section: s as usize,
                },
            }),
    ensures
        trail_placement(prev.push(at), e2, base, pack_idx, e2.len() as int),
{
    reveal(trail_placement);
    let t2 = prev.push(at);
    assert forall|j: int|
        0 <= j < t2.len() implies (#[trigger] t2[j]).render_bookmark as int == (if j == 0 {
        base
    } else {
        t2[j - 1].render_bookmark + t2[j - 1].section_bounds@.len()
    }) by {
        if j < prev.len() {
            assert(t2[j] == prev[j]);
            if j > 0 {
                assert(t2[j - 1] == prev[j - 1]);
            }
        } else {
            assert(t2[j] == at);
            if j > 0 {
                assert(t2[j - 1] == prev[j - 1]);
            }
        }
    }
    assert(t2.last() == at);
    assert forall|j: int, s: int|
        0 <= j < t2.len() && 0 <= s < (#[trigger] t2[j]).section_bounds@.len()
        implies #[trigger] e2[t2[j].render_bookmark + s] == (RenderEntity {
        bounds: t2[j].section_bounds@[s],
        position: aabb_center(t2[j].section_bounds@[s]),
        draw_ordered: false,
        render_id: RenderId::TrailSection {
            pack_idx: pack_idx as usize,
            trail_idx: j as usize,
            section: s as usize,
        },
    }) by {
        if j < prev.len() {
            assert(t2[j] == prev[j]);
            lemma_chain_bounds(prev, e1, base, pack_idx, e1.len() as int, j);
            assert(e2[prev[j].render_bookmark + s] == e1[prev[j].render_bookmark + s]);
        } else {
            assert(t2[j] == at);
        }
    }
}

/// The activation relation only reads the entity list at indices below
/// the pack's own end: appending later packs' entities preserves it.
pub proof fn lemma_activated_append(
    pre: Pack,
    post: Pack,
    e1: Seq<RenderEntity>,
    e2: Seq<RenderEntity>,
    pack_idx: int,
    map_id: int,
)
    requires
        activated(pre, post, e1, pack_idx, map_id),
        e1.len() <= e2.len(),
        forall|i: int| 0 <= i < e1.len() ==> e2[i] == e1[i],
    ensures
        activated(pre, post, e2, pack_idx, map_id),
{
    lemma_placement_append(
        post.active_trails@,
        e1,
        e2,
        post.render_list_bookmark as int,
        pack_idx,
        post.poi_bookmark as int,
    );
    assert forall|j: int|
        0 <= j < post.active_pois@.len() as int implies e2[post.poi_bookmark + j]
        == (RenderEntity {
        bounds: (#[trigger] post.active_pois@[j]).bounds,
        position: post.active_pois@[j].position,
        draw_ordered: true,
        render_id: RenderId::Poi { pack_idx: pack_idx as usize, poi_idx: j as usize },
    }) by {
        assert(e2[post.poi_bookmark + j] == e1[post.poi_bookmark + j]);
    }
}

/// Some listed path names this table entry.
pub open spec fn named_in(cats: Seq<CategoryView>, i: int, paths: Seq<Seq<char>>) -> bool {
    exists|k: int| 0 <= k < paths.len() && #[trigger] paths[k] == cats[i].full_id
}

/// What the user-bit vector becomes when the listed paths are forced
/// off, and the recompute that follows: the whole effect of disabling.
pub open spec fn paths_disabled(pre: Pack, post: Pack, paths: Seq<Seq<char>>) -> bool {
    &&& post.defs@ == pre.defs@
    &&& post.name@ == pre.name@
    &&& post.source.files@ == pre.source.files@
    &&& post.user_category_state@.len() == pre.user_category_state@.len()
    &&& forall|i: int|
        0 <= i < pre.user_category_state@.len() && named_in(pre.defs@.cats, i, paths)
            ==> !post.user_category_state@[i]
    &&& forall|i: int|
        0 <= i < pre.user_category_state@.len() && !named_in(pre.defs@.cats, i, paths)
            ==> post.user_category_state@[i] == pre.user_category_state@[i]
    &&& post.enabled_categories@.len() == pre.defs@.cats.len()
    &&& forall|i: int|
        0 <= i < pre.defs@.cats.len() ==> post.enabled_categories@[i] == effective(
            pre.defs@.cats,
            post.user_category_state@,
            i,
        )
    &&& filters_match(post)
    &&& post.active_pois@.len() == pre.active_pois@.len()
    &&& post.active_trails@.len() == pre.active_trails@.len()
    &&& forall|i: int|
        0 <= i < pre.active_pois@.len() ==> post.active_pois@[i] == (ActivePoi {
            filtered: post.active_pois@[i].filtered,
            ..pre.active_pois@[i]
        })
    &&& forall|i: int|
        0 <= i < pre.active_trails@.len() ==> post.active_trails@[i] == (ActiveTrail {
            filtered: post.active_trails@[i].filtered,
            ..pre.active_trails@[i]
        })
}

/// The POIs a copy query yields: for each unfiltered active POI whose
/// definition carries a copy value, that definition, in activation
/// order.
pub open spec fn copyable_of(
    actives: Seq<ActivePoi>,
    pois: Seq<crate::poi::PoiView>,
) -> Seq<crate::poi::PoiView>
    decreases actives.len(),
{
    if actives.len() == 0 {
        Seq::empty()
    } else {
        copyable_of(actives.drop_last(), pois) + (if !actives.last().filtered && pois[
            actives.last().poi_idx as int].attrs.copy_value is Some {
            seq![pois[actives.last().poi_idx as int]]
        } else {
            Seq::empty()
        })
    }
}

/// Views of a POI list.
pub open spec fn poi_views(s: Seq<Poi>) -> Seq<crate::poi::PoiView> {
    s.map(|_i: int, p: Poi| p@)
}

/// The definition files of a source, in stored order.
pub open spec fn xml_paths(files: Seq<(String, Vec<u8>)>) -> Seq<Seq<char>> {
    crate::source::file_paths(files).filter(|p: Seq<char>| crate::source::has_ext(p, "xml"@))
}

/// No definitions at all.
pub open spec fn empty_defs() -> parser::PackDefsView {
    parser::PackDefsView {
        cats: Seq::empty(),
        roots: Seq::empty(),
        pois: Seq::empty(),
        trails: Seq::empty(),
    }
}

/// The parse of the first `i` definition files: the folded definitions,
/// and whether every file so far parsed cleanly.
pub open spec fn load_run(files: Seq<(String, Vec<u8>)>, i: int) -> (parser::PackDefsView, bool)
    decreases i,
{
    if i <= 0 {
        (empty_defs(), true)
    } else {
        let prev = load_run(files, i - 1);
        if !prev.1 {
            prev
        } else {
            match file_of(files_view(files), xml_paths(files)[i - 1]) {
                Some(bytes) => {
                    let m = parser::parse_run(
                        parser::init_model(prev.0),
                        parser::events_of(bytes),
                        files_view(files),
                    );
                    (m.defs, m.done && !m.failed)
                },
                None => (prev.0, false),
            }
        }
    }
}

/// Once a file fails to parse, the run stays failed with the
/// definitions it had reached.
proof fn lemma_load_run_sticky(files: Seq<(String, Vec<u8>)>, i: int, n: int)
    requires
        0 <= i <= n,
        !load_run(files, i).1,
    ensures
        load_run(files, n) == load_run(files, i),
    decreases n - i,
{
    if n > i {
        lemma_load_run_sticky(files, i, n - 1);
    }
}

/// Every definition file's event stream fits the defensive budget: the
/// condition under which the load contract is exact.
pub open spec fn within_event_budget(files: Seq<(String, Vec<u8>)>) -> bool {
    forall|k: int|
        0 <= k < xml_paths(files).len() ==> match file_of(
            files_view(files),
            #[trigger] xml_paths(files)[k],
        ) {
            Some(b) => parser::events_of(b).len() <= parser::event_budget(b.len()),
            None => true,
        }
}

/// The definitions after both inheritance passes: every category entry
/// carries its resolved bundle, every POI and trail its own bundle with
/// gaps filled from its resolved category.
pub open spec fn inherited_defs(d: parser::PackDefsView) -> parser::PackDefsView {
    let rc = Seq::new(
        d.cats.len(),
        |i: int| CategoryView { attrs: category::resolved_attrs(d.cats, i), ..d.cats[i] },
    );
    parser::PackDefsView {
        cats: rc,
        roots: d.roots,
        pois: Seq::new(
            d.pois.len(),
            |k: int|
                crate::poi::PoiView {
                    attrs: if has_key(rc, d.pois[k].category) {
                        merged(d.pois[k].attrs, rc[idx_of(rc, d.pois[k].category)].attrs)
                    } else {
                        d.pois[k].attrs
                    },
                    ..d.pois[k]
                },
        ),
        trails: Seq::new(
            d.trails.len(),
            |k: int|
                crate::trail::TrailView {
                    attrs: if has_key(rc, d.trails[k].category) {
                        merged(d.trails[k].attrs, rc[idx_of(rc, d.trails[k].category)].attrs)
                    } else {
                        d.trails[k].attrs
                    },
                    ..d.trails[k]
                },
        ),
    }
}

impl Pack {
    /// The structural invariant of a loaded pack.
    pub open spec fn wf(self) -> bool {
        &&& defs_wf(self.defs@)
        &&& self.enabled_categories@.len() == self.defs@.cats.len()
        &&& self.user_category_state@.len() == self.defs@.cats.len()
        &&& self.textures.wf()
        &&& registry_backed(self.textures, files_view(self.source.files@))
        &&& self.active_trail_ids@.len() == self.active_trails@.len()
        &&& self.active_poi_ids@.len() == self.active_pois@.len()
        &&& self.dirty_trails@.len() == self.active_trails@.len()
        &&& self.dirty_pois@.len() == self.active_pois@.len()
        &&& forall|i: int|
            0 <= i < self.active_pois@.len() ==> (#[trigger] self.active_pois@[i]).category_idx
                < self.defs@.cats.len() && self.active_pois@[i].icon.0
                < self.textures.textures@.len() && self.active_pois@[i].bounds.wf()
        &&& forall|i: int|
            0 <= i < self.active_trails@.len() ==> (#[trigger] self.active_trails@[i]).category_idx
                < self.defs@.cats.len() && self.active_trails@[i].texture.0
                < self.textures.textures@.len()
    }

    /// Load a pack from its byte streams: parse every definition file,
    /// then run the two inheritance passes once, then seed the enable
    /// state from the default toggles.  A file that does not parse is
    /// fatal for the pack.
    pub fn load(name: String, source: PackSource) -> (r: Result<Pack, ParseError>)
        ensures
            r matches Ok(p) ==> p.wf() && p.active_pois@.len() == 0 && p.active_trails@.len() == 0
                && p.user_category_state@ == Seq::new(
                p.defs@.cats.len(),
                |i: int| p.defs@.cats[i].default_toggle,
            ) && p.enabled_categories@ == p.user_category_state@ && p.name@ == name@
                && p.source.files@ == source.files@,
            within_event_budget(source.files@) ==> {
                let run = load_run(source.files@, xml_paths(source.files@).len() as int);
                &&& (r is Ok <==> run.1)
                &&& (r matches Ok(p) ==> p.defs@ == inherited_defs(run.0))
            },
    {
        let mut defs = PackDefs::new();
        assert(defs_wf(defs@));
        assert(defs@ =~~= empty_defs());
        let files = source.all_files_with_ext("xml");
        proof {
            assert(strs_view(files@) =~= xml_paths(source.files@));
        }
        let ghost nx = xml_paths(source.files@).len() as int;
        let n = files.len();
        for i in 0..n
            invariant
                n == files@.len(),
                strs_view(files@) == xml_paths(source.files@),
                nx == xml_paths(source.files@).len() as int,
                defs_wf(defs@),
                within_event_budget(source.files@) ==> load_run(source.files@, i as int).1
                    && defs@ == load_run(source.files@, i as int).0,
        {
            proof {
                assert(files@[i as int]@ == xml_paths(source.files@)[i as int]);
            }
            let bytes = match source.load_asset(files[i].as_str()) {
                Some(b) => b,
                None => {
                    // a listed path is always present; treat a miss as
                    // an unreadable source
                    proof {
                        if within_event_budget(source.files@) {
                            lemma_load_run_sticky(source.files@, i + 1, nx);
                        }
                    }
                    return Err(
                        ParseError {
                            message: files[i].clone(),
                            row: 0,
                            column: 0,
                        },
                    );
                },
            };
            let ghost raw = bytes@;
            let bytes = bytes.clone();
            proof {
                assert(bytes@ =~= raw);
            }
            match parser::parse_pack_def(&mut defs, &source, &bytes) {
                Ok(()) => {},
                Err(e) => {
                    proof {
                        if within_event_budget(source.files@) {
                            lemma_load_run_sticky(source.files@, i + 1, nx);
                        }
                    }
                    return Err(e);
                },
            }
        }
        proof {
            parser::lemma_defs_wf_table(defs@);
        }
        let ghost pre_cats = cat_views(defs.categories@);
        let ghost pre_defs = defs@;
        category::merge_category_attributes(&mut defs.categories);
        proof {
            assert(defs@.pois =~= pre_defs.pois);
            assert(defs@.trails =~= pre_defs.trails);
            assert forall|k: int| 0 <= k < defs@.pois.len() implies parser::poi_bounded(
                #[trigger] defs@.pois[k],
            ) by {
                assert(defs@.pois[k] == pre_defs.pois[k]);
            }
            assert forall|k: int| 0 <= k < defs@.trails.len() implies parser::trail_bounded(
                #[trigger] defs@.trails[k],
            ) by {
                assert(defs@.trails[k] == pre_defs.trails[k]);
            }
        }
        proof {
            assert forall|i: int| 0 <= i < defs@.cats.len() implies crate::parser::cat_shape_wf(
                #[trigger] defs@.cats[i],
            ) by {
                assert(defs@.cats[i] == (CategoryView {
                    attrs: category::resolved_attrs(pre_cats, i),
                    ..pre_cats[i]
                }));
            }
            assert(defs_wf(defs@)) by {
                assert forall|i: int, j: int|
                    0 <= i < j < defs@.cats.len() implies defs@.cats[i].full_id
                    != defs@.cats[j].full_id by {
                    assert(defs@.cats[i].full_id == pre_cats[i].full_id);
                    assert(defs@.cats[j].full_id == pre_cats[j].full_id);
                }
                assert forall|k: int|
                    0 <= k < defs@.cats.len() implies ((#[trigger] defs@.cats[k]).parent_id
                    matches Some(p) ==> (has_key(defs@.cats, p) || crate::parser::cat_on_stack(
                    Seq::empty(),
                    p,
                ))) by {
                    match defs@.cats[k].parent_id {
                        Some(p) => {
                            assert(pre_cats[k].parent_id == Some(p));
                            assert(has_key(pre_cats, p));
                            let w = choose|w: int|
                                0 <= w < pre_cats.len() && pre_cats[w].full_id == p;
                            assert(defs@.cats[w].full_id == p);
                        },
                        None => {},
                    }
                }
            }
        }
        let ghost mid_defs = defs@;
        apply_marker_attributes(&mut defs);
        proof {
            assert(defs@.cats =~= mid_defs.cats);
            assert(defs@.roots =~= mid_defs.roots);
            assert forall|k: int| 0 <= k < defs@.pois.len() implies parser::poi_bounded(
                #[trigger] defs@.pois[k],
            ) by {
                assert(defs@.pois[k].x == mid_defs.pois[k].x);
                assert(defs@.pois[k].y == mid_defs.pois[k].y);
                assert(defs@.pois[k].z == mid_defs.pois[k].z);
            }
            assert forall|k: int| 0 <= k < defs@.trails.len() implies parser::trail_bounded(
                #[trigger] defs@.trails[k],
            ) by {
                assert(defs@.trails[k].points == mid_defs.trails[k].points);
            }
            assert(defs_wf(defs@));
            // the definitions are exactly the parsed ones after both passes
            let inh = inherited_defs(pre_defs);
            assert forall|i: int| 0 <= i < defs@.cats.len() implies defs@.cats[i] == inh.cats[i] by {
                assert(defs@.cats[i] == (CategoryView {
                    attrs: category::resolved_attrs(pre_cats, i),
                    ..pre_cats[i]
                }));
            }
            assert forall|k: int| 0 <= k < defs@.pois.len() implies defs@.pois[k] == inh.pois[k] by {
                assert(mid_defs.pois[k] == pre_defs.pois[k]);
                assert(mid_defs.cats =~= inh.cats);
            }
            assert forall|k: int|
                0 <= k < defs@.trails.len() implies defs@.trails[k] == inh.trails[k] by {
                assert(mid_defs.trails[k] == pre_defs.trails[k]);
                assert(mid_defs.cats =~= inh.cats);
            }
            assert(defs@ =~~= inh);
        }
        let ncats = defs.categories.len();
        let mut enabled: Vec<bool> = Vec::new();
        for i in 0..ncats
            invariant
                ncats == defs@.cats.len(),
                defs@ == defs@,
                enabled@.len() == i,
                forall|j: int| 0 <= j < i ==> enabled@[j] == defs@.cats[j].default_toggle,
        {
            enabled.push(defs.categories[i].default_toggle);
        }
        let mut user: Vec<bool> = Vec::new();
        for i in 0..ncats
            invariant
                ncats == defs@.cats.len(),
                enabled@.len() == ncats,
                forall|j: int| 0 <= j < ncats ==> enabled@[j] == defs@.cats[j].default_toggle,
                user@.len() == i,
                forall|j: int| 0 <= j < i ==> user@[j] == enabled@[j],
        {
            user.push(enabled[i]);
        }
        assert(user@ =~= enabled@);
        assert(user@ =~= Seq::new(defs@.cats.len(), |i: int| defs@.cats[i].default_toggle));
        Ok(
            Pack {
                name,
                defs,
                enabled_categories: enabled,
                user_category_state: user,
                active_trail_ids: Vec::new(),
                active_trails: Vec::new(),
                active_poi_ids: Vec::new(),
                active_pois: Vec::new(),
                source,
                textures: TextureRegistry::new(),
                dirty_trails: Vec::new(),
                dirty_pois: Vec::new(),
                render_list_bookmark: 0,
                poi_bookmark: 0,
            },
        )
    }

    /// Recompute the effective category bits from the user bits, full
    /// top-down, and refresh every active entity's filtered flag: the
    /// sole contract for changing visibility.
    pub fn recompute_enabled(&mut self)
        requires
            old(self).wf(),
        ensures
            final(self).wf(),
            *final(self) == (Pack {
                enabled_categories: final(self).enabled_categories,
                active_trails: final(self).active_trails,
                active_pois: final(self).active_pois,
                ..*old(self)
            }),
            final(self).enabled_categories@.len() == old(self).defs@.cats.len(),
            forall|i: int|
                0 <= i < old(self).defs@.cats.len() ==> final(self).enabled_categories@[i]
                    == effective(
                    old(self).defs@.cats,
                    old(self).user_category_state@,
                    i,
                ),
            filters_match(*final(self)),
            final(self).active_pois@.len() == old(self).active_pois@.len(),
            final(self).active_trails@.len() == old(self).active_trails@.len(),
            forall|i: int|
                0 <= i < old(self).active_pois@.len() ==> final(self).active_pois@[i] == (ActivePoi {
                    filtered: final(self).active_pois@[i].filtered,
                    ..old(self).active_pois@[i]
                }),
            forall|i: int|
                0 <= i < old(self).active_trails@.len() ==> final(self).active_trails@[i] == (ActiveTrail {
                    filtered: final(self).active_trails@[i].filtered,
                    ..old(self).active_trails@[i]
                }),
    {
        proof {
            parser::lemma_defs_wf_table(self.defs@);
        }
        let eff = category::recompute_enabled(&self.defs.categories, &self.user_category_state);
        self.enabled_categories = eff;
        self.update_filters();
    }

    /// Refresh every active entity's filtered flag from the effective
    /// category bits.
    fn update_filters(&mut self)
        requires
            old(self).wf(),
            old(self).enabled_categories@.len() == old(self).defs@.cats.len(),
        ensures
            final(self).wf(),
            *final(self) == (Pack {
                active_trails: final(self).active_trails,
                active_pois: final(self).active_pois,
                ..*old(self)
            }),
            filters_match(*final(self)),
            final(self).active_pois@.len() == old(self).active_pois@.len(),
            final(self).active_trails@.len() == old(self).active_trails@.len(),
            forall|i: int|
                0 <= i < old(self).active_pois@.len() ==> final(self).active_pois@[i] == (ActivePoi {
                    filtered: final(self).active_pois@[i].filtered,
                    ..old(self).active_pois@[i]
                }),
            forall|i: int|
                0 <= i < old(self).active_trails@.len() ==> final(self).active_trails@[i] == (ActiveTrail {
                    filtered: final(self).active_trails@[i].filtered,
                    ..old(self).active_trails@[i]
                }),
    {
        let n = self.active_trails.len();
        let mut k: usize = 0;
        while k < n
            invariant
                n == self.active_trails@.len(),
                self.active_trails@.len() == old(self).active_trails@.len(),
                *self == (Pack { active_trails: self.active_trails, ..*old(self) }),
                old(self).wf(),
                old(self).enabled_categories@.len() == old(self).defs@.cats.len(),
                k <= n,
                forall|i: int|
                    0 <= i < n ==> (#[trigger] self.active_trails@[i]).category_idx == old(self).active_trails@[i].category_idx,
                forall|i: int|
                    0 <= i < k ==> self.active_trails@[i] == (ActiveTrail {
                        filtered: !self.enabled_categories@[self.active_trails@[i].category_idx as int],
                        ..old(self).active_trails@[i]
                    }),
                forall|i: int|
                    k <= i < n ==> self.active_trails@[i] == old(self).active_trails@[i],
            decreases n - k,
        {
            let ci = self.active_trails[k].category_idx;
            let f = !self.enabled_categories[ci];
            self.active_trails[k].filtered = f;
            k = k + 1;
        }
        let m = self.active_pois.len();
        let mut k2: usize = 0;
        while k2 < m
            invariant
                m == self.active_pois@.len(),
                self.active_pois@.len() == old(self).active_pois@.len(),
                *self == (Pack {
                    active_trails: self.active_trails,
                    active_pois: self.active_pois,
                    ..*old(self)
                }),
                old(self).wf(),
                old(self).enabled_categories@.len() == old(self).defs@.cats.len(),
                self.active_trails@.len() == old(self).active_trails@.len(),
                forall|i: int|
                    0 <= i < self.active_trails@.len() ==> self.active_trails@[i] == (ActiveTrail {
                        filtered: !self.enabled_categories@[self.active_trails@[i].category_idx as int],
                        ..old(self).active_trails@[i]
                    }),
                forall|i: int|
                    0 <= i < self.active_trails@.len() ==> (#[trigger] self.active_trails@[i]).category_idx
                        < self.defs@.cats.len(),
                k2 <= m,
                forall|i: int|
                    0 <= i < m ==> (#[trigger] self.active_pois@[i]).category_idx == old(self).active_pois@[i].category_idx,
                forall|i: int|
                    0 <= i < k2 ==> self.active_pois@[i] == (ActivePoi {
                        filtered: !self.enabled_categories@[self.active_pois@[i].category_idx as int],
                        ..old(self).active_pois@[i]
                    }),
                forall|i: int| k2 <= i < m ==> self.active_pois@[i] == old(self).active_pois@[i],
            decreases m - k2,
        {
            let ci = self.active_pois[k2].category_idx;
            let f = !self.enabled_categories[ci];
            self.active_pois[k2].filtered = f;
            k2 = k2 + 1;
        }
    }

    /// Force the user bits of exactly the named categories off, leave
    /// every other bit unchanged, then recompute.
    pub fn disable_paths(&mut self, paths: &Vec<String>)
        requires
            old(self).wf(),
        ensures
            final(self).wf(),
            paths_disabled(*old(self), *final(self), strs_view(paths@)),
    {
        let ghost cats = self.defs@.cats;
        let ghost user0 = self.user_category_state@;
        let n = paths.len();
        for i in 0..n
            invariant
                n == paths@.len(),
                self.wf(),
                cats == self.defs@.cats,
                *self == (Pack { user_category_state: self.user_category_state, ..*old(self) }),
                self.user_category_state@.len() == user0.len(),
                user0 == old(self).user_category_state@,
                forall|j: int|
                    0 <= j < user0.len() && named_in(cats, j, strs_view(paths@).take(i as int))
                        ==> !self.user_category_state@[j],
                forall|j: int|
                    0 <= j < user0.len() && !named_in(cats, j, strs_view(paths@).take(i as int))
                        ==> self.user_category_state@[j] == user0[j],
        {
            let ghost pre_user = self.user_category_state@;
            match get_index_of(&self.defs.categories, paths[i].as_str()) {
                Some(idx) => {
                    self.user_category_state[idx] = false;
                    proof {
                        assert(self.user_category_state@ =~= pre_user.update(idx as int, false));
                        assert(crate::category::distinct_keys(cats));
                        assert(cats[idx as int].full_id == paths@[i as int]@);
                        let pv = strs_view(paths@);
                        assert(pv.take(i + 1) =~= pv.take(i as int).push(paths@[i as int]@));
                        assert(pv.take(i + 1)[i as int] == paths@[i as int]@);
                        assert forall|j: int|
                            0 <= j < user0.len() && named_in(cats, j, pv.take(i + 1))
                            implies !self.user_category_state@[j] by {
                            let k = choose|k: int|
                                0 <= k < pv.take(i + 1).len() && #[trigger] pv.take(i + 1)[k]
                                    == cats[j].full_id;
                            if k == i {
                                assert(cats[j].full_id == cats[idx as int].full_id);
                                assert(j == idx);
                            } else {
                                assert(pv.take(i as int)[k] == cats[j].full_id);
                                assert(named_in(cats, j, pv.take(i as int)));
                            }
                        }
                        assert forall|j: int|
                            0 <= j < user0.len() && !named_in(cats, j, pv.take(i + 1))
                            implies self.user_category_state@[j] == user0[j] by {
                            assert(pv.take(i + 1)[i as int] == paths@[i as int]@);
                            assert(j != idx);
                            if named_in(cats, j, pv.take(i as int)) {
                                let k = choose|k: int|
                                    0 <= k < pv.take(i as int).len() && #[trigger] pv.take(
                                        i as int,
                                    )[k] == cats[j].full_id;
                                assert(pv.take(i + 1)[k] == cats[j].full_id);
                                assert(false);
                            }
                        }
                    }
                },
                None => {
                    proof {
                        assert(!has_key(cats, paths@[i as int]@));
                        let pv = strs_view(paths@);
                        assert(pv.take(i + 1) =~= pv.take(i as int).push(paths@[i as int]@));
                        assert(pv.take(i + 1)[i as int] == paths@[i as int]@);
                        assert forall|j: int|
                            0 <= j < user0.len() && named_in(cats, j, pv.take(i + 1))
                            implies !self.user_category_state@[j] by {
                            let k = choose|k: int|
                                0 <= k < pv.take(i + 1).len() && #[trigger] pv.take(i + 1)[k]
                                    == cats[j].full_id;
                            if k == i {
                                assert(cats[j].full_id == paths@[i as int]@);
                                assert(has_key(cats, paths@[i as int]@));
                                assert(false);
                            } else {
                                assert(pv.take(i as int)[k] == cats[j].full_id);
                                assert(named_in(cats, j, pv.take(i as int)));
                            }
                        }
                        assert forall|j: int|
                            0 <= j < user0.len() && !named_in(cats, j, pv.take(i + 1))
                            implies self.user_category_state@[j] == user0[j] by {
                            if named_in(cats, j, pv.take(i as int)) {
                                let k = choose|k: int|
                                    0 <= k < pv.take(i as int).len() && #[trigger] pv.take(
                                        i as int,
                                    )[k] == cats[j].full_id;
                                assert(pv.take(i + 1)[k] == cats[j].full_id);
                                assert(false);
                            }
                        }
                    }
                },
            }
        }
        proof {
            assert(strs_view(paths@).take(n as int) =~= strs_view(paths@));
        }
        self.recompute_enabled();
    }

    /// The POIs of the current map that are visible and carry a
    /// copyable value: exactly those, in activation order.
    pub fn get_copyable_pois(&self) -> (r: Vec<Poi>)
        requires
            self.wf(),
            forall|i: int|
                0 <= i < self.active_pois@.len() ==> (#[trigger] self.active_pois@[i]).poi_idx
                    < self.defs@.pois.len(),
        ensures
            poi_views(r@) == copyable_of(self.active_pois@, self.defs@.pois),
    {
        let n = self.active_pois.len();
        let mut r: Vec<Poi> = Vec::new();
        assert(self.active_pois@.take(0) =~= Seq::<ActivePoi>::empty());
        assert(poi_views(r@) =~= copyable_of(self.active_pois@.take(0), self.defs@.pois));
        for i in 0..n
            invariant
                n == self.active_pois@.len(),
                self.wf(),
                forall|j: int|
                    0 <= j < self.active_pois@.len() ==> (#[trigger] self.active_pois@[j]).poi_idx
                        < self.defs@.pois.len(),
                poi_views(r@) == copyable_of(self.active_pois@.take(i as int), self.defs@.pois),
        {
            let ap = &self.active_pois[i];
            let ghost prev = r@;
            if !ap.filtered {
                let src_poi = &self.defs.pois[ap.poi_idx];
                if src_poi.attributes.copy_value.is_some() {
                    let copy = duplicate_poi(src_poi);
                    r.push(copy);
                    proof {
                        assert(r@ == prev.push(copy));
                        assert(copy@ == self.defs@.pois[
                            self.active_pois@[i as int].poi_idx as int]);
                        assert(poi_views(r@) =~= poi_views(prev).push(copy@));
                    }
                }
            }
            proof {
                assert(self.active_pois@.take(i + 1).drop_last() =~= self.active_pois@.take(
                    i as int,
                ));
                assert(self.active_pois@.take(i + 1).last() == self.active_pois@[i as int]);
                if !self.active_pois@[i as int].filtered && self.defs@.pois[
                    self.active_pois@[i as int].poi_idx as int].attrs.copy_value is Some {
                    assert(poi_views(r@) =~= copyable_of(
                        self.active_pois@.take(i as int),
                        self.defs@.pois,
                    ) + seq![self.defs@.pois[self.active_pois@[i as int].poi_idx as int]]);
                } else {
                    assert(poi_views(r@) =~= copyable_of(
                        self.active_pois@.take(i as int),
                        self.defs@.pois,
                    ) + Seq::<crate::poi::PoiView>::empty());
                }
            }
        }
        assert(self.active_pois@.take(n as int) =~= self.active_pois@);
        r
    }
}

/// The returned POI is the definition of some unfiltered active POI
/// and carries a copyable value.
pub open spec fn from_visible_active(
    p: crate::poi::PoiView,
    actives: Seq<ActivePoi>,
    pois: Seq<crate::poi::PoiView>,
) -> bool {
    exists|j: int|
        0 <= j < actives.len() && !(#[trigger] actives[j]).filtered && p == pois[
            actives[j].poi_idx as int] && p.attrs.copy_value is Some
}

/// Every active entity's filtered flag mirrors its category's effective
/// bit, inverted.
pub open spec fn filters_match(p: Pack) -> bool {
    &&& forall|i: int|
        0 <= i < p.active_pois@.len() ==> (#[trigger] p.active_pois@[i]).filtered
            == !p.enabled_categories@[p.active_pois@[i].category_idx as int]
    &&& forall|i: int|
        0 <= i < p.active_trails@.len() ==> (#[trigger] p.active_trails@[i]).filtered
            == !p.enabled_categories@[p.active_trails@[i].category_idx as int]
}

/// A field-by-field copy of a POI.
fn duplicate_poi(p: &Poi) -> (r: Poi)
    ensures
        r@ == p@,
{
    Poi {
        category: p.category.clone(),
        guid: p.guid,
        map_id: p.map_id,
        position: p.position,
        attributes: p.attributes.duplicate(),
    }
}

/// The second inheritance pass: each POI and trail takes its resolved
/// category's bundle into its unset fields.  Runs exactly once, after
/// every file of the pack has been parsed and the category pass ran.
pub fn apply_marker_attributes(defs: &mut PackDefs)
    requires
        crate::category::distinct_keys(old(defs)@.cats),
    ensures
        final(defs)@ == (parser::PackDefsView {
            pois: final(defs)@.pois,
            trails: final(defs)@.trails,
            ..old(defs)@
        }),
        final(defs)@.pois.len() == old(defs)@.pois.len(),
        final(defs)@.trails.len() == old(defs)@.trails.len(),
        forall|k: int|
            0 <= k < old(defs)@.pois.len() ==> final(defs)@.pois[k] == (crate::poi::PoiView {
                attrs: (if has_key(old(defs)@.cats, old(defs)@.pois[k].category) {
                    merged(
                        old(defs)@.pois[k].attrs,
                        old(defs)@.cats[idx_of(old(defs)@.cats, old(defs)@.pois[k].category)].attrs,
                    )
                } else {
                    old(defs)@.pois[k].attrs
                }),
                ..old(defs)@.pois[k]
            }),
        forall|k: int|
            0 <= k < old(defs)@.trails.len() ==> final(defs)@.trails[k] == (crate::trail::TrailView {
                attrs: (if has_key(old(defs)@.cats, old(defs)@.trails[k].category) {
                    merged(
                        old(defs)@.trails[k].attrs,
                        old(defs)@.cats[idx_of(old(defs)@.cats, old(defs)@.trails[k].category)].attrs,
                    )
                } else {
                    old(defs)@.trails[k].attrs
                }),
                ..old(defs)@.trails[k]
            }),
{
    let n = defs.pois.len();
    let mut k: usize = 0;
    while k < n
        invariant
            n == defs@.pois.len(),
            crate::category::distinct_keys(old(defs)@.cats),
            defs@.pois.len() == old(defs)@.pois.len(),
            defs.categories@ == old(defs).categories@,
            defs.roots@ == old(defs).roots@,
            defs.trails@ == old(defs).trails@,
            k <= n,
            forall|i: int|
                0 <= i < k ==> defs@.pois[i] == (crate::poi::PoiView {
                    attrs: (if has_key(old(defs)@.cats, old(defs)@.pois[i].category) {
                        merged(
                            old(defs)@.pois[i].attrs,
                            old(defs)@.cats[idx_of(
                                old(defs)@.cats,
                                old(defs)@.pois[i].category,
                            )].attrs,
                        )
                    } else {
                        old(defs)@.pois[i].attrs
                    }),
                    ..old(defs)@.pois[i]
                }),
            forall|i: int| k <= i < n ==> defs@.pois[i] == old(defs)@.pois[i],
            forall|i: int|
                k <= i < n ==> defs.pois@[i]@ == old(defs)@.pois[i],
        decreases n - k,
    {
        let ghost it_pre = defs@;
        let cat_name = defs.pois[k].category.clone();
        match get_index_of(&defs.categories, cat_name.as_str()) {
            Some(ci) => {
                proof {
                    assert(has_key(cat_views(defs.categories@), cat_name@));
                }
                let bundle = defs.categories[ci].marker_attributes.duplicate();
                defs.pois[k].attributes.merge(&bundle);
                assert(defs@.pois[k as int] =~~= (crate::poi::PoiView {
                    attrs: merged(
                        old(defs)@.pois[k as int].attrs,
                        cat_views(defs.categories@)[ci as int].attrs,
                    ),
                    ..old(defs)@.pois[k as int]
                }));
                proof {
                    let w = idx_of(old(defs)@.cats, cat_name@);
                    assert(0 <= w < old(defs)@.cats.len() && old(defs)@.cats[w].full_id
                        == cat_name@);
                    assert(w == ci as int);
                }
            },
            None => {
                assert(defs@.pois[k as int] =~~= (crate::poi::PoiView {
                    attrs: old(defs)@.pois[k as int].attrs,
                    ..old(defs)@.pois[k as int]
                }));
            },
        }
        proof {
            assert forall|i: int| 0 <= i < k implies defs@.pois[i] == it_pre.pois[i] by {
                assert(defs.pois@[i]@ == it_pre.pois[i]);
            }
            assert(defs@.pois[k as int] == (crate::poi::PoiView {
                attrs: (if has_key(old(defs)@.cats, old(defs)@.pois[k as int].category) {
                    merged(
                        old(defs)@.pois[k as int].attrs,
                        old(defs)@.cats[idx_of(
                            old(defs)@.cats,
                            old(defs)@.pois[k as int].category,
                        )].attrs,
                    )
                } else {
                    old(defs)@.pois[k as int].attrs
                }),
                ..old(defs)@.pois[k as int]
            }));
            assert forall|i: int|
                0 <= i < k + 1 implies defs@.pois[i] == (crate::poi::PoiView {
                attrs: (if has_key(old(defs)@.cats, old(defs)@.pois[i].category) {
                    merged(
                        old(defs)@.pois[i].attrs,
                        old(defs)@.cats[idx_of(
                            old(defs)@.cats,
                            old(defs)@.pois[i].category,
                        )].attrs,
                    )
                } else {
                    old(defs)@.pois[i].attrs
                }),
                ..old(defs)@.pois[i]
            }) by {
                if i < k {
                    assert(defs@.pois[i] == it_pre.pois[i]);
                }
            }
        }
        k = k + 1;
    }
    let m = defs.trails.len();
    let mut k2: usize = 0;
    while k2 < m
        invariant
            m == defs@.trails.len(),
            crate::category::distinct_keys(old(defs)@.cats),
            defs@.trails.len() == old(defs)@.trails.len(),
            defs.categories@ == old(defs).categories@,
            defs.roots@ == old(defs).roots@,
            defs@.pois.len() == old(defs)@.pois.len(),
            forall|i: int|
                0 <= i < defs@.pois.len() ==> defs@.pois[i] == (crate::poi::PoiView {
                    attrs: (if has_key(old(defs)@.cats, old(defs)@.pois[i].category) {
                        merged(
                            old(defs)@.pois[i].attrs,
                            old(defs)@.cats[idx_of(
                                old(defs)@.cats,
                                old(defs)@.pois[i].category,
                            )].attrs,
                        )
                    } else {
                        old(defs)@.pois[i].attrs
                    }),
                    ..old(defs)@.pois[i]
                }),
            k2 <= m,
            forall|i: int|
                0 <= i < k2 ==> defs@.trails[i] == (crate::trail::TrailView {
                    attrs: (if has_key(old(defs)@.cats, old(defs)@.trails[i].category) {
                        merged(
                            old(defs)@.trails[i].attrs,
                            old(defs)@.cats[idx_of(
                                old(defs)@.cats,
                                old(defs)@.trails[i].category,
                            )].attrs,
                        )
                    } else {
                        old(defs)@.trails[i].attrs
                    }),
                    ..old(defs)@.trails[i]
                }),
            forall|i: int| k2 <= i < m ==> defs@.trails[i] == old(defs)@.trails[i],
            forall|i: int|
                k2 <= i < m ==> defs.trails@[i]@ == old(defs)@.trails[i],
        decreases m - k2,
    {
        let ghost it_pre = defs@;
        let cat_name = defs.trails[k2].category.clone();
        match get_index_of(&defs.categories, cat_name.as_str()) {
            Some(ci) => {
                proof {
                    assert(has_key(cat_views(defs.categories@), cat_name@));
                }
                let bundle = defs.categories[ci].marker_attributes.duplicate();
                defs.trails[k2].attributes.merge(&bundle);
                assert(defs@.trails[k2 as int] =~~= (crate::trail::TrailView {
                    attrs: merged(
                        old(defs)@.trails[k2 as int].attrs,
                        cat_views(defs.categories@)[ci as int].attrs,
                    ),
                    ..old(defs)@.trails[k2 as int]
                }));
                proof {
                    let w = idx_of(old(defs)@.cats, cat_name@);
                    assert(0 <= w < old(defs)@.cats.len() && old(defs)@.cats[w].full_id
                        == cat_name@);
                    assert(w == ci as int);
                }
            },
            None => {
                assert(defs@.trails[k2 as int] =~~= (crate::trail::TrailView {
                    attrs: old(defs)@.trails[k2 as int].attrs,
                    ..old(defs)@.trails[k2 as int]
                }));
            },
        }
        proof {
            assert forall|i: int| 0 <= i < k2 implies defs@.trails[i] == it_pre.trails[i] by {
                assert(defs.trails@[i]@ == it_pre.trails[i]);
            }
            assert(defs@.trails[k2 as int] == (crate::trail::TrailView {
                attrs: (if has_key(old(defs)@.cats, old(defs)@.trails[k2 as int].category) {
                    merged(
                        old(defs)@.trails[k2 as int].attrs,
                        old(defs)@.cats[idx_of(
                            old(defs)@.cats,
                            old(defs)@.trails[k2 as int].category,
                        )].attrs,
                    )
                } else {
                    old(defs)@.trails[k2 as int].attrs
                }),
                ..old(defs)@.trails[k2 as int]
            }));
            assert forall|i: int|
                0 <= i < k2 + 1 implies defs@.trails[i] == (crate::trail::TrailView {
                attrs: (if has_key(old(defs)@.cats, old(defs)@.trails[i].category) {
                    merged(
                        old(defs)@.trails[i].attrs,
                        old(defs)@.cats[idx_of(
                            old(defs)@.cats,
                            old(defs)@.trails[i].category,
                        )].attrs,
                    )
                } else {
                    old(defs)@.trails[i].attrs
                }),
                ..old(defs)@.trails[i]
            }) by {
                if i < k2 {
                    assert(defs@.trails[i] == it_pre.trails[i]);
                }
            }
        }
        k2 = k2 + 1;
    }
}

/// Some active POI references this registry slot.
pub open spec fn poi_refs(actives: Seq<ActivePoi>, h: int) -> bool {
    exists|j: int| 0 <= j < actives.len() && (#[trigger] actives[j]).icon.0 == h
}

/// Some active trail references this registry slot.
pub open spec fn trail_refs(actives: Seq<ActiveTrail>, h: int) -> bool {
    exists|j: int| 0 <= j < actives.len() && (#[trigger] actives[j]).texture.0 == h
}

/// What one map activation leaves behind, relative to the pack's prior
/// state and the shared entity list.
///
/// It says: the definitions and user choices are untouched; the enable
/// bits were recomputed; every active entity is an exactly-once,
/// definition-ordered instantiation of a matching definition with its
/// category resolved; every matching definition whose assets are
/// present and decodable was activated; identifiers are pairwise
/// distinct; mark-and-sweep safety holds of the texture registry; and
/// the entity list carries, at the recorded bookmarks and in order, one
/// entity per trail section and one per POI.
pub open spec fn activated(
    pre: Pack,
    post: Pack,
    entities: Seq<RenderEntity>,
    pack_idx: int,
    map_id: int,
) -> bool {
    let cats = pre.defs@.cats;
    let user = pre.user_category_state@;
    let files = files_view(pre.source.files@);
    let nt = post.active_trails@.len() as int;
    let np = post.active_pois@.len() as int;
    &&& post.defs@ == pre.defs@
    &&& post.user_category_state@ == user
    &&& post.name@ == pre.name@
    &&& post.source.files@ == pre.source.files@
    &&& post.enabled_categories@.len() == cats.len()
    &&& forall|i: int|
        0 <= i < cats.len() ==> post.enabled_categories@[i] == effective(cats, user, i)
    &&& filters_match(post)
    &&& forall|i: int, j: int|
        0 <= i < j < post.active_trail_ids@.len() ==> post.active_trail_ids@[i]
            != post.active_trail_ids@[j]
    &&& forall|i: int, j: int|
        0 <= i < j < post.active_poi_ids@.len() ==> post.active_poi_ids@[i]
            != post.active_poi_ids@[j]
    &&& forall|j: int|
        0 <= j < nt ==> {
            let a = #[trigger] post.active_trails@[j];
            &&& a.trail_idx < pre.defs@.trails.len()
            &&& pre.defs@.trails[a.trail_idx as int].map_id == map_id
            &&& a.category_idx as int == resolved_cat_idx(
                cats,
                pre.defs@.trails[a.trail_idx as int].category,
            )
            &&& a.section_bounds@.len() == (if pre.defs@.trails[a.trail_idx as int].points.len()
                >= 2 {
                pre.defs@.trails[a.trail_idx as int].points.len() - 1
            } else {
                0
            })
        }
    &&& forall|i: int, j: int|
        0 <= i < j < nt ==> post.active_trails@[i].trail_idx < post.active_trails@[j].trail_idx
    &&& forall|j: int|
        0 <= j < np ==> {
            let a = #[trigger] post.active_pois@[j];
            &&& a.poi_idx < pre.defs@.pois.len()
            &&& pre.defs@.pois[a.poi_idx as int].map_id == map_id
            &&& a.category_idx as int == resolved_cat_idx(
                cats,
                pre.defs@.pois[a.poi_idx as int].category,
            )
        }
    &&& forall|i: int, j: int|
        0 <= i < j < np ==> post.active_pois@[i].poi_idx < post.active_pois@[j].poi_idx
    &&& trail_ids_keep_tokens(post.active_trail_ids@, post.active_trails@, pre.defs@.trails)
    &&& trail_slots_tied(post.active_trails@, post.textures, pre.defs@.trails)
    &&& poi_ids_keep_tokens(post.active_poi_ids@, post.active_pois@, pre.defs@.pois)
    &&& poi_slots_tied(post.active_pois@, post.textures, pre.defs@.pois)
    &&& trail_placement(
        post.active_trails@,
        entities,
        post.render_list_bookmark as int,
        pack_idx,
        post.poi_bookmark as int,
    )
    &&& forall|k: int|
        0 <= k < pre.defs@.trails.len() && (#[trigger] pre.defs@.trails[k]).map_id == map_id
            && trail_activates(pre.defs@.trails[k], cats, files) ==> exists|j: int|
            0 <= j < nt && (#[trigger] post.active_trails@[j]).trail_idx == k
    &&& forall|k: int|
        0 <= k < pre.defs@.pois.len() && (#[trigger] pre.defs@.pois[k]).map_id == map_id
            && poi_activates(pre.defs@.pois[k], cats, files) ==> exists|j: int|
            0 <= j < np && (#[trigger] post.active_pois@[j]).poi_idx == k
    &&& forall|j: int|
        0 <= j < np ==> post.textures.loaded@[(#[trigger] post.active_pois@[j]).icon.0 as int]
            && post.textures.textures@[post.active_pois@[j].icon.0 as int].texture is Some
    &&& forall|j: int|
        0 <= j < nt ==> post.textures.loaded@[(#[trigger] post.active_trails@[j]).texture.0 as int]
            && post.textures.textures@[post.active_trails@[j].texture.0 as int].texture is Some
    &&& forall|h: int|
        0 <= h < post.textures.textures@.len() ==> (#[trigger] post.textures.loaded@[h] ==> (
        poi_refs(post.active_pois@, h) || trail_refs(post.active_trails@, h)))
    &&& post.poi_bookmark + np <= entities.len()
    &&& forall|j: int|
        0 <= j < np ==> entities[post.poi_bookmark + j] == (RenderEntity {
            bounds: (#[trigger] post.active_pois@[j]).bounds,
            position: post.active_pois@[j].position,
            draw_ordered: true,
            render_id: RenderId::Poi { pack_idx: pack_idx as usize, poi_idx: j as usize },
        })
}

proof fn lemma_clamp_monotone(a: int, b: int)
    requires
        a <= b,
    ensures
        clamp_coord(a) <= clamp_coord(b),
{
}

/// Resolve a registry slot: decode on first need, reuse thereafter, and
/// clear its mark.  Succeeds exactly when the resource is already
/// resident or the asset is present and decodes.
fn resolve_texture(textures: &mut TextureRegistry, source: &PackSource, h: usize) -> (ok: bool)
    requires
        old(textures).wf(),
        h < old(textures).textures@.len(),
        registry_backed(*old(textures), files_view(source.files@)),
    ensures
        final(textures).wf(),
        registry_backed(*final(textures), files_view(source.files@)),
        final(textures).textures@.len() == old(textures).textures@.len(),
        old(textures).loaded@[h as int] ==> final(textures).textures@[h as int].texture == old(
            textures,
        ).textures@[h as int].texture,
        ok && !old(textures).loaded@[h as int] ==> slot_is_decode(
            final(textures).textures@[h as int],
            files_view(source.files@),
        ),
        final(textures).unused@.len() == old(textures).unused@.len(),
        forall|i: int|
            0 <= i < old(textures).textures@.len() ==> final(textures).textures@[i].asset@ == old(textures).textures@[i].asset@,
        forall|i: int|
            0 <= i < old(textures).textures@.len() && i != h ==> final(textures).loaded@[i] == old(textures).loaded@[i] && final(textures).unused@[i] == old(textures).unused@[i] && final(textures).textures@[i].texture == old(textures).textures@[i].texture,
        ok == (old(textures).loaded@[h as int] || (match file_of(
            files_view(source.files@),
            old(textures).textures@[h as int].asset@,
        ) {
            Some(b) => crate::texture::decoded_rgba(b) is Some,
            None => false,
        })),
        ok ==> final(textures).loaded@[h as int] && !final(textures).unused@[h as int],
        !ok ==> final(textures).loaded@[h as int] == old(textures).loaded@[h as int] && final(textures).unused@[h as int] == old(textures).unused@[h as int],
        forall|i: int|
            0 <= i < old(textures).unused@.len() ==> (final(textures).unused@[i] ==> old(textures).unused@[i]),
        forall|i: int|
            0 <= i < old(textures).loaded@.len() ==> (old(textures).loaded@[i] ==> final(textures).loaded@[i]),
{
    if textures.loaded[h] {
        textures.unused[h] = false;
        return true;
    }
    let asset = textures.textures[h].asset.clone();
    let bytes = match source.load_asset(asset.as_str()) {
        Some(b) => b,
        None => {
            return false;
        },
    };
    match crate::texture::decode_rgba(bytes) {
        Some(img) => {
            let ghost iv = (img.width, img.height, img.rgba@);
            textures.textures[h].texture = Some(img);
            textures.loaded[h] = true;
            textures.unused[h] = false;
            proof {
                assert(slot_is_decode(textures.textures@[h as int], files_view(source.files@)));
                assert forall|i: int|
                    0 <= i < textures.textures@.len() implies (#[trigger] textures.loaded@[i]
                    ==> slot_is_decode(textures.textures@[i], files_view(source.files@))) by {
                    if textures.loaded@[i] && i != h {
                        assert(textures.textures@[i] == old(textures).textures@[i]);
                    }
                }
            }
            true
        },
        None => false,
    }
}

/// Build the live entity of one POI: resolve its category and icon;
/// a missing or undecodable icon skips just this POI.
fn build_active_poi(
    poi: &Poi,
    poi_idx: usize,
    cats: &Vec<crate::category::Category>,
    textures: &mut TextureRegistry,
    source: &PackSource,
) -> (r: Option<ActivePoi>)
    requires
        old(textures).wf(),
        in_coord_range(poi.position),
        crate::category::distinct_keys(cat_views(cats@)),
        registry_backed(*old(textures), files_view(source.files@)),
    ensures
        final(textures).wf(),
        registry_backed(*final(textures), files_view(source.files@)),
        r is Some <==> poi_activates(poi@, cat_views(cats@), files_view(source.files@)),
        final(textures).textures@.len() >= old(textures).textures@.len(),
        forall|i: int|
            0 <= i < old(textures).unused@.len() ==> (final(textures).unused@[i] ==> old(textures).unused@[i]),
        forall|i: int|
            old(textures).textures@.len() <= i < final(textures).unused@.len() ==> !final(textures).unused@[i],
        forall|i: int|
            0 <= i < old(textures).loaded@.len() ==> (old(textures).loaded@[i] ==> final(textures).loaded@[i]),
        forall|i: int|
            0 <= i < old(textures).textures@.len() ==> (#[trigger] final(textures).textures@[i]).asset@
                == old(textures).textures@[i].asset@,
        match r {
            Some(a) => {
                &&& a.category_idx < cats@.len()
                &&& a.category_idx == resolved_cat_idx(cat_views(cats@), poi.category@)
                &&& a.icon.0 < final(textures).textures@.len()
                &&& final(textures).textures@[a.icon.0 as int].asset@
                    == poi.attributes.icon_file->Some_0@
                &&& a.bounds.wf()
                &&& !a.filtered
                &&& a.poi_idx == poi_idx
                &&& a.position.x == poi.position.x && a.position.z == poi.position.z
                &&& a.position.y as int == clamp_coord(
                    poi.position.y + (match poi.attributes.height_offset {
                        Some(v) => v as int,
                        None => 0,
                    }),
                )
                &&& ({
                    let d = poi_half_diag(
                        match poi.attributes.icon_size {
                            Some(v) => v as int,
                            None => 1000,
                        },
                    );
                    &&& a.bounds.min.x as int == clamp_coord(a.position.x - d)
                    &&& a.bounds.min.y as int == clamp_coord(a.position.y - d)
                    &&& a.bounds.min.z as int == clamp_coord(a.position.z - d)
                    &&& a.bounds.max.x as int == clamp_coord(a.position.x + d)
                    &&& a.bounds.max.y as int == clamp_coord(a.position.y + d)
                    &&& a.bounds.max.z as int == clamp_coord(a.position.z + d)
                })
                &&& final(textures).loaded@[a.icon.0 as int]
                &&& !final(textures).unused@[a.icon.0 as int]
                &&& forall|i: int|
                    0 <= i < final(textures).textures@.len() ==> ((final(textures).loaded@[i]
                        && !final(textures).unused@[i]) ==> ((i < old(textures).textures@.len()
                        && old(textures).loaded@[i] && !old(textures).unused@[i]) || i
                        == a.icon.0))
            },
            None => forall|i: int|
                0 <= i < final(textures).textures@.len() ==> ((final(textures).loaded@[i]
                    && !final(textures).unused@[i]) ==> (i < old(textures).textures@.len() && old(textures).loaded@[i] && !old(textures).unused@[i])),
        },
{
    let category_idx = match get_index_of(cats, poi.category.as_str()) {
        Some(i) => {
            proof {
                assert(has_key(cat_views(cats@), poi.category@));
                let w = idx_of(cat_views(cats@), poi.category@);
                assert(0 <= w < cat_views(cats@).len() && cat_views(cats@)[w].full_id
                    == poi.category@);
                assert(w == i as int);
            }
            i
        },
        None => {
            if cats.len() > 0 {
                0
            } else {
                return None;
            }
        },
    };
    let icon_path = match &poi.attributes.icon_file {
        Some(p) => p.clone(),
        None => {
            return None;
        },
    };
    let h = textures.register(icon_path.as_str());
    let ghost mid = *textures;
    let ok = resolve_texture(textures, source, h.0);
    proof {
        assert(mid.textures@[h.0 as int].asset@ == icon_path@);
        if mid.loaded@[h.0 as int] {
            assert(asset_decodes(files_view(source.files@), icon_path@));
        }
        assert(ok == asset_decodes(files_view(source.files@), icon_path@));
        assert forall|i: int|
            0 <= i < textures.textures@.len() implies (#[trigger] textures.loaded@[i]
            ==> asset_decodes(files_view(source.files@), textures.textures@[i].asset@)) by {
            if textures.loaded@[i] {
                if i == h.0 as int {
                } else {
                    assert(mid.loaded@[i] == textures.loaded@[i]);
                    assert(mid.textures@[i].asset@ == textures.textures@[i].asset@);
                    if i < old(textures).textures@.len() {
                        assert(old(textures).loaded@[i] == mid.loaded@[i]);
                        assert(old(textures).textures@[i].asset@ == mid.textures@[i].asset@);
                    }
                }
            }
        }
    }
    if !ok {
        return None;
    }
    let off = match poi.attributes.height_offset {
        Some(v) => v,
        None => 0,
    };
    let scale = match poi.attributes.icon_size {
        Some(v) => v,
        None => 1000,
    };
    let tint = match poi.attributes.tint {
        Some(v) => v,
        None => 0xffffffff,
    };
    let opacity = match poi.attributes.alpha {
        Some(v) => v,
        None => 1000,
    };
    let px = poi.position.x;
    let py = clamp61((poi.position.y as i128) + (off as i128));
    let pz = poi.position.z;
    let s128: i128 = if scale < 0 {
        -(scale as i128)
    } else {
        scale as i128
    };
    // half-diagonal of the billboard's bounding cube: edge times sqrt 2,
    // by the rational bound 1415/1000
    let diag: i128 = s128 * 2 * 1415 / 1000;
    proof {
        assert(diag >= 0) by (nonlinear_arith)
            requires
                s128 >= 0,
                diag == s128 * 2 * 1415 / 1000,
        ;
    }
    let position = Vec3M { x: px, y: py, z: pz };
    let bmin = Vec3M {
        x: clamp61((px as i128) - diag),
        y: clamp61((py as i128) - diag),
        z: clamp61((pz as i128) - diag),
    };
    let bmax = Vec3M {
        x: clamp61((px as i128) + diag),
        y: clamp61((py as i128) + diag),
        z: clamp61((pz as i128) + diag),
    };
    proof {
        lemma_clamp_monotone((px as i128) - diag, (px as i128) + diag);
        lemma_clamp_monotone((py as i128) - diag, (py as i128) + diag);
        lemma_clamp_monotone((pz as i128) - diag, (pz as i128) + diag);
    }
    let bounds = Aabb { min: bmin, max: bmax };
    Some(
        ActivePoi {
            category_idx,
            filtered: false,
            bounds,
            position,
            tint,
            opacity,
            scale,
            icon: h,
            poi_idx,
        },
    )
}

/// Build the live entity of one trail: resolve its category and path
/// texture, then one conservative bound per rendered section; a missing
/// or undecodable texture skips just this trail.
fn build_active_trail(
    trail: &crate::trail::Trail,
    trail_idx: usize,
    render_bookmark: usize,
    cats: &Vec<crate::category::Category>,
    textures: &mut TextureRegistry,
    source: &PackSource,
) -> (r: Option<ActiveTrail>)
    requires
        old(textures).wf(),
        forall|i: int| 0 <= i < trail.points@.len() ==> in_coord_range(#[trigger] trail.points@[i]),
        crate::category::distinct_keys(cat_views(cats@)),
        registry_backed(*old(textures), files_view(source.files@)),
    ensures
        registry_backed(*final(textures), files_view(source.files@)),
        r is Some <==> trail_activates(trail@, cat_views(cats@), files_view(source.files@)),
        final(textures).wf(),
        final(textures).textures@.len() >= old(textures).textures@.len(),
        forall|i: int|
            0 <= i < old(textures).unused@.len() ==> (final(textures).unused@[i] ==> old(textures).unused@[i]),
        forall|i: int|
            old(textures).textures@.len() <= i < final(textures).unused@.len() ==> !final(textures).unused@[i],
        forall|i: int|
            0 <= i < old(textures).loaded@.len() ==> (old(textures).loaded@[i] ==> final(textures).loaded@[i]),
        forall|i: int|
            0 <= i < old(textures).textures@.len() ==> (#[trigger] final(textures).textures@[i]).asset@
                == old(textures).textures@[i].asset@,
        match r {
            Some(a) => {
                &&& a.category_idx < cats@.len()
                &&& a.category_idx == resolved_cat_idx(cat_views(cats@), trail.category@)
                &&& a.texture.0 < final(textures).textures@.len()
                &&& final(textures).textures@[a.texture.0 as int].asset@
                    == trail.attributes.texture->Some_0@
                &&& !a.filtered
                &&& a.trail_idx == trail_idx
                &&& a.render_bookmark == render_bookmark
                &&& a.section_bounds@.len() == (if trail.points@.len() >= 2 {
                    trail.points@.len() - 1
                } else {
                    0
                })
                &&& forall|s: int|
                    0 <= s < a.section_bounds@.len() ==> #[trigger] a.section_bounds@[s]
                        == segment_box(trail.points@[s], trail.points@[s + 1])
                &&& forall|s: int|
                    0 <= s < a.section_bounds@.len() ==> (#[trigger] a.section_bounds@[s]).wf()
                &&& final(textures).loaded@[a.texture.0 as int]
                &&& !final(textures).unused@[a.texture.0 as int]
                &&& forall|i: int|
                    0 <= i < final(textures).textures@.len() ==> ((final(textures).loaded@[i]
                        && !final(textures).unused@[i]) ==> ((i < old(textures).textures@.len()
                        && old(textures).loaded@[i] && !old(textures).unused@[i]) || i
                        == a.texture.0))
            },
            None => forall|i: int|
                0 <= i < final(textures).textures@.len() ==> ((final(textures).loaded@[i]
                    && !final(textures).unused@[i]) ==> (i < old(textures).textures@.len() && old(textures).loaded@[i] && !old(textures).unused@[i])),
        },
{
    let category_idx = match get_index_of(cats, trail.category.as_str()) {
        Some(i) => {
            proof {
                assert(has_key(cat_views(cats@), trail.category@));
                let w = idx_of(cat_views(cats@), trail.category@);
                assert(0 <= w < cat_views(cats@).len() && cat_views(cats@)[w].full_id
                    == trail.category@);
                assert(w == i as int);
            }
            i
        },
        None => {
            if cats.len() > 0 {
                0
            } else {
                return None;
            }
        },
    };
    let tex_path = match &trail.attributes.texture {
        Some(p) => p.clone(),
        None => {
            return None;
        },
    };
    let h = textures.register(tex_path.as_str());
    let ghost mid = *textures;
    let ok = resolve_texture(textures, source, h.0);
    proof {
        assert(mid.textures@[h.0 as int].asset@ == tex_path@);
        if mid.loaded@[h.0 as int] {
            assert(asset_decodes(files_view(source.files@), tex_path@));
        }
        assert(ok == asset_decodes(files_view(source.files@), tex_path@));
        assert forall|i: int|
            0 <= i < textures.textures@.len() implies (#[trigger] textures.loaded@[i]
            ==> asset_decodes(files_view(source.files@), textures.textures@[i].asset@)) by {
            if textures.loaded@[i] {
                if i == h.0 as int {
                } else {
                    assert(mid.loaded@[i] == textures.loaded@[i]);
                    assert(mid.textures@[i].asset@ == textures.textures@[i].asset@);
                    if i < old(textures).textures@.len() {
                        assert(old(textures).loaded@[i] == mid.loaded@[i]);
                        assert(old(textures).textures@[i].asset@ == mid.textures@[i].asset@);
                    }
                }
            }
        }
    }
    if !ok {
        return None;
    }
    // one section per path segment
    let np = trail.points.len();
    let mut section_bounds: Vec<Aabb> = Vec::new();
    if np >= 2 {
        for s in 0..(np - 1)
            invariant
                np == trail.points@.len(),
                np >= 2,
                forall|i: int|
                    0 <= i < trail.points@.len() ==> in_coord_range(#[trigger] trail.points@[i]),
                section_bounds@.len() == s,
                forall|i: int|
                    0 <= i < section_bounds@.len() ==> #[trigger] section_bounds@[i]
                        == segment_box(trail.points@[i], trail.points@[i + 1]),
                forall|i: int|
                    0 <= i < section_bounds@.len() ==> (#[trigger] section_bounds@[i]).wf(),
        {
            let a = trail.points[s];
            let b = trail.points[s + 1];
            let bb = Aabb {
                min: Vec3M {
                    x: if a.x <= b.x {
                        a.x
                    } else {
                        b.x
                    },
                    y: if a.y <= b.y {
                        a.y
                    } else {
                        b.y
                    },
                    z: if a.z <= b.z {
                        a.z
                    } else {
                        b.z
                    },
                },
                max: Vec3M {
                    x: if a.x <= b.x {
                        b.x
                    } else {
                        a.x
                    },
                    y: if a.y <= b.y {
                        b.y
                    } else {
                        a.y
                    },
                    z: if a.z <= b.z {
                        b.z
                    } else {
                        a.z
                    },
                },
            };
            let ghost prev = section_bounds@;
            section_bounds.push(bb);
            proof {
                assert(section_bounds@ == prev.push(bb));
                assert(bb == segment_box(trail.points@[s as int], trail.points@[s + 1]));
                assert(bb.wf());
            }
        }
    }
    Some(
        ActiveTrail {
            category_idx,
            filtered: false,
            section_bounds,
            render_bookmark,
            texture: h,
            trail_idx,
        },
    )
}

impl Pack {
}

/// The state mid-way through the trail phase of an activation: the
/// first `upto` trail definitions considered against pack state `pre`
/// and the entity list that began as `base0`.
#[verifier::opaque]
pub open spec fn trail_phase_inv(
    p: Pack,
    entities: Seq<RenderEntity>,
    pre: Pack,
    base0: Seq<RenderEntity>,
    pack_idx: int,
    map_id: int,
    upto: int,
) -> bool {
    let cats = pre.defs@.cats;
    let files = files_view(pre.source.files@);
    let base = base0.len() as int;
    &&& defs_wf(p.defs@)
    &&& p.defs@ == pre.defs@
    &&& p.defs.trails@ == pre.defs.trails@
    &&& p.defs.pois@ == pre.defs.pois@
    &&& p.defs.categories@ == pre.defs.categories@
    &&& p.source == pre.source
    &&& p.name@ == pre.name@
    &&& p.user_category_state@ == pre.user_category_state@
    &&& p.enabled_categories@.len() == p.defs@.cats.len()
    &&& p.user_category_state@.len() == p.defs@.cats.len()
    &&& p.textures.wf()
    &&& registry_backed(p.textures, files)
    &&& p.render_list_bookmark as int == base
    &&& p.active_trail_ids@.len() == p.active_trails@.len()
    &&& p.active_poi_ids@.len() == 0
    &&& p.active_pois@.len() == 0
    &&& p.dirty_trails@.len() == p.active_trails@.len()
    &&& p.dirty_pois@.len() == 0
    &&& forall|i: int, j: int|
        0 <= i < j < p.active_trail_ids@.len() ==> p.active_trail_ids@[i]
            != p.active_trail_ids@[j]
    &&& forall|j: int|
        0 <= j < p.active_trails@.len() ==> {
            let a = #[trigger] p.active_trails@[j];
            &&& a.category_idx < p.defs@.cats.len()
            &&& a.texture.0 < p.textures.textures@.len()
            &&& p.textures.loaded@[a.texture.0 as int]
            &&& !p.textures.unused@[a.texture.0 as int]
            &&& a.trail_idx < upto
            &&& p.defs@.trails[a.trail_idx as int].map_id == map_id
            &&& a.category_idx as int == resolved_cat_idx(
                cats,
                p.defs@.trails[a.trail_idx as int].category,
            )
            &&& a.section_bounds@.len() == (if p.defs@.trails[a.trail_idx as int].points.len()
                >= 2 {
                p.defs@.trails[a.trail_idx as int].points.len() - 1
            } else {
                0
            })
        }
    &&& trail_ids_keep_tokens(p.active_trail_ids@, p.active_trails@, p.defs@.trails)
    &&& trail_slots_tied(p.active_trails@, p.textures, p.defs@.trails)
    &&& forall|i: int, j: int|
        0 <= i < j < p.active_trails@.len() ==> p.active_trails@[i].trail_idx
            < p.active_trails@[j].trail_idx
    &&& forall|k: int|
        0 <= k < upto && (#[trigger] p.defs@.trails[k]).map_id == map_id && trail_activates(
            p.defs@.trails[k],
            cats,
            files,
        ) ==> exists|j: int|
            0 <= j < p.active_trails@.len() && (#[trigger] p.active_trails@[j]).trail_idx == k
    &&& forall|h: int|
        0 <= h < p.textures.textures@.len() ==> ((#[trigger] p.textures.loaded@[h]
            && !p.textures.unused@[h]) ==> trail_refs(p.active_trails@, h))
    &&& entities.len() >= base0.len()
    &&& forall|i: int| 0 <= i < base0.len() ==> entities[i] == base0[i]
    &&& forall|i: int|
        base0.len() <= i < entities.len() ==> (#[trigger] entities[i]).bounds.wf()
}

/// The state mid-way through the POI phase of an activation: the trail
/// phase finished, and the first `upto` POI definitions considered.
#[verifier::opaque]
pub open spec fn poi_phase_inv(
    p: Pack,
    entities: Seq<RenderEntity>,
    pre: Pack,
    base0: Seq<RenderEntity>,
    pack_idx: int,
    map_id: int,
    upto: int,
) -> bool {
    let cats = pre.defs@.cats;
    let files = files_view(pre.source.files@);
    let base = base0.len() as int;
    &&& defs_wf(p.defs@)
    &&& p.defs@ == pre.defs@
    &&& p.defs.trails@ == pre.defs.trails@
    &&& p.defs.pois@ == pre.defs.pois@
    &&& p.defs.categories@ == pre.defs.categories@
    &&& p.source == pre.source
    &&& p.name@ == pre.name@
    &&& p.user_category_state@ == pre.user_category_state@
    &&& p.enabled_categories@.len() == p.defs@.cats.len()
    &&& p.user_category_state@.len() == p.defs@.cats.len()
    &&& p.textures.wf()
    &&& registry_backed(p.textures, files)
    &&& p.render_list_bookmark as int == base
    &&& p.active_trail_ids@.len() == p.active_trails@.len()
    &&& p.active_poi_ids@.len() == p.active_pois@.len()
    &&& p.dirty_trails@.len() == p.active_trails@.len()
    &&& p.dirty_pois@.len() == p.active_pois@.len()
    &&& forall|i: int, j: int|
        0 <= i < j < p.active_trail_ids@.len() ==> p.active_trail_ids@[i]
            != p.active_trail_ids@[j]
    &&& forall|i: int, j: int|
        0 <= i < j < p.active_poi_ids@.len() ==> p.active_poi_ids@[i] != p.active_poi_ids@[j]
    &&& forall|j: int|
        0 <= j < p.active_trails@.len() ==> {
            let a = #[trigger] p.active_trails@[j];
            &&& a.category_idx < p.defs@.cats.len()
            &&& a.texture.0 < p.textures.textures@.len()
            &&& p.textures.loaded@[a.texture.0 as int]
            &&& !p.textures.unused@[a.texture.0 as int]
            &&& a.trail_idx < p.defs@.trails.len()
            &&& p.defs@.trails[a.trail_idx as int].map_id == map_id
            &&& a.category_idx as int == resolved_cat_idx(
                cats,
                p.defs@.trails[a.trail_idx as int].category,
            )
            &&& a.section_bounds@.len() == (if p.defs@.trails[a.trail_idx as int].points.len()
                >= 2 {
                p.defs@.trails[a.trail_idx as int].points.len() - 1
            } else {
                0
            })
        }
    &&& forall|i: int, j: int|
        0 <= i < j < p.active_trails@.len() ==> p.active_trails@[i].trail_idx
            < p.active_trails@[j].trail_idx
    &&& forall|k: int|
        0 <= k < p.defs@.trails.len() && (#[trigger] p.defs@.trails[k]).map_id == map_id
            && trail_activates(p.defs@.trails[k], cats, files) ==> exists|j: int|
            0 <= j < p.active_trails@.len() && (#[trigger] p.active_trails@[j]).trail_idx == k
    &&& forall|j: int|
        0 <= j < p.active_pois@.len() ==> {
            let a = #[trigger] p.active_pois@[j];
            &&& a.category_idx < p.defs@.cats.len()
            &&& a.icon.0 < p.textures.textures@.len()
            &&& a.bounds.wf()
            &&& p.textures.loaded@[a.icon.0 as int]
            &&& !p.textures.unused@[a.icon.0 as int]
            &&& a.poi_idx < upto
            &&& p.defs@.pois[a.poi_idx as int].map_id == map_id
            &&& a.category_idx as int == resolved_cat_idx(
                cats,
                p.defs@.pois[a.poi_idx as int].category,
            )
        }
    &&& trail_ids_keep_tokens(p.active_trail_ids@, p.active_trails@, p.defs@.trails)
    &&& trail_slots_tied(p.active_trails@, p.textures, p.defs@.trails)
    &&& poi_ids_keep_tokens(p.active_poi_ids@, p.active_pois@, p.defs@.pois)
    &&& poi_slots_tied(p.active_pois@, p.textures, p.defs@.pois)
    &&& forall|i: int, j: int|
        0 <= i < j < p.active_pois@.len() ==> p.active_pois@[i].poi_idx
            < p.active_pois@[j].poi_idx
    &&& forall|k: int|
        0 <= k < upto && (#[trigger] p.defs@.pois[k]).map_id == map_id && poi_activates(
            p.defs@.pois[k],
            cats,
            files,
        ) ==> exists|j: int|
            0 <= j < p.active_pois@.len() && (#[trigger] p.active_pois@[j]).poi_idx == k
    &&& forall|h: int|
        0 <= h < p.textures.textures@.len() ==> ((#[trigger] p.textures.loaded@[h]
            && !p.textures.unused@[h]) ==> (trail_refs(p.active_trails@, h) || poi_refs(
            p.active_pois@,
            h,
        )))
    &&& p.poi_bookmark as int >= base
    &&& entities.len() as int == p.poi_bookmark + p.active_pois@.len()
    &&& forall|j: int|
        0 <= j < p.active_pois@.len() ==> entities[p.poi_bookmark + j] == (RenderEntity {
            bounds: (#[trigger] p.active_pois@[j]).bounds,
            position: p.active_pois@[j].position,
            draw_ordered: true,
            render_id: RenderId::Poi { pack_idx: pack_idx as usize, poi_idx: j as usize },
        })
    &&& entities.len() >= base0.len()
    &&& forall|i: int| 0 <= i < base0.len() ==> entities[i] == base0[i]
    &&& forall|i: int|
        base0.len() <= i < entities.len() ==> (#[trigger] entities[i]).bounds.wf()
}


impl Pack {

    /// One step of the trail phase: consider trail definition `t_idx`.
    #[verifier::rlimit(100)]
    fn activate_one_trail(
        &mut self,
        pack_idx: usize,
        map_id: i32,
        t_idx: usize,
        render_entities: &mut Vec<RenderEntity>,
        Ghost(pre): Ghost<Pack>,
        Ghost(base0): Ghost<Seq<RenderEntity>>,
    )
        requires
            trail_phase_inv(
                *old(self),
                old(render_entities)@,
                pre,
                base0,
                pack_idx as int,
                map_id as int,
                t_idx as int,
            ),
            trail_placement(
                old(self).active_trails@,
                old(render_entities)@,
                base0.len() as int,
                pack_idx as int,
                old(render_entities)@.len() as int,
            ),
            t_idx < old(self).defs.trails@.len(),
        ensures
            trail_phase_inv(
                *final(self),
                final(render_entities)@,
                pre,
                base0,
                pack_idx as int,
                map_id as int,
                t_idx + 1,
            ),
            trail_placement(
                final(self).active_trails@,
                final(render_entities)@,
                base0.len() as int,
                pack_idx as int,
                final(render_entities)@.len() as int,
            ),
            final(self).defs.trails@ == old(self).defs.trails@,
    {
        proof {
            reveal(trail_phase_inv);
        }
        let ghost cats = pre.defs@.cats;
        let ghost files = files_view(pre.source.files@);
        let ghost base = base0.len() as int;
            if self.defs.trails[t_idx].map_id == map_id {
                let mut id: u128 = self.defs.trails[t_idx].guid;
                let ghost g = self.defs.trails@[t_idx as int].guid;
                let ghost collided = self.active_trail_ids@.contains(g);
                if guid::contains_guid(&self.active_trail_ids, id) {
                    // duplicate identifier: redraw so the trail still renders
                    id = guid::fresh_guid(&self.active_trail_ids);
                }
                assert(!collided ==> id == g);
                proof {
                    assert(crate::parser::trail_bounded(self.defs@.trails[t_idx as int]));
                    assert(self.defs.trails@[t_idx as int]@ == self.defs@.trails[t_idx as int]);
                    assert forall|i: int|
                        0 <= i < self.defs.trails@[t_idx as int].points@.len() implies in_coord_range(
                        #[trigger] self.defs.trails@[t_idx as int].points@[i],
                    ) by {
                        let tv = self.defs@.trails[t_idx as int];
                        let p = self.defs.trails@[t_idx as int].points@[i];
                        assert(tv.points[i] == (p.x as int, p.y as int, p.z as int));
                        assert(-0x4000000000000000 < tv.points[i].0 < 0x4000000000000000);
                    }
                }
                let ghost pre_loop_entities = render_entities@;
                let ghost pre_build_tex = self.textures;
                let built = build_active_trail(
                    &self.defs.trails[t_idx],
                    t_idx,
                    render_entities.len(),
                    &self.defs.categories,
                    &mut self.textures,
                    &self.source,
                );
                match built {
                    Some(at) => {
                        let ns = at.section_bounds.len();
                        let trail_slot = self.active_trails.len();
                        let ghost ebase = render_entities@.len() as int;
                        for s in 0..ns
                            invariant
                                ns == at.section_bounds@.len(),
                                at.render_bookmark as int == ebase,
                                forall|k: int|
                                    0 <= k < at.section_bounds@.len() ==> (
                                    #[trigger] at.section_bounds@[k]).wf(),
                                render_entities@.len() as int == ebase + s,
                                ebase == pre_loop_entities.len() as int,
                                pre_loop_entities == old(render_entities)@,
                                base0.len() <= ebase,
                                forall|i: int|
                                    0 <= i < ebase ==> render_entities@[i]
                                        == pre_loop_entities[i],
                                forall|k: int|
                                    0 <= k < s ==> #[trigger] render_entities@[ebase + k]
                                        == (RenderEntity {
                                        bounds: at.section_bounds@[k],
                                        position: aabb_center(at.section_bounds@[k]),
                                        draw_ordered: false,
                                        render_id: RenderId::TrailSection {
                                            pack_idx,
                                            trail_idx: trail_slot,
                                            section: k as usize,
                                        },
                                    }),
                                forall|i: int|
                                    ebase <= i < render_entities@.len() ==> (
                                    #[trigger] render_entities@[i]).bounds.wf(),
                        {
                            let bb = at.section_bounds[s];
                            let center = bb.center();
                            proof {
                                assert(center == aabb_center(bb));
                            }
                            let entity = RenderEntity {
                                bounds: bb,
                                position: center,
                                draw_ordered: false,
                                render_id: RenderId::TrailSection {
                                    pack_idx,
                                    trail_idx: trail_slot,
                                    section: s,
                                },
                            };
                            let ghost prev = render_entities@;
                            render_entities.push(entity);
                            proof {
                                assert(render_entities@ == prev.push(entity));
                            }
                        }
                        let ghost prev_trails = self.active_trails@;
                        let ghost prev_ids = self.active_trail_ids@;
                        self.active_trail_ids.push(id);
                        self.active_trails.push(at);
                        self.dirty_trails.push(false);
                        proof {
                            assert(self.active_trails@ == prev_trails.push(at));
                            assert(self.active_trail_ids@ == prev_ids.push(id));
                            let tview = self.defs@.trails;
                            let gi = tview[t_idx as int].guid;
                            assert(g as int == gi);
                            assert forall|j: int|
                                0 <= j < self.active_trail_ids@.len() implies ((!exists|j2: int|
                                0 <= j2 < j && self.active_trail_ids@[j2] as int == tview[(
                                #[trigger] self.active_trails@[j]).trail_idx as int].guid)
                                ==> self.active_trail_ids@[j] as int == tview[
                                self.active_trails@[j].trail_idx as int].guid) by {
                                if j < prev_ids.len() {
                                    assert(self.active_trail_ids@[j] == prev_ids[j]);
                                    assert(self.active_trails@[j] == prev_trails[j]);
                                    let gj = tview[prev_trails[j].trail_idx as int].guid;
                                    if !exists|j2: int|
                                        0 <= j2 < j && self.active_trail_ids@[j2] as int == gj {
                                        if exists|j2: int|
                                            0 <= j2 < j && prev_ids[j2] as int == gj {
                                            let w = choose|j2: int|
                                                0 <= j2 < j && prev_ids[j2] as int == gj;
                                            assert(self.active_trail_ids@[w] as int == gj);
                                            assert(false);
                                        }
                                        assert(prev_ids[j] as int == gj);
                                    }
                                } else {
                                    assert(self.active_trails@[j] == at);
                                    assert(at.trail_idx == t_idx);
                                    if !exists|j2: int|
                                        0 <= j2 < j && self.active_trail_ids@[j2] as int == gi {
                                        if collided {
                                            let w = choose|w: int|
                                                0 <= w < prev_ids.len() && prev_ids[w] == g;
                                            assert(self.active_trail_ids@[w] as int == gi);
                                            assert(false);
                                        }
                                        assert(id == g);
                                    }
                                }
                            }
                            assert(trail_ids_keep_tokens(
                                self.active_trail_ids@,
                                self.active_trails@,
                                tview,
                            ));
                            assert forall|j: int|
                                0 <= j < self.active_trails@.len() implies self.textures.textures@[(
                            #[trigger] self.active_trails@[j]).texture.0 as int].asset@ == tview[
                                self.active_trails@[j].trail_idx as int].attrs.texture->Some_0 by {
                                if j < prev_trails.len() {
                                    assert(self.active_trails@[j] == prev_trails[j]);
                                    assert(prev_trails[j].texture.0
                                        < pre_build_tex.textures@.len());
                                    assert(self.textures.textures@[
                                        prev_trails[j].texture.0 as int].asset@
                                        == pre_build_tex.textures@[
                                        prev_trails[j].texture.0 as int].asset@);
                                } else {
                                    assert(self.active_trails@[j] == at);
                                }
                            }
                            assert(trail_slots_tied(self.active_trails@, self.textures, tview));
                            lemma_placement_push(
                                prev_trails,
                                at,
                                pre_loop_entities,
                                render_entities@,
                                base0.len() as int,
                                pack_idx as int,
                            );
                            assert forall|i: int|
                                base0.len() <= i < render_entities@.len() implies (
                            #[trigger] render_entities@[i]).bounds.wf() by {
                                if i < ebase {
                                    assert(render_entities@[i] == old(render_entities)@[i]);
                                }
                            }
                            assert forall|h: int|
                                0 <= h < self.textures.textures@.len() implies ((
                            #[trigger] self.textures.loaded@[h] && !self.textures.unused@[h])
                                ==> trail_refs(self.active_trails@, h)) by {
                                if self.textures.loaded@[h] && !self.textures.unused@[h] {
                                    if h == at.texture.0 {
                                        assert(self.active_trails@[prev_trails.len() as int].texture.0
                                            == h);
                                        assert(trail_refs(self.active_trails@, h));
                                    } else {
                                        assert(trail_refs(prev_trails, h));
                                        let j = choose|j: int|
                                            0 <= j < prev_trails.len() && (
                                            #[trigger] prev_trails[j]).texture.0 == h;
                                        assert(self.active_trails@[j].texture.0 == h);
                                        assert(trail_refs(self.active_trails@, h));
                                    }
                                }
                            }
                            assert forall|k: int|
                                0 <= k < t_idx + 1 && (#[trigger] self.defs@.trails[k]).map_id
                                == map_id as int && trail_activates(
                                self.defs@.trails[k],
                                cats,
                                files,
                            ) implies exists|j: int|
                                0 <= j < self.active_trails@.len() && (
                                #[trigger] self.active_trails@[j]).trail_idx == k by {
                                if k == t_idx {
                                    assert(self.active_trails@[prev_trails.len() as int].trail_idx
                                        == k);
                                } else {
                                    let j = choose|j: int|
                                        0 <= j < prev_trails.len() && (
                                        #[trigger] prev_trails[j]).trail_idx == k;
                                    assert(self.active_trails@[j].trail_idx == k);
                                }
                            }
                        }
                    },
                    None => {
                        proof {
                            assert(!trail_activates(self.defs@.trails[t_idx as int], cats, files));
                        }
                    },
                }
            }
        proof {
            reveal(trail_phase_inv);
            assert(trail_phase_inv(
                *self,
                render_entities@,
                pre,
                base0,
                pack_idx as int,
                map_id as int,
                t_idx + 1,
            ));
        }
    }

    /// One step of the POI phase: consider POI definition `p_idx`.
    #[verifier::rlimit(100)]
    fn activate_one_poi(
        &mut self,
        pack_idx: usize,
        map_id: i32,
        p_idx: usize,
        render_entities: &mut Vec<RenderEntity>,
        Ghost(pre): Ghost<Pack>,
        Ghost(base0): Ghost<Seq<RenderEntity>>,
    )
        requires
            poi_phase_inv(
                *old(self),
                old(render_entities)@,
                pre,
                base0,
                pack_idx as int,
                map_id as int,
                p_idx as int,
            ),
            trail_placement(
                old(self).active_trails@,
                old(render_entities)@,
                base0.len() as int,
                pack_idx as int,
                old(self).poi_bookmark as int,
            ),
            p_idx < old(self).defs.pois@.len(),
        ensures
            poi_phase_inv(
                *final(self),
                final(render_entities)@,
                pre,
                base0,
                pack_idx as int,
                map_id as int,
                p_idx + 1,
            ),
            trail_placement(
                final(self).active_trails@,
                final(render_entities)@,
                base0.len() as int,
                pack_idx as int,
                final(self).poi_bookmark as int,
            ),
            final(self).defs.pois@ == old(self).defs.pois@,
    {
        proof {
            reveal(poi_phase_inv);
        }
        let ghost cats = pre.defs@.cats;
        let ghost files = files_view(pre.source.files@);
        let ghost base = base0.len() as int;
            if self.defs.pois[p_idx].map_id == map_id {
                let mut id: u128 = self.defs.pois[p_idx].guid;
                let ghost g = self.defs.pois@[p_idx as int].guid;
                let ghost collided = self.active_poi_ids@.contains(g);
                if guid::contains_guid(&self.active_poi_ids, id) {
                    // duplicate identifier: redraw so the POI still renders
                    id = guid::fresh_guid(&self.active_poi_ids);
                }
                assert(!collided ==> id == g);
                proof {
                    assert(crate::parser::poi_bounded(self.defs@.pois[p_idx as int]));
                    assert(self.defs.pois@[p_idx as int]@ == self.defs@.pois[p_idx as int]);
                    assert(in_coord_range(self.defs.pois@[p_idx as int].position));
                }
                let ghost pre_build_tex = self.textures;
                let built = build_active_poi(
                    &self.defs.pois[p_idx],
                    p_idx,
                    &self.defs.categories,
                    &mut self.textures,
                    &self.source,
                );
                match built {
                    Some(ap) => {
                        let entity = RenderEntity {
                            bounds: ap.bounds,
                            position: ap.position,
                            draw_ordered: true,
                            render_id: RenderId::Poi {
                                pack_idx,
                                poi_idx: self.active_pois.len(),
                            },
                        };
                        let ghost prev = render_entities@;
                        render_entities.push(entity);
                        proof {
                            assert(render_entities@ == prev.push(entity));
                            lemma_placement_append(
                                self.active_trails@,
                                prev,
                                render_entities@,
                                base0.len() as int,
                                pack_idx as int,
                                self.poi_bookmark as int,
                            );
                        }
                        let ghost prev_pois = self.active_pois@;
                        let ghost prev_ids = self.active_poi_ids@;
                        let ghost prev_trails = self.active_trails@;
                        self.active_poi_ids.push(id);
                        self.active_pois.push(ap);
                        self.dirty_pois.push(false);
                        proof {
                            assert(self.active_pois@ == prev_pois.push(ap));
                            assert(self.active_poi_ids@ == prev_ids.push(id));
                            let pview = self.defs@.pois;
                            let tview = self.defs@.trails;
                            let gi = pview[p_idx as int].guid;
                            assert(g as int == gi);
                            assert forall|j: int|
                                0 <= j < self.active_poi_ids@.len() implies ((!exists|j2: int|
                                0 <= j2 < j && self.active_poi_ids@[j2] as int == pview[(
                                #[trigger] self.active_pois@[j]).poi_idx as int].guid)
                                ==> self.active_poi_ids@[j] as int == pview[
                                self.active_pois@[j].poi_idx as int].guid) by {
                                if j < prev_ids.len() {
                                    assert(self.active_poi_ids@[j] == prev_ids[j]);
                                    assert(self.active_pois@[j] == prev_pois[j]);
                                    let gj = pview[prev_pois[j].poi_idx as int].guid;
                                    if !exists|j2: int|
                                        0 <= j2 < j && self.active_poi_ids@[j2] as int == gj {
                                        if exists|j2: int|
                                            0 <= j2 < j && prev_ids[j2] as int == gj {
                                            let w = choose|j2: int|
                                                0 <= j2 < j && prev_ids[j2] as int == gj;
                                            assert(self.active_poi_ids@[w] as int == gj);
                                            assert(false);
                                        }
                                        assert(prev_ids[j] as int == gj);
                                    }
                                } else {
                                    assert(self.active_pois@[j] == ap);
                                    assert(ap.poi_idx == p_idx);
                                    if !exists|j2: int|
                                        0 <= j2 < j && self.active_poi_ids@[j2] as int == gi {
                                        if collided {
                                            let w = choose|w: int|
                                                0 <= w < prev_ids.len() && prev_ids[w] == g;
                                            assert(self.active_poi_ids@[w] as int == gi);
                                            assert(false);
                                        }
                                        assert(id == g);
                                    }
                                }
                            }
                            assert(poi_ids_keep_tokens(
                                self.active_poi_ids@,
                                self.active_pois@,
                                pview,
                            ));
                            assert forall|j: int|
                                0 <= j < self.active_pois@.len() implies self.textures.textures@[(
                            #[trigger] self.active_pois@[j]).icon.0 as int].asset@ == pview[
                                self.active_pois@[j].poi_idx as int].attrs.icon_file->Some_0 by {
                                if j < prev_pois.len() {
                                    assert(self.active_pois@[j] == prev_pois[j]);
                                    assert(prev_pois[j].icon.0 < pre_build_tex.textures@.len());
                                    assert(self.textures.textures@[
                                        prev_pois[j].icon.0 as int].asset@ == pre_build_tex.textures@[
                                        prev_pois[j].icon.0 as int].asset@);
                                } else {
                                    assert(self.active_pois@[j] == ap);
                                }
                            }
                            assert(poi_slots_tied(self.active_pois@, self.textures, pview));
                            assert forall|j: int|
                                0 <= j < self.active_trails@.len() implies self.textures.textures@[(
                            #[trigger] self.active_trails@[j]).texture.0 as int].asset@ == tview[
                                self.active_trails@[j].trail_idx as int].attrs.texture->Some_0 by {
                                assert(self.active_trails@[j] == prev_trails[j]);
                                assert(prev_trails[j].texture.0 < pre_build_tex.textures@.len());
                                assert(self.textures.textures@[
                                    prev_trails[j].texture.0 as int].asset@ == pre_build_tex.textures@[
                                    prev_trails[j].texture.0 as int].asset@);
                            }
                            assert(trail_slots_tied(self.active_trails@, self.textures, tview));
                            assert forall|h: int|
                                0 <= h < self.textures.textures@.len() implies ((
                            #[trigger] self.textures.loaded@[h] && !self.textures.unused@[h])
                                ==> (trail_refs(self.active_trails@, h) || poi_refs(
                                self.active_pois@,
                                h,
                            ))) by {
                                if self.textures.loaded@[h] && !self.textures.unused@[h] {
                                    if h == ap.icon.0 {
                                        assert(self.active_pois@[prev_pois.len() as int].icon.0
                                            == h);
                                        assert(poi_refs(self.active_pois@, h));
                                    } else {
                                        assert(h < pre_build_tex.textures@.len()
                                            && pre_build_tex.loaded@[h]
                                            && !pre_build_tex.unused@[h]);
                                        assert(trail_refs(self.active_trails@, h) || poi_refs(
                                            prev_pois,
                                            h,
                                        ));
                                        if poi_refs(prev_pois, h) {
                                            let j = choose|j: int|
                                                0 <= j < prev_pois.len() && (
                                                #[trigger] prev_pois[j]).icon.0 == h;
                                            assert(self.active_pois@[j].icon.0 == h);
                                            assert(poi_refs(self.active_pois@, h));
                                        }
                                    }
                                }
                            }
                            assert forall|k: int|
                                0 <= k < p_idx + 1 && (#[trigger] self.defs@.pois[k]).map_id
                                == map_id as int && poi_activates(self.defs@.pois[k], cats, files)
                                implies exists|j: int|
                                0 <= j < self.active_pois@.len() && (
                                #[trigger] self.active_pois@[j]).poi_idx == k by {
                                if k == p_idx {
                                    assert(self.active_pois@[prev_pois.len() as int].poi_idx == k);
                                } else {
                                    let j = choose|j: int|
                                        0 <= j < prev_pois.len() && (
                                        #[trigger] prev_pois[j]).poi_idx == k;
                                    assert(self.active_pois@[j].poi_idx == k);
                                }
                            }
                        }
                    },
                    None => {
                        proof {
                            assert(!poi_activates(self.defs@.pois[p_idx as int], cats, files));
                        }
                    },
                }
            }
        proof {
            reveal(poi_phase_inv);
            assert(poi_phase_inv(
                *self,
                render_entities@,
                pre,
                base0,
                pack_idx as int,
                map_id as int,
                p_idx + 1,
            ));
        }
    }

    /// The closing steps of an activation: sweep still-unused textures
    /// and recompute the filter state, leaving the full `activated`
    /// relation.
    #[verifier::rlimit(100)]
    fn finish_activation(
        &mut self,
        pack_idx: usize,
        map_id: i32,
        render_entities: &Vec<RenderEntity>,
        Ghost(pre): Ghost<Pack>,
        Ghost(base0): Ghost<Seq<RenderEntity>>,
    )
        requires
            poi_phase_inv(
                *old(self),
                render_entities@,
                pre,
                base0,
                pack_idx as int,
                map_id as int,
                pre.defs@.pois.len() as int,
            ),
            trail_placement(
                old(self).active_trails@,
                render_entities@,
                base0.len() as int,
                pack_idx as int,
                old(self).poi_bookmark as int,
            ),
        ensures
            final(self).wf(),
            activated(pre, *final(self), render_entities@, pack_idx as int, map_id as int),
            final(self).render_list_bookmark as int == base0.len(),
            render_entities@.len() == final(self).poi_bookmark + final(self).active_pois@.len(),
    {
        proof {
            reveal(poi_phase_inv);
        }
        let ghost cats = pre.defs@.cats;
        let ghost files = files_view(pre.source.files@);
        let ghost base = base0.len() as int;
        let ghost pre_sweep = *self;
        self.textures.sweep();
        proof {
            assert forall|h: int|
                0 <= h < self.textures.textures@.len() implies (#[trigger] self.textures.loaded@[h]
                ==> asset_decodes(files, self.textures.textures@[h].asset@)) by {
                if self.textures.loaded@[h] {
                    assert(pre_sweep.textures.loaded@[h]);
                    assert(pre_sweep.textures.textures@[h].asset@
                        == self.textures.textures@[h].asset@);
                }
            }
        }
        let ghost post_sweep = *self;
        self.recompute_enabled();
        proof {
            assert(final(self).textures == post_sweep.textures);
            assert(post_sweep.active_trails@ == pre_sweep.active_trails@);
            assert(post_sweep.active_pois@ == pre_sweep.active_pois@);
            lemma_placement_refiltered(
                pre_sweep.active_trails@,
                self.active_trails@,
                render_entities@,
                base0.len() as int,
                pack_idx as int,
                self.poi_bookmark as int,
            );
            assert forall|j: int|
                0 <= j < self.active_pois@.len() implies self.textures.loaded@[(
            #[trigger] self.active_pois@[j]).icon.0 as int] && self.textures.textures@[
                self.active_pois@[j].icon.0 as int].texture is Some by {
                assert(self.active_pois@[j] == (ActivePoi {
                    filtered: self.active_pois@[j].filtered,
                    ..pre_sweep.active_pois@[j]
                }));
                assert(self.active_pois@[j].icon.0 == pre_sweep.active_pois@[j].icon.0);
                assert(pre_sweep.textures.loaded@[pre_sweep.active_pois@[j].icon.0 as int]);
                assert(!pre_sweep.textures.unused@[pre_sweep.active_pois@[j].icon.0 as int]);
            }
            assert forall|j: int|
                0 <= j < self.active_trails@.len() implies self.textures.loaded@[(
            #[trigger] self.active_trails@[j]).texture.0 as int] && self.textures.textures@[
                self.active_trails@[j].texture.0 as int].texture is Some by {
                assert(self.active_trails@[j] == (ActiveTrail {
                    filtered: self.active_trails@[j].filtered,
                    ..pre_sweep.active_trails@[j]
                }));
                assert(self.active_trails@[j].texture.0 == pre_sweep.active_trails@[j].texture.0);
                assert(pre_sweep.textures.loaded@[pre_sweep.active_trails@[j].texture.0 as int]);
                assert(!pre_sweep.textures.unused@[pre_sweep.active_trails@[j].texture.0 as int]);
            }
            assert forall|h: int|
                0 <= h < self.textures.textures@.len() implies (#[trigger] self.textures.loaded@[h]
                ==> (poi_refs(self.active_pois@, h) || trail_refs(self.active_trails@, h))) by {
                if self.textures.loaded@[h] {
                    assert(pre_sweep.textures.loaded@[h] && !pre_sweep.textures.unused@[h]);
                    assert(trail_refs(pre_sweep.active_trails@, h) || poi_refs(
                        pre_sweep.active_pois@,
                        h,
                    ));
                    if trail_refs(pre_sweep.active_trails@, h) {
                        let j = choose|j: int|
                            0 <= j < pre_sweep.active_trails@.len() && (
                            #[trigger] pre_sweep.active_trails@[j]).texture.0 == h;
                        assert(self.active_trails@[j].texture.0 == h);
                        assert(trail_refs(self.active_trails@, h));
                    } else {
                        let j = choose|j: int|
                            0 <= j < pre_sweep.active_pois@.len() && (
                            #[trigger] pre_sweep.active_pois@[j]).icon.0 == h;
                        assert(self.active_pois@[j].icon.0 == h);
                        assert(poi_refs(self.active_pois@, h));
                    }
                }
            }
            // the remaining activation clauses survive sweep and recompute:
            // only filtered flags changed on the entities
            assert forall|k: int|
                0 <= k < self.defs@.trails.len() && (#[trigger] self.defs@.trails[k]).map_id
                == map_id as int && trail_activates(self.defs@.trails[k], cats, files)
                implies exists|j: int|
                0 <= j < self.active_trails@.len() && (
                #[trigger] self.active_trails@[j]).trail_idx == k by {
                let j = choose|j: int|
                    0 <= j < pre_sweep.active_trails@.len() && (
                    #[trigger] pre_sweep.active_trails@[j]).trail_idx == k;
                assert(self.active_trails@[j] == (ActiveTrail {
                    filtered: self.active_trails@[j].filtered,
                    ..pre_sweep.active_trails@[j]
                }));
                assert(self.active_trails@[j].trail_idx == k);
            }
            assert forall|k: int|
                0 <= k < self.defs@.pois.len() && (#[trigger] self.defs@.pois[k]).map_id
                == map_id as int && poi_activates(self.defs@.pois[k], cats, files)
                implies exists|j: int|
                0 <= j < self.active_pois@.len() && (#[trigger] self.active_pois@[j]).poi_idx == k
                by {
                let j = choose|j: int|
                    0 <= j < pre_sweep.active_pois@.len() && (
                    #[trigger] pre_sweep.active_pois@[j]).poi_idx == k;
                assert(self.active_pois@[j] == (ActivePoi {
                    filtered: self.active_pois@[j].filtered,
                    ..pre_sweep.active_pois@[j]
                }));
                assert(self.active_pois@[j].poi_idx == k);
            }
            assert forall|j: int|
                0 <= j < self.active_trails@.len() implies {
                let a = #[trigger] self.active_trails@[j];
                &&& a.trail_idx < self.defs@.trails.len()
                &&& self.defs@.trails[a.trail_idx as int].map_id == map_id as int
                &&& a.category_idx as int == resolved_cat_idx(
                    cats,
                    self.defs@.trails[a.trail_idx as int].category,
                )
                &&& a.section_bounds@.len() == (if self.defs@.trails[
                    a.trail_idx as int].points.len() >= 2 {
                    self.defs@.trails[a.trail_idx as int].points.len() - 1
                } else {
                    0
                })
            } by {
                assert(self.active_trails@[j] == (ActiveTrail {
                    filtered: self.active_trails@[j].filtered,
                    ..pre_sweep.active_trails@[j]
                }));
                if j > 0 {
                    assert(self.active_trails@[j - 1] == (ActiveTrail {
                        filtered: self.active_trails@[j - 1].filtered,
                        ..pre_sweep.active_trails@[j - 1]
                    }));
                }
            }
            assert forall|j: int|
                0 <= j < self.active_pois@.len() implies {
                let a = #[trigger] self.active_pois@[j];
                &&& a.poi_idx < self.defs@.pois.len()
                &&& self.defs@.pois[a.poi_idx as int].map_id == map_id as int
                &&& a.category_idx as int == resolved_cat_idx(
                    cats,
                    self.defs@.pois[a.poi_idx as int].category,
                )
            } by {
                assert(self.active_pois@[j] == (ActivePoi {
                    filtered: self.active_pois@[j].filtered,
                    ..pre_sweep.active_pois@[j]
                }));
            }
            assert forall|j: int|
                0 <= j < self.active_pois@.len() implies render_entities@[self.poi_bookmark + j]
                == (RenderEntity {
                bounds: (#[trigger] self.active_pois@[j]).bounds,
                position: self.active_pois@[j].position,
                draw_ordered: true,
                render_id: RenderId::Poi { pack_idx, poi_idx: j as usize },
            }) by {
                assert(self.active_pois@[j] == (ActivePoi {
                    filtered: self.active_pois@[j].filtered,
                    ..pre_sweep.active_pois@[j]
                }));
            }
            assert forall|i: int, j: int|
                0 <= i < j < self.active_trails@.len() implies self.active_trails@[i].trail_idx
                < self.active_trails@[j].trail_idx by {
                assert(self.active_trails@[i].trail_idx == pre_sweep.active_trails@[i].trail_idx);
                assert(self.active_trails@[j].trail_idx == pre_sweep.active_trails@[j].trail_idx);
            }
            assert forall|i: int, j: int|
                0 <= i < j < self.active_pois@.len() implies self.active_pois@[i].poi_idx
                < self.active_pois@[j].poi_idx by {
                assert(self.active_pois@[i].poi_idx == pre_sweep.active_pois@[i].poi_idx);
                assert(self.active_pois@[j].poi_idx == pre_sweep.active_pois@[j].poi_idx);
            }
        }
    }

    /// Activate this pack for a map: mark every decoded texture unused,
    /// rebuild the active entities of the target map (skipping, not
    /// aborting on, any entity whose assets fail), resolve identifier
    /// collisions by redrawing, append the survivors' render entities,
    /// sweep still-unused textures, and recompute the filter state.
    ///
    /// The whole outcome is the `activated` relation: activation is
    /// complete and exactly-once over the matching definitions whose
    /// assets decode, entities land at the recorded bookmarks in
    /// definition order, and mark-and-sweep safety holds.
    /// The opening steps of an activation: mark every decoded texture
    /// unused and clear the active state, leaving the trail phase's
    /// invariants established.
    #[verifier::rlimit(100)]
    fn begin_activation(
        &mut self,
        pack_idx: usize,
        map_id: i32,
        render_entities: &Vec<RenderEntity>,
    )
        requires
            old(self).wf(),
        ensures
            trail_phase_inv(
                *final(self),
                render_entities@,
                *old(self),
                render_entities@,
                pack_idx as int,
                map_id as int,
                0,
            ),
            trail_placement(
                final(self).active_trails@,
                render_entities@,
                render_entities@.len() as int,
                pack_idx as int,
                render_entities@.len() as int,
            ),
    {
        self.textures.mark_all_unused();
        self.active_trail_ids = Vec::new();
        self.active_trails = Vec::new();
        self.active_poi_ids = Vec::new();
        self.active_pois = Vec::new();
        self.dirty_trails = Vec::new();
        self.dirty_pois = Vec::new();
        self.render_list_bookmark = render_entities.len();
        proof {
            reveal(trail_phase_inv);
            assert(registry_backed(self.textures, files_view(old(self).source.files@)));
            assert(trail_phase_inv(
                *self,
                render_entities@,
                *old(self),
                render_entities@,
                pack_idx as int,
                map_id as int,
                0,
            ));
            reveal(trail_placement);
            assert(trail_placement(
                self.active_trails@,
                render_entities@,
                render_entities@.len() as int,
                pack_idx as int,
                render_entities@.len() as int,
            ));
        }
    }

    /// The hand-over between the phases: record where the POI entities
    /// begin.
    #[verifier::rlimit(100)]
    fn begin_poi_phase(
        &mut self,
        pack_idx: usize,
        map_id: i32,
        render_entities: &Vec<RenderEntity>,
        Ghost(pre): Ghost<Pack>,
        Ghost(base0): Ghost<Seq<RenderEntity>>,
    )
        requires
            trail_phase_inv(
                *old(self),
                render_entities@,
                pre,
                base0,
                pack_idx as int,
                map_id as int,
                old(self).defs.trails@.len() as int,
            ),
            trail_placement(
                old(self).active_trails@,
                render_entities@,
                base0.len() as int,
                pack_idx as int,
                render_entities@.len() as int,
            ),
        ensures
            poi_phase_inv(
                *final(self),
                render_entities@,
                pre,
                base0,
                pack_idx as int,
                map_id as int,
                0,
            ),
            trail_placement(
                final(self).active_trails@,
                render_entities@,
                base0.len() as int,
                pack_idx as int,
                final(self).poi_bookmark as int,
            ),
    {
        self.poi_bookmark = render_entities.len();
        proof {
            reveal(trail_phase_inv);
            reveal(poi_phase_inv);
            assert(poi_phase_inv(
                *self,
                render_entities@,
                pre,
                base0,
                pack_idx as int,
                map_id as int,
                0,
            ));
        }
    }

    #[verifier::rlimit(100)]
    pub fn prepare_new_map(
        &mut self,
        pack_idx: usize,
        map_id: i32,
        render_entities: &mut Vec<RenderEntity>,
    )
        requires
            old(self).wf(),
        ensures
            final(self).wf(),
            activated(
                *old(self),
                *final(self),
                final(render_entities)@,
                pack_idx as int,
                map_id as int,
            ),
            final(self).render_list_bookmark == old(render_entities)@.len(),
            final(render_entities)@.len() == final(self).poi_bookmark + final(self).active_pois@.len(),
            final(render_entities)@.len() >= old(render_entities)@.len(),
            forall|i: int|
                0 <= i < old(render_entities)@.len() ==> final(render_entities)@[i] == old(render_entities)@[i],
            forall|i: int|
                old(render_entities)@.len() <= i < final(render_entities)@.len() ==> (
                #[trigger] final(render_entities)@[i]).bounds.wf(),
    {
        let ghost pre = *old(self);
        let ghost base0 = old(render_entities)@;
        self.begin_activation(pack_idx, map_id, render_entities);
        let nt = self.defs.trails.len();
        for t_idx in 0..nt
            invariant
                nt == self.defs.trails@.len(),
                pre == *old(self),
                base0 == old(render_entities)@,
                trail_phase_inv(
                    *self,
                    render_entities@,
                    pre,
                    base0,
                    pack_idx as int,
                    map_id as int,
                    t_idx as int,
                ),
                trail_placement(
                    self.active_trails@,
                    render_entities@,
                    base0.len() as int,
                    pack_idx as int,
                    render_entities@.len() as int,
                ),
        {
            self.activate_one_trail(
                pack_idx,
                map_id,
                t_idx,
                render_entities,
                Ghost(pre),
                Ghost(base0),
            );
        }
        self.begin_poi_phase(pack_idx, map_id, render_entities, Ghost(pre), Ghost(base0));
        let np = self.defs.pois.len();
        for p_idx in 0..np
            invariant
                np == self.defs.pois@.len(),
                pre == *old(self),
                base0 == old(render_entities)@,
                poi_phase_inv(
                    *self,
                    render_entities@,
                    pre,
                    base0,
                    pack_idx as int,
                    map_id as int,
                    p_idx as int,
                ),
                trail_placement(
                    self.active_trails@,
                    render_entities@,
                    base0.len() as int,
                    pack_idx as int,
                    self.poi_bookmark as int,
                ),
        {
            self.activate_one_poi(
                pack_idx,
                map_id,
                p_idx,
                render_entities,
                Ghost(pre),
                Ghost(base0),
            );
        }
        proof {
            reveal(poi_phase_inv);
            assert(np == pre.defs@.pois.len());
        }
        self.finish_activation(pack_idx, map_id, render_entities, Ghost(pre), Ghost(base0));
        proof {
            reveal(poi_phase_inv);
        }
    }

    /// Per-frame upkeep: forward any dirty entity flags into the render
    /// list.  With nothing marking entities dirty outside a rebuild,
    /// this is an extension point, kept cheap.
    pub fn update(&mut self, render_list: &mut crate::render_list::RenderList)
        requires
            old(self).wf(),
        ensures
            *final(self) == *old(self),
            final(render_list).entities@ == old(render_list).entities@,
            final(render_list).dirty@.len() == old(render_list).dirty@.len(),
    {
        let nt = self.active_trails.len();
        for i in 0..nt
            invariant
                nt == self.active_trails@.len(),
                self.wf(),
                *self == *old(self),
                render_list.entities@ == old(render_list).entities@,
                render_list.dirty@.len() == old(render_list).dirty@.len(),
        {
            if self.dirty_trails[i] {
                let t = &self.active_trails[i];
                let ns = t.section_bounds.len();
                let bookmark = t.render_bookmark;
                for s in 0..ns
                    invariant
                        render_list.entities@ == old(render_list).entities@,
                        render_list.dirty@.len() == old(render_list).dirty@.len(),
                {
                    if bookmark <= usize::MAX - s {
                        render_list.mark_dirty(bookmark + s);
                    }
                }
            }
        }
        let npo = self.active_pois.len();
        for i in 0..npo
            invariant
                npo == self.active_pois@.len(),
                self.wf(),
                *self == *old(self),
                render_list.entities@ == old(render_list).entities@,
                render_list.dirty@.len() == old(render_list).dirty@.len(),
        {
            if self.dirty_pois[i] {
                if self.poi_bookmark <= usize::MAX - i {
                    render_list.mark_dirty(self.poi_bookmark + i);
                }
            }
        }
    }
}

} // verus!
