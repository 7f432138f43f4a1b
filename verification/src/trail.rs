//! Trails: parsed from one element's attribute list plus a referenced
//! binary trail-data asset holding the map identifier and the ordered
//! 3D points of the path.

use vstd::prelude::*;
use crate::attributes::{added, AttrsView, empty_attrs, MarkerAttributes};
use crate::geom::{ieee_milli, in_coord_range, Vec3M};
use crate::guid::guid_of_token;
use crate::poi::pairs_view;
use crate::source::{file_of, files_view, PackSource};
use crate::text;

verus! {

/// One trail: a path of points on one map, with visual attributes.
pub struct Trail {
    /// Fully-qualified name of the category it belongs to.
    pub category: String,
    /// Stable 128-bit identifier.
    pub guid: u128,
    /// The map this trail appears on, from its data asset.
    pub map_id: i32,
    /// The ordered path, in thousandths.
    pub points: Vec<Vec3M>,
    /// Resolved attribute bundle.
    pub attributes: MarkerAttributes,
}

/// The mathematical shadow of a trail.
#[verifier::ext_equal]
pub struct TrailView {
    pub category: Seq<char>,
    pub guid: int,
    pub map_id: int,
    pub points: Seq<(int, int, int)>,
    pub attrs: AttrsView,
}

/// Views of a point list.
pub open spec fn points_view(s: Seq<Vec3M>) -> Seq<(int, int, int)> {
    Seq::new(s.len(), |i: int| (s[i].x as int, s[i].y as int, s[i].z as int))
}

impl View for Trail {
    type V = TrailView;

    open spec fn view(&self) -> TrailView {
        TrailView {
            category: self.category@,
            guid: self.guid as int,
            map_id: self.map_id as int,
            points: points_view(self.points@),
            attrs: self.attributes@,
        }
    }
}

/// A 32-bit little-endian value inside a byte string.
pub open spec fn u32_le_at(b: Seq<u8>, o: int) -> int {
    b[o] + 0x100 * b[o + 1] + 0x10000 * b[o + 2] + 0x1000000 * b[o + 3]
}

/// The signed reading of an unsigned 32-bit value.
pub open spec fn i32_of_u32(v: int) -> int {
    if v >= 0x80000000 {
        v - 0x100000000
    } else {
        v
    }
}

/// One point decoded from twelve bytes, if all three values read.
pub open spec fn point_at(b: Seq<u8>, o: int) -> Option<(int, int, int)> {
    match (
        ieee_milli(u32_le_at(b, o) as u32),
        ieee_milli(u32_le_at(b, o + 4) as u32),
        ieee_milli(u32_le_at(b, o + 8) as u32),
    ) {
        (Some(x), Some(y), Some(z)) => Some((x, y, z)),
        _ => None,
    }
}

/// The first `k` points of the asset, or nothing once any fails.
pub open spec fn points_upto(b: Seq<u8>, k: int) -> Option<Seq<(int, int, int)>>
    decreases k,
{
    if k <= 0 {
        Some(Seq::empty())
    } else {
        match (points_upto(b, k - 1), point_at(b, 8 + 12 * (k - 1))) {
            (Some(s), Some(p)) => Some(s.push(p)),
            _ => None,
        }
    }
}

/// What a trail-data asset holds: a version word, the map identifier,
/// then a whole number of 3D points — or nothing when the length is
/// off or any value is unreadable.
pub open spec fn trail_data_of(b: Seq<u8>) -> Option<(int, Seq<(int, int, int)>)> {
    if b.len() >= 8 && (b.len() - 8) % 12 == 0 {
        match points_upto(b, (b.len() - 8) / 12) {
            Some(pts) => Some((i32_of_u32(u32_le_at(b, 4)), pts)),
            None => None,
        }
    } else {
        None
    }
}

proof fn lemma_points_none_sticks(b: Seq<u8>, k: int, n: int)
    requires
        points_upto(b, k) is None,
        k <= n,
    ensures
        points_upto(b, n) is None,
    decreases n - k,
{
    if k < n {
        lemma_points_none_sticks(b, k + 1, n);
    }
}

/// Read a little-endian 32-bit value.
fn u32_le(b: &Vec<u8>, o: usize) -> (r: u32)
    requires
        o + 4 <= b@.len(),
    ensures
        r == u32_le_at(b@, o as int),
{
    let n = b.len();
    assert(o + 4 <= n);
    (b[o] as u32) + 0x100 * (b[o + 1] as u32) + 0x10000 * (b[o + 2] as u32) + 0x1000000 * (b[o
        + 3] as u32)
}

/// Read one path point from twelve bytes.
fn read_point(b: &Vec<u8>, o: usize) -> (r: Option<Vec3M>)
    requires
        o + 12 <= b@.len(),
    ensures
        match r {
            Some(p) => point_at(b@, o as int) == Some((p.x as int, p.y as int, p.z as int))
                && in_coord_range(p),
            None => point_at(b@, o as int) is None,
        },
{
    let n = b.len();
    assert(o + 12 <= n);
    let xb = u32_le(b, o);
    let yb = u32_le(b, o + 4);
    let zb = u32_le(b, o + 8);
    let x = crate::geom::ieee_milli_exec(xb);
    let y = crate::geom::ieee_milli_exec(yb);
    let z = crate::geom::ieee_milli_exec(zb);
    match (x, y, z) {
        (Some(x), Some(y), Some(z)) => Some(Vec3M { x, y, z }),
        _ => None,
    }
}

/// Decode a trail-data asset into its map identifier and path.
#[verifier::rlimit(50)]
pub fn parse_trail_data(b: &Vec<u8>) -> (r: Option<(i32, Vec<Vec3M>)>)
    ensures
        match r {
            Some((m, pts)) => trail_data_of(b@) == Some((m as int, points_view(pts@)))
                && forall|i: int| 0 <= i < pts@.len() ==> in_coord_range(#[trigger] pts@[i]),
            None => trail_data_of(b@) is None,
        },
{
    let len = b.len();
    if len < 8 || (len - 8) % 12 != 0 {
        return None;
    }
    let count = (len - 8) / 12;
    let mut pts: Vec<Vec3M> = Vec::new();
    for k in 0..count
        invariant
            len == b@.len(),
            len >= 8,
            (len - 8) % 12 == 0,
            count == (len - 8) / 12,
            pts@.len() == k,
            points_upto(b@, k as int) == Some(points_view(pts@)),
            forall|i: int| 0 <= i < pts@.len() ==> in_coord_range(#[trigger] pts@[i]),
    {
        let o = 8 + 12 * k;
        match read_point(b, o) {
            Some(p) => {
                let ghost prev = pts@;
                pts.push(p);
                proof {
                    assert(points_view(pts@) =~= points_view(prev).push(
                        (p.x as int, p.y as int, p.z as int),
                    ));
                }
            },
            None => {
                proof {
                    assert(point_at(b@, 8 + 12 * (k as int)) is None);
                    assert(points_upto(b@, k + 1) is None);
                    lemma_points_none_sticks(b@, k + 1, (len - 8) as int / 12);
                }
                return None;
            },
        }
    }
    let mv = u32_le(b, 4);
    let m: i32 = if mv >= 0x80000000 {
        ((mv as i64) - 0x100000000) as i32
    } else {
        mv as i32
    };
    Some((m, pts))
}

/// Partial state of a trail element while its attributes are read.
pub struct TrailDraft {
    pub category: String,
    pub guid: Option<u128>,
    pub data_path: Option<String>,
    pub attrs: MarkerAttributes,
    pub failed: bool,
}

/// The mathematical shadow of the partial state.
#[verifier::ext_equal]
pub struct TrailDraftView {
    pub category: Seq<char>,
    pub guid: Option<int>,
    pub data_path: Option<Seq<char>>,
    pub attrs: AttrsView,
    pub failed: bool,
}

impl View for TrailDraft {
    type V = TrailDraftView;

    open spec fn view(&self) -> TrailDraftView {
        TrailDraftView {
            category: self.category@,
            guid: match self.guid {
                Some(v) => Some(v as int),
                None => None,
            },
            data_path: match self.data_path {
                Some(ref p) => Some(p@),
                None => None,
            },
            attrs: self.attrs@,
            failed: self.failed,
        }
    }
}

/// The state before any attribute is read.
pub open spec fn trail_draft_init() -> TrailDraftView {
    TrailDraftView {
        category: Seq::empty(),
        guid: None,
        data_path: None,
        attrs: empty_attrs(),
        failed: false,
    }
}

/// One attribute applied to the partial state.
pub open spec fn trail_step(d: TrailDraftView, name: Seq<char>, value: Seq<char>) -> TrailDraftView {
    if d.failed {
        d
    } else {
        let nl = text::lower_of(name);
        if nl == "type"@ {
            TrailDraftView { category: text::safe_name_of(value, true), ..d }
        } else if nl == "guid"@ {
            TrailDraftView { guid: Some(guid_of_token(value)), ..d }
        } else if nl == "traildata"@ {
            TrailDraftView { data_path: Some(value), ..d }
        } else {
            TrailDraftView { attrs: added(d.attrs, nl, value), ..d }
        }
    }
}

/// The fold of the first `i` attributes.
pub open spec fn trail_fold(attrs: Seq<(Seq<char>, Seq<char>)>, i: int) -> TrailDraftView
    decreases i,
{
    if i <= 0 {
        trail_draft_init()
    } else {
        trail_step(trail_fold(attrs, i - 1), attrs[i - 1].0, attrs[i - 1].1)
    }
}

/// What a trail element yields against a pack source: the trail with
/// its decoded path, or nothing when the data reference is missing,
/// unresolvable or unreadable.
pub open spec fn trail_of_attrs(
    attrs: Seq<(Seq<char>, Seq<char>)>,
    files: Seq<(Seq<char>, Seq<u8>)>,
) -> Option<TrailView> {
    let d = trail_fold(attrs, attrs.len() as int);
    if d.failed {
        None
    } else {
        match d.data_path {
            Some(p) => match file_of(files, p) {
                Some(bytes) => match trail_data_of(bytes) {
                    Some((m, pts)) => Some(
                        TrailView {
                            category: d.category,
                            guid: match d.guid {
                                Some(g) => g,
                                None => 0,
                            },
                            map_id: m,
                            points: pts,
                            attrs: d.attrs,
                        },
                    ),
                    None => None,
                },
                None => None,
            },
            None => None,
        }
    }
}

/// Read a trail from its element's attribute list, resolving its data
/// asset against the pack source.
pub fn trail_from_attrs(attrs: &Vec<(String, String)>, source: &PackSource) -> (r: Option<Trail>)
    ensures
        match r {
            Some(t) => trail_of_attrs(pairs_view(attrs@), files_view(source.files@)) == Some(t@)
                && forall|i: int|
                0 <= i < t.points@.len() ==> in_coord_range(#[trigger] t.points@[i]),
            None => trail_of_attrs(pairs_view(attrs@), files_view(source.files@)) is None,
        },
{
    let ghost av = pairs_view(attrs@);
    let mut d = TrailDraft {
        category: String::new(),
        guid: None,
        data_path: None,
        attrs: MarkerAttributes::new(),
        failed: false,
    };
    let n = attrs.len();
    for i in 0..n
        invariant
            av == pairs_view(attrs@),
            n == attrs@.len(),
            d@ == trail_fold(av, i as int),
    {
        let name_low = text::ascii_lower(attrs[i].0.as_str());
        let value = &attrs[i].1;
        if !d.failed {
            if text::str_is(name_low.as_str(), "type") {
                d.category = text::taco_safe_name(value.as_str(), true);
            } else if text::str_is(name_low.as_str(), "guid") {
                d.guid = Some(crate::guid::taco_token_to_guid(value.as_str()));
            } else if text::str_is(name_low.as_str(), "traildata") {
                d.data_path = Some(value.clone());
            } else {
                let _ = d.attrs.try_add(name_low.as_str(), value.as_str());
            }
        }
        assert(d@ =~= trail_step(trail_fold(av, i as int), av[i as int].0, av[i as int].1));
    }
    if d.failed {
        return None;
    }
    let path = match d.data_path {
        Some(ref p) => p,
        None => {
            return None;
        },
    };
    let bytes = match source.load_asset(path.as_str()) {
        Some(b) => b,
        None => {
            return None;
        },
    };
    let (map_id, points) = match parse_trail_data(bytes) {
        Some(r) => r,
        None => {
            return None;
        },
    };
    Some(
        Trail {
            category: d.category,
            guid: match d.guid {
                Some(g) => g,
                None => 0,
            },
            map_id,
            points,
            attributes: d.attrs,
        },
    )
}

} // verus!
