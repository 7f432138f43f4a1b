//! Points of interest: parsed from one element's attribute list, with a
//! tolerant fold that either yields the POI or rejects the element as a
//! whole (the parser then skips it with a warning).

use vstd::prelude::*;
use crate::attributes::{added, AttrsView, empty_attrs, MarkerAttributes};
use crate::geom::{in_coord_range, Vec3M};
use crate::guid::guid_of_token;
use crate::text;

verus! {

/// One fixed 3D marker point, immutable after parse.
pub struct Poi {
    /// Fully-qualified name of the category it belongs to.
    pub category: String,
    /// Stable 128-bit identifier.
    pub guid: u128,
    /// The map this POI appears on.
    pub map_id: i32,
    /// Position in map space, in thousandths.
    pub position: Vec3M,
    /// Resolved attribute bundle.
    pub attributes: MarkerAttributes,
}

/// The mathematical shadow of a POI.
#[verifier::ext_equal]
pub struct PoiView {
    pub category: Seq<char>,
    pub guid: int,
    pub map_id: int,
    pub x: int,
    pub y: int,
    pub z: int,
    pub attrs: AttrsView,
}

impl View for Poi {
    type V = PoiView;

    open spec fn view(&self) -> PoiView {
        PoiView {
            category: self.category@,
            guid: self.guid as int,
            map_id: self.map_id as int,
            x: self.position.x as int,
            y: self.position.y as int,
            z: self.position.z as int,
            attrs: self.attributes@,
        }
    }
}

/// Views of an attribute list.
pub open spec fn pairs_view(s: Seq<(String, String)>) -> Seq<(Seq<char>, Seq<char>)> {
    Seq::new(s.len(), |i: int| (s[i].0@, s[i].1@))
}

/// Partial state of a POI element while its attributes are read.
pub struct PoiDraft {
    pub category: String,
    pub map_id: Option<i32>,
    pub x: Option<i64>,
    pub y: Option<i64>,
    pub z: Option<i64>,
    pub guid: Option<u128>,
    pub attrs: MarkerAttributes,
    pub failed: bool,
}

/// The mathematical shadow of the partial state.
#[verifier::ext_equal]
pub struct PoiDraftView {
    pub category: Seq<char>,
    pub map_id: Option<int>,
    pub x: Option<int>,
    pub y: Option<int>,
    pub z: Option<int>,
    pub guid: Option<int>,
    pub attrs: AttrsView,
    pub failed: bool,
}

impl View for PoiDraft {
    type V = PoiDraftView;

    open spec fn view(&self) -> PoiDraftView {
        PoiDraftView {
            category: self.category@,
            map_id: match self.map_id {
                Some(v) => Some(v as int),
                None => None,
            },
            x: match self.x {
                Some(v) => Some(v as int),
                None => None,
            },
            y: match self.y {
                Some(v) => Some(v as int),
                None => None,
            },
            z: match self.z {
                Some(v) => Some(v as int),
                None => None,
            },
            guid: match self.guid {
                Some(v) => Some(v as int),
                None => None,
            },
            attrs: self.attrs@,
            failed: self.failed,
        }
    }
}

/// The state before any attribute is read.
pub open spec fn poi_draft_init() -> PoiDraftView {
    PoiDraftView {
        category: Seq::empty(),
        map_id: None,
        x: None,
        y: None,
        z: None,
        guid: None,
        attrs: empty_attrs(),
        failed: false,
    }
}

/// One attribute applied to the partial state.  A malformed required
/// number marks the whole element failed; unknown names fall through to
/// the shared bundle, which ignores what it does not recognise.
pub open spec fn poi_step(d: PoiDraftView, name: Seq<char>, value: Seq<char>) -> PoiDraftView {
    if d.failed {
        d
    } else {
        let nl = text::lower_of(name);
        if nl == "type"@ {
            PoiDraftView { category: text::safe_name_of(value, true), ..d }
        } else if nl == "mapid"@ {
            match text::i32_dec_of(value) {
                Some(v) => PoiDraftView { map_id: Some(v), ..d },
                None => PoiDraftView { failed: true, ..d },
            }
        } else if nl == "xpos"@ {
            match text::milli_of(value) {
                Some(v) => PoiDraftView { x: Some(v), ..d },
                None => PoiDraftView { failed: true, ..d },
            }
        } else if nl == "ypos"@ {
            match text::milli_of(value) {
                Some(v) => PoiDraftView { y: Some(v), ..d },
                None => PoiDraftView { failed: true, ..d },
            }
        } else if nl == "zpos"@ {
            match text::milli_of(value) {
                Some(v) => PoiDraftView { z: Some(v), ..d },
                None => PoiDraftView { failed: true, ..d },
            }
        } else if nl == "guid"@ {
            PoiDraftView { guid: Some(guid_of_token(value)), ..d }
        } else {
            PoiDraftView { attrs: added(d.attrs, nl, value), ..d }
        }
    }
}

/// The fold of the first `i` attributes.
pub open spec fn poi_fold(attrs: Seq<(Seq<char>, Seq<char>)>, i: int) -> PoiDraftView
    decreases i,
{
    if i <= 0 {
        poi_draft_init()
    } else {
        poi_step(poi_fold(attrs, i - 1), attrs[i - 1].0, attrs[i - 1].1)
    }
}

/// What a POI element's attribute list yields: the POI, or nothing when
/// a required field is missing or unreadable.
pub open spec fn poi_of_attrs(attrs: Seq<(Seq<char>, Seq<char>)>) -> Option<PoiView> {
    let d = poi_fold(attrs, attrs.len() as int);
    if d.failed {
        None
    } else {
        match (d.map_id, d.x, d.y, d.z) {
            (Some(m), Some(x), Some(y), Some(z)) => Some(
                PoiView {
                    category: d.category,
                    guid: match d.guid {
                        Some(g) => g,
                        None => 0,
                    },
                    map_id: m,
                    x,
                    y,
                    z,
                    attrs: d.attrs,
                },
            ),
            _ => None,
        }
    }
}

/// Read a POI from its element's attribute list.
pub fn poi_from_attrs(attrs: &Vec<(String, String)>) -> (r: Option<Poi>)
    ensures
        match r {
            Some(p) => poi_of_attrs(pairs_view(attrs@)) == Some(p@) && in_coord_range(p.position),
            None => poi_of_attrs(pairs_view(attrs@)) is None,
        },
{
    let ghost av = pairs_view(attrs@);
    let mut d = PoiDraft {
        category: String::new(),
        map_id: None,
        x: None,
        y: None,
        z: None,
        guid: None,
        attrs: MarkerAttributes::new(),
        failed: false,
    };
    let n = attrs.len();
    for i in 0..n
        invariant
            av == pairs_view(attrs@),
            n == attrs@.len(),
            d@ == poi_fold(av, i as int),
            match d.x {
                Some(v) => -0x7fffffffffffff < v < 0x7fffffffffffff,
                None => true,
            },
            match d.y {
                Some(v) => -0x7fffffffffffff < v < 0x7fffffffffffff,
                None => true,
            },
            match d.z {
                Some(v) => -0x7fffffffffffff < v < 0x7fffffffffffff,
                None => true,
            },
    {
        let name_low = text::ascii_lower(attrs[i].0.as_str());
        let value = &attrs[i].1;
        if !d.failed {
            if text::str_is(name_low.as_str(), "type") {
                d.category = text::taco_safe_name(value.as_str(), true);
            } else if text::str_is(name_low.as_str(), "mapid") {
                match text::parse_i32(value.as_str()) {
                    Some(v) => {
                        d.map_id = Some(v);
                    },
                    None => {
                        d.failed = true;
                    },
                }
            } else if text::str_is(name_low.as_str(), "xpos") {
                match text::parse_milli(value.as_str()) {
                    Some(v) => {
                        d.x = Some(v);
                    },
                    None => {
                        d.failed = true;
                    },
                }
            } else if text::str_is(name_low.as_str(), "ypos") {
                match text::parse_milli(value.as_str()) {
                    Some(v) => {
                        d.y = Some(v);
                    },
                    None => {
                        d.failed = true;
                    },
                }
            } else if text::str_is(name_low.as_str(), "zpos") {
                match text::parse_milli(value.as_str()) {
                    Some(v) => {
                        d.z = Some(v);
                    },
                    None => {
                        d.failed = true;
                    },
                }
            } else if text::str_is(name_low.as_str(), "guid") {
                d.guid = Some(crate::guid::taco_token_to_guid(value.as_str()));
            } else {
                let _ = d.attrs.try_add(name_low.as_str(), value.as_str());
            }
        }
        assert(d@ =~= poi_step(poi_fold(av, i as int), av[i as int].0, av[i as int].1));
    }
    if d.failed {
        return None;
    }
    let map_id = match d.map_id {
        Some(m) => m,
        None => {
            return None;
        },
    };
    let (x, y, z) = match (d.x, d.y, d.z) {
        (Some(x), Some(y), Some(z)) => (x, y, z),
        _ => {
            return None;
        },
    };
    Some(
        Poi {
            category: d.category,
            guid: match d.guid {
                Some(g) => g,
                None => 0,
            },
            map_id,
            position: Vec3M { x, y, z },
            attributes: d.attrs,
        },
    )
}

} // verus!
