//! The inheritable attribute bundle carried by categories, POIs and
//! trails: a set of optional typed fields.  A child's unset fields are
//! filled from its nearest ancestor; POIs and trails are filled from
//! their resolved category.

use vstd::prelude::*;
use crate::text;

verus! {

/// One bundle of optional marker attributes.  Numeric fields are stored
/// in thousandths, colours as packed RGBA.
pub struct MarkerAttributes {
    /// Pack-relative path of the POI icon image.
    pub icon_file: Option<String>,
    /// Pack-relative path of the trail texture image.
    pub texture: Option<String>,
    /// Icon scale, in thousandths.
    pub icon_size: Option<i64>,
    /// Opacity, in thousandths.
    pub alpha: Option<i64>,
    /// Vertical offset, in thousandths.
    pub height_offset: Option<i64>,
    /// Tint colour, packed RGBA.
    pub tint: Option<u32>,
    /// Text placed on the clipboard when the marker is interacted with.
    pub copy_value: Option<String>,
}

/// The mathematical shadow of a bundle.
#[verifier::ext_equal]
pub struct AttrsView {
    pub icon_file: Option<Seq<char>>,
    pub texture: Option<Seq<char>>,
    pub icon_size: Option<int>,
    pub alpha: Option<int>,
    pub height_offset: Option<int>,
    pub tint: Option<int>,
    pub copy_value: Option<Seq<char>>,
}

impl View for MarkerAttributes {
    type V = AttrsView;

    open spec fn view(&self) -> AttrsView {
        AttrsView {
            icon_file: match self.icon_file {
                Some(ref s) => Some(s@),
                None => None,
            },
            texture: match self.texture {
                Some(ref s) => Some(s@),
                None => None,
            },
            icon_size: match self.icon_size {
                Some(v) => Some(v as int),
                None => None,
            },
            alpha: match self.alpha {
                Some(v) => Some(v as int),
                None => None,
            },
            height_offset: match self.height_offset {
                Some(v) => Some(v as int),
                None => None,
            },
            tint: match self.tint {
                Some(v) => Some(v as int),
                None => None,
            },
            copy_value: match self.copy_value {
                Some(ref s) => Some(s@),
                None => None,
            },
        }
    }
}

/// A bundle with every field unset.
pub open spec fn empty_attrs() -> AttrsView {
    AttrsView {
        icon_file: None,
        texture: None,
        icon_size: None,
        alpha: None,
        height_offset: None,
        tint: None,
        copy_value: None,
    }
}

/// First-set choice between two optional fields.
pub open spec fn pick<T>(a: Option<T>, b: Option<T>) -> Option<T> {
    if a is Some {
        a
    } else {
        b
    }
}

/// Field-wise merge: `a`'s set fields win, `b` fills the gaps.
pub open spec fn merged(a: AttrsView, b: AttrsView) -> AttrsView {
    AttrsView {
        icon_file: pick(a.icon_file, b.icon_file),
        texture: pick(a.texture, b.texture),
        icon_size: pick(a.icon_size, b.icon_size),
        alpha: pick(a.alpha, b.alpha),
        height_offset: pick(a.height_offset, b.height_offset),
        tint: pick(a.tint, b.tint),
        copy_value: pick(a.copy_value, b.copy_value),
    }
}

/// Merging is associative: inheritance can be folded along the ancestor
/// chain in either grouping.
pub proof fn lemma_merged_assoc(a: AttrsView, b: AttrsView, c: AttrsView)
    ensures
        merged(merged(a, b), c) == merged(a, merged(b, c)),
{
}

/// Merging a bundle with itself changes nothing, and re-merging the same
/// gap-filler a second time changes nothing: the merge step of category
/// deduplication is idempotent.
pub proof fn lemma_merged_idempotent(a: AttrsView, b: AttrsView)
    ensures
        merged(a, a) == a,
        merged(merged(a, b), b) == merged(a, b),
{
}

/// The empty bundle is the identity of merging.
pub proof fn lemma_merged_empty(a: AttrsView)
    ensures
        merged(a, empty_attrs()) == a,
        merged(empty_attrs(), a) == a,
{
}

impl MarkerAttributes {
    /// The bundle with every field unset.
    pub fn new() -> (r: MarkerAttributes)
        ensures
            r@ == empty_attrs(),
    {
        MarkerAttributes {
            icon_file: None,
            texture: None,
            icon_size: None,
            alpha: None,
            height_offset: None,
            tint: None,
            copy_value: None,
        }
    }

    /// Fill this bundle's unset fields from `other`: set fields are never
    /// overwritten.
    pub fn merge(&mut self, other: &MarkerAttributes)
        ensures
            final(self)@ == merged(old(self)@, other@),
    {
        if self.icon_file.is_none() {
            self.icon_file = other.icon_file.clone();
        }
        if self.texture.is_none() {
            self.texture = other.texture.clone();
        }
        if self.icon_size.is_none() {
            self.icon_size = other.icon_size;
        }
        if self.alpha.is_none() {
            self.alpha = other.alpha;
        }
        if self.height_offset.is_none() {
            self.height_offset = other.height_offset;
        }
        if self.tint.is_none() {
            self.tint = other.tint;
        }
        if self.copy_value.is_none() {
            self.copy_value = other.copy_value.clone();
        }
    }

    /// Record one recognised attribute, parsed tolerantly: a recognised
    /// name with an unreadable value leaves the bundle unchanged (the
    /// attribute is ignored with a warning, never fatal).  Returns
    /// whether the name was recognised; unknown vocabulary is the
    /// caller's to log and ignore.
    pub fn try_add(&mut self, name_lower: &str, value: &str) -> (recognised: bool)
        ensures
            final(self)@ == added(old(self)@, name_lower@, value@),
            recognised == recognises(name_lower@),
    {
        if text::str_is(name_lower, "iconfile") {
            self.icon_file = Some(value.to_owned());
            true
        } else if text::str_is(name_lower, "texture") {
            self.texture = Some(value.to_owned());
            true
        } else if text::str_is(name_lower, "iconsize") {
            if let Some(v) = text::parse_milli(value) {
                self.icon_size = Some(v);
            }
            true
        } else if text::str_is(name_lower, "alpha") {
            if let Some(v) = text::parse_milli(value) {
                self.alpha = Some(v);
            }
            true
        } else if text::str_is(name_lower, "heightoffset") {
            if let Some(v) = text::parse_milli(value) {
                self.height_offset = Some(v);
            }
            true
        } else if text::str_is(name_lower, "color") {
            if let Some(v) = text::parse_color(value) {
                self.tint = Some(v);
            }
            true
        } else if text::str_is(name_lower, "copy") {
            self.copy_value = Some(value.to_owned());
            true
        } else {
            false
        }
    }
}

/// The attribute names this bundle recognises (already lower-cased).
pub open spec fn recognises(name: Seq<char>) -> bool {
    ||| name == "iconfile"@
    ||| name == "texture"@
    ||| name == "iconsize"@
    ||| name == "alpha"@
    ||| name == "heightoffset"@
    ||| name == "color"@
    ||| name == "copy"@
}

/// The bundle after one attribute is recorded.
pub open spec fn added(a: AttrsView, name: Seq<char>, value: Seq<char>) -> AttrsView {
    if name == "iconfile"@ {
        AttrsView { icon_file: Some(value), ..a }
    } else if name == "texture"@ {
        AttrsView { texture: Some(value), ..a }
    } else if name == "iconsize"@ {
        match text::milli_of(value) {
            Some(v) => AttrsView { icon_size: Some(v), ..a },
            None => a,
        }
    } else if name == "alpha"@ {
        match text::milli_of(value) {
            Some(v) => AttrsView { alpha: Some(v), ..a },
            None => a,
        }
    } else if name == "heightoffset"@ {
        match text::milli_of(value) {
            Some(v) => AttrsView { height_offset: Some(v), ..a },
            None => a,
        }
    } else if name == "color"@ {
        match text::color_of(value) {
            Some(v) => AttrsView { tint: Some(v), ..a },
            None => a,
        }
    } else if name == "copy"@ {
        AttrsView { copy_value: Some(value), ..a }
    } else {
        a
    }
}

} // verus!
