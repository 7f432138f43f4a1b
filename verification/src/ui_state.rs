//! Plain state carried by the overlay's windows: filter flags for the
//! category tree, search state, and the per-window bookkeeping the UI
//! shell mutates.  The widgets themselves are the shell's.

use vstd::prelude::*;
use crate::text;

verus! {

/// Which categories the tree window shows: a small bit set.
#[derive(Clone, Copy, PartialEq, Eq, Structural, Debug)]
pub struct PathingFilterState {
    pub bits: u8,
}

impl PathingFilterState {
    /// The default filter: enabled, disabled, and roots shown.
    pub fn default_filter() -> (r: PathingFilterState)
        ensures
            r.bits == 7,
    {
        PathingFilterState { bits: 7 }
    }

    /// Whether all of the given flags are on.
    pub fn contains(&self, other: PathingFilterState) -> (r: bool)
        ensures
            r == (self.bits & other.bits == other.bits),
    {
        self.bits & other.bits == other.bits
    }

    /// The flag a filter-option identifier names.
    pub fn filter_string_to_flag(s: &str) -> (r: PathingFilterState)
        requires
            s@ == "enabled"@ || s@ == "disabled"@ || s@ == "ignore-root"@ || s@ == "ignore-leaf"@
                || s@ == "ignore-branch"@,
        ensures
            s@ == "enabled"@ ==> r.bits == 1,
            s@ == "disabled"@ ==> r.bits == 2,
            s@ == "ignore-root"@ ==> r.bits == 4,
            s@ == "ignore-leaf"@ ==> r.bits == 8,
            s@ == "ignore-branch"@ ==> r.bits == 16,
    {
        proof {
            lemma_filter_names();
        }
        if text::str_is(s, "enabled") {
            PathingFilterState { bits: 1 }
        } else if text::str_is(s, "disabled") {
            PathingFilterState { bits: 2 }
        } else if text::str_is(s, "ignore-root") {
            PathingFilterState { bits: 4 }
        } else if text::str_is(s, "ignore-leaf") {
            PathingFilterState { bits: 8 }
        } else {
            PathingFilterState { bits: 16 }
        }
    }
}

/// The five filter-option identifiers are pairwise distinct.
proof fn lemma_filter_names()
    ensures
        "enabled"@ != "disabled"@,
        "enabled"@ != "ignore-root"@,
        "enabled"@ != "ignore-leaf"@,
        "enabled"@ != "ignore-branch"@,
        "disabled"@ != "ignore-root"@,
        "disabled"@ != "ignore-leaf"@,
        "disabled"@ != "ignore-branch"@,
        "ignore-root"@ != "ignore-leaf"@,
        "ignore-root"@ != "ignore-branch"@,
        "ignore-leaf"@ != "ignore-branch"@,
{
    reveal_strlit("enabled");
    reveal_strlit("disabled");
    reveal_strlit("ignore-root");
    reveal_strlit("ignore-leaf");
    reveal_strlit("ignore-branch");
    assert("enabled"@.len() == 7);
    assert("disabled"@.len() == 8);
    assert("ignore-root"@.len() == 11);
    assert("ignore-leaf"@.len() == 11);
    assert("ignore-branch"@.len() == 13);
    assert("ignore-root"@[7] == 'r' && "ignore-leaf"@[7] == 'l');
}

impl PathingFilterState {
    /// Whether the tree shows a category, from its enabled bit and its
    /// place in the tree: the pure half of the tree widget's row logic.
    pub fn category_visible(&self, enabled: bool, is_root: bool, is_leaf: bool) -> (r: bool)
        ensures
            r == ((enabled && self.bits & 1 == 1) || (!enabled && self.bits & 2 == 2) || (is_root
                && self.bits & 4 == 4) || (is_leaf && self.bits & 8 == 8) || (!is_leaf && self.bits
                & 16 == 16)),
    {
        (enabled && self.bits & 1 == 1) || (!enabled && self.bits & 2 == 2) || (is_root
            && self.bits & 4 == 4) || (is_leaf && self.bits & 8 == 8) || (!is_leaf && self.bits
            & 16 == 16)
    }
}

/// The tree window's search box and its current matches.
pub struct PathingSearchState {
    pub buffer: String,
    pub search_candidates: Vec<String>,
}

impl PathingSearchState {
    /// An empty search.
    pub fn new() -> (r: PathingSearchState)
        ensures
            r.buffer@.len() == 0,
            r.search_candidates@.len() == 0,
    {
        PathingSearchState { buffer: String::new(), search_candidates: Vec::new() }
    }
}

/// One marker set entry shown by the marker window.
pub struct MarkerSet {
    pub name: String,
    pub category: Option<String>,
    pub description: String,
}

/// The marker window's state: open flag and the sets of the current
/// map.
pub struct MarkerWindowState {
    pub open: bool,
    pub markers_for_map: Vec<MarkerSet>,
}

impl MarkerWindowState {
    /// A closed window with nothing listed.
    pub fn new() -> (r: MarkerWindowState)
        ensures
            !r.open,
            r.markers_for_map@.len() == 0,
    {
        MarkerWindowState { open: false, markers_for_map: Vec::new() }
    }

    /// Replace the listed sets on a map change.
    pub fn new_map_markers(&mut self, markers: Vec<MarkerSet>)
        ensures
            final(self).open == old(self).open,
            final(self).markers_for_map@ == markers@,
    {
        self.markers_for_map = markers;
    }
}

/// The configuration tab's state.
pub struct ConfigTabState {
    pub katrender: bool,
}

impl ConfigTabState {
    /// The tab before any settings are read.
    pub fn new() -> (r: ConfigTabState)
        ensures
            !r.katrender,
    {
        ConfigTabState { katrender: false }
    }
}

} // verus!
