//! The XML definition parser: a stack-based walk over one definition
//! stream that accumulates categories, POIs and trails into a pack.
//!
//! Tokenisation is the xml crate's; everything the tokens mean — the
//! legal nesting, the poison frames that swallow malformed elements,
//! the merge of duplicate categories — is this module's, stated as a
//! transition system over the event stream and proved against it.

use vstd::prelude::*;
use crate::attributes::AttrsView;
use crate::category::{
    cat_views, Category, CategoryView, distinct_keys, get_index_of, has_key, has_local, idx_of,
    merge_cat, table_wf,
};
use crate::poi::{pairs_view, Poi, poi_from_attrs, poi_of_attrs, PoiView};
use crate::source::{files_view, PackSource, strs_view};
use crate::text;
use crate::trail::{Trail, trail_from_attrs, trail_of_attrs, TrailView};

verus! {

// ---------------------------------------------------------------------
// events

/// One event pulled from the definition stream, reduced to what the
/// grammar cares about.
pub enum XmlEv {
    /// An opening tag: local name and its attributes.
    Start(String, Vec<(String, String)>),
    /// A closing tag.
    End(String),
    /// The end of the document.
    DocEnd,
    /// Anything else well-formed: text, comments, declarations.
    Other,
    /// The stream is not well-formed XML; the reader's message.
    Fault(String),
}

/// The mathematical shadow of an event.
pub enum EvView {
    Start(Seq<char>, Seq<(Seq<char>, Seq<char>)>),
    End(Seq<char>),
    DocEnd,
    Other,
    Fault(Seq<char>),
}

impl View for XmlEv {
    type V = EvView;

    open spec fn view(&self) -> EvView {
        match self {
            XmlEv::Start(n, a) => EvView::Start(n@, pairs_view(a@)),
            XmlEv::End(n) => EvView::End(n@),
            XmlEv::DocEnd => EvView::DocEnd,
            XmlEv::Other => EvView::Other,
            XmlEv::Fault(m) => EvView::Fault(m@),
        }
    }
}

// ---------------------------------------------------------------------
// trusted boundary to the xml crate

/// The events the xml tokenizer produces for a byte buffer, up to and
/// including the first end-of-document or fault: a function of the
/// bytes alone.  Named rather than written out: the tokenizer lives in
/// the xml crate; what is stated of it (below, at `DefReader::new`) is
/// only what its documentation plainly gives — every stream ends in an
/// end-of-document or an error, and both are final.
pub uninterp spec fn events_of(bytes: Seq<u8>) -> Seq<EvView>;

/// An event that ends the stream: after it the reader repeats itself.
pub open spec fn is_terminal(ev: EvView) -> bool {
    ev is DocEnd || ev matches EvView::Fault(_)
}

/// The bytes an open reader was made over.  Like a name for what a
/// collection holds, its parameter is the opaque reader itself.
pub uninterp spec fn reader_bytes(r: DefReader) -> Seq<u8>;

/// How many events were already pulled from an open reader.
pub uninterp spec fn reader_cursor(r: DefReader) -> int;

/// The xml crate's pull reader over an in-memory buffer, held opaquely:
/// Verus refuses to declare the reader type itself (its `Read` bound),
/// so this struct hides it whole.
#[verifier::external_body]
pub struct DefReader {
    inner: xml::reader::EventReader<std::io::Cursor<Vec<u8>>>,
}

impl DefReader {
    /// Relies on xml's EventReader::new: wraps the bytes for pulling.
    /// The facts stated of `events_of` here are the reader's documented
    /// shape: it always reaches EndDocument or an error, and repeats
    /// that final event on every later pull.
    #[verifier::external_body]
    fn new(bytes: &Vec<u8>) -> (r: DefReader)
        ensures
            reader_bytes(r) == bytes@,
            reader_cursor(r) == 0,
            events_of(reader_bytes(r)).len() >= 1,
            is_terminal(events_of(reader_bytes(r)).last()),
            forall|i: int|
                0 <= i < events_of(reader_bytes(r)).len() - 1 ==> !is_terminal(
                    #[trigger] events_of(reader_bytes(r))[i],
                ),
    {
        DefReader { inner: xml::reader::EventReader::new(std::io::Cursor::new(bytes.clone())) }
    }

    /// Relies on xml's EventReader::next: pulls the next event of the
    /// stream — the one the buffer's event sequence holds at the
    /// cursor, or the final event again once the stream has ended.
    #[verifier::external_body]
    fn next_event(&mut self) -> (ev: XmlEv)
        ensures
            reader_bytes(*final(self)) == reader_bytes(*old(self)),
            reader_cursor(*final(self)) == reader_cursor(*old(self)) + 1,
            ({
                let evs = events_of(reader_bytes(*old(self)));
                let k = reader_cursor(*old(self));
                ev@ == if 0 <= k < evs.len() {
                    evs[k]
                } else {
                    evs.last()
                }
            }),
    {
        match self.inner.next() {
            Ok(xml::reader::XmlEvent::StartElement { name, attributes, .. }) => XmlEv::Start(
                name.local_name,
                attributes.into_iter().map(|a| (a.name.local_name, a.value)).collect(),
            ),
            Ok(xml::reader::XmlEvent::EndElement { name }) => XmlEv::End(name.local_name),
            Ok(xml::reader::XmlEvent::EndDocument) => XmlEv::DocEnd,
            Ok(_) => XmlEv::Other,
            Err(e) => XmlEv::Fault(e.to_string()),
        }
    }

    /// Relies on xml's Position impl for EventReader: the reader's
    /// current row and column, for error reports.
    #[verifier::external_body]
    fn position(&self) -> (p: (u64, u64)) {
        let pos = xml::common::Position::position(&self.inner);
        (pos.row, pos.column)
    }
}

// ---------------------------------------------------------------------
// the parse stack

/// One frame of the parse stack: the element being built, or the
/// explicit poison marker that swallows a malformed element.
pub enum PartialItem {
    OverlayData,
    MarkerCategory(Category),
    PoiGroup,
    Poi(Poi),
    Trail(Trail),
    PoisonElem,
}

/// The mathematical shadow of a frame.
#[verifier::ext_equal]
pub enum FrameView {
    OverlayData,
    MarkerCategory(CategoryView),
    PoiGroup,
    Poi(PoiView),
    Trail(TrailView),
    PoisonElem,
}

impl View for PartialItem {
    type V = FrameView;

    open spec fn view(&self) -> FrameView {
        match self {
            PartialItem::OverlayData => FrameView::OverlayData,
            PartialItem::MarkerCategory(c) => FrameView::MarkerCategory(c@),
            PartialItem::PoiGroup => FrameView::PoiGroup,
            PartialItem::Poi(p) => FrameView::Poi(p@),
            PartialItem::Trail(t) => FrameView::Trail(t@),
            PartialItem::PoisonElem => FrameView::PoisonElem,
        }
    }
}

/// Views of the parse stack.
pub open spec fn frames_view(s: Seq<PartialItem>) -> Seq<FrameView> {
    s.map(|_i: int, f: PartialItem| f@)
}

/// Which elements may open under the given stack top.
pub open spec fn valid_elem_start(top: Option<FrameView>, nl: Seq<char>) -> bool {
    if nl == "overlaydata"@ {
        top is None
    } else if nl == "markercategory"@ {
        top matches Some(FrameView::OverlayData) || top matches Some(FrameView::MarkerCategory(_))
    } else if nl == "pois"@ {
        top matches Some(FrameView::OverlayData)
    } else if nl == "poi"@ || nl == "trail"@ {
        top matches Some(FrameView::PoiGroup)
    } else {
        false
    }
}

/// Which closing tags match the given stack top.
pub open spec fn valid_elem_end(top: Option<FrameView>, nl: Seq<char>) -> bool {
    if nl == "overlaydata"@ {
        top matches Some(FrameView::OverlayData)
    } else if nl == "markercategory"@ {
        top matches Some(FrameView::MarkerCategory(_))
    } else if nl == "pois"@ {
        top matches Some(FrameView::PoiGroup)
    } else if nl == "poi"@ {
        top matches Some(FrameView::Poi(_))
    } else if nl == "trail"@ {
        top matches Some(FrameView::Trail(_))
    } else {
        false
    }
}

// ---------------------------------------------------------------------
// category elements

/// Partial state of a category element while its attributes are read.
pub struct CatDraft {
    pub id: String,
    pub display_name: Option<String>,
    pub is_separator: bool,
    pub is_hidden: bool,
    pub default_toggle: bool,
    pub attrs: crate::attributes::MarkerAttributes,
}

/// The mathematical shadow of the partial state.
#[verifier::ext_equal]
pub struct CatDraftView {
    pub id: Seq<char>,
    pub display_name: Option<Seq<char>>,
    pub is_separator: bool,
    pub is_hidden: bool,
    pub default_toggle: bool,
    pub attrs: AttrsView,
}

impl View for CatDraft {
    type V = CatDraftView;

    open spec fn view(&self) -> CatDraftView {
        CatDraftView {
            id: self.id@,
            display_name: match self.display_name {
                Some(ref s) => Some(s@),
                None => None,
            },
            is_separator: self.is_separator,
            is_hidden: self.is_hidden,
            default_toggle: self.default_toggle,
            attrs: self.attrs@,
        }
    }
}

/// The state before any attribute is read: toggled on by default.
pub open spec fn cat_draft_init() -> CatDraftView {
    CatDraftView {
        id: Seq::empty(),
        display_name: None,
        is_separator: false,
        is_hidden: false,
        default_toggle: true,
        attrs: crate::attributes::empty_attrs(),
    }
}

/// A category attribute name with any compatibility prefix removed.
pub open spec fn strip_bh(nl: Seq<char>) -> Seq<char> {
    if nl.len() >= 3 && nl.take(3) == "bh-"@ {
        nl.skip(3)
    } else {
        nl
    }
}

/// One attribute applied to a category element's partial state; boolean
/// fields read tolerantly, the default toggle strictly, unknown names
/// through the shared bundle.
pub open spec fn cat_step(d: CatDraftView, name: Seq<char>, value: Seq<char>) -> CatDraftView {
    let nl = strip_bh(text::lower_of(name));
    if nl == "name"@ {
        CatDraftView { id: text::safe_name_of(value, false), ..d }
    } else if nl == "displayname"@ {
        CatDraftView { display_name: Some(value), ..d }
    } else if nl == "isseparator"@ {
        match text::bool_of(value) {
            Some(v) => CatDraftView { is_separator: v, ..d },
            None => d,
        }
    } else if nl == "ishidden"@ {
        match text::bool_of(value) {
            Some(v) => CatDraftView { is_hidden: v, ..d },
            None => d,
        }
    } else if nl == "defaulttoggle"@ {
        if value == "true"@ {
            CatDraftView { default_toggle: true, ..d }
        } else if value == "false"@ {
            CatDraftView { default_toggle: false, ..d }
        } else {
            d
        }
    } else {
        CatDraftView { attrs: crate::attributes::added(d.attrs, nl, value), ..d }
    }
}

/// The fold of the first `i` attributes.
pub open spec fn cat_fold(attrs: Seq<(Seq<char>, Seq<char>)>, i: int) -> CatDraftView
    decreases i,
{
    if i <= 0 {
        cat_draft_init()
    } else {
        cat_step(cat_fold(attrs, i - 1), attrs[i - 1].0, attrs[i - 1].1)
    }
}

/// What a category element's attribute list yields under the given
/// parse parent: never an error, missing names included.
pub open spec fn cat_of_attrs(
    attrs: Seq<(Seq<char>, Seq<char>)>,
    parent: Option<Seq<char>>,
) -> CategoryView {
    let d = cat_fold(attrs, attrs.len() as int);
    CategoryView {
        id: d.id,
        full_id: match parent {
            Some(p) => p + seq!['.'] + d.id,
            None => d.id,
        },
        parent_id: parent,
        display_name: match d.display_name {
            Some(n) => n,
            None => d.id,
        },
        is_separator: d.is_separator,
        is_hidden: d.is_hidden,
        default_toggle: d.default_toggle,
        subs: Seq::empty(),
        attrs: d.attrs,
    }
}

/// A category entry's name hangs together: the fully-qualified name is
/// the parse parent's name, a dot, then the local name; roots carry
/// their local name alone.
pub open spec fn cat_shape_wf(c: CategoryView) -> bool {
    match c.parent_id {
        Some(p) => c.full_id == p + seq!['.'] + c.id,
        None => c.full_id == c.id,
    }
}

/// Read a category from its element's attribute list.
pub fn category_from_attrs(attrs: &Vec<(String, String)>, parent: Option<&String>) -> (r: Category)
    ensures
        r@ == cat_of_attrs(
            pairs_view(attrs@),
            match parent {
                Some(p) => Some(p@),
                None => None,
            },
        ),
        cat_shape_wf(r@),
{
    let ghost av = pairs_view(attrs@);
    let mut d = CatDraft {
        id: String::new(),
        display_name: None,
        is_separator: false,
        is_hidden: false,
        default_toggle: true,
        attrs: crate::attributes::MarkerAttributes::new(),
    };
    let n = attrs.len();
    for i in 0..n
        invariant
            av == pairs_view(attrs@),
            n == attrs@.len(),
            d@ == cat_fold(av, i as int),
    {
        let name_low = text::ascii_lower(attrs[i].0.as_str());
        let value = &attrs[i].1;
        let nn = name_low.unicode_len();
        let stripped: String = if nn >= 3 && text::str_is(
            name_low.substring_char(0, 3),
            "bh-",
        ) {
            let s = name_low.substring_char(3, nn);
            assert(s@ =~= name_low@.skip(3));
            s.to_owned()
        } else {
            assert(name_low@.len() >= 3 ==> name_low@.take(3) =~= name_low@.subrange(0, 3));
            name_low.clone()
        };
        assert(stripped@ == strip_bh(text::lower_of(av[i as int].0)));
        if text::str_is(stripped.as_str(), "name") {
            d.id = text::taco_safe_name(value.as_str(), false);
        } else if text::str_is(stripped.as_str(), "displayname") {
            d.display_name = Some(value.clone());
        } else if text::str_is(stripped.as_str(), "isseparator") {
            if let Some(v) = text::parse_bool(value.as_str()) {
                d.is_separator = v;
            }
        } else if text::str_is(stripped.as_str(), "ishidden") {
            if let Some(v) = text::parse_bool(value.as_str()) {
                d.is_hidden = v;
            }
        } else if text::str_is(stripped.as_str(), "defaulttoggle") {
            if text::str_is(value.as_str(), "true") {
                d.default_toggle = true;
            } else if text::str_is(value.as_str(), "false") {
                d.default_toggle = false;
            }
        } else {
            let _ = d.attrs.try_add(stripped.as_str(), value.as_str());
        }
        assert(d@ =~= cat_step(cat_fold(av, i as int), av[i as int].0, av[i as int].1));
    }
    let (full_id, parent_id): (String, Option<String>) = match parent {
        Some(p) => {
            let mut f = p.clone();
            f.append(".");
            f.append(d.id.as_str());
            proof {
                reveal_strlit(".");
                assert(f@ =~= p@ + seq!['.'] + d.id@);
            }
            (f, Some(p.clone()))
        },
        None => (d.id.clone(), None),
    };
    let display_name = match d.display_name {
        Some(n) => n,
        None => d.id.clone(),
    };
    let r = Category {
        id: d.id,
        full_id,
        parent_id,
        display_name,
        is_separator: d.is_separator,
        is_hidden: d.is_hidden,
        default_toggle: d.default_toggle,
        sub_categories: Vec::new(),
        marker_attributes: d.attrs,
    };
    assert(r@ =~= cat_of_attrs(
        av,
        match parent {
            Some(p) => Some(p@),
            None => None,
        },
    ));
    r
}

// ---------------------------------------------------------------------
// the accumulated definitions and the transition system

/// What parsing accumulates into a pack: the category table with its
/// root set, and the raw POI and trail definitions.
pub struct PackDefs {
    pub categories: Vec<Category>,
    pub roots: Vec<String>,
    pub pois: Vec<Poi>,
    pub trails: Vec<Trail>,
}

/// The mathematical shadow of the accumulated definitions.
#[verifier::ext_equal]
pub struct PackDefsView {
    pub cats: Seq<CategoryView>,
    pub roots: Seq<Seq<char>>,
    pub pois: Seq<PoiView>,
    pub trails: Seq<TrailView>,
}

impl View for PackDefs {
    type V = PackDefsView;

    open spec fn view(&self) -> PackDefsView {
        PackDefsView {
            cats: cat_views(self.categories@),
            roots: strs_view(self.roots@),
            pois: self.pois@.map(|_i: int, p: Poi| p@),
            trails: self.trails@.map(|_i: int, t: Trail| t@),
        }
    }
}

impl PackDefs {
    /// Empty definitions, before any file is parsed.
    pub fn new() -> (r: PackDefs)
        ensures
            r@.cats.len() == 0,
            r@.roots.len() == 0,
            r@.pois.len() == 0,
            r@.trails.len() == 0,
    {
        PackDefs { categories: Vec::new(), roots: Vec::new(), pois: Vec::new(), trails: Vec::new() }
    }
}

/// The whole state of one definition parse.
#[verifier::ext_equal]
pub struct ParseModel {
    pub stack: Seq<FrameView>,
    pub defs: PackDefsView,
    pub done: bool,
    pub failed: bool,
}

/// The state a parse starts from.
pub open spec fn init_model(d: PackDefsView) -> ParseModel {
    ParseModel { stack: Seq::empty(), defs: d, done: false, failed: false }
}

/// The top of the parse stack.
pub open spec fn top_frame(s: Seq<FrameView>) -> Option<FrameView> {
    if s.len() == 0 {
        None
    } else {
        Some(s.last())
    }
}

/// The fully-qualified name a category opened now would nest under.
pub open spec fn parent_name_of_top(s: Seq<FrameView>) -> Option<Seq<char>> {
    match top_frame(s) {
        Some(FrameView::MarkerCategory(c)) => Some(c.full_id),
        _ => None,
    }
}

/// A category closing merges into the table: an existing entry with the
/// same fully-qualified name absorbs it, otherwise it is appended.
pub open spec fn table_insert(cats: Seq<CategoryView>, c: CategoryView) -> Seq<CategoryView> {
    if has_key(cats, c.full_id) {
        let i = idx_of(cats, c.full_id);
        cats.update(i, merge_cat(cats[i], c))
    } else {
        cats.push(c)
    }
}

/// Merge idempotence at the table: inserting a definition leaves one
/// entry under its fully-qualified name, and re-inserting the same
/// definition afterwards changes nothing.
pub proof fn lemma_table_insert_idempotent(cats: Seq<CategoryView>, c: CategoryView)
    requires
        distinct_keys(cats),
    ensures
        table_insert(table_insert(cats, c), c) == table_insert(cats, c),
        table_insert(cats, c).len() == (if has_key(cats, c.full_id) {
            cats.len()
        } else {
            cats.len() + 1
        }),
{
    let t1 = table_insert(cats, c);
    if has_key(cats, c.full_id) {
        let i = idx_of(cats, c.full_id);
        assert(0 <= i < cats.len() && cats[i].full_id == c.full_id);
        assert(t1[i].full_id == c.full_id);
        assert(has_key(t1, c.full_id));
        let j = idx_of(t1, c.full_id);
        assert(0 <= j < t1.len() && t1[j].full_id == c.full_id);
        assert(j == i);
        crate::category::lemma_merge_cat_idempotent(cats[i], c);
        assert(table_insert(t1, c) =~= t1);
    } else {
        let i = cats.len() as int;
        assert(t1[i] == c);
        assert(has_key(t1, c.full_id));
        let j = idx_of(t1, c.full_id);
        assert(0 <= j < t1.len() && t1[j].full_id == c.full_id);
        assert(j == i);
        assert(merge_cat(c, c) == c) by {
            crate::attributes::lemma_merged_idempotent(c.attrs, c.attrs);
            lemma_subs_self_union(c.subs);
        }
        assert(table_insert(t1, c) =~= t1);
    }
}

proof fn lemma_subs_self_union(s: Seq<(Seq<char>, Seq<char>)>)
    ensures
        crate::category::subs_union(s, s) == s,
{
    assert forall|k: int| 0 <= k < s.len() implies has_local(s, #[trigger] s[k].0) by {
        assert(s[k].0 == s[k].0);
    }
    crate::category::lemma_subs_union_noop(s, s);
}

/// Root names form an insertion-ordered set.
pub open spec fn roots_ins(roots: Seq<Seq<char>>, k: Seq<char>) -> Seq<Seq<char>> {
    if roots.contains(k) {
        roots
    } else {
        roots.push(k)
    }
}

/// A closing child is recorded in its parent frame's sub-category list,
/// first entry per local name winning.
pub open spec fn frame_sub_ins(f: CategoryView, local: Seq<char>, full: Seq<char>) -> CategoryView {
    if has_local(f.subs, local) {
        f
    } else {
        CategoryView { subs: f.subs.push((local, full)), ..f }
    }
}

/// A parse state with the failure flag raised.
pub open spec fn failed_model(m: ParseModel) -> ParseModel {
    ParseModel { failed: true, ..m }
}

/// One event applied to the parse state: the transition system of the
/// definition grammar.
pub open spec fn step(
    m: ParseModel,
    ev: EvView,
    files: Seq<(Seq<char>, Seq<u8>)>,
) -> ParseModel {
    if m.done || m.failed {
        m
    } else {
        match ev {
            EvView::Start(name, attrs) => {
                let nl = text::lower_of(name);
                if !valid_elem_start(top_frame(m.stack), nl) {
                    failed_model(m)
                } else if nl == "overlaydata"@ {
                    ParseModel { stack: m.stack.push(FrameView::OverlayData), ..m }
                } else if nl == "markercategory"@ {
                    ParseModel {
                        stack: m.stack.push(
                            FrameView::MarkerCategory(
                                cat_of_attrs(attrs, parent_name_of_top(m.stack)),
                            ),
                        ),
                        ..m
                    }
                } else if nl == "pois"@ {
                    ParseModel { stack: m.stack.push(FrameView::PoiGroup), ..m }
                } else if nl == "poi"@ {
                    match poi_of_attrs(attrs) {
                        Some(p) => ParseModel { stack: m.stack.push(FrameView::Poi(p)), ..m },
                        None => ParseModel { stack: m.stack.push(FrameView::PoisonElem), ..m },
                    }
                } else {
                    match trail_of_attrs(attrs, files) {
                        Some(t) => ParseModel { stack: m.stack.push(FrameView::Trail(t)), ..m },
                        None => ParseModel { stack: m.stack.push(FrameView::PoisonElem), ..m },
                    }
                }
            },
            EvView::End(name) => {
                if top_frame(m.stack) matches Some(FrameView::PoisonElem) {
                    ParseModel { stack: m.stack.drop_last(), ..m }
                } else {
                    let nl = text::lower_of(name);
                    if !valid_elem_end(top_frame(m.stack), nl) {
                        failed_model(m)
                    } else if nl == "overlaydata"@ || nl == "pois"@ {
                        ParseModel { stack: m.stack.drop_last(), ..m }
                    } else if nl == "markercategory"@ {
                        let c = top_frame(m.stack)->Some_0->MarkerCategory_0;
                        let s2 = m.stack.drop_last();
                        match top_frame(s2) {
                            Some(FrameView::OverlayData) => ParseModel {
                                stack: s2,
                                defs: PackDefsView {
                                    cats: table_insert(m.defs.cats, c),
                                    roots: roots_ins(m.defs.roots, c.full_id),
                                    ..m.defs
                                },
                                ..m
                            },
                            Some(FrameView::MarkerCategory(par)) => ParseModel {
                                stack: s2.update(
                                    s2.len() - 1,
                                    FrameView::MarkerCategory(
                                        frame_sub_ins(par, c.id, c.full_id),
                                    ),
                                ),
                                defs: PackDefsView {
                                    cats: table_insert(m.defs.cats, c),
                                    ..m.defs
                                },
                                ..m
                            },
                            _ => failed_model(m),
                        }
                    } else if nl == "poi"@ {
                        let p = top_frame(m.stack)->Some_0->Poi_0;
                        ParseModel {
                            stack: m.stack.drop_last(),
                            defs: PackDefsView { pois: m.defs.pois.push(p), ..m.defs },
                            ..m
                        }
                    } else {
                        let t = top_frame(m.stack)->Some_0->Trail_0;
                        ParseModel {
                            stack: m.stack.drop_last(),
                            defs: PackDefsView { trails: m.defs.trails.push(t), ..m.defs },
                            ..m
                        }
                    }
                }
            },
            EvView::DocEnd => {
                if m.stack.len() == 0 {
                    ParseModel { done: true, ..m }
                } else {
                    failed_model(m)
                }
            },
            EvView::Other => m,
            EvView::Fault(_) => failed_model(m),
        }
    }
}

/// The fold of a whole event sequence.
pub open spec fn parse_run(
    m0: ParseModel,
    evs: Seq<EvView>,
    files: Seq<(Seq<char>, Seq<u8>)>,
) -> ParseModel
    decreases evs.len(),
{
    if evs.len() == 0 {
        m0
    } else {
        step(parse_run(m0, evs.drop_last(), files), evs.last(), files)
    }
}

// ---------------------------------------------------------------------
// invariants of the accumulated state

/// A POI's coordinates stay inside the range spatial code multiplies.
pub open spec fn poi_bounded(p: PoiView) -> bool {
    &&& -0x4000000000000000 < p.x < 0x4000000000000000
    &&& -0x4000000000000000 < p.y < 0x4000000000000000
    &&& -0x4000000000000000 < p.z < 0x4000000000000000
}

/// A trail's points stay inside the same range.
pub open spec fn trail_bounded(t: TrailView) -> bool {
    forall|i: int|
        0 <= i < t.points.len() ==> {
            let p = #[trigger] t.points[i];
            -0x4000000000000000 < p.0 < 0x4000000000000000 && -0x4000000000000000 < p.1
                < 0x4000000000000000 && -0x4000000000000000 < p.2 < 0x4000000000000000
        }
}

/// Some open category frame carries this fully-qualified name.
pub open spec fn cat_on_stack(s: Seq<FrameView>, p: Seq<char>) -> bool {
    exists|i: int|
        0 <= i < s.len() && ((#[trigger] s[i]) matches FrameView::MarkerCategory(f)
            && f.full_id == p)
}

/// Open category frames hang together: well-shaped, each nested one's
/// parent open beneath it; POI and trail frames within bounds.
pub open spec fn stack_frames_wf(s: Seq<FrameView>) -> bool {
    forall|i: int|
        0 <= i < s.len() ==> match #[trigger] s[i] {
            FrameView::MarkerCategory(f) => cat_shape_wf(f) && (f.parent_id matches Some(p)
                ==> exists|j: int|
                    0 <= j < i && ((#[trigger] s[j]) matches FrameView::MarkerCategory(g)
                        && g.full_id == p)),
            FrameView::Poi(p) => poi_bounded(p),
            FrameView::Trail(t) => trail_bounded(t),
            _ => true,
        }
}

/// Table entries hang together: unique well-shaped names, each parent
/// either already in the table or still open on the stack.
pub open spec fn cats_wf(cats: Seq<CategoryView>) -> bool {
    &&& distinct_keys(cats)
    &&& forall|k: int| 0 <= k < cats.len() ==> cat_shape_wf(#[trigger] cats[k])
}

/// Every entry's parent is resolvable now or when its frame closes.
pub open spec fn entries_ok(s: Seq<FrameView>, cats: Seq<CategoryView>) -> bool {
    forall|k: int|
        0 <= k < cats.len() ==> ((#[trigger] cats[k]).parent_id matches Some(p) ==> (has_key(
            cats,
            p,
        ) || cat_on_stack(s, p)))
}

/// The invariant of the whole parse state.
pub open spec fn state_wf(s: Seq<FrameView>, d: PackDefsView) -> bool {
    &&& stack_frames_wf(s)
    &&& cats_wf(d.cats)
    &&& entries_ok(s, d.cats)
    &&& forall|k: int| 0 <= k < d.pois.len() ==> poi_bounded(#[trigger] d.pois[k])
    &&& forall|k: int| 0 <= k < d.trails.len() ==> trail_bounded(#[trigger] d.trails[k])
}

/// Well-formedness of finished definitions: what parsing guarantees
/// between files and at the end of a load.
pub open spec fn defs_wf(d: PackDefsView) -> bool {
    state_wf(Seq::empty(), d)
}

/// Finished definitions have a well-formed category table.
pub proof fn lemma_defs_wf_table(d: PackDefsView)
    requires
        defs_wf(d),
    ensures
        table_wf(d.cats),
{
    assert forall|i: int| 0 <= i < d.cats.len() implies match (#[trigger] d.cats[i]).parent_id {
        Some(p) => has_key(d.cats, p) && p.len() < d.cats[i].full_id.len(),
        None => true,
    } by {
        match d.cats[i].parent_id {
            Some(p) => {
                assert(!cat_on_stack(Seq::empty(), p));
                assert(cat_shape_wf(d.cats[i]));
                assert(d.cats[i].full_id.len() == p.len() + 1 + d.cats[i].id.len());
            },
            None => {},
        }
    }
}

// ---------------------------------------------------------------------
// table and stack operations

/// Merge a closing category into the table.
fn insert_or_merge(cats: &mut Vec<Category>, c: Category)
    requires
        distinct_keys(cat_views(old(cats)@)),
    ensures
        cat_views(final(cats)@) == table_insert(cat_views(old(cats)@), c@),
{
    let ghost cv = cat_views(cats@);
    match get_index_of(cats, c.full_id.as_str()) {
        Some(i) => {
            proof {
                assert(has_key(cv, c@.full_id));
                let k = idx_of(cv, c@.full_id);
                assert(0 <= k < cv.len() && cv[k].full_id == c@.full_id);
                assert(k == i as int);
            }
            cats[i].merge(c);
            assert(cat_views(cats@) =~= table_insert(cv, c@));
        },
        None => {
            cats.push(c);
            assert(cat_views(cats@) =~= table_insert(cv, c@));
        },
    }
}

/// Record a root category name, once.
fn roots_insert(roots: &mut Vec<String>, full: &String)
    ensures
        strs_view(final(roots)@) == roots_ins(strs_view(old(roots)@), full@),
{
    let n = roots.len();
    for i in 0..n
        invariant
            n == roots@.len(),
            roots@ == old(roots)@,
            forall|j: int| 0 <= j < i ==> strs_view(roots@)[j] != full@,
    {
        if text::str_is(roots[i].as_str(), full.as_str()) {
            assert(strs_view(roots@)[i as int] == full@);
            assert(strs_view(roots@).contains(full@));
            return ;
        }
    }
    assert(!strs_view(roots@).contains(full@)) by {
        assert(forall|j: int| 0 <= j < roots@.len() ==> strs_view(roots@)[j] != full@);
    }
    let ghost prev = strs_view(roots@);
    roots.push(full.clone());
    assert(strs_view(roots@) =~= prev.push(full@));
}

/// Record a closing child in its parent frame's sub-category list.
fn frame_add_sub(par: &mut Category, local: &String, full: &String)
    ensures
        final(par)@ == frame_sub_ins(old(par)@, local@, full@),
{
    if !crate::category::has_local_exec(&par.sub_categories, local.as_str()) {
        let ghost prev = par@.subs;
        par.sub_categories.push((local.clone(), full.clone()));
        assert(par@.subs =~= prev.push((local@, full@)));
        assert(par@ =~= frame_sub_ins(old(par)@, local@, full@));
    }
}

// ---------------------------------------------------------------------
// invariant preservation

/// The projections of a frame the invariants read.
pub open spec fn frame_like(a: FrameView, b: FrameView) -> bool {
    match (a, b) {
        (FrameView::MarkerCategory(f), FrameView::MarkerCategory(g)) => f.id == g.id && f.full_id
            == g.full_id && f.parent_id == g.parent_id,
        _ => a == b,
    }
}

proof fn lemma_table_insert_props(cats: Seq<CategoryView>, c: CategoryView)
    requires
        cats_wf(cats),
        cat_shape_wf(c),
    ensures
        cats_wf(table_insert(cats, c)),
        forall|q: Seq<char>| has_key(cats, q) ==> has_key(table_insert(cats, c), q),
        has_key(table_insert(cats, c), c.full_id),
        table_insert(cats, c).len() >= cats.len(),
        forall|k: int|
            0 <= k < cats.len() ==> (#[trigger] table_insert(cats, c)[k]).parent_id
                == cats[k].parent_id,
        forall|k: int|
            cats.len() <= k < table_insert(cats, c).len() ==> (#[trigger] table_insert(
                cats,
                c,
            )[k]).parent_id == c.parent_id,
{
    let ti = table_insert(cats, c);
    if has_key(cats, c.full_id) {
        let i = idx_of(cats, c.full_id);
        assert(0 <= i < cats.len() && cats[i].full_id == c.full_id);
        let merged_entry = merge_cat(cats[i], c);
        assert(merged_entry.full_id == cats[i].full_id);
        assert(merged_entry.parent_id == cats[i].parent_id);
        assert(merged_entry.id == cats[i].id);
        assert(cat_shape_wf(merged_entry));
        assert forall|q: Seq<char>| has_key(cats, q) implies has_key(ti, q) by {
            let w = choose|w: int| 0 <= w < cats.len() && cats[w].full_id == q;
            assert(ti[w].full_id == q);
        }
        assert(ti[i].full_id == c.full_id);
    } else {
        assert forall|q: Seq<char>| has_key(cats, q) implies has_key(ti, q) by {
            let w = choose|w: int| 0 <= w < cats.len() && cats[w].full_id == q;
            assert(ti[w].full_id == q);
        }
        assert(ti[cats.len() as int].full_id == c.full_id);
    }
}

/// Closing a category frame keeps the whole state well-formed: what was
/// pending on this frame is now found in the table.
proof fn lemma_close_category(
    s: Seq<FrameView>,
    s2: Seq<FrameView>,
    cats: Seq<CategoryView>,
    c: CategoryView,
)
    requires
        stack_frames_wf(s),
        s.len() >= 1,
        s.last() == FrameView::MarkerCategory(c),
        s2.len() == s.len() - 1,
        forall|i: int| 0 <= i < s2.len() ==> frame_like(#[trigger] s[i], s2[i]),
        cats_wf(cats),
        entries_ok(s, cats),
    ensures
        stack_frames_wf(s2),
        cats_wf(table_insert(cats, c)),
        entries_ok(s2, table_insert(cats, c)),
{
    assert(cat_shape_wf(c)) by {
        assert(s[s.len() - 1] == FrameView::MarkerCategory(c));
    }
    lemma_table_insert_props(cats, c);
    let ti = table_insert(cats, c);
    assert forall|i: int| 0 <= i < s2.len() implies match #[trigger] s2[i] {
        FrameView::MarkerCategory(f) => cat_shape_wf(f) && (f.parent_id matches Some(p)
            ==> exists|j: int|
                0 <= j < i && ((#[trigger] s2[j]) matches FrameView::MarkerCategory(g)
                    && g.full_id == p)),
        FrameView::Poi(p) => poi_bounded(p),
        FrameView::Trail(t) => trail_bounded(t),
        _ => true,
    } by {
        assert(frame_like(s[i], s2[i]));
        match s2[i] {
            FrameView::MarkerCategory(f) => {
                let fs = s[i]->MarkerCategory_0;
                assert(cat_shape_wf(fs));
                assert(cat_shape_wf(f));
                match f.parent_id {
                    Some(p) => {
                        let j = choose|j: int|
                            0 <= j < i && ((#[trigger] s[j]) matches FrameView::MarkerCategory(g)
                                && g.full_id == p);
                        assert(frame_like(s[j], s2[j]));
                        assert(s2[j] matches FrameView::MarkerCategory(g) && g.full_id == p);
                    },
                    None => {},
                }
            },
            _ => {},
        }
    }
    assert forall|k: int|
        0 <= k < ti.len() implies ((#[trigger] ti[k]).parent_id matches Some(p) ==> (has_key(
        ti,
        p,
    ) || cat_on_stack(s2, p))) by {
        match ti[k].parent_id {
            Some(p) => {
                if k < cats.len() {
                    assert(cats[k].parent_id == Some(p));
                    assert(has_key(cats, p) || cat_on_stack(s, p));
                    if has_key(cats, p) {
                        assert(has_key(ti, p));
                    } else {
                        let w = choose|w: int|
                            0 <= w < s.len() && ((#[trigger] s[w])
                                matches FrameView::MarkerCategory(g) && g.full_id == p);
                        if w == s.len() - 1 {
                            assert(p == c.full_id);
                            assert(has_key(ti, p));
                        } else {
                            assert(frame_like(s[w], s2[w]));
                            assert(s2[w] matches FrameView::MarkerCategory(g) && g.full_id == p);
                            assert(cat_on_stack(s2, p));
                        }
                    }
                } else {
                    // the appended entry is the closing category itself
                    assert(ti[k].parent_id == c.parent_id);
                    assert(s[s.len() - 1] == FrameView::MarkerCategory(c));
                    let w = choose|j: int|
                        0 <= j < s.len() - 1 && ((#[trigger] s[j])
                            matches FrameView::MarkerCategory(g) && g.full_id == p);
                    assert(frame_like(s[w], s2[w]));
                    assert(s2[w] matches FrameView::MarkerCategory(g) && g.full_id == p);
                    assert(cat_on_stack(s2, p));
                }
            },
            None => {},
        }
    }
}

/// Popping any frame that is not a category keeps the state well-formed.
proof fn lemma_pop_noncat(s: Seq<FrameView>, cats: Seq<CategoryView>)
    requires
        stack_frames_wf(s),
        s.len() >= 1,
        !(s.last() matches FrameView::MarkerCategory(_)),
        entries_ok(s, cats),
    ensures
        stack_frames_wf(s.drop_last()),
        entries_ok(s.drop_last(), cats),
{
    let s2 = s.drop_last();
    assert(forall|i: int| 0 <= i < s2.len() ==> s2[i] == s[i]);
    assert forall|k: int|
        0 <= k < cats.len() implies ((#[trigger] cats[k]).parent_id matches Some(p) ==> (has_key(
        cats,
        p,
    ) || cat_on_stack(s2, p))) by {
        match cats[k].parent_id {
            Some(p) => {
                if !has_key(cats, p) {
                    let w = choose|w: int|
                        0 <= w < s.len() && ((#[trigger] s[w]) matches FrameView::MarkerCategory(g)
                            && g.full_id == p);
                    assert(w != s.len() - 1);
                    assert(s2[w] matches FrameView::MarkerCategory(g) && g.full_id == p);
                    assert(cat_on_stack(s2, p));
                }
            },
            None => {},
        }
    }
}

/// Pushing a frame keeps the state well-formed, provided the frame
/// itself is in order.
proof fn lemma_push_frame(s: Seq<FrameView>, cats: Seq<CategoryView>, f: FrameView)
    requires
        stack_frames_wf(s),
        entries_ok(s, cats),
        match f {
            FrameView::MarkerCategory(c) => cat_shape_wf(c) && (c.parent_id matches Some(p)
                ==> cat_on_stack(s, p)),
            FrameView::Poi(p) => poi_bounded(p),
            FrameView::Trail(t) => trail_bounded(t),
            _ => true,
        },
    ensures
        stack_frames_wf(s.push(f)),
        entries_ok(s.push(f), cats),
{
    let s2 = s.push(f);
    assert(forall|i: int| 0 <= i < s.len() ==> s2[i] == s[i]);
    assert forall|i: int| 0 <= i < s2.len() implies match #[trigger] s2[i] {
        FrameView::MarkerCategory(g) => cat_shape_wf(g) && (g.parent_id matches Some(p)
            ==> exists|j: int|
                0 <= j < i && ((#[trigger] s2[j]) matches FrameView::MarkerCategory(h)
                    && h.full_id == p)),
        FrameView::Poi(p) => poi_bounded(p),
        FrameView::Trail(t) => trail_bounded(t),
        _ => true,
    } by {
        if i < s.len() {
            match s2[i] {
                FrameView::MarkerCategory(g) => {
                    match g.parent_id {
                        Some(p) => {
                            let j = choose|j: int|
                                0 <= j < i && ((#[trigger] s[j])
                                    matches FrameView::MarkerCategory(h) && h.full_id == p);
                            assert(s2[j] matches FrameView::MarkerCategory(h) && h.full_id == p);
                        },
                        None => {},
                    }
                },
                _ => {},
            }
        } else {
            assert(s2[i] == f);
            match f {
                FrameView::MarkerCategory(g) => {
                    match g.parent_id {
                        Some(p) => {
                            let j = choose|j: int|
                                0 <= j < s.len() && ((#[trigger] s[j])
                                    matches FrameView::MarkerCategory(h) && h.full_id == p);
                            assert(s2[j] matches FrameView::MarkerCategory(h) && h.full_id == p);
                        },
                        None => {},
                    }
                },
                _ => {},
            }
        }
    }
    assert forall|k: int|
        0 <= k < cats.len() implies ((#[trigger] cats[k]).parent_id matches Some(p) ==> (has_key(
        cats,
        p,
    ) || cat_on_stack(s2, p))) by {
        match cats[k].parent_id {
            Some(p) => {
                if !has_key(cats, p) {
                    let w = choose|w: int|
                        0 <= w < s.len() && ((#[trigger] s[w]) matches FrameView::MarkerCategory(g)
                            && g.full_id == p);
                    assert(s2[w] matches FrameView::MarkerCategory(g) && g.full_id == p);
                    assert(cat_on_stack(s2, p));
                }
            },
            None => {},
        }
    }
}

// ---------------------------------------------------------------------
// the parse loop

/// A structured parse error: what went wrong, and where in the stream.
#[derive(Debug)]
pub struct ParseError {
    pub message: String,
    pub row: u64,
    pub column: u64,
}

/// The five element names are pairwise distinct: their lengths differ.
proof fn lemma_elem_names()
    ensures
        "overlaydata"@.len() == 11,
        "markercategory"@.len() == 14,
        "pois"@.len() == 4,
        "poi"@.len() == 3,
        "trail"@.len() == 5,
{
    reveal_strlit("overlaydata");
    reveal_strlit("markercategory");
    reveal_strlit("pois");
    reveal_strlit("poi");
    reveal_strlit("trail");
}

/// An error tagged with the reader's current position.
fn err_at(reader: &DefReader, msg: &str, elem: &str) -> (e: ParseError) {
    let (row, column) = reader.position();
    let mut message = msg.to_owned();
    message.append(elem);
    ParseError { message, row, column }
}

/// Whether this element may open under the current stack top.
fn valid_start_exec(stack: &Vec<PartialItem>, nl: &str) -> (r: bool)
    ensures
        r == valid_elem_start(top_frame(frames_view(stack@)), nl@),
{
    let n = stack.len();
    proof {
        if n > 0 {
            assert(frames_view(stack@).last() == stack@[n - 1]@);
        }
    }
    if text::str_is(nl, "overlaydata") {
        n == 0
    } else if text::str_is(nl, "markercategory") {
        n > 0 && match &stack[n - 1] {
            PartialItem::OverlayData => true,
            PartialItem::MarkerCategory(_) => true,
            _ => false,
        }
    } else if text::str_is(nl, "pois") {
        n > 0 && matches!(&stack[n - 1], PartialItem::OverlayData)
    } else if text::str_is(nl, "poi") || text::str_is(nl, "trail") {
        n > 0 && matches!(&stack[n - 1], PartialItem::PoiGroup)
    } else {
        false
    }
}

/// Whether this closing tag matches the current stack top.
fn valid_end_exec(stack: &Vec<PartialItem>, nl: &str) -> (r: bool)
    ensures
        r == valid_elem_end(top_frame(frames_view(stack@)), nl@),
{
    let n = stack.len();
    proof {
        if n > 0 {
            assert(frames_view(stack@).last() == stack@[n - 1]@);
        }
    }
    if n == 0 {
        return false;
    }
    if text::str_is(nl, "overlaydata") {
        matches!(&stack[n - 1], PartialItem::OverlayData)
    } else if text::str_is(nl, "markercategory") {
        matches!(&stack[n - 1], PartialItem::MarkerCategory(_))
    } else if text::str_is(nl, "pois") {
        matches!(&stack[n - 1], PartialItem::PoiGroup)
    } else if text::str_is(nl, "poi") {
        matches!(&stack[n - 1], PartialItem::Poi(_))
    } else if text::str_is(nl, "trail") {
        matches!(&stack[n - 1], PartialItem::Trail(_))
    } else {
        false
    }
}

/// Apply one opening tag to the parse state.
#[verifier::rlimit(100)]
fn apply_start(
    stack: &mut Vec<PartialItem>,
    defs: &mut PackDefs,
    source: &PackSource,
    reader: &DefReader,
    name: &String,
    attrs: &Vec<(String, String)>,
) -> (oc: Option<ParseError>)
    requires
        state_wf(frames_view(old(stack)@), old(defs)@),
    ensures
        ({
            let pre = ParseModel {
                stack: frames_view(old(stack)@),
                defs: old(defs)@,
                done: false,
                failed: false,
            };
            let post = step(
                pre,
                EvView::Start(name@, pairs_view(attrs@)),
                files_view(source.files@),
            );
            match oc {
                None => post == (ParseModel {
                    stack: frames_view(final(stack)@),
                    defs: final(defs)@,
                    done: false,
                    failed: false,
                }) && state_wf(frames_view(final(stack)@), final(defs)@),
                Some(_) => post == failed_model(
                    ParseModel {
                        stack: frames_view(old(stack)@),
                        defs: old(defs)@,
                        done: false,
                        failed: false,
                    },
                ) && final(defs)@ == old(defs)@,
            }
        }),
{
    let ghost pre = ParseModel {
        stack: frames_view(stack@),
        defs: defs@,
        done: false,
        failed: false,
    };
    let ghost ev = EvView::Start(name@, pairs_view(attrs@));
    let ghost files = files_view(source.files@);
    proof {
        lemma_elem_names();
    }
    let nl = text::ascii_lower(name.as_str());
    if !valid_start_exec(stack, nl.as_str()) {
        proof {
            lemma_elem_names();
        }
        assert(step(pre, ev, files) == failed_model(pre));
        return Some(err_at(reader, "unexpected element: ", name.as_str()));
    }
    if text::str_is(nl.as_str(), "overlaydata") {
        stack.push(PartialItem::OverlayData);
        proof {
            lemma_elem_names();
            assert(frames_view(stack@) =~= pre.stack.push(FrameView::OverlayData));
            lemma_push_frame(pre.stack, defs@.cats, FrameView::OverlayData);
            assert((ParseModel {
                stack: frames_view(stack@),
                defs: defs@,
                done: false,
                failed: false,
            }) =~~= step(pre, ev, files));
        }
    } else if text::str_is(nl.as_str(), "pois") {
        stack.push(PartialItem::PoiGroup);
        proof {
            lemma_elem_names();
            assert(frames_view(stack@) =~= pre.stack.push(FrameView::PoiGroup));
            lemma_push_frame(pre.stack, defs@.cats, FrameView::PoiGroup);
            assert((ParseModel {
                stack: frames_view(stack@),
                defs: defs@,
                done: false,
                failed: false,
            }) =~~= step(pre, ev, files));
        }
    } else if text::str_is(nl.as_str(), "markercategory") {
        let n = stack.len();
        assert(n > 0);
        let parent: Option<String> = match &stack[n - 1] {
            PartialItem::MarkerCategory(pc) => Some(pc.full_id.clone()),
            _ => None,
        };
        proof {
            assert(pre.stack.last() == stack@[n - 1]@);
            match parent {
                Some(ref p) => {
                    assert(parent_name_of_top(pre.stack) == Some(p@));
                    assert(cat_on_stack(pre.stack, p@)) by {
                        assert(pre.stack[n - 1] matches FrameView::MarkerCategory(g)
                            && g.full_id == p@);
                    }
                },
                None => {
                    assert(parent_name_of_top(pre.stack) is None);
                },
            }
        }
        let c = category_from_attrs(attrs, parent.as_ref());
        let ghost cf = FrameView::MarkerCategory(c@);
        stack.push(PartialItem::MarkerCategory(c));
        proof {
            lemma_elem_names();
            assert(frames_view(stack@) =~= pre.stack.push(cf));
            lemma_push_frame(pre.stack, defs@.cats, cf);
            assert((ParseModel {
                stack: frames_view(stack@),
                defs: defs@,
                done: false,
                failed: false,
            }) =~~= step(pre, ev, files));
        }
    } else if text::str_is(nl.as_str(), "poi") {
        let frame = match poi_from_attrs(attrs) {
            Some(p) => PartialItem::Poi(p),
            None => PartialItem::PoisonElem,
        };
        let ghost fv = frame@;
        stack.push(frame);
        proof {
            lemma_elem_names();
            assert(frames_view(stack@) =~= pre.stack.push(fv));
            lemma_push_frame(pre.stack, defs@.cats, fv);
            assert((ParseModel {
                stack: frames_view(stack@),
                defs: defs@,
                done: false,
                failed: false,
            }) =~~= step(pre, ev, files));
        }
    } else {
        assert(nl@ == "trail"@);
        let frame = match trail_from_attrs(attrs, source) {
            Some(t) => PartialItem::Trail(t),
            None => PartialItem::PoisonElem,
        };
        let ghost fv = frame@;
        stack.push(frame);
        proof {
            lemma_elem_names();
            assert(frames_view(stack@) =~= pre.stack.push(fv));
            lemma_push_frame(pre.stack, defs@.cats, fv);
            assert((ParseModel {
                stack: frames_view(stack@),
                defs: defs@,
                done: false,
                failed: false,
            }) =~~= step(pre, ev, files));
        }
    }
    None
}

/// Apply one closing tag to the parse state.
#[verifier::rlimit(100)]
fn apply_end(
    stack: &mut Vec<PartialItem>,
    defs: &mut PackDefs,
    source: &PackSource,
    reader: &DefReader,
    name: &String,
) -> (oc: Option<ParseError>)
    requires
        state_wf(frames_view(old(stack)@), old(defs)@),
    ensures
        ({
            let pre = ParseModel {
                stack: frames_view(old(stack)@),
                defs: old(defs)@,
                done: false,
                failed: false,
            };
            let post = step(pre, EvView::End(name@), files_view(source.files@));
            match oc {
                None => post == (ParseModel {
                    stack: frames_view(final(stack)@),
                    defs: final(defs)@,
                    done: false,
                    failed: false,
                }) && state_wf(frames_view(final(stack)@), final(defs)@),
                Some(_) => post == failed_model(
                    ParseModel {
                        stack: frames_view(old(stack)@),
                        defs: old(defs)@,
                        done: false,
                        failed: false,
                    },
                ) && final(defs)@ == old(defs)@,
            }
        }),
{
    let ghost pre = ParseModel {
        stack: frames_view(stack@),
        defs: defs@,
        done: false,
        failed: false,
    };
    let ghost ev = EvView::End(name@);
    let ghost files = files_view(source.files@);
    proof {
        lemma_elem_names();
    }
    let n = stack.len();
    proof {
        if n > 0 {
            assert(pre.stack.last() == stack@[n - 1]@);
        }
    }
    let top_poison = n > 0 && matches!(&stack[n - 1], PartialItem::PoisonElem);
    if top_poison {
        let _ = stack.pop();
        proof {
            lemma_elem_names();
            assert(frames_view(stack@) =~= pre.stack.drop_last());
            lemma_pop_noncat(pre.stack, defs@.cats);
            assert((ParseModel {
                stack: frames_view(stack@),
                defs: defs@,
                done: false,
                failed: false,
            }) =~~= step(pre, ev, files));
        }
        return None;
    }
    let nl = text::ascii_lower(name.as_str());
    if !valid_end_exec(stack, nl.as_str()) {
        proof {
            lemma_elem_names();
        }
        assert(step(pre, ev, files) == failed_model(pre));
        return Some(err_at(reader, "unexpected closing tag: ", name.as_str()));
    }
    if text::str_is(nl.as_str(), "overlaydata") || text::str_is(nl.as_str(), "pois") {
        proof {
            lemma_elem_names();
            assert(pre.stack.len() >= 1);
            assert(!(pre.stack.last() matches FrameView::MarkerCategory(_)));
        }
        let _ = stack.pop();
        proof {
            lemma_elem_names();
            assert(frames_view(stack@) =~= pre.stack.drop_last());
            lemma_pop_noncat(pre.stack, defs@.cats);
            assert((ParseModel {
                stack: frames_view(stack@),
                defs: defs@,
                done: false,
                failed: false,
            }) =~~= step(pre, ev, files));
        }
        None
    } else if text::str_is(nl.as_str(), "markercategory") {
        close_category(stack, defs, source, reader, name)
    } else if text::str_is(nl.as_str(), "poi") {
        let p = match stack.pop() {
            Some(PartialItem::Poi(p)) => p,
            _ => {
                proof {
                    lemma_elem_names();
                    assert(false);
                }
                return Some(err_at(reader, "inconsistent internal state", ""));
            },
        };
        let ghost pv = p@;
        assert(pre.stack.last() == FrameView::Poi(pv));
        defs.pois.push(p);
        proof {
            lemma_elem_names();
            assert(frames_view(stack@) =~= pre.stack.drop_last());
            assert(defs@.pois =~= pre.defs.pois.push(pv));
            assert(defs@ =~~= (PackDefsView { pois: pre.defs.pois.push(pv), ..pre.defs }));
            lemma_pop_noncat(pre.stack, defs@.cats);
            assert((ParseModel {
                stack: frames_view(stack@),
                defs: defs@,
                done: false,
                failed: false,
            }) =~~= step(pre, ev, files));
        }
        None
    } else {
        assert(nl@ == "trail"@);
        let t = match stack.pop() {
            Some(PartialItem::Trail(t)) => t,
            _ => {
                proof {
                    lemma_elem_names();
                    assert(false);
                }
                return Some(err_at(reader, "inconsistent internal state", ""));
            },
        };
        let ghost tv = t@;
        assert(pre.stack.last() == FrameView::Trail(tv));
        defs.trails.push(t);
        proof {
            lemma_elem_names();
            assert(frames_view(stack@) =~= pre.stack.drop_last());
            assert(defs@.trails =~= pre.defs.trails.push(tv));
            assert(defs@ =~~= (PackDefsView { trails: pre.defs.trails.push(tv), ..pre.defs }));
            lemma_pop_noncat(pre.stack, defs@.cats);
            assert((ParseModel {
                stack: frames_view(stack@),
                defs: defs@,
                done: false,
                failed: false,
            }) =~~= step(pre, ev, files));
        }
        None
    }
}

/// Apply a closing category tag: merge the frame into the table and
/// register it with its parent frame or the root set.
#[verifier::rlimit(100)]
fn close_category(
    stack: &mut Vec<PartialItem>,
    defs: &mut PackDefs,
    source: &PackSource,
    reader: &DefReader,
    name: &String,
) -> (oc: Option<ParseError>)
    requires
        state_wf(frames_view(old(stack)@), old(defs)@),
        valid_elem_end(top_frame(frames_view(old(stack)@)), text::lower_of(name@)),
        text::lower_of(name@) == "markercategory"@,
    ensures
        ({
            let pre = ParseModel {
                stack: frames_view(old(stack)@),
                defs: old(defs)@,
                done: false,
                failed: false,
            };
            let post = step(pre, EvView::End(name@), files_view(source.files@));
            match oc {
                None => post == (ParseModel {
                    stack: frames_view(final(stack)@),
                    defs: final(defs)@,
                    done: false,
                    failed: false,
                }) && state_wf(frames_view(final(stack)@), final(defs)@),
                Some(_) => post == failed_model(
                    ParseModel {
                        stack: frames_view(old(stack)@),
                        defs: old(defs)@,
                        done: false,
                        failed: false,
                    },
                ) && final(defs)@ == old(defs)@,
            }
        }),
{
    let ghost pre = ParseModel {
        stack: frames_view(stack@),
        defs: defs@,
        done: false,
        failed: false,
    };
    let ghost ev = EvView::End(name@);
    let ghost files = files_view(source.files@);
    proof {
        lemma_elem_names();
        assert(pre.stack.len() >= 1);
        assert(pre.stack.last() == stack@[stack@.len() - 1]@);
        assert(!(pre.stack.last() matches FrameView::PoisonElem));
    }
    let c = match stack.pop() {
        Some(PartialItem::MarkerCategory(c)) => c,
        _ => {
            proof {
                lemma_elem_names();
                assert(false);
            }
            return Some(err_at(reader, "inconsistent internal state", ""));
        },
    };
    let ghost cv = c@;
    assert(pre.stack.last() == FrameView::MarkerCategory(cv));
    if stack.len() == 0 {
        proof {
            lemma_elem_names();
        }
        assert(step(pre, ev, files) == failed_model(pre));
        return Some(err_at(reader, "inconsistent nesting: ", name.as_str()));
    }
    let li = stack.len() - 1;
    let kind: u8 = match &stack[li] {
        PartialItem::OverlayData => 0,
        PartialItem::MarkerCategory(_) => 1,
        _ => 2,
    };
    proof {
        lemma_elem_names();
        assert(frames_view(stack@) =~= pre.stack.drop_last());
        assert(top_frame(pre.stack.drop_last()) == Some(stack@[li as int]@));
    }
    if kind == 0 {
        roots_insert(&mut defs.roots, &c.full_id);
        insert_or_merge(&mut defs.categories, c);
        proof {
            lemma_elem_names();
            lemma_close_category(pre.stack, frames_view(stack@), pre.defs.cats, cv);
            assert(defs@ =~~= (PackDefsView {
                cats: table_insert(pre.defs.cats, cv),
                roots: roots_ins(pre.defs.roots, cv.full_id),
                ..pre.defs
            }));
            assert((ParseModel {
                stack: frames_view(stack@),
                defs: defs@,
                done: false,
                failed: false,
            }) =~~= step(pre, ev, files));
        }
        None
    } else if kind == 1 {
        let local = c.id.clone();
        let full = c.full_id.clone();
        let ghost s2_before = frames_view(stack@);
        match &mut stack[li] {
            PartialItem::MarkerCategory(par) => {
                frame_add_sub(par, &local, &full);
            },
            _ => {
                proof {
                    lemma_elem_names();
                    assert(false);
                }
            },
        }
        insert_or_merge(&mut defs.categories, c);
        proof {
            lemma_elem_names();
            let s2 = frames_view(stack@);
            assert(s2 =~= s2_before.update(
                li as int,
                FrameView::MarkerCategory(
                    frame_sub_ins(s2_before[li as int]->MarkerCategory_0, cv.id, cv.full_id),
                ),
            ));
            assert(forall|i: int|
                0 <= i < s2.len() ==> frame_like(#[trigger] pre.stack[i], s2[i]));
            lemma_close_category(pre.stack, s2, pre.defs.cats, cv);
            assert(defs@ =~~= (PackDefsView { cats: table_insert(pre.defs.cats, cv), ..pre.defs }));
            assert((ParseModel {
                stack: s2,
                defs: defs@,
                done: false,
                failed: false,
            }) =~~= step(pre, ev, files));
        }
        None
    } else {
        proof {
            lemma_elem_names();
        }
        assert(step(pre, ev, files) == failed_model(pre));
        Some(err_at(reader, "inconsistent nesting: ", name.as_str()))
    }
}

/// The most events a stream of this many bytes is given before the
/// walk gives up defensively.  Generous: the tokenizer cannot produce
/// events faster than it consumes input.
pub open spec fn event_budget(n: nat) -> nat {
    if n < 0x10000000 {
        (n + 1024) as nat
    } else {
        0x10000000 as nat
    }
}

/// Once a run is done or failed, later events change nothing.
pub proof fn lemma_run_sticky(
    m0: ParseModel,
    evs: Seq<EvView>,
    files: Seq<(Seq<char>, Seq<u8>)>,
    n: int,
    k: int,
)
    requires
        0 <= n <= k <= evs.len(),
        parse_run(m0, evs.take(n), files).done || parse_run(m0, evs.take(n), files).failed,
    ensures
        parse_run(m0, evs.take(k), files) == parse_run(m0, evs.take(n), files),
    decreases k - n,
{
    if k > n {
        lemma_run_sticky(m0, evs, files, n, k - 1);
        assert(evs.take(k).drop_last() =~= evs.take(k - 1));
        assert(evs.take(k).last() == evs[k - 1]);
    }
}

/// While the run is neither done nor failed, the stream cannot have
/// been exhausted: its final event is terminal, and a terminal event
/// always ends or fails a live run.
proof fn lemma_prefix_alive(
    m0: ParseModel,
    evs: Seq<EvView>,
    files: Seq<(Seq<char>, Seq<u8>)>,
    k: int,
)
    requires
        0 <= k <= evs.len(),
        evs.len() >= 1,
        is_terminal(evs.last()),
        !parse_run(m0, evs.take(k), files).done,
        !parse_run(m0, evs.take(k), files).failed,
    ensures
        k < evs.len(),
{
    if k == evs.len() {
        let prev = parse_run(m0, evs.take(k - 1), files);
        assert(evs.take(k).drop_last() =~= evs.take(k - 1));
        assert(evs.take(k).last() == evs[k - 1]);
        assert(evs[k - 1] == evs.last());
        if prev.done || prev.failed {
            lemma_run_sticky(m0, evs, files, k - 1, k);
            assert(false);
        } else {
            assert(parse_run(m0, evs.take(k), files) == step(prev, evs.last(), files));
            match evs.last() {
                EvView::DocEnd => {
                    assert(step(prev, evs.last(), files).done || step(
                        prev,
                        evs.last(),
                        files,
                    ).failed);
                },
                EvView::Fault(_) => {
                    assert(step(prev, evs.last(), files).failed);
                },
                _ => {
                    assert(false);
                },
            }
            assert(false);
        }
    }
}

/// Parse one definition stream into the accumulated definitions.
///
/// The walk is exactly the transition system `step` over the stream's
/// named event sequence: within the defensive event budget, the final
/// definitions are the fold of `events_of(bytes)` and the call
/// succeeds precisely when that fold completes the document cleanly.
/// On error the definitions are whatever the fold had reached (the
/// caller unloads the pack).
#[verifier::rlimit(50)]
pub fn parse_pack_def(defs: &mut PackDefs, source: &PackSource, bytes: &Vec<u8>) -> (r: Result<
    (),
    ParseError,
>)
    requires
        defs_wf(old(defs)@),
    ensures
        r is Ok ==> defs_wf(final(defs)@),
        ({
            let evs = events_of(bytes@);
            let m = parse_run(init_model(old(defs)@), evs, files_view(source.files@));
            evs.len() <= event_budget(bytes@.len()) ==> final(defs)@ == m.defs && (r is Ok <==> (
            m.done && !m.failed))
        }),
        exists|n: int|
            0 <= n <= events_of(bytes@).len() && final(defs)@ == #[trigger] parse_run(
                init_model(old(defs)@),
                events_of(bytes@).take(n),
                files_view(source.files@),
            ).defs,
{
    let ghost files = files_view(source.files@);
    let ghost m0 = init_model(old(defs)@);
    let reader_init = DefReader::new(bytes);
    let ghost evs = events_of(bytes@);
    let mut reader = reader_init;
    let mut stack: Vec<PartialItem> = Vec::new();
    let mut fuel: usize = if bytes.len() < 0x10000000 {
        bytes.len() + 1024
    } else {
        0x10000000
    };
    proof {
        assert(fuel == event_budget(bytes@.len()));
        assert(evs.take(0) =~= Seq::<EvView>::empty());
        assert(frames_view(stack@) =~= Seq::<FrameView>::empty());
        assert((ParseModel { stack: frames_view(stack@), defs: defs@, done: false, failed: false })
            =~~= parse_run(m0, evs.take(0), files));
    }
    while fuel > 0
        invariant
            files == files_view(source.files@),
            m0 == init_model(old(defs)@),
            evs == events_of(bytes@),
            evs.len() >= 1,
            is_terminal(evs.last()),
            reader_bytes(reader) == bytes@,
            0 <= reader_cursor(reader) <= evs.len(),
            fuel as int == event_budget(bytes@.len()) - reader_cursor(reader),
            (ParseModel {
                stack: frames_view(stack@),
                defs: defs@,
                done: false,
                failed: false,
            }) == parse_run(m0, evs.take(reader_cursor(reader)), files),
            state_wf(frames_view(stack@), defs@),
        decreases fuel,
    {
        let ghost k = reader_cursor(reader);
        proof {
            lemma_prefix_alive(m0, evs, files, k);
        }
        fuel = fuel - 1;
        let ev = reader.next_event();
        let ghost pre = ParseModel {
            stack: frames_view(stack@),
            defs: defs@,
            done: false,
            failed: false,
        };
        proof {
            assert(ev@ == evs[k]);
            assert(evs.take(k + 1).drop_last() =~= evs.take(k));
            assert(evs.take(k + 1).last() == evs[k]);
            assert(parse_run(m0, evs.take(k + 1), files) == step(pre, ev@, files));
        }
        match ev {
            XmlEv::Other => {
                assert(step(pre, ev@, files) == pre);
            },
            XmlEv::Fault(message) => {
                proof {
                    assert(step(pre, ev@, files) == failed_model(pre));
                    lemma_run_sticky(m0, evs, files, k + 1, evs.len() as int);
                    assert(evs.take(evs.len() as int) =~= evs);
                }
                let (row, column) = reader.position();
                return Err(ParseError { message, row, column });
            },
            XmlEv::DocEnd => {
                if stack.len() == 0 {
                    proof {
                        assert(frames_view(stack@) =~= Seq::<FrameView>::empty());
                        assert(step(pre, ev@, files) == (ParseModel { done: true, ..pre }));
                        lemma_run_sticky(m0, evs, files, k + 1, evs.len() as int);
                        assert(evs.take(evs.len() as int) =~= evs);
                    }
                    return Ok(());
                } else {
                    proof {
                        assert(step(pre, ev@, files) == failed_model(pre));
                        lemma_run_sticky(m0, evs, files, k + 1, evs.len() as int);
                        assert(evs.take(evs.len() as int) =~= evs);
                    }
                    return Err(err_at(&reader, "unexpected end of document", ""));
                }
            },
            XmlEv::Start(name, attrs) => {
                if let Some(e) = apply_start(&mut stack, defs, source, &reader, &name, &attrs) {
                    proof {
                        assert(step(pre, ev@, files) == failed_model(pre));
                        lemma_run_sticky(m0, evs, files, k + 1, evs.len() as int);
                        assert(evs.take(evs.len() as int) =~= evs);
                    }
                    return Err(e);
                }
            },
            XmlEv::End(name) => {
                if let Some(e) = apply_end(&mut stack, defs, source, &reader, &name) {
                    proof {
                        assert(step(pre, ev@, files) == failed_model(pre));
                        lemma_run_sticky(m0, evs, files, k + 1, evs.len() as int);
                        assert(evs.take(evs.len() as int) =~= evs);
                    }
                    return Err(e);
                }
            },
        }
    }
    proof {
        if evs.len() <= event_budget(bytes@.len()) {
            lemma_prefix_alive(m0, evs, files, reader_cursor(reader));
            assert(false);
        }
        let n = reader_cursor(reader);
        assert(0 <= n <= events_of(bytes@).len() && defs@ == parse_run(
            m0,
            events_of(bytes@).take(n),
            files,
        ).defs);
    }
    Err(err_at(&reader, "definition stream produced too many events", ""))
}

} // verus!
