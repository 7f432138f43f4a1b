//! The merged, deduplicated category hierarchy of one pack, its
//! cascading enable/disable state, and the attribute-inheritance pass.
//!
//! The tree is an insertion-ordered table keyed by fully-qualified
//! dotted path plus an ordered set of root keys; a child's link to its
//! parent is the parent's fully-qualified name, never a pointer.

use vstd::prelude::*;
use crate::attributes::{AttrsView, MarkerAttributes, empty_attrs, merged};
use crate::text;

verus! {

/// One category of the hierarchy.
pub struct Category {
    /// Local (single-segment) name.
    pub id: String,
    /// Fully-qualified dotted path; unique within a pack.
    pub full_id: String,
    /// Fully-qualified name of the category this one was nested in, if
    /// it was not a root.
    pub parent_id: Option<String>,
    /// Name shown in the category tree.
    pub display_name: String,
    /// Drawn as a separator rather than a toggle.
    pub is_separator: bool,
    /// Never shown in the category tree.
    pub is_hidden: bool,
    /// Initial user toggle.
    pub default_toggle: bool,
    /// Ordered map of local name to fully-qualified name of each
    /// sub-category.
    pub sub_categories: Vec<(String, String)>,
    /// Attributes for markers attached to this category.
    pub marker_attributes: MarkerAttributes,
}

/// The mathematical shadow of a category.
#[verifier::ext_equal]
pub struct CategoryView {
    pub id: Seq<char>,
    pub full_id: Seq<char>,
    pub parent_id: Option<Seq<char>>,
    pub display_name: Seq<char>,
    pub is_separator: bool,
    pub is_hidden: bool,
    pub default_toggle: bool,
    pub subs: Seq<(Seq<char>, Seq<char>)>,
    pub attrs: AttrsView,
}

/// The mathematical shadow of a sub-category list.
pub open spec fn subs_view(s: Seq<(String, String)>) -> Seq<(Seq<char>, Seq<char>)> {
    Seq::new(s.len(), |i: int| (s[i].0@, s[i].1@))
}

impl View for Category {
    type V = CategoryView;

    open spec fn view(&self) -> CategoryView {
        CategoryView {
            id: self.id@,
            full_id: self.full_id@,
            parent_id: match self.parent_id {
                Some(ref p) => Some(p@),
                None => None,
            },
            display_name: self.display_name@,
            is_separator: self.is_separator,
            is_hidden: self.is_hidden,
            default_toggle: self.default_toggle,
            subs: subs_view(self.sub_categories@),
            attrs: self.marker_attributes@,
        }
    }
}

/// Views of a category list.
pub open spec fn cat_views(s: Seq<Category>) -> Seq<CategoryView> {
    s.map(|_i: int, c: Category| c@)
}

/// Some entry of the table carries this fully-qualified name.
pub open spec fn has_key(cats: Seq<CategoryView>, key: Seq<char>) -> bool {
    exists|i: int| 0 <= i < cats.len() && cats[i].full_id == key
}

/// The index carrying this fully-qualified name.
pub open spec fn idx_of(cats: Seq<CategoryView>, key: Seq<char>) -> int {
    choose|i: int| 0 <= i < cats.len() && cats[i].full_id == key
}

/// Fully-qualified names are unique within the table.
pub open spec fn distinct_keys(cats: Seq<CategoryView>) -> bool {
    forall|i: int, j: int|
        0 <= i < j < cats.len() ==> cats[i].full_id != cats[j].full_id
}

/// Every non-root entry's parent is present, under a strictly shorter
/// name: parent links are acyclic by construction.
pub open spec fn parents_wf(cats: Seq<CategoryView>) -> bool {
    forall|i: int|
        0 <= i < cats.len() ==> match (#[trigger] cats[i]).parent_id {
            Some(p) => has_key(cats, p) && p.len() < cats[i].full_id.len(),
            None => true,
        }
}

/// Well-formedness of the category table.
pub open spec fn table_wf(cats: Seq<CategoryView>) -> bool {
    distinct_keys(cats) && parents_wf(cats)
}

/// The effective bit of entry `i`, fuelled by the length of its name so
/// that the recursion is well-founded even on ill-formed tables: the
/// entry's own user bit AND the parent chain's effective bits.
pub open spec fn eff_rec(cats: Seq<CategoryView>, user: Seq<bool>, i: int, d: nat) -> bool
    decreases d,
{
    user[i] && match cats[i].parent_id {
        Some(p) => if has_key(cats, p) && p.len() < d {
            eff_rec(cats, user, idx_of(cats, p), p.len() as nat)
        } else {
            true
        },
        None => true,
    }
}

/// The effective bit of entry `i`: its own user bit AND every ancestor's
/// user bit, the root's parent counting as always-effective.
pub open spec fn effective(cats: Seq<CategoryView>, user: Seq<bool>, i: int) -> bool {
    eff_rec(cats, user, i, cats[i].full_id.len())
}

/// On a well-formed table the effective bit unfolds exactly one level:
/// own user bit AND the parent's effective bit.
pub proof fn lemma_effective_unfold(cats: Seq<CategoryView>, user: Seq<bool>, i: int)
    requires
        table_wf(cats),
        0 <= i < cats.len(),
    ensures
        effective(cats, user, i) == (user[i] && match cats[i].parent_id {
            Some(p) => effective(cats, user, idx_of(cats, p)),
            None => true,
        }),
{
    match cats[i].parent_id {
        Some(p) => {
            let j = idx_of(cats, p);
            assert(0 <= j < cats.len() && cats[j].full_id == p);
        },
        None => {},
    }
}

/// Whether `a` lies on the parent chain above `c` (strictly above it).
pub open spec fn is_ancestor(cats: Seq<CategoryView>, a: int, c: int, d: nat) -> bool
    decreases d,
{
    match cats[c].parent_id {
        Some(p) => has_key(cats, p) && p.len() < d && {
            let j = idx_of(cats, p);
            j == a || is_ancestor(cats, a, j, p.len() as nat)
        },
        None => false,
    }
}

/// Cascading disable: if any strict ancestor's user bit is false, the
/// descendant's effective bit is false, whatever its own user bit says.
pub proof fn lemma_cascading_disable(cats: Seq<CategoryView>, user: Seq<bool>, a: int, c: int)
    requires
        table_wf(cats),
        0 <= a < cats.len(),
        0 <= c < cats.len(),
        is_ancestor(cats, a, c, cats[c].full_id.len() as nat),
        !user[a],
    ensures
        !effective(cats, user, c),
    decreases cats[c].full_id.len(),
{
    lemma_effective_unfold(cats, user, c);
    match cats[c].parent_id {
        Some(p) => {
            let j = idx_of(cats, p);
            assert(0 <= j < cats.len() && cats[j].full_id == p);
            if j == a {
                lemma_effective_unfold(cats, user, j);
            } else {
                assert(is_ancestor(cats, a, j, p.len() as nat));
                assert(is_ancestor(cats, a, j, cats[j].full_id.len() as nat));
                lemma_cascading_disable(cats, user, a, j);
            }
        },
        None => {
            assert(false);
        },
    }
}

/// Linear search for a fully-qualified name in the table.
pub fn get_index_of(cats: &Vec<Category>, full: &str) -> (r: Option<usize>)
    ensures
        match r {
            Some(i) => i < cats@.len() && cat_views(cats@)[i as int].full_id == full@,
            None => !has_key(cat_views(cats@), full@),
        },
{
    for i in 0..cats.len()
        invariant
            forall|j: int| 0 <= j < i ==> cat_views(cats@)[j].full_id != full@,
    {
        if text::str_is(cats[i].full_id.as_str(), full) {
            return Some(i);
        }
    }
    None
}

/// Compute the effective bit of one entry by climbing its parent chain.
pub fn effective_of(cats: &Vec<Category>, user: &Vec<bool>, i: usize) -> (e: bool)
    requires
        table_wf(cat_views(cats@)),
        user@.len() == cats@.len(),
        i < cats@.len(),
    ensures
        e == effective(cat_views(cats@), user@, i as int),
    decreases cats@[i as int]@.full_id.len(),
{
    let ghost cv = cat_views(cats@);
    proof {
        lemma_effective_unfold(cv, user@, i as int);
    }
    if !user[i] {
        return false;
    }
    match &cats[i].parent_id {
        None => true,
        Some(p) => {
            match get_index_of(cats, p.as_str()) {
                Some(j) => {
                    proof {
                        assert(cv[j as int].full_id == p@);
                        assert(has_key(cv, p@));
                        let k = idx_of(cv, p@);
                        assert(0 <= k < cv.len() && cv[k].full_id == p@);
                        assert(k == j as int);
                        assert(p@.len() < cv[i as int].full_id.len());
                    }
                    effective_of(cats, user, j)
                },
                None => {
                    proof {
                        assert(has_key(cv, p@));
                        assert(false);
                    }
                    true
                },
            }
        },
    }
}

/// Recompute the whole effective bit-vector, top-down over every entry:
/// `effective[i]` holds exactly when `user[i]` and every ancestor's
/// user bit hold.
pub fn recompute_enabled(cats: &Vec<Category>, user: &Vec<bool>) -> (eff: Vec<bool>)
    requires
        table_wf(cat_views(cats@)),
        user@.len() == cats@.len(),
    ensures
        eff@.len() == cats@.len(),
        forall|i: int|
            0 <= i < cats@.len() ==> eff@[i] == effective(cat_views(cats@), user@, i),
{
    let mut eff: Vec<bool> = Vec::new();
    for i in 0..cats.len()
        invariant
            table_wf(cat_views(cats@)),
            user@.len() == cats@.len(),
            eff@.len() == i,
            forall|j: int| 0 <= j < i ==> eff@[j] == effective(cat_views(cats@), user@, j),
    {
        let e = effective_of(cats, user, i);
        eff.push(e);
    }
    eff
}

/// Some entry of a sub-category list carries this local name.
pub open spec fn has_local(subs: Seq<(Seq<char>, Seq<char>)>, local: Seq<char>) -> bool {
    exists|i: int| 0 <= i < subs.len() && subs[i].0 == local
}

/// Union of two sub-category lists: entries of `b` whose local name is
/// still unseen are appended in order.
pub open spec fn subs_union(
    a: Seq<(Seq<char>, Seq<char>)>,
    b: Seq<(Seq<char>, Seq<char>)>,
) -> Seq<(Seq<char>, Seq<char>)>
    decreases b.len(),
{
    if b.len() == 0 {
        a
    } else {
        subs_union(
            if has_local(a, b.first().0) {
                a
            } else {
                a.push(b.first())
            },
            b.drop_first(),
        )
    }
}

proof fn lemma_subs_union_keeps(a: Seq<(Seq<char>, Seq<char>)>, b: Seq<(Seq<char>, Seq<char>)>, l: Seq<char>)
    requires
        has_local(a, l),
    ensures
        has_local(subs_union(a, b), l),
    decreases b.len(),
{
    if b.len() > 0 {
        if has_local(a, b.first().0) {
            lemma_subs_union_keeps(a, b.drop_first(), l);
        } else {
            let i = choose|i: int| 0 <= i < a.len() && a[i].0 == l;
            assert(a.push(b.first())[i].0 == l);
            lemma_subs_union_keeps(a.push(b.first()), b.drop_first(), l);
        }
    }
}

proof fn lemma_subs_union_covers(a: Seq<(Seq<char>, Seq<char>)>, b: Seq<(Seq<char>, Seq<char>)>, k: int)
    requires
        0 <= k < b.len(),
    ensures
        has_local(subs_union(a, b), b[k].0),
    decreases b.len(),
{
    let a2 = if has_local(a, b.first().0) {
        a
    } else {
        a.push(b.first())
    };
    if k == 0 {
        if has_local(a, b.first().0) {
            lemma_subs_union_keeps(a, b.drop_first(), b[0].0);
        } else {
            assert(a2[a.len() as int].0 == b[0].0);
            lemma_subs_union_keeps(a2, b.drop_first(), b[0].0);
        }
    } else {
        lemma_subs_union_covers(a2, b.drop_first(), k - 1);
        assert(b.drop_first()[k - 1] == b[k]);
    }
}

pub proof fn lemma_subs_union_noop(a: Seq<(Seq<char>, Seq<char>)>, b: Seq<(Seq<char>, Seq<char>)>)
    requires
        forall|k: int| 0 <= k < b.len() ==> has_local(a, #[trigger] b[k].0),
    ensures
        subs_union(a, b) == a,
    decreases b.len(),
{
    if b.len() > 0 {
        assert(has_local(a, b[0].0));
        assert(forall|k: int|
            0 <= k < b.drop_first().len() ==> #[trigger] b.drop_first()[k] == b[k + 1]);
        lemma_subs_union_noop(a, b.drop_first());
    }
}

/// Re-unioning the same sub-category list a second time changes nothing.
pub proof fn lemma_subs_union_idempotent(
    a: Seq<(Seq<char>, Seq<char>)>,
    b: Seq<(Seq<char>, Seq<char>)>,
)
    ensures
        subs_union(subs_union(a, b), b) == subs_union(a, b),
{
    assert forall|k: int| 0 <= k < b.len() implies has_local(subs_union(a, b), #[trigger] b[k].0) by {
        lemma_subs_union_covers(a, b, k);
    }
    lemma_subs_union_noop(subs_union(a, b), b);
}

/// The result of merging a later definition into an earlier one with the
/// same name: the earlier definition's set attributes win, the later one
/// fills gaps, sub-category lists are unioned.  Mismatched names leave
/// the entry untouched (an internal inconsistency, reported by the
/// caller).
pub open spec fn merge_cat(a: CategoryView, b: CategoryView) -> CategoryView {
    if a.id == b.id && a.full_id == b.full_id {
        CategoryView { attrs: merged(a.attrs, b.attrs), subs: subs_union(a.subs, b.subs), ..a }
    } else {
        a
    }
}

/// Merge idempotence: merging the same definition a second (or third)
/// time changes nothing beyond the first merge.
pub proof fn lemma_merge_cat_idempotent(a: CategoryView, b: CategoryView)
    ensures
        merge_cat(merge_cat(a, b), b) == merge_cat(a, b),
{
    if a.id == b.id && a.full_id == b.full_id {
        crate::attributes::lemma_merged_idempotent(a.attrs, b.attrs);
        lemma_subs_union_idempotent(a.subs, b.subs);
    }
}

impl Category {
    /// Merge a later definition of the same fully-qualified name into
    /// this one.
    pub fn merge(&mut self, other: Category)
        ensures
            final(self)@ == merge_cat(old(self)@, other@),
    {
        if !(text::str_is(self.id.as_str(), other.id.as_str()) && text::str_is(
            self.full_id.as_str(),
            other.full_id.as_str(),
        )) {
            // inconsistent internal state: refuse the merge, keep the entry
            return ;
        }
        self.marker_attributes.merge(&other.marker_attributes);
        let n = other.sub_categories.len();
        let mut k: usize = 0;
        while k < n
            invariant
                k <= n,
                n == other@.subs.len(),
                self@.subs == subs_union_partial(old(self)@.subs, other@.subs, k as int),
                self@ == (CategoryView {
                    attrs: merged(old(self)@.attrs, other@.attrs),
                    subs: self@.subs,
                    ..old(self)@
                }),
            decreases n - k,
        {
            let (local, full) = (
                other.sub_categories[k].0.clone(),
                other.sub_categories[k].1.clone(),
            );
            let present = has_local_exec(&self.sub_categories, local.as_str());
            if !present {
                self.sub_categories.push((local, full));
            }
            proof {
                lemma_subs_union_partial_step(old(self)@.subs, other@.subs, k as int);
            }
            k = k + 1;
        }
        proof {
            lemma_subs_union_partial_all(old(self)@.subs, other@.subs);
        }
    }
}

/// Linear search for a local name in a sub-category list.
pub(crate) fn has_local_exec(subs: &Vec<(String, String)>, local: &str) -> (r: bool)
    ensures
        r == has_local(subs_view(subs@), local@),
{
    for t in 0..subs.len()
        invariant
            forall|i: int| 0 <= i < t ==> subs_view(subs@)[i].0 != local@,
    {
        if text::str_is(subs[t].0.as_str(), local) {
            assert(subs_view(subs@)[t as int].0 == local@);
            return true;
        }
    }
    false
}

/// The union after only the first `k` entries of `b` were considered.
pub open spec fn subs_union_partial(
    a: Seq<(Seq<char>, Seq<char>)>,
    b: Seq<(Seq<char>, Seq<char>)>,
    k: int,
) -> Seq<(Seq<char>, Seq<char>)> {
    subs_union(a, b.take(k))
}

proof fn lemma_subs_union_append(
    a: Seq<(Seq<char>, Seq<char>)>,
    b: Seq<(Seq<char>, Seq<char>)>,
    e: (Seq<char>, Seq<char>),
)
    ensures
        subs_union(a, b.push(e)) == (if has_local(subs_union(a, b), e.0) {
            subs_union(a, b)
        } else {
            subs_union(a, b).push(e)
        }),
    decreases b.len(),
{
    if b.len() == 0 {
        let bb = b.push(e);
        assert(bb.drop_first() =~= Seq::<(Seq<char>, Seq<char>)>::empty());
        assert(bb.first() == e);
        assert(subs_union(a, b) == a);
        let a2 = if has_local(a, e.0) {
            a
        } else {
            a.push(e)
        };
        assert(subs_union(a, bb) == subs_union(a2, bb.drop_first()));
        assert(subs_union(a2, bb.drop_first()) == a2);
    } else {
        let a2 = if has_local(a, b.first().0) {
            a
        } else {
            a.push(b.first())
        };
        assert(b.push(e).first() == b.first());
        assert(b.push(e).drop_first() =~= b.drop_first().push(e));
        lemma_subs_union_append(a2, b.drop_first(), e);
    }
}

proof fn lemma_subs_union_partial_step(
    a: Seq<(Seq<char>, Seq<char>)>,
    b: Seq<(Seq<char>, Seq<char>)>,
    k: int,
)
    requires
        0 <= k < b.len(),
    ensures
        subs_union_partial(a, b, k + 1) == (if has_local(subs_union_partial(a, b, k), b[k].0) {
            subs_union_partial(a, b, k)
        } else {
            subs_union_partial(a, b, k).push(b[k])
        }),
{
    assert(b.take(k + 1) =~= b.take(k).push(b[k]));
    lemma_subs_union_append(a, b.take(k), b[k]);
}

proof fn lemma_subs_union_partial_all(a: Seq<(Seq<char>, Seq<char>)>, b: Seq<(Seq<char>, Seq<char>)>)
    ensures
        subs_union_partial(a, b, b.len() as int) == subs_union(a, b),
{
    assert(b.take(b.len() as int) =~= b);
}

/// Resolved attributes of entry `i` after root-to-leaf inheritance,
/// fuelled like the effective bit: own fields win, unset fields are
/// filled along the ancestor chain.
pub open spec fn res_rec(cats: Seq<CategoryView>, i: int, d: nat) -> AttrsView
    decreases d,
{
    match cats[i].parent_id {
        Some(p) => if has_key(cats, p) && p.len() < d {
            merged(cats[i].attrs, res_rec(cats, idx_of(cats, p), p.len() as nat))
        } else {
            cats[i].attrs
        },
        None => cats[i].attrs,
    }
}

/// The attribute bundle entry `i` resolves to: each unset field takes
/// the nearest ancestor's set value, or stays unset.
pub open spec fn resolved_attrs(cats: Seq<CategoryView>, i: int) -> AttrsView {
    res_rec(cats, i, cats[i].full_id.len())
}

/// On a well-formed table the resolution unfolds exactly one level:
/// own bundle, gaps filled from the parent's resolved bundle.
pub proof fn lemma_resolved_unfold(cats: Seq<CategoryView>, i: int)
    requires
        table_wf(cats),
        0 <= i < cats.len(),
    ensures
        resolved_attrs(cats, i) == (match cats[i].parent_id {
            Some(p) => merged(cats[i].attrs, resolved_attrs(cats, idx_of(cats, p))),
            None => cats[i].attrs,
        }),
{
    match cats[i].parent_id {
        Some(p) => {
            let j = idx_of(cats, p);
            assert(0 <= j < cats.len() && cats[j].full_id == p);
        },
        None => {},
    }
}

/// Inheritance correctness, field by field: an unset field of entry `i`
/// resolves to whatever the parent resolves that field to, and a set
/// field is never overwritten.  Roots resolve to their own bundle.
pub proof fn lemma_inheritance_correct(cats: Seq<CategoryView>, i: int)
    requires
        table_wf(cats),
        0 <= i < cats.len(),
    ensures
        cats[i].parent_id is None ==> resolved_attrs(cats, i) == cats[i].attrs,
        cats[i].parent_id matches Some(p) ==> {
            let pr = resolved_attrs(cats, idx_of(cats, p));
            let r = resolved_attrs(cats, i);
            &&& r.icon_file == (if cats[i].attrs.icon_file is Some {
                cats[i].attrs.icon_file
            } else {
                pr.icon_file
            })
            &&& r.texture == (if cats[i].attrs.texture is Some {
                cats[i].attrs.texture
            } else {
                pr.texture
            })
            &&& r.icon_size == (if cats[i].attrs.icon_size is Some {
                cats[i].attrs.icon_size
            } else {
                pr.icon_size
            })
            &&& r.alpha == (if cats[i].attrs.alpha is Some {
                cats[i].attrs.alpha
            } else {
                pr.alpha
            })
            &&& r.height_offset == (if cats[i].attrs.height_offset is Some {
                cats[i].attrs.height_offset
            } else {
                pr.height_offset
            })
            &&& r.tint == (if cats[i].attrs.tint is Some {
                cats[i].attrs.tint
            } else {
                pr.tint
            })
            &&& r.copy_value == (if cats[i].attrs.copy_value is Some {
                cats[i].attrs.copy_value
            } else {
                pr.copy_value
            })
        },
{
    lemma_resolved_unfold(cats, i);
}

impl MarkerAttributes {
    /// A field-by-field copy whose view equals this bundle's.
    pub fn duplicate(&self) -> (r: MarkerAttributes)
        ensures
            r@ == self@,
    {
        MarkerAttributes {
            icon_file: match &self.icon_file {
                Some(s) => Some(s.clone()),
                None => None,
            },
            texture: match &self.texture {
                Some(s) => Some(s.clone()),
                None => None,
            },
            icon_size: self.icon_size,
            alpha: self.alpha,
            height_offset: self.height_offset,
            tint: self.tint,
            copy_value: match &self.copy_value {
                Some(s) => Some(s.clone()),
                None => None,
            },
        }
    }
}

/// Compute the resolved bundle of one entry by climbing its parent
/// chain.
pub fn resolved_of(cats: &Vec<Category>, i: usize) -> (r: MarkerAttributes)
    requires
        table_wf(cat_views(cats@)),
        i < cats@.len(),
    ensures
        r@ == resolved_attrs(cat_views(cats@), i as int),
    decreases cats@[i as int]@.full_id.len(),
{
    let ghost cv = cat_views(cats@);
    proof {
        lemma_resolved_unfold(cv, i as int);
    }
    match &cats[i].parent_id {
        None => cats[i].marker_attributes.duplicate(),
        Some(p) => {
            match get_index_of(cats, p.as_str()) {
                Some(j) => {
                    proof {
                        assert(has_key(cv, p@));
                        let k = idx_of(cv, p@);
                        assert(0 <= k < cv.len() && cv[k].full_id == p@);
                        assert(k == j as int);
                        assert(p@.len() < cv[i as int].full_id.len());
                    }
                    let parent_res = resolved_of(cats, j);
                    let mut a = cats[i].marker_attributes.duplicate();
                    a.merge(&parent_res);
                    a
                },
                None => {
                    proof {
                        assert(has_key(cv, p@));
                        assert(false);
                    }
                    cats[i].marker_attributes.duplicate()
                },
            }
        },
    }
}

/// The two-pass inheritance walk over the whole table: afterwards every
/// entry carries its resolved bundle; nothing else about any entry
/// changes.  Run exactly once, after all definition files of a pack
/// have been parsed and merged.
pub fn merge_category_attributes(cats: &mut Vec<Category>)
    requires
        table_wf(cat_views(old(cats)@)),
    ensures
        final(cats)@.len() == old(cats)@.len(),
        forall|i: int|
            0 <= i < old(cats)@.len() ==> cat_views(final(cats)@)[i] == (CategoryView {
                attrs: resolved_attrs(cat_views(old(cats)@), i),
                ..cat_views(old(cats)@)[i]
            }),
{
    let ghost cv0 = cat_views(old(cats)@);
    let n = cats.len();
    let mut resolved: Vec<MarkerAttributes> = Vec::new();
    for i in 0..n
        invariant
            n == cats@.len(),
            cats@ == old(cats)@,
            table_wf(cat_views(cats@)),
            resolved@.len() == i,
            forall|j: int|
                0 <= j < i ==> resolved@[j]@ == resolved_attrs(cat_views(cats@), j),
    {
        let r = resolved_of(cats, i);
        resolved.push(r);
    }
    let mut k: usize = n;
    while k > 0
        invariant
            cv0 == cat_views(old(cats)@),
            n == old(cats)@.len(),
            cats@.len() == n,
            resolved@.len() == n,
            forall|j: int| 0 <= j < n ==> resolved@[j]@ == resolved_attrs(cv0, j),
            forall|j: int| 0 <= j < k ==> cats@[j] == old(cats)@[j],
            forall|j: int|
                k <= j < n ==> cats@[j]@ == (CategoryView {
                    attrs: resolved_attrs(cv0, j),
                    ..cv0[j]
                }),
            k <= n,
        decreases k,
    {
        k = k - 1;
        let a = resolved[k].duplicate();
        assert(cv0[k as int] == old(cats)@[k as int]@);
        cats[k].marker_attributes = a;
        assert(cats@[k as int]@ =~= (CategoryView {
            attrs: resolved_attrs(cv0, k as int),
            ..cv0[k as int]
        }));
    }
    assert forall|i: int| 0 <= i < n implies cat_views(cats@)[i] == (CategoryView {
        attrs: resolved_attrs(cv0, i),
        ..cv0[i]
    }) by {
        assert(cat_views(cats@)[i] == cats@[i]@);
    }
}

} // verus!
