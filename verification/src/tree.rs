//! The junk tree: categories of candidate items, the cursor over their
//! flattened view, and the set of paths the user has marked for deletion.

use vstd::prelude::*;

use crate::pathutil::chars_eq;

verus! {

/// The five sources of reclaimable space.
#[derive(Clone, Copy, PartialEq, Eq, Structural, Debug)]
pub enum JunkCategory {
    SystemJunk,
    BrowserBloat,
    UserHoarding,
    PackageManagers,
    LargeFiles,
}

/// The display name of each category.
pub open spec fn spec_category_name(c: JunkCategory) -> Seq<char> {
    match c {
        JunkCategory::SystemJunk => "System Junk"@,
        JunkCategory::BrowserBloat => "Browser Bloat"@,
        JunkCategory::UserHoarding => "User Hoarding"@,
        JunkCategory::PackageManagers => "Package Managers"@,
        JunkCategory::LargeFiles => "Large Files (500MB+)"@,
    }
}

/// The icon glyph of each category.
pub open spec fn spec_category_icon(c: JunkCategory) -> Seq<char> {
    match c {
        JunkCategory::SystemJunk => "🗑️"@,
        JunkCategory::BrowserBloat => "🌐"@,
        JunkCategory::UserHoarding => "📥"@,
        JunkCategory::PackageManagers => "📦"@,
        JunkCategory::LargeFiles => "💾"@,
    }
}

impl JunkCategory {
    /// The display name of this category.
    pub fn name(&self) -> (r: &'static str)
        ensures
            r@ == spec_category_name(*self),
    {
        match self {
            JunkCategory::SystemJunk => "System Junk",
            JunkCategory::BrowserBloat => "Browser Bloat",
            JunkCategory::UserHoarding => "User Hoarding",
            JunkCategory::PackageManagers => "Package Managers",
            JunkCategory::LargeFiles => "Large Files (500MB+)",
        }
    }

    /// The icon glyph of this category.
    pub fn icon(&self) -> (r: &'static str)
        ensures
            r@ == spec_category_icon(*self),
    {
        match self {
            JunkCategory::SystemJunk => "🗑️",
            JunkCategory::BrowserBloat => "🌐",
            JunkCategory::UserHoarding => "📥",
            JunkCategory::PackageManagers => "📦",
            JunkCategory::LargeFiles => "💾",
        }
    }
}

/// One candidate for deletion: an absolute path, its size in bytes, and a
/// short type label. Created only by a scanner, immutable afterwards.
pub struct JunkItem {
    pub path: Vec<char>,
    pub size: u64,
    pub junk_type: Vec<char>,
}

impl Clone for JunkItem {
    fn clone(&self) -> (r: Self)
        ensures
            r.path@ == self.path@,
            r.size == self.size,
            r.junk_type@ == self.junk_type@,
    {
        JunkItem { path: self.path.clone(), size: self.size, junk_type: self.junk_type.clone() }
    }
}

/// The sum of the sizes of a run of items.
pub open spec fn sum_sizes(s: Seq<JunkItem>) -> int
    decreases s.len(),
{
    if s.len() == 0 {
        0
    } else {
        sum_sizes(s.drop_last()) + s.last().size
    }
}

/// Sizes are non-negative, so no run of items weighs less than nothing.
pub proof fn lemma_sum_sizes_nonneg(s: Seq<JunkItem>)
    ensures
        sum_sizes(s) >= 0,
    decreases s.len(),
{
    if s.len() > 0 {
        lemma_sum_sizes_nonneg(s.drop_last());
    }
}

/// A prefix of a run of items never weighs more than the whole run.
pub proof fn lemma_sum_sizes_prefix(s: Seq<JunkItem>, n: int)
    requires
        0 <= n <= s.len(),
    ensures
        sum_sizes(s.subrange(0, n)) <= sum_sizes(s),
    decreases s.len() - n,
{
    if n == s.len() {
        assert(s.subrange(0, n) =~= s);
    } else {
        lemma_sum_sizes_prefix(s, n + 1);
        assert(s.subrange(0, n + 1).drop_last() =~= s.subrange(0, n));
        assert(sum_sizes(s.subrange(0, n)) <= sum_sizes(s.subrange(0, n + 1)));
    }
}

/// One category of the tree: its ordered items, the running total of
/// their sizes, and whether the user has it expanded.
pub struct CategoryNode {
    pub category: JunkCategory,
    pub items: Vec<JunkItem>,
    pub total_size: u64,
    pub expanded: bool,
}

impl CategoryNode {
    /// The node's invariant: the running total is exactly the sum of the
    /// item sizes, never left stale.
    pub open spec fn wf(self) -> bool {
        self.total_size == sum_sizes(self.items@)
    }

    /// An empty, collapsed node for `category`.
    pub fn new(category: JunkCategory) -> (r: Self)
        ensures
            r.category == category,
            r.items@ =~= Seq::<JunkItem>::empty(),
            r.total_size == 0,
            r.expanded == false,
            r.wf(),
    {
        CategoryNode { category, items: Vec::new(), total_size: 0, expanded: false }
    }

    /// Appends one item and grows the running total with it.
    pub fn add_item(&mut self, item: JunkItem)
        requires
            old(self).wf(),
            old(self).total_size + item.size <= u64::MAX,
        ensures
            final(self).category == old(self).category,
            final(self).expanded == old(self).expanded,
            final(self).items@ == old(self).items@.push(item),
            final(self).total_size == old(self).total_size + item.size,
            final(self).wf(),
    {
        proof {
            assert(self.items@.push(item).drop_last() =~= self.items@);
        }
        self.total_size = self.total_size + item.size;
        self.items.push(item);
    }
}

/// The cursor into the flattened tree view: on a category header, or on
/// one item of one category.
#[derive(Clone, Copy, PartialEq, Eq, Structural, Debug)]
pub enum TreePosition {
    Category(usize),
    Item(usize, usize),
}

/// The views of a run of stored paths.
pub open spec fn path_views(s: Seq<Vec<char>>) -> Seq<Seq<char>> {
    s.map_values(|p: Vec<char>| p@)
}

/// The set of paths a run of items holds.
pub open spec fn item_paths(items: Seq<JunkItem>) -> Set<Seq<char>> {
    Set::new(|q: Seq<char>| exists|j: int| 0 <= j < items.len() && items[j].path@ == q)
}

/// The paths of the first `k` items of a run.
pub open spec fn item_paths_prefix(items: Seq<JunkItem>, k: int) -> Set<Seq<char>> {
    Set::new(|q: Seq<char>| exists|j: int| 0 <= j < k && j < items.len() && items[j].path@ == q)
}

/// The bytes a run of items would reclaim, counting only items whose
/// path is in `sel`.
pub open spec fn sum_selected(items: Seq<JunkItem>, sel: Set<Seq<char>>) -> int
    decreases items.len(),
{
    if items.len() == 0 {
        0
    } else {
        sum_selected(items.drop_last(), sel) + if sel.contains(items.last().path@) {
            items.last().size as int
        } else {
            0
        }
    }
}

/// Selected items never weigh more than all items.
pub proof fn lemma_sum_selected_le(items: Seq<JunkItem>, sel: Set<Seq<char>>)
    ensures
        sum_selected(items, sel) <= sum_sizes(items),
    decreases items.len(),
{
    if items.len() > 0 {
        lemma_sum_selected_le(items.drop_last(), sel);
    }
}

/// Selected items never weigh less than nothing.
pub proof fn lemma_sum_selected_nonneg(items: Seq<JunkItem>, sel: Set<Seq<char>>)
    ensures
        sum_selected(items, sel) >= 0,
    decreases items.len(),
{
    if items.len() > 0 {
        lemma_sum_selected_nonneg(items.drop_last(), sel);
    }
}

/// The selected bytes across a run of categories.
pub open spec fn sum_selected_cats(cats: Seq<CategoryNode>, sel: Set<Seq<char>>) -> int
    decreases cats.len(),
{
    if cats.len() == 0 {
        0
    } else {
        sum_selected_cats(cats.drop_last(), sel) + sum_selected(cats.last().items@, sel)
    }
}

/// Selected bytes across categories never fall below zero.
pub proof fn lemma_sum_selected_cats_nonneg(cats: Seq<CategoryNode>, sel: Set<Seq<char>>)
    ensures
        sum_selected_cats(cats, sel) >= 0,
    decreases cats.len(),
{
    if cats.len() > 0 {
        lemma_sum_selected_cats_nonneg(cats.drop_last(), sel);
        lemma_sum_selected_nonneg(cats.last().items@, sel);
    }
}

/// The sum of the running totals of a run of categories.
pub open spec fn sum_totals(cats: Seq<CategoryNode>) -> int
    decreases cats.len(),
{
    if cats.len() == 0 {
        0
    } else {
        sum_totals(cats.drop_last()) + cats.last().total_size
    }
}

/// Running totals never fall below zero.
pub proof fn lemma_sum_totals_nonneg(cats: Seq<CategoryNode>)
    ensures
        sum_totals(cats) >= 0,
    decreases cats.len(),
{
    if cats.len() > 0 {
        lemma_sum_totals_nonneg(cats.drop_last());
    }
}

/// The items of a run that survive a deletion pass: those whose path was
/// not deleted. Protected or failed paths are not in `dead`, so they stay.
pub open spec fn pruned_items(items: Seq<JunkItem>, dead: Set<Seq<char>>) -> Seq<JunkItem> {
    items.filter(|it: JunkItem| !dead.contains(it.path@))
}

/// Pruning never increases the weight of a run of items.
pub proof fn lemma_pruned_sum(items: Seq<JunkItem>, dead: Set<Seq<char>>)
    ensures
        0 <= sum_sizes(pruned_items(items, dead)) <= sum_sizes(items),
    decreases items.len(),
{
    broadcast use vstd::prelude::Seq::lemma_filter_push;
    broadcast use vstd::prelude::Seq::lemma_filter_len;

    if items.len() == 0 {
        assert(pruned_items(items, dead) =~= Seq::<JunkItem>::empty());
    } else {
        let dl = items.drop_last();
        lemma_pruned_sum(dl, dead);
        lemma_sum_sizes_nonneg(dl);
        assert(items =~= dl.push(items.last()));
        let pred = |it: JunkItem| !dead.contains(it.path@);
        assert(dl.push(items.last()).filter(pred) == if pred(items.last()) {
            dl.filter(pred).push(items.last())
        } else {
            dl.filter(pred)
        });
        if pred(items.last()) {
            assert(dl.filter(pred).push(items.last()).drop_last() =~= dl.filter(pred));
        }
    }
}

/// What one category looks like to a reader: its kind, its items, and
/// its expansion flag (the running total is a function of the items).
pub open spec fn cat_model(c: CategoryNode) -> (JunkCategory, Seq<JunkItem>, bool) {
    (c.category, c.items@, c.expanded)
}

/// The models of a run of categories.
pub open spec fn cat_models(cats: Seq<CategoryNode>) -> Seq<(JunkCategory, Seq<JunkItem>, bool)> {
    cats.map_values(|c: CategoryNode| cat_model(c))
}

/// What a run of categories looks like after a deletion pass: each
/// category keeps its surviving items, and categories left empty are
/// dropped.
pub open spec fn pruned_models(cats: Seq<CategoryNode>, dead: Set<Seq<char>>) -> Seq<
    (JunkCategory, Seq<JunkItem>, bool),
> {
    cats.map_values(|c: CategoryNode| (c.category, pruned_items(c.items@, dead), c.expanded))
        .filter(|m: (JunkCategory, Seq<JunkItem>, bool)| m.1.len() > 0)
}

/// The bytes a deletion pass frees: what the pruned items weighed.
pub open spec fn spec_freed(cats: Seq<CategoryNode>, dead: Set<Seq<char>>) -> int
    decreases cats.len(),
{
    if cats.len() == 0 {
        0
    } else {
        spec_freed(cats.drop_last(), dead) + sum_sizes(cats.last().items@) - sum_sizes(
            pruned_items(cats.last().items@, dead),
        )
    }
}

/// A deletion pass never frees a negative number of bytes.
pub proof fn lemma_spec_freed_nonneg(cats: Seq<CategoryNode>, dead: Set<Seq<char>>)
    ensures
        spec_freed(cats, dead) >= 0,
    decreases cats.len(),
{
    if cats.len() > 0 {
        lemma_spec_freed_nonneg(cats.drop_last(), dead);
        lemma_pruned_sum(cats.last().items@, dead);
    }
}

/// Membership of one path among stored paths.
fn paths_contains(v: &Vec<Vec<char>>, p: &Vec<char>) -> (r: bool)
    ensures
        r == path_views(v@).to_set().contains(p@),
{
    let mut i: usize = 0;
    while i < v.len()
        invariant
            i <= v@.len(),
            forall|k: int| 0 <= k < i ==> v@[k]@ != p@,
        decreases v@.len() - i,
    {
        if chars_eq(&v[i], p) {
            assert(path_views(v@)[i as int] == p@);
            assert(path_views(v@).contains(p@));
            return true;
        }
        i += 1;
    }
    assert(!path_views(v@).contains(p@));
    false
}

/// Uniqueness of stored paths, by view.
pub open spec fn paths_unique(s: Seq<Vec<char>>) -> bool {
    forall|i: int, j: int| 0 <= i < j < s.len() ==> s[i]@ != s[j]@
}

fn remove_path(v: &mut Vec<Vec<char>>, p: &Vec<char>)
    requires
        paths_unique(old(v)@),
    ensures
        path_views(final(v)@).to_set() == path_views(old(v)@).to_set().remove(p@),
        paths_unique(final(v)@),
{
    broadcast use vstd::prelude::Seq::lemma_push_to_set_commute;

    let mut out: Vec<Vec<char>> = Vec::new();
    let mut i: usize = 0;
    while i < v.len()
        invariant
            i <= v@.len(),
            paths_unique(v@),
            paths_unique(out@),
            forall|a: int|
                0 <= a < out@.len() ==> exists|b: int|
                    0 <= b < i && (#[trigger] out@[a])@ == v@[b]@,
            path_views(out@).to_set() == path_views(v@.subrange(0, i as int)).to_set().remove(p@),
        decreases v@.len() - i,
    {
        let ghost pre = out@;
        if !chars_eq(&v[i], p) {
            out.push(v[i].clone());
            proof {
                assert(path_views(out@) =~= path_views(pre).push(v@[i as int]@));
            }
        }
        proof {
            assert(path_views(v@.subrange(0, i + 1)) =~= path_views(v@.subrange(0, i as int)).push(
                v@[i as int]@,
            ));
            assert(path_views(out@).to_set() =~= path_views(v@.subrange(0, i + 1)).to_set().remove(
                p@,
            ));
        }
        i += 1;
    }
    proof {
        assert(v@.subrange(0, v@.len() as int) =~= v@);
    }
    *v = out;
}

fn insert_path(v: &mut Vec<Vec<char>>, p: &Vec<char>)
    requires
        paths_unique(old(v)@),
    ensures
        path_views(final(v)@).to_set() == path_views(old(v)@).to_set().insert(p@),
        paths_unique(final(v)@),
{
    broadcast use vstd::prelude::Seq::lemma_push_to_set_commute;

    if !paths_contains(v, p) {
        let ghost pre = v@;
        proof {
            assert forall|k: int| 0 <= k < pre.len() implies pre[k]@ != p@ by {
                if pre[k]@ == p@ {
                    assert(path_views(pre)[k] == p@);
                    assert(path_views(pre).contains(p@));
                }
            }
        }
        v.push(p.clone());
        proof {
            assert(v@[pre.len() as int]@ == p@);
            assert(path_views(v@) =~= path_views(pre).push(p@));
        }
    } else {
        proof {
            assert(path_views(v@).to_set() =~= path_views(v@).to_set().insert(p@));
        }
    }
}

/// The tree the user navigates: ordered categories, the cursor, and the
/// set of paths marked for deletion. The flattened display index and the
/// selected total are derived values, recomputed from this state and
/// never stored.
pub struct JunkTree {
    pub categories: Vec<CategoryNode>,
    pub position: TreePosition,
    pub selected: Vec<Vec<char>>,
}

impl JunkTree {
    /// The set of paths marked for deletion.
    pub open spec fn selected_set(self) -> Set<Seq<char>> {
        path_views(self.selected@).to_set()
    }

    /// The cursor is valid: a category index in range (or zero while the
    /// tree is empty), or an item of an expanded category.
    pub open spec fn pos_wf(self) -> bool {
        match self.position {
            TreePosition::Category(c) => if self.categories@.len() == 0 {
                c == 0
            } else {
                c < self.categories@.len()
            },
            TreePosition::Item(c, i) => c < self.categories@.len()
                && self.categories@[c as int].expanded && i < self.categories@[c as int].items@.len(),
        }
    }

    /// Every category keeps its running total consistent.
    pub open spec fn cats_wf(self) -> bool {
        forall|k: int| 0 <= k < self.categories@.len() ==> (#[trigger] self.categories@[k]).wf()
    }

    /// No path is marked twice.
    pub open spec fn selected_unique(self) -> bool {
        forall|i: int, j: int|
            0 <= i < j < self.selected@.len() ==> self.selected@[i]@ != self.selected@[j]@
    }

    /// The tree's invariant.
    pub open spec fn wf(self) -> bool {
        self.pos_wf() && self.cats_wf() && self.selected_unique()
    }

    /// An empty tree: no categories, cursor on the first (future)
    /// category header, nothing selected.
    pub fn new() -> (r: Self)
        ensures
            r.categories@ =~= Seq::<CategoryNode>::empty(),
            r.position == TreePosition::Category(0usize),
            r.selected_set() =~= Set::<Seq<char>>::empty(),
            r.wf(),
    {
        JunkTree { categories: Vec::new(), position: TreePosition::Category(0), selected: Vec::new() }
    }

    /// Accepts one finished category from a scanner; a category with no
    /// items is dropped rather than shown empty.
    pub fn push_category(&mut self, cat: CategoryNode) -> (accepted: bool)
        requires
            old(self).wf(),
            cat.wf(),
        ensures
            accepted == (cat.items@.len() > 0),
            final(self).categories@ == if cat.items@.len() > 0 {
                old(self).categories@.push(cat)
            } else {
                old(self).categories@
            },
            final(self).position == old(self).position,
            final(self).selected@ == old(self).selected@,
            final(self).wf(),
    {
        if cat.items.len() > 0 {
            self.categories.push(cat);
            true
        } else {
            false
        }
    }

    /// Where the cursor would sit in the flattened view: one row per
    /// category header, then the items of each expanded category.
    pub open spec fn flat_prefix(cats: Seq<CategoryNode>, c: int) -> int
        decreases c,
    {
        if c <= 0 {
            0
        } else {
            Self::flat_prefix(cats, c - 1) + 1 + if cats[c - 1].expanded {
                cats[c - 1].items@.len() as int
            } else {
                0
            }
        }
    }

    /// The flattened index of the cursor, a pure function of the
    /// structural state.
    pub open spec fn spec_flat_index(self) -> int {
        match self.position {
            TreePosition::Category(c) => Self::flat_prefix(self.categories@, c as int),
            TreePosition::Item(c, i) => Self::flat_prefix(self.categories@, c as int) + 1 + i,
        }
    }

    /// Recomputes the flattened index of the cursor (saturating at
    /// `usize::MAX`, which no displayable tree reaches).
    pub fn get_flat_index(&self) -> (r: usize)
        requires
            self.wf(),
        ensures
            r == if self.spec_flat_index() > usize::MAX {
                usize::MAX as int
            } else {
                self.spec_flat_index()
            },
    {
        let (c, extra) = match self.position {
            TreePosition::Category(c) => (c, 0usize),
            TreePosition::Item(c, i) => {
                let n = self.categories[c].items.len();
                assert(i < n);
                (c, i + 1)
            },
        };
        let mut idx: usize = 0;
        let mut k: usize = 0;
        while k < c
            invariant
                k <= c,
                c <= self.categories@.len(),
                idx == if Self::flat_prefix(self.categories@, k as int) > usize::MAX {
                    usize::MAX as int
                } else {
                    Self::flat_prefix(self.categories@, k as int)
                },
            decreases c - k,
        {
            let cat = &self.categories[k];
            let step: usize = if cat.expanded {
                cat.items.len()
            } else {
                0
            };
            idx = idx.saturating_add(1).saturating_add(step);
            k += 1;
        }
        idx.saturating_add(extra)
    }

    /// Where the cursor moves on one step up: to the previous item of the
    /// same category, from an item to its header, or from a header to the
    /// last visible row of the previous category.
    pub open spec fn spec_move_up(self) -> TreePosition {
        match self.position {
            TreePosition::Category(c) => if c > 0 {
                let prev = self.categories@[c - 1];
                if prev.expanded && prev.items@.len() > 0 {
                    TreePosition::Item((c - 1) as usize, (prev.items@.len() - 1) as usize)
                } else {
                    TreePosition::Category((c - 1) as usize)
                }
            } else {
                self.position
            },
            TreePosition::Item(c, i) => if i > 0 {
                TreePosition::Item(c, (i - 1) as usize)
            } else {
                TreePosition::Category(c)
            },
        }
    }

    /// Moves the cursor one visible row up.
    pub fn move_up(&mut self)
        requires
            old(self).wf(),
        ensures
            final(self).position == old(self).spec_move_up(),
            final(self).categories@ == old(self).categories@,
            final(self).selected@ == old(self).selected@,
            final(self).wf(),
    {
        match self.position {
            TreePosition::Category(c) => {
                if c > 0 {
                    let prev = &self.categories[c - 1];
                    if prev.expanded && prev.items.len() > 0 {
                        self.position = TreePosition::Item(c - 1, prev.items.len() - 1);
                    } else {
                        self.position = TreePosition::Category(c - 1);
                    }
                }
            },
            TreePosition::Item(c, i) => {
                if i > 0 {
                    self.position = TreePosition::Item(c, i - 1);
                } else {
                    self.position = TreePosition::Category(c);
                }
            },
        }
    }

    /// Where the cursor moves on one step down: into the first item of an
    /// expanded category, to the next item, or to the next header.
    pub open spec fn spec_move_down(self) -> TreePosition {
        let n = self.categories@.len() as int;
        match self.position {
            TreePosition::Category(c) => if (c as int) < n {
                let cat = self.categories@[c as int];
                if cat.expanded && cat.items@.len() > 0 {
                    TreePosition::Item(c, 0usize)
                } else if c + 1 < n {
                    TreePosition::Category((c + 1) as usize)
                } else {
                    self.position
                }
            } else {
                self.position
            },
            TreePosition::Item(c, i) => if i + 1 < self.categories@[c as int].items@.len() {
                TreePosition::Item(c, (i + 1) as usize)
            } else if c + 1 < n {
                TreePosition::Category((c + 1) as usize)
            } else {
                self.position
            },
        }
    }

    /// Moves the cursor one visible row down.
    pub fn move_down(&mut self)
        requires
            old(self).wf(),
        ensures
            final(self).position == old(self).spec_move_down(),
            final(self).categories@ == old(self).categories@,
            final(self).selected@ == old(self).selected@,
            final(self).wf(),
    {
        match self.position {
            TreePosition::Category(c) => {
                if c < self.categories.len() {
                    let cat = &self.categories[c];
                    if cat.expanded && cat.items.len() > 0 {
                        self.position = TreePosition::Item(c, 0);
                    } else if c + 1 < self.categories.len() {
                        self.position = TreePosition::Category(c + 1);
                    }
                }
            },
            TreePosition::Item(c, i) => {
                let m = self.categories.len();
                let n = self.categories[c].items.len();
                assert(i < n && c < m);
                if i + 1 < n {
                    self.position = TreePosition::Item(c, i + 1);
                } else if c + 1 < m {
                    self.position = TreePosition::Category(c + 1);
                }
            },
        }
    }

    /// Flips the expansion flag of the category under the cursor; moving
    /// the cursor is not needed, since it sits on the header.
    pub fn toggle_expand(&mut self)
        requires
            old(self).wf(),
        ensures
            final(self).categories@ == match old(self).position {
                TreePosition::Category(c) => if (c as int) < old(self).categories@.len() {
                    old(self).categories@.update(
                        c as int,
                        CategoryNode {
                            expanded: !old(self).categories@[c as int].expanded,
                            ..old(self).categories@[c as int]
                        },
                    )
                } else {
                    old(self).categories@
                },
                TreePosition::Item(_, _) => old(self).categories@,
            },
            final(self).position == old(self).position,
            final(self).selected@ == old(self).selected@,
            final(self).wf(),
    {
        if let TreePosition::Category(c) = self.position {
            if c < self.categories.len() {
                let flipped = !self.categories[c].expanded;
                self.categories[c].expanded = flipped;
            }
        }
    }

    /// True when every item of category `c` is marked for deletion.
    pub open spec fn spec_all_selected(self, c: int) -> bool {
        forall|k: int|
            0 <= k < self.categories@[c].items@.len() ==> self.selected_set().contains(
                (#[trigger] self.categories@[c].items@[k]).path@,
            )
    }

    /// The selection set after one toggle at the cursor: a category
    /// toggles all its items atomically (everything marked when anything
    /// was missing, everything unmarked when all were marked); an item
    /// toggles itself.
    pub open spec fn toggled_selection(self) -> Set<Seq<char>> {
        match self.position {
            TreePosition::Category(c) => if (c as int) < self.categories@.len() {
                let items = self.categories@[c as int].items@;
                if self.spec_all_selected(c as int) {
                    self.selected_set().difference(item_paths(items))
                } else {
                    self.selected_set().union(item_paths(items))
                }
            } else {
                self.selected_set()
            },
            TreePosition::Item(c, i) => if (c as int) < self.categories@.len() && (i as int)
                < self.categories@[c as int].items@.len() {
                let q = self.categories@[c as int].items@[i as int].path@;
                if self.selected_set().contains(q) {
                    self.selected_set().remove(q)
                } else {
                    self.selected_set().insert(q)
                }
            } else {
                self.selected_set()
            },
        }
    }

    fn all_items_selected(&self, c: usize) -> (r: bool)
        requires
            self.wf(),
            (c as int) < self.categories@.len(),
        ensures
            r == self.spec_all_selected(c as int),
    {
        let items = &self.categories[c].items;
        let mut k: usize = 0;
        while k < items.len()
            invariant
                k <= items@.len(),
                items@ == self.categories@[c as int].items@,
                forall|j: int|
                    0 <= j < k ==> self.selected_set().contains(
                        (#[trigger] items@[j]).path@,
                    ),
            decreases items@.len() - k,
        {
            if !paths_contains(&self.selected, &items[k].path) {
                return false;
            }
            k += 1;
        }
        true
    }

    /// Toggles selection at the cursor: on a category header, all the
    /// category's items together; on an item, that item alone. The tree's
    /// structure and the cursor stay as they are.
    pub fn toggle_selection(&mut self)
        requires
            old(self).wf(),
        ensures
            final(self).selected_set() == old(self).toggled_selection(),
            final(self).categories@ == old(self).categories@,
            final(self).position == old(self).position,
            final(self).wf(),
    {
        let ghost old_set = self.selected_set();
        match self.position {
            TreePosition::Category(c) => {
                if c < self.categories.len() {
                    let all = self.all_items_selected(c);
                    let ghost items = self.categories@[c as int].items@;
                    let n = self.categories[c].items.len();
                    let mut k: usize = 0;
                    if all {
                        while k < n
                            invariant
                                k <= n,
                                n == items.len(),
                                self.categories@ == old(self).categories@,
                                self.position == old(self).position,
                                items == self.categories@[c as int].items@,
                                (c as int) < self.categories@.len(),
                                self.selected_unique(),
                                self.selected_set() == old_set.difference(
                                    item_paths_prefix(items, k as int),
                                ),
                            decreases n - k,
                        {
                            remove_path(&mut self.selected, &self.categories[c].items[k].path);
                            proof {
                                assert(old_set.difference(item_paths_prefix(items, k as int)).remove(
                                    items[k as int].path@,
                                ) =~= old_set.difference(item_paths_prefix(items, k + 1)));
                            }
                            k += 1;
                        }
                        proof {
                            assert(item_paths_prefix(items, items.len() as int) =~= item_paths(
                                items,
                            ));
                            assert(self.selected_set() =~= old(self).toggled_selection());
                        }
                    } else {
                        while k < n
                            invariant
                                k <= n,
                                n == items.len(),
                                self.categories@ == old(self).categories@,
                                self.position == old(self).position,
                                items == self.categories@[c as int].items@,
                                (c as int) < self.categories@.len(),
                                self.selected_unique(),
                                self.selected_set() == old_set.union(
                                    item_paths_prefix(items, k as int),
                                ),
                            decreases n - k,
                        {
                            insert_path(&mut self.selected, &self.categories[c].items[k].path);
                            proof {
                                assert(old_set.union(item_paths_prefix(items, k as int)).insert(
                                    items[k as int].path@,
                                ) =~= old_set.union(item_paths_prefix(items, k + 1)));
                            }
                            k += 1;
                        }
                        proof {
                            assert(item_paths_prefix(items, items.len() as int) =~= item_paths(
                                items,
                            ));
                            assert(self.selected_set() =~= old(self).toggled_selection());
                        }
                    }
                }
            },
            TreePosition::Item(c, i) => {
                if c < self.categories.len() {
                    if i < self.categories[c].items.len() {
                        if paths_contains(&self.selected, &self.categories[c].items[i].path) {
                            remove_path(&mut self.selected, &self.categories[c].items[i].path);
                        } else {
                            insert_path(&mut self.selected, &self.categories[c].items[i].path);
                        }
                    }
                }
            },
        }
    }

    /// The total number of bytes the current selection would reclaim,
    /// saturating at `u64::MAX`.
    pub fn selected_size(&self) -> (r: u64)
        requires
            self.wf(),
        ensures
            r == if sum_selected_cats(self.categories@, self.selected_set()) > u64::MAX {
                u64::MAX as int
            } else {
                sum_selected_cats(self.categories@, self.selected_set())
            },
    {
        let ghost sel = self.selected_set();
        let mut acc: u64 = 0;
        let mut ci: usize = 0;
        while ci < self.categories.len()
            invariant
                ci <= self.categories@.len(),
                self.wf(),
                sel == self.selected_set(),
                acc == if sum_selected_cats(self.categories@.subrange(0, ci as int), sel)
                    > u64::MAX {
                    u64::MAX as int
                } else {
                    sum_selected_cats(self.categories@.subrange(0, ci as int), sel)
                },
            decreases self.categories@.len() - ci,
        {
            let cat = &self.categories[ci];
            let ghost items = cat.items@;
            let mut sub: u64 = 0;
            let mut k: usize = 0;
            while k < cat.items.len()
                invariant
                    k <= items.len(),
                    items == cat.items@,
                    cat.wf(),
                    sel == self.selected_set(),
                    sub == sum_selected(items.subrange(0, k as int), sel),
                decreases items.len() - k,
            {
                proof {
                    assert(items.subrange(0, k + 1).drop_last() =~= items.subrange(0, k as int));
                    lemma_sum_selected_le(items.subrange(0, k + 1), sel);
                    lemma_sum_sizes_prefix(items, k + 1);
                }
                if paths_contains(&self.selected, &cat.items[k].path) {
                    sub = sub + cat.items[k].size;
                } else {
                    sub = sub;
                }
                k += 1;
            }
            proof {
                assert(items.subrange(0, items.len() as int) =~= items);
                lemma_sum_selected_nonneg(items, sel);
                assert(self.categories@.subrange(0, ci + 1).drop_last() =~= self.categories@
                    .subrange(0, ci as int));
                lemma_sum_selected_cats_nonneg(self.categories@.subrange(0, ci as int), sel);
            }
            acc = acc.saturating_add(sub);
            ci += 1;
        }
        proof {
            assert(self.categories@.subrange(0, self.categories@.len() as int) =~= self
                .categories@);
        }
        acc
    }

    /// The total number of bytes the whole tree holds, saturating at
    /// `u64::MAX`.
    pub fn total_size(&self) -> (r: u64)
        requires
            self.wf(),
        ensures
            r == if sum_totals(self.categories@) > u64::MAX {
                u64::MAX as int
            } else {
                sum_totals(self.categories@)
            },
    {
        let mut acc: u64 = 0;
        let mut ci: usize = 0;
        while ci < self.categories.len()
            invariant
                ci <= self.categories@.len(),
                acc == if sum_totals(self.categories@.subrange(0, ci as int)) > u64::MAX {
                    u64::MAX as int
                } else {
                    sum_totals(self.categories@.subrange(0, ci as int))
                },
            decreases self.categories@.len() - ci,
        {
            proof {
                assert(self.categories@.subrange(0, ci + 1).drop_last() =~= self.categories@
                    .subrange(0, ci as int));
                lemma_sum_totals_nonneg(self.categories@.subrange(0, ci as int));
            }
            acc = acc.saturating_add(self.categories[ci].total_size);
            ci += 1;
        }
        proof {
            assert(self.categories@.subrange(0, self.categories@.len() as int) =~= self
                .categories@);
        }
        acc
    }

    /// Reconciles the tree after a deletion pass: removes every deleted
    /// path from its category, recomputes each running total, drops
    /// now-empty categories, clears the selection and puts the cursor
    /// back on the first remaining category. Returns the number of bytes
    /// freed (saturating at `u64::MAX`). Paths that were skipped as
    /// protected or failed are not in `deleted` and stay in the tree.
    pub fn prune_deleted(&mut self, deleted: &Vec<Vec<char>>) -> (freed: u64)
        requires
            old(self).wf(),
        ensures
            cat_models(final(self).categories@) == pruned_models(
                old(self).categories@,
                path_views(deleted@).to_set(),
            ),
            final(self).selected@.len() == 0,
            final(self).position == TreePosition::Category(0usize),
            final(self).wf(),
            freed == if spec_freed(old(self).categories@, path_views(deleted@).to_set())
                > u64::MAX {
                u64::MAX as int
            } else {
                spec_freed(old(self).categories@, path_views(deleted@).to_set())
            },
    {
        broadcast use vstd::prelude::Seq::lemma_filter_push;
        broadcast use vstd::prelude::Seq::lemma_filter_len;

        let ghost dead = path_views(deleted@).to_set();
        let mut cats: Vec<CategoryNode> = Vec::new();
        core::mem::swap(&mut cats, &mut self.categories);
        let ghost orig = cats@;
        let mut out: Vec<CategoryNode> = Vec::new();
        let mut freed: u64 = 0;
        let ghost n = orig.len() as int;
        proof {
            assert(orig.subrange(0, n) =~= orig);
            assert(cat_models(out@) =~= pruned_models(orig.subrange(0, 0), dead));
        }
        while cats.len() > 0
            invariant
                cats@.len() <= n,
                cats@ == orig.subrange(n - cats@.len(), n),
                n == orig.len(),
                forall|j: int| 0 <= j < orig.len() ==> (#[trigger] orig[j]).wf(),
                cat_models(out@) == pruned_models(orig.subrange(0, n - cats@.len()), dead),
                forall|j: int|
                    0 <= j < out@.len() ==> (#[trigger] out@[j]).wf() && out@[j].items@.len() > 0,
                freed == if spec_freed(orig.subrange(0, n - cats@.len()), dead) > u64::MAX {
                    u64::MAX as int
                } else {
                    spec_freed(orig.subrange(0, n - cats@.len()), dead)
                },
            decreases cats@.len(),
        {
            let ghost ci = n - cats@.len();
            let cat = cats.remove(0);
            proof {
                assert(cat == orig[ci]);
                assert(cats@ =~= orig.subrange(ci + 1, n));
            }
            let CategoryNode { category, items: mut its, total_size: old_total, expanded } = cat;
            let ghost items = its@;
            let ghost m = items.len() as int;
            let mut newitems: Vec<JunkItem> = Vec::new();
            let mut tot: u64 = 0;
            proof {
                assert(items.subrange(0, m) =~= items);
                assert(newitems@ =~= pruned_items(items.subrange(0, 0), dead));
                lemma_sum_sizes_nonneg(items);
            }
            while its.len() > 0
                invariant
                    its@.len() <= m,
                    its@ == items.subrange(m - its@.len(), m),
                    m == items.len(),
                    sum_sizes(items) <= u64::MAX,
                    dead == path_views(deleted@).to_set(),
                    newitems@ == pruned_items(items.subrange(0, m - its@.len()), dead),
                    tot == sum_sizes(newitems@),
                decreases its@.len(),
            {
                let ghost k = m - its@.len();
                let it = its.remove(0);
                proof {
                    assert(it == items[k]);
                    assert(its@ =~= items.subrange(k + 1, m));
                    assert(items.subrange(0, k + 1) =~= items.subrange(0, k).push(items[k]));
                    lemma_pruned_sum(items.subrange(0, k + 1), dead);
                    lemma_sum_sizes_prefix(items, k + 1);
                    assert(sum_sizes(items.subrange(0, k + 1)) <= sum_sizes(items));
                }
                if !paths_contains(deleted, &it.path) {
                    let ghost pre = newitems@;
                    proof {
                        assert(pruned_items(items.subrange(0, k + 1), dead) == pre.push(it));
                        assert(pre.push(it).drop_last() =~= pre);
                        assert(sum_sizes(pre.push(it)) == tot + it.size);
                    }
                    tot = tot + it.size;
                    newitems.push(it);
                }
            }
            proof {
                assert(items.subrange(0, m) =~= items);
                assert(newitems@ == pruned_items(items, dead));
                lemma_pruned_sum(items, dead);
            }
            let kept_any = newitems.len() > 0;
            let node = CategoryNode { category, items: newitems, total_size: tot, expanded };
            let ghost pre_out = out@;
            if kept_any {
                out.push(node);
            }
            let freed_here = old_total - tot;
            proof {
                lemma_spec_freed_nonneg(orig.subrange(0, ci), dead);
                assert(orig.subrange(0, ci + 1).drop_last() =~= orig.subrange(0, ci));
                assert(spec_freed(orig.subrange(0, ci + 1), dead) == spec_freed(
                    orig.subrange(0, ci),
                    dead,
                ) + old_total - tot);
                let f = |c: CategoryNode| (c.category, pruned_items(c.items@, dead), c.expanded);
                let keep = |mm: (JunkCategory, Seq<JunkItem>, bool)| mm.1.len() > 0;
                assert(orig.subrange(0, ci + 1).map_values(f) =~= orig.subrange(0, ci).map_values(
                    f,
                ).push(f(orig[ci])));
                assert(orig.subrange(0, ci).map_values(f).push(f(orig[ci])).filter(keep)
                    == if keep(f(orig[ci])) {
                    orig.subrange(0, ci).map_values(f).filter(keep).push(f(orig[ci]))
                } else {
                    orig.subrange(0, ci).map_values(f).filter(keep)
                });
                if kept_any {
                    assert(cat_model(node) == f(orig[ci]));
                    assert(cat_models(out@) =~= cat_models(pre_out).push(cat_model(node)));
                }
                assert(cat_models(out@) =~= pruned_models(orig.subrange(0, ci + 1), dead));
            }
            freed = freed.saturating_add(freed_here);
        }
        proof {
            assert(orig.subrange(0, n) =~= orig);
        }
        self.categories = out;
        self.selected = Vec::new();
        self.position = TreePosition::Category(0);
        freed
    }

    /// The path under the cursor, when it sits on an item.
    pub fn get_current_path(&self) -> (r: Option<Vec<char>>)
        requires
            self.wf(),
        ensures
            match self.position {
                TreePosition::Item(c, i) => r is Some && r->0@ == self.categories@[c as int].items@[i as int].path@,
                TreePosition::Category(_) => r is None,
            },
    {
        match self.position {
            TreePosition::Item(c, i) => Some(self.categories[c].items[i].path.clone()),
            TreePosition::Category(_) => None,
        }
    }
}

/// Toggling selection on a category header that is not fully selected
/// marks every item of the category: the toggle always drives toward
/// "all selected" unless everything already was.
pub proof fn lemma_toggle_selects_all(t: JunkTree, c: usize)
    requires
        t.wf(),
        t.position == TreePosition::Category(c),
        (c as int) < t.categories@.len(),
        !t.spec_all_selected(c as int),
    ensures
        t.toggled_selection() == t.selected_set().union(item_paths(t.categories@[c as int].items@)),
        forall|k: int|
            0 <= k < t.categories@[c as int].items@.len() ==> t.toggled_selection().contains(
                (#[trigger] t.categories@[c as int].items@[k]).path@,
            ),
{
    let items = t.categories@[c as int].items@;
    assert forall|k: int| 0 <= k < items.len() implies t.toggled_selection().contains(
        (#[trigger] items[k]).path@,
    ) by {
        assert(item_paths(items).contains(items[k].path@));
    }
}

/// Toggling a fully selected category deselects its items, and toggling
/// it again restores the selection set exactly as it was, with every item
/// of the category selected again. `before` is the tree before the first
/// toggle; `mid` is the tree after it, with the same categories and
/// cursor.
pub proof fn lemma_toggle_twice_restores(before: JunkTree, mid: JunkTree, c: usize)
    requires
        before.wf(),
        before.position == TreePosition::Category(c),
        (c as int) < before.categories@.len(),
        before.categories@[c as int].items@.len() > 0,
        before.spec_all_selected(c as int),
        mid.categories@ == before.categories@,
        mid.position == before.position,
        mid.selected_set() == before.toggled_selection(),
    ensures
        mid.toggled_selection() == before.selected_set(),
        forall|k: int|
            0 <= k < before.categories@[c as int].items@.len() ==> mid.toggled_selection().contains(
                (#[trigger] before.categories@[c as int].items@[k]).path@,
            ),
{
    let items = before.categories@[c as int].items@;
    let cpaths = item_paths(items);
    let s = before.selected_set();
    assert(before.toggled_selection() == s.difference(cpaths));
    assert(!mid.spec_all_selected(c as int)) by {
        assert(cpaths.contains(items[0].path@));
        assert(!mid.selected_set().contains(items[0].path@));
    }
    assert(mid.toggled_selection() == s.difference(cpaths).union(cpaths));
    assert forall|q: Seq<char>| cpaths.contains(q) implies s.contains(q) by {
        let j = choose|j: int| 0 <= j < items.len() && items[j].path@ == q;
        assert(s.contains(items[j].path@));
    }
    assert(s.difference(cpaths).union(cpaths) =~= s);
    assert forall|k: int| 0 <= k < items.len() implies mid.toggled_selection().contains(
        (#[trigger] items[k]).path@,
    ) by {
        assert(cpaths.contains(items[k].path@));
        assert(s.contains(items[k].path@));
    }
}

} // verus!
