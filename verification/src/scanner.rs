//! What a cleanup could remove from a system.
use vstd::prelude::*;
use vstd::string::*;

use crate::accepted::kept_comes_from;
use crate::command::CommandRunner;
use crate::containers::{container_items, discovered, discovery_commands};
use crate::distro::{cache_paths, package_item, package_tool, Distribution, DistroFamily};
use crate::facts::{bytes_at, measured, Measured};
use crate::model::{
    adds_to, all_groups, every_group_is_listed, group_bytes, group_is_part_of_total,
    group_summaries, group_title, item_views, lemma_bytes_grow, total_bytes, ActionView,
    CleanupAction, CleanupGroup, CleanupItem, CommandView, GroupSummary, ItemView, Risk, ScanReport,
};
use crate::models::{
    do_models_fit, model_findings, models_fit, place_items, places, scan_places, CacheKind,
    CachePlace, ModelFacts,
};
use crate::order::{
    is_ordering, lemma_members_mapped, members_decide_sums, ranks_differ, sort_stable,
    sorted_stays_sorted, sorting_forgets_order, sorting_is_unique, sorting_keeps_members,
    sorting_keeps_sums, stably_sorted, sum_of, Ranked,
};
use crate::path::{join_path, joined_path};
use crate::recorder::{commands_of, continues, lemma_nothing_made, made, Recorder};
use crate::snaps::{discover_disabled_snap_revisions, snap_findings, SnapFacts};
use crate::text::{
    is_before, is_in, kept, kept_in_order, lemma_text_order, list1, text_before, texts,
};

verus! {

// ---------------------------------------------------------------------------------------
// Order
// ---------------------------------------------------------------------------------------

/// An item together with the bytes of its whole group.
pub struct RankedItem {
    pub group_total: u64,
    pub item: CleanupItem,
}

impl Ranked for RankedItem {
    /// The item of the larger group first, groups of one size by title; within a group the
    /// larger item first, items of one size by id.
    open spec fn ranks_before(self, other: Self) -> bool {
        let title = group_title(self.item.group);
        let other_title = group_title(other.item.group);
        if self.group_total != other.group_total {
            self.group_total > other.group_total
        } else if title != other_title {
            text_before(title, other_title)
        } else if self.item.estimated_bytes != other.item.estimated_bytes {
            self.item.estimated_bytes > other.item.estimated_bytes
        } else {
            text_before(self.item.id@, other.item.id@)
        }
    }

    fn is_before(&self, other: &Self) -> (r: bool) {
        let title = self.item.group.title();
        let other_title = other.item.group.title();
        proof {
            lemma_text_order(title@, other_title@, title@);
        }
        if self.group_total != other.group_total {
            self.group_total > other.group_total
        } else if is_before(title, other_title) {
            true
        } else if is_before(other_title, title) {
            false
        } else if self.item.estimated_bytes != other.item.estimated_bytes {
            self.item.estimated_bytes > other.item.estimated_bytes
        } else {
            is_before(self.item.id.as_str(), other.item.id.as_str())
        }
    }

    proof fn rank_is_weak_order(a: Self, b: Self, c: Self) {
        let (ta, tb, tc) = (
            group_title(a.item.group),
            group_title(b.item.group),
            group_title(c.item.group),
        );
        lemma_text_order(ta, tb, tc);
        lemma_text_order(tc, ta, tb);
        lemma_text_order(tc, tb, ta);
        lemma_text_order(a.item.id@, b.item.id@, c.item.id@);
        lemma_text_order(c.item.id@, a.item.id@, b.item.id@);
        lemma_text_order(c.item.id@, b.item.id@, a.item.id@);
    }
}

/// The items, each with the total that its group has among `all`.
pub open spec fn with_totals(items: Seq<CleanupItem>, all: Seq<CleanupItem>) -> Seq<RankedItem> {
    items.map_values(
        |item: CleanupItem|
            RankedItem { group_total: group_bytes(all, item.group) as u64, item },
    )
}

/// `to` holds the items of `from`, the largest group first and within it the largest item.
pub open spec fn sorted_by_group(from: Seq<CleanupItem>, to: Seq<CleanupItem>) -> bool {
    stably_sorted(with_totals(from, from), with_totals(to, from))
}

/// The bytes of every group together fit in 64 bits, each group for itself.
pub open spec fn groups_fit(items: Seq<CleanupItem>) -> bool {
    forall|group: CleanupGroup| #[trigger] group_bytes(items, group) <= u64::MAX
}

pub open spec fn group_occurs(items: Seq<CleanupItem>, group: CleanupGroup) -> bool {
    exists|i: int| 0 <= i < items.len() && (#[trigger] items[i]).group == group
}

/// The bytes of a group that has items.
pub open spec fn group_sum(items: Seq<CleanupItem>, group: CleanupGroup) -> Option<
    (CleanupGroup, u64),
> {
    if group_occurs(items, group) {
        Some((group, group_bytes(items, group) as u64))
    } else {
        None
    }
}

/// The bytes of each group that has items, in listing order.
pub open spec fn group_sums(items: Seq<CleanupItem>) -> Seq<(CleanupGroup, u64)> {
    kept(all_groups(), |group: CleanupGroup| group_sum(items, group))
}

/// The bytes of each group that has items, in listing order.
pub fn summarize_by_group(items: &Vec<CleanupItem>) -> (r: Vec<(CleanupGroup, u64)>)
    requires
        groups_fit(items@),
    ensures
        r@ == group_sums(items@),
{
    let groups = CleanupGroup::all();
    let ghost keep = |group: CleanupGroup| group_sum(items@, group);
    let mut out: Vec<(CleanupGroup, u64)> = Vec::new();
    let mut g: usize = 0;
    while g < 5
        invariant
            g <= 5,
            groups@ == all_groups(),
            groups_fit(items@),
            keep == (|group: CleanupGroup| group_sum(items@, group)),
            out@ =~= kept(all_groups().take(g as int), keep),
        decreases 5 - g,
    {
        let group = groups[g];
        proof {
            let taken = all_groups().take(g + 1);
            assert(taken.drop_last() =~= all_groups().take(g as int));
            assert(taken.last() == group);
            assert(keep(group) == group_sum(items@, group));
        }
        if has_group(items, group) {
            let bytes: u64 = bytes_of_group(items, group);
            out.push((group, bytes));
        }
        g = g + 1;
    }
    proof {
        assert(all_groups().take(5) =~= all_groups());
    }
    out
}

fn has_group(items: &Vec<CleanupItem>, group: CleanupGroup) -> (r: bool)
    ensures
        r == group_occurs(items@, group),
{
    let mut i: usize = 0;
    while i < items.len()
        invariant
            i <= items@.len(),
            forall|j: int| 0 <= j < i ==> (#[trigger] items@[j]).group != group,
        decreases items.len() - i,
    {
        if items[i].group == group {
            return true;
        }
        i = i + 1;
    }
    false
}

proof fn lemma_group_grows(items: Seq<CleanupItem>, group: CleanupGroup, count: int)
    requires
        0 <= count <= items.len(),
    ensures
        group_bytes(items.take(count), group) <= group_bytes(items, group),
    decreases items.len() - count,
{
    if count < items.len() {
        let next = items.take(count + 1);
        assert(next.drop_last() =~= items.take(count));
        lemma_group_grows(items, group, count + 1);
    } else {
        assert(items.take(count) =~= items);
    }
}

fn bytes_of_group(items: &Vec<CleanupItem>, group: CleanupGroup) -> (r: u64)
    requires
        group_bytes(items@, group) <= u64::MAX,
    ensures
        r == group_bytes(items@, group),
{
    let mut bytes: u64 = 0;
    let mut i: usize = 0;
    while i < items.len()
        invariant
            i <= items@.len(),
            group_bytes(items@, group) <= u64::MAX,
            bytes == group_bytes(items@.take(i as int), group),
        decreases items.len() - i,
    {
        proof {
            assert(items@.take(i + 1).drop_last() =~= items@.take(i as int));
            lemma_group_grows(items@, group, i + 1);
        }
        if items[i].group == group {
            bytes = bytes + items[i].estimated_bytes;
        }
        i = i + 1;
    }
    proof {
        assert(items@.take(items@.len() as int) =~= items@);
    }
    bytes
}

/// The bytes that a list of sums gives a group, from the `i`-th sum on.
spec fn listed_bytes(sums: Seq<(CleanupGroup, u64)>, group: CleanupGroup, i: int) -> u64
    decreases sums.len() - i,
{
    if i < 0 || i >= sums.len() {
        0
    } else if sums[i].0 == group {
        sums[i].1
    } else {
        listed_bytes(sums, group, i + 1)
    }
}

fn find_bytes(sums: &Vec<(CleanupGroup, u64)>, group: CleanupGroup) -> (r: u64)
    ensures
        r == listed_bytes(sums@, group, 0),
{
    let mut i: usize = 0;
    while i < sums.len()
        invariant
            i <= sums@.len(),
            listed_bytes(sums@, group, 0) == listed_bytes(sums@, group, i as int),
        decreases sums.len() - i,
    {
        if sums[i].0 == group {
            return sums[i].1;
        }
        i = i + 1;
    }
    0
}

proof fn lemma_listed_bytes(items: Seq<CleanupItem>, group: CleanupGroup)
    requires
        group_occurs(items, group),
    ensures
        listed_bytes(group_sums(items), group, 0) == group_bytes(items, group) as u64,
{
    let keep = |g: CleanupGroup| group_sum(items, g);
    let sums = group_sums(items);
    assert forall|i: int| 0 <= i < sums.len() && (#[trigger] sums[i]).0 == group implies sums[i].1
        == group_bytes(items, group) as u64 by {
        let j = kept_comes_from(all_groups(), keep, i);
        assert(keep(all_groups()[j]) == group_sum(items, all_groups()[j]));
    }
    let n: int = match group {
        CleanupGroup::System => 0,
        CleanupGroup::User => 1,
        CleanupGroup::Dev => 2,
        CleanupGroup::Containers => 3,
        CleanupGroup::Models => 4,
    };
    assert(all_groups()[n] == group);
    assert(keep(group) == group_sum(items, group));
    let at = lemma_kept_holds(all_groups(), keep, n);
    lemma_first_listed(sums, group, 0, at, group_bytes(items, group) as u64);
}

proof fn lemma_first_listed(
    sums: Seq<(CleanupGroup, u64)>,
    group: CleanupGroup,
    from: int,
    at: int,
    bytes: u64,
)
    requires
        0 <= from <= at < sums.len(),
        sums[at].0 == group,
        forall|i: int| 0 <= i < sums.len() && (#[trigger] sums[i]).0 == group ==> sums[i].1 == bytes,
    ensures
        listed_bytes(sums, group, from) == bytes,
    decreases at - from,
{
    if sums[from].0 != group {
        lemma_first_listed(sums, group, from + 1, at, bytes);
    }
}

proof fn lemma_kept_holds<A, B>(list: Seq<A>, keep: spec_fn(A) -> Option<B>, i: int) -> (j: int)
    requires
        0 <= i < list.len(),
        keep(list[i]) is Some,
    ensures
        0 <= j < kept(list, keep).len(),
        kept(list, keep)[j] == keep(list[i])->Some_0,
    decreases list.len(),
{
    let before = kept(list.drop_last(), keep);
    if i == list.len() - 1 {
        before.len() as int
    } else {
        assert(list.drop_last()[i] == list[i]);
        lemma_kept_holds(list.drop_last(), keep, i)
    }
}

/// Orders the items: the group with the most bytes first, and within a group the largest item.
pub fn sort_items_by_group_size(items: Vec<CleanupItem>) -> (r: Vec<CleanupItem>)
    requires
        groups_fit(items@),
    ensures
        sorted_by_group(items@, r@),
{
    let ghost from = items@;
    let totals = summarize_by_group(&items);
    let mut rest = items;
    let mut ranked: Vec<RankedItem> = Vec::new();
    while rest.len() > 0
        invariant
            rest@.len() <= from.len(),
            rest@ == from.take(rest@.len() as int),
            totals@ == group_sums(from),
            ranked@ =~= with_totals(from, from).skip(rest@.len() as int),
        decreases rest.len(),
    {
        let ghost n = rest@.len() as int;
        match rest.pop() {
            Some(item) => {
                let group_total: u64 = find_bytes(&totals, item.group);
                proof {
                    assert(item == from[n - 1]);
                    assert(rest@ =~= from.take(n - 1));
                    lemma_listed_bytes(from, item.group);
                }
                let ghost before = ranked@;
                ranked.insert(0, RankedItem { group_total, item });
                proof {
                    let all = with_totals(from, from);
                    assert(all.skip(n - 1) =~= seq![all[n - 1]] + all.skip(n));
                    assert(ranked@ =~= seq![all[n - 1]] + before);
                }
            },
            None => {},
        }
    }
    proof {
        assert(with_totals(from, from).skip(0) =~= with_totals(from, from));
    }
    let sorted = sort_stable(ranked);
    let ghost order = sorted@;
    proof {
        lemma_totals_kept(from, order);
    }
    let mut left = sorted;
    let mut out: Vec<CleanupItem> = Vec::new();
    while left.len() > 0
        invariant
            left@.len() <= order.len(),
            left@ == order.take(left@.len() as int),
            out@.len() == order.len() - left@.len(),
            forall|i: int|
                0 <= i < out@.len() ==> #[trigger] out@[i] == order[i + left@.len()].item,
        decreases left.len(),
    {
        let ghost n = left@.len() as int;
        match left.pop() {
            Some(ranked) => {
                proof {
                    assert(left@ =~= order.take(n - 1));
                    assert(ranked == order[n - 1]);
                }
                out.insert(0, ranked.item);
            },
            None => {},
        }
    }
    proof {
        assert(with_totals(out@, from) =~= order);
    }
    out
}

/// Sorting leaves the totals of the items as they are.
proof fn lemma_totals_kept(from: Seq<CleanupItem>, to: Seq<RankedItem>)
    requires
        stably_sorted(with_totals(from, from), to),
    ensures
        to.len() == from.len(),
        forall|i: int|
            0 <= i < to.len() ==> (#[trigger] to[i]).group_total == group_bytes(
                from,
                to[i].item.group,
            ) as u64,
{
    let all = with_totals(from, from);
    let order = choose|order: Seq<int>| is_ordering(all, to, order);
    assert forall|i: int| 0 <= i < to.len() implies (#[trigger] to[i]).group_total == group_bytes(
        from,
        to[i].item.group,
    ) as u64 by {
        assert(0 <= order[i] < all.len() && to[i] == all[order[i]]);
    }
}

proof fn lemma_group_sum(items: Seq<CleanupItem>, all: Seq<CleanupItem>, group: CleanupGroup)
    ensures
        group_bytes(items, group) == sum_of(
            with_totals(items, all),
            |r: RankedItem|
                if r.item.group == group {
                    r.item.estimated_bytes as nat
                } else {
                    0
                },
        ),
    decreases items.len(),
{
    if items.len() > 0 {
        lemma_group_sum(items.drop_last(), all, group);
        assert(with_totals(items, all).drop_last() =~= with_totals(items.drop_last(), all));
    }
}

proof fn lemma_total_sum(items: Seq<CleanupItem>, all: Seq<CleanupItem>)
    ensures
        total_bytes(items) == sum_of(
            with_totals(items, all),
            |r: RankedItem| r.item.estimated_bytes as nat,
        ),
    decreases items.len(),
{
    if items.len() > 0 {
        lemma_total_sum(items.drop_last(), all);
        assert(with_totals(items, all).drop_last() =~= with_totals(items.drop_last(), all));
    }
}

/// Sorting keeps the bytes of every group, and of all of them.
pub proof fn sorting_keeps_totals(from: Seq<CleanupItem>, to: Seq<CleanupItem>, group: CleanupGroup)
    requires
        sorted_by_group(from, to),
    ensures
        group_bytes(from, group) == group_bytes(to, group),
        total_bytes(from) == total_bytes(to),
        from.len() == to.len(),
{
    let in_group = |r: RankedItem|
        if r.item.group == group {
            r.item.estimated_bytes as nat
        } else {
            0
        };
    let every = |r: RankedItem| r.item.estimated_bytes as nat;
    sorting_keeps_sums(with_totals(from, from), with_totals(to, from), in_group);
    sorting_keeps_sums(with_totals(from, from), with_totals(to, from), every);
    lemma_group_sum(from, from, group);
    lemma_group_sum(to, from, group);
    lemma_total_sum(from, from);
    lemma_total_sum(to, from);
    assert(with_totals(to, from).len() == to.len());
}

/// The title tells a group from every other.
pub proof fn titles_differ(a: CleanupGroup, b: CleanupGroup)
    requires
        group_title(a) == group_title(b),
    ensures
        a == b,
{
    reveal_strlit("System & packages");
    reveal_strlit("User & app caches");
    reveal_strlit("Developer caches");
    reveal_strlit("Docker, Podman & Flatpak");
    reveal_strlit("LLM model caches");
    assert(group_title(CleanupGroup::System)[0] == 'S');
    assert(group_title(CleanupGroup::User)[0] == 'U');
    assert(group_title(CleanupGroup::Dev)[1] == 'e');
    assert(group_title(CleanupGroup::Containers)[1] == 'o');
    assert(group_title(CleanupGroup::Models)[0] == 'L');
    assert(group_title(CleanupGroup::Dev)[0] == 'D');
    assert(group_title(CleanupGroup::Containers)[0] == 'D');
}

/// The groups of a report stand in the order in which its items name them: where one item
/// stands before another of a different group, so do their groups.
pub proof fn groups_follow_items(
    from: Seq<CleanupItem>,
    to: Seq<CleanupItem>,
    groups: Seq<GroupSummary>,
    i: int,
    j: int,
    a: int,
    b: int,
)
    requires
        total_bytes(from) <= u64::MAX,
        sorted_by_group(from, to),
        stably_sorted(group_summaries(to), groups),
        0 <= i < j < to.len(),
        to[i].group != to[j].group,
        0 <= a < groups.len(),
        0 <= b < groups.len(),
        groups[a].group == to[i].group,
        groups[b].group == to[j].group,
    ensures
        a < b,
{
    let ranked = with_totals(to, from);
    let order = choose|order: Seq<int>| is_ordering(with_totals(from, from), ranked, order);
    assert(!ranked[j].ranks_before(ranked[i]));
    let ga = to[i].group;
    let gb = to[j].group;
    sorting_keeps_totals(from, to, ga);
    sorting_keeps_totals(from, to, gb);
    group_is_part_of_total(to, ga);
    group_is_part_of_total(to, gb);
    if group_title(ga) == group_title(gb) {
        titles_differ(ga, gb);
    }
    lemma_text_order(group_title(ga), group_title(gb), group_title(ga));
    let places = choose|order: Seq<int>| is_ordering(group_summaries(to), groups, order);
    assert(0 <= places[a] < 5 && groups[a] == group_summaries(to)[places[a]]);
    assert(0 <= places[b] < 5 && groups[b] == group_summaries(to)[places[b]]);
    assert(groups[a].estimated_bytes == group_bytes(to, ga));
    assert(groups[b].estimated_bytes == group_bytes(to, gb));
    if b < a {
        assert(!groups[a].ranks_before(groups[b]));
    }
}

/// Sorting keeps the items, each as often as it was there.
pub proof fn sorting_keeps_items(from: Seq<CleanupItem>, to: Seq<CleanupItem>)
    requires
        sorted_by_group(from, to),
    ensures
        from.to_multiset() == to.to_multiset(),
{
    let back = |r: RankedItem| r.item;
    sorting_keeps_members(with_totals(from, from), with_totals(to, from));
    lemma_members_mapped(with_totals(from, from), with_totals(to, from), back);
    assert(with_totals(from, from).map_values(back) =~= from);
    assert(with_totals(to, from).map_values(back) =~= to);
}

/// The items of a group stand together: what stands between two items of a group belongs to it.
pub proof fn groups_stay_together(
    from: Seq<CleanupItem>,
    to: Seq<CleanupItem>,
    i: int,
    j: int,
    k: int,
)
    requires
        sorted_by_group(from, to),
        0 <= i < j < k < to.len(),
        to[i].group == to[k].group,
    ensures
        to[j].group == to[i].group,
{
    let ranked = with_totals(to, from);
    let order = choose|order: Seq<int>| is_ordering(with_totals(from, from), ranked, order);
    assert(!ranked[j].ranks_before(ranked[i]));
    assert(!ranked[k].ranks_before(ranked[j]));
    let title = group_title(to[i].group);
    let between = group_title(to[j].group);
    lemma_text_order(title, between, title);
    if title == between {
        titles_differ(to[i].group, to[j].group);
    }
}

/// Items that are sorted stay as they are when they are sorted again.
pub proof fn sorting_again_changes_nothing(
    from: Seq<CleanupItem>,
    to: Seq<CleanupItem>,
    again: Seq<CleanupItem>,
)
    requires
        sorted_by_group(from, to),
    ensures
        sorted_by_group(to, to),
        sorted_by_group(to, again) ==> again == to,
{
    assert forall|i: int| 0 <= i < to.len() implies with_totals(to, to)[i] == with_totals(
        to,
        from,
    )[i] by {
        sorting_keeps_totals(from, to, to[i].group);
    }
    assert(with_totals(to, to) =~= with_totals(to, from));
    sorted_stays_sorted(with_totals(from, from), with_totals(to, from));
    if sorted_by_group(to, again) {
        sorting_is_unique(with_totals(to, to), with_totals(to, to), with_totals(again, to));
        assert(with_totals(again, to).len() == again.len());
        assert forall|i: int| 0 <= i < again.len() implies again[i] == to[i] by {
            assert(with_totals(again, to)[i].item == again[i]);
            assert(with_totals(to, to)[i].item == to[i]);
        }
        assert(again =~= to);
    }
}

/// No two items have the same id.
pub open spec fn ids_differ(items: Seq<CleanupItem>) -> bool {
    forall|i: int, j: int|
        0 <= i < j < items.len() ==> (#[trigger] items[i]).id@ != (#[trigger] items[j]).id@
}

proof fn lemma_ranks_differ(items: Seq<CleanupItem>, all: Seq<CleanupItem>)
    requires
        ids_differ(items),
    ensures
        ranks_differ(with_totals(items, all)),
{
    let ranked = with_totals(items, all);
    assert forall|i: int, j: int| 0 <= i < j < ranked.len() implies (
    #[trigger] ranked[i]).ranks_before(#[trigger] ranked[j]) || ranked[j].ranks_before(
        ranked[i],
    ) by {
        let a = items[i];
        let b = items[j];
        assert(ranked[i].item == a && ranked[j].item == b);
        lemma_text_order(group_title(a.group), group_title(b.group), group_title(a.group));
        lemma_text_order(a.id@, b.id@, a.id@);
    }
}

/// Whether ids differ does not depend on the order of the items.
proof fn lemma_ids_still_differ(a: Seq<CleanupItem>, b: Seq<CleanupItem>)
    requires
        a.to_multiset() == b.to_multiset(),
        ids_differ(a),
    ensures
        ids_differ(b),
{
    assert(a.no_duplicates());
    a.lemma_multiset_has_no_duplicates();
    b.lemma_multiset_has_no_duplicates_conv();
    a.to_multiset_ensures();
    b.to_multiset_ensures();
    assert forall|i: int, j: int| 0 <= i < j < b.len() implies (#[trigger] b[i]).id@ != (
    #[trigger] b[j]).id@ by {
        assert(b.contains(b[i]) && b.contains(b[j]));
        assert(a.to_multiset().count(b[i]) > 0 && a.to_multiset().count(b[j]) > 0);
        assert(a.contains(b[i]) && a.contains(b[j]));
        let p = choose|p: int| 0 <= p < a.len() && a[p] == b[i];
        let q = choose|q: int| 0 <= q < a.len() && a[q] == b[j];
        assert(p != q);
        if p < q {
            assert(a[p].id@ != a[q].id@);
        } else {
            assert(a[q].id@ != a[p].id@);
        }
    }
}

/// Where the ids differ, the order in which the items were found does not matter.
pub proof fn sorting_ignores_where_items_stood(
    from: Seq<CleanupItem>,
    other: Seq<CleanupItem>,
    to: Seq<CleanupItem>,
    too: Seq<CleanupItem>,
)
    requires
        from.to_multiset() == other.to_multiset(),
        ids_differ(from),
        sorted_by_group(from, to),
        sorted_by_group(other, too),
    ensures
        to == too,
{
    let ranked = |item: CleanupItem|
        RankedItem { group_total: group_bytes(from, item.group) as u64, item };
    lemma_ids_still_differ(from, other);
    lemma_ranks_differ(from, from);
    lemma_ranks_differ(other, other);
    assert forall|group: CleanupGroup| #[trigger]
        group_bytes(from, group) == group_bytes(other, group) by {
        lemma_group_weight(from, group);
        lemma_group_weight(other, group);
        members_decide_sums(from, other, group_weight(group));
    }
    assert(with_totals(other, other) =~= with_totals(other, from));
    assert(with_totals(too, other) =~= with_totals(too, from));
    lemma_members_mapped(from, other, ranked);
    assert(from.map_values(ranked) =~= with_totals(from, from));
    assert(other.map_values(ranked) =~= with_totals(other, from));
    sorting_forgets_order(
        with_totals(from, from),
        with_totals(other, from),
        with_totals(to, from),
        with_totals(too, from),
    );
    assert(with_totals(to, from).len() == to.len() && with_totals(too, from).len() == too.len());
    assert forall|i: int| 0 <= i < to.len() implies to[i] == too[i] by {
        assert(with_totals(to, from)[i].item == to[i]);
        assert(with_totals(too, from)[i].item == too[i]);
    }
    assert(to =~= too);
}

spec fn group_weight(group: CleanupGroup) -> spec_fn(CleanupItem) -> nat {
    |item: CleanupItem|
        if item.group == group {
            item.estimated_bytes as nat
        } else {
            0
        }
}

proof fn lemma_group_weight(items: Seq<CleanupItem>, group: CleanupGroup)
    ensures
        group_bytes(items, group) == sum_of(items, group_weight(group)),
    decreases items.len(),
{
    if items.len() > 0 {
        lemma_group_weight(items.drop_last(), group);
    }
}

// ---------------------------------------------------------------------------------------
// Findings
// ---------------------------------------------------------------------------------------

/// What was found on a system.
#[derive(Debug, PartialEq, Eq)]
pub struct ScanFacts {
    /// The names of the installed programs, among those that a scan asks for.
    pub tools: Vec<String>,
    /// The sizes of the directories that a scan measures.
    pub sizes: Vec<Measured>,
    pub snaps: SnapFacts,
    pub models: ModelFacts,
}

/// The caches of applications.
pub open spec fn user_caches() -> Seq<CachePlace> {
    seq![
        CachePlace { relative: ".cache/yay"@, label: "yay build cache"@ },
        CachePlace { relative: ".cache/paru"@, label: "paru build cache"@ },
        CachePlace { relative: ".cache/thumbnails"@, label: "Desktop thumbnails"@ },
        CachePlace { relative: ".cache/mozilla"@, label: "Firefox cache"@ },
        CachePlace { relative: ".cache/chromium"@, label: "Chromium cache"@ },
        CachePlace { relative: ".cache/google-chrome"@, label: "Google Chrome cache"@ },
        CachePlace { relative: ".cache/microsoft-edge"@, label: "Microsoft Edge cache"@ },
        CachePlace { relative: ".cache/BraveSoftware"@, label: "Brave cache"@ },
        CachePlace { relative: ".cache/vivaldi"@, label: "Vivaldi cache"@ },
        CachePlace { relative: ".cache/opera"@, label: "Opera cache"@ },
    ]
}

/// The caches of developer tools.
pub open spec fn dev_caches() -> Seq<CachePlace> {
    seq![
        CachePlace { relative: ".cache/pip"@, label: "pip cache"@ },
        CachePlace { relative: ".npm/_cacache"@, label: "npm content cache"@ },
        CachePlace { relative: ".cache/pnpm"@, label: "pnpm cache"@ },
        CachePlace { relative: ".cache/yarn"@, label: "Yarn cache"@ },
        CachePlace { relative: ".cargo/registry/cache"@, label: "Cargo package cache"@ },
        CachePlace { relative: ".cargo/registry/src"@, label: "Cargo unpacked registry sources"@ },
        CachePlace { relative: ".cargo/git"@, label: "Cargo Git checkout cache"@ },
        CachePlace { relative: "go/pkg/mod"@, label: "Go module cache"@ },
        CachePlace { relative: ".gradle/caches"@, label: "Gradle cache"@ },
        CachePlace { relative: ".cache/composer"@, label: "Composer cache"@ },
        CachePlace { relative: ".cache/uv"@, label: "uv package manager cache"@ },
        CachePlace { relative: ".pnpm-store"@, label: "pnpm content-addressable store"@ },
        CachePlace { relative: ".cache/terragrunt"@, label: "Terragrunt provider cache"@ },
        CachePlace { relative: ".terraform.d/plugin-cache"@, label: "Terraform plugin cache"@ },
        CachePlace { relative: ".cache/ms-playwright"@, label: "Playwright browser downloads"@ },
        CachePlace { relative: ".cache/.bun"@, label: "Bun install cache"@ },
        CachePlace { relative: ".cache/zig"@, label: "Zig compiler cache"@ },
        CachePlace { relative: ".cache/pre-commit"@, label: "pre-commit hook environments"@ },
        CachePlace { relative: ".cache/go-build"@, label: "Go build cache"@ },
        CachePlace { relative: ".cache/ms-playwright-go"@, label: "Playwright Go driver cache"@ },
    ]
}

pub open spec fn user_kind() -> CacheKind {
    CacheKind { prefix: "user"@, group: CleanupGroup::User, risk: Risk::Low }
}

pub open spec fn dev_kind() -> CacheKind {
    CacheKind { prefix: "dev"@, group: CleanupGroup::Dev, risk: Risk::Low }
}

/// The bytes that were measured at some paths together.
pub open spec fn measured_total(sizes: Seq<Measured>, paths: Seq<Seq<char>>) -> nat
    decreases paths.len(),
{
    if paths.len() == 0 {
        0
    } else {
        measured_total(sizes, paths.drop_last()) + measured(sizes, paths.last()) as nat
    }
}

/// The items and the complaints about the package cache. Without its tool the cache is only
/// complained about.
pub open spec fn package_findings(
    family: DistroFamily,
    tools: Seq<Seq<char>>,
    sizes: Seq<Measured>,
) -> (Seq<ItemView>, Seq<Seq<char>>) {
    let bytes = measured_total(sizes, cache_paths(family));
    match (package_item(family, bytes as u64), package_tool(family)) {
        (Some(item), Some(tool)) => if tools.contains(tool) {
            (seq![item], seq![])
        } else if bytes > 0 {
            (
                seq![],
                seq![
                    tool
                        + " is not installed; the package cache was measured but cannot be cleaned safely"@,
                ],
            )
        } else {
            (seq![], seq![])
        },
        _ => (seq![], seq![]),
    }
}

pub open spec fn journal_item(bytes: u64) -> ItemView {
    ItemView {
        id: "system.journal"@,
        group: CleanupGroup::System,
        label: "systemd journal above 200 MiB"@,
        estimated_bytes: bytes,
        risk: Risk::Elevated,
        action: ActionView::Command(
            CommandView {
                program: "journalctl"@,
                args: seq!["--vacuum-size=200M"@],
                requires_root: true,
            },
        ),
    }
}

/// What the journal holds above 200 MiB can go.
pub open spec fn journal_items(tools: Seq<Seq<char>>, sizes: Seq<Measured>) -> Seq<ItemView> {
    let bytes = measured(sizes, "/var/log/journal"@);
    if tools.contains("journalctl"@) && bytes > 200 * 1024 * 1024 {
        seq![journal_item((bytes - 200 * 1024 * 1024) as u64)]
    } else {
        seq![]
    }
}

/// The items and the complaints about snaps; a hint follows where anything was found.
pub open spec fn installed_snap_findings(tools: Seq<Seq<char>>, facts: SnapFacts) -> (
    Seq<ItemView>,
    Seq<Seq<char>>,
) {
    if !tools.contains("snap"@) {
        (seq![], seq![])
    } else {
        let (items, complaints) = snap_findings(facts);
        (
            items,
            if items.len() > 0 {
                complaints.push(
                    "disabled snap revisions were found; to keep fewer of them after future refreshes, run `sudo snap set system refresh.retain=2` manually (tuxcleaner does not change this setting)"@,
                )
            } else {
                complaints
            },
        )
    }
}

pub open spec fn trash_items(home: Seq<char>, sizes: Seq<Measured>) -> Seq<ItemView> {
    let path = joined_path(home, ".local/share/Trash"@);
    let bytes = measured(sizes, path);
    if bytes > 0 {
        seq![
            ItemView {
                id: "user.trash"@,
                group: CleanupGroup::User,
                label: "Trash contents"@,
                estimated_bytes: bytes,
                risk: Risk::Explicit,
                action: ActionView::RemovePath { path, contents_only: true },
            },
        ]
    } else {
        seq![]
    }
}

pub open spec fn unsupported_warnings(family: DistroFamily, name: Seq<char>) -> Seq<Seq<char>> {
    if family == DistroFamily::Unsupported {
        seq![
            name
                + " is not yet supported for package cleanup; user and developer caches are still available"@,
        ]
    } else {
        seq![]
    }
}

/// Everything that a scan finds and complains about, given the Podman connections and the
/// complaints about them.
pub open spec fn scan_findings(
    home: Seq<char>,
    family: DistroFamily,
    name: Seq<char>,
    facts: ScanFacts,
    connections: (Seq<Seq<char>>, Seq<Seq<char>>),
) -> (Seq<ItemView>, Seq<Seq<char>>) {
    let tools = texts(facts.tools@);
    let sizes = facts.sizes@;
    let packages = package_findings(family, tools, sizes);
    let snaps = installed_snap_findings(tools, facts.snaps);
    let models = model_findings(home, tools, sizes, facts.models);
    (
        packages.0 + journal_items(tools, sizes) + snaps.0 + place_items(
            home,
            sizes,
            user_kind(),
            user_caches(),
        ) + trash_items(home, sizes) + place_items(home, sizes, dev_kind(), dev_caches())
            + container_items(tools, connections.0) + models.0,
        packages.1 + snaps.1 + connections.1 + models.1 + unsupported_warnings(family, name),
    )
}

/// The sizes that a scan adds up while it looks fit in 64 bits.
pub open spec fn facts_fit(home: Seq<char>, family: DistroFamily, facts: ScanFacts) -> bool {
    measured_total(facts.sizes@, cache_paths(family)) <= u64::MAX && models_fit(home, facts.models)
}

/// The bytes of some items.
pub open spec fn views_total(views: Seq<ItemView>) -> nat
    decreases views.len(),
{
    if views.len() == 0 {
        0
    } else {
        views_total(views.drop_last()) + views.last().estimated_bytes as nat
    }
}

pub proof fn lemma_views_total(items: Seq<CleanupItem>)
    ensures
        views_total(item_views(items)) == total_bytes(items),
    decreases items.len(),
{
    if items.len() > 0 {
        lemma_views_total(items.drop_last());
        assert(item_views(items).drop_last() =~= item_views(items.drop_last()));
    }
}

/// The report on what was found: the items sorted, and every group with its share.
pub open spec fn reports(
    name: Seq<char>,
    findings: (Seq<ItemView>, Seq<Seq<char>>),
    report: ScanReport,
) -> bool {
    &&& report.distribution@ == name
    &&& texts(report.warnings@) == findings.1
    &&& report.estimated_total_bytes == views_total(findings.0)
    &&& stably_sorted(group_summaries(report.items@), report.groups@)
    &&& exists|found: Seq<CleanupItem>|
        #[trigger] item_views(found) == findings.0 && sorted_by_group(found, report.items@)
}

// ---------------------------------------------------------------------------------------
// The scanner
// ---------------------------------------------------------------------------------------

pub struct Scanner {
    pub home: String,
    pub distro: Distribution,
}

fn add_measured(sizes: &Vec<Measured>, paths: &Vec<String>) -> (r: Option<u64>)
    ensures
        match r {
            Some(bytes) => bytes == measured_total(sizes@, texts(paths@)),
            None => measured_total(sizes@, texts(paths@)) > u64::MAX,
        },
{
    let ghost views = texts(paths@);
    let mut total: u64 = 0;
    let mut i: usize = 0;
    while i < paths.len()
        invariant
            i <= paths@.len(),
            views == texts(paths@),
            total == measured_total(sizes@, views.take(i as int)),
        decreases paths.len() - i,
    {
        let bytes: u64 = bytes_at(sizes, paths[i].as_str());
        proof {
            assert(views.take(i + 1).drop_last() =~= views.take(i as int));
            assert(views.take(i + 1).last() == paths@[i as int]@);
            lemma_measured_grows(sizes@, views, i + 1);
        }
        if bytes > u64::MAX - total {
            return None;
        }
        total = total + bytes;
        i = i + 1;
    }
    proof {
        assert(views.take(views.len() as int) =~= views);
    }
    Some(total)
}

proof fn lemma_measured_grows(sizes: Seq<Measured>, paths: Seq<Seq<char>>, upto: int)
    requires
        0 <= upto <= paths.len(),
    ensures
        measured_total(sizes, paths.take(upto)) <= measured_total(sizes, paths),
    decreases paths.len(),
{
    if upto < paths.len() {
        lemma_measured_grows(sizes, paths.drop_last(), upto);
        assert(paths.drop_last().take(upto) =~= paths.take(upto));
    } else {
        assert(paths.take(upto) =~= paths);
    }
}

/// The bytes of all items, if they add up in 64 bits.
fn add_items(items: &Vec<CleanupItem>) -> (r: Option<u64>)
    ensures
        match r {
            Some(bytes) => bytes == total_bytes(items@),
            None => total_bytes(items@) > u64::MAX,
        },
{
    let mut total: u64 = 0;
    let mut i: usize = 0;
    while i < items.len()
        invariant
            i <= items@.len(),
            total == total_bytes(items@.take(i as int)),
        decreases items.len() - i,
    {
        proof {
            assert(items@.take(i + 1).drop_last() =~= items@.take(i as int));
            lemma_bytes_grow(items@, i + 1);
        }
        if items[i].estimated_bytes > u64::MAX - total {
            return None;
        }
        total = total + items[i].estimated_bytes;
        i = i + 1;
    }
    proof {
        assert(items@.take(items@.len() as int) =~= items@);
    }
    Some(total)
}

/// The caches of applications, each with its place and its label.
pub fn user_definitions() -> (r: [(&'static str, &'static str); 10])
    ensures
        places(r@) == user_caches(),
{
    let definitions = [
        (".cache/yay", "yay build cache"),
        (".cache/paru", "paru build cache"),
        (".cache/thumbnails", "Desktop thumbnails"),
        (".cache/mozilla", "Firefox cache"),
        (".cache/chromium", "Chromium cache"),
        (".cache/google-chrome", "Google Chrome cache"),
        (".cache/microsoft-edge", "Microsoft Edge cache"),
        (".cache/BraveSoftware", "Brave cache"),
        (".cache/vivaldi", "Vivaldi cache"),
        (".cache/opera", "Opera cache"),
    ];
    proof {
        assert(places(definitions@) =~= user_caches());
    }
    definitions
}

/// The caches of developer tools, each with its place and its label.
pub fn dev_definitions() -> (r: [(&'static str, &'static str); 20])
    ensures
        places(r@) == dev_caches(),
{
    let definitions = [
        (".cache/pip", "pip cache"),
        (".npm/_cacache", "npm content cache"),
        (".cache/pnpm", "pnpm cache"),
        (".cache/yarn", "Yarn cache"),
        (".cargo/registry/cache", "Cargo package cache"),
        (".cargo/registry/src", "Cargo unpacked registry sources"),
        (".cargo/git", "Cargo Git checkout cache"),
        ("go/pkg/mod", "Go module cache"),
        (".gradle/caches", "Gradle cache"),
        (".cache/composer", "Composer cache"),
        (".cache/uv", "uv package manager cache"),
        (".pnpm-store", "pnpm content-addressable store"),
        (".cache/terragrunt", "Terragrunt provider cache"),
        (".terraform.d/plugin-cache", "Terraform plugin cache"),
        (".cache/ms-playwright", "Playwright browser downloads"),
        (".cache/.bun", "Bun install cache"),
        (".cache/zig", "Zig compiler cache"),
        (".cache/pre-commit", "pre-commit hook environments"),
        (".cache/go-build", "Go build cache"),
        (".cache/ms-playwright-go", "Playwright Go driver cache"),
    ];
    proof {
        assert(places(definitions@) =~= dev_caches());
    }
    definitions
}

impl Scanner {
    pub fn new(home: String, distro: Distribution) -> (r: Self)
        ensures
            r.home == home,
            r.distro == distro,
    {
        Scanner { home, distro }
    }

    fn scan_packages(
        &self,
        facts: &ScanFacts,
        items: &mut Vec<CleanupItem>,
        warnings: &mut Vec<String>,
    )
        requires
            measured_total(facts.sizes@, cache_paths(self.distro.family)) <= u64::MAX,
        ensures
            item_views(final(items)@) == item_views(old(items)@) + package_findings(
                self.distro.family,
                texts(facts.tools@),
                facts.sizes@,
            ).0,
            texts(final(warnings)@) == texts(old(warnings)@) + package_findings(
                self.distro.family,
                texts(facts.tools@),
                facts.sizes@,
            ).1,
    {
        let ghost start = item_views(items@);
        let ghost complaints = texts(warnings@);
        let ghost found = package_findings(
            self.distro.family,
            texts(facts.tools@),
            facts.sizes@,
        );
        let paths = self.distro.package_cache_paths();
        let estimated: u64 = match add_measured(&facts.sizes, &paths) {
            Some(bytes) => bytes,
            None => 0,
        };
        match (self.distro.package_cleanup_item(estimated), self.distro.package_tool()) {
            (Some(item), Some(program)) => {
                if is_in(&facts.tools, program) {
                    items.push(item);
                } else if estimated > 0 {
                    warnings.push(
                        program.to_owned().concat(
                            " is not installed; the package cache was measured but cannot be cleaned safely",
                        ),
                    );
                }
            },
            _ => {},
        }
        proof {
            assert(item_views(items@) =~= start + found.0);
            assert(texts(warnings@) =~= complaints + found.1);
        }
    }

    fn scan_system(&self, facts: &ScanFacts, items: &mut Vec<CleanupItem>)
        ensures
            item_views(final(items)@) == item_views(old(items)@) + journal_items(
                texts(facts.tools@),
                facts.sizes@,
            ),
    {
        let ghost start = item_views(items@);
        let bytes: u64 = bytes_at(&facts.sizes, "/var/log/journal");
        if is_in(&facts.tools, "journalctl") && bytes > 200 * 1024 * 1024 {
            items.push(
                CleanupItem {
                    id: "system.journal".to_owned(),
                    group: CleanupGroup::System,
                    label: "systemd journal above 200 MiB".to_owned(),
                    estimated_bytes: bytes - 200 * 1024 * 1024,
                    risk: Risk::Elevated,
                    action: CleanupAction::Command {
                        program: "journalctl".to_owned(),
                        args: list1("--vacuum-size=200M"),
                        requires_root: true,
                    },
                },
            );
        }
        proof {
            assert(item_views(items@) =~= start + journal_items(texts(facts.tools@), facts.sizes@));
        }
    }

    fn scan_snap_revisions(
        &self,
        facts: &ScanFacts,
        items: &mut Vec<CleanupItem>,
        warnings: &mut Vec<String>,
    )
        ensures
            item_views(final(items)@) == item_views(old(items)@) + installed_snap_findings(
                texts(facts.tools@),
                facts.snaps,
            ).0,
            texts(final(warnings)@) == texts(old(warnings)@) + installed_snap_findings(
                texts(facts.tools@),
                facts.snaps,
            ).1,
    {
        let ghost start = item_views(items@);
        let ghost complaints = texts(warnings@);
        let ghost found = installed_snap_findings(texts(facts.tools@), facts.snaps);
        if is_in(&facts.tools, "snap") {
            let (mut discovered, mut complained) = discover_disabled_snap_revisions(&facts.snaps);
            proof {
                assert(item_views(discovered@).len() == discovered@.len());
            }
            let found_any = discovered.len() > 0;
            let ghost new_items = discovered@;
            let ghost new_warnings = complained@;
            items.append(&mut discovered);
            warnings.append(&mut complained);
            proof {
                assert(item_views(items@) =~= start + item_views(new_items));
                assert(texts(warnings@) =~= complaints + texts(new_warnings));
            }
            if found_any {
                warnings.push(
                    "disabled snap revisions were found; to keep fewer of them after future refreshes, run `sudo snap set system refresh.retain=2` manually (tuxcleaner does not change this setting)".to_owned(),
                );
            }
        }
        proof {
            assert(item_views(items@) =~= start + found.0);
            assert(texts(warnings@) =~= complaints + found.1);
        }
    }

    fn scan_trash(&self, facts: &ScanFacts, items: &mut Vec<CleanupItem>)
        ensures
            item_views(final(items)@) == item_views(old(items)@) + trash_items(
                self.home@,
                facts.sizes@,
            ),
    {
        let ghost start = item_views(items@);
        let path = join_path(self.home.as_str(), ".local/share/Trash");
        let estimated_bytes: u64 = bytes_at(&facts.sizes, path.as_str());
        if estimated_bytes > 0 {
            items.push(
                CleanupItem {
                    id: "user.trash".to_owned(),
                    group: CleanupGroup::User,
                    label: "Trash contents".to_owned(),
                    estimated_bytes,
                    risk: Risk::Explicit,
                    action: CleanupAction::RemovePath { path, contents_only: true },
                },
            );
        }
        proof {
            assert(item_views(items@) =~= start + trash_items(self.home@, facts.sizes@));
        }
    }

    fn scan_user_caches(&self, facts: &ScanFacts, items: &mut Vec<CleanupItem>)
        ensures
            item_views(final(items)@) == item_views(old(items)@) + place_items(
                self.home@,
                facts.sizes@,
                user_kind(),
                user_caches(),
            ),
    {
        let definitions = user_definitions();
        scan_places(
            self.home.as_str(),
            &facts.sizes,
            "user",
            CleanupGroup::User,
            Risk::Low,
            &definitions,
            items,
        );
    }

    fn scan_dev_caches(&self, facts: &ScanFacts, items: &mut Vec<CleanupItem>)
        ensures
            item_views(final(items)@) == item_views(old(items)@) + place_items(
                self.home@,
                facts.sizes@,
                dev_kind(),
                dev_caches(),
            ),
    {
        let definitions = dev_definitions();
        scan_places(
            self.home.as_str(),
            &facts.sizes,
            "dev",
            CleanupGroup::Dev,
            Risk::Low,
            &definitions,
            items,
        );
    }

    /// Everything that a cleanup could remove, and everything that is to be complained about.
    pub fn collect<R: CommandRunner>(&self, runner: &mut Recorder<R>, facts: &ScanFacts) -> (r: (
        Vec<CleanupItem>,
        Vec<String>,
    ))
        requires
            facts_fit(self.home@, self.distro.family, *facts),
            old(runner).accepts_all(discovery_commands(texts(facts.tools@))),
        ensures
            final(runner).inner() == old(runner).inner(),
            continues(old(runner).calls(), final(runner).calls()),
            ({
                let calls = made(old(runner).calls(), final(runner).calls());
                &&& commands_of(calls) == discovery_commands(texts(facts.tools@))
                &&& (item_views(r.0@), texts(r.1@)) == scan_findings(
                    self.home@,
                    self.distro.family,
                    self.distro.name@,
                    *facts,
                    discovered(texts(facts.tools@), calls),
                )
            }),
    {
        let mut items: Vec<CleanupItem> = Vec::new();
        let mut warnings: Vec<String> = Vec::new();
        let ghost tools = texts(facts.tools@);
        let ghost sizes = facts.sizes@;
        let ghost packages = package_findings(self.distro.family, tools, sizes);
        let ghost snaps = installed_snap_findings(tools, facts.snaps);
        let ghost models = model_findings(self.home@, tools, sizes, facts.models);
        self.scan_packages(facts, &mut items, &mut warnings);
        proof {
            assert(item_views(items@) =~= packages.0);
            assert(texts(warnings@) =~= packages.1);
        }
        self.scan_system(facts, &mut items);
        self.scan_snap_revisions(facts, &mut items, &mut warnings);
        self.scan_user_caches(facts, &mut items);
        self.scan_trash(facts, &mut items);
        self.scan_dev_caches(facts, &mut items);
        let ghost before = (item_views(items@), texts(warnings@));
        let ghost calls_before = runner.calls();
        crate::containers::scan(runner, &facts.tools, &mut items, &mut warnings);
        let ghost connections = discovered(tools, made(calls_before, runner.calls()));
        crate::models::scan(
            self.home.as_str(),
            &facts.tools,
            &facts.sizes,
            &facts.models,
            &mut items,
            &mut warnings,
        );
        let ghost complaints = texts(warnings@);
        if self.distro.family == DistroFamily::Unsupported {
            warnings.push(
                self.distro.name.clone().concat(
                    " is not yet supported for package cleanup; user and developer caches are still available",
                ),
            );
        }
        proof {
            assert(texts(warnings@) =~= complaints + unsupported_warnings(
                self.distro.family,
                self.distro.name@,
            ));
        }
        (items, warnings)
    }

    /// The report on everything that a cleanup could remove. `None` where the sizes do not add
    /// up in 64 bits.
    pub fn scan<R: CommandRunner>(&self, runner: &mut Recorder<R>, facts: &ScanFacts) -> (r: Option<
        ScanReport,
    >)
        requires
            old(runner).accepts_all(discovery_commands(texts(facts.tools@))),
        ensures
            final(runner).inner() == old(runner).inner(),
            continues(old(runner).calls(), final(runner).calls()),
            ({
                let calls = made(old(runner).calls(), final(runner).calls());
                if facts_fit(self.home@, self.distro.family, *facts) {
                    let findings = scan_findings(
                        self.home@,
                        self.distro.family,
                        self.distro.name@,
                        *facts,
                        discovered(texts(facts.tools@), calls),
                    );
                    &&& commands_of(calls) == discovery_commands(texts(facts.tools@))
                    &&& match r {
                        Some(report) => reports(self.distro.name@, findings, report),
                        None => views_total(findings.0) > u64::MAX,
                    }
                } else {
                    r is None && calls.len() == 0
                }
            }),
    {
        let ghost before = runner.calls();
        proof {
            lemma_nothing_made(before);
        }
        let paths = self.distro.package_cache_paths();
        if add_measured(&facts.sizes, &paths).is_none() || !do_models_fit(
            self.home.as_str(),
            &facts.models,
        ) {
            return None;
        }
        let (items, warnings) = self.collect(runner, facts);
        let ghost found = items@;
        let ghost connections = discovered(
            texts(facts.tools@),
            made(before, runner.calls()),
        );
        let ghost findings = scan_findings(
            self.home@,
            self.distro.family,
            self.distro.name@,
            *facts,
            connections,
        );
        proof {
            lemma_views_total(found);
        }
        if add_items(&items).is_none() {
            return None;
        }
        proof {
            assert forall|group: CleanupGroup| #[trigger] group_bytes(found, group) <= u64::MAX by {
                group_is_part_of_total(found, group);
            }
        }
        let sorted = sort_items_by_group_size(items);
        proof {
            sorting_keeps_totals(found, sorted@, CleanupGroup::System);
        }
        let report = ScanReport::from_items(self.distro.name.clone(), sorted, warnings);
        proof {
            assert(item_views(found) == findings.0);
            assert(reports(self.distro.name@, findings, report));
        }
        Some(report)
    }
}

/// A group is summed up exactly where it has items, with the bytes of all of them.
pub proof fn groups_with_items_are_summed_up(items: Seq<CleanupItem>, group: CleanupGroup)
    requires
        groups_fit(items),
    ensures
        (exists|i: int| 0 <= i < items.len() && (#[trigger] items[i]).group == group)
            <==> exists|k: int|
            0 <= k < group_sums(items).len() && (#[trigger] group_sums(items)[k]).0 == group,
        forall|k: int|
            0 <= k < group_sums(items).len() ==> (#[trigger] group_sums(items)[k]).1 == sum_of(
                items,
                adds_to(group_sums(items)[k].0),
            ),
{
    let keep = |group: CleanupGroup| group_sum(items, group);
    let sums = group_sums(items);
    let places = kept_in_order(all_groups(), keep);
    every_group_is_listed(group);
    if group_occurs(items, group) {
        let p = choose|p: int| 0 <= p < all_groups().len() && all_groups()[p] == group;
        assert(keep(all_groups()[p]) is Some);
        let k = choose|k: int| 0 <= k < places.len() && places[k] == p;
        assert(sums[k].0 == group);
    }
    if exists|k: int| 0 <= k < sums.len() && (#[trigger] sums[k]).0 == group {
        let k = choose|k: int| 0 <= k < sums.len() && (#[trigger] sums[k]).0 == group;
        assert(keep(all_groups()[places[k]]) == Some(sums[k]));
        assert(group_occurs(items, group));
    }
    assert forall|k: int| 0 <= k < sums.len() implies (#[trigger] sums[k]).1 == sum_of(
        items,
        adds_to(sums[k].0),
    ) by {
        assert(keep(all_groups()[places[k]]) == Some(sums[k]));
        let own = sums[k].0;
        lemma_group_weight(items, own);
        lemma_same_weight(items, own);
        assert(group_bytes(items, own) <= u64::MAX);
    }
}

proof fn lemma_same_weight(items: Seq<CleanupItem>, group: CleanupGroup)
    ensures
        sum_of(items, group_weight(group)) == sum_of(items, adds_to(group)),
    decreases items.len(),
{
    if items.len() > 0 {
        lemma_same_weight(items.drop_last(), group);
    }
}

} // verus!
