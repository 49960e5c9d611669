//! The `clean` command: which groups are cleaned, and which items that means.
use vstd::prelude::*;
use vstd::string::*;

use crate::cli::args::CleanArgs;
use crate::model::{
    group_title, item_views, CleanupGroup, CleanupItem, GroupSummary, ItemView, ScanReport,
};
use crate::number::{count_text, decimal};
use crate::size::{format_bytes, size_text};
use crate::text::{has_infix, has_prefix, occurs_at, push_text, texts};

verus! {

/// How `clean` goes on after the scan.
#[derive(Debug, PartialEq, Eq)]
pub enum CleanPlan {
    /// The report is all that was asked for.
    ReportOnly,
    /// The user chooses among these groups; nothing is chosen beforehand.
    Ask { groups: Vec<CleanupGroup>, labels: Vec<String> },
    /// These groups are cleaned.
    Groups(Vec<CleanupGroup>),
}

pub enum CleanPlanView {
    ReportOnly,
    Ask { groups: Seq<CleanupGroup>, labels: Seq<Seq<char>> },
    Groups(Seq<CleanupGroup>),
}

impl View for CleanPlan {
    type V = CleanPlanView;

    open spec fn view(&self) -> CleanPlanView {
        match self {
            CleanPlan::ReportOnly => CleanPlanView::ReportOnly,
            CleanPlan::Ask { groups, labels } => CleanPlanView::Ask {
                groups: groups@,
                labels: texts(labels@),
            },
            CleanPlan::Groups(groups) => CleanPlanView::Groups(groups@),
        }
    }
}

/// The groups that have items.
pub open spec fn filled_groups(groups: Seq<GroupSummary>) -> Seq<GroupSummary> {
    groups.filter(|summary: GroupSummary| summary.item_count > 0)
}

pub open spec fn groups_of(summaries: Seq<GroupSummary>) -> Seq<CleanupGroup> {
    summaries.map_values(|summary: GroupSummary| summary.group)
}

pub open spec fn group_label(summary: GroupSummary) -> Seq<char> {
    group_title(summary.group) + ": "@ + size_text(summary.estimated_bytes as nat) + " across "@
        + decimal(summary.item_count as nat) + " item(s)"@
}

/// The groups that are cleaned: those that were named; with `--yes` all that have items;
/// otherwise those that the user chooses. Without `--yes`, `--json` only reports.
pub open spec fn clean_plan(groups: Seq<GroupSummary>, args: CleanArgs) -> CleanPlanView {
    let filled = filled_groups(groups);
    if args.json && !args.yes {
        CleanPlanView::ReportOnly
    } else if args.groups@.len() > 0 {
        CleanPlanView::Groups(args.groups@)
    } else if args.yes || filled.len() == 0 {
        CleanPlanView::Groups(groups_of(filled))
    } else {
        CleanPlanView::Ask {
            groups: groups_of(filled),
            labels: filled.map_values(|summary: GroupSummary| group_label(summary)),
        }
    }
}

fn label_of(summary: &GroupSummary) -> (r: String)
    ensures
        r@ == group_label(*summary),
{
    summary.group.title().to_owned().concat(": ").concat(
        format_bytes(summary.estimated_bytes).as_str(),
    ).concat(" across ").concat(count_text(summary.item_count).as_str()).concat(" item(s)")
}

fn copy_groups(groups: &Vec<CleanupGroup>) -> (r: Vec<CleanupGroup>)
    ensures
        r@ == groups@,
{
    let mut out: Vec<CleanupGroup> = Vec::new();
    let mut i: usize = 0;
    while i < groups.len()
        invariant
            i <= groups@.len(),
            out@ =~= groups@.take(i as int),
        decreases groups.len() - i,
    {
        out.push(groups[i]);
        i = i + 1;
    }
    proof {
        assert(groups@.take(groups@.len() as int) =~= groups@);
    }
    out
}

/// How `clean` goes on after the scan.
pub fn choose_groups(report: &ScanReport, args: &CleanArgs) -> (r: CleanPlan)
    ensures
        r@ == clean_plan(report.groups@, *args),
{
    if args.json && !args.yes {
        return CleanPlan::ReportOnly;
    }
    if args.groups.len() > 0 {
        return CleanPlan::Groups(copy_groups(&args.groups));
    }
    let ghost all = report.groups@;
    let ghost test = |summary: GroupSummary| summary.item_count > 0;
    let mut groups: Vec<CleanupGroup> = Vec::new();
    let mut labels: Vec<String> = Vec::new();
    let mut i: usize = 0;
    proof {
        reveal(Seq::filter);
        assert(all.take(0).filter(test) =~= Seq::empty());
    }
    while i < report.groups.len()
        invariant
            i <= all.len(),
            all == report.groups@,
            test == (|summary: GroupSummary| summary.item_count > 0),
            groups@ =~= groups_of(all.take(i as int).filter(test)),
            texts(labels@) =~= all.take(i as int).filter(test).map_values(
                |summary: GroupSummary| group_label(summary),
            ),
        decreases all.len() - i,
    {
        proof {
            reveal(Seq::filter);
            assert(all.take(i + 1).drop_last() =~= all.take(i as int));
            assert(all.take(i + 1).last() == all[i as int]);
        }
        if report.groups[i].item_count > 0 {
            let ghost before = all.take(i as int).filter(test);
            groups.push(report.groups[i].group);
            push_text(&mut labels, label_of(&report.groups[i]));
            proof {
                assert(all.take(i + 1).filter(test) =~= before.push(all[i as int]));
            }
        }
        i = i + 1;
    }
    proof {
        assert(all.take(all.len() as int) =~= all);
        assert(groups@.len() == filled_groups(all).len());
    }
    if args.yes || groups.len() == 0 {
        CleanPlan::Groups(groups)
    } else {
        CleanPlan::Ask { groups, labels }
    }
}

/// The groups that the user chose.
pub fn chosen_groups(groups: &Vec<CleanupGroup>, chosen: &Vec<usize>) -> (r: Vec<CleanupGroup>)
    requires
        forall|i: int| 0 <= i < chosen@.len() ==> (#[trigger] chosen@[i]) < groups@.len(),
    ensures
        r@ == chosen@.map_values(|index: usize| groups@[index as int]),
{
    let ghost all = chosen@.map_values(|index: usize| groups@[index as int]);
    let mut out: Vec<CleanupGroup> = Vec::new();
    let mut i: usize = 0;
    while i < chosen.len()
        invariant
            i <= chosen@.len(),
            forall|i: int| 0 <= i < chosen@.len() ==> (#[trigger] chosen@[i]) < groups@.len(),
            all == chosen@.map_values(|index: usize| groups@[index as int]),
            out@ =~= all.take(i as int),
        decreases chosen.len() - i,
    {
        out.push(groups[chosen[i]]);
        i = i + 1;
    }
    proof {
        assert(all.take(chosen@.len() as int) =~= all);
    }
    out
}

fn has_group(groups: &Vec<CleanupGroup>, group: CleanupGroup) -> (r: bool)
    ensures
        r == groups@.contains(group),
{
    let mut i: usize = 0;
    while i < groups.len()
        invariant
            i <= groups@.len(),
            forall|j: int| 0 <= j < i ==> groups@[j] != group,
        decreases groups.len() - i,
    {
        if groups[i] == group {
            return true;
        }
        i = i + 1;
    }
    false
}

/// The items of some groups, in the order of the report.
pub open spec fn items_in(items: Seq<CleanupItem>, groups: Seq<CleanupGroup>) -> Seq<ItemView> {
    item_views(items).filter(|item: ItemView| groups.contains(item.group))
}

/// The items of some groups.
pub fn select_items(report: &ScanReport, groups: &Vec<CleanupGroup>) -> (r: Vec<CleanupItem>)
    ensures
        item_views(r@) == items_in(report.items@, groups@),
{
    let ghost all = item_views(report.items@);
    let ghost test = |item: ItemView| groups@.contains(item.group);
    let mut out: Vec<CleanupItem> = Vec::new();
    let mut i: usize = 0;
    proof {
        reveal(Seq::filter);
        assert(all.take(0).filter(test) =~= Seq::empty());
    }
    while i < report.items.len()
        invariant
            i <= report.items@.len(),
            all == item_views(report.items@),
            test == (|item: ItemView| groups@.contains(item.group)),
            item_views(out@) =~= all.take(i as int).filter(test),
        decreases report.items.len() - i,
    {
        proof {
            reveal(Seq::filter);
            assert(all.take(i + 1).drop_last() =~= all.take(i as int));
            assert(all.take(i + 1).last() == report.items@[i as int]@);
        }
        if has_group(groups, report.items[i].group) {
            let ghost before = out@;
            let item = report.items[i].clone();
            out.push(item);
            proof {
                assert(item_views(out@) =~= item_views(before).push(item@));
            }
        }
        i = i + 1;
    }
    proof {
        assert(all.take(all.len() as int) =~= all);
    }
    out
}

pub open spec fn progress_text(dry_run: bool, count: nat) -> Seq<char> {
    (if dry_run {
        "Previewing"@
    } else {
        "Cleaning"@
    }) + " "@ + decimal(count) + " item(s)."@
}

/// What is said before the items are dealt with.
pub fn progress_line(dry_run: bool, count: usize) -> (r: String)
    ensures
        r@ == progress_text(dry_run, count as nat),
{
    let verb = if dry_run {
        "Previewing"
    } else {
        "Cleaning"
    };
    verb.to_owned().concat(" ").concat(count_text(count).as_str()).concat(" item(s).")
}

// ---------------------------------------------------------------------------------------
// Laws
// ---------------------------------------------------------------------------------------

/// Without `--yes` nothing is cleaned unless it was named or chosen: no plan starts a cleanup
/// of groups that nobody named.
pub proof fn cleaning_needs_consent(groups: Seq<GroupSummary>, args: CleanArgs)
    requires
        !args.yes,
    ensures
        match clean_plan(groups, args) {
            CleanPlanView::Groups(chosen) => chosen == args.groups@ || chosen.len() == 0,
            _ => true,
        },
        args.json ==> clean_plan(groups, args) == CleanPlanView::ReportOnly,
{
}

/// An item is selected exactly where its group was chosen, whatever it is estimated to free, and
/// nothing else is selected.
pub proof fn items_are_selected_by_their_group(
    items: Seq<CleanupItem>,
    groups: Seq<CleanupGroup>,
    selected: Seq<ItemView>,
)
    requires
        selected == items_in(items, groups),
    ensures
        forall|i: int|
            0 <= i < items.len() ==> (selected.contains((#[trigger] items[i])@) <==> groups.contains(
                items[i].group,
            )),
        forall|k: int|
            0 <= k < selected.len() ==> item_views(items).contains(#[trigger] selected[k]),
        (forall|i: int| 0 <= i < items.len() ==> groups.contains((#[trigger] items[i]).group))
            ==> selected == item_views(items),
        (forall|i: int| 0 <= i < items.len() ==> !groups.contains((#[trigger] items[i]).group))
            ==> selected == Seq::<ItemView>::empty(),
    decreases items.len(),
{
    reveal(Seq::filter);
    let all = item_views(items);
    if items.len() > 0 {
        let before = items.drop_last();
        let earlier = items_in(before, groups);
        let last = items[items.len() - 1];
        items_are_selected_by_their_group(before, groups, earlier);
        one_more_item_is_selected(before, last, groups);
        assert(before.push(last) =~= items);
        assert(all =~= item_views(before).push(last@));
        assert forall|k: int| 0 <= k < selected.len() implies all.contains(
            #[trigger] selected[k],
        ) by {
            if k < earlier.len() {
                assert(item_views(before).contains(earlier[k]));
                let j = choose|j: int|
                    0 <= j < item_views(before).len() && item_views(before)[j] == earlier[k];
                assert(all[j] == selected[k]);
            } else {
                assert(all[items.len() - 1] == selected[k]);
            }
        }
        assert forall|i: int| 0 <= i < items.len() implies (selected.contains(
            (#[trigger] items[i])@,
        ) <==> groups.contains(items[i].group)) by {
            if i < before.len() {
                assert(before[i] == items[i]);
                if earlier.contains(items[i]@) {
                    let k = choose|k: int| 0 <= k < earlier.len() && earlier[k] == items[i]@;
                    assert(selected[k] == items[i]@);
                }
                if selected.contains(items[i]@) && !earlier.contains(items[i]@) {
                    let k = choose|k: int| 0 <= k < selected.len() && selected[k] == items[i]@;
                    assert(k == earlier.len());
                    assert(last@.group == items[i].group);
                }
            } else if groups.contains(last.group) {
                assert(selected[earlier.len() as int] == last@);
            } else if selected.contains(last@) {
                let k = choose|k: int| 0 <= k < selected.len() && selected[k] == last@;
                assert(item_views(before).contains(earlier[k]));
                let j = choose|j: int|
                    0 <= j < item_views(before).len() && item_views(before)[j] == earlier[k];
                assert(before[j]@ == last@);
                assert(before[j].group == last.group);
                assert(earlier.contains(before[j]@));
            }
        }
        if forall|i: int| 0 <= i < items.len() ==> groups.contains((#[trigger] items[i]).group) {
            assert forall|i: int| 0 <= i < before.len() implies groups.contains(
                (#[trigger] before[i]).group,
            ) by {
                assert(before[i] == items[i]);
            }
            assert(selected =~= all);
        }
        if forall|i: int| 0 <= i < items.len() ==> !groups.contains((#[trigger] items[i]).group) {
            assert forall|i: int| 0 <= i < before.len() implies !groups.contains(
                (#[trigger] before[i]).group,
            ) by {
                assert(before[i] == items[i]);
            }
            assert(selected =~= Seq::empty());
        }
    } else {
        assert(all =~= Seq::empty());
        assert(selected =~= Seq::empty());
    }
}

/// One more item in the report is selected behind the others where its group was chosen, and
/// changes nothing where it was not.
pub proof fn one_more_item_is_selected(
    items: Seq<CleanupItem>,
    item: CleanupItem,
    groups: Seq<CleanupGroup>,
)
    ensures
        items_in(items.push(item), groups) == if groups.contains(item.group) {
            items_in(items, groups).push(item@)
        } else {
            items_in(items, groups)
        },
{
    reveal(Seq::filter);
    assert(item_views(items.push(item)) =~= item_views(items).push(item@));
    assert(item_views(items.push(item)).drop_last() =~= item_views(items));
}

/// With `--yes` and no group named, every group that has items is cleaned and no other; what the
/// user is asked about are the same groups, one label each. Groups that were named are cleaned as
/// they were named, where the command does more than report.
pub proof fn filled_groups_are_offered(groups: Seq<GroupSummary>, args: CleanArgs, i: int)
    requires
        0 <= i < groups.len(),
    ensures
        match clean_plan(groups, args) {
            CleanPlanView::ReportOnly => args.json && !args.yes,
            CleanPlanView::Groups(chosen) => if args.groups@.len() > 0 {
                chosen == args.groups@
            } else {
                groups[i].item_count > 0 ==> args.yes && chosen.contains(groups[i].group)
            },
            CleanPlanView::Ask { groups: offered, labels } => {
                &&& !args.yes && args.groups@.len() == 0
                &&& labels.len() == offered.len() && offered.len() > 0
                &&& groups[i].item_count > 0 ==> offered.contains(groups[i].group)
            },
        },
        match clean_plan(groups, args) {
            CleanPlanView::ReportOnly => true,
            CleanPlanView::Groups(chosen) => args.groups@.len() > 0 || forall|k: int|
                0 <= k < chosen.len() ==> has_filled(groups, #[trigger] chosen[k]),
            CleanPlanView::Ask { groups: offered, labels } => forall|k: int|
                0 <= k < offered.len() ==> has_filled(groups, #[trigger] offered[k]),
        },
{
    let filled = filled_groups(groups);
    let test = |summary: GroupSummary| summary.item_count > 0;
    groups.lemma_filter_len(test);
    assert forall|k: int| 0 <= k < filled.len() implies has_filled(
        groups,
        #[trigger] groups_of(filled)[k],
    ) by {
        lemma_filled(groups, k);
    }
    if groups[i].item_count > 0 {
        groups.lemma_filter_contains(test, i);
        let k = choose|k: int| 0 <= k < filled.len() && filled[k] == groups[i];
        assert(groups_of(filled)[k] == groups[i].group);
    }
}

/// The report has items in the group.
pub open spec fn has_filled(groups: Seq<GroupSummary>, group: CleanupGroup) -> bool {
    exists|i: int|
        0 <= i < groups.len() && (#[trigger] groups[i]).item_count > 0 && groups[i].group == group
}

proof fn lemma_filled(groups: Seq<GroupSummary>, k: int)
    requires
        0 <= k < filled_groups(groups).len(),
    ensures
        has_filled(groups, filled_groups(groups)[k].group),
    decreases groups.len(),
{
    reveal(Seq::filter);
    let before = groups.drop_last();
    let last = groups.len() - 1;
    if k < filled_groups(before).len() {
        lemma_filled(before, k);
        let group = filled_groups(before)[k].group;
        let i = choose|i: int|
            0 <= i < before.len() && (#[trigger] before[i]).item_count > 0 && before[i].group
                == group;
        assert(groups[i] == before[i]);
    } else {
        assert(groups[last].item_count > 0);
    }
}

/// Selecting items takes every item whose group was chosen and no other, whatever it is estimated
/// to free; and choosing some groups and then the rest takes every item once.
pub proof fn selection_takes_whole_groups(
    report: &ScanReport,
    groups: &Vec<CleanupGroup>,
    selected: Vec<CleanupItem>,
    others: &Vec<CleanupGroup>,
    rest: Vec<CleanupItem>,
    i: int,
)
    requires
        call_ensures(select_items, (report, groups), selected),
        call_ensures(select_items, (report, others), rest),
        forall|group: CleanupGroup| #[trigger] groups@.contains(group) != others@.contains(group),
        0 <= i < report.items@.len(),
    ensures
        item_views(selected@).contains(report.items@[i]@) <==> groups@.contains(
            report.items@[i].group,
        ),
        selected@.len() + rest@.len() == report.items@.len(),
{
    items_are_selected_by_their_group(report.items@, groups@, item_views(selected@));
    lemma_groups_part(report.items@, groups@, others@);
    assert(item_views(selected@).len() == selected@.len());
    assert(item_views(rest@).len() == rest@.len());
}

proof fn lemma_groups_part(
    items: Seq<CleanupItem>,
    groups: Seq<CleanupGroup>,
    others: Seq<CleanupGroup>,
)
    requires
        forall|group: CleanupGroup| #[trigger] groups.contains(group) != others.contains(group),
    ensures
        items_in(items, groups).len() + items_in(items, others).len() == items.len(),
    decreases items.len(),
{
    if items.len() > 0 {
        let before = items.drop_last();
        lemma_groups_part(before, groups, others);
        one_more_item_is_selected(before, items.last(), groups);
        one_more_item_is_selected(before, items.last(), others);
        assert(before.push(items.last()) =~= items);
        assert(groups.contains(items.last().group) != others.contains(items.last().group));
    } else {
        reveal(Seq::filter);
        assert(item_views(items) =~= Seq::empty());
    }
}

/// A group is offered by its title, with what it holds and how many items it has.
pub proof fn group_label_says_what_it_holds(summary: GroupSummary)
    ensures
        has_prefix(group_label(summary), group_title(summary.group)),
        has_infix(group_label(summary), size_text(summary.estimated_bytes as nat)),
        has_infix(group_label(summary), decimal(summary.item_count as nat)),
{
    let label = group_label(summary);
    let title = group_title(summary.group);
    let size = size_text(summary.estimated_bytes as nat);
    let count = decimal(summary.item_count as nat);
    let at = (title + ": "@).len() as int;
    let later = (title + ": "@ + size + " across "@).len() as int;
    assert(label.take(title.len() as int) =~= title);
    assert(label.subrange(at, at + size.len()) =~= size);
    assert(occurs_at(label, size, at));
    assert(label.subrange(later, later + count.len()) =~= count);
    assert(occurs_at(label, count, later));
}

} // verus!
