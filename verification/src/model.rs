//! What a scan finds and what a cleanup reports.
use vstd::prelude::*;
use vstd::string::*;

use crate::order::{is_ordering, lemma_places_differ, sort_stable, stably_sorted, sum_of, Ranked};
use crate::text::{copy_texts, is_before, lemma_text_order, text_before, texts};

verus! {

/// The five areas in which a scan looks.
#[derive(Debug, Clone, Copy, PartialEq, Eq, Hash, Structural)]
pub enum CleanupGroup {
    System,
    User,
    Dev,
    Containers,
    Models,
}

pub open spec fn group_title(group: CleanupGroup) -> Seq<char> {
    match group {
        CleanupGroup::System => "System & packages"@,
        CleanupGroup::User => "User & app caches"@,
        CleanupGroup::Dev => "Developer caches"@,
        CleanupGroup::Containers => "Docker, Podman & Flatpak"@,
        CleanupGroup::Models => "LLM model caches"@,
    }
}

/// The groups in the order in which they are listed before they are ranked.
pub open spec fn all_groups() -> Seq<CleanupGroup> {
    seq![
        CleanupGroup::System,
        CleanupGroup::User,
        CleanupGroup::Dev,
        CleanupGroup::Containers,
        CleanupGroup::Models,
    ]
}

impl CleanupGroup {
    /// Every group, in listing order.
    pub fn all() -> (r: [CleanupGroup; 5])
        ensures
            r@ == all_groups(),
    {
        let groups = [
            CleanupGroup::System,
            CleanupGroup::User,
            CleanupGroup::Dev,
            CleanupGroup::Containers,
            CleanupGroup::Models,
        ];
        proof {
            assert(groups@ =~= all_groups());
        }
        groups
    }

    pub fn title(self) -> (r: &'static str)
        ensures
            r@ == group_title(self),
    {
        match self {
            CleanupGroup::System => "System & packages",
            CleanupGroup::User => "User & app caches",
            CleanupGroup::Dev => "Developer caches",
            CleanupGroup::Containers => "Docker, Podman & Flatpak",
            CleanupGroup::Models => "LLM model caches",
        }
    }
}

#[derive(Debug, Clone, Copy, PartialEq, Eq, Structural)]
pub enum Risk {
    Low,
    Elevated,
    Explicit,
}

/// A command line with the privilege that it needs.
#[derive(Debug, PartialEq, Eq)]
pub struct CommandSpec {
    pub program: String,
    pub args: Vec<String>,
    pub requires_root: bool,
}

/// What removing an item means.
#[derive(Debug, PartialEq, Eq)]
pub enum CleanupAction {
    RemovePath { path: String, contents_only: bool },
    /// `force` marks a removal that the analyze screen's forcing gestures authorized. They
    /// relax the size floor, the repository guard and the protected locations; never the checks
    /// that keep a removal below the home directory and off symbolic links.
    RemovePersonalFile { path: String, force: bool },
    Command { program: String, args: Vec<String>, requires_root: bool },
    CommandSequence { commands: Vec<CommandSpec> },
}

/// Something that a cleanup can remove.
#[derive(Debug, PartialEq, Eq)]
pub struct CleanupItem {
    pub id: String,
    pub group: CleanupGroup,
    pub label: String,
    pub estimated_bytes: u64,
    pub risk: Risk,
    pub action: CleanupAction,
}

#[derive(Debug, Clone, Copy, PartialEq, Eq)]
pub struct GroupSummary {
    pub group: CleanupGroup,
    pub estimated_bytes: u64,
    pub item_count: usize,
}

#[derive(Debug, PartialEq, Eq)]
pub struct ScanReport {
    pub distribution: String,
    pub items: Vec<CleanupItem>,
    pub groups: Vec<GroupSummary>,
    pub estimated_total_bytes: u64,
    pub warnings: Vec<String>,
}

/// How the removal of one item ended.
#[derive(Debug, PartialEq, Eq)]
pub struct ActionResult {
    pub item_id: String,
    pub label: String,
    pub success: bool,
    pub dry_run: bool,
    pub estimated_bytes: u64,
    pub message: String,
}

// ---------------------------------------------------------------------------------------
// Views
// ---------------------------------------------------------------------------------------

pub struct CommandView {
    pub program: Seq<char>,
    pub args: Seq<Seq<char>>,
    pub requires_root: bool,
}

pub enum ActionView {
    RemovePath { path: Seq<char>, contents_only: bool },
    RemovePersonalFile { path: Seq<char>, force: bool },
    Command(CommandView),
    CommandSequence(Seq<CommandView>),
}

pub struct ItemView {
    pub id: Seq<char>,
    pub group: CleanupGroup,
    pub label: Seq<char>,
    pub estimated_bytes: u64,
    pub risk: Risk,
    pub action: ActionView,
}

pub struct ResultView {
    pub item_id: Seq<char>,
    pub label: Seq<char>,
    pub success: bool,
    pub dry_run: bool,
    pub estimated_bytes: u64,
    pub message: Seq<char>,
}

impl View for CommandSpec {
    type V = CommandView;

    open spec fn view(&self) -> CommandView {
        CommandView {
            program: self.program@,
            args: texts(self.args@),
            requires_root: self.requires_root,
        }
    }
}

pub open spec fn command_views(commands: Seq<CommandSpec>) -> Seq<CommandView> {
    commands.map_values(|command: CommandSpec| command@)
}

impl View for CleanupAction {
    type V = ActionView;

    open spec fn view(&self) -> ActionView {
        match self {
            CleanupAction::RemovePath { path, contents_only } => ActionView::RemovePath {
                path: path@,
                contents_only: *contents_only,
            },
            CleanupAction::RemovePersonalFile { path, force } => ActionView::RemovePersonalFile {
                path: path@,
                force: *force,
            },
            CleanupAction::Command { program, args, requires_root } => ActionView::Command(
                CommandView {
                    program: program@,
                    args: texts(args@),
                    requires_root: *requires_root,
                },
            ),
            CleanupAction::CommandSequence { commands } => ActionView::CommandSequence(
                command_views(commands@),
            ),
        }
    }
}

impl View for CleanupItem {
    type V = ItemView;

    open spec fn view(&self) -> ItemView {
        ItemView {
            id: self.id@,
            group: self.group,
            label: self.label@,
            estimated_bytes: self.estimated_bytes,
            risk: self.risk,
            action: self.action@,
        }
    }
}

pub open spec fn item_views(items: Seq<CleanupItem>) -> Seq<ItemView> {
    items.map_values(|item: CleanupItem| item@)
}

impl View for ActionResult {
    type V = ResultView;

    open spec fn view(&self) -> ResultView {
        ResultView {
            item_id: self.item_id@,
            label: self.label@,
            success: self.success,
            dry_run: self.dry_run,
            estimated_bytes: self.estimated_bytes,
            message: self.message@,
        }
    }
}

pub open spec fn result_views(results: Seq<ActionResult>) -> Seq<ResultView> {
    results.map_values(|result: ActionResult| result@)
}

impl Clone for CommandSpec {
    fn clone(&self) -> (r: Self)
        ensures
            r@ == self@,
    {
        CommandSpec {
            program: self.program.clone(),
            args: copy_texts(&self.args),
            requires_root: self.requires_root,
        }
    }
}

fn copy_commands(commands: &Vec<CommandSpec>) -> (r: Vec<CommandSpec>)
    ensures
        command_views(r@) == command_views(commands@),
{
    let mut out: Vec<CommandSpec> = Vec::new();
    let mut i: usize = 0;
    while i < commands.len()
        invariant
            i <= commands@.len(),
            command_views(out@) =~= command_views(commands@).take(i as int),
        decreases commands.len() - i,
    {
        let copy = commands[i].clone();
        let ghost before = out@;
        out.push(copy);
        proof {
            assert(command_views(out@) =~= command_views(before).push(copy@));
            assert(command_views(commands@).take(i + 1) =~= command_views(commands@).take(
                i as int,
            ).push(commands@[i as int]@));
        }
        i = i + 1;
    }
    proof {
        assert(command_views(commands@).take(commands@.len() as int) =~= command_views(commands@));
    }
    out
}

impl Clone for CleanupAction {
    fn clone(&self) -> (r: Self)
        ensures
            r@ == self@,
    {
        match self {
            CleanupAction::RemovePath { path, contents_only } => CleanupAction::RemovePath {
                path: path.clone(),
                contents_only: *contents_only,
            },
            CleanupAction::RemovePersonalFile { path, force } => CleanupAction::RemovePersonalFile {
                path: path.clone(),
                force: *force,
            },
            CleanupAction::Command { program, args, requires_root } => CleanupAction::Command {
                program: program.clone(),
                args: copy_texts(args),
                requires_root: *requires_root,
            },
            CleanupAction::CommandSequence { commands } => CleanupAction::CommandSequence {
                commands: copy_commands(commands),
            },
        }
    }
}

impl Clone for CleanupItem {
    fn clone(&self) -> (r: Self)
        ensures
            r@ == self@,
    {
        CleanupItem {
            id: self.id.clone(),
            group: self.group,
            label: self.label.clone(),
            estimated_bytes: self.estimated_bytes,
            risk: self.risk,
            action: self.action.clone(),
        }
    }
}

impl Clone for ActionResult {
    fn clone(&self) -> (r: Self)
        ensures
            r@ == self@,
    {
        ActionResult {
            item_id: self.item_id.clone(),
            label: self.label.clone(),
            success: self.success,
            dry_run: self.dry_run,
            estimated_bytes: self.estimated_bytes,
            message: self.message.clone(),
        }
    }
}

// ---------------------------------------------------------------------------------------
// Reports
// ---------------------------------------------------------------------------------------

/// The bytes of the items of one group.
pub open spec fn group_bytes(items: Seq<CleanupItem>, group: CleanupGroup) -> nat
    decreases items.len(),
{
    if items.len() == 0 {
        0
    } else {
        group_bytes(items.drop_last(), group) + if items.last().group == group {
            items.last().estimated_bytes as nat
        } else {
            0
        }
    }
}

/// How many items a group has.
pub open spec fn group_count(items: Seq<CleanupItem>, group: CleanupGroup) -> nat
    decreases items.len(),
{
    if items.len() == 0 {
        0
    } else {
        group_count(items.drop_last(), group) + if items.last().group == group {
            1nat
        } else {
            0nat
        }
    }
}

/// The bytes of all items.
pub open spec fn total_bytes(items: Seq<CleanupItem>) -> nat
    decreases items.len(),
{
    if items.len() == 0 {
        0
    } else {
        total_bytes(items.drop_last()) + items.last().estimated_bytes as nat
    }
}

/// The summary of each group, in listing order.
pub open spec fn group_summaries(items: Seq<CleanupItem>) -> Seq<GroupSummary> {
    all_groups().map_values(
        |group: CleanupGroup|
            GroupSummary {
                group,
                estimated_bytes: group_bytes(items, group) as u64,
                item_count: group_count(items, group) as usize,
            },
    )
}

impl Ranked for GroupSummary {
    /// The larger group first; groups of one size by title.
    open spec fn ranks_before(self, other: Self) -> bool {
        ||| self.estimated_bytes > other.estimated_bytes
        ||| self.estimated_bytes == other.estimated_bytes && text_before(
            group_title(self.group),
            group_title(other.group),
        )
    }

    fn is_before(&self, other: &Self) -> (r: bool) {
        if self.estimated_bytes != other.estimated_bytes {
            self.estimated_bytes > other.estimated_bytes
        } else {
            is_before(self.group.title(), other.group.title())
        }
    }

    proof fn rank_is_weak_order(a: Self, b: Self, c: Self) {
        lemma_text_order(group_title(a.group), group_title(b.group), group_title(c.group));
        lemma_text_order(group_title(c.group), group_title(a.group), group_title(b.group));
        lemma_text_order(group_title(c.group), group_title(b.group), group_title(a.group));
    }
}

pub proof fn lemma_bytes_grow(items: Seq<CleanupItem>, upto: int)
    requires
        0 <= upto <= items.len(),
    ensures
        total_bytes(items.take(upto)) <= total_bytes(items),
    decreases items.len(),
{
    if upto < items.len() {
        lemma_bytes_grow(items.drop_last(), upto);
        assert(items.drop_last().take(upto) =~= items.take(upto));
    } else {
        assert(items.take(upto) =~= items);
    }
}

/// What a group holds is part of the whole.
pub proof fn group_is_part_of_total(items: Seq<CleanupItem>, group: CleanupGroup)
    ensures
        group_bytes(items, group) <= total_bytes(items),
        group_count(items, group) <= items.len(),
    decreases items.len(),
{
    if items.len() > 0 {
        group_is_part_of_total(items.drop_last(), group);
    }
}

/// The groups together hold every item once: their bytes add up to the total, and their counts
/// to the number of items.
pub proof fn groups_add_up_to_total(items: Seq<CleanupItem>)
    ensures
        group_bytes(items, CleanupGroup::System) + group_bytes(items, CleanupGroup::User)
            + group_bytes(items, CleanupGroup::Dev) + group_bytes(items, CleanupGroup::Containers)
            + group_bytes(items, CleanupGroup::Models) == total_bytes(items),
        group_count(items, CleanupGroup::System) + group_count(items, CleanupGroup::User)
            + group_count(items, CleanupGroup::Dev) + group_count(items, CleanupGroup::Containers)
            + group_count(items, CleanupGroup::Models) == items.len(),
    decreases items.len(),
{
    if items.len() > 0 {
        groups_add_up_to_total(items.drop_last());
    }
}

fn summarize_group(items: &Vec<CleanupItem>, group: CleanupGroup) -> (r: GroupSummary)
    requires
        total_bytes(items@) <= u64::MAX,
    ensures
        r.group == group,
        r.estimated_bytes == group_bytes(items@, group),
        r.item_count == group_count(items@, group),
{
    let mut estimated_bytes: u64 = 0;
    let mut item_count: usize = 0;
    let mut i: usize = 0;
    while i < items.len()
        invariant
            i <= items@.len(),
            total_bytes(items@) <= u64::MAX,
            estimated_bytes == group_bytes(items@.take(i as int), group),
            item_count == group_count(items@.take(i as int), group),
            item_count <= i,
        decreases items.len() - i,
    {
        proof {
            assert(items@.take(i + 1).drop_last() =~= items@.take(i as int));
            lemma_bytes_grow(items@, i + 1);
            group_is_part_of_total(items@.take(i as int), group);
        }
        if items[i].group == group {
            estimated_bytes = estimated_bytes + items[i].estimated_bytes;
            item_count = item_count + 1;
        }
        i = i + 1;
    }
    proof {
        assert(items@.take(items@.len() as int) =~= items@);
    }
    GroupSummary { group, estimated_bytes, item_count }
}

impl ScanReport {
    /// The report on `items`: every group with its share, the largest group first.
    pub fn from_items(
        distribution: String,
        items: Vec<CleanupItem>,
        warnings: Vec<String>,
    ) -> (r: ScanReport)
        requires
            total_bytes(items@) <= u64::MAX,
        ensures
            r.distribution == distribution,
            r.items == items,
            r.warnings == warnings,
            r.estimated_total_bytes == total_bytes(items@),
            stably_sorted(group_summaries(items@), r.groups@),
    {
        let groups = CleanupGroup::all();
        let mut summaries: Vec<GroupSummary> = Vec::new();
        let mut i: usize = 0;
        while i < 5
            invariant
                i <= 5,
                total_bytes(items@) <= u64::MAX,
                groups@ == all_groups(),
                summaries@ =~= group_summaries(items@).take(i as int),
            decreases 5 - i,
        {
            let summary = summarize_group(&items, groups[i as usize]);
            proof {
                assert(group_summaries(items@)[i as int] == summary);
            }
            summaries.push(summary);
            i = i + 1;
        }
        proof {
            assert(summaries@ =~= group_summaries(items@));
        }
        let mut estimated_total_bytes: u64 = 0;
        let mut j: usize = 0;
        while j < items.len()
            invariant
                j <= items@.len(),
                total_bytes(items@) <= u64::MAX,
                estimated_total_bytes == total_bytes(items@.take(j as int)),
            decreases items.len() - j,
        {
            proof {
                assert(items@.take(j + 1).drop_last() =~= items@.take(j as int));
                lemma_bytes_grow(items@, j + 1);
            }
            estimated_total_bytes = estimated_total_bytes + items[j].estimated_bytes;
            j = j + 1;
        }
        proof {
            assert(items@.take(items@.len() as int) =~= items@);
        }
        let groups = sort_stable(summaries);
        ScanReport { distribution, items, groups, estimated_total_bytes, warnings }
    }
}

// ---------------------------------------------------------------------------------------
// Laws
// ---------------------------------------------------------------------------------------

/// The bytes that an item adds to a group: its own where it belongs to it.
pub open spec fn adds_to(group: CleanupGroup) -> spec_fn(CleanupItem) -> nat {
    |item: CleanupItem|
        if item.group == group {
            item.estimated_bytes as nat
        } else {
            0
        }
}

proof fn lemma_group_sums(items: Seq<CleanupItem>, group: CleanupGroup)
    ensures
        group_bytes(items, group) == sum_of(items, adds_to(group)),
        group_count(items, group) == items.filter(|item: CleanupItem| item.group == group).len(),
        total_bytes(items) == sum_of(items, |item: CleanupItem| item.estimated_bytes as nat),
    decreases items.len(),
{
    reveal(Seq::filter);
    if items.len() > 0 {
        lemma_group_sums(items.drop_last(), group);
    }
}

/// The summary at `k` is the only one of the group, and says how many items it has and how many
/// bytes they hold together.
pub open spec fn sums_up(
    items: Seq<CleanupItem>,
    groups: Seq<GroupSummary>,
    group: CleanupGroup,
    k: int,
) -> bool {
    &&& 0 <= k < groups.len()
    &&& groups[k].group == group
    &&& groups[k].estimated_bytes == sum_of(items, adds_to(group))
    &&& groups[k].item_count == items.filter(|item: CleanupItem| item.group == group).len()
    &&& forall|l: int| 0 <= l < groups.len() && l != k ==> (#[trigger] groups[l]).group != group
}

/// The place of a group in the list of all.
spec fn group_place(group: CleanupGroup) -> int {
    match group {
        CleanupGroup::System => 0,
        CleanupGroup::User => 1,
        CleanupGroup::Dev => 2,
        CleanupGroup::Containers => 3,
        CleanupGroup::Models => 4,
    }
}

proof fn lemma_group_place(items: Seq<CleanupItem>, p: int)
    requires
        0 <= p < 5,
    ensures
        group_summaries(items).len() == 5,
        group_place(group_summaries(items)[p].group) == p,
        group_summaries(items)[p].estimated_bytes == group_bytes(
            items,
            group_summaries(items)[p].group,
        ) as u64,
        group_summaries(items)[p].item_count == group_count(
            items,
            group_summaries(items)[p].group,
        ) as usize,
{
    let all = all_groups();
    assert(all[0] == CleanupGroup::System && all[1] == CleanupGroup::User && all[2]
        == CleanupGroup::Dev && all[3] == CleanupGroup::Containers && all[4]
        == CleanupGroup::Models);
}

/// A report speaks of every group once, also of one without items, and says how many items it has
/// and how many bytes they hold together.
pub proof fn every_group_is_summed_up(
    items: Seq<CleanupItem>,
    groups: Seq<GroupSummary>,
    group: CleanupGroup,
) -> (k: int)
    requires
        total_bytes(items) <= u64::MAX,
        items.len() <= usize::MAX,
        stably_sorted(group_summaries(items), groups),
    ensures
        groups.len() == 5,
        sums_up(items, groups, group, k),
{
    let all = group_summaries(items);
    let order = choose|order: Seq<int>| is_ordering(all, groups, order);
    let p = group_place(group);
    lemma_group_place(items, p);
    assert(order.contains(p));
    let k = choose|k: int| 0 <= k < order.len() && order[k] == p;
    assert(groups[k] == all[order[k]]);
    lemma_group_sums(items, group);
    group_is_part_of_total(items, group);
    assert forall|l: int| 0 <= l < groups.len() && l != k implies (#[trigger] groups[l]).group
        != group by {
        assert(groups[l] == all[order[l]]);
        lemma_group_place(items, order[l]);
        lemma_places_differ(all, groups, order, l, k);
    }
    k
}

/// The group that holds the most comes first; of groups that hold the same, the one whose title
/// comes first.
pub proof fn largest_group_comes_first(
    items: Seq<CleanupItem>,
    groups: Seq<GroupSummary>,
    k: int,
    l: int,
)
    requires
        stably_sorted(group_summaries(items), groups),
        0 <= k < l < groups.len(),
    ensures
        groups[k].estimated_bytes >= groups[l].estimated_bytes,
        groups[k].estimated_bytes == groups[l].estimated_bytes ==> !text_before(
            group_title(groups[l].group),
            group_title(groups[k].group),
        ),
{
    assert(!groups[l].ranks_before(groups[k]));
}

/// One more item adds its bytes to the total and to its own group, and to no other.
pub proof fn one_more_item_adds_to_its_group(
    items: Seq<CleanupItem>,
    item: CleanupItem,
    group: CleanupGroup,
)
    ensures
        total_bytes(items.push(item)) == total_bytes(items) + item.estimated_bytes,
        group_bytes(items.push(item), group) == group_bytes(items, group) + if item.group == group {
            item.estimated_bytes as nat
        } else {
            0
        },
        group_count(items.push(item), group) == group_count(items, group) + if item.group == group {
            1nat
        } else {
            0nat
        },
        total_bytes(Seq::empty()) == 0 && group_bytes(Seq::empty(), group) == 0 && group_count(
            Seq::empty(),
            group,
        ) == 0,
{
    assert(items.push(item).drop_last() =~= items);
}

/// Every group is one of those that are listed, and is listed once.
pub proof fn every_group_is_listed(group: CleanupGroup)
    ensures
        all_groups().contains(group),
        all_groups().no_duplicates(),
{
    let all = all_groups();
    assert(all[0] == CleanupGroup::System && all[1] == CleanupGroup::User && all[2]
        == CleanupGroup::Dev && all[3] == CleanupGroup::Containers && all[4]
        == CleanupGroup::Models);
}

} // verus!
