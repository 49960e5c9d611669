//! The main menu.
use vstd::prelude::*;
use vstd::string::*;

use crate::text::{has_prefix, pad_right, padded_right, push_text, texts};

verus! {

#[derive(Debug, Clone, Copy, PartialEq, Eq, Structural)]
pub enum MenuAction {
    Clean,
    Uninstall,
    Analyze,
    Purge,
    Status,
    History,
    Update,
}

/// The actions in the order of the menu.
pub open spec fn menu_actions() -> Seq<MenuAction> {
    seq![
        MenuAction::Clean,
        MenuAction::Uninstall,
        MenuAction::Analyze,
        MenuAction::Purge,
        MenuAction::Status,
        MenuAction::History,
        MenuAction::Update,
    ]
}

pub open spec fn title_of(action: MenuAction) -> Seq<char> {
    match action {
        MenuAction::Clean => "Clean"@,
        MenuAction::Uninstall => "Uninstall"@,
        MenuAction::Analyze => "Analyze"@,
        MenuAction::Purge => "Purge"@,
        MenuAction::Status => "Status"@,
        MenuAction::History => "History"@,
        MenuAction::Update => "Update"@,
    }
}

pub open spec fn subtitle_of(action: MenuAction) -> Seq<char> {
    match action {
        MenuAction::Clean => "Review known package, application, and developer caches"@,
        MenuAction::Uninstall => "List desktop applications and review exact removal plans"@,
        MenuAction::Analyze => "Explore disk usage and remove selected large personal files"@,
        MenuAction::Purge => "Find old project build artifacts"@,
        MenuAction::Status => "Show CPU, memory, disk, and uptime information"@,
        MenuAction::History => "Review previous cleanup operations"@,
        MenuAction::Update => "Install a checksum-verified GitHub release"@,
    }
}

pub fn action_title(action: MenuAction) -> (r: &'static str)
    ensures
        r@ == title_of(action),
{
    match action {
        MenuAction::Clean => "Clean",
        MenuAction::Uninstall => "Uninstall",
        MenuAction::Analyze => "Analyze",
        MenuAction::Purge => "Purge",
        MenuAction::Status => "Status",
        MenuAction::History => "History",
        MenuAction::Update => "Update",
    }
}

pub fn action_subtitle(action: MenuAction) -> (r: &'static str)
    ensures
        r@ == subtitle_of(action),
{
    match action {
        MenuAction::Clean => "Review known package, application, and developer caches",
        MenuAction::Uninstall => "List desktop applications and review exact removal plans",
        MenuAction::Analyze => "Explore disk usage and remove selected large personal files",
        MenuAction::Purge => "Find old project build artifacts",
        MenuAction::Status => "Show CPU, memory, disk, and uptime information",
        MenuAction::History => "Review previous cleanup operations",
        MenuAction::Update => "Install a checksum-verified GitHub release",
    }
}

/// The action at a place of the menu.
pub fn action_at(index: usize) -> (r: MenuAction)
    requires
        index < 7,
    ensures
        r == menu_actions()[index as int],
{
    match index {
        0 => MenuAction::Clean,
        1 => MenuAction::Uninstall,
        2 => MenuAction::Analyze,
        3 => MenuAction::Purge,
        4 => MenuAction::Status,
        5 => MenuAction::History,
        _ => MenuAction::Update,
    }
}

pub open spec fn menu_row(action: MenuAction) -> Seq<char> {
    padded_right(title_of(action), 10) + subtitle_of(action)
}

/// The rows of the menu.
pub fn menu_rows() -> (r: Vec<String>)
    ensures
        texts(r@) == menu_actions().map_values(|action: MenuAction| menu_row(action)),
{
    let ghost all = menu_actions().map_values(|action: MenuAction| menu_row(action));
    let mut out: Vec<String> = Vec::new();
    let mut i: usize = 0;
    while i < 7
        invariant
            i <= 7,
            all == menu_actions().map_values(|action: MenuAction| menu_row(action)),
            texts(out@) =~= all.take(i as int),
        decreases 7 - i,
    {
        let action = action_at(i);
        push_text(
            &mut out,
            pad_right(action_title(action), 10).concat(action_subtitle(action)),
        );
        i = i + 1;
    }
    proof {
        assert(all.take(7) =~= all);
    }
    out
}

// ---------------------------------------------------------------------------------------
// Laws
// ---------------------------------------------------------------------------------------


/// Every action stands in the menu once, and its row starts with its title.
pub proof fn every_action_is_in_the_menu(action: MenuAction)
    ensures
        menu_actions().contains(action),
        menu_actions().no_duplicates(),
        has_prefix(menu_row(action), title_of(action)),
{
    let all = menu_actions();
    assert(all[0] == MenuAction::Clean && all[1] == MenuAction::Uninstall && all[2]
        == MenuAction::Analyze && all[3] == MenuAction::Purge && all[4] == MenuAction::Status
        && all[5] == MenuAction::History && all[6] == MenuAction::Update);
    let title = title_of(action);
    assert(menu_row(action).take(title.len() as int) =~= title);
}

/// Titles tell the actions apart.
pub proof fn menu_titles_differ(a: MenuAction, b: MenuAction)
    requires
        title_of(a) == title_of(b),
    ensures
        a == b,
{
    reveal_strlit("Clean");
    reveal_strlit("Uninstall");
    reveal_strlit("Analyze");
    reveal_strlit("Purge");
    reveal_strlit("Status");
    reveal_strlit("History");
    reveal_strlit("Update");
    assert("Clean"@[0] == 'C' && "Uninstall"@[1] == 'n' && "Analyze"@[0] == 'A' && "Purge"@[0]
        == 'P' && "Status"@[0] == 'S' && "History"@[0] == 'H' && "Update"@[1] == 'p');
    assert("Uninstall"@[0] == 'U' && "Update"@[0] == 'U');
}

} // verus!
