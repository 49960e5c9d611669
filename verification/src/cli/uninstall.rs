//! The `uninstall` command: which applications are uninstalled.
use vstd::prelude::*;
use vstd::string::*;

use crate::cli::args::UninstallArgs;
use crate::cli::support::{add_warnings, warning_lines};
use crate::number::{count_text, decimal};
use crate::size::{format_bytes, size_text};
use crate::text::{
    chars_of, contains, has_infix, is_in, lower, occurs_at, pad_left, pad_right, padded_left,
    padded_right, push_text, same, text_of, texts, to_lower,
};
use crate::uninstall::{
    application_views, source_name, Application, ApplicationReport, ApplicationSource,
    ApplicationView, PreviewView, UninstallPreview,
};

verus! {

// ---------------------------------------------------------------------------------------
// Guards
// ---------------------------------------------------------------------------------------

/// Refuses an uninstall that would have to ask where nobody can answer, and one that is
/// confirmed but names nothing.
pub open spec fn uninstall_refusal(args: UninstallArgs, interactive: bool) -> Option<Seq<char>> {
    if !args.yes && !args.json && !interactive {
        Some(
            "uninstall needs an interactive terminal; use --app SOURCE:PACKAGE with --dry-run --yes to preview or --yes to confirm"@,
        )
    } else if args.yes && args.applications@.len() == 0 {
        Some(
            "uninstall --yes requires at least one exact --app SOURCE:PACKAGE selection"@,
        )
    } else {
        None
    }
}

pub fn validate_uninstall(args: &UninstallArgs, interactive: bool) -> (r: Result<(), String>)
    ensures
        match r {
            Ok(()) => uninstall_refusal(*args, interactive) is None,
            Err(message) => uninstall_refusal(*args, interactive) == Some(message@),
        },
{
    if !args.yes && !args.json && !interactive {
        return Err(
            "uninstall needs an interactive terminal; use --app SOURCE:PACKAGE with --dry-run --yes to preview or --yes to confirm".to_owned(),
        );
    }
    if args.yes && args.applications.len() == 0 {
        return Err(
            "uninstall --yes requires at least one exact --app SOURCE:PACKAGE selection".to_owned(),
        );
    }
    Ok(())
}

// ---------------------------------------------------------------------------------------
// Filters
// ---------------------------------------------------------------------------------------

/// The application passes every filter that was given: its source, a text in its name, package
/// or id without regard to case, and its exact id.
pub open spec fn passes(args: UninstallArgs, application: ApplicationView) -> bool {
    &&& args.source@.len() == 0 || args.source@.contains(application.source)
    &&& match args.search {
        Some(search) => has_infix(lower(application.name), lower(search@)) || has_infix(
            lower(application.package),
            lower(search@),
        ) || has_infix(lower(application.id), lower(search@)),
        None => true,
    }
    &&& args.applications@.len() == 0 || texts(args.applications@).contains(application.id)
}

fn has_source(sources: &Vec<ApplicationSource>, source: ApplicationSource) -> (r: bool)
    ensures
        r == sources@.contains(source),
{
    let mut i: usize = 0;
    while i < sources.len()
        invariant
            i <= sources@.len(),
            forall|j: int| 0 <= j < i ==> sources@[j] != source,
        decreases sources.len() - i,
    {
        if sources[i] == source {
            return true;
        }
        i = i + 1;
    }
    false
}

fn mentions(text: &str, needle: &str) -> (r: bool)
    ensures
        r == has_infix(lower(text@), needle@),
{
    contains(to_lower(text).as_str(), needle)
}

fn does_pass(args: &UninstallArgs, application: &Application) -> (r: bool)
    ensures
        r == passes(*args, application@),
{
    let by_source = args.source.len() == 0 || has_source(&args.source, application.source);
    let by_search = match &args.search {
        Some(search) => {
            let needle = to_lower(search.as_str());
            mentions(application.name.as_str(), needle.as_str()) || mentions(
                application.package.as_str(),
                needle.as_str(),
            ) || mentions(application.id.as_str(), needle.as_str())
        },
        None => true,
    };
    let by_id = args.applications.len() == 0 || is_in(
        &args.applications,
        application.id.as_str(),
    );
    by_source && by_search && by_id
}

/// The applications that pass every filter, in their order.
pub fn filter_applications(applications: &Vec<Application>, args: &UninstallArgs) -> (r: Vec<
    Application,
>)
    ensures
        application_views(r@) == application_views(applications@).filter(
            |application: ApplicationView| passes(*args, application),
        ),
{
    let ghost all = application_views(applications@);
    let ghost test = |application: ApplicationView| passes(*args, application);
    let mut out: Vec<Application> = Vec::new();
    let mut i: usize = 0;
    proof {
        reveal(Seq::filter);
        assert(all.take(0).filter(test) =~= Seq::empty());
    }
    while i < applications.len()
        invariant
            i <= applications@.len(),
            all == application_views(applications@),
            test == (|application: ApplicationView| passes(*args, application)),
            application_views(out@) =~= all.take(i as int).filter(test),
        decreases applications.len() - i,
    {
        proof {
            reveal(Seq::filter);
            assert(all.take(i + 1).drop_last() =~= all.take(i as int));
            assert(all.take(i + 1).last() == applications@[i as int]@);
        }
        if does_pass(args, &applications[i]) {
            let ghost before = out@;
            let application = applications[i].clone();
            out.push(application);
            proof {
                assert(application_views(out@) =~= application_views(before).push(application@));
            }
        }
        i = i + 1;
    }
    proof {
        assert(all.take(all.len() as int) =~= all);
    }
    out
}

// ---------------------------------------------------------------------------------------
// Selection
// ---------------------------------------------------------------------------------------

/// The position of the first application with that id, from the `i`-th on.
pub open spec fn application_position(
    applications: Seq<ApplicationView>,
    id: Seq<char>,
    i: int,
) -> Option<int>
    decreases applications.len() - i,
{
    if i < 0 || i >= applications.len() {
        None
    } else if applications[i].id == id {
        Some(i)
    } else {
        application_position(applications, id, i + 1)
    }
}

pub open spec fn unknown_application_text(id: Seq<char>) -> Seq<char> {
    "application "@ + id
        + " was not found in the current filtered catalog; run `tuxcleaner uninstall --json` to list valid IDs"@
}

/// The applications that were named, each once and in the order in which they were first
/// named. A name that is not in the catalog refuses them all.
pub open spec fn exact_applications(
    catalog: Seq<ApplicationView>,
    requested: Seq<Seq<char>>,
) -> Result<Seq<ApplicationView>, Seq<char>>
    decreases requested.len(),
{
    if requested.len() == 0 {
        Ok(Seq::empty())
    } else {
        match exact_applications(catalog, requested.drop_last()) {
            Err(message) => Err(message),
            Ok(before) => match application_position(catalog, requested.last(), 0) {
                None => Err(unknown_application_text(requested.last())),
                Some(i) => if application_position(before, requested.last(), 0) is Some {
                    Ok(before)
                } else {
                    Ok(before.push(catalog[i]))
                },
            },
        }
    }
}

fn find_application(applications: &Vec<Application>, id: &str) -> (r: Option<usize>)
    ensures
        match r {
            Some(i) => application_position(application_views(applications@), id@, 0) == Some(
                i as int,
            ) && i < applications@.len(),
            None => application_position(application_views(applications@), id@, 0) is None,
        },
{
    let ghost views = application_views(applications@);
    let mut i: usize = 0;
    while i < applications.len()
        invariant
            i <= applications@.len(),
            views == application_views(applications@),
            application_position(views, id@, 0) == application_position(views, id@, i as int),
        decreases applications.len() - i,
    {
        proof {
            assert(views[i as int] == applications@[i as int]@);
        }
        if same(applications[i].id.as_str(), id) {
            return Some(i);
        }
        i = i + 1;
    }
    None
}

pub open spec fn applications_result(result: Result<Vec<Application>, String>) -> Result<
    Seq<ApplicationView>,
    Seq<char>,
> {
    match result {
        Ok(applications) => Ok(application_views(applications@)),
        Err(message) => Err(message@),
    }
}

proof fn lemma_refused_stays(
    catalog: Seq<ApplicationView>,
    requested: Seq<Seq<char>>,
    upto: int,
)
    requires
        0 <= upto <= requested.len(),
        exact_applications(catalog, requested.take(upto)) is Err,
    ensures
        exact_applications(catalog, requested) == exact_applications(
            catalog,
            requested.take(upto),
        ),
    decreases requested.len() - upto,
{
    if upto == requested.len() {
        assert(requested.take(upto) =~= requested);
    } else {
        assert(requested.take(upto + 1).drop_last() =~= requested.take(upto));
        lemma_refused_stays(catalog, requested, upto + 1);
    }
}

/// The applications that were named, where all of them are in the catalog.
pub fn select_exact_applications(catalog: &Vec<Application>, requested: &Vec<String>) -> (r: Result<
    Vec<Application>,
    String,
>)
    ensures
        applications_result(r) == exact_applications(
            application_views(catalog@),
            texts(requested@),
        ),
{
    let ghost views = application_views(catalog@);
    let ghost wanted = texts(requested@);
    let mut selected: Vec<Application> = Vec::new();
    let mut i: usize = 0;
    proof {
        assert(application_views(selected@) =~= Seq::empty());
    }
    while i < requested.len()
        invariant
            i <= requested@.len(),
            views == application_views(catalog@),
            wanted == texts(requested@),
            exact_applications(views, wanted.take(i as int)) == Ok::<
                Seq<ApplicationView>,
                Seq<char>,
            >(application_views(selected@)),
        decreases requested.len() - i,
    {
        let id = requested[i].as_str();
        proof {
            assert(wanted.take(i + 1).drop_last() =~= wanted.take(i as int));
            assert(wanted.take(i + 1).last() == id@);
        }
        match find_application(catalog, id) {
            None => {
                proof {
                    lemma_refused_stays(views, wanted, i + 1);
                }
                return Err(
                    "application ".to_owned().concat(id).concat(
                        " was not found in the current filtered catalog; run `tuxcleaner uninstall --json` to list valid IDs",
                    ),
                );
            },
            Some(at) => {
                proof {
                    assert(views[at as int] == catalog@[at as int]@);
                }
                if find_application(&selected, id).is_none() {
                    let ghost before = selected@;
                    let application = catalog[at].clone();
                    selected.push(application);
                    proof {
                        assert(application_views(selected@) =~= application_views(before).push(
                            application@,
                        ));
                    }
                }
            },
        }
        i = i + 1;
    }
    proof {
        assert(wanted.take(requested@.len() as int) =~= wanted);
    }
    Ok(selected)
}

/// The applications that the user chose.
pub fn chosen_applications(applications: &Vec<Application>, chosen: &Vec<usize>) -> (r: Vec<
    Application,
>)
    requires
        forall|i: int| 0 <= i < chosen@.len() ==> (#[trigger] chosen@[i]) < applications@.len(),
    ensures
        application_views(r@) == chosen@.map_values(|index: usize| applications@[index as int]@),
{
    let ghost all = chosen@.map_values(|index: usize| applications@[index as int]@);
    let mut out: Vec<Application> = Vec::new();
    let mut i: usize = 0;
    while i < chosen.len()
        invariant
            i <= chosen@.len(),
            forall|i: int|
                0 <= i < chosen@.len() ==> (#[trigger] chosen@[i]) < applications@.len(),
            all == chosen@.map_values(|index: usize| applications@[index as int]@),
            application_views(out@) =~= all.take(i as int),
        decreases chosen.len() - i,
    {
        let ghost before = out@;
        let application = applications[chosen[i]].clone();
        out.push(application);
        proof {
            assert(application_views(out@) =~= application_views(before).push(application@));
            assert(all.take(i + 1) =~= all.take(i as int).push(all[i as int]));
        }
        i = i + 1;
    }
    proof {
        assert(all.take(chosen@.len() as int) =~= all);
    }
    out
}

/// How `uninstall` goes on once the catalog is filtered.
#[derive(Debug, PartialEq, Eq)]
pub enum UninstallPlan {
    /// The catalog is all that was asked for.
    ReportOnly,
    /// The request is refused.
    Refuse(String),
    /// There is nothing to uninstall.
    Nothing,
    /// The user chooses; nothing is chosen beforehand.
    Ask,
    /// These applications are uninstalled.
    Exact(Vec<Application>),
}

pub enum UninstallPlanView {
    ReportOnly,
    Refuse(Seq<char>),
    Nothing,
    Ask,
    Exact(Seq<ApplicationView>),
}

impl View for UninstallPlan {
    type V = UninstallPlanView;

    open spec fn view(&self) -> UninstallPlanView {
        match self {
            UninstallPlan::ReportOnly => UninstallPlanView::ReportOnly,
            UninstallPlan::Refuse(message) => UninstallPlanView::Refuse(message@),
            UninstallPlan::Nothing => UninstallPlanView::Nothing,
            UninstallPlan::Ask => UninstallPlanView::Ask,
            UninstallPlan::Exact(applications) => UninstallPlanView::Exact(
                application_views(applications@),
            ),
        }
    }
}

/// Without `--yes`, `--json` only reports. What was named has to be in the catalog, all of it;
/// where nothing was named, the user chooses.
pub open spec fn uninstall_plan(
    args: UninstallArgs,
    catalog: Seq<ApplicationView>,
) -> UninstallPlanView {
    if args.json && !args.yes {
        UninstallPlanView::ReportOnly
    } else if catalog.len() == 0 {
        if args.applications@.len() > 0 {
            UninstallPlanView::Refuse(
                "none of the requested application IDs were found in the current filtered catalog; run `tuxcleaner uninstall --json` to list valid IDs"@,
            )
        } else {
            UninstallPlanView::Nothing
        }
    } else if args.applications@.len() > 0 {
        match exact_applications(catalog, texts(args.applications@)) {
            Ok(selected) => UninstallPlanView::Exact(selected),
            Err(message) => UninstallPlanView::Refuse(message),
        }
    } else {
        UninstallPlanView::Ask
    }
}

pub fn plan_uninstall(args: &UninstallArgs, catalog: &Vec<Application>) -> (r: UninstallPlan)
    ensures
        r@ == uninstall_plan(*args, application_views(catalog@)),
{
    proof {
        assert(application_views(catalog@).len() == catalog@.len());
    }
    if args.json && !args.yes {
        return UninstallPlan::ReportOnly;
    }
    if catalog.len() == 0 {
        if args.applications.len() > 0 {
            return UninstallPlan::Refuse(
                "none of the requested application IDs were found in the current filtered catalog; run `tuxcleaner uninstall --json` to list valid IDs".to_owned(),
            );
        }
        return UninstallPlan::Nothing;
    }
    if args.applications.len() > 0 {
        return match select_exact_applications(catalog, &args.applications) {
            Ok(selected) => UninstallPlan::Exact(selected),
            Err(message) => UninstallPlan::Refuse(message),
        };
    }
    UninstallPlan::Ask
}

/// Whether the user is asked once more before applications are uninstalled.
pub fn needs_confirmation(args: &UninstallArgs) -> (r: bool)
    ensures
        r == (!args.dry_run && !args.yes),
{
    !args.dry_run && !args.yes
}

// ---------------------------------------------------------------------------------------
// Texts
// ---------------------------------------------------------------------------------------

/// A text cut to `maximum` characters, the last of which then stands for the rest.
pub open spec fn truncated(value: Seq<char>, maximum: nat) -> Seq<char> {
    let room = if maximum == 0 {
        0
    } else {
        maximum - 1
    };
    if value.len() > room {
        value.take(room) + "…"@
    } else {
        value
    }
}

pub fn truncate(value: &str, maximum: usize) -> (r: String)
    ensures
        r@ == truncated(value@, maximum as nat),
{
    let chars = chars_of(value);
    let room: usize = if maximum == 0 {
        0
    } else {
        maximum - 1
    };
    if chars.len() > room {
        let prefix = text_of(&chars, 0, room);
        proof {
            assert(prefix@ =~= value@.take(room as int));
        }
        prefix.concat("…")
    } else {
        value.to_owned()
    }
}

pub open spec fn application_label(application: ApplicationView) -> Seq<char> {
    padded_right(truncated(application.name, 28), 28) + " "@ + padded_left(
        size_text(application.installed_bytes as nat),
        9,
    ) + "  "@ + padded_right(source_name(application.source), 16) + " "@ + application.package
}

fn label_of(application: &Application) -> (r: String)
    ensures
        r@ == application_label(application@),
{
    let name = truncate(application.name.as_str(), 28);
    let size = format_bytes(application.installed_bytes);
    pad_right(name.as_str(), 28).concat(" ").concat(pad_left(size.as_str(), 9).as_str()).concat(
        "  ",
    ).concat(pad_right(application.source.name(), 16).as_str()).concat(" ").concat(
        application.package.as_str(),
    )
}

/// The applications among which the user chooses, as they are shown.
pub fn application_labels(applications: &Vec<Application>) -> (r: Vec<String>)
    ensures
        texts(r@) == application_views(applications@).map_values(
            |application: ApplicationView| application_label(application),
        ),
{
    let ghost all = application_views(applications@).map_values(
        |application: ApplicationView| application_label(application),
    );
    let mut out: Vec<String> = Vec::new();
    let mut i: usize = 0;
    while i < applications.len()
        invariant
            i <= applications@.len(),
            all == application_views(applications@).map_values(
                |application: ApplicationView| application_label(application),
            ),
            texts(out@) =~= all.take(i as int),
        decreases applications.len() - i,
    {
        push_text(&mut out, label_of(&applications[i]));
        proof {
            assert(all[i as int] == application_label(applications@[i as int]@));
        }
        i = i + 1;
    }
    proof {
        assert(all.take(applications@.len() as int) =~= all);
    }
    out
}

/// The lines on one application: its row, and the user data that stays.
pub open spec fn application_lines(application: ApplicationView) -> Seq<Seq<char>> {
    seq!["  "@ + application_label(application)] + (if application.user_data_bytes > 0 {
        seq![
            "    User data preserved: "@ + size_text(application.user_data_bytes as nat)
                + " across "@ + decimal(application.user_data_paths.len()) + " path(s)"@,
        ]
    } else {
        seq![]
    })
}

pub open spec fn all_application_lines(applications: Seq<ApplicationView>) -> Seq<Seq<char>>
    decreases applications.len(),
{
    if applications.len() == 0 {
        Seq::empty()
    } else {
        all_application_lines(applications.drop_last()) + application_lines(applications.last())
    }
}

/// The catalog, line by line.
pub open spec fn catalog_lines(
    distribution: Seq<char>,
    applications: Seq<ApplicationView>,
    warnings: Seq<Seq<char>>,
) -> Seq<Seq<char>> {
    seq![
        "Installed applications on "@ + distribution,
        ""@,
        "  "@ + padded_right("Application"@, 28) + " "@ + padded_left("Size"@, 9) + "  "@
            + padded_right("Source"@, 16) + " Package"@,
    ] + all_application_lines(applications) + warning_lines(warnings)
}

/// The catalog, line by line.
pub fn application_report_lines(report: &ApplicationReport) -> (r: Vec<String>)
    ensures
        texts(r@) == catalog_lines(
            report.distribution@,
            application_views(report.applications@),
            texts(report.warnings@),
        ),
{
    let mut out: Vec<String> = Vec::new();
    push_text(
        &mut out,
        "Installed applications on ".to_owned().concat(report.distribution.as_str()),
    );
    push_text(&mut out, "".to_owned());
    push_text(
        &mut out,
        "  ".to_owned().concat(pad_right("Application", 28).as_str()).concat(" ").concat(
            pad_left("Size", 9).as_str(),
        ).concat("  ").concat(pad_right("Source", 16).as_str()).concat(" Package"),
    );
    let ghost start = texts(out@);
    let ghost views = application_views(report.applications@);
    let mut i: usize = 0;
    proof {
        assert(start =~= seq![
            "Installed applications on "@ + report.distribution@,
            ""@,
            "  "@ + padded_right("Application"@, 28) + " "@ + padded_left("Size"@, 9) + "  "@
                + padded_right("Source"@, 16) + " Package"@,
        ]);
        assert(start + all_application_lines(views.take(0)) =~= start);
    }
    while i < report.applications.len()
        invariant
            i <= report.applications@.len(),
            views == application_views(report.applications@),
            texts(out@) == start + all_application_lines(views.take(i as int)),
        decreases report.applications.len() - i,
    {
        let application = &report.applications[i];
        let ghost before = texts(out@);
        proof {
            assert(views.take(i + 1).drop_last() =~= views.take(i as int));
            assert(views.take(i + 1).last() == application@);
            assert(texts(application.user_data_paths@).len() == application.user_data_paths@.len());
        }
        push_text(&mut out, "  ".to_owned().concat(label_of(application).as_str()));
        if application.user_data_bytes > 0 {
            push_text(
                &mut out,
                "    User data preserved: ".to_owned().concat(
                    format_bytes(application.user_data_bytes).as_str(),
                ).concat(" across ").concat(
                    count_text(application.user_data_paths.len()).as_str(),
                ).concat(" path(s)"),
            );
        }
        proof {
            assert(texts(out@) =~= before + application_lines(application@));
            assert(start + (all_application_lines(views.take(i as int)) + application_lines(
                application@,
            )) =~= before + application_lines(application@));
        }
        i = i + 1;
    }
    proof {
        assert(views.take(report.applications@.len() as int) =~= views);
    }
    add_warnings(&mut out, &report.warnings);
    out
}

pub open spec fn removal_lines(removals: Seq<Seq<char>>) -> Seq<Seq<char>> {
    removals.map_values(|removal: Seq<char>| "      - "@ + removal)
}

/// The lines on the removal of one application.
pub open spec fn preview_lines(application: ApplicationView, preview: PreviewView) -> Seq<
    Seq<char>,
> {
    seq![
        "  "@ + application.name + " ("@ + application.id + ")"@,
        "    Command: "@ + preview.command,
        "    Packages or applications affected:"@,
    ] + removal_lines(preview.removals) + (if application.user_data_bytes > 0 {
        seq!["    Preserved user data: "@ + size_text(application.user_data_bytes as nat)]
    } else {
        seq![]
    })
}

/// The lines on the removal of the first `count` applications.
pub open spec fn plan_lines(
    applications: Seq<ApplicationView>,
    previews: Seq<UninstallPreview>,
    count: int,
) -> Seq<Seq<char>>
    decreases count,
{
    if count <= 0 {
        Seq::empty()
    } else {
        plan_lines(applications, previews, count - 1) + preview_lines(
            applications[count - 1],
            previews[count - 1]@,
        )
    }
}

/// The removal plan, line by line.
pub open spec fn removal_plan_lines(
    applications: Seq<ApplicationView>,
    previews: Seq<UninstallPreview>,
) -> Seq<Seq<char>> {
    let count = if applications.len() < previews.len() {
        applications.len()
    } else {
        previews.len()
    };
    seq![""@, "Removal plan:"@] + plan_lines(applications, previews, count as int)
}

fn add_preview(out: &mut Vec<String>, application: &Application, preview: &UninstallPreview)
    ensures
        texts(final(out)@) == texts(old(out)@) + preview_lines(application@, preview@),
{
    let ghost start = texts(out@);
    push_text(
        out,
        "  ".to_owned().concat(application.name.as_str()).concat(" (").concat(
            application.id.as_str(),
        ).concat(")"),
    );
    push_text(out, "    Command: ".to_owned().concat(preview.command.as_str()));
    push_text(out, "    Packages or applications affected:".to_owned());
    let ghost head = texts(out@);
    let ghost all = removal_lines(texts(preview.removals@));
    let mut i: usize = 0;
    proof {
        assert(head + all.take(0) =~= head);
    }
    while i < preview.removals.len()
        invariant
            i <= preview.removals@.len(),
            all == removal_lines(texts(preview.removals@)),
            texts(out@) == head + all.take(i as int),
        decreases preview.removals.len() - i,
    {
        push_text(out, "      - ".to_owned().concat(preview.removals[i].as_str()));
        proof {
            assert(head + all.take(i + 1) =~= (head + all.take(i as int)).push(all[i as int]));
        }
        i = i + 1;
    }
    proof {
        assert(all.take(preview.removals@.len() as int) =~= all);
    }
    if application.user_data_bytes > 0 {
        push_text(
            out,
            "    Preserved user data: ".to_owned().concat(
                format_bytes(application.user_data_bytes).as_str(),
            ),
        );
    }
    proof {
        assert(texts(out@) =~= start + preview_lines(application@, preview@));
    }
}

/// The removal plan, line by line.
pub fn uninstall_preview_lines(
    applications: &Vec<Application>,
    previews: &Vec<UninstallPreview>,
) -> (r: Vec<String>)
    ensures
        texts(r@) == removal_plan_lines(application_views(applications@), previews@),
{
    let ghost views = application_views(applications@);
    let mut out: Vec<String> = Vec::new();
    push_text(&mut out, "".to_owned());
    push_text(&mut out, "Removal plan:".to_owned());
    let ghost start = texts(out@);
    let mut i: usize = 0;
    proof {
        assert(start =~= seq![""@, "Removal plan:"@]);
        assert(start + plan_lines(views, previews@, 0) =~= start);
    }
    while i < applications.len() && i < previews.len()
        invariant
            i <= applications@.len(),
            i <= previews@.len(),
            views == application_views(applications@),
            texts(out@) == start + plan_lines(views, previews@, i as int),
        decreases applications.len() - i,
    {
        add_preview(&mut out, &applications[i], &previews[i]);
        proof {
            assert(views[i as int] == applications@[i as int]@);
            let added = preview_lines(views[i as int], previews@[i as int]@);
            assert(start + plan_lines(views, previews@, i as int) + added =~= start + (plan_lines(
                views,
                previews@,
                i as int,
            ) + added));
        }
        i = i + 1;
    }
    out
}

pub open spec fn uninstall_question(count: nat) -> Seq<char> {
    "Uninstall "@ + decimal(count) + " selected application(s) while preserving user data?"@
}

/// What the user is asked before applications are uninstalled.
pub fn confirm_uninstall_prompt(count: usize) -> (r: String)
    ensures
        r@ == uninstall_question(count as nat),
{
    "Uninstall ".to_owned().concat(count_text(count).as_str()).concat(
        " selected application(s) while preserving user data?",
    )
}

// ---------------------------------------------------------------------------------------
// Laws
// ---------------------------------------------------------------------------------------

/// Applications are uninstalled without being chosen on a terminal only by their exact ids:
/// `--yes` alone is refused, and each application of a plan was in the catalog and asked for.
pub proof fn unattended_uninstall_is_exact(
    args: UninstallArgs,
    catalog: Seq<ApplicationView>,
    interactive: bool,
    i: int,
)
    ensures
        args.yes && args.applications@.len() == 0 ==> uninstall_refusal(args, interactive) is Some,
        !args.yes && !args.json && !interactive ==> uninstall_refusal(args, interactive) is Some,
        args.yes && uninstall_refusal(args, interactive) is None ==> !(uninstall_plan(
            args,
            catalog,
        ) is Ask),
        uninstall_plan(args, catalog) matches UninstallPlanView::Exact(selected) && 0 <= i
            < selected.len() ==> {
            let selected = uninstall_plan(args, catalog)->Exact_0;
            catalog.contains(selected[i]) && texts(args.applications@).contains(selected[i].id)
        },
{
    match uninstall_plan(args, catalog) {
        UninstallPlanView::Exact(selected) => {
            if 0 <= i < selected.len() {
                exact_applications_are_in_catalog(catalog, texts(args.applications@), i);
            }
        },
        _ => {},
    }
}

/// What is selected by exact ids was in the catalog, and its id was asked for.
pub proof fn exact_applications_are_in_catalog(
    catalog: Seq<ApplicationView>,
    requested: Seq<Seq<char>>,
    i: int,
)
    requires
        exact_applications(catalog, requested) is Ok,
        0 <= i < exact_applications(catalog, requested)->Ok_0.len(),
    ensures
        catalog.contains(exact_applications(catalog, requested)->Ok_0[i]),
        requested.contains(exact_applications(catalog, requested)->Ok_0[i].id),
    decreases requested.len(),
{
    if requested.len() > 0 {
        let before = exact_applications(catalog, requested.drop_last())->Ok_0;
        let n = requested.len() as int;
        if i < before.len() {
            exact_applications_are_in_catalog(catalog, requested.drop_last(), i);
            let id = before[i].id;
            let k = choose|k: int| 0 <= k < n - 1 && requested.drop_last()[k] == id;
            assert(requested[k] == id);
        } else {
            lemma_application_position(catalog, requested.last(), 0);
            assert(requested[n - 1] == requested.last());
        }
    }
}

proof fn lemma_application_position(
    applications: Seq<ApplicationView>,
    id: Seq<char>,
    from: int,
)
    requires
        0 <= from,
    ensures
        application_position(applications, id, from) matches Some(i) ==> from <= i
            < applications.len() && applications[i].id == id,
    decreases applications.len() - from,
{
    if from < applications.len() {
        lemma_application_position(applications, id, from + 1);
    }
}

/// An application passes where no filter was given; a filter by source keeps what comes from one of
/// the sources, one by id what has one of the ids, and a search what has the text in its name, its
/// package or its id, in whatever case. Filters that are given together all count.
pub proof fn filters_narrow_the_catalog(
    args: UninstallArgs,
    application: ApplicationView,
    front: Seq<char>,
    found: Seq<char>,
    back: Seq<char>,
)
    ensures
        args.source@.len() == 0 && args.search is None && args.applications@.len() == 0 ==> passes(
            args,
            application,
        ),
        passes(args, application) && args.source@.len() > 0 ==> args.source@.contains(
            application.source,
        ),
        passes(args, application) && args.applications@.len() > 0 ==> texts(
            args.applications@,
        ).contains(application.id),
        ({
            let named = args.search matches Some(search) && lower(found) == lower(search@) && (
            application.name == front + found + back || application.package == front + found + back
                || application.id == front + found + back);
            named && (args.source@.len() == 0 || args.source@.contains(application.source)) && (
            args.applications@.len() == 0 || texts(args.applications@).contains(application.id))
                ==> passes(args, application)
        }),
        match args.search {
            Some(search) => passes(args, application) ==> exists|at: int|
                occurs_at(lower(application.name), lower(search@), at) || occurs_at(
                    lower(application.package),
                    lower(search@),
                    at,
                ) || occurs_at(lower(application.id), lower(search@), at),
            None => true,
        },
{
    if let Some(search) = args.search {
        let needle = lower(search@);
        let at = front.len() as int;
        let text = front + found + back;
        if lower(found) == needle {
            assert(needle.len() == found.len());
            assert(lower(text).subrange(at, at + found.len()) =~= lower(found));
            assert(occurs_at(lower(text), needle, at));
        }
    }
}

/// What was asked for by id is selected: everything that was asked for, each application once,
/// where the catalog holds all of it; otherwise nothing is, and the id that is missing is named.
pub proof fn everything_asked_for_is_selected(
    catalog: Seq<ApplicationView>,
    requested: Seq<Seq<char>>,
)
    ensures
        match exact_applications(catalog, requested) {
            Ok(selected) => {
                &&& forall|k: int|
                    0 <= k < requested.len() ==> has_id(selected, #[trigger] requested[k])
                        && has_id(catalog, requested[k])
                &&& forall|i: int, j: int|
                    0 <= i < j < selected.len() ==> (#[trigger] selected[i]).id != (
                    #[trigger] selected[j]).id
            },
            Err(message) => exists|k: int|
                0 <= k < requested.len() && !has_id(catalog, requested[k]) && message
                    == #[trigger] unknown_application_text(requested[k]),
        },
    decreases requested.len(),
{
    if requested.len() > 0 {
        let earlier = requested.drop_last();
        let last = requested.len() - 1;
        everything_asked_for_is_selected(catalog, earlier);
        lemma_no_application(catalog, requested.last(), 0);
        lemma_application_position(catalog, requested.last(), 0);
        match exact_applications(catalog, earlier) {
            Err(message) => {
                let k = choose|k: int|
                    0 <= k < earlier.len() && !has_id(catalog, earlier[k]) && message
                        == #[trigger] unknown_application_text(earlier[k]);
                assert(requested[k] == earlier[k]);
                assert(message == unknown_application_text(requested[k]));
            },
            Ok(before) => {
                lemma_no_application(before, requested.last(), 0);
                lemma_application_position(before, requested.last(), 0);
                match application_position(catalog, requested.last(), 0) {
                    None => {
                        assert(unknown_application_text(requested[last])
                            == unknown_application_text(requested.last()));
                    },
                    Some(i) => {
                        let selected = exact_applications(catalog, requested)->Ok_0;
                        assert(has_id(catalog, catalog[i].id));
                        assert forall|k: int| 0 <= k < requested.len() implies has_id(
                            selected,
                            #[trigger] requested[k],
                        ) && has_id(catalog, requested[k]) by {
                            if k < last {
                                assert(earlier[k] == requested[k]);
                                let p = choose|p: int|
                                    0 <= p < before.len() && (#[trigger] before[p]).id
                                        == requested[k];
                                assert(selected[p] == before[p]);
                            } else if application_position(before, requested.last(), 0) is None {
                                assert(selected[before.len() as int].id == requested[k]);
                            } else {
                                let p = application_position(before, requested.last(), 0)->Some_0;
                                assert(selected[p].id == requested[k]);
                            }
                        }
                    },
                }
            },
        }
    }
}

/// One of the applications has the id.
pub open spec fn has_id(applications: Seq<ApplicationView>, id: Seq<char>) -> bool {
    exists|i: int| 0 <= i < applications.len() && (#[trigger] applications[i]).id == id
}

proof fn lemma_no_application(applications: Seq<ApplicationView>, id: Seq<char>, from: int)
    requires
        0 <= from <= applications.len(),
    ensures
        application_position(applications, id, from) is None ==> forall|i: int|
            from <= i < applications.len() ==> (#[trigger] applications[i]).id != id,
    decreases applications.len() - from,
{
    if from < applications.len() {
        lemma_no_application(applications, id, from + 1);
    }
}

/// Everything that an uninstall would remove is shown before anyone agrees: each removal of each
/// preview stands on a line of the plan, and so does the command that will be run.
pub proof fn every_removal_is_shown(
    applications: Seq<ApplicationView>,
    previews: Seq<UninstallPreview>,
    k: int,
    j: int,
)
    requires
        0 <= k < applications.len(),
        k < previews.len(),
        0 <= j < previews[k]@.removals.len(),
    ensures
        removal_plan_lines(applications, previews).contains(
            "      - "@ + previews[k]@.removals[j],
        ),
        removal_plan_lines(applications, previews).contains("    Command: "@ + previews[k]@.command),
        removal_plan_lines(applications, previews).contains(
            "  "@ + applications[k].name + " ("@ + applications[k].id + ")"@,
        ),
{
    let count = if applications.len() < previews.len() {
        applications.len() as int
    } else {
        previews.len() as int
    };
    let own = preview_lines(applications[k], previews[k]@);
    let removal = "      - "@ + previews[k]@.removals[j];
    assert(own[3 + j] == removal_lines(previews[k]@.removals)[j]);
    assert(own[3 + j] == removal);
    lemma_shown(applications, previews, count, k, 3 + j);
    lemma_shown(applications, previews, count, k, 1);
    lemma_shown(applications, previews, count, k, 0);
}

proof fn lemma_shown(
    applications: Seq<ApplicationView>,
    previews: Seq<UninstallPreview>,
    count: int,
    k: int,
    line: int,
)
    requires
        0 <= k < count <= applications.len(),
        count <= previews.len(),
        0 <= line < preview_lines(applications[k], previews[k]@).len(),
    ensures
        plan_lines(applications, previews, count).contains(
            preview_lines(applications[k], previews[k]@)[line],
        ),
        forall|front: Seq<Seq<char>>| #[trigger]
            (front + plan_lines(applications, previews, count)).contains(
                preview_lines(applications[k], previews[k]@)[line],
            ),
    decreases count,
{
    let all = plan_lines(applications, previews, count);
    let before = plan_lines(applications, previews, count - 1);
    let own = preview_lines(applications[count - 1], previews[count - 1]@);
    let wanted = preview_lines(applications[k], previews[k]@)[line];
    let at = if k == count - 1 {
        assert(all[before.len() + line] == own[line]);
        before.len() + line
    } else {
        lemma_shown(applications, previews, count - 1, k, line);
        let i = choose|i: int| 0 <= i < before.len() && before[i] == wanted;
        assert(all[i] == before[i]);
        i
    };
    assert(all[at] == wanted);
    assert forall|front: Seq<Seq<char>>| #[trigger] (front + all).contains(wanted) by {
        assert((front + all)[front.len() + at] == wanted);
    }
}

/// Every application of the catalog has its row, under its package.
pub proof fn every_application_is_listed(
    distribution: Seq<char>,
    applications: Seq<ApplicationView>,
    warnings: Seq<Seq<char>>,
    k: int,
)
    requires
        0 <= k < applications.len(),
    ensures
        catalog_lines(distribution, applications, warnings).contains(
            "  "@ + application_label(applications[k]),
        ),
        ({
            let label = application_label(applications[k]);
            let package = applications[k].package;
            label.len() >= package.len() && label.skip(label.len() - package.len()) == package
        }),
{
    let lines = catalog_lines(distribution, applications, warnings);
    let rows = all_application_lines(applications);
    lemma_listed_row(applications, k);
    let row = "  "@ + application_label(applications[k]);
    let i = choose|i: int| 0 <= i < rows.len() && rows[i] == row;
    assert(lines[3 + i] == rows[i]);
    let label = application_label(applications[k]);
    let package = applications[k].package;
    assert(label.skip(label.len() - package.len()) =~= package);
}

proof fn lemma_listed_row(applications: Seq<ApplicationView>, k: int)
    requires
        0 <= k < applications.len(),
    ensures
        all_application_lines(applications).contains("  "@ + application_label(applications[k])),
    decreases applications.len(),
{
    let before = all_application_lines(applications.drop_last());
    let own = application_lines(applications.last());
    let all = all_application_lines(applications);
    let row = "  "@ + application_label(applications[k]);
    if k == applications.len() - 1 {
        assert(all[before.len() as int] == own[0]);
    } else {
        assert(applications.drop_last()[k] == applications[k]);
        lemma_listed_row(applications.drop_last(), k);
        let i = choose|i: int| 0 <= i < before.len() && before[i] == row;
        assert(all[i] == row);
    }
}

/// A text is cut only where it does not fit, and then keeps its start.
pub proof fn cutting_keeps_the_start(value: Seq<char>, maximum: nat)
    ensures
        value.len() < maximum ==> truncated(value, maximum) == value,
        maximum > 0 ==> truncated(value, maximum).len() <= maximum,
        maximum > 0 && value.len() >= maximum ==> truncated(value, maximum).take(maximum - 1)
            == value.take(maximum - 1),
{
    reveal_strlit("…");
    if maximum > 0 && value.len() >= maximum {
        assert(truncated(value, maximum).take(maximum - 1) =~= value.take(maximum - 1));
    }
}

/// Filtering keeps an application exactly where it passes every filter, and changes no order.
pub proof fn filtering_keeps_what_passes(
    applications: &Vec<Application>,
    args: &UninstallArgs,
    kept: Vec<Application>,
    i: int,
)
    requires
        call_ensures(filter_applications, (applications, args), kept),
        0 <= i < applications@.len(),
    ensures
        application_views(kept@).contains(applications@[i]@) <==> passes(*args, applications@[i]@),
{
    let all = application_views(applications@);
    let keep = |application: ApplicationView| passes(*args, application);
    assert(all[i] == applications@[i]@);
    if passes(*args, all[i]) {
        all.lemma_filter_contains(keep, i);
    }
    if all.filter(keep).contains(all[i]) {
        let k = choose|k: int| 0 <= k < all.filter(keep).len() && all.filter(keep)[k] == all[i];
        all.lemma_filter_pred(keep, k);
    }
}

/// What was named is what is uninstalled, where the catalog holds all of it; where nothing was
/// named the user chooses among all that is in the catalog. An empty catalog ends the command.
pub proof fn named_applications_are_planned(args: UninstallArgs, catalog: Seq<ApplicationView>)
    requires
        args.yes || !args.json,
    ensures
        catalog.len() > 0 && args.applications@.len() > 0 ==> (match exact_applications(
            catalog,
            texts(args.applications@),
        ) {
            Ok(selected) => uninstall_plan(args, catalog) == UninstallPlanView::Exact(selected),
            Err(message) => uninstall_plan(args, catalog) == UninstallPlanView::Refuse(message),
        }),
        catalog.len() == 0 && args.applications@.len() == 0 ==> uninstall_plan(args, catalog)
            is Nothing,
        catalog.len() == 0 && args.applications@.len() > 0 ==> uninstall_plan(args, catalog)
            is Refuse,
        catalog.len() > 0 && args.applications@.len() == 0 ==> uninstall_plan(args, catalog) is Ask,
{
}

/// Nothing is refused that somebody can answer: on a terminal, or with `--yes` and a name, an
/// uninstall goes on.
pub proof fn answerable_uninstall_goes_on(args: UninstallArgs, interactive: bool)
    ensures
        interactive && !args.yes ==> uninstall_refusal(args, interactive) is None,
        args.yes && args.applications@.len() > 0 ==> uninstall_refusal(args, interactive) is None,
        args.json && !args.yes ==> uninstall_refusal(args, interactive) is None,
{
}

} // verus!
