//! The `analyze` command: whether large files may be removed, and which.
use vstd::prelude::*;
use vstd::string::*;

use crate::analyze::{large_file_views, AnalysisReport, LargeFile, LargeFileView};
use crate::cli::args::AnalyzeArgs;
use crate::number::{count_text, decimal};
use crate::path::{parts, same_path};
use crate::size::{format_bytes, size_text};
use crate::text::{has_infix, has_prefix, occurs_at, push_text, texts};
use crate::time::{format_timestamp, timestamp_text};

verus! {

/// How `analyze` goes on after the analysis.
#[derive(Debug, PartialEq, Eq)]
pub enum AnalyzePlan {
    /// The report is all that was asked for.
    ReportOnly,
    /// The request is refused.
    Refuse(String),
    /// The files that were named are removed.
    Exact,
    /// The user chooses among the personal files; nothing is chosen beforehand.
    Ask,
}

pub enum AnalyzePlanView {
    ReportOnly,
    Refuse(Seq<char>),
    Exact,
    Ask,
}

impl View for AnalyzePlan {
    type V = AnalyzePlanView;

    open spec fn view(&self) -> AnalyzePlanView {
        match self {
            AnalyzePlan::ReportOnly => AnalyzePlanView::ReportOnly,
            AnalyzePlan::Refuse(message) => AnalyzePlanView::Refuse(message@),
            AnalyzePlan::Exact => AnalyzePlanView::Exact,
            AnalyzePlan::Ask => AnalyzePlanView::Ask,
        }
    }
}

/// Files are removed only from an analysis of the home directory, and only such as were named
/// exactly or are chosen by somebody at a terminal.
pub open spec fn analyze_plan(
    args: AnalyzeArgs,
    root: Seq<char>,
    home: Seq<char>,
    interactive: bool,
) -> AnalyzePlanView {
    if !args.remove {
        AnalyzePlanView::ReportOnly
    } else if parts(root) != parts(home) {
        AnalyzePlanView::Refuse(
            "large-file removal is limited to an analysis of the current user's home directory"@,
        )
    } else if args.yes && args.files@.len() == 0 {
        AnalyzePlanView::Refuse(
            "analyze --remove --yes requires at least one exact --file selection"@,
        )
    } else if !args.yes && (!interactive || args.json) {
        AnalyzePlanView::Refuse(
            "analyze --remove needs an interactive terminal; for non-interactive removal, pass exact --file paths with --yes"@,
        )
    } else if args.yes {
        AnalyzePlanView::Exact
    } else {
        AnalyzePlanView::Ask
    }
}

pub fn plan_analyze(args: &AnalyzeArgs, root: &str, home: &str, interactive: bool) -> (r:
    AnalyzePlan)
    ensures
        r@ == analyze_plan(*args, root@, home@, interactive),
{
    if !args.remove {
        return AnalyzePlan::ReportOnly;
    }
    if !same_path(root, home) {
        return AnalyzePlan::Refuse(
            "large-file removal is limited to an analysis of the current user's home directory".to_owned(),
        );
    }
    if args.yes && args.files.len() == 0 {
        return AnalyzePlan::Refuse(
            "analyze --remove --yes requires at least one exact --file selection".to_owned(),
        );
    }
    if !args.yes && (!interactive || args.json) {
        return AnalyzePlan::Refuse(
            "analyze --remove needs an interactive terminal; for non-interactive removal, pass exact --file paths with --yes".to_owned(),
        );
    }
    if args.yes {
        AnalyzePlan::Exact
    } else {
        AnalyzePlan::Ask
    }
}

/// The large files that are no application data.
pub open spec fn personal_views(files: Seq<LargeFile>) -> Seq<LargeFileView> {
    large_file_views(files).filter(|file: LargeFileView| !file.app_data)
}

/// The large files of a report that are no application data.
pub fn personal_candidates(report: &AnalysisReport) -> (r: Vec<LargeFile>)
    ensures
        large_file_views(r@) == personal_views(report.large_files@),
{
    let ghost all = large_file_views(report.large_files@);
    let ghost test = |file: LargeFileView| !file.app_data;
    let mut out: Vec<LargeFile> = Vec::new();
    let mut i: usize = 0;
    proof {
        reveal(Seq::filter);
        assert(all.take(0).filter(test) =~= Seq::empty());
    }
    while i < report.large_files.len()
        invariant
            i <= report.large_files@.len(),
            all == large_file_views(report.large_files@),
            test == (|file: LargeFileView| !file.app_data),
            large_file_views(out@) =~= all.take(i as int).filter(test),
        decreases report.large_files.len() - i,
    {
        proof {
            reveal(Seq::filter);
            assert(all.take(i + 1).drop_last() =~= all.take(i as int));
            assert(all.take(i + 1).last() == report.large_files@[i as int]@);
        }
        if !report.large_files[i].app_data {
            let ghost before = out@;
            let file = report.large_files[i].clone();
            out.push(file);
            proof {
                assert(large_file_views(out@) =~= large_file_views(before).push(file@));
            }
        }
        i = i + 1;
    }
    proof {
        assert(all.take(all.len() as int) =~= all);
    }
    out
}

/// A file that was named, and where it lies once links are resolved, or why that cannot be
/// told.
#[derive(Debug, PartialEq, Eq)]
pub struct RequestedFile {
    pub given: String,
    pub resolved: Result<String, String>,
}

/// The position of the first file at that path, from the `i`-th on.
pub open spec fn file_position(files: Seq<LargeFileView>, path: Seq<char>, i: int) -> Option<int>
    decreases files.len() - i,
{
    if i < 0 || i >= files.len() {
        None
    } else if parts(files[i].path) == parts(path) {
        Some(i)
    } else {
        file_position(files, path, i + 1)
    }
}

pub open spec fn unresolved_text(given: Seq<char>, cause: Seq<char>) -> Seq<char> {
    "failed to resolve selected file "@ + given + ": "@ + cause
}

pub open spec fn not_listed_text(given: Seq<char>) -> Seq<char> {
    given + " is not a personal file in the current large-file analysis"@
}

/// The files that were named, each once and in the order in which they were first named. A
/// name that is not among the candidates refuses them all.
pub open spec fn exact_files(candidates: Seq<LargeFileView>, requested: Seq<RequestedFile>) -> Result<
    Seq<LargeFileView>,
    Seq<char>,
>
    decreases requested.len(),
{
    if requested.len() == 0 {
        Ok(Seq::empty())
    } else {
        match exact_files(candidates, requested.drop_last()) {
            Err(message) => Err(message),
            Ok(before) => match requested.last().resolved {
                Err(cause) => Err(unresolved_text(requested.last().given@, cause@)),
                Ok(path) => match file_position(candidates, path@, 0) {
                    None => Err(not_listed_text(requested.last().given@)),
                    Some(i) => if file_position(before, candidates[i].path, 0) is Some {
                        Ok(before)
                    } else {
                        Ok(before.push(candidates[i]))
                    },
                },
            },
        }
    }
}

fn find_file(files: &Vec<LargeFile>, path: &str) -> (r: Option<usize>)
    ensures
        match r {
            Some(i) => file_position(large_file_views(files@), path@, 0) == Some(i as int) && i
                < files@.len(),
            None => file_position(large_file_views(files@), path@, 0) is None,
        },
{
    let ghost views = large_file_views(files@);
    let mut i: usize = 0;
    while i < files.len()
        invariant
            i <= files@.len(),
            views == large_file_views(files@),
            file_position(views, path@, 0) == file_position(views, path@, i as int),
        decreases files.len() - i,
    {
        proof {
            assert(views[i as int] == files@[i as int]@);
        }
        if same_path(files[i].path.as_str(), path) {
            return Some(i);
        }
        i = i + 1;
    }
    None
}

pub open spec fn files_result(result: Result<Vec<LargeFile>, String>) -> Result<
    Seq<LargeFileView>,
    Seq<char>,
> {
    match result {
        Ok(files) => Ok(large_file_views(files@)),
        Err(message) => Err(message@),
    }
}

proof fn lemma_refused_stays(
    candidates: Seq<LargeFileView>,
    requested: Seq<RequestedFile>,
    upto: int,
)
    requires
        0 <= upto <= requested.len(),
        exact_files(candidates, requested.take(upto)) is Err,
    ensures
        exact_files(candidates, requested) == exact_files(candidates, requested.take(upto)),
    decreases requested.len() - upto,
{
    if upto == requested.len() {
        assert(requested.take(upto) =~= requested);
    } else {
        assert(requested.take(upto + 1).drop_last() =~= requested.take(upto));
        lemma_refused_stays(candidates, requested, upto + 1);
    }
}

/// The files that were named, where all of them are among the candidates.
pub fn select_exact_large_files(
    candidates: &Vec<LargeFile>,
    requested: &Vec<RequestedFile>,
) -> (r: Result<Vec<LargeFile>, String>)
    ensures
        files_result(r) == exact_files(large_file_views(candidates@), requested@),
{
    let ghost views = large_file_views(candidates@);
    let mut selected: Vec<LargeFile> = Vec::new();
    let mut i: usize = 0;
    proof {
        assert(large_file_views(selected@) =~= Seq::empty());
    }
    while i < requested.len()
        invariant
            i <= requested@.len(),
            views == large_file_views(candidates@),
            exact_files(views, requested@.take(i as int)) == Ok::<Seq<LargeFileView>, Seq<char>>(
                large_file_views(selected@),
            ),
        decreases requested.len() - i,
    {
        let wanted = &requested[i];
        proof {
            assert(requested@.take(i + 1).drop_last() =~= requested@.take(i as int));
            assert(requested@.take(i + 1).last() == *wanted);
        }
        match &wanted.resolved {
            Err(cause) => {
                proof {
                    lemma_refused_stays(views, requested@, i + 1);
                }
                return Err(
                    "failed to resolve selected file ".to_owned().concat(
                        wanted.given.as_str(),
                    ).concat(": ").concat(cause.as_str()),
                );
            },
            Ok(path) => match find_file(candidates, path.as_str()) {
                None => {
                    proof {
                        lemma_refused_stays(views, requested@, i + 1);
                    }
                    return Err(
                        wanted.given.clone().concat(
                            " is not a personal file in the current large-file analysis",
                        ),
                    );
                },
                Some(at) => {
                    proof {
                        assert(views[at as int] == candidates@[at as int]@);
                    }
                    if find_file(&selected, candidates[at].path.as_str()).is_none() {
                        let ghost before = selected@;
                        let file = candidates[at].clone();
                        selected.push(file);
                        proof {
                            assert(large_file_views(selected@) =~= large_file_views(before).push(
                                file@,
                            ));
                        }
                    }
                },
            },
        }
        i = i + 1;
    }
    proof {
        assert(requested@.take(requested@.len() as int) =~= requested@);
    }
    Ok(selected)
}

pub open spec fn file_label(file: LargeFileView) -> Seq<char> {
    file.path + " | "@ + size_text(file.size as nat) + " | "@ + timestamp_text(file.modified_unix)
}

/// The files among which the user chooses, as they are shown.
pub fn large_file_labels(files: &Vec<LargeFile>) -> (r: Vec<String>)
    ensures
        texts(r@) == large_file_views(files@).map_values(
            |file: LargeFileView| file_label(file),
        ),
{
    let ghost all = large_file_views(files@).map_values(
            |file: LargeFileView| file_label(file),
        );
    let mut out: Vec<String> = Vec::new();
    let mut i: usize = 0;
    while i < files.len()
        invariant
            i <= files@.len(),
            all == large_file_views(files@).map_values(
            |file: LargeFileView| file_label(file),
        ),
            texts(out@) =~= all.take(i as int),
        decreases files.len() - i,
    {
        let file = &files[i];
        push_text(
            &mut out,
            file.path.clone().concat(" | ").concat(format_bytes(file.size).as_str()).concat(
                " | ",
            ).concat(format_timestamp(file.modified_unix).as_str()),
        );
        i = i + 1;
    }
    proof {
        assert(all.take(files@.len() as int) =~= all);
    }
    out
}

/// The files that the user chose.
pub fn chosen_files(files: &Vec<LargeFile>, chosen: &Vec<usize>) -> (r: Vec<LargeFile>)
    requires
        forall|i: int| 0 <= i < chosen@.len() ==> (#[trigger] chosen@[i]) < files@.len(),
    ensures
        large_file_views(r@) == chosen@.map_values(|index: usize| files@[index as int]@),
{
    let ghost all = chosen@.map_values(|index: usize| files@[index as int]@);
    let mut out: Vec<LargeFile> = Vec::new();
    let mut i: usize = 0;
    while i < chosen.len()
        invariant
            i <= chosen@.len(),
            forall|i: int| 0 <= i < chosen@.len() ==> (#[trigger] chosen@[i]) < files@.len(),
            all == chosen@.map_values(|index: usize| files@[index as int]@),
            large_file_views(out@) =~= all.take(i as int),
        decreases chosen.len() - i,
    {
        let ghost before = out@;
        let file = files[chosen[i]].clone();
        out.push(file);
        proof {
            assert(large_file_views(out@) =~= large_file_views(before).push(file@));
            assert(all.take(i + 1) =~= all.take(i as int).push(all[i as int]));
        }
        i = i + 1;
    }
    proof {
        assert(all.take(chosen@.len() as int) =~= all);
    }
    out
}

pub open spec fn removal_question(count: nat) -> Seq<char> {
    "Permanently remove "@ + decimal(count) + " selected personal file(s)?"@
}

/// What the user is asked before files are removed.
pub fn confirm_removal_prompt(count: usize) -> (r: String)
    ensures
        r@ == removal_question(count as nat),
{
    "Permanently remove ".to_owned().concat(count_text(count).as_str()).concat(
        " selected personal file(s)?",
    )
}

// ---------------------------------------------------------------------------------------
// Laws
// ---------------------------------------------------------------------------------------

/// Files are removed without a question only with `--remove --yes`, exact names, and below the
/// home directory.
pub proof fn unattended_removal_is_exact(
    args: AnalyzeArgs,
    root: Seq<char>,
    home: Seq<char>,
    interactive: bool,
)
    requires
        analyze_plan(args, root, home, interactive) is Exact,
    ensures
        args.remove && args.yes && args.files@.len() > 0 && parts(root) == parts(home),
{
}

/// What is selected by exact names was a candidate.
pub proof fn exact_files_are_candidates(
    candidates: Seq<LargeFileView>,
    requested: Seq<RequestedFile>,
    i: int,
)
    requires
        exact_files(candidates, requested) is Ok,
        0 <= i < exact_files(candidates, requested)->Ok_0.len(),
    ensures
        candidates.contains(exact_files(candidates, requested)->Ok_0[i]),
    decreases requested.len(),
{
    if requested.len() > 0 {
        let before = exact_files(candidates, requested.drop_last())->Ok_0;
        if i < before.len() {
            exact_files_are_candidates(candidates, requested.drop_last(), i);
        } else {
            let path = requested.last().resolved->Ok_0;
            lemma_file_position(candidates, path@, 0);
        }
    }
}

proof fn lemma_file_position(files: Seq<LargeFileView>, path: Seq<char>, from: int)
    requires
        0 <= from,
    ensures
        file_position(files, path, from) matches Some(i) ==> from <= i < files.len() && parts(
            files[i].path,
        ) == parts(path),
    decreases files.len() - from,
{
    if from < files.len() {
        lemma_file_position(files, path, from + 1);
    }
}

/// Every large file that is no application data may be removed, and no other is offered.
pub proof fn personal_files_are_candidates(files: Seq<LargeFile>, i: int)
    ensures
        0 <= i < files.len() ==> (personal_views(files).contains(files[i]@) <==> !files[i].app_data),
        0 <= i < personal_views(files).len() ==> large_file_views(files).contains(
            personal_views(files)[i],
        ),
{
    let test = |file: LargeFileView| !file.app_data;
    let all = large_file_views(files);
    if 0 <= i < files.len() {
        assert(all[i] == files[i]@);
        if !files[i].app_data {
            all.lemma_filter_contains(test, i);
        }
        if personal_views(files).contains(files[i]@) {
            let k = choose|k: int|
                0 <= k < personal_views(files).len() && personal_views(files)[k] == files[i]@;
            all.lemma_filter_pred(test, k);
        }
    }
    if 0 <= i < personal_views(files).len() {
        lemma_filtered_member(all, test, i);
    }
}

proof fn lemma_filtered_member<A>(all: Seq<A>, test: spec_fn(A) -> bool, k: int)
    requires
        0 <= k < all.filter(test).len(),
    ensures
        all.contains(all.filter(test)[k]),
    decreases all.len(),
{
    reveal(Seq::filter);
    let before = all.drop_last();
    if k < before.filter(test).len() {
        lemma_filtered_member(before, test, k);
        let i = choose|i: int| 0 <= i < before.len() && before[i] == before.filter(test)[k];
        assert(all[i] == before[i]);
    } else {
        assert(all[all.len() - 1] == all.filter(test)[k]);
    }
}

/// A file lies at that path, however the path is written.
pub open spec fn has_file(files: Seq<LargeFileView>, path: Seq<char>) -> bool {
    exists|i: int| 0 <= i < files.len() && parts((#[trigger] files[i]).path) == parts(path)
}

proof fn lemma_no_file(files: Seq<LargeFileView>, path: Seq<char>, from: int)
    requires
        0 <= from <= files.len(),
    ensures
        file_position(files, path, from) is None ==> forall|i: int|
            from <= i < files.len() ==> parts((#[trigger] files[i]).path) != parts(path),
    decreases files.len() - from,
{
    if from < files.len() {
        lemma_no_file(files, path, from + 1);
    }
}

/// Every file that was named is selected, each once, where all of them are candidates; otherwise
/// nothing is selected, and what is wrong is said of a file that was named.
pub proof fn every_named_file_is_selected(
    candidates: Seq<LargeFileView>,
    requested: Seq<RequestedFile>,
)
    ensures
        match exact_files(candidates, requested) {
            Ok(selected) => {
                &&& forall|k: int|
                    0 <= k < requested.len() ==> (match (#[trigger] requested[k]).resolved {
                        Ok(path) => has_file(selected, path@),
                        Err(_) => false,
                    })
                &&& forall|i: int, j: int|
                    0 <= i < j < selected.len() ==> parts((#[trigger] selected[i]).path) != parts(
                        (#[trigger] selected[j]).path,
                    )
            },
            Err(message) => exists|k: int|
                0 <= k < requested.len() && is_refused(candidates, #[trigger] requested[k], message),
        },
    decreases requested.len(),
{
    if requested.len() > 0 {
        let earlier = requested.drop_last();
        let last = requested.len() - 1;
        let wanted = requested[last];
        every_named_file_is_selected(candidates, earlier);
        match exact_files(candidates, earlier) {
            Err(message) => {
                let k = choose|k: int|
                    0 <= k < earlier.len() && is_refused(
                        candidates,
                        #[trigger] earlier[k],
                        message,
                    );
                assert(requested[k] == earlier[k]);
            },
            Ok(before) => match wanted.resolved {
                Err(cause) => {
                    assert(is_refused(
                        candidates,
                        requested[last],
                        unresolved_text(wanted.given@, cause@),
                    ));
                },
                Ok(path) => {
                    lemma_no_file(candidates, path@, 0);
                    lemma_file_position(candidates, path@, 0);
                    match file_position(candidates, path@, 0) {
                        None => {
                            assert(is_refused(
                                candidates,
                                requested[last],
                                not_listed_text(wanted.given@),
                            ));
                        },
                        Some(i) => {
                            let selected = exact_files(candidates, requested)->Ok_0;
                            lemma_no_file(before, candidates[i].path, 0);
                            lemma_file_position(before, candidates[i].path, 0);
                            assert forall|k: int| 0 <= k < requested.len() implies (match (
                            #[trigger] requested[k]).resolved {
                                Ok(path) => has_file(selected, path@),
                                Err(_) => false,
                            }) by {
                                if k < last {
                                    assert(earlier[k] == requested[k]);
                                    let own = requested[k].resolved->Ok_0@;
                                    let p = choose|p: int|
                                        0 <= p < before.len() && parts((#[trigger] before[p]).path)
                                            == parts(own);
                                    assert(selected[p] == before[p]);
                                } else if file_position(before, candidates[i].path, 0) is Some {
                                    let p = file_position(before, candidates[i].path, 0)->Some_0;
                                    assert(parts(selected[p].path) == parts(path@));
                                } else {
                                    assert(parts(selected[before.len() as int].path) == parts(path@));
                                }
                            }
                        },
                    }
                },
            },
        }
    }
}

/// The message says what is wrong with a file that was named: it could not be found, or it is no
/// candidate.
pub open spec fn is_refused(
    candidates: Seq<LargeFileView>,
    requested: RequestedFile,
    message: Seq<char>,
) -> bool {
    match requested.resolved {
        Err(cause) => message == unresolved_text(requested.given@, cause@),
        Ok(path) => !has_file(candidates, path@) && message == not_listed_text(requested.given@),
    }
}

/// Files are removed where that was asked for in the home directory, by name with `--yes` and by
/// choice without it; where it was not asked for, the analysis is all.
pub proof fn removal_is_asked_for(
    args: AnalyzeArgs,
    root: Seq<char>,
    home: Seq<char>,
    interactive: bool,
)
    ensures
        !args.remove <==> analyze_plan(args, root, home, interactive) is ReportOnly,
        args.remove && parts(root) != parts(home) ==> analyze_plan(args, root, home, interactive)
            is Refuse,
        args.remove && parts(root) == parts(home) && args.yes && args.files@.len() > 0
            ==> analyze_plan(args, root, home, interactive) is Exact,
        args.remove && parts(root) == parts(home) && !args.yes && interactive && !args.json
            ==> analyze_plan(args, root, home, interactive) is Ask,
{
}

/// A file is offered by its path first, with its size.
pub proof fn file_label_starts_with_the_path(file: LargeFileView)
    ensures
        has_prefix(file_label(file), file.path),
        has_infix(file_label(file), size_text(file.size as nat)),
{
    let label = file_label(file);
    let size = size_text(file.size as nat);
    let at = (file.path + " | "@).len() as int;
    assert(label.take(file.path.len() as int) =~= file.path);
    assert(label.subrange(at, at + size.len()) =~= size);
    assert(occurs_at(label, size, at));
}

} // verus!
