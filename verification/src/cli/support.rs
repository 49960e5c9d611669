//! What the commands have in common.
use vstd::prelude::*;
use vstd::string::*;

use crate::analyze::{AnalysisReport, DiskEntry, LargeFile};
use crate::cli::information::succeeded_count;
use crate::model::{group_title, ActionResult, GroupSummary, ScanReport};
use crate::number::{count_text, decimal, decimal_text};
use crate::order::sum_of;
use crate::path::{
    join_path, joined_path, lies_in, one_more_component, parts, simple_name, Part,
};
use crate::purge::PurgeCandidate;
use crate::size::{format_bytes, size_text};
use crate::text::{
    has_infix, has_prefix, join, joined, list1, occurs_at, pad_left, pad_right, padded_left,
    padded_right, push_text, texts,
};
use crate::time::{format_timestamp, timestamp_text};

verus! {

// ---------------------------------------------------------------------------------------
// Guards
// ---------------------------------------------------------------------------------------

pub open spec fn needs_terminal_text(command: Seq<char>) -> Seq<char> {
    command
        + " needs an interactive terminal; use --dry-run --yes to preview or --yes to confirm"@
}

/// Refuses a command that would have to ask where nobody can answer. A command with `--json`
/// only reports, so it needs nobody.
pub fn validate_noninteractive(yes: bool, json: bool, interactive: bool, command: &str) -> (r:
    Result<(), String>)
    ensures
        match r {
            Ok(()) => yes || json || interactive,
            Err(message) => !yes && !json && !interactive && message@ == needs_terminal_text(
                command@,
            ),
        },
{
    if !yes && !interactive && !json {
        return Err(
            command.to_owned().concat(
                " needs an interactive terminal; use --dry-run --yes to preview or --yes to confirm",
            ),
        );
    }
    Ok(())
}

/// Where projects are looked for below the home directory.
pub open spec fn project_places(home: Seq<char>) -> Seq<Seq<char>> {
    seq![
        joined_path(home, "Projects"@),
        joined_path(home, "Progetti"@),
        joined_path(home, "GitHub"@),
        joined_path(home, "Code"@),
        joined_path(home, "dev"@),
    ]
}

pub fn project_candidates(home: &str) -> (r: Vec<String>)
    ensures
        texts(r@) == project_places(home@),
{
    let mut out: Vec<String> = Vec::new();
    push_text(&mut out, join_path(home, "Projects"));
    push_text(&mut out, join_path(home, "Progetti"));
    push_text(&mut out, join_path(home, "GitHub"));
    push_text(&mut out, join_path(home, "Code"));
    push_text(&mut out, join_path(home, "dev"));
    proof {
        assert(texts(out@) =~= project_places(home@));
    }
    out
}

/// The roots of a search for projects: the places that are there, or else where the command
/// was started.
pub fn default_project_roots(present: Vec<String>, current_dir: &str) -> (r: Vec<String>)
    ensures
        texts(r@) == if present@.len() > 0 {
            texts(present@)
        } else {
            seq![current_dir@]
        },
{
    if present.len() > 0 {
        present
    } else {
        list1(current_dir)
    }
}

/// How many of some actions failed.
pub open spec fn failed_count(results: Seq<ActionResult>) -> nat
    decreases results.len(),
{
    if results.len() == 0 {
        0
    } else {
        failed_count(results.drop_last()) + if results.last().success {
            0nat
        } else {
            1nat
        }
    }
}

pub open spec fn failed_text(count: nat) -> Seq<char> {
    decimal(count)
        + " cleanup operation(s) failed; successful operations were not rolled back"@
}

/// Fails where one of the actions did.
pub fn fail_if_actions_failed(results: &Vec<ActionResult>) -> (r: Result<(), String>)
    ensures
        match r {
            Ok(()) => failed_count(results@) == 0,
            Err(message) => failed_count(results@) > 0 && message@ == failed_text(
                failed_count(results@),
            ),
        },
{
    let mut failed: usize = 0;
    let mut i: usize = 0;
    while i < results.len()
        invariant
            i <= results@.len(),
            failed <= i,
            failed == failed_count(results@.take(i as int)),
        decreases results.len() - i,
    {
        proof {
            assert(results@.take(i + 1).drop_last() =~= results@.take(i as int));
        }
        if !results[i].success {
            failed = failed + 1;
        }
        i = i + 1;
    }
    proof {
        assert(results@.take(results@.len() as int) =~= results@);
    }
    if failed > 0 {
        return Err(
            count_text(failed).concat(
                " cleanup operation(s) failed; successful operations were not rolled back",
            ),
        );
    }
    Ok(())
}

// ---------------------------------------------------------------------------------------
// Scans
// ---------------------------------------------------------------------------------------

pub open spec fn summary_line(summary: GroupSummary) -> Seq<char> {
    "  "@ + group_title(summary.group) + " "@ + padded_left(
        size_text(summary.estimated_bytes as nat),
        10,
    ) + "  "@ + decimal(summary.item_count as nat) + " item(s)"@
}

pub open spec fn warning_lines(warnings: Seq<Seq<char>>) -> Seq<Seq<char>> {
    warnings.map_values(|warning: Seq<char>| "Warning: "@ + warning)
}

/// The report on a scan, line by line.
pub open spec fn scan_lines(report: ScanReport) -> Seq<Seq<char>> {
    seq!["TuxCleaner scan on "@ + report.distribution@, ""@] + report.groups@.map_values(
        |summary: GroupSummary| summary_line(summary),
    ) + seq![
        "  "@ + padded_right("Estimated total"@, 24) + " "@ + padded_left(
            size_text(report.estimated_total_bytes as nat),
            10,
        ),
    ] + warning_lines(texts(report.warnings@))
}

/// Adds a line for each warning.
pub fn add_warnings(out: &mut Vec<String>, warnings: &Vec<String>)
    ensures
        texts(final(out)@) == texts(old(out)@) + warning_lines(texts(warnings@)),
{
    let ghost start = texts(out@);
    let ghost all = warning_lines(texts(warnings@));
    let mut i: usize = 0;
    proof {
        assert(start + all.take(0) =~= start);
    }
    while i < warnings.len()
        invariant
            i <= warnings@.len(),
            all == warning_lines(texts(warnings@)),
            texts(out@) == start + all.take(i as int),
        decreases warnings.len() - i,
    {
        push_text(out, "Warning: ".to_owned().concat(warnings[i].as_str()));
        proof {
            assert(start + all.take(i + 1) =~= (start + all.take(i as int)).push(all[i as int]));
        }
        i = i + 1;
    }
    proof {
        assert(all.take(warnings@.len() as int) =~= all);
    }
}

fn summary_text(summary: &GroupSummary) -> (r: String)
    ensures
        r@ == summary_line(*summary),
{
    let size = format_bytes(summary.estimated_bytes);
    "  ".to_owned().concat(summary.group.title()).concat(" ").concat(
        pad_left(size.as_str(), 10).as_str(),
    ).concat("  ").concat(count_text(summary.item_count).as_str()).concat(" item(s)")
}

/// The report on a scan, line by line.
pub fn scan_report_lines(report: &ScanReport) -> (r: Vec<String>)
    ensures
        texts(r@) == scan_lines(*report),
{
    let mut out: Vec<String> = Vec::new();
    push_text(&mut out, "TuxCleaner scan on ".to_owned().concat(report.distribution.as_str()));
    push_text(&mut out, "".to_owned());
    let ghost start = texts(out@);
    let ghost all = report.groups@.map_values(|summary: GroupSummary| summary_line(summary));
    let mut i: usize = 0;
    proof {
        assert(start =~= seq!["TuxCleaner scan on "@ + report.distribution@, ""@]);
        assert(start + all.take(0) =~= start);
    }
    while i < report.groups.len()
        invariant
            i <= report.groups@.len(),
            all == report.groups@.map_values(|summary: GroupSummary| summary_line(summary)),
            texts(out@) == start + all.take(i as int),
        decreases report.groups.len() - i,
    {
        push_text(&mut out, summary_text(&report.groups[i]));
        proof {
            assert(start + all.take(i + 1) =~= (start + all.take(i as int)).push(all[i as int]));
        }
        i = i + 1;
    }
    proof {
        assert(all.take(report.groups@.len() as int) =~= all);
    }
    let size = format_bytes(report.estimated_total_bytes);
    let total = "  ".to_owned().concat(pad_right("Estimated total", 24).as_str()).concat(
        " ",
    ).concat(pad_left(size.as_str(), 10).as_str());
    let ghost last = total@;
    push_text(&mut out, total);
    proof {
        assert((start + all).push(last) =~= start + all + seq![last]);
    }
    add_warnings(&mut out, &report.warnings);
    out
}

// ---------------------------------------------------------------------------------------
// Results
// ---------------------------------------------------------------------------------------

pub open spec fn result_line(result: ActionResult) -> Seq<char> {
    "  ["@ + (if result.success {
        "OK"@
    } else {
        "FAIL"@
    }) + "] "@ + result.label@ + (if result.dry_run {
        " [dry-run]"@
    } else {
        ""@
    }) + ": "@ + result.message@
}

/// The bytes of the actions that succeeded.
pub open spec fn covered_bytes(results: Seq<ActionResult>) -> nat
    decreases results.len(),
{
    if results.len() == 0 {
        0
    } else {
        covered_bytes(results.drop_last()) + if results.last().success {
            results.last().estimated_bytes as nat
        } else {
            0
        }
    }
}

proof fn lemma_covered_grows(results: Seq<ActionResult>, upto: int)
    requires
        0 <= upto <= results.len(),
    ensures
        covered_bytes(results.take(upto)) <= covered_bytes(results),
    decreases results.len(),
{
    if upto < results.len() {
        lemma_covered_grows(results.drop_last(), upto);
        assert(results.drop_last().take(upto) =~= results.take(upto));
    } else {
        assert(results.take(upto) =~= results);
    }
}

/// The bytes of the actions that succeeded, if they add up in 64 bits.
pub fn add_covered(results: &Vec<ActionResult>) -> (r: Option<u64>)
    ensures
        match r {
            Some(bytes) => bytes == covered_bytes(results@),
            None => covered_bytes(results@) > u64::MAX,
        },
{
    let mut total: u64 = 0;
    let mut i: usize = 0;
    while i < results.len()
        invariant
            i <= results@.len(),
            total == covered_bytes(results@.take(i as int)),
        decreases results.len() - i,
    {
        proof {
            assert(results@.take(i + 1).drop_last() =~= results@.take(i as int));
            lemma_covered_grows(results@, i + 1);
        }
        if results[i].success {
            if results[i].estimated_bytes > u64::MAX - total {
                return None;
            }
            total = total + results[i].estimated_bytes;
        }
        i = i + 1;
    }
    proof {
        assert(results@.take(results@.len() as int) =~= results@);
    }
    Some(total)
}

/// How some actions ended, line by line.
pub open spec fn outcome_lines(results: Seq<ActionResult>) -> Seq<Seq<char>> {
    seq![""@] + results.map_values(|result: ActionResult| result_line(result)) + seq![
        "Estimated space covered: "@ + size_text(covered_bytes(results)),
    ]
}

fn result_text(result: &ActionResult) -> (r: String)
    ensures
        r@ == result_line(*result),
{
    let marker = if result.success {
        "OK"
    } else {
        "FAIL"
    };
    let mode = if result.dry_run {
        " [dry-run]"
    } else {
        ""
    };
    "  [".to_owned().concat(marker).concat("] ").concat(result.label.as_str()).concat(mode).concat(
        ": ",
    ).concat(result.message.as_str())
}

/// How some actions ended, line by line.
pub fn result_lines(results: &Vec<ActionResult>) -> (r: Vec<String>)
    requires
        covered_bytes(results@) <= u64::MAX,
    ensures
        texts(r@) == outcome_lines(results@),
{
    let mut out: Vec<String> = Vec::new();
    push_text(&mut out, "".to_owned());
    let ghost start = texts(out@);
    let ghost all = results@.map_values(|result: ActionResult| result_line(result));
    let mut i: usize = 0;
    proof {
        assert(start =~= seq![""@]);
        assert(start + all.take(0) =~= start);
    }
    while i < results.len()
        invariant
            i <= results@.len(),
            all == results@.map_values(|result: ActionResult| result_line(result)),
            texts(out@) == start + all.take(i as int),
        decreases results.len() - i,
    {
        push_text(&mut out, result_text(&results[i]));
        proof {
            assert(start + all.take(i + 1) =~= (start + all.take(i as int)).push(all[i as int]));
        }
        i = i + 1;
    }
    proof {
        assert(all.take(results@.len() as int) =~= all);
    }
    let covered: u64 = match add_covered(results) {
        Some(bytes) => bytes,
        None => 0,
    };
    let line = "Estimated space covered: ".to_owned().concat(format_bytes(covered).as_str());
    let ghost last = line@;
    push_text(&mut out, line);
    proof {
        assert((start + all).push(last) =~= start + all + seq![last]);
    }
    out
}

// ---------------------------------------------------------------------------------------
// Analyses
// ---------------------------------------------------------------------------------------

/// The first `limit` members of a list.
pub open spec fn first_of<T>(list: Seq<T>, limit: int) -> Seq<T> {
    if list.len() <= limit {
        list
    } else {
        list.take(limit)
    }
}

pub open spec fn entry_line(entry: DiskEntry) -> Seq<char> {
    "  "@ + padded_left(size_text(entry.size as nat), 10) + "  "@ + entry.path@
}

pub open spec fn personal_line(file: LargeFile) -> Seq<char> {
    "  "@ + padded_left(size_text(file.size as nat), 10) + "  "@ + timestamp_text(
        file.modified_unix,
    ) + "  "@ + file.path@
}

pub open spec fn app_data_line(file: LargeFile) -> Seq<char> {
    "  "@ + padded_left(size_text(file.size as nat), 10) + "  "@ + file.path@
}

pub open spec fn personal_files(files: Seq<LargeFile>) -> Seq<LargeFile> {
    files.filter(|file: LargeFile| !file.app_data)
}

pub open spec fn app_data_files(files: Seq<LargeFile>) -> Seq<LargeFile> {
    files.filter(|file: LargeFile| file.app_data)
}

/// The report on an analysis, line by line: up to thirty entries, and up to fifty large files
/// of each kind.
pub open spec fn analysis_lines(report: AnalysisReport) -> Seq<Seq<char>> {
    let personal = personal_files(report.large_files@);
    let app_data = app_data_files(report.large_files@);
    seq![
        "Disk analysis: "@ + report.root@,
        size_text(report.total_size as nat) + " across "@ + decimal(report.total_files as nat)
            + " files ("@ + decimal(report.skipped_entries as nat) + " entries skipped)"@,
        ""@,
        "Top-level usage:"@,
    ] + first_of(report.entries@, 30).map_values(|entry: DiskEntry| entry_line(entry)) + seq![
        ""@,
        "Large personal files:"@,
    ] + (if personal.len() == 0 {
        seq!["  None above the selected threshold."@]
    } else {
        first_of(personal, 50).map_values(|file: LargeFile| personal_line(file))
    }) + (if app_data.len() == 0 {
        seq![]
    } else {
        seq![
            ""@,
            "Application data (review carefully; removal can break or erase application data):"@,
        ] + first_of(app_data, 50).map_values(|file: LargeFile| app_data_line(file))
    })
}

fn entry_text(entry: &DiskEntry) -> (r: String)
    ensures
        r@ == entry_line(*entry),
{
    let size = format_bytes(entry.size);
    "  ".to_owned().concat(pad_left(size.as_str(), 10).as_str()).concat("  ").concat(
        entry.path.as_str(),
    )
}

fn personal_text(file: &LargeFile) -> (r: String)
    ensures
        r@ == personal_line(*file),
{
    let size = format_bytes(file.size);
    "  ".to_owned().concat(pad_left(size.as_str(), 10).as_str()).concat("  ").concat(
        format_timestamp(file.modified_unix).as_str(),
    ).concat("  ").concat(file.path.as_str())
}

fn app_data_text(file: &LargeFile) -> (r: String)
    ensures
        r@ == app_data_line(*file),
{
    let size = format_bytes(file.size);
    "  ".to_owned().concat(pad_left(size.as_str(), 10).as_str()).concat("  ").concat(
        file.path.as_str(),
    )
}

/// Adds a line for each of the first thirty entries.
fn add_entries(out: &mut Vec<String>, entries: &Vec<DiskEntry>)
    ensures
        texts(final(out)@) == texts(old(out)@) + first_of(entries@, 30).map_values(
            |entry: DiskEntry| entry_line(entry),
        ),
{
    let ghost start = texts(out@);
    let ghost shown = first_of(entries@, 30);
    let ghost all = shown.map_values(|entry: DiskEntry| entry_line(entry));
    let mut i: usize = 0;
    proof {
        assert(start + all.take(0) =~= start);
    }
    while i < entries.len() && i < 30
        invariant
            i <= shown.len(),
            shown == first_of(entries@, 30),
            all == shown.map_values(|entry: DiskEntry| entry_line(entry)),
            texts(out@) == start + all.take(i as int),
        decreases entries.len() - i,
    {
        push_text(out, entry_text(&entries[i]));
        proof {
            assert(start + all.take(i + 1) =~= (start + all.take(i as int)).push(all[i as int]));
        }
        i = i + 1;
    }
    proof {
        assert(all.take(i as int) =~= all);
    }
}

/// Adds a line for each of the first fifty large files of a kind; returns how many there were
/// at all.
fn add_files(out: &mut Vec<String>, files: &Vec<LargeFile>, app_data: bool) -> (count: usize)
    ensures
        ({
            let kind = if app_data {
                app_data_files(files@)
            } else {
                personal_files(files@)
            };
            &&& count == kind.len()
            &&& texts(final(out)@) == texts(old(out)@) + (if app_data {
                first_of(kind, 50).map_values(|file: LargeFile| app_data_line(file))
            } else {
                first_of(kind, 50).map_values(|file: LargeFile| personal_line(file))
            })
        }),
{
    let ghost start = texts(out@);
    let ghost test = if app_data {
        |file: LargeFile| file.app_data
    } else {
        |file: LargeFile| !file.app_data
    };
    let ghost line = if app_data {
        |file: LargeFile| app_data_line(file)
    } else {
        |file: LargeFile| personal_line(file)
    };
    let mut count: usize = 0;
    let mut i: usize = 0;
    proof {
        reveal(Seq::filter);
        assert(files@.take(0).filter(test) =~= Seq::empty());
        assert(start + first_of(Seq::<LargeFile>::empty(), 50).map_values(line) =~= start);
    }
    while i < files.len()
        invariant
            i <= files@.len(),
            count <= i,
            test == (if app_data {
                |file: LargeFile| file.app_data
            } else {
                |file: LargeFile| !file.app_data
            }),
            line == (if app_data {
                |file: LargeFile| app_data_line(file)
            } else {
                |file: LargeFile| personal_line(file)
            }),
            count == files@.take(i as int).filter(test).len(),
            texts(out@) == start + first_of(files@.take(i as int).filter(test), 50).map_values(
                line,
            ),
        decreases files.len() - i,
    {
        let ghost so_far = files@.take(i as int).filter(test);
        proof {
            reveal(Seq::filter);
            assert(files@.take(i + 1).drop_last() =~= files@.take(i as int));
            assert(files@.take(i + 1).last() == files@[i as int]);
        }
        if files[i].app_data == app_data {
            proof {
                assert(test(files@[i as int]));
                assert(files@.take(i + 1).filter(test) == so_far.push(files@[i as int]));
            }
            if count < 50 {
                let text = if app_data {
                    app_data_text(&files[i])
                } else {
                    personal_text(&files[i])
                };
                proof {
                    assert(text@ == line(files@[i as int]));
                    assert(first_of(so_far.push(files@[i as int]), 50).map_values(line)
                        =~= first_of(so_far, 50).map_values(line).push(text@));
                    assert(start + first_of(so_far, 50).map_values(line).push(text@) =~= (start
                        + first_of(so_far, 50).map_values(line)).push(text@));
                }
                push_text(out, text);
            } else {
                proof {
                    assert(first_of(so_far.push(files@[i as int]), 50) =~= first_of(so_far, 50));
                }
            }
            count = count + 1;
        } else {
            proof {
                assert(!test(files@[i as int]));
                assert(files@.take(i + 1).filter(test) == so_far);
            }
        }
        i = i + 1;
    }
    proof {
        assert(files@.take(files@.len() as int) =~= files@);
    }
    count
}

/// The report on an analysis, line by line.
pub fn analysis_report_lines(report: &AnalysisReport) -> (r: Vec<String>)
    ensures
        texts(r@) == analysis_lines(*report),
{
    let mut out: Vec<String> = Vec::new();
    push_text(&mut out, "Disk analysis: ".to_owned().concat(report.root.as_str()));
    push_text(
        &mut out,
        format_bytes(report.total_size).concat(" across ").concat(
            decimal_text(report.total_files).as_str(),
        ).concat(" files (").concat(decimal_text(report.skipped_entries).as_str()).concat(
            " entries skipped)",
        ),
    );
    push_text(&mut out, "".to_owned());
    push_text(&mut out, "Top-level usage:".to_owned());
    let ghost head = texts(out@);
    add_entries(&mut out, &report.entries);
    let ghost usage = texts(out@);
    push_text(&mut out, "".to_owned());
    push_text(&mut out, "Large personal files:".to_owned());
    let ghost before = texts(out@);
    let personal: usize = add_files(&mut out, &report.large_files, false);
    let ghost listed = texts(out@);
    proof {
        assert(before =~= usage + seq![""@, "Large personal files:"@]);
    }
    if personal == 0 {
        proof {
            let none = first_of(personal_files(report.large_files@), 50).map_values(
                |file: LargeFile| personal_line(file),
            );
            assert(none =~= Seq::empty());
            assert(listed =~= before);
        }
        push_text(&mut out, "  None above the selected threshold.".to_owned());
        proof {
            assert(texts(out@) =~= before + seq!["  None above the selected threshold."@]);
        }
    }
    let ghost middle = texts(out@);
    let mut tail: Vec<String> = Vec::new();
    push_text(&mut tail, "".to_owned());
    push_text(
        &mut tail,
        "Application data (review carefully; removal can break or erase application data):".to_owned(),
    );
    let ghost heading = texts(tail@);
    let app_data: usize = add_files(&mut tail, &report.large_files, true);
    if app_data > 0 {
        let ghost added = texts(tail@);
        let ghost joined_up = out@ + tail@;
        out.append(&mut tail);
        proof {
            assert(texts(out@) =~= middle + added);
        }
    }
    proof {
        let personal_part = if personal_files(report.large_files@).len() == 0 {
            seq!["  None above the selected threshold."@]
        } else {
            first_of(personal_files(report.large_files@), 50).map_values(
                |file: LargeFile| personal_line(file),
            )
        };
        assert(heading =~= seq![
            ""@,
            "Application data (review carefully; removal can break or erase application data):"@,
        ]);
        assert(texts(out@) =~= analysis_lines(*report));
    }
    out
}

// ---------------------------------------------------------------------------------------
// Artifacts
// ---------------------------------------------------------------------------------------

pub open spec fn candidate_line(candidate: PurgeCandidate) -> Seq<char> {
    "  "@ + padded_left(size_text(candidate.size as nat), 10) + "  "@ + padded_left(
        decimal(candidate.age_days as nat),
        4,
    ) + " days  "@ + candidate.path@
}

/// The artifacts that were found, line by line.
pub open spec fn candidate_lines(
    candidates: Seq<PurgeCandidate>,
    roots: Seq<Seq<char>>,
    age: u64,
) -> Seq<Seq<char>> {
    seq![
        "Project artifact scan (older than "@ + decimal(age as nat) + " days)"@,
        "Roots: "@ + joined(roots, ", "@),
    ] + (if candidates.len() == 0 {
        seq!["No matching artifacts found."@]
    } else {
        candidates.map_values(|candidate: PurgeCandidate| candidate_line(candidate))
    })
}

fn candidate_text(candidate: &PurgeCandidate) -> (r: String)
    ensures
        r@ == candidate_line(*candidate),
{
    let size = format_bytes(candidate.size);
    let days = decimal_text(candidate.age_days);
    "  ".to_owned().concat(pad_left(size.as_str(), 10).as_str()).concat("  ").concat(
        pad_left(days.as_str(), 4).as_str(),
    ).concat(" days  ").concat(candidate.path.as_str())
}

/// The artifacts that were found, line by line.
pub fn purge_candidate_lines(
    candidates: &Vec<PurgeCandidate>,
    roots: &Vec<String>,
    age: u64,
) -> (r: Vec<String>)
    ensures
        texts(r@) == candidate_lines(candidates@, texts(roots@), age),
{
    let mut out: Vec<String> = Vec::new();
    push_text(
        &mut out,
        "Project artifact scan (older than ".to_owned().concat(decimal_text(age).as_str()).concat(
            " days)",
        ),
    );
    push_text(&mut out, "Roots: ".to_owned().concat(join(roots, ", ").as_str()));
    let ghost start = texts(out@);
    if candidates.len() == 0 {
        push_text(&mut out, "No matching artifacts found.".to_owned());
        proof {
            assert(texts(out@) =~= candidate_lines(candidates@, texts(roots@), age));
        }
        return out;
    }
    let ghost all = candidates@.map_values(
        |candidate: PurgeCandidate| candidate_line(candidate),
    );
    let mut i: usize = 0;
    proof {
        assert(start + all.take(0) =~= start);
    }
    while i < candidates.len()
        invariant
            i <= candidates@.len(),
            all == candidates@.map_values(
                |candidate: PurgeCandidate| candidate_line(candidate),
            ),
            texts(out@) == start + all.take(i as int),
        decreases candidates.len() - i,
    {
        push_text(&mut out, candidate_text(&candidates[i]));
        proof {
            assert(start + all.take(i + 1) =~= (start + all.take(i as int)).push(all[i as int]));
        }
        i = i + 1;
    }
    proof {
        assert(all.take(candidates@.len() as int) =~= all);
        assert(texts(out@) =~= candidate_lines(candidates@, texts(roots@), age));
    }
    out
}

// ---------------------------------------------------------------------------------------
// Laws
// ---------------------------------------------------------------------------------------


/// The bytes of the actions that succeeded are covered, and no others; every action either
/// succeeded or failed.
pub proof fn successes_are_covered(results: Seq<ActionResult>)
    ensures
        covered_bytes(results) == sum_of(
            results,
            |result: ActionResult|
                if result.success {
                    result.estimated_bytes as nat
                } else {
                    0
                },
        ),
        failed_count(results) == results.filter(|result: ActionResult| !result.success).len(),
        failed_count(results) + succeeded_count(results) == results.len(),
        failed_count(results) == 0 <==> forall|i: int|
            0 <= i < results.len() ==> (#[trigger] results[i]).success,
    decreases results.len(),
{
    reveal(Seq::filter);
    if results.len() > 0 {
        let before = results.drop_last();
        successes_are_covered(before);
        if forall|i: int| 0 <= i < results.len() ==> (#[trigger] results[i]).success {
            assert forall|i: int| 0 <= i < before.len() implies (#[trigger] before[i]).success by {
                assert(before[i] == results[i]);
            }
            assert(results[results.len() - 1].success);
        }
        if failed_count(results) == 0 {
            assert forall|i: int| 0 <= i < results.len() implies (
            #[trigger] results[i]).success by {
                if i < before.len() {
                    assert(before[i] == results[i]);
                }
            }
        }
    }
}

/// Every action is reported on its own line, in order, as it ended.
pub proof fn every_action_is_reported(results: Seq<ActionResult>, i: int)
    requires
        0 <= i < results.len(),
    ensures
        outcome_lines(results).len() == results.len() + 2,
        outcome_lines(results)[i + 1] == result_line(results[i]),
        has_prefix(
            result_line(results[i]),
            if results[i].success {
                "  [OK] "@
            } else {
                "  [FAIL] "@
            },
        ),
        has_infix(result_line(results[i]), results[i].label@),
{
    let line = result_line(results[i]);
    let label = results[i].label@;
    reveal_strlit("  [");
    reveal_strlit("OK");
    reveal_strlit("FAIL");
    reveal_strlit("] ");
    reveal_strlit("  [OK] ");
    reveal_strlit("  [FAIL] ");
    let front = if results[i].success {
        "  [OK] "@
    } else {
        "  [FAIL] "@
    };
    let n = front.len() as int;
    assert(line.take(n) =~= front);
    assert(line.subrange(n, n + label.len()) =~= label);
    assert(occurs_at(line, label, n));
}

/// A report on a scan has a line for every group, with its title and its bytes, and one for every
/// complaint, as it was made.
pub proof fn every_group_and_complaint_is_shown(report: ScanReport, g: int, w: int)
    ensures
        0 <= g < report.groups@.len() ==> {
            let line = scan_lines(report)[g + 2];
            &&& has_infix(line, group_title(report.groups@[g].group))
            &&& has_infix(line, size_text(report.groups@[g].estimated_bytes as nat))
        },
        0 <= w < report.warnings@.len() ==> {
            let lines = scan_lines(report);
            let at = lines.len() - report.warnings@.len() + w;
            lines[at] == "Warning: "@ + report.warnings@[w]@
        },
{
    let lines = scan_lines(report);
    let complaints = warning_lines(texts(report.warnings@));
    assert(complaints.len() == report.warnings@.len());
    if 0 <= g < report.groups@.len() {
        let summary = report.groups@[g];
        let line = summary_line(summary);
        let title = group_title(summary.group);
        let size = size_text(summary.estimated_bytes as nat);
        assert(lines[g + 2] == line);
        let at = "  "@.len() as int;
        assert(line.subrange(at, at + title.len()) =~= title);
        assert(occurs_at(line, title, at));
        let shown = padded_left(size, 10);
        let start = ("  "@ + title + " "@).len() + shown.len() - size.len();
        assert(line.subrange(start, start + size.len()) =~= size);
        assert(occurs_at(line, size, start));
    }
    if 0 <= w < report.warnings@.len() {
        let at = lines.len() - complaints.len() + w;
        assert(lines[at] == complaints[w]);
        assert(texts(report.warnings@)[w] == report.warnings@[w]@);
    }
}

/// The largest entries are shown, up to thirty, each with its path; and behind them the large
/// personal files, up to fifty.
pub proof fn largest_entries_are_shown(report: AnalysisReport, i: int)
    requires
        0 <= i < report.entries@.len(),
        i < 30,
    ensures
        i + 4 < analysis_lines(report).len(),
        ({
            let line = analysis_lines(report)[i + 4];
            let entry = report.entries@[i];
            &&& has_infix(line, size_text(entry.size as nat))
            &&& line.len() >= entry.path@.len() && line.skip(line.len() - entry.path@.len())
                == entry.path@
        }),
{
    let entry = report.entries@[i];
    let line = entry_line(entry);
    let size = size_text(entry.size as nat);
    assert(first_of(report.entries@, 30)[i] == entry);
    assert(analysis_lines(report)[i + 4] == line);
    assert(line.skip(line.len() - entry.path@.len()) =~= entry.path@);
    let shown = padded_left(size, 10);
    let start = "  "@.len() + shown.len() - size.len();
    assert(line.subrange(start, start + size.len()) =~= size);
    assert(occurs_at(line, size, start));
}

/// A large file is shown among the personal files or among the data of applications, and never
/// among both.
pub proof fn large_files_are_told_apart(files: Seq<LargeFile>, i: int)
    requires
        0 <= i < files.len(),
    ensures
        personal_files(files).contains(files[i]) <==> !files[i].app_data,
        app_data_files(files).contains(files[i]) <==> files[i].app_data,
        personal_files(files).len() + app_data_files(files).len() == files.len(),
{
    let personal = |file: LargeFile| !file.app_data;
    let other = |file: LargeFile| file.app_data;
    if files[i].app_data {
        files.lemma_filter_contains(other, i);
    } else {
        files.lemma_filter_contains(personal, i);
    }
    if personal_files(files).contains(files[i]) {
        let k = choose|k: int|
            0 <= k < personal_files(files).len() && personal_files(files)[k] == files[i];
        files.lemma_filter_pred(personal, k);
    }
    if app_data_files(files).contains(files[i]) {
        let k = choose|k: int|
            0 <= k < app_data_files(files).len() && app_data_files(files)[k] == files[i];
        files.lemma_filter_pred(other, k);
    }
    lemma_kinds_add_up(files);
}

proof fn lemma_kinds_add_up(files: Seq<LargeFile>)
    ensures
        personal_files(files).len() + app_data_files(files).len() == files.len(),
    decreases files.len(),
{
    reveal(Seq::filter);
    if files.len() > 0 {
        lemma_kinds_add_up(files.drop_last());
    }
}

/// Every artifact that was found is shown on its own line, in order.
pub proof fn every_artifact_is_shown(
    candidates: Seq<PurgeCandidate>,
    roots: Seq<Seq<char>>,
    age: u64,
    i: int,
)
    requires
        0 <= i < candidates.len(),
    ensures
        candidate_lines(candidates, roots, age).len() == candidates.len() + 2,
        ({
            let line = candidate_lines(candidates, roots, age)[i + 2];
            let path = candidates[i].path@;
            &&& line.len() >= path.len() && line.skip(line.len() - path.len()) == path
            &&& has_infix(line, size_text(candidates[i].size as nat))
        }),
{
    let line = candidate_line(candidates[i]);
    let path = candidates[i].path@;
    let size = size_text(candidates[i].size as nat);
    assert(candidate_lines(candidates, roots, age)[i + 2] == line);
    assert(line.skip(line.len() - path.len()) =~= path);
    let shown = padded_left(size, 10);
    let start = "  "@.len() + shown.len() - size.len();
    assert(line.subrange(start, start + size.len()) =~= size);
    assert(occurs_at(line, size, start));
}

/// Projects are looked for directly below the home directory.
pub proof fn projects_lie_in_the_home_directory(home: Seq<char>, i: int)
    requires
        home.len() > 0,
        0 <= i < project_places(home).len(),
    ensures
        lies_in(project_places(home)[i], home),
        parts(project_places(home)[i]).len() > parts(home).len(),
{
    reveal_strlit("Projects");
    reveal_strlit("Progetti");
    reveal_strlit("GitHub");
    reveal_strlit("Code");
    reveal_strlit("dev");
    let names = seq!["Projects"@, "Progetti"@, "GitHub"@, "Code"@, "dev"@];
    let name = names[i];
    assert(project_places(home)[i] == joined_path(home, name));
    assert(simple_name(name)) by {
        assert(name.len() >= 3);
        assert(!name.contains('/'));
    }
    one_more_component(home, Part::Normal(name));
    let n = parts(home).len() as int;
    assert(parts(home).push(Part::Normal(name)).take(n) =~= parts(home));
}

/// The total of a scan stands behind its groups, and the totals of an analysis in front of its
/// entries.
pub proof fn totals_are_shown(report: ScanReport, analysis: AnalysisReport)
    ensures
        has_infix(
            scan_lines(report)[report.groups@.len() as int + 2],
            size_text(report.estimated_total_bytes as nat),
        ),
        has_prefix(analysis_lines(analysis)[1], size_text(analysis.total_size as nat)),
        has_infix(analysis_lines(analysis)[1], decimal(analysis.total_files as nat)),
{
    let size = size_text(report.estimated_total_bytes as nat);
    let shown = padded_left(size, 10);
    let front = "  "@ + padded_right("Estimated total"@, 24) + " "@;
    let line = front + shown;
    assert(scan_lines(report)[report.groups@.len() as int + 2] == line);
    let at = front.len() + shown.len() - size.len();
    assert(line.subrange(at, at + size.len()) =~= size);
    assert(occurs_at(line, size, at));
    let total = size_text(analysis.total_size as nat);
    let files = decimal(analysis.total_files as nat);
    let second = analysis_lines(analysis)[1];
    assert(second.take(total.len() as int) =~= total);
    let later = (total + " across "@).len() as int;
    assert(second.subrange(later, later + files.len()) =~= files);
    assert(occurs_at(second, files, later));
}

/// The large personal files are shown, the first fifty of them, each with its path last.
pub proof fn personal_files_are_shown(report: AnalysisReport, i: int)
    requires
        0 <= i < personal_files(report.large_files@).len(),
        i < 50,
    ensures
        ({
            let file = personal_files(report.large_files@)[i];
            let line = personal_line(file);
            &&& analysis_lines(report).contains(line)
            &&& line.len() >= file.path@.len() && line.skip(line.len() - file.path@.len())
                == file.path@
        }),
{
    let personal = personal_files(report.large_files@);
    let file = personal[i];
    let line = personal_line(file);
    let entries = first_of(report.entries@, 30).map_values(|entry: DiskEntry| entry_line(entry));
    let lines = analysis_lines(report);
    assert(first_of(personal, 50)[i] == file);
    assert(lines[4 + entries.len() + 2 + i] == line);
    assert(line.skip(line.len() - file.path@.len()) =~= file.path@);
}

/// Projects are looked for where there are any of the usual places, and otherwise where the command
/// was started.
pub proof fn projects_are_looked_for(present: Vec<String>, current_dir: &str, roots: Vec<String>)
    requires
        call_ensures(default_project_roots, (present, current_dir), roots),
    ensures
        present@.len() > 0 ==> texts(roots@) == texts(present@),
        present@.len() == 0 ==> roots@.len() == 1 && roots@[0]@ == current_dir@,
{
    if present@.len() == 0 {
        assert(texts(roots@).len() == roots@.len());
        assert(texts(roots@)[0] == roots@[0]@);
    }
}

/// A command goes on exactly where somebody can answer, nobody has to, or it only reports;
/// otherwise it says which command it was.
pub proof fn answerable_command_goes_on(
    yes: bool,
    json: bool,
    interactive: bool,
    command: &str,
    verdict: Result<(), String>,
)
    requires
        call_ensures(validate_noninteractive, (yes, json, interactive, command), verdict),
    ensures
        verdict is Ok <==> yes || json || interactive,
        verdict matches Err(message) ==> has_prefix(message@, command@),
{
    assert(needs_terminal_text(command@).take(command@.len() as int) =~= command@);
}

} // verus!
