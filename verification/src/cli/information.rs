//! The commands that inform: `status`, `history` and `update`.
use vstd::prelude::*;
use vstd::string::*;

use crate::cli::args::UpdateArgs;
use crate::history::HistoryRecord;
use crate::model::ActionResult;
use crate::number::{count_text, decimal};
use crate::order::sum_of;
use crate::size::{format_bytes, size_text};
use crate::status::{DiskStatus, SystemStatus};
use crate::text::{
    has_infix, has_prefix, occurs_at, pad_left, pad_right, padded_left, padded_right, push_text,
    texts,
};
use crate::time::{date_or_unknown, duration_text, format_duration, or_unknown, utc_format, utc_text};
use crate::update::{UpdateInfo, UpdateResult};

verus! {

// ---------------------------------------------------------------------------------------
// Status
// ---------------------------------------------------------------------------------------

pub open spec fn disk_line(disk: DiskStatus, percent: Seq<char>) -> Seq<char> {
    "  "@ + padded_right(disk.mount@, 20) + " "@ + padded_left(
        size_text(disk.used_bytes as nat),
        8,
    ) + " / "@ + padded_left(size_text(disk.total_bytes as nat), 8) + " ("@ + padded_left(
        percent,
        5,
    ) + "%)  "@ + disk.filesystem@
}

pub open spec fn disk_lines(disks: Seq<DiskStatus>, percents: Seq<Seq<char>>) -> Seq<Seq<char>> {
    Seq::new(
        if disks.len() < percents.len() {
            disks.len()
        } else {
            percents.len()
        },
        |i: int| disk_line(disks[i], percents[i]),
    )
}

/// The state of a system, line by line.
pub open spec fn status_lines(status: SystemStatus) -> Seq<Seq<char>> {
    seq![
        "TuxCleaner status for "@ + status.hostname@,
        "CPU: "@ + decimal(status.logical_cpus as nat) + " logical cores | load "@
            + status.load_average@[0]@ + " / "@ + status.load_average@[1]@ + " / "@
            + status.load_average@[2]@,
        "Memory: "@ + size_text(status.memory.used_bytes as nat) + " / "@ + size_text(
            status.memory.total_bytes as nat,
        ) + " used ("@ + status.memory_percent@ + "%)"@,
        "Uptime: "@ + duration_text(status.uptime_seconds as nat),
        ""@,
        "Disks:"@,
    ] + disk_lines(status.disks@, texts(status.disk_percents@))
}

fn disk_text(disk: &DiskStatus, percent: &str) -> (r: String)
    ensures
        r@ == disk_line(*disk, percent@),
{
    let used = format_bytes(disk.used_bytes);
    let total = format_bytes(disk.total_bytes);
    "  ".to_owned().concat(pad_right(disk.mount.as_str(), 20).as_str()).concat(" ").concat(
        pad_left(used.as_str(), 8).as_str(),
    ).concat(" / ").concat(pad_left(total.as_str(), 8).as_str()).concat(" (").concat(
        pad_left(percent, 5).as_str(),
    ).concat("%)  ").concat(disk.filesystem.as_str())
}

/// The state of a system, line by line.
pub fn status_report_lines(status: &SystemStatus) -> (r: Vec<String>)
    ensures
        texts(r@) == status_lines(*status),
{
    let mut out: Vec<String> = Vec::new();
    push_text(&mut out, "TuxCleaner status for ".to_owned().concat(status.hostname.as_str()));
    push_text(
        &mut out,
        "CPU: ".to_owned().concat(count_text(status.logical_cpus).as_str()).concat(
            " logical cores | load ",
        ).concat(status.load_average[0].as_str()).concat(" / ").concat(
            status.load_average[1].as_str(),
        ).concat(" / ").concat(status.load_average[2].as_str()),
    );
    push_text(
        &mut out,
        "Memory: ".to_owned().concat(format_bytes(status.memory.used_bytes).as_str()).concat(
            " / ",
        ).concat(format_bytes(status.memory.total_bytes).as_str()).concat(" used (").concat(
            status.memory_percent.as_str(),
        ).concat("%)"),
    );
    push_text(
        &mut out,
        "Uptime: ".to_owned().concat(format_duration(status.uptime_seconds).as_str()),
    );
    push_text(&mut out, "".to_owned());
    push_text(&mut out, "Disks:".to_owned());
    let ghost start = texts(out@);
    let ghost percents = texts(status.disk_percents@);
    let ghost all = disk_lines(status.disks@, percents);
    let mut i: usize = 0;
    proof {
        assert(percents.len() == status.disk_percents@.len());
        assert(start + all.take(0) =~= start);
    }
    while i < status.disks.len() && i < status.disk_percents.len()
        invariant
            i <= all.len(),
            percents == texts(status.disk_percents@),
            percents.len() == status.disk_percents@.len(),
            all == disk_lines(status.disks@, percents),
            texts(out@) == start + all.take(i as int),
        decreases status.disks.len() - i,
    {
        proof {
            assert(percents[i as int] == status.disk_percents@[i as int]@);
        }
        push_text(&mut out, disk_text(&status.disks[i], status.disk_percents[i].as_str()));
        proof {
            assert(start + all.take(i + 1) =~= (start + all.take(i as int)).push(all[i as int]));
        }
        i = i + 1;
    }
    proof {
        assert(all.take(i as int) =~= all);
        assert(texts(out@) =~= status_lines(*status));
    }
    out
}

// ---------------------------------------------------------------------------------------
// History
// ---------------------------------------------------------------------------------------

pub open spec fn succeeded_count(results: Seq<ActionResult>) -> nat
    decreases results.len(),
{
    if results.len() == 0 {
        0
    } else {
        succeeded_count(results.drop_last()) + if results.last().success {
            1nat
        } else {
            0nat
        }
    }
}

/// The bytes of the actions that succeeded and were no dry run.
pub open spec fn reclaimed_bytes(results: Seq<ActionResult>) -> nat
    decreases results.len(),
{
    if results.len() == 0 {
        0
    } else {
        reclaimed_bytes(results.drop_last()) + if results.last().success && !results.last().dry_run {
            results.last().estimated_bytes as nat
        } else {
            0
        }
    }
}

proof fn lemma_reclaimed_grows(results: Seq<ActionResult>, upto: int)
    requires
        0 <= upto <= results.len(),
    ensures
        reclaimed_bytes(results.take(upto)) <= reclaimed_bytes(results),
    decreases results.len(),
{
    if upto < results.len() {
        lemma_reclaimed_grows(results.drop_last(), upto);
        assert(results.drop_last().take(upto) =~= results.take(upto));
    } else {
        assert(results.take(upto) =~= results);
    }
}

/// How many actions succeeded.
pub fn count_succeeded(results: &Vec<ActionResult>) -> (r: usize)
    ensures
        r == succeeded_count(results@),
{
    let mut count: usize = 0;
    let mut i: usize = 0;
    while i < results.len()
        invariant
            i <= results@.len(),
            count <= i,
            count == succeeded_count(results@.take(i as int)),
        decreases results.len() - i,
    {
        proof {
            assert(results@.take(i + 1).drop_last() =~= results@.take(i as int));
        }
        if results[i].success {
            count = count + 1;
        }
        i = i + 1;
    }
    proof {
        assert(results@.take(results@.len() as int) =~= results@);
    }
    count
}

/// The bytes that were given back, if they add up in 64 bits.
pub fn add_reclaimed(results: &Vec<ActionResult>) -> (r: Option<u64>)
    ensures
        match r {
            Some(bytes) => bytes == reclaimed_bytes(results@),
            None => reclaimed_bytes(results@) > u64::MAX,
        },
{
    let mut total: u64 = 0;
    let mut i: usize = 0;
    while i < results.len()
        invariant
            i <= results@.len(),
            total == reclaimed_bytes(results@.take(i as int)),
        decreases results.len() - i,
    {
        proof {
            assert(results@.take(i + 1).drop_last() =~= results@.take(i as int));
            lemma_reclaimed_grows(results@, i + 1);
        }
        if results[i].success && !results[i].dry_run {
            if results[i].estimated_bytes > u64::MAX - total {
                return None;
            }
            total = total + results[i].estimated_bytes;
        }
        i = i + 1;
    }
    proof {
        assert(results@.take(results@.len() as int) =~= results@);
    }
    Some(total)
}

/// The line on one cleanup, where the day is known as text.
pub open spec fn record_line(record: HistoryRecord, day: Seq<char>) -> Seq<char> {
    day + "  "@ + padded_right(record.command@, 6) + "  "@ + decimal(
        succeeded_count(record.results@),
    ) + "/"@ + decimal(record.results@.len()) + " succeeded  estimated "@ + size_text(
        reclaimed_bytes(record.results@),
    )
}

/// The line on one cleanup, where the day is known as text.
pub fn dated_history_line(record: &HistoryRecord, day: &str) -> (r: String)
    requires
        reclaimed_bytes(record.results@) <= u64::MAX,
    ensures
        r@ == record_line(*record, day@),
{
    let succeeded: usize = count_succeeded(&record.results);
    let reclaimed: u64 = match add_reclaimed(&record.results) {
        Some(bytes) => bytes,
        None => 0,
    };
    day.to_owned().concat("  ").concat(pad_right(record.command.as_str(), 6).as_str()).concat(
        "  ",
    ).concat(count_text(succeeded).as_str()).concat("/").concat(
        count_text(record.results.len()).as_str(),
    ).concat(" succeeded  estimated ").concat(format_bytes(reclaimed).as_str())
}

/// The line on one cleanup.
pub fn history_line(record: &HistoryRecord) -> (r: String)
    requires
        reclaimed_bytes(record.results@) <= u64::MAX,
    ensures
        r@ == record_line(
            *record,
            date_or_unknown(utc_format(record.timestamp as int, "%Y-%m-%d %H:%M:%S UTC"@)),
        ),
{
    let day = or_unknown(utc_text(record.timestamp, "%Y-%m-%d %H:%M:%S UTC"));
    dated_history_line(record, day.as_str())
}

// ---------------------------------------------------------------------------------------
// Update
// ---------------------------------------------------------------------------------------

/// Why an update is refused: nobody can be asked.
pub open spec fn update_refusal(args: UpdateArgs, interactive: bool) -> Option<Seq<char>> {
    if !args.check && !args.dry_run && !args.yes && !interactive {
        Some("update needs an interactive terminal; use --dry-run, --check, or --yes"@)
    } else {
        None
    }
}

/// Refuses an update that would have to ask where nobody can answer.
pub fn validate_update(args: &UpdateArgs, interactive: bool) -> (r: Result<(), String>)
    ensures
        match r {
            Ok(()) => update_refusal(*args, interactive) is None,
            Err(message) => update_refusal(*args, interactive) == Some(message@),
        },
{
    if !args.check && !args.dry_run && !args.yes && !interactive {
        return Err(
            "update needs an interactive terminal; use --dry-run, --check, or --yes".to_owned(),
        );
    }
    Ok(())
}

/// How `update` goes on once the release is known.
#[derive(Debug, Clone, Copy, PartialEq, Eq, Structural)]
pub enum UpdatePlan {
    /// What is known of the release is all that was asked for, or there is nothing to do.
    ReportOnly,
    /// The user is asked before the program is replaced.
    Ask,
    /// The program is replaced.
    Install,
}

/// The program is replaced only by a later release or by one that was asked for, and only with
/// `--yes` or after a question.
pub open spec fn update_plan(args: UpdateArgs, update_available: bool) -> UpdatePlan {
    if args.check || args.dry_run || (!update_available && args.target_version is None) {
        UpdatePlan::ReportOnly
    } else if args.yes {
        UpdatePlan::Install
    } else {
        UpdatePlan::Ask
    }
}

pub fn plan_update(args: &UpdateArgs, update_available: bool) -> (r: UpdatePlan)
    ensures
        r == update_plan(*args, update_available),
{
    if args.check || args.dry_run || (!update_available && args.target_version.is_none()) {
        UpdatePlan::ReportOnly
    } else if args.yes {
        UpdatePlan::Install
    } else {
        UpdatePlan::Ask
    }
}

/// What is said of a release that is not installed now.
pub open spec fn release_text(args: UpdateArgs, info: UpdateInfo) -> Seq<char> {
    if info.update_available || args.target_version is Some {
        "TuxCleaner "@ + info.current_version@ + " is installed; release "@
            + info.available_version@ + " is available for "@ + info.target@ + (if args.dry_run {
            " (dry-run)"@
        } else {
            ""@
        }) + "."@
    } else {
        "TuxCleaner "@ + info.current_version@ + " is already up to date."@
    }
}

pub fn release_line(args: &UpdateArgs, info: &UpdateInfo) -> (r: String)
    ensures
        r@ == release_text(*args, *info),
{
    if info.update_available || args.target_version.is_some() {
        let mode = if args.dry_run {
            " (dry-run)"
        } else {
            ""
        };
        "TuxCleaner ".to_owned().concat(info.current_version.as_str()).concat(
            " is installed; release ",
        ).concat(info.available_version.as_str()).concat(" is available for ").concat(
            info.target.as_str(),
        ).concat(mode).concat(".")
    } else {
        "TuxCleaner ".to_owned().concat(info.current_version.as_str()).concat(
            " is already up to date.",
        )
    }
}

pub open spec fn update_question(info: UpdateInfo) -> Seq<char> {
    "Replace TuxCleaner "@ + info.current_version@ + " with "@ + info.available_version@ + "?"@
}

/// The question before the program is replaced.
pub fn confirm_update_prompt(info: &UpdateInfo) -> (r: String)
    ensures
        r@ == update_question(*info),
{
    "Replace TuxCleaner ".to_owned().concat(info.current_version.as_str()).concat(" with ").concat(
        info.available_version.as_str(),
    ).concat("?")
}

pub open spec fn update_outcome(result: UpdateResult) -> Seq<char> {
    if result.updated {
        "Updated TuxCleaner from "@ + result.previous_version@ + " to "@ + result.installed_version@
            + " for "@ + result.target@ + "."@
    } else {
        "TuxCleaner "@ + result.installed_version@ + " is already up to date."@
    }
}

/// What an update came to.
pub fn update_result_line(result: &UpdateResult) -> (r: String)
    ensures
        r@ == update_outcome(*result),
{
    if result.updated {
        "Updated TuxCleaner from ".to_owned().concat(result.previous_version.as_str()).concat(
            " to ",
        ).concat(result.installed_version.as_str()).concat(" for ").concat(
            result.target.as_str(),
        ).concat(".")
    } else {
        "TuxCleaner ".to_owned().concat(result.installed_version.as_str()).concat(
            " is already up to date.",
        )
    }
}

// ---------------------------------------------------------------------------------------
// Laws
// ---------------------------------------------------------------------------------------

/// The program is replaced without a question only with `--yes`; a check or a dry run replaces
/// nothing, and neither does a release that is not newer, unless it was asked for by name.
pub proof fn updating_needs_consent(args: UpdateArgs, update_available: bool)
    ensures
        update_plan(args, update_available) is Install ==> args.yes,
        args.check || args.dry_run ==> update_plan(args, update_available) is ReportOnly,
        !update_available && args.target_version is None ==> update_plan(
            args,
            update_available,
        ) is ReportOnly,
{
}

/// The actions that succeeded are counted; bytes count as freed only where an action succeeded and
/// was no dry run.
pub proof fn dry_runs_free_nothing(results: Seq<ActionResult>)
    ensures
        succeeded_count(results) == results.filter(|result: ActionResult| result.success).len(),
        reclaimed_bytes(results) == sum_of(
            results,
            |result: ActionResult|
                if result.success && !result.dry_run {
                    result.estimated_bytes as nat
                } else {
                    0
                },
        ),
        (forall|i: int| 0 <= i < results.len() ==> (#[trigger] results[i]).dry_run)
            ==> reclaimed_bytes(results) == 0,
    decreases results.len(),
{
    reveal(Seq::filter);
    if results.len() > 0 {
        let before = results.drop_last();
        dry_runs_free_nothing(before);
        if forall|i: int| 0 <= i < results.len() ==> (#[trigger] results[i]).dry_run {
            assert forall|i: int| 0 <= i < before.len() implies (#[trigger] before[i]).dry_run by {
                assert(before[i] == results[i]);
            }
            assert(results[results.len() - 1].dry_run);
        }
    }
}

/// Every disk has its line: where it is mounted, what is used of it, how large it is, and last the
/// device.
pub proof fn every_disk_is_shown(status: SystemStatus, i: int)
    requires
        0 <= i < status.disks@.len(),
        status.disk_percents@.len() == status.disks@.len(),
    ensures
        i + 6 < status_lines(status).len(),
        ({
            let line = status_lines(status)[i + 6];
            let disk = status.disks@[i];
            let used = size_text(disk.used_bytes as nat);
            let total = size_text(disk.total_bytes as nat);
            exists|at: int, later: int|
                at < later && #[trigger] occurs_at(line, used, at) && #[trigger] occurs_at(
                    line,
                    total,
                    later,
                )
        }),
        ({
            let line = status_lines(status)[i + 6];
            let device = status.disks@[i].filesystem@;
            line.len() >= device.len() && line.skip(line.len() - device.len()) == device
        }),
        has_infix(status_lines(status)[i + 6], status.disks@[i].mount@),
{
    let disk = status.disks@[i];
    let percent = texts(status.disk_percents@)[i];
    let line = disk_line(disk, percent);
    assert(disk_lines(status.disks@, texts(status.disk_percents@))[i] == line);
    assert(status_lines(status)[i + 6] == line);
    reveal_strlit("  ");
    reveal_strlit(" ");
    reveal_strlit(" / ");
    let mount = disk.mount@;
    let used = size_text(disk.used_bytes as nat);
    let total = size_text(disk.total_bytes as nat);
    let a = padded_right(mount, 20);
    let b = padded_left(used, 8);
    let c = padded_left(total, 8);
    let at = 2 + a.len() + 1 + b.len() - used.len();
    let later = 2 + a.len() + 1 + b.len() + 3 + c.len() - total.len();
    assert(line.subrange(2, 2 + mount.len() as int) =~= mount);
    assert(occurs_at(line, mount, 2));
    assert(line.subrange(at, at + used.len()) =~= used);
    assert(line.subrange(later, later + total.len()) =~= total);
    assert(occurs_at(line, used, at) && occurs_at(line, total, later));
    let device = disk.filesystem@;
    assert(line.skip(line.len() - device.len()) =~= device);
}

/// The line on a cleanup says when it was, how many actions succeeded out of how many, and last
/// what was freed.
pub proof fn record_line_says_what_was_done(record: HistoryRecord, day: Seq<char>)
    ensures
        ({
            let line = record_line(record, day);
            let freed = size_text(reclaimed_bytes(record.results@));
            &&& has_prefix(line, day)
            &&& has_infix(
                line,
                decimal(succeeded_count(record.results@)) + "/"@ + decimal(record.results@.len()),
            )
            &&& line.len() >= freed.len() && line.skip(line.len() - freed.len()) == freed
        }),
{
    let line = record_line(record, day);
    let freed = size_text(reclaimed_bytes(record.results@));
    let count = decimal(succeeded_count(record.results@)) + "/"@ + decimal(record.results@.len());
    let at = (day + "  "@ + padded_right(record.command@, 6) + "  "@).len() as int;
    assert(line.take(day.len() as int) =~= day);
    assert(line.subrange(at, at + count.len()) =~= count);
    assert(occurs_at(line, count, at));
    assert(line.skip(line.len() - freed.len()) =~= freed);
}

/// The memory is shown as what is used, then what there is.
pub proof fn memory_is_shown(status: SystemStatus)
    ensures
        has_prefix(
            status_lines(status)[2],
            "Memory: "@ + size_text(status.memory.used_bytes as nat) + " / "@ + size_text(
                status.memory.total_bytes as nat,
            ),
        ),
{
    let line = status_lines(status)[2];
    let front = "Memory: "@ + size_text(status.memory.used_bytes as nat) + " / "@ + size_text(
        status.memory.total_bytes as nat,
    );
    assert(line.take(front.len() as int) =~= front);
}

/// What is said of a release names both versions where there is anything to install.
pub proof fn release_line_names_the_versions(args: UpdateArgs, info: UpdateInfo, result: UpdateResult)
    ensures
        has_infix(release_text(args, info), info.current_version@),
        info.update_available ==> has_infix(release_text(args, info), info.available_version@),
        has_infix(update_question(info), info.available_version@),
        has_infix(update_outcome(result), result.installed_version@),
{
    let text = release_text(args, info);
    let current = info.current_version@;
    let available = info.available_version@;
    let at = "TuxCleaner "@.len() as int;
    assert(text.subrange(at, at + current.len()) =~= current);
    assert(occurs_at(text, current, at));
    if info.update_available {
        let later = ("TuxCleaner "@ + current + " is installed; release "@).len() as int;
        assert(text.subrange(later, later + available.len()) =~= available);
        assert(occurs_at(text, available, later));
    }
    let question = update_question(info);
    let asked = ("Replace TuxCleaner "@ + current + " with "@).len() as int;
    assert(question.subrange(asked, asked + available.len()) =~= available);
    assert(occurs_at(question, available, asked));
    let outcome = update_outcome(result);
    let version = result.installed_version@;
    let told = if result.updated {
        ("Updated TuxCleaner from "@ + result.previous_version@ + " to "@).len() as int
    } else {
        "TuxCleaner "@.len() as int
    };
    assert(outcome.subrange(told, told + version.len()) =~= version);
    assert(occurs_at(outcome, version, told));
}

/// An update is refused exactly where it would have to ask and nobody can answer.
pub proof fn answerable_update_goes_on(args: UpdateArgs, interactive: bool)
    ensures
        interactive || args.yes || args.check || args.dry_run <==> update_refusal(args, interactive)
            is None,
{
}

} // verus!
