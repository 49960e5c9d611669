//! The state of a system: its memory and its disks.
use vstd::prelude::*;
use vstd::string::*;

use crate::number::{
    decimal, decimal_holds_no_white, decimal_is_read_back, number_up_to, parse_u64,
};
use crate::text::{
    all_white, are_spaced, ends_line, has_prefix, is_white, join, joined, kept, kept_one_more,
    line_stands_alone, lines, lines_add_up, lines_one_more, no_white, spaced,
    spaced_fields_are_read_back, split_lines, split_words, starts_with, texts, trim, trimmed,
    white_space_holds_no_words, without_return, word_stands_alone, words, words_add_up,
};

verus! {

#[derive(Debug, Clone, Copy, PartialEq, Eq)]
pub struct MemoryStatus {
    pub total_bytes: u64,
    pub available_bytes: u64,
    pub used_bytes: u64,
}

#[derive(Debug, PartialEq, Eq)]
pub struct DiskStatus {
    pub filesystem: String,
    pub mount: String,
    pub total_bytes: u64,
    pub used_bytes: u64,
    pub available_bytes: u64,
}

/// The state of a system. Loads and percentages are given as they are written.
#[derive(Debug, PartialEq, Eq)]
pub struct SystemStatus {
    pub hostname: String,
    pub logical_cpus: usize,
    pub load_average: [String; 3],
    pub uptime_seconds: u64,
    pub memory: MemoryStatus,
    pub memory_percent: String,
    pub disks: Vec<DiskStatus>,
    /// The share that is used of each disk.
    pub disk_percents: Vec<String>,
}

pub struct DiskView {
    pub filesystem: Seq<char>,
    pub mount: Seq<char>,
    pub total_bytes: nat,
    pub used_bytes: nat,
    pub available_bytes: nat,
}

impl View for DiskStatus {
    type V = DiskView;

    open spec fn view(&self) -> DiskView {
        DiskView {
            filesystem: self.filesystem@,
            mount: self.mount@,
            total_bytes: self.total_bytes as nat,
            used_bytes: self.used_bytes as nat,
            available_bytes: self.available_bytes as nat,
        }
    }
}

pub open spec fn disk_views(disks: Seq<DiskStatus>) -> Seq<DiskView> {
    disks.map_values(|disk: DiskStatus| disk@)
}

/// The name of the host, from the text of its file.
pub fn parse_hostname(content: &str) -> (r: String)
    ensures
        r@ == trimmed(content@),
{
    trim(content)
}

/// The first line with that prefix, from the `i`-th on.
pub open spec fn line_with(all: Seq<Seq<char>>, prefix: Seq<char>, i: int) -> Option<Seq<char>>
    decreases all.len() - i,
{
    if i < 0 || i >= all.len() {
        None
    } else if has_prefix(all[i], prefix) {
        Some(all[i])
    } else {
        line_with(all, prefix, i + 1)
    }
}

/// The bytes that a memory report gives under a key, in units of 1024; none where it says
/// nothing that can be read.
pub open spec fn memory_value(content: Seq<char>, key: Seq<char>) -> u64 {
    let kilobytes = match line_with(lines(content), key, 0) {
        Some(line) => if words(line).len() > 1 {
            match number_up_to(words(line)[1], u64::MAX as nat) {
                Some(n) => n,
                None => 0,
            }
        } else {
            0
        },
        None => 0,
    };
    if kilobytes * 1024 > u64::MAX {
        u64::MAX
    } else {
        (kilobytes * 1024) as u64
    }
}

fn read_memory_value(all: &Vec<String>, key: &str, content: Ghost<Seq<char>>) -> (r: u64)
    requires
        texts(all@) == lines(content@),
    ensures
        r == memory_value(content@, key@),
{
    let ghost views = lines(content@);
    let mut i: usize = 0;
    proof {
        assert(views.len() == all@.len());
    }
    while i < all.len()
        invariant
            i <= all@.len(),
            views == lines(content@),
            views == texts(all@),
            line_with(views, key@, 0) == line_with(views, key@, i as int),
        decreases all.len() - i,
    {
        proof {
            assert(views[i as int] == all@[i as int]@);
        }
        if starts_with(all[i].as_str(), key) {
            let fields = split_words(all[i].as_str());
            proof {
                assert(texts(fields@).len() == fields@.len());
            }
            if fields.len() <= 1 {
                return 0;
            }
            proof {
                assert(texts(fields@)[1] == fields@[1]@);
            }
            let kilobytes: u64 = match parse_u64(fields[1].as_str()) {
                Some(n) => n,
                None => 0,
            };
            if kilobytes > u64::MAX / 1024 {
                return u64::MAX;
            }
            return kilobytes * 1024;
        }
        i = i + 1;
    }
    0
}

/// The memory of a system, from the text of its memory report.
pub fn parse_memory(content: &str) -> (r: MemoryStatus)
    ensures
        r.total_bytes == memory_value(content@, "MemTotal:"@),
        r.available_bytes == memory_value(content@, "MemAvailable:"@),
        r.used_bytes == if r.total_bytes > r.available_bytes {
            r.total_bytes - r.available_bytes
        } else {
            0
        },
{
    let all = split_lines(content);
    let total_bytes: u64 = read_memory_value(&all, "MemTotal:", Ghost(content@));
    let available_bytes: u64 = read_memory_value(&all, "MemAvailable:", Ghost(content@));
    let used_bytes: u64 = if total_bytes > available_bytes {
        total_bytes - available_bytes
    } else {
        0
    };
    MemoryStatus { total_bytes, available_bytes, used_bytes }
}

/// The disk that a line of a report on file systems describes: a device with its sizes, and
/// where it is mounted.
pub open spec fn disk_of(line: Seq<char>) -> Option<DiskView> {
    let fields = words(line);
    if fields.len() < 6 || fields[0].len() == 0 || fields[0][0] != '/' {
        None
    } else {
        match (
            number_up_to(fields[1], u64::MAX as nat),
            number_up_to(fields[2], u64::MAX as nat),
            number_up_to(fields[3], u64::MAX as nat),
        ) {
            (Some(total_bytes), Some(used_bytes), Some(available_bytes)) => Some(
                DiskView {
                    filesystem: fields[0],
                    mount: joined(fields.skip(5), " "@),
                    total_bytes,
                    used_bytes,
                    available_bytes,
                },
            ),
            _ => None,
        }
    }
}

/// The disks that a report describes; its first line is a heading.
pub open spec fn disks_of(report: Seq<char>) -> Seq<DiskView> {
    let all = lines(report);
    kept(
        if all.len() > 0 {
            all.skip(1)
        } else {
            all
        },
        |line: Seq<char>| disk_of(line),
    )
}

fn read_disk(line: &str) -> (r: Option<DiskStatus>)
    ensures
        match r {
            Some(disk) => disk_of(line@) == Some(disk@),
            None => disk_of(line@) is None,
        },
{
    let fields = split_words(line);
    let ghost views = words(line@);
    proof {
        assert(views.len() == fields@.len());
    }
    if fields.len() < 6 {
        return None;
    }
    proof {
        assert(views[0] == fields@[0]@);
        assert(views[1] == fields@[1]@);
        assert(views[2] == fields@[2]@);
        assert(views[3] == fields@[3]@);
    }
    if fields[0].as_str().unicode_len() == 0 || fields[0].as_str().get_char(0) != '/' {
        return None;
    }
    let total_bytes: u64 = match parse_u64(fields[1].as_str()) {
        Some(n) => n,
        None => {
            return None;
        },
    };
    let used_bytes: u64 = match parse_u64(fields[2].as_str()) {
        Some(n) => n,
        None => {
            return None;
        },
    };
    let available_bytes: u64 = match parse_u64(fields[3].as_str()) {
        Some(n) => n,
        None => {
            return None;
        },
    };
    let filesystem = fields[0].clone();
    let mut front = fields;
    let mount = front.split_off(5);
    proof {
        assert(texts(mount@) =~= views.skip(5));
    }
    Some(
        DiskStatus {
            filesystem,
            mount: join(&mount, " "),
            total_bytes,
            used_bytes,
            available_bytes,
        },
    )
}

/// The disks that a report on file systems describes.
pub fn parse_disks(report: &str) -> (r: Vec<DiskStatus>)
    ensures
        disk_views(r@) == disks_of(report@),
{
    let all = split_lines(report);
    let ghost views = lines(report@);
    let ghost body = if views.len() > 0 {
        views.skip(1)
    } else {
        views
    };
    let ghost keep = |line: Seq<char>| disk_of(line);
    let mut out: Vec<DiskStatus> = Vec::new();
    let mut i: usize = 1;
    proof {
        assert(views.len() == all@.len());
        assert(body.take(0) =~= Seq::empty());
    }
    while i < all.len()
        invariant
            1 <= i,
            i <= all@.len() || (all@.len() == 0 && i == 1),
            views == texts(all@),
            views.len() == all@.len(),
            body == (if views.len() > 0 {
                views.skip(1)
            } else {
                views
            }),
            keep == (|line: Seq<char>| disk_of(line)),
            disk_views(out@) =~= kept(body.take(i - 1), keep),
        decreases all.len() - i,
    {
        proof {
            let taken = body.take(i as int);
            assert(taken.drop_last() =~= body.take(i - 1));
            assert(taken.last() == all@[i as int]@);
            assert(keep(all@[i as int]@) == disk_of(all@[i as int]@));
        }
        match read_disk(all[i].as_str()) {
            Some(disk) => {
                let ghost before = out@;
                let ghost view = disk@;
                out.push(disk);
                proof {
                    assert(disk_views(out@) =~= disk_views(before).push(view));
                }
            },
            None => {},
        }
        i = i + 1;
    }
    proof {
        assert(body.take(i - 1) =~= body);
    }
    out
}

// ---------------------------------------------------------------------------------------
// Laws
// ---------------------------------------------------------------------------------------


/// A line with a device, three numbers, a share and a place to mount, with white space between
/// them, describes a disk: the first number is all of it, the second what is used and the third
/// what is left. The place may be made of several words, which one space parts.
pub proof fn disk_line_is_read(
    device: Seq<char>,
    total: u64,
    used: u64,
    available: u64,
    capacity: Seq<char>,
    mount: Seq<Seq<char>>,
    gaps: Seq<Seq<char>>,
)
    requires
        device.len() > 0 && device[0] == '/',
        mount.len() > 0,
        are_spaced(
            seq![
                device,
                decimal(total as nat),
                decimal(used as nat),
                decimal(available as nat),
                capacity,
            ] + mount,
            gaps,
        ),
    ensures
        ({
            let line = spaced(
                seq![
                    device,
                    decimal(total as nat),
                    decimal(used as nat),
                    decimal(available as nat),
                    capacity,
                ] + mount,
                gaps,
            );
            match disk_of(line) {
                Some(disk) => {
                    &&& disk.filesystem == device
                    &&& disk.total_bytes == total
                    &&& disk.used_bytes == used
                    &&& disk.available_bytes == available
                    &&& words(disk.mount) == mount
                    &&& mount.len() == 1 ==> disk.mount == mount[0]
                },
                None => false,
            }
        }),
{
    let fields = seq![
        device,
        decimal(total as nat),
        decimal(used as nat),
        decimal(available as nat),
        capacity,
    ] + mount;
    spaced_fields_are_read_back(fields, gaps);
    decimal_is_read_back(total);
    decimal_is_read_back(used);
    decimal_is_read_back(available);
    assert(fields.skip(5) =~= mount);
    assert forall|i: int| 0 <= i < mount.len() implies (#[trigger] mount[i]).len() > 0 && no_white(
        mount[i],
    ) by {
        assert(fields[i + 5] == mount[i]);
    }
    lemma_words_of_joined(mount);
}

proof fn lemma_words_of_joined(list: Seq<Seq<char>>)
    requires
        forall|i: int| 0 <= i < list.len() ==> (#[trigger] list[i]).len() > 0 && no_white(list[i]),
    ensures
        words(joined(list, " "@)) == list,
    decreases list.len(),
{
    if list.len() == 0 {
        white_space_holds_no_words(Seq::empty());
        assert(list =~= Seq::empty());
    } else {
        word_stands_alone(list.last());
        if list.len() == 1 {
            assert(list =~= seq![list[0]]);
        } else {
            let before = list.drop_last();
            assert forall|i: int| 0 <= i < before.len() implies (#[trigger] before[i]).len() > 0
                && no_white(before[i]) by {
                assert(before[i] == list[i]);
            }
            lemma_words_of_joined(before);
            reveal_strlit(" ");
            assert(" "@ =~= seq![' ']);
            words_add_up(joined(before, " "@), " "@, list.last());
            assert(before + seq![list.last()] =~= list);
        }
    }
}

/// The heading of a report describes no disk, and every further line adds the disk that it
/// describes, if it describes one, behind those before it.
pub proof fn every_disk_line_counts(heading: Seq<char>, body: Seq<char>, line: Seq<char>)
    requires
        !heading.contains('\n'),
        ends_line(body),
        !line.contains('\n') && !line.contains('\r'),
    ensures
        disks_of(Seq::empty()) == Seq::<DiskView>::empty(),
        disks_of(heading.push('\n')) == Seq::<DiskView>::empty(),
        disks_of(heading.push('\n') + body + line.push('\n')) == match disk_of(line) {
            Some(disk) => disks_of(heading.push('\n') + body).push(disk),
            None => disks_of(heading.push('\n') + body),
        },
{
    let keep = |line: Seq<char>| disk_of(line);
    let none = Seq::<char>::empty();
    let front = heading.push('\n');
    line_stands_alone(heading);
    lines_add_up(none, none);
    assert(none + none =~= none);
    assert(lines(none).len() == 0);
    assert(kept(lines(none), keep) =~= Seq::empty());
    assert(lines(front).skip(1) =~= Seq::empty());
    assert(kept(lines(front).skip(1), keep) =~= Seq::empty());
    lines_add_up(front, body);
    assert(ends_line(front + body)) by {
        if body.len() > 0 {
            assert((front + body).last() == body.last());
        } else {
            assert(front + body =~= front);
        }
    }
    lines_one_more(front + body, line);
    assert(without_return(line) == line) by {
        if line.len() > 0 {
            assert(line.contains(line[line.len() - 1]));
        }
    }
    let all = lines(front + body);
    assert(all.push(line).skip(1) =~= all.skip(1).push(line));
    kept_one_more(all.skip(1), line, keep);
}

/// Only a line that starts with an absolute path and holds three numbers describes a disk.
pub proof fn other_lines_describe_no_disk(line: Seq<char>)
    requires
        disk_of(line) is Some,
    ensures
        words(line).len() >= 6,
        words(line)[0][0] == '/',
        forall|i: int|
            1 <= i <= 3 ==> number_up_to(#[trigger] words(line)[i], u64::MAX as nat) is Some,
{
}

/// The memory under a key is the number on its first line, times 1024, whatever stands before or
/// behind that line; a later line under the same key counts nothing.
pub proof fn memory_line_is_read(
    before: Seq<char>,
    key: Seq<char>,
    gap: Seq<char>,
    kilobytes: u64,
    rest: Seq<char>,
    after: Seq<char>,
)
    requires
        ends_line(before),
        forall|i: int|
            0 <= i < lines(before).len() ==> !has_prefix(#[trigger] lines(before)[i], key),
        key.len() > 0 && no_white(key),
        gap.len() > 0 && all_white(gap) && !gap.contains('\n'),
        rest.len() > 0 ==> is_white(rest[0]),
        !rest.contains('\n') && !rest.contains('\r'),
        kilobytes * 1024 <= u64::MAX,
    ensures
        memory_value(
            before + (key + gap + decimal(kilobytes as nat) + rest).push('\n') + after,
            key,
        ) == kilobytes * 1024,
{
    let digits = decimal(kilobytes as nat);
    let line = key + gap + digits + rest;
    let content = before + line.push('\n') + after;
    decimal_holds_no_white(kilobytes as nat);
    decimal_is_read_back(kilobytes);
    assert forall|i: int| 0 <= i < line.len() implies line[i] != '\n' by {
        let j = i - key.len() - gap.len();
        if i < key.len() {
            assert(!is_white(key[i]));
        } else if j < 0 {
            assert(gap.contains(gap[i - key.len()]));
        } else if j < digits.len() {
            assert(digits.contains(digits[j]));
        } else {
            assert(rest.contains(rest[j - digits.len()]));
        }
    }
    assert(line.last() != '\r') by {
        if rest.len() > 0 {
            assert(rest.contains(rest[rest.len() - 1]));
        } else {
            assert(!is_white(digits[digits.len() - 1]));
        }
    }
    lines_one_more(before, line);
    lines_add_up(before + line.push('\n'), after);
    let all = lines(content);
    let at = lines(before).len() as int;
    assert(all[at] == line);
    assert(line.take(key.len() as int) =~= key);
    assert forall|i: int| 0 <= i < at implies !has_prefix(#[trigger] all[i], key) by {
        assert(all[i] == lines(before)[i]);
    }
    lemma_line_with(all, key, at, 0);
    word_stands_alone(key);
    word_stands_alone(digits);
    if rest.len() > 0 {
        let mark = seq![rest[0]];
        words_add_up(digits, mark, rest.skip(1));
        assert(digits + mark + rest.skip(1) =~= digits + rest);
    } else {
        assert(digits + rest =~= digits);
    }
    words_add_up(key, gap, digits + rest);
    assert(key + gap + (digits + rest) =~= line);
}

proof fn lemma_line_with(all: Seq<Seq<char>>, key: Seq<char>, at: int, from: int)
    requires
        0 <= from <= at < all.len(),
        has_prefix(all[at], key),
        forall|i: int| 0 <= i < at ==> !has_prefix(#[trigger] all[i], key),
    ensures
        line_with(all, key, from) == Some(all[at]),
    decreases at - from,
{
    if from < at {
        lemma_line_with(all, key, at, from + 1);
    }
}

/// Without a line under the key there is no memory to speak of.
pub proof fn missing_memory_line_gives_none(content: Seq<char>, key: Seq<char>)
    requires
        forall|i: int|
            0 <= i < lines(content).len() ==> !has_prefix(#[trigger] lines(content)[i], key),
    ensures
        memory_value(content, key) == 0,
{
    lemma_no_line_with(lines(content), key, 0);
}

proof fn lemma_no_line_with(all: Seq<Seq<char>>, key: Seq<char>, from: int)
    requires
        0 <= from <= all.len(),
        forall|i: int| 0 <= i < all.len() ==> !has_prefix(#[trigger] all[i], key),
    ensures
        line_with(all, key, from) is None,
    decreases all.len() - from,
{
    if from < all.len() {
        lemma_no_line_with(all, key, from + 1);
    }
}

/// The memory of a system is what its report says under `MemTotal:` and `MemAvailable:`, and what
/// is not available is used.
pub proof fn memory_report_is_read(
    content: &str,
    memory: MemoryStatus,
    before: Seq<char>,
    gap: Seq<char>,
    kilobytes: u64,
    rest: Seq<char>,
    after: Seq<char>,
)
    requires
        call_ensures(parse_memory, (content,), memory),
        ends_line(before),
        gap.len() > 0 && all_white(gap) && !gap.contains('\n'),
        rest.len() > 0 ==> is_white(rest[0]),
        !rest.contains('\n') && !rest.contains('\r'),
        kilobytes * 1024 <= u64::MAX,
    ensures
        (forall|i: int|
            0 <= i < lines(before).len() ==> !has_prefix(#[trigger] lines(before)[i], "MemTotal:"@))
            && content@ == before + ("MemTotal:"@ + gap + decimal(kilobytes as nat) + rest).push('\n')
            + after ==> memory.total_bytes == kilobytes * 1024,
        (forall|i: int|
            0 <= i < lines(before).len() ==> !has_prefix(
                #[trigger] lines(before)[i],
                "MemAvailable:"@,
            )) && content@ == before + ("MemAvailable:"@ + gap + decimal(kilobytes as nat)
            + rest).push('\n') + after ==> memory.available_bytes == kilobytes * 1024,
        memory.available_bytes <= memory.total_bytes ==> memory.used_bytes
            + memory.available_bytes == memory.total_bytes,
        memory.used_bytes <= memory.total_bytes,
{
    let (total, available) = ("MemTotal:"@, "MemAvailable:"@);
    reveal_strlit("MemTotal:");
    reveal_strlit("MemAvailable:");
    assert(no_white(total) && no_white(available));
    if (forall|i: int|
        0 <= i < lines(before).len() ==> !has_prefix(#[trigger] lines(before)[i], total))
        && content@ == before + (total + gap + decimal(kilobytes as nat) + rest).push('\n') + after {
        memory_line_is_read(before, total, gap, kilobytes, rest, after);
    }
    if (forall|i: int|
        0 <= i < lines(before).len() ==> !has_prefix(#[trigger] lines(before)[i], available))
        && content@ == before + (available + gap + decimal(kilobytes as nat) + rest).push('\n')
        + after {
        memory_line_is_read(before, available, gap, kilobytes, rest, after);
    }
}

/// Reading a report with one more line gives one more disk where the line describes one: its
/// device, its bytes in total, used and available, in this order, and where it is mounted.
pub proof fn one_more_line_is_one_more_disk(
    report: &str,
    disks: Vec<DiskStatus>,
    longer: &str,
    more: Vec<DiskStatus>,
    heading: Seq<char>,
    body: Seq<char>,
    device: Seq<char>,
    total: u64,
    used: u64,
    available: u64,
    capacity: Seq<char>,
    mount: Seq<char>,
    gaps: Seq<Seq<char>>,
)
    requires
        call_ensures(parse_disks, (report,), disks),
        call_ensures(parse_disks, (longer,), more),
        !heading.contains('\n'),
        ends_line(body),
        report@ == heading.push('\n') + body,
        device.len() > 0 && device[0] == '/',
        are_spaced(
            seq![
                device,
                decimal(total as nat),
                decimal(used as nat),
                decimal(available as nat),
                capacity,
                mount,
            ],
            gaps,
        ),
        ({
            let line = spaced(
                seq![
                    device,
                    decimal(total as nat),
                    decimal(used as nat),
                    decimal(available as nat),
                    capacity,
                    mount,
                ],
                gaps,
            );
            !line.contains('\n') && !line.contains('\r') && longer@ == report@ + line.push('\n')
        }),
    ensures
        more@.len() == disks@.len() + 1,
        forall|i: int| 0 <= i < disks@.len() ==> (#[trigger] more@[i])@ == disks@[i]@,
        ({
            let disk = more@[disks@.len() as int];
            &&& disk.filesystem@ == device && disk.mount@ == mount
            &&& disk.total_bytes == total
            &&& disk.used_bytes == used
            &&& disk.available_bytes == available
        }),
{
    let fields = seq![
        device,
        decimal(total as nat),
        decimal(used as nat),
        decimal(available as nat),
        capacity,
        mount,
    ];
    let line = spaced(fields, gaps);
    let places = seq![mount];
    assert(seq![
        device,
        decimal(total as nat),
        decimal(used as nat),
        decimal(available as nat),
        capacity,
    ] + places =~= fields);
    disk_line_is_read(device, total, used, available, capacity, places, gaps);
    every_disk_line_counts(heading, body, line);
    assert(heading.push('\n') + body + line.push('\n') =~= report@ + line.push('\n'));
    assert(disk_views(disks@).len() == disks@.len());
    assert(disk_views(more@).len() == more@.len());
    let n = disks@.len() as int;
    assert(disk_views(more@)[n] == more@[n]@);
    assert forall|i: int| 0 <= i < disks@.len() implies (#[trigger] more@[i])@ == disks@[i]@ by {
        assert(disk_views(more@)[i] == more@[i]@);
        assert(disk_views(disks@)[i] == disks@[i]@);
    }
}

} // verus!
