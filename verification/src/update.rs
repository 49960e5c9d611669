//! Updates: which release to take, which of its files, and whether they are what they claim.
use flate2::read::GzDecoder;
use semver::Version;
use sha2::{Digest, Sha256};
use std::io::{Cursor, Read};
use tar::Archive;
use vstd::prelude::*;
use vstd::string::*;
use vstd::utf8::{decode_utf8, valid_utf8};

use crate::path::{parts, same_path};
use crate::text::{
    all_white, ascii_lower, chars_of, first_word_is_read, has_prefix, is_digit, is_white, lower,
    no_white, same, split_words, texts, to_lower, trim, trim_left, trim_start, trimmed,
    trimming_leaves_the_core, words, Mark,
};

verus! {

/// A file of a release.
#[derive(Debug, PartialEq, Eq)]
pub struct ReleaseAsset {
    pub name: String,
    pub download_url: String,
}

/// A release.
#[derive(Debug, PartialEq, Eq)]
pub struct Release {
    pub tag_name: String,
    pub assets: Vec<ReleaseAsset>,
}

#[derive(Debug, PartialEq, Eq)]
pub struct UpdateInfo {
    pub current_version: String,
    pub available_version: String,
    pub target: String,
    pub update_available: bool,
}

#[derive(Debug, PartialEq, Eq)]
pub struct UpdateResult {
    pub previous_version: String,
    pub installed_version: String,
    pub target: String,
    pub updated: bool,
}

/// Why an update cannot be done.
#[derive(Debug, PartialEq, Eq)]
pub enum UpdateError {
    /// The version of this installation is none; the text says why.
    CurrentVersionInvalid(String),
    InvalidVersion { version: String, cause: String },
    InvalidTag { tag: String, cause: String },
    UnsupportedArchitecture(String),
    MissingAsset { tag: String, name: String },
    /// The text says where the checksum asset stops being text.
    ChecksumNotText(String),
    ChecksumEmpty,
    ChecksumMalformed,
    ChecksumMismatch,
    ArchiveUnreadable(String),
    ArchiveEntryUnreadable(String),
    ArchivePathInvalid(String),
    /// The program is in the archive and cannot be unpacked; the text says why.
    BinaryUnreadable(String),
    BinaryMissing,
}

pub enum UpdateFault {
    CurrentVersionInvalid(Seq<char>),
    InvalidVersion { version: Seq<char>, cause: Seq<char> },
    InvalidTag { tag: Seq<char>, cause: Seq<char> },
    UnsupportedArchitecture(Seq<char>),
    MissingAsset { tag: Seq<char>, name: Seq<char> },
    ChecksumNotText(Seq<char>),
    ChecksumEmpty,
    ChecksumMalformed,
    ChecksumMismatch,
    ArchiveUnreadable(Seq<char>),
    ArchiveEntryUnreadable(Seq<char>),
    ArchivePathInvalid(Seq<char>),
    BinaryUnreadable(Seq<char>),
    BinaryMissing,
}

impl View for UpdateError {
    type V = UpdateFault;

    open spec fn view(&self) -> UpdateFault {
        match self {
            UpdateError::CurrentVersionInvalid(cause) => UpdateFault::CurrentVersionInvalid(cause@),
            UpdateError::InvalidVersion { version, cause } => UpdateFault::InvalidVersion {
                version: version@,
                cause: cause@,
            },
            UpdateError::InvalidTag { tag, cause } => UpdateFault::InvalidTag {
                tag: tag@,
                cause: cause@,
            },
            UpdateError::UnsupportedArchitecture(text) => UpdateFault::UnsupportedArchitecture(
                text@,
            ),
            UpdateError::MissingAsset { tag, name } => UpdateFault::MissingAsset {
                tag: tag@,
                name: name@,
            },
            UpdateError::ChecksumNotText(text) => UpdateFault::ChecksumNotText(text@),
            UpdateError::ChecksumEmpty => UpdateFault::ChecksumEmpty,
            UpdateError::ChecksumMalformed => UpdateFault::ChecksumMalformed,
            UpdateError::ChecksumMismatch => UpdateFault::ChecksumMismatch,
            UpdateError::ArchiveUnreadable(cause) => UpdateFault::ArchiveUnreadable(cause@),
            UpdateError::ArchiveEntryUnreadable(cause) => UpdateFault::ArchiveEntryUnreadable(cause@),
            UpdateError::ArchivePathInvalid(cause) => UpdateFault::ArchivePathInvalid(cause@),
            UpdateError::BinaryUnreadable(text) => UpdateFault::BinaryUnreadable(text@),
            UpdateError::BinaryMissing => UpdateFault::BinaryMissing,
        }
    }
}

pub open spec fn update_fault_text(fault: UpdateFault) -> Seq<char> {
    match fault {
        UpdateFault::CurrentVersionInvalid(cause) => cause,
        UpdateFault::InvalidVersion { version, cause } => "invalid version: "@ + version + ": "@
            + cause,
        UpdateFault::InvalidTag { tag, cause } => "invalid release tag: "@ + tag + ": "@ + cause,
        UpdateFault::UnsupportedArchitecture(text) =>
            "self-update is not available for CPU architecture "@ + text,
        UpdateFault::MissingAsset { tag, name } => "release "@ + tag + " is missing asset "@ + name,
        UpdateFault::ChecksumNotText(text) => text,
        UpdateFault::ChecksumEmpty => "checksum asset is empty"@,
        UpdateFault::ChecksumMalformed =>
            "checksum asset does not contain a valid SHA-256 digest"@,
        UpdateFault::ChecksumMismatch => "SHA-256 checksum verification failed"@,
        UpdateFault::ArchiveUnreadable(cause) => "failed to read release archive: "@ + cause,
        UpdateFault::ArchiveEntryUnreadable(cause) => "failed to read release archive entry: "@ + cause,
        UpdateFault::ArchivePathInvalid(cause) => "invalid release archive path: "@ + cause,
        UpdateFault::BinaryUnreadable(text) => text,
        UpdateFault::BinaryMissing => "release archive does not contain tuxcleaner"@,
    }
}

impl UpdateError {
    pub fn message(&self) -> (r: String)
        ensures
            r@ == update_fault_text(self@),
    {
        match self {
            UpdateError::CurrentVersionInvalid(cause) => cause.clone(),
            UpdateError::InvalidVersion { version, cause } => {
                "invalid version: ".to_owned().concat(version.as_str()).concat(": ").concat(
                    cause.as_str(),
                )
            },
            UpdateError::InvalidTag { tag, cause } => {
                "invalid release tag: ".to_owned().concat(tag.as_str()).concat(": ").concat(
                    cause.as_str(),
                )
            },
            UpdateError::UnsupportedArchitecture(text) => {
                "self-update is not available for CPU architecture ".to_owned().concat(
                    text.as_str(),
                )
            },
            UpdateError::MissingAsset { tag, name } => {
                "release ".to_owned().concat(tag.as_str()).concat(" is missing asset ").concat(
                    name.as_str(),
                )
            },
            UpdateError::ChecksumNotText(text) => text.clone(),
            UpdateError::ChecksumEmpty => "checksum asset is empty".to_owned(),
            UpdateError::ChecksumMalformed => {
                "checksum asset does not contain a valid SHA-256 digest".to_owned()
            },
            UpdateError::ChecksumMismatch => "SHA-256 checksum verification failed".to_owned(),
            UpdateError::ArchiveUnreadable(cause) => {
                "failed to read release archive: ".to_owned().concat(cause.as_str())
            },
            UpdateError::ArchiveEntryUnreadable(cause) => {
                "failed to read release archive entry: ".to_owned().concat(cause.as_str())
            },
            UpdateError::ArchivePathInvalid(cause) => {
                "invalid release archive path: ".to_owned().concat(cause.as_str())
            },
            UpdateError::BinaryUnreadable(text) => text.clone(),
            UpdateError::BinaryMissing => {
                "release archive does not contain tuxcleaner".to_owned()
            },
        }
    }
}

// ---------------------------------------------------------------------------------------
// Versions
// ---------------------------------------------------------------------------------------

/// Why the text is no version by the rules of semantic versioning; nothing where it is one.
pub uninterp spec fn version_fault(text: Seq<char>) -> Option<Seq<char>>;

/// The text is a version by the rules of semantic versioning.
pub open spec fn is_version(text: Seq<char>) -> bool {
    version_fault(text) is None
}

/// The version `a` comes after the version `b` by the rules of semantic versioning.
pub uninterp spec fn version_after(a: Seq<char>, b: Seq<char>) -> bool;

/// `semver::Version::parse`, and the version written out again with `to_string`. A version is
/// written as it was read: its numbers have no leading zeros, and the rest is kept as text.
/// Which texts are versions, and what the error says of the others, is left to the name.
#[verifier::external_body]
fn parse_version(text: &str) -> (r: Result<String, String>)
    ensures
        match r {
            Ok(version) => version_fault(text@) is None && version@ == text@,
            Err(cause) => version_fault(text@) == Some(cause@),
        },
{
    Version::parse(text).map(|version| version.to_string()).map_err(|error| error.to_string())
}

/// The order of `semver::Version`, on texts that are versions. It is a strict order; how it
/// ranks two versions is left to the name.
#[verifier::external_body]
fn is_later_version(a: &str, b: &str) -> (r: bool)
    requires
        is_version(a@),
        is_version(b@),
    ensures
        r == version_after(a@, b@),
        r ==> a@ != b@,
{
    Version::parse(a).ok() > Version::parse(b).ok()
}

/// A version without the `v` in front of it.
pub open spec fn without_v(text: Seq<char>) -> Seq<char> {
    trim_left(text, Mark::Char('v').accepts())
}

/// The tag of a version that was asked for, where it is known what is wrong with it.
pub open spec fn tag_of(version: Seq<char>, fault: Option<Seq<char>>) -> Result<
    Seq<char>,
    UpdateFault,
> {
    match fault {
        None => Ok("v"@ + without_v(trimmed(version))),
        Some(cause) => Err(UpdateFault::InvalidVersion { version, cause }),
    }
}

pub open spec fn text_result(result: Result<String, UpdateError>) -> Result<
    Seq<char>,
    UpdateFault,
> {
    match result {
        Ok(text) => Ok(text@),
        Err(error) => Err(error@),
    }
}

/// The tag of a version that was asked for, with or without `v` in front.
pub fn normalize_tag(version: &str) -> (r: Result<String, UpdateError>)
    ensures
        text_result(r) == tag_of(version@, version_fault(without_v(trimmed(version@)))),
{
    let plain = trim(version);
    let value = trim_start(plain.as_str(), Mark::Char('v'));
    match parse_version(value.as_str()) {
        Ok(parsed) => Ok("v".to_owned().concat(parsed.as_str())),
        Err(cause) => Err(UpdateError::InvalidVersion { version: version.to_owned(), cause }),
    }
}

/// Where the metadata of a release is asked for: of one version, or of the latest.
pub open spec fn endpoint_of(api_base: Seq<char>, tag: Option<Result<Seq<char>, UpdateFault>>) -> Result<
    Seq<char>,
    UpdateFault,
> {
    match tag {
        None => Ok(api_base + "/releases/latest"@),
        Some(Ok(tag)) => Ok(api_base + "/releases/tags/"@ + tag),
        Some(Err(fault)) => Err(fault),
    }
}

pub fn release_endpoint(api_base: &str, requested_version: Option<&str>) -> (r: Result<
    String,
    UpdateError,
>)
    ensures
        text_result(r) == endpoint_of(
            api_base@,
            match requested_version {
                None => None,
                Some(version) => Some(
                    tag_of(version@, version_fault(without_v(trimmed(version@)))),
                ),
            },
        ),
{
    match requested_version {
        None => Ok(api_base.to_owned().concat("/releases/latest")),
        Some(version) => match normalize_tag(version) {
            Ok(tag) => Ok(api_base.to_owned().concat("/releases/tags/").concat(tag.as_str())),
            Err(error) => Err(error),
        },
    }
}

/// The platform that a binary is built for.
pub open spec fn target_of(arch: Seq<char>, musl: bool) -> Result<Seq<char>, UpdateFault> {
    if arch == "x86_64"@ || arch == "aarch64"@ {
        Ok(
            arch + "-unknown-linux-"@ + (if musl {
                "musl"@
            } else {
                "gnu"@
            }),
        )
    } else {
        Err(UpdateFault::UnsupportedArchitecture(arch))
    }
}

pub fn release_target(arch: &str, musl: bool) -> (r: Result<String, UpdateError>)
    ensures
        text_result(r) == target_of(arch@, musl),
{
    if same(arch, "x86_64") || same(arch, "aarch64") {
        let libc = if musl {
            "musl"
        } else {
            "gnu"
        };
        Ok(arch.to_owned().concat("-unknown-linux-").concat(libc))
    } else {
        Err(UpdateError::UnsupportedArchitecture(arch.to_owned()))
    }
}

pub struct InfoView {
    pub current_version: Seq<char>,
    pub available_version: Seq<char>,
    pub target: Seq<char>,
    pub update_available: bool,
}

impl View for UpdateInfo {
    type V = InfoView;

    open spec fn view(&self) -> InfoView {
        InfoView {
            current_version: self.current_version@,
            available_version: self.available_version@,
            target: self.target@,
            update_available: self.update_available,
        }
    }
}

/// What a release means for this installation, where it is known what is wrong with
/// the two versions and whether the one of the release is later.
pub open spec fn release_info(
    tag_name: Seq<char>,
    current: Seq<char>,
    arch: Seq<char>,
    musl: bool,
    current_fault: Option<Seq<char>>,
    tag_fault: Option<Seq<char>>,
    later: bool,
) -> Result<InfoView, UpdateFault> {
    if let Some(cause) = current_fault {
        Err(UpdateFault::CurrentVersionInvalid(cause))
    } else if let Some(cause) = tag_fault {
        Err(UpdateFault::InvalidTag { tag: tag_name, cause })
    } else {
        match target_of(arch, musl) {
            Err(fault) => Err(fault),
            Ok(target) => Ok(
                InfoView {
                    current_version: current,
                    available_version: without_v(tag_name),
                    target,
                    update_available: later,
                },
            ),
        }
    }
}

/// What a release means for the installation of `current_version`.
pub fn check(release: &Release, current_version: &str, arch: &str, musl: bool) -> (r: Result<
    UpdateInfo,
    UpdateError,
>)
    ensures
        (match r {
            Ok(info) => Ok::<InfoView, UpdateFault>(info@),
            Err(error) => Err(error@),
        }) == release_info(
            release.tag_name@,
            current_version@,
            arch@,
            musl,
            version_fault(current_version@),
            version_fault(without_v(release.tag_name@)),
            version_after(without_v(release.tag_name@), current_version@),
        ),
        r matches Ok(info) ==> (info.update_available ==> info.available_version@
            != info.current_version@),
{
    let current = match parse_version(current_version) {
        Ok(current) => current,
        Err(cause) => {
            return Err(UpdateError::CurrentVersionInvalid(cause));
        },
    };
    let tag = trim_start(release.tag_name.as_str(), Mark::Char('v'));
    let available = match parse_version(tag.as_str()) {
        Ok(available) => available,
        Err(cause) => {
            return Err(UpdateError::InvalidTag { tag: release.tag_name.clone(), cause });
        },
    };
    let target = match release_target(arch, musl) {
        Ok(target) => target,
        Err(error) => {
            return Err(error);
        },
    };
    let update_available = is_later_version(available.as_str(), current.as_str());
    Ok(
        UpdateInfo {
            current_version: current,
            available_version: available,
            target,
            update_available,
        },
    )
}

/// Whether an update goes on: a version that was asked for is installed in any case, the
/// latest only where it is later.
pub fn should_install(requested: bool, info: &UpdateInfo) -> (r: bool)
    ensures
        r == (requested || info.update_available),
{
    requested || info.update_available
}

/// The result of an update that was not needed.
pub fn unchanged_result(info: &UpdateInfo) -> (r: UpdateResult)
    ensures
        r.previous_version@ == info.current_version@,
        r.installed_version@ == info.current_version@,
        r.target@ == info.target@,
        !r.updated,
{
    UpdateResult {
        previous_version: info.current_version.clone(),
        installed_version: info.current_version.clone(),
        target: info.target.clone(),
        updated: false,
    }
}

/// The result of an update that was done.
pub fn installed_result(info: &UpdateInfo) -> (r: UpdateResult)
    ensures
        r.previous_version@ == info.current_version@,
        r.installed_version@ == info.available_version@,
        r.target@ == info.target@,
        r.updated,
{
    UpdateResult {
        previous_version: info.current_version.clone(),
        installed_version: info.available_version.clone(),
        target: info.target.clone(),
        updated: true,
    }
}

// ---------------------------------------------------------------------------------------
// Files of a release
// ---------------------------------------------------------------------------------------

/// The archive for a platform.
pub open spec fn archive_of(target: Seq<char>) -> Seq<char> {
    "tuxcleaner-"@ + target + ".tar.gz"@
}

pub fn archive_name(target: &str) -> (r: String)
    ensures
        r@ == archive_of(target@),
{
    "tuxcleaner-".to_owned().concat(target).concat(".tar.gz")
}

pub fn checksum_name(target: &str) -> (r: String)
    ensures
        r@ == archive_of(target@) + ".sha256"@,
{
    archive_name(target).concat(".sha256")
}

/// The first file of that very name, from the `i`-th on.
pub open spec fn asset_at(assets: Seq<ReleaseAsset>, name: Seq<char>, i: int) -> Option<Seq<char>>
    decreases assets.len() - i,
{
    if i < 0 || i >= assets.len() {
        None
    } else if assets[i].name@ == name {
        Some(assets[i].download_url@)
    } else {
        asset_at(assets, name, i + 1)
    }
}

/// Where the file of that very name can be had.
pub fn asset_url(release: &Release, name: &str) -> (r: Result<String, UpdateError>)
    ensures
        text_result(r) == match asset_at(release.assets@, name@, 0) {
            Some(url) => Ok::<Seq<char>, UpdateFault>(url),
            None => Err(UpdateFault::MissingAsset { tag: release.tag_name@, name: name@ }),
        },
{
    let mut i: usize = 0;
    while i < release.assets.len()
        invariant
            i <= release.assets@.len(),
            asset_at(release.assets@, name@, 0) == asset_at(release.assets@, name@, i as int),
        decreases release.assets.len() - i,
    {
        if same(release.assets[i].name.as_str(), name) {
            return Ok(release.assets[i].download_url.clone());
        }
        i = i + 1;
    }
    Err(UpdateError::MissingAsset { tag: release.tag_name.clone(), name: name.to_owned() })
}

// ---------------------------------------------------------------------------------------
// Checksums
// ---------------------------------------------------------------------------------------

/// The SHA-256 digest of some bytes.
pub uninterp spec fn sha256(data: Seq<u8>) -> Seq<u8>;

/// `sha2::Sha256::digest`: 32 bytes. Which ones is left to the name.
#[verifier::external_body]
fn sha256_digest(data: &[u8]) -> (r: Vec<u8>)
    ensures
        r@ == sha256(data@),
        r@.len() == 32,
{
    Sha256::digest(data).to_vec()
}

/// What is said of bytes that are no UTF-8.
pub uninterp spec fn utf8_fault(bytes: Seq<u8>) -> Seq<char>;

/// `std::str::from_utf8`: the text that the bytes encode, if they are UTF-8; otherwise its error
/// as text, which is left to the name.
#[verifier::external_body]
fn utf8_text(bytes: &[u8]) -> (r: Result<String, String>)
    ensures
        match r {
            Ok(text) => valid_utf8(bytes@) && text@ == decode_utf8(bytes@),
            Err(fault) => !valid_utf8(bytes@) && fault@ == utf8_fault(bytes@),
        },
{
    std::str::from_utf8(bytes).map(str::to_owned).map_err(|error| error.to_string())
}

pub open spec fn hex_char(nibble: int) -> char {
    if nibble < 10 {
        ((48 + nibble) as u8) as char
    } else {
        ((87 + nibble) as u8) as char
    }
}

/// Bytes in hexadecimal, two lower-case digits each.
pub open spec fn hex(bytes: Seq<u8>) -> Seq<char>
    decreases bytes.len(),
{
    if bytes.len() == 0 {
        Seq::empty()
    } else {
        hex(bytes.drop_last()).push(hex_char(bytes.last() as int / 16)).push(
            hex_char(bytes.last() as int % 16),
        )
    }
}

fn hex_digit(nibble: u8) -> (r: char)
    requires
        nibble < 16,
    ensures
        r == hex_char(nibble as int),
{
    if nibble < 10 {
        (48 + nibble) as char
    } else {
        (87 + nibble) as char
    }
}

fn hex_text(bytes: &Vec<u8>) -> (r: String)
    ensures
        r@ == hex(bytes@),
{
    let mut out = String::new();
    let mut i: usize = 0;
    while i < bytes.len()
        invariant
            i <= bytes@.len(),
            out@ =~= hex(bytes@.take(i as int)),
        decreases bytes.len() - i,
    {
        proof {
            assert(bytes@.take(i + 1).drop_last() =~= bytes@.take(i as int));
        }
        out.push(hex_digit(bytes[i] / 16));
        out.push(hex_digit(bytes[i] % 16));
        i = i + 1;
    }
    proof {
        assert(bytes@.take(bytes@.len() as int) =~= bytes@);
    }
    out
}

pub open spec fn is_hex_char(c: char) -> bool {
    is_digit(c) || ('a' <= c && c <= 'f') || ('A' <= c && c <= 'F')
}

/// A text of 64 hexadecimal digits.
pub open spec fn is_digest_text(text: Seq<char>) -> bool {
    text.len() == 64 && forall|i: int| 0 <= i < text.len() ==> is_hex_char(#[trigger] text[i])
}

/// The verdict on an archive whose digest is `digest`, by a checksum file: its first word is
/// the digest in hexadecimal, in either case.
pub open spec fn checksum_verdict(digest: Seq<u8>, checksum_file: Seq<u8>) -> Result<
    (),
    UpdateFault,
> {
    let found = words(decode_utf8(checksum_file));
    if !valid_utf8(checksum_file) {
        Err(UpdateFault::ChecksumNotText(utf8_fault(checksum_file)))
    } else if found.len() == 0 {
        Err(UpdateFault::ChecksumEmpty)
    } else if !is_digest_text(found[0]) {
        Err(UpdateFault::ChecksumMalformed)
    } else if lower(found[0]) != hex(digest) {
        Err(UpdateFault::ChecksumMismatch)
    } else {
        Ok(())
    }
}

fn is_digest(text: &str) -> (r: bool)
    ensures
        r == is_digest_text(text@),
{
    let chars = chars_of(text);
    if chars.len() != 64 {
        return false;
    }
    let mut i: usize = 0;
    while i < chars.len()
        invariant
            i <= chars@.len(),
            chars@ == text@,
            forall|j: int| 0 <= j < i ==> is_hex_char(#[trigger] text@[j]),
        decreases chars.len() - i,
    {
        let c = chars[i];
        if !(('0' <= c && c <= '9') || ('a' <= c && c <= 'f') || ('A' <= c && c <= 'F')) {
            proof {
                assert(!is_hex_char(text@[i as int]));
            }
            return false;
        }
        i = i + 1;
    }
    true
}

pub open spec fn update_verdict(result: Result<(), UpdateError>) -> Result<(), UpdateFault> {
    match result {
        Ok(()) => Ok(()),
        Err(error) => Err(error@),
    }
}

/// Whether a digest is the one that a checksum file names.
pub fn compare_digest(digest: &Vec<u8>, checksum_file: &[u8]) -> (r: Result<(), UpdateError>)
    ensures
        update_verdict(r) == checksum_verdict(digest@, checksum_file@),
{
    let text = match utf8_text(checksum_file) {
        Ok(text) => text,
        Err(fault) => {
            return Err(UpdateError::ChecksumNotText(fault));
        },
    };
    let found = split_words(text.as_str());
    proof {
        assert(texts(found@).len() == found@.len());
    }
    if found.len() == 0 {
        return Err(UpdateError::ChecksumEmpty);
    }
    proof {
        assert(texts(found@)[0] == found@[0]@);
    }
    if !is_digest(found[0].as_str()) {
        return Err(UpdateError::ChecksumMalformed);
    }
    let expected = to_lower(found[0].as_str());
    let actual = hex_text(digest);
    if expected != actual {
        return Err(UpdateError::ChecksumMismatch);
    }
    Ok(())
}

/// Whether an archive is the one that a checksum file speaks of.
pub fn verify_checksum(archive: &[u8], checksum_file: &[u8]) -> (r: Result<(), UpdateError>)
    ensures
        update_verdict(r) == checksum_verdict(sha256(archive@), checksum_file@),
{
    let digest = sha256_digest(archive);
    compare_digest(&digest, checksum_file)
}

// ---------------------------------------------------------------------------------------
// Archives
// ---------------------------------------------------------------------------------------

/// A member of an archive.
#[derive(Debug, PartialEq, Eq)]
pub enum ArchiveMember {
    /// The text says why the member cannot be read.
    Unreadable(String),
    /// The text says why the member has no path.
    InvalidPath(String),
    File { path: String, contents: Vec<u8> },
    /// A file whose contents cannot be unpacked; the text says why.
    Broken { path: String, error: String },
}

pub enum MemberView {
    Unreadable(Seq<char>),
    InvalidPath(Seq<char>),
    File { path: Seq<char>, contents: Seq<u8> },
    Broken { path: Seq<char>, error: Seq<char> },
}

impl View for ArchiveMember {
    type V = MemberView;

    open spec fn view(&self) -> MemberView {
        match self {
            ArchiveMember::Unreadable(cause) => MemberView::Unreadable(cause@),
            ArchiveMember::InvalidPath(cause) => MemberView::InvalidPath(cause@),
            ArchiveMember::File { path, contents } => MemberView::File {
                path: path@,
                contents: contents@,
            },
            ArchiveMember::Broken { path, error } => MemberView::Broken {
                path: path@,
                error: error@,
            },
        }
    }
}

pub open spec fn member_views(members: Seq<ArchiveMember>) -> Seq<MemberView> {
    members.map_values(|member: ArchiveMember| member@)
}

/// The members of a compressed archive in their order, or why it cannot be read at all.
pub uninterp spec fn archive_members(archive: Seq<u8>) -> Result<Seq<MemberView>, Seq<char>>;

/// `tar::Archive::entries` on what `flate2::read::GzDecoder` unpacks, each entry with its path
/// and its contents. What an archive holds, and what the errors say, is left to the name.
#[verifier::external_body]
fn read_archive(archive: &[u8]) -> (r: Result<Vec<ArchiveMember>, String>)
    ensures
        members_result(r) == archive_members(archive@),
{
    let mut archive = Archive::new(GzDecoder::new(Cursor::new(archive)));
    let members = archive.entries().map_err(|error| error.to_string())?.map(|entry| match entry {
        Err(error) => ArchiveMember::Unreadable(error.to_string()),
        Ok(mut entry) => match entry.path().map(|path| path.to_string_lossy().into_owned()) {
            Err(error) => ArchiveMember::InvalidPath(error.to_string()),
            Ok(path) => {
                let mut contents = Vec::new();
                match entry.read_to_end(&mut contents) {
                    Ok(_) => ArchiveMember::File { path, contents },
                    Err(error) => ArchiveMember::Broken { path, error: error.to_string() },
                }
            },
        },
    });
    Ok(members.collect())
}

/// The contents of the program in an archive, from the `i`-th member on. A member that cannot
/// be listed ends the search; what other members hold plays no part.
pub open spec fn program_at(members: Seq<MemberView>, i: int) -> Result<Seq<u8>, UpdateFault>
    decreases members.len() - i,
{
    if i < 0 || i >= members.len() {
        Err(UpdateFault::BinaryMissing)
    } else {
        match members[i] {
            MemberView::Unreadable(cause) => Err(UpdateFault::ArchiveEntryUnreadable(cause)),
            MemberView::InvalidPath(cause) => Err(UpdateFault::ArchivePathInvalid(cause)),
            MemberView::File { path, contents } => if parts(path) == parts("tuxcleaner"@) {
                Ok(contents)
            } else {
                program_at(members, i + 1)
            },
            MemberView::Broken { path, error } => if parts(path) == parts("tuxcleaner"@) {
                Err(UpdateFault::BinaryUnreadable(error))
            } else {
                program_at(members, i + 1)
            },
        }
    }
}

pub open spec fn program_of(members: Result<Seq<MemberView>, Seq<char>>) -> Result<
    Seq<u8>,
    UpdateFault,
> {
    match members {
        Err(cause) => Err(UpdateFault::ArchiveUnreadable(cause)),
        Ok(members) => program_at(members, 0),
    }
}

pub open spec fn bytes_result(result: Result<Vec<u8>, UpdateError>) -> Result<
    Seq<u8>,
    UpdateFault,
> {
    match result {
        Ok(bytes) => Ok(bytes@),
        Err(error) => Err(error@),
    }
}

fn copy_bytes(bytes: &Vec<u8>) -> (r: Vec<u8>)
    ensures
        r@ == bytes@,
{
    let mut out: Vec<u8> = Vec::new();
    let mut i: usize = 0;
    while i < bytes.len()
        invariant
            i <= bytes@.len(),
            out@ == bytes@.take(i as int),
        decreases bytes.len() - i,
    {
        out.push(bytes[i]);
        proof {
            assert(bytes@.take(i + 1) =~= bytes@.take(i as int).push(bytes@[i as int]));
        }
        i = i + 1;
    }
    proof {
        assert(bytes@.take(bytes@.len() as int) =~= bytes@);
    }
    out
}

pub open spec fn members_result(result: Result<Vec<ArchiveMember>, String>) -> Result<
    Seq<MemberView>,
    Seq<char>,
> {
    match result {
        Ok(members) => Ok(member_views(members@)),
        Err(cause) => Err(cause@),
    }
}

/// The program among the members of an archive.
pub fn find_program(members: Result<Vec<ArchiveMember>, String>) -> (r: Result<
    Vec<u8>,
    UpdateError,
>)
    ensures
        bytes_result(r) == program_of(members_result(members)),
{
    let list = match members {
        Ok(list) => list,
        Err(cause) => {
            return Err(UpdateError::ArchiveUnreadable(cause));
        },
    };
    let ghost views = member_views(list@);
    let mut i: usize = 0;
    while i < list.len()
        invariant
            i <= list@.len(),
            views == member_views(list@),
            members_result(members) == Ok::<Seq<MemberView>, Seq<char>>(views),
            program_at(views, 0) == program_at(views, i as int),
        decreases list.len() - i,
    {
        proof {
            assert(views[i as int] == list@[i as int]@);
        }
        match &list[i] {
            ArchiveMember::Unreadable(cause) => {
                return Err(UpdateError::ArchiveEntryUnreadable(cause.clone()));
            },
            ArchiveMember::InvalidPath(cause) => {
                return Err(UpdateError::ArchivePathInvalid(cause.clone()));
            },
            ArchiveMember::File { path, contents } => {
                if same_path(path.as_str(), "tuxcleaner") {
                    return Ok(copy_bytes(contents));
                }
            },
            ArchiveMember::Broken { path, error } => {
                if same_path(path.as_str(), "tuxcleaner") {
                    return Err(UpdateError::BinaryUnreadable(error.clone()));
                }
            },
        }
        i = i + 1;
    }
    Err(UpdateError::BinaryMissing)
}

/// The contents of the program that a compressed archive holds.
pub fn extract_archive(archive: &[u8]) -> (r: Result<Vec<u8>, UpdateError>)
    ensures
        bytes_result(r) == program_of(archive_members(archive@)),
{
    find_program(read_archive(archive))
}

/// The program that takes the place of the running one: it comes out of an archive whose digest
/// the checksum file vouches for.
pub open spec fn program_to_install(
    digest: Seq<u8>,
    members: Result<Seq<MemberView>, Seq<char>>,
    checksum_file: Seq<u8>,
) -> Result<Seq<u8>, UpdateFault> {
    match checksum_verdict(digest, checksum_file) {
        Err(fault) => Err(fault),
        Ok(()) => program_of(members),
    }
}

/// Checks an archive and takes the program out of it.
pub fn verified_program(archive: &[u8], checksum_file: &[u8]) -> (r: Result<Vec<u8>, UpdateError>)
    ensures
        bytes_result(r) == program_to_install(
            sha256(archive@),
            archive_members(archive@),
            checksum_file@,
        ),
{
    match verify_checksum(archive, checksum_file) {
        Err(error) => Err(error),
        Ok(()) => extract_archive(archive),
    }
}

// ---------------------------------------------------------------------------------------
// Laws
// ---------------------------------------------------------------------------------------

/// What is installed was verified: the checksum file vouches for the archive, and the archive
/// holds the program.
pub proof fn installed_program_is_verified(
    digest: Seq<u8>,
    members: Result<Seq<MemberView>, Seq<char>>,
    checksum_file: Seq<u8>,
)
    requires
        program_to_install(digest, members, checksum_file) is Ok,
    ensures
        checksum_verdict(digest, checksum_file) is Ok,
        members is Ok,
        holds_program(members->Ok_0, program_to_install(digest, members, checksum_file)->Ok_0),
{
    lemma_program_at(members->Ok_0, 0);
}

/// Some member is the program with these contents, and every member before it could be listed.
pub open spec fn holds_program(members: Seq<MemberView>, contents: Seq<u8>) -> bool {
    exists|k: int|
        {
            &&& 0 <= k < members.len()
            &&& is_program(#[trigger] members[k], contents)
            &&& forall|j: int| 0 <= j < k ==> is_listed(#[trigger] members[j])
        }
}

/// The member was found in the archive, under a path.
pub open spec fn is_listed(member: MemberView) -> bool {
    member is File || member is Broken
}

pub open spec fn is_program(member: MemberView, contents: Seq<u8>) -> bool {
    match member {
        MemberView::File { path, contents: found } => parts(path) == parts("tuxcleaner"@) && found
            == contents,
        _ => false,
    }
}

proof fn lemma_program_at(members: Seq<MemberView>, i: int)
    requires
        0 <= i,
        program_at(members, i) is Ok,
        forall|j: int| 0 <= j < i && j < members.len() ==> is_listed(#[trigger] members[j]),
    ensures
        holds_program(members, program_at(members, i)->Ok_0),
    decreases members.len() - i,
{
    let contents = program_at(members, i)->Ok_0;
    if is_program(members[i], contents) {
    } else {
        lemma_program_at(members, i + 1);
    }
}

/// One checksum file vouches for one digest: two archives that both pass have the same.
pub proof fn checksum_names_one_digest(a: Seq<u8>, b: Seq<u8>, checksum_file: Seq<u8>)
    requires
        checksum_verdict(a, checksum_file) is Ok,
        checksum_verdict(b, checksum_file) is Ok,
    ensures
        a == b,
{
    lemma_hex_injective(a, b);
}

proof fn lemma_hex_length(bytes: Seq<u8>)
    ensures
        hex(bytes).len() == 2 * bytes.len(),
    decreases bytes.len(),
{
    if bytes.len() > 0 {
        lemma_hex_length(bytes.drop_last());
    }
}

proof fn lemma_hex_injective(a: Seq<u8>, b: Seq<u8>)
    requires
        hex(a) == hex(b),
    ensures
        a == b,
    decreases a.len(),
{
    lemma_hex_length(a);
    lemma_hex_length(b);
    if a.len() > 0 {
        let x = hex(a);
        let y = hex(b);
        assert(x.last() == hex_char(a.last() as int % 16));
        assert(y.last() == hex_char(b.last() as int % 16));
        assert(x.drop_last().last() == hex_char(a.last() as int / 16));
        assert(y.drop_last().last() == hex_char(b.last() as int / 16));
        assert(x.drop_last().drop_last() =~= hex(a.drop_last()));
        assert(y.drop_last().drop_last() =~= hex(b.drop_last()));
        lemma_hex_char(a.last() as int % 16, b.last() as int % 16);
        lemma_hex_char(a.last() as int / 16, b.last() as int / 16);
        lemma_hex_injective(a.drop_last(), b.drop_last());
        assert(a =~= a.drop_last().push(a.last()));
        assert(b =~= b.drop_last().push(b.last()));
    } else {
        assert(a =~= b);
    }
}

proof fn lemma_hex_char(a: int, b: int)
    requires
        0 <= a < 16,
        0 <= b < 16,
        hex_char(a) == hex_char(b),
    ensures
        a == b,
{
}

/// A version is asked for with or without `v` in front of it, and with white space around it: the
/// tag is the same, and is `v` with the version behind it.
pub proof fn tags_start_with_v(version: Seq<char>, front: Seq<char>, back: Seq<char>)
    requires
        all_white(front) && all_white(back),
        version.len() > 0 && version[0] != 'v' && !is_white(version[0]) && !is_white(
            version.last(),
        ),
    ensures
        without_v(trimmed(front + version + back)) == version,
        without_v(trimmed(front + ("v"@ + version) + back)) == version,
        tag_of(front + version + back, None) == Ok::<Seq<char>, UpdateFault>("v"@ + version),
        tag_of(front + ("v"@ + version) + back, None) == Ok::<Seq<char>, UpdateFault>(
            "v"@ + version,
        ),
{
    reveal_strlit("v");
    let marked = "v"@ + version;
    trimming_leaves_the_core(front, version, back);
    assert(marked[0] == 'v' && marked.last() == version.last());
    trimming_leaves_the_core(front, marked, back);
    assert(marked.drop_first() =~= version);
    assert(without_v(version) == version);
    assert(without_v(marked) == without_v(version));
}

/// A release is asked for below the interface that was named: by its tag, or as the latest.
pub proof fn release_is_asked_for_by_its_tag(api_base: Seq<char>, tag: Seq<char>)
    ensures
        endpoint_of(api_base, Some(Ok(tag))) matches Ok(text) && has_prefix(text, api_base)
            && text.len() >= tag.len() && text.skip(text.len() - tag.len()) == tag,
        endpoint_of(api_base, None) == Ok::<Seq<char>, UpdateFault>(
            api_base + "/releases/latest"@,
        ),
{
    let text = api_base + "/releases/tags/"@ + tag;
    assert(text.take(api_base.len() as int) =~= api_base);
    assert(text.skip(text.len() - tag.len()) =~= tag);
}

/// A binary is built for a processor and a C library: the name of the target says both, and there
/// is one for two processors only.
pub proof fn target_names_the_processor(arch: Seq<char>, musl: bool)
    ensures
        match target_of(arch, musl) {
            Ok(target) => (arch == "x86_64"@ || arch == "aarch64"@) && has_prefix(target, arch)
                && target == arch + (if musl {
                "-unknown-linux-musl"@
            } else {
                "-unknown-linux-gnu"@
            }),
            Err(fault) => arch != "x86_64"@ && arch != "aarch64"@ && fault
                == UpdateFault::UnsupportedArchitecture(arch),
        },
{
    reveal_strlit("-unknown-linux-");
    reveal_strlit("musl");
    reveal_strlit("gnu");
    reveal_strlit("-unknown-linux-musl");
    reveal_strlit("-unknown-linux-gnu");
    assert("-unknown-linux-"@ + "musl"@ =~= "-unknown-linux-musl"@);
    assert("-unknown-linux-"@ + "gnu"@ =~= "-unknown-linux-gnu"@);
    if let Ok(target) = target_of(arch, musl) {
        assert(target.take(arch.len() as int) =~= arch);
        assert(target =~= arch + (if musl {
            "-unknown-linux-musl"@
        } else {
            "-unknown-linux-gnu"@
        }));
    }
}

/// What a release means is told by the two versions: an update is there exactly where the release
/// is later, and the versions are named as they are, without the mark of a tag.
pub proof fn release_is_compared(
    tag_name: Seq<char>,
    current: Seq<char>,
    arch: Seq<char>,
    musl: bool,
    later: bool,
)
    ensures
        release_info(tag_name, current, arch, musl, None, None, later) matches Ok(info) ==> {
            &&& info.update_available == later
            &&& info.current_version == current
            &&& info.available_version == without_v(tag_name)
            &&& target_of(arch, musl) == Ok::<Seq<char>, UpdateFault>(info.target)
        },
        release_info(tag_name, current, arch, musl, None, None, later) is Ok <==> target_of(
            arch,
            musl,
        ) is Ok,
{
}

/// A file of a release is found by its very name; the first of that name counts, and where there is
/// none, none is found.
pub proof fn asset_is_found_by_its_name(assets: Seq<ReleaseAsset>, name: Seq<char>, at: int)
    requires
        0 <= at <= assets.len(),
        forall|i: int| 0 <= i < at ==> (#[trigger] assets[i]).name@ != name,
        at < assets.len() ==> assets[at].name@ == name,
    ensures
        asset_at(assets, name, 0) == if at < assets.len() {
            Some(assets[at].download_url@)
        } else {
            None
        },
{
    lemma_asset(assets, name, at, 0);
}

proof fn lemma_asset(assets: Seq<ReleaseAsset>, name: Seq<char>, at: int, from: int)
    requires
        0 <= from <= at <= assets.len(),
        forall|i: int| 0 <= i < at ==> (#[trigger] assets[i]).name@ != name,
        at < assets.len() ==> assets[at].name@ == name,
    ensures
        asset_at(assets, name, from) == if at < assets.len() {
            Some(assets[at].download_url@)
        } else {
            None
        },
    decreases at - from,
{
    if from < at {
        lemma_asset(assets, name, at, from + 1);
    }
}

/// The first word of a checksum file decides, in either case of its letters; what stands behind it
/// does not. An archive passes exactly where that word is its digest in hexadecimal.
pub proof fn first_word_decides(
    digest: Seq<u8>,
    checksum_file: Seq<u8>,
    front: Seq<char>,
    word: Seq<char>,
    rest: Seq<char>,
)
    requires
        valid_utf8(checksum_file),
        decode_utf8(checksum_file) == front + word + rest,
        all_white(front),
        word.len() > 0 && no_white(word),
        rest.len() > 0 ==> is_white(rest[0]),
    ensures
        checksum_verdict(digest, checksum_file) is Ok <==> is_digest_text(word) && lower(word)
            == hex(digest),
        !is_digest_text(word) ==> checksum_verdict(digest, checksum_file) == Err::<(), UpdateFault>(
            UpdateFault::ChecksumMalformed,
        ),
        is_digest_text(word) && lower(word) != hex(digest) ==> checksum_verdict(
            digest,
            checksum_file,
        ) == Err::<(), UpdateFault>(UpdateFault::ChecksumMismatch),
{
    first_word_is_read(front, word, rest);
}

/// The digest of an archive, written in hexadecimal, is what a checksum file has to name: 32 bytes
/// make 64 digits, which are accepted as they are.
pub proof fn own_digest_passes(digest: Seq<u8>)
    requires
        digest.len() == 32,
    ensures
        is_digest_text(hex(digest)),
        lower(hex(digest)) == hex(digest),
        no_white(hex(digest)),
{
    lemma_hex_length(digest);
    lemma_hex_digits(digest);
    assert(lower(hex(digest)) =~= hex(digest));
}

proof fn lemma_hex_digits(bytes: Seq<u8>)
    ensures
        forall|i: int|
            0 <= i < hex(bytes).len() ==> is_hex_char(#[trigger] hex(bytes)[i]) && ascii_lower(
                hex(bytes)[i],
            ) == hex(bytes)[i] && !is_white(hex(bytes)[i]),
    decreases bytes.len(),
{
    if bytes.len() > 0 {
        let before = hex(bytes.drop_last());
        let last = bytes.last() as int;
        lemma_hex_digits(bytes.drop_last());
        lemma_is_hex_digit(last / 16);
        lemma_is_hex_digit(last % 16);
        assert forall|i: int| 0 <= i < hex(bytes).len() implies is_hex_char(
            #[trigger] hex(bytes)[i],
        ) && ascii_lower(hex(bytes)[i]) == hex(bytes)[i] && !is_white(hex(bytes)[i]) by {
            if i < before.len() {
                assert(hex(bytes)[i] == before[i]);
            } else if i == before.len() {
                assert(hex(bytes)[i] == hex_char(last / 16));
            } else {
                assert(hex(bytes)[i] == hex_char(last % 16));
            }
        }
    }
}

proof fn lemma_is_hex_digit(nibble: int)
    requires
        0 <= nibble < 16,
    ensures
        is_hex_char(hex_char(nibble)),
        ascii_lower(hex_char(nibble)) == hex_char(nibble),
        !is_white(hex_char(nibble)),
{
    let c = hex_char(nibble);
    assert(nibble < 10 ==> c as u32 == 48 + nibble);
    assert(nibble >= 10 ==> c as u32 == 87 + nibble);
}

/// The program is found wherever it stands in the archive, behind whatever other files.
pub proof fn program_is_found_behind_others(members: Seq<MemberView>, at: int, contents: Seq<u8>)
    requires
        0 <= at < members.len(),
        is_program(members[at], contents),
        forall|i: int| 0 <= i < at ==> is_other(#[trigger] members[i]),
    ensures
        program_of(Ok(members)) == Ok::<Seq<u8>, UpdateFault>(contents),
{
    lemma_program_behind(members, at, contents, 0);
}

/// A member that was listed under another name.
pub open spec fn is_other(member: MemberView) -> bool {
    match member {
        MemberView::File { path, contents } => parts(path) != parts("tuxcleaner"@),
        MemberView::Broken { path, error } => parts(path) != parts("tuxcleaner"@),
        _ => false,
    }
}

proof fn lemma_program_behind(
    members: Seq<MemberView>,
    at: int,
    contents: Seq<u8>,
    from: int,
)
    requires
        0 <= from <= at < members.len(),
        is_program(members[at], contents),
        forall|i: int| 0 <= i < at ==> is_other(#[trigger] members[i]),
    ensures
        program_at(members, from) == Ok::<Seq<u8>, UpdateFault>(contents),
    decreases at - from,
{
    if from < at {
        assert(is_other(members[from]));
        lemma_program_behind(members, at, contents, from + 1);
    }
}

/// An archive that its checksum vouches for is opened, and the program in it is what is installed.
pub proof fn verified_archive_is_installed(
    digest: Seq<u8>,
    members: Seq<MemberView>,
    checksum_file: Seq<u8>,
    at: int,
    contents: Seq<u8>,
)
    requires
        checksum_verdict(digest, checksum_file) is Ok,
        0 <= at < members.len(),
        is_program(members[at], contents),
        forall|i: int| 0 <= i < at ==> is_other(#[trigger] members[i]),
    ensures
        program_to_install(digest, Ok(members), checksum_file) == Ok::<Seq<u8>, UpdateFault>(
            contents,
        ),
{
    program_is_found_behind_others(members, at, contents);
}

/// A release is installed where it was asked for or is later, and not otherwise; what is reported
/// afterwards names the versions as they then are.
pub proof fn later_release_is_taken(
    requested: bool,
    info: &UpdateInfo,
    wanted: bool,
    kept: UpdateResult,
    replaced: UpdateResult,
)
    requires
        call_ensures(should_install, (requested, info), wanted),
        call_ensures(unchanged_result, (info,), kept),
        call_ensures(installed_result, (info,), replaced),
    ensures
        wanted <==> requested || info.update_available,
        !kept.updated && kept.installed_version@ == info.current_version@,
        replaced.updated && replaced.installed_version@ == info.available_version@
            && replaced.previous_version@ == info.current_version@,
{
}

} // verus!
