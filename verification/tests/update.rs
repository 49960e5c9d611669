//! Releases: versions, checksums and archives.
use std::io::Write;

use flate2::write::GzEncoder;
use flate2::Compression;
use sha2::{Digest, Sha256};
use tuxcleaner::update::{
    archive_name, asset_url, check, checksum_name, compare_digest, extract_archive, find_program,
    installed_result, normalize_tag, release_endpoint, release_target, should_install,
    unchanged_result, verify_checksum, ArchiveMember, Release, ReleaseAsset, UpdateError,
};

#[test]
fn normalizes_release_versions() {
    assert_eq!(normalize_tag("0.3.0").unwrap(), "v0.3.0");
    assert_eq!(normalize_tag("v1.0.0-beta.1").unwrap(), "v1.0.0-beta.1");
    assert!(normalize_tag("latest").is_err());
}

#[test]
fn verifies_sha256_assets() {
    let archive = b"release bytes";
    let checksum = format!("{:x}  archive.tar.gz\n", Sha256::digest(archive));
    verify_checksum(archive, checksum.as_bytes()).unwrap();
    assert!(verify_checksum(b"changed", checksum.as_bytes()).is_err());
}

fn release(tag: &str) -> Release {
    Release {
        tag_name: tag.to_string(),
        assets: vec![ReleaseAsset {
            name: "wanted.tar.gz".to_string(),
            download_url: "https://example.invalid/wanted".to_string(),
        }],
    }
}

#[test]
fn finds_assets_by_exact_name() {
    let release = release("v1.0.0");
    assert_eq!(
        asset_url(&release, "wanted.tar.gz").unwrap(),
        "https://example.invalid/wanted"
    );
    assert!(asset_url(&release, "other.tar.gz").is_err());
}

#[test]
fn a_missing_asset_is_named() {
    let error = asset_url(&release("v1.0.0"), "other.tar.gz").unwrap_err();
    assert_eq!(
        error.message(),
        "release v1.0.0 is missing asset other.tar.gz"
    );
}

#[test]
fn versions_are_ordered_as_versions() {
    let info = check(&release("v0.10.0"), "0.9.0", "x86_64", false).unwrap();
    assert!(info.update_available);
    assert_eq!(info.current_version, "0.9.0");
    assert_eq!(info.available_version, "0.10.0");
    assert_eq!(info.target, "x86_64-unknown-linux-gnu");
    // A version comes after its own trials.
    assert!(check(&release("1.0.0"), "1.0.0-rc.1", "x86_64", false)
        .unwrap()
        .update_available);
    assert!(!check(&release("1.0.0-rc.1"), "1.0.0", "x86_64", false)
        .unwrap()
        .update_available);
    assert!(!check(&release("v1.0.0"), "1.0.0", "x86_64", true)
        .unwrap()
        .update_available);
}

#[test]
fn bad_versions_are_named() {
    assert_eq!(
        check(&release("latest"), "1.0.0", "x86_64", false),
        Err(UpdateError::InvalidTag {
            tag: "latest".to_string(),
            cause: "unexpected character 'l' while parsing major version number".to_string(),
        })
    );
    assert_eq!(
        normalize_tag(" 1.0 "),
        Err(UpdateError::InvalidVersion {
            version: " 1.0 ".to_string(),
            cause: "unexpected end of input while parsing minor version number".to_string(),
        })
    );
    assert_eq!(
        normalize_tag("v").unwrap_err().message(),
        "invalid version: v: empty string, expected a semver version"
    );
    assert_eq!(
        check(&release("v01.0.0"), "1.0.0", "x86_64", false)
            .unwrap_err()
            .message(),
        "invalid release tag: v01.0.0: invalid leading zero in major version number"
    );
    // Of its own version the program says only what is wrong with it.
    assert_eq!(
        check(&release("latest"), "", "x86_64", false)
            .unwrap_err()
            .message(),
        "empty string, expected a semver version"
    );
    assert_eq!(
        check(&release("v1.0.0"), "1.0.0", "riscv64", false),
        Err(UpdateError::UnsupportedArchitecture("riscv64".to_string()))
    );
}

#[test]
fn releases_are_asked_for_by_tag() {
    assert_eq!(
        release_endpoint("https://api", None).unwrap(),
        "https://api/releases/latest"
    );
    assert_eq!(
        release_endpoint("https://api", Some("1.2.3")).unwrap(),
        "https://api/releases/tags/v1.2.3"
    );
    assert!(release_endpoint("https://api", Some("x")).is_err());
}

#[test]
fn assets_are_named_by_target() {
    let target = release_target("aarch64", true).unwrap();
    assert_eq!(target, "aarch64-unknown-linux-musl");
    assert_eq!(
        archive_name(&target),
        "tuxcleaner-aarch64-unknown-linux-musl.tar.gz"
    );
    assert_eq!(
        checksum_name(&target),
        "tuxcleaner-aarch64-unknown-linux-musl.tar.gz.sha256"
    );
}

#[test]
fn checksums_are_read_with_care() {
    let archive = b"release bytes";
    let digest = format!("{:X}", Sha256::digest(archive));
    // Letters count in either case, and only the first word is read.
    assert_eq!(verify_checksum(archive, digest.as_bytes()), Ok(()));
    assert_eq!(
        verify_checksum(archive, b""),
        Err(UpdateError::ChecksumEmpty)
    );
    assert_eq!(
        verify_checksum(archive, b"  \n"),
        Err(UpdateError::ChecksumEmpty)
    );
    assert_eq!(
        verify_checksum(archive, &[0xff, 0xfe]),
        Err(UpdateError::ChecksumNotText(
            "invalid utf-8 sequence of 1 bytes from index 0".to_string()
        ))
    );
    assert_eq!(
        verify_checksum(archive, b"abc"),
        Err(UpdateError::ChecksumMalformed)
    );
    let wrong = "0".repeat(64);
    assert_eq!(
        verify_checksum(archive, wrong.as_bytes()),
        Err(UpdateError::ChecksumMismatch)
    );
    let digest = Sha256::digest(b"x").to_vec();
    let text = format!("{:x}", Sha256::digest(b"x"));
    assert_eq!(compare_digest(&digest, text.as_bytes()), Ok(()));
}

/// An archive with the given files.
fn archive(files: &[(&str, &[u8])]) -> Vec<u8> {
    let mut builder = tar::Builder::new(Vec::new());
    for (path, contents) in files {
        let mut header = tar::Header::new_gnu();
        header.set_size(contents.len() as u64);
        header.set_mode(0o755);
        header.set_cksum();
        builder.append_data(&mut header, path, *contents).unwrap();
    }
    let bytes = builder.into_inner().unwrap();
    let mut encoder = GzEncoder::new(Vec::new(), Compression::default());
    encoder.write_all(&bytes).unwrap();
    encoder.finish().unwrap()
}

#[test]
fn the_program_is_taken_from_the_archive() {
    let bytes = archive(&[("README.md", b"hello"), ("tuxcleaner", b"\x7fELF program")]);
    assert_eq!(extract_archive(&bytes), Ok(b"\x7fELF program".to_vec()));
}

#[test]
fn an_archive_without_the_program_is_refused() {
    let bytes = archive(&[("bin/tuxcleaner", b"x")]);
    assert_eq!(extract_archive(&bytes), Err(UpdateError::BinaryMissing));
    assert_eq!(
        extract_archive(b"no archive at all").unwrap_err().message(),
        "failed to read release archive entry: invalid gzip header"
    );
}

#[test]
fn an_archive_is_read_up_to_the_program() {
    let program = || ArchiveMember::File {
        path: "tuxcleaner".to_string(),
        contents: vec![1, 2],
    };
    let unreadable = || ArchiveMember::Unreadable("unexpected end of file".to_string());
    let pathless = || ArchiveMember::InvalidPath("no path".to_string());
    let said = |members: Result<Vec<ArchiveMember>, String>| {
        find_program(members).map_err(|error| error.message())
    };
    assert_eq!(said(Ok(vec![program(), unreadable()])), Ok(vec![1, 2]));
    assert_eq!(
        said(Ok(vec![unreadable(), program()])),
        Err("failed to read release archive entry: unexpected end of file".to_string())
    );
    assert_eq!(
        said(Ok(vec![pathless(), program()])),
        Err("invalid release archive path: no path".to_string())
    );
    assert_eq!(
        said(Err("no gzip".to_string())),
        Err("failed to read release archive: no gzip".to_string())
    );
    assert_eq!(
        find_program(Ok(vec![unreadable()])),
        Err(UpdateError::ArchiveEntryUnreadable(
            "unexpected end of file".to_string()
        ))
    );
    let broken = |path: &str| ArchiveMember::Broken {
        path: path.to_string(),
        error: "corrupt deflate stream".to_string(),
    };
    assert_eq!(
        find_program(Ok(vec![broken("README.md"), program()])),
        Ok(vec![1, 2])
    );
    assert_eq!(
        find_program(Ok(vec![broken("tuxcleaner")])).map_err(|error| error.message()),
        Err("corrupt deflate stream".to_string())
    );
}

#[test]
fn a_release_that_is_not_newer_is_installed_only_on_request() {
    let info = check(&release("v1.0.0"), "1.0.0", "x86_64", false).unwrap();
    assert!(!should_install(false, &info));
    assert!(should_install(true, &info));
    let unchanged = unchanged_result(&info);
    assert!(!unchanged.updated);
    assert_eq!(unchanged.installed_version, "1.0.0");
    let info = check(&release("v1.1.0"), "1.0.0", "x86_64", false).unwrap();
    assert!(should_install(false, &info));
    let installed = installed_result(&info);
    assert!(installed.updated);
    assert_eq!(installed.previous_version, "1.0.0");
    assert_eq!(installed.installed_version, "1.1.0");
}
