use rua::archive::archive_format;
use rua::archive::gather_report;
use rua::archive::inspect_archive;
use rua::archive::is_install_script;
use rua::archive::tar_check;
use rua::archive::ArchiveFormat;
use rua::archive::AuditError;
use rua::audit::scan_members;
use rua::member::classify;
use rua::member::Member;
use std::io::Read;

fn add_file(builder: &mut tar::Builder<Vec<u8>>, path: &str, mode: u32, content: &[u8]) {
    let mut header = tar::Header::new_gnu();
    header.set_path(path).unwrap();
    header.set_mode(mode);
    header.set_size(content.len() as u64);
    header.set_entry_type(tar::EntryType::Regular);
    header.set_cksum();
    builder.append(&header, content).unwrap();
}

fn add_dir(builder: &mut tar::Builder<Vec<u8>>, path: &str, mode: u32) {
    let mut header = tar::Header::new_gnu();
    header.set_path(path).unwrap();
    header.set_mode(mode);
    header.set_size(0);
    header.set_entry_type(tar::EntryType::Directory);
    header.set_cksum();
    let empty: &[u8] = &[];
    builder.append(&header, empty).unwrap();
}

fn sample_archive() -> Vec<u8> {
    let mut builder = tar::Builder::new(Vec::new());
    add_file(&mut builder, ".PKGINFO", 0o644, b"pkgname = foo\n");
    add_file(&mut builder, ".INSTALL", 0o644, b"post_install() {\n  true\n}\n");
    add_dir(&mut builder, "usr/", 0o755);
    add_dir(&mut builder, "usr/bin/", 0o755);
    add_file(&mut builder, "usr/bin/foo", 0o755, b"#!/bin/sh\n");
    add_file(&mut builder, "usr/bin/sufoo", 0o4755, b"#!/bin/sh\n");
    add_file(&mut builder, "usr/share/doc/foo", 0o644, b"docs\n");
    builder.into_inner().unwrap()
}

fn compress(data: &[u8]) -> Vec<u8> {
    let mut out = Vec::new();
    xz2::read::XzEncoder::new(data, 6).read_to_end(&mut out).unwrap();
    out
}

#[test]
fn format_follows_the_suffix() {
    assert_eq!(archive_format("foo-1.0-1-x86_64.pkg.tar.xz"), Ok(ArchiveFormat::TarXz));
    assert_eq!(archive_format("foo-1.0-1-x86_64.pkg.tar"), Ok(ArchiveFormat::Tar));
    assert_eq!(archive_format(".tar"), Ok(ArchiveFormat::Tar));
    assert_eq!(archive_format(".tar.xz"), Ok(ArchiveFormat::TarXz));
    assert_eq!(archive_format("foo.tar.gz"), Err(AuditError::UnsupportedFormat));
    assert_eq!(archive_format("foo.pkg.tar.zst"), Err(AuditError::UnsupportedFormat));
    assert_eq!(archive_format("tar"), Err(AuditError::UnsupportedFormat));
    assert_eq!(archive_format(""), Err(AuditError::UnsupportedFormat));
    assert_eq!(archive_format("foo.tar.xz.sig"), Err(AuditError::UnsupportedFormat));
}

#[test]
fn unrecognized_suffix_is_unsupported_format() {
    let data = sample_archive();
    let result = tar_check("foo-1.0-1-any.pkg.tar.zst", &data);
    assert_eq!(result.err(), Some(AuditError::UnsupportedFormat));
    let result = tar_check("notes.txt", b"hello");
    assert_eq!(result.err(), Some(AuditError::UnsupportedFormat));
}

#[test]
fn plain_archive_is_classified() {
    let data = sample_archive();
    let report = tar_check("foo-1.0-1-any.pkg.tar", &data).unwrap();
    assert_eq!(report.all_files, vec!["usr/bin/foo", "usr/bin/sufoo", "usr/share/doc/foo"]);
    assert_eq!(report.executable_files, vec!["usr/bin/foo", "usr/bin/sufoo"]);
    assert_eq!(report.suid_files, vec!["usr/bin/sufoo"]);
    assert_eq!(report.install_file, "post_install() {\n  true\n}\n");
    assert!(report.has_install());
    assert!(report.has_privileged());
}

#[test]
fn compressed_archive_is_decoded_first() {
    let plain = sample_archive();
    let packed = compress(&plain);
    assert_ne!(plain, packed);
    let report = tar_check("foo-1.0-1-any.pkg.tar.xz", &packed).unwrap();
    assert_eq!(report.all_files, vec!["usr/bin/foo", "usr/bin/sufoo", "usr/share/doc/foo"]);
    assert_eq!(report.suid_files, vec!["usr/bin/sufoo"]);
    assert_eq!(report.install_file, "post_install() {\n  true\n}\n");
}

#[test]
fn name_decides_how_the_bytes_are_read() {
    let plain = sample_archive();
    let packed = compress(&plain);
    assert_eq!(tar_check("foo.tar.xz", &plain).err(), Some(AuditError::Unreadable));
    assert_eq!(tar_check("foo.tar", &packed).err(), Some(AuditError::Unreadable));
}

#[test]
fn garbage_is_unreadable() {
    let junk = vec![0x5au8; 1024];
    assert_eq!(inspect_archive(&junk).err(), Some(AuditError::Unreadable));
    assert_eq!(tar_check("x.tar.xz", &junk).err(), Some(AuditError::Unreadable));
}

#[test]
fn empty_archive_gives_an_empty_report() {
    let data = tar::Builder::new(Vec::new()).into_inner().unwrap();
    let report = tar_check("empty.tar", &data).unwrap();
    assert!(report.all_files.is_empty());
    assert!(report.executable_files.is_empty());
    assert!(report.suid_files.is_empty());
    assert_eq!(report.install_file, "");
    assert!(!report.has_install());
    assert!(!report.has_privileged());
}

#[test]
fn path_that_is_not_utf8_is_refused() {
    let mut header = tar::Header::new_gnu();
    header.set_path("placeholder").unwrap();
    header.as_old_mut().name[0] = 0xff;
    header.set_mode(0o644);
    header.set_size(0);
    header.set_entry_type(tar::EntryType::Regular);
    header.set_cksum();
    let mut builder = tar::Builder::new(Vec::new());
    let empty: &[u8] = &[];
    builder.append(&header, empty).unwrap();
    let data = builder.into_inner().unwrap();
    assert_eq!(tar_check("bad.tar", &data).err(), Some(AuditError::PathNotText));
}

#[test]
fn install_script_that_is_not_text_is_unreadable() {
    let mut builder = tar::Builder::new(Vec::new());
    add_file(&mut builder, ".INSTALL", 0o644, &[0xff, 0xfe, 0x00]);
    let data = builder.into_inner().unwrap();
    assert_eq!(tar_check("bad.tar", &data).err(), Some(AuditError::Unreadable));
}

#[test]
fn setuid_member_is_privileged() {
    let flags = classify("usr/bin/sudo", 0o4755);
    assert!(flags.privileged);
    assert!(flags.executable);
    assert!(flags.normal);
}

#[test]
fn privileged_looks_at_the_mode_alone() {
    assert!(classify(".hidden", 0o2644).privileged);
    assert!(!classify(".hidden", 0o2644).normal);
    assert!(!classify(".hidden", 0o2755).executable);
    assert!(classify("dir/", 0o1777).privileged);
    assert!(!classify("dir/", 0o1777).normal);
    assert!(!classify("usr/bin/foo", 0o777).privileged);
    assert!(classify("usr/bin/foo", 0o1000).privileged);
    assert!(!classify("usr/bin/foo", 0).privileged);
    assert!(classify("usr/bin/foo", u32::MAX).privileged);
}

#[test]
fn executable_needs_a_normal_path_and_an_execute_bit() {
    assert!(classify("a", 0o100).executable);
    assert!(classify("a", 0o010).executable);
    assert!(classify("a", 0o001).executable);
    assert!(!classify("a", 0o666).executable);
    assert!(!classify("a/", 0o755).executable);
    assert!(!classify(".a", 0o755).executable);
    assert!(classify("", 0o755).normal);
    assert!(classify("a.b", 0o644).normal);
    assert!(classify("a/b", 0o644).normal);
}

#[test]
fn scan_keeps_archive_order() {
    let members = vec![
        Member { path: "b".to_string(), mode: 0o755 },
        Member { path: ".MTREE".to_string(), mode: 0o4644 },
        Member { path: "a".to_string(), mode: 0o644 },
        Member { path: "d/".to_string(), mode: 0o755 },
    ];
    let report = scan_members(&members, String::new());
    assert_eq!(report.all_files, vec!["b", "a"]);
    assert_eq!(report.executable_files, vec!["b"]);
    assert_eq!(report.suid_files, vec![".MTREE"]);
    assert_eq!(report.install_file, "");
}

fn listing(entries: &[(Option<&str>, u32)]) -> Vec<(Option<String>, u32)> {
    entries.iter().map(|(p, m)| (p.map(|s| s.to_string()), *m)).collect()
}

#[test]
fn report_from_a_listing_and_its_texts() {
    let entries = listing(&[
        (Some(".INSTALL"), 0o644),
        (Some("usr/bin/foo"), 0o755),
        (Some("usr/bin/sufoo"), 0o6755),
        (Some(".INSTALL"), 0o644),
    ]);
    let texts = vec![Some("one\n".to_string()), None, None, Some("two\n".to_string())];
    let report = gather_report(&entries, &texts).unwrap();
    assert_eq!(report.install_file, "one\ntwo\n");
    assert_eq!(report.all_files, vec!["usr/bin/foo", "usr/bin/sufoo"]);
    assert_eq!(report.executable_files, vec!["usr/bin/foo", "usr/bin/sufoo"]);
    assert_eq!(report.suid_files, vec!["usr/bin/sufoo"]);
}

#[test]
fn texts_of_other_entries_are_not_read() {
    let entries = listing(&[(Some("a"), 0o644), (Some("b"), 0o644)]);
    let texts = vec![Some("ignored".to_string()), Some("too".to_string())];
    let report = gather_report(&entries, &texts).unwrap();
    assert_eq!(report.install_file, "");
    assert_eq!(report.all_files, vec!["a", "b"]);
    assert!(gather_report(&entries, &Vec::new()).is_ok());
    assert!(gather_report(&Vec::new(), &texts).unwrap().all_files.is_empty());
}

#[test]
fn first_fault_in_the_listing_decides() {
    let no_path_first = listing(&[(Some("a"), 0o644), (None, 0o644), (Some(".INSTALL"), 0o644)]);
    assert_eq!(
        gather_report(&no_path_first, &vec![None, None, None]).err(),
        Some(AuditError::PathNotText)
    );
    let no_text_first = listing(&[(Some(".INSTALL"), 0o644), (None, 0o644)]);
    assert_eq!(
        gather_report(&no_text_first, &vec![None, None]).err(),
        Some(AuditError::Unreadable)
    );
    assert_eq!(gather_report(&no_text_first, &Vec::new()).err(), Some(AuditError::Unreadable));
    assert_eq!(
        gather_report(&no_text_first, &vec![Some("x".to_string())]).err(),
        Some(AuditError::PathNotText)
    );
}

#[test]
fn install_script_has_one_name() {
    assert!(is_install_script(".INSTALL"));
    assert!(!is_install_script(".install"));
    assert!(!is_install_script("INSTALL"));
    assert!(!is_install_script(".INSTALL "));
    assert!(!is_install_script("usr/.INSTALL"));
    assert!(!is_install_script(""));
}
