//! Opening an archive: the container format by the file's name, the members
//! by `tar`, the compressed variant by `xz2`, and the report that an audit
//! starts from.

use crate::audit::scan_members;
use crate::audit::spec_report;
use crate::audit::AuditReport;
use crate::audit::ReportView;
use crate::member::Member;
use crate::outcome::RunEnd;
use crate::text::ends_with;
use crate::text::same_text;
use std::io::Read;
use vstd::prelude::*;

verus! {

#[verifier::external_type_specification]
#[verifier::external_body]
pub struct ExIoError(std::io::Error);

/// The two containers an audit can read.
#[derive(Clone, Copy, Debug, PartialEq, Eq, Structural)]
pub enum ArchiveFormat {
    /// An uncompressed tar archive, `.tar`.
    Tar,
    /// An xz-compressed tar archive, `.tar.xz`.
    TarXz,
}

/// Why an archive could not be audited.
#[derive(Clone, Copy, Debug, PartialEq, Eq, Structural)]
pub enum AuditError {
    /// The file's name ends in neither `.tar.xz` nor `.tar`.
    UnsupportedFormat,
    /// The bytes are no well-formed archive of the format that the name
    /// announces, or the install script is no text.
    Unreadable,
    /// A member's path is not valid UTF-8.
    PathNotText,
}

/// The suffix of an uncompressed archive.
pub open spec fn tar_suffix() -> Seq<char> {
    seq!['.', 't', 'a', 'r']
}

/// The suffix of a compressed archive.
pub open spec fn tar_xz_suffix() -> Seq<char> {
    seq!['.', 't', 'a', 'r', '.', 'x', 'z']
}

/// The path of the member that holds the install script.
pub open spec fn install_script_path() -> Seq<char> {
    seq!['.', 'I', 'N', 'S', 'T', 'A', 'L', 'L']
}

/// The format that a file name announces, if any.
pub open spec fn spec_format(name: Seq<char>) -> Option<ArchiveFormat> {
    if tar_xz_suffix().is_suffix_of(name) {
        Some(ArchiveFormat::TarXz)
    } else if tar_suffix().is_suffix_of(name) {
        Some(ArchiveFormat::Tar)
    } else {
        None
    }
}

/// What `tar` lists for the bytes of an archive: for each entry in order, the
/// path in the entry's header (`None` where its bytes are not UTF-8) and the
/// mode in the header; `None` where `tar` reports an error on the way.
pub uninterp spec fn tar_listing(data: Seq<u8>) -> Option<Seq<(Option<Seq<char>>, u32)>>;

/// The content of the entry at `index`, read as text by `tar`; `None` where
/// the read fails or the content is not UTF-8.
pub uninterp spec fn tar_text(data: Seq<u8>, index: int) -> Option<Seq<char>>;

/// What `xz2` decodes the bytes of one xz stream to; `None` where it reports
/// an error.
pub uninterp spec fn xz_plain(data: Seq<u8>) -> Option<Seq<u8>>;

/// `tar::Archive::entries` on the bytes, and `Header::path_bytes` and
/// `Header::mode` of each entry. Nothing is claimed of the listing but that it
/// is the one `tar` gives for these bytes; the first error of any of the calls
/// is handed on.
#[verifier::external_body]
fn list_archive(data: &[u8]) -> (r: Result<Vec<(Option<String>, u32)>, std::io::Error>)
    ensures
        match r {
            Ok(entries) => tar_listing(data@) == Some(entries.deep_view()),
            Err(_) => tar_listing(data@) is None,
        },
{
    let mut archive = tar::Archive::new(data);
    let mut entries = Vec::new();
    for entry in archive.entries()? {
        let entry = entry?;
        let path = String::from_utf8(entry.header().path_bytes().into_owned()).ok();
        entries.push((path, entry.header().mode()?));
    }
    Ok(entries)
}

/// `Read::read_to_string` on the entry at `index` of `tar::Archive::entries`.
/// The index must lie within the listing, so that the entry exists.
#[verifier::external_body]
fn read_entry_text(data: &[u8], index: usize) -> (r: Result<String, std::io::Error>)
    requires
        tar_listing(data@) matches Some(listing) && index < listing.len(),
    ensures
        match r {
            Ok(text) => tar_text(data@, index as int) == Some(text@),
            Err(_) => tar_text(data@, index as int) is None,
        },
{
    let mut text = String::new();
    let mut archive = tar::Archive::new(data);
    archive.entries()?.nth(index).unwrap()?.read_to_string(&mut text)?;
    Ok(text)
}

/// `xz2::read::XzDecoder` on the bytes, read to its end.
#[verifier::external_body]
fn decode_xz(data: &[u8]) -> (r: Result<Vec<u8>, std::io::Error>)
    ensures
        match r {
            Ok(plain) => xz_plain(data@) == Some(plain@),
            Err(_) => xz_plain(data@) is None,
        },
{
    let mut plain = Vec::new();
    xz2::read::XzDecoder::new(data).read_to_end(&mut plain)?;
    Ok(plain)
}

/// The text read for the entry at `i`, where one was read.
pub open spec fn text_at(texts: Seq<Option<Seq<char>>>, i: int) -> Option<Seq<char>> {
    if 0 <= i < texts.len() {
        texts[i]
    } else {
        None
    }
}

/// The members and the install text gathered from the first `n` entries of a
/// listing, where `texts` holds for each entry named `.INSTALL` its content,
/// or `None` where it could not be read. The first entry without a UTF-8
/// path, or the first install script without a text, ends the walk with its
/// error. The texts of all entries named `.INSTALL` are appended in order.
pub open spec fn spec_gather(
    listing: Seq<(Option<Seq<char>>, u32)>,
    texts: Seq<Option<Seq<char>>>,
    n: int,
) -> Result<(Seq<(Seq<char>, u32)>, Seq<char>), AuditError>
    decreases n,
{
    if n <= 0 {
        Ok((Seq::empty(), Seq::empty()))
    } else {
        match spec_gather(listing, texts, n - 1) {
            Err(e) => Err(e),
            Ok((members, text)) => match listing[n - 1].0 {
                None => Err(AuditError::PathNotText),
                Some(path) => if path == install_script_path() {
                    match text_at(texts, n - 1) {
                        None => Err(AuditError::Unreadable),
                        Some(script) => Ok((members.push((path, listing[n - 1].1)), text + script)),
                    }
                } else {
                    Ok((members.push((path, listing[n - 1].1)), text))
                },
            },
        }
    }
}

/// The report on a listing and the texts of its install scripts.
pub open spec fn spec_gather_report(
    listing: Seq<(Option<Seq<char>>, u32)>,
    texts: Seq<Option<Seq<char>>>,
) -> Result<ReportView, AuditError> {
    match spec_gather(listing, texts, listing.len() as int) {
        Err(e) => Err(e),
        Ok((members, text)) => Ok(spec_report(members, text)),
    }
}

/// What is read of the entries of a listing: of each entry named `.INSTALL`
/// its text, of the others nothing.
pub open spec fn spec_texts(listing: Seq<(Option<Seq<char>>, u32)>, data: Seq<u8>) -> Seq<
    Option<Seq<char>>,
> {
    Seq::new(
        listing.len(),
        |i: int|
            if listing[i].0 == Some(install_script_path()) {
                tar_text(data, i)
            } else {
                None
            },
    )
}

/// The report on the bytes of an uncompressed archive.
pub open spec fn spec_inspect(data: Seq<u8>) -> Result<ReportView, AuditError> {
    match tar_listing(data) {
        None => Err(AuditError::Unreadable),
        Some(listing) => spec_gather_report(listing, spec_texts(listing, data)),
    }
}

/// The report on a file of the given name and content.
pub open spec fn spec_tar_check(name: Seq<char>, data: Seq<u8>) -> Result<ReportView, AuditError> {
    match spec_format(name) {
        None => Err(AuditError::UnsupportedFormat),
        Some(ArchiveFormat::Tar) => spec_inspect(data),
        Some(ArchiveFormat::TarXz) => match xz_plain(data) {
            None => Err(AuditError::Unreadable),
            Some(plain) => spec_inspect(plain),
        },
    }
}

/// Whether the result of an audit is the expected one: the same error, or a
/// report of the expected content.
pub open spec fn report_matches(
    r: Result<AuditReport, AuditError>,
    expected: Result<ReportView, AuditError>,
) -> bool {
    match r {
        Ok(report) => expected == Ok::<ReportView, AuditError>(report.deep_view()),
        Err(e) => expected == Err::<ReportView, AuditError>(e),
    }
}

/// Reads the container format off a file name: `.tar.xz` and `.tar` are
/// supported, in this order; any other name is refused.
pub fn archive_format(name: &str) -> (r: Result<ArchiveFormat, AuditError>)
    ensures
        match spec_format(name@) {
            Some(format) => r == Ok::<ArchiveFormat, AuditError>(format),
            None => r == Err::<ArchiveFormat, AuditError>(AuditError::UnsupportedFormat),
        },
{
    proof {
        reveal_strlit(".tar.xz");
        reveal_strlit(".tar");
        assert(".tar.xz"@ =~= tar_xz_suffix());
        assert(".tar"@ =~= tar_suffix());
    }
    if ends_with(name, ".tar.xz") {
        Ok(ArchiveFormat::TarXz)
    } else if ends_with(name, ".tar") {
        Ok(ArchiveFormat::Tar)
    } else {
        Err(AuditError::UnsupportedFormat)
    }
}

/// Whether the path is that of the install script.
pub fn is_install_script(path: &str) -> (r: bool)
    ensures
        r == (path@ == install_script_path()),
{
    proof {
        reveal_strlit(".INSTALL");
        assert(".INSTALL"@ =~= install_script_path());
    }
    same_text(path, ".INSTALL")
}

/// Once the walk has met an error, taking in more entries does not change it.
pub proof fn lemma_gather_error_stays(
    listing: Seq<(Option<Seq<char>>, u32)>,
    texts: Seq<Option<Seq<char>>>,
    n: int,
    m: int,
)
    requires
        n <= m,
        spec_gather(listing, texts, n) is Err,
    ensures
        spec_gather(listing, texts, m) == spec_gather(listing, texts, n),
    decreases m - n,
{
    if n < m {
        lemma_gather_error_stays(listing, texts, n, m - 1);
    }
}

/// Sorts the entries of a listing into a report. `listing` gives each entry
/// as its path, where that is UTF-8, and its mode; `texts` gives for each
/// entry named `.INSTALL`, at the entry's place, the text that was read, or
/// `None` where the read failed. The entries are taken in order: the first
/// without a path is refused as `PathNotText`, the first install script
/// without a text as `Unreadable`.
pub fn gather_report(listing: &Vec<(Option<String>, u32)>, texts: &Vec<Option<String>>) -> (r:
    Result<AuditReport, AuditError>)
    ensures
        report_matches(r, spec_gather_report(listing.deep_view(), texts.deep_view())),
{
    let ghost entries = listing.deep_view();
    let ghost read = texts.deep_view();
    let mut members: Vec<Member> = Vec::new();
    let mut install_file = String::new();
    let mut i: usize = 0;
    assert(members.deep_view() =~= Seq::empty());
    while i < listing.len()
        invariant
            i <= listing.len(),
            entries == listing.deep_view(),
            read == texts.deep_view(),
            spec_gather(entries, read, i as int) == Ok::<
                (Seq<(Seq<char>, u32)>, Seq<char>),
                AuditError,
            >((members.deep_view(), install_file@)),
        decreases listing.len() - i,
    {
        let ghost before = members.deep_view();
        assert(entries[i as int] == (listing[i as int].0.deep_view(), listing[i as int].1));
        let mode = listing[i].1;
        match &listing[i].0 {
            None => {
                proof {
                    lemma_gather_error_stays(entries, read, i + 1, entries.len() as int);
                }
                return Err(AuditError::PathNotText);
            },
            Some(path) => {
                if is_install_script(path.as_str()) {
                    if i < texts.len() {
                        assert(read[i as int] == texts[i as int].deep_view());
                    }
                    let script: Option<&String> = if i < texts.len() {
                        texts[i].as_ref()
                    } else {
                        None
                    };
                    match script {
                        Some(text) => {
                            install_file.append(text.as_str());
                        },
                        None => {
                            proof {
                                lemma_gather_error_stays(
                                    entries,
                                    read,
                                    i + 1,
                                    entries.len() as int,
                                );
                            }
                            return Err(AuditError::Unreadable);
                        },
                    }
                }
                members.push(Member { path: path.clone(), mode });
                assert(members.deep_view() =~= before.push((path@, mode)));
            },
        }
        i += 1;
    }
    Ok(scan_members(&members, install_file))
}

/// Lists the members of an uncompressed archive, reads its install scripts
/// and sorts the members into a report.
pub fn inspect_archive(data: &[u8]) -> (r: Result<AuditReport, AuditError>)
    ensures
        report_matches(r, spec_inspect(data@)),
{
    let listing = match list_archive(data) {
        Ok(listing) => listing,
        Err(_) => {
            return Err(AuditError::Unreadable);
        },
    };
    let ghost entries = listing.deep_view();
    let mut texts: Vec<Option<String>> = Vec::new();
    let mut i: usize = 0;
    while i < listing.len()
        invariant
            i <= listing.len(),
            entries == listing.deep_view(),
            tar_listing(data@) == Some(entries),
            texts.deep_view() =~= spec_texts(entries, data@).take(i as int),
        decreases listing.len() - i,
    {
        let ghost before = texts.deep_view();
        assert(entries[i as int] == (listing[i as int].0.deep_view(), listing[i as int].1));
        let text: Option<String> = match &listing[i].0 {
            None => None,
            Some(path) => {
                if is_install_script(path.as_str()) {
                    match read_entry_text(data, i) {
                        Ok(text) => Some(text),
                        Err(_) => None,
                    }
                } else {
                    None
                }
            },
        };
        assert(text.deep_view() == spec_texts(entries, data@)[i as int]);
        texts.push(text);
        assert(texts.deep_view() =~= before.push(spec_texts(entries, data@)[i as int]));
        i += 1;
    }
    assert(spec_texts(entries, data@).take(i as int) =~= spec_texts(entries, data@));
    gather_report(&listing, &texts)
}

/// Audits the content of an archive file: the format is read off the file's
/// name, a compressed archive is decoded, and the members are classified.
pub fn tar_check(tar_file: &str, data: &[u8]) -> (r: Result<AuditReport, AuditError>)
    ensures
        report_matches(r, spec_tar_check(tar_file@, data@)),
        spec_format(tar_file@) is None ==> r == Err::<AuditReport, AuditError>(
            AuditError::UnsupportedFormat,
        ),
{
    match archive_format(tar_file) {
        Err(e) => Err(e),
        Ok(ArchiveFormat::Tar) => inspect_archive(data),
        Ok(ArchiveFormat::TarXz) => match decode_xz(data) {
            Err(_) => Err(AuditError::Unreadable),
            Ok(plain) => inspect_archive(plain.as_slice()),
        },
    }
}

/// Audits the content of an archive file for a run: an archive that cannot be
/// audited ends the run, whatever the reason.
pub fn tar_check_unwrap(tar_file: &str, data: &[u8]) -> (r: Result<AuditReport, RunEnd>)
    ensures
        match spec_tar_check(tar_file@, data@) {
            Ok(expected) => r matches Ok(report) && report.deep_view() == expected,
            Err(_) => r matches Err(end) && end == RunEnd::AuditRefused,
        },
{
    match tar_check(tar_file, data) {
        Ok(report) => Ok(report),
        Err(_) => Err(RunEnd::AuditRefused),
    }
}

} // verus!
