//! The review of one archive: what its members add up to, and what each
//! answer of the operator leads to.

use crate::member::spec_flags;
use crate::member::Member;
use vstd::prelude::*;

verus! {

/// The three lists an audit keeps.
#[derive(Clone, Copy, Debug, PartialEq, Eq, Structural)]
pub enum Class {
    /// Every normal member.
    Normal,
    /// Normal members with an execute bit.
    Executable,
    /// Members with setuid, setgid or sticky bits, normal or not.
    Privileged,
}

/// Whether a member with this path and mode belongs to the class.
pub open spec fn in_class(class: Class, path: Seq<char>, mode: u32) -> bool {
    match class {
        Class::Normal => spec_flags(path, mode).normal,
        Class::Executable => spec_flags(path, mode).executable,
        Class::Privileged => spec_flags(path, mode).privileged,
    }
}

/// The paths of the members of one class, in archive order.
pub open spec fn paths_of(members: Seq<(Seq<char>, u32)>, class: Class) -> Seq<Seq<char>>
    decreases members.len(),
{
    if members.len() == 0 {
        Seq::empty()
    } else {
        let earlier = paths_of(members.drop_last(), class);
        let m = members.last();
        if in_class(class, m.0, m.1) {
            earlier.push(m.0)
        } else {
            earlier
        }
    }
}

/// What one pass over an archive found.
#[derive(Debug)]
pub struct AuditReport {
    /// Paths of the normal members.
    pub all_files: Vec<String>,
    /// Paths of the normal members that can be executed.
    pub executable_files: Vec<String>,
    /// Paths of the members with setuid, setgid or sticky bits.
    pub suid_files: Vec<String>,
    /// Text of the install script; empty when the archive has none.
    pub install_file: String,
}

/// The mathematical content of an [`AuditReport`].
pub struct ReportView {
    pub all_files: Seq<Seq<char>>,
    pub executable_files: Seq<Seq<char>>,
    pub suid_files: Seq<Seq<char>>,
    pub install_file: Seq<char>,
}

impl DeepView for AuditReport {
    type V = ReportView;

    open spec fn deep_view(&self) -> ReportView {
        ReportView {
            all_files: self.all_files.deep_view(),
            executable_files: self.executable_files.deep_view(),
            suid_files: self.suid_files.deep_view(),
            install_file: self.install_file@,
        }
    }
}

/// The report that the members and the install script's text amount to.
pub open spec fn spec_report(members: Seq<(Seq<char>, u32)>, install_file: Seq<char>) -> ReportView {
    ReportView {
        all_files: paths_of(members, Class::Normal),
        executable_files: paths_of(members, Class::Executable),
        suid_files: paths_of(members, Class::Privileged),
        install_file,
    }
}

/// Extending the members by one extends a class's paths by that member's
/// path, or leaves them alone.
pub proof fn lemma_paths_of_push(members: Seq<(Seq<char>, u32)>, m: (Seq<char>, u32), class: Class)
    ensures
        paths_of(members.push(m), class) == if in_class(class, m.0, m.1) {
            paths_of(members, class).push(m.0)
        } else {
            paths_of(members, class)
        },
{
    assert(members.push(m).drop_last() =~= members);
}

/// Sorts the members of an archive into the three lists of a report.
pub fn scan_members(members: &Vec<Member>, install_file: String) -> (r: AuditReport)
    ensures
        r.deep_view() == spec_report(members.deep_view(), install_file@),
{
    let mut all_files: Vec<String> = Vec::new();
    let mut executable_files: Vec<String> = Vec::new();
    let mut suid_files: Vec<String> = Vec::new();
    let ghost ms = members.deep_view();
    let mut i: usize = 0;
    while i < members.len()
        invariant
            i <= members.len(),
            ms == members.deep_view(),
            all_files.deep_view() == paths_of(ms.take(i as int), Class::Normal),
            executable_files.deep_view() == paths_of(ms.take(i as int), Class::Executable),
            suid_files.deep_view() == paths_of(ms.take(i as int), Class::Privileged),
        decreases members.len() - i,
    {
        let member = &members[i];
        let flags = member.flags();
        proof {
            let m = ms[i as int];
            assert(m == (member.path@, member.mode));
            assert(ms.take(i + 1) =~= ms.take(i as int).push(m));
            lemma_paths_of_push(ms.take(i as int), m, Class::Normal);
            lemma_paths_of_push(ms.take(i as int), m, Class::Executable);
            lemma_paths_of_push(ms.take(i as int), m, Class::Privileged);
        }
        if flags.normal {
            let ghost before = all_files.deep_view();
            all_files.push(member.path.clone());
            assert(all_files.deep_view() =~= before.push(member.path@));
        }
        if flags.executable {
            let ghost before = executable_files.deep_view();
            executable_files.push(member.path.clone());
            assert(executable_files.deep_view() =~= before.push(member.path@));
        }
        if flags.privileged {
            let ghost before = suid_files.deep_view();
            suid_files.push(member.path.clone());
            assert(suid_files.deep_view() =~= before.push(member.path@));
        }
        i += 1;
    }
    assert(ms.take(i as int) =~= ms);
    AuditReport { all_files, executable_files, suid_files, install_file }
}

} // verus!
