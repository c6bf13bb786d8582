//! Classification of a single archive member by its path and permission bits.

use crate::text::ends_with;
use crate::text::starts_with;
use vstd::prelude::*;

verus! {

/// Largest mode value that holds nothing but the nine `rwxrwxrwx` bits.
pub const PERMISSION_MASK: u32 = 0o777;

/// The three execute bits (owner, group, other).
pub const EXECUTE_BITS: u32 = 0o111;

/// The danger class of one archive member.
#[derive(Clone, Copy, Debug, PartialEq, Eq, Structural)]
pub struct MemberFlags {
    /// Neither a directory entry nor a hidden or metadata path.
    pub normal: bool,
    /// Normal, with at least one execute bit set.
    pub executable: bool,
    /// Setuid, setgid or sticky bits are present.
    pub privileged: bool,
}

/// A path is normal when it does not end in `/` and does not begin with `.`.
pub open spec fn spec_is_normal(path: Seq<char>) -> bool {
    &&& !(path.len() > 0 && path.last() == '/')
    &&& !(path.len() > 0 && path.first() == '.')
}

/// Some execute bit is set in `mode`.
pub open spec fn spec_has_execute_bit(mode: u32) -> bool {
    mode & EXECUTE_BITS > 0
}

/// The mode lies above the plain permission range.
pub open spec fn spec_is_privileged(mode: u32) -> bool {
    mode > PERMISSION_MASK
}

/// The flags of a member with the given path and mode.
pub open spec fn spec_flags(path: Seq<char>, mode: u32) -> MemberFlags {
    MemberFlags {
        normal: spec_is_normal(path),
        executable: spec_is_normal(path) && spec_has_execute_bit(mode),
        privileged: spec_is_privileged(mode),
    }
}

/// One entry of an archive: its logical path and its raw permission mode.
#[derive(Debug)]
pub struct Member {
    pub path: String,
    pub mode: u32,
}

impl DeepView for Member {
    type V = (Seq<char>, u32);

    open spec fn deep_view(&self) -> (Seq<char>, u32) {
        (self.path@, self.mode)
    }
}

impl Member {
    /// The member's flags.
    pub fn flags(&self) -> (r: MemberFlags)
        ensures
            r == spec_flags(self.path@, self.mode),
    {
        classify(self.path.as_str(), self.mode)
    }
}

/// Whether the path names neither a directory entry nor a hidden file.
pub fn is_normal(path: &str) -> (r: bool)
    ensures
        r == spec_is_normal(path@),
{
    proof {
        reveal_strlit("/");
        reveal_strlit(".");
        let p = path@;
        if p.len() > 0 {
            assert("/"@ =~= seq!['/']);
            assert("."@ =~= seq!['.']);
            assert(p.subrange(p.len() - 1, p.len() as int) =~= seq![p.last()]);
            assert(p.subrange(0, 1) =~= seq![p.first()]);
            assert(seq![p.last()][0] == p.last());
            assert(seq![p.first()][0] == p.first());
        }
    }
    !ends_with(path, "/") && !starts_with(path, ".")
}

/// Sorts a member into its danger class. The privileged flag looks at the
/// mode alone, whatever the path is.
pub fn classify(path: &str, mode: u32) -> (r: MemberFlags)
    ensures
        r == spec_flags(path@, mode),
        r.privileged == (mode > 0o777),
        r.executable ==> r.normal,
{
    let normal = is_normal(path);
    MemberFlags {
        normal,
        executable: normal && has_execute_bit(mode),
        privileged: is_privileged(mode),
    }
}

/// Whether the raw mode carries bits beyond `rwxrwxrwx`.
pub fn is_privileged(mode: u32) -> (r: bool)
    ensures
        r == spec_is_privileged(mode),
        r == (mode > 0o777),
{
    mode > PERMISSION_MASK
}

/// Whether any of the three execute bits is set.
pub fn has_execute_bit(mode: u32) -> (r: bool)
    ensures
        r == spec_has_execute_bit(mode),
{
    mode & EXECUTE_BITS > 0
}

/// The privileged flag depends on the mode alone: two members of one mode
/// have the same flag, whatever their paths and their other flags are.
pub proof fn law_privileged_ignores_the_path(path: Seq<char>, other: Seq<char>, mode: u32)
    ensures
        spec_flags(path, mode).privileged == spec_flags(other, mode).privileged,
        spec_flags(path, mode).privileged <==> mode > 0o777,
{
}

} // verus!
