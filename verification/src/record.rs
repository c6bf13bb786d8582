//! The metadata of one package, as far as this library reads it.

use vstd::prelude::*;

verus! {

/// What the package registry says of one target.
#[derive(Debug)]
pub struct PackageRecord {
    /// The target's name.
    pub name: String,
    /// The package-base: the recipe that builds the target.
    pub package_base: String,
    /// The version that the recipe builds.
    pub version: String,
    /// What the target needs to run.
    pub depends: Vec<String>,
    /// What the recipe needs to build.
    pub make_depends: Vec<String>,
    /// What the recipe needs to test what it built.
    pub check_depends: Vec<String>,
}

/// The mathematical content of a [`PackageRecord`].
pub struct RecordView {
    pub name: Seq<char>,
    pub package_base: Seq<char>,
    pub version: Seq<char>,
    pub depends: Seq<Seq<char>>,
    pub make_depends: Seq<Seq<char>>,
    pub check_depends: Seq<Seq<char>>,
}

impl DeepView for PackageRecord {
    type V = RecordView;

    open spec fn deep_view(&self) -> RecordView {
        RecordView {
            name: self.name@,
            package_base: self.package_base@,
            version: self.version@,
            depends: self.depends.deep_view(),
            make_depends: self.make_depends.deep_view(),
            check_depends: self.check_depends.deep_view(),
        }
    }
}

} // verus!
