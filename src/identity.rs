use vstd::prelude::*;

use crate::pkg_type::PkgType;
use crate::version::{compare_versions, SemVer, VersionView};

verus! {

/// The (kind, name, version) triple naming one installable artifact.
pub struct PackageIdentity {
    pub pkg_type: PkgType,
    pub name: String,
    pub version: SemVer,
}

pub type IdentityView = (PkgType, Seq<char>, VersionView);

impl View for PackageIdentity {
    type V = IdentityView;

    open spec fn view(&self) -> IdentityView {
        (self.pkg_type, self.name@, self.version@)
    }
}

impl PackageIdentity {
    pub open spec fn wf(&self) -> bool {
        self.version.wf()
    }

    pub fn copy(&self) -> (r: PackageIdentity)
        ensures
            r@ == self@,
            r.wf() == self.wf(),
    {
        PackageIdentity { pkg_type: self.pkg_type, name: self.name.clone(), version: self.version.copy() }
    }

    /// Two identities are equal exactly when all three parts are.
    pub fn same(&self, other: &PackageIdentity) -> (r: bool)
        requires
            self.wf(),
            other.wf(),
        ensures
            r == (self@ == other@),
    {
        self.pkg_type == other.pkg_type && self.name.eq(&other.name) && compare_versions(
            &self.version,
            &other.version,
        ) == 0
    }
}

} // verus!
