use vstd::prelude::*;

verus! {

/// The closed set of package kinds the package manager installs.
#[derive(Clone, Copy, Debug, PartialEq, Eq, Structural)]
pub enum PkgType {
    App,
    Extension,
    Protocol,
    AddonLoader,
    System,
}

} // verus!
