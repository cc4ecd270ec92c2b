//! Which contract, in which version, the chain's storage belongs to.
use vstd::prelude::*;

verus! {

/// The name and the version of a contract.
#[derive(Debug, PartialEq, Eq)]
pub struct ContractVersion {
    pub contract: String,
    pub version: String,
}

/// What a contract version says.
pub struct VersionView {
    pub contract: Seq<char>,
    pub version: Seq<char>,
}

impl View for ContractVersion {
    type V = VersionView;

    open spec fn view(&self) -> VersionView {
        VersionView { contract: self.contract@, version: self.version@ }
    }
}

/// The present version of the contract of that name.
pub open spec fn present_version(contract: Seq<char>) -> VersionView {
    VersionView { contract, version: "0.1.0"@ }
}

/// The present version of the contract of that name.
pub(crate) fn contract_version(contract: &str) -> (r: ContractVersion)
    ensures
        r@ == present_version(contract@),
{
    ContractVersion { contract: contract.to_owned(), version: "0.1.0".to_owned() }
}

} // verus!
