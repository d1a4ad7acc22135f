//! Version requirements and versions, as the `semver` crate reads and
//! compares them.
//!
//! Both types are carried through as they are.  What a requirement text
//! parses to, and which versions a requirement admits, is `semver`'s to
//! say; the two functions below hand its answers on under a name, and
//! nothing here is proved of them.

use semver::{Version, VersionReq};
use vstd::prelude::*;

verus! {

/// `semver::VersionReq`, a parsed version requirement.
#[verifier::external_type_specification]
#[verifier::external_body]
pub struct ExVersionReq(VersionReq);

/// `semver::Version`, a parsed version.
#[verifier::external_type_specification]
#[verifier::external_body]
pub struct ExVersion(Version);

/// What `VersionReq::parse` makes of a text: the requirement that the text
/// states, or nothing for a text that states none.
pub uninterp spec fn parsed_requirement(text: Seq<char>) -> Option<VersionReq>;

/// Whether `VersionReq::matches` finds that the requirement admits the
/// version.
pub uninterp spec fn requirement_admits(requirement: VersionReq, version: Version) -> bool;

/// Calls `VersionReq::parse`, which reads a requirement such as `>=1.2, <2`
/// from `text` and fails on a text that is none; the failure's detail is
/// dropped.  The result depends on the text alone.
#[verifier::external_body]
pub(crate) fn parse_requirement(text: &str) -> (requirement: Option<VersionReq>)
    ensures
        requirement == parsed_requirement(text@),
{
    VersionReq::parse(text).ok()
}

/// Calls `VersionReq::matches`, which compares the version with each
/// comparator of the requirement.  The result depends on the two values
/// alone.
#[verifier::external_body]
pub(crate) fn admits(requirement: &VersionReq, version: &Version) -> (admitted: bool)
    ensures
        admitted == requirement_admits(*requirement, *version),
{
    requirement.matches(version)
}

} // verus!
