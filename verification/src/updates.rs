//! Update checks: whether a published release is newer than the running
//! build, by Semantic Versioning precedence (the `semver` crate).
use vstd::prelude::*;

verus! {

#[verifier::external_type_specification]
#[verifier::external_body]
pub struct ExSemverError(semver::Error);

/// Whether `semver::Version::parse` accepts the text.
pub uninterp spec fn semver_valid(text: Seq<char>) -> bool;

/// Whether the version parsed from `a` is greater than the one parsed from
/// `b` under `semver::Version`'s ordering.
pub uninterp spec fn semver_newer(a: Seq<char>, b: Seq<char>) -> bool;

/// Parses both texts with `semver::Version::parse` and compares them with
/// `>`.  Success is claimed to be `semver_valid` of both, the answer
/// `semver_newer`; and since `Version`'s ordering is a total order derived
/// field by field, a version is never greater than itself.  On failure the
/// error is the first parse error.
#[verifier::external_body]
fn version_greater(latest: &str, current: &str) -> (r: Result<bool, semver::Error>)
    ensures
        r is Ok <==> (semver_valid(latest@) && semver_valid(current@)),
        r matches Ok(b) ==> b == semver_newer(latest@, current@) && (latest@ == current@ ==> !b),
{
    Ok(semver::Version::parse(latest)? > semver::Version::parse(current)?)
}

/// What an update check reports.
#[derive(Clone, Debug)]
pub struct UpdateInfo {
    pub current_version: String,
    pub latest_version: String,
    pub available: bool,
    pub notes: String,
    pub download_url: Option<String>,
}

/// The report of a build that has no release feed.
pub fn update_info_without_feed(current: String) -> (r: UpdateInfo)
    ensures
        r.current_version == current,
        r.latest_version@ == current@,
        !r.available,
        r.notes@ == "This local build has no release feed configured."@,
        r.download_url is None,
{
    UpdateInfo {
        current_version: current.clone(),
        latest_version: current,
        available: false,
        notes: "This local build has no release feed configured.".to_owned(),
        download_url: None,
    }
}

/// The report for a published release: an update is available when the
/// published version is newer than the running one.  Either version failing
/// to parse is an error, with the parser's message.
pub fn update_info(current: String, latest: String, notes: String, url: Option<String>) -> (r:
    Result<UpdateInfo, String>)
    ensures
        r is Ok <==> (semver_valid(latest@) && semver_valid(current@)),
        r matches Ok(info) ==> {
            &&& info.current_version == current
            &&& info.latest_version == latest
            &&& info.available == semver_newer(latest@, current@)
            &&& info.notes == notes
            &&& info.download_url == url
        },
        latest@ == current@ ==> !(r matches Ok(info) && info.available),
{
    match version_greater(latest.as_str(), current.as_str()) {
        Ok(available) => Ok(
            UpdateInfo {
                current_version: current,
                latest_version: latest,
                available,
                notes,
                download_url: url,
            },
        ),
        Err(e) => Err(e.to_string()),
    }
}

} // verus!
