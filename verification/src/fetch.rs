//! Acquisition of the sample data file: a logical file name is resolved to a
//! local readable path through a registry of known files, downloading and
//! caching as needed. This is collaborator plumbing around the samplers;
//! nothing of the sampling logic depends on it.

use vstd::prelude::*;

verus! {

#[verifier::external_type_specification]
#[verifier::external_body]
pub struct ExPathBuf(std::path::PathBuf);

#[verifier::external_type_specification]
#[verifier::external_body]
pub struct ExFetchData(fetch_data::FetchData);

#[verifier::external_type_specification]
#[verifier::external_body]
pub struct ExFetchDataError(fetch_data::FetchDataError);

/// Relies on fetch_data::FetchData::new: records the registry and directory
/// configuration, which may consult the environment and prepare the cache
/// directory but never the network; it never fails, deferring any problem to
/// the first fetch.
#[verifier::external_body]
fn fetch_data_new(
    registry: &str,
    url_root: &str,
    env_key: &str,
    qualifier: &str,
    organization: &str,
    application: &str,
) -> (fd: fetch_data::FetchData) {
    fetch_data::FetchData::new(registry, url_root, env_key, qualifier, organization, application)
}

/// Relies on fetch_data::FetchData::fetch_file: returns the local path of the
/// named registry file, downloading it and checking its hash first when
/// needed. The outcome depends on the cache, the disk and the network, so
/// nothing is promised of it.
#[verifier::external_body]
fn fetch_data_fetch_file(fd: &fetch_data::FetchData, name: &str) -> (r: Result<
    std::path::PathBuf,
    fetch_data::FetchDataError,
>) {
    fd.fetch_file(name)
}

/// Download a data file, or reuse a cached copy whose hash still matches:
/// resolves `path` against the registry of known sample files and hands back
/// the local path on success, or the acquisition failure.
pub fn sample_file(path: &str) -> Result<std::path::PathBuf, fetch_data::FetchDataError> {
    let fd = fetch_data_new(
        "200.txt 89c1562844d4cfa23605d3390a73a5254f6515c90700b2a8d673b56a311b8709",
        "https://www.gutenberg.org/files/200/",
        "RANDOM_LINE_DATA_DIR",
        "github.com",
        "CarlKCarlK",
        "random-line",
    );
    fetch_data_fetch_file(&fd, path)
}

} // verus!
