//! Packages: their metadata, where an unpacked package is looked for, and
//! the addresses it is downloaded from.

use vstd::prelude::*;
use vstd::string::{StrSliceExecFns, StringExecFns};

verus! {

/// The registry that packages are downloaded from.
pub const DEFAULT_REGISTRY: &'static str = "https://packages.typst.org";

/// The only namespace that the registry serves.
pub const DEFAULT_NAMESPACE: &'static str = "preview";

/// One record of the registry's package index.
#[derive(Clone, Debug)]
pub struct Package {
    pub authors: Vec<String>,
    pub categories: Vec<String>,
    pub description: String,
    pub entry_point: String,
    pub exclude: Vec<String>,
    pub keywords: Vec<String>,
    pub license: String,
    pub name: String,
    pub repository: Option<String>,
    pub updated_at: u64,
    pub version: String,
}

/// A request for the registry's package index.
pub struct GetIndexRequest;

pub struct GetIndexResponse {
    pub packages: Vec<Package>,
}

/// A downloaded package archive.
pub struct GetPackageResponse<B> {
    pub buffer: B,
}

#[derive(Clone, Copy, PartialEq, Eq, Structural, Debug)]
pub enum GetPackageError {
    NotFound,
}

/// An HTTP client seen as a package service.
pub struct HttpWrapper<S>(pub S);

/// Where to take an unpacked package from.
#[derive(Clone, Copy, PartialEq, Eq, Structural, Debug)]
pub enum PackageLocation {
    /// The data directory, where packages are installed by hand.
    Data,
    /// The cache directory, where downloads are unpacked.
    Cache,
    /// Neither holds it: download it into the cache.
    Download,
}

/// The data directory wins over the cache; with neither, download.
pub fn locate_package(in_data: bool, in_cache: bool) -> (r: PackageLocation)
    ensures
        r == (if in_data {
            PackageLocation::Data
        } else if in_cache {
            PackageLocation::Cache
        } else {
            PackageLocation::Download
        }),
{
    if in_data {
        PackageLocation::Data
    } else if in_cache {
        PackageLocation::Cache
    } else {
        PackageLocation::Download
    }
}

/// After a download the package is found in the cache, or it does not exist.
pub fn after_download(in_cache: bool) -> (r: Result<PackageLocation, GetPackageError>)
    ensures
        in_cache ==> r == Ok::<PackageLocation, GetPackageError>(PackageLocation::Cache),
        !in_cache ==> r == Err::<PackageLocation, GetPackageError>(GetPackageError::NotFound),
{
    if in_cache {
        Ok(PackageLocation::Cache)
    } else {
        Err(GetPackageError::NotFound)
    }
}

/// `<namespace>/<name>/<version>`, the directory of a package below the
/// data or cache directory.
pub fn package_subdirectory(namespace: &str, name: &str, version: &str) -> (r: String)
    ensures
        r@ == namespace@ + "/"@ + name@ + "/"@ + version@,
{
    let mut r = String::from_str(namespace);
    r.append("/");
    r.append(name);
    r.append("/");
    r.append(version);
    r
}

/// The address of a package archive: `<registry>/<namespace>/<name>-<version>.tar.gz`;
/// none outside the namespace the registry serves.
pub fn package_url(namespace: &str, name: &str, version: &str) -> (r: Option<String>)
    ensures
        namespace@ == DEFAULT_NAMESPACE@ <==> r is Some,
        r is Some ==> r->Some_0@ == DEFAULT_REGISTRY@ + "/"@ + DEFAULT_NAMESPACE@ + "/"@ + name@ + "-"@
            + version@ + ".tar.gz"@,
{
    let n = namespace.unicode_len();
    let d = DEFAULT_NAMESPACE.unicode_len();
    if n != d {
        return None;
    }
    let mut k: usize = 0;
    while k < n
        invariant
            k <= n,
            n == namespace@.len(),
            d == DEFAULT_NAMESPACE@.len(),
            n == d,
            forall|j: int| 0 <= j < k ==> namespace@[j] == DEFAULT_NAMESPACE@[j],
        decreases n - k,
    {
        if namespace.get_char(k) != DEFAULT_NAMESPACE.get_char(k) {
            return None;
        }
        k += 1;
    }
    assert(namespace@ =~= DEFAULT_NAMESPACE@);
    let mut r = String::from_str(DEFAULT_REGISTRY);
    r.append("/");
    r.append(DEFAULT_NAMESPACE);
    r.append("/");
    r.append(name);
    r.append("-");
    r.append(version);
    r.append(".tar.gz");
    Some(r)
}

} // verus!
