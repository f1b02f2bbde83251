use phelps::config::{Arguments, Commands, NotesServiceHandleError, SystemWorldCreationError};
use phelps::package::{after_download, locate_package, package_subdirectory, package_url, GetPackageError, PackageLocation};

#[test]
fn data_directory_wins_over_cache() {
    assert_eq!(locate_package(true, true), PackageLocation::Data);
    assert_eq!(locate_package(true, false), PackageLocation::Data);
    assert_eq!(locate_package(false, true), PackageLocation::Cache);
    assert_eq!(locate_package(false, false), PackageLocation::Download);
}

#[test]
fn download_must_land_in_cache() {
    assert_eq!(after_download(true), Ok(PackageLocation::Cache));
    assert_eq!(after_download(false), Err(GetPackageError::NotFound));
}

#[test]
fn package_paths_and_urls() {
    assert_eq!(package_subdirectory("preview", "cetz", "0.3.1"), "preview/cetz/0.3.1");
    assert_eq!(
        package_url("preview", "cetz", "0.3.1").as_deref(),
        Some("https://packages.typst.org/preview/cetz-0.3.1.tar.gz")
    );
    assert_eq!(package_url("local", "cetz", "0.3.1"), None);
    assert_eq!(package_url("previex", "cetz", "0.3.1"), None);
}

#[test]
fn plain_types() {
    let arguments = Arguments { command: Commands::Watch };
    assert_eq!(arguments.command, Commands::Watch);
    assert_ne!(NotesServiceHandleError::Send, NotesServiceHandleError::Receive);
    assert_eq!(SystemWorldCreationError::PathOutsideRoot, SystemWorldCreationError::PathOutsideRoot);
}
