pub mod error;
pub mod names;
pub mod package;
pub mod package_set;
pub mod sorter;
pub mod acquire;
pub mod vessel;
pub mod verify;
pub mod init;

pub use acquire::{
    archive_root, compiler_url, download_compiler, download_package, AcquireAction,
    AcquireEvent, Acquisition, Platform, Stage, Strategy,
};
pub use error::VesselError;
pub use names::{is_valid_dirname, validate_name, validate_version};
pub use package::Package;
pub use package_set::PackageSet;
pub use verify::{check_args, is_source_file, split_args, VerifyAll};
pub use vessel::{find_dominating_manifest, CheckPlan, Manifest, Vessel};
