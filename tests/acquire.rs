use std::collections::HashSet;
use vessel::{
    archive_root, compiler_url, download_compiler, download_package, AcquireAction,
    AcquireEvent, Acquisition, Package, Platform, Stage, Strategy, VesselError,
};

fn pkg(name: &str, repo: &str, version: &str) -> Package {
    Package {
        name: name.to_string(),
        repo: repo.to_string(),
        version: version.to_string(),
        dependencies: vec![],
    }
}

/// Runs an acquisition against a fake disk; `outcomes` says how each fetch
/// attempt goes, and the fetches made are counted.
fn drive(acq: &mut Acquisition, disk: &mut HashSet<String>, outcomes: &[bool], fetches: &mut usize) -> AcquireAction {
    loop {
        let action = acq.next_action();
        match &action {
            AcquireAction::Stat(slot) => {
                let present = disk.contains(slot);
                acq.advance(AcquireEvent::SlotPresent(present));
            }
            AcquireAction::Remove(slot) => {
                disk.remove(slot);
                acq.advance(AcquireEvent::SlotRemoved);
            }
            AcquireAction::Fetch(_) => {
                let ok = outcomes[*fetches];
                *fetches += 1;
                if ok {
                    disk.insert(acq.slot().to_string());
                    acq.advance(AcquireEvent::Fetched);
                } else {
                    acq.advance(AcquireEvent::FetchFailed(VesselError::Network("down".to_string())));
                }
            }
            AcquireAction::Done(_) | AcquireAction::Failed => return action,
        }
    }
}

#[test]
fn acquire_twice_fetches_once() {
    let p = pkg("base", "https://github.com/dfinity/motoko-base", "v1");
    let mut disk = HashSet::new();
    let mut fetches = 0;
    let mut first = download_package(&p, false).unwrap();
    let r1 = drive(&mut first, &mut disk, &[true, true], &mut fetches);
    assert_eq!(r1, AcquireAction::Done(".vessel/base/v1/src".to_string()));
    assert_eq!(fetches, 1);
    let mut second = download_package(&p, false).unwrap();
    let r2 = drive(&mut second, &mut disk, &[true, true], &mut fetches);
    assert_eq!(r2, AcquireAction::Done(".vessel/base/v1/src".to_string()));
    assert_eq!(fetches, 1);
}

#[test]
fn forced_acquire_removes_and_refetches() {
    let p = pkg("base", "https://gitlab.com/x/base.git", "v1");
    let mut disk = HashSet::new();
    disk.insert(".vessel/base/v1".to_string());
    let mut fetches = 0;
    let mut acq = download_package(&p, true).unwrap();
    assert_eq!(acq.next_action(), AcquireAction::Stat(".vessel/base/v1".to_string()));
    acq.advance(AcquireEvent::SlotPresent(true));
    assert_eq!(acq.next_action(), AcquireAction::Remove(".vessel/base/v1".to_string()));
    let r = drive(&mut acq, &mut disk, &[true], &mut fetches);
    assert_eq!(r, AcquireAction::Done(".vessel/base/v1/src".to_string()));
    assert_eq!(fetches, 1);
}

#[test]
fn github_packages_fall_back_to_a_clone() {
    let p = pkg("matchers", "https://github.com/kritzcreek/motoko-matchers.git", "v1.1.0");
    let acq = download_package(&p, false).unwrap();
    assert_eq!(
        acq.strategies(),
        &vec![
            Strategy::Tarball {
                url: "https://github.com/kritzcreek/motoko-matchers/archive/v1.1.0/.tar.gz".to_string()
            },
            Strategy::Clone {
                repo: "https://github.com/kritzcreek/motoko-matchers.git".to_string(),
                version: "v1.1.0".to_string()
            },
        ]
    );
    let mut acq = acq;
    let mut disk = HashSet::new();
    let mut fetches = 0;
    let r = drive(&mut acq, &mut disk, &[false, true], &mut fetches);
    assert_eq!(r, AcquireAction::Done(".vessel/matchers/v1.1.0/src".to_string()));
    assert_eq!(fetches, 2);
    assert_eq!(acq.failures().len(), 1);
}

#[test]
fn other_hosts_are_cloned_and_failures_are_kept() {
    let p = pkg("x", "git@example.com:x.git", "v2");
    let mut acq = download_package(&p, false).unwrap();
    assert_eq!(acq.strategies().len(), 1);
    let mut disk = HashSet::new();
    let mut fetches = 0;
    let r = drive(&mut acq, &mut disk, &[false], &mut fetches);
    assert_eq!(r, AcquireAction::Failed);
    assert_eq!(acq.stage(), Stage::Failed);
    assert_eq!(acq.into_error(), VesselError::Network("down".to_string()));
}

#[test]
fn bad_names_never_reach_a_path() {
    let p = pkg("../evil", "https://github.com/x/y", "v1");
    assert_eq!(
        download_package(&p, false).err(),
        Some(VesselError::Validation("../evil".to_string()))
    );
    let q = pkg("ok", "https://github.com/x/y", "-rf");
    assert_eq!(q.install_path(), Err(VesselError::Validation("-rf".to_string())));
    assert_eq!(pkg("ok", "", "1.0").install_path(), Ok(".vessel/ok/1.0/src".to_string()));
}

#[test]
fn archives_must_hold_one_directory() {
    assert!(matches!(archive_root(&vec![]), Err(VesselError::Archive(_))));
    assert!(matches!(
        archive_root(&vec![("a".to_string(), true), ("b".to_string(), true)]),
        Err(VesselError::Archive(_))
    ));
    assert!(matches!(archive_root(&vec![("a".to_string(), false)]), Err(VesselError::Archive(_))));
    assert_eq!(archive_root(&vec![("repo-v1".to_string(), true)]), Ok("repo-v1".to_string()));
}

#[test]
fn compiler_host_depends_on_semver_order() {
    let old = compiler_url("0.6.2", Some((0, 6, 2, true, true)), Platform::Linux).unwrap();
    assert_eq!(old, "https://download.dfinity.systems/motoko/0.6.2/x86_64-linux/motoko-0.6.2.tar.gz");
    let new = compiler_url("0.6.10", Some((0, 6, 10, true, true)), Platform::MacOs).unwrap();
    assert_eq!(new, "https://github.com/dfinity/motoko/releases/download/0.6.10/motoko-macos-0.6.10.tar.gz");
    assert_eq!(compiler_url("0.6.3", None, Platform::Other), Err(VesselError::UnsupportedPlatform));
    let built = compiler_url("0.6.2", Some((0, 6, 2, true, false)), Platform::Linux).unwrap();
    assert!(built.starts_with("https://github.com/"));
    let pre = compiler_url("0.6.2", Some((0, 6, 2, false, true)), Platform::Linux).unwrap();
    assert!(pre.starts_with("https://download.dfinity.systems/"));
    let unparsed = compiler_url("x", None, Platform::Linux).unwrap();
    assert!(unparsed.starts_with("https://download.dfinity.systems/"));
}

#[test]
fn download_compiler_parses_versions_with_semver() {
    let url = |v: &str| match &download_compiler(v, Platform::Linux).unwrap().strategies()[0] {
        Strategy::Binaries { url } => url.clone(),
        other => panic!("unexpected {:?}", other),
    };
    assert!(url("0.6.10").starts_with("https://github.com/"));
    assert!(url("1.0.0").starts_with("https://github.com/"));
    assert!(url("0.6.2").starts_with("https://download.dfinity.systems/"));
    assert!(url("0.6.3-beta").starts_with("https://github.com/"));
    assert!(url("0.6.2-beta").starts_with("https://download.dfinity.systems/"));
    assert!(url("0.5.99").starts_with("https://download.dfinity.systems/"));
    assert!(url("nightly").starts_with("https://download.dfinity.systems/"));
    let acq = download_compiler("0.6.2", Platform::MacOs).unwrap();
    assert_eq!(acq.slot(), ".vessel/.bin/0.6.2");
    assert!(matches!(download_compiler("../x", Platform::Other), Err(VesselError::Validation(_))));
    assert!(matches!(download_compiler("../x", Platform::Linux), Err(VesselError::Validation(_))));
}

#[test]
fn unsupported_hosts_reuse_installed_compilers() {
    let mut disk = HashSet::new();
    disk.insert(".vessel/.bin/0.6.2".to_string());
    let mut fetches = 0;
    let mut cached = download_compiler("0.6.2", Platform::Other).unwrap();
    assert!(cached.strategies().is_empty());
    let r = drive(&mut cached, &mut disk, &[], &mut fetches);
    assert_eq!(r, AcquireAction::Done(".vessel/.bin/0.6.2".to_string()));
    let mut missing = download_compiler("0.7.0", Platform::Other).unwrap();
    let r = drive(&mut missing, &mut disk, &[], &mut fetches);
    assert_eq!(r, AcquireAction::Failed);
    assert_eq!(fetches, 0);
    assert_eq!(missing.into_error(), VesselError::UnsupportedPlatform);
}
