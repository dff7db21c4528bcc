use vstd::prelude::*;
use vstd::string::*;
use crate::error::VesselError;
use crate::names::{valid_dirname, validate_name, validate_version};
use crate::package::Package;

verus! {

/// `p` begins `s`.
pub open spec fn has_prefix(s: Seq<char>, p: Seq<char>) -> bool {
    s.len() >= p.len() && s.subrange(0, p.len() as int) == p
}

/// `s` with every trailing `.git` taken off.
pub open spec fn trim_git(s: Seq<char>) -> Seq<char>
    decreases s.len(),
{
    if s.len() >= 4 && s.subrange(s.len() - 4, s.len() as int) == seq!['.', 'g', 'i', 't'] {
        trim_git(s.subrange(0, s.len() - 4))
    } else {
        s
    }
}

/// Decides whether `s` begins with `p`.
pub fn starts_with(s: &str, p: &str) -> (r: bool)
    ensures
        r == has_prefix(s@, p@),
{
    let ns = s.unicode_len();
    let np = p.unicode_len();
    if ns < np {
        return false;
    }
    let mut i: usize = 0;
    while i < np
        invariant
            ns == s@.len(),
            np == p@.len(),
            np <= ns,
            i <= np,
            forall|j: int| 0 <= j < i ==> s@[j] == p@[j],
        decreases np - i,
    {
        if s.get_char(i) != p.get_char(i) {
            assert(s@.subrange(0, np as int)[i as int] != p@[i as int]);
            return false;
        }
        i = i + 1;
    }
    assert(s@.subrange(0, np as int) =~= p@);
    true
}

/// A repository location with every trailing `.git` taken off.
pub fn trim_git_suffix(repo: &str) -> (r: String)
    ensures
        r@ == trim_git(repo@),
{
    let mut end = repo.unicode_len();
    assert(repo@.subrange(0, end as int) =~= repo@);
    while end >= 4 && repo.get_char(end - 4) == '.' && repo.get_char(end - 3) == 'g' && repo.get_char(
        end - 2,
    ) == 'i' && repo.get_char(end - 1) == 't'
        invariant
            end <= repo@.len(),
            trim_git(repo@) == trim_git(repo@.subrange(0, end as int)),
        decreases end,
    {
        proof {
            let t = repo@.subrange(0, end as int);
            assert(t.subrange(t.len() - 4, t.len() as int) =~= seq!['.', 'g', 'i', 't']);
            assert(t.subrange(0, t.len() - 4) =~= repo@.subrange(0, end - 4));
        }
        end = end - 4;
    }
    proof {
        let t = repo@.subrange(0, end as int);
        if t.len() >= 4 && t.subrange(t.len() - 4, t.len() as int) == seq!['.', 'g', 'i', 't'] {
            assert(t.subrange(t.len() - 4, t.len() as int)[0] == repo@[end - 4]);
            assert(t.subrange(t.len() - 4, t.len() as int)[1] == repo@[end - 3]);
            assert(t.subrange(t.len() - 4, t.len() as int)[2] == repo@[end - 2]);
            assert(t.subrange(t.len() - 4, t.len() as int)[3] == repo@[end - 1]);
        }
    }
    repo.substring_char(0, end).to_string()
}

/// The concatenation of three strings.
pub fn concat3(a: &str, b: &str, c: &str) -> (r: String)
    ensures
        r@ == a@ + b@ + c@,
{
    let mut s = a.to_string();
    s.append(b);
    s.append(c);
    s
}

/// One way of filling a cache slot.
#[derive(Debug, Clone, PartialEq, Eq)]
pub enum Strategy {
    /// Download a source archive and move its single top-level directory
    /// into the slot.
    Tarball { url: String },
    /// Clone the repository and check out the tag, detached.
    Clone { repo: String, version: String },
    /// Download a binary archive and move all of it into the slot.
    Binaries { url: String },
}

/// Where an acquisition stands.
#[derive(Debug, Clone, Copy, PartialEq, Eq, Structural)]
pub enum Stage {
    /// The slot has not been looked at yet.
    Check,
    /// A forced refresh: the old slot must go first.
    Remove,
    /// The strategy at this index is being tried.
    Fetch(usize),
    /// The slot is filled.
    Ready,
    /// Every strategy failed.
    Failed,
}

/// What the caller reports back after doing what an acquisition asked for.
#[derive(Debug, Clone, PartialEq, Eq)]
pub enum AcquireEvent {
    /// Whether the slot exists.
    SlotPresent(bool),
    /// The old slot was removed.
    SlotRemoved,
    /// The current strategy filled the slot.
    Fetched,
    /// The current strategy failed, for this reason.
    FetchFailed(VesselError),
}

/// What an acquisition asks the caller to do next.
#[derive(Debug, Clone, PartialEq, Eq)]
pub enum AcquireAction {
    /// Tell whether this directory exists.
    Stat(String),
    /// Remove this directory and all it holds.
    Remove(String),
    /// Try the strategy at this index, staging privately and renaming into
    /// the slot only when everything succeeded.
    Fetch(usize),
    /// The slot is filled; this is the path to hand out.
    Done(String),
    /// Nothing worked; the reasons are kept.
    Failed,
}

/// The decisions of fetching one package or compiler into its cache slot:
/// reuse a filled slot, clear it when a refresh is forced, and try the
/// strategies in order until one succeeds.
pub struct Acquisition {
    name: String,
    slot: String,
    path: String,
    force: bool,
    strategies: Vec<Strategy>,
    stage: Stage,
    failures: Vec<VesselError>,
}

/// The stage after `ev` arrives at `stage`, with `count` strategies.
pub open spec fn next_stage(stage: Stage, force: bool, count: nat, ev: AcquireEvent) -> Stage {
    match (stage, ev) {
        (Stage::Check, AcquireEvent::SlotPresent(true)) => if force {
            Stage::Remove
        } else {
            Stage::Ready
        },
        (Stage::Check, AcquireEvent::SlotPresent(false)) => if count > 0 {
            Stage::Fetch(0)
        } else {
            Stage::Failed
        },
        (Stage::Remove, AcquireEvent::SlotRemoved) => if count > 0 {
            Stage::Fetch(0)
        } else {
            Stage::Failed
        },
        (Stage::Fetch(_), AcquireEvent::Fetched) => Stage::Ready,
        (Stage::Fetch(i), AcquireEvent::FetchFailed(_)) => if i + 1 < count {
            Stage::Fetch((i + 1) as usize)
        } else {
            Stage::Failed
        },
        _ => stage,
    }
}

impl Acquisition {
    pub closed spec fn name_spec(&self) -> Seq<char> {
        self.name@
    }

    pub closed spec fn slot_spec(&self) -> Seq<char> {
        self.slot@
    }

    pub closed spec fn path_spec(&self) -> Seq<char> {
        self.path@
    }

    pub closed spec fn force_spec(&self) -> bool {
        self.force
    }

    pub closed spec fn strategies_spec(&self) -> Seq<Strategy> {
        self.strategies@
    }

    pub closed spec fn stage_spec(&self) -> Stage {
        self.stage
    }

    pub closed spec fn failures_spec(&self) -> Seq<VesselError> {
        self.failures@
    }

    /// The stage is one that the strategies allow.
    pub open spec fn wf(&self) -> bool {
        match self.stage_spec() {
            Stage::Fetch(i) => i < self.strategies_spec().len(),
            _ => true,
        }
    }

    /// A fresh acquisition that has not looked at its slot yet.
    pub fn start(name: String, slot: String, path: String, force: bool, strategies: Vec<Strategy>) -> (r: Acquisition)
        ensures
            r.wf(),
            r.name_spec() == name@,
            r.slot_spec() == slot@,
            r.path_spec() == path@,
            r.force_spec() == force,
            r.strategies_spec() == strategies@,
            r.stage_spec() == Stage::Check,
            r.failures_spec().len() == 0,
    {
        Acquisition { name, slot, path, force, strategies, stage: Stage::Check, failures: Vec::new() }
    }

    /// The name of what is acquired.
    pub fn name(&self) -> (r: &str)
        ensures
            r@ == self.name_spec(),
    {
        self.name.as_str()
    }

    /// An acquisition that can only reuse a filled slot: with nothing to
    /// fetch with, a missing slot fails for `reason`.
    pub fn unavailable(name: String, slot: String, path: String, reason: VesselError) -> (r: Acquisition)
        ensures
            r.wf(),
            r.name_spec() == name@,
            r.slot_spec() == slot@,
            r.path_spec() == path@,
            !r.force_spec(),
            r.strategies_spec().len() == 0,
            r.stage_spec() == Stage::Check,
            r.failures_spec() == seq![reason],
    {
        let mut failures: Vec<VesselError> = Vec::new();
        failures.push(reason);
        Acquisition { name, slot, path, force: false, strategies: Vec::new(), stage: Stage::Check, failures }
    }

    /// The cache slot this acquisition fills.
    pub fn slot(&self) -> (r: &str)
        ensures
            r@ == self.slot_spec(),
    {
        self.slot.as_str()
    }

    /// The strategies, in the order they are tried.
    pub fn strategies(&self) -> (r: &Vec<Strategy>)
        ensures
            r@ == self.strategies_spec(),
    {
        &self.strategies
    }

    /// Where the acquisition stands.
    pub fn stage(&self) -> (r: Stage)
        ensures
            r == self.stage_spec(),
    {
        self.stage
    }

    /// The reasons the strategies tried so far failed, oldest first.
    pub fn failures(&self) -> (r: &Vec<VesselError>)
        ensures
            r@ == self.failures_spec(),
    {
        &self.failures
    }

    /// What the caller must do next.
    pub fn next_action(&self) -> (r: AcquireAction)
        requires
            self.wf(),
        ensures
            match self.stage_spec() {
                Stage::Check => r matches AcquireAction::Stat(s) && s@ == self.slot_spec(),
                Stage::Remove => r matches AcquireAction::Remove(s) && s@ == self.slot_spec(),
                Stage::Fetch(i) => r == AcquireAction::Fetch(i),
                Stage::Ready => r matches AcquireAction::Done(s) && s@ == self.path_spec(),
                Stage::Failed => r == AcquireAction::Failed,
            },
    {
        match self.stage {
            Stage::Check => AcquireAction::Stat(self.slot.clone()),
            Stage::Remove => AcquireAction::Remove(self.slot.clone()),
            Stage::Fetch(i) => AcquireAction::Fetch(i),
            Stage::Ready => AcquireAction::Done(self.path.clone()),
            Stage::Failed => AcquireAction::Failed,
        }
    }

    /// Takes in what happened. An event that does not answer the current
    /// stage leaves the acquisition as it is.
    pub fn advance(&mut self, ev: AcquireEvent)
        requires
            old(self).wf(),
        ensures
            final(self).wf(),
            final(self).stage_spec() == next_stage(
                old(self).stage_spec(),
                old(self).force_spec(),
                old(self).strategies_spec().len(),
                ev,
            ),
            final(self).failures_spec() == match (old(self).stage_spec(), ev) {
                (Stage::Fetch(_), AcquireEvent::FetchFailed(e)) => old(self).failures_spec().push(e),
                _ => old(self).failures_spec(),
            },
            final(self).name_spec() == old(self).name_spec(),
            final(self).slot_spec() == old(self).slot_spec(),
            final(self).path_spec() == old(self).path_spec(),
            final(self).force_spec() == old(self).force_spec(),
            final(self).strategies_spec() == old(self).strategies_spec(),
    {
        let count = self.strategies.len();
        match (self.stage, ev) {
            (Stage::Check, AcquireEvent::SlotPresent(present)) => {
                if present {
                    self.stage = if self.force {
                        Stage::Remove
                    } else {
                        Stage::Ready
                    };
                } else {
                    self.stage = if count > 0 {
                        Stage::Fetch(0)
                    } else {
                        Stage::Failed
                    };
                }
            },
            (Stage::Remove, AcquireEvent::SlotRemoved) => {
                self.stage = if count > 0 {
                    Stage::Fetch(0)
                } else {
                    Stage::Failed
                };
            },
            (Stage::Fetch(_), AcquireEvent::Fetched) => {
                self.stage = Stage::Ready;
            },
            (Stage::Fetch(i), AcquireEvent::FetchFailed(e)) => {
                self.failures.push(e);
                self.stage = if i + 1 < count {
                    Stage::Fetch(i + 1)
                } else {
                    Stage::Failed
                };
            },
            _ => {},
        }
    }

    /// The reason an acquisition failed: the last strategy's.
    pub fn into_error(self) -> (r: VesselError)
        requires
            self.failures_spec().len() > 0,
        ensures
            r == self.failures_spec().last(),
    {
        let mut failures = self.failures;
        failures.pop().unwrap()
    }
}

/// The cache slot of a package: `.vessel/<name>/<version>`.
pub open spec fn package_slot(name: Seq<char>, version: Seq<char>) -> Seq<char> {
    ".vessel/"@ + name + "/"@ + version
}

/// Where a package's sources lie inside its slot.
pub open spec fn package_sources(name: Seq<char>, version: Seq<char>) -> Seq<char> {
    package_slot(name, version) + "/src"@
}

/// The address of the source archive of `repo` at `version`.
pub open spec fn tarball_url(repo: Seq<char>, version: Seq<char>) -> Seq<char> {
    trim_git(repo) + "/archive/"@ + version + "/.tar.gz"@
}

/// `st` is the list of strategies for a package at `repo` and `version`:
/// for a repository hosted on GitHub the source archive first, then a clone;
/// for any other, a clone alone.
pub open spec fn plans_fetch(st: Seq<Strategy>, repo: Seq<char>, version: Seq<char>) -> bool {
    let clone_ok = |s: Strategy| s matches Strategy::Clone { repo: r, version: v } && r@ == repo && v@ == version;
    if has_prefix(repo, "https://github.com"@) {
        &&& st.len() == 2
        &&& st[0] matches Strategy::Tarball { url } && url@ == tarball_url(repo, version)
        &&& clone_ok(st[1])
    } else {
        &&& st.len() == 1
        &&& clone_ok(st[0])
    }
}

impl Package {
    /// The location of a package's sources in the cache, after checking its name
    /// and version.
    pub fn install_path(&self) -> (r: Result<String, VesselError>)
        ensures
            !valid_dirname(self.name@) ==> (r matches Err(VesselError::Validation(s)) && s@ == self.name@),
            valid_dirname(self.name@) && !valid_dirname(self.version@) ==> (r matches Err(
                VesselError::Validation(s),
            ) && s@ == self.version@),
            valid_dirname(self.name@) && valid_dirname(self.version@) ==> (r matches Ok(p) && p@
                == package_sources(self.name@, self.version@)),
    {
        let name = validate_name(self.name.as_str())?;
        let version = validate_version(self.version.as_str())?;
        let mut p = concat3(".vessel/", name, "/");
        p.append(version);
        p.append("/src");
        Ok(p)
    }
}

/// Plans fetching a package into its cache slot: a filled slot is reused
/// unless `force` is set; a GitHub repository is tried as a source archive
/// first and cloned when that fails; any other repository is cloned.
pub fn download_package(package: &Package, force: bool) -> (r: Result<Acquisition, VesselError>)
    ensures
        !valid_dirname(package.name@) ==> (r matches Err(VesselError::Validation(s)) && s@ == package.name@),
        valid_dirname(package.name@) && !valid_dirname(package.version@) ==> (r matches Err(
            VesselError::Validation(s),
        ) && s@ == package.version@),
        valid_dirname(package.name@) && valid_dirname(package.version@) ==> (r matches Ok(a) && {
            &&& a.wf()
            &&& a.name_spec() == package.name@
            &&& a.slot_spec() == package_slot(package.name@, package.version@)
            &&& a.path_spec() == package_sources(package.name@, package.version@)
            &&& a.force_spec() == force
            &&& a.stage_spec() == Stage::Check
            &&& a.failures_spec().len() == 0
            &&& plans_fetch(a.strategies_spec(), package.repo@, package.version@)
        }),
{
    let name = validate_name(package.name.as_str())?;
    let version = validate_version(package.version.as_str())?;
    let mut slot = concat3(".vessel/", name, "/");
    slot.append(version);
    let mut path = slot.clone();
    path.append("/src");
    let repo = package.repo.as_str();
    let mut strategies: Vec<Strategy> = Vec::new();
    if starts_with(repo, "https://github.com") {
        let mut url = trim_git_suffix(repo);
        url.append("/archive/");
        url.append(version);
        url.append("/.tar.gz");
        strategies.push(Strategy::Tarball { url });
    }
    strategies.push(Strategy::Clone { repo: repo.to_string(), version: version.to_string() });
    Ok(Acquisition::start(name.to_string(), slot, path, force, strategies))
}

/// The hosts the compiler can be installed on.
#[derive(Debug, Clone, Copy, PartialEq, Eq, Structural)]
pub enum Platform {
    Linux,
    MacOs,
    Other,
}

/// What `semver::Version::parse` makes of a string: major, minor and patch,
/// and whether the pre-release and the build metadata are empty.
pub uninterp spec fn semver_parts(s: Seq<char>) -> Option<(u64, u64, u64, bool, bool)>;

/// Relies on `semver::Version::parse`, reading the parsed version's numbers
/// and whether its pre-release and build metadata are empty.
#[verifier::external_body]
fn parse_semver(s: &str) -> (r: Option<(u64, u64, u64, bool, bool)>)
    ensures
        r == semver_parts(s@),
{
    match semver::Version::parse(s) {
        Ok(v) => Some((v.major, v.minor, v.patch, v.pre.is_empty(), v.build.is_empty())),
        Err(_) => None,
    }
}

/// A parsed version orders above `0.6.2` in semver's order: its numbers are
/// greater, or they are equal, it is no pre-release, and it carries build
/// metadata. A string that does not parse is not above.
pub open spec fn after_threshold(p: Option<(u64, u64, u64, bool, bool)>) -> bool {
    match p {
        None => false,
        Some((major, minor, patch, no_pre, no_build)) => major > 0 || (major == 0 && minor > 6) || (major
            == 0 && minor == 6 && patch > 2) || (major == 0 && minor == 6 && patch == 2 && no_pre
            && !no_build),
    }
}

/// Decides `after_threshold`.
pub fn released_after_threshold(p: Option<(u64, u64, u64, bool, bool)>) -> (r: bool)
    ensures
        r == after_threshold(p),
{
    match p {
        None => false,
        Some((major, minor, patch, no_pre, no_build)) => major > 0 || (major == 0 && minor > 6) || (major
            == 0 && minor == 6 && patch > 2) || (major == 0 && minor == 6 && patch == 2 && no_pre
            && !no_build),
    }
}

/// The address the compiler's binaries are downloaded from: the release
/// page for versions above the threshold, the older distribution host for
/// the rest.
pub open spec fn compiler_url_spec(version: Seq<char>, newer: bool, platform: Platform) -> Seq<char> {
    if newer {
        "https://github.com/dfinity/motoko/releases/download/"@ + version + "/motoko-"@ + (if platform
            == Platform::Linux {
            "linux64"@
        } else {
            "macos"@
        }) + "-"@ + version + ".tar.gz"@
    } else {
        "https://download.dfinity.systems/motoko/"@ + version + "/"@ + (if platform == Platform::Linux {
            "x86_64-linux"@
        } else {
            "x86_64-darwin"@
        }) + "/motoko-"@ + version + ".tar.gz"@
    }
}

/// The compiler's download address, given what `semver` parsed of the
/// version; an unsupported host is an error.
pub fn compiler_url(version: &str, parsed: Option<(u64, u64, u64, bool, bool)>, platform: Platform) -> (r:
    Result<String, VesselError>)
    ensures
        platform == Platform::Other ==> r == Err::<String, VesselError>(VesselError::UnsupportedPlatform),
        platform != Platform::Other ==> (r matches Ok(u) && u@ == compiler_url_spec(
            version@,
            after_threshold(parsed),
            platform,
        )),
{
    let (triple, short) = match platform {
        Platform::Linux => ("x86_64-linux", "linux64"),
        Platform::MacOs => ("x86_64-darwin", "macos"),
        Platform::Other => {
            return Err(VesselError::UnsupportedPlatform);
        },
    };
    if released_after_threshold(parsed) {
        let mut u = concat3("https://github.com/dfinity/motoko/releases/download/", version, "/motoko-");
        u.append(short);
        u.append("-");
        u.append(version);
        u.append(".tar.gz");
        Ok(u)
    } else {
        let mut u = concat3("https://download.dfinity.systems/motoko/", version, "/");
        u.append(triple);
        u.append("/motoko-");
        u.append(version);
        u.append(".tar.gz");
        Ok(u)
    }
}

/// `a` installs the compiler binaries of `version` into
/// `.vessel/.bin/<version>`, reusing them when they are there. On a host with
/// no binaries to download it has nothing to fetch with, and a missing slot
/// fails as unsupported.
pub open spec fn compiler_plan(a: Acquisition, version: Seq<char>, platform: Platform) -> bool {
    &&& a.wf()
    &&& a.name_spec() == version
    &&& a.slot_spec() == ".vessel/.bin/"@ + version
    &&& a.path_spec() == a.slot_spec()
    &&& !a.force_spec()
    &&& a.stage_spec() == Stage::Check
    &&& if platform == Platform::Other {
        &&& a.strategies_spec().len() == 0
        &&& a.failures_spec() == seq![VesselError::UnsupportedPlatform]
    } else {
        &&& a.failures_spec().len() == 0
        &&& a.strategies_spec().len() == 1
        &&& a.strategies_spec()[0] matches Strategy::Binaries { url } && url@ == compiler_url_spec(
            version,
            after_threshold(semver_parts(version)),
            platform,
        )
    }
}

/// Plans installing the compiler binaries of `version` into
/// `.vessel/.bin/<version>`; see `compiler_plan`.
pub fn download_compiler(version: &str, platform: Platform) -> (r: Result<Acquisition, VesselError>)
    ensures
        !valid_dirname(version@) ==> (r matches Err(VesselError::Validation(s)) && s@ == version@),
        valid_dirname(version@) ==> (r matches Ok(a) && compiler_plan(a, version@, platform)),
{
    let version = validate_version(version)?;
    let mut slot = ".vessel/.bin/".to_string();
    slot.append(version);
    let path = slot.clone();
    match compiler_url(version, parse_semver(version), platform) {
        Ok(url) => {
            let mut strategies: Vec<Strategy> = Vec::new();
            strategies.push(Strategy::Binaries { url });
            Ok(Acquisition::start(version.to_string(), slot, path, false, strategies))
        },
        Err(reason) => Ok(Acquisition::unavailable(version.to_string(), slot, path, reason)),
    }
}

/// On a host without downloadable binaries, a compiler already in its slot
/// is still used, and only a missing one fails.
pub proof fn law_unsupported_host_reuses_the_slot()
    ensures
        next_stage(Stage::Check, false, 0, AcquireEvent::SlotPresent(true)) == Stage::Ready,
        next_stage(Stage::Check, false, 0, AcquireEvent::SlotPresent(false)) == Stage::Failed,
{
}

/// Picks the directory a source archive unpacked to. `entries` lists what
/// the archive's top level holds, each with whether it is a directory; it
/// must hold exactly one entry, and that one a directory.
pub fn archive_root(entries: &Vec<(String, bool)>) -> (r: Result<String, VesselError>)
    ensures
        r is Ok <==> entries@.len() == 1 && entries@[0].1,
        r matches Ok(s) ==> s@ == entries@[0].0@,
        r is Err ==> r->Err_0 is Archive,
{
    if entries.len() == 0 {
        return Err(VesselError::Archive("the archive is empty".to_string()));
    }
    if entries.len() > 1 {
        return Err(VesselError::Archive("the archive holds more than one top-level entry".to_string()));
    }
    if !entries[0].1 {
        return Err(VesselError::Archive("the archive's top-level entry is not a directory".to_string()));
    }
    Ok(entries[0].0.clone())
}

/// A filled slot is used as it is, without fetching, unless a refresh is
/// forced; then it is removed and fetched again with the first strategy.
pub proof fn law_filled_slot_is_reused(force: bool, count: nat)
    ensures
        !force ==> next_stage(Stage::Check, force, count, AcquireEvent::SlotPresent(true)) == Stage::Ready,
        force ==> next_stage(Stage::Check, force, count, AcquireEvent::SlotPresent(true)) == Stage::Remove,
        count > 0 ==> next_stage(Stage::Remove, force, count, AcquireEvent::SlotRemoved) == Stage::Fetch(0),
{
}

} // verus!
