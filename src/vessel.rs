use vstd::prelude::*;
use vstd::string::*;
use crate::acquire::{Acquisition, Platform, Stage, compiler_plan, download_compiler, download_package, package_slot, package_sources, plans_fetch};
use crate::error::VesselError;
use crate::names::valid_dirname;
use crate::package::{Package, PackageView, ref_views, strings_view, copy_strings};
use crate::package_set::{PackageSet, closure_known, lists_closure, known, reachable, deps_known, is_build_order, has_cycle};
use crate::verify::VerifyAll;

verus! {

broadcast use crate::package::group_views;

/// A project's own configuration: its direct dependencies and, optionally,
/// the compiler version it pins.
#[derive(Debug, Clone, PartialEq, Eq)]
pub struct Manifest {
    pub compiler: Option<String>,
    pub dependencies: Vec<String>,
}

/// A project: the packages it can draw on, its manifest, and how many
/// directories below the project root it was invoked.
pub struct Vessel {
    pub package_set: PackageSet,
    pub manifest: Manifest,
    /// How many parent directories are we nested underneath the project root
    pub nested: u32,
}

/// The first level, counting up from the current directory, whose
/// directory holds a project file.
pub open spec fn first_marked(markers: Seq<bool>) -> Option<int>
    decreases markers.len(),
{
    if markers.len() == 0 {
        None
    } else if markers[0] {
        Some(0)
    } else {
        match first_marked(markers.drop_first()) {
            Some(d) => Some(d + 1),
            None => None,
        }
    }
}

/// `n` copies of `../`.
pub open spec fn parents(n: nat) -> Seq<char>
    decreases n,
{
    if n == 0 {
        Seq::empty()
    } else {
        parents((n - 1) as nat) + "../"@
    }
}

/// Finds the project root: `markers[d]` tells whether the directory `d`
/// levels above the current one holds a project file. The answer is how many
/// levels up the nearest such directory is.
pub fn find_dominating_manifest(markers: &Vec<bool>) -> (r: Option<u32>)
    requires
        markers@.len() <= u32::MAX,
    ensures
        match r {
            Some(d) => first_marked(markers@) == Some(d as int),
            None => first_marked(markers@) is None,
        },
{
    let mut d: usize = 0;
    while d < markers.len()
        invariant
            d <= markers@.len(),
            markers@.len() <= u32::MAX,
            forall|k: int| 0 <= k < d ==> !markers@[k],
        decreases markers@.len() - d,
    {
        if markers[d] {
            proof {
                lemma_first_marked(markers@, d as int);
            }
            return Some(d as u32);
        }
        d = d + 1;
    }
    proof {
        lemma_first_marked(markers@, markers@.len() as int);
    }
    None
}

proof fn lemma_first_marked(m: Seq<bool>, d: int)
    requires
        0 <= d <= m.len(),
        forall|k: int| 0 <= k < d ==> !m[k],
    ensures
        d < m.len() && m[d] ==> first_marked(m) == Some(d),
        d == m.len() ==> first_marked(m) is None,
    decreases d,
{
    if d > 0 {
        let t = m.drop_first();
        assert forall|k: int| 0 <= k < d - 1 implies !t[k] by {
            assert(t[k] == m[k + 1]);
        }
        lemma_first_marked(t, d - 1);
        if d < m.len() {
            assert(t[d - 1] == m[d]);
        }
    }
}

impl Vessel {
    /// Opens a project, given whether each directory from the current one
    /// upward holds a project file, the package set, and the manifest found
    /// at the root. Without a project file anywhere up the path this is a
    /// configuration error.
    pub fn new(markers: &Vec<bool>, packages: Vec<Package>, manifest: Manifest) -> (r: Result<Vessel, VesselError>)
        requires
            markers@.len() <= u32::MAX,
        ensures
            first_marked(markers@) is None ==> r matches Err(VesselError::Config(_)),
            first_marked(markers@) matches Some(d) ==> (r matches Ok(v) && {
                &&& v.nested == d
                &&& v.package_set.wf()
                &&& crate::package_set::keeps_last_of_each_name(crate::package::views(packages@), v.package_set@)
                &&& v.manifest == manifest
            }),
    {
        match find_dominating_manifest(markers) {
            None => Err(VesselError::Config(
                "Could not find a 'vessel.dhall' or 'vessel.mo' file in this directory or a parent one.".to_string(),
            )),
            Some(nested) => {
                let ghost input = crate::package::views(packages@);
                let package_set = PackageSet::new(packages);
                let v = Vessel { package_set, manifest, nested };
                assert(crate::package_set::keeps_last_of_each_name(input, v.package_set@));
                Ok(v)
            },
        }
    }

    /// Opens a package set on its own, with an empty manifest, at the root.
    pub fn new_without_manifest(packages: Vec<Package>) -> (r: Vessel)
        ensures
            r.nested == 0,
            r.package_set.wf(),
            crate::package_set::keeps_last_of_each_name(crate::package::views(packages@), r.package_set@),
            r.manifest.compiler is None,
            r.manifest.dependencies@.len() == 0,
    {
        Vessel {
            package_set: PackageSet::new(packages),
            manifest: Manifest { compiler: None, dependencies: Vec::new() },
            nested: 0,
        }
    }

    /// A path relative to the project root, made relative to the directory
    /// the project was opened from.
    pub fn nested_path(&self, path: &str) -> (r: String)
        ensures
            r@ == parents(self.nested as nat) + path@,
    {
        let mut res = String::new();
        let mut i: u32 = 0;
        while i < self.nested
            invariant
                i <= self.nested,
                res@ == parents(i as nat),
            decreases self.nested - i,
        {
            res.append("../");
            i = i + 1;
        }
        res.append(path);
        res
    }

    /// Plans installing the compiler version the manifest pins; a manifest
    /// that pins none is a configuration error.
    pub fn install_compiler(&self, platform: Platform) -> (r: Result<Acquisition, VesselError>)
        ensures
            self.manifest.compiler is None ==> r matches Err(VesselError::Config(_)),
            self.manifest.compiler is Some && !valid_dirname(self.manifest.compiler->0@) ==> (r matches Err(
                VesselError::Validation(s),
            ) && s@ == self.manifest.compiler->0@),
            self.manifest.compiler is Some && valid_dirname(self.manifest.compiler->0@) ==> (r matches Ok(a)
                && compiler_plan(a, self.manifest.compiler->0@, platform)),
    {
        match &self.manifest.compiler {
            None => Err(VesselError::Config("No compiler version was specified in vessel.dhall".to_string())),
            Some(version) => download_compiler(version.as_str(), platform),
        }
    }

    /// Plans checking one package: fetching it and everything it depends on.
    /// A name outside the package set is an error.
    pub fn verify_package(&self, name: &str) -> (r: Result<CheckPlan, VesselError>)
        requires
            self.package_set.wf(),
        ensures
            !known(self.package_set@, name@) ==> (r matches Err(VesselError::UnknownPackage(n)) && n@ == name@),
            forall|p: PackageView|
                #![trigger self.package_set@.contains(p)]
                self.package_set@.contains(p) && p.name == name@ && valid_dirname(p.name) && valid_dirname(
                    p.version,
                ) && closure_known(self.package_set@, p.dependencies) && closure_valid(
                    self.package_set@,
                    p.dependencies,
                ) ==> r is Ok,
            r matches Ok(plan) ==> exists|p: PackageView, v: Seq<PackageView>|
                #![trigger lists_closure(self.package_set@, p.dependencies, v)]
                self.package_set@.contains(p) && p.name == name@ && installs(plan.package, p, false)
                    && lists_closure(self.package_set@, p.dependencies, v) && v.len()
                    == plan.dependencies@.len() && forall|k: int|
                    0 <= k < v.len() ==> installs(#[trigger] plan.dependencies@[k], v[k], false),
    {
        let package = match self.package_set.find(name) {
            None => {
                return Err(VesselError::UnknownPackage(name.to_string()));
            },
            Some(p) => p,
        };
        proof {
            let ps = self.package_set@;
            let k = choose|k: int| 0 <= k < ps.len() && ps[k] == package@;
            assert(ps[k].name == name@);
            assert(known(ps, name@));
        }
        proof {
            // Within the set, the name decides the package.
            assert forall|p: PackageView| #![trigger self.package_set@.contains(p)]
                self.package_set@.contains(p) && p.name == name@ implies p == package@ by {
                let ps = self.package_set@;
                let a = choose|a: int| 0 <= a < ps.len() && ps[a] == p;
                let b = choose|b: int| 0 <= b < ps.len() && ps[b] == package@;
                assert(ps[a].name == ps[b].name);
            }
        }
        let target = download_package(package, false)?;
        proof {
            assert(installs(target, package@, false));
        }
        let deps = copy_strings(&package.dependencies);
        let ghost e = strings_view(deps@);
        let plan = self.package_set.transitive_deps(deps)?;
        let mut out: Vec<Acquisition> = Vec::new();
        let mut i: usize = 0;
        while i < plan.len()
            invariant
                i <= plan@.len(),
                out@.len() == i,
                known(self.package_set@, name@),
                e == package@.dependencies,
                lists_closure(self.package_set@, e, ref_views(plan@)),
                forall|p: PackageView| #![trigger self.package_set@.contains(p)]
                    self.package_set@.contains(p) && p.name == name@ ==> p == package@,
                forall|k: int| 0 <= k < i ==> installs(#[trigger] out@[k], ref_views(plan@)[k], false),
            decreases plan@.len() - i,
        {
            let a = match download_package(plan[i], false) {
                Ok(a) => a,
                Err(err) => {
                    proof {
                        let ps = self.package_set@;
                        let v = ref_views(plan@);
                        assert(ps.contains(v[i as int]));
                        let m = choose|m: int| 0 <= m < ps.len() && ps[m] == v[i as int];
                        assert(v[i as int] == plan@[i as int]@);
                        assert(reachable(ps, e, ps[m].name));
                        assert(!closure_valid(ps, e));
                        assert(rejects(v[i as int], err));
                        assert(lists_closure(ps, e, v) && 0 <= i < v.len());
                    }
                    return Err(err);
                },
            };
            out.push(a);
            i = i + 1;
        }
        let r = CheckPlan { package: target, dependencies: out };
        assert(lists_closure(self.package_set@, package@.dependencies, ref_views(plan@)));
        Ok(r)
    }

    /// Starts a verification pass over the whole package set, in build
    /// order. A dependency outside the set, or a cycle, is an error.
    pub fn verify_all(&self) -> (r: Result<VerifyAll<'_>, VesselError>)
        requires
            self.package_set.wf(),
        ensures
            r matches Ok(run) ==> {
                &&& run.wf()
                &&& deps_known(self.package_set@)
                &&& is_build_order(self.package_set@, run.order_spec())
                &&& run.pos_spec() == 0
                &&& !run.checking_spec()
                &&& run.failed_spec().len() == 0
            },
            deps_known(self.package_set@) && !has_cycle(self.package_set@) ==> r is Ok,
            deps_known(self.package_set@) && has_cycle(self.package_set@) ==> r matches Err(VesselError::Cycle),
            !deps_known(self.package_set@) ==> r matches Err(VesselError::UnknownPackage(_)),
    {
        let order = self.package_set.topo_sorted()?;
        Ok(VerifyAll::new(order))
    }

    /// Plans installing every package the manifest needs, directly or not:
    /// one acquisition per package, in name order.
    pub fn install_packages(&self, force: bool) -> (r: Result<Vec<Acquisition>, VesselError>)
        requires
            self.package_set.wf(),
        ensures
            !closure_known(self.package_set@, strings_view(self.manifest.dependencies@)) ==> r matches Err(
                VesselError::UnknownPackage(_),
            ),
            closure_known(self.package_set@, strings_view(self.manifest.dependencies@)) && closure_valid(
                self.package_set@,
                strings_view(self.manifest.dependencies@),
            ) ==> r is Ok,
            r matches Ok(plan) ==> exists|v: Seq<PackageView>|
                lists_closure(self.package_set@, strings_view(self.manifest.dependencies@), v) && v.len()
                    == plan@.len() && forall|k: int|
                    0 <= k < v.len() ==> installs(#[trigger] plan@[k], v[k], force),
            closure_known(self.package_set@, strings_view(self.manifest.dependencies@)) && r is Err ==> exists|
                v: Seq<PackageView>,
                k: int,
            |
                #![trigger lists_closure(self.package_set@, strings_view(self.manifest.dependencies@), v), v[k]]
                lists_closure(self.package_set@, strings_view(self.manifest.dependencies@), v) && 0 <= k < v.len()
                    && (forall|i: int| 0 <= i < k ==> has_valid_path_parts(#[trigger] v[i])) && rejects(
                    v[k],
                    r->Err_0,
                ),
    {
        let deps = copy_strings(&self.manifest.dependencies);
        let ghost e = strings_view(deps@);
        let plan = self.package_set.transitive_deps(deps)?;
        let mut out: Vec<Acquisition> = Vec::new();
        let mut i: usize = 0;
        while i < plan.len()
            invariant
                i <= plan@.len(),
                out@.len() == i,
                lists_closure(self.package_set@, e, ref_views(plan@)),
                e == strings_view(self.manifest.dependencies@),
                closure_known(self.package_set@, e),
                forall|k: int| 0 <= k < i ==> installs(#[trigger] out@[k], ref_views(plan@)[k], force),
                forall|k: int| 0 <= k < i ==> has_valid_path_parts(#[trigger] ref_views(plan@)[k]),
            decreases plan@.len() - i,
        {
            let a = match download_package(plan[i], force) {
                Ok(a) => a,
                Err(err) => {
                    proof {
                        let ps = self.package_set@;
                        let v = ref_views(plan@);
                        assert(ps.contains(v[i as int]));
                        let m = choose|m: int| 0 <= m < ps.len() && ps[m] == v[i as int];
                        assert(v[i as int] == plan@[i as int]@);
                        assert(reachable(ps, e, ps[m].name));
                        assert(!closure_valid(ps, e));
                        assert(rejects(v[i as int], err));
                        assert(lists_closure(ps, e, v) && 0 <= i < v.len());
                    }
                    return Err(err);
                },
            };
            assert(has_valid_path_parts(ref_views(plan@)[i as int]));
            out.push(a);
            i = i + 1;
        }
        assert(lists_closure(self.package_set@, e, ref_views(plan@)) && ref_views(plan@).len() == out@.len());
        Ok(out)
    }
}

/// What checking one package needs: the package itself and everything it
/// depends on, directly or not, each to be fetched.
pub struct CheckPlan {
    pub package: Acquisition,
    pub dependencies: Vec<Acquisition>,
}

/// Every package reachable from `entries` has a name and a version that may
/// be used in a path.
pub open spec fn closure_valid(ps: Seq<PackageView>, entries: Seq<Seq<char>>) -> bool {
    forall|k: int|
        0 <= k < ps.len() && reachable(ps, entries, #[trigger] ps[k].name) ==> valid_dirname(ps[k].name)
            && valid_dirname(ps[k].version)
}

/// The name and the version of `p` may both be used in a path.
pub open spec fn has_valid_path_parts(p: PackageView) -> bool {
    valid_dirname(p.name) && valid_dirname(p.version)
}

/// `e` is the error that refuses `p`: about its name when that is invalid,
/// else about its version.
pub open spec fn rejects(p: PackageView, e: VesselError) -> bool {
    if !valid_dirname(p.name) {
        e matches VesselError::Validation(s) && s@ == p.name
    } else {
        !valid_dirname(p.version) && (e matches VesselError::Validation(s) && s@ == p.version)
    }
}

/// `a` fetches the package `p`, valid name and version, into its slot.
pub open spec fn installs(a: Acquisition, p: PackageView, force: bool) -> bool {
    &&& valid_dirname(p.name)
    &&& valid_dirname(p.version)
    &&& a.wf()
    &&& a.name_spec() == p.name
    &&& a.slot_spec() == package_slot(p.name, p.version)
    &&& a.path_spec() == package_sources(p.name, p.version)
    &&& a.force_spec() == force
    &&& a.stage_spec() == Stage::Check
    &&& plans_fetch(a.strategies_spec(), p.repo, p.version)
}

} // verus!
