use vstd::prelude::*;
use crate::error::VesselError;
use crate::package::{Package, PackageView, ref_views, strings_view};

verus! {

broadcast use crate::package::group_views;

/// The pieces of `s` between single spaces, as `str::split(' ')` cuts them:
/// one more piece than there are spaces, empty pieces included.
pub open spec fn split_spaces(s: Seq<char>) -> Seq<Seq<char>>
    decreases s.len(),
{
    if s.len() == 0 {
        seq![Seq::empty()]
    } else {
        let rest = split_spaces(s.drop_last());
        if s.last() == ' ' {
            rest.push(Seq::empty())
        } else {
            rest.update(rest.len() - 1, rest.last().push(s.last()))
        }
    }
}

proof fn lemma_split_spaces_nonempty(s: Seq<char>)
    ensures
        split_spaces(s).len() >= 1,
    decreases s.len(),
{
    if s.len() > 0 {
        lemma_split_spaces_nonempty(s.drop_last());
    }
}

/// Cuts extra compiler arguments at each space.
pub fn split_args(s: &str) -> (r: Vec<String>)
    ensures
        strings_view(r@) == split_spaces(s@),
{
    let n = s.unicode_len();
    let mut done: Vec<String> = Vec::new();
    let mut cur = String::new();
    let mut i: usize = 0;
    assert(s@.take(0) =~= Seq::<char>::empty());
    while i < n
        invariant
            n == s@.len(),
            i <= n,
            strings_view(done@).push(cur@) == split_spaces(s@.take(i as int)),
        decreases n - i,
    {
        let c = s.get_char(i);
        proof {
            assert(s@.take(i + 1).drop_last() =~= s@.take(i as int));
            assert(s@.take(i + 1).last() == c);
            lemma_split_spaces_nonempty(s@.take(i as int));
        }
        if c == ' ' {
            let ghost old_done = strings_view(done@);
            let ghost old_cur = cur@;
            done.push(cur);
            cur = String::new();
            assert(strings_view(done@) == old_done.push(old_cur));
            assert(split_spaces(s@.take(i + 1)) == split_spaces(s@.take(i as int)).push(Seq::empty()));
            assert(cur@ =~= Seq::<char>::empty());
            assert(old_done.push(old_cur) == split_spaces(s@.take(i as int)));
            assert(strings_view(done@).push(cur@) == split_spaces(s@.take(i + 1)));
        } else {
            let ghost old_done = strings_view(done@);
            let ghost old_cur = cur@;
            let piece = s.substring_char(i, i + 1);
            assert(piece@ =~= seq![c]);
            cur.append(piece);
            proof {
                assert(cur@ =~= old_cur.push(c));
                let rest = split_spaces(s@.take(i as int));
                assert(rest == old_done.push(old_cur));
                assert(rest.update(rest.len() - 1, rest.last().push(c)) =~= old_done.push(old_cur.push(c)));
                assert(split_spaces(s@.take(i + 1)) == rest.update(rest.len() - 1, rest.last().push(c)));
            }
            assert(strings_view(done@).push(cur@) == split_spaces(s@.take(i + 1)));
        }
        i = i + 1;
    }
    assert(s@.take(n as int) =~= s@);
    done.push(cur);
    done
}

/// The arguments for the compiler run in check-only mode: that flag, the extra
/// arguments cut at spaces, a `--package <name> <path>` triple for each
/// dependency, then the source files.
pub open spec fn check_args_spec(
    extra: Option<Seq<char>>,
    deps: Seq<(Seq<char>, Seq<char>)>,
    sources: Seq<Seq<char>>,
) -> Seq<Seq<char>> {
    seq!["--check"@] + match extra {
        Some(e) => split_spaces(e),
        None => Seq::empty(),
    } + package_flags(deps) + sources
}

/// `--package <name> <path>` for each dependency, in order.
pub open spec fn package_flags(deps: Seq<(Seq<char>, Seq<char>)>) -> Seq<Seq<char>>
    decreases deps.len(),
{
    if deps.len() == 0 {
        Seq::empty()
    } else {
        package_flags(deps.drop_last()) + seq!["--package"@, deps.last().0, deps.last().1]
    }
}

/// Builds the compiler's command line; see `check_args_spec`.
pub fn check_args(extra: &Option<String>, deps: &Vec<(String, String)>, sources: &Vec<String>) -> (r: Vec<String>)
    ensures
        strings_view(r@) == check_args_spec(
            match extra {
                Some(e) => Some(e@),
                None => None,
            },
            deps@.map_values(|d: (String, String)| (d.0@, d.1@)),
            strings_view(sources@),
        ),
{
    let ghost dv = deps@.map_values(|d: (String, String)| (d.0@, d.1@));
    let mut out: Vec<String> = Vec::new();
    out.push("--check".to_string());
    let ghost ex = match extra {
        Some(e) => split_spaces(e@),
        None => Seq::<Seq<char>>::empty(),
    };
    match extra {
        Some(e) => {
            let pieces = split_args(e.as_str());
            let mut k: usize = 0;
            while k < pieces.len()
                invariant
                    k <= pieces@.len(),
                    strings_view(pieces@) == ex,
                    strings_view(out@) == seq!["--check"@] + ex.take(k as int),
                decreases pieces@.len() - k,
            {
                out.push(pieces[k].clone());
                assert(ex.take(k + 1) =~= ex.take(k as int).push(pieces@[k as int]@));
                k = k + 1;
            }
            assert(ex.take(k as int) =~= ex);
        },
        None => {
            assert(seq!["--check"@] + ex =~= seq!["--check"@]);
        },
    }
    let ghost base = strings_view(out@);
    let mut j: usize = 0;
    while j < deps.len()
        invariant
            j <= deps@.len(),
            dv == deps@.map_values(|d: (String, String)| (d.0@, d.1@)),
            base == seq!["--check"@] + ex,
            strings_view(out@) == base + package_flags(dv.take(j as int)),
        decreases deps@.len() - j,
    {
        out.push("--package".to_string());
        out.push(deps[j].0.clone());
        out.push(deps[j].1.clone());
        proof {
            assert(dv.take(j + 1).drop_last() =~= dv.take(j as int));
            assert(dv.take(j + 1).last() == (deps@[j as int].0@, deps@[j as int].1@));
            assert(strings_view(out@) =~= base + package_flags(dv.take(j + 1)));
        }
        j = j + 1;
    }
    assert(dv.take(j as int) =~= dv);
    let ghost mid = strings_view(out@);
    let mut k: usize = 0;
    while k < sources.len()
        invariant
            k <= sources@.len(),
            strings_view(out@) == mid + strings_view(sources@).take(k as int),
        decreases sources@.len() - k,
    {
        out.push(sources[k].clone());
        assert(strings_view(sources@).take(k + 1) =~= strings_view(sources@).take(k as int).push(sources@[k as int]@));
        k = k + 1;
    }
    assert(strings_view(sources@).take(k as int) =~= strings_view(sources@));
    assert(strings_view(out@) =~= check_args_spec(
        match extra {
            Some(e) => Some(e@),
            None => None,
        },
        dv,
        strings_view(sources@),
    ));
    out
}

/// The last component of a path.
pub open spec fn file_name(path: Seq<char>) -> Seq<char>
    decreases path.len(),
{
    if path.len() == 0 {
        path
    } else if path.last() == '/' {
        Seq::empty()
    } else {
        file_name(path.drop_last()).push(path.last())
    }
}

/// A Motoko source file: its name has a stem and the extension `mo`.
pub open spec fn is_source_spec(path: Seq<char>) -> bool {
    let n = file_name(path);
    n.len() > 3 && n.subrange(n.len() - 3, n.len() as int) == seq!['.', 'm', 'o']
}

/// Decides whether a path found in a package is one of its sources.
pub fn is_source_file(path: &str) -> (r: bool)
    ensures
        r == is_source_spec(path@),
{
    let n = path.unicode_len();
    // Where the last component starts.
    let mut start: usize = 0;
    let mut i: usize = 0;
    while i < n
        invariant
            n == path@.len(),
            i <= n,
            start <= i,
            file_name(path@.take(i as int)) == path@.subrange(start as int, i as int),
        decreases n - i,
    {
        proof {
            assert(path@.take(i + 1).drop_last() =~= path@.take(i as int));
        }
        if path.get_char(i) == '/' {
            start = i + 1;
            assert(path@.subrange(start as int, i + 1) =~= Seq::<char>::empty());
        } else {
            assert(path@.subrange(start as int, i + 1) =~= path@.subrange(start as int, i as int).push(path@[i as int]));
        }
        i = i + 1;
    }
    assert(path@.take(n as int) =~= path@);
    let len = n - start;
    if len <= 3 {
        return false;
    }
    let r = path.get_char(n - 3) == '.' && path.get_char(n - 2) == 'm' && path.get_char(n - 1) == 'o';
    proof {
        let f = path@.subrange(start as int, n as int);
        let tail = f.subrange(f.len() - 3, f.len() as int);
        assert(tail[0] == path@[n - 3]);
        assert(tail[1] == path@[n - 2]);
        assert(tail[2] == path@[n - 1]);
        if r {
            assert(tail =~= seq!['.', 'm', 'o']);
        }
    }
    r
}

/// Some direct dependency in `deps` is among `failed`.
pub open spec fn blocked(deps: Seq<Seq<char>>, failed: Seq<Seq<char>>) -> bool {
    exists|d: Seq<char>| deps.contains(d) && #[trigger] failed.contains(d)
}

/// Starting at `pos`, the packages of `order` whose direct dependencies have
/// failed are marked failed in turn; the result is the failed names and the
/// position of the first package that is not skipped.
pub open spec fn skip_blocked(order: Seq<PackageView>, failed: Seq<Seq<char>>, pos: int) -> (Seq<Seq<char>>, int)
    decreases order.len() - pos,
{
    if pos < 0 || pos >= order.len() {
        (failed, pos)
    } else if blocked(order[pos].dependencies, failed) {
        skip_blocked(order, failed.push(order[pos].name), pos + 1)
    } else {
        (failed, pos)
    }
}

/// Skipping keeps every earlier failure, marks failed each package it passes
/// over, and stops only at a package none of whose direct dependencies has
/// failed: a package with a failed dependency is never handed out for a
/// check, and a package with none is never skipped.
pub proof fn law_blocked_packages_fail_unchecked(order: Seq<PackageView>, failed: Seq<Seq<char>>, pos: int)
    requires
        0 <= pos <= order.len(),
    ensures
        ({
            let (f, p) = skip_blocked(order, failed, pos);
            &&& pos <= p <= order.len()
            &&& failed.len() <= f.len()
            &&& f.subrange(0, failed.len() as int) == failed
            &&& forall|i: int| pos <= i < p ==> f.contains(#[trigger] order[i].name)
            &&& p < order.len() ==> !blocked(order[p].dependencies, f)
            &&& !blocked(order[pos].dependencies, failed) && pos < order.len() ==> (f, p) == (failed, pos)
        }),
    decreases order.len() - pos,
{
    if pos < order.len() && blocked(order[pos].dependencies, failed) {
        let g = failed.push(order[pos].name);
        law_blocked_packages_fail_unchecked(order, g, pos + 1);
        let (f, p) = skip_blocked(order, g, pos + 1);
        assert(f.subrange(0, g.len() as int) == g);
        assert(f.subrange(0, failed.len() as int) =~= failed) by {
            assert forall|x: int| 0 <= x < failed.len() implies f.subrange(0, failed.len() as int)[x] == failed[x] by {
                assert(f.subrange(0, g.len() as int)[x] == g[x]);
            }
        }
        assert(f[failed.len() as int] == order[pos].name) by {
            assert(f.subrange(0, g.len() as int)[failed.len() as int] == g[failed.len() as int]);
        }
        assert forall|i: int| pos <= i < p implies f.contains(#[trigger] order[i].name) by {
            if i == pos {
                assert(f[failed.len() as int] == order[pos].name);
            }
        }
    }
}

/// A verification pass over a package set in build order. Each package is
/// checked unless one of its direct dependencies failed, in which case it is
/// failed without a check; failures never stop the pass.
pub struct VerifyAll<'a> {
    order: Vec<&'a Package>,
    pos: usize,
    checking: bool,
    failed: Vec<String>,
    reports: Vec<String>,
}

impl<'a> VerifyAll<'a> {
    pub closed spec fn order_spec(&self) -> Seq<PackageView> {
        ref_views(self.order@)
    }

    pub closed spec fn pos_spec(&self) -> int {
        self.pos as int
    }

    /// A package was handed out and its result is awaited.
    pub closed spec fn checking_spec(&self) -> bool {
        self.checking
    }

    pub closed spec fn failed_spec(&self) -> Seq<Seq<char>> {
        strings_view(self.failed@)
    }

    pub closed spec fn reports_spec(&self) -> Seq<Seq<char>> {
        strings_view(self.reports@)
    }

    pub open spec fn wf(&self) -> bool {
        &&& 0 <= self.pos_spec() <= self.order_spec().len()
        &&& self.checking_spec() ==> self.pos_spec() > 0
        &&& self.failed_spec().len() == self.reports_spec().len()
    }

    /// A pass over `order`, with nothing checked yet.
    pub fn new(order: Vec<&'a Package>) -> (r: VerifyAll<'a>)
        ensures
            r.wf(),
            r.order_spec() == ref_views(order@),
            r.pos_spec() == 0,
            !r.checking_spec(),
            r.failed_spec().len() == 0,
    {
        VerifyAll { order, pos: 0, checking: false, failed: Vec::new(), reports: Vec::new() }
    }

    /// Skips the packages that a failed dependency blocks, marking each
    /// failed, and hands out the next package to check, if any is left.
    pub fn next_package(&mut self) -> (r: Option<&'a Package>)
        requires
            old(self).wf(),
            !old(self).checking_spec(),
        ensures
            final(self).wf(),
            final(self).order_spec() == old(self).order_spec(),
            ({
                let (f, p) = skip_blocked(old(self).order_spec(), old(self).failed_spec(), old(self).pos_spec());
                &&& final(self).failed_spec() == f
                &&& if p < old(self).order_spec().len() {
                    &&& r matches Some(pkg) && pkg@ == old(self).order_spec()[p]
                    &&& final(self).pos_spec() == p + 1
                    &&& final(self).checking_spec()
                } else {
                    &&& r is None
                    &&& final(self).pos_spec() == p
                    &&& !final(self).checking_spec()
                }
            }),
    {
        while self.pos < self.order.len()
            invariant
                self.wf(),
                !self.checking_spec(),
                self.order_spec() == old(self).order_spec(),
                skip_blocked(self.order_spec(), self.failed_spec(), self.pos_spec()) == skip_blocked(
                    old(self).order_spec(),
                    old(self).failed_spec(),
                    old(self).pos_spec(),
                ),
            decreases self.order@.len() - self.pos,
        {
            let p = self.order[self.pos];
            assert(p@ == self.order_spec()[self.pos as int]);
            if !self.any_failed(&p.dependencies) {
                self.pos = self.pos + 1;
                self.checking = true;
                return Some(p);
            }
            let ghost before = self.failed_spec();
            self.failed.push(p.name.clone());
            self.reports.push(crate::acquire::concat3("skipped \"", p.name.as_str(), "\": a dependency failed"));
            assert(self.failed_spec() == before.push(p.name@));
            self.pos = self.pos + 1;
        }
        None
    }

    /// Whether some name in `deps` has failed.
    fn any_failed(&self, deps: &Vec<String>) -> (r: bool)
        ensures
            r == blocked(strings_view(deps@), self.failed_spec()),
    {
        let mut i: usize = 0;
        while i < deps.len()
            invariant
                i <= deps@.len(),
                forall|k: int| 0 <= k < i ==> !self.failed_spec().contains(#[trigger] strings_view(deps@)[k]),
            decreases deps@.len() - i,
        {
            let mut j: usize = 0;
            while j < self.failed.len()
                invariant
                    i < deps@.len(),
                    j <= self.failed@.len(),
                    forall|k: int| 0 <= k < j ==> #[trigger] self.failed_spec()[k] != deps@[i as int]@,
                decreases self.failed@.len() - j,
            {
                if crate::names::same_name(self.failed[j].as_str(), deps[i].as_str()) {
                    proof {
                        let d = strings_view(deps@)[i as int];
                        assert(self.failed_spec()[j as int] == d);
                        assert(strings_view(deps@).contains(d));
                        assert(self.failed_spec().contains(d));
                    }
                    return true;
                }
                j = j + 1;
            }
            proof {
                assert(!self.failed_spec().contains(strings_view(deps@)[i as int]));
            }
            i = i + 1;
        }
        proof {
            if blocked(strings_view(deps@), self.failed_spec()) {
                let d = choose|d: Seq<char>| strings_view(deps@).contains(d) && #[trigger] self.failed_spec().contains(d);
                let k = choose|k: int| 0 <= k < deps@.len() && strings_view(deps@)[k] == d;
            }
        }
        false
    }

    /// Takes in the result of checking the package last handed out; a
    /// failure is recorded with its diagnostics.
    pub fn record(&mut self, outcome: Result<(), String>)
        requires
            old(self).wf(),
            old(self).checking_spec(),
        ensures
            final(self).wf(),
            !final(self).checking_spec(),
            final(self).order_spec() == old(self).order_spec(),
            final(self).pos_spec() == old(self).pos_spec(),
            final(self).failed_spec() == match outcome {
                Ok(_) => old(self).failed_spec(),
                Err(_) => old(self).failed_spec().push(old(self).order_spec()[old(self).pos_spec() - 1].name),
            },
    {
        self.checking = false;
        match outcome {
            Ok(()) => {},
            Err(details) => {
                let p = self.order[self.pos - 1];
                assert(p@ == self.order_spec()[self.pos - 1]);
                self.failed.push(p.name.clone());
                self.reports.push(details);
            },
        }
    }

    /// The end of the pass: success when nothing failed, and otherwise an
    /// error naming every failed package in the order they failed.
    pub fn finish(&self) -> (r: Result<(), VesselError>)
        ensures
            r is Ok <==> self.failed_spec().len() == 0,
            r matches Err(e) ==> (e matches VesselError::VerificationFailed(names) && strings_view(names@)
                == self.failed_spec()),
    {
        if self.failed.len() == 0 {
            Ok(())
        } else {
            Err(VesselError::VerificationFailed(crate::package::copy_strings(&self.failed)))
        }
    }

    /// The names of the failed packages, in the order they failed.
    pub fn failed(&self) -> (r: &Vec<String>)
        ensures
            strings_view(r@) == self.failed_spec(),
    {
        &self.failed
    }

    /// The diagnostics of each failure, the most recent first.
    pub fn reports(&self) -> (r: Vec<String>)
        ensures
            strings_view(r@) == self.reports_spec().reverse(),
    {
        let mut out: Vec<String> = Vec::new();
        let mut i = self.reports.len();
        while i > 0
            invariant
                i <= self.reports@.len(),
                strings_view(out@) == self.reports_spec().subrange(i as int, self.reports@.len() as int).reverse(),
            decreases i,
        {
            i = i - 1;
            out.push(self.reports[i].clone());
            proof {
                assert(self.reports_spec().subrange(i as int, self.reports@.len() as int).reverse() =~= self.reports_spec().subrange(
                    i + 1,
                    self.reports@.len() as int,
                ).reverse().push(self.reports@[i as int]@));
            }
        }
        assert(self.reports_spec().subrange(0, self.reports@.len() as int) =~= self.reports_spec());
        out
    }
}

} // verus!
