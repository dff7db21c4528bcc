use vstd::prelude::*;

verus! {

/// What a package is, as plain values.
pub struct PackageView {
    pub name: Seq<char>,
    pub repo: Seq<char>,
    pub version: Seq<char>,
    pub dependencies: Seq<Seq<char>>,
}

/// One entry of a package set: where to get a package, at which tag, and
/// which packages it needs directly.
#[derive(Debug, Clone, PartialEq, Eq)]
pub struct Package {
    pub name: String,
    pub repo: String,
    pub version: String,
    pub dependencies: Vec<String>,
}

impl View for Package {
    type V = PackageView;

    open spec fn view(&self) -> PackageView {
        PackageView {
            name: self.name@,
            repo: self.repo@,
            version: self.version@,
            dependencies: strings_view(self.dependencies@),
        }
    }
}

/// The character sequences of a sequence of strings.
pub closed spec fn strings_view(v: Seq<String>) -> Seq<Seq<char>> {
    v.map_values(|s: String| s@)
}

pub broadcast proof fn lemma_strings_view_len(v: Seq<String>)
    ensures
        #[trigger] strings_view(v).len() == v.len(),
{
}

pub broadcast proof fn lemma_strings_view_index(v: Seq<String>, i: int)
    requires
        0 <= i < v.len(),
    ensures
        #[trigger] strings_view(v)[i] == v[i]@,
{
}

pub broadcast proof fn lemma_strings_view_push(v: Seq<String>, s: String)
    ensures
        #[trigger] strings_view(v.push(s)) == strings_view(v).push(s@),
{
    assert(strings_view(v.push(s)) =~= strings_view(v).push(s@));
}

pub broadcast proof fn lemma_strings_view_drop_last(v: Seq<String>)
    requires
        v.len() > 0,
    ensures
        #[trigger] strings_view(v.drop_last()) == strings_view(v).drop_last(),
{
    assert(strings_view(v.drop_last()) =~= strings_view(v).drop_last());
}

/// The views of a sequence of package references.
pub closed spec fn ref_views(ps: Seq<&Package>) -> Seq<PackageView> {
    ps.map_values(|p: &Package| p@)
}

pub broadcast proof fn lemma_ref_views_len(ps: Seq<&Package>)
    ensures
        #[trigger] ref_views(ps).len() == ps.len(),
{
}

pub broadcast proof fn lemma_ref_views_index(ps: Seq<&Package>, i: int)
    requires
        0 <= i < ps.len(),
    ensures
        #[trigger] ref_views(ps)[i] == ps[i]@,
{
}

pub broadcast proof fn lemma_ref_views_push(ps: Seq<&Package>, p: &Package)
    ensures
        #[trigger] ref_views(ps.push(p)) == ref_views(ps).push(p@),
{
    assert(ref_views(ps.push(p)) =~= ref_views(ps).push(p@));
}

/// A copy of a list of strings.
pub fn copy_strings(v: &Vec<String>) -> (r: Vec<String>)
    ensures
        strings_view(r@) == strings_view(v@),
{
    let mut out: Vec<String> = Vec::new();
    let mut i: usize = 0;
    while i < v.len()
        invariant
            i <= v@.len(),
            strings_view(out@) == strings_view(v@).take(i as int),
        decreases v@.len() - i,
    {
        out.push(v[i].clone());
        proof {
            assert(strings_view(v@).take(i + 1) =~= strings_view(v@).take(i as int).push(v@[i as int]@));
        }
        i = i + 1;
    }
    assert(strings_view(v@).take(i as int) =~= strings_view(v@));
    out
}

/// The views of a sequence of packages.
pub closed spec fn views(ps: Seq<Package>) -> Seq<PackageView> {
    ps.map_values(|p: Package| p@)
}

pub broadcast proof fn lemma_views_len(ps: Seq<Package>)
    ensures
        #[trigger] views(ps).len() == ps.len(),
{
}

pub broadcast proof fn lemma_views_index(ps: Seq<Package>, i: int)
    requires
        0 <= i < ps.len(),
    ensures
        #[trigger] views(ps)[i] == ps[i]@,
{
}

pub broadcast proof fn lemma_views_push(ps: Seq<Package>, p: Package)
    ensures
        #[trigger] views(ps.push(p)) == views(ps).push(p@),
{
    assert(views(ps.push(p)) =~= views(ps).push(p@));
}

pub broadcast proof fn lemma_views_take(ps: Seq<Package>, n: int)
    requires
        0 <= n <= ps.len(),
    ensures
        #[trigger] views(ps.take(n)) == views(ps).take(n),
{
    assert(views(ps.take(n)) =~= views(ps).take(n));
}

pub broadcast group group_views {
    lemma_views_len,
    lemma_strings_view_len,
    lemma_strings_view_index,
    lemma_strings_view_push,
    lemma_strings_view_drop_last,
    lemma_ref_views_len,
    lemma_ref_views_index,
    lemma_ref_views_push,
    lemma_views_index,
    lemma_views_push,
    lemma_views_take,
}

} // verus!
