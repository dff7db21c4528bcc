use vstd::prelude::*;
use crate::error::VesselError;

verus! {

/// The characters that may appear in a directory name derived from package data.
pub open spec fn is_dirname_char(c: char) -> bool {
    ('a' <= c && c <= 'z') || ('A' <= c && c <= 'Z') || ('0' <= c && c <= '9') || c == '-' || c
        == '_' || c == '.'
}

/// A string that is safe to use as one component of a cache path: only
/// `[A-Za-z0-9._-]`, not made of dots alone (which also excludes the empty
/// string), and not starting with `-`.
pub open spec fn valid_dirname(s: Seq<char>) -> bool {
    &&& forall|i: int| 0 <= i < s.len() ==> is_dirname_char(#[trigger] s[i])
    &&& exists|i: int| 0 <= i < s.len() && #[trigger] s[i] != '.'
    &&& !(s.len() > 0 && s[0] == '-')
}

fn is_dirname_char_exec(c: char) -> (r: bool)
    ensures
        r == is_dirname_char(c),
{
    ('a' <= c && c <= 'z') || ('A' <= c && c <= 'Z') || ('0' <= c && c <= '9') || c == '-' || c
        == '_' || c == '.'
}

/// Guards against path strings in package data.
pub fn is_valid_dirname(input: &str) -> (r: bool)
    ensures
        r == valid_dirname(input@),
{
    let n = input.unicode_len();
    let mut i: usize = 0;
    let mut seen_non_dot = false;
    while i < n
        invariant
            n == input@.len(),
            i <= n,
            forall|j: int| 0 <= j < i ==> is_dirname_char(#[trigger] input@[j]),
            seen_non_dot <==> exists|j: int| 0 <= j < i && #[trigger] input@[j] != '.',
        decreases n - i,
    {
        let c = input.get_char(i);
        if !is_dirname_char_exec(c) {
            return false;
        }
        if c != '.' {
            seen_non_dot = true;
        }
        i = i + 1;
    }
    if !seen_non_dot {
        return false;
    }
    input.get_char(0) != '-'
}

/// What a name or version may look like: the empty string, dots alone, a
/// path separator and a leading `-` are refused, and any other arrangement of
/// letters, digits, `-`, `_` and `.` is accepted.
pub proof fn law_dirname_rules(s: Seq<char>)
    ensures
        s.len() == 0 ==> !valid_dirname(s),
        (forall|i: int| 0 <= i < s.len() ==> s[i] == '.') ==> !valid_dirname(s),
        s.contains('/') ==> !valid_dirname(s),
        s.contains('\\') ==> !valid_dirname(s),
        (s.len() > 0 && s[0] == '-') ==> !valid_dirname(s),
        (forall|i: int| 0 <= i < s.len() ==> is_dirname_char(#[trigger] s[i])) && (exists|i: int|
            0 <= i < s.len() && #[trigger] s[i] != '.') && !(s.len() > 0 && s[0] == '-') ==> valid_dirname(s),
{
    if s.contains('/') {
        let i = choose|i: int| 0 <= i < s.len() && s[i] == '/';
        assert(!is_dirname_char(s[i]));
    }
    if s.contains('\\') {
        let i = choose|i: int| 0 <= i < s.len() && s[i] == '\\';
        assert(!is_dirname_char(s[i]));
    }
}

/// Checks a package name before it becomes part of a path.
pub fn validate_name(name: &str) -> (r: Result<&str, VesselError>)
    ensures
        valid_dirname(name@) ==> r == Ok::<&str, VesselError>(name),
        !valid_dirname(name@) ==> (r matches Err(VesselError::Validation(s)) && s@ == name@),
{
    if is_valid_dirname(name) {
        Ok(name)
    } else {
        Err(VesselError::Validation(name.to_string()))
    }
}

/// Checks a package or compiler version before it becomes part of a path.
pub fn validate_version(version: &str) -> (r: Result<&str, VesselError>)
    ensures
        valid_dirname(version@) ==> r == Ok::<&str, VesselError>(version),
        !valid_dirname(version@) ==> (r matches Err(VesselError::Validation(s)) && s@ == version@),
{
    if is_valid_dirname(version) {
        Ok(version)
    } else {
        Err(VesselError::Validation(version.to_string()))
    }
}


/// Lexicographic order on names, by code point; the order `str` uses.
pub open spec fn name_lt(a: Seq<char>, b: Seq<char>) -> bool
    decreases a.len(),
{
    if a.len() == 0 {
        b.len() > 0
    } else if b.len() == 0 {
        false
    } else if a[0] != b[0] {
        a[0] < b[0]
    } else {
        name_lt(a.drop_first(), b.drop_first())
    }
}

pub proof fn lemma_name_lt_irreflexive(a: Seq<char>)
    ensures
        !name_lt(a, a),
    decreases a.len(),
{
    if a.len() > 0 {
        lemma_name_lt_irreflexive(a.drop_first());
    }
}

pub proof fn lemma_name_lt_transitive(a: Seq<char>, b: Seq<char>, c: Seq<char>)
    requires
        name_lt(a, b),
        name_lt(b, c),
    ensures
        name_lt(a, c),
    decreases a.len(),
{
    if a.len() > 0 && b.len() > 0 && c.len() > 0 && a[0] == b[0] && b[0] == c[0] {
        lemma_name_lt_transitive(a.drop_first(), b.drop_first(), c.drop_first());
    }
}

pub proof fn lemma_name_lt_total(a: Seq<char>, b: Seq<char>)
    requires
        a != b,
    ensures
        name_lt(a, b) || name_lt(b, a),
    decreases a.len(),
{
    if a.len() > 0 && b.len() > 0 && a[0] == b[0] {
        if a.drop_first() == b.drop_first() {
            assert(a =~= seq![a[0]] + a.drop_first());
            assert(b =~= seq![b[0]] + b.drop_first());
        }
        lemma_name_lt_total(a.drop_first(), b.drop_first());
    } else if a.len() == 0 && b.len() == 0 {
        assert(a =~= b);
    }
}

pub proof fn lemma_name_lt_asymmetric(a: Seq<char>, b: Seq<char>)
    requires
        name_lt(a, b),
    ensures
        !name_lt(b, a),
{
    if name_lt(b, a) {
        lemma_name_lt_transitive(a, b, a);
        lemma_name_lt_irreflexive(a);
    }
}

/// Decides `name_lt` on two strings.
pub fn name_less(a: &str, b: &str) -> (r: bool)
    ensures
        r == name_lt(a@, b@),
{
    let na = a.unicode_len();
    let nb = b.unicode_len();
    let mut i: usize = 0;
    proof {
        assert(a@.skip(0) =~= a@);
        assert(b@.skip(0) =~= b@);
    }
    while i < na && i < nb
        invariant
            na == a@.len(),
            nb == b@.len(),
            i <= na,
            i <= nb,
            name_lt(a@, b@) == name_lt(a@.skip(i as int), b@.skip(i as int)),
        decreases na - i,
    {
        let ca = a.get_char(i);
        let cb = b.get_char(i);
        proof {
            assert(a@.skip(i as int)[0] == ca);
            assert(b@.skip(i as int)[0] == cb);
        }
        if ca != cb {
            return ca < cb;
        }
        proof {
            assert(a@.skip(i as int).drop_first() =~= a@.skip(i + 1));
            assert(b@.skip(i as int).drop_first() =~= b@.skip(i + 1));
        }
        i = i + 1;
    }
    i < nb
}


/// Decides whether two strings hold the same characters.
pub fn same_name(a: &str, b: &str) -> (r: bool)
    ensures
        r == (a@ == b@),
{
    let na = a.unicode_len();
    let nb = b.unicode_len();
    if na != nb {
        return false;
    }
    let mut i: usize = 0;
    while i < na
        invariant
            na == a@.len(),
            nb == b@.len(),
            na == nb,
            i <= na,
            forall|j: int| 0 <= j < i ==> a@[j] == b@[j],
        decreases na - i,
    {
        if a.get_char(i) != b.get_char(i) {
            return false;
        }
        i = i + 1;
    }
    assert(a@ =~= b@);
    true
}

} // verus!
