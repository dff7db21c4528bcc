use vstd::prelude::*;
use vstd::string::*;
use crate::error::VesselError;

verus! {

/// The address of the package-set description published under a release tag.
pub open spec fn package_set_url_spec(tag: Seq<char>) -> Seq<char> {
    "https://github.com/dfinity/vessel-package-set/releases/download/"@ + tag + "/package-set.dhall"@
}

/// The address of the package-set description published under `tag`.
pub fn package_set_url(tag: &str) -> (r: String)
    ensures
        r@ == package_set_url_spec(tag@),
{
    crate::acquire::concat3("https://github.com/dfinity/vessel-package-set/releases/download/", tag, "/package-set.dhall")
}

/// A known-good package set and its hash, used when the latest one cannot
/// be fetched.
pub fn fallback_package_set() -> (r: (String, String))
    ensures
        r.0@ == package_set_url_spec("mo-0.4.3-20200916"@),
        r.1@ == "sha256:3e1d8d20e35550bc711ae94f94da8b0091e3a3094f91874ff62686c070478dd7"@,
{
    (
        package_set_url("mo-0.4.3-20200916"),
        "sha256:3e1d8d20e35550bc711ae94f94da8b0091e3a3094f91874ff62686c070478dd7".to_string(),
    )
}

/// The manifest a new project starts with.
pub fn manifest_template() -> (r: String)
    ensures
        r@ == "{\n  dependencies = [ \"base\", \"matchers\" ],\n  compiler = None Text\n}\n"@,
{
    "{\n  dependencies = [ \"base\", \"matchers\" ],\n  compiler = None Text\n}\n".to_string()
}

/// What follows the upstream import in a new package-set file.
pub open spec fn package_set_body() -> Seq<char> {
    "\nlet Package =\n    { name : Text, version : Text, repo : Text, dependencies : List Text }\n\nlet\n  -- This is where you can add your own packages to the package-set\n  additions =\n    [] : List Package\n\nlet\n  {- This is where you can override existing packages in the package-set\n\n     For example, if you wanted to use version `v2.0.0` of the foo library:\n     let overrides = [\n         { name = \"foo\"\n         , version = \"v2.0.0\"\n         , repo = \"https://github.com/bar/foo\"\n         , dependencies = [] : List Text\n         }\n     ]\n  -}\n  overrides =\n    [] : List Package\n\nin  upstream # additions # overrides\n"@
}

/// The package-set file a new project starts with, importing the upstream
/// set at `url`, pinned by `hash`.
pub fn package_set_template(url: &str, hash: &str) -> (r: String)
    ensures
        r@ == "let upstream = "@ + url@ + " "@ + hash@ + package_set_body(),
{
    let mut s = crate::acquire::concat3("let upstream = ", url, " ");
    s.append(hash);
    s.append("\nlet Package =\n    { name : Text, version : Text, repo : Text, dependencies : List Text }\n\nlet\n  -- This is where you can add your own packages to the package-set\n  additions =\n    [] : List Package\n\nlet\n  {- This is where you can override existing packages in the package-set\n\n     For example, if you wanted to use version `v2.0.0` of the foo library:\n     let overrides = [\n         { name = \"foo\"\n         , version = \"v2.0.0\"\n         , repo = \"https://github.com/bar/foo\"\n         , dependencies = [] : List Text\n         }\n     ]\n  -}\n  overrides =\n    [] : List Package\n\nin  upstream # additions # overrides\n");
    s
}

/// `s` is a well-formed Dhall expression, as dhall's parser reads it.
pub uninterp spec fn parses_as_dhall(s: Seq<char>) -> bool;

/// The SHA-256 digest dhall computes for the expression written as `s`.
pub uninterp spec fn dhall_sha256_of(s: Seq<char>) -> Seq<u8>;

/// Relies on `dhall::syntax::text::parser::parse_expr`, which accepts
/// exactly the well-formed expressions, and on `Expr::sha256_hash`, which
/// cannot fail (it encodes into a `Vec`) and gives a 32-byte SHA-256 digest
/// of the parsed expression.
#[verifier::external_body]
fn dhall_digest(s: &str) -> (r: Option<Vec<u8>>)
    ensures
        r is Some <==> parses_as_dhall(s@),
        r matches Some(d) ==> d@ == dhall_sha256_of(s@) && d@.len() == 32,
{
    match dhall::syntax::text::parser::parse_expr(s) {
        Ok(e) => match e.sha256_hash() {
            Ok(h) => Some(h.into_vec()),
            Err(_) => None,
        },
        Err(_) => None,
    }
}

/// Lower-case hexadecimal, two digits for each byte.
pub open spec fn hex_of(b: Seq<u8>) -> Seq<char>
    decreases b.len(),
{
    if b.len() == 0 {
        Seq::empty()
    } else {
        hex_of(b.drop_last()) + seq!["0123456789abcdef"@[(b.last() / 16) as int], "0123456789abcdef"@[(b.last() % 16) as int]]
    }
}

/// How a digest is written in a Dhall import: `sha256:` and its hex digits.
pub fn format_hash(digest: &Vec<u8>) -> (r: String)
    ensures
        r@ == "sha256:"@ + hex_of(digest@),
{
    let digits = "0123456789abcdef";
    proof {
        reveal_strlit("0123456789abcdef");
    }
    let mut s = "sha256:".to_string();
    let mut i: usize = 0;
    while i < digest.len()
        invariant
            i <= digest@.len(),
            digits@ == "0123456789abcdef"@,
            digits@.len() == 16,
            s@ == "sha256:"@ + hex_of(digest@.take(i as int)),
        decreases digest@.len() - i,
    {
        let b = digest[i];
        let hi = (b / 16) as usize;
        let lo = (b % 16) as usize;
        s.append(digits.substring_char(hi, hi + 1));
        s.append(digits.substring_char(lo, lo + 1));
        proof {
            assert(digest@.take(i + 1).drop_last() =~= digest@.take(i as int));
            assert(digits@.subrange(hi as int, hi + 1) =~= seq![digits@[hi as int]]);
            assert(digits@.subrange(lo as int, lo + 1) =~= seq![digits@[lo as int]]);
            assert(s@ =~= "sha256:"@ + hex_of(digest@.take(i + 1)));
        }
        i = i + 1;
    }
    assert(digest@.take(i as int) =~= digest@);
    s
}

/// The integrity hash of a Dhall expression, as written after an import.
/// Text that does not parse as Dhall is an error.
pub fn hash_dhall_expression(expr: &str) -> (r: Result<String, VesselError>)
    ensures
        r is Ok <==> parses_as_dhall(expr@),
        !parses_as_dhall(expr@) ==> r matches Err(VesselError::Config(_)),
        r matches Ok(h) ==> h@ == "sha256:"@ + hex_of(dhall_sha256_of(expr@)),
{
    match dhall_digest(expr) {
        Some(d) => Ok(format_hash(&d)),
        None => Err(VesselError::Config("Failed to parse a dhall expression".to_string())),
    }
}

/// The import of the package set released under `tag`, whose description
/// reads `text`: its address and the hash that pins it.
pub fn package_set_pin(tag: &str, text: &str) -> (r: Result<(String, String), VesselError>)
    ensures
        r is Ok <==> parses_as_dhall(text@),
        !parses_as_dhall(text@) ==> r matches Err(VesselError::Config(_)),
        r matches Ok(p) ==> p.0@ == package_set_url_spec(tag@) && p.1@ == "sha256:"@ + hex_of(
            dhall_sha256_of(text@),
        ),
{
    let hash = hash_dhall_expression(text)?;
    Ok((package_set_url(tag), hash))
}

} // verus!
