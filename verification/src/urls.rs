//! URLs, through the `url` crate. A URL is held as its text; each call parses
//! the text into a `url::Url`, applies one operation and gives the URL back as text.

use vstd::prelude::*;
use vstd::utf8::encode_utf8;

verus! {

/// What `url::Url::parse` makes of `s`: the URL's serialization, if it parses.
pub uninterp spec fn url_parse(s: Seq<char>) -> Option<Seq<char>>;

/// What `url::Url::path` gives for the URL `u`.
pub uninterp spec fn url_path(u: Seq<char>) -> Seq<char>;

/// The URL `u` after `url::Url::set_path(path)`.
pub uninterp spec fn url_set_path(u: Seq<char>, path: Seq<char>) -> Seq<char>;

/// The URL `u` after `query_pairs_mut().append_pair(name, value)`.
pub uninterp spec fn url_append_pair(u: Seq<char>, name: Seq<char>, value: Seq<char>) -> Seq<char>;

/// The length of a text in UTF-8 bytes, the unit in which `url::Url` measures
/// its serialization (and stores positions in it as `u32`).
pub open spec fn utf8_len(s: Seq<char>) -> nat {
    encode_utf8(s).len()
}

/// Room to set the path `path` on the URL `u`: the new serialization keeps
/// `u` but its path, and writes each byte of `path` as at most three bytes
/// (percent-encoded) plus at most two more (a leading `/`, or `/.`), so with
/// this bound it fits the `u32` positions that `Url::set_path` unwraps.
pub open spec fn path_fits(u: Seq<char>, path: Seq<char>) -> bool {
    utf8_len(u) + 3 * utf8_len(path) + 8 <= u32::MAX
}

/// Room to append the query pair `name=value` to the URL `u`: the pair adds
/// `?` or `&`, `=`, and each byte of `name` and `value` as at most three
/// bytes (form-encoded), so with this bound the serialization fits the `u32`
/// positions that `query_pairs_mut` and putting back a fragment unwrap.
pub open spec fn pair_fits(u: Seq<char>, name: Seq<char>, value: Seq<char>) -> bool {
    utf8_len(u) + 3 * (utf8_len(name) + utf8_len(value)) + 8 <= u32::MAX
}

/// Whether the path `path` fits on the URL `u`.
pub fn fits_path(u: &str, path: &str) -> (b: bool)
    ensures
        b == path_fits(u@, path@),
{
    (u.as_bytes().len() as u128) + 3 * (path.as_bytes().len() as u128) + 8 <= u32::MAX as u128
}

/// Whether the query pair `name=value` fits on the URL `u`.
pub fn fits_pair(u: &str, name: &str, value: &str) -> (b: bool)
    ensures
        b == pair_fits(u@, name@, value@),
{
    (u.as_bytes().len() as u128) + 3 * ((name.as_bytes().len() as u128) + (value.as_bytes().len() as u128)) + 8 <= u32::MAX as u128
}

/// Parses `s` as a URL (`url::Url::parse`) and gives its serialization,
/// which parses back to itself (an invariant that the crate checks of every
/// `Url`, in `check_invariants`).
#[verifier::external_body]
pub(crate) fn parse_url(s: &str) -> (r: Option<String>)
    ensures
        match r {
            Some(u) => url_parse(s@) == Some(u@) && url_parse(u@) == Some(u@),
            None => url_parse(s@) is None,
        },
{
    match url::Url::parse(s) {
        Ok(u) => Some(String::from(u.as_str())),
        Err(_) => None,
    }
}

/// The path of the URL `u` (`url::Url::path`). `u` is a URL's serialization,
/// which parses back to the same URL.
#[verifier::external_body]
pub(crate) fn path_of(u: &str) -> (r: String)
    requires
        url_parse(u@) == Some(u@),
    ensures
        r@ == url_path(u@),
{
    let parsed = url::Url::parse(u).unwrap();
    String::from(parsed.path())
}

/// The URL `u` with its path replaced (`url::Url::set_path`), where the
/// result fits the crate's `u32` positions (`set_path` panics otherwise).
#[verifier::external_body]
pub(crate) fn with_path(u: &str, path: &str) -> (r: String)
    requires
        url_parse(u@) == Some(u@),
        path_fits(u@, path@),
    ensures
        r@ == url_set_path(u@, path@),
        url_parse(r@) == Some(r@),
{
    let mut parsed = url::Url::parse(u).unwrap();
    parsed.set_path(path);
    String::from(parsed.as_str())
}

/// The URL `u` with one more query pair, form-encoded
/// (`url::Url::query_pairs_mut().append_pair`), where the result fits the
/// crate's `u32` positions (it panics otherwise when the URL has a fragment).
#[verifier::external_body]
pub(crate) fn with_query_pair(u: &str, name: &str, value: &str) -> (r: String)
    requires
        url_parse(u@) == Some(u@),
        pair_fits(u@, name@, value@),
    ensures
        r@ == url_append_pair(u@, name@, value@),
        url_parse(r@) == Some(r@),
{
    let mut parsed = url::Url::parse(u).unwrap();
    parsed.query_pairs_mut().append_pair(name, value);
    String::from(parsed.as_str())
}

} // verus!
