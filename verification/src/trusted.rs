//! The only unverified surface of the crate: declarations of outside types
//! and thin wrappers around outside calls, each with the contract the
//! verified code relies on. Everything else is proved against these.
use vstd::prelude::*;

verus! {

/// Declares `fancy_regex::Regex` to the verifier, so compiled patterns can
/// stand in verified fields and signatures; the value itself stays opaque.
#[verifier::external_type_specification]
#[verifier::external_body]
pub struct ExRegex(fancy_regex::Regex);

/// The pattern string a compiled `fancy_regex::Regex` was built from, as
/// `Regex::as_str` reports it.
pub uninterp spec fn regex_source(re: fancy_regex::Regex) -> Seq<char>;

/// Whether `fancy_regex::Regex::new` accepts `pattern`.
pub uninterp spec fn regex_compiles(pattern: Seq<char>) -> bool;

/// What `fancy_regex::Regex::is_match` answers for `pattern` run over `text`:
/// `Some` of the match verdict, or `None` when the engine gives up on the
/// search (its backtracking limit is a fixed default, so the outcome is a
/// function of the two strings).
pub uninterp spec fn regex_match(pattern: Seq<char>, text: Seq<char>) -> Option<bool>;

/// Relies on `fancy_regex::Regex::new`: it compiles the pattern handed to it
/// (the empty pattern always compiles) and the compiled value keeps that
/// pattern as its source.
#[verifier::external_body]
pub fn regex_new(pattern: &str) -> (r: Option<fancy_regex::Regex>)
    ensures
        r is Some <==> regex_compiles(pattern@),
        r is Some ==> regex_source(r.unwrap()) == pattern@,
        pattern@.len() == 0 ==> r is Some,
{
    fancy_regex::Regex::new(pattern).ok()
}

/// Relies on `fancy_regex::Regex::is_match`; an engine error counts as no
/// match, which is how the match step of a lookup treats it.
#[verifier::external_body]
pub fn regex_is_match(re: &fancy_regex::Regex, text: &str) -> (r: bool)
    ensures
        r == (regex_match(regex_source(*re), text@) == Some(true)),
{
    re.is_match(text).unwrap_or(false)
}

/// Relies on `fancy_regex::Regex::as_str`: it returns the source pattern.
#[verifier::external_body]
pub fn regex_str<'a>(re: &'a fancy_regex::Regex) -> (r: &'a str)
    ensures
        r@ == regex_source(*re),
{
    re.as_str()
}

/// What `fancy_regex::escape` returns for `text`.
pub uninterp spec fn escaped(text: Seq<char>) -> Seq<char>;

/// Relies on `fancy_regex::escape`: a pure function of the input string.
#[verifier::external_body]
pub fn regex_escape(text: &str) -> (r: String)
    ensures
        r@ == escaped(text@),
{
    fancy_regex::escape(text).into_owned()
}

/// The `(netloc, path)` components that `urlparse::urlparse` extracts from
/// `s`, for inputs that carry URL punctuation; see `url_parts_spec`.
pub uninterp spec fn url_parts(s: Seq<char>) -> (Seq<char>, Seq<char>);

/// `s` holds none of the characters that make `urlparse` see a scheme,
/// an authority, a path break, a query or a fragment.
pub open spec fn plain_chars(s: Seq<char>) -> bool {
    forall|i: int|
        0 <= i < s.len() ==> #[trigger] s[i] != ':' && s[i] != '/' && s[i] != '?' && s[i] != '#'
}

/// The `(netloc, path)` split of `s`. Without any of `:`, `/`, `?`, `#`
/// in `s`, `urlparse` finds no scheme, no `//` authority, no query and no
/// fragment, so the netloc is empty and the path is `s` itself; otherwise the
/// components are whatever the parser computes.
pub open spec fn url_parts_spec(s: Seq<char>) -> (Seq<char>, Seq<char>) {
    if plain_chars(s) {
        (Seq::<char>::empty(), s)
    } else {
        url_parts(s)
    }
}

/// Relies on `urlparse::urlparse` (a pure parser): returns the `netloc` and
/// `path` fields of the parsed URL.
#[verifier::external_body]
pub fn url_netloc_path(s: &str) -> (r: (String, String))
    ensures
        (r.0@, r.1@) == url_parts_spec(s@),
        !plain_chars(s@) ==> (r.0@, r.1@) == url_parts(s@),
{
    let u = urlparse::urlparse(s);
    (u.netloc, u.path)
}

/// What `idna::domain_to_ascii` returns for `host`: the ASCII (lower-cased,
/// punycoded) form of the domain, or `None` when the input is no valid
/// domain.
pub uninterp spec fn idna_host(host: Seq<char>) -> Option<Seq<char>>;

/// Relies on `idna::domain_to_ascii`: a pure function of the input string.
#[verifier::external_body]
pub fn to_ascii_host(host: &str) -> (r: Option<String>)
    ensures
        r is Some <==> idna_host(host@) is Some,
        r is Some ==> r.unwrap()@ == idna_host(host@).unwrap(),
{
    idna::domain_to_ascii(host).ok()
}

} // verus!
