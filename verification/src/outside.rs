//! The calls this library makes into other crates and into the parts of std
//! that carry no specification of their own. Each item here is believed as
//! stated; its doc comment says what it claims.
use rand::RngCore;
use vstd::prelude::*;

verus! {

// ---------------------------------------------------------------------------
// regex
// ---------------------------------------------------------------------------
/// What compiling `pattern` with `regex::Regex::new` and asking `is_match`
/// on `text` answers; `None` where the pattern does not compile.
pub uninterp spec fn regex_match_result(pattern: Seq<char>, text: Seq<char>) -> Option<bool>;

/// The text of capture group `group` in the leftmost match of `pattern` in
/// `text` (`regex::Regex::captures`, then `Captures::get`); `None` where
/// the pattern does not compile, nothing matches, or the group took no part.
pub uninterp spec fn regex_group_result(pattern: Seq<char>, text: Seq<char>, group: nat) -> Option<
    Seq<char>,
>;

/// What `regex::Regex::replace_all` gives for `text` and the replacement
/// string `rep` (in which `$1` names a group); `None` where the pattern
/// does not compile.
pub uninterp spec fn regex_replace_result(
    pattern: Seq<char>,
    text: Seq<char>,
    rep: Seq<char>,
) -> Option<Seq<char>>;

/// Compiles `pattern` with `regex::Regex::new` and calls `is_match` on
/// `text`. Claimed: the answer is the one that `regex_match_result` names
/// for these two strings, `None` exactly where compiling failed.
#[verifier::external_body]
pub(crate) fn regex_is_match(pattern: &str, text: &str) -> (r: Option<bool>)
    ensures
        r == regex_match_result(pattern@, text@),
{
    match regex::Regex::new(pattern) {
        Ok(re) => Some(re.is_match(text)),
        Err(_) => None,
    }
}

/// Compiles `pattern` with `regex::Regex::new`, calls `captures` on `text`
/// and takes group `group`. Claimed: the text handed back is the one that
/// `regex_group_result` names for these arguments.
#[verifier::external_body]
pub(crate) fn regex_group(pattern: &str, text: &str, group: usize) -> (r: Option<String>)
    ensures
        match r {
            Some(g) => regex_group_result(pattern@, text@, group as nat) == Some(g@),
            None => regex_group_result(pattern@, text@, group as nat) is None,
        },
{
    let re = regex::Regex::new(pattern).ok()?;
    let caps = re.captures(text)?;
    let m = caps.get(group)?;
    Some(m.as_str().to_string())
}

/// Compiles `pattern` with `regex::Regex::new` and calls `replace_all` on
/// `text` with the replacement string `rep`. Claimed: the result is the
/// one that `regex_replace_result` names for these three strings.
#[verifier::external_body]
pub(crate) fn regex_replace_all(pattern: &str, text: &str, rep: &str) -> (r: Option<String>)
    ensures
        match r {
            Some(t) => regex_replace_result(pattern@, text@, rep@) == Some(t@),
            None => regex_replace_result(pattern@, text@, rep@) is None,
        },
{
    match regex::Regex::new(pattern) {
        Ok(re) => Some(re.replace_all(text, rep).to_string()),
        Err(_) => None,
    }
}

// ---------------------------------------------------------------------------
// Unicode case mapping (std)
// ---------------------------------------------------------------------------
/// What `str::to_lowercase` gives for `s`.
pub uninterp spec fn lowercase(s: Seq<char>) -> Seq<char>;

/// What `str::to_uppercase` gives for `s`.
pub uninterp spec fn uppercase(s: Seq<char>) -> Seq<char>;

/// What `char::to_uppercase` yields for `c`, collected into a string.
pub uninterp spec fn char_uppercase(c: char) -> Seq<char>;

/// Calls `str::to_lowercase`. Claimed: the result is `lowercase(s@)`.
#[verifier::external_body]
pub(crate) fn to_lowercase(s: &str) -> (r: String)
    ensures
        r@ == lowercase(s@),
{
    s.to_lowercase()
}

/// Calls `str::to_uppercase`. Claimed: the result is `uppercase(s@)`.
#[verifier::external_body]
pub(crate) fn to_uppercase(s: &str) -> (r: String)
    ensures
        r@ == uppercase(s@),
{
    s.to_uppercase()
}

/// Calls `char::to_uppercase` and collects what it yields. Claimed: the
/// result is `char_uppercase(c)`.
#[verifier::external_body]
pub(crate) fn char_to_uppercase(c: char) -> (r: String)
    ensures
        r@ == char_uppercase(c),
{
    c.to_uppercase().collect::<String>()
}

// ---------------------------------------------------------------------------
// Paths (std)
// ---------------------------------------------------------------------------
/// What `std::path::Path::file_name` gives for the path `path`: its last
/// component, `None` where the path ends in `..` or has no component.
pub uninterp spec fn file_name_result(path: Seq<char>) -> Option<Seq<char>>;

/// Calls `std::path::Path::new(path).file_name()` and turns the name back
/// into a string. Claimed: the result is `file_name_result(path@)`.
#[verifier::external_body]
pub(crate) fn path_file_name(path: &str) -> (r: Option<String>)
    ensures
        match r {
            Some(n) => file_name_result(path@) == Some(n@),
            None => file_name_result(path@) is None,
        },
{
    let name = std::path::Path::new(path).file_name()?;
    Some(name.to_str()?.to_string())
}

// ---------------------------------------------------------------------------
// rand
// ---------------------------------------------------------------------------
/// Eight bytes from the operating system's random source, through
/// `rand::rngs::OsRng::try_fill_bytes`, read as a little-endian `u64`;
/// `None` where that source reports an error. Which number comes rests on
/// chance, so nothing is claimed of it.
#[verifier::external_body]
pub(crate) fn os_random_u64() -> Option<u64> {
    let mut bytes = [0u8; 8];
    match rand::rngs::OsRng.try_fill_bytes(&mut bytes) {
        Ok(()) => Some(u64::from_le_bytes(bytes)),
        Err(_) => None,
    }
}

} // verus!
