use vstd::prelude::*;

use crate::text::str_eq;

verus! {

/// The extension of the last component of the path `p`, if it has one.
pub uninterp spec fn path_extension(p: Seq<char>) -> Option<Seq<char>>;

/// The words of `s`, split at runs of whitespace.
pub uninterp spec fn whitespace_words(s: Seq<char>) -> Seq<Seq<char>>;

/// Relies on `std::path::Path::extension`: the extension of the path's last
/// component, which depends on the characters of the path alone (a `str` is
/// always valid UTF-8, so the conversion back to `str` keeps it).
#[verifier::external_body]
fn extension_of(path: &str) -> (r: Option<&str>)
    ensures
        r matches Some(e) ==> path_extension(path@) == Some(e@),
        r is None ==> path_extension(path@) is None,
{
    match std::path::Path::new(path).extension() {
        Some(e) => e.to_str(),
        None => None,
    }
}

/// Relies on `str::split_whitespace`: the words of `s`, which depend on its
/// characters alone.
#[verifier::external_body]
fn split_words(s: &str) -> (r: Vec<String>)
    ensures
        r@.map_values(|w: String| w@) == whitespace_words(s@),
{
    s.split_whitespace().map(str::to_owned).collect()
}

/// `p` without one leading `/`.
pub open spec fn strip_slash(p: Seq<char>) -> Seq<char> {
    if p.len() > 0 && p[0] == '/' {
        p.subrange(1, p.len() as int)
    } else {
        p
    }
}

/// The file requested by a request line split into `words`: only `GET`
/// requests with a target are served, the target taken relative to the
/// public directory.
pub open spec fn target_of(words: Seq<Seq<char>>) -> Option<Seq<char>> {
    if words.len() >= 2 && words[0] == "GET"@ {
        Some(strip_slash(words[1]))
    } else {
        None
    }
}

/// See `target_of`.
pub fn target_of_words(words: &Vec<String>) -> (r: Option<String>)
    ensures
        r matches Some(p) ==> target_of(words@.map_values(|w: String| w@)) == Some(p@),
        r is None ==> target_of(words@.map_values(|w: String| w@)) is None,
{
    let ghost ws = words@.map_values(|w: String| w@);
    if words.len() < 2 {
        return None;
    }
    if !str_eq(words[0].as_str(), "GET") {
        return None;
    }
    let t = words[1].as_str();
    let n = t.unicode_len();
    if n > 0 && t.get_char(0) == '/' {
        Some(t.substring_char(1, n).to_owned())
    } else {
        Some(t.to_owned())
    }
}

/// The file requested by the first line of an HTTP request, relative to the
/// public directory, or `None` when it is not to be served.
pub fn requested_path(first_line: &str) -> (r: Option<String>)
    ensures
        r matches Some(p) ==> target_of(whitespace_words(first_line@)) == Some(p@),
        r is None ==> target_of(whitespace_words(first_line@)) is None,
{
    let words = split_words(first_line);
    target_of_words(&words)
}

/// The content type served for a file of extension `ext`.
pub open spec fn content_type(ext: Option<Seq<char>>) -> Seq<char> {
    match ext {
        Some(e) => if e == "html"@ {
            "text/html"@
        } else if e == "css"@ {
            "text/css"@
        } else if e == "js"@ {
            "application/javascript"@
        } else if e == "png"@ {
            "image/png"@
        } else if e == "jpg"@ || e == "jpeg"@ {
            "image/jpeg"@
        } else if e == "gif"@ {
            "image/gif"@
        } else {
            "application/octet-stream"@
        },
        None => "application/octet-stream"@,
    }
}

/// The content type for the extension `ext` (`None`: no extension).
pub fn content_type_for(ext: Option<&str>) -> (r: &'static str)
    ensures
        r@ == content_type(
            match ext {
                Some(e) => Some(e@),
                None => None,
            },
        ),
{
    match ext {
        Some(e) => if str_eq(e, "html") {
            "text/html"
        } else if str_eq(e, "css") {
            "text/css"
        } else if str_eq(e, "js") {
            "application/javascript"
        } else if str_eq(e, "png") {
            "image/png"
        } else if str_eq(e, "jpg") || str_eq(e, "jpeg") {
            "image/jpeg"
        } else if str_eq(e, "gif") {
            "image/gif"
        } else {
            "application/octet-stream"
        },
        None => "application/octet-stream",
    }
}

/// The content type of the file at `path`, by its extension.
pub fn get_content_type(path: &str) -> (r: &'static str)
    ensures
        r@ == content_type(path_extension(path@)),
{
    content_type_for(extension_of(path))
}

} // verus!
