//! Dev-server decisions: the MIME type of a served file, the path part of
//! a request target, and the events pushed to connected browsers.
use crate::text::{str_chars, str_eq};
use vstd::prelude::*;

verus! {

/// An event sent to the browsers watching the site.
#[derive(Clone, Debug)]
pub enum ReloadEvent {
    /// The site was rebuilt.
    Reload,
    /// The rebuild failed, with the rendered error.
    BuildError(String),
}

/// Index just past the last `/` of `p` (0 when there is none): where its
/// last component starts.
pub open spec fn comp_start(p: Seq<char>) -> int
    decreases p.len(),
{
    if p.len() == 0 {
        0
    } else if p.last() == '/' {
        p.len() as int
    } else {
        comp_start(p.drop_last())
    }
}

/// Index just past the last `.` of `p` in `start..k`, or `start` when
/// there is none.
pub open spec fn last_dot_from(p: Seq<char>, start: int, k: int) -> int
    decreases k - start,
{
    if k <= start {
        start
    } else if p[k - 1] == '.' {
        k
    } else {
        last_dot_from(p, start, k - 1)
    }
}

/// Extension of the last component of `p`: what follows its last `.`,
/// when that `.` is not the component's first char.
pub open spec fn extension_spec(p: Seq<char>) -> Option<Seq<char>> {
    let s = comp_start(p);
    let k = last_dot_from(p, s, p.len() as int);
    if k - s > 1 {
        Some(p.subrange(k, p.len() as int))
    } else {
        None
    }
}

/// MIME type of a file with extension `ext`.
pub open spec fn mime_spec(ext: Option<Seq<char>>) -> Seq<char> {
    match ext {
        Some(e) => {
            if e == "html"@ || e == "htm"@ {
                "text/html; charset=utf-8"@
            } else if e == "css"@ {
                "text/css; charset=utf-8"@
            } else if e == "js"@ {
                "application/javascript; charset=utf-8"@
            } else if e == "json"@ {
                "application/json; charset=utf-8"@
            } else if e == "svg"@ {
                "image/svg+xml"@
            } else if e == "png"@ {
                "image/png"@
            } else if e == "jpg"@ || e == "jpeg"@ {
                "image/jpeg"@
            } else if e == "webp"@ {
                "image/webp"@
            } else if e == "gif"@ {
                "image/gif"@
            } else if e == "ico"@ {
                "image/x-icon"@
            } else if e == "woff"@ {
                "font/woff"@
            } else if e == "woff2"@ {
                "font/woff2"@
            } else if e == "txt"@ {
                "text/plain; charset=utf-8"@
            } else {
                "application/octet-stream"@
            }
        },
        None => "application/octet-stream"@,
    }
}

/// Bounds of `extension_spec(path)` in `path`.
fn extension(path: &[char]) -> (r: Option<(usize, usize)>)
    ensures
        match r {
            Some((a, b)) => a <= b == path@.len() && extension_spec(path@) == Some(path@.subrange(a as int, b as int)),
            None => extension_spec(path@) is None,
        },
{
    let mut start = path.len();
    assert(path@.take(path@.len() as int) =~= path@);
    while start > 0 && path[start - 1] != '/'
        invariant
            start <= path@.len(),
            comp_start(path@) == comp_start(path@.take(start as int)),
        decreases start,
    {
        assert(path@.take(start as int).drop_last() =~= path@.take(start - 1));
        start = start - 1;
    }
    assert(comp_start(path@) == start);
    let mut k = path.len();
    while k > start && path[k - 1] != '.'
        invariant
            start <= k <= path@.len(),
            last_dot_from(path@, start as int, path@.len() as int) == last_dot_from(path@, start as int, k as int),
        decreases k - start,
    {
        k = k - 1;
    }
    if k - start > 1 {
        Some((k, path.len()))
    } else {
        None
    }
}

/// MIME type served for `path`, by extension.
pub fn mime_for(path: &str) -> (r: &'static str)
    ensures
        r@ == mime_spec(extension_spec(path@)),
{
    let p = str_chars(path);
    let ext = match extension(p.as_slice()) {
        Some((a, b)) => crate::text::range_string(p.as_slice(), a, b),
        None => {
            return "application/octet-stream";
        },
    };
    let e = ext.as_str();
    if str_eq(e, "html") || str_eq(e, "htm") {
        "text/html; charset=utf-8"
    } else if str_eq(e, "css") {
        "text/css; charset=utf-8"
    } else if str_eq(e, "js") {
        "application/javascript; charset=utf-8"
    } else if str_eq(e, "json") {
        "application/json; charset=utf-8"
    } else if str_eq(e, "svg") {
        "image/svg+xml"
    } else if str_eq(e, "png") {
        "image/png"
    } else if str_eq(e, "jpg") || str_eq(e, "jpeg") {
        "image/jpeg"
    } else if str_eq(e, "webp") {
        "image/webp"
    } else if str_eq(e, "gif") {
        "image/gif"
    } else if str_eq(e, "ico") {
        "image/x-icon"
    } else if str_eq(e, "woff") {
        "font/woff"
    } else if str_eq(e, "woff2") {
        "font/woff2"
    } else if str_eq(e, "txt") {
        "text/plain; charset=utf-8"
    } else {
        "application/octet-stream"
    }
}

/// A request target without its query string (up to the first `?`).
pub fn strip_query(p: &str) -> (r: String)
    ensures
        r@.len() <= p@.len(),
        r@ == p@.take(r@.len() as int),
        forall|i: int| 0 <= i < r@.len() ==> r@[i] != '?',
        r@.len() < p@.len() ==> p@[r@.len() as int] == '?',
{
    let c = str_chars(p);
    let mut k: usize = 0;
    while k < c.len() && c[k] != '?'
        invariant
            k <= c@.len(),
            forall|i: int| 0 <= i < k ==> c@[i] != '?',
        decreases c@.len() - k,
    {
        k = k + 1;
    }
    crate::text::range_string(c.as_slice(), 0, k)
}

} // verus!
