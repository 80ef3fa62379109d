//! What the dev server watches for changes.
use crate::text::{chars_to_string, push_str, str_chars};
use vstd::prelude::*;

verus! {

/// `base` joined with `name` as `Path::join` does: `name` when it is
/// absolute or `base` is empty, else the two with one `/` between.
pub fn join_path(base: &str, name: &str) -> (r: String)
    ensures
        name@.len() > 0 && name@[0] == '/' ==> r@ == name@,
        base@.len() == 0 ==> r@ == name@,
{
    let b = str_chars(base);
    let n = str_chars(name);
    if (n.len() > 0 && n[0] == '/') || b.len() == 0 {
        return chars_to_string(n.as_slice());
    }
    let mut v: Vec<char> = Vec::new();
    crate::text::push_all(&mut v, b.as_slice());
    if b[b.len() - 1] != '/' {
        v.push('/');
    }
    crate::text::push_all(&mut v, n.as_slice());
    chars_to_string(v.as_slice())
}

/// Paths watched: the source directory, the project's `book.toml` and,
/// when there is one, the theme directory.
pub fn default_watch_paths(project_dir: &str, src: &str, theme: Option<&str>) -> (r: Vec<String>)
    ensures
        r@.len() == if theme is Some { 3int } else { 2int },
        r@[0]@ == src@,
{
    let mut paths: Vec<String> = Vec::new();
    paths.push(src.to_string());
    paths.push(join_path(project_dir, "book.toml"));
    match theme {
        Some(t) => paths.push(t.to_string()),
        None => {},
    }
    paths
}

} // verus!
