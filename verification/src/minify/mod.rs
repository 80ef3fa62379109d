//! Code-block minification for the LLM target: one minifier per language
//! family, dispatched by the (lowercased) fence language tag.
pub mod c_common;
pub mod c_cpp;
pub mod javascript;
pub mod json;

use crate::text::{chars_eq_str, str_chars};
use vstd::prelude::*;

verus! {

/// Options shared by every minifier.
#[derive(Debug, Clone, Copy)]
pub struct MinifyOptions {
    /// Keep comments (line comments become `/* */` blocks).
    pub keep_comments: bool,
}

impl Default for MinifyOptions {
    fn default() -> (o: MinifyOptions)
        ensures
            !o.keep_comments,
    {
        MinifyOptions { keep_comments: false }
    }
}

/// Non-fatal notes produced while minifying.
#[derive(Debug, Clone, Copy, PartialEq, Eq)]
pub enum MinifyWarning {
    /// A `//` comment was rewritten as `/* */` to survive on one line.
    LineCommentConverted,
}

/// Minified text plus the warnings produced on the way.
#[derive(Debug, Clone)]
pub struct MinifyOutput {
    pub body: String,
    pub warnings: Vec<MinifyWarning>,
}

impl MinifyOutput {
    /// Output with no warnings.
    pub fn body(s: String) -> (o: MinifyOutput)
        ensures
            o.body == s,
            o.warnings@.len() == 0,
    {
        MinifyOutput { body: s, warnings: Vec::new() }
    }
}

/// The block does not lex in its tagged language.
#[derive(Debug, Clone)]
pub struct MinifyError {
    pub message: String,
}

impl MinifyError {
    pub fn new(msg: &str) -> (e: MinifyError)
        ensures
            e.message@ == msg@,
    {
        MinifyError { message: msg.to_string() }
    }
}

/// Which minifier handles a language tag.
pub enum Family {
    Json,
    JsonLines,
    /// Rust, Java, SQL: whitespace stripped completely.
    Aggressive,
    /// Go: newlines kept for automatic semicolon insertion.
    Conservative,
    C,
    Cpp,
    JavaScript,
}

/// The family of a lowercased language tag, if it has a minifier.
pub open spec fn spec_family(lang: Seq<char>) -> Option<Family> {
    if lang == "json"@ {
        Some(Family::Json)
    } else if lang == "jsonl"@ {
        Some(Family::JsonLines)
    } else if lang == "rust"@ || lang == "rs"@ || lang == "java"@ || lang == "sql"@ {
        Some(Family::Aggressive)
    } else if lang == "go"@ {
        Some(Family::Conservative)
    } else if lang == "c"@ || lang == "h"@ {
        Some(Family::C)
    } else if lang == "cpp"@ || lang == "c++"@ || lang == "cc"@ || lang == "cxx"@ || lang
        == "hpp"@ || lang == "hxx"@ {
        Some(Family::Cpp)
    } else if lang == "javascript"@ || lang == "js"@ || lang == "typescript"@ || lang == "ts"@ {
        Some(Family::JavaScript)
    } else {
        None
    }
}

/// Family of a lowercased language tag.
pub fn family(lang: &str) -> (r: Option<Family>)
    ensures
        r == spec_family(lang@),
{
    let l = str_chars(lang);
    let s = l.as_slice();
    if chars_eq_str(s, "json") {
        Some(Family::Json)
    } else if chars_eq_str(s, "jsonl") {
        Some(Family::JsonLines)
    } else if chars_eq_str(s, "rust") || chars_eq_str(s, "rs") || chars_eq_str(s, "java")
        || chars_eq_str(s, "sql") {
        Some(Family::Aggressive)
    } else if chars_eq_str(s, "go") {
        Some(Family::Conservative)
    } else if chars_eq_str(s, "c") || chars_eq_str(s, "h") {
        Some(Family::C)
    } else if chars_eq_str(s, "cpp") || chars_eq_str(s, "c++") || chars_eq_str(s, "cc")
        || chars_eq_str(s, "cxx") || chars_eq_str(s, "hpp") || chars_eq_str(s, "hxx") {
        Some(Family::Cpp)
    } else if chars_eq_str(s, "javascript") || chars_eq_str(s, "js") || chars_eq_str(
        s,
        "typescript",
    ) || chars_eq_str(s, "ts") {
        Some(Family::JavaScript)
    } else {
        None
    }
}

/// The minifier of family `f` accepts `body`: JSON parses, every JSON
/// Lines line parses, code tokenizes.
pub open spec fn minify_ok(f: Family, body: Seq<char>) -> bool {
    match f {
        Family::Json => json::json_accepts(body),
        Family::JsonLines => json::jsonl_accepted(body, json::line_ranges(body)),
        Family::Cpp => c_cpp::c_lex(body, 0, true, true) is Some,
        Family::JavaScript => javascript::js_lex(
            body,
            0,
            seq![],
            seq![],
            javascript::BraceKind::Block,
        ) is Some,
        _ => c_cpp::c_lex(body, 0, true, false) is Some,
    }
}

/// A minifier exists for this (lowercased) language tag.
pub fn is_supported(lang: &str) -> (r: bool)
    ensures
        r == spec_family(lang@).is_some(),
{
    family(lang).is_some()
}

/// Languages with significant whitespace, which cannot be minified safely.
pub open spec fn spec_refused(lang: Seq<char>) -> bool {
    lang == "python"@ || lang == "py"@ || lang == "yaml"@ || lang == "yml"@ || lang
        == "makefile"@ || lang == "make"@ || lang == "mk"@
}

/// Why a language is refused, or `None` when it is not.
pub fn refusal_reason(lang: &str) -> (r: Option<&'static str>)
    ensures
        r.is_some() == spec_refused(lang@),
{
    let l = str_chars(lang);
    let s = l.as_slice();
    if chars_eq_str(s, "python") || chars_eq_str(s, "py") {
        Some("Python uses significant indentation")
    } else if chars_eq_str(s, "yaml") || chars_eq_str(s, "yml") {
        Some("YAML uses significant indentation")
    } else if chars_eq_str(s, "makefile") || chars_eq_str(s, "make") || chars_eq_str(s, "mk") {
        Some("Makefile recipes require leading tabs")
    } else {
        None
    }
}

/// `out` is what the minifier of family `f` makes of `src`: the compact
/// re-serialisation for JSON and JSONL, else the emitter's output over a
/// lexing of `src` (each token a piece of `src`).
pub open spec fn minified_as(f: Family, src: Seq<char>, keep: bool, out: Seq<char>) -> bool {
    match f {
        Family::Json => out == json::json_compact(src),
        Family::JsonLines => out == json::join_lines(json::jsonl_parts(src, json::line_ranges(src))),
        Family::Aggressive => exists|toks: Seq<c_common::Token>|
            c_cpp::tokens_from(toks, src) && c_cpp::c_lex(src, 0, true, false) == Some(c_cpp::ckinds(toks)) && out
                == c_common::emit_all(toks, keep, false).out,
        Family::Conservative => exists|toks: Seq<c_common::Token>|
            c_cpp::tokens_from(toks, src) && c_cpp::c_lex(src, 0, true, false) == Some(c_cpp::ckinds(toks)) && out
                == c_common::emit_all(toks, keep, true).out,
        Family::C => exists|toks: Seq<c_common::Token>|
            c_cpp::tokens_from(toks, src) && c_cpp::c_lex(src, 0, true, false) == Some(c_cpp::ckinds(toks)) && out
                == c_cpp::cpp_output(toks, keep),
        Family::Cpp => exists|toks: Seq<c_common::Token>|
            c_cpp::tokens_from(toks, src) && c_cpp::c_lex(src, 0, true, true) == Some(c_cpp::ckinds(toks)) && out
                == c_cpp::cpp_output(toks, keep),
        Family::JavaScript => exists|toks: Seq<c_common::Token>|
            c_cpp::tokens_from(toks, src) && javascript::js_lex(src, 0, seq![], seq![], javascript::BraceKind::Block)
                == Some(c_cpp::ckinds(toks)) && out == c_common::emit_all(toks, keep, true).out,
    }
}

/// Minify `body` as language `lang` (lowercased tag). Unknown languages are
/// an error; the caller emits such blocks verbatim.
pub fn minify(lang: &str, body: &str, opts: &MinifyOptions) -> (r: Result<MinifyOutput, MinifyError>)
    ensures
        spec_family(lang@).is_none() ==> r.is_err(),
        body@.len() < usize::MAX && spec_family(lang@) is Some ==> (r is Ok <==> minify_ok(
            spec_family(lang@).unwrap(),
            body@,
        )),
        r matches Ok(o) ==> spec_family(lang@) matches Some(f) && minified_as(
            f,
            body@,
            opts.keep_comments,
            o.body@,
        ),
        spec_family(lang@) == Some(Family::Json) ==> (r is Ok <==> json::json_accepts(body@)),
        spec_family(lang@) == Some(Family::JsonLines) ==> (r is Ok <==> json::jsonl_accepted(
            body@,
            json::line_ranges(body@),
        )),
        spec_family(lang@) is Some && spec_family(lang@) != Some(Family::Json) && spec_family(lang@) != Some(
            Family::JsonLines,
        ) && body@.len() < usize::MAX && c_cpp::plain_code(body@) ==> r is Ok,
        spec_family(lang@) is Some && spec_family(lang@) != Some(Family::Json) && spec_family(lang@) != Some(
            Family::JsonLines,
        ) && body@.len() < usize::MAX ==> (r is Ok <==> match spec_family(lang@).unwrap() {
            Family::Cpp => c_cpp::c_lex(body@, 0, true, true) is Some,
            Family::JavaScript => javascript::js_lex(body@, 0, seq![], seq![], javascript::BraceKind::Block) is Some,
            _ => c_cpp::c_lex(body@, 0, true, false) is Some,
        }),
{
    match family(lang) {
        Some(Family::Json) => json::minify_json(body),
        Some(Family::JsonLines) => json::minify_jsonl(body),
        Some(Family::Aggressive) => c_cpp::minify_generic(body, opts, false),
        Some(Family::Conservative) => c_cpp::minify_generic(body, opts, true),
        Some(Family::C) => c_cpp::minify(body, opts, false),
        Some(Family::Cpp) => c_cpp::minify(body, opts, true),
        Some(Family::JavaScript) => javascript::minify(body, opts),
        None => Err(MinifyError::new("no minifier for this language")),
    }
}

} // verus!
