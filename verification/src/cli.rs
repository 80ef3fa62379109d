//! The command-line tool's decisions: output paths, targets, the compile
//! front end (lex, parse, resolve, validate) and what each outcome prints.
use crate::ast::Document;
use crate::diag::{header_line, render_all_clamped, reported, Code, Diagnostic, Severity};
use crate::emit::{html, llm};
use crate::lexer::lex;
use crate::parser::parse;
use crate::resolve::{ref_answered, ref_spans_blocks, refs_valid, resolve_with_project, ResolveProject};
use crate::shortcode::Registry;
use crate::span::{SourceMap, Span};
use crate::text::{chars_to_string, push_all, push_range, push_str, str_chars, str_eq};
use crate::text::utf8_len;
use crate::validate::{validate, ValidateOpts};
use vstd::prelude::*;

verus! {

/// Start of the last path component: just after the last `/`, or 0.
pub open spec fn name_start_spec(p: Seq<char>) -> int
    decreases p.len(),
{
    if p.len() == 0 {
        0
    } else if p.last() == '/' {
        p.len() as int
    } else {
        name_start_spec(p.drop_last())
    }
}

/// The dot of the extension in the component starting at `start`: the
/// last `.` that is not the component's first char.
pub open spec fn ext_dot_spec(p: Seq<char>, start: int) -> Option<int>
    decreases p.len(),
{
    if p.len() == 0 || p.len() <= start + 1 {
        None
    } else if p.last() == '.' {
        Some(p.len() - 1)
    } else {
        ext_dot_spec(p.drop_last(), start)
    }
}

/// `p` with the extension of its last component replaced by `ext` (a dot
/// and `ext` appended where it has none; the extension removed where `ext`
/// is empty). A path ending in `/` is left as it is.
pub open spec fn with_extension_spec(p: Seq<char>, ext: Seq<char>) -> Seq<char> {
    let s = name_start_spec(p);
    if s == p.len() {
        p
    } else {
        let stem_end = match ext_dot_spec(p, s) {
            Some(d) => d,
            None => p.len() as int,
        };
        p.subrange(0, stem_end) + if ext.len() > 0 {
            seq!['.'] + ext
        } else {
            Seq::<char>::empty()
        }
    }
}

/// The extension of the last component of `p`, if it has one.
pub open spec fn extension_spec(p: Seq<char>) -> Option<Seq<char>> {
    match ext_dot_spec(p, name_start_spec(p)) {
        Some(d) => Some(p.subrange(d + 1, p.len() as int)),
        None => None,
    }
}

fn name_start(p: &[char]) -> (r: usize)
    ensures
        r == name_start_spec(p@),
        r <= p@.len(),
{
    let mut k = p.len();
    assert(p@.take(k as int) =~= p@);
    while k > 0 && p[k - 1] != '/'
        invariant
            k <= p@.len(),
            name_start_spec(p@) == name_start_spec(p@.take(k as int)),
        decreases k,
    {
        assert(p@.take(k as int).drop_last() =~= p@.take(k - 1));
        k = k - 1;
    }
    k
}

fn ext_dot(p: &[char], start: usize) -> (r: Option<usize>)
    requires
        start <= p@.len(),
    ensures
        r matches Some(d) ==> ext_dot_spec(p@, start as int) == Some(d as int) && start < d < p@.len(),
        r is None ==> ext_dot_spec(p@, start as int) is None,
{
    let mut k = p.len();
    assert(p@.take(k as int) =~= p@);
    while k > 0 && k - 1 > start && p[k - 1] != '.'
        invariant
            start <= k <= p@.len(),
            ext_dot_spec(p@, start as int) == ext_dot_spec(p@.take(k as int), start as int),
        decreases k,
    {
        assert(p@.take(k as int).drop_last() =~= p@.take(k - 1));
        k = k - 1;
    }
    if k > 0 && k - 1 > start && p[k - 1] == '.' {
        Some(k - 1)
    } else {
        None
    }
}

/// `path` with its extension replaced by (or extended with) `ext`, as
/// `Path::with_extension` does for a path that names a file.
pub fn with_extension(path: &str, ext: &str) -> (r: String)
    ensures
        r@ == with_extension_spec(path@, ext@),
{
    let p = str_chars(path);
    let s = name_start(p.as_slice());
    if s == p.len() {
        return chars_to_string(p.as_slice());
    }
    let stem_end = match ext_dot(p.as_slice(), s) {
        Some(d) => d,
        None => p.len(),
    };
    let mut out: Vec<char> = Vec::new();
    push_range(&mut out, p.as_slice(), 0, stem_end);
    let e = str_chars(ext);
    if e.len() > 0 {
        out.push('.');
        push_all(&mut out, e.as_slice());
    }
    proof {
        let tail = if ext@.len() > 0 { seq!['.'] + ext@ } else { Seq::<char>::empty() };
        assert(out@ =~= p@.subrange(0, stem_end as int) + tail);
    }
    chars_to_string(out.as_slice())
}

/// Extension of the last component of `path`, if any.
fn extension_of(path: &str) -> (r: Option<String>)
    ensures
        r matches Some(e) ==> extension_spec(path@) == Some(e@),
        r is None ==> extension_spec(path@) is None,
{
    let p = str_chars(path);
    let n = p.len();
    let s = name_start(p.as_slice());
    match ext_dot(p.as_slice(), s) {
        Some(d) => {
            assert(d < n);
            Some(crate::text::range_string(p.as_slice(), d + 1, n))
        },
        None => None,
    }
}

/// Extension of the output of `brief compile -w` for a target name.
pub open spec fn target_extension(target: Seq<char>) -> Seq<char> {
    if target == "html"@ {
        "html"@
    } else if target == "llm"@ {
        "txt"@
    } else if target == "json"@ {
        "json"@
    } else {
        "out"@
    }
}

/// Output file of `brief compile -w`: the input with the target's
/// extension (`html`, `txt` for llm, `json`, else `out`).
pub fn compile_output_path(input: &str, target: &str) -> (r: String)
    ensures
        r@ == with_extension_spec(input@, target_extension(target@)),
{
    let ext = if str_eq(target, "html") {
        "html"
    } else if str_eq(target, "llm") {
        "txt"
    } else if str_eq(target, "json") {
        "json"
    } else {
        "out"
    };
    with_extension(input, ext)
}

/// Output file of `brief convert`: `.md` becomes `.brf`, `.brf` becomes
/// `.md`, anything else gets `.brf` appended.
pub open spec fn convert_output_spec(p: Seq<char>) -> Seq<char> {
    match extension_spec(p) {
        Some(e) => if e == "md"@ {
            with_extension_spec(p, "brf"@)
        } else if e == "brf"@ {
            with_extension_spec(p, "md"@)
        } else {
            p + ".brf"@
        },
        None => p + ".brf"@,
    }
}

/// Output file of `brief convert` (see `convert_output_spec`).
pub fn default_output_path(input: &str) -> (r: String)
    ensures
        r@ == convert_output_spec(input@),
{
    match extension_of(input) {
        Some(e) => {
            if str_eq(e.as_str(), "md") {
                return with_extension(input, "brf");
            } else if str_eq(e.as_str(), "brf") {
                return with_extension(input, "md");
            }
        },
        None => {},
    }
    let mut out: Vec<char> = Vec::new();
    push_str(&mut out, input);
    push_str(&mut out, ".brf");
    chars_to_string(out.as_slice())
}

/// Output targets of `brief compile`.
#[derive(Debug, Clone, Copy, PartialEq, Eq, Structural)]
pub enum Target {
    Html,
    Llm,
    Json,
}

/// The target named `name`, if it is one.
pub fn target_of(name: &str) -> (r: Option<Target>)
    ensures
        name@ == "html"@ ==> r == Some(Target::Html),
        name@ == "llm"@ ==> r == Some(Target::Llm),
        name@ == "json"@ ==> r == Some(Target::Json),
        r is None ==> name@ != "html"@ && name@ != "llm"@ && name@ != "json"@,
{
    proof {
        reveal_strlit("html");
        reveal_strlit("llm");
        reveal_strlit("json");
        assert("html"@.len() == 4 && "llm"@.len() == 3 && "json"@.len() == 4);
        assert("html"@[0] != "json"@[0]);
    }
    if str_eq(name, "html") {
        Some(Target::Html)
    } else if str_eq(name, "llm") {
        Some(Target::Llm)
    } else if str_eq(name, "json") {
        Some(Target::Json)
    } else {
        None
    }
}

/// Does any diagnostic have error severity?
pub fn has_errors(diags: &Vec<Diagnostic>) -> (r: bool)
    ensures
        r == exists|i: int| 0 <= i < diags@.len() && (#[trigger] diags@[i]).severity == Severity::Error,
{
    let mut i: usize = 0;
    while i < diags.len()
        invariant
            forall|j: int| 0 <= j < i ==> (#[trigger] diags@[j]).severity != Severity::Error,
        decreases diags@.len() - i,
    {
        if diags[i].severity == Severity::Error {
            return true;
        }
        i = i + 1;
    }
    false
}

/// Result of the compile front end.
pub enum FrontEnd {
    /// The source does not lex or has errors; the rendered diagnostics.
    Failed(String),
    /// The checked document, with the rendered warnings (possibly empty).
    Checked(Document, String),
}

/// Lex, parse, resolve (against `project` when given) and validate.
pub fn front_end(src: &SourceMap, registry: &Registry, vopts: &ValidateOpts, project: Option<&ResolveProject>) -> (r: FrontEnd)
    requires
        src.wf(),
    ensures
        !crate::lexer::lex_ok(src.text()) ==> r is Failed,
        r matches FrontEnd::Checked(doc, _) ==> {
            &&& project is None ==> forall|k: Span| doc.resolved_refs.spec_get(k) is None
            &&& project matches Some(p) ==> refs_valid(doc.resolved_refs, *p.index)
            &&& forall|k: int|
                0 <= k < ref_spans_blocks(doc.blocks@).len() ==> (#[trigger] doc.resolved_refs.spec_get(
                    ref_spans_blocks(doc.blocks@)[k],
                )) is Some
            &&& project is None ==> ref_spans_blocks(doc.blocks@).len() == 0
        },
{
    let tokens = match lex(src) {
        Ok(t) => t,
        Err(d) => {
            return FrontEnd::Failed(render_all_clamped(&d, src));
        },
    };
    let (mut doc, mut diags) = parse(tokens, src);
    let mut r = resolve_with_project(&mut doc, registry, project);
    let ghost (dp, rr) = (diags@, r@);
    diags.append(&mut r);
    let mut v = validate(&doc, vopts, src);
    diags.append(&mut v);
    let ghost all = diags@;
    proof {
        assert forall|j: int| 0 <= j < rr.len() implies all[dp.len() + j] == #[trigger] rr[j] by {}
    }
    let rendered = if diags.len() > 0 {
        render_all_clamped(&diags, src)
    } else {
        String::new()
    };
    if has_errors(&diags) {
        FrontEnd::Failed(rendered)
    } else {
        proof {
            let spans = ref_spans_blocks(doc.blocks@);
            let ip = project is Some;
            assert forall|k: int| 0 <= k < spans.len() implies (#[trigger] doc.resolved_refs.spec_get(spans[k])) is Some by {
                assert(ref_answered(rr, 0, doc.resolved_refs, spans[k], ip));
                assert forall|code: Code| !reported(rr, 0, code, spans[k]) by {
                    if reported(rr, 0, code, spans[k]) {
                        let j = choose|j: int|
                            0 <= j < rr.len() && (#[trigger] rr[j]).code == code && rr[j].span == spans[k]
                                && rr[j].severity == Severity::Error;
                        assert(all[dp.len() + j] == rr[j]);
                    }
                }
            }
            if !ip && spans.len() > 0 {
                assert(doc.resolved_refs.spec_get(spans[0]) is Some);
            }
        }
        FrontEnd::Checked(doc, rendered)
    }
}

/// Render a checked document in a text target: HTML, or LLM form with its
/// warnings. `None` for the JSON target, which is the document's debug
/// form.
pub fn render_target(doc: &Document, registry: &Registry, target: Target, lopts: &llm::Opts) -> (r: Option<(String, Vec<String>)>)
    ensures
        r is None <==> target == Target::Json,
{
    match target {
        Target::Html => Some((html::render(doc, registry), Vec::new())),
        Target::Llm => Some(llm::render(doc, registry, lopts)),
        Target::Json => None,
    }
}

/// Estimated LLM tokens of a text of `chars` chars: a quarter, rounded up.
pub fn token_estimate(chars: usize) -> (r: usize)
    ensures
        r == (chars as int + 3) / 4,
{
    chars / 4 + if chars % 4 > 0 {
        1
    } else {
        0
    }
}

/// `brief explain CODE`: `error[CODE]: message` and the long explanation,
/// or `None` for an unknown code.
pub fn explain(code: &str) -> (r: Option<String>)
    ensures
        r is Some <==> exists|i: int| 0 <= i < Code::all_spec().len() && (#[trigger] Code::all_spec()[i]).text_spec() == code@,
        r matches Some(s) ==> s@.take(code@.len() + 9int) == "error["@ + code@ + "]: "@,
{
    let all = Code::all();
    let mut i: usize = 0;
    while i < all.len()
        invariant
            all@ == Code::all_spec(),
            forall|j: int| 0 <= j < i ==> (#[trigger] Code::all_spec()[j]).text_spec() != code@,
        decreases all@.len() - i,
    {
        let c = all[i];
        if str_eq(c.as_str().as_str(), code) {
            let mut out: Vec<char> = Vec::new();
            push_str(&mut out, "error[");
            push_str(&mut out, c.as_str().as_str());
            push_str(&mut out, "]: ");
            let ghost head = out@;
            push_str(&mut out, c.message());
            push_str(&mut out, "\n\n");
            push_str(&mut out, c.explain());
            proof {
                reveal_strlit("error[");
                reveal_strlit("]: ");
                assert(head =~= "error["@ + code@ + "]: "@);
                assert(out@.take(code@.len() + 9int) =~= head);
            }
            return Some(chars_to_string(out.as_slice()));
        }
        i = i + 1;
    }
    None
}

/// The lex + parse self-test of converted Brief: `Ok` when the source
/// lexes and parses without an error, else the rendered diagnostics.
pub fn strict_self_test(brief_source: &str, name: &str) -> (r: Result<(), String>)
    requires
        utf8_len(brief_source@) < u32::MAX,
    ensures
        r matches Err(s) ==> s@.len() > 0,
        !crate::lexer::lex_ok(brief_source@) ==> r is Err,
{
    let src = SourceMap::new(name, brief_source);
    let diags = match lex(&src) {
        Ok(toks) => parse(toks, &src).1,
        Err(d) => d,
    };
    if has_errors(&diags) {
        let s = render_all_clamped(&diags, &src);
        assert(header_line(diags@[0]).len() > 0);
        Err(s)
    } else {
        Ok(())
    }
}

} // verus!
