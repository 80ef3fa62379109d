//! `brief.toml`: compile settings and project shortcodes, and the registry
//! they give.
use crate::shortcode::{all_wf, arg_decl, arg_of, builtin_arg, builtin_kind, put, shortcode_wf, ArgSpec, ArgType, Registry, Shortcode};
use crate::strmap::{keys_unique, lemma_lookup_index, lemma_lookup_none};
use crate::strmap::StrMap;
use vstd::prelude::*;

verus! {

/// `[compile.llm]`: code-block minification in the LLM target.
#[derive(Clone, Debug)]
pub struct LlmConfig {
    pub minify_code_blocks: bool,
    pub minify_languages: Vec<String>,
    pub preserve_code_fences: bool,
}

impl Default for LlmConfig {
    fn default() -> (c: LlmConfig)
        ensures
            c.minify_code_blocks,
            c.preserve_code_fences,
            c.minify_languages@.len() == 19,
    {
        let o = crate::emit::llm::Opts::default();
        LlmConfig {
            minify_code_blocks: o.minify_code_blocks,
            minify_languages: o.minify_languages,
            preserve_code_fences: o.preserve_code_fences,
        }
    }
}

/// `[compile]`: default target, strict heading levels, LLM settings.
#[derive(Clone, Debug)]
pub struct CompileConfig {
    pub default_target: Option<String>,
    pub strict_heading_levels: bool,
    pub llm: LlmConfig,
}

impl Default for CompileConfig {
    fn default() -> (c: CompileConfig)
        ensures
            c.default_target.is_none(),
            !c.strict_heading_levels,
    {
        CompileConfig { default_target: None, strict_heading_levels: false, llm: LlmConfig::default() }
    }
}

/// The whole `brief.toml`.
#[derive(Clone, Debug)]
pub struct Config {
    pub compile: CompileConfig,
    pub shortcodes: StrMap<Shortcode>,
}

impl Default for Config {
    fn default() -> (c: Config)
        ensures
            c.shortcodes.wf(),
            c.shortcodes.view_entries().len() == 0,
            !c.compile.strict_heading_levels,
    {
        Config { compile: CompileConfig::default(), shortcodes: StrMap::new() }
    }
}

/// The declaration stored under `x` in `m`, as plain values.
pub open spec fn decl_get(m: StrMap<ArgSpec>, x: Seq<char>) -> Option<
    (ArgType, bool, Option<usize>, Option<Seq<Seq<char>>>),
> {
    match m.spec_get(x) {
        Some(v) => Some(arg_decl(v)),
        None => None,
    }
}

/// Two shortcodes agree: form, templates and argument declarations.
pub open spec fn sc_same(a: Shortcode, b: Shortcode) -> bool {
    &&& a.kind == b.kind
    &&& a.template_html == b.template_html
    &&& a.template_llm == b.template_llm
    &&& forall|x: Seq<char>| #[trigger] decl_get(a.arguments, x) == decl_get(b.arguments, x)
}

/// A copy of one argument declaration.
fn copy_spec(a: &ArgSpec) -> (r: ArgSpec)
    ensures
        arg_decl(r) == arg_decl(*a),
{
    let oneof = match &a.oneof {
        Some(v) => {
            let mut w: Vec<String> = Vec::new();
            let mut i: usize = 0;
            while i < v.len()
                invariant
                    i <= v@.len(),
                    w@.len() == i,
                    forall|j: int| 0 <= j < i ==> w@[j] == v@[j],
                decreases v@.len() - i,
            {
                w.push(v[i].clone());
                i = i + 1;
            }
            assert(w@.map_values(|t: String| t@) =~= v@.map_values(|t: String| t@));
            Some(w)
        },
        None => None,
    };
    ArgSpec { ty: a.ty, required: a.required, position: a.position, oneof }
}

/// A copy of an argument table (keys kept unique).
fn copy_args(m: &StrMap<ArgSpec>) -> (r: StrMap<ArgSpec>)
    ensures
        r.wf(),
        m.wf() ==> forall|x: Seq<char>| #[trigger] decl_get(r, x) == decl_get(*m, x),
{
    let ghost e = m.view_entries();
    let ghost good = m.wf();
    let mut out: StrMap<ArgSpec> = StrMap::new();
    let mut i: usize = 0;
    while i < m.len()
        invariant
            out.wf(),
            e == m.view_entries(),
            good ==> keys_unique(e),
            i <= e.len(),
            good ==> forall|j: int| 0 <= j < i ==> decl_get(out, (#[trigger] e[j]).0@) == Some(arg_decl(e[j].1)),
            forall|x: Seq<char>| #[trigger] out.spec_get(x) is Some ==> exists|j: int| 0 <= j < i && e[j].0@ == x,
        decreases m.view_entries().len() - i,
    {
        let k = m.key_at(i).clone();
        let v = copy_spec(m.value_at(i));
        let ghost o = out;
        out.insert(k, v);
        proof {
            if good {
                assert forall|j: int| 0 <= j < i + 1 implies decl_get(out, (#[trigger] e[j]).0@) == Some(
                    arg_decl(e[j].1),
                ) by {
                    if j < i {
                        assert(e[j].0@ != e[i as int].0@);
                    }
                }
            }
            assert forall|x: Seq<char>| #[trigger] out.spec_get(x) is Some implies exists|j: int|
                0 <= j < i + 1 && e[j].0@ == x by {
                if x != e[i as int].0@ {
                    assert(o.spec_get(x) is Some);
                }
            }
        }
        i = i + 1;
    }
    proof {
        if good {
        assert forall|x: Seq<char>| #[trigger] decl_get(out, x) == decl_get(*m, x) by {
            if exists|j: int| 0 <= j < e.len() && e[j].0@ == x {
                let j = choose|j: int| 0 <= j < e.len() && e[j].0@ == x;
                lemma_lookup_index(e, x, j);
                assert(decl_get(out, e[j].0@) == Some(arg_decl(e[j].1)));
            } else {
                lemma_lookup_none(e, x);
            }
        }
        }
    }
    out
}

/// A copy of one shortcode.
fn copy_shortcode(sc: &Shortcode) -> (r: Shortcode)
    ensures
        shortcode_wf(*sc) ==> sc_same(r, *sc),
        shortcode_wf(r),
{
    Shortcode {
        kind: sc.kind,
        arguments: copy_args(&sc.arguments),
        template_html: match &sc.template_html {
            Some(t) => Some(t.clone()),
            None => None,
        },
        template_llm: match &sc.template_llm {
            Some(t) => Some(t.clone()),
            None => None,
        },
    }
}

/// The built-in shortcodes, with the project's own added (a project
/// shortcode replaces a built-in of the same name).
pub fn registry_from(cfg: &Config) -> (r: Registry)
    ensures
        r.wf(),
        cfg.shortcodes.wf() && all_wf(cfg.shortcodes) ==> forall|k: Seq<char>|
            #[trigger] cfg.shortcodes.spec_get(k) matches Some(c) ==> (r.map.spec_get(k) matches Some(s) && sc_same(
                s,
                c,
            )),
        cfg.shortcodes.wf() && all_wf(cfg.shortcodes) ==> forall|k: Seq<char>|
            cfg.shortcodes.spec_get(k) is None ==> ((#[trigger] r.map.spec_get(k) is Some <==> builtin_kind(k) is Some)
                && (r.map.spec_get(k) matches Some(s) ==> Some(s.kind) == builtin_kind(k) && s.template_html is None
                && s.template_llm is None)),
        cfg.shortcodes.wf() && all_wf(cfg.shortcodes) ==> forall|k: Seq<char>, a: Seq<char>|
            cfg.shortcodes.spec_get(k) is None ==> #[trigger] arg_of(r.map, k, a) == builtin_arg(k, a),
{
    let ghost e = cfg.shortcodes.view_entries();
    let ghost good = cfg.shortcodes.wf() && all_wf(cfg.shortcodes);
    let mut m: StrMap<Shortcode> = StrMap::new();
    let mut i: usize = 0;
    while i < cfg.shortcodes.len()
        invariant
            m.wf(),
            all_wf(m),
            e == cfg.shortcodes.view_entries(),
            good ==> keys_unique(e),
            good ==> all_wf(cfg.shortcodes),
            i <= e.len(),
            good ==> forall|j: int| 0 <= j < i ==> (m.spec_get((#[trigger] e[j]).0@) matches Some(s) && sc_same(
                s,
                e[j].1,
            )),
            forall|x: Seq<char>| #[trigger] m.spec_get(x) is Some ==> exists|j: int| 0 <= j < i && e[j].0@ == x,
        decreases cfg.shortcodes.view_entries().len() - i,
    {
        let name = cfg.shortcodes.key_at(i);
        let sc = cfg.shortcodes.value_at(i);
        proof {
            if good {
                lemma_lookup_index(e, e[i as int].0@, i as int);
                assert(cfg.shortcodes.spec_get(e[i as int].0@) == Some(e[i as int].1));
                assert(shortcode_wf(e[i as int].1));
            }
        }
        let copy = copy_shortcode(sc);
        let ghost o = m;
        put(&mut m, name.as_str(), copy);
        proof {
            if good {
                assert forall|j: int| 0 <= j < i + 1 implies (m.spec_get((#[trigger] e[j]).0@) matches Some(s)
                    && sc_same(s, e[j].1)) by {
                    if j < i {
                        assert(e[j].0@ != e[i as int].0@);
                    }
                }
            }
            assert forall|x: Seq<char>| #[trigger] m.spec_get(x) is Some implies exists|j: int|
                0 <= j < i + 1 && e[j].0@ == x by {
                if x != e[i as int].0@ {
                    assert(o.spec_get(x) is Some);
                }
            }
        }
        i = i + 1;
    }
    let mut reg = Registry::with_builtins();
    let ghost b = reg.map;
    reg.extend(m);
    proof {
        if good {
        assert forall|k: Seq<char>| #[trigger] cfg.shortcodes.spec_get(k) is Some implies (reg.map.spec_get(k) matches Some(
            s,
        ) && sc_same(s, cfg.shortcodes.spec_get(k).unwrap())) by {
            if exists|j: int| 0 <= j < e.len() && e[j].0@ == k {
                let j = choose|j: int| 0 <= j < e.len() && e[j].0@ == k;
                lemma_lookup_index(e, k, j);
                assert(m.spec_get(e[j].0@) is Some);
            } else {
                lemma_lookup_none(e, k);
            }
        }
        assert forall|k: Seq<char>| cfg.shortcodes.spec_get(k) is None implies m.spec_get(k) is None by {
            if m.spec_get(k) is Some {
                let j = choose|j: int| 0 <= j < i && e[j].0@ == k;
                lemma_lookup_index(e, k, j);
            }
        }
        assert forall|k: Seq<char>, a: Seq<char>| cfg.shortcodes.spec_get(k) is None implies #[trigger] arg_of(
            reg.map,
            k,
            a,
        ) == builtin_arg(k, a) by {
            assert(reg.map.spec_get(k) == b.spec_get(k));
            assert(arg_of(b, k, a) == builtin_arg(k, a));
        }
        }
    }
    reg
}

} // verus!
