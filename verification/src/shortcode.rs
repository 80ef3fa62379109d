//! Shortcode argument values and the registry of known shortcodes
//! (built-ins plus those declared in `brief.toml`).
use crate::strmap::{keys_unique, lemma_lookup_index, lemma_lookup_none, StrMap};
use vstd::prelude::*;

verus! {

/// A parsed shortcode argument value.
#[derive(Debug, PartialEq)]
pub enum ArgValue {
    Ident(String),
    Int(i64),
    Str(String),
    Array(Vec<ArgValue>),
}

/// Two argument values hold the same thing: same variant, same text or
/// number, same items in order.
pub open spec fn same_value(a: ArgValue, b: ArgValue) -> bool
    decreases a,
{
    match (a, b) {
        (ArgValue::Ident(x), ArgValue::Ident(y)) => x@ == y@,
        (ArgValue::Int(x), ArgValue::Int(y)) => x == y,
        (ArgValue::Str(x), ArgValue::Str(y)) => x@ == y@,
        (ArgValue::Array(x), ArgValue::Array(y)) => x@.len() == y@.len() && forall|i: int|
            0 <= i < x@.len() ==> same_value(#[trigger] x@[i], y@[i]),
        _ => false,
    }
}

impl Clone for ArgValue {
    fn clone(&self) -> (r: ArgValue)
        ensures
            same_value(*self, r),
        decreases self,
    {
        match self {
            ArgValue::Ident(s) => {
                ArgValue::Ident(s.clone())
            },
            ArgValue::Int(n) => ArgValue::Int(*n),
            ArgValue::Str(s) => {
                ArgValue::Str(s.clone())
            },
            ArgValue::Array(a) => {
                let mut v: Vec<ArgValue> = Vec::new();
                let mut i: usize = 0;
                while i < a.len()
                    invariant
                        i <= a@.len(),
                        v@.len() == i,
                        forall|j: int| 0 <= j < i ==> same_value(#[trigger] a@[j], v@[j]),
                    decreases a@.len() - i,
                {
                    proof {
                        assert(decreases_to!(*self => a@[i as int]));
                    }
                    let x = a[i].clone();
                    v.push(x);
                    i = i + 1;
                }
                ArgValue::Array(v)
            },
        }
    }
}

impl ArgValue {
    /// The value's type as named in diagnostics.
    pub fn type_label(&self) -> (s: &'static str)
        ensures
            s@ == spec_type_label(*self),
    {
        proof {
            reveal_strlit("ident");
            reveal_strlit("int");
            reveal_strlit("string");
            reveal_strlit("array");
        }
        match self {
            ArgValue::Ident(_) => "ident",
            ArgValue::Int(_) => "int",
            ArgValue::Str(_) => "string",
            ArgValue::Array(_) => "array",
        }
    }

    /// The text of a string or identifier value.
    pub fn as_str(&self) -> (r: Option<&str>)
        ensures
            r matches Some(s) ==> spec_as_str(*self) == Some(s@),
            r is None ==> spec_as_str(*self).is_none(),
    {
        match self {
            ArgValue::Str(s) => Some(s.as_str()),
            ArgValue::Ident(s) => Some(s.as_str()),
            _ => None,
        }
    }
}

/// Name of a value's type.
pub open spec fn spec_type_label(v: ArgValue) -> Seq<char> {
    match v {
        ArgValue::Ident(_) => "ident"@,
        ArgValue::Int(_) => "int"@,
        ArgValue::Str(_) => "string"@,
        ArgValue::Array(_) => "array"@,
    }
}

/// Text of a string or identifier value.
pub open spec fn spec_as_str(v: ArgValue) -> Option<Seq<char>> {
    match v {
        ArgValue::Str(s) => Some(s@),
        ArgValue::Ident(s) => Some(s@),
        _ => None,
    }
}

/// Declared type of a shortcode argument.
#[derive(Clone, Copy, Debug, PartialEq, Eq, Structural)]
pub enum ArgType {
    String,
    Int,
    Ident,
    Array,
}

/// Declaration of one shortcode argument.
#[derive(Clone, Debug)]
pub struct ArgSpec {
    pub ty: ArgType,
    pub required: bool,
    /// 1-based position a positional argument binds to.
    pub position: Option<usize>,
    /// Allowed values, when restricted.
    pub oneof: Option<Vec<String>>,
}

/// Where a shortcode may be used.
#[derive(Clone, Copy, Debug, PartialEq, Eq, Structural)]
pub enum ShortKindOpt {
    Inline,
    Block,
    Both,
}

impl Default for ShortKindOpt {
    fn default() -> (k: ShortKindOpt)
        ensures
            k == ShortKindOpt::Inline,
    {
        ShortKindOpt::Inline
    }
}

/// A shortcode: its form, arguments and optional expansion templates.
#[derive(Clone, Debug)]
pub struct Shortcode {
    pub kind: ShortKindOpt,
    pub arguments: StrMap<ArgSpec>,
    pub template_html: Option<String>,
    pub template_llm: Option<String>,
}

impl Default for Shortcode {
    fn default() -> (s: Shortcode)
        ensures
            s.kind == ShortKindOpt::Inline,
            s.arguments.wf(),
            s.arguments.view_entries().len() == 0,
            s.template_html.is_none(),
            s.template_llm.is_none(),
    {
        Shortcode {
            kind: ShortKindOpt::Inline,
            arguments: StrMap::new(),
            template_html: None,
            template_llm: None,
        }
    }
}

/// All registered shortcodes, by name.
#[derive(Clone, Debug)]
pub struct Registry {
    pub map: StrMap<Shortcode>,
}

/// An argument declaration without a value restriction.
fn arg(ty: ArgType, required: bool, position: Option<usize>) -> (a: ArgSpec)
    ensures
        a.ty == ty,
        a.required == required,
        a.position == position,
        a.oneof.is_none(),
{
    ArgSpec { ty, required, position, oneof: None }
}

/// A shortcode of the given form with the given arguments.
fn shortcode(kind: ShortKindOpt, arguments: StrMap<ArgSpec>) -> (s: Shortcode)
    ensures
        s.kind == kind,
        s.arguments == arguments,
        s.template_html.is_none(),
        s.template_llm.is_none(),
{
    Shortcode { kind, arguments, template_html: None, template_llm: None }
}

/// Every shortcode stored in `m` is well formed.
pub open spec fn all_wf(m: StrMap<Shortcode>) -> bool {
    forall|k: Seq<char>| #[trigger] m.spec_get(k) matches Some(s) ==> shortcode_wf(s)
}

/// Register `s` as `name`.
pub(crate) fn put(m: &mut StrMap<Shortcode>, name: &str, s: Shortcode)
    requires
        old(m).wf(),
        all_wf(*old(m)),
        shortcode_wf(s),
    ensures
        final(m).wf(),
        all_wf(*final(m)),
        final(m).spec_get(name@) == Some(s),
        forall|k: Seq<char>| k != name@ ==> final(m).spec_get(k) == old(m).spec_get(k),
{
    let ghost o = *m;
    m.insert(name.to_string(), s);
    assert forall|k: Seq<char>| (#[trigger] m.spec_get(k) matches Some(v) ==> shortcode_wf(v)) by {
        if k != name@ {
            assert(m.spec_get(k) == o.spec_get(k));
        }
    }
}

/// The shortcode's arguments are well formed (unique names).
pub open spec fn shortcode_wf(s: Shortcode) -> bool {
    s.arguments.wf()
}

/// The form of the built-in shortcode named `k`, if it is one.
pub open spec fn builtin_kind(k: Seq<char>) -> Option<ShortKindOpt> {
    if k == "link"@ {
        Some(ShortKindOpt::Inline)
    } else if k == "image"@ {
        Some(ShortKindOpt::Inline)
    } else if k == "kbd"@ {
        Some(ShortKindOpt::Inline)
    } else if k == "sub"@ {
        Some(ShortKindOpt::Inline)
    } else if k == "sup"@ {
        Some(ShortKindOpt::Inline)
    } else if k == "details"@ {
        Some(ShortKindOpt::Block)
    } else if k == "dl"@ {
        Some(ShortKindOpt::Block)
    } else if k == "t"@ {
        Some(ShortKindOpt::Block)
    } else if k == "code"@ {
        Some(ShortKindOpt::Block)
    } else if k == "callout"@ {
        Some(ShortKindOpt::Block)
    } else if k == "math"@ {
        Some(ShortKindOpt::Both)
    } else if k == "footnote"@ {
        Some(ShortKindOpt::Inline)
    } else if k == "ref"@ {
        Some(ShortKindOpt::Inline)
    } else {
        None
    }
}

/// Index of a built-in name (0 to 12), or -1.
pub open spec fn builtin_index(k: Seq<char>) -> int {
    if k == "link"@ {
        0
    } else if k == "image"@ {
        1
    } else if k == "kbd"@ {
        2
    } else if k == "sub"@ {
        3
    } else if k == "sup"@ {
        4
    } else if k == "details"@ {
        5
    } else if k == "dl"@ {
        6
    } else if k == "t"@ {
        7
    } else if k == "code"@ {
        8
    } else if k == "callout"@ {
        9
    } else if k == "math"@ {
        10
    } else if k == "footnote"@ {
        11
    } else if k == "ref"@ {
        12
    } else {
        -1
    }
}

/// A declaration as plain values: type, required, position, allowed values.
pub open spec fn arg_decl(x: ArgSpec) -> (ArgType, bool, Option<usize>, Option<Seq<Seq<char>>>) {
    (x.ty, x.required, x.position, match x.oneof {
        Some(v) => Some(v@.map_values(|t: String| t@)),
        None => None,
    })
}

/// The declaration of argument `a` of shortcode `k` in `m`, if any.
pub open spec fn arg_of(m: StrMap<Shortcode>, k: Seq<char>, a: Seq<char>) -> Option<
    (ArgType, bool, Option<usize>, Option<Seq<Seq<char>>>),
> {
    match m.spec_get(k) {
        Some(s) => match s.arguments.spec_get(a) {
            Some(x) => Some(arg_decl(x)),
            None => None,
        },
        None => None,
    }
}

/// The argument declarations of the built-ins: `link(url, title)`,
/// `image(src, alt)`, `details(summary)`, `t(align)`, `code(lang)`,
/// `callout(kind)`, `ref(title)`; the others take none.
pub open spec fn builtin_arg(k: Seq<char>, a: Seq<char>) -> Option<
    (ArgType, bool, Option<usize>, Option<Seq<Seq<char>>>),
> {
    if k == "link"@ && a == "url"@ {
        Some((ArgType::String, true, Some(1usize), None))
    } else if k == "link"@ && a == "title"@ {
        Some((ArgType::String, false, None, None))
    } else if k == "image"@ && a == "src"@ {
        Some((ArgType::String, true, None, None))
    } else if k == "image"@ && a == "alt"@ {
        Some((ArgType::String, false, None, None))
    } else if k == "details"@ && a == "summary"@ {
        Some((ArgType::String, true, None, None))
    } else if k == "t"@ && a == "align"@ {
        Some((ArgType::Array, false, None, Some(seq!["left"@, "right"@, "center"@])))
    } else if k == "code"@ && a == "lang"@ {
        Some((ArgType::String, false, Some(1usize), None))
    } else if k == "callout"@ && a == "kind"@ {
        Some((ArgType::String, true, None, Some(seq!["note"@, "tip"@, "important"@, "warning"@, "caution"@])))
    } else if k == "ref"@ && a == "title"@ {
        Some((ArgType::String, true, Some(1usize), None))
    } else {
        None
    }
}

/// The declared arguments of the built-ins, by name.
pub proof fn lemma_builtin_args()
    ensures
        builtin_arg("link"@, "url"@) == Some((ArgType::String, true, Some(1usize), None::<Seq<Seq<char>>>)),
        builtin_arg("link"@, "title"@) == Some((ArgType::String, false, None::<usize>, None::<Seq<Seq<char>>>)),
        builtin_arg("image"@, "src"@) == Some((ArgType::String, true, None::<usize>, None::<Seq<Seq<char>>>)),
        builtin_arg("image"@, "alt"@) == Some((ArgType::String, false, None::<usize>, None::<Seq<Seq<char>>>)),
        builtin_arg("details"@, "summary"@) == Some(
            (ArgType::String, true, None::<usize>, None::<Seq<Seq<char>>>),
        ),
        builtin_arg("t"@, "align"@) == Some(
            (ArgType::Array, false, None::<usize>, Some(seq!["left"@, "right"@, "center"@])),
        ),
        builtin_arg("code"@, "lang"@) == Some((ArgType::String, false, Some(1usize), None::<Seq<Seq<char>>>)),
        builtin_arg("callout"@, "kind"@) == Some(
            (
                ArgType::String,
                true,
                None::<usize>,
                Some(seq!["note"@, "tip"@, "important"@, "warning"@, "caution"@]),
            ),
        ),
        builtin_arg("ref"@, "title"@) == Some((ArgType::String, true, Some(1usize), None::<Seq<Seq<char>>>)),
        forall|a: Seq<char>| builtin_arg("ref"@, a) is Some ==> a == "title"@,
        forall|a: Seq<char>| builtin_arg("callout"@, a) is Some ==> a == "kind"@,
{
    lemma_builtin_kinds();
    lemma_arg_names();
}

/// The argument names of one built-in differ.
proof fn lemma_arg_names()
    ensures
        "url"@ != "title"@,
        "src"@ != "alt"@,
{
    reveal_strlit("url");
    reveal_strlit("title");
    reveal_strlit("src");
    reveal_strlit("alt");
    assert("url"@.len() != "title"@.len());
    assert("src"@[0] != "alt"@[0]);
}

/// Every registered shortcode is a built-in of its built-in form, without
/// templates.
pub open spec fn builtins_only(m: StrMap<Shortcode>) -> bool {
    forall|k: Seq<char>|
        #[trigger] m.spec_get(k) matches Some(s) ==> Some(s.kind) == builtin_kind(k)
            && s.template_html is None && s.template_llm is None
}

/// The form of each built-in, by name.
proof fn lemma_builtin_kinds()
    ensures
        builtin_kind("link"@) == Some(ShortKindOpt::Inline),
        builtin_kind("image"@) == Some(ShortKindOpt::Inline),
        builtin_kind("kbd"@) == Some(ShortKindOpt::Inline),
        builtin_kind("sub"@) == Some(ShortKindOpt::Inline),
        builtin_kind("sup"@) == Some(ShortKindOpt::Inline),
        builtin_kind("details"@) == Some(ShortKindOpt::Block),
        builtin_kind("dl"@) == Some(ShortKindOpt::Block),
        builtin_kind("t"@) == Some(ShortKindOpt::Block),
        builtin_kind("code"@) == Some(ShortKindOpt::Block),
        builtin_kind("callout"@) == Some(ShortKindOpt::Block),
        builtin_kind("math"@) == Some(ShortKindOpt::Both),
        builtin_kind("footnote"@) == Some(ShortKindOpt::Inline),
        builtin_kind("ref"@) == Some(ShortKindOpt::Inline),
        builtin_index("link"@) == 0,
        builtin_index("image"@) == 1,
        builtin_index("kbd"@) == 2,
        builtin_index("sub"@) == 3,
        builtin_index("sup"@) == 4,
        builtin_index("details"@) == 5,
        builtin_index("dl"@) == 6,
        builtin_index("t"@) == 7,
        builtin_index("code"@) == 8,
        builtin_index("callout"@) == 9,
        builtin_index("math"@) == 10,
        builtin_index("footnote"@) == 11,
        builtin_index("ref"@) == 12,
{
    reveal_strlit("link");
    reveal_strlit("image");
    reveal_strlit("kbd");
    reveal_strlit("sub");
    reveal_strlit("sup");
    reveal_strlit("details");
    reveal_strlit("dl");
    reveal_strlit("t");
    reveal_strlit("code");
    reveal_strlit("callout");
    reveal_strlit("math");
    reveal_strlit("footnote");
    reveal_strlit("ref");
    assert("link"@.len() == 4);
    assert("image"@.len() == 5);
    assert("kbd"@.len() == 3);
    assert("sub"@.len() == 3);
    assert("sup"@.len() == 3);
    assert("details"@.len() == 7);
    assert("dl"@.len() == 2);
    assert("t"@.len() == 1);
    assert("code"@.len() == 4);
    assert("callout"@.len() == 7);
    assert("math"@.len() == 4);
    assert("footnote"@.len() == 8);
    assert("ref"@.len() == 3);
    assert("sub"@[0] != "kbd"@[0]);
    assert("sup"@[0] != "kbd"@[0]);
    assert("sup"@[2] != "sub"@[2]);
    assert("code"@[0] != "link"@[0]);
    assert("callout"@[0] != "details"@[0]);
    assert("math"@[0] != "link"@[0]);
    assert("math"@[0] != "code"@[0]);
    assert("ref"@[0] != "kbd"@[0]);
    assert("ref"@[0] != "sub"@[0]);
    assert("ref"@[0] != "sup"@[0]);
    assert(builtin_kind("link"@) == Some(ShortKindOpt::Inline));
    assert(builtin_kind("image"@) == Some(ShortKindOpt::Inline));
    assert(builtin_kind("kbd"@) == Some(ShortKindOpt::Inline));
    assert(builtin_kind("sub"@) == Some(ShortKindOpt::Inline));
    assert(builtin_kind("sup"@) == Some(ShortKindOpt::Inline));
    assert(builtin_kind("details"@) == Some(ShortKindOpt::Block));
    assert(builtin_kind("dl"@) == Some(ShortKindOpt::Block));
    assert(builtin_kind("t"@) == Some(ShortKindOpt::Block));
    assert(builtin_kind("code"@) == Some(ShortKindOpt::Block));
    assert(builtin_kind("callout"@) == Some(ShortKindOpt::Block));
    assert(builtin_kind("math"@) == Some(ShortKindOpt::Both));
    assert(builtin_kind("footnote"@) == Some(ShortKindOpt::Inline));
    assert(builtin_kind("ref"@) == Some(ShortKindOpt::Inline));
}

/// `put` of a built-in shortcode.
fn put_builtin(m: &mut StrMap<Shortcode>, name: &str, s: Shortcode)
    requires
        old(m).wf(),
        all_wf(*old(m)),
        builtins_only(*old(m)),
        shortcode_wf(s),
        builtin_kind(name@) == Some(s.kind),
        s.template_html is None,
        s.template_llm is None,
    ensures
        final(m).wf(),
        all_wf(*final(m)),
        builtins_only(*final(m)),
        final(m).spec_get(name@) == Some(s),
        forall|k: Seq<char>| k != name@ ==> final(m).spec_get(k) == old(m).spec_get(k),
{
    let ghost o = *m;
    put(m, name, s);
    assert forall|k: Seq<char>| (#[trigger] m.spec_get(k)) is Some implies Some(m.spec_get(k).unwrap().kind)
        == builtin_kind(k) && m.spec_get(k).unwrap().template_html is None
        && m.spec_get(k).unwrap().template_llm is None by {
        if k != name@ {
            assert(m.spec_get(k) == o.spec_get(k));
        }
    }
}

impl Registry {
    /// The registry is well formed: unique names, each shortcode well formed.
    pub open spec fn wf(&self) -> bool {
        &&& self.map.wf()
        &&& all_wf(self.map)
    }

    /// The built-in shortcodes: link, image, kbd, sub, sup, details, dl, t,
    /// code, callout, math, footnote, ref, with their argument declarations
    /// (`builtin_arg`).
    pub fn with_builtins() -> (r: Registry)
        ensures
            r.wf(),
            forall|k: Seq<char>| (#[trigger] r.map.spec_get(k)) is Some <==> builtin_kind(k) is Some,
            forall|k: Seq<char>|
                #[trigger] r.map.spec_get(k) matches Some(s) ==> Some(s.kind) == builtin_kind(k)
                    && s.template_html is None && s.template_llm is None,
            forall|k: Seq<char>, a: Seq<char>| #[trigger] arg_of(r.map, k, a) == builtin_arg(k, a),
    {
        proof {
            lemma_builtin_kinds();
            lemma_arg_names();
        }
        let mut m: StrMap<Shortcode> = StrMap::new();

        let mut a: StrMap<ArgSpec> = StrMap::new();
        a.insert(String::from_str("url"), arg(ArgType::String, true, Some(1)));
        a.insert(String::from_str("title"), arg(ArgType::String, false, None));
        let ghost link_a = a;
        put_builtin(&mut m, "link", shortcode(ShortKindOpt::Inline, a));

        let mut a: StrMap<ArgSpec> = StrMap::new();
        a.insert(String::from_str("src"), arg(ArgType::String, true, None));
        a.insert(String::from_str("alt"), arg(ArgType::String, false, None));
        let ghost image_a = a;
        put_builtin(&mut m, "image", shortcode(ShortKindOpt::Inline, a));

        let e1: StrMap<ArgSpec> = StrMap::new();
        let ghost kbd_a = e1;
        put_builtin(&mut m, "kbd", shortcode(ShortKindOpt::Inline, e1));
        let e2: StrMap<ArgSpec> = StrMap::new();
        let ghost sub_a = e2;
        put_builtin(&mut m, "sub", shortcode(ShortKindOpt::Inline, e2));
        let e3: StrMap<ArgSpec> = StrMap::new();
        let ghost sup_a = e3;
        put_builtin(&mut m, "sup", shortcode(ShortKindOpt::Inline, e3));

        let mut a: StrMap<ArgSpec> = StrMap::new();
        a.insert(String::from_str("summary"), arg(ArgType::String, true, None));
        let ghost details_a = a;
        put_builtin(&mut m, "details", shortcode(ShortKindOpt::Block, a));

        let e4: StrMap<ArgSpec> = StrMap::new();
        let ghost dl_a = e4;
        put_builtin(&mut m, "dl", shortcode(ShortKindOpt::Block, e4));

        let mut aligns: Vec<String> = Vec::new();
        aligns.push(String::from_str("left"));
        aligns.push(String::from_str("right"));
        aligns.push(String::from_str("center"));
        let mut a: StrMap<ArgSpec> = StrMap::new();
        a.insert(
            String::from_str("align"),
            ArgSpec { ty: ArgType::Array, required: false, position: None, oneof: Some(aligns) },
        );
        let ghost t_a = a;
        put_builtin(&mut m, "t", shortcode(ShortKindOpt::Block, a));

        let mut a: StrMap<ArgSpec> = StrMap::new();
        a.insert(String::from_str("lang"), arg(ArgType::String, false, Some(1)));
        let ghost code_a = a;
        put_builtin(&mut m, "code", shortcode(ShortKindOpt::Block, a));

        let mut kinds: Vec<String> = Vec::new();
        kinds.push(String::from_str("note"));
        kinds.push(String::from_str("tip"));
        kinds.push(String::from_str("important"));
        kinds.push(String::from_str("warning"));
        kinds.push(String::from_str("caution"));
        let mut a: StrMap<ArgSpec> = StrMap::new();
        a.insert(
            String::from_str("kind"),
            ArgSpec { ty: ArgType::String, required: true, position: None, oneof: Some(kinds) },
        );
        let ghost callout_a = a;
        put_builtin(&mut m, "callout", shortcode(ShortKindOpt::Block, a));

        let e5: StrMap<ArgSpec> = StrMap::new();
        let ghost math_a = e5;
        put_builtin(&mut m, "math", shortcode(ShortKindOpt::Both, e5));
        let e6: StrMap<ArgSpec> = StrMap::new();
        let ghost footnote_a = e6;
        put_builtin(&mut m, "footnote", shortcode(ShortKindOpt::Inline, e6));

        let mut a: StrMap<ArgSpec> = StrMap::new();
        a.insert(String::from_str("title"), arg(ArgType::String, true, Some(1)));
        let ghost ref_a = a;
        put_builtin(&mut m, "ref", shortcode(ShortKindOpt::Inline, a));

        proof {
            reveal_strlit("note");
            reveal_strlit("tip");
            reveal_strlit("important");
            reveal_strlit("warning");
            reveal_strlit("caution");
            reveal_strlit("left");
            reveal_strlit("right");
            reveal_strlit("center");
            assert forall|k: Seq<char>, a: Seq<char>| #[trigger] arg_of(m, k, a) == builtin_arg(k, a) by {
                if k == "link"@ {
                    assert(m.spec_get(k).unwrap().arguments == link_a);
                } else if k == "image"@ {
                    assert(m.spec_get(k).unwrap().arguments == image_a);
                } else if k == "kbd"@ {
                    assert(m.spec_get(k).unwrap().arguments == kbd_a);
                } else if k == "sub"@ {
                    assert(m.spec_get(k).unwrap().arguments == sub_a);
                } else if k == "sup"@ {
                    assert(m.spec_get(k).unwrap().arguments == sup_a);
                } else if k == "details"@ {
                    assert(m.spec_get(k).unwrap().arguments == details_a);
                } else if k == "dl"@ {
                    assert(m.spec_get(k).unwrap().arguments == dl_a);
                } else if k == "t"@ {
                    assert(m.spec_get(k).unwrap().arguments == t_a);
                    if a == "align"@ {
                        assert(arg_decl(t_a.spec_get(a).unwrap()).3 =~= Some(seq!["left"@, "right"@, "center"@]));
                    }
                } else if k == "code"@ {
                    assert(m.spec_get(k).unwrap().arguments == code_a);
                } else if k == "callout"@ {
                    assert(m.spec_get(k).unwrap().arguments == callout_a);
                    if a == "kind"@ {
                        assert(arg_decl(callout_a.spec_get(a).unwrap()).3 =~= Some(
                            seq!["note"@, "tip"@, "important"@, "warning"@, "caution"@],
                        ));
                    }
                } else if k == "math"@ {
                    assert(m.spec_get(k).unwrap().arguments == math_a);
                } else if k == "footnote"@ {
                    assert(m.spec_get(k).unwrap().arguments == footnote_a);
                } else if k == "ref"@ {
                    assert(m.spec_get(k).unwrap().arguments == ref_a);
                } else {
                    assert(builtin_kind(k) is None);
                }
            }
        }
        Registry { map: m }
    }
    /// The shortcode registered as `name`.
    pub fn get(&self, name: &str) -> (r: Option<&Shortcode>)
        ensures
            r matches Some(s) ==> self.map.spec_get(name@) == Some(*s) && (self.wf() ==> shortcode_wf(*s)),
            r is None ==> self.map.spec_get(name@).is_none(),
    {
        self.map.get(name)
    }

    /// Add (or replace) every shortcode of `other`.
    pub fn extend(&mut self, other: StrMap<Shortcode>)
        requires
            old(self).wf(),
            other.wf(),
            all_wf(other),
        ensures
            final(self).wf(),
            forall|k: Seq<char>|
                other.spec_get(k).is_some() ==> #[trigger] final(self).map.spec_get(k)
                    == other.spec_get(k),
            forall|k: Seq<char>|
                other.spec_get(k).is_none() ==> #[trigger] final(self).map.spec_get(k) == old(
                    self,
                ).map.spec_get(k),
    {
        let ghost orig = other.view_entries();
        let ghost start = self.map;
        let mut e = other.into_entries();
        let n = e.len();
        proof {
            assert forall|j: int| 0 <= j < orig.len() implies shortcode_wf(#[trigger] orig[j].1) by {
                lemma_lookup_index(orig, orig[j].0@, j);
                assert(other.spec_get(orig[j].0@) == Some(orig[j].1));
            }
        }
        while e.len() > 0
            invariant
                self.wf(),
                keys_unique(orig),
                n == orig.len(),
                e@.len() <= n,
                e@ == orig.take(e@.len() as int),
                forall|j: int| 0 <= j < orig.len() ==> shortcode_wf(#[trigger] orig[j].1),
                forall|j: int|
                    e@.len() <= j < n ==> self.map.spec_get(#[trigger] orig[j].0@) == Some(orig[j].1),
                forall|k: Seq<char>|
                    (forall|j: int| e@.len() <= j < n ==> (#[trigger] orig[j]).0@ != k) ==> #[trigger] self.map.spec_get(k)
                        == start.spec_get(k),
            decreases e@.len(),
        {
            let ghost r = e@.len() - 1;
            let (k, v) = e.pop().unwrap();
            assert(orig[r] == (k, v));
            let ghost before = self.map;
            put(&mut self.map, k.as_str(), v);
            assert(e@ =~= orig.take(r));
            assert forall|j: int| e@.len() <= j < n implies self.map.spec_get(
                #[trigger] orig[j].0@,
            ) == Some(orig[j].1) by {
                if j != r {
                    assert(orig[j].0@ != orig[r].0@);
                }
            }
        }
        proof {
            assert forall|k: Seq<char>| other.spec_get(k).is_some() implies #[trigger] self.map.spec_get(k)
                == other.spec_get(k) by {
                if forall|j: int| 0 <= j < n ==> (#[trigger] orig[j]).0@ != k {
                    lemma_lookup_none(orig, k);
                } else {
                    let j = choose|j: int| 0 <= j < n && (#[trigger] orig[j]).0@ == k;
                    lemma_lookup_index(orig, k, j);
                }
            }
            assert forall|k: Seq<char>| other.spec_get(k).is_none() implies #[trigger] self.map.spec_get(k)
                == start.spec_get(k) by {
                assert forall|j: int| 0 <= j < n implies (#[trigger] orig[j]).0@ != k by {
                    if orig[j].0@ == k {
                        lemma_lookup_index(orig, k, j);
                    }
                }
            }
        }
    }
}

} // verus!
