//! Turning a resolved theme into CSS rules: one rule per token and generator, per
//! static utility and per raw utility, multiplied out by the variants each group
//! opts into, and kept only where the class is used.
use vstd::prelude::*;

use std::collections::HashSet;

use crate::maps::{
    pair_views, string_set, string_set_contains, string_views, token_map_pairs,
};
use crate::text::{
    chars_of, find_char, owned, push_char, push_str, slice_chars, split,
    split_chars, split_once, str_eq, string_of, trim, trimmed,
};
use crate::theme::{group_name, theme_group, variants_of, Group, ResolvedTheme, ThemeModel};

verus! {

broadcast use vstd::seq_lib::group_seq_properties;

/// The state variants: their name in a class and the pseudo-class they stand for.
pub open spec fn state_table() -> Seq<(Seq<char>, Seq<char>)> {
    seq![
        ("hover"@, ":hover"@),
        ("focus"@, ":focus"@),
        ("focus-visible"@, ":focus-visible"@),
        ("active"@, ":active"@),
        ("disabled"@, ":disabled"@),
        ("first"@, ":first-child"@),
        ("last"@, ":last-child"@),
    ]
}

/// A sequence of pairs of string slices as character sequences.
pub open spec fn str_pairs(ps: Seq<(&str, &str)>) -> Seq<(Seq<char>, Seq<char>)> {
    ps.map_values(|p: (&str, &str)| (p.0@, p.1@))
}

/// The state variants, in the order they are listed.
pub fn state_pseudos() -> (r: Vec<(&'static str, &'static str)>)
    ensures
        str_pairs(r@) == state_table(),
{
    let r = vec![
        ("hover", ":hover"),
        ("focus", ":focus"),
        ("focus-visible", ":focus-visible"),
        ("active", ":active"),
        ("disabled", ":disabled"),
        ("first", ":first-child"),
        ("last", ":last-child"),
    ];
    assert(str_pairs(r@) =~= state_table());
    r
}

/// The pseudo-class of the first state variant named `state`.
pub open spec fn pseudo_of(state: Seq<char>) -> Option<Seq<char>> {
    pseudo_in(state_table(), state)
}

pub open spec fn pseudo_in(t: Seq<(Seq<char>, Seq<char>)>, state: Seq<char>) -> Option<Seq<char>>
    decreases t.len(),
{
    if t.len() == 0 {
        None
    } else if t[0].0 == state {
        Some(t[0].1)
    } else {
        pseudo_in(t.drop_first(), state)
    }
}

/// Whether `name` is the name of a state variant.
pub open spec fn is_state_name(name: Seq<char>) -> bool {
    pseudo_of(name) is Some
}

/// The pseudo-class of the state variant named `state`, if there is one.
pub fn pseudo_for(state: &str) -> (r: Option<&'static str>)
    ensures
        match r {
            Some(p) => pseudo_of(state@) == Some(p@),
            None => pseudo_of(state@) is None,
        },
{
    let t = state_pseudos();
    let mut i: usize = 0;
    while i < t.len()
        invariant
            str_pairs(t@) == state_table(),
            i <= t.len(),
            pseudo_in(state_table().skip(i as int), state@) == pseudo_of(state@),
        decreases t.len() - i,
    {
        assert(state_table().skip(i as int)[0] == state_table()[i as int]);
        assert(state_table().skip(i as int).drop_first() == state_table().skip(i + 1));
        if str_eq(t[i].0, state) {
            return Some(t[i].1);
        }
        i += 1;
    }
    None
}

/// Whether `c` is escaped in a selector.
pub open spec fn needs_escape(c: char) -> bool {
    c == ':' || c == '.' || c == '/'
}

/// A class name as it appears in a selector: `:`, `.` and `/` escaped with `\`.
pub open spec fn escaped(class: Seq<char>) -> Seq<char>
    decreases class.len(),
{
    if class.len() == 0 {
        Seq::empty()
    } else {
        let c = class.last();
        escaped(class.drop_last()) + if needs_escape(c) {
            seq!['\\', c]
        } else {
            seq![c]
        }
    }
}

/// `class` escaped for use in a selector.
pub fn escape_class(class: &str) -> (r: String)
    ensures
        r@ == escaped(class@),
{
    let cs = crate::text::chars_of(class);
    let mut out = String::new();
    let mut i: usize = 0;
    while i < cs.len()
        invariant
            cs@ == class@,
            i <= cs.len(),
            out@ == escaped(cs@.take(i as int)),
        decreases cs.len() - i,
    {
        let c = cs[i];
        if c == ':' || c == '.' || c == '/' {
            push_char(&mut out, '\\');
        }
        push_char(&mut out, c);
        assert(cs@.take(i + 1).drop_last() == cs@.take(i as int));
        i += 1;
    }
    assert(cs@.take(cs.len() as int) == cs@);
    out
}


/// One declaration, `prop: value`.
#[derive(Debug, Clone)]
pub struct Decl {
    pub prop: String,
    pub value: String,
}

/// A declaration as plain values.
pub struct DeclView {
    pub prop: Seq<char>,
    pub value: Seq<char>,
}

impl View for Decl {
    type V = DeclView;

    open spec fn view(&self) -> DeclView {
        DeclView { prop: self.prop@, value: self.value@ }
    }
}

/// Declarations as plain values.
pub open spec fn decl_views(ds: Seq<Decl>) -> Seq<DeclView> {
    ds.map_values(|d: Decl| d@)
}

/// One CSS rule: the class it styles, the pseudo-classes after it, the minimum
/// width it applies from, its declarations, and the preset entry it comes from.
#[derive(Debug, Clone)]
pub struct Rule {
    pub class: String,
    pub pseudos: String,
    pub media: Option<String>,
    pub decls: Vec<Decl>,
    pub src: String,
}

/// A rule as plain values.
pub struct RuleView {
    pub class: Seq<char>,
    pub pseudos: Seq<char>,
    pub media: Option<Seq<char>>,
    pub decls: Seq<DeclView>,
    pub src: Seq<char>,
}

impl View for Rule {
    type V = RuleView;

    open spec fn view(&self) -> RuleView {
        RuleView {
            class: self.class@,
            pseudos: self.pseudos@,
            media: crate::text::opt_str(self.media),
            decls: decl_views(self.decls@),
            src: self.src@,
        }
    }
}

/// Rules as plain values.
pub open spec fn rule_views(rs: Seq<Rule>) -> Seq<RuleView> {
    rs.map_values(|r: Rule| r@)
}

/// The selector of a rule: `.`, the escaped class, then the pseudo-classes.
pub open spec fn selector_of(r: RuleView) -> Seq<char> {
    "."@ + escaped(r.class) + r.pseudos
}

impl Rule {
    /// The selector of the rule.
    pub fn selector(&self) -> (s: String)
        ensures
            s@ == selector_of(self@),
    {
        let mut s = owned(".");
        let e = escape_class(self.class.as_str());
        push_str(&mut s, e.as_str());
        push_str(&mut s, self.pseudos.as_str());
        s
    }
}

/// A copy of a list of declarations.
pub fn copy_decls(ds: &Vec<Decl>) -> (r: Vec<Decl>)
    ensures
        decl_views(r@) == decl_views(ds@),
{
    let mut r: Vec<Decl> = Vec::new();
    let mut i: usize = 0;
    while i < ds.len()
        invariant
            i <= ds.len(),
            decl_views(r@) == decl_views(ds@).take(i as int),
        decreases ds.len() - i,
    {
        let ghost prev = r@;
        r.push(Decl { prop: ds[i].prop.clone(), value: ds[i].value.clone() });
        assert(decl_views(r@) =~= decl_views(prev).push(ds@[i as int]@));
        assert(decl_views(ds@).take(i + 1) =~= decl_views(ds@).take(i as int).push(ds@[i as int]@));
        i += 1;
    }
    assert(decl_views(ds@).take(ds.len() as int) == decl_views(ds@));
    r
}

/// A generator: every token of `group` gives a utility `prefix-key` that sets each of
/// `props` to the token's value.
pub struct Generator {
    pub group: Group,
    pub prefix: &'static str,
    pub props: Vec<&'static str>,
}

/// Generators as plain values.
pub open spec fn generator_views(gs: Seq<Generator>) -> Seq<(Group, Seq<char>, Seq<Seq<char>>)> {
    gs.map_values(|g: Generator| (g.group, g.prefix@, g.props@.map_values(|p: &str| p@)))
}

/// Static utilities as plain values.
pub open spec fn static_views(ss: Seq<(&str, Vec<(&str, &str)>)>) -> Seq<(Seq<char>, Seq<(Seq<char>, Seq<char>)>)> {
    ss.map_values(|s: (&str, Vec<(&str, &str)>)| (s.0@, str_pairs(s.1@)))
}

/// The generators: the group each reads, the class prefix, and the properties its value goes to.
pub open spec fn generator_table() -> Seq<(Group, Seq<char>, Seq<Seq<char>>)> {
    seq![
        (Group::Colors, "bg"@, seq!["background-color"@]),
        (Group::Colors, "text"@, seq!["color"@]),
        (Group::Colors, "border"@, seq!["border-color"@]),
        (Group::Spacing, "p"@, seq!["padding"@]),
        (Group::Spacing, "px"@, seq!["padding-left"@, "padding-right"@]),
        (Group::Spacing, "py"@, seq!["padding-top"@, "padding-bottom"@]),
        (Group::Spacing, "pt"@, seq!["padding-top"@]),
        (Group::Spacing, "pr"@, seq!["padding-right"@]),
        (Group::Spacing, "pb"@, seq!["padding-bottom"@]),
        (Group::Spacing, "pl"@, seq!["padding-left"@]),
        (Group::Spacing, "m"@, seq!["margin"@]),
        (Group::Spacing, "mx"@, seq!["margin-left"@, "margin-right"@]),
        (Group::Spacing, "my"@, seq!["margin-top"@, "margin-bottom"@]),
        (Group::Spacing, "mt"@, seq!["margin-top"@]),
        (Group::Spacing, "mr"@, seq!["margin-right"@]),
        (Group::Spacing, "mb"@, seq!["margin-bottom"@]),
        (Group::Spacing, "ml"@, seq!["margin-left"@]),
        (Group::Spacing, "gap"@, seq!["gap"@]),
        (Group::Sizes, "w"@, seq!["width"@]),
        (Group::Sizes, "h"@, seq!["height"@]),
        (Group::Sizes, "max-w"@, seq!["max-width"@]),
        (Group::Sizes, "min-h"@, seq!["min-height"@]),
        (Group::Fonts, "font"@, seq!["font-family"@]),
        (Group::Text, "text"@, seq!["font-size"@]),
        (Group::Radius, "rounded"@, seq!["border-radius"@]),
        (Group::Shadows, "shadow"@, seq!["box-shadow"@]),
    ]
}

/// The static utilities: their class and their declarations.
pub open spec fn static_table() -> Seq<(Seq<char>, Seq<(Seq<char>, Seq<char>)>)> {
    seq![
        ("flex"@, seq![("display"@, "flex"@)]),
        ("inline-flex"@, seq![("display"@, "inline-flex"@)]),
        ("grid"@, seq![("display"@, "grid"@)]),
        ("block"@, seq![("display"@, "block"@)]),
        ("inline-block"@, seq![("display"@, "inline-block"@)]),
        ("inline"@, seq![("display"@, "inline"@)]),
        ("hidden"@, seq![("display"@, "none"@)]),
        ("flex-row"@, seq![("flex-direction"@, "row"@)]),
        ("flex-col"@, seq![("flex-direction"@, "column"@)]),
        ("flex-wrap"@, seq![("flex-wrap"@, "wrap"@)]),
        ("items-start"@, seq![("align-items"@, "flex-start"@)]),
        ("items-center"@, seq![("align-items"@, "center"@)]),
        ("items-end"@, seq![("align-items"@, "flex-end"@)]),
        ("justify-start"@, seq![("justify-content"@, "flex-start"@)]),
        ("justify-center"@, seq![("justify-content"@, "center"@)]),
        ("justify-between"@, seq![("justify-content"@, "space-between"@)]),
        ("justify-end"@, seq![("justify-content"@, "flex-end"@)]),
        ("text-left"@, seq![("text-align"@, "left"@)]),
        ("text-center"@, seq![("text-align"@, "center"@)]),
        ("text-right"@, seq![("text-align"@, "right"@)]),
        ("font-bold"@, seq![("font-weight"@, "700"@)]),
        ("font-normal"@, seq![("font-weight"@, "400"@)]),
        ("italic"@, seq![("font-style"@, "italic"@)]),
        ("underline"@, seq![("text-decoration-line"@, "underline"@)]),
        ("static"@, seq![("position"@, "static"@)]),
        ("relative"@, seq![("position"@, "relative"@)]),
        ("absolute"@, seq![("position"@, "absolute"@)]),
        ("fixed"@, seq![("position"@, "fixed"@)]),
        ("sticky"@, seq![("position"@, "sticky"@)]),
        ("w-full"@, seq![("width"@, "100%"@)]),
        ("h-full"@, seq![("height"@, "100%"@)]),
        ("overflow-hidden"@, seq![("overflow"@, "hidden"@)]),
        ("overflow-auto"@, seq![("overflow"@, "auto"@)]),
        ("rounded-full"@, seq![("border-radius"@, "9999px"@)]),
        ("border"@, seq![("border-width"@, "1px"@), ("border-style"@, "solid"@)]),
        ("cursor-pointer"@, seq![("cursor"@, "pointer"@)]),
    ]
}

/// The generators, in the order their rules are emitted.
pub fn generators() -> (r: Vec<Generator>)
    ensures
        generator_views(r@) == generator_table(),
{
    let r = vec![
        Generator { group: Group::Colors, prefix: "bg", props: vec!["background-color"] },
        Generator { group: Group::Colors, prefix: "text", props: vec!["color"] },
        Generator { group: Group::Colors, prefix: "border", props: vec!["border-color"] },
        Generator { group: Group::Spacing, prefix: "p", props: vec!["padding"] },
        Generator { group: Group::Spacing, prefix: "px", props: vec!["padding-left", "padding-right"] },
        Generator { group: Group::Spacing, prefix: "py", props: vec!["padding-top", "padding-bottom"] },
        Generator { group: Group::Spacing, prefix: "pt", props: vec!["padding-top"] },
        Generator { group: Group::Spacing, prefix: "pr", props: vec!["padding-right"] },
        Generator { group: Group::Spacing, prefix: "pb", props: vec!["padding-bottom"] },
        Generator { group: Group::Spacing, prefix: "pl", props: vec!["padding-left"] },
        Generator { group: Group::Spacing, prefix: "m", props: vec!["margin"] },
        Generator { group: Group::Spacing, prefix: "mx", props: vec!["margin-left", "margin-right"] },
        Generator { group: Group::Spacing, prefix: "my", props: vec!["margin-top", "margin-bottom"] },
        Generator { group: Group::Spacing, prefix: "mt", props: vec!["margin-top"] },
        Generator { group: Group::Spacing, prefix: "mr", props: vec!["margin-right"] },
        Generator { group: Group::Spacing, prefix: "mb", props: vec!["margin-bottom"] },
        Generator { group: Group::Spacing, prefix: "ml", props: vec!["margin-left"] },
        Generator { group: Group::Spacing, prefix: "gap", props: vec!["gap"] },
        Generator { group: Group::Sizes, prefix: "w", props: vec!["width"] },
        Generator { group: Group::Sizes, prefix: "h", props: vec!["height"] },
        Generator { group: Group::Sizes, prefix: "max-w", props: vec!["max-width"] },
        Generator { group: Group::Sizes, prefix: "min-h", props: vec!["min-height"] },
        Generator { group: Group::Fonts, prefix: "font", props: vec!["font-family"] },
        Generator { group: Group::Text, prefix: "text", props: vec!["font-size"] },
        Generator { group: Group::Radius, prefix: "rounded", props: vec!["border-radius"] },
        Generator { group: Group::Shadows, prefix: "shadow", props: vec!["box-shadow"] },
    ];
    assert(generator_views(r@) =~~= generator_table());
    r
}

/// The static utilities, in the order their rules are emitted.
pub fn statics() -> (r: Vec<(&'static str, Vec<(&'static str, &'static str)>)>)
    ensures
        static_views(r@) == static_table(),
{
    let r = vec![
        ("flex", vec![("display", "flex")]),
        ("inline-flex", vec![("display", "inline-flex")]),
        ("grid", vec![("display", "grid")]),
        ("block", vec![("display", "block")]),
        ("inline-block", vec![("display", "inline-block")]),
        ("inline", vec![("display", "inline")]),
        ("hidden", vec![("display", "none")]),
        ("flex-row", vec![("flex-direction", "row")]),
        ("flex-col", vec![("flex-direction", "column")]),
        ("flex-wrap", vec![("flex-wrap", "wrap")]),
        ("items-start", vec![("align-items", "flex-start")]),
        ("items-center", vec![("align-items", "center")]),
        ("items-end", vec![("align-items", "flex-end")]),
        ("justify-start", vec![("justify-content", "flex-start")]),
        ("justify-center", vec![("justify-content", "center")]),
        ("justify-between", vec![("justify-content", "space-between")]),
        ("justify-end", vec![("justify-content", "flex-end")]),
        ("text-left", vec![("text-align", "left")]),
        ("text-center", vec![("text-align", "center")]),
        ("text-right", vec![("text-align", "right")]),
        ("font-bold", vec![("font-weight", "700")]),
        ("font-normal", vec![("font-weight", "400")]),
        ("italic", vec![("font-style", "italic")]),
        ("underline", vec![("text-decoration-line", "underline")]),
        ("static", vec![("position", "static")]),
        ("relative", vec![("position", "relative")]),
        ("absolute", vec![("position", "absolute")]),
        ("fixed", vec![("position", "fixed")]),
        ("sticky", vec![("position", "sticky")]),
        ("w-full", vec![("width", "100%")]),
        ("h-full", vec![("height", "100%")]),
        ("overflow-hidden", vec![("overflow", "hidden")]),
        ("overflow-auto", vec![("overflow", "auto")]),
        ("rounded-full", vec![("border-radius", "9999px")]),
        ("border", vec![("border-width", "1px"), ("border-style", "solid")]),
        ("cursor-pointer", vec![("cursor", "pointer")]),
    ];
    assert(static_views(r@) =~~= static_table());
    r
}

/// A utility before variants are applied: the group whose variants it takes, its
/// class, its declarations, and the preset entry it comes from.
pub struct BaseRule {
    pub group_key: String,
    pub class: String,
    pub decls: Vec<Decl>,
    pub src: String,
}

/// A base rule as plain values.
pub struct BaseView {
    pub group_key: Seq<char>,
    pub class: Seq<char>,
    pub decls: Seq<DeclView>,
    pub src: Seq<char>,
}

impl View for BaseRule {
    type V = BaseView;

    open spec fn view(&self) -> BaseView {
        BaseView {
            group_key: self.group_key@,
            class: self.class@,
            decls: decl_views(self.decls@),
            src: self.src@,
        }
    }
}

pub open spec fn base_views(bs: Seq<BaseRule>) -> Seq<BaseView> {
    bs.map_values(|b: BaseRule| b@)
}

/// The values `f` keeps from `xs`, in order.
pub open spec fn somes<T, U>(xs: Seq<T>, f: spec_fn(T) -> Option<U>) -> Seq<U>
    decreases xs.len(),
{
    if xs.len() == 0 {
        Seq::empty()
    } else {
        somes(xs.drop_last(), f) + match f(xs.last()) {
            Some(u) => seq![u],
            None => Seq::empty(),
        }
    }
}

/// The declaration a `;`-separated chunk of raw CSS gives, if it is `prop: value`.
pub open spec fn raw_decl(piece: Seq<char>) -> Option<DeclView> {
    let c = trim(piece);
    if c.len() == 0 {
        None
    } else {
        match split_once(c, ':') {
            Some((p, v)) => Some(DeclView { prop: trim(p), value: trim(v) }),
            None => None,
        }
    }
}

/// The declarations of raw CSS such as `padding: 1rem; color: white;`: each
/// `;`-separated chunk with a `:` in it, trimmed; other chunks are dropped.
pub open spec fn raw_decls(css: Seq<char>) -> Seq<DeclView> {
    somes(split(css, ';'), |p: Seq<char>| raw_decl(p))
}

/// Reads the declarations of raw CSS.
pub fn parse_raw_decls(css: &str) -> (r: Vec<Decl>)
    ensures
        decl_views(r@) == raw_decls(css@),
{
    let cv = chars_of(css);
    let pieces = split_chars(&cv, ';');
    let ghost ps = split(css@, ';');
    let ghost f = |p: Seq<char>| raw_decl(p);
    let mut out: Vec<Decl> = Vec::new();
    let mut i: usize = 0;
    while i < pieces.len()
        invariant
            pieces@.len() == ps.len(),
            forall|k: int| 0 <= k < ps.len() ==> #[trigger] pieces@[k]@ == ps[k],
            f == (|p: Seq<char>| raw_decl(p)),
            i <= pieces.len(),
            decl_views(out@) == somes(ps.take(i as int), f),
        decreases pieces.len() - i,
    {
        assert(ps.take(i + 1).drop_last() == ps.take(i as int));
        assert(ps.take(i + 1).last() == ps[i as int]);
        let chunk = trimmed(&pieces[i]);
        if chunk.len() > 0 {
            match find_char(&chunk, ':') {
                Some(j) => {
                    let before = slice_chars(&chunk, 0, j);
                    let after = slice_chars(&chunk, j + 1, chunk.len());
                    assert(before@ == chunk@.take(j as int));
                    assert(after@ == chunk@.skip(j + 1));
                    let prop = trimmed(&before);
                    let value = trimmed(&after);
                    let d = Decl { prop: string_of(&prop), value: string_of(&value) };
                    let ghost prev = out@;
                    out.push(d);
                    assert(decl_views(out@) =~= decl_views(prev).push(d@));
                },
                None => {},
            }
        }
        i += 1;
    }
    assert(ps.take(pieces.len() as int) == ps);
    out
}


/// The declarations a generator gives for one token value.
pub open spec fn gen_decls(props: Seq<Seq<char>>, value: Seq<char>) -> Seq<DeclView> {
    props.map_values(|p: Seq<char>| DeclView { prop: p, value })
}

/// The utility a generator makes of one token.
pub open spec fn gen_base(
    prefix: Seq<char>,
    g: (Group, Seq<char>, Seq<Seq<char>>),
    e: (Seq<char>, Seq<char>),
) -> BaseView {
    BaseView {
        group_key: group_name(g.0),
        class: prefix + g.1 + "-"@ + e.0,
        decls: gen_decls(g.2, e.1),
        src: group_name(g.0) + "."@ + e.0,
    }
}

/// The utilities generators `gs` make of theme `t`, generator by generator, token
/// by token.
pub open spec fn gen_bases(t: ThemeModel, gs: Seq<(Group, Seq<char>, Seq<Seq<char>>)>) -> Seq<
    BaseView,
>
    decreases gs.len(),
{
    if gs.len() == 0 {
        Seq::empty()
    } else {
        gen_bases(t, gs.drop_last()) + theme_group(t, gs.last().0).map_values(
            |e: (Seq<char>, Seq<char>)| gen_base(t.options.prefix, gs.last(), e),
        )
    }
}

/// The utility a static entry gives.
pub open spec fn static_base(prefix: Seq<char>, s: (Seq<char>, Seq<(Seq<char>, Seq<char>)>)) -> BaseView {
    BaseView {
        group_key: "static"@,
        class: prefix + s.0,
        decls: s.1.map_values(|d: (Seq<char>, Seq<char>)| DeclView { prop: d.0, value: d.1 }),
        src: "static."@ + s.0,
    }
}

/// The utility a `[utilities]` entry gives.
pub open spec fn utility_base(prefix: Seq<char>, e: (Seq<char>, Seq<char>)) -> BaseView {
    BaseView {
        group_key: "utilities"@,
        class: prefix + e.0,
        decls: raw_decls(e.1),
        src: "utilities."@ + e.0,
    }
}

/// All utilities of a theme before variants: generated ones, then statics, then raw
/// utilities, each class carrying the prefix.
pub open spec fn bases(t: ThemeModel) -> Seq<BaseView> {
    gen_bases(t, generator_table()) + static_table().map_values(
        |s: (Seq<char>, Seq<(Seq<char>, Seq<char>)>)| static_base(t.options.prefix, s),
    ) + t.utilities.map_values(|e: (Seq<char>, Seq<char>)| utility_base(t.options.prefix, e))
}

fn make_decls(props: &Vec<&'static str>, value: &String) -> (r: Vec<Decl>)
    ensures
        decl_views(r@) == gen_decls(props@.map_values(|p: &str| p@), value@),
{
    let ghost pv = props@.map_values(|p: &str| p@);
    let mut r: Vec<Decl> = Vec::new();
    let mut i: usize = 0;
    while i < props.len()
        invariant
            pv == props@.map_values(|p: &str| p@),
            i <= props.len(),
            decl_views(r@) == gen_decls(pv.take(i as int), value@),
        decreases props.len() - i,
    {
        let ghost prev = r@;
        let d = Decl { prop: owned(props[i]), value: value.clone() };
        r.push(d);
        assert(decl_views(r@) =~= decl_views(prev).push(d@));
        assert(gen_decls(pv.take(i + 1), value@) =~= gen_decls(pv.take(i as int), value@).push(
            DeclView { prop: pv[i as int], value: value@ },
        ));
        i += 1;
    }
    assert(pv.take(props.len() as int) == pv);
    r
}

fn static_decls(ds: &Vec<(&'static str, &'static str)>) -> (r: Vec<Decl>)
    ensures
        decl_views(r@) == str_pairs(ds@).map_values(
            |d: (Seq<char>, Seq<char>)| DeclView { prop: d.0, value: d.1 },
        ),
{
    let ghost f = |d: (Seq<char>, Seq<char>)| DeclView { prop: d.0, value: d.1 };
    let mut r: Vec<Decl> = Vec::new();
    let mut i: usize = 0;
    while i < ds.len()
        invariant
            f == (|d: (Seq<char>, Seq<char>)| DeclView { prop: d.0, value: d.1 }),
            i <= ds.len(),
            decl_views(r@) == str_pairs(ds@).take(i as int).map_values(f),
        decreases ds.len() - i,
    {
        let ghost prev = r@;
        let d = Decl { prop: owned(ds[i].0), value: owned(ds[i].1) };
        r.push(d);
        assert(decl_views(r@) =~= decl_views(prev).push(d@));
        assert(str_pairs(ds@).take(i + 1).map_values(f) =~= str_pairs(ds@).take(
            i as int,
        ).map_values(f).push(f(str_pairs(ds@)[i as int])));
        i += 1;
    }
    assert(str_pairs(ds@).take(ds.len() as int) == str_pairs(ds@));
    r
}

fn concat2(a: &str, b: &str) -> (r: String)
    ensures
        r@ == a@ + b@,
{
    let mut s = owned(a);
    push_str(&mut s, b);
    s
}

fn concat3(a: &str, b: &str, c: &str) -> (r: String)
    ensures
        r@ == a@ + b@ + c@,
{
    let mut s = owned(a);
    push_str(&mut s, b);
    push_str(&mut s, c);
    s
}

/// The utilities of a theme before variants are applied.
pub fn collect_base(theme: &ResolvedTheme) -> (r: Vec<BaseRule>)
    ensures
        base_views(r@) == bases(theme@),
{
    let ghost t = theme@;
    let p = theme.options.prefix.as_str();
    let gens = generators();
    let ghost table = generator_table();
    let mut out: Vec<BaseRule> = Vec::new();
    let mut gi: usize = 0;
    while gi < gens.len()
        invariant
            t == theme@,
            p@ == t.options.prefix,
            generator_views(gens@) == table,
            table == generator_table(),
            gi <= gens.len(),
            base_views(out@) == gen_bases(t, table.take(gi as int)),
        decreases gens.len() - gi,
    {
        let g = &gens[gi];
        let ghost gv = table[gi as int];
        assert(gv == (g.group, g.prefix@, g.props@.map_values(|p: &str| p@)));
        assert(table.take(gi + 1).drop_last() == table.take(gi as int));
        assert(table.take(gi + 1).last() == gv);
        let pairs = token_map_pairs(theme.group(g.group));
        let ghost es = pair_views(pairs@);
        let ghost f = |e: (Seq<char>, Seq<char>)| gen_base(t.options.prefix, gv, e);
        let ghost before = base_views(out@);
        let mut j: usize = 0;
        while j < pairs.len()
            invariant
                t == theme@,
                p@ == t.options.prefix,
                gv == (g.group, g.prefix@, g.props@.map_values(|p: &str| p@)),
                es == pair_views(pairs@),
                es == theme_group(t, g.group),
                f == (|e: (Seq<char>, Seq<char>)| gen_base(t.options.prefix, gv, e)),
                j <= pairs.len(),
                base_views(out@) == before + es.take(j as int).map_values(f),
            decreases pairs.len() - j,
        {
            let key = &pairs[j].0;
            let value = &pairs[j].1;
            let mut class = concat3(p, g.prefix, "-");
            push_str(&mut class, key.as_str());
            let src = concat3(g.group.key(), ".", key.as_str());
            let b = BaseRule {
                group_key: owned(g.group.key()),
                class,
                decls: make_decls(&g.props, value),
                src,
            };
            let ghost prev = out@;
            out.push(b);
            assert(base_views(out@) =~= base_views(prev).push(b@));
            assert(es[j as int] == (key@, value@));
            assert(b@ == f(es[j as int]));
            assert(es.take(j + 1).map_values(f) =~= es.take(j as int).map_values(f).push(
                f(es[j as int]),
            ));
            j += 1;
        }
        assert(es.take(pairs.len() as int) == es);
        gi += 1;
    }
    assert(table.take(gens.len() as int) == table);
    let ghost after_gens = base_views(out@);
    let stats = statics();
    let ghost st = static_table();
    let ghost sf = |s: (Seq<char>, Seq<(Seq<char>, Seq<char>)>)| static_base(t.options.prefix, s);
    let mut si: usize = 0;
    while si < stats.len()
        invariant
            t == theme@,
            p@ == t.options.prefix,
            static_views(stats@) == st,
            st == static_table(),
            sf == (|s: (Seq<char>, Seq<(Seq<char>, Seq<char>)>)| static_base(t.options.prefix, s)),
            si <= stats.len(),
            base_views(out@) == after_gens + st.take(si as int).map_values(sf),
        decreases stats.len() - si,
    {
        let entry = &stats[si];
        let b = BaseRule {
            group_key: owned("static"),
            class: concat2(p, entry.0),
            decls: static_decls(&entry.1),
            src: concat2("static.", entry.0),
        };
        let ghost prev = out@;
        out.push(b);
        assert(base_views(out@) =~= base_views(prev).push(b@));
        assert(st[si as int] == (entry.0@, str_pairs(entry.1@)));
        assert(b@.class =~= t.options.prefix + entry.0@);
        assert(b@.src =~= "static."@ + entry.0@);
        assert(b@ == sf(st[si as int]));
        assert(st.take(si + 1).map_values(sf) =~= st.take(si as int).map_values(sf).push(
            sf(st[si as int]),
        ));
        si += 1;
    }
    assert(st.take(stats.len() as int) == st);
    let ghost after_statics = base_views(out@);
    let utils = token_map_pairs(&theme.utilities);
    let ghost us = pair_views(utils@);
    let ghost uf = |e: (Seq<char>, Seq<char>)| utility_base(t.options.prefix, e);
    let mut ui: usize = 0;
    while ui < utils.len()
        invariant
            t == theme@,
            p@ == t.options.prefix,
            us == pair_views(utils@),
            us == t.utilities,
            uf == (|e: (Seq<char>, Seq<char>)| utility_base(t.options.prefix, e)),
            ui <= utils.len(),
            base_views(out@) == after_statics + us.take(ui as int).map_values(uf),
        decreases utils.len() - ui,
    {
        let name = &utils[ui].0;
        let css = &utils[ui].1;
        let b = BaseRule {
            group_key: owned("utilities"),
            class: concat2(p, name.as_str()),
            decls: parse_raw_decls(css.as_str()),
            src: concat2("utilities.", name.as_str()),
        };
        let ghost prev = out@;
        out.push(b);
        assert(base_views(out@) =~= base_views(prev).push(b@));
        assert(us[ui as int] == (name@, css@));
        assert(b@.class =~= t.options.prefix + name@);
        assert(b@.src =~= "utilities."@ + name@);
        assert(b@ == uf(us[ui as int]));
        assert(us.take(ui + 1).map_values(uf) =~= us.take(ui as int).map_values(uf).push(
            uf(us[ui as int]),
        ));
        ui += 1;
    }
    assert(us.take(utils.len() as int) == us);
    out
}


/// The rule for a utility itself.
pub open spec fn plain_rule(b: BaseView) -> RuleView {
    RuleView { class: b.class, pseudos: Seq::empty(), media: None, decls: b.decls, src: b.src }
}

/// The rule for a utility under state `st`, inside breakpoint `bp` if there is one:
/// class `bp:st:class`, with the state's pseudo-class and the breakpoint's width.
pub open spec fn state_rule(b: BaseView, st: Seq<char>, bp: Option<(Seq<char>, Seq<char>)>) -> RuleView {
    RuleView {
        class: match bp {
            Some(x) => x.0 + ":"@ + st + ":"@ + b.class,
            None => st + ":"@ + b.class,
        },
        pseudos: pseudo_of(st).unwrap(),
        media: match bp {
            Some(x) => Some(x.1),
            None => None,
        },
        decls: b.decls,
        src: b.src,
    }
}

/// The rule for a utility inside breakpoint `x`: class `name:class` at its width.
pub open spec fn media_rule(b: BaseView, x: (Seq<char>, Seq<char>)) -> RuleView {
    RuleView {
        class: x.0 + ":"@ + b.class,
        pseudos: Seq::empty(),
        media: Some(x.1),
        decls: b.decls,
        src: b.src,
    }
}

/// The variant names that are states, in order.
pub open spec fn states_of(vs: Seq<Seq<char>>) -> Seq<Seq<char>> {
    vs.filter(|v: Seq<char>| is_state_name(v))
}

/// The rules of a utility inside one breakpoint: the utility itself, then each state.
pub open spec fn bp_block(b: BaseView, states: Seq<Seq<char>>, x: (Seq<char>, Seq<char>)) -> Seq<
    RuleView,
> {
    seq![media_rule(b, x)] + states.map_values(|st: Seq<char>| state_rule(b, st, Some(x)))
}

/// The rules of a utility inside each breakpoint in turn.
pub open spec fn bp_rules(
    b: BaseView,
    states: Seq<Seq<char>>,
    bps: Seq<(Seq<char>, Seq<char>)>,
) -> Seq<RuleView>
    decreases bps.len(),
{
    if bps.len() == 0 {
        Seq::empty()
    } else {
        bp_rules(b, states, bps.drop_last()) + bp_block(b, states, bps.last())
    }
}

/// Every rule a utility gives before tree-shaking: itself, each state its group opts
/// into, and, when the group opts into `responsive`, the same inside each breakpoint.
pub open spec fn candidates(t: ThemeModel, b: BaseView) -> Seq<RuleView> {
    let vs = variants_of(t, b.group_key);
    let states = states_of(vs);
    seq![plain_rule(b)] + states.map_values(|st: Seq<char>| state_rule(b, st, None)) + if vs.contains(
        "responsive"@,
    ) {
        bp_rules(b, states, t.breakpoints)
    } else {
        Seq::empty()
    }
}

/// Whether a rule's class is in `u`.
pub open spec fn class_in(u: Set<Seq<char>>) -> spec_fn(RuleView) -> bool {
    |r: RuleView| u.contains(r.class)
}

/// The rules that survive tree-shaking, in order.
pub open spec fn kept(rs: Seq<RuleView>, used: Option<Set<Seq<char>>>) -> Seq<RuleView> {
    match used {
        Some(u) => rs.filter(class_in(u)),
        None => rs,
    }
}

/// The rules of utilities `bs`, utility by utility.
pub open spec fn rules_of(t: ThemeModel, bs: Seq<BaseView>, used: Option<Set<Seq<char>>>) -> Seq<
    RuleView,
>
    decreases bs.len(),
{
    if bs.len() == 0 {
        Seq::empty()
    } else {
        rules_of(t, bs.drop_last(), used) + kept(candidates(t, bs.last()), used)
    }
}

/// All rules of a theme, in emission order, keeping only used classes when a set of
/// them is given.
pub open spec fn generate_spec(t: ThemeModel, used: Option<Set<Seq<char>>>) -> Seq<RuleView> {
    rules_of(t, bases(t), used)
}

/// A set of used classes as plain values.
pub open spec fn used_set(used: Option<&HashSet<String>>) -> Option<Set<Seq<char>>> {
    match used {
        Some(s) => Some(string_set(*s)),
        None => None,
    }
}

fn state_names(vs: &Vec<String>) -> (r: Vec<String>)
    ensures
        string_views(r@) == states_of(string_views(vs@)),
{
    let ghost sv = string_views(vs@);
    let ghost pred = |v: Seq<char>| is_state_name(v);
    let mut r: Vec<String> = Vec::new();
    let mut i: usize = 0;
    while i < vs.len()
        invariant
            sv == string_views(vs@),
            pred == (|v: Seq<char>| is_state_name(v)),
            i <= vs.len(),
            string_views(r@) == sv.take(i as int).filter(pred),
        decreases vs.len() - i,
    {
        assert(sv.take(i + 1) == sv.take(i as int).push(sv[i as int]));
        proof {
            sv.take(i as int).lemma_filter_push(sv[i as int], pred);
        }
        if pseudo_for(vs[i].as_str()).is_some() {
            let ghost prev = r@;
            r.push(vs[i].clone());
            assert(string_views(r@) =~= string_views(prev).push(sv[i as int]));
        }
        i += 1;
    }
    assert(sv.take(vs.len() as int) == sv);
    r
}

fn has_name(vs: &Vec<String>, name: &str) -> (r: bool)
    ensures
        r == string_views(vs@).contains(name@),
{
    let mut i: usize = 0;
    while i < vs.len()
        invariant
            i <= vs.len(),
            forall|k: int| 0 <= k < i ==> string_views(vs@)[k] != name@,
        decreases vs.len() - i,
    {
        if str_eq(vs[i].as_str(), name) {
            assert(string_views(vs@)[i as int] == name@);
            return true;
        }
        i += 1;
    }
    false
}

fn rule_from(class: String, pseudos: String, media: Option<String>, b: &BaseRule) -> (r: Rule)
    ensures
        r@ == (RuleView {
            class: class@,
            pseudos: pseudos@,
            media: crate::text::opt_str(media),
            decls: b@.decls,
            src: b@.src,
        }),
{
    Rule { class, pseudos, media, decls: copy_decls(&b.decls), src: b.src.clone() }
}

fn state_pseudo(st: &str) -> (r: String)
    requires
        is_state_name(st@),
    ensures
        r@ == pseudo_of(st@).unwrap(),
{
    match pseudo_for(st) {
        Some(p) => owned(p),
        None => String::new(),
    }
}

/// Every rule a utility gives before tree-shaking.
pub fn candidate_rules(theme: &ResolvedTheme, b: &BaseRule) -> (r: Vec<Rule>)
    ensures
        rule_views(r@) == candidates(theme@, b@),
{
    let ghost t = theme@;
    let ghost bv = b@;
    let variants = theme.variants_for(b.group_key.as_str());
    let states = state_names(&variants);
    let ghost ss = string_views(states@);
    proof {
        assert forall|k: int| 0 <= k < ss.len() implies is_state_name(#[trigger] ss[k]) by {
            string_views(variants@).lemma_filter_pred(|v: Seq<char>| is_state_name(v), k);
        }
    }
    let responsive = has_name(&variants, "responsive");
    let mut out: Vec<Rule> = Vec::new();
    let first = rule_from(b.class.clone(), String::new(), None, b);
    out.push(first);
    assert(rule_views(out@) =~= seq![plain_rule(bv)]);
    let ghost sf = |st: Seq<char>| state_rule(bv, st, None);
    let mut i: usize = 0;
    while i < states.len()
        invariant
            bv == b@,
            ss == string_views(states@),
            forall|k: int| 0 <= k < ss.len() ==> is_state_name(#[trigger] ss[k]),
            sf == (|st: Seq<char>| state_rule(bv, st, None)),
            i <= states.len(),
            rule_views(out@) == seq![plain_rule(bv)] + ss.take(i as int).map_values(sf),
        decreases states.len() - i,
    {
        let st = states[i].as_str();
        assert(ss[i as int] == st@);
        let mut class = owned(st);
        push_str(&mut class, ":");
        push_str(&mut class, b.class.as_str());
        let r = rule_from(class, state_pseudo(st), None, b);
        let ghost prev = out@;
        out.push(r);
        assert(rule_views(out@) =~= rule_views(prev).push(r@));
        assert(r@ == sf(ss[i as int]));
        assert(ss.take(i + 1).map_values(sf) =~= ss.take(i as int).map_values(sf).push(
            sf(ss[i as int]),
        ));
        i += 1;
    }
    assert(ss.take(states.len() as int) == ss);
    if responsive {
        let bps = token_map_pairs(&theme.breakpoints);
        let ghost xs = pair_views(bps@);
        let ghost head = rule_views(out@);
        let mut j: usize = 0;
        while j < bps.len()
            invariant
                bv == b@,
                ss == string_views(states@),
                forall|k: int| 0 <= k < ss.len() ==> is_state_name(#[trigger] ss[k]),
                xs == pair_views(bps@),
                j <= bps.len(),
                rule_views(out@) == head + bp_rules(bv, ss, xs.take(j as int)),
            decreases bps.len() - j,
        {
            let name = bps[j].0.as_str();
            let width = &bps[j].1;
            let ghost x = xs[j as int];
            assert(x == (name@, width@));
            assert(xs.take(j + 1).drop_last() == xs.take(j as int));
            assert(xs.take(j + 1).last() == x);
            let mut class = owned(name);
            push_str(&mut class, ":");
            push_str(&mut class, b.class.as_str());
            let m = rule_from(class, String::new(), Some(width.clone()), b);
            let ghost before = rule_views(out@);
            out.push(m);
            assert(rule_views(out@) =~= before.push(m@));
            assert(m@ == media_rule(bv, x));
            let ghost bf = |st: Seq<char>| state_rule(bv, st, Some(x));
            let mut k: usize = 0;
            while k < states.len()
                invariant
                    bv == b@,
                    ss == string_views(states@),
                    forall|q: int| 0 <= q < ss.len() ==> is_state_name(#[trigger] ss[q]),
                    x == (name@, width@),
                    bf == (|st: Seq<char>| state_rule(bv, st, Some(x))),
                    k <= states.len(),
                    rule_views(out@) == before + seq![media_rule(bv, x)] + ss.take(
                        k as int,
                    ).map_values(bf),
                decreases states.len() - k,
            {
                let st = states[k].as_str();
                assert(ss[k as int] == st@);
                let mut class = owned(name);
                push_str(&mut class, ":");
                push_str(&mut class, st);
                push_str(&mut class, ":");
                push_str(&mut class, b.class.as_str());
                let r = rule_from(class, state_pseudo(st), Some(width.clone()), b);
                let ghost prev = out@;
                out.push(r);
                assert(rule_views(out@) =~= rule_views(prev).push(r@));
                assert(r@.class =~= name@ + ":"@ + st@ + ":"@ + bv.class);
                assert(r@ == bf(ss[k as int]));
                assert(ss.take(k + 1).map_values(bf) =~= ss.take(k as int).map_values(bf).push(
                    bf(ss[k as int]),
                ));
                k += 1;
            }
            assert(ss.take(states.len() as int) == ss);
            assert(rule_views(out@) =~= head + bp_rules(bv, ss, xs.take(j + 1)));
            j += 1;
        }
        assert(xs.take(bps.len() as int) == xs);
    }
    out
}

/// The rules whose class is used, in order; all of them when no set is given.
pub fn retain_used(rules: Vec<Rule>, used: Option<&HashSet<String>>) -> (r: Vec<Rule>)
    ensures
        rule_views(r@) == kept(rule_views(rules@), used_set(used)),
{
    match used {
        None => rules,
        Some(set) => {
            let ghost rs = rule_views(rules@);
            let ghost pred = class_in(string_set(*set));
            let mut out: Vec<Rule> = Vec::new();
            for r in it: rules
                invariant
                    rs == rule_views(it.seq()),
                    pred == class_in(string_set(*set)),
                    rule_views(out@) == rs.take(it.index()).filter(pred),
            {
                let ghost i = it.index();
                assert(rs.take(i + 1) == rs.take(i).push(rs[i]));
                assert(rs[i] == r@);
                proof {
                    rs.take(i).lemma_filter_push(rs[i], pred);
                }
                if string_set_contains(set, r.class.as_str()) {
                    let ghost prev = out@;
                    let ghost rv = r@;
                    out.push(r);
                    assert(rule_views(out@) =~= rule_views(prev).push(rv));
                }
            }
            assert(rs.take(rs.len() as int) == rs);
            out
        },
    }
}

/// All CSS rules of a theme, in emission order: for each utility (generated, static,
/// then raw), the utility, its states, and its breakpoint variants; only classes in
/// `used` when it is given.
#[verifier::spinoff_prover]
#[verifier::rlimit(30)]
pub fn generate(theme: &ResolvedTheme, used: Option<&HashSet<String>>) -> (r: Vec<Rule>)
    ensures
        rule_views(r@) == generate_spec(theme@, used_set(used)),
{
    let bs = collect_base(theme);
    let ghost bv = base_views(bs@);
    let mut out: Vec<Rule> = Vec::new();
    let mut i: usize = 0;
    while i < bs.len()
        invariant
            bv == base_views(bs@),
            bv == bases(theme@),
            i <= bs.len(),
            rule_views(out@) == rules_of(theme@, bv.take(i as int), used_set(used)),
        decreases bs.len() - i,
    {
        assert(bv.take(i + 1).drop_last() == bv.take(i as int));
        assert(bv.take(i + 1).last() == bs@[i as int]@);
        let cands = candidate_rules(theme, &bs[i]);
        let mut kept_rules = retain_used(cands, used);
        let ghost prev = rule_views(out@);
        let ghost more = rule_views(kept_rules@);
        out.append(&mut kept_rules);
        assert(rule_views(out@) =~= prev + more);
        i += 1;
    }
    assert(bv.take(bs.len() as int) == bv);
    out
}

/// Every class the theme can generate, in emission order.
pub fn class_universe(theme: &ResolvedTheme) -> (r: Vec<String>)
    ensures
        string_views(r@) == generate_spec(theme@, None).map_values(|x: RuleView| x.class),
{
    let rules = generate(theme, None);
    let ghost rs = rule_views(rules@);
    let mut out: Vec<String> = Vec::new();
    let mut i: usize = 0;
    while i < rules.len()
        invariant
            rs == rule_views(rules@),
            i <= rules.len(),
            string_views(out@) == rs.take(i as int).map_values(|x: RuleView| x.class),
        decreases rules.len() - i,
    {
        let ghost prev = out@;
        out.push(rules[i].class.clone());
        assert(string_views(out@) =~= string_views(prev).push(rs[i as int].class));
        assert(rs.take(i + 1).map_values(|x: RuleView| x.class) =~= rs.take(i as int).map_values(
            |x: RuleView| x.class,
        ).push(rs[i as int].class));
        i += 1;
    }
    assert(rs.take(rules.len() as int) == rs);
    out
}

} // verus!
