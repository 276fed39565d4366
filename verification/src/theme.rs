//! Resolving a preset against the built-in defaults, and checking the result.
use vstd::prelude::*;

use crate::error::{
    diag_at_opt, diag_help, diag_views, locate, located, plain_diag, DiagView,
    Diagnostic,
};
use crate::generate::{is_state_name, pseudo_for};
use crate::maps::{
    has_key, insert_all, lookup, pair_views, string_views, token_entries, token_map_contains,
    token_map_insert, token_map_new, token_map_pairs, variant_entries, variant_map_get,
    variant_map_new, TokenMap, VariantMap,
};
use crate::preset::{
    opt_tokens, parse, parse_spec, valid_color, validate_color, Options,
    OptionsModel, PresetModel, RawPreset,
};
use crate::text::{chars_of, decimal, decimal_string, owned, push_str};

verus! {

broadcast use vstd::seq_lib::group_seq_properties;

/// The token groups, each of which generates utilities.
#[derive(Debug, Clone, Copy, PartialEq, Eq, Hash)]
pub enum Group {
    Colors,
    Spacing,
    Sizes,
    Fonts,
    Text,
    Radius,
    Shadows,
}

/// The table name of a group.
pub open spec fn group_name(g: Group) -> Seq<char> {
    match g {
        Group::Colors => "colors"@,
        Group::Spacing => "spacing"@,
        Group::Sizes => "sizes"@,
        Group::Fonts => "fonts"@,
        Group::Text => "text"@,
        Group::Radius => "radius"@,
        Group::Shadows => "shadows"@,
    }
}

/// The token groups, in the order they are checked and listed.
pub open spec fn group_order() -> Seq<Group> {
    seq![
        Group::Colors,
        Group::Spacing,
        Group::Sizes,
        Group::Fonts,
        Group::Text,
        Group::Radius,
        Group::Shadows,
    ]
}

impl Group {
    /// The table name of the group.
    pub fn key(self) -> (r: &'static str)
        ensures
            r@ == group_name(self),
    {
        match self {
            Group::Colors => "colors",
            Group::Spacing => "spacing",
            Group::Sizes => "sizes",
            Group::Fonts => "fonts",
            Group::Text => "text",
            Group::Radius => "radius",
            Group::Shadows => "shadows",
        }
    }

    /// The token groups, in the order they are checked and listed.
    pub fn all() -> (r: Vec<Group>)
        ensures
            r@ == group_order(),
    {
        let r = vec![
            Group::Colors,
            Group::Spacing,
            Group::Sizes,
            Group::Fonts,
            Group::Text,
            Group::Radius,
            Group::Shadows,
        ];
        assert(r@ =~= group_order());
        r
    }
}

/// A resolved theme as plain values.
pub struct ThemeModel {
    pub options: OptionsModel,
    pub colors: Seq<(Seq<char>, Seq<char>)>,
    pub spacing: Seq<(Seq<char>, Seq<char>)>,
    pub sizes: Seq<(Seq<char>, Seq<char>)>,
    pub fonts: Seq<(Seq<char>, Seq<char>)>,
    pub text: Seq<(Seq<char>, Seq<char>)>,
    pub radius: Seq<(Seq<char>, Seq<char>)>,
    pub shadows: Seq<(Seq<char>, Seq<char>)>,
    pub breakpoints: Seq<(Seq<char>, Seq<char>)>,
    pub variants: Seq<(Seq<char>, Seq<Seq<char>>)>,
    pub utilities: Seq<(Seq<char>, Seq<char>)>,
}

/// A preset merged with the defaults: every group it uses, with its options.
#[derive(Debug)]
pub struct ResolvedTheme {
    pub options: Options,
    pub colors: TokenMap,
    pub spacing: TokenMap,
    pub sizes: TokenMap,
    pub fonts: TokenMap,
    pub text: TokenMap,
    pub radius: TokenMap,
    pub shadows: TokenMap,
    pub breakpoints: TokenMap,
    pub variants: VariantMap,
    pub utilities: TokenMap,
}

impl View for ResolvedTheme {
    type V = ThemeModel;

    open spec fn view(&self) -> ThemeModel {
        ThemeModel {
            options: self.options@,
            colors: token_entries(self.colors),
            spacing: token_entries(self.spacing),
            sizes: token_entries(self.sizes),
            fonts: token_entries(self.fonts),
            text: token_entries(self.text),
            radius: token_entries(self.radius),
            shadows: token_entries(self.shadows),
            breakpoints: token_entries(self.breakpoints),
            variants: variant_entries(self.variants),
            utilities: token_entries(self.utilities),
        }
    }
}

/// The entries of group `g` in theme `t`.
pub open spec fn theme_group(t: ThemeModel, g: Group) -> Seq<(Seq<char>, Seq<char>)> {
    match g {
        Group::Colors => t.colors,
        Group::Spacing => t.spacing,
        Group::Sizes => t.sizes,
        Group::Fonts => t.fonts,
        Group::Text => t.text,
        Group::Radius => t.radius,
        Group::Shadows => t.shadows,
    }
}

/// The variant names enabled for the group named `key`; none when it is not listed.
pub open spec fn variants_of(t: ThemeModel, key: Seq<char>) -> Seq<Seq<char>> {
    match lookup(t.variants, key) {
        Some(v) => v,
        None => Seq::empty(),
    }
}

impl ResolvedTheme {
    /// The tokens of group `g`.
    pub fn group(&self, g: Group) -> (r: &TokenMap)
        ensures
            token_entries(*r) == theme_group(self@, g),
    {
        match g {
            Group::Colors => &self.colors,
            Group::Spacing => &self.spacing,
            Group::Sizes => &self.sizes,
            Group::Fonts => &self.fonts,
            Group::Text => &self.text,
            Group::Radius => &self.radius,
            Group::Shadows => &self.shadows,
        }
    }

    /// The variant names enabled for the group named `key`.
    pub fn variants_for(&self, key: &str) -> (r: Vec<String>)
        ensures
            string_views(r@) == variants_of(self@, key@),
    {
        match variant_map_get(&self.variants, key) {
            Some(v) => {
                let mut out: Vec<String> = Vec::new();
                let mut i: usize = 0;
                while i < v.len()
                    invariant
                        i <= v.len(),
                        string_views(out@) == string_views(v@).take(i as int),
                    decreases v.len() - i,
                {
                    let ghost prev = out@;
                    out.push(v[i].clone());
                    assert(string_views(out@) =~= string_views(prev).push(v@[i as int]@));
                    assert(string_views(v@).take(i + 1) =~= string_views(v@).take(i as int).push(
                        v@[i as int]@,
                    ));
                    i += 1;
                }
                assert(string_views(v@).take(v.len() as int) == string_views(v@));
                out
            },
            None => {
                let out: Vec<String> = Vec::new();
                assert(string_views(out@) =~= Seq::<Seq<char>>::empty());
                out
            },
        }
    }
}


/// A character allowed in a token key.
pub open spec fn is_key_char(c: char) -> bool {
    ('a' <= c && c <= 'z') || ('A' <= c && c <= 'Z') || ('0' <= c && c <= '9') || c == '.' || c
        == '_' || c == '-'
}

/// Whether a token key is made of `A-Z a-z 0-9 . _ -` only.
pub open spec fn valid_token_key(k: Seq<char>) -> bool {
    forall|i: int| 0 <= i < k.len() ==> is_key_char(#[trigger] k[i])
}

/// The diagnostics that `f` finds in `xs`, in order.
pub open spec fn diags_for<T>(xs: Seq<T>, f: spec_fn(T) -> Option<DiagView>) -> Seq<DiagView>
    decreases xs.len(),
{
    if xs.len() == 0 {
        Seq::empty()
    } else {
        diags_for(xs.drop_last(), f) + match f(xs.last()) {
            Some(d) => seq![d],
            None => Seq::empty(),
        }
    }
}

pub proof fn lemma_diags_for_next<T>(xs: Seq<T>, f: spec_fn(T) -> Option<DiagView>, i: int)
    requires
        0 <= i < xs.len(),
    ensures
        diags_for(xs.take(i + 1), f) == diags_for(xs.take(i), f) + match f(xs[i]) {
            Some(d) => seq![d],
            None => Seq::<DiagView>::empty(),
        },
{
    assert(xs.take(i + 1).drop_last() == xs.take(i));
    assert(xs.take(i + 1).last() == xs[i]);
}

/// A token key that is not well formed.
pub open spec fn key_diag(src: Seq<char>, g: Group) -> spec_fn((Seq<char>, Seq<char>)) -> Option<
    DiagView,
> {
    |e: (Seq<char>, Seq<char>)|
        if valid_token_key(e.0) {
            None
        } else {
            Some(
                diag_at_opt(
                    plain_diag(
                        "invalid token key '"@ + e.0 + "' in ["@ + group_name(g)
                            + "] (allowed: A-Z a-z 0-9 . _ -)"@,
                    ),
                    located(src, group_name(g), e.0),
                ),
            )
        }
}

/// The malformed token keys of the groups `gs`, group by group.
pub open spec fn key_diags(t: ThemeModel, src: Seq<char>, gs: Seq<Group>) -> Seq<DiagView>
    decreases gs.len(),
{
    if gs.len() == 0 {
        Seq::empty()
    } else {
        key_diags(t, src, gs.drop_last()) + diags_for(
            theme_group(t, gs.last()),
            key_diag(src, gs.last()),
        )
    }
}

/// A color whose value is not a color.
pub open spec fn color_diag(src: Seq<char>) -> spec_fn((Seq<char>, Seq<char>)) -> Option<DiagView> {
    |e: (Seq<char>, Seq<char>)|
        if valid_color(e.1) {
            None
        } else {
            Some(
                diag_help(
                    diag_at_opt(
                        plain_diag("invalid color '"@ + e.1 + "' for colors."@ + e.0),
                        located(src, "colors"@, e.0),
                    ),
                    "expected #hex, rgb()/hsl()/oklch(), or a CSS color keyword"@,
                ),
            )
        }
}

/// The diagnostic for a key in both `[colors]` and `[text]`.
pub open spec fn collision(src: Seq<char>, k: Seq<char>) -> DiagView {
    let d = plain_diag(
        "key '"@ + k + "' exists in both [colors] and [text]; both generate .text-"@ + k,
    );
    match (located(src, "colors"@, k), located(src, "text"@, k)) {
        (Some(c), Some(l)) => diag_help(
            d,
            "see colors."@ + k + " (line "@ + decimal(c as nat) + ") and text."@ + k + " (line "@
                + decimal(l as nat) + ")"@,
        ),
        _ => d,
    }
}

/// A text size whose key is also a color.
pub open spec fn collision_diag(colors: Seq<(Seq<char>, Seq<char>)>, src: Seq<char>) -> spec_fn(
    (Seq<char>, Seq<char>),
) -> Option<DiagView> {
    |e: (Seq<char>, Seq<char>)|
        if has_key(colors, e.0) {
            Some(collision(src, e.0))
        } else {
            None
        }
}

/// A breakpoint named like a state variant.
pub open spec fn breakpoint_diag() -> spec_fn((Seq<char>, Seq<char>)) -> Option<DiagView> {
    |e: (Seq<char>, Seq<char>)|
        if is_state_name(e.0) {
            Some(
                plain_diag(
                    "breakpoint '"@ + e.0 + "' collides with a reserved state variant name"@,
                ),
            )
        } else {
            None
        }
}

/// Everything wrong with a theme: malformed token keys (group by group), invalid
/// colors, keys in both `[colors]` and `[text]`, and breakpoints named like states.
pub open spec fn validate_spec(t: ThemeModel, src: Seq<char>) -> Seq<DiagView> {
    key_diags(t, src, group_order()) + diags_for(t.colors, color_diag(src)) + diags_for(
        t.text,
        collision_diag(t.colors, src),
    ) + diags_for(t.breakpoints, breakpoint_diag())
}

fn valid_key(k: &str) -> (r: bool)
    ensures
        r == valid_token_key(k@),
{
    let cs = chars_of(k);
    let mut i: usize = 0;
    while i < cs.len()
        invariant
            cs@ == k@,
            i <= cs.len(),
            forall|j: int| 0 <= j < i ==> is_key_char(#[trigger] cs@[j]),
        decreases cs.len() - i,
    {
        let c = cs[i];
        if !(('a' <= c && c <= 'z') || ('A' <= c && c <= 'Z') || ('0' <= c && c <= '9') || c == '.'
            || c == '_' || c == '-') {
            return false;
        }
        i += 1;
    }
    true
}

fn push_key_diags(m: &TokenMap, g: Group, src: &str, diags: &mut Vec<Diagnostic>)
    ensures
        diag_views(final(diags)@) == diag_views(old(diags)@) + diags_for(
            token_entries(*m),
            key_diag(src@, g),
        ),
{
    let ps = token_map_pairs(m);
    let ghost xs = pair_views(ps@);
    let ghost f = key_diag(src@, g);
    let ghost start = diag_views(diags@);
    let mut i: usize = 0;
    while i < ps.len()
        invariant
            xs == pair_views(ps@),
            xs == token_entries(*m),
            f == key_diag(src@, g),
            start == diag_views(old(diags)@),
            i <= ps.len(),
            diag_views(diags@) == start + diags_for(xs.take(i as int), f),
        decreases ps.len() - i,
    {
        proof {
            lemma_diags_for_next(xs, f, i as int);
        }
        let key = &ps[i].0;
        if !valid_key(key.as_str()) {
            let mut msg = owned("invalid token key '");
            push_str(&mut msg, key.as_str());
            push_str(&mut msg, "' in [");
            push_str(&mut msg, g.key());
            push_str(&mut msg, "] (allowed: A-Z a-z 0-9 . _ -)");
            let mut d = Diagnostic::error(msg);
            match locate(src, g.key(), key.as_str()) {
                Some(line) => d = d.at(line),
                None => {},
            }
            let ghost prev = diags@;
            diags.push(d);
            assert(diag_views(diags@) =~= diag_views(prev).push(d@));
        }
        i += 1;
    }
    assert(xs.take(ps.len() as int) == xs);
}

fn push_color_diags(m: &TokenMap, src: &str, diags: &mut Vec<Diagnostic>)
    ensures
        diag_views(final(diags)@) == diag_views(old(diags)@) + diags_for(
            token_entries(*m),
            color_diag(src@),
        ),
{
    let ps = token_map_pairs(m);
    let ghost xs = pair_views(ps@);
    let ghost f = color_diag(src@);
    let ghost start = diag_views(diags@);
    let mut i: usize = 0;
    while i < ps.len()
        invariant
            xs == pair_views(ps@),
            xs == token_entries(*m),
            f == color_diag(src@),
            start == diag_views(old(diags)@),
            i <= ps.len(),
            diag_views(diags@) == start + diags_for(xs.take(i as int), f),
        decreases ps.len() - i,
    {
        proof {
            lemma_diags_for_next(xs, f, i as int);
        }
        let key = &ps[i].0;
        let value = &ps[i].1;
        if !validate_color(value.as_str()) {
            let mut msg = owned("invalid color '");
            push_str(&mut msg, value.as_str());
            push_str(&mut msg, "' for colors.");
            push_str(&mut msg, key.as_str());
            let mut d = Diagnostic::error(msg);
            match locate(src, "colors", key.as_str()) {
                Some(line) => d = d.at(line),
                None => {},
            }
            let d = d.with_help(owned("expected #hex, rgb()/hsl()/oklch(), or a CSS color keyword"));
            let ghost prev = diags@;
            diags.push(d);
            assert(diag_views(diags@) =~= diag_views(prev).push(d@));
        }
        i += 1;
    }
    assert(xs.take(ps.len() as int) == xs);
}

fn collision_error(src: &str, k: &str) -> (r: Diagnostic)
    ensures
        r@ == collision(src@, k@),
{
    let mut msg = owned("key '");
    push_str(&mut msg, k);
    push_str(&mut msg, "' exists in both [colors] and [text]; both generate .text-");
    push_str(&mut msg, k);
    let d = Diagnostic::error(msg);
    match (locate(src, "colors", k), locate(src, "text", k)) {
        (Some(c), Some(l)) => {
            let mut h = owned("see colors.");
            push_str(&mut h, k);
            push_str(&mut h, " (line ");
            let cs = decimal_string(c);
            push_str(&mut h, cs.as_str());
            push_str(&mut h, ") and text.");
            push_str(&mut h, k);
            push_str(&mut h, " (line ");
            let ls = decimal_string(l);
            push_str(&mut h, ls.as_str());
            push_str(&mut h, ")");
            d.with_help(h)
        },
        _ => d,
    }
}

fn push_collision_diags(text: &TokenMap, colors: &TokenMap, src: &str, diags: &mut Vec<Diagnostic>)
    ensures
        diag_views(final(diags)@) == diag_views(old(diags)@) + diags_for(
            token_entries(*text),
            collision_diag(token_entries(*colors), src@),
        ),
{
    let ps = token_map_pairs(text);
    let ghost xs = pair_views(ps@);
    let ghost f = collision_diag(token_entries(*colors), src@);
    let ghost start = diag_views(diags@);
    let mut i: usize = 0;
    while i < ps.len()
        invariant
            xs == pair_views(ps@),
            xs == token_entries(*text),
            f == collision_diag(token_entries(*colors), src@),
            start == diag_views(old(diags)@),
            i <= ps.len(),
            diag_views(diags@) == start + diags_for(xs.take(i as int), f),
        decreases ps.len() - i,
    {
        proof {
            lemma_diags_for_next(xs, f, i as int);
        }
        let key = &ps[i].0;
        if token_map_contains(colors, key.as_str()) {
            let d = collision_error(src, key.as_str());
            let ghost prev = diags@;
            diags.push(d);
            assert(diag_views(diags@) =~= diag_views(prev).push(d@));
        }
        i += 1;
    }
    assert(xs.take(ps.len() as int) == xs);
}

fn push_breakpoint_diags(m: &TokenMap, diags: &mut Vec<Diagnostic>)
    ensures
        diag_views(final(diags)@) == diag_views(old(diags)@) + diags_for(
            token_entries(*m),
            breakpoint_diag(),
        ),
{
    let ps = token_map_pairs(m);
    let ghost xs = pair_views(ps@);
    let ghost f = breakpoint_diag();
    let ghost start = diag_views(diags@);
    let mut i: usize = 0;
    while i < ps.len()
        invariant
            xs == pair_views(ps@),
            xs == token_entries(*m),
            f == breakpoint_diag(),
            start == diag_views(old(diags)@),
            i <= ps.len(),
            diag_views(diags@) == start + diags_for(xs.take(i as int), f),
        decreases ps.len() - i,
    {
        proof {
            lemma_diags_for_next(xs, f, i as int);
        }
        let name = &ps[i].0;
        if pseudo_for(name.as_str()).is_some() {
            let mut msg = owned("breakpoint '");
            push_str(&mut msg, name.as_str());
            push_str(&mut msg, "' collides with a reserved state variant name");
            let d = Diagnostic::error(msg);
            let ghost prev = diags@;
            diags.push(d);
            assert(diag_views(diags@) =~= diag_views(prev).push(d@));
        }
        i += 1;
    }
    assert(xs.take(ps.len() as int) == xs);
}

/// Appends to `diags` everything wrong with `theme`.
pub fn validate(theme: &ResolvedTheme, src: &str, diags: &mut Vec<Diagnostic>)
    ensures
        diag_views(final(diags)@) == diag_views(old(diags)@) + validate_spec(theme@, src@),
{
    let groups = Group::all();
    let ghost start = diag_views(diags@);
    let mut i: usize = 0;
    while i < groups.len()
        invariant
            groups@ == group_order(),
            start == diag_views(old(diags)@),
            i <= groups.len(),
            diag_views(diags@) == start + key_diags(theme@, src@, group_order().take(i as int)),
        decreases groups.len() - i,
    {
        let g = groups[i];
        assert(group_order().take(i + 1).drop_last() == group_order().take(i as int));
        push_key_diags(theme.group(g), g, src, diags);
        i += 1;
    }
    assert(group_order().take(7) == group_order());
    push_color_diags(&theme.colors, src, diags);
    push_collision_diags(&theme.text, &theme.colors, src, diags);
    push_breakpoint_diags(&theme.breakpoints, diags);
}


/// A group as written, else as in the defaults, else empty.
pub open spec fn or_default<V>(base: Option<Seq<(Seq<char>, V)>>, default: Option<Seq<(Seq<char>, V)>>) -> Seq<
    (Seq<char>, V),
> {
    match base {
        Some(b) => b,
        None => match default {
            Some(d) => d,
            None => Seq::empty(),
        },
    }
}

/// A group after merging: as written (or as in the defaults), with each extension
/// inserted in turn, so that extensions win over the keys they share.
pub open spec fn merged_spec(
    base: Option<Seq<(Seq<char>, Seq<char>)>>,
    default: Option<Seq<(Seq<char>, Seq<char>)>>,
    extend: Seq<(Seq<char>, Seq<char>)>,
) -> Seq<(Seq<char>, Seq<char>)> {
    insert_all(or_default(base, default), extend)
}

/// A group as written or as in the defaults, with the extensions added.
pub fn merged(base: Option<TokenMap>, default: Option<TokenMap>, extend: TokenMap) -> (r: TokenMap)
    ensures
        token_entries(r) == merged_spec(opt_tokens(base), opt_tokens(default), token_entries(extend)),
{
    let mut out = match base {
        Some(b) => b,
        None => match default {
            Some(d) => d,
            None => token_map_new(),
        },
    };
    let ghost start = token_entries(out);
    assert(start == or_default(opt_tokens(base), opt_tokens(default)));
    let ps = token_map_pairs(&extend);
    let ghost xs = pair_views(ps@);
    let mut i: usize = 0;
    while i < ps.len()
        invariant
            xs == pair_views(ps@),
            xs == token_entries(extend),
            i <= ps.len(),
            token_entries(out) == insert_all(start, xs.take(i as int)),
        decreases ps.len() - i,
    {
        assert(xs.take(i + 1).drop_last() == xs.take(i as int));
        assert(xs.take(i + 1).last() == xs[i as int]);
        token_map_insert(&mut out, ps[i].0.clone(), ps[i].1.clone());
        i += 1;
    }
    assert(xs.take(ps.len() as int) == xs);
    out
}

/// `raw` merged with `defaults`: each token group as written or as in the defaults,
/// plus its extensions; breakpoints and variants as written or as in the defaults;
/// options and utilities as written.
pub open spec fn merge_spec(raw: PresetModel, defaults: PresetModel) -> ThemeModel {
    ThemeModel {
        options: raw.options,
        colors: merged_spec(raw.colors, defaults.colors, raw.extend.colors),
        spacing: merged_spec(raw.spacing, defaults.spacing, raw.extend.spacing),
        sizes: merged_spec(raw.sizes, defaults.sizes, raw.extend.sizes),
        fonts: merged_spec(raw.fonts, defaults.fonts, raw.extend.fonts),
        text: merged_spec(raw.text, defaults.text, raw.extend.text),
        radius: merged_spec(raw.radius, defaults.radius, raw.extend.radius),
        shadows: merged_spec(raw.shadows, defaults.shadows, raw.extend.shadows),
        breakpoints: or_default(raw.breakpoints, defaults.breakpoints),
        variants: or_default(raw.variants, defaults.variants),
        utilities: raw.utilities,
    }
}

/// The merged theme when nothing is wrong with it, else everything that is.
pub open spec fn resolve_with_spec(raw: PresetModel, defaults: PresetModel, src: Seq<char>) -> Result<
    ThemeModel,
    Seq<DiagView>,
> {
    let t = merge_spec(raw, defaults);
    let ds = validate_spec(t, src);
    if ds.len() == 0 {
        Ok(t)
    } else {
        Err(ds)
    }
}

/// Merges `raw` with `defaults` and checks the result; `src` is the text `raw` was
/// read from, used to point at lines.
pub fn resolve_with(raw: RawPreset, defaults: RawPreset, src: &str) -> (r: Result<
    ResolvedTheme,
    Vec<Diagnostic>,
>)
    ensures
        resolve_with_spec(raw@, defaults@, src@) == match r {
            Ok(t) => Ok(t@),
            Err(ds) => Err(diag_views(ds@)),
        },
{
    let ghost rv = raw@;
    let ghost dv = defaults@;
    let breakpoints = match raw.breakpoints {
        Some(b) => b,
        None => match defaults.breakpoints {
            Some(d) => d,
            None => token_map_new(),
        },
    };
    let variants = match raw.variants {
        Some(b) => b,
        None => match defaults.variants {
            Some(d) => d,
            None => variant_map_new(),
        },
    };
    let theme = ResolvedTheme {
        options: raw.options,
        colors: merged(raw.colors, defaults.colors, raw.extend.colors),
        spacing: merged(raw.spacing, defaults.spacing, raw.extend.spacing),
        sizes: merged(raw.sizes, defaults.sizes, raw.extend.sizes),
        fonts: merged(raw.fonts, defaults.fonts, raw.extend.fonts),
        text: merged(raw.text, defaults.text, raw.extend.text),
        radius: merged(raw.radius, defaults.radius, raw.extend.radius),
        shadows: merged(raw.shadows, defaults.shadows, raw.extend.shadows),
        breakpoints,
        variants,
        utilities: raw.utilities,
    };
    assert(theme@ == merge_spec(rv, dv));
    let mut diags: Vec<Diagnostic> = Vec::new();
    assert(diag_views(diags@) =~= Seq::<DiagView>::empty());
    validate(&theme, src, &mut diags);
    assert(diag_views(diags@) =~= validate_spec(theme@, src@));
    if diags.len() == 0 {
        Ok(theme)
    } else {
        Err(diags)
    }
}

/// The built-in defaults, as a preset file.
pub const DEFAULT_PRESET: &'static str = "# PresetCSS defaults. A token group is a flat key = \"value\" map.
# Writing a group such as [colors] replaces it; [extend.colors] adds to it.
# Variants are opt-in per group under [variants].

[options]
output = \"dist/preset.css\"
content = []
minify = false
base = \"minimal\"
prefix = \"\"
source_comments = false
dedup = true

[colors]
primary = \"#3b82f6\"
secondary = \"#64748b\"
success = \"#22c55e\"
danger = \"#ef4444\"
warning = \"#f59e0b\"
white = \"#ffffff\"
black = \"#000000\"

[spacing]
0 = \"0\"
1 = \"0.25rem\"
2 = \"0.5rem\"
3 = \"0.75rem\"
4 = \"1rem\"
6 = \"1.5rem\"
8 = \"2rem\"

[sizes]
xs = \"20rem\"
sm = \"24rem\"
md = \"28rem\"
lg = \"32rem\"
xl = \"36rem\"

[fonts]
sans = \"system-ui, -apple-system, 'Segoe UI', sans-serif\"
mono = \"ui-monospace, 'SFMono-Regular', monospace\"

[text]
xs = \"0.75rem\"
sm = \"0.875rem\"
base = \"1rem\"
lg = \"1.125rem\"
xl = \"1.25rem\"
2xl = \"1.5rem\"

[radius]
sm = \"2px\"
md = \"6px\"
lg = \"8px\"

[shadows]
sm = \"0 1px 2px rgba(0, 0, 0, 0.05)\"
md = \"0 4px 6px rgba(0, 0, 0, 0.1)\"
lg = \"0 10px 15px rgba(0, 0, 0, 0.1)\"

[breakpoints]
sm = \"640px\"
md = \"768px\"
lg = \"1024px\"

[variants]
colors = [\"hover\", \"focus\"]

[utilities]
";

/// What resolving `raw` gives: merged with the built-in defaults and checked, or,
/// should the defaults not read as a preset, the diagnostics about them.
pub open spec fn resolve_spec(raw: PresetModel, src: Seq<char>) -> Result<ThemeModel, Seq<DiagView>> {
    match parse_spec(DEFAULT_PRESET) {
        Ok((d, _)) => resolve_with_spec(raw, d, src),
        Err(ds) => Err(ds),
    }
}

/// Merges `raw` with the built-in defaults and checks the result.
pub fn resolve(raw: RawPreset, src: &str) -> (r: Result<ResolvedTheme, Vec<Diagnostic>>)
    ensures
        resolve_spec(raw@, src@) == match r {
            Ok(t) => Ok(t@),
            Err(ds) => Err(diag_views(ds@)),
        },
{
    match parse(DEFAULT_PRESET) {
        Ok((defaults, _)) => resolve_with(raw, defaults, src),
        Err(ds) => Err(ds),
    }
}

} // verus!
