//! What holds of the library as a whole: how merging treats defaults and
//! extensions, what a resolved theme is guaranteed to satisfy, how tree-shaking
//! relates to the full output, and that variants are opt-in.
use vstd::prelude::*;

use crate::error::{best_candidate, suggestion, DiagView};
use crate::generate::{
    bases, candidates, class_in, generate_spec, plain_rule, rules_of, BaseView, RuleView,
};
use crate::maps::{entries_insert, has_key, insert_all, key_index, lookup};
use crate::preset::{
    decode_extend, decode_tokens, empty_extend, empty_preset, extend_step, fold_entries, preset_step,
    section_path, token_step, valid_color, ExtendModel, Mismatch, PresetModel,
};
use crate::theme::DEFAULT_PRESET;
use crate::toml_doc::{read_as_string, read_as_table, toml_document, TomlOutcome, TomlTree};
use crate::theme::{
    breakpoint_diag, collision_diag, color_diag, diags_for, group_order, key_diag, key_diags,
    merge_spec, merged_spec, or_default, resolve_with_spec, theme_group, valid_token_key,
    validate_spec, variants_of, Group, ThemeModel,
};
use crate::emit::{dedup_rules, rule_block};
use crate::generate::{escaped, gen_bases, is_state_name, needs_escape, states_of, static_base, utility_base};
use crate::preset::parse_spec;
use crate::text::has_prefix;
use crate::compile_spec;
use crate::describe::{explain_spec, has_class};

verus! {

broadcast use vstd::seq_lib::group_seq_properties;

/// No two entries share a key.
pub open spec fn distinct_keys<V>(es: Seq<(Seq<char>, V)>) -> bool {
    forall|i: int, j: int| 0 <= i < j < es.len() ==> es[i].0 != es[j].0
}

/// `key_index` finds the first entry with the key.
pub proof fn lemma_key_index<V>(es: Seq<(Seq<char>, V)>, k: Seq<char>)
    ensures
        match key_index(es, k) {
            Some(i) => i < es.len() && es[i as int].0 == k && forall|j: int|
                0 <= j < i ==> es[j].0 != k,
            None => forall|j: int| 0 <= j < es.len() ==> es[j].0 != k,
        },
    decreases es.len(),
{
    if es.len() > 0 {
        let d = es.drop_last();
        lemma_key_index(d, k);
        assert forall|j: int| 0 <= j < d.len() implies #[trigger] es[j] == d[j] by {}
        match key_index(d, k) {
            Some(i) => {
                assert(es[i as int] == d[i as int]);
            },
            None => {
                assert(es[es.len() - 1] == es.last());
            },
        }
    }
}

/// `key_index` depends on the keys alone.
pub proof fn lemma_key_index_keys<V>(a: Seq<(Seq<char>, V)>, b: Seq<(Seq<char>, V)>, k: Seq<char>)
    requires
        a.len() == b.len(),
        forall|i: int| 0 <= i < a.len() ==> #[trigger] a[i].0 == b[i].0,
    ensures
        key_index(a, k) == key_index(b, k),
    decreases a.len(),
{
    if a.len() > 0 {
        lemma_key_index_keys(a.drop_last(), b.drop_last(), k);
        assert(a.last().0 == b[b.len() - 1].0);
    }
}

/// After inserting `k => v`, looking up `k` gives `v` and other keys are unchanged.
pub proof fn lemma_insert_lookup<V>(es: Seq<(Seq<char>, V)>, k: Seq<char>, v: V, j: Seq<char>)
    ensures
        lookup(entries_insert(es, k, v), j) == if j == k {
            Some(v)
        } else {
            lookup(es, j)
        },
{
    lemma_key_index(es, k);
    match key_index(es, k) {
        Some(i) => {
            let n = es.update(i as int, (k, v));
            assert forall|q: int| 0 <= q < n.len() implies #[trigger] n[q].0 == es[q].0 by {}
            lemma_key_index_keys(n, es, j);
            lemma_key_index(es, j);
            assert(entries_insert(es, k, v) == n);
            if j == k {
                assert(key_index(n, j) == Some(i));
            } else {
                match key_index(es, j) {
                    Some(q) => {
                        assert(q != i);
                        assert(n[q as int] == es[q as int]);
                    },
                    None => {},
                }
            }
        },
        None => {
            let n = es.push((k, v));
            assert(n.drop_last() == es);
            assert(entries_insert(es, k, v) == n);
            assert(n.last() == (k, v));
            match key_index(es, j) {
                Some(q) => {
                    lemma_key_index(es, j);
                    assert(n[q as int] == es[q as int]);
                },
                None => {},
            }
        },
    }
}

/// The keys of `es` and `drop_last` relate.
proof fn lemma_lookup_drop_last<V>(ps: Seq<(Seq<char>, V)>, j: Seq<char>)
    requires
        ps.len() > 0,
        distinct_keys(ps),
    ensures
        lookup(ps, j) == if j == ps.last().0 {
            Some(ps.last().1)
        } else {
            lookup(ps.drop_last(), j)
        },
        distinct_keys(ps.drop_last()),
{
    lemma_key_index(ps.drop_last(), j);
    if j == ps.last().0 {
        assert(key_index(ps.drop_last(), j) is None);
    }
}

/// Inserting entries one after another: the later entries' values win, other keys
/// keep theirs.
pub proof fn lemma_insert_all_lookup<V>(es: Seq<(Seq<char>, V)>, ps: Seq<(Seq<char>, V)>, j: Seq<char>)
    requires
        distinct_keys(ps),
    ensures
        lookup(insert_all(es, ps), j) == match lookup(ps, j) {
            Some(v) => Some(v),
            None => lookup(es, j),
        },
    decreases ps.len(),
{
    if ps.len() > 0 {
        lemma_lookup_drop_last(ps, j);
        lemma_insert_all_lookup(es, ps.drop_last(), j);
        lemma_insert_lookup(insert_all(es, ps.drop_last()), ps.last().0, ps.last().1, j);
    }
}

/// Extending a group: every extension's value is the one the merged group holds (the
/// preset's keys win), and every other key keeps the value it had in the group as
/// written or, when the preset does not write the group, in the defaults.
pub proof fn extend_adds_and_wins(
    base: Option<Seq<(Seq<char>, Seq<char>)>>,
    default: Option<Seq<(Seq<char>, Seq<char>)>>,
    extend: Seq<(Seq<char>, Seq<char>)>,
    k: Seq<char>,
)
    requires
        distinct_keys(extend),
    ensures
        lookup(merged_spec(base, default, extend), k) == match lookup(extend, k) {
            Some(v) => Some(v),
            None => lookup(or_default(base, default), k),
        },
{
    lemma_insert_all_lookup(or_default(base, default), extend, k);
}

proof fn lemma_insert_distinct<V>(es: Seq<(Seq<char>, V)>, k: Seq<char>, v: V)
    requires
        distinct_keys(es),
    ensures
        distinct_keys(entries_insert(es, k, v)),
{
    lemma_key_index(es, k);
    match key_index(es, k) {
        Some(i) => {
            let n = es.update(i as int, (k, v));
            assert forall|a: int, b: int| 0 <= a < b < n.len() implies n[a].0 != n[b].0 by {
                if a == i {
                    assert(es[b].0 != es[i as int].0);
                } else if b == i {
                    assert(es[a].0 != es[i as int].0);
                }
            }
        },
        None => {
            let n = es.push((k, v));
            assert forall|a: int, b: int| 0 <= a < b < n.len() implies n[a].0 != n[b].0 by {
                if b == es.len() {
                    assert(n[a] == es[a]);
                }
            }
        },
    }
}

/// What a fold over a table's entries keeps: an invariant of every step keeps holding.
proof fn lemma_fold_keeps<S>(
    init: S,
    es: Seq<(Seq<char>, TomlTree)>,
    step: spec_fn(S, Seq<char>, TomlTree) -> Result<S, Mismatch>,
    inv: spec_fn(S) -> bool,
)
    requires
        inv(init),
        forall|s: S, k: Seq<char>, v: TomlTree|
            inv(s) ==> match #[trigger] step(s, k, v) {
                Ok(n) => inv(n),
                Err(_) => true,
            },
    ensures
        match fold_entries(init, es, step) {
            Ok(r) => inv(r),
            Err(_) => true,
        },
    decreases es.len(),
{
    if es.len() > 0 {
        lemma_fold_keeps(init, es.drop_last(), step, inv);
    }
}

/// A token group read from a preset has no key twice.
proof fn lemma_decoded_tokens_distinct(parent: Seq<char>, name: Seq<char>, t: TomlTree)
    ensures
        match decode_tokens(parent, name, t) {
            Ok(m) => distinct_keys(m),
            Err(_) => true,
        },
{
    if let Ok(es) = read_as_table(t) {
        let inv = |m: Seq<(Seq<char>, Seq<char>)>| distinct_keys(m);
        let step = token_step(section_path(parent, name));
        assert forall|s: Seq<(Seq<char>, Seq<char>)>, k: Seq<char>, v: TomlTree|
            inv(s) implies match #[trigger] step(s, k, v) {
                Ok(n) => inv(n),
                Err(_) => true,
            } by {
            if let Ok(x) = read_as_string(v) {
                lemma_insert_distinct(s, k, x);
            }
        }
        lemma_fold_keeps(Seq::empty(), es, step, inv);
    }
}

/// Every extension group has distinct keys.
pub open spec fn extensions_distinct(x: ExtendModel) -> bool {
    &&& distinct_keys(x.colors)
    &&& distinct_keys(x.spacing)
    &&& distinct_keys(x.sizes)
    &&& distinct_keys(x.fonts)
    &&& distinct_keys(x.text)
    &&& distinct_keys(x.radius)
    &&& distinct_keys(x.shadows)
}

proof fn lemma_decoded_extend_distinct(t: TomlTree)
    ensures
        match decode_extend(t) {
            Ok(x) => extensions_distinct(x),
            Err(_) => true,
        },
{
    if let Ok(es) = read_as_table(t) {
        let inv = |x: ExtendModel| extensions_distinct(x);
        let step = extend_step();
        assert forall|s: ExtendModel, k: Seq<char>, v: TomlTree| inv(s) implies match #[trigger] step(
            s,
            k,
            v,
        ) {
            Ok(n) => inv(n),
            Err(_) => true,
        } by {
            lemma_decoded_tokens_distinct("extend"@, k, v);
        }
        lemma_fold_keeps(empty_extend(), es, step, inv);
    }
}

/// The extensions of a preset that reads have distinct keys in every group.
pub proof fn lemma_parsed_extensions_distinct(src: &str)
    ensures
        match parse_spec(src) {
            Ok((p, _)) => extensions_distinct(p.extend),
            Err(_) => true,
        },
{
    if let TomlOutcome::Parsed(es) = toml_document(src@) {
        let inv = |p: PresetModel| extensions_distinct(p.extend);
        let step = preset_step();
        assert forall|s: PresetModel, k: Seq<char>, v: TomlTree| inv(s) implies match #[trigger] step(
            s,
            k,
            v,
        ) {
            Ok(n) => inv(n),
            Err(_) => true,
        } by {
            lemma_decoded_extend_distinct(v);
        }
        lemma_fold_keeps(empty_preset(), es, step, inv);
    }
}

/// The group `g` as a preset writes it, if it does.
pub open spec fn preset_group(p: PresetModel, g: Group) -> Option<Seq<(Seq<char>, Seq<char>)>> {
    match g {
        Group::Colors => p.colors,
        Group::Spacing => p.spacing,
        Group::Sizes => p.sizes,
        Group::Fonts => p.fonts,
        Group::Text => p.text,
        Group::Radius => p.radius,
        Group::Shadows => p.shadows,
    }
}

/// The extensions of group `g`.
pub open spec fn extend_group(x: ExtendModel, g: Group) -> Seq<(Seq<char>, Seq<char>)> {
    match g {
        Group::Colors => x.colors,
        Group::Spacing => x.spacing,
        Group::Sizes => x.sizes,
        Group::Fonts => x.fonts,
        Group::Text => x.text,
        Group::Radius => x.radius,
        Group::Shadows => x.shadows,
    }
}

/// In a compiled theme the preset's extensions win: each key of a group holds the
/// value `[extend.group]` gives it, and otherwise the value it has in the group as
/// written or, when the preset does not write the group, in the defaults.
pub proof fn extensions_win_in_compiled_themes(src: &str, g: Group, k: Seq<char>)
    requires
        compile_spec(src) is Ok,
    ensures
        match (compile_spec(src), parse_spec(src), parse_spec(DEFAULT_PRESET)) {
            (Ok(t), Ok((p, _)), Ok((d, _))) => lookup(theme_group(t, g), k) == match lookup(
                extend_group(p.extend, g),
                k,
            ) {
                Some(v) => Some(v),
                None => lookup(or_default(preset_group(p, g), preset_group(d, g)), k),
            },
            _ => false,
        },
{
    lemma_parsed_extensions_distinct(src);
    if let Ok((p, _)) = parse_spec(src) {
        if let Ok((d, _)) = parse_spec(DEFAULT_PRESET) {
            let t = merge_spec(p, d);
            assert(theme_group(t, g) == merged_spec(
                preset_group(p, g),
                preset_group(d, g),
                extend_group(p.extend, g),
            ));
            extend_adds_and_wins(preset_group(p, g), preset_group(d, g), extend_group(p.extend, g), k);
        }
    }
}

/// Writing a group replaces the defaults: the merged group does not depend on them.
pub proof fn writing_a_group_replaces_defaults(
    base: Seq<(Seq<char>, Seq<char>)>,
    d1: Option<Seq<(Seq<char>, Seq<char>)>>,
    d2: Option<Seq<(Seq<char>, Seq<char>)>>,
    extend: Seq<(Seq<char>, Seq<char>)>,
)
    ensures
        merged_spec(Some(base), d1, extend) == merged_spec(Some(base), d2, extend),
        merged_spec(Some(base), d1, extend) == insert_all(base, extend),
{
}

/// A group that is not written comes from the defaults, extended.
pub proof fn unwritten_group_comes_from_defaults(
    d: Seq<(Seq<char>, Seq<char>)>,
    extend: Seq<(Seq<char>, Seq<char>)>,
)
    ensures
        merged_spec(None, Some(d), extend) == insert_all(d, extend),
{
}

proof fn lemma_diags_for_empty<T>(xs: Seq<T>, f: spec_fn(T) -> Option<DiagView>)
    requires
        diags_for(xs, f).len() == 0,
    ensures
        forall|i: int| 0 <= i < xs.len() ==> #[trigger] f(xs[i]) is None,
    decreases xs.len(),
{
    if xs.len() > 0 {
        lemma_diags_for_empty(xs.drop_last(), f);
        assert forall|i: int| 0 <= i < xs.len() implies #[trigger] f(xs[i]) is None by {
            if i < xs.len() - 1 {
                assert(xs.drop_last()[i] == xs[i]);
            }
        }
    }
}

proof fn lemma_key_diags_empty(t: ThemeModel, src: Seq<char>, gs: Seq<Group>)
    requires
        key_diags(t, src, gs).len() == 0,
    ensures
        forall|k: int|
            0 <= k < gs.len() ==> diags_for(theme_group(t, #[trigger] gs[k]), key_diag(src, gs[k])).len()
                == 0,
    decreases gs.len(),
{
    if gs.len() > 0 {
        lemma_key_diags_empty(t, src, gs.drop_last());
        assert forall|k: int| 0 <= k < gs.len() implies diags_for(
            theme_group(t, #[trigger] gs[k]),
            key_diag(src, gs[k]),
        ).len() == 0 by {
            if k < gs.len() - 1 {
                assert(gs.drop_last()[k] == gs[k]);
            }
        }
    }
}

/// The guarantees of a checked theme: all token keys are made of `A-Z a-z 0-9 . _ -`,
/// every color is a color, no key is both a color and a text size, and no breakpoint
/// is named like a state variant.
pub open spec fn sound_theme(t: ThemeModel) -> bool {
    &&& forall|g: Group, i: int|
        0 <= i < theme_group(t, g).len() ==> valid_token_key(#[trigger] theme_group(t, g)[i].0)
    &&& forall|i: int| 0 <= i < t.colors.len() ==> valid_color(#[trigger] t.colors[i].1)
    &&& forall|i: int| 0 <= i < t.text.len() ==> !has_key(t.colors, #[trigger] t.text[i].0)
    &&& forall|i: int|
        0 <= i < t.breakpoints.len() ==> !is_state_name(#[trigger] t.breakpoints[i].0)
}

/// A theme that resolves is the merge of the preset with the defaults, and is sound.
pub proof fn resolved_theme_is_valid(raw: PresetModel, defaults: PresetModel, src: Seq<char>)
    requires
        resolve_with_spec(raw, defaults, src) is Ok,
    ensures
        resolve_with_spec(raw, defaults, src) == Ok::<ThemeModel, Seq<DiagView>>(
            merge_spec(raw, defaults),
        ),
        sound_theme(merge_spec(raw, defaults)),
{
    let t = merge_spec(raw, defaults);
    let a = key_diags(t, src, group_order());
    let b = diags_for(t.colors, color_diag(src));
    let c = diags_for(t.text, collision_diag(t.colors, src));
    let d = diags_for(t.breakpoints, breakpoint_diag());
    assert(validate_spec(t, src) == a + b + c + d);
    assert(a.len() == 0 && b.len() == 0 && c.len() == 0 && d.len() == 0);
    lemma_key_diags_empty(t, src, group_order());
    lemma_diags_for_empty(t.colors, color_diag(src));
    lemma_diags_for_empty(t.text, collision_diag(t.colors, src));
    lemma_diags_for_empty(t.breakpoints, breakpoint_diag());
    assert forall|g: Group, i: int|
        0 <= i < theme_group(t, g).len() implies valid_token_key(
        #[trigger] theme_group(t, g)[i].0,
    ) by {
        let k: int = match g {
            Group::Colors => 0,
            Group::Spacing => 1,
            Group::Sizes => 2,
            Group::Fonts => 3,
            Group::Text => 4,
            Group::Radius => 5,
            Group::Shadows => 6,
        };
        assert(group_order()[k] == g);
        lemma_diags_for_empty(theme_group(t, g), key_diag(src, g));
        assert(key_diag(src, g)(theme_group(t, g)[i]) is None);
    }
    assert forall|i: int| 0 <= i < t.colors.len() implies valid_color(#[trigger] t.colors[i].1) by {
        assert(color_diag(src)(t.colors[i]) is None);
    }
    assert forall|i: int| 0 <= i < t.text.len() implies !has_key(t.colors, #[trigger] t.text[i].0) by {
        assert(collision_diag(t.colors, src)(t.text[i]) is None);
    }
    assert forall|i: int|
        0 <= i < t.breakpoints.len() implies !is_state_name(#[trigger] t.breakpoints[i].0) by {
        assert(breakpoint_diag()(t.breakpoints[i]) is None);
    }
}

/// A preset that compiles gives a sound theme.
pub proof fn compiled_theme_is_sound(src: &str)
    requires
        compile_spec(src) is Ok,
    ensures
        compile_spec(src) matches Ok(t) && sound_theme(t),
{
    if let Ok((raw, _)) = parse_spec(src) {
        if let Ok((d, _)) = parse_spec(crate::theme::DEFAULT_PRESET) {
            resolved_theme_is_valid(raw, d, src@);
        }
    }
}

proof fn lemma_rules_of_filter(t: ThemeModel, bs: Seq<BaseView>, u: Set<Seq<char>>)
    ensures
        rules_of(t, bs, Some(u)) == rules_of(t, bs, None).filter(class_in(u)),
    decreases bs.len(),
{
    if bs.len() > 0 {
        lemma_rules_of_filter(t, bs.drop_last(), u);
        Seq::filter_distributes_over_add(
            rules_of(t, bs.drop_last(), None),
            candidates(t, bs.last()),
            class_in(u),
        );
    } else {
        reveal(Seq::filter);
        assert(Seq::<RuleView>::empty().filter(class_in(u)) =~= Seq::<RuleView>::empty());
    }
}

/// Tree-shaking keeps exactly the rules of the full output whose class is used, in
/// the same order.
pub proof fn tree_shaking_filters_full_output(t: ThemeModel, u: Set<Seq<char>>)
    ensures
        generate_spec(t, Some(u)) == generate_spec(t, None).filter(class_in(u)),
{
    lemma_rules_of_filter(t, bases(t), u);
}

proof fn lemma_filter_all<A>(s: Seq<A>, p: spec_fn(A) -> bool)
    requires
        forall|i: int| 0 <= i < s.len() ==> p(#[trigger] s[i]),
    ensures
        s.filter(p) == s,
    decreases s.len(),
{
    if s.len() > 0 {
        let d = s.drop_last();
        assert forall|i: int| 0 <= i < d.len() implies p(#[trigger] d[i]) by {
            assert(d[i] == s[i]);
        }
        lemma_filter_all(d, p);
        d.lemma_filter_push(s.last(), p);
        assert(d.push(s.last()) == s);
    } else {
        reveal(Seq::filter);
        assert(s.filter(p) =~= s);
    }
}

/// Tree-shaking with a set that holds every generated class changes nothing.
pub proof fn tree_shaking_with_every_class_keeps_all(t: ThemeModel, u: Set<Seq<char>>)
    requires
        forall|i: int|
            0 <= i < generate_spec(t, None).len() ==> u.contains(
                #[trigger] generate_spec(t, None)[i].class,
            ),
    ensures
        generate_spec(t, Some(u)) == generate_spec(t, None),
{
    tree_shaking_filters_full_output(t, u);
    let all = generate_spec(t, None);
    assert forall|i: int| 0 <= i < all.len() implies class_in(u)(#[trigger] all[i]) by {}
    lemma_filter_all(all, class_in(u));
}

/// Every rule that survives tree-shaking has a used class.
pub proof fn tree_shaken_classes_are_used(t: ThemeModel, u: Set<Seq<char>>, i: int)
    requires
        0 <= i < generate_spec(t, Some(u)).len(),
    ensures
        u.contains(generate_spec(t, Some(u))[i].class),
{
    tree_shaking_filters_full_output(t, u);
    generate_spec(t, None).lemma_filter_pred(class_in(u), i);
}

proof fn lemma_rules_without_variants(t: ThemeModel, bs: Seq<BaseView>)
    requires
        t.variants.len() == 0,
    ensures
        rules_of(t, bs, None) == bs.map_values(|b: BaseView| plain_rule(b)),
    decreases bs.len(),
{
    if bs.len() > 0 {
        lemma_rules_without_variants(t, bs.drop_last());
        let b = bs.last();
        assert(key_index(t.variants, b.group_key) is None);
        assert(variants_of(t, b.group_key) == Seq::<Seq<char>>::empty());
        reveal(Seq::filter);
        assert(Seq::<Seq<char>>::empty().filter(|v: Seq<char>| is_state_name(v)) =~= Seq::<
            Seq<char>,
        >::empty());
        assert(candidates(t, b) =~= seq![plain_rule(b)]);
        assert(bs.map_values(|b: BaseView| plain_rule(b)) =~= bs.drop_last().map_values(
            |b: BaseView| plain_rule(b),
        ).push(plain_rule(b)));
    } else {
        assert(bs.map_values(|b: BaseView| plain_rule(b)) =~= Seq::<RuleView>::empty());
    }
}

/// Variants are opt-in: a theme that enables none for any group gets exactly one
/// plain rule per utility, with no pseudo-class and no media query.
pub proof fn variants_are_opt_in(t: ThemeModel)
    requires
        t.variants.len() == 0,
    ensures
        generate_spec(t, None) == bases(t).map_values(|b: BaseView| plain_rule(b)),
{
    lemma_rules_without_variants(t, bases(t));
}

/// Variants are opt-in per group: a utility whose group is not listed under
/// `[variants]` gives its plain rule and nothing else.
pub proof fn unlisted_group_gets_no_variants(t: ThemeModel, b: BaseView)
    requires
        !has_key(t.variants, b.group_key),
    ensures
        candidates(t, b) == seq![plain_rule(b)],
{
    assert(variants_of(t, b.group_key) == Seq::<Seq<char>>::empty());
    reveal(Seq::filter);
    assert(Seq::<Seq<char>>::empty().filter(|v: Seq<char>| is_state_name(v)) =~= Seq::<
        Seq<char>,
    >::empty());
    assert(candidates(t, b) =~= seq![plain_rule(b)]);
}

/// Two themes that differ at most in their variants.
pub open spec fn same_but_variants(t: ThemeModel, t2: ThemeModel) -> bool {
    t2 == ThemeModel { variants: t2.variants, ..t }
}

/// Two themes whose groups enable the same state variants and agree on `responsive`.
pub open spec fn same_effective_variants(t: ThemeModel, t2: ThemeModel) -> bool {
    forall|k: Seq<char>|
        #![trigger variants_of(t2, k)]
        states_of(variants_of(t2, k)) == states_of(variants_of(t, k)) && (variants_of(
            t2,
            k,
        ).contains("responsive"@) <==> variants_of(t, k).contains("responsive"@))
}

proof fn lemma_gen_bases_same(t: ThemeModel, t2: ThemeModel, gs: Seq<(Group, Seq<char>, Seq<Seq<char>>)>)
    requires
        same_but_variants(t, t2),
    ensures
        gen_bases(t2, gs) == gen_bases(t, gs),
    decreases gs.len(),
{
    if gs.len() > 0 {
        lemma_gen_bases_same(t, t2, gs.drop_last());
        assert(theme_group(t2, gs.last().0) == theme_group(t, gs.last().0));
    }
}

proof fn lemma_rules_of_same(
    t: ThemeModel,
    t2: ThemeModel,
    bs: Seq<BaseView>,
    used: Option<Set<Seq<char>>>,
)
    requires
        same_but_variants(t, t2),
        same_effective_variants(t, t2),
    ensures
        rules_of(t2, bs, used) == rules_of(t, bs, used),
    decreases bs.len(),
{
    if bs.len() > 0 {
        lemma_rules_of_same(t, t2, bs.drop_last(), used);
        let b = bs.last();
        assert(states_of(variants_of(t2, b.group_key)) == states_of(variants_of(t, b.group_key)));
        assert(candidates(t2, b) == candidates(t, b));
    }
}

/// Variants matter only through the state variants a group enables and whether it
/// enables `responsive`: two themes that agree on those generate the same rules.
pub proof fn variants_matter_only_through_states_and_responsive(
    t: ThemeModel,
    t2: ThemeModel,
    used: Option<Set<Seq<char>>>,
)
    requires
        same_but_variants(t, t2),
        same_effective_variants(t, t2),
    ensures
        generate_spec(t2, used) == generate_spec(t, used),
{
    lemma_gen_bases_same(t, t2, crate::generate::generator_table());
    assert(bases(t2) == bases(t));
    lemma_rules_of_same(t, t2, bases(t), used);
}

/// Unknown variant names change nothing: adding to a group's variants a name that is
/// neither a state nor `responsive` leaves the generated rules as they were.
pub proof fn unknown_variant_names_change_nothing(
    t: ThemeModel,
    t2: ThemeModel,
    g: Seq<char>,
    x: Seq<char>,
    used: Option<Set<Seq<char>>>,
)
    requires
        same_but_variants(t, t2),
        variants_of(t2, g) == variants_of(t, g).push(x),
        forall|k: Seq<char>| k != g ==> #[trigger] variants_of(t2, k) == variants_of(t, k),
        x != "responsive"@,
        !is_state_name(x),
    ensures
        generate_spec(t2, used) == generate_spec(t, used),
{
    let pred = |v: Seq<char>| is_state_name(v);
    assert forall|k: Seq<char>|
        #![trigger variants_of(t2, k)]
        states_of(variants_of(t2, k)) == states_of(variants_of(t, k)) && (variants_of(
            t2,
            k,
        ).contains("responsive"@) <==> variants_of(t, k).contains("responsive"@)) by {
        if k == g {
            let vs = variants_of(t, g);
            vs.lemma_filter_push(x, pred);
            assert(states_of(vs.push(x)) == states_of(vs));
            if vs.push(x).contains("responsive"@) {
                let i = choose|i: int| 0 <= i < vs.push(x).len() && vs.push(x)[i] == "responsive"@;
                assert(i < vs.len());
                assert(vs[i] == "responsive"@);
            }
            if vs.contains("responsive"@) {
                let i = choose|i: int| 0 <= i < vs.len() && vs[i] == "responsive"@;
                assert(vs.push(x)[i] == "responsive"@);
            }
        }
    }
    variants_matter_only_through_states_and_responsive(t, t2, used);
}

/// Explaining a class succeeds exactly when the preset generates that class.
pub proof fn explain_knows_every_generated_class(t: ThemeModel, class: Seq<char>)
    ensures
        (explain_spec(t, class) is Ok) <==> exists|i: int|
            0 <= i < generate_spec(t, None).len() && #[trigger] generate_spec(t, None)[i].class
                == class,
{
    let rs = generate_spec(t, None);
    let pred = has_class(class);
    rs.filter_lemma(pred);
    if explain_spec(t, class) is Ok {
        let f = rs.filter(pred);
        assert(pred(f[0]));
        assert(f.contains(f[0]));
        rs.lemma_filter_contains_rev(pred, f[0]);
        let i = choose|i: int| 0 <= i < rs.len() && rs[i] == f[0];
        assert(rs[i].class == class);
    }
    if exists|i: int| 0 <= i < rs.len() && #[trigger] rs[i].class == class {
        let i = choose|i: int| 0 <= i < rs.len() && #[trigger] rs[i].class == class;
        assert(pred(rs[i]));
        assert(rs.filter(pred).contains(rs[i]));
    }
}

/// A suggestion is always one of the candidates.
pub proof fn suggestion_is_a_candidate(input: Seq<char>, cs: Seq<Seq<char>>)
    ensures
        suggestion(input, cs) matches Some(s) ==> cs.contains(s),
{
    lemma_best_is_candidate(input, cs);
}

proof fn lemma_best_is_candidate(input: Seq<char>, cs: Seq<Seq<char>>)
    ensures
        best_candidate(input, cs) matches Some((_, c)) ==> cs.contains(c),
    decreases cs.len(),
{
    if cs.len() > 0 {
        lemma_best_is_candidate(input, cs.drop_last());
        if let Some((_, c)) = best_candidate(input, cs.drop_last()) {
            let k = choose|k: int| 0 <= k < cs.drop_last().len() && cs.drop_last()[k] == c;
            assert(cs[k] == c);
        }
        assert(cs[cs.len() - 1] == cs.last());
    }
}


/// A selector's class text read back: each `\` before `:`, `.` or `/` dropped.
pub open spec fn unescaped(s: Seq<char>) -> Seq<char>
    decreases s.len(),
{
    if s.len() == 0 {
        Seq::empty()
    } else if s.len() >= 2 && s[0] == '\\' && needs_escape(s[1]) {
        seq![s[1]] + unescaped(s.skip(2))
    } else {
        seq![s[0]] + unescaped(s.skip(1))
    }
}

proof fn lemma_escaped_concat(a: Seq<char>, b: Seq<char>)
    ensures
        escaped(a + b) == escaped(a) + escaped(b),
    decreases b.len(),
{
    if b.len() == 0 {
        assert(a + b == a);
        assert(escaped(b) == Seq::<char>::empty());
    } else {
        lemma_escaped_concat(a, b.drop_last());
        assert((a + b).drop_last() == a + b.drop_last());
        assert((a + b).last() == b.last());
    }
}

proof fn lemma_escaped_head(s: Seq<char>)
    requires
        s.len() > 0,
    ensures
        escaped(s) == escaped(seq![s[0]]) + escaped(s.skip(1)),
        escaped(s).len() > 0,
        !needs_escape(escaped(s)[0]),
{
    assert(seq![s[0]] + s.skip(1) == s);
    lemma_escaped_concat(seq![s[0]], s.skip(1));
    lemma_escaped_one(s[0]);
}

proof fn lemma_escaped_one(x: char)
    ensures
        escaped(seq![x]) == if needs_escape(x) {
            seq!['\\', x]
        } else {
            seq![x]
        },
{
    assert(seq![x].drop_last() =~= Seq::<char>::empty());
    assert(seq![x].last() == x);
    assert(escaped(Seq::<char>::empty()) == Seq::<char>::empty());
    if needs_escape(x) {
        assert(escaped(seq![x]) =~= seq!['\\', x]);
    } else {
        assert(escaped(seq![x]) =~= seq![x]);
    }
}

/// Escaping is undone by reading the class back: distinct classes give distinct
/// selectors.
pub proof fn escaping_round_trips(class: Seq<char>)
    ensures
        unescaped(escaped(class)) == class,
    decreases class.len(),
{
    if class.len() > 0 {
        let x = class[0];
        let rest = class.skip(1);
        lemma_escaped_head(class);
        escaping_round_trips(rest);
        let e = escaped(class);
        lemma_escaped_one(x);
        if needs_escape(x) {
            assert(escaped(seq![x]) == seq!['\\', x]);
            assert(e.skip(2) == escaped(rest));
            assert(unescaped(e) == seq![x] + unescaped(escaped(rest)));
        } else {
            assert(escaped(seq![x]) == seq![x]);
            assert(e.skip(1) == escaped(rest));
            if rest.len() > 0 {
                lemma_escaped_head(rest);
                assert(e[1] == escaped(rest)[0]);
            }
            assert(unescaped(e) == seq![x] + unescaped(escaped(rest)));
        }
        assert(seq![x] + rest == class);
    }
}

proof fn lemma_dedup_from(rs: Seq<RuleView>, minify: bool)
    ensures
        forall|i: int|
            0 <= i < dedup_rules(rs, minify).len() ==> rs.map_values(
                |r: RuleView| rule_block(r, minify),
            ).contains(rule_block(#[trigger] dedup_rules(rs, minify)[i], minify)),
        forall|i: int, j: int|
            0 <= i < j < dedup_rules(rs, minify).len() ==> rule_block(
                #[trigger] dedup_rules(rs, minify)[i],
                minify,
            ) != rule_block(#[trigger] dedup_rules(rs, minify)[j], minify),
    decreases rs.len(),
{
    if rs.len() > 0 {
        let d = rs.drop_last();
        lemma_dedup_from(d, minify);
        let bd = d.map_values(|r: RuleView| rule_block(r, minify));
        let b = rs.map_values(|r: RuleView| rule_block(r, minify));
        assert(b.drop_last() =~= bd);
        let prev = dedup_rules(d, minify);
        assert forall|i: int| 0 <= i < prev.len() implies b.contains(
            rule_block(#[trigger] prev[i], minify),
        ) by {
            let k = choose|k: int| 0 <= k < bd.len() && bd[k] == rule_block(prev[i], minify);
            assert(b[k] == bd[k]);
        }
        if !bd.contains(rule_block(rs.last(), minify)) {
            let n = prev.push(rs.last());
            assert(b[rs.len() - 1] == rule_block(rs.last(), minify));
            assert forall|i: int| 0 <= i < n.len() implies b.contains(
                rule_block(#[trigger] n[i], minify),
            ) by {
                if i < prev.len() {
                    assert(n[i] == prev[i]);
                }
            }
            assert forall|i: int, j: int| 0 <= i < j < n.len() implies rule_block(
                #[trigger] n[i],
                minify,
            ) != rule_block(#[trigger] n[j], minify) by {
                if j == n.len() - 1 {
                    assert(n[i] == prev[i]);
                    assert(bd.contains(rule_block(prev[i], minify)));
                } else {
                    assert(n[i] == prev[i] && n[j] == prev[j]);
                }
            }
        }
    }
}

/// With `dedup`, no rule block is written twice.
pub proof fn dedup_leaves_no_repeats(rs: Seq<RuleView>, minify: bool)
    ensures
        forall|i: int, j: int|
            0 <= i < j < dedup_rules(rs, minify).len() ==> rule_block(
                #[trigger] dedup_rules(rs, minify)[i],
                minify,
            ) != rule_block(#[trigger] dedup_rules(rs, minify)[j], minify),
{
    lemma_dedup_from(rs, minify);
}

/// A preset that compiles has no unknown tables and no unknown options.
pub proof fn compiled_preset_has_no_unknown_keys(src: &str)
    requires
        compile_spec(src) is Ok,
    ensures
        parse_spec(src) matches Ok((p, ds)) && ds.len() == 0 && p.unknown.len() == 0
            && p.options.unknown.len() == 0,
{
}

proof fn lemma_prefix_concat(p: Seq<char>, x: Seq<char>)
    ensures
        has_prefix(p + x, p),
{
    assert((p + x).take(p.len() as int) =~= p);
}

proof fn lemma_gen_bases_prefix(t: ThemeModel, gs: Seq<(Group, Seq<char>, Seq<Seq<char>>)>)
    ensures
        forall|i: int|
            0 <= i < gen_bases(t, gs).len() ==> has_prefix(
                #[trigger] gen_bases(t, gs)[i].class,
                t.options.prefix,
            ),
    decreases gs.len(),
{
    if gs.len() > 0 {
        lemma_gen_bases_prefix(t, gs.drop_last());
        let a = gen_bases(t, gs.drop_last());
        let g = gs.last();
        let b = theme_group(t, g.0).map_values(
            |e: (Seq<char>, Seq<char>)| crate::generate::gen_base(t.options.prefix, g, e),
        );
        assert forall|i: int| 0 <= i < (a + b).len() implies has_prefix(
            #[trigger] (a + b)[i].class,
            t.options.prefix,
        ) by {
            if i >= a.len() {
                let e = theme_group(t, g.0)[i - a.len()];
                assert((a + b)[i] == b[i - a.len()]);
                lemma_prefix_concat(t.options.prefix, g.1 + "-"@ + e.0);
                assert(t.options.prefix + g.1 + "-"@ + e.0 == t.options.prefix + (g.1 + "-"@ + e.0));
            } else {
                assert((a + b)[i] == a[i]);
            }
        }
    }
}

/// Every utility's class starts with the preset's prefix; variant names are put in
/// front of the prefixed class, never inside it.
pub proof fn classes_carry_the_prefix(t: ThemeModel)
    ensures
        forall|i: int|
            0 <= i < bases(t).len() ==> has_prefix(#[trigger] bases(t)[i].class, t.options.prefix),
{
    lemma_gen_bases_prefix(t, crate::generate::generator_table());
    let a = gen_bases(t, crate::generate::generator_table());
    let b = crate::generate::static_table().map_values(
        |s: (Seq<char>, Seq<(Seq<char>, Seq<char>)>)| static_base(t.options.prefix, s),
    );
    let c = t.utilities.map_values(|e: (Seq<char>, Seq<char>)| utility_base(t.options.prefix, e));
    assert(bases(t) == a + b + c);
    assert forall|i: int| 0 <= i < bases(t).len() implies has_prefix(
        #[trigger] bases(t)[i].class,
        t.options.prefix,
    ) by {
        if i < a.len() {
            assert(bases(t)[i] == a[i]);
        } else if i < a.len() + b.len() {
            assert(bases(t)[i] == b[i - a.len()]);
            lemma_prefix_concat(t.options.prefix, crate::generate::static_table()[i - a.len()].0);
        } else {
            assert(bases(t)[i] == c[i - a.len() - b.len()]);
            lemma_prefix_concat(t.options.prefix, t.utilities[i - a.len() - b.len()].0);
        }
    }
}

/// Every variant rule of a utility styles the utility's own class behind its
/// variant names: `state:class`, `breakpoint:class` or `breakpoint:state:class`.
pub proof fn variant_classes_end_with_the_utility_class(t: ThemeModel, b: BaseView, i: int)
    requires
        0 <= i < candidates(t, b).len(),
    ensures
        exists|v: Seq<char>| #[trigger] (v + b.class) == candidates(t, b)[i].class,
{
    let r = candidates(t, b)[i];
    let vs = variants_of(t, b.group_key);
    let states = crate::generate::states_of(vs);
    let head = seq![plain_rule(b)];
    let mid = states.map_values(|st: Seq<char>| crate::generate::state_rule(b, st, None));
    if i == 0 {
        assert(r == plain_rule(b));
        assert(Seq::<char>::empty() + b.class == r.class);
    } else if i < 1 + mid.len() {
        let st = states[i - 1];
        assert(r == mid[i - 1]);
        assert((st + ":"@) + b.class == r.class);
    } else {
        lemma_bp_rules_end(b, states, t.breakpoints, i - 1 - mid.len());
        let rest = crate::generate::bp_rules(b, states, t.breakpoints);
        assert(vs.contains("responsive"@));
        assert(r == rest[i - 1 - mid.len()]);
    }
}

proof fn lemma_bp_rules_end(
    b: BaseView,
    states: Seq<Seq<char>>,
    bps: Seq<(Seq<char>, Seq<char>)>,
    i: int,
)
    requires
        0 <= i < crate::generate::bp_rules(b, states, bps).len(),
    ensures
        exists|v: Seq<char>| #[trigger] (v + b.class) == crate::generate::bp_rules(b, states, bps)[i].class,
    decreases bps.len(),
{
    let prev = crate::generate::bp_rules(b, states, bps.drop_last());
    let x = bps.last();
    let blk = crate::generate::bp_block(b, states, x);
    assert(crate::generate::bp_rules(b, states, bps) == prev + blk);
    if i < prev.len() {
        lemma_bp_rules_end(b, states, bps.drop_last(), i);
        assert((prev + blk)[i] == prev[i]);
    } else {
        let k = i - prev.len();
        assert((prev + blk)[i] == blk[k]);
        if k == 0 {
            assert((x.0 + ":"@) + b.class == blk[0].class);
        } else {
            let st = states[k - 1];
            assert((x.0 + ":"@ + st + ":"@) + b.class == blk[k].class);
        }
    }
}

} // verus!
