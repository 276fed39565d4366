//! Descriptions of a theme for people: what a class is made of and where it comes
//! from, which token keys each group has, and which static utilities exist.
use vstd::prelude::*;

use crate::emit::{concat_all, join};
use crate::error::{diag_help, diag_views, plain_diag, DiagView, Diagnostic};
use crate::generate::{
    generate, generate_spec, rule_views, selector_of, state_pseudos, state_table, static_table,
    static_views, statics, str_pairs, DeclView, Rule, RuleView,
};
use crate::maps::{keys_of, pair_views, string_views, token_entries, token_map_pairs, TokenMap};
use crate::text::{decimal, decimal_string, owned, push_str, str_eq};
use crate::theme::{group_name, group_order, theme_group, Group, ResolvedTheme, ThemeModel};

verus! {

broadcast use vstd::seq_lib::group_seq_properties;

/// The strings of `items` joined by `sep`, appended to `out`.
pub fn push_joined(out: &mut String, items: &Vec<String>, sep: &str)
    ensures
        final(out)@ == old(out)@ + join(string_views(items@), sep@),
{
    let ghost xs = string_views(items@);
    let ghost start = out@;
    let mut i: usize = 0;
    while i < items.len()
        invariant
            xs == string_views(items@),
            start == old(out)@,
            i <= items.len(),
            out@ == start + join(xs.take(i as int), sep@),
        decreases items.len() - i,
    {
        let ghost before = out@;
        if i > 0 {
            push_str(out, sep);
        }
        push_str(out, items[i].as_str());
        let ghost m = xs.take(i + 1);
        assert(m.drop_last() =~= xs.take(i as int));
        assert(m.last() == xs[i as int]);
        if i > 0 {
            assert(out@ =~= before + sep@ + xs[i as int]);
        } else {
            assert(m.len() == 1);
            assert(out@ =~= start + m[0]);
        }
        i += 1;
    }
    assert(xs.take(items.len() as int) == xs);
}

/// One declaration of an explained rule, on a line of its own.
pub open spec fn decl_line(d: DeclView) -> Seq<char> {
    "  "@ + d.prop + ": "@ + d.value + ";\n"@
}

/// Where an explained rule applies from, when it is inside a media query.
pub open spec fn media_note(m: Option<Seq<char>>) -> Seq<char> {
    match m {
        Some(w) => " @media (min-width:"@ + w + ")"@,
        None => Seq::empty(),
    }
}

/// A rule explained: its selector and declarations as a block, then the preset
/// entry it comes from and its media query, followed by a blank line.
pub open spec fn explain_text(r: RuleView) -> Seq<char> {
    selector_of(r) + " {\n"@ + concat_all(r.decls.map_values(|d: DeclView| decl_line(d))) + "}\n"@
        + "  from "@ + r.src + media_note(r.media) + "\n\n"@
}

/// Whether a rule styles the class `c`.
pub open spec fn has_class(c: Seq<char>) -> spec_fn(RuleView) -> bool {
    |r: RuleView| r.class == c
}

/// The diagnostic for a class that the preset does not generate.
pub open spec fn unknown_class_diag(class: Seq<char>) -> DiagView {
    diag_help(
        plain_diag("no class '"@ + class + "' is generated by this preset"@),
        "run `presetcss help theme` to see available token keys"@,
    )
}

/// What explaining `class` gives: every rule of the full output that styles it, in
/// order, each explained; or, when there is none, the diagnostic saying so.
pub open spec fn explain_spec(t: ThemeModel, class: Seq<char>) -> Result<Seq<char>, Seq<DiagView>> {
    let ms = generate_spec(t, None).filter(has_class(class));
    if ms.len() == 0 {
        Err(seq![unknown_class_diag(class)])
    } else {
        Ok(concat_all(ms.map_values(|r: RuleView| explain_text(r))))
    }
}

fn push_explained(out: &mut String, r: &Rule)
    ensures
        final(out)@ == old(out)@ + explain_text(r@),
{
    let ghost rv = r@;
    let ghost f = |d: DeclView| decl_line(d);
    let sel = r.selector();
    push_str(out, sel.as_str());
    push_str(out, " {\n");
    let ghost head = out@;
    let mut i: usize = 0;
    while i < r.decls.len()
        invariant
            rv == r@,
            f == (|d: DeclView| decl_line(d)),
            i <= r.decls.len(),
            out@ == head + concat_all(rv.decls.take(i as int).map_values(f)),
        decreases r.decls.len() - i,
    {
        let ghost before = out@;
        push_str(out, "  ");
        push_str(out, r.decls[i].prop.as_str());
        push_str(out, ": ");
        push_str(out, r.decls[i].value.as_str());
        push_str(out, ";\n");
        assert(rv.decls[i as int] == r.decls@[i as int]@);
        assert(out@ =~= before + f(rv.decls[i as int]));
        let ghost m = rv.decls.take(i + 1).map_values(f);
        assert(m.drop_last() =~= rv.decls.take(i as int).map_values(f));
        assert(m.last() == f(rv.decls[i as int]));
        i += 1;
    }
    assert(rv.decls.take(r.decls.len() as int) == rv.decls);
    push_str(out, "}\n");
    push_str(out, "  from ");
    push_str(out, r.src.as_str());
    match &r.media {
        Some(m) => {
            push_str(out, " @media (min-width:");
            push_str(out, m.as_str());
            push_str(out, ")");
        },
        None => {},
    }
    push_str(out, "\n\n");
}

/// Explains a class: the rules that style it, with the preset entry each comes from.
pub fn explain(theme: &ResolvedTheme, class: &str) -> (r: Result<String, Vec<Diagnostic>>)
    ensures
        explain_spec(theme@, class@) == match r {
            Ok(s) => Ok(s@),
            Err(ds) => Err(diag_views(ds@)),
        },
{
    let rules = generate(theme, None);
    let ghost rs = rule_views(rules@);
    let ghost pred = has_class(class@);
    let ghost f = |r: RuleView| explain_text(r);
    let mut out = String::new();
    let mut found: usize = 0;
    let mut i: usize = 0;
    while i < rules.len()
        invariant
            rs == rule_views(rules@),
            rs == generate_spec(theme@, None),
            pred == has_class(class@),
            f == (|r: RuleView| explain_text(r)),
            i <= rules.len(),
            found <= i,
            found == rs.take(i as int).filter(pred).len(),
            out@ == concat_all(rs.take(i as int).filter(pred).map_values(f)),
        decreases rules.len() - i,
    {
        let ghost kept = rs.take(i as int).filter(pred);
        assert(rs.take(i + 1) == rs.take(i as int).push(rs[i as int]));
        proof {
            rs.take(i as int).lemma_filter_push(rs[i as int], pred);
        }
        assert(rs[i as int] == rules@[i as int]@);
        if str_eq(rules[i].class.as_str(), class) {
            let ghost before = out@;
            push_explained(&mut out, &rules[i]);
            let ghost m = kept.push(rs[i as int]).map_values(f);
            assert(m.drop_last() =~= kept.map_values(f));
            assert(m.last() == f(rs[i as int]));
            found += 1;
        }
        i += 1;
    }
    assert(rs.take(rules.len() as int) == rs);
    if found == 0 {
        let mut msg = owned("no class '");
        push_str(&mut msg, class);
        push_str(&mut msg, "' is generated by this preset");
        let d = Diagnostic::error(msg).with_help(
            owned("run `presetcss help theme` to see available token keys"),
        );
        let ds = vec![d];
        assert(diag_views(ds@) =~= seq![d@]);
        Err(ds)
    } else {
        Ok(out)
    }
}

/// One token group in the listing: its name, how many keys it has, and the keys.
pub open spec fn group_listing(name: Seq<char>, es: Seq<(Seq<char>, Seq<char>)>) -> Seq<char> {
    "["@ + name + "] ("@ + decimal(es.len()) + " keys)\n  "@ + join(keys_of(es), ", "@) + "\n\n"@
}

/// A breakpoint in the listing: its name and width.
pub open spec fn breakpoint_item(e: (Seq<char>, Seq<char>)) -> Seq<char> {
    e.0 + " ("@ + e.1 + ")"@
}

/// The listing of a theme's tokens: each group with its keys, the breakpoints with
/// their widths, and the state variant names.
pub open spec fn theme_help_spec(t: ThemeModel) -> Seq<char> {
    "Token groups and keys:\n\n"@ + concat_all(
        group_order().map_values(|g: Group| group_listing(group_name(g), theme_group(t, g))),
    ) + "[breakpoints]\n  "@ + join(
        t.breakpoints.map_values(|e: (Seq<char>, Seq<char>)| breakpoint_item(e)),
        ", "@,
    ) + "\n\n"@ + "States: "@ + join(
        state_table().map_values(|s: (Seq<char>, Seq<char>)| s.0),
        ", "@,
    ) + "\n"@
}

/// The listing of the static utilities: how many there are, then each class.
pub open spec fn static_help_spec() -> Seq<char> {
    "Built-in static utilities ("@ + decimal(static_table().len()) + "):\n\n"@ + concat_all(
        static_table().map_values(
            |s: (Seq<char>, Seq<(Seq<char>, Seq<char>)>)| "  "@ + s.0 + "\n"@,
        ),
    )
}

fn push_group_listing(out: &mut String, name: &str, m: &TokenMap)
    ensures
        final(out)@ == old(out)@ + group_listing(name@, token_entries(*m)),
{
    let ps = token_map_pairs(m);
    let ghost es = pair_views(ps@);
    let mut keys: Vec<String> = Vec::new();
    let mut i: usize = 0;
    while i < ps.len()
        invariant
            es == pair_views(ps@),
            i <= ps.len(),
            string_views(keys@) == keys_of(es.take(i as int)),
        decreases ps.len() - i,
    {
        let ghost prev = keys@;
        keys.push(ps[i].0.clone());
        assert(string_views(keys@) =~= string_views(prev).push(es[i as int].0));
        assert(keys_of(es.take(i + 1)) =~= keys_of(es.take(i as int)).push(es[i as int].0));
        i += 1;
    }
    assert(es.take(ps.len() as int) == es);
    push_str(out, "[");
    push_str(out, name);
    push_str(out, "] (");
    let n = decimal_string(ps.len());
    push_str(out, n.as_str());
    push_str(out, " keys)\n  ");
    push_joined(out, &keys, ", ");
    push_str(out, "\n\n");
}

/// The listing of a theme's token groups, breakpoints and state variants.
pub fn theme_help(theme: &ResolvedTheme) -> (r: String)
    ensures
        r@ == theme_help_spec(theme@),
{
    let ghost t = theme@;
    let ghost gf = |g: Group| group_listing(group_name(g), theme_group(t, g));
    let mut out = owned("Token groups and keys:\n\n");
    let ghost head = out@;
    let groups = Group::all();
    let mut i: usize = 0;
    while i < groups.len()
        invariant
            t == theme@,
            groups@ == group_order(),
            gf == (|g: Group| group_listing(group_name(g), theme_group(t, g))),
            i <= groups.len(),
            out@ == head + concat_all(group_order().take(i as int).map_values(gf)),
        decreases groups.len() - i,
    {
        let g = groups[i];
        push_group_listing(&mut out, g.key(), theme.group(g));
        let ghost m = group_order().take(i + 1).map_values(gf);
        assert(m.drop_last() =~= group_order().take(i as int).map_values(gf));
        assert(m.last() == gf(g));
        i += 1;
    }
    assert(group_order().take(7) == group_order());
    push_str(&mut out, "[breakpoints]\n  ");
    let bps = token_map_pairs(&theme.breakpoints);
    let ghost bs = pair_views(bps@);
    let ghost bf = |e: (Seq<char>, Seq<char>)| breakpoint_item(e);
    let mut items: Vec<String> = Vec::new();
    let mut j: usize = 0;
    while j < bps.len()
        invariant
            bs == pair_views(bps@),
            bs == t.breakpoints,
            bf == (|e: (Seq<char>, Seq<char>)| breakpoint_item(e)),
            j <= bps.len(),
            string_views(items@) == bs.take(j as int).map_values(bf),
        decreases bps.len() - j,
    {
        let mut item = owned(bps[j].0.as_str());
        push_str(&mut item, " (");
        push_str(&mut item, bps[j].1.as_str());
        push_str(&mut item, ")");
        let ghost prev = items@;
        assert(item@ == bf(bs[j as int]));
        items.push(item);
        assert(string_views(items@) =~= string_views(prev).push(bf(bs[j as int])));
        assert(bs.take(j + 1).map_values(bf) =~= bs.take(j as int).map_values(bf).push(
            bf(bs[j as int]),
        ));
        j += 1;
    }
    assert(bs.take(bps.len() as int) == bs);
    push_joined(&mut out, &items, ", ");
    push_str(&mut out, "\n\n");
    push_str(&mut out, "States: ");
    let states = state_pseudos();
    let ghost sf = |s: (Seq<char>, Seq<char>)| s.0;
    let mut names: Vec<String> = Vec::new();
    let mut k: usize = 0;
    while k < states.len()
        invariant
            str_pairs(states@) == state_table(),
            sf == (|s: (Seq<char>, Seq<char>)| s.0),
            k <= states.len(),
            string_views(names@) == state_table().take(k as int).map_values(sf),
        decreases states.len() - k,
    {
        let ghost prev = names@;
        names.push(owned(states[k].0));
        assert(state_table()[k as int].0 == states@[k as int].0@);
        assert(string_views(names@) =~= string_views(prev).push(state_table()[k as int].0));
        assert(state_table().take(k + 1).map_values(sf) =~= state_table().take(k as int).map_values(
            sf,
        ).push(state_table()[k as int].0));
        k += 1;
    }
    assert(state_table().take(states.len() as int) == state_table());
    push_joined(&mut out, &names, ", ");
    push_str(&mut out, "\n");
    out
}

/// The listing of the built-in static utilities.
pub fn static_help() -> (r: String)
    ensures
        r@ == static_help_spec(),
{
    let all = statics();
    let ghost st = static_table();
    let ghost f = |s: (Seq<char>, Seq<(Seq<char>, Seq<char>)>)| "  "@ + s.0 + "\n"@;
    let mut out = owned("Built-in static utilities (");
    let n = decimal_string(all.len());
    push_str(&mut out, n.as_str());
    push_str(&mut out, "):\n\n");
    let ghost head = out@;
    let mut i: usize = 0;
    while i < all.len()
        invariant
            static_views(all@) == st,
            st == static_table(),
            f == (|s: (Seq<char>, Seq<(Seq<char>, Seq<char>)>)| "  "@ + s.0 + "\n"@),
            i <= all.len(),
            out@ == head + concat_all(st.take(i as int).map_values(f)),
        decreases all.len() - i,
    {
        let ghost before = out@;
        push_str(&mut out, "  ");
        push_str(&mut out, all[i].0);
        push_str(&mut out, "\n");
        assert(st[i as int].0 == all@[i as int].0@);
        assert(out@ =~= before + f(st[i as int]));
        let ghost m = st.take(i + 1).map_values(f);
        assert(m.drop_last() =~= st.take(i as int).map_values(f));
        assert(m.last() == f(st[i as int]));
        i += 1;
    }
    assert(st.take(all.len() as int) == st);
    out
}

} // verus!
