//! What the operations promise, stated directly in terms of what goes in and what
//! comes out: which characters a selector escapes, which color values pass, how an
//! export separates its members, which variants raw utilities take, and that every
//! option is read as written.
use vstd::prelude::*;

use crate::compile_spec;
use crate::emit::{
    base_text, concat_all, css_spec, decl_text, dedup_rules, header_text, join, json_char,
    json_entry, json_escape, json_group, rule_block, rule_body, rule_text, token_groups,
    tokens_text, var_group, var_line, EmitModel,
};
use crate::generate::{
    bases, bp_block, bp_rules, candidates, escaped, gen_base, gen_bases, generate_spec,
    generator_table, is_state_name, media_rule, pseudo_of, rules_of, selector_of, state_rule,
    states_of, static_base, static_table, utility_base, BaseView, DeclView, RuleView,
};
use crate::preset::{
    decode_options, decode_strings, default_options, fold_entries, options_step, parse_spec,
    preset_step, valid_color, Mismatch, OptionsModel, PresetModel,
};
use crate::text::{occurs_in, trim};
use crate::theme::{group_name, merge_spec, theme_group, variants_of, Group, ThemeModel, DEFAULT_PRESET};
use crate::toml_doc::{read_as_bool, read_as_string, read_as_table, toml_document, TomlOutcome, TomlTree};
use crate::emit::TokenFormat;
use crate::laws::{compiled_theme_is_sound, same_but_variants};

verus! {

broadcast use vstd::seq_lib::group_seq_properties;

// ---------------------------------------------------------------- escaping

/// Escaping puts a `\` before each `:`, `.` and `/`, and leaves every other
/// character as it is.
pub proof fn escaping_marks_only_separators(a: Seq<char>, c: char)
    ensures
        escaped(a.push(c)) == escaped(a) + if c == ':' || c == '.' || c == '/' {
            seq!['\\', c]
        } else {
            seq![c]
        },
{
    assert(a.push(c).drop_last() == a);
}

/// A class with no `:`, `.` or `/` appears in its selector exactly as written.
pub proof fn plain_classes_are_not_escaped(class: Seq<char>)
    requires
        forall|i: int| 0 <= i < class.len() ==> class[i] != ':' && class[i] != '.' && class[i] != '/',
    ensures
        escaped(class) == class,
    decreases class.len(),
{
    if class.len() > 0 {
        let a = class.drop_last();
        assert forall|i: int| 0 <= i < a.len() implies a[i] != ':' && a[i] != '.' && a[i] != '/' by {
            assert(a[i] == class[i]);
        }
        plain_classes_are_not_escaped(a);
        escaping_marks_only_separators(a, class.last());
        assert(a.push(class.last()) == class);
    } else {
        assert(escaped(class) == Seq::<char>::empty());
    }
}

/// The selector of a rule whose class has no `:`, `.` or `/` is `.`, the class, and
/// its pseudo-classes.
pub proof fn plain_selectors(r: RuleView)
    requires
        forall|i: int|
            0 <= i < r.class.len() ==> r.class[i] != ':' && r.class[i] != '.' && r.class[i] != '/',
    ensures
        selector_of(r) == "."@ + r.class + r.pseudos,
{
    plain_classes_are_not_escaped(r.class);
}

// ---------------------------------------------------------------- colors

/// An ASCII hexadecimal digit, written out.
pub open spec fn hex_char(c: char) -> bool {
    ('0' <= c && c <= '9') || ('a' <= c && c <= 'f') || ('A' <= c && c <= 'F')
}

/// A color value passes exactly when, once trimmed, it is `#` followed by 3, 4, 6 or 8
/// characters each in `0-9`, `a-f` or `A-F`, or it is some other non-empty text.
pub proof fn colors_are_checked_as_written(value: Seq<char>)
    ensures
        valid_color(value) <==> ({
            let v = trim(value);
            if v.len() > 0 && v[0] == '#' {
                &&& (v.len() == 4 || v.len() == 5 || v.len() == 7 || v.len() == 9)
                &&& forall|i: int| 1 <= i < v.len() ==> hex_char(#[trigger] v[i])
            } else {
                v.len() > 0
            }
        }),
{
    let v = trim(value);
    if v.len() > 0 && v[0] == '#' {
        let hex = v.drop_first();
        assert forall|i: int| 0 <= i < hex.len() implies hex[i] == v[i + 1] by {}
        if valid_color(value) {
            assert forall|i: int| 1 <= i < v.len() implies hex_char(#[trigger] v[i]) by {
                assert(hex[i - 1] == v[i]);
                assert(crate::preset::is_hex_digit(hex[i - 1]));
            }
        }
        if (v.len() == 4 || v.len() == 5 || v.len() == 7 || v.len() == 9) && forall|i: int|
            1 <= i < v.len() ==> hex_char(#[trigger] v[i]) {
            assert forall|i: int| 0 <= i < hex.len() implies crate::preset::is_hex_digit(
                #[trigger] hex[i],
            ) by {
                assert(hex_char(v[i + 1]));
            }
        }
    }
}

/// In a theme that compiles, every color written as `#...` is `#` followed by 3, 4, 6
/// or 8 characters each in `0-9`, `a-f` or `A-F`.
pub proof fn compiled_hex_colors_are_hex(src: &str, k: int)
    requires
        compile_spec(src) matches Ok(t) && 0 <= k < t.colors.len(),
    ensures
        compile_spec(src) matches Ok(t) && ({
            let v = trim(t.colors[k].1);
            v.len() > 0 && v[0] == '#' ==> (v.len() == 4 || v.len() == 5 || v.len() == 7 || v.len()
                == 9) && forall|i: int| 1 <= i < v.len() ==> hex_char(#[trigger] v[i])
        }),
{
    compiled_theme_is_sound(src);
    if let Ok(t) = compile_spec(src) {
        colors_are_checked_as_written(t.colors[k].1);
    }
}

// ---------------------------------------------------------------- JSON export

proof fn lemma_occurs_in_context(p: Seq<char>, a: Seq<char>, b: Seq<char>, c: Seq<char>)
    requires
        occurs_in(p, b),
    ensures
        occurs_in(p, a + b + c),
{
    let i = choose|i: int| 0 <= i && i + p.len() <= b.len() && #[trigger] b.subrange(i, i + p.len()) == p;
    let s = a + b + c;
    assert(s.subrange(a.len() + i, a.len() + i + p.len()) =~= p);
}

/// `join(ss, sep)` is something followed by the last piece.
proof fn lemma_join_last(ss: Seq<Seq<char>>, sep: Seq<char>) -> (y: Seq<char>)
    requires
        ss.len() >= 1,
    ensures
        join(ss, sep) == y + ss.last(),
{
    if ss.len() == 1 {
        assert(Seq::<char>::empty() + ss[0] == ss[0]);
        Seq::empty()
    } else {
        join(ss.drop_last(), sep) + sep
    }
}

/// Consecutive pieces of a join stand next to each other, with the separator between.
pub proof fn joined_neighbours(ss: Seq<Seq<char>>, sep: Seq<char>, k: int)
    requires
        0 <= k,
        k + 1 < ss.len(),
    ensures
        occurs_in(ss[k] + sep + ss[k + 1], join(ss, sep)),
    decreases ss.len(),
{
    let d = ss.drop_last();
    if k + 2 < ss.len() {
        joined_neighbours(d, sep, k);
        assert(d[k] == ss[k] && d[k + 1] == ss[k + 1]);
        lemma_occurs_in_context(ss[k] + sep + ss[k + 1], Seq::empty(), join(d, sep), sep + ss.last());
        assert(Seq::<char>::empty() + join(d, sep) + (sep + ss.last()) == join(ss, sep));
    } else {
        let y = lemma_join_last(d, sep);
        assert(d.last() == ss[k]);
        let p = ss[k] + sep + ss[k + 1];
        let whole = join(ss, sep);
        assert(whole == y + ss[k] + sep + ss[k + 1]);
        assert(whole.subrange(y.len() as int, (y.len() + p.len()) as int) =~= p);
    }
}

/// In a group's JSON, each token's member is followed by `,` and a line break before
/// the next token's member.
pub proof fn json_members_are_comma_separated(g: (Seq<char>, Seq<(Seq<char>, Seq<char>)>), k: int)
    requires
        0 <= k,
        k + 1 < g.1.len(),
    ensures
        occurs_in(json_entry(g.1[k]) + ",\n"@ + json_entry(g.1[k + 1]), json_group(g)),
{
    let ms = g.1.map_values(|e: (Seq<char>, Seq<char>)| json_entry(e));
    joined_neighbours(ms, ",\n"@, k);
    lemma_occurs_in_context(
        json_entry(g.1[k]) + ",\n"@ + json_entry(g.1[k + 1]),
        "  \""@ + g.0 + "\": {"@ + "\n"@,
        join(ms, ",\n"@),
        "\n  }"@,
    );
    assert(json_group(g) == "  \""@ + g.0 + "\": {"@ + "\n"@ + join(ms, ",\n"@) + "\n  }"@);
}

/// The JSON export is an object whose groups are separated by `,` and a line break,
/// and whose tokens within a group are separated the same way: for each group of the
/// export and each two neighbouring tokens in it, the text holds the first token's
/// member, `,`, a line break, and the second token's member.
pub proof fn json_export_separates_members(t: ThemeModel, gi: int, k: int)
    requires
        0 <= gi < token_groups(t).len(),
        0 <= k,
        k + 1 < token_groups(t)[gi].1.len(),
    ensures
        ({
            let g = token_groups(t)[gi];
            let text = tokens_text(t, TokenFormat::Json);
            &&& occurs_in(json_entry(g.1[k]) + ",\n"@ + json_entry(g.1[k + 1]), text)
            &&& occurs_in(
                json_entry(g.1[k]) + ",\n"@ + json_entry(g.1[k + 1]),
                tokens_text(t, TokenFormat::Js),
            )
        }),
{
    let g = token_groups(t)[gi];
    let p = json_entry(g.1[k]) + ",\n"@ + json_entry(g.1[k + 1]);
    json_members_are_comma_separated(g, k);
    let gs = token_groups(t).map_values(
        |x: (Seq<char>, Seq<(Seq<char>, Seq<char>)>)| json_group(x),
    );
    assert(gs[gi] == json_group(g));
    let body = join(gs, ",\n"@);
    lemma_member_in_join(gs, ",\n"@, gi, p);
    lemma_occurs_in_context(p, "{\n"@, body, "\n}"@ + "\n"@);
    assert(tokens_text(t, TokenFormat::Json) == "{\n"@ + body + ("\n}"@ + "\n"@));
    lemma_occurs_in_context(p, "export default "@ + "{\n"@, body, "\n}"@ + ";\n"@);
    assert(tokens_text(t, TokenFormat::Js) == "export default "@ + "{\n"@ + body + ("\n}"@ + ";\n"@));
}

/// Neighbouring groups of the JSON export are separated by `,` and a line break.
pub proof fn json_export_separates_groups(t: ThemeModel, gi: int)
    requires
        0 <= gi,
        gi + 1 < token_groups(t).len(),
    ensures
        occurs_in(
            json_group(token_groups(t)[gi]) + ",\n"@ + json_group(token_groups(t)[gi + 1]),
            tokens_text(t, TokenFormat::Json),
        ),
{
    let gs = token_groups(t).map_values(
        |x: (Seq<char>, Seq<(Seq<char>, Seq<char>)>)| json_group(x),
    );
    joined_neighbours(gs, ",\n"@, gi);
    let p = json_group(token_groups(t)[gi]) + ",\n"@ + json_group(token_groups(t)[gi + 1]);
    assert(gs[gi] == json_group(token_groups(t)[gi]));
    assert(gs[gi + 1] == json_group(token_groups(t)[gi + 1]));
    lemma_occurs_in_context(p, "{\n"@, join(gs, ",\n"@), "\n}"@ + "\n"@);
    assert(tokens_text(t, TokenFormat::Json) == "{\n"@ + join(gs, ",\n"@) + ("\n}"@ + "\n"@));
}

/// What occurs in one piece of a join occurs in the join.
proof fn lemma_member_in_join(ss: Seq<Seq<char>>, sep: Seq<char>, k: int, p: Seq<char>)
    requires
        0 <= k < ss.len(),
        occurs_in(p, ss[k]),
    ensures
        occurs_in(p, join(ss, sep)),
    decreases ss.len(),
{
    if ss.len() == 1 {
        assert(join(ss, sep) == ss[0]);
    } else if k == ss.len() - 1 {
        let y = lemma_join_last(ss, sep);
        lemma_occurs_in_context(p, y, ss[k], Seq::empty());
        assert(y + ss[k] + Seq::<char>::empty() == join(ss, sep));
    } else {
        let d = ss.drop_last();
        assert(d[k] == ss[k]);
        lemma_member_in_join(d, sep, k, p);
        lemma_occurs_in_context(p, Seq::empty(), join(d, sep), sep + ss.last());
        assert(Seq::<char>::empty() + join(d, sep) + (sep + ss.last()) == join(ss, sep));
    }
}

/// Text with no `"`, no `\` and no control character.
pub open spec fn plain_text(s: Seq<char>) -> bool {
    forall|i: int| 0 <= i < s.len() ==> s[i] != '"' && s[i] != '\\' && ' ' <= s[i]
}

/// Plain text is written into a JSON string as it is.
pub proof fn plain_text_is_not_json_escaped(s: Seq<char>)
    requires
        plain_text(s),
    ensures
        json_escape(s) == s,
    decreases s.len(),
{
    if s.len() > 0 {
        let a = s.drop_last();
        assert forall|i: int| 0 <= i < a.len() implies a[i] != '"' && a[i] != '\\' && ' ' <= a[i] by {
            assert(a[i] == s[i]);
        }
        plain_text_is_not_json_escaped(a);
        let f = |c: char| json_char(c);
        assert(s.map_values(f).drop_last() =~= a.map_values(f));
        assert(s.map_values(f).last() == json_char(s.last()));
        assert(json_char(s.last()) == seq![s.last()]);
        assert(a.push(s.last()) == s);
    } else {
        assert(s.map_values(|c: char| json_char(c)) =~= Seq::<Seq<char>>::empty());
    }
}

proof fn lemma_occurs_in_self(p: Seq<char>)
    ensures
        occurs_in(p, p),
{
    let i: int = 0;
    assert(p.subrange(i, i + p.len()) =~= p);
}

/// What occurs in one piece occurs in the pieces one after another.
proof fn lemma_member_in_concat(ss: Seq<Seq<char>>, k: int, p: Seq<char>)
    requires
        0 <= k < ss.len(),
        occurs_in(p, ss[k]),
    ensures
        occurs_in(p, concat_all(ss)),
    decreases ss.len(),
{
    let d = ss.drop_last();
    if k == ss.len() - 1 {
        lemma_occurs_in_context(p, concat_all(d), ss[k], Seq::empty());
        assert(concat_all(d) + ss[k] + Seq::<char>::empty() == concat_all(ss));
    } else {
        assert(d[k] == ss[k]);
        lemma_member_in_concat(d, k, p);
        lemma_occurs_in_context(p, Seq::empty(), concat_all(d), ss.last());
        assert(Seq::<char>::empty() + concat_all(d) + ss.last() == concat_all(ss));
    }
}

/// A token with a plain key and value appears in the JSON export as
/// `"key": "value"` on a line of its own (indented inside its group), and in the
/// CSS custom properties as `--group-key: value;`.
pub proof fn exports_write_plain_tokens_literally(t: ThemeModel, gi: int, k: int)
    requires
        0 <= gi < token_groups(t).len(),
        0 <= k < token_groups(t)[gi].1.len(),
        plain_text(token_groups(t)[gi].1[k].0),
        plain_text(token_groups(t)[gi].1[k].1),
    ensures
        ({
            let g = token_groups(t)[gi];
            let e = g.1[k];
            &&& occurs_in(
                "    \""@ + e.0 + "\": \""@ + e.1 + "\""@,
                tokens_text(t, TokenFormat::Json),
            )
            &&& occurs_in(
                "  --"@ + g.0 + "-"@ + e.0 + ": "@ + e.1 + ";\n"@,
                tokens_text(t, TokenFormat::CssVars),
            )
        }),
{
    let g = token_groups(t)[gi];
    let e = g.1[k];
    plain_text_is_not_json_escaped(e.0);
    plain_text_is_not_json_escaped(e.1);
    let p = "    \""@ + e.0 + "\": \""@ + e.1 + "\""@;
    assert(json_entry(e) == p);
    let ms = g.1.map_values(|x: (Seq<char>, Seq<char>)| json_entry(x));
    lemma_occurs_in_self(p);
    assert(ms[k] == p);
    lemma_member_in_join(ms, ",\n"@, k, p);
    lemma_occurs_in_context(p, "  \""@ + g.0 + "\": {"@ + "\n"@, join(ms, ",\n"@), "\n  }"@);
    assert(json_group(g) == "  \""@ + g.0 + "\": {"@ + "\n"@ + join(ms, ",\n"@) + "\n  }"@);
    let gs = token_groups(t).map_values(
        |x: (Seq<char>, Seq<(Seq<char>, Seq<char>)>)| json_group(x),
    );
    assert(gs[gi] == json_group(g));
    lemma_member_in_join(gs, ",\n"@, gi, p);
    lemma_occurs_in_context(p, "{\n"@, join(gs, ",\n"@), "\n}"@ + "\n"@);
    assert(tokens_text(t, TokenFormat::Json) == "{\n"@ + join(gs, ",\n"@) + ("\n}"@ + "\n"@));
    let q = "  --"@ + g.0 + "-"@ + e.0 + ": "@ + e.1 + ";\n"@;
    let ls = g.1.map_values(|x: (Seq<char>, Seq<char>)| var_line(g.0, x));
    assert(ls[k] == q);
    lemma_occurs_in_self(q);
    lemma_member_in_concat(ls, k, q);
    let vs = token_groups(t).map_values(
        |x: (Seq<char>, Seq<(Seq<char>, Seq<char>)>)| var_group(x),
    );
    assert(vs[gi] == concat_all(ls));
    lemma_member_in_concat(vs, gi, q);
    lemma_occurs_in_context(q, ":root {\n"@, concat_all(vs), "}\n"@);
}

// ---------------------------------------------------------------- stylesheet

/// A rule with one declaration and a class with no `:`, `.` or `/` is written as
/// `.class:pseudo { prop: value; }`, or minified `.class:pseudo{prop:value}`; inside a
/// breakpoint that block is wrapped in `@media (min-width:W) { ... }`, minified
/// `@media (min-width:W){...}`.
pub proof fn single_declarations_are_written_as_css(r: RuleView, minify: bool)
    requires
        r.decls.len() == 1,
        forall|i: int|
            0 <= i < r.class.len() ==> r.class[i] != ':' && r.class[i] != '.' && r.class[i] != '/',
    ensures
        ({
            let inner = if minify {
                "."@ + r.class + r.pseudos + "{"@ + r.decls[0].prop + ":"@ + r.decls[0].value + "}"@
            } else {
                "."@ + r.class + r.pseudos + " { "@ + r.decls[0].prop + ": "@ + r.decls[0].value
                    + "; }"@
            };
            rule_block(r, minify) == match r.media {
                Some(w) => if minify {
                    "@media (min-width:"@ + w + "){"@ + inner + "}"@
                } else {
                    "@media (min-width:"@ + w + ") { "@ + inner + " }"@
                },
                None => inner,
            }
        }),
{
    plain_selectors(r);
    let ds = r.decls.map_values(|d: DeclView| decl_text(d, minify));
    assert(ds.len() == 1);
    assert(join(ds, if minify { ";"@ } else { " "@ }) == ds[0]);
    let sel = "."@ + r.class + r.pseudos;
    if minify {
        assert(rule_body(r, true) =~= "."@ + r.class + r.pseudos + "{"@ + r.decls[0].prop + ":"@
            + r.decls[0].value + "}"@);
    } else {
        reveal_strlit("; }");
        reveal_strlit(";");
        reveal_strlit(" }");
        assert("; }"@ =~= ";"@ + " }"@);
        assert(rule_body(r, false) =~= "."@ + r.class + r.pseudos + " { "@ + r.decls[0].prop
            + ": "@ + r.decls[0].value + "; }"@);
    }
}

/// With dedup, every rule's block is still written once.
proof fn lemma_dedup_covers(rs: Seq<RuleView>, minify: bool, i: int)
    requires
        0 <= i < rs.len(),
    ensures
        exists|j: int|
            0 <= j < dedup_rules(rs, minify).len() && rule_block(
                #[trigger] dedup_rules(rs, minify)[j],
                minify,
            ) == rule_block(rs[i], minify),
    decreases rs.len(),
{
    let d = rs.drop_last();
    let prev = dedup_rules(d, minify);
    let bd = d.map_values(|r: RuleView| rule_block(r, minify));
    if i < rs.len() - 1 {
        assert(d[i] == rs[i]);
        lemma_dedup_covers(d, minify, i);
        let j = choose|j: int|
            0 <= j < prev.len() && rule_block(#[trigger] prev[j], minify) == rule_block(d[i], minify);
        assert(dedup_rules(rs, minify)[j] == prev[j]);
    } else if bd.contains(rule_block(rs.last(), minify)) {
        let m = choose|m: int| 0 <= m < bd.len() && bd[m] == rule_block(rs.last(), minify);
        lemma_dedup_covers(d, minify, m);
        let j = choose|j: int|
            0 <= j < prev.len() && rule_block(#[trigger] prev[j], minify) == rule_block(d[m], minify);
        assert(dedup_rules(rs, minify)[j] == prev[j]);
        assert(rs[i] == rs.last());
    } else {
        assert(dedup_rules(rs, minify)[prev.len() as int] == rs.last());
        assert(rs[i] == rs.last());
    }
}

/// Every rule is written into the stylesheet: its block occurs in the text, whether
/// repeats are dropped or not.
pub proof fn every_rule_is_written(rs: Seq<RuleView>, o: EmitModel, i: int)
    requires
        0 <= i < rs.len(),
    ensures
        occurs_in(rule_block(rs[i], o.minify), css_spec(rs, o)),
{
    let shown = if o.dedup {
        dedup_rules(rs, o.minify)
    } else {
        rs
    };
    let j: int = if o.dedup {
        lemma_dedup_covers(rs, o.minify, i);
        choose|j: int|
            0 <= j < dedup_rules(rs, o.minify).len() && rule_block(
                #[trigger] dedup_rules(rs, o.minify)[j],
                o.minify,
            ) == rule_block(rs[i], o.minify)
    } else {
        i
    };
    let p = rule_block(rs[i], o.minify);
    let ts = shown.map_values(|r: RuleView| rule_text(r, o));
    assert(rule_block(shown[j], o.minify) == p);
    let comment = if !o.minify && o.source_comments {
        "/* "@ + shown[j].src + " */\n"@
    } else {
        Seq::empty()
    };
    let end = if o.minify {
        Seq::<char>::empty()
    } else {
        "\n"@
    };
    lemma_occurs_in_self(p);
    lemma_occurs_in_context(p, comment, p, end);
    assert(ts[j] == comment + p + end);
    lemma_member_in_concat(ts, j, p);
    lemma_occurs_in_context(p, header_text(o) + base_text(o), concat_all(ts), Seq::empty());
    assert(css_spec(rs, o) == header_text(o) + base_text(o) + concat_all(ts) + Seq::<char>::empty());
}

// ---------------------------------------------------------------- raw utilities

/// Every rule a utility gives before tree-shaking is among the full output's rules.
proof fn lemma_candidates_generated(t: ThemeModel, bs: Seq<BaseView>, j: int, k: int)
    requires
        0 <= j < bs.len(),
        0 <= k < candidates(t, bs[j]).len(),
    ensures
        exists|i: int|
            0 <= i < rules_of(t, bs, None).len() && #[trigger] rules_of(t, bs, None)[i] == candidates(
                t,
                bs[j],
            )[k],
    decreases bs.len(),
{
    let d = bs.drop_last();
    let front = rules_of(t, d, None);
    assert(rules_of(t, bs, None) == front + candidates(t, bs.last()));
    if j < bs.len() - 1 {
        assert(d[j] == bs[j]);
        lemma_candidates_generated(t, d, j, k);
        let i = choose|i: int| 0 <= i < front.len() && #[trigger] front[i] == candidates(t, d[j])[k];
        assert(rules_of(t, bs, None)[i] == front[i]);
    } else {
        assert(rules_of(t, bs, None)[front.len() + k] == candidates(t, bs.last())[k]);
    }
}

/// The base of the `j`th raw utility among a theme's utilities.
proof fn lemma_utility_base(t: ThemeModel, j: int) -> (i: int)
    requires
        0 <= j < t.utilities.len(),
    ensures
        0 <= i < bases(t).len(),
        bases(t)[i] == utility_base(t.options.prefix, t.utilities[j]),
{
    let a = gen_bases(t, generator_table());
    let b = static_table().map_values(
        |s: (Seq<char>, Seq<(Seq<char>, Seq<char>)>)| static_base(t.options.prefix, s),
    );
    let c = t.utilities.map_values(|e: (Seq<char>, Seq<char>)| utility_base(t.options.prefix, e));
    assert(bases(t) == a + b + c);
    assert(bases(t)[a.len() + b.len() + j] == c[j]);
    a.len() + b.len() + j
}

/// Raw utilities take the variants listed under `[variants] utilities`: for every
/// `[utilities]` entry and every state variant listed there, the full output holds a
/// rule for `state:` + prefix + name, with the state's pseudo-class and no media query.
pub proof fn raw_utilities_take_the_utilities_variants(t: ThemeModel, j: int, st: Seq<char>)
    requires
        0 <= j < t.utilities.len(),
        variants_of(t, "utilities"@).contains(st),
        is_state_name(st),
    ensures
        exists|i: int|
            0 <= i < generate_spec(t, None).len() && (#[trigger] generate_spec(t, None)[i]).class == st
                + ":"@ + t.options.prefix + t.utilities[j].0 && generate_spec(t, None)[i].pseudos
                == pseudo_of(st).unwrap() && generate_spec(t, None)[i].media is None,
{
    let bi = lemma_utility_base(t, j);
    let b = bases(t)[bi];
    let vs = variants_of(t, "utilities"@);
    let pred = |v: Seq<char>| is_state_name(v);
    let states = vs.filter(pred);
    let m = choose|m: int| 0 <= m < vs.len() && vs[m] == st;
    vs.filter_lemma(pred);
    assert(states.contains(vs[m]));
    let q = choose|q: int| 0 <= q < states.len() && states[q] == st;
    assert(states_of(vs) == states);
    let cs = candidates(t, b);
    let mid = states.map_values(|s: Seq<char>| state_rule(b, s, None));
    assert(cs[1 + q] == mid[q]);
    assert(mid[q].class == st + ":"@ + (t.options.prefix + t.utilities[j].0));
    lemma_candidates_generated(t, bases(t), bi, 1 + q);
    let i = choose|i: int|
        0 <= i < rules_of(t, bases(t), None).len() && #[trigger] rules_of(t, bases(t), None)[i]
            == cs[1 + q];
    assert(generate_spec(t, None)[i] == cs[1 + q]);
    assert(st + ":"@ + (t.options.prefix + t.utilities[j].0) == st + ":"@ + t.options.prefix
        + t.utilities[j].0);
}

/// A raw utility's rules depend on the variants listed under `utilities` alone: two
/// themes that differ only in their variants, and agree on those of `utilities`, give
/// a raw utility the same rules.
pub proof fn raw_utilities_ignore_other_groups_variants(
    t: ThemeModel,
    t2: ThemeModel,
    e: (Seq<char>, Seq<char>),
)
    requires
        same_but_variants(t, t2),
        variants_of(t2, "utilities"@) == variants_of(t, "utilities"@),
    ensures
        candidates(t2, utility_base(t.options.prefix, e)) == candidates(
            t,
            utility_base(t.options.prefix, e),
        ),
{
}

/// Whether the full output holds a rule with this class, pseudo-class and media query.
pub open spec fn generates(t: ThemeModel, class: Seq<char>, pseudos: Seq<char>, media: Option<Seq<char>>) -> bool {
    exists|i: int|
        0 <= i < generate_spec(t, None).len() && (#[trigger] generate_spec(t, None)[i]).class == class
            && generate_spec(t, None)[i].pseudos == pseudos && generate_spec(t, None)[i].media
            == media
}

/// A candidate of a base of the theme is generated.
proof fn lemma_candidate_generated(t: ThemeModel, bi: int, k: int)
    requires
        0 <= bi < bases(t).len(),
        0 <= k < candidates(t, bases(t)[bi]).len(),
    ensures
        generates(
            t,
            candidates(t, bases(t)[bi])[k].class,
            candidates(t, bases(t)[bi])[k].pseudos,
            candidates(t, bases(t)[bi])[k].media,
        ),
{
    lemma_candidates_generated(t, bases(t), bi, k);
    let i = choose|i: int|
        0 <= i < rules_of(t, bases(t), None).len() && #[trigger] rules_of(t, bases(t), None)[i]
            == candidates(t, bases(t)[bi])[k];
    assert(generate_spec(t, None)[i] == candidates(t, bases(t)[bi])[k]);
}

/// The position of a state among the states a base takes.
proof fn lemma_state_position(vs: Seq<Seq<char>>, st: Seq<char>) -> (q: int)
    requires
        vs.contains(st),
        is_state_name(st),
    ensures
        0 <= q < states_of(vs).len(),
        states_of(vs)[q] == st,
{
    let pred = |v: Seq<char>| is_state_name(v);
    let m = choose|m: int| 0 <= m < vs.len() && vs[m] == st;
    vs.filter_lemma(pred);
    assert(vs.filter(pred).contains(vs[m]));
    choose|q: int| 0 <= q < vs.filter(pred).len() && vs.filter(pred)[q] == st
}

/// A state rule of a base is generated.
proof fn lemma_state_rule_generated(t: ThemeModel, bi: int, st: Seq<char>)
    requires
        0 <= bi < bases(t).len(),
        variants_of(t, bases(t)[bi].group_key).contains(st),
        is_state_name(st),
    ensures
        generates(t, st + ":"@ + bases(t)[bi].class, pseudo_of(st).unwrap(), None),
{
    let b = bases(t)[bi];
    let q = lemma_state_position(variants_of(t, b.group_key), st);
    let states = states_of(variants_of(t, b.group_key));
    let mid = states.map_values(|s: Seq<char>| state_rule(b, s, None));
    assert(candidates(t, b)[1 + q] == mid[q]);
    lemma_candidate_generated(t, bi, 1 + q);
}

/// The breakpoint rules of a utility hold its rule for each breakpoint.
proof fn lemma_media_rule_position(
    b: BaseView,
    states: Seq<Seq<char>>,
    bps: Seq<(Seq<char>, Seq<char>)>,
    m: int,
) -> (k: int)
    requires
        0 <= m < bps.len(),
    ensures
        0 <= k < bp_rules(b, states, bps).len(),
        bp_rules(b, states, bps)[k] == media_rule(b, bps[m]),
    decreases bps.len(),
{
    let d = bps.drop_last();
    let front = bp_rules(b, states, d);
    assert(bp_rules(b, states, bps) == front + bp_block(b, states, bps.last()));
    if m < bps.len() - 1 {
        assert(d[m] == bps[m]);
        let k = lemma_media_rule_position(b, states, d, m);
        assert(bp_rules(b, states, bps)[k] == front[k]);
        k
    } else {
        assert(bp_block(b, states, bps.last())[0] == media_rule(b, bps.last()));
        assert(bp_rules(b, states, bps)[front.len() as int] == media_rule(b, bps[m]));
        front.len() as int
    }
}

/// A breakpoint rule of a base that opts into `responsive` is generated.
proof fn lemma_media_rule_generated(t: ThemeModel, bi: int, m: int)
    requires
        0 <= bi < bases(t).len(),
        variants_of(t, bases(t)[bi].group_key).contains("responsive"@),
        0 <= m < t.breakpoints.len(),
    ensures
        generates(
            t,
            t.breakpoints[m].0 + ":"@ + bases(t)[bi].class,
            Seq::<char>::empty(),
            Some(t.breakpoints[m].1),
        ),
{
    let b = bases(t)[bi];
    let states = states_of(variants_of(t, b.group_key));
    let k = lemma_media_rule_position(b, states, t.breakpoints, m);
    let mid = states.map_values(|s: Seq<char>| state_rule(b, s, None));
    let cs = candidates(t, b);
    assert(cs == seq![crate::generate::plain_rule(b)] + mid + bp_rules(b, states, t.breakpoints));
    assert(cs[1 + mid.len() + k] == bp_rules(b, states, t.breakpoints)[k]);
    lemma_candidate_generated(t, bi, 1 + mid.len() + k);
}

/// Raw utilities take `responsive` from `[variants] utilities`: when it is listed
/// there, every `[utilities]` entry has a rule for each breakpoint, named
/// `breakpoint:` + prefix + name, inside that breakpoint's media query.
pub proof fn raw_utilities_take_the_utilities_breakpoints(t: ThemeModel, j: int, m: int)
    requires
        0 <= j < t.utilities.len(),
        variants_of(t, "utilities"@).contains("responsive"@),
        0 <= m < t.breakpoints.len(),
    ensures
        generates(
            t,
            t.breakpoints[m].0 + ":"@ + t.options.prefix + t.utilities[j].0,
            Seq::<char>::empty(),
            Some(t.breakpoints[m].1),
        ),
{
    let bi = lemma_utility_base(t, j);
    lemma_media_rule_generated(t, bi, m);
    assert(t.breakpoints[m].0 + ":"@ + (t.options.prefix + t.utilities[j].0) == t.breakpoints[m].0
        + ":"@ + t.options.prefix + t.utilities[j].0);
}

/// The base of the `j`th token of the `gi`th generator.
proof fn lemma_gen_base_position(
    t: ThemeModel,
    gs: Seq<(Group, Seq<char>, Seq<Seq<char>>)>,
    gi: int,
    j: int,
) -> (i: int)
    requires
        0 <= gi < gs.len(),
        0 <= j < theme_group(t, gs[gi].0).len(),
    ensures
        0 <= i < gen_bases(t, gs).len(),
        gen_bases(t, gs)[i] == gen_base(t.options.prefix, gs[gi], theme_group(t, gs[gi].0)[j]),
    decreases gs.len(),
{
    let d = gs.drop_last();
    let front = gen_bases(t, d);
    let last = theme_group(t, gs.last().0).map_values(
        |e: (Seq<char>, Seq<char>)| gen_base(t.options.prefix, gs.last(), e),
    );
    assert(gen_bases(t, gs) == front + last);
    if gi < gs.len() - 1 {
        assert(d[gi] == gs[gi]);
        let i = lemma_gen_base_position(t, d, gi, j);
        assert(gen_bases(t, gs)[i] == front[i]);
        i
    } else {
        assert(gen_bases(t, gs)[front.len() + j] == last[j]);
        front.len() + j
    }
}

/// Every token of a group gives, for each generator of that group, a utility named
/// prefix + the generator's prefix + `-` + the token's key, which sets each of the
/// generator's properties to the token's value; and that utility takes the state
/// variants listed under the group's own name.
pub proof fn tokens_give_utilities_with_their_groups_variants(
    t: ThemeModel,
    gi: int,
    j: int,
    st: Seq<char>,
)
    requires
        0 <= gi < generator_table().len(),
        0 <= j < theme_group(t, generator_table()[gi].0).len(),
    ensures
        ({
            let g = generator_table()[gi];
            let e = theme_group(t, g.0)[j];
            let class = t.options.prefix + g.1 + "-"@ + e.0;
            &&& generates(t, class, Seq::<char>::empty(), None)
            &&& exists|i: int|
                0 <= i < bases(t).len() && (#[trigger] bases(t)[i]).class == class
                    && bases(t)[i].decls.len() == g.2.len() && forall|k: int|
                    0 <= k < g.2.len() ==> bases(t)[i].decls[k] == (DeclView {
                        prop: g.2[k],
                        value: e.1,
                    })
            &&& variants_of(t, group_name(g.0)).contains(st) && is_state_name(st) ==> generates(
                t,
                st + ":"@ + class,
                pseudo_of(st).unwrap(),
                None,
            )
        }),
{
    let g = generator_table()[gi];
    let e = theme_group(t, g.0)[j];
    let bi = lemma_gen_base_position(t, generator_table(), gi, j);
    let a = gen_bases(t, generator_table());
    let rest = static_table().map_values(
        |s: (Seq<char>, Seq<(Seq<char>, Seq<char>)>)| static_base(t.options.prefix, s),
    ) + t.utilities.map_values(|x: (Seq<char>, Seq<char>)| utility_base(t.options.prefix, x));
    assert(bases(t) == a + rest);
    assert(bases(t)[bi] == a[bi]);
    let b = bases(t)[bi];
    assert(candidates(t, b)[0] == crate::generate::plain_rule(b));
    lemma_candidate_generated(t, bi, 0);
    if variants_of(t, group_name(g.0)).contains(st) && is_state_name(st) {
        lemma_state_rule_generated(t, bi, st);
    }
}

/// Every static utility is generated under its own name (after the prefix), and takes
/// the state variants listed under `static`.
pub proof fn statics_take_the_static_variants(t: ThemeModel, si: int, st: Seq<char>)
    requires
        0 <= si < static_table().len(),
    ensures
        generates(t, t.options.prefix + static_table()[si].0, Seq::<char>::empty(), None),
        variants_of(t, "static"@).contains(st) && is_state_name(st) ==> generates(
            t,
            st + ":"@ + t.options.prefix + static_table()[si].0,
            pseudo_of(st).unwrap(),
            None,
        ),
{
    let a = gen_bases(t, generator_table());
    let b = static_table().map_values(
        |s: (Seq<char>, Seq<(Seq<char>, Seq<char>)>)| static_base(t.options.prefix, s),
    );
    let c = t.utilities.map_values(|e: (Seq<char>, Seq<char>)| utility_base(t.options.prefix, e));
    assert(bases(t) == a + b + c);
    let bi = a.len() + si;
    assert(bases(t)[bi] == b[si]);
    assert(candidates(t, bases(t)[bi])[0] == crate::generate::plain_rule(bases(t)[bi]));
    lemma_candidate_generated(t, bi, 0);
    if variants_of(t, "static"@).contains(st) && is_state_name(st) {
        lemma_state_rule_generated(t, bi, st);
        assert(st + ":"@ + (t.options.prefix + static_table()[si].0) == st + ":"@ + t.options.prefix
            + static_table()[si].0);
    }
}

// ---------------------------------------------------------------- options

/// `i` is the last entry of `es` with key `k`.
pub open spec fn last_with_key<V>(es: Seq<(Seq<char>, V)>, k: Seq<char>, i: int) -> bool {
    &&& 0 <= i < es.len()
    &&& es[i].0 == k
    &&& forall|j: int| i < j < es.len() ==> es[j].0 != k
}

/// No entry of `es` has key `k`.
pub open spec fn lacks_key<V>(es: Seq<(Seq<char>, V)>, k: Seq<char>) -> bool {
    forall|j: int| 0 <= j < es.len() ==> es[j].0 != k
}

/// In a fold that succeeds, a field that only entries with key `key` change, each
/// setting it to `h` of its value, ends as the last such entry set it.
proof fn lemma_last_wins<S, A>(
    init: S,
    es: Seq<(Seq<char>, TomlTree)>,
    step: spec_fn(S, Seq<char>, TomlTree) -> Result<S, Mismatch>,
    key: Seq<char>,
    get: spec_fn(S) -> A,
    h: spec_fn(TomlTree) -> A,
    i: int,
)
    requires
        fold_entries(init, es, step) is Ok,
        last_with_key(es, key, i),
        forall|s: S, v: TomlTree|
            match #[trigger] step(s, key, v) {
                Ok(n) => get(n) == h(v),
                Err(_) => true,
            },
        forall|s: S, k: Seq<char>, v: TomlTree|
            k != key ==> match #[trigger] step(s, k, v) {
                Ok(n) => get(n) == get(s),
                Err(_) => true,
            },
    ensures
        fold_entries(init, es, step) matches Ok(r) && get(r) == h(es[i].1),
    decreases es.len(),
{
    let d = es.drop_last();
    let n = es.len() - 1;
    assert(es.last() == es[n]);
    if let Ok(s) = fold_entries(init, d, step) {
        if i < n {
            assert forall|j: int| i < j < d.len() implies d[j].0 != key by {
                assert(d[j] == es[j]);
            }
            assert(d[i] == es[i]);
            lemma_last_wins(init, d, step, key, get, h, i);
        }
    }
}

/// In a fold that succeeds, a field that no entry changes keeps its first value.
proof fn lemma_untouched<S, A>(
    init: S,
    es: Seq<(Seq<char>, TomlTree)>,
    step: spec_fn(S, Seq<char>, TomlTree) -> Result<S, Mismatch>,
    key: Seq<char>,
    get: spec_fn(S) -> A,
)
    requires
        fold_entries(init, es, step) is Ok,
        lacks_key(es, key),
        forall|s: S, k: Seq<char>, v: TomlTree|
            k != key ==> match #[trigger] step(s, k, v) {
                Ok(n) => get(n) == get(s),
                Err(_) => true,
            },
    ensures
        fold_entries(init, es, step) matches Ok(r) && get(r) == get(init),
    decreases es.len(),
{
    if es.len() > 0 {
        let d = es.drop_last();
        assert(es.last() == es[es.len() - 1]);
        assert forall|j: int| 0 <= j < d.len() implies d[j].0 != key by {
            assert(d[j] == es[j]);
        }
        lemma_untouched(init, d, step, key, get);
    }
}

/// The options of the preset read from a document: its last `[options]` table read as
/// options, or the defaults when it has none.
proof fn lemma_options_table(src: &str, es: Seq<(Seq<char>, TomlTree)>)
    requires
        parse_spec(src) is Ok,
        toml_document(src@) == TomlOutcome::Parsed(es),
    ensures
        parse_spec(src) matches Ok((p, _)) && (forall|i: int|
            last_with_key(es, "options"@, i) ==> decode_options(es[i].1) == Ok::<
                OptionsModel,
                Mismatch,
            >(p.options)) && (lacks_key(es, "options"@) ==> p.options == default_options()),
{
    let get = |p: PresetModel| Ok::<OptionsModel, Mismatch>(p.options);
    let h = |v: TomlTree| decode_options(v);
    let step = preset_step();
    assert forall|s: PresetModel, v: TomlTree| match #[trigger] step(s, "options"@, v) {
        Ok(n) => get(n) == h(v),
        Err(_) => true,
    } by {}
    assert forall|s: PresetModel, k: Seq<char>, v: TomlTree| k != "options"@ implies match #[trigger] step(
        s,
        k,
        v,
    ) {
        Ok(n) => get(n) == get(s),
        Err(_) => true,
    } by {}
    assert forall|i: int| last_with_key(es, "options"@, i) implies decode_options(es[i].1) == Ok::<
        OptionsModel,
        Mismatch,
    >(parse_spec(src)->Ok_0.0.options) by {
        lemma_last_wins(crate::preset::empty_preset(), es, step, "options"@, get, h, i);
    }
    if lacks_key(es, "options"@) {
        lemma_untouched(crate::preset::empty_preset(), es, step, "options"@, get);
    }
}

/// The names of the options are different from one another (each starts with a
/// different letter).
proof fn lemma_option_names_differ()
    ensures
        "output"@ != "content"@,
        "output"@ != "minify"@,
        "output"@ != "base"@,
        "output"@ != "prefix"@,
        "output"@ != "source_comments"@,
        "output"@ != "dedup"@,
        "content"@ != "minify"@,
        "content"@ != "base"@,
        "content"@ != "prefix"@,
        "content"@ != "source_comments"@,
        "content"@ != "dedup"@,
        "minify"@ != "base"@,
        "minify"@ != "prefix"@,
        "minify"@ != "source_comments"@,
        "minify"@ != "dedup"@,
        "base"@ != "prefix"@,
        "base"@ != "source_comments"@,
        "base"@ != "dedup"@,
        "prefix"@ != "source_comments"@,
        "prefix"@ != "dedup"@,
        "source_comments"@ != "dedup"@,
{
    reveal_strlit("output");
    reveal_strlit("content");
    reveal_strlit("minify");
    reveal_strlit("base");
    reveal_strlit("prefix");
    reveal_strlit("source_comments");
    reveal_strlit("dedup");
    assert("output"@[0] != "content"@[0]);
    assert("output"@[0] != "minify"@[0]);
    assert("output"@[0] != "base"@[0]);
    assert("output"@[0] != "prefix"@[0]);
    assert("output"@[0] != "source_comments"@[0]);
    assert("output"@[0] != "dedup"@[0]);
    assert("content"@[0] != "minify"@[0]);
    assert("content"@[0] != "base"@[0]);
    assert("content"@[0] != "prefix"@[0]);
    assert("content"@[0] != "source_comments"@[0]);
    assert("content"@[0] != "dedup"@[0]);
    assert("minify"@[0] != "base"@[0]);
    assert("minify"@[0] != "prefix"@[0]);
    assert("minify"@[0] != "source_comments"@[0]);
    assert("minify"@[0] != "dedup"@[0]);
    assert("base"@[0] != "prefix"@[0]);
    assert("base"@[0] != "source_comments"@[0]);
    assert("base"@[0] != "dedup"@[0]);
    assert("prefix"@[0] != "source_comments"@[0]);
    assert("prefix"@[0] != "dedup"@[0]);
    assert("source_comments"@[0] != "dedup"@[0]);
}

/// One option read out of an `[options]` table: the last entry for `key` sets the
/// field to `h` of its value; without one the field keeps its default.
proof fn lemma_option_field<A>(
    oes: Seq<(Seq<char>, TomlTree)>,
    o: OptionsModel,
    key: Seq<char>,
    get: spec_fn(OptionsModel) -> A,
    h: spec_fn(TomlTree) -> A,
)
    requires
        fold_entries(default_options(), oes, options_step()) == Ok::<OptionsModel, Mismatch>(o),
        forall|s: OptionsModel, v: TomlTree|
            match #[trigger] options_step()(s, key, v) {
                Ok(n) => get(n) == h(v),
                Err(_) => true,
            },
        forall|s: OptionsModel, k: Seq<char>, v: TomlTree|
            k != key ==> match #[trigger] options_step()(s, k, v) {
                Ok(n) => get(n) == get(s),
                Err(_) => true,
            },
    ensures
        forall|j: int| last_with_key(oes, key, j) ==> get(o) == h(oes[j].1),
        lacks_key(oes, key) ==> get(o) == get(default_options()),
{
    assert forall|j: int| last_with_key(oes, key, j) implies get(o) == h(oes[j].1) by {
        lemma_last_wins(default_options(), oes, options_step(), key, get, h, j);
    }
    if lacks_key(oes, key) {
        lemma_untouched(default_options(), oes, options_step(), key, get);
    }
}

/// Every option is read as written: for the last `[options]` table of a document that
/// reads as a preset, each known option takes the value its last entry writes (as the
/// deserializer reads that value: a string, a boolean, or an array of strings), and
/// the default only when the table has no entry for it.
pub proof fn options_are_read_as_written(
    src: &str,
    es: Seq<(Seq<char>, TomlTree)>,
    i: int,
    oes: Seq<(Seq<char>, TomlTree)>,
    j: int,
)
    requires
        parse_spec(src) is Ok,
        toml_document(src@) == TomlOutcome::Parsed(es),
        last_with_key(es, "options"@, i),
        read_as_table(es[i].1) == Ok::<Seq<(Seq<char>, TomlTree)>, Seq<char>>(oes),
        0 <= j < oes.len(),
        last_with_key(oes, oes[j].0, j),
    ensures
        parse_spec(src) matches Ok((p, _)) && {
            let o = p.options;
            let k = oes[j].0;
            let v = oes[j].1;
            &&& k == "output"@ ==> read_as_string(v) == Ok::<Seq<char>, Seq<char>>(o.output)
            &&& k == "base"@ ==> read_as_string(v) == Ok::<Seq<char>, Seq<char>>(o.base)
            &&& k == "prefix"@ ==> read_as_string(v) == Ok::<Seq<char>, Seq<char>>(o.prefix)
            &&& k == "minify"@ ==> read_as_bool(v) == Ok::<bool, Seq<char>>(o.minify)
            &&& k == "source_comments"@ ==> read_as_bool(v) == Ok::<bool, Seq<char>>(
                o.source_comments,
            )
            &&& k == "dedup"@ ==> read_as_bool(v) == Ok::<bool, Seq<char>>(o.dedup)
            &&& k == "content"@ ==> decode_strings("options"@, "content"@, v) == Ok::<
                Seq<Seq<char>>,
                Mismatch,
            >(o.content)
        },
{
    lemma_options_table(src, es);
    let o = parse_spec(src)->Ok_0.0.options;
    assert(fold_entries(default_options(), oes, options_step()) == Ok::<OptionsModel, Mismatch>(o));
    let k = oes[j].0;
    lemma_option_names_differ();
    if k == "output"@ {
        let get = |x: OptionsModel| Ok::<Seq<char>, Seq<char>>(x.output);
        let h = |v: TomlTree| read_as_string(v);
        assert forall|s: OptionsModel, v: TomlTree| match #[trigger] options_step()(s, "output"@, v) {
            Ok(n) => get(n) == h(v),
            Err(_) => true,
        } by {
            lemma_option_names_differ();
        }
        lemma_option_field(oes, o, "output"@, get, h);
    }
    if k == "base"@ {
        let get = |x: OptionsModel| Ok::<Seq<char>, Seq<char>>(x.base);
        let h = |v: TomlTree| read_as_string(v);
        assert forall|s: OptionsModel, v: TomlTree| match #[trigger] options_step()(s, "base"@, v) {
            Ok(n) => get(n) == h(v),
            Err(_) => true,
        } by {
            lemma_option_names_differ();
        }
        lemma_option_field(oes, o, "base"@, get, h);
    }
    if k == "prefix"@ {
        let get = |x: OptionsModel| Ok::<Seq<char>, Seq<char>>(x.prefix);
        let h = |v: TomlTree| read_as_string(v);
        assert forall|s: OptionsModel, v: TomlTree| match #[trigger] options_step()(s, "prefix"@, v) {
            Ok(n) => get(n) == h(v),
            Err(_) => true,
        } by {
            lemma_option_names_differ();
        }
        lemma_option_field(oes, o, "prefix"@, get, h);
    }
    if k == "minify"@ {
        let get = |x: OptionsModel| Ok::<bool, Seq<char>>(x.minify);
        let h = |v: TomlTree| read_as_bool(v);
        assert forall|s: OptionsModel, v: TomlTree| match #[trigger] options_step()(s, "minify"@, v) {
            Ok(n) => get(n) == h(v),
            Err(_) => true,
        } by {
            lemma_option_names_differ();
        }
        lemma_option_field(oes, o, "minify"@, get, h);
    }
    if k == "source_comments"@ {
        let get = |x: OptionsModel| Ok::<bool, Seq<char>>(x.source_comments);
        let h = |v: TomlTree| read_as_bool(v);
        assert forall|s: OptionsModel, v: TomlTree| match #[trigger] options_step()(s, "source_comments"@, v) {
            Ok(n) => get(n) == h(v),
            Err(_) => true,
        } by {
            lemma_option_names_differ();
        }
        lemma_option_field(oes, o, "source_comments"@, get, h);
    }
    if k == "dedup"@ {
        let get = |x: OptionsModel| Ok::<bool, Seq<char>>(x.dedup);
        let h = |v: TomlTree| read_as_bool(v);
        assert forall|s: OptionsModel, v: TomlTree| match #[trigger] options_step()(s, "dedup"@, v) {
            Ok(n) => get(n) == h(v),
            Err(_) => true,
        } by {
            lemma_option_names_differ();
        }
        lemma_option_field(oes, o, "dedup"@, get, h);
    }
    if k == "content"@ {
        let get = |x: OptionsModel| Ok::<Seq<Seq<char>>, Mismatch>(x.content);
        let h = |v: TomlTree| decode_strings("options"@, "content"@, v);
        assert forall|s: OptionsModel, v: TomlTree| match #[trigger] options_step()(s, "content"@, v) {
            Ok(n) => get(n) == h(v),
            Err(_) => true,
        } by {
            lemma_option_names_differ();
        }
        lemma_option_field(oes, o, "content"@, get, h);
    }
}

/// An option that the last `[options]` table does not write keeps its default.
pub proof fn unset_options_keep_their_defaults(
    src: &str,
    es: Seq<(Seq<char>, TomlTree)>,
    i: int,
    oes: Seq<(Seq<char>, TomlTree)>,
)
    requires
        parse_spec(src) is Ok,
        toml_document(src@) == TomlOutcome::Parsed(es),
        last_with_key(es, "options"@, i),
        read_as_table(es[i].1) == Ok::<Seq<(Seq<char>, TomlTree)>, Seq<char>>(oes),
    ensures
        parse_spec(src) matches Ok((p, _)) && {
            let o = p.options;
            &&& lacks_key(oes, "output"@) ==> o.output == "dist/preset.css"@
            &&& lacks_key(oes, "base"@) ==> o.base == "minimal"@
            &&& lacks_key(oes, "prefix"@) ==> o.prefix == Seq::<char>::empty()
            &&& lacks_key(oes, "minify"@) ==> !o.minify
            &&& lacks_key(oes, "source_comments"@) ==> !o.source_comments
            &&& lacks_key(oes, "dedup"@) ==> o.dedup
            &&& lacks_key(oes, "content"@) ==> o.content == Seq::<Seq<char>>::empty()
        },
{
    lemma_options_table(src, es);
    let o = parse_spec(src)->Ok_0.0.options;
    lemma_option_names_differ();
    if lacks_key(oes, "output"@) {
        lemma_untouched(default_options(), oes, options_step(), "output"@, |x: OptionsModel| x.output);
    }
    if lacks_key(oes, "base"@) {
        lemma_untouched(default_options(), oes, options_step(), "base"@, |x: OptionsModel| x.base);
    }
    if lacks_key(oes, "prefix"@) {
        lemma_untouched(default_options(), oes, options_step(), "prefix"@, |x: OptionsModel| x.prefix);
    }
    if lacks_key(oes, "minify"@) {
        lemma_untouched(default_options(), oes, options_step(), "minify"@, |x: OptionsModel| x.minify);
    }
    if lacks_key(oes, "source_comments"@) {
        lemma_untouched(
            default_options(),
            oes,
            options_step(),
            "source_comments"@,
            |x: OptionsModel| x.source_comments,
        );
    }
    if lacks_key(oes, "dedup"@) {
        lemma_untouched(default_options(), oes, options_step(), "dedup"@, |x: OptionsModel| x.dedup);
    }
    if lacks_key(oes, "content"@) {
        lemma_untouched(default_options(), oes, options_step(), "content"@, |x: OptionsModel| x.content);
    }
}

/// A preset without an `[options]` table has the default options.
pub proof fn presets_without_options_use_the_defaults(src: &str, es: Seq<(Seq<char>, TomlTree)>)
    requires
        parse_spec(src) is Ok,
        toml_document(src@) == TomlOutcome::Parsed(es),
        lacks_key(es, "options"@),
    ensures
        parse_spec(src) matches Ok((p, _)) && p.options == default_options(),
{
    lemma_options_table(src, es);
}

/// A compiled theme keeps the options its preset was read with.
pub proof fn compiled_themes_keep_the_presets_options(src: &str)
    requires
        compile_spec(src) is Ok,
    ensures
        compile_spec(src) matches Ok(t) && parse_spec(src) matches Ok((p, _)) && t.options
            == p.options,
{
    if let Ok((p, _)) = parse_spec(src) {
        if let Ok((d, _)) = parse_spec(DEFAULT_PRESET) {
            assert(merge_spec(p, d).options == p.options);
        }
    }
}

} // verus!
