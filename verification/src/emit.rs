//! Writing rules out as CSS text, and design tokens as JSON, JavaScript or CSS
//! custom properties.
use vstd::prelude::*;

use crate::generate::{decl_views, rule_views, selector_of, DeclView, Rule, RuleView};
use crate::maps::{pair_views, token_map_pairs, TokenMap};
use crate::text::{chars_of, owned, push_char, push_str, str_eq};
use crate::theme::{ResolvedTheme, ThemeModel};

verus! {

broadcast use vstd::seq_lib::group_seq_properties;

/// How CSS is written.
pub struct EmitOptions {
    pub minify: bool,
    pub source_comments: bool,
    pub dedup: bool,
    pub base: String,
    pub version: String,
}

/// Emit options as plain values.
pub struct EmitModel {
    pub minify: bool,
    pub source_comments: bool,
    pub dedup: bool,
    pub base: Seq<char>,
    pub version: Seq<char>,
}

impl View for EmitOptions {
    type V = EmitModel;

    open spec fn view(&self) -> EmitModel {
        EmitModel {
            minify: self.minify,
            source_comments: self.source_comments,
            dedup: self.dedup,
            base: self.base@,
            version: self.version@,
        }
    }
}

/// The strings of `ss` one after another.
pub open spec fn concat_all(ss: Seq<Seq<char>>) -> Seq<char>
    decreases ss.len(),
{
    if ss.len() == 0 {
        Seq::empty()
    } else {
        concat_all(ss.drop_last()) + ss.last()
    }
}

/// The strings of `ss` with `sep` between each two.
pub open spec fn join(ss: Seq<Seq<char>>, sep: Seq<char>) -> Seq<char>
    decreases ss.len(),
{
    if ss.len() == 0 {
        Seq::empty()
    } else if ss.len() == 1 {
        ss[0]
    } else {
        join(ss.drop_last(), sep) + sep + ss.last()
    }
}

/// One declaration: `prop: value;` or, minified, `prop:value`.
pub open spec fn decl_text(d: DeclView, minify: bool) -> Seq<char> {
    if minify {
        d.prop + ":"@ + d.value
    } else {
        d.prop + ": "@ + d.value + ";"@
    }
}

/// The declarations of a rule: separated by a space or, minified, by `;`.
pub open spec fn decls_text(ds: Seq<DeclView>, minify: bool) -> Seq<char> {
    join(
        ds.map_values(|d: DeclView| decl_text(d, minify)),
        if minify {
            ";"@
        } else {
            " "@
        },
    )
}

/// A rule without its media query: `selector { decls }` or `selector{decls}`.
pub open spec fn rule_body(r: RuleView, minify: bool) -> Seq<char> {
    if minify {
        selector_of(r) + "{"@ + decls_text(r.decls, true) + "}"@
    } else {
        selector_of(r) + " { "@ + decls_text(r.decls, false) + " }"@
    }
}

/// A rule as CSS, inside `@media (min-width:...)` when it has a width.
pub open spec fn rule_block(r: RuleView, minify: bool) -> Seq<char> {
    match r.media {
        Some(m) => if minify {
            "@media (min-width:"@ + m + "){"@ + rule_body(r, true) + "}"@
        } else {
            "@media (min-width:"@ + m + ") { "@ + rule_body(r, false) + " }"@
        },
        None => rule_body(r, minify),
    }
}

/// A rule as it is written: a comment naming its source when asked for (and not
/// minified), the block, and a newline unless minified.
pub open spec fn rule_text(r: RuleView, o: EmitModel) -> Seq<char> {
    let comment = if !o.minify && o.source_comments {
        "/* "@ + r.src + " */\n"@
    } else {
        Seq::empty()
    };
    let end = if o.minify {
        Seq::empty()
    } else {
        "\n"@
    };
    comment + rule_block(r, o.minify) + end
}

/// The rules left after dropping each rule whose block repeats an earlier one.
pub open spec fn dedup_rules(rs: Seq<RuleView>, minify: bool) -> Seq<RuleView>
    decreases rs.len(),
{
    if rs.len() == 0 {
        Seq::empty()
    } else {
        let prev = dedup_rules(rs.drop_last(), minify);
        if rs.drop_last().map_values(|r: RuleView| rule_block(r, minify)).contains(
            rule_block(rs.last(), minify),
        ) {
            prev
        } else {
            prev.push(rs.last())
        }
    }
}

/// The leading comment: the generator and its version, unless minified.
pub open spec fn header_text(o: EmitModel) -> Seq<char> {
    if o.minify {
        Seq::empty()
    } else {
        "/* PresetCSS v"@ + o.version + " */\n"@
    }
}

/// The base layer: a small reset when `base` is `minimal`, nothing otherwise.
pub open spec fn base_text(o: EmitModel) -> Seq<char> {
    if o.base == "minimal"@ {
        if o.minify {
            "*,::before,::after{box-sizing:border-box}body{margin:0}"@
        } else {
            "*, ::before, ::after { box-sizing: border-box; }\nbody { margin: 0; }\n"@
        }
    } else {
        Seq::empty()
    }
}

/// The stylesheet: header, base layer, then each rule (repeats dropped when `dedup`).
pub open spec fn css_spec(rs: Seq<RuleView>, o: EmitModel) -> Seq<char> {
    let shown = if o.dedup {
        dedup_rules(rs, o.minify)
    } else {
        rs
    };
    header_text(o) + base_text(o) + concat_all(shown.map_values(|r: RuleView| rule_text(r, o)))
}

fn decls_string(ds: &Vec<crate::generate::Decl>, minify: bool) -> (r: String)
    ensures
        r@ == decls_text(decl_views(ds@), minify),
{
    let ghost dv = decl_views(ds@);
    let ghost f = |d: DeclView| decl_text(d, minify);
    let ghost sep = if minify {
        ";"@
    } else {
        " "@
    };
    let mut s = String::new();
    let mut i: usize = 0;
    while i < ds.len()
        invariant
            dv == decl_views(ds@),
            f == (|d: DeclView| decl_text(d, minify)),
            sep == (if minify {
                ";"@
            } else {
                " "@
            }),
            i <= ds.len(),
            s@ == join(dv.take(i as int).map_values(f), sep),
        decreases ds.len() - i,
    {
        let ghost before = s@;
        if i > 0 {
            if minify {
                push_str(&mut s, ";");
            } else {
                push_str(&mut s, " ");
            }
        }
        push_str(&mut s, ds[i].prop.as_str());
        if minify {
            push_str(&mut s, ":");
            push_str(&mut s, ds[i].value.as_str());
        } else {
            push_str(&mut s, ": ");
            push_str(&mut s, ds[i].value.as_str());
            push_str(&mut s, ";");
        }
        let ghost m = dv.take(i + 1).map_values(f);
        assert(m.drop_last() =~= dv.take(i as int).map_values(f));
        assert(m.last() == f(dv[i as int]));
        if i > 0 {
            assert(s@ =~= before + sep + f(dv[i as int]));
        } else {
            assert(m.len() == 1);
            assert(s@ =~= m[0]);
        }
        i += 1;
    }
    assert(dv.take(ds.len() as int) == dv);
    s
}

fn block_string(r: &Rule, minify: bool) -> (s: String)
    ensures
        s@ == rule_block(r@, minify),
{
    let sel = r.selector();
    let ds = decls_string(&r.decls, minify);
    let mut body = String::new();
    push_str(&mut body, sel.as_str());
    if minify {
        push_str(&mut body, "{");
        push_str(&mut body, ds.as_str());
        push_str(&mut body, "}");
    } else {
        push_str(&mut body, " { ");
        push_str(&mut body, ds.as_str());
        push_str(&mut body, " }");
    }
    assert(body@ == rule_body(r@, minify));
    match &r.media {
        Some(m) => {
            let mut s = owned("@media (min-width:");
            push_str(&mut s, m.as_str());
            if minify {
                push_str(&mut s, "){");
                push_str(&mut s, body.as_str());
                push_str(&mut s, "}");
            } else {
                push_str(&mut s, ") { ");
                push_str(&mut s, body.as_str());
                push_str(&mut s, " }");
            }
            s
        },
        None => body,
    }
}

fn contains_string(v: &Vec<String>, s: &String) -> (r: bool)
    ensures
        r == v@.map_values(|x: String| x@).contains(s@),
{
    let ghost vv = v@.map_values(|x: String| x@);
    let mut i: usize = 0;
    while i < v.len()
        invariant
            vv == v@.map_values(|x: String| x@),
            i <= v.len(),
            forall|k: int| 0 <= k < i ==> vv[k] != s@,
        decreases v.len() - i,
    {
        if str_eq(v[i].as_str(), s.as_str()) {
            assert(vv[i as int] == s@);
            return true;
        }
        i += 1;
    }
    false
}

/// Writes rules out as a stylesheet.
pub fn emit_css(rules: &Vec<Rule>, opts: &EmitOptions) -> (r: String)
    ensures
        r@ == css_spec(rule_views(rules@), opts@),
{
    let ghost o = opts@;
    let ghost rs = rule_views(rules@);
    let ghost tf = |x: RuleView| rule_text(x, o);
    let ghost bf = |x: RuleView| rule_block(x, o.minify);
    let mut out = String::new();
    if !opts.minify {
        push_str(&mut out, "/* PresetCSS v");
        push_str(&mut out, opts.version.as_str());
        push_str(&mut out, " */\n");
    }
    if str_eq(opts.base.as_str(), "minimal") {
        if opts.minify {
            push_str(&mut out, "*,::before,::after{box-sizing:border-box}body{margin:0}");
        } else {
            push_str(&mut out, "*, ::before, ::after { box-sizing: border-box; }\nbody { margin: 0; }\n");
        }
    }
    assert(out@ =~= header_text(o) + base_text(o));
    let ghost head = out@;
    let mut seen: Vec<String> = Vec::new();
    let ghost shown_of = |k: int| if o.dedup {
        dedup_rules(rs.take(k), o.minify)
    } else {
        rs.take(k)
    };
    let mut i: usize = 0;
    while i < rules.len()
        invariant
            o == opts@,
            rs == rule_views(rules@),
            tf == (|x: RuleView| rule_text(x, o)),
            bf == (|x: RuleView| rule_block(x, o.minify)),
            shown_of == (|k: int| if o.dedup {
                dedup_rules(rs.take(k), o.minify)
            } else {
                rs.take(k)
            }),
            i <= rules.len(),
            seen@.map_values(|x: String| x@) == rs.take(i as int).map_values(bf),
            out@ == head + concat_all(shown_of(i as int).map_values(tf)),
        decreases rules.len() - i,
    {
        let r = &rules[i];
        let block = block_string(r, opts.minify);
        assert(rs[i as int] == r@);
        assert(rs.take(i + 1).drop_last() == rs.take(i as int));
        assert(rs.take(i + 1).last() == r@);
        let repeated = contains_string(&seen, &block);
        let ghost before = out@;
        if opts.dedup && repeated {
            assert(shown_of(i + 1) == shown_of(i as int));
        } else {
            if !opts.minify && opts.source_comments {
                push_str(&mut out, "/* ");
                push_str(&mut out, r.src.as_str());
                push_str(&mut out, " */\n");
            }
            push_str(&mut out, block.as_str());
            if !opts.minify {
                push_str(&mut out, "\n");
            }
            assert(out@ =~= before + tf(r@));
            assert(shown_of(i + 1) == shown_of(i as int).push(r@));
            assert(shown_of(i + 1).map_values(tf).drop_last() =~= shown_of(i as int).map_values(tf));
        }
        let ghost prev_seen = seen@;
        seen.push(block);
        assert(seen@.map_values(|x: String| x@) =~= prev_seen.map_values(|x: String| x@).push(
            bf(r@),
        ));
        assert(rs.take(i + 1).map_values(bf) =~= rs.take(i as int).map_values(bf).push(bf(r@)));
        i += 1;
    }
    assert(rs.take(rules.len() as int) == rs);
    out
}


/// The formats design tokens can be exported in.
#[derive(Debug, Clone, Copy, PartialEq, Eq)]
pub enum TokenFormat {
    Json,
    Js,
    CssVars,
}

/// The exported groups of a theme, in order: the seven token groups, then the
/// breakpoints.
pub open spec fn token_groups(t: ThemeModel) -> Seq<(Seq<char>, Seq<(Seq<char>, Seq<char>)>)> {
    seq![
        ("colors"@, t.colors),
        ("spacing"@, t.spacing),
        ("sizes"@, t.sizes),
        ("fonts"@, t.fonts),
        ("text"@, t.text),
        ("radius"@, t.radius),
        ("shadows"@, t.shadows),
        ("breakpoints"@, t.breakpoints),
    ]
}

/// The escape of a control character other than tab, newline and carriage return.
pub open spec fn control_escape(c: char) -> Seq<char> {
    if c == '\u{0}' {
        "\\u0000"@
    } else if c == '\u{1}' {
        "\\u0001"@
    } else if c == '\u{2}' {
        "\\u0002"@
    } else if c == '\u{3}' {
        "\\u0003"@
    } else if c == '\u{4}' {
        "\\u0004"@
    } else if c == '\u{5}' {
        "\\u0005"@
    } else if c == '\u{6}' {
        "\\u0006"@
    } else if c == '\u{7}' {
        "\\u0007"@
    } else if c == '\u{8}' {
        "\\u0008"@
    } else if c == '\u{b}' {
        "\\u000b"@
    } else if c == '\u{c}' {
        "\\u000c"@
    } else if c == '\u{e}' {
        "\\u000e"@
    } else if c == '\u{f}' {
        "\\u000f"@
    } else if c == '\u{10}' {
        "\\u0010"@
    } else if c == '\u{11}' {
        "\\u0011"@
    } else if c == '\u{12}' {
        "\\u0012"@
    } else if c == '\u{13}' {
        "\\u0013"@
    } else if c == '\u{14}' {
        "\\u0014"@
    } else if c == '\u{15}' {
        "\\u0015"@
    } else if c == '\u{16}' {
        "\\u0016"@
    } else if c == '\u{17}' {
        "\\u0017"@
    } else if c == '\u{18}' {
        "\\u0018"@
    } else if c == '\u{19}' {
        "\\u0019"@
    } else if c == '\u{1a}' {
        "\\u001a"@
    } else if c == '\u{1b}' {
        "\\u001b"@
    } else if c == '\u{1c}' {
        "\\u001c"@
    } else if c == '\u{1d}' {
        "\\u001d"@
    } else if c == '\u{1e}' {
        "\\u001e"@
    } else if c == '\u{1f}' {
        "\\u001f"@
    } else {
        seq![c]
    }
}

/// Whether a character is a control character other than tab, newline and return.
pub open spec fn is_other_control(c: char) -> bool {
    ('\u{0}' <= c && c <= '\u{8}') || ('\u{b}' <= c && c <= '\u{c}') || ('\u{e}' <= c && c <= '\u{1f}')
}

/// One character inside a JSON string literal.
pub open spec fn json_char(c: char) -> Seq<char> {
    if c == '"' {
        "\\\""@
    } else if c == '\\' {
        "\\\\"@
    } else if c == '\n' {
        "\\n"@
    } else if c == '\r' {
        "\\r"@
    } else if c == '\t' {
        "\\t"@
    } else if is_other_control(c) {
        control_escape(c)
    } else {
        seq![c]
    }
}

fn push_control(out: &mut String, c: char)
    requires
        is_other_control(c),
    ensures
        final(out)@ == old(out)@ + control_escape(c),
{
    if c == '\u{0}' {
        push_str(out, "\\u0000");
    } else if c == '\u{1}' {
        push_str(out, "\\u0001");
    } else if c == '\u{2}' {
        push_str(out, "\\u0002");
    } else if c == '\u{3}' {
        push_str(out, "\\u0003");
    } else if c == '\u{4}' {
        push_str(out, "\\u0004");
    } else if c == '\u{5}' {
        push_str(out, "\\u0005");
    } else if c == '\u{6}' {
        push_str(out, "\\u0006");
    } else if c == '\u{7}' {
        push_str(out, "\\u0007");
    } else if c == '\u{8}' {
        push_str(out, "\\u0008");
    } else if c == '\u{b}' {
        push_str(out, "\\u000b");
    } else if c == '\u{c}' {
        push_str(out, "\\u000c");
    } else if c == '\u{e}' {
        push_str(out, "\\u000e");
    } else if c == '\u{f}' {
        push_str(out, "\\u000f");
    } else if c == '\u{10}' {
        push_str(out, "\\u0010");
    } else if c == '\u{11}' {
        push_str(out, "\\u0011");
    } else if c == '\u{12}' {
        push_str(out, "\\u0012");
    } else if c == '\u{13}' {
        push_str(out, "\\u0013");
    } else if c == '\u{14}' {
        push_str(out, "\\u0014");
    } else if c == '\u{15}' {
        push_str(out, "\\u0015");
    } else if c == '\u{16}' {
        push_str(out, "\\u0016");
    } else if c == '\u{17}' {
        push_str(out, "\\u0017");
    } else if c == '\u{18}' {
        push_str(out, "\\u0018");
    } else if c == '\u{19}' {
        push_str(out, "\\u0019");
    } else if c == '\u{1a}' {
        push_str(out, "\\u001a");
    } else if c == '\u{1b}' {
        push_str(out, "\\u001b");
    } else if c == '\u{1c}' {
        push_str(out, "\\u001c");
    } else if c == '\u{1d}' {
        push_str(out, "\\u001d");
    } else if c == '\u{1e}' {
        push_str(out, "\\u001e");
    } else if c == '\u{1f}' {
        push_str(out, "\\u001f");
    }
}

/// Text as the inside of a JSON string literal.
pub open spec fn json_escape(s: Seq<char>) -> Seq<char> {
    concat_all(s.map_values(|c: char| json_char(c)))
}

/// One token as a JSON member.
pub open spec fn json_entry(e: (Seq<char>, Seq<char>)) -> Seq<char> {
    "    \""@ + json_escape(e.0) + "\": \""@ + json_escape(e.1) + "\""@
}

/// One group as a JSON member.
pub open spec fn json_group(g: (Seq<char>, Seq<(Seq<char>, Seq<char>)>)) -> Seq<char> {
    "  \""@ + g.0 + "\": {"@ + if g.1.len() == 0 {
        "}"@
    } else {
        "\n"@ + join(g.1.map_values(|e: (Seq<char>, Seq<char>)| json_entry(e)), ",\n"@) + "\n  }"@
    }
}

/// The tokens as a JSON object of groups.
pub open spec fn json_text(t: ThemeModel) -> Seq<char> {
    "{\n"@ + join(
        token_groups(t).map_values(|g: (Seq<char>, Seq<(Seq<char>, Seq<char>)>)| json_group(g)),
        ",\n"@,
    ) + "\n}"@
}

/// One token as a CSS custom property.
pub open spec fn var_line(group: Seq<char>, e: (Seq<char>, Seq<char>)) -> Seq<char> {
    "  --"@ + group + "-"@ + e.0 + ": "@ + e.1 + ";\n"@
}

/// The custom properties of one group.
pub open spec fn var_group(g: (Seq<char>, Seq<(Seq<char>, Seq<char>)>)) -> Seq<char> {
    concat_all(g.1.map_values(|e: (Seq<char>, Seq<char>)| var_line(g.0, e)))
}

/// The design tokens of a theme in a format.
pub open spec fn tokens_text(t: ThemeModel, f: TokenFormat) -> Seq<char> {
    match f {
        TokenFormat::Json => json_text(t) + "\n"@,
        TokenFormat::Js => "export default "@ + json_text(t) + ";\n"@,
        TokenFormat::CssVars => ":root {\n"@ + concat_all(
            token_groups(t).map_values(
                |g: (Seq<char>, Seq<(Seq<char>, Seq<char>)>)| var_group(g),
            ),
        ) + "}\n"@,
    }
}

fn push_json_escaped(out: &mut String, s: &str)
    ensures
        final(out)@ == old(out)@ + json_escape(s@),
{
    let cs = chars_of(s);
    let ghost f = |c: char| json_char(c);
    let mut i: usize = 0;
    while i < cs.len()
        invariant
            cs@ == s@,
            f == (|c: char| json_char(c)),
            i <= cs.len(),
            out@ == old(out)@ + concat_all(cs@.take(i as int).map_values(f)),
        decreases cs.len() - i,
    {
        let c = cs[i];
        let ghost before = out@;
        if c == '"' {
            push_str(out, "\\\"");
        } else if c == '\\' {
            push_str(out, "\\\\");
        } else if c == '\n' {
            push_str(out, "\\n");
        } else if c == '\r' {
            push_str(out, "\\r");
        } else if c == '\t' {
            push_str(out, "\\t");
        } else if ('\u{0}' <= c && c <= '\u{8}') || ('\u{b}' <= c && c <= '\u{c}') || ('\u{e}' <= c && c <= '\u{1f}') {
            push_control(out, c);
        } else {
            push_char(out, c);
        }
        assert(out@ =~= before + f(c));
        let ghost m = cs@.take(i + 1).map_values(f);
        assert(m.drop_last() =~= cs@.take(i as int).map_values(f));
        assert(m.last() == f(c));
        i += 1;
    }
    assert(cs@.take(cs.len() as int) == cs@);
}


fn json_entry_string(out: &mut String, k: &str, v: &str)
    ensures
        final(out)@ == old(out)@ + json_entry((k@, v@)),
{
    push_str(out, "    \"");
    push_json_escaped(out, k);
    push_str(out, "\": \"");
    push_json_escaped(out, v);
    push_str(out, "\"");
}

fn json_group_string(out: &mut String, name: &str, m: &TokenMap)
    ensures
        final(out)@ == old(out)@ + json_group((name@, crate::maps::token_entries(*m))),
{
    let ps = token_map_pairs(m);
    let ghost es = pair_views(ps@);
    let ghost f = |e: (Seq<char>, Seq<char>)| json_entry(e);
    push_str(out, "  \"");
    push_str(out, name);
    push_str(out, "\": {");
    if ps.len() == 0 {
        push_str(out, "}");
        return;
    }
    push_str(out, "\n");
    let ghost start = out@;
    let mut i: usize = 0;
    while i < ps.len()
        invariant
            es == pair_views(ps@),
            f == (|e: (Seq<char>, Seq<char>)| json_entry(e)),
            i <= ps.len(),
            out@ == start + join(es.take(i as int).map_values(f), ",\n"@),
        decreases ps.len() - i,
    {
        let ghost before = out@;
        if i > 0 {
            push_str(out, ",\n");
        }
        json_entry_string(out, ps[i].0.as_str(), ps[i].1.as_str());
        let ghost mm = es.take(i + 1).map_values(f);
        assert(mm.drop_last() =~= es.take(i as int).map_values(f));
        assert(mm.last() == f(es[i as int]));
        if i > 0 {
            assert(out@ =~= before + ",\n"@ + f(es[i as int]));
        } else {
            assert(mm.len() == 1);
            assert(out@ =~= start + mm[0]);
        }
        i += 1;
    }
    assert(es.take(ps.len() as int) == es);
    push_str(out, "\n  }");
}

/// The exported groups of a theme with their names.
fn groups_of(theme: &ResolvedTheme) -> (r: Vec<(&'static str, &TokenMap)>)
    ensures
        r@.map_values(
            |g: (&str, &TokenMap)| (g.0@, crate::maps::token_entries(*g.1)),
        ) == token_groups(theme@),
{
    let r = vec![
        ("colors", &theme.colors),
        ("spacing", &theme.spacing),
        ("sizes", &theme.sizes),
        ("fonts", &theme.fonts),
        ("text", &theme.text),
        ("radius", &theme.radius),
        ("shadows", &theme.shadows),
        ("breakpoints", &theme.breakpoints),
    ];
    assert(r@.map_values(|g: (&str, &TokenMap)| (g.0@, crate::maps::token_entries(*g.1)))
        =~= token_groups(theme@));
    r
}

fn json_string(out: &mut String, theme: &ResolvedTheme)
    ensures
        final(out)@ == old(out)@ + json_text(theme@),
{
    let groups = groups_of(theme);
    let ghost gs = token_groups(theme@);
    let ghost f = |g: (Seq<char>, Seq<(Seq<char>, Seq<char>)>)| json_group(g);
    push_str(out, "{\n");
    let ghost start = out@;
    let mut i: usize = 0;
    while i < groups.len()
        invariant
            groups@.map_values(|g: (&str, &TokenMap)| (g.0@, crate::maps::token_entries(*g.1)))
                == gs,
            f == (|g: (Seq<char>, Seq<(Seq<char>, Seq<char>)>)| json_group(g)),
            i <= groups.len(),
            out@ == start + join(gs.take(i as int).map_values(f), ",\n"@),
        decreases groups.len() - i,
    {
        let ghost before = out@;
        if i > 0 {
            push_str(out, ",\n");
        }
        assert(gs[i as int] == (groups@[i as int].0@, crate::maps::token_entries(
            *groups@[i as int].1,
        )));
        json_group_string(out, groups[i].0, groups[i].1);
        let ghost mm = gs.take(i + 1).map_values(f);
        assert(mm.drop_last() =~= gs.take(i as int).map_values(f));
        assert(mm.last() == f(gs[i as int]));
        if i > 0 {
            assert(out@ =~= before + ",\n"@ + f(gs[i as int]));
        } else {
            assert(mm.len() == 1);
            assert(out@ =~= start + mm[0]);
        }
        i += 1;
    }
    assert(gs.take(groups.len() as int) == gs);
    push_str(out, "\n}");
}

fn var_group_string(out: &mut String, name: &str, m: &TokenMap)
    ensures
        final(out)@ == old(out)@ + var_group((name@, crate::maps::token_entries(*m))),
{
    let ps = token_map_pairs(m);
    let ghost es = pair_views(ps@);
    let ghost f = |e: (Seq<char>, Seq<char>)| var_line(name@, e);
    let ghost start = out@;
    let mut i: usize = 0;
    while i < ps.len()
        invariant
            es == pair_views(ps@),
            f == (|e: (Seq<char>, Seq<char>)| var_line(name@, e)),
            i <= ps.len(),
            out@ == start + concat_all(es.take(i as int).map_values(f)),
        decreases ps.len() - i,
    {
        let ghost before = out@;
        push_str(out, "  --");
        push_str(out, name);
        push_str(out, "-");
        push_str(out, ps[i].0.as_str());
        push_str(out, ": ");
        push_str(out, ps[i].1.as_str());
        push_str(out, ";\n");
        assert(out@ =~= before + f(es[i as int]));
        let ghost mm = es.take(i + 1).map_values(f);
        assert(mm.drop_last() =~= es.take(i as int).map_values(f));
        assert(mm.last() == f(es[i as int]));
        i += 1;
    }
    assert(es.take(ps.len() as int) == es);
}

/// The design tokens of a theme in the given format.
pub fn emit_tokens(theme: &ResolvedTheme, format: TokenFormat) -> (r: String)
    ensures
        r@ == tokens_text(theme@, format),
{
    let mut out = String::new();
    match format {
        TokenFormat::Json => {
            json_string(&mut out, theme);
            push_str(&mut out, "\n");
        },
        TokenFormat::Js => {
            push_str(&mut out, "export default ");
            json_string(&mut out, theme);
            push_str(&mut out, ";\n");
        },
        TokenFormat::CssVars => {
            push_str(&mut out, ":root {\n");
            let ghost start = out@;
            let groups = groups_of(theme);
            let ghost gs = token_groups(theme@);
            let ghost f = |g: (Seq<char>, Seq<(Seq<char>, Seq<char>)>)| var_group(g);
            let mut i: usize = 0;
            while i < groups.len()
                invariant
                    groups@.map_values(
                        |g: (&str, &TokenMap)| (g.0@, crate::maps::token_entries(*g.1)),
                    ) == gs,
                    f == (|g: (Seq<char>, Seq<(Seq<char>, Seq<char>)>)| var_group(g)),
                    i <= groups.len(),
                    out@ == start + concat_all(gs.take(i as int).map_values(f)),
                decreases groups.len() - i,
            {
                let ghost before = out@;
                assert(gs[i as int] == (groups@[i as int].0@, crate::maps::token_entries(
                    *groups@[i as int].1,
                )));
                var_group_string(&mut out, groups[i].0, groups[i].1);
                let ghost mm = gs.take(i + 1).map_values(f);
                assert(mm.drop_last() =~= gs.take(i as int).map_values(f));
                assert(mm.last() == f(gs[i as int]));
                i += 1;
            }
            assert(gs.take(groups.len() as int) == gs);
            push_str(&mut out, "}\n");
        },
    }
    out
}

} // verus!
