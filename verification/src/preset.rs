//! The preset file: what its tables mean, how they are read out of a TOML document,
//! and which unknown tables and options are reported.
use vstd::prelude::*;
use vstd::string::StringSliceAdditionalSpecFns;

use crate::maps::{
    entries_insert, string_views, token_entries, token_map_insert, token_map_new,
    variant_entries, variant_map_insert, variant_map_new, TokenMap, VariantMap,
};
use crate::error::{
    diag_at, diag_at_opt, diag_help_opt, diag_views, did_you_mean, locate, located, plain_diag,
    suggestion, DiagView, Diagnostic,
};
use crate::text::{owned, push_str, str_eq};
use crate::toml_doc::{
    entry_trees, read_as_array, read_as_bool, read_as_string, read_as_table, read_document,
    toml_document, toml_value, value_as_array, value_as_bool, value_as_string, value_as_table,
    TomlOutcome, TomlTree,
};

verus! {

broadcast use vstd::seq_lib::group_seq_properties;

/// A value the deserializer cannot read as the type the preset expects there: where
/// it stands, and serde's message.
pub struct Mismatch {
    pub section: Seq<char>,
    pub key: Seq<char>,
    pub message: Seq<char>,
}

/// A value of the wrong type, as the reader reports it.
pub struct TypeMismatch {
    pub section: String,
    pub key: String,
    pub message: String,
}

impl View for TypeMismatch {
    type V = Mismatch;

    open spec fn view(&self) -> Mismatch {
        Mismatch { section: self.section@, key: self.key@, message: self.message@ }
    }
}

pub open spec fn mismatch(section: Seq<char>, key: Seq<char>, message: Seq<char>) -> Mismatch {
    Mismatch { section, key, message }
}

fn type_mismatch(section: &str, key: &str, message: String) -> (r: TypeMismatch)
    ensures
        r@ == mismatch(section@, key@, message@),
{
    TypeMismatch { section: owned(section), key: owned(key), message }
}

/// Reads a table's entries in order, each through `step`; the first mismatch ends it.
pub open spec fn fold_entries<S>(
    init: S,
    es: Seq<(Seq<char>, TomlTree)>,
    step: spec_fn(S, Seq<char>, TomlTree) -> Result<S, Mismatch>,
) -> Result<S, Mismatch>
    decreases es.len(),
{
    if es.len() == 0 {
        Ok(init)
    } else {
        match fold_entries(init, es.drop_last(), step) {
            Ok(s) => step(s, es.last().0, es.last().1),
            Err(e) => Err(e),
        }
    }
}

pub proof fn lemma_fold_next<S>(
    init: S,
    es: Seq<(Seq<char>, TomlTree)>,
    step: spec_fn(S, Seq<char>, TomlTree) -> Result<S, Mismatch>,
    i: int,
)
    requires
        0 <= i < es.len(),
    ensures
        fold_entries(init, es.take(i + 1), step) == (match fold_entries(init, es.take(i), step) {
            Ok(s) => step(s, es[i].0, es[i].1),
            Err(e) => Err(e),
        }),
{
    assert(es.take(i + 1).drop_last() == es.take(i));
    assert(es.take(i + 1).last() == es[i]);
}

pub proof fn lemma_fold_stops<S>(
    init: S,
    es: Seq<(Seq<char>, TomlTree)>,
    step: spec_fn(S, Seq<char>, TomlTree) -> Result<S, Mismatch>,
    i: int,
)
    requires
        0 <= i < es.len(),
        fold_entries(init, es.take(i + 1), step) is Err,
    ensures
        fold_entries(init, es, step) == fold_entries(init, es.take(i + 1), step),
    decreases es.len() - i,
{
    if i + 1 < es.len() {
        assert(es.drop_last().take(i + 1) == es.take(i + 1));
        lemma_fold_stops(init, es.drop_last(), step, i);
    } else {
        assert(es.take(i + 1) == es);
    }
}

/// Reads an array's items in order, each through `step`; the first mismatch ends it.
pub open spec fn fold_items<S>(
    init: S,
    items: Seq<TomlTree>,
    step: spec_fn(S, TomlTree) -> Result<S, Mismatch>,
) -> Result<S, Mismatch>
    decreases items.len(),
{
    if items.len() == 0 {
        Ok(init)
    } else {
        match fold_items(init, items.drop_last(), step) {
            Ok(s) => step(s, items.last()),
            Err(e) => Err(e),
        }
    }
}

pub proof fn lemma_items_next<S>(
    init: S,
    items: Seq<TomlTree>,
    step: spec_fn(S, TomlTree) -> Result<S, Mismatch>,
    i: int,
)
    requires
        0 <= i < items.len(),
    ensures
        fold_items(init, items.take(i + 1), step) == (match fold_items(init, items.take(i), step) {
            Ok(s) => step(s, items[i]),
            Err(e) => Err(e),
        }),
{
    assert(items.take(i + 1).drop_last() == items.take(i));
    assert(items.take(i + 1).last() == items[i]);
}

pub proof fn lemma_items_stop<S>(
    init: S,
    items: Seq<TomlTree>,
    step: spec_fn(S, TomlTree) -> Result<S, Mismatch>,
    i: int,
)
    requires
        0 <= i < items.len(),
        fold_items(init, items.take(i + 1), step) is Err,
    ensures
        fold_items(init, items, step) == fold_items(init, items.take(i + 1), step),
    decreases items.len() - i,
{
    if i + 1 < items.len() {
        assert(items.drop_last().take(i + 1) == items.take(i + 1));
        lemma_items_stop(init, items.drop_last(), step, i);
    } else {
        assert(items.take(i + 1) == items);
    }
}

/// One entry of a token group: its value has to read as a string.
pub open spec fn token_step(section: Seq<char>) -> spec_fn(
    Seq<(Seq<char>, Seq<char>)>,
    Seq<char>,
    TomlTree,
) -> Result<Seq<(Seq<char>, Seq<char>)>, Mismatch> {
    |m: Seq<(Seq<char>, Seq<char>)>, k: Seq<char>, v: TomlTree|
        match read_as_string(v) {
            Ok(s) => Ok(entries_insert(m, k, s)),
            Err(msg) => Err(mismatch(section, k, msg)),
        }
}

/// The value of `parent.name` read as a token group: a map of strings, in order.
pub open spec fn decode_tokens(parent: Seq<char>, name: Seq<char>, t: TomlTree) -> Result<
    Seq<(Seq<char>, Seq<char>)>,
    Mismatch,
> {
    match read_as_table(t) {
        Ok(es) => fold_entries(Seq::empty(), es, token_step(section_path(parent, name))),
        Err(msg) => Err(mismatch(parent, name, msg)),
    }
}

/// The dotted name of `name` inside `parent`.
pub open spec fn section_path(parent: Seq<char>, name: Seq<char>) -> Seq<char> {
    if parent.len() == 0 {
        name
    } else {
        parent + "."@ + name
    }
}

fn dotted(parent: &str, name: &str) -> (r: String)
    ensures
        r@ == section_path(parent@, name@),
{
    let mut s = owned(parent);
    if !parent.is_empty() {
        crate::text::push_str(&mut s, ".");
    }
    crate::text::push_str(&mut s, name);
    s
}

/// Reads a token group out of `t`, the value of `parent.name`.
pub fn read_tokens(parent: &str, name: &str, t: toml::Value) -> (r: Result<TokenMap, TypeMismatch>)
    ensures
        decode_tokens(parent@, name@, toml_value(t)) == match r {
            Ok(m) => Ok(token_entries(m)),
            Err(e) => Err(e@),
        },
{
    match value_as_table(&t) {
        Ok(es) => {
            let section = dotted(parent, name);
            let ghost gs = entry_trees(es@);
            let ghost step = token_step(section@);
            let ghost init = Seq::<(Seq<char>, Seq<char>)>::empty();
            let mut m = token_map_new();
            for e in it: es
                invariant
                    gs == entry_trees(it.seq()),
                    read_as_table(toml_value(t)) == Ok::<Seq<(Seq<char>, TomlTree)>, Seq<char>>(gs),
                    section@ == section_path(parent@, name@),
                    step == token_step(section@),
                    init == Seq::<(Seq<char>, Seq<char>)>::empty(),
                    fold_entries(init, gs.take(it.index()), step) == Ok::<
                        Seq<(Seq<char>, Seq<char>)>,
                        Mismatch,
                    >(token_entries(m)),
            {
                let ghost i = it.index();
                proof {
                    lemma_fold_next(init, gs, step, i);
                }
                assert(gs[i] == (e.0@, toml_value(e.1)));
                let (k, v) = e;
                match value_as_string(&v) {
                    Ok(s) => {
                        token_map_insert(&mut m, k, s);
                    },
                    Err(msg) => {
                        let err = type_mismatch(section.as_str(), k.as_str(), msg);
                        proof {
                            lemma_fold_stops(init, gs, step, i);
                        }
                        return Err(err);
                    },
                }
            }
            assert(gs.take(gs.len() as int) == gs);
            Ok(m)
        },
        Err(msg) => Err(type_mismatch(parent, name, msg)),
    }
}

/// One item of an array of strings.
pub open spec fn string_item_step(section: Seq<char>, key: Seq<char>) -> spec_fn(
    Seq<Seq<char>>,
    TomlTree,
) -> Result<Seq<Seq<char>>, Mismatch> {
    |acc: Seq<Seq<char>>, v: TomlTree|
        match read_as_string(v) {
            Ok(s) => Ok(acc.push(s)),
            Err(msg) => Err(mismatch(section, key, msg)),
        }
}

/// The value of `section.key` read as an array of strings.
pub open spec fn decode_strings(section: Seq<char>, key: Seq<char>, t: TomlTree) -> Result<
    Seq<Seq<char>>,
    Mismatch,
> {
    match read_as_array(t) {
        Ok(items) => fold_items(Seq::empty(), items, string_item_step(section, key)),
        Err(msg) => Err(mismatch(section, key, msg)),
    }
}

/// Reads an array of strings out of `t`, the value of `section.key`.
pub fn read_strings(section: &str, key: &str, t: toml::Value) -> (r: Result<
    Vec<String>,
    TypeMismatch,
>)
    ensures
        decode_strings(section@, key@, toml_value(t)) == match r {
            Ok(v) => Ok(string_views(v@)),
            Err(e) => Err(e@),
        },
{
    match value_as_array(&t) {
        Ok(items) => {
            let ghost gs = items@.map_values(|v: toml::Value| toml_value(v));
            let ghost step = string_item_step(section@, key@);
            let ghost init = Seq::<Seq<char>>::empty();
            let mut out: Vec<String> = Vec::new();
            assert(string_views(out@) =~= Seq::<Seq<char>>::empty());
            for v in it: items
                invariant
                    gs == it.seq().map_values(|v: toml::Value| toml_value(v)),
                    read_as_array(toml_value(t)) == Ok::<Seq<TomlTree>, Seq<char>>(gs),
                    step == string_item_step(section@, key@),
                    init == Seq::<Seq<char>>::empty(),
                    fold_items(init, gs.take(it.index()), step) == Ok::<Seq<Seq<char>>, Mismatch>(
                        string_views(out@),
                    ),
            {
                let ghost i = it.index();
                proof {
                    lemma_items_next(init, gs, step, i);
                }
                assert(gs[i] == toml_value(v));
                match value_as_string(&v) {
                    Ok(s) => {
                        let ghost prev = out@;
                        let ghost sv = s@;
                        out.push(s);
                        assert(string_views(out@) =~= string_views(prev).push(sv));
                    },
                    Err(msg) => {
                        let err = type_mismatch(section, key, msg);
                        proof {
                            lemma_items_stop(init, gs, step, i);
                        }
                        return Err(err);
                    },
                }
            }
            assert(gs.take(gs.len() as int) == gs);
            Ok(out)
        },
        Err(msg) => Err(type_mismatch(section, key, msg)),
    }
}


/// One entry of `[variants]`: the group's list of variant names.
pub open spec fn variant_step() -> spec_fn(
    Seq<(Seq<char>, Seq<Seq<char>>)>,
    Seq<char>,
    TomlTree,
) -> Result<Seq<(Seq<char>, Seq<Seq<char>>)>, Mismatch> {
    |m: Seq<(Seq<char>, Seq<Seq<char>>)>, k: Seq<char>, v: TomlTree|
        match decode_strings("variants"@, k, v) {
            Ok(names) => Ok(entries_insert(m, k, names)),
            Err(e) => Err(e),
        }
}

/// The value of `variants` read as a table of arrays of strings, in order.
pub open spec fn decode_variants(t: TomlTree) -> Result<Seq<(Seq<char>, Seq<Seq<char>>)>, Mismatch> {
    match read_as_table(t) {
        Ok(es) => fold_entries(Seq::empty(), es, variant_step()),
        Err(msg) => Err(mismatch(""@, "variants"@, msg)),
    }
}

/// Reads `[variants]` out of `t`.
pub fn read_variants(t: toml::Value) -> (r: Result<VariantMap, TypeMismatch>)
    ensures
        decode_variants(toml_value(t)) == match r {
            Ok(m) => Ok(variant_entries(m)),
            Err(e) => Err(e@),
        },
{
    match value_as_table(&t) {
        Ok(es) => {
            let ghost gs = entry_trees(es@);
            let ghost step = variant_step();
            let ghost init = Seq::<(Seq<char>, Seq<Seq<char>>)>::empty();
            let mut m = variant_map_new();
            for e in it: es
                invariant
                    gs == entry_trees(it.seq()),
                    read_as_table(toml_value(t)) == Ok::<Seq<(Seq<char>, TomlTree)>, Seq<char>>(gs),
                    step == variant_step(),
                    init == Seq::<(Seq<char>, Seq<Seq<char>>)>::empty(),
                    fold_entries(init, gs.take(it.index()), step) == Ok::<
                        Seq<(Seq<char>, Seq<Seq<char>>)>,
                        Mismatch,
                    >(variant_entries(m)),
            {
                let ghost i = it.index();
                proof {
                    lemma_fold_next(init, gs, step, i);
                }
                assert(gs[i] == (e.0@, toml_value(e.1)));
                let (k, v) = e;
                match read_strings("variants", k.as_str(), v) {
                    Ok(names) => {
                        variant_map_insert(&mut m, k, names);
                    },
                    Err(err) => {
                        proof {
                            lemma_fold_stops(init, gs, step, i);
                        }
                        return Err(err);
                    },
                }
            }
            assert(gs.take(gs.len() as int) == gs);
            Ok(m)
        },
        Err(msg) => Err(type_mismatch("", "variants", msg)),
    }
}

/// `[extend]` as plain values: the entries added to each token group.
pub struct ExtendModel {
    pub colors: Seq<(Seq<char>, Seq<char>)>,
    pub spacing: Seq<(Seq<char>, Seq<char>)>,
    pub sizes: Seq<(Seq<char>, Seq<char>)>,
    pub fonts: Seq<(Seq<char>, Seq<char>)>,
    pub text: Seq<(Seq<char>, Seq<char>)>,
    pub radius: Seq<(Seq<char>, Seq<char>)>,
    pub shadows: Seq<(Seq<char>, Seq<char>)>,
}

/// The `[extend.*]` tables: entries that are added to a group, whether the group
/// comes from the preset or from the defaults.
#[derive(Debug)]
pub struct Extend {
    pub colors: TokenMap,
    pub spacing: TokenMap,
    pub sizes: TokenMap,
    pub fonts: TokenMap,
    pub text: TokenMap,
    pub radius: TokenMap,
    pub shadows: TokenMap,
}

impl View for Extend {
    type V = ExtendModel;

    open spec fn view(&self) -> ExtendModel {
        ExtendModel {
            colors: token_entries(self.colors),
            spacing: token_entries(self.spacing),
            sizes: token_entries(self.sizes),
            fonts: token_entries(self.fonts),
            text: token_entries(self.text),
            radius: token_entries(self.radius),
            shadows: token_entries(self.shadows),
        }
    }
}

pub open spec fn empty_extend() -> ExtendModel {
    ExtendModel {
        colors: Seq::empty(),
        spacing: Seq::empty(),
        sizes: Seq::empty(),
        fonts: Seq::empty(),
        text: Seq::empty(),
        radius: Seq::empty(),
        shadows: Seq::empty(),
    }
}

impl Default for Extend {
    /// No extensions.
    fn default() -> (r: Extend)
        ensures
            r@ == empty_extend(),
    {
        Extend {
            colors: token_map_new(),
            spacing: token_map_new(),
            sizes: token_map_new(),
            fonts: token_map_new(),
            text: token_map_new(),
            radius: token_map_new(),
            shadows: token_map_new(),
        }
    }
}

/// One entry of `[extend]`: a token group's additions; other keys are ignored.
pub open spec fn extend_step() -> spec_fn(ExtendModel, Seq<char>, TomlTree) -> Result<
    ExtendModel,
    Mismatch,
> {
    |x: ExtendModel, k: Seq<char>, v: TomlTree|
        if k == "colors"@ {
            match decode_tokens("extend"@, k, v) {
                Ok(m) => Ok(ExtendModel { colors: m, ..x }),
                Err(e) => Err(e),
            }
        } else if k == "spacing"@ {
            match decode_tokens("extend"@, k, v) {
                Ok(m) => Ok(ExtendModel { spacing: m, ..x }),
                Err(e) => Err(e),
            }
        } else if k == "sizes"@ {
            match decode_tokens("extend"@, k, v) {
                Ok(m) => Ok(ExtendModel { sizes: m, ..x }),
                Err(e) => Err(e),
            }
        } else if k == "fonts"@ {
            match decode_tokens("extend"@, k, v) {
                Ok(m) => Ok(ExtendModel { fonts: m, ..x }),
                Err(e) => Err(e),
            }
        } else if k == "text"@ {
            match decode_tokens("extend"@, k, v) {
                Ok(m) => Ok(ExtendModel { text: m, ..x }),
                Err(e) => Err(e),
            }
        } else if k == "radius"@ {
            match decode_tokens("extend"@, k, v) {
                Ok(m) => Ok(ExtendModel { radius: m, ..x }),
                Err(e) => Err(e),
            }
        } else if k == "shadows"@ {
            match decode_tokens("extend"@, k, v) {
                Ok(m) => Ok(ExtendModel { shadows: m, ..x }),
                Err(e) => Err(e),
            }
        } else {
            Ok(x)
        }
}

/// The value of `extend` read as `[extend.*]` tables; an empty array is read as no
/// extensions, since every group of `[extend]` defaults to empty.
pub open spec fn decode_extend(t: TomlTree) -> Result<ExtendModel, Mismatch> {
    if read_as_array(t) == Ok::<Seq<TomlTree>, Seq<char>>(Seq::empty()) {
        Ok(empty_extend())
    } else {
        decode_extend_table(t)
    }
}

/// The value of `extend` read as a map of `[extend.*]` tables.
pub open spec fn decode_extend_table(t: TomlTree) -> Result<ExtendModel, Mismatch> {
    match read_as_table(t) {
        Ok(es) => fold_entries(empty_extend(), es, extend_step()),
        Err(msg) => Err(mismatch(""@, "extend"@, msg)),
    }
}

/// Reads `[extend]` out of `t`.
pub fn read_extend(t: toml::Value) -> (r: Result<Extend, TypeMismatch>)
    ensures
        decode_extend(toml_value(t)) == match r {
            Ok(x) => Ok(x@),
            Err(e) => Err(e@),
        },
{
    match value_as_array(&t) {
        Ok(items) => {
            if items.len() == 0 {
                assert(items@.map_values(|x: toml::Value| toml_value(x)) =~= Seq::<TomlTree>::empty());
                return Ok(Extend::default());
            } else {
                let ghost vs = items@.map_values(|x: toml::Value| toml_value(x));
                assert(vs.len() > 0);
                assert(vs != Seq::<TomlTree>::empty());
                assert(decode_extend(toml_value(t)) == decode_extend_table(toml_value(t)));
            }
        },
        Err(_) => {
            assert(decode_extend(toml_value(t)) == decode_extend_table(toml_value(t)));
        },
    }
    match value_as_table(&t) {
        Ok(es) => {
            let ghost gs = entry_trees(es@);
            let ghost step = extend_step();
            let ghost init = empty_extend();
            let mut x = Extend::default();
            for e in it: es
                invariant
                    gs == entry_trees(it.seq()),
                    read_as_table(toml_value(t)) == Ok::<Seq<(Seq<char>, TomlTree)>, Seq<char>>(gs),
                    step == extend_step(),
                    decode_extend(toml_value(t)) == decode_extend_table(toml_value(t)),
                    init == empty_extend(),
                    fold_entries(init, gs.take(it.index()), step) == Ok::<ExtendModel, Mismatch>(
                        x@,
                    ),
            {
                let ghost i = it.index();
                proof {
                    lemma_fold_next(init, gs, step, i);
                }
                assert(gs[i] == (e.0@, toml_value(e.1)));
                let (k, v) = e;
                let ks = k.as_str();
                let target: Option<&str> = if str_eq(ks, "colors") {
                    Some("colors")
                } else if str_eq(ks, "spacing") {
                    Some("spacing")
                } else if str_eq(ks, "sizes") {
                    Some("sizes")
                } else if str_eq(ks, "fonts") {
                    Some("fonts")
                } else if str_eq(ks, "text") {
                    Some("text")
                } else if str_eq(ks, "radius") {
                    Some("radius")
                } else if str_eq(ks, "shadows") {
                    Some("shadows")
                } else {
                    None
                };
                match target {
                    Some(_) => {
                        match read_tokens("extend", ks, v) {
                            Ok(m) => {
                                if str_eq(ks, "colors") {
                                    x.colors = m;
                                } else if str_eq(ks, "spacing") {
                                    x.spacing = m;
                                } else if str_eq(ks, "sizes") {
                                    x.sizes = m;
                                } else if str_eq(ks, "fonts") {
                                    x.fonts = m;
                                } else if str_eq(ks, "text") {
                                    x.text = m;
                                } else if str_eq(ks, "radius") {
                                    x.radius = m;
                                } else {
                                    x.shadows = m;
                                }
                            },
                            Err(err) => {
                                proof {
                                    lemma_fold_stops(init, gs, step, i);
                                }
                                return Err(err);
                            },
                        }
                    },
                    None => {},
                }
            }
            assert(gs.take(gs.len() as int) == gs);
            Ok(x)
        },
        Err(msg) => Err(type_mismatch("", "extend", msg)),
    }
}


/// `[options]` as plain values.
pub struct OptionsModel {
    pub output: Seq<char>,
    pub content: Seq<Seq<char>>,
    pub minify: bool,
    pub base: Seq<char>,
    pub prefix: Seq<char>,
    pub source_comments: bool,
    pub dedup: bool,
    pub unknown: Seq<(Seq<char>, TomlTree)>,
}

/// The `[options]` table: where the CSS goes, which files are scanned for classes,
/// and how the CSS is written. Keys it does not know are kept in `unknown`.
#[derive(Debug, Clone)]
pub struct Options {
    pub output: String,
    pub content: Vec<String>,
    pub minify: bool,
    pub base: String,
    pub prefix: String,
    pub source_comments: bool,
    pub dedup: bool,
    pub unknown: Vec<(String, toml::Value)>,
}

impl View for Options {
    type V = OptionsModel;

    open spec fn view(&self) -> OptionsModel {
        OptionsModel {
            output: self.output@,
            content: string_views(self.content@),
            minify: self.minify,
            base: self.base@,
            prefix: self.prefix@,
            source_comments: self.source_comments,
            dedup: self.dedup,
            unknown: entry_trees(self.unknown@),
        }
    }
}

/// The options of a preset that sets none.
pub open spec fn default_options() -> OptionsModel {
    OptionsModel {
        output: "dist/preset.css"@,
        content: Seq::empty(),
        minify: false,
        base: "minimal"@,
        prefix: Seq::empty(),
        source_comments: false,
        dedup: true,
        unknown: Seq::empty(),
    }
}

/// Where the CSS goes when `output` is not set.
pub fn default_output() -> (r: String)
    ensures
        r@ == "dist/preset.css"@,
{
    owned("dist/preset.css")
}

/// The base layer used when `base` is not set.
pub fn default_base() -> (r: String)
    ensures
        r@ == "minimal"@,
{
    owned("minimal")
}

/// The value of the options that are on unless set.
pub fn default_true() -> (r: bool)
    ensures
        r,
{
    true
}

impl Default for Options {
    fn default() -> (r: Options)
        ensures
            r@ == default_options(),
    {
        let o = Options {
            output: default_output(),
            content: Vec::new(),
            minify: false,
            base: default_base(),
            prefix: String::new(),
            source_comments: false,
            dedup: default_true(),
            unknown: Vec::new(),
        };
        assert(o@.content =~= Seq::<Seq<char>>::empty());
        assert(o@.unknown =~= Seq::<(Seq<char>, TomlTree)>::empty());
        o
    }
}

/// A string-valued option.
pub open spec fn option_string(k: Seq<char>, v: TomlTree) -> Result<Seq<char>, Mismatch> {
    match read_as_string(v) {
        Ok(s) => Ok(s),
        Err(msg) => Err(mismatch("options"@, k, msg)),
    }
}

/// A boolean option.
pub open spec fn option_bool(k: Seq<char>, v: TomlTree) -> Result<bool, Mismatch> {
    match read_as_bool(v) {
        Ok(b) => Ok(b),
        Err(msg) => Err(mismatch("options"@, k, msg)),
    }
}

/// One entry of `[options]`.
pub open spec fn options_step() -> spec_fn(OptionsModel, Seq<char>, TomlTree) -> Result<
    OptionsModel,
    Mismatch,
> {
    |o: OptionsModel, k: Seq<char>, v: TomlTree|
        if k == "output"@ {
            match option_string(k, v) {
                Ok(s) => Ok(OptionsModel { output: s, ..o }),
                Err(e) => Err(e),
            }
        } else if k == "content"@ {
            match decode_strings("options"@, k, v) {
                Ok(c) => Ok(OptionsModel { content: c, ..o }),
                Err(e) => Err(e),
            }
        } else if k == "minify"@ {
            match option_bool(k, v) {
                Ok(b) => Ok(OptionsModel { minify: b, ..o }),
                Err(e) => Err(e),
            }
        } else if k == "base"@ {
            match option_string(k, v) {
                Ok(s) => Ok(OptionsModel { base: s, ..o }),
                Err(e) => Err(e),
            }
        } else if k == "prefix"@ {
            match option_string(k, v) {
                Ok(s) => Ok(OptionsModel { prefix: s, ..o }),
                Err(e) => Err(e),
            }
        } else if k == "source_comments"@ {
            match option_bool(k, v) {
                Ok(b) => Ok(OptionsModel { source_comments: b, ..o }),
                Err(e) => Err(e),
            }
        } else if k == "dedup"@ {
            match option_bool(k, v) {
                Ok(b) => Ok(OptionsModel { dedup: b, ..o }),
                Err(e) => Err(e),
            }
        } else {
            Ok(OptionsModel { unknown: o.unknown.push((k, v)), ..o })
        }
}

/// The value of `options` read as `[options]`, starting from the defaults.
pub open spec fn decode_options(t: TomlTree) -> Result<OptionsModel, Mismatch> {
    match read_as_table(t) {
        Ok(es) => fold_entries(default_options(), es, options_step()),
        Err(msg) => Err(mismatch(""@, "options"@, msg)),
    }
}

fn read_option_string(k: &str, v: toml::Value) -> (r: Result<String, TypeMismatch>)
    ensures
        option_string(k@, toml_value(v)) == match r {
            Ok(s) => Ok(s@),
            Err(e) => Err(e@),
        },
{
    match value_as_string(&v) {
        Ok(s) => Ok(s),
        Err(msg) => Err(type_mismatch("options", k, msg)),
    }
}

fn read_option_bool(k: &str, v: toml::Value) -> (r: Result<bool, TypeMismatch>)
    ensures
        option_bool(k@, toml_value(v)) == match r {
            Ok(b) => Ok(b),
            Err(e) => Err(e@),
        },
{
    match value_as_bool(&v) {
        Ok(b) => Ok(b),
        Err(msg) => Err(type_mismatch("options", k, msg)),
    }
}

/// Reads `[options]` out of `t`.
pub fn read_options(t: toml::Value) -> (r: Result<Options, TypeMismatch>)
    ensures
        decode_options(toml_value(t)) == match r {
            Ok(o) => Ok(o@),
            Err(e) => Err(e@),
        },
{
    match value_as_table(&t) {
        Ok(es) => {
            let ghost gs = entry_trees(es@);
            let ghost step = options_step();
            let ghost init = default_options();
            let mut o = Options::default();
            for e in it: es
                invariant
                    gs == entry_trees(it.seq()),
                    read_as_table(toml_value(t)) == Ok::<Seq<(Seq<char>, TomlTree)>, Seq<char>>(gs),
                    step == options_step(),
                    init == default_options(),
                    fold_entries(init, gs.take(it.index()), step) == Ok::<OptionsModel, Mismatch>(
                        o@,
                    ),
            {
                let ghost i = it.index();
                proof {
                    lemma_fold_next(init, gs, step, i);
                }
                assert(gs[i] == (e.0@, toml_value(e.1)));
                let (k, v) = e;
                let ks = k.as_str();
                let mut failed: Option<TypeMismatch> = None;
                if str_eq(ks, "output") {
                    match read_option_string(ks, v) {
                        Ok(s) => o.output = s,
                        Err(err) => failed = Some(err),
                    }
                } else if str_eq(ks, "content") {
                    match read_strings("options", ks, v) {
                        Ok(c) => o.content = c,
                        Err(err) => failed = Some(err),
                    }
                } else if str_eq(ks, "minify") {
                    match read_option_bool(ks, v) {
                        Ok(b) => o.minify = b,
                        Err(err) => failed = Some(err),
                    }
                } else if str_eq(ks, "base") {
                    match read_option_string(ks, v) {
                        Ok(s) => o.base = s,
                        Err(err) => failed = Some(err),
                    }
                } else if str_eq(ks, "prefix") {
                    match read_option_string(ks, v) {
                        Ok(s) => o.prefix = s,
                        Err(err) => failed = Some(err),
                    }
                } else if str_eq(ks, "source_comments") {
                    match read_option_bool(ks, v) {
                        Ok(b) => o.source_comments = b,
                        Err(err) => failed = Some(err),
                    }
                } else if str_eq(ks, "dedup") {
                    match read_option_bool(ks, v) {
                        Ok(b) => o.dedup = b,
                        Err(err) => failed = Some(err),
                    }
                } else {
                    let ghost prev = o.unknown@;
                    let ghost kv = k@;
                    let ghost vv = toml_value(v);
                    o.unknown.push((k, v));
                    assert(entry_trees(o.unknown@) =~= entry_trees(prev).push((kv, vv)));
                }
                match failed {
                    Some(err) => {
                        proof {
                            lemma_fold_stops(init, gs, step, i);
                        }
                        return Err(err);
                    },
                    None => {},
                }
            }
            assert(gs.take(gs.len() as int) == gs);
            Ok(o)
        },
        Err(msg) => Err(type_mismatch("", "options", msg)),
    }
}


/// A preset as plain values: each group as written (if it was), the extensions,
/// the variants, the raw utilities, and the top-level keys it does not know.
pub struct PresetModel {
    pub options: OptionsModel,
    pub colors: Option<Seq<(Seq<char>, Seq<char>)>>,
    pub spacing: Option<Seq<(Seq<char>, Seq<char>)>>,
    pub sizes: Option<Seq<(Seq<char>, Seq<char>)>>,
    pub fonts: Option<Seq<(Seq<char>, Seq<char>)>>,
    pub text: Option<Seq<(Seq<char>, Seq<char>)>>,
    pub radius: Option<Seq<(Seq<char>, Seq<char>)>>,
    pub shadows: Option<Seq<(Seq<char>, Seq<char>)>>,
    pub breakpoints: Option<Seq<(Seq<char>, Seq<char>)>>,
    pub extend: ExtendModel,
    pub variants: Option<Seq<(Seq<char>, Seq<Seq<char>>)>>,
    pub utilities: Seq<(Seq<char>, Seq<char>)>,
    pub unknown: Seq<(Seq<char>, TomlTree)>,
}

/// A preset file as read: what it sets, with nothing merged in yet.
#[derive(Debug)]
pub struct RawPreset {
    pub options: Options,
    pub colors: Option<TokenMap>,
    pub spacing: Option<TokenMap>,
    pub sizes: Option<TokenMap>,
    pub fonts: Option<TokenMap>,
    pub text: Option<TokenMap>,
    pub radius: Option<TokenMap>,
    pub shadows: Option<TokenMap>,
    pub breakpoints: Option<TokenMap>,
    pub extend: Extend,
    pub variants: Option<VariantMap>,
    pub utilities: TokenMap,
    pub unknown: Vec<(String, toml::Value)>,
}

/// An optional token group as plain values.
pub open spec fn opt_tokens(m: Option<TokenMap>) -> Option<Seq<(Seq<char>, Seq<char>)>> {
    match m {
        Some(t) => Some(token_entries(t)),
        None => None,
    }
}

/// An optional variant map as plain values.
pub open spec fn opt_variants(m: Option<VariantMap>) -> Option<Seq<(Seq<char>, Seq<Seq<char>>)>> {
    match m {
        Some(t) => Some(variant_entries(t)),
        None => None,
    }
}

impl View for RawPreset {
    type V = PresetModel;

    open spec fn view(&self) -> PresetModel {
        PresetModel {
            options: self.options@,
            colors: opt_tokens(self.colors),
            spacing: opt_tokens(self.spacing),
            sizes: opt_tokens(self.sizes),
            fonts: opt_tokens(self.fonts),
            text: opt_tokens(self.text),
            radius: opt_tokens(self.radius),
            shadows: opt_tokens(self.shadows),
            breakpoints: opt_tokens(self.breakpoints),
            extend: self.extend@,
            variants: opt_variants(self.variants),
            utilities: token_entries(self.utilities),
            unknown: entry_trees(self.unknown@),
        }
    }
}

/// The preset that sets nothing.
pub open spec fn empty_preset() -> PresetModel {
    PresetModel {
        options: default_options(),
        colors: None,
        spacing: None,
        sizes: None,
        fonts: None,
        text: None,
        radius: None,
        shadows: None,
        breakpoints: None,
        extend: empty_extend(),
        variants: None,
        utilities: Seq::empty(),
        unknown: Seq::empty(),
    }
}

impl Default for RawPreset {
    /// The preset that sets nothing.
    fn default() -> (r: RawPreset)
        ensures
            r@ == empty_preset(),
    {
        let r = RawPreset {
            options: Options::default(),
            colors: None,
            spacing: None,
            sizes: None,
            fonts: None,
            text: None,
            radius: None,
            shadows: None,
            breakpoints: None,
            extend: Extend::default(),
            variants: None,
            utilities: token_map_new(),
            unknown: Vec::new(),
        };
        assert(r@.unknown =~= Seq::<(Seq<char>, TomlTree)>::empty());
        r
    }
}

/// `p` with the group named `k` (one of the eight token groups) set to `m`.
pub open spec fn with_group(p: PresetModel, k: Seq<char>, m: Seq<(Seq<char>, Seq<char>)>) -> PresetModel {
    if k == "colors"@ {
        PresetModel { colors: Some(m), ..p }
    } else if k == "spacing"@ {
        PresetModel { spacing: Some(m), ..p }
    } else if k == "sizes"@ {
        PresetModel { sizes: Some(m), ..p }
    } else if k == "fonts"@ {
        PresetModel { fonts: Some(m), ..p }
    } else if k == "text"@ {
        PresetModel { text: Some(m), ..p }
    } else if k == "radius"@ {
        PresetModel { radius: Some(m), ..p }
    } else if k == "shadows"@ {
        PresetModel { shadows: Some(m), ..p }
    } else {
        PresetModel { breakpoints: Some(m), ..p }
    }
}

/// Whether `k` names one of the eight token groups that a preset can set.
pub open spec fn is_group_table(k: Seq<char>) -> bool {
    ||| k == "colors"@
    ||| k == "spacing"@
    ||| k == "sizes"@
    ||| k == "fonts"@
    ||| k == "text"@
    ||| k == "radius"@
    ||| k == "shadows"@
    ||| k == "breakpoints"@
}

/// One top-level entry of the preset file.
pub open spec fn preset_step() -> spec_fn(PresetModel, Seq<char>, TomlTree) -> Result<
    PresetModel,
    Mismatch,
> {
    |p: PresetModel, k: Seq<char>, v: TomlTree|
        if k == "options"@ {
            match decode_options(v) {
                Ok(o) => Ok(PresetModel { options: o, ..p }),
                Err(e) => Err(e),
            }
        } else if is_group_table(k) {
            match decode_tokens(""@, k, v) {
                Ok(m) => Ok(with_group(p, k, m)),
                Err(e) => Err(e),
            }
        } else if k == "extend"@ {
            match decode_extend(v) {
                Ok(x) => Ok(PresetModel { extend: x, ..p }),
                Err(e) => Err(e),
            }
        } else if k == "variants"@ {
            match decode_variants(v) {
                Ok(m) => Ok(PresetModel { variants: Some(m), ..p }),
                Err(e) => Err(e),
            }
        } else if k == "utilities"@ {
            match decode_tokens(""@, k, v) {
                Ok(m) => Ok(PresetModel { utilities: m, ..p }),
                Err(e) => Err(e),
            }
        } else {
            Ok(PresetModel { unknown: p.unknown.push((k, v)), ..p })
        }
}

/// A document's top-level entries read as a preset.
pub open spec fn decode_preset(es: Seq<(Seq<char>, TomlTree)>) -> Result<PresetModel, Mismatch> {
    fold_entries(empty_preset(), es, preset_step())
}

/// Reads a preset out of a document's top-level entries.
pub fn read_preset(es: Vec<(String, toml::Value)>) -> (r: Result<RawPreset, TypeMismatch>)
    ensures
        decode_preset(entry_trees(es@)) == match r {
            Ok(p) => Ok(p@),
            Err(e) => Err(e@),
        },
{
    let ghost gs = entry_trees(es@);
    let ghost step = preset_step();
    let ghost init = empty_preset();
    let mut p = RawPreset::default();
    for e in it: es
        invariant
            gs == entry_trees(it.seq()),
            step == preset_step(),
            init == empty_preset(),
            fold_entries(init, gs.take(it.index()), step) == Ok::<PresetModel, Mismatch>(p@),
    {
        let ghost i = it.index();
        proof {
            lemma_fold_next(init, gs, step, i);
        }
        assert(gs[i] == (e.0@, toml_value(e.1)));
        let (k, v) = e;
        let ks = k.as_str();
        let mut failed: Option<TypeMismatch> = None;
        if str_eq(ks, "options") {
            match read_options(v) {
                Ok(o) => p.options = o,
                Err(err) => failed = Some(err),
            }
        } else if str_eq(ks, "colors") || str_eq(ks, "spacing") || str_eq(ks, "sizes") || str_eq(
            ks,
            "fonts",
        ) || str_eq(ks, "text") || str_eq(ks, "radius") || str_eq(ks, "shadows") || str_eq(
            ks,
            "breakpoints",
        ) {
            match read_tokens("", ks, v) {
                Ok(m) => {
                    if str_eq(ks, "colors") {
                        p.colors = Some(m);
                    } else if str_eq(ks, "spacing") {
                        p.spacing = Some(m);
                    } else if str_eq(ks, "sizes") {
                        p.sizes = Some(m);
                    } else if str_eq(ks, "fonts") {
                        p.fonts = Some(m);
                    } else if str_eq(ks, "text") {
                        p.text = Some(m);
                    } else if str_eq(ks, "radius") {
                        p.radius = Some(m);
                    } else if str_eq(ks, "shadows") {
                        p.shadows = Some(m);
                    } else {
                        p.breakpoints = Some(m);
                    }
                },
                Err(err) => failed = Some(err),
            }
        } else if str_eq(ks, "extend") {
            match read_extend(v) {
                Ok(x) => p.extend = x,
                Err(err) => failed = Some(err),
            }
        } else if str_eq(ks, "variants") {
            match read_variants(v) {
                Ok(m) => p.variants = Some(m),
                Err(err) => failed = Some(err),
            }
        } else if str_eq(ks, "utilities") {
            match read_tokens("", ks, v) {
                Ok(m) => p.utilities = m,
                Err(err) => failed = Some(err),
            }
        } else {
            let ghost prev = p.unknown@;
            let ghost kv = k@;
            let ghost vv = toml_value(v);
            p.unknown.push((k, v));
            assert(entry_trees(p.unknown@) =~= entry_trees(prev).push((kv, vv)));
        }
        match failed {
            Some(err) => {
                proof {
                    lemma_fold_stops(init, gs, step, i);
                }
                return Err(err);
            },
            None => {},
        }
    }
    assert(gs.take(gs.len() as int) == gs);
    Ok(p)
}


/// The top-level tables a preset may have.
pub open spec fn known_groups() -> Seq<Seq<char>> {
    seq![
        "options"@,
        "colors"@,
        "spacing"@,
        "sizes"@,
        "fonts"@,
        "text"@,
        "radius"@,
        "shadows"@,
        "breakpoints"@,
        "extend"@,
        "variants"@,
        "utilities"@,
    ]
}

/// The keys `[options]` knows.
pub open spec fn known_options() -> Seq<Seq<char>> {
    seq![
        "output"@,
        "content"@,
        "minify"@,
        "base"@,
        "prefix"@,
        "source_comments"@,
        "dedup"@,
    ]
}

/// The top-level tables a preset may have, in the order suggestions are sought.
pub fn known_group_names() -> (r: Vec<String>)
    ensures
        string_views(r@) == known_groups(),
{
    let r = vec![
        owned("options"),
        owned("colors"),
        owned("spacing"),
        owned("sizes"),
        owned("fonts"),
        owned("text"),
        owned("radius"),
        owned("shadows"),
        owned("breakpoints"),
        owned("extend"),
        owned("variants"),
        owned("utilities"),
    ];
    assert(string_views(r@) =~= known_groups());
    r
}

/// The keys `[options]` knows, in the order suggestions are sought.
pub fn known_option_names() -> (r: Vec<String>)
    ensures
        string_views(r@) == known_options(),
{
    let r = vec![
        owned("output"),
        owned("content"),
        owned("minify"),
        owned("base"),
        owned("prefix"),
        owned("source_comments"),
        owned("dedup"),
    ];
    assert(string_views(r@) =~= known_options());
    r
}

/// The number of newline bytes in `b`.
pub open spec fn newlines(b: Seq<u8>) -> nat
    decreases b.len(),
{
    if b.len() == 0 {
        0
    } else {
        newlines(b.drop_last()) + if b.last() == 10u8 {
            1nat
        } else {
            0nat
        }
    }
}

/// How many lines `str::lines` finds in text with these bytes.
pub open spec fn line_count(b: Seq<u8>) -> nat {
    newlines(b) + if b.len() > 0 && b.last() != 10u8 {
        1nat
    } else {
        0nat
    }
}

/// The line reported for a syntax error starting at byte `offset`: the lines before
/// it, counting the one it is on, and at least 1.
pub open spec fn offset_line(bytes: Seq<u8>, offset: usize) -> usize {
    let k = if offset < bytes.len() {
        offset as int
    } else {
        bytes.len() as int
    };
    let n = line_count(bytes.take(k));
    if n < 1 {
        1
    } else {
        n as usize
    }
}

/// The diagnostic for a document that is not TOML.
pub open spec fn syntax_diag(bytes: Seq<u8>, message: Seq<char>, offset: Option<usize>) -> DiagView {
    let d = plain_diag("invalid TOML: "@ + message);
    match offset {
        Some(o) => diag_at(d, offset_line(bytes, o)),
        None => d,
    }
}

/// How a value of the wrong type is reported: the deserializer's message.
pub open spec fn mismatch_message(m: Mismatch) -> Seq<char> {
    "invalid TOML: "@ + m.message
}

/// The diagnostic for a value of the wrong type, on the line that assigns it.
pub open spec fn mismatch_diag(src: Seq<char>, m: Mismatch) -> DiagView {
    diag_at_opt(plain_diag(mismatch_message(m)), located(src, m.section, m.key))
}

/// The diagnostic for an unknown top-level table.
pub open spec fn unknown_table_diag(src: Seq<char>, k: Seq<char>) -> DiagView {
    let d = diag_at_opt(plain_diag("unknown table ["@ + k + "]"@), located(src, ""@, k));
    match suggestion(k, known_groups()) {
        Some(s) => diag_help_opt(d, Some("did you mean ["@ + s + "]?"@)),
        None => d,
    }
}

/// The diagnostic for an unknown key in `[options]`.
pub open spec fn unknown_option_diag(src: Seq<char>, k: Seq<char>) -> DiagView {
    let d = diag_at_opt(plain_diag("unknown option '"@ + k + "'"@), located(src, "options"@, k));
    match suggestion(k, known_options()) {
        Some(s) => diag_help_opt(d, Some("did you mean '"@ + s + "'?"@)),
        None => d,
    }
}

/// What reading `src` as a preset gives: the preset and the warnings about keys it does
/// not know (tables first, then options, each in document order), or the error that
/// stopped it.
pub open spec fn parse_spec(src: &str) -> Result<(PresetModel, Seq<DiagView>), Seq<DiagView>> {
    match toml_document(src@) {
        TomlOutcome::Failed(message, offset) => Err(
            seq![syntax_diag(src.spec_bytes(), message, offset)],
        ),
        TomlOutcome::Parsed(es) => match decode_preset(es) {
            Err(m) => Err(seq![mismatch_diag(src@, m)]),
            Ok(p) => Ok(
                (
                    p,
                    p.unknown.map_values(|e: (Seq<char>, TomlTree)| unknown_table_diag(src@, e.0))
                        + p.options.unknown.map_values(
                        |e: (Seq<char>, TomlTree)| unknown_option_diag(src@, e.0),
                    ),
                ),
            ),
        },
    }
}

/// The lines that `str::lines` finds in the first `k` bytes of `b`.
fn line_count_upto(b: &[u8], k: usize) -> (r: usize)
    requires
        k <= b@.len(),
    ensures
        r == line_count(b@.take(k as int)),
{
    let mut n: usize = 0;
    let mut i: usize = 0;
    while i < k
        invariant
            i <= k <= b@.len(),
            n == newlines(b@.take(i as int)),
            n <= i,
            i > 0 && b@[i - 1] != 10u8 ==> n < i,
        decreases k - i,
    {
        assert(b@.take(i + 1).drop_last() == b@.take(i as int));
        if b[i] == 10u8 {
            n += 1;
        }
        i += 1;
    }
    if k > 0 && b[k - 1] != 10u8 {
        n + 1
    } else {
        n
    }
}

fn syntax_error(src: &str, message: &str, offset: Option<usize>) -> (r: Diagnostic)
    ensures
        r@ == syntax_diag(src.spec_bytes(), message@, offset),
{
    let mut m = owned("invalid TOML: ");
    push_str(&mut m, message);
    let d = Diagnostic::error(m);
    match offset {
        Some(o) => {
            let bytes = src.as_bytes();
            let k = if o < bytes.len() {
                o
            } else {
                bytes.len()
            };
            let n = line_count_upto(bytes, k);
            let line = if n < 1 {
                1
            } else {
                n
            };
            d.at(line)
        },
        None => d,
    }
}

fn mismatch_error(src: &str, m: &TypeMismatch) -> (r: Diagnostic)
    ensures
        r@ == mismatch_diag(src@, m@),
{
    let mut msg = owned("invalid TOML: ");
    push_str(&mut msg, m.message.as_str());
    let d = Diagnostic::error(msg);
    match locate(src, m.section.as_str(), m.key.as_str()) {
        Some(line) => d.at(line),
        None => d,
    }
}

fn unknown_table_error(src: &str, k: &str, groups: &Vec<String>) -> (r: Diagnostic)
    requires
        string_views(groups@) == known_groups(),
    ensures
        r@ == unknown_table_diag(src@, k@),
{
    let mut msg = owned("unknown table [");
    push_str(&mut msg, k);
    push_str(&mut msg, "]");
    let mut d = Diagnostic::error(msg);
    match locate(src, "", k) {
        Some(line) => d = d.at(line),
        None => {},
    }
    assert(groups@.map_values(|c: String| c@) == string_views(groups@));
    match did_you_mean(k, groups.as_slice()) {
        Some(s) => {
            let mut h = owned("did you mean [");
            push_str(&mut h, s.as_str());
            push_str(&mut h, "]?");
            d = d.with_help(h);
        },
        None => {},
    }
    d
}

fn unknown_option_error(src: &str, k: &str, options: &Vec<String>) -> (r: Diagnostic)
    requires
        string_views(options@) == known_options(),
    ensures
        r@ == unknown_option_diag(src@, k@),
{
    let mut msg = owned("unknown option '");
    push_str(&mut msg, k);
    push_str(&mut msg, "'");
    let mut d = Diagnostic::error(msg);
    match locate(src, "options", k) {
        Some(line) => d = d.at(line),
        None => {},
    }
    assert(options@.map_values(|c: String| c@) == string_views(options@));
    match did_you_mean(k, options.as_slice()) {
        Some(s) => {
            let mut h = owned("did you mean '");
            push_str(&mut h, s.as_str());
            push_str(&mut h, "'?");
            d = d.with_help(h);
        },
        None => {},
    }
    d
}

/// Reads `src` as a preset: the preset with a warning for each top-level table and
/// each option it does not know, or the error that stops it (text that is not TOML,
/// or a value of the wrong type).
pub fn parse(src: &str) -> (r: Result<(RawPreset, Vec<Diagnostic>), Vec<Diagnostic>>)
    ensures
        parse_spec(src) == match r {
            Ok((p, ds)) => Ok((p@, diag_views(ds@))),
            Err(ds) => Err(diag_views(ds@)),
        },
{
    match read_document(src) {
        Err(e) => {
            let d = syntax_error(src, e.message.as_str(), e.offset);
            let ds = vec![d];
            assert(diag_views(ds@) =~= seq![d@]);
            Err(ds)
        },
        Ok(es) => {
            let ghost gs = entry_trees(es@);
            match read_preset(es) {
                Err(m) => {
                    let d = mismatch_error(src, &m);
                    let ds = vec![d];
                    assert(diag_views(ds@) =~= seq![d@]);
                    Err(ds)
                },
                Ok(p) => {
                    let groups = known_group_names();
                    let options = known_option_names();
                    let ghost pv = p@;
                    let mut ds: Vec<Diagnostic> = Vec::new();
                    let mut i: usize = 0;
                    while i < p.unknown.len()
                        invariant
                            pv == p@,
                            string_views(groups@) == known_groups(),
                            i <= p.unknown@.len(),
                            diag_views(ds@) == pv.unknown.take(i as int).map_values(
                                |e: (Seq<char>, TomlTree)| unknown_table_diag(src@, e.0),
                            ),
                        decreases p.unknown@.len() - i,
                    {
                        let d = unknown_table_error(src, p.unknown[i].0.as_str(), &groups);
                        let ghost prev = ds@;
                        ds.push(d);
                        assert(pv.unknown[i as int].0 == p.unknown@[i as int].0@);
                        assert(diag_views(ds@) =~= diag_views(prev).push(d@));
                        assert(pv.unknown.take(i + 1) == pv.unknown.take(i as int).push(
                            pv.unknown[i as int],
                        ));
                        i += 1;
                    }
                    assert(pv.unknown.take(p.unknown@.len() as int) == pv.unknown);
                    let ghost tables = diag_views(ds@);
                    let mut j: usize = 0;
                    while j < p.options.unknown.len()
                        invariant
                            pv == p@,
                            string_views(options@) == known_options(),
                            j <= p.options.unknown@.len(),
                            diag_views(ds@) == tables + pv.options.unknown.take(j as int).map_values(
                                |e: (Seq<char>, TomlTree)| unknown_option_diag(src@, e.0),
                            ),
                        decreases p.options.unknown@.len() - j,
                    {
                        let d = unknown_option_error(src, p.options.unknown[j].0.as_str(), &options);
                        let ghost prev = ds@;
                        ds.push(d);
                        assert(pv.options.unknown[j as int].0 == p.options.unknown@[j as int].0@);
                        assert(diag_views(ds@) =~= diag_views(prev).push(d@));
                        assert(pv.options.unknown.take(j + 1) == pv.options.unknown.take(
                            j as int,
                        ).push(pv.options.unknown[j as int]));
                        j += 1;
                    }
                    assert(pv.options.unknown.take(p.options.unknown@.len() as int)
                        == pv.options.unknown);
                    Ok((p, ds))
                },
            }
        },
    }
}

/// Whether `value` is acceptable as a color: `#` and 3, 4, 6 or 8 hex digits, or any
/// other non-empty text, once surrounding whitespace is trimmed.
pub open spec fn valid_color(value: Seq<char>) -> bool {
    let v = crate::text::trim(value);
    if v.len() > 0 && v[0] == '#' {
        let hex = v.drop_first();
        (hex.len() == 3 || hex.len() == 4 || hex.len() == 6 || hex.len() == 8) && forall|i: int|
            0 <= i < hex.len() ==> is_hex_digit(#[trigger] hex[i])
    } else {
        v.len() > 0
    }
}

/// An ASCII hexadecimal digit.
pub open spec fn is_hex_digit(c: char) -> bool {
    ('0' <= c && c <= '9') || ('a' <= c && c <= 'f') || ('A' <= c && c <= 'F')
}

/// Whether `value` is acceptable as a color.
pub fn validate_color(value: &str) -> (r: bool)
    ensures
        r == valid_color(value@),
{
    let all = crate::text::chars_of(value);
    let v = crate::text::trimmed(&all);
    if v.len() > 0 && v[0] == '#' {
        let n = v.len() - 1;
        assert(v@.drop_first().len() == n);
        if !(n == 3 || n == 4 || n == 6 || n == 8) {
            return false;
        }
        let mut i: usize = 1;
        while i < v.len()
            invariant
                1 <= i <= v.len(),
                v@.len() > 0,
                v@ == crate::text::trim(value@),
                v@[0] == '#',
                forall|j: int| 0 <= j < i - 1 ==> is_hex_digit(#[trigger] v@.drop_first()[j]),
            decreases v.len() - i,
        {
            let c = v[i];
            if !(('0' <= c && c <= '9') || ('a' <= c && c <= 'f') || ('A' <= c && c <= 'F')) {
                assert(v@.drop_first()[i - 1] == c);
                return false;
            }
            i += 1;
        }
        true
    } else {
        v.len() > 0
    }
}

} // verus!
