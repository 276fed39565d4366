//! PresetCSS: a utility-first CSS framework configured by one flat preset file.
//! A preset is read (`preset`), merged with the built-in defaults and checked
//! (`theme`), expanded into rules (`generate`) and written out (`emit`).
pub mod describe;
pub mod emit;
pub mod error;
pub mod generate;
pub mod laws;
pub mod maps;
pub mod preset;
pub mod promises;
pub mod scan;
pub mod text;
pub mod theme;
pub mod toml_doc;
pub mod web;

use std::collections::HashSet;

use vstd::prelude::*;

pub use crate::error::Diagnostic;
pub use crate::generate::{generate, Rule};
pub use crate::theme::{resolve, ResolvedTheme, DEFAULT_PRESET};

use crate::emit::{css_spec, emit_css, EmitModel, EmitOptions};
use crate::error::{diag_views, DiagView};
use crate::generate::{generate_spec, used_set};
use crate::preset::{parse, parse_spec, OptionsModel};
use crate::theme::{resolve_spec, ThemeModel};

verus! {

/// The version written into generated stylesheets.
pub const VERSION: &'static str = "0.1.0";

/// What compiling a preset gives: the resolved theme when the preset reads, has no
/// unknown tables or options, and resolves cleanly; otherwise the warnings from
/// reading followed by the errors from resolving.
pub open spec fn compile_spec(src: &str) -> Result<ThemeModel, Seq<DiagView>> {
    match parse_spec(src) {
        Err(ds) => Err(ds),
        Ok((raw, diags)) => match resolve_spec(raw, src@) {
            Ok(t) => if diags.len() == 0 {
                Ok(t)
            } else {
                Err(diags)
            },
            Err(errs) => Err(diags + errs),
        },
    }
}

/// Reads, resolves and checks a preset.
pub fn compile_theme(src: &str) -> (r: Result<ResolvedTheme, Vec<Diagnostic>>)
    ensures
        compile_spec(src) == match r {
            Ok(t) => Ok(t@),
            Err(ds) => Err(diag_views(ds@)),
        },
{
    match parse(src) {
        Err(ds) => Err(ds),
        Ok((raw, diags)) => {
            let mut diags = diags;
            match resolve(raw, src) {
                Ok(theme) => {
                    if diags.len() == 0 {
                        Ok(theme)
                    } else {
                        Err(diags)
                    }
                },
                Err(errs) => {
                    let mut errs = errs;
                    let ghost a = diag_views(diags@);
                    let ghost b = diag_views(errs@);
                    diags.append(&mut errs);
                    assert(diag_views(diags@) =~= a + b);
                    Err(diags)
                },
            }
        },
    }
}

/// How a theme's stylesheet is written: as its options say, stamped with `VERSION`.
pub open spec fn emit_model(t: ThemeModel) -> EmitModel {
    EmitModel {
        minify: t.options.minify,
        source_comments: t.options.source_comments,
        dedup: t.options.dedup,
        base: t.options.base,
        version: VERSION@,
    }
}

/// The stylesheet of a theme: its rules (only used classes, when a set is given)
/// written out as its options say.
pub open spec fn css_of(t: ThemeModel, used: Option<Set<Seq<char>>>) -> Seq<char> {
    css_spec(generate_spec(t, used), emit_model(t))
}

/// The stylesheet of a theme.
pub fn build_css(theme: &ResolvedTheme, used: Option<&HashSet<String>>) -> (r: String)
    ensures
        r@ == css_of(theme@, used_set(used)),
{
    let rules = generate(theme, used);
    let opts = EmitOptions {
        minify: theme.options.minify,
        source_comments: theme.options.source_comments,
        dedup: theme.options.dedup,
        base: theme.options.base.clone(),
        version: crate::text::owned(VERSION),
    };
    emit_css(&rules, &opts)
}

/// A theme with the command line's `--minify` applied: minified when either asks.
pub open spec fn with_minify_flag(t: ThemeModel, flag: bool) -> ThemeModel {
    ThemeModel { options: OptionsModel { minify: t.options.minify || flag, ..t.options }, ..t }
}

/// Prepares a theme for a build: applies the command line's `--minify`, and says
/// whether content files are to be scanned for used classes (only when the preset
/// names content globs).
pub fn prepare_build(theme: &mut ResolvedTheme, minify_flag: bool) -> (scan: bool)
    ensures
        final(theme)@ == with_minify_flag(old(theme)@, minify_flag),
        scan == (old(theme)@.options.content.len() > 0),
{
    if minify_flag {
        theme.options.minify = true;
    }
    theme.options.content.len() > 0
}

} // verus!
