//! The entry points offered to browsers: compile a preset to CSS, check a preset,
//! and hand out the defaults.
use vstd::prelude::*;

use crate::emit::join;
use crate::error::{diag_views, render, DiagView, Diagnostic};
use crate::text::{owned, push_str};
use crate::theme::DEFAULT_PRESET;
use crate::{build_css, compile_spec, compile_theme, css_of};

verus! {

broadcast use vstd::seq_lib::group_seq_properties;

/// Diagnostics as text, one after another on their own lines.
pub open spec fn report_text(ds: Seq<DiagView>) -> Seq<char> {
    join(ds.map_values(|d: DiagView| render(d)), "\n"@)
}

fn report(ds: &Vec<Diagnostic>) -> (r: String)
    ensures
        r@ == report_text(diag_views(ds@)),
{
    let ghost dv = diag_views(ds@);
    let ghost f = |d: DiagView| render(d);
    let mut out = String::new();
    let mut i: usize = 0;
    while i < ds.len()
        invariant
            dv == diag_views(ds@),
            f == (|d: DiagView| render(d)),
            i <= ds.len(),
            out@ == join(dv.take(i as int).map_values(f), "\n"@),
        decreases ds.len() - i,
    {
        let ghost before = out@;
        if i > 0 {
            push_str(&mut out, "\n");
        }
        let line = ds[i].to_string();
        push_str(&mut out, line.as_str());
        let ghost mm = dv.take(i + 1).map_values(f);
        assert(mm.drop_last() =~= dv.take(i as int).map_values(f));
        assert(mm.last() == f(dv[i as int]));
        if i > 0 {
            assert(out@ =~= before + "\n"@ + f(dv[i as int]));
        } else {
            assert(mm.len() == 1);
            assert(out@ =~= mm[0]);
        }
        i += 1;
    }
    assert(dv.take(ds.len() as int) == dv);
    out
}

/// What compiling a preset for the browser gives: the stylesheet, or the
/// diagnostics as text.
pub open spec fn compile_text(src: &str) -> Result<Seq<char>, Seq<char>> {
    match compile_spec(src) {
        Ok(t) => Ok(css_of(t, None)),
        Err(ds) => Err(report_text(ds)),
    }
}

/// Compiles a preset to its full stylesheet, or reports why it cannot.
pub fn compile(src: &str) -> (r: Result<String, String>)
    ensures
        compile_text(src) == match r {
            Ok(css) => Ok(css@),
            Err(msg) => Err(msg@),
        },
{
    match compile_theme(src) {
        Ok(theme) => Ok(build_css(&theme, None)),
        Err(ds) => Err(report(&ds)),
    }
}

/// The diagnostics of a preset as text; empty when it compiles.
pub fn validate_preset(src: &str) -> (r: String)
    ensures
        r@ == match compile_spec(src) {
            Ok(_) => Seq::<char>::empty(),
            Err(ds) => report_text(ds),
        },
{
    match compile_theme(src) {
        Ok(_) => String::new(),
        Err(ds) => report(&ds),
    }
}

/// The built-in defaults, as a preset file.
pub fn default_preset() -> (r: String)
    ensures
        r@ == DEFAULT_PRESET@,
{
    owned(DEFAULT_PRESET)
}

} // verus!
