//! Tree-shaking: which generated classes occur in the content files, and which
//! class-like tokens there look like ours but are not generated. The caller walks
//! the files and reads them; this module decides which files count and what a file's
//! text contributes.
use std::collections::HashSet;

use aho_corasick::{AhoCorasick, MatchKind};
use globset::{Glob, GlobBuilder, GlobSet};
use vstd::prelude::*;

use crate::error::{
    diag_help_opt, diag_views, did_you_mean, plain_diag, suggestion, DiagView, Diagnostic,
};
use crate::maps::{
    string_set, string_set_contains, string_set_insert, string_set_new, string_views,
};
use crate::text::{
    chars_of, has_prefix, occurs_in, owned, push_char, push_str, split, split_chars, starts_with,
    string_of,
};

verus! {

broadcast use vstd::seq_lib::group_seq_properties;

#[verifier::external_type_specification]
#[verifier::external_body]
pub struct ExGlob(Glob);

#[verifier::external_type_specification]
#[verifier::external_body]
pub struct ExGlobSet(GlobSet);

#[verifier::external_type_specification]
#[verifier::external_body]
pub struct ExAhoCorasick(AhoCorasick);

/// Names why globset rejects a pattern parsed with this `backslash_escape` option
/// (its error's text), if it does.
pub uninterp spec fn glob_error(pattern: Seq<char>, backslash_escape: bool) -> Option<Seq<char>>;

/// Names the pattern a `Glob` was built from, with its `backslash_escape` option.
pub uninterp spec fn glob_source(g: Glob) -> (Seq<char>, bool);

/// Names why `globset::GlobSet::new` rejects globs with these patterns and options,
/// if it does.
pub uninterp spec fn glob_set_error(globs: Seq<(Seq<char>, bool)>) -> Option<Seq<char>>;

/// Names the patterns and options of the globs a `GlobSet` was built from, in order.
pub uninterp spec fn glob_set_sources(s: GlobSet) -> Seq<(Seq<char>, bool)>;

/// Names whether a glob of `pattern`, parsed with this `backslash_escape` option,
/// matches `path`, a path whose separators globset has already made `/`.
pub uninterp spec fn glob_match(pattern: Seq<char>, backslash_escape: bool, path: Seq<char>) -> bool;

/// Names why an Aho-Corasick automaton with standard semantics cannot be built over
/// these patterns (its error's text), if it cannot.
pub uninterp spec fn automaton_error(patterns: Seq<Seq<char>>) -> Option<Seq<char>>;

/// Names the patterns an Aho-Corasick automaton was built from, in order.
pub uninterp spec fn automaton_patterns(a: AhoCorasick) -> Seq<Seq<char>>;

/// `globset::GlobBuilder::new(pattern).backslash_escape(backslash_escape).build()`:
/// the glob, or its error's text. This is `Glob::new` with its one machine-dependent
/// default (`backslash_escape` is on unless `\` is a path separator) made explicit.
/// The glob remembers its pattern and option.
#[verifier::external_body]
fn new_glob(pattern: &str, backslash_escape: bool) -> (r: Result<Glob, String>)
    ensures
        match r {
            Ok(g) => glob_error(pattern@, backslash_escape) is None && glob_source(g) == (
                pattern@,
                backslash_escape,
            ),
            Err(m) => glob_error(pattern@, backslash_escape) == Some(m@),
        },
{
    GlobBuilder::new(pattern).backslash_escape(backslash_escape).build().map_err(|e| e.to_string())
}

/// `globset::GlobSet::new`: the set of the given globs, or its error's text.
#[verifier::external_body]
fn glob_set_new(globs: Vec<Glob>) -> (r: Result<GlobSet, String>)
    ensures
        match r {
            Ok(s) => glob_set_error(globs@.map_values(|g: Glob| glob_source(g))) is None
                && glob_set_sources(s) == globs@.map_values(|g: Glob| glob_source(g)),
            Err(m) => glob_set_error(globs@.map_values(|g: Glob| glob_source(g))) == Some(m@),
        },
{
    GlobSet::new(globs).map_err(|e| e.to_string())
}

/// A path with each `\` turned into `/` when `backslash_separates`, as globset
/// normalises paths on a platform where `\` is a separator.
pub open spec fn with_slashes(path: Seq<char>, backslash_separates: bool) -> Seq<char> {
    if backslash_separates {
        path.map_values(|c: char| if c == '\\' { '/' } else { c })
    } else {
        path
    }
}

/// Whether any of the glob patterns, parsed with this `backslash_escape` option,
/// matches the (normalised) path.
pub open spec fn set_matches(patterns: Seq<Seq<char>>, backslash_escape: bool, path: Seq<char>) -> bool {
    exists|i: int| 0 <= i < patterns.len() && #[trigger] glob_match(patterns[i], backslash_escape, path)
}

/// `globset::GlobSet::is_match` (true when any glob in the set matches), paired with
/// `std::path::is_separator('\\')`, whether this platform treats `\` as a path
/// separator. Before matching, globset turns each of the platform's separators into
/// `/` (`pathutil::normalize_path`); std's separators are `/` and, where the answer is
/// true, `\`. So the match is that of the path with `\` replaced by `/` exactly when
/// the answer is true. The answer depends on the machine and is not named.
#[verifier::external_body]
fn glob_set_is_match(s: &GlobSet, path: &str) -> (r: (bool, bool))
    ensures
        r.1 == exists|i: int|
            0 <= i < glob_set_sources(*s).len() && #[trigger] glob_match(
                glob_set_sources(*s)[i].0,
                glob_set_sources(*s)[i].1,
                with_slashes(path@, r.0),
            ),
{
    (std::path::is_separator('\\'), s.is_match(path))
}

/// Builds an Aho-Corasick automaton with standard match semantics over `patterns`,
/// or gives the error's text.
#[verifier::external_body]
fn build_automaton(patterns: &[String]) -> (r: Result<AhoCorasick, String>)
    ensures
        match r {
            Ok(a) => automaton_error(string_views(patterns@)) is None && automaton_patterns(a)
                == string_views(patterns@),
            Err(m) => automaton_error(string_views(patterns@)) == Some(m@),
        },
{
    AhoCorasick::builder().match_kind(MatchKind::Standard).build(patterns).map_err(|e| e.to_string())
}

/// `AhoCorasick::find_overlapping_iter`, each match taken by its pattern's index.
/// The crate documents it as reporting every match at every position, so every
/// index it gives is that of a pattern occurring in the text, and every pattern that
/// occurs is reported (an empty pattern occurs in every text, the empty one included). Overlapping search panics on automata without
/// standard semantics; the only automata here come from `build_automaton`, which
/// asks for them.
#[verifier::external_body]
fn overlapping_matches(a: &AhoCorasick, haystack: &str) -> (r: Vec<usize>)
    ensures
        forall|k: int|
            0 <= k < r@.len() ==> #[trigger] r@[k] < automaton_patterns(*a).len() && occurs_in(
                automaton_patterns(*a)[r@[k] as int],
                haystack@,
            ),
        forall|i: int|
            0 <= i < automaton_patterns(*a).len() && occurs_in(automaton_patterns(*a)[i], haystack@)
                ==> r@.contains(i as usize),
{
    a.find_overlapping_iter(haystack).map(|m| m.pattern().as_usize()).collect()
}

/// Patterns paired with one `backslash_escape` option.
pub open spec fn with_escape(pats: Seq<Seq<char>>, backslash_escape: bool) -> Seq<(Seq<char>, bool)> {
    pats.map_values(|p: Seq<char>| (p, backslash_escape))
}

/// Whether `x` holds no `\`.
pub open spec fn no_backslash(x: Seq<char>) -> bool {
    forall|i: int| 0 <= i < x.len() ==> x[i] != '\\'
}

proof fn lemma_slashes_fixed(x: Seq<char>, b: bool)
    requires
        no_backslash(x),
    ensures
        with_slashes(x, b) == x,
{
    if b {
        assert(with_slashes(x, b) =~= x);
    }
}

proof fn lemma_slashed_has_no_backslash(x: Seq<char>)
    ensures
        no_backslash(with_slashes(x, true)),
{
}

/// `path` with each `\` turned into `/`.
fn slashed(path: &str) -> (r: String)
    ensures
        r@ == with_slashes(path@, true),
{
    let cs = chars_of(path);
    let mut out = String::new();
    let mut i: usize = 0;
    while i < cs.len()
        invariant
            cs@ == path@,
            i <= cs.len(),
            out@ == with_slashes(cs@.take(i as int), true),
        decreases cs.len() - i,
    {
        let c = cs[i];
        if c == '\\' {
            push_char(&mut out, '/');
        } else {
            push_char(&mut out, c);
        }
        assert(with_slashes(cs@.take(i + 1), true) =~= with_slashes(cs@.take(i as int), true).push(
            if c == '\\' { '/' } else { c },
        ));
        i += 1;
    }
    assert(cs@.take(cs.len() as int) == cs@);
    out
}

/// The content globs of a preset, compiled: which files are scanned.
pub struct ContentMatcher {
    set: GlobSet,
    patterns: Ghost<Seq<Seq<char>>>,
    backslash_separates: bool,
}

impl ContentMatcher {
    /// The patterns the matcher was built from.
    pub closed spec fn patterns(&self) -> Seq<Seq<char>> {
        self.patterns@
    }

    /// Whether the matcher treats `\` as a path separator.
    pub closed spec fn backslash_separates(&self) -> bool {
        self.backslash_separates
    }

    pub closed spec fn wf(&self) -> bool {
        glob_set_sources(self.set) == with_escape(self.patterns@, !self.backslash_separates)
    }

    /// Compiles the content globs, or reports the first one that is not a glob (or
    /// the set that cannot be built). `backslash_separates` is whether `\` is a path
    /// separator on this platform (`std::path::is_separator('\\')`); where it is, a
    /// `\` in a glob separates paths, and elsewhere it escapes the next character, as
    /// `globset::Glob::new` parses it.
    pub fn new(globs: &[String], backslash_separates: bool) -> (r: Result<ContentMatcher, Vec<Diagnostic>>)
        ensures
            r is Ok <==> (forall|i: int|
                0 <= i < globs@.len() ==> glob_error((#[trigger] globs@[i])@, !backslash_separates)
                    is None) && glob_set_error(
                with_escape(string_views(globs@), !backslash_separates),
            ) is None,
            match r {
                Ok(m) => m.wf() && m.patterns() == string_views(globs@) && m.backslash_separates()
                    == backslash_separates,
                Err(ds) => diag_views(ds@) == seq![
                    content_glob_failure(string_views(globs@), !backslash_separates),
                ],
            },
    {
        let ghost pats = string_views(globs@);
        let escape = !backslash_separates;
        let mut compiled: Vec<Glob> = Vec::new();
        let mut i: usize = 0;
        while i < globs.len()
            invariant
                pats == string_views(globs@),
                escape == !backslash_separates,
                i <= globs.len(),
                compiled@.len() == i,
                forall|k: int| 0 <= k < i ==> #[trigger] glob_source(compiled@[k]) == (pats[k], escape),
                forall|k: int| 0 <= k < i ==> #[trigger] glob_error(pats[k], escape) is None,
            decreases globs.len() - i,
        {
            match new_glob(globs[i].as_str(), escape) {
                Ok(g) => compiled.push(g),
                Err(e) => {
                    let mut msg = owned("invalid content glob '");
                    push_str(&mut msg, globs[i].as_str());
                    push_str(&mut msg, "': ");
                    push_str(&mut msg, e.as_str());
                    let d = Diagnostic::error(msg);
                    proof {
                        lemma_first_bad_glob(pats, escape, i as int);
                    }
                    let ds = vec![d];
                    assert(diag_views(ds@) =~= seq![d@]);
                    return Err(ds);
                },
            }
            i += 1;
        }
        assert(compiled@.map_values(|g: Glob| glob_source(g)) =~= with_escape(pats, escape));
        proof {
            lemma_no_bad_glob(pats, escape);
            assert forall|k: int| 0 <= k < globs@.len() implies glob_error(
                (#[trigger] globs@[k])@,
                escape,
            ) is None by {
                assert(pats[k] == globs@[k]@);
            }
        }
        match glob_set_new(compiled) {
            Ok(set) => Ok(ContentMatcher { set, patterns: Ghost(pats), backslash_separates }),
            Err(e) => {
                let mut msg = owned("glob set: ");
                push_str(&mut msg, e.as_str());
                let d = Diagnostic::error(msg);
                let ds = vec![d];
                assert(diag_views(ds@) =~= seq![d@]);
                Err(ds)
            },
        }
    }

    /// Whether the file at `path` (relative to the preset's directory) is scanned:
    /// whether any content glob matches the path with its separators made `/`. When
    /// the matcher does not treat `\` as a separator but the path holds one, globset
    /// may still do so on this machine, so the match is then one of two readings.
    pub fn is_match(&self, path: &str) -> (r: bool)
        requires
            self.wf(),
        ensures
            self.backslash_separates() || no_backslash(path@) ==> r == set_matches(
                self.patterns(),
                !self.backslash_separates(),
                with_slashes(path@, self.backslash_separates()),
            ),
            r == set_matches(
                self.patterns(),
                !self.backslash_separates(),
                with_slashes(path@, self.backslash_separates()),
            ) || r == set_matches(
                self.patterns(),
                !self.backslash_separates(),
                with_slashes(path@, true),
            ),
    {
        let np = if self.backslash_separates {
            slashed(path)
        } else {
            owned(path)
        };
        let (b, r) = glob_set_is_match(&self.set, np.as_str());
        proof {
            let pats = self.patterns();
            let esc = !self.backslash_separates;
            let srcs = glob_set_sources(self.set);
            let x = with_slashes(np@, b);
            assert(srcs == with_escape(pats, esc));
            if r {
                let i = choose|i: int|
                    0 <= i < srcs.len() && #[trigger] glob_match(srcs[i].0, srcs[i].1, x);
                assert(srcs[i] == (pats[i], esc));
                assert(glob_match(pats[i], esc, x));
            }
            if set_matches(pats, esc, x) {
                let i = choose|i: int| 0 <= i < pats.len() && #[trigger] glob_match(pats[i], esc, x);
                assert(srcs[i] == (pats[i], esc));
                assert(glob_match(srcs[i].0, srcs[i].1, x));
            }
            assert(r == set_matches(pats, esc, x));
            if self.backslash_separates {
                lemma_slashed_has_no_backslash(path@);
                lemma_slashes_fixed(np@, b);
            } else if no_backslash(path@) {
                lemma_slashes_fixed(path@, b);
            }
        }
        r
    }
}

/// The first pattern that is not a glob, from index `i` on.
pub open spec fn first_bad_glob(pats: Seq<Seq<char>>, backslash_escape: bool, i: int) -> Option<int>
    decreases pats.len() - i,
{
    if i < 0 || i >= pats.len() {
        None
    } else if glob_error(pats[i], backslash_escape) is Some {
        Some(i)
    } else {
        first_bad_glob(pats, backslash_escape, i + 1)
    }
}

/// The diagnostic for content globs that cannot be compiled: the first pattern that
/// is not a glob, else the set that cannot be built.
pub open spec fn content_glob_failure(pats: Seq<Seq<char>>, backslash_escape: bool) -> DiagView {
    match first_bad_glob(pats, backslash_escape, 0) {
        Some(i) => plain_diag(
            "invalid content glob '"@ + pats[i] + "': "@ + glob_error(pats[i], backslash_escape).unwrap(),
        ),
        None => plain_diag(
            "glob set: "@ + glob_set_error(with_escape(pats, backslash_escape)).unwrap(),
        ),
    }
}

proof fn lemma_first_bad_glob(pats: Seq<Seq<char>>, e: bool, i: int)
    requires
        0 <= i < pats.len(),
        glob_error(pats[i], e) is Some,
        forall|k: int| 0 <= k < i ==> #[trigger] glob_error(pats[k], e) is None,
    ensures
        first_bad_glob(pats, e, 0) == Some(i),
{
    lemma_first_bad_from(pats, e, 0, i);
}

proof fn lemma_first_bad_from(pats: Seq<Seq<char>>, e: bool, j: int, i: int)
    requires
        0 <= j <= i < pats.len(),
        glob_error(pats[i], e) is Some,
        forall|k: int| 0 <= k < i ==> #[trigger] glob_error(pats[k], e) is None,
    ensures
        first_bad_glob(pats, e, j) == Some(i),
    decreases i - j,
{
    if j < i {
        lemma_first_bad_from(pats, e, j + 1, i);
    }
}

proof fn lemma_no_bad_glob(pats: Seq<Seq<char>>, e: bool)
    requires
        forall|k: int| 0 <= k < pats.len() ==> #[trigger] glob_error(pats[k], e) is None,
    ensures
        first_bad_glob(pats, e, 0) is None,
{
    lemma_no_bad_from(pats, e, 0);
}

proof fn lemma_no_bad_from(pats: Seq<Seq<char>>, e: bool, j: int)
    requires
        0 <= j,
        forall|k: int| 0 <= k < pats.len() ==> #[trigger] glob_error(pats[k], e) is None,
    ensures
        first_bad_glob(pats, e, j) is None,
    decreases pats.len() - j,
{
    if j < pats.len() {
        lemma_no_bad_from(pats, e, j + 1);
    }
}

/// A character that can be part of a class-like token.
pub open spec fn is_class_char(c: char) -> bool {
    ('a' <= c && c <= 'z') || ('A' <= c && c <= 'Z') || ('0' <= c && c <= '9') || c == '-' || c
        == '_' || c == ':' || c == '.' || c == '/'
}

/// The runs of `s` between characters that cannot be part of a class, empty runs
/// included.
pub open spec fn runs(s: Seq<char>) -> Seq<Seq<char>>
    decreases s.len(),
{
    if s.len() == 0 {
        seq![Seq::<char>::empty()]
    } else {
        let p = runs(s.drop_last());
        if !is_class_char(s.last()) {
            p.push(Seq::<char>::empty())
        } else {
            p.update(p.len() - 1, p.last().push(s.last()))
        }
    }
}

/// The class-like tokens of a text: its non-empty runs of class characters, in order.
pub open spec fn tokens_of(s: Seq<char>) -> Seq<Seq<char>> {
    runs(s).filter(|t: Seq<char>| t.len() > 0)
}

proof fn lemma_runs_nonempty(s: Seq<char>)
    ensures
        runs(s).len() >= 1,
    decreases s.len(),
{
    if s.len() > 0 {
        lemma_runs_nonempty(s.drop_last());
    }
}

/// The class-like tokens of a text.
pub fn classlike_tokens(s: &str) -> (r: Vec<String>)
    ensures
        string_views(r@) == tokens_of(s@),
{
    let cs = chars_of(s);
    let mut done: Vec<Vec<char>> = Vec::new();
    let mut cur: Vec<char> = Vec::new();
    let mut i: usize = 0;
    while i < cs.len()
        invariant
            cs@ == s@,
            i <= cs.len(),
            done@.len() + 1 == runs(cs@.take(i as int)).len(),
            forall|k: int| 0 <= k < done@.len() ==> #[trigger] done@[k]@ == runs(cs@.take(i as int))[k],
            cur@ == runs(cs@.take(i as int)).last(),
        decreases cs.len() - i,
    {
        let ghost prev = cs@.take(i as int);
        proof {
            lemma_runs_nonempty(prev);
        }
        let c = cs[i];
        if !(('a' <= c && c <= 'z') || ('A' <= c && c <= 'Z') || ('0' <= c && c <= '9') || c == '-'
            || c == '_' || c == ':' || c == '.' || c == '/') {
            done.push(cur);
            cur = Vec::new();
        } else {
            cur.push(c);
        }
        i += 1;
        assert(cs@.take(i as int).drop_last() == prev);
        proof {
            lemma_runs_nonempty(cs@.take(i as int));
        }
    }
    assert(cs@.take(cs.len() as int) == cs@);
    done.push(cur);
    let ghost rs = runs(s@);
    assert(done@.len() == rs.len());
    let ghost pred = |t: Seq<char>| t.len() > 0;
    let mut out: Vec<String> = Vec::new();
    let mut j: usize = 0;
    while j < done.len()
        invariant
            rs == runs(s@),
            done@.len() == rs.len(),
            forall|k: int| 0 <= k < done@.len() ==> #[trigger] done@[k]@ == rs[k],
            pred == (|t: Seq<char>| t.len() > 0),
            j <= done.len(),
            string_views(out@) == rs.take(j as int).filter(pred),
        decreases done.len() - j,
    {
        assert(rs.take(j + 1) == rs.take(j as int).push(rs[j as int]));
        proof {
            rs.take(j as int).lemma_filter_push(rs[j as int], pred);
        }
        if done[j].len() > 0 {
            let t = string_of(&done[j]);
            let ghost prev = out@;
            out.push(t);
            assert(string_views(out@) =~= string_views(prev).push(rs[j as int]));
        }
        j += 1;
    }
    assert(rs.take(done.len() as int) == rs);
    out
}

/// The class prefixes of the generators, which a near-miss has to start with.
pub open spec fn our_prefixes() -> Seq<Seq<char>> {
    seq![
        "bg-"@, "text-"@, "border-"@, "p-"@, "px-"@, "py-"@, "pt-"@, "pr-"@, "pb-"@, "pl-"@,
        "m-"@, "mx-"@, "my-"@, "mt-"@, "mr-"@, "mb-"@, "ml-"@, "gap-"@, "w-"@, "h-"@,
        "max-w-"@, "min-h-"@, "font-"@, "rounded-"@, "shadow-"@,
    ]
}

/// Whether a token, after its last `:`, starts like a generated class.
pub open spec fn looks_ours(token: Seq<char>) -> bool {
    let stripped = split(token, ':').last();
    exists|i: int| 0 <= i < our_prefixes().len() && has_prefix(stripped, #[trigger] our_prefixes()[i])
}

/// Whether a token looks like a generated class.
pub fn looks_like_ours(token: &str) -> (r: bool)
    ensures
        r == looks_ours(token@),
{
    let prefixes = vec![
        "bg-", "text-", "border-", "p-", "px-", "py-", "pt-", "pr-", "pb-", "pl-", "m-", "mx-",
        "my-", "mt-", "mr-", "mb-", "ml-", "gap-", "w-", "h-", "max-w-", "min-h-", "font-",
        "rounded-", "shadow-",
    ];
    assert(prefixes@.map_values(|p: &str| p@) =~= our_prefixes());
    let tv = chars_of(token);
    let parts = split_chars(&tv, ':');
    proof {
        crate::text::lemma_split_nonempty(tv@, ':');
    }
    let stripped = &parts[parts.len() - 1];
    let ghost sv = split(token@, ':').last();
    assert(stripped@ == sv);
    let mut i: usize = 0;
    while i < prefixes.len()
        invariant
            prefixes@.map_values(|p: &str| p@) == our_prefixes(),
            stripped@ == sv,
            sv == split(token@, ':').last(),
            i <= prefixes.len(),
            forall|k: int| 0 <= k < i ==> !has_prefix(sv, #[trigger] our_prefixes()[k]),
        decreases prefixes.len() - i,
    {
        let p = chars_of(prefixes[i]);
        assert(our_prefixes()[i as int] == prefixes@[i as int]@);
        if starts_with(stripped, &p) {
            return true;
        }
        i += 1;
    }
    false
}


/// The warning for a token that looks like a generated class but is not one.
pub open spec fn near_miss(t: Seq<char>, label: Seq<char>, universe: Seq<Seq<char>>) -> DiagView {
    diag_help_opt(
        plain_diag("'"@ + t + "' in "@ + label + " looks like a PresetCSS class but is not generated"@),
        match suggestion(t, universe) {
            Some(s) => Some("did you mean '"@ + s + "'?"@),
            None => None,
        },
    )
}

/// What one token does to the warnings so far and the tokens already warned about:
/// a token that is not generated, looks like ours and is new gets a warning.
pub open spec fn warn_step(
    st: (Seq<DiagView>, Set<Seq<char>>),
    t: Seq<char>,
    label: Seq<char>,
    universe: Seq<Seq<char>>,
) -> (Seq<DiagView>, Set<Seq<char>>) {
    if !universe.contains(t) && looks_ours(t) && !st.1.contains(t) {
        (st.0.push(near_miss(t, label, universe)), st.1.insert(t))
    } else {
        st
    }
}

/// The warnings and warned tokens after the tokens `ts`, in order.
pub open spec fn warn_fold(
    st: (Seq<DiagView>, Set<Seq<char>>),
    ts: Seq<Seq<char>>,
    label: Seq<char>,
    universe: Seq<Seq<char>>,
) -> (Seq<DiagView>, Set<Seq<char>>)
    decreases ts.len(),
{
    if ts.len() == 0 {
        st
    } else {
        warn_step(warn_fold(st, ts.drop_last(), label, universe), ts.last(), label, universe)
    }
}

/// What scanning found: the generated classes that occur in the files, and the
/// near-misses.
pub struct ScanResult {
    pub used: HashSet<String>,
    pub warnings: Vec<Diagnostic>,
}

/// Scanning in progress over a fixed list of generated classes.
pub struct Scanner {
    universe: Vec<String>,
    universe_set: HashSet<String>,
    automaton: AhoCorasick,
    used: HashSet<String>,
    warnings: Vec<Diagnostic>,
    warned: HashSet<String>,
}

impl Scanner {
    /// The generated classes looked for.
    pub closed spec fn universe(&self) -> Seq<Seq<char>> {
        string_views(self.universe@)
    }

    /// The generated classes found so far.
    pub closed spec fn used(&self) -> Set<Seq<char>> {
        string_set(self.used)
    }

    /// The near-miss warnings so far, in order.
    pub closed spec fn warnings(&self) -> Seq<DiagView> {
        diag_views(self.warnings@)
    }

    /// The tokens warned about so far.
    pub closed spec fn warned(&self) -> Set<Seq<char>> {
        string_set(self.warned)
    }

    pub closed spec fn wf(&self) -> bool {
        &&& automaton_patterns(self.automaton) == string_views(self.universe@)
        &&& forall|x: Seq<char>|
            #[trigger] string_set(self.universe_set).contains(x) <==> string_views(
                self.universe@,
            ).contains(x)
    }

    /// A scanner for the classes of `universe`, with nothing found yet; fails only when
    /// the matcher cannot be built.
    pub fn new(universe: &[String]) -> (r: Result<Scanner, Vec<Diagnostic>>)
        ensures
            match r {
                Ok(s) => s.wf() && s.universe() == string_views(universe@) && s.used() == Set::<
                    Seq<char>,
                >::empty() && s.warnings() == Seq::<DiagView>::empty() && s.warned() == Set::<
                    Seq<char>,
                >::empty(),
                Err(ds) => automaton_error(string_views(universe@)) is Some && diag_views(ds@)
                    == seq![plain_diag("scanner build: "@ + automaton_error(string_views(universe@)).unwrap())],
            },
    {
        let automaton = match build_automaton(universe) {
            Ok(a) => a,
            Err(e) => {
                let mut msg = owned("scanner build: ");
                push_str(&mut msg, e.as_str());
                let d = Diagnostic::error(msg);
                let ds = vec![d];
                assert(diag_views(ds@) =~= seq![d@]);
                return Err(ds);
            },
        };
        let mut list: Vec<String> = Vec::new();
        let mut set = string_set_new();
        let mut i: usize = 0;
        while i < universe.len()
            invariant
                i <= universe.len(),
                string_views(list@) == string_views(universe@).take(i as int),
                forall|x: Seq<char>|
                    #[trigger] string_set(set).contains(x) <==> string_views(universe@).take(
                        i as int,
                    ).contains(x),
            decreases universe.len() - i,
        {
            let ghost prev = list@;
            list.push(universe[i].clone());
            string_set_insert(&mut set, universe[i].clone());
            assert(string_views(list@) =~= string_views(prev).push(universe@[i as int]@));
            assert(string_views(universe@).take(i + 1) =~= string_views(universe@).take(
                i as int,
            ).push(universe@[i as int]@));
            i += 1;
        }
        assert(string_views(universe@).take(universe.len() as int) == string_views(universe@));
        let warnings: Vec<Diagnostic> = Vec::new();
        assert(diag_views(warnings@) =~= Seq::<DiagView>::empty());
        Ok(
            Scanner {
                universe: list,
                universe_set: set,
                automaton,
                used: string_set_new(),
                warnings,
                warned: string_set_new(),
            },
        )
    }

    /// Takes in the text of one content file, named `label` in warnings: every
    /// generated class occurring in it is found, and every new near-miss warned about.
    pub fn observe(&mut self, label: &str, contents: &str)
        requires
            old(self).wf(),
        ensures
            final(self).wf(),
            final(self).universe() == old(self).universe(),
            forall|x: Seq<char>|
                #[trigger] final(self).used().contains(x) ==> old(self).used().contains(x) || (old(
                    self,
                ).universe().contains(x) && occurs_in(x, contents@)),
            forall|x: Seq<char>|
                old(self).universe().contains(x) && occurs_in(x, contents@)
                    ==> #[trigger] final(self).used().contains(x),
            forall|x: Seq<char>| #[trigger]
                old(self).used().contains(x) ==> final(self).used().contains(x),
            (final(self).warnings(), final(self).warned()) == warn_fold(
                (old(self).warnings(), old(self).warned()),
                tokens_of(contents@),
                label@,
                old(self).universe(),
            ),
    {
        let ghost u = string_views(self.universe@);
        let ghost used0 = string_set(self.used);
        let ghost w0 = diag_views(self.warnings@);
        let ghost warned0 = string_set(self.warned);
        let found = overlapping_matches(&self.automaton, contents);
        let mut k: usize = 0;
        while k < found.len()
            invariant
                self.wf(),
                u == string_views(self.universe@),
                automaton_patterns(self.automaton) == u,
                self.universe@.len() == u.len(),
                diag_views(self.warnings@) == w0,
                string_set(self.warned) == warned0,
                k <= found.len(),
                forall|q: int|
                    0 <= q < found@.len() ==> #[trigger] found@[q] < u.len() && occurs_in(
                        u[found@[q] as int],
                        contents@,
                    ),
                forall|x: Seq<char>|
                    #[trigger] string_set(self.used).contains(x) <==> used0.contains(x) || exists|
                        q: int,
                    |
                        0 <= q < k && x == #[trigger] u[found@[q] as int],
            decreases found.len() - k,
        {
            let idx = found[k];
            let name = self.universe[idx].clone();
            assert(name@ == u[found@[k as int] as int]);
            string_set_insert(&mut self.used, name);
            assert forall|x: Seq<char>|
                #[trigger] string_set(self.used).contains(x) <==> used0.contains(x) || exists|
                    q: int,
                |
                    0 <= q < k + 1 && x == #[trigger] u[found@[q] as int] by {
                if x == u[found@[k as int] as int] {
                    assert(exists|q: int| 0 <= q < k + 1 && x == #[trigger] u[found@[q] as int]);
                }
            }
            k += 1;
        }
        proof {
            assert forall|x: Seq<char>|
                #[trigger] string_set(self.used).contains(x) implies used0.contains(x) || (
                u.contains(x) && occurs_in(x, contents@)) by {
                if !used0.contains(x) {
                    let q = choose|q: int| 0 <= q < found@.len() && x == #[trigger] u[found@[q] as int];
                    assert(u[found@[q] as int] == x);
                }
            }
            assert forall|x: Seq<char>|
                u.contains(x) && occurs_in(x, contents@) implies #[trigger] string_set(
                self.used,
            ).contains(x) by {
                let i = choose|i: int| 0 <= i < u.len() && u[i] == x;
                assert(i < self.universe@.len());
                assert(self.universe@.len() == self.universe.len());
                assert((i as usize) as int == i);
                assert(found@.contains(i as usize));
                let q = choose|q: int| 0 <= q < found@.len() && found@[q] == i as usize;
                assert(x == u[found@[q] as int]);
            }
        }
        let tokens = classlike_tokens(contents);
        let ghost used1 = string_set(self.used);
        let ghost ts = string_views(tokens@);
        let ghost start = (diag_views(self.warnings@), string_set(self.warned));
        let mut j: usize = 0;
        while j < tokens.len()
            invariant
                self.wf(),
                u == string_views(self.universe@),
                ts == string_views(tokens@),
                ts == tokens_of(contents@),
                string_set(self.used) == used1,
                j <= tokens.len(),
                (diag_views(self.warnings@), string_set(self.warned)) == warn_fold(
                    start,
                    ts.take(j as int),
                    label@,
                    u,
                ),
            decreases tokens.len() - j,
        {
            let t = tokens[j].as_str();
            assert(ts.take(j + 1).drop_last() == ts.take(j as int));
            assert(ts.take(j + 1).last() == t@);
            if !string_set_contains(&self.universe_set, t) && looks_like_ours(t) {
                let fresh = string_set_insert(&mut self.warned, owned(t));
                if fresh {
                    let mut msg = owned("'");
                    push_str(&mut msg, t);
                    push_str(&mut msg, "' in ");
                    push_str(&mut msg, label);
                    push_str(&mut msg, " looks like a PresetCSS class but is not generated");
                    let mut d = Diagnostic::error(msg);
                    assert(self.universe@.map_values(|c: String| c@) == u);
                    match did_you_mean(t, self.universe.as_slice()) {
                        Some(s) => {
                            let mut h = owned("did you mean '");
                            push_str(&mut h, s.as_str());
                            push_str(&mut h, "'?");
                            d = d.with_help(h);
                        },
                        None => {},
                    }
                    let ghost prev = self.warnings@;
                    self.warnings.push(d);
                    assert(diag_views(self.warnings@) =~= diag_views(prev).push(d@));
                } else {
                    assert(string_set(self.warned) =~= warn_fold(start, ts.take(j as int), label@, u).1);
                }
            }
            j += 1;
        }
        assert(ts.take(tokens.len() as int) == ts);
    }

    /// What the scan found.
    pub fn finish(self) -> (r: ScanResult)
        ensures
            string_set(r.used) == self.used(),
            diag_views(r.warnings@) == self.warnings(),
    {
        ScanResult { used: self.used, warnings: self.warnings }
    }
}

} // verus!
