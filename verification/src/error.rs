//! Diagnostics: what the library reports about a preset, where, and what might help.
use vstd::prelude::*;
use vstd::string::*;

use crate::text::{
    chars_of, decimal, decimal_string, lemma_split_nonempty, lines, opt_str, owned, push_str, same_chars,
    slice_chars, split, split_chars, strip_all, strip_all_end, strip_all_start, trim, trimmed,
};

verus! {

broadcast use vstd::seq_lib::group_seq_properties;

/// One finding about a preset: a message, the 1-based line it concerns, the file
/// that line is in, and a hint.
#[derive(Debug, Clone)]
pub struct Diagnostic {
    pub message: String,
    pub line: Option<usize>,
    pub file: Option<String>,
    pub help: Option<String>,
}

/// A diagnostic as plain values.
pub struct DiagView {
    pub message: Seq<char>,
    pub line: Option<usize>,
    pub file: Option<Seq<char>>,
    pub help: Option<Seq<char>>,
}

impl View for Diagnostic {
    type V = DiagView;

    open spec fn view(&self) -> DiagView {
        DiagView { message: self.message@, line: self.line, file: opt_str(self.file), help: opt_str(self.help) }
    }
}

/// A diagnostic with a message and nothing else.
pub open spec fn plain_diag(message: Seq<char>) -> DiagView {
    DiagView { message, line: None, file: None, help: None }
}

/// `d` with its line set.
pub open spec fn diag_at(d: DiagView, line: usize) -> DiagView {
    DiagView { line: Some(line), ..d }
}

/// `d` with its hint set.
pub open spec fn diag_help(d: DiagView, help: Seq<char>) -> DiagView {
    DiagView { help: Some(help), ..d }
}

/// `d` with a hint when there is one.
pub open spec fn diag_help_opt(d: DiagView, help: Option<Seq<char>>) -> DiagView {
    match help {
        Some(h) => diag_help(d, h),
        None => d,
    }
}

/// A list of diagnostics as plain values.
pub open spec fn diag_views(ds: Seq<Diagnostic>) -> Seq<DiagView> {
    ds.map_values(|d: Diagnostic| d@)
}

/// `d` at `line` when there is one.
pub open spec fn diag_at_opt(d: DiagView, line: Option<usize>) -> DiagView {
    match line {
        Some(l) => diag_at(d, l),
        None => d,
    }
}

/// `d` tied to `file`, which only a diagnostic with a line is.
pub open spec fn diag_in_file(d: DiagView, file: Seq<char>) -> DiagView {
    if d.line is Some {
        DiagView { file: Some(file), ..d }
    } else {
        d
    }
}

/// How a diagnostic reads: `file:line: message` when it has a line (the file
/// defaulting to `preset.toml`), the bare message otherwise, then the hint on a line
/// of its own.
pub open spec fn render(d: DiagView) -> Seq<char> {
    let file = match d.file {
        Some(f) => f,
        None => "preset.toml"@,
    };
    let head = match d.line {
        Some(l) => file + ":"@ + decimal(l as nat) + ": "@ + d.message,
        None => d.message,
    };
    match d.help {
        Some(h) => head + "\n  help: "@ + h,
        None => head,
    }
}

impl Diagnostic {
    pub fn error(message: String) -> (r: Self)
        ensures
            r@ == plain_diag(message@),
    {
        Diagnostic { message, line: None, file: None, help: None }
    }

    pub fn at(self, line: usize) -> (r: Self)
        ensures
            r@ == diag_at(self@, line),
    {
        Diagnostic { line: Some(line), ..self }
    }

    pub fn with_help(self, help: String) -> (r: Self)
        ensures
            r@ == diag_help(self@, help@),
    {
        Diagnostic { help: Some(help), ..self }
    }

    pub fn in_file(self, file: &str) -> (r: Self)
        ensures
            r@ == diag_in_file(self@, file@),
    {
        if self.line.is_some() {
            Diagnostic { file: Some(owned(file)), ..self }
        } else {
            self
        }
    }

    /// The text of the diagnostic, as the command line prints it.
    pub fn to_string(&self) -> (r: String)
        ensures
            r@ == render(self@),
    {
        let mut s = String::new();
        match self.line {
            Some(l) => {
                match &self.file {
                    Some(f) => push_str(&mut s, f.as_str()),
                    None => push_str(&mut s, "preset.toml"),
                }
                push_str(&mut s, ":");
                let n = decimal_string(l);
                push_str(&mut s, n.as_str());
                push_str(&mut s, ": ");
                push_str(&mut s, self.message.as_str());
            },
            None => {
                push_str(&mut s, self.message.as_str());
            },
        }
        match &self.help {
            Some(h) => {
                push_str(&mut s, "\n  help: ");
                push_str(&mut s, h.as_str());
            },
            None => {},
        }
        s
    }
}

/// The result of work that reports diagnostics when it fails.
pub type DiagResult<T> = Result<T, Vec<Diagnostic>>;

/// `lines(s)`, computed.
pub fn lines_of(s: &Vec<char>) -> (r: Vec<Vec<char>>)
    ensures
        r@.len() == lines(s@).len(),
        forall|i: int| 0 <= i < r@.len() ==> #[trigger] r@[i]@ == lines(s@)[i],
{
    let pieces = split_chars(s, '\n');
    proof {
        lemma_split_nonempty(s@, '\n');
    }
    let n = pieces.len();
    let keep = if pieces[n - 1].len() == 0 {
        n - 1
    } else {
        n
    };
    let mut out: Vec<Vec<char>> = Vec::new();
    let mut i: usize = 0;
    while i < keep
        invariant
            keep <= n == pieces@.len() == split(s@, '\n').len(),
            keep == lines(s@).len(),
            forall|k: int| 0 <= k < n ==> #[trigger] pieces@[k]@ == split(s@, '\n')[k],
            i <= keep,
            out@.len() == i,
            forall|k: int| 0 <= k < i ==> #[trigger] out@[k]@ == lines(s@)[k],
        decreases keep - i,
    {
        let p = &pieces[i];
        if i + 1 < n && p.len() > 0 && p[p.len() - 1] == '\r' {
            let q = slice_chars(p, 0, p.len() - 1);
            out.push(q);
        } else {
            let q = slice_chars(p, 0, p.len());
            out.push(q);
        }
        assert(p@.subrange(0, p@.len() as int) == p@);
        i += 1;
    }
    out
}

/// The 1-based line on which `key = ...` stands inside `[section]` (or before any
/// table header when `section` is empty), found by scanning the lines in order.
pub open spec fn locate_from(
    ls: Seq<Seq<char>>,
    i: int,
    in_section: bool,
    header: Seq<char>,
    key: Seq<char>,
) -> Option<nat>
    decreases ls.len() - i,
{
    if i < 0 || i >= ls.len() {
        None
    } else {
        let line = trim(ls[i]);
        if line.len() > 0 && line[0] == '[' {
            locate_from(ls, i + 1, line == header, header, key)
        } else if in_section && assignment_lhs(line) == key {
            Some((i + 1) as nat)
        } else {
            locate_from(ls, i + 1, in_section, header, key)
        }
    }
}

/// The key that a line assigns: the trimmed text before the first `=`, without
/// surrounding quotes.
pub open spec fn assignment_lhs(line: Seq<char>) -> Seq<char> {
    strip_all(trim(split(line, '=')[0]), '"')
}

pub open spec fn locate_spec(src: Seq<char>, section: Seq<char>, key: Seq<char>) -> Option<nat> {
    locate_from(lines(src), 0, section.len() == 0, "["@ + section + "]"@, key)
}

/// `locate_spec` as a line number.
pub open spec fn located(src: Seq<char>, section: Seq<char>, key: Seq<char>) -> Option<usize> {
    match locate_spec(src, section, key) {
        Some(n) => Some(n as usize),
        None => None,
    }
}

proof fn lemma_strip_start_skip(s: Seq<char>, c: char, i: int)
    requires
        0 <= i <= s.len(),
        forall|j: int| 0 <= j < i ==> #[trigger] s[j] == c,
        i == s.len() || s[i] != c,
    ensures
        strip_all_start(s, c) == s.skip(i),
    decreases i,
{
    if i > 0 {
        lemma_strip_start_skip(s.drop_first(), c, i - 1);
        assert(s.drop_first().skip(i - 1) == s.skip(i));
    } else {
        assert(s.skip(0) == s);
    }
}

proof fn lemma_strip_end_take(s: Seq<char>, c: char, k: int)
    requires
        0 <= k <= s.len(),
        forall|j: int| k <= j < s.len() ==> #[trigger] s[j] == c,
        k == 0 || s[k - 1] != c,
    ensures
        strip_all_end(s, c) == s.take(k),
    decreases s.len() - k,
{
    if k < s.len() {
        lemma_strip_end_take(s.drop_last(), c, k);
        assert(s.drop_last().take(k) == s.take(k));
    } else {
        assert(s.take(k) == s);
    }
}

/// `strip_all(v@, c)`, computed.
pub fn stripped(v: &Vec<char>, c: char) -> (r: Vec<char>)
    ensures
        r@ == strip_all(v@, c),
{
    let mut a: usize = 0;
    while a < v.len() && v[a] == c
        invariant
            a <= v.len(),
            forall|j: int| 0 <= j < a ==> #[trigger] v@[j] == c,
        decreases v.len() - a,
    {
        a += 1;
    }
    proof {
        lemma_strip_start_skip(v@, c, a as int);
    }
    let mut b: usize = v.len();
    while b > a && v[b - 1] == c
        invariant
            a <= b <= v.len(),
            forall|j: int| b <= j < v.len() ==> #[trigger] v@[j] == c,
        decreases b - a,
    {
        b -= 1;
    }
    proof {
        let t = v@.skip(a as int);
        assert forall|j: int| b - a <= j < t.len() implies #[trigger] t[j] == c by {
            assert(t[j] == v@[a + j]);
        }
        if b > a {
            assert(t[b - a - 1] == v@[b - 1]);
        }
        lemma_strip_end_take(t, c, b - a);
        assert(t.take(b - a) == v@.subrange(a as int, b as int));
    }
    slice_chars(v, a, b)
}

/// The line of `[section]` on which `key` is assigned, if the source shows one.
pub fn locate(src: &str, section: &str, key: &str) -> (r: Option<usize>)
    ensures
        match r {
            Some(l) => locate_spec(src@, section@, key@) == Some(l as nat),
            None => locate_spec(src@, section@, key@) is None,
        },
        r == located(src@, section@, key@),
{
    let mut header = String::new();
    push_str(&mut header, "[");
    push_str(&mut header, section);
    push_str(&mut header, "]");
    let header_v = chars_of(header.as_str());
    let key_v = chars_of(key);
    let src_v = chars_of(src);
    let ls = lines_of(&src_v);
    let ghost spec_ls = lines(src@);
    let mut in_section = section.is_empty();
    let mut i: usize = 0;
    while i < ls.len()
        invariant
            ls@.len() == spec_ls.len(),
            forall|k: int| 0 <= k < ls@.len() ==> #[trigger] ls@[k]@ == spec_ls[k],
            spec_ls == lines(src@),
            header_v@ == "["@ + section@ + "]"@,
            key_v@ == key@,
            i <= ls.len(),
            locate_from(spec_ls, i as int, in_section, header_v@, key_v@) == locate_spec(
                src@,
                section@,
                key@,
            ),
        decreases ls.len() - i,
    {
        let line = trimmed(&ls[i]);
        if line.len() > 0 && line[0] == '[' {
            in_section = same_chars(&line, &header_v);
            i += 1;
            continue ;
        }
        if in_section {
            let parts = split_chars(&line, '=');
            proof {
                lemma_split_nonempty(line@, '=');
            }
            let lhs0 = trimmed(&parts[0]);
            let lhs = stripped(&lhs0, '"');
            if same_chars(&lhs, &key_v) {
                return Some(i + 1);
            }
        }
        i += 1;
    }
    None
}

/// Names the bit pattern of `strsim::jaro_winkler(a, b)`.
pub uninterp spec fn jaro_winkler_bits(a: Seq<char>, b: Seq<char>) -> u64;

/// Calls `strsim::jaro_winkler` and hands back the bit pattern of its score. The
/// score lies in `0.0..=1.0` and is never NaN, and on such floats the bit patterns
/// order as the floats do, so comparing the patterns compares the scores. The
/// contract claims only that the pattern is a function of the two strings.
#[verifier::external_body]
fn similarity_bits(a: &str, b: &str) -> (r: u64)
    ensures
        r == jaro_winkler_bits(a@, b@),
{
    strsim::jaro_winkler(a, b).to_bits()
}

/// The bit pattern of `0.8f64`, the similarity a suggestion has to beat.
pub open spec fn suggestion_threshold() -> u64 {
    4605380978949069210u64
}

/// The most similar candidate (the first of equals) with its score, scanning in order.
pub open spec fn best_candidate(input: Seq<char>, cs: Seq<Seq<char>>) -> Option<(u64, Seq<char>)>
    decreases cs.len(),
{
    if cs.len() == 0 {
        None
    } else {
        let c = cs.last();
        let score = jaro_winkler_bits(input, c);
        match best_candidate(input, cs.drop_last()) {
            Some((b, bc)) => if score > b {
                Some((score, c))
            } else {
                Some((b, bc))
            },
            None => Some((score, c)),
        }
    }
}

/// The suggestion for `input`: the best candidate, if its similarity beats 0.8.
pub open spec fn suggestion(input: Seq<char>, cs: Seq<Seq<char>>) -> Option<Seq<char>> {
    match best_candidate(input, cs) {
        Some((score, c)) => if score > suggestion_threshold() {
            Some(c)
        } else {
            None
        },
        None => None,
    }
}

/// The candidate most similar to `input` by Jaro-Winkler similarity, when that
/// similarity is above 0.8.
pub fn did_you_mean(input: &str, candidates: &[String]) -> (r: Option<String>)
    ensures
        opt_str(r) == suggestion(input@, candidates@.map_values(|c: String| c@)),
{
    let ghost cs = candidates@.map_values(|c: String| c@);
    let mut best: Option<(u64, usize)> = None;
    let mut i: usize = 0;
    while i < candidates.len()
        invariant
            i <= candidates.len(),
            cs == candidates@.map_values(|c: String| c@),
            match best {
                Some((s, k)) => k < i && best_candidate(input@, cs.take(i as int)) == Some(
                    (s, cs[k as int]),
                ),
                None => i == 0,
            },
        decreases candidates.len() - i,
    {
        let score = similarity_bits(input, candidates[i].as_str());
        assert(cs.take(i + 1).drop_last() == cs.take(i as int));
        match best {
            Some((b, _)) => {
                if score > b {
                    best = Some((score, i));
                }
            },
            None => {
                best = Some((score, i));
            },
        }
        i += 1;
    }
    assert(cs.take(candidates.len() as int) == cs);
    match best {
        Some((s, k)) => {
            if s > 4605380978949069210u64 {
                Some(candidates[k].clone())
            } else {
                None
            }
        },
        None => None,
    }
}

} // verus!
