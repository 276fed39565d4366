use std::collections::HashSet;

use presetcss::describe::{explain, static_help, theme_help};
use presetcss::emit::{emit_tokens, TokenFormat};
use presetcss::error::{did_you_mean, locate};
use presetcss::generate::{class_universe, escape_class, generate, parse_raw_decls, pseudo_for};
use presetcss::preset::{parse, validate_color};
use presetcss::scan::{classlike_tokens, looks_like_ours, ContentMatcher, Scanner};
use presetcss::theme::Group;
use presetcss::web::{compile, default_preset, validate_preset};
use presetcss::{build_css, compile_theme, prepare_build, Diagnostic, ResolvedTheme, DEFAULT_PRESET};

fn theme(src: &str) -> ResolvedTheme {
    compile_theme(src).expect("should compile")
}

fn value(t: &ResolvedTheme, g: Group, key: &str) -> Option<String> {
    t.group(g).get(key).cloned()
}

#[test]
fn extension_wins_over_default_value() {
    let t = theme("[extend.colors]\nprimary = \"#000000\"\nbrand = \"#ff0050\"\n");
    assert_eq!(value(&t, Group::Colors, "primary").as_deref(), Some("#000000"));
    assert_eq!(value(&t, Group::Colors, "brand").as_deref(), Some("#ff0050"));
    assert_eq!(value(&t, Group::Colors, "danger").as_deref(), Some("#ef4444"));
    let keys: Vec<String> = t.colors.keys().cloned().collect();
    assert_eq!(keys[0], "primary");
    assert_eq!(keys.last().map(String::as_str), Some("brand"));
}

#[test]
fn extension_applies_to_written_group() {
    let t = theme("[colors]\na = \"#111\"\n[extend.colors]\nb = \"#222\"\n");
    let keys: Vec<String> = t.colors.keys().cloned().collect();
    assert_eq!(keys, vec!["a".to_string(), "b".to_string()]);
}

#[test]
fn invalid_token_key_is_reported_with_line() {
    let err = compile_theme("[spacing]\n\"a b\" = \"1px\"\n").unwrap_err();
    assert_eq!(err.len(), 1);
    assert_eq!(err[0].message, "invalid token key 'a b' in [spacing] (allowed: A-Z a-z 0-9 . _ -)");
    assert_eq!(err[0].line, Some(2));
}

#[test]
fn breakpoint_named_like_state_is_rejected() {
    let err = compile_theme("[breakpoints]\nhover = \"100px\"\n").unwrap_err();
    assert_eq!(err[0].message, "breakpoint 'hover' collides with a reserved state variant name");
}

#[test]
fn collision_help_names_both_lines() {
    let err = compile_theme("[colors]\nlg = \"#fff\"\n[text]\nlg = \"2rem\"\n").unwrap_err();
    let d = &err[0];
    assert_eq!(d.message, "key 'lg' exists in both [colors] and [text]; both generate .text-lg");
    assert_eq!(d.help.as_deref(), Some("see colors.lg (line 2) and text.lg (line 4)"));
}

#[test]
fn bad_color_has_line_and_help() {
    let err = compile_theme("[colors]\nok = \"red\"\nx = \"#12\"\n").unwrap_err();
    assert_eq!(err.len(), 1);
    assert_eq!(err[0].message, "invalid color '#12' for colors.x");
    assert_eq!(err[0].line, Some(3));
    assert_eq!(
        err[0].help.as_deref(),
        Some("expected #hex, rgb()/hsl()/oklch(), or a CSS color keyword")
    );
}

#[test]
fn color_validation() {
    assert!(validate_color("#abc"));
    assert!(validate_color("#abcd"));
    assert!(validate_color(" #A1b2C3 "));
    assert!(validate_color("#11223344"));
    assert!(validate_color("rgb(0, 0, 0)"));
    assert!(!validate_color("#abcde"));
    assert!(!validate_color("#ggg"));
    assert!(!validate_color("   "));
    assert!(!validate_color("#"));
}

#[test]
fn syntax_error_points_at_line() {
    let err = compile_theme("[colors]\nx = \n").unwrap_err();
    assert_eq!(err.len(), 1);
    assert!(err[0].message.starts_with("invalid TOML: "));
    assert_eq!(err[0].line, Some(2));
}

#[test]
fn wrong_type_is_reported() {
    let err = compile_theme("[colors]\nx = 5\n").unwrap_err();
    assert_eq!(err.len(), 1);
    assert_eq!(err[0].message, "invalid TOML: invalid type: integer `5`, expected a string");
    assert_eq!(err[0].line, Some(2));
    let err = compile_theme("[options]\nminify = \"yes\"\n").unwrap_err();
    assert_eq!(err[0].message, "invalid TOML: invalid type: string \"yes\", expected a boolean");
    assert_eq!(err[0].line, Some(2));
    let err = compile_theme("variants = 3\n").unwrap_err();
    assert_eq!(err[0].message, "invalid TOML: invalid type: integer `3`, expected a map");
    assert_eq!(err[0].line, Some(1));
    let err = compile_theme("[variants]\ncolors = \"hover\"\n").unwrap_err();
    assert_eq!(err[0].message, "invalid TOML: invalid type: string \"hover\", expected a sequence");
    let err = compile_theme("[options]\ncontent = [\"a\", 1.5]\n").unwrap_err();
    assert_eq!(err[0].message, "invalid TOML: invalid type: floating point `1.5`, expected a string");
    let err = compile_theme("[colors]\nx = 1979-05-27\n").unwrap_err();
    assert_eq!(err[0].message, "invalid TOML: invalid type: map, expected a string");
    assert_eq!(err[0].line, Some(2));
}

#[test]
fn datetime_reads_as_the_deserializer_reads_it() {
    let err = compile_theme("colors = 1979-05-27\n").unwrap_err();
    assert_eq!(err.len(), 1);
    assert_eq!(
        err[0].message,
        "invalid token key '$__toml_private_datetime' in [colors] (allowed: A-Z a-z 0-9 . _ -)"
    );
}

#[test]
fn empty_extend_array_means_no_extensions() {
    let t = theme("extend = []\n");
    assert!(t.colors.contains_key("primary"));
    assert_eq!(t.colors.len(), 7);
}

#[test]
fn unknown_option_suggests() {
    let err = compile_theme("[options]\nminfy = true\n").unwrap_err();
    assert_eq!(err.len(), 1);
    assert_eq!(err[0].message, "unknown option 'minfy'");
    assert_eq!(err[0].line, Some(2));
    assert_eq!(err[0].help.as_deref(), Some("did you mean 'minify'?"));
}

#[test]
fn unknown_table_far_from_any_has_no_help() {
    let err = compile_theme("[zzzz]\nq = 1\n").unwrap_err();
    assert_eq!(err[0].message, "unknown table [zzzz]");
    assert_eq!(err[0].line, None);
    assert_eq!(err[0].help, None);
}

#[test]
fn parse_keeps_document_order_and_unknowns() {
    let (raw, diags) = parse("[colors]\nz = \"#000\"\na = \"#fff\"\n[foo]\n").unwrap();
    let keys: Vec<String> = raw.colors.as_ref().unwrap().keys().cloned().collect();
    assert_eq!(keys, vec!["z".to_string(), "a".to_string()]);
    assert_eq!(raw.unknown.len(), 1);
    assert_eq!(diags.len(), 1);
}

#[test]
fn locate_finds_key_in_section() {
    let src = "top = 1\n[colors]\n  \"brand\" = \"#f00\"\n[text]\nbrand = \"1rem\"\n";
    assert_eq!(locate(src, "colors", "brand"), Some(3));
    assert_eq!(locate(src, "text", "brand"), Some(5));
    assert_eq!(locate(src, "", "top"), Some(1));
    assert_eq!(locate(src, "sizes", "brand"), None);
}

#[test]
fn diagnostic_renders() {
    let d = Diagnostic::error("boom".to_string()).at(3).with_help("try again".to_string());
    assert_eq!(d.to_string(), "preset.toml:3: boom\n  help: try again");
    let d = d.in_file("my.toml");
    assert_eq!(d.to_string(), "my.toml:3: boom\n  help: try again");
    let plain = Diagnostic::error("no line".to_string()).in_file("x.toml");
    assert_eq!(plain.file, None);
    assert_eq!(plain.to_string(), "no line");
}

#[test]
fn suggestions_come_from_candidates() {
    let cands = vec!["colors".to_string(), "spacing".to_string()];
    assert_eq!(did_you_mean("colour", &cands).as_deref(), Some("colors"));
    assert_eq!(did_you_mean("qqqqqq", &cands), None);
    assert_eq!(did_you_mean("x", &[]), None);
}

#[test]
fn escaping_classes() {
    assert_eq!(escape_class("tablet:hover:bg-a.b/c"), "tablet\\:hover\\:bg-a\\.b\\/c");
    assert_eq!(escape_class("plain"), "plain");
}

#[test]
fn raw_declarations() {
    let ds = parse_raw_decls(" padding : 1rem ; junk; ; color:white");
    assert_eq!(ds.len(), 2);
    assert_eq!((ds[0].prop.as_str(), ds[0].value.as_str()), ("padding", "1rem"));
    assert_eq!((ds[1].prop.as_str(), ds[1].value.as_str()), ("color", "white"));
}

#[test]
fn state_lookup() {
    assert_eq!(pseudo_for("first"), Some(":first-child"));
    assert_eq!(pseudo_for("responsive"), None);
}

#[test]
fn no_variants_means_plain_rules_only() {
    let t = theme("[variants]\n");
    let rules = generate(&t, None);
    assert!(rules.iter().all(|r| r.pseudos.is_empty() && r.media.is_none()));
    let css = build_css(&t, None);
    assert!(!css.contains(":hover"));
}

#[test]
fn responsive_states_combine() {
    let t = theme("[colors]\nbrand = \"#f00\"\n[breakpoints]\nwide = \"900px\"\n[variants]\ncolors = [\"hover\", \"responsive\", \"bogus\"]\n");
    let classes = class_universe(&t);
    assert!(classes.contains(&"wide:hover:bg-brand".to_string()));
    assert!(classes.contains(&"wide:bg-brand".to_string()));
    assert!(!classes.iter().any(|c| c.contains("bogus")));
    let css = build_css(&t, None);
    assert!(css.contains("@media (min-width:900px) { .wide\\:hover\\:bg-brand:hover { background-color: #f00; } }"));
}

#[test]
fn tree_shaking_with_every_class_changes_nothing() {
    let t = theme("[colors]\na = \"#f00\"\n");
    let all: HashSet<String> = class_universe(&t).into_iter().collect();
    assert_eq!(build_css(&t, Some(&all)), build_css(&t, None));
    let used: HashSet<String> = ["hover:bg-a".to_string()].into_iter().collect();
    let rules = generate(&t, Some(&used));
    assert_eq!(rules.len(), 1);
    assert_eq!(rules[0].selector(), ".hover\\:bg-a:hover");
}

#[test]
fn dedup_drops_repeated_blocks() {
    let src = "[utilities]\nflex = \"display: flex\"\n[options]\nbase = \"none\"\n";
    let css = build_css(&theme(src), None);
    assert_eq!(css.matches(".flex { display: flex; }").count(), 1);
    let src = "[utilities]\nflex = \"display: flex\"\n[options]\nbase = \"none\"\ndedup = false\n";
    let css = build_css(&theme(src), None);
    assert_eq!(css.matches(".flex { display: flex; }").count(), 2);
}

#[test]
fn stylesheet_layout() {
    let t = theme("[options]\nbase = \"none\"\nsource_comments = true\n[colors]\nc = \"#123\"\n[variants]\n");
    let used: HashSet<String> = ["bg-c".to_string()].into_iter().collect();
    let css = build_css(&t, Some(&used));
    assert_eq!(css, "/* PresetCSS v0.1.0 */\n/* colors.c */\n.bg-c { background-color: #123; }\n");
    let t = theme("[options]\nminify = true\n[colors]\nc = \"#123\"\n[variants]\n[utilities]\nx = \"a: 1; b: 2\"\n");
    let used: HashSet<String> = ["bg-c".to_string(), "x".to_string()].into_iter().collect();
    let css = build_css(&t, Some(&used));
    assert_eq!(
        css,
        "*,::before,::after{box-sizing:border-box}body{margin:0}.bg-c{background-color:#123}.x{a:1;b:2}"
    );
}

#[test]
fn minified_media_rule() {
    let t = theme("[options]\nminify = true\nbase = \"none\"\n[breakpoints]\nw = \"10px\"\n[variants]\nstatic = [\"responsive\"]\n");
    let used: HashSet<String> = ["w:flex".to_string()].into_iter().collect();
    assert_eq!(build_css(&t, Some(&used)), "@media (min-width:10px){.w\\:flex{display:flex}}");
}

#[test]
fn token_exports() {
    let t = theme("[colors]\nq = \"a\\\"b\"\n[spacing]\n[sizes]\n[fonts]\n[text]\n[radius]\n[shadows]\n[breakpoints]\nm = \"1px\"\n");
    let json = emit_tokens(&t, TokenFormat::Json);
    assert_eq!(
        json,
        "{\n  \"colors\": {\n    \"q\": \"a\\\"b\"\n  },\n  \"spacing\": {},\n  \"sizes\": {},\n  \"fonts\": {},\n  \"text\": {},\n  \"radius\": {},\n  \"shadows\": {},\n  \"breakpoints\": {\n    \"m\": \"1px\"\n  }\n}\n"
    );
    let js = emit_tokens(&t, TokenFormat::Js);
    assert_eq!(js, format!("export default {};\n", json.trim_end_matches('\n')));
    let vars = emit_tokens(&t, TokenFormat::CssVars);
    assert_eq!(vars, ":root {\n  --colors-q: a\"b;\n  --breakpoints-m: 1px;\n}\n");
}

#[test]
fn browser_entry_points() {
    assert!(compile("").unwrap().contains(".bg-primary"));
    let err = compile("[colors]\nx = \"#zz\"\n").unwrap_err();
    assert_eq!(err, "preset.toml:2: invalid color '#zz' for colors.x\n  help: expected #hex, rgb()/hsl()/oklch(), or a CSS color keyword");
    assert_eq!(validate_preset(""), "");
    assert_eq!(validate_preset("[a]\n[b]\n"), "unknown table [a]\nunknown table [b]");
    assert_eq!(default_preset(), DEFAULT_PRESET);
}

#[test]
fn class_like_tokens() {
    let toks = classlike_tokens("<div class=\"bg-a hover:text-b\">x_y.z/w</div>");
    assert_eq!(toks, vec!["div", "class", "bg-a", "hover:text-b", "x_y.z/w", "/div"]);
    assert!(looks_like_ours("tablet:hover:bg-x"));
    assert!(looks_like_ours("max-w-sm"));
    assert!(!looks_like_ours("bg-:flex"));
    assert!(!looks_like_ours("banana"));
}

#[test]
fn scanner_finds_used_classes_and_near_misses() {
    let universe = vec!["bg-primary".to_string(), "flex".to_string(), "text-a".to_string()];
    let mut s = Scanner::new(&universe).unwrap();
    s.observe("a.html", "<p class=\"bg-primry flex\">bg-primary bg-primry</p>");
    s.observe("b.html", "nothing here bg-primry");
    let r = s.finish();
    let expected: HashSet<String> = ["bg-primary".to_string(), "flex".to_string()].into_iter().collect();
    assert_eq!(r.used, expected);
    assert_eq!(r.warnings.len(), 1);
    assert_eq!(
        r.warnings[0].message,
        "'bg-primry' in a.html looks like a PresetCSS class but is not generated"
    );
    assert_eq!(r.warnings[0].help.as_deref(), Some("did you mean 'bg-primary'?"));
}

#[test]
fn content_globs() {
    let m = ContentMatcher::new(&["src/**/*.html".to_string()], false).unwrap();
    assert!(m.is_match("src/a/b.html"));
    assert!(!m.is_match("src/a/b.css"));
    let err = ContentMatcher::new(&["ok/*".to_string(), "a[".to_string()], false).err().unwrap();
    assert!(err[0].message.starts_with("invalid content glob 'a[': "));
}

#[test]
fn backslash_follows_the_separator_setting() {
    let m = ContentMatcher::new(&["src/**/*.html".to_string()], true).unwrap();
    assert!(m.is_match("src\\a\\b.html"));
    assert!(ContentMatcher::new(&["src\\".to_string()], false).is_err());
    assert!(ContentMatcher::new(&["src\\".to_string()], true).is_ok());
    let m = ContentMatcher::new(&["\\*.html".to_string()], false).unwrap();
    assert!(m.is_match("*.html"));
    assert!(!m.is_match("a.html"));
}

#[test]
fn defaults_read_cleanly() {
    let (_, diags) = parse(DEFAULT_PRESET).unwrap();
    assert!(diags.is_empty());
    let t = theme("");
    assert_eq!(t.options.output, "dist/preset.css");
    assert!(t.options.dedup);
    assert_eq!(t.variants_for("colors"), vec!["hover".to_string(), "focus".to_string()]);
    assert!(t.variants_for("static").is_empty());
}

#[test]
fn unlisted_group_has_only_plain_rules() {
    let t = theme("[breakpoints]\nw = \"10px\"\n[variants]\ncolors = [\"hover\", \"responsive\"]\n");
    let rules = generate(&t, None);
    assert!(rules.iter().any(|r| r.class == "hover:bg-primary"));
    assert!(rules.iter().any(|r| r.class == "w:bg-primary"));
    let spacing: Vec<_> = rules.iter().filter(|r| r.src.starts_with("spacing.")).collect();
    assert!(!spacing.is_empty());
    assert!(spacing.iter().all(|r| r.pseudos.is_empty() && r.media.is_none()));
    assert!(!rules.iter().any(|r| r.class == "hover:p-1" || r.class == "w:flex"));
}

#[test]
fn compiled_theme_is_sound() {
    let t = theme("[colors]\nink = \"#123456\"\n[text]\nbig = \"3rem\"\n[breakpoints]\nwide = \"1200px\"\n");
    for g in Group::all() {
        for k in t.group(g).keys() {
            assert!(k.chars().all(|c| c.is_ascii_alphanumeric() || c == '.' || c == '_' || c == '-'));
        }
    }
    assert!(t.colors.values().all(|v| validate_color(v)));
    assert!(t.text.keys().all(|k| !t.colors.contains_key(k)));
    assert!(t.breakpoints.keys().all(|b| pseudo_for(b).is_none()));
}

#[test]
fn explain_shows_rule_and_provenance() {
    let t = theme("[colors]\nc = \"#123\"\n[breakpoints]\nw = \"10px\"\n[variants]\ncolors = [\"hover\"]\nstatic = [\"responsive\"]\n");
    assert_eq!(
        explain(&t, "hover:bg-c").unwrap(),
        ".hover\\:bg-c:hover {\n  background-color: #123;\n}\n  from colors.c\n\n"
    );
    assert_eq!(
        explain(&t, "w:flex").unwrap(),
        ".w\\:flex {\n  display: flex;\n}\n  from static.flex @media (min-width:10px)\n\n"
    );
    assert_eq!(
        explain(&t, "border").unwrap(),
        ".border {\n  border-width: 1px;\n  border-style: solid;\n}\n  from static.border\n\n"
    );
    let err = explain(&t, "nope").unwrap_err();
    assert_eq!(err.len(), 1);
    assert_eq!(err[0].message, "no class 'nope' is generated by this preset");
    assert_eq!(
        err[0].help.as_deref(),
        Some("run `presetcss help theme` to see available token keys")
    );
}

#[test]
fn help_listings() {
    let t = theme("[colors]\na = \"#111\"\nb = \"#222\"\n[spacing]\n[sizes]\n[fonts]\n[text]\n[radius]\n[shadows]\n[breakpoints]\nw = \"10px\"\nx = \"20px\"\n");
    assert_eq!(
        theme_help(&t),
        "Token groups and keys:\n\n[colors] (2 keys)\n  a, b\n\n[spacing] (0 keys)\n  \n\n[sizes] (0 keys)\n  \n\n[fonts] (0 keys)\n  \n\n[text] (0 keys)\n  \n\n[radius] (0 keys)\n  \n\n[shadows] (0 keys)\n  \n\n[breakpoints]\n  w (10px), x (20px)\n\nStates: hover, focus, focus-visible, active, disabled, first, last\n"
    );
    let s = static_help();
    assert!(s.starts_with("Built-in static utilities (36):\n\n  flex\n  inline-flex\n"));
    assert!(s.ends_with("  border\n  cursor-pointer\n"));
    assert_eq!(s.lines().count(), 38);
}

#[test]
fn explain_covers_exactly_the_generated_classes() {
    let t = theme("[colors]\nc = \"#123\"\n[variants]\ncolors = [\"focus\"]\n");
    let classes = class_universe(&t);
    assert!(classes.iter().all(|c| explain(&t, c).is_ok()));
    assert!(explain(&t, "hover:bg-c").is_err());
    assert!(explain(&t, "focus:bg-c").is_ok());
}

#[test]
fn empty_class_is_found_in_any_text() {
    let universe = vec!["".to_string(), "bg-a".to_string()];
    let mut s = Scanner::new(&universe).unwrap();
    s.observe("e.html", "");
    let r = s.finish();
    let expected: HashSet<String> = ["".to_string()].into_iter().collect();
    assert_eq!(r.used, expected);
}

#[test]
fn unknown_variant_names_change_nothing() {
    let a = theme("[variants]\ncolors = [\"hover\"]\n");
    let b = theme("[variants]\ncolors = [\"hover\", \"wiggle\"]\n");
    assert_eq!(class_universe(&a), class_universe(&b));
    assert_eq!(build_css(&a, None), build_css(&b, None));
}

#[test]
fn build_preparation() {
    let mut t = theme("[options]\ncontent = [\"src/*.html\"]\n");
    assert!(!t.options.minify);
    assert!(prepare_build(&mut t, true));
    assert!(t.options.minify);
    let mut t = theme("");
    assert!(!prepare_build(&mut t, false));
    assert!(!t.options.minify);
}
