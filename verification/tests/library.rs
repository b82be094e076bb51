use gazu::json::{json_text_of, parse_json};
use gazu::pandoc::{filter_input, filter_output};
use gazu::cli::config_json;
use std::hash::BuildHasher;
use gazu::cli::{check_config, parse_args, usage, version_text, Command};
use gazu::filter::{output_dir_for, plan_outcomes, warning_message};
use gazu::json::{str_eq, Json};
use gazu::pandoc::{
    apply_outcomes, collect_mermaid, filter_finish, filter_start, image_block, image_block_for,
    is_html_format, join, output_dir, raw_block, FilterError, FilterStart,
};
use gazu::renderer::BlockOutcome;
use gazu::text::{decimal_string, hex_digits};

fn s(x: &str) -> Json {
    Json::Str(x.to_owned())
}

fn arr(items: Vec<Json>) -> Json {
    Json::Array(items)
}

fn obj(members: Vec<(&str, Json)>) -> Json {
    Json::Object(members.into_iter().map(|(k, v)| (k.to_owned(), v)).collect())
}

fn attr(classes: &[&str]) -> Json {
    arr(vec![s(""), arr(classes.iter().map(|c| s(c)).collect()), arr(vec![])])
}

fn mermaid(src: &str) -> Json {
    obj(vec![("t", s("CodeBlock")), ("c", arr(vec![attr(&["mermaid"]), s(src)]))])
}

fn raw(svg: &str) -> Json {
    obj(vec![("t", s("RawBlock")), ("c", arr(vec![s("html"), s(svg)]))])
}

fn doc(blocks: Vec<Json>) -> Json {
    obj(vec![
        ("blocks", arr(blocks)),
        ("meta", obj(vec![("m", mermaid("in meta"))])),
        ("pandoc-api-version", arr(vec![Json::Number("1".to_owned()), Json::Number("23".to_owned())])),
    ])
}

fn args(a: &[&str]) -> Vec<String> {
    a.iter().map(|x| x.to_string()).collect()
}

#[test]
fn hex_digits_pads_to_sixteen() {
    assert_eq!(hex_digits(0x1234abcd, 16), "000000001234abcd");
    assert_eq!(hex_digits(u64::MAX, 16), "ffffffffffffffff");
    assert_eq!(hex_digits(0, 16), "0000000000000000");
    assert_eq!(hex_digits(0xabc, 2), "bc");
}

#[test]
fn decimal_string_values() {
    assert_eq!(decimal_string(0), "0");
    assert_eq!(decimal_string(7), "7");
    assert_eq!(decimal_string(10), "10");
    assert_eq!(decimal_string(1203), "1203");
}

#[test]
fn warning_message_text() {
    assert_eq!(
        warning_message(0, "Lexical error"),
        "warning: gazu: mermaid block 1 failed to render:\nLexical error"
    );
    assert_eq!(
        warning_message(11, "x\n^"),
        "warning: gazu: mermaid block 12 failed to render:\nx\n^"
    );
}

#[test]
fn join_paths() {
    assert_eq!(join("gazu", "a.svg"), "gazu/a.svg");
    assert_eq!(join("gazu/", "a.svg"), "gazu/a.svg");
    assert_eq!(join("", "a.svg"), "a.svg");
    assert_eq!(join(".", "a.svg"), "./a.svg");
}

#[test]
fn image_block_for_exact() {
    let (path, block) = image_block_for("gazu", 0x1234);
    assert_eq!(path, "gazu/0000000000001234.svg");
    let expected = obj(vec![
        ("t", s("Para")),
        (
            "c",
            arr(vec![obj(vec![
                ("t", s("Image")),
                ("c", arr(vec![attr(&[]), arr(vec![]), arr(vec![s("gazu/0000000000001234.svg"), s("")])])),
            ])]),
        ),
    ]);
    assert_eq!(block, expected);
}

#[test]
fn image_block_names_file_by_hash() {
    let (p1, b1) = image_block("gazu", "<svg>a</svg>");
    let (p2, _) = image_block("gazu", "<svg>a</svg>");
    let (p3, _) = image_block("gazu", "<svg>b</svg>");
    assert!(p1.starts_with("gazu/") && p1.ends_with(".svg"));
    assert_eq!(p1.len(), "gazu/".len() + 16 + ".svg".len());
    assert!(p1["gazu/".len()..p1.len() - 4].chars().all(|c| c.is_ascii_hexdigit() && !c.is_ascii_uppercase()));
    assert_eq!(p1, p2);
    assert_ne!(p1, p3);
    let target = b1.get("c").unwrap().at(0).unwrap().get("c").unwrap().at(2).unwrap().at(0).unwrap();
    assert!(target.is_str(&p1));
}

#[test]
fn raw_block_shape() {
    assert_eq!(raw_block("<svg/>".to_owned()), raw("<svg/>"));
}

#[test]
fn html_formats() {
    for f in [
        "html", "html4", "html5", "s5", "slidy", "slideous", "dzslides", "revealjs", "markdown",
        "markdown_github", "markdown_mmd", "markdown_phpextra", "markdown_strict", "commonmark",
        "commonmark_x", "gfm", "org", "rst", "mediawiki", "muse", "textile", "docbook4",
    ] {
        assert!(is_html_format(f), "{f}");
        assert_eq!(output_dir_for(f), None);
    }
    for f in ["typst", "latex", "pdf", "chunkedhtml", "docx", "", "HTML"] {
        assert!(!is_html_format(f), "{f}");
        assert_eq!(output_dir_for(f), Some("gazu"));
    }
    assert_eq!(output_dir(), "gazu");
}

#[test]
fn str_eq_values() {
    assert!(str_eq("abc", "abc"));
    assert!(!str_eq("abc", "abd"));
    assert!(!str_eq("abc", "ab"));
}

#[test]
fn json_accessors() {
    let v = obj(vec![("a", s("x")), ("a", s("y")), ("b", arr(vec![Json::Bool(true)]))]);
    assert_eq!(v.get("a"), Some(&s("x")));
    assert_eq!(v.get("z"), None);
    assert_eq!(v.get("b").unwrap().at(0), Some(&Json::Bool(true)));
    assert_eq!(v.get("b").unwrap().at(1), None);
    assert_eq!(s("q").as_str(), Some("q"));
    assert_eq!(Json::Null.as_str(), None);
    assert_eq!(Json::Null.get("a"), None);
}

#[test]
fn start_without_blocks_fails() {
    let ast = obj(vec![("meta", obj(vec![]))]);
    assert!(matches!(filter_start(&ast), Err(FilterError::NoBlocks)));
    let ast = obj(vec![("blocks", obj(vec![]))]);
    assert!(matches!(filter_start(&ast), Err(FilterError::NoBlocks)));
    assert!(matches!(filter_start(&arr(vec![])), Err(FilterError::NoBlocks)));
    assert_eq!(FilterError::NoBlocks.message(), "no blocks in Pandoc AST");
}

#[test]
fn start_without_mermaid_is_unchanged() {
    let ast = doc(vec![obj(vec![("t", s("Para")), ("c", arr(vec![]))])]);
    assert!(matches!(filter_start(&ast), Ok(FilterStart::Unchanged)));
}

#[test]
fn start_collects_sources_under_blocks_only() {
    let ast = doc(vec![mermaid("A"), obj(vec![("t", s("Div")), ("c", arr(vec![attr(&[]), arr(vec![mermaid("B")])]))])]);
    match filter_start(&ast) {
        Ok(FilterStart::Render(srcs)) => assert_eq!(srcs, vec!["A", "B"]),
        _ => panic!("expected sources"),
    }
}

#[test]
fn mermaid_source_not_a_string_is_empty() {
    let odd = obj(vec![("t", s("CodeBlock")), ("c", arr(vec![attr(&["mermaid"]), Json::Null]))]);
    let sources: Vec<String> = collect_mermaid(&arr(vec![odd])).into_iter().map(gazu::pandoc::mermaid_source).collect();
    assert_eq!(sources, vec![""]);
}

#[test]
fn mermaid_block_not_searched_inside() {
    // A Mermaid block nested in a Mermaid block's source position is not collected twice.
    let outer = obj(vec![("t", s("CodeBlock")), ("c", arr(vec![attr(&["x", "mermaid"]), mermaid("inner")]))]);
    assert_eq!(collect_mermaid(&arr(vec![outer])).len(), 1);
}

#[test]
fn finish_html_replaces_in_place() {
    let mut ast = doc(vec![mermaid("A"), s("keep"), mermaid("B")]);
    let outcomes = vec![
        BlockOutcome::Rendered("<svg>1</svg>".to_owned()),
        BlockOutcome::Failed("boom".to_owned()),
    ];
    let applied = filter_finish(&mut ast, "html", outcomes);
    assert!(applied.files.is_empty());
    assert_eq!(applied.warnings, vec!["warning: gazu: mermaid block 2 failed to render:\nboom"]);
    let expected = doc(vec![raw("<svg>1</svg>"), s("keep"), mermaid("B")]);
    assert_eq!(ast, expected);
}

#[test]
fn finish_typst_plans_files() {
    let mut ast = doc(vec![mermaid("A"), mermaid("B")]);
    let outcomes = vec![
        BlockOutcome::Rendered("<svg>1</svg>".to_owned()),
        BlockOutcome::Rendered("<svg>2</svg>".to_owned()),
    ];
    let applied = filter_finish(&mut ast, "typst", outcomes);
    assert!(applied.warnings.is_empty());
    assert_eq!(applied.files.len(), 2);
    assert_eq!(applied.files[0].1, "<svg>1</svg>");
    assert_eq!(applied.files[1].1, "<svg>2</svg>");
    for (i, (path, _)) in applied.files.iter().enumerate() {
        assert!(path.starts_with("gazu/") && path.ends_with(".svg"));
        let block = ast.get("blocks").unwrap().at(i).unwrap();
        let target = block.get("c").unwrap().at(0).unwrap().get("c").unwrap().at(2).unwrap().at(0).unwrap();
        assert!(target.is_str(path));
    }
    // the Mermaid block in the metadata is not touched
    assert_eq!(ast.get("meta").unwrap().get("m"), Some(&mermaid("in meta")));
}

#[test]
fn finish_without_blocks_changes_nothing() {
    let mut ast = obj(vec![("meta", obj(vec![]))]);
    let applied = filter_finish(&mut ast, "html", vec![BlockOutcome::Failed("e".to_owned())]);
    assert!(applied.warnings.is_empty() && applied.files.is_empty());
    assert_eq!(ast, obj(vec![("meta", obj(vec![]))]));
}

#[test]
fn outcomes_beyond_blocks_are_ignored() {
    let mut blocks = arr(vec![mermaid("A")]);
    let outcomes = vec![
        BlockOutcome::Rendered("<svg/>".to_owned()),
        BlockOutcome::Failed("extra".to_owned()),
    ];
    let applied = apply_outcomes(".", "html", &mut blocks, outcomes);
    assert!(applied.warnings.is_empty());
    assert_eq!(blocks, arr(vec![raw("<svg/>")]));
}

#[test]
fn blocks_beyond_outcomes_are_kept() {
    let mut blocks = arr(vec![mermaid("A"), mermaid("B")]);
    let applied = apply_outcomes(".", "html", &mut blocks, vec![BlockOutcome::Rendered("<svg/>".to_owned())]);
    assert!(applied.warnings.is_empty());
    assert_eq!(blocks, arr(vec![raw("<svg/>"), mermaid("B")]));
}

#[test]
fn law_failed_blocks_remain_concrete() {
    let mut blocks = arr(vec![mermaid("A"), mermaid("B"), mermaid("C")]);
    let outcomes = vec![
        BlockOutcome::Failed("e1".to_owned()),
        BlockOutcome::Rendered("<svg/>".to_owned()),
        BlockOutcome::Failed("e3".to_owned()),
    ];
    let applied = apply_outcomes(".", "typst", &mut blocks, outcomes);
    let left: Vec<String> = collect_mermaid(&blocks).into_iter().map(gazu::pandoc::mermaid_source).collect();
    assert_eq!(left, vec!["A", "C"]);
    assert_eq!(applied.warnings.len(), 2);
    assert_eq!(applied.files.len(), 1);
}

#[test]
fn law_all_rendered_leaves_none_concrete() {
    let mut ast = doc(vec![mermaid("A"), mermaid("B")]);
    let outcomes = vec![
        BlockOutcome::Rendered("<svg>1</svg>".to_owned()),
        BlockOutcome::Rendered("<svg>2</svg>".to_owned()),
    ];
    filter_finish(&mut ast, "html", outcomes);
    assert!(matches!(filter_start(&ast), Ok(FilterStart::Unchanged)));
}

#[test]
fn law_all_failed_keeps_tree_concrete() {
    let mut ast = doc(vec![mermaid("A"), mermaid("B")]);
    let outcomes = vec![BlockOutcome::Failed("a".to_owned()), BlockOutcome::Failed("b".to_owned())];
    filter_finish(&mut ast, "typst", outcomes);
    assert_eq!(ast, doc(vec![mermaid("A"), mermaid("B")]));
}

#[test]
fn law_warning_or_rendering_concrete() {
    let outcomes = vec![
        BlockOutcome::Failed("a".to_owned()),
        BlockOutcome::Rendered("<svg/>".to_owned()),
        BlockOutcome::Rendered("<svg/>".to_owned()),
    ];
    let plan = plan_outcomes(Some("gazu"), outcomes);
    assert_eq!(plan.warnings.len() + plan.files.len(), 3);
    assert_eq!(plan.replacements.len(), 3);
    assert_eq!(plan.replacements[0], None);
}

#[test]
fn parse_args_defaults_to_html() {
    assert!(matches!(parse_args(&args(&[])), Command::Filter(f) if f == "html"));
}

#[test]
fn parse_args_format_is_last_positional() {
    assert!(matches!(parse_args(&args(&["typst"])), Command::Filter(f) if f == "typst"));
    assert!(matches!(parse_args(&args(&["html", "latex"])), Command::Filter(f) if f == "latex"));
}

#[test]
fn parse_args_help_and_version() {
    assert!(matches!(parse_args(&args(&["--help"])), Command::Help));
    assert!(matches!(parse_args(&args(&["html", "-h"])), Command::Help));
    assert!(matches!(parse_args(&args(&["--version"])), Command::Version));
    assert!(matches!(parse_args(&args(&["-v", "--help"])), Command::Version));
    assert!(matches!(parse_args(&args(&["--help", "-v"])), Command::Help));
}

#[test]
fn law_unknown_flag_ignored_concrete() {
    assert!(matches!(parse_args(&args(&["--unknown", "html"])), Command::Filter(f) if f == "html"));
    assert!(matches!(parse_args(&args(&["typst", "-x"])), Command::Filter(f) if f == "typst"));
    assert!(matches!(parse_args(&args(&["-x", "--version"])), Command::Version));
}

#[test]
fn version_line() {
    assert_eq!(version_text("0.2.1", "11.14.0"), "gazu 0.2.1 (mermaid.js 11.14.0)");
}

#[test]
fn usage_mentions_options() {
    let u = usage();
    assert!(u.starts_with("gazu — Pandoc filter for Mermaid diagrams"));
    assert!(u.contains("--version, -v"));
    assert!(u.contains("GAZU_CONFIG"));
}

#[test]
fn config_must_be_object() {
    assert_eq!(check_config("c.json", &obj(vec![("theme", s("dark"))])), Ok(()));
    assert_eq!(
        check_config("c.json", &arr(vec![])),
        Err("'c.json': expected a JSON object".to_owned())
    );
}

#[test]
fn image_block_is_named_by_default_hasher() {
    let svg = "<svg>diagram</svg>";
    let h = std::hash::BuildHasherDefault::<std::collections::hash_map::DefaultHasher>::default().hash_one(svg);
    let (path, block) = image_block("gazu", svg);
    let (expected_path, expected_block) = image_block_for("gazu", h);
    assert_eq!(path, expected_path);
    assert_eq!(block, expected_block);
}

#[test]
fn parse_and_write_json() {
    let v = parse_json(r#"{"b": [1, 2.5, true, null], "a": "x"}"#).unwrap();
    // serde_json keeps object keys sorted
    let expected = obj(vec![
        ("a", s("x")),
        (
            "b",
            arr(vec![Json::Number("1".to_owned()), Json::Number("2.5".to_owned()), Json::Bool(true), Json::Null]),
        ),
    ]);
    assert_eq!(v, expected);
    assert_eq!(json_text_of(&v), r#"{"a":"x","b":[1,2.5,true,null]}"#);
    assert_eq!(parse_json("{"), None);
    assert_eq!(parse_json(""), None);
}

#[test]
fn filter_input_errors() {
    assert!(matches!(filter_input("not json"), Err(FilterError::InvalidAst)));
    assert!(matches!(filter_input("{}"), Err(FilterError::NoBlocks)));
    assert!(matches!(filter_input("[]"), Err(FilterError::NoBlocks)));
    assert_eq!(FilterError::InvalidAst.message(), "invalid Pandoc AST");
}

#[test]
fn filter_input_and_output_roundtrip() {
    let text = r#"{"blocks":[{"c":[["",["mermaid"],[]],"graph LR"],"t":"CodeBlock"}],"meta":{},"pandoc-api-version":[1,23]}"#;
    let (mut ast, start) = filter_input(text).unwrap();
    match start {
        FilterStart::Render(srcs) => assert_eq!(srcs, vec!["graph LR"]),
        _ => panic!("expected a Mermaid block"),
    }
    assert_eq!(filter_output(&ast), text);
    filter_finish(&mut ast, "html", vec![BlockOutcome::Rendered("<svg/>".to_owned())]);
    assert_eq!(
        filter_output(&ast),
        r#"{"blocks":[{"c":["html","<svg/>"],"t":"RawBlock"}],"meta":{},"pandoc-api-version":[1,23]}"#
    );
    let plain = r#"{"blocks":[{"c":[],"t":"Para"}]}"#;
    assert!(matches!(filter_input(plain), Ok((_, FilterStart::Unchanged))));
}

#[test]
fn config_json_cases() {
    assert_eq!(config_json("c.json", r#"{ "theme": "dark" }"#), Ok(r#"{"theme":"dark"}"#.to_owned()));
    assert_eq!(config_json("c.json", "[1]"), Err("'c.json': expected a JSON object".to_owned()));
    assert_eq!(config_json("c.json", "{oops"), Err("invalid JSON in 'c.json'".to_owned()));
}
