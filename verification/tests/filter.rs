use gazu::filter::{apply_replacements, plan_outcomes};
use gazu::json::Json;
use gazu::pandoc::{collect_mermaid, is_mermaid_block, mermaid_source};
use gazu::renderer::BlockOutcome;

fn s(x: &str) -> Json {
    Json::Str(x.to_owned())
}

fn arr(items: Vec<Json>) -> Json {
    Json::Array(items)
}

fn obj(members: Vec<(&str, Json)>) -> Json {
    Json::Object(members.into_iter().map(|(k, v)| (k.to_owned(), v)).collect())
}

fn attr(classes: &[&str]) -> Json {
    arr(vec![s(""), arr(classes.iter().map(|c| s(c)).collect()), arr(vec![])])
}

fn mermaid(src: &str) -> Json {
    obj(vec![("t", s("CodeBlock")), ("c", arr(vec![attr(&["mermaid"]), s(src)]))])
}

fn raw(svg: &str) -> Json {
    obj(vec![("t", s("RawBlock")), ("c", arr(vec![s("html"), s(svg)]))])
}

fn collect_sources(root: &Json) -> Vec<String> {
    collect_mermaid(root).into_iter().map(|b| mermaid_source(b)).collect()
}

#[test]
fn filter_is_mermaid_true() {
    assert!(is_mermaid_block(&mermaid("graph LR\n A-->B")));
}

#[test]
fn filter_is_mermaid_false_wrong_class() {
    let block = obj(vec![("t", s("CodeBlock")), ("c", arr(vec![attr(&["rust"]), s("fn main(){}")]))]);
    assert!(!is_mermaid_block(&block));
}

#[test]
fn filter_is_mermaid_false_non_codeblock() {
    assert!(!is_mermaid_block(&obj(vec![("t", s("Para")), ("c", arr(vec![]))])));
}

#[test]
fn filter_collect_top_level() {
    let blocks = arr(vec![obj(vec![("t", s("Para")), ("c", arr(vec![]))]), mermaid("graph LR\n A-->B")]);
    assert_eq!(collect_sources(&blocks), vec!["graph LR\n A-->B"]);
}

#[test]
fn filter_collect_skips_non_mermaid() {
    let blocks = arr(vec![
        obj(vec![("t", s("CodeBlock")), ("c", arr(vec![attr(&["rust"]), s("fn main(){}")]))]),
        mermaid("graph TD\n X-->Y"),
    ]);
    assert_eq!(collect_sources(&blocks), vec!["graph TD\n X-->Y"]);
}

#[test]
fn filter_collect_inside_div() {
    let blocks = arr(vec![obj(vec![
        ("t", s("Div")),
        ("c", arr(vec![attr(&[]), arr(vec![mermaid("graph TD\n X-->Y")])])),
    ])]);
    assert_eq!(collect_sources(&blocks), vec!["graph TD\n X-->Y"]);
}

#[test]
fn filter_collect_inside_blockquote() {
    let blocks = arr(vec![obj(vec![("t", s("BlockQuote")), ("c", arr(vec![mermaid("graph LR\n A-->B")]))])]);
    assert_eq!(collect_sources(&blocks), vec!["graph LR\n A-->B"]);
}

fn table_with(block: Json) -> Json {
    // Table cell: c = [Attr, Alignment, RowSpan, ColSpan, [Block]]
    let one = || Json::Number("1".to_owned());
    let cell = obj(vec![(
        "c",
        arr(vec![attr(&[]), s("AlignDefault"), one(), one(), arr(vec![block])]),
    )]);
    let row = obj(vec![("c", arr(vec![attr(&[]), s("Default"), one(), arr(vec![cell])]))]);
    arr(vec![obj(vec![
        ("t", s("Table")),
        ("c", arr(vec![attr(&[]), Json::Null, Json::Null, Json::Null, arr(vec![row])])),
    ])])
}

#[test]
fn filter_collect_inside_table_cell() {
    let blocks = table_with(mermaid("graph LR\n A-->B"));
    assert_eq!(collect_sources(&blocks), vec!["graph LR\n A-->B"]);
}

#[test]
fn filter_collect_multiple_preserves_order() {
    let blocks = arr(vec![mermaid("A"), mermaid("B"), mermaid("C")]);
    assert_eq!(collect_sources(&blocks), vec!["A", "B", "C"]);
}

#[test]
fn filter_collect_empty() {
    let blocks = arr(vec![]);
    assert!(collect_sources(&blocks).is_empty());
}

#[test]
fn filter_replace_rendered_substitutes_svg_for_html() {
    let outcomes = vec![BlockOutcome::Rendered("<svg/>".to_owned())];
    let plan = plan_outcomes(None, outcomes);
    assert!(plan.warnings.is_empty());
    assert!(plan.files.is_empty());
    assert_eq!(plan.replacements, vec![Some(raw("<svg/>"))]);
}

#[test]
fn replace_rendered_plans_image_for_non_html() {
    let dir = "gazu";
    let outcomes = vec![BlockOutcome::Rendered("<svg/>".to_owned())];
    let plan = plan_outcomes(Some(dir), outcomes);
    assert!(plan.warnings.is_empty());
    assert_eq!(plan.files.len(), 1);
    let (path, svg) = &plan.files[0];
    assert!(path.ends_with(".svg"), "{path:?}");
    assert_eq!(svg, "<svg/>");
    let replacement = plan.replacements[0].as_ref().unwrap();
    assert!(replacement.get("t").unwrap().is_str("Para"));
    let image = replacement.get("c").unwrap().at(0).unwrap();
    assert!(image.get("t").unwrap().is_str("Image"));
}

#[test]
fn filter_replace_failed_leaves_original_and_warns() {
    let outcomes = vec![BlockOutcome::Failed("Lexical error".to_owned())];
    let plan = plan_outcomes(None, outcomes);
    assert_eq!(plan.replacements, vec![None]);
    assert!(plan.files.is_empty());
    assert_eq!(plan.warnings.len(), 1);
    assert!(plan.warnings[0].contains("Lexical error"), "{:?}", plan.warnings);
}

#[test]
fn filter_replace_inside_div() {
    let inner_mermaid = mermaid("graph LR\n A-->B");
    let mut blocks = arr(vec![obj(vec![("t", s("Div")), ("c", arr(vec![attr(&[]), arr(vec![inner_mermaid])]))])]);
    assert_eq!(collect_mermaid(&blocks).len(), 1);
    let outcomes = vec![BlockOutcome::Rendered("<svg/>".to_owned())];
    let plan = plan_outcomes(None, outcomes);
    apply_replacements(&mut blocks, plan.replacements);
    let replaced = blocks.at(0).unwrap().get("c").unwrap().at(1).unwrap().at(0).unwrap();
    assert_eq!(replaced, &raw("<svg/>"));
}
