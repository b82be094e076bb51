use gazu::json::Json;
use gazu::pandoc::{apply_outcomes, collect_mermaid, is_mermaid_block, mermaid_source};
use gazu::renderer::BlockOutcome;

fn s(x: &str) -> Json {
    Json::Str(x.to_owned())
}

fn arr(items: Vec<Json>) -> Json {
    Json::Array(items)
}

fn obj(members: Vec<(&str, Json)>) -> Json {
    Json::Object(members.into_iter().map(|(k, v)| (k.to_owned(), v)).collect())
}

fn attr(classes: &[&str]) -> Json {
    arr(vec![s(""), arr(classes.iter().map(|c| s(c)).collect()), arr(vec![])])
}

fn mermaid(src: &str) -> Json {
    obj(vec![("t", s("CodeBlock")), ("c", arr(vec![attr(&["mermaid"]), s(src)]))])
}

fn raw(svg: &str) -> Json {
    obj(vec![("t", s("RawBlock")), ("c", arr(vec![s("html"), s(svg)]))])
}

fn collect_sources(root: &Json) -> Vec<String> {
    collect_mermaid(root).into_iter().map(|b| mermaid_source(b)).collect()
}

#[test]
fn pandoc_is_mermaid_true() {
    assert!(is_mermaid_block(&mermaid("graph LR\n A-->B")));
}

#[test]
fn pandoc_is_mermaid_false_wrong_class() {
    let block = obj(vec![("t", s("CodeBlock")), ("c", arr(vec![attr(&["rust"]), s("fn main(){}")]))]);
    assert!(!is_mermaid_block(&block));
}

#[test]
fn pandoc_is_mermaid_false_non_codeblock() {
    assert!(!is_mermaid_block(&obj(vec![("t", s("Para")), ("c", arr(vec![]))])));
}

#[test]
fn pandoc_collect_top_level() {
    let blocks = arr(vec![obj(vec![("t", s("Para")), ("c", arr(vec![]))]), mermaid("graph LR\n A-->B")]);
    assert_eq!(collect_sources(&blocks), vec!["graph LR\n A-->B"]);
}

#[test]
fn pandoc_collect_skips_non_mermaid() {
    let blocks = arr(vec![
        obj(vec![("t", s("CodeBlock")), ("c", arr(vec![attr(&["rust"]), s("fn main(){}")]))]),
        mermaid("graph TD\n X-->Y"),
    ]);
    assert_eq!(collect_sources(&blocks), vec!["graph TD\n X-->Y"]);
}

#[test]
fn pandoc_collect_inside_div() {
    let blocks = arr(vec![obj(vec![
        ("t", s("Div")),
        ("c", arr(vec![attr(&[]), arr(vec![mermaid("graph TD\n X-->Y")])])),
    ])]);
    assert_eq!(collect_sources(&blocks), vec!["graph TD\n X-->Y"]);
}

#[test]
fn pandoc_collect_inside_blockquote() {
    let blocks = arr(vec![obj(vec![("t", s("BlockQuote")), ("c", arr(vec![mermaid("graph LR\n A-->B")]))])]);
    assert_eq!(collect_sources(&blocks), vec!["graph LR\n A-->B"]);
}

#[test]
fn pandoc_collect_inside_table_cell() {
    // Table cell: c = [Attr, Alignment, RowSpan, ColSpan, [Block]]
    let one = || Json::Number("1".to_owned());
    let cell = obj(vec![(
        "c",
        arr(vec![attr(&[]), s("AlignDefault"), one(), one(), arr(vec![mermaid("graph LR\n A-->B")])]),
    )]);
    let row = obj(vec![("c", arr(vec![attr(&[]), s("Default"), one(), arr(vec![cell])]))]);
    let blocks = arr(vec![obj(vec![
        ("t", s("Table")),
        ("c", arr(vec![attr(&[]), Json::Null, Json::Null, Json::Null, arr(vec![row])])),
    ])]);
    assert_eq!(collect_sources(&blocks), vec!["graph LR\n A-->B"]);
}

#[test]
fn pandoc_collect_multiple_preserves_order() {
    let blocks = arr(vec![mermaid("A"), mermaid("B"), mermaid("C")]);
    assert_eq!(collect_sources(&blocks), vec!["A", "B", "C"]);
}

#[test]
fn pandoc_collect_empty() {
    let blocks = arr(vec![]);
    assert!(collect_sources(&blocks).is_empty());
}

#[test]
fn pandoc_replace_rendered_substitutes_svg_for_html() {
    let mut blocks = arr(vec![mermaid("graph LR\n A-->B")]);
    let outcomes = vec![BlockOutcome::Rendered("<svg/>".to_owned())];
    let applied = apply_outcomes(".", "html", &mut blocks, outcomes);
    assert!(applied.warnings.is_empty());
    assert_eq!(blocks.at(0).unwrap(), &raw("<svg/>"));
}

#[test]
fn pandoc_replace_rendered_plans_image_file_for_non_html() {
    let mut blocks = arr(vec![mermaid("graph LR\n A-->B")]);
    let outcomes = vec![BlockOutcome::Rendered("<svg/>".to_owned())];
    let applied = apply_outcomes("out", "typst", &mut blocks, outcomes);
    assert!(applied.warnings.is_empty());

    let block = blocks.at(0).unwrap();
    assert!(block.get("t").unwrap().is_str("Para"));
    let image = block.get("c").unwrap().at(0).unwrap();
    assert!(image.get("t").unwrap().is_str("Image"));
    let image_ref = image.get("c").unwrap().at(2).unwrap().at(0).unwrap().as_str().unwrap();
    assert!(image_ref.starts_with("out/") && image_ref.ends_with(".svg"), "{image_ref}");
    // The library plans the file; the caller writes it.
    assert_eq!(applied.files, vec![(image_ref.to_owned(), "<svg/>".to_owned())]);
}

#[test]
fn pandoc_replace_failed_leaves_original_and_warns() {
    let mut blocks = arr(vec![mermaid("bad diagram")]);
    let outcomes = vec![BlockOutcome::Failed("Lexical error".to_owned())];
    let applied = apply_outcomes(".", "html", &mut blocks, outcomes);
    assert_eq!(blocks.at(0).unwrap(), &mermaid("bad diagram"));
    assert_eq!(applied.warnings.len(), 1);
    assert!(applied.warnings[0].contains("Lexical error"), "{:?}", applied.warnings);
}

#[test]
fn pandoc_replace_inside_div() {
    let inner_mermaid = mermaid("graph LR\n A-->B");
    let mut blocks = arr(vec![obj(vec![("t", s("Div")), ("c", arr(vec![attr(&[]), arr(vec![inner_mermaid])]))])]);
    let outcomes = vec![BlockOutcome::Rendered("<svg/>".to_owned())];
    apply_outcomes(".", "html", &mut blocks, outcomes);
    let replaced = blocks.at(0).unwrap().get("c").unwrap().at(1).unwrap().at(0).unwrap();
    assert_eq!(replaced, &raw("<svg/>"));
}
