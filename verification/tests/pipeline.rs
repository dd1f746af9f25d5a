use minifier::assemble::{generate_file_from_structure, FileParts};
use minifier::css;
use minifier::html;
use minifier::js;
use minifier::minify::minify_file;
use minifier::parse::{extract_single_tag_content, split_file_into_parts, BlockType, FileStructure};

#[test]
fn test_js_line_comment_and_anchored_trim() {
    // the comment goes, the newline stays, interior indentation stays, and
    // only the fragment's own leading/trailing spaces are stripped
    let out = js::minify(vec!["let x = 1; // comment\n  let y = 2;  "]).unwrap();
    assert_eq!(out.len(), 1);
    assert_eq!(out[0], "let x = 1; \n  let y = 2;");
}

#[test]
fn test_js_block_comment() {
    let out = js::minify(vec!["a /* x\ny */ b"]).unwrap();
    assert_eq!(out[0], "a  b");

    // an unterminated block comment is ordinary text
    let out = js::minify(vec!["a /* x"]).unwrap();
    assert_eq!(out[0], "a /* x");
}

#[test]
fn test_js_comment_on_last_line_runs_to_end() {
    let out = js::minify(vec!["let a = 1; // tail"]).unwrap();
    assert_eq!(out[0], "let a = 1;");
}

#[test]
fn test_css_escaped_quote_in_literal() {
    let out = css::minify(vec![r#"a: "q\"w  e";"#]).unwrap();
    assert_eq!(out[0], r#"a:"q\"w  e";"#);
}

#[test]
fn test_css_unterminated_literal_is_plain_text() {
    let out = css::minify(vec!["a  \"b   c"]).unwrap();
    // no closing quote: the quote is ordinary text and spaces collapse
    assert_eq!(out[0], "a \"b c");
}

#[test]
fn test_css_comment_spanning_lines() {
    let out = css::minify(vec!["a{/* x\n y */b:c}"]).unwrap();
    assert_eq!(out[0], "a{b:c}");
}

#[test]
fn test_html_keeps_text_node_whitespace() {
    let out = html::minify(vec!["<p>a b</p> <p>c</p>"]).unwrap();
    assert_eq!(out[0], "<p>a b</p><p>c</p>");
}

#[test]
fn test_empty_fragment_vectors() {
    assert_eq!(css::minify(vec![]).unwrap().len(), 0);
    assert_eq!(html::minify(vec![]).unwrap().len(), 0);
    assert_eq!(js::minify(vec![]).unwrap().len(), 0);
}

#[test]
fn test_minified_input_is_fixed_point() {
    // a second pass over already-minified text changes nothing
    let css_min = css::minify(vec!["p {\n  margin: 0 10px;\n}"]).unwrap()[0].clone();
    assert_eq!(css::minify(vec![&css_min]).unwrap()[0], css_min);

    let js_min = js::minify(vec!["  f(); // c\n  g();"]).unwrap()[0].clone();
    assert_eq!(js::minify(vec![&js_min]).unwrap()[0], js_min);

    let html_min = html::minify(vec!["<!-- c -->\n<a>\n  <b>t u</b>\n</a>\n"]).unwrap()[0].clone();
    assert_eq!(html::minify(vec![&html_min]).unwrap()[0], html_min);
}

#[test]
fn test_block_order_matches_counts() {
    let doc = "<script>a</script><style>b</style><script>c</script>";
    let result = split_file_into_parts(doc).unwrap();
    assert_eq!(result.block_order.len(), result.js.len() + result.css.len());
    assert_eq!(result.block_order[0], BlockType::Script);
    assert_eq!(result.block_order[1], BlockType::Style);
    assert_eq!(result.block_order[2], BlockType::Script);
}

#[test]
fn test_unclosed_script_content_goes_to_js() {
    let result = split_file_into_parts("<div>content</div><script>console.log('test');").unwrap();
    assert_eq!(result.html.len(), 1);
    assert_eq!(result.html[0], "<div>content</div><script>");
    assert_eq!(result.js.len(), 1);
    assert_eq!(result.js[0], "console.log('test');");
    assert_eq!(result.css.len(), 0);
    assert_eq!(result.block_order.len(), 1);
    assert_eq!(result.block_order[0], BlockType::Script);
}

#[test]
fn test_tag_without_gt_is_ordinary_text() {
    let result = split_file_into_parts("abc<script xyz").unwrap();
    assert_eq!(result.js.len(), 0);
    assert_eq!(result.css.len(), 0);
    assert_eq!(result.html.len(), 1);
    assert_eq!(result.html[0], "abc<script xyz");
}

#[test]
fn test_new_structures_are_empty() {
    let fs = FileStructure::new();
    assert_eq!(fs.html.len(), 0);
    assert_eq!(fs.js.len(), 0);
    assert_eq!(fs.css.len(), 0);
    assert_eq!(fs.block_order.len(), 0);

    let fp = FileParts::new();
    assert_eq!(fp.html.len(), 0);
    assert_eq!(fp.js.len(), 0);
    assert_eq!(fp.css.len(), 0);
    assert_eq!(fp.block_order.len(), 0);
}

#[test]
fn test_reassemble_interleaves_in_block_order() {
    let parts = FileParts {
        html: vec!["H0".to_string(), "H1".to_string(), "H2".to_string()],
        js: vec!["J0".to_string()],
        css: vec!["C0".to_string()],
        block_order: vec![BlockType::Script, BlockType::Style],
    };
    assert_eq!(generate_file_from_structure(&parts), "H0J0H1C0H2");
}

#[test]
fn test_reassemble_skips_exhausted_cursors() {
    let parts = FileParts {
        html: vec!["H0".to_string(), "H1".to_string()],
        js: vec!["J0".to_string()],
        css: vec![],
        block_order: vec![BlockType::Script, BlockType::Script, BlockType::Style],
    };
    assert_eq!(generate_file_from_structure(&parts), "H0J0H1");

    let empty = FileParts::new();
    assert_eq!(generate_file_from_structure(&empty), "");
}

#[test]
fn test_extract_single_tag_content() {
    let r = extract_single_tag_content("<script>abc</script>xyz", 0, "script").unwrap();
    assert_eq!(r, Some(("abc", 20)));

    // closing tag missing: the content runs to the end of the document
    let r = extract_single_tag_content("<script>abc", 0, "script").unwrap();
    assert_eq!(r, Some(("abc", 11)));

    // the opening tag never closes with a `>`
    let r = extract_single_tag_content("<script", 0, "script").unwrap();
    assert_eq!(r, None);
}

#[test]
fn test_minify_file_end_to_end() {
    let doc = "<div>A</div>\n<script>\n// c\nlet a = 1;\n</script>\n<style>\np {\n  color: red;\n}\n</style>\n<p>B</p>";
    let out = minify_file(doc.to_string());
    assert_eq!(
        out,
        "<div>A</div><script>\nlet a = 1;</script><style>p{color:red;}</style><p>B</p>"
    );
}

#[test]
fn test_minify_file_plain_document() {
    assert_eq!(minify_file("".to_string()), "");
    assert_eq!(minify_file("   \n\t  ".to_string()), "");
    assert_eq!(minify_file("<p>a</p>".to_string()), "<p>a</p>");
}
