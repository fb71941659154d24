use jmmview::extract::html::{inject_style, is_mermaid_script, is_protected, protected_spans, STYLE};
use jmmview::extract::{
    decode_html_entities, escape_html, extract_from_html, extract_from_markdown, rewrite_html,
    rewrite_html_with, Outcome,
};

fn render_ok(_: usize, _: &str) -> Outcome {
    Ok(Some("<svg>ok</svg>".into()))
}

#[test]
fn decodes_entities_including_named_table() {
    assert_eq!(
        decode_html_entities("A--&gt;B &amp; C &#65; &#x42; &mdash;"),
        "A-->B & C A B \u{2014}"
    );
}

#[test]
fn extracts_markdown_fences() {
    let md = "# t\n```mermaid\nsequenceDiagram\nA->>B: hi\n```\n```rust\nfn x(){}\n```\n";
    let blocks = extract_from_markdown(md);
    assert_eq!(blocks.len(), 1);
    assert!(blocks[0].source.contains("sequenceDiagram"));
}

#[test]
fn skips_mermaid_examples_inside_other_fences() {
    let md = "````md\n```mermaid\nflowchart TD\n```\n````\n";
    assert!(extract_from_markdown(md).is_empty());
}

#[test]
fn extracts_pre_mermaid_from_html() {
    let html = r#"<pre class="mermaid">graph TD; A--&gt;B;</pre>"#;
    let blocks = extract_from_html(html);
    assert_eq!(blocks.len(), 1);
    assert_eq!(blocks[0].source, "graph TD; A-->B;");
}

#[test]
fn extracts_language_mermaid_code_from_html() {
    let html = r#"<pre><code class="language-mermaid">graph TD
A --&gt; B</code></pre>"#;
    let blocks = extract_from_html(html);
    assert_eq!(blocks.len(), 1);
    assert!(blocks[0].source.contains("A --> B"));
}

#[test]
fn class_matching_is_token_exact() {
    let html = r#"<div class="mermaid-wrapper"><div class="mermaid">graph TD; A;</div></div><div class="mermaid-fallback">not a diagram</div><div data-class="mermaid">not a diagram either</div>"#;
    let blocks = extract_from_html(html);
    assert_eq!(blocks.len(), 1);
    assert_eq!(blocks[0].source, "graph TD; A;");
}

#[test]
fn ignores_blocks_inside_scripts_and_comments() {
    let html = r#"<script>var t='<div class="mermaid">graph TD; A</div>';</script><!-- <div class="mermaid">graph TD; B</div> --><div class="mermaid">graph TD; C</div>"#;
    let blocks = extract_from_html(html);
    assert_eq!(blocks.len(), 1);
    assert_eq!(blocks[0].source, "graph TD; C");

    let report = rewrite_html(html, false, render_ok);
    assert_eq!(report.rendered, 1);
    assert!(report.html.contains(r#"var t='<div class="mermaid">graph TD; A</div>';"#));
    assert!(report.html.contains(r#"<!-- <div class="mermaid">graph TD; B</div> -->"#));
}

#[test]
fn rewrite_replaces_blocks_and_strips_cdn() {
    let html = r#"<html><head><script src="https://cdn.jsdelivr.net/npm/mermaid@11/dist/mermaid.min.js"></script><script>mermaid.initialize({startOnLoad:true});</script></head><body><div class="mermaid">graph TD; A--&gt;B;</div></body></html>"#;
    let report = rewrite_html(html, false, render_ok);
    assert_eq!(report.rendered, 1);
    assert_eq!(report.scripts_removed, 2);
    assert!(report.html.contains("<svg>ok</svg>"));
    assert!(!report.html.contains("jsdelivr"));
    assert!(report.html.contains("jmmview-style"));
}

#[test]
fn rewrite_keeps_non_mermaid_scripts() {
    let html = r#"<script>console.log("hi")</script><script>/* important: mermaid docs */ initNav();</script><div class="mermaid">graph TD; A;</div>"#;
    let report = rewrite_html(html, false, render_ok);
    assert_eq!(report.scripts_removed, 0);
    assert!(report.html.contains("console.log"));
    assert!(report.html.contains("initNav"));
}

#[test]
fn rewrite_strips_esm_import_scripts() {
    let html = r#"<script type="module">import mermaid from "https://cdn.jsdelivr.net/npm/mermaid@11/dist/mermaid.esm.min.mjs";</script><div class="mermaid">graph TD; A;</div>"#;
    let report = rewrite_html(html, false, render_ok);
    assert_eq!(report.scripts_removed, 1);
}

#[test]
fn rewrite_keeps_scripts_when_a_block_fails() {
    let html = r#"<script src="https://cdn.jsdelivr.net/npm/mermaid@11/dist/mermaid.min.js"></script><div class="mermaid">good graph</div><div class="mermaid">bad graph</div>"#;
    let report = rewrite_html(html, false, |_, src| {
        if src.contains("bad") {
            Ok(None)
        } else {
            Ok(Some("<svg/>".into()))
        }
    });
    assert_eq!(report.rendered, 1);
    assert_eq!(report.failed.len(), 1);
    assert_eq!(report.scripts_removed, 0);
    assert!(report.html.contains("jsdelivr"));
}

#[test]
fn markdown_accepts_tilde_fences_and_ignores_case() {
    let md = "~~~MerMaid\ngraph TD\n~~~\n";
    let blocks = extract_from_markdown(md);
    assert_eq!(blocks.len(), 1);
    assert_eq!(blocks[0].source, "graph TD\n");
}

#[test]
fn markdown_info_word_must_be_exactly_mermaid() {
    assert!(extract_from_markdown("```mermaidx\ngraph TD\n```\n").is_empty());
    let blocks = extract_from_markdown("```mermaid title=x\ngraph TD\n```\n");
    assert_eq!(blocks.len(), 1);
    assert_eq!(blocks[0].source, "graph TD\n");
}

#[test]
fn markdown_strips_the_fence_indentation_only() {
    let md = "  ```mermaid\n    graph TD\n   A\n B\n  ```\n";
    let blocks = extract_from_markdown(md);
    assert_eq!(blocks.len(), 1);
    assert_eq!(blocks[0].source, "  graph TD\n A\nB\n");
}

#[test]
fn markdown_indentation_is_counted_in_bytes() {
    // An ideographic space is three bytes wide: the body loses up to three blanks.
    let md = "\u{3000}```mermaid\n    graph TD\n\u{3000}```\n";
    let blocks = extract_from_markdown(md);
    assert_eq!(blocks.len(), 1);
    assert_eq!(blocks[0].source, " graph TD\n");
}

#[test]
fn markdown_unclosed_fence_runs_to_the_end() {
    let blocks = extract_from_markdown("```mermaid\ngraph TD\nA-->B");
    assert_eq!(blocks.len(), 1);
    assert_eq!(blocks[0].source, "graph TD\nA-->B\n");
}

#[test]
fn markdown_drops_blank_blocks_and_handles_crlf() {
    assert!(extract_from_markdown("```mermaid\n   \n```\n").is_empty());
    let blocks = extract_from_markdown("```mermaid\r\ngraph TD\r\n```\r\n");
    assert_eq!(blocks.len(), 1);
    assert_eq!(blocks[0].source, "graph TD\n");
}

#[test]
fn markdown_closing_fence_must_be_long_enough() {
    let md = "````mermaid\ngraph TD\n```\nA\n````\nafter\n";
    let blocks = extract_from_markdown(md);
    assert_eq!(blocks.len(), 1);
    assert_eq!(blocks[0].source, "graph TD\n```\nA\n");
}

#[test]
fn markdown_blocks_are_not_blank_and_end_with_newline() {
    let md = "```mermaid\na\n```\ntext\n```mermaid\nb\n\n```\n```mermaid\n\n```\n";
    let blocks = extract_from_markdown(md);
    assert_eq!(blocks.len(), 2);
    for b in &blocks {
        assert!(!b.source.trim().is_empty());
        assert!(b.source.ends_with('\n'));
    }
}

#[test]
fn html_inner_markup_is_stripped() {
    let html = r#"<pre class="mermaid"><span class="k">graph</span> TD<br>A<BR/>B</pre>"#;
    let blocks = extract_from_html(html);
    assert_eq!(blocks.len(), 1);
    assert_eq!(blocks[0].source, "graph TD\nA\nB");
}

#[test]
fn html_tags_match_in_any_case_and_lang_prefix() {
    let html = r#"<PRE CLASS='x mermaid'>a</PRE><pre><code class="lang-mermaid">b</code></pre><div class="mermaid">  </div>"#;
    let blocks = extract_from_html(html);
    assert_eq!(blocks.len(), 2);
    assert_eq!(blocks[0].source, "a");
    assert_eq!(blocks[1].source, "b");
}

#[test]
fn rewrite_keeps_source_escaped_when_asked() {
    let html = r#"<div class="mermaid">A --&gt; B</div>"#;
    let report = rewrite_html(html, true, render_ok);
    assert_eq!(
        report.html,
        concat_style(
            r#"<figure class="jmmview-diagram"><svg>ok</svg><details><summary>mermaid source</summary><pre>A --&gt; B</pre></details></figure>"#
        )
    );
}

fn concat_style(body: &str) -> String {
    let mut s = String::from(STYLE);
    s.push_str(body);
    s
}

#[test]
fn rewrite_reports_failures_with_block_numbers() {
    let html = r#"<div class="mermaid">one</div><pre class="mermaid">two</pre><div class="mermaid">three</div>"#;
    let outcomes: Vec<Outcome> = vec![Err("boom".to_string()), Ok(None), Ok(Some("<svg/>".into()))];
    let report = rewrite_html_with(html, false, &outcomes);
    assert_eq!(report.rendered, 1);
    assert_eq!(
        report.failed,
        vec![
            "block 1: boom".to_string(),
            "block 2: not recognized as a mermaid diagram".to_string()
        ]
    );
    assert_eq!(report.rendered + report.failed.len(), extract_from_html(html).len());
}

#[test]
fn rewrite_with_every_block_failing_leaves_the_page_unchanged() {
    let html = r#"<script src="mermaid.js"></script><div class="mermaid">a</div><p>x</p><div class="mermaid">b</div>"#;
    let report = rewrite_html(html, true, |_, _| Ok(None));
    assert_eq!(report.html, html);
    assert_eq!(report.rendered, 0);
    assert_eq!(report.failed.len(), 2);
    assert_eq!(report.scripts_removed, 0);
}

#[test]
fn rewrite_without_blocks_still_drops_mermaid_scripts() {
    let html = r#"<head><script src="https://unpkg.com/mermaid/dist/mermaid.min.js"></script></head><p>x</p>"#;
    let report = rewrite_html(html, false, render_ok);
    assert_eq!(report.rendered, 0);
    assert_eq!(report.scripts_removed, 1);
    assert_eq!(report.html, "<head></head><p>x</p>");
}

#[test]
fn rewrite_keeps_scripts_inside_comments() {
    let html = r#"<!-- <script>mermaid.run()</script> --><div class="mermaid">a</div>"#;
    let report = rewrite_html(html, false, render_ok);
    assert_eq!(report.scripts_removed, 0);
    assert!(report.html.contains("<script>mermaid.run()</script>"));
}

#[test]
fn rewrite_numbers_the_blocks_it_renders() {
    let html = r#"<div class="mermaid">a</div><div class="mermaid">b</div>"#;
    let report = rewrite_html(html, false, |i, s| Ok(Some(format!("<svg>{i}{s}</svg>"))));
    assert!(report.html.contains("<svg>1a</svg>"));
    assert!(report.html.contains("<svg>2b</svg>"));
    assert_eq!(report.rendered, 2);
}

#[test]
fn style_goes_before_head_once() {
    let page = "<html><head><title>t</title></HEAD ><body></body></html>";
    let once = inject_style(page);
    assert_eq!(once, format!("<html><head><title>t</title>{STYLE}</HEAD ><body></body></html>"));
    assert_eq!(inject_style(&once), once);
    assert_eq!(inject_style("<p>x</p>"), format!("{STYLE}<p>x</p>"));
}

#[test]
fn mermaid_scripts_are_recognized_by_src_call_or_import() {
    assert!(is_mermaid_script(r#"<script src="/js/mermaid.min.js"></script>"#));
    assert!(is_mermaid_script("<script>mermaid . run ( )</script>"));
    assert!(is_mermaid_script("<script>Mermaid.init(x)</script>"));
    assert!(is_mermaid_script(r#"<script>const m = await import("mermaid");</script>"#));
    assert!(!is_mermaid_script("<script>/* important: mermaid docs */ initNav();</script>"));
    assert!(!is_mermaid_script(r#"<script src="/js/app.js"></script>"#));
}

#[test]
fn protected_spans_are_ordered() {
    let html = "<!--c--><script>s</script><!--d-->";
    let spans = protected_spans(html);
    assert_eq!(spans, vec![(0, 8), (8, 26), (26, 34)]);
    assert!(is_protected(&spans, 8));
    assert!(!is_protected(&spans, 34));
}

#[test]
fn entity_helpers() {
    assert_eq!(escape_html("a<b&c>d\"'"), "a&lt;b&amp;c&gt;d\"'");
    assert_eq!(decode_html_entities("no references here"), "no references here");
    assert_eq!(decode_html_entities("1&times2&lt;3"), "1\u{d7}2<3");
}

#[test]
fn markdown_blocks_of_a_concatenation() {
    let a = "```mermaid\na\n```\ntext\n";
    let b = "~~~mermaid\nb\n~~~\n";
    let joined = format!("{a}{b}");
    let src = |md: &str| extract_from_markdown(md).into_iter().map(|x| x.source).collect::<Vec<_>>();
    let mut expected = src(a);
    expected.extend(src(b));
    assert_eq!(src(&joined), expected);
    assert_eq!(expected, vec!["a\n".to_string(), "b\n".to_string()]);
}

#[test]
fn failed_rewrite_only_touches_rendered_blocks() {
    let html = r#"<script src="mermaid.js"></script><div class="mermaid">good</div><div class="mermaid">bad</div>"#;
    let report = rewrite_html(html, false, |_, s| if s == "bad" { Ok(None) } else { Ok(Some("<svg/>".into())) });
    assert_eq!(report.scripts_removed, 0);
    assert_eq!(
        report.html,
        concat_style(r#"<script src="mermaid.js"></script><figure class="jmmview-diagram"><svg/></figure><div class="mermaid">bad</div>"#)
    );
}
