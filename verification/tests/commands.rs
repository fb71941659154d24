use std::path::Path;

use jmmview::commands::{
    check_in_place, diagram_id, html_target, document_blocks, export_failure, export_file_name, export_stem,
    export_verdict, html_verdict, input_kind, no_blocks_message, render_diagram_id, render_format,
    InputKind,
};
use jmmview::renderer::Format;

#[test]
fn input_kinds() {
    assert_eq!(input_kind(true, Some("html"), InputKind::Mmd), InputKind::Mmd);
    assert_eq!(input_kind(false, Some("HTM"), InputKind::Mmd), InputKind::Html);
    assert_eq!(input_kind(false, Some("mermaid"), InputKind::Md), InputKind::Mmd);
    assert_eq!(input_kind(false, Some("mmd"), InputKind::Md), InputKind::Mmd);
    assert_eq!(input_kind(false, Some("txt"), InputKind::Html), InputKind::Md);
    assert_eq!(input_kind(false, None, InputKind::Html), InputKind::Md);
}

#[test]
fn document_blocks_by_kind() {
    let text = "```mermaid\na\n```\n";
    assert_eq!(document_blocks(InputKind::Md, text)[0].source, "a\n");
    assert_eq!(document_blocks(InputKind::Mmd, text)[0].source, text);
    assert!(document_blocks(InputKind::Html, text).is_empty());
}

#[test]
fn stems_and_names() {
    assert_eq!(export_stem(Some("x"), Some("doc")), "x");
    assert_eq!(export_stem(None, Some("doc")), "doc");
    assert_eq!(export_stem(None, Some("-")), "diagram");
    assert_eq!(export_stem(None, None), "diagram");
    assert_eq!(export_file_name("doc", 0, 1, Format::Svg), "doc.svg");
    assert_eq!(export_file_name("doc", 1, 12, Format::Png), "doc-2.png");
    assert_eq!(export_file_name("doc", 9, 12, Format::Jpeg), "doc-10.jpg");
    assert_eq!(diagram_id("doc", 0), "doc-1");
    assert_eq!(diagram_id("doc", 99), "doc-100");
}

#[test]
fn messages_and_verdicts() {
    assert_eq!(export_failure(0, None), "block 1: not recognized as mermaid");
    assert_eq!(export_failure(4, Some("boom")), "block 5: boom");
    assert_eq!(no_blocks_message("a.md"), "no mermaid blocks found in a.md");
    assert_eq!(export_verdict(0, 3, 3, false), Err("all 3 mermaid block(s) failed to render".to_string()));
    assert_eq!(export_verdict(1, 2, 3, true), Err("2 mermaid block(s) failed to render".to_string()));
    assert_eq!(export_verdict(1, 2, 3, false), Ok(()));
    assert_eq!(export_verdict(3, 0, 3, true), Ok(()));
    assert_eq!(html_verdict(2, true), Err("2 mermaid block(s) failed to render".to_string()));
    assert_eq!(html_verdict(2, false), Ok(()));
    assert_eq!(html_verdict(0, true), Ok(()));
    assert_eq!(
        check_in_place(true, true),
        Err("--in-place requires a file input, not stdin".to_string())
    );
    assert_eq!(check_in_place(true, false), Ok(()));
}

#[test]
fn single_render_format_and_id() {
    assert_eq!(render_format(Some(Format::Pdf), Some(Path::new("a.png"))), Some(Format::Pdf));
    assert_eq!(render_format(None, None), Some(Format::Svg));
    assert_eq!(render_format(None, Some(Path::new("a.png"))), Some(Format::Png));
    assert_eq!(render_format(None, Some(Path::new("a.gif"))), None);
    assert_eq!(render_diagram_id(Some("out")), "out");
    assert_eq!(render_diagram_id(None), "jmmview");
}

#[test]
fn html_targets() {
    assert_eq!(html_target(true, "in.html", Some("out.html")), Some("in.html"));
    assert_eq!(html_target(false, "in.html", Some("out.html")), Some("out.html"));
    assert_eq!(html_target(false, "in.html", None), None);
}
