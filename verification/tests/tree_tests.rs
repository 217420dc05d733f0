use mdbook_drawio::book::{Document, DrawioPreprocessor};

fn b(s: &str) -> Vec<u8> {
    s.as_bytes().to_vec()
}

fn directive() -> Vec<u8> {
    b("{{#drawio path=\"diagrams/x.drawio\" page=1}}")
}

#[test]
fn preprocessor_name_is_fixed() {
    assert_eq!(DrawioPreprocessor.name(), "mdbook-drawio");
}

#[test]
fn preprocessor_supports_every_renderer() {
    assert!(DrawioPreprocessor.supports_renderer("html"));
    assert!(DrawioPreprocessor.supports_renderer("epub"));
}

#[test]
fn nested_documents_get_depth_correct_links() {
    let leaf = Document {
        content: directive(),
        location: Some(vec![b("guide"), b("deep"), b("deeper"), b("leaf.md")]),
        children: Vec::new(),
    };
    let mid = Document {
        content: directive(),
        location: Some(vec![b("guide"), b("deep"), b("page.md")]),
        children: vec![leaf],
    };
    let sibling = Document {
        content: directive(),
        location: Some(vec![b("guide"), b("intro.md")]),
        children: Vec::new(),
    };
    let root = Document {
        content: directive(),
        location: Some(vec![b("start.md")]),
        children: vec![mid, sibling],
    };
    let sections = vec![root];
    let (out, reqs) = DrawioPreprocessor.run(&b("mdbook-drawio"), &sections);
    assert_eq!(out.len(), 1);
    let root_out = &out[0];
    assert_eq!(
        root_out.content,
        b("![Diagram not found at ./mdbook-drawio/x-page-1.svg](./mdbook-drawio/x-page-1.svg)")
    );
    let mid_out = &root_out.children[0];
    assert_eq!(
        mid_out.content,
        b("![Diagram not found at ../../mdbook-drawio/x-page-1.svg](../../mdbook-drawio/x-page-1.svg)")
    );
    let leaf_out = &mid_out.children[0];
    assert_eq!(
        leaf_out.content,
        b("![Diagram not found at ../../../mdbook-drawio/x-page-1.svg](../../../mdbook-drawio/x-page-1.svg)")
    );
    let sibling_out = &root_out.children[1];
    assert_eq!(
        sibling_out.content,
        b("![Diagram not found at ../mdbook-drawio/x-page-1.svg](../mdbook-drawio/x-page-1.svg)")
    );
    // one request per document, parents before children, left to right
    assert_eq!(reqs.len(), 4);
    for r in &reqs {
        assert_eq!(r.source, b("diagrams/x.drawio"));
        assert_eq!(r.page, 1);
        assert_eq!(r.artifact, b("x-page-1.svg"));
    }
}

#[test]
fn document_without_location_sits_at_root() {
    let doc = Document { content: directive(), location: None, children: Vec::new() };
    let (out, reqs) = DrawioPreprocessor.run(&b("gen"), &vec![doc]);
    assert_eq!(
        out[0].content,
        b("![Diagram not found at ./gen/x-page-1.svg](./gen/x-page-1.svg)")
    );
    assert_eq!(reqs.len(), 1);
}

#[test]
fn non_directive_documents_are_untouched() {
    let doc = Document {
        content: b("# Title\n\nplain text\n"),
        location: Some(vec![b("t.md")]),
        children: Vec::new(),
    };
    let (out, reqs) = DrawioPreprocessor.run(&b("mdbook-drawio"), &vec![doc]);
    assert_eq!(out[0].content, b("# Title\n\nplain text\n"));
    assert_eq!(out[0].location, Some(vec![b("t.md")]));
    assert_eq!(reqs.len(), 0);
}
