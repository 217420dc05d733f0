use mdbook_drawio::rewrite::rewrite_content;

fn b(s: &str) -> Vec<u8> {
    s.as_bytes().to_vec()
}

fn dir() -> Vec<u8> {
    b("mdbook-drawio")
}

#[test]
fn rewrites_single_occurrence_and_requests_one_render() {
    let text = b("See {{#drawio path=\"diagrams/x.drawio\" page=2}} below.");
    let (out, reqs) = rewrite_content(&text, 0, &dir());
    assert_eq!(
        out,
        b("See ![Diagram not found at ./mdbook-drawio/x-page-2.svg](./mdbook-drawio/x-page-2.svg) below.")
    );
    assert_eq!(reqs.len(), 1);
    assert_eq!(reqs[0].source, b("diagrams/x.drawio"));
    assert_eq!(reqs[0].page, 2);
    assert_eq!(reqs[0].artifact, b("x-page-2.svg"));
}

#[test]
fn rewrite_does_not_depend_on_render_outcome() {
    // The rewritten text is produced before any renderer runs and stays
    // the same whether rendering later succeeds or fails: the link to
    // the expected artifact is always embedded.
    let text = b("{{#drawio path=\"missing.drawio\" page=1}}");
    let (out, reqs) = rewrite_content(&text, 0, &dir());
    assert_eq!(
        out,
        b("![Diagram not found at ./mdbook-drawio/missing-page-1.svg](./mdbook-drawio/missing-page-1.svg)")
    );
    assert_eq!(reqs.len(), 1);
}

#[test]
fn missing_quote_left_untouched() {
    let text = b("{{#drawio path=diagrams/x.drawio page=2}}");
    let (out, reqs) = rewrite_content(&text, 0, &dir());
    assert_eq!(out, text);
    assert_eq!(reqs.len(), 0);
}

#[test]
fn missing_page_left_untouched() {
    let text = b("{{#drawio path=\"diagrams/x.drawio\"}}");
    let (out, reqs) = rewrite_content(&text, 0, &dir());
    assert_eq!(out, text);
    assert_eq!(reqs.len(), 0);
}

#[test]
fn non_digit_page_left_untouched() {
    let text = b("{{#drawio path=\"diagrams/x.drawio\" page=two}}");
    let (out, reqs) = rewrite_content(&text, 0, &dir());
    assert_eq!(out, text);
    assert_eq!(reqs.len(), 0);
}

#[test]
fn unclosed_directive_left_untouched() {
    let text = b("{{#drawio path=\"x.drawio\" page=1");
    let (out, reqs) = rewrite_content(&text, 0, &dir());
    assert_eq!(out, text);
    assert_eq!(reqs.len(), 0);
}

#[test]
fn directive_does_not_span_newlines() {
    let text = b("{{#drawio path=\"x.drawio\"\n page=1}}");
    let (out, reqs) = rewrite_content(&text, 0, &dir());
    assert_eq!(out, text);
    assert_eq!(reqs.len(), 0);
}

#[test]
fn oversized_page_left_untouched() {
    let text = b("{{#drawio path=\"x.drawio\" page=99999999999999999999}}");
    let (out, reqs) = rewrite_content(&text, 0, &dir());
    assert_eq!(out, text);
    assert_eq!(reqs.len(), 0);
}

#[test]
fn trailing_attributes_are_ignored() {
    let text = b("{{#drawio path=\"x.drawio\" page=1 scale=2}}");
    let (out, reqs) = rewrite_content(&text, 0, &dir());
    assert_eq!(
        out,
        b("![Diagram not found at ./mdbook-drawio/x-page-1.svg](./mdbook-drawio/x-page-1.svg)")
    );
    assert_eq!(reqs.len(), 1);
    assert_eq!(reqs[0].page, 1);
}

#[test]
fn leading_zero_page_is_canonicalized() {
    let text = b("{{#drawio path=\"x.drawio\" page=007}}");
    let (out, reqs) = rewrite_content(&text, 0, &dir());
    assert_eq!(
        out,
        b("![Diagram not found at ./mdbook-drawio/x-page-7.svg](./mdbook-drawio/x-page-7.svg)")
    );
    assert_eq!(reqs[0].page, 7);
    assert_eq!(reqs[0].artifact, b("x-page-7.svg"));
}

#[test]
fn two_occurrences_processed_left_to_right() {
    let text = b("{{#drawio path=\"a.drawio\" page=1}} and {{#drawio path=\"b.drawio\" page=2}}");
    let (out, reqs) = rewrite_content(&text, 1, &dir());
    assert_eq!(
        out,
        b("![Diagram not found at ../mdbook-drawio/a-page-1.svg](../mdbook-drawio/a-page-1.svg) and ![Diagram not found at ../mdbook-drawio/b-page-2.svg](../mdbook-drawio/b-page-2.svg)")
    );
    assert_eq!(reqs.len(), 2);
    assert_eq!(reqs[0].artifact, b("a-page-1.svg"));
    assert_eq!(reqs[1].artifact, b("b-page-2.svg"));
}

#[test]
fn second_rewrite_is_identity_and_requests_nothing() {
    let text = b("See {{#drawio path=\"diagrams/x.drawio\" page=2}} below.");
    let (once, reqs1) = rewrite_content(&text, 0, &dir());
    let (twice, reqs2) = rewrite_content(&once, 0, &dir());
    assert_eq!(twice, once);
    assert_eq!(reqs1.len(), 1);
    assert_eq!(reqs2.len(), 0);
}

#[test]
fn plain_text_passes_through() {
    let text = b("# Heading\n\nJust prose with {braces} and {{handlebars}}.\n");
    let (out, reqs) = rewrite_content(&text, 0, &dir());
    assert_eq!(out, text);
    assert_eq!(reqs.len(), 0);
}
