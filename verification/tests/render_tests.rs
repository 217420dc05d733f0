use mdbook_drawio::render::{render_outcome, renderer_command, RenderError, RenderRequest};

fn b(s: &str) -> Vec<u8> {
    s.as_bytes().to_vec()
}

#[test]
fn command_uses_default_binary_and_exact_arguments() {
    let req = RenderRequest { source: b("diagrams/x.drawio"), page: 2, artifact: b("x-page-2.svg") };
    let argv = renderer_command(&None, &b("/proj"), &b("/proj/src/mdbook-drawio"), &req);
    let want: Vec<Vec<u8>> = vec![
        b("drawio"),
        b("-x"),
        b("/proj/diagrams/x.drawio"),
        b("-p"),
        b("2"),
        b("-f"),
        b("svg"),
        b("-o"),
        b("/proj/src/mdbook-drawio/x-page-2.svg"),
        b("--no-sandbox"),
    ];
    assert_eq!(argv, want);
}

#[test]
fn command_honours_configured_binary() {
    let req = RenderRequest { source: b("d.drawio"), page: 0, artifact: b("d-page-0.svg") };
    let argv = renderer_command(&Some(b("/opt/drawio/drawio")), &b("/p"), &b("/p/src/gen"), &req);
    assert_eq!(argv[0], b("/opt/drawio/drawio"));
    assert_eq!(argv[4], b("0"));
}

#[test]
fn outcome_is_success_only_when_artifact_appears() {
    assert!(render_outcome(true, true).is_ok());
    assert_eq!(render_outcome(true, false), Err(RenderError::ArtifactMissing));
    assert_eq!(render_outcome(false, false), Err(RenderError::ArtifactMissing));
    assert_eq!(render_outcome(false, true), Err(RenderError::ArtifactMissing));
}
