use mdbook_drawio::paths::{
    artifact_name, build_link, file_name, file_stem, get_result_dir, get_result_dir_abs,
    join_path, location_depth, relative_path_from_chapter, u32_digits,
};

fn b(s: &str) -> Vec<u8> {
    s.as_bytes().to_vec()
}

#[test]
fn digits_render_without_leading_zeros() {
    assert_eq!(u32_digits(0), b("0"));
    assert_eq!(u32_digits(7), b("7"));
    assert_eq!(u32_digits(1200), b("1200"));
    assert_eq!(u32_digits(u32::MAX), b("4294967295"));
}

#[test]
fn file_name_takes_last_segment() {
    assert_eq!(file_name(&b("diagrams/x.drawio")), b("x.drawio"));
    assert_eq!(file_name(&b("x.drawio")), b("x.drawio"));
    assert_eq!(file_name(&b("a/b/c")), b("c"));
}

#[test]
fn file_stem_strips_last_extension_only() {
    assert_eq!(file_stem(&b("x.drawio")), b("x"));
    assert_eq!(file_stem(&b("a.b.c")), b("a.b"));
    assert_eq!(file_stem(&b(".hidden")), b(".hidden"));
    assert_eq!(file_stem(&b("noext")), b("noext"));
}

#[test]
fn artifact_name_combines_stem_page_and_format() {
    assert_eq!(artifact_name(&b("diagrams/x.drawio"), 2), b("x-page-2.svg"));
    assert_eq!(artifact_name(&b("arch.drawio"), 0), b("arch-page-0.svg"));
}

#[test]
fn link_at_root_is_current_directory_relative() {
    assert_eq!(
        build_link(0, &b("mdbook-drawio"), &b("foo-page-1.svg")),
        b("./mdbook-drawio/foo-page-1.svg")
    );
}

#[test]
fn link_two_levels_deep_climbs_twice() {
    assert_eq!(
        build_link(2, &b("mdbook-drawio"), &b("foo-page-1.svg")),
        b("../../mdbook-drawio/foo-page-1.svg")
    );
}

#[test]
fn chapter_depth_counts_parent_segments() {
    assert_eq!(location_depth(&None), 0);
    assert_eq!(location_depth(&Some(vec![b("intro.md")])), 0);
    assert_eq!(location_depth(&Some(vec![b("a"), b("b"), b("c.md")])), 2);
}

#[test]
fn relative_path_from_chapter_at_root() {
    let link = relative_path_from_chapter(
        &Some(vec![b("intro.md")]),
        &b("mdbook-drawio"),
        &b("/proj/src/mdbook-drawio/foo-page-1.svg"),
    );
    assert_eq!(link, b("./mdbook-drawio/foo-page-1.svg"));
}

#[test]
fn relative_path_from_chapter_two_deep() {
    let link = relative_path_from_chapter(
        &Some(vec![b("a"), b("b"), b("c.md")]),
        &b("mdbook-drawio"),
        &b("/proj/src/mdbook-drawio/foo-page-1.svg"),
    );
    assert_eq!(link, b("../../mdbook-drawio/foo-page-1.svg"));
}

#[test]
fn join_path_inserts_single_separator() {
    assert_eq!(join_path(&b("/proj"), &b("d/x.drawio")), b("/proj/d/x.drawio"));
    assert_eq!(join_path(&b("/proj/"), &b("x")), b("/proj/x"));
    assert_eq!(join_path(&b(""), &b("x")), b("x"));
    assert_eq!(join_path(&b("/proj"), &b("/abs")), b("/abs"));
}

#[test]
fn result_dir_defaults_and_overrides() {
    assert_eq!(get_result_dir(&None), b("mdbook-drawio"));
    assert_eq!(get_result_dir(&Some(b("gen"))), b("gen"));
}

#[test]
fn result_dir_abs_sits_under_source_root() {
    assert_eq!(
        get_result_dir_abs(&b("/proj"), &b("src"), &None),
        b("/proj/src/mdbook-drawio")
    );
    assert_eq!(
        get_result_dir_abs(&b("/proj"), &b("src"), &Some(b("gen"))),
        b("/proj/src/gen")
    );
}
