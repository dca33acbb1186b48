use rocco::markdown::render_prose;

#[test]
fn no_documentation_renders_to_nothing() {
    assert_eq!(render_prose(""), "");
}

#[test]
fn markdown_becomes_html() {
    assert_eq!(render_prose("# Title\n"), "<h1>Title</h1>\n");
    assert_eq!(render_prose(" plain words\n"), "<p>plain words</p>\n");
    assert_eq!(render_prose("/// kept\n"), "<p>/// kept</p>\n");
    assert_eq!(render_prose(" * one\n * two\n"), "<ul>\n<li>one</li>\n<li>two</li>\n</ul>\n");
}

#[test]
fn white_space_alone_renders_to_nothing() {
    assert_eq!(render_prose("\n"), "");
    assert_eq!(render_prose(" \n"), "");
}
