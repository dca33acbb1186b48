//! Prose: the documentation of a section is Markdown, and is rendered to
//! HTML.

use vstd::prelude::*;

verus! {

/// The HTML that `comrak::markdown_to_html` makes of `markdown` under
/// comrak's default options.
pub uninterp spec fn markdown_html(markdown: Seq<char>) -> Seq<char>;

/// Calls `comrak::markdown_to_html` with `comrak::Options::default()`. The
/// HTML depends on the text alone; nothing else is claimed of it.
#[verifier::external_body]
fn markdown_to_html(markdown: &str) -> (html: String)
    ensures
        html@ == markdown_html(markdown@),
{
    comrak::markdown_to_html(markdown, &comrak::Options::default())
}

/// The HTML of the documentation `doc`: nothing for no documentation, and
/// otherwise the Markdown rendering of the text.
pub open spec fn prose_html(doc: Seq<char>) -> Seq<char> {
    if doc.len() == 0 {
        Seq::empty()
    } else {
        markdown_html(doc)
    }
}

/// Renders the documentation `doc` to HTML.
pub fn render_prose(doc: &str) -> (html: String)
    ensures
        html@ == prose_html(doc@),
{
    if doc.is_empty() {
        String::new()
    } else {
        markdown_to_html(doc)
    }
}

} // verus!
