//! Markdown-to-HTML rendering, delegated to the comrak crate.

use vstd::prelude::*;

verus! {

/// The HTML fragment that rendering a markdown text yields.  The
/// rendering is a function of the text alone; nothing further is
/// assumed about its shape.
pub uninterp spec fn html_of(s: Seq<char>) -> Seq<char>;

/// Relies on `comrak::markdown_to_html` with default options: it
/// computes the HTML rendering of the markdown text, a deterministic
/// function of the text alone.
#[verifier::external_body]
pub(crate) fn render_markdown(body: &str) -> (r: String)
    ensures
        r@ == html_of(body@),
{
    comrak::markdown_to_html(body, &comrak::Options::default())
}

} // verus!
