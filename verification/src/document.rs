//! Building one `Markdown` document from a source path and its raw
//! text: ordered gate checks, front-matter extraction and decoding,
//! and rendering of the body.

use vstd::prelude::*;

use crate::front_matter::{
    decode_error_text, decode_front_matter, extract_front_matter, spec_decode, spec_extract,
    DecodeError, FrontMatter, FrontMatterView,
};
use crate::paths::{is_markdown, spec_is_markdown};
use crate::render::{html_of, render_markdown};

verus! {

/// One processed markdown file: where it came from, its filesystem
/// modification time (if known), its decoded front matter, and the
/// HTML rendering of its body.
#[derive(Debug)]
pub struct Markdown {
    path: String,
    modified_at_unix: Option<u64>,
    metadata: FrontMatter,
    content: String,
}

/// Mathematical model of a `Markdown` document.
pub ghost struct MarkdownView {
    pub path: Seq<char>,
    pub modified_at_unix: Option<u64>,
    pub metadata: FrontMatterView,
    pub content: Seq<char>,
}

impl View for Markdown {
    type V = MarkdownView;

    closed spec fn view(&self) -> MarkdownView {
        MarkdownView {
            path: self.path@,
            modified_at_unix: self.modified_at_unix,
            metadata: self.metadata@,
            content: self.content@,
        }
    }
}

/// Why a source path did not become a document.
#[derive(Debug)]
pub enum BuildError {
    /// The path does not exist.
    PathNotFound,
    /// The path is not a regular file.
    NotAFile,
    /// The path is not a markdown file.
    NotMarkdown,
    /// The text has no front-matter block.
    MissingFrontMatter,
    /// The front-matter block does not decode; carries the cause and
    /// the offending block text.
    InvalidFrontMatter(DecodeError, String),
    /// The file could not be read as text.
    ReadError,
    /// The document output could not be written.
    WriteError,
}

/// Mathematical model of a `BuildError`.
pub ghost enum BuildErrorView {
    PathNotFound,
    NotAFile,
    NotMarkdown,
    MissingFrontMatter,
    InvalidFrontMatter(DecodeError, Seq<char>),
    ReadError,
    WriteError,
}

impl View for BuildError {
    type V = BuildErrorView;

    open spec fn view(&self) -> BuildErrorView {
        match self {
            BuildError::PathNotFound => BuildErrorView::PathNotFound,
            BuildError::NotAFile => BuildErrorView::NotAFile,
            BuildError::NotMarkdown => BuildErrorView::NotMarkdown,
            BuildError::MissingFrontMatter => BuildErrorView::MissingFrontMatter,
            BuildError::InvalidFrontMatter(e, raw) => BuildErrorView::InvalidFrontMatter(*e, raw@),
            BuildError::ReadError => BuildErrorView::ReadError,
            BuildError::WriteError => BuildErrorView::WriteError,
        }
    }
}

/// The wording of each build error, with the path it concerns; an
/// undecodable front matter also shows its cause and the block text.
pub open spec fn build_error_text(e: BuildErrorView, path: Seq<char>) -> Seq<char> {
    match e {
        BuildErrorView::PathNotFound => "path does not exist: "@ + path,
        BuildErrorView::NotAFile => "not a file: "@ + path,
        BuildErrorView::NotMarkdown => "not a markdown file: "@ + path,
        BuildErrorView::MissingFrontMatter => "missing front matter in: "@ + path,
        BuildErrorView::InvalidFrontMatter(cause, raw) => "invalid front matter in: "@ + path
            + " ("@ + decode_error_text(cause) + "), block is: "@ + raw,
        BuildErrorView::ReadError => "failed to read: "@ + path,
        BuildErrorView::WriteError => "failed to write output for: "@ + path,
    }
}

impl BuildError {
    /// The operator-facing description of the error for one path.
    pub fn message(&self, path: &str) -> (r: String)
        ensures
            r@ == build_error_text(self@, path@),
    {
        let mut out = String::new();
        match self {
            BuildError::PathNotFound => {
                out.append("path does not exist: ");
                out.append(path);
            },
            BuildError::NotAFile => {
                out.append("not a file: ");
                out.append(path);
            },
            BuildError::NotMarkdown => {
                out.append("not a markdown file: ");
                out.append(path);
            },
            BuildError::MissingFrontMatter => {
                out.append("missing front matter in: ");
                out.append(path);
            },
            BuildError::InvalidFrontMatter(cause, raw) => {
                out.append("invalid front matter in: ");
                out.append(path);
                out.append(" (");
                out.append(cause.message());
                out.append("), block is: ");
                out.append(raw.as_str());
            },
            BuildError::ReadError => {
                out.append("failed to read: ");
                out.append(path);
            },
            BuildError::WriteError => {
                out.append("failed to write output for: ");
                out.append(path);
            },
        }
        proof {
            assert(out@ =~= build_error_text(self@, path@));
        }
        out
    }
}

/// What building a document from a path and its text yields.  The
/// gates run in order: existence, regular-file, markdown extension;
/// then the front matter is extracted and decoded and the body
/// rendered.  A record comes back exactly when every gate passes.
pub open spec fn spec_build(
    path: Seq<char>,
    exists: bool,
    is_file: bool,
    modified: Option<u64>,
    text: Seq<char>,
) -> Result<MarkdownView, BuildErrorView> {
    if !exists {
        Err(BuildErrorView::PathNotFound)
    } else if !is_file {
        Err(BuildErrorView::NotAFile)
    } else if !spec_is_markdown(path) {
        Err(BuildErrorView::NotMarkdown)
    } else {
        match spec_extract(text) {
            None => Err(BuildErrorView::MissingFrontMatter),
            Some(pair) => match spec_decode(pair.0) {
                Err(e) => Err(BuildErrorView::InvalidFrontMatter(e, pair.0)),
                Ok(fm) => Ok(
                    MarkdownView {
                        path,
                        modified_at_unix: modified,
                        metadata: fm,
                        content: html_of(pair.1),
                    },
                ),
            },
        }
    }
}

/// The executable result agrees with the specified one.
pub open spec fn build_result_matches(
    r: Result<Markdown, BuildError>,
    s: Result<MarkdownView, BuildErrorView>,
) -> bool {
    match r {
        Ok(md) => match s {
            Ok(mv) => md@ == mv,
            Err(_) => false,
        },
        Err(e) => match s {
            Ok(_) => false,
            Err(ev) => e@ == ev,
        },
    }
}

impl Markdown {
    /// Builds a document from its source path and raw text.  The
    /// caller reports whether the path exists and is a regular file,
    /// and the modification time if the filesystem gave one.
    pub fn build(
        path: String,
        exists: bool,
        is_file: bool,
        modified_at_unix: Option<u64>,
        text: &str,
    ) -> (r: Result<Markdown, BuildError>)
        ensures
            build_result_matches(r, spec_build(path@, exists, is_file, modified_at_unix, text@)),
    {
        if !exists {
            return Err(BuildError::PathNotFound);
        }
        if !is_file {
            return Err(BuildError::NotAFile);
        }
        if !is_markdown(path.as_str()) {
            return Err(BuildError::NotMarkdown);
        }
        let (block, body) = match extract_front_matter(text) {
            None => {
                return Err(BuildError::MissingFrontMatter);
            },
            Some(pair) => pair,
        };
        let metadata = match decode_front_matter(block.as_str()) {
            Err(e) => {
                return Err(BuildError::InvalidFrontMatter(e, block));
            },
            Ok(fm) => fm,
        };
        let content = render_markdown(body.as_str());
        Ok(Markdown { path, modified_at_unix, metadata, content })
    }

    /// The source path of the document.
    pub fn path(&self) -> (r: &String)
        ensures
            r@ == self@.path,
    {
        &self.path
    }

    /// The modification time the filesystem reported, if any.
    pub fn modified_at_unix(&self) -> (r: Option<u64>)
        ensures
            r == self@.modified_at_unix,
    {
        self.modified_at_unix
    }

    /// The decoded front matter.
    pub fn metadata(&self) -> (r: &FrontMatter)
        ensures
            r@ == self@.metadata,
    {
        &self.metadata
    }

    /// The HTML rendering of the document body.
    pub fn content(&self) -> (r: &String)
        ensures
            r@ == self@.content,
    {
        &self.content
    }
}

/// A path without a markdown extension is rejected before its text
/// plays any part: any two texts fail alike, so such a file is never
/// parsed.
pub proof fn lemma_non_markdown_never_parsed(
    path: Seq<char>,
    modified: Option<u64>,
    t1: Seq<char>,
    t2: Seq<char>,
)
    requires
        !spec_is_markdown(path),
    ensures
        spec_build(path, true, true, modified, t1) == Err::<MarkdownView, _>(
            BuildErrorView::NotMarkdown,
        ),
        spec_build(path, true, true, modified, t1) == spec_build(path, true, true, modified, t2),
{
}

/// A front-matter block that does not decode fails the build with
/// that decode error and the offending block text.
pub proof fn lemma_bad_front_matter_fails(
    path: Seq<char>,
    modified: Option<u64>,
    text: Seq<char>,
    e: DecodeError,
)
    requires
        spec_is_markdown(path),
        spec_extract(text) is Some,
        spec_decode(spec_extract(text).unwrap().0) == Err::<FrontMatterView, _>(e),
    ensures
        spec_build(path, true, true, modified, text) == Err::<MarkdownView, _>(
            BuildErrorView::InvalidFrontMatter(e, spec_extract(text).unwrap().0),
        ),
{
}

/// The rendered content of a built document is the rendering of the
/// body that follows the closing fence: the front-matter block, both
/// fence lines included, lies in the part of the text that is never
/// rendered.
pub proof fn lemma_content_excludes_front_matter(
    path: Seq<char>,
    modified: Option<u64>,
    text: Seq<char>,
)
    requires
        spec_build(path, true, true, modified, text) is Ok,
    ensures
        ({
            let md = spec_build(path, true, true, modified, text)->Ok_0;
            let body = spec_extract(text).unwrap().1;
            let block = spec_extract(text).unwrap().0;
            let b0 = crate::front_matter::fm_start(text);
            let e0 = crate::text::first_nl(text, b0);
            let c = crate::front_matter::find_fence(text, e0 + 1);
            &&& md.content == html_of(body)
            &&& crate::front_matter::is_fence_line(text, b0)
            &&& 0 <= b0 <= e0 < c < text.len()
            &&& crate::front_matter::is_fence_line(text, c)
            &&& block == text.subrange(e0 + 1, c)
            &&& exists|k: int| c < k <= text.len() && body == text.skip(k)
        }),
{
    crate::front_matter::lemma_extract_excludes_block(text);
}

} // verus!
