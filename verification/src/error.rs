//! The ways in which turning a source file into a page can fail.

use vstd::prelude::*;

verus! {

/// What went wrong.
#[derive(Debug, PartialEq, Eq)]
pub enum Error {
    /// Reading the source or writing the page failed.
    Io,
    /// The output path has no parent directory to write into.
    RenderFailed,
    /// The page template does not compile.
    InvalidTemplateSource,
    /// The source is no regular file, or its base name cannot be told.
    InvalidSourceFile,
    /// The language table could not be built.
    LangMapInitFailed,
    /// The documentation of a section could not be rendered.
    DocParseFailed,
    /// The language table has no entry for the extension held here.
    UnsupportedExt(String),
    /// The source path has no extension.
    NoExtension,
}

/// An [`Error`] with the extension it may hold as a sequence of characters.
pub enum ErrorView {
    Io,
    RenderFailed,
    InvalidTemplateSource,
    InvalidSourceFile,
    LangMapInitFailed,
    DocParseFailed,
    UnsupportedExt(Seq<char>),
    NoExtension,
}

impl View for Error {
    type V = ErrorView;

    open spec fn view(&self) -> ErrorView {
        match self {
            Error::Io => ErrorView::Io,
            Error::RenderFailed => ErrorView::RenderFailed,
            Error::InvalidTemplateSource => ErrorView::InvalidTemplateSource,
            Error::InvalidSourceFile => ErrorView::InvalidSourceFile,
            Error::LangMapInitFailed => ErrorView::LangMapInitFailed,
            Error::DocParseFailed => ErrorView::DocParseFailed,
            Error::UnsupportedExt(extension) => ErrorView::UnsupportedExt(extension@),
            Error::NoExtension => ErrorView::NoExtension,
        }
    }
}

impl ErrorView {
    /// The sentence that describes the error.
    pub open spec fn message(self) -> Seq<char> {
        match self {
            ErrorView::Io => "I/O error"@,
            ErrorView::RenderFailed => "Failed rendering template"@,
            ErrorView::InvalidTemplateSource => "Template creation failed"@,
            ErrorView::InvalidSourceFile => "Invalid source file"@,
            ErrorView::LangMapInitFailed => "Language map initialization failed"@,
            ErrorView::DocParseFailed => "Doc parse failed"@,
            ErrorView::UnsupportedExt(_) => "Extension not yet supported"@,
            ErrorView::NoExtension =>
                "Could not find extension of source file or Unsupported source file"@,
        }
    }
}

impl Error {
    /// The sentence that describes the error.
    pub fn message(&self) -> (text: String)
        ensures
            text@ == self@.message(),
    {
        let text: &str = match self {
            Error::Io => "I/O error",
            Error::RenderFailed => "Failed rendering template",
            Error::InvalidTemplateSource => "Template creation failed",
            Error::InvalidSourceFile => "Invalid source file",
            Error::LangMapInitFailed => "Language map initialization failed",
            Error::DocParseFailed => "Doc parse failed",
            Error::UnsupportedExt(_) => "Extension not yet supported",
            Error::NoExtension =>
                "Could not find extension of source file or Unsupported source file",
        };
        text.to_owned()
    }
}

} // verus!
