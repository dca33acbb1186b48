//! The document: the sections of one source file, and what the page that
//! shows them is made from.

use crate::error::{Error, ErrorView};
use crate::language::{LanguageTable, LanguageView};
use crate::markdown::{prose_html, render_prose};
use crate::path::{
    extension_of, file_name, parent, path_file_name, path_parent, split_file_name, stem_of,
};
use crate::section::{section_views, Section, SectionView};
use crate::segment::{
    blocks, blocks_from, code_text, lemma_code_is_escaped, lemma_empty_line_parts_code, lemma_section_count,
    section_starts, segment,
};
use crate::text::{has_no_angle_bracket, is_code_line};
use crate::template::{compiles, template_compiles};
use vstd::prelude::*;
use vstd::string::StringExecFns;

verus! {

/// What the file system holds at a path.
#[derive(Debug, Clone, Copy, PartialEq, Eq)]
pub enum PathKind {
    /// A regular file.
    File,
    /// A directory.
    Directory,
    /// Nothing, or something that is neither.
    Other,
}

/// A path, and what the file system holds there.
#[derive(Debug)]
pub struct Location {
    pub path: String,
    pub kind: PathKind,
}

/// A [`Location`] with its path as a sequence of characters.
pub struct LocationView {
    pub path: Seq<char>,
    pub kind: PathKind,
}

impl View for Location {
    type V = LocationView;

    open spec fn view(&self) -> LocationView {
        LocationView { path: self.path@, kind: self.kind }
    }
}

/// The view of the location `output`, where there is one.
pub open spec fn target_view(output: Option<Location>) -> Option<LocationView> {
    match output {
        Some(target) => Some(target@),
        None => None,
    }
}

/// Where to write the page: the directory that has to exist, and the file.
#[derive(Debug)]
pub struct RenderTarget {
    pub directory: String,
    pub file: String,
}

/// A document.
pub struct Docco {
    sections: Vec<Section>,
    css: String,
    html: String,
    filename: String,
    output: String,
    extension: String,
    language: String,
    doc_symbol: String,
}

/// A [`Docco`] as sequences.
pub struct DoccoView {
    pub sections: Seq<SectionView>,
    pub css: Seq<char>,
    pub html: Seq<char>,
    pub filename: Seq<char>,
    pub output: Seq<char>,
    pub extension: Seq<char>,
    pub language: Seq<char>,
    pub doc_symbol: Seq<char>,
}

impl DoccoView {
    /// What holds of every document: its comment delimiter is not empty, and
    /// each of its sections bears the number of its place.
    pub open spec fn valid(self) -> bool {
        &&& self.doc_symbol.len() > 0
        &&& forall|i: int| 0 <= i < self.sections.len() ==> (#[trigger] self.sections[i]).num == i
    }
}

impl View for Docco {
    type V = DoccoView;

    closed spec fn view(&self) -> DoccoView {
        DoccoView {
            sections: section_views(self.sections@),
            css: self.css@,
            html: self.html@,
            filename: self.filename@,
            output: self.output@,
            extension: self.extension@,
            language: self.language@,
            doc_symbol: self.doc_symbol@,
        }
    }
}

/// The path of the page for a source whose file name is `file_name`: the
/// path asked for; in a directory asked for, or else in the current one, the
/// stem of the file name with `.html`. There is none where the file name is
/// needed and the source has none.
pub open spec fn output_path(file_name: Option<Seq<char>>, output: Option<LocationView>) -> Option<
    Seq<char>,
> {
    match output {
        Some(target) => if target.kind is Directory {
            match file_name {
                Some(name) => Some(target.path + "/"@ + stem_of(name) + ".html"@),
                None => None,
            }
        } else {
            Some(target.path)
        },
        None => match file_name {
            Some(name) => Some(stem_of(name) + ".html"@),
            None => None,
        },
    }
}

/// The extension of a source whose file name is `file_name`.
pub open spec fn source_extension(file_name: Option<Seq<char>>) -> Option<Seq<char>> {
    match file_name {
        Some(name) => extension_of(name),
        None => None,
    }
}

/// The document for a source whose file name is `file_name`, or the reason
/// why there is none.
pub open spec fn new_document(
    source: LocationView,
    file_name: Option<Seq<char>>,
    output: Option<LocationView>,
    languages: Map<Seq<char>, LanguageView>,
    css: Seq<char>,
    html: Seq<char>,
) -> Result<DoccoView, ErrorView> {
    if !(source.kind is File) {
        Err(ErrorView::InvalidSourceFile)
    } else if output_path(file_name, output) is None {
        Err(ErrorView::InvalidSourceFile)
    } else if source_extension(file_name) is None {
        Err(ErrorView::NoExtension)
    } else if !languages.dom().contains(source_extension(file_name)->0) {
        Err(ErrorView::UnsupportedExt(source_extension(file_name)->0))
    } else {
        Ok(
            DoccoView {
                sections: Seq::empty(),
                css,
                html,
                filename: source.path,
                output: output_path(file_name, output)->0,
                extension: source_extension(file_name)->0,
                language: languages[source_extension(file_name)->0].name,
                doc_symbol: languages[source_extension(file_name)->0].comment,
            },
        )
    }
}

/// Whether `result` is the document, or the error, that `wanted` tells.
pub open spec fn is_result(result: Result<Docco, Error>, wanted: Result<DoccoView, ErrorView>) -> bool {
    match result {
        Ok(document) => wanted == Ok::<DoccoView, ErrorView>(document@),
        Err(error) => wanted == Err::<DoccoView, ErrorView>(error@),
    }
}

/// The sections made of the documentation and the code in `blocks`: each
/// bears the number of its place, its documentation rendered to HTML, and its
/// code as it stands.
pub open spec fn rendered_sections(blocks: Seq<(Seq<char>, Seq<char>)>) -> Seq<SectionView> {
    Seq::new(
        blocks.len(),
        |i: int|
            SectionView {
                num: i as nat,
                docs_html: prose_html(blocks[i].0),
                code_html: blocks[i].1,
            },
    )
}

/// The document `before` once the lines `lines` of its source are parsed.
pub open spec fn parsed(before: DoccoView, lines: Seq<Seq<char>>) -> DoccoView {
    DoccoView { sections: rendered_sections(blocks(lines, before.doc_symbol)), ..before }
}

/// Where `render` writes the page of `document`, or the reason why it does
/// not, given whether the template compiles and which directory holds the
/// output path.
pub open spec fn render_decision(
    document: DoccoView,
    template_compiles: bool,
    directory: Option<Seq<char>>,
) -> Result<(Seq<char>, Seq<char>), ErrorView> {
    if !template_compiles {
        Err(ErrorView::InvalidTemplateSource)
    } else {
        match directory {
            Some(directory) => Ok((directory, document.output)),
            None => Err(ErrorView::RenderFailed),
        }
    }
}

/// Whether `result` is the target, or the error, that `wanted` tells.
pub open spec fn is_target(
    result: Result<RenderTarget, Error>,
    wanted: Result<(Seq<char>, Seq<char>), ErrorView>,
) -> bool {
    match result {
        Ok(target) => wanted == Ok::<(Seq<char>, Seq<char>), ErrorView>(
            (target.directory@, target.file@),
        ),
        Err(error) => wanted == Err::<(Seq<char>, Seq<char>), ErrorView>(error@),
    }
}

/// Every section of a parsed document bears the number of its place, from 0
/// on and without a gap.
pub proof fn lemma_parsed_is_numbered(before: DoccoView, lines: Seq<Seq<char>>)
    ensures
        forall|i: int|
            0 <= i < parsed(before, lines).sections.len() ==> (#[trigger] parsed(
                before,
                lines,
            ).sections[i]).num == i,
        before.valid() ==> parsed(before, lines).valid(),
{
}

/// To parse the same lines once more changes nothing: the document holds
/// the same sections, as many of them and each with the same documentation
/// and the same code.
pub proof fn lemma_parse_is_idempotent(before: DoccoView, lines: Seq<Seq<char>>)
    ensures
        parsed(parsed(before, lines), lines) == parsed(before, lines),
{
}

/// What a document holds once its source is parsed depends on the lines and
/// on the comment delimiter alone, not on the sections it held before.
pub proof fn lemma_parse_forgets(before: DoccoView, other: DoccoView, lines: Seq<Seq<char>>)
    requires
        before.doc_symbol == other.doc_symbol,
    ensures
        parsed(before, lines).sections == parsed(other, lines).sections,
{
}

/// A parsed document has as many sections as its source has lines at which
/// a section begins.
pub proof fn lemma_parsed_section_count(before: DoccoView, lines: Seq<Seq<char>>)
    requires
        before.valid(),
    ensures
        parsed(before, lines).sections.len() == section_starts(
            lines,
            before.doc_symbol,
            0,
            lines.len() as int,
        ),
{
    lemma_section_count(lines, before.doc_symbol);
}

/// The code of every section of a parsed document is escaped: it holds
/// neither `<` nor `>`.
pub proof fn lemma_parsed_code_is_escaped(before: DoccoView, lines: Seq<Seq<char>>)
    ensures
        forall|k: int|
            0 <= k < parsed(before, lines).sections.len() ==> has_no_angle_bracket(
                (#[trigger] parsed(before, lines).sections[k]).code_html,
            ),
{
    lemma_code_is_escaped(lines, before.doc_symbol, 0);
    assert forall|k: int| 0 <= k < parsed(before, lines).sections.len() implies
        has_no_angle_bracket((#[trigger] parsed(before, lines).sections[k]).code_html) by {
        let block = blocks_from(lines, before.doc_symbol, 0)[k];
        assert(parsed(before, lines).sections[k].code_html == block.1);
    }
}

/// Code, one empty line, and more code make two sections; the second has no
/// documentation, and neither has the first.
pub proof fn lemma_empty_line_parts_sections(
    before: DoccoView,
    first: Seq<Seq<char>>,
    second: Seq<Seq<char>>,
)
    requires
        first.len() > 0,
        second.len() > 0,
        forall|i: int|
            0 <= i < first.len() ==> is_code_line(#[trigger] first[i], before.doc_symbol),
        forall|i: int|
            0 <= i < second.len() ==> is_code_line(#[trigger] second[i], before.doc_symbol),
    ensures
        parsed(before, first + seq![Seq::<char>::empty()] + second).sections == seq![
            SectionView {
                num: 0,
                docs_html: Seq::empty(),
                code_html: code_text(first, 0, first.len() as int),
            },
            SectionView {
                num: 1,
                docs_html: Seq::empty(),
                code_html: code_text(second, 0, second.len() as int),
            },
        ],
{
    lemma_empty_line_parts_code(first, second, before.doc_symbol);
    assert(parsed(before, first + seq![Seq::<char>::empty()] + second).sections =~= seq![
        SectionView {
            num: 0,
            docs_html: Seq::empty(),
            code_html: code_text(first, 0, first.len() as int),
        },
        SectionView {
            num: 1,
            docs_html: Seq::empty(),
            code_html: code_text(second, 0, second.len() as int),
        },
    ]);
}

impl Docco {
    #[verifier::type_invariant]
    spec fn is_valid(&self) -> bool {
        self@.valid()
    }

    /// The document for the source at `source`, to be written to `output`.
    ///
    /// The source has to be a regular file. Where `output` is a directory the
    /// page goes there, under the stem of the source's file name with
    /// `.html`; where there is no `output` it goes, under that name, to the
    /// current directory. The language is the one that `languages` holds
    /// under the extension of the source's file name.
    pub fn new(
        source: Location,
        output: Option<Location>,
        languages: &LanguageTable,
        css: &str,
        html: &str,
    ) -> (result: Result<Docco, Error>)
        ensures
            is_result(
                result,
                new_document(
                    source@,
                    path_file_name(source.path@),
                    target_view(output),
                    languages@,
                    css@,
                    html@,
                ),
            ),
            result matches Ok(document) ==> document@.valid(),
    {
        let name = file_name(source.path.as_str());
        Docco::with_file_name(source, name, output, languages, css, html)
    }

    /// The document for the source at `source`, whose path ends in the file
    /// name `file_name`, to be written to `output`.
    pub fn with_file_name(
        source: Location,
        file_name: Option<String>,
        output: Option<Location>,
        languages: &LanguageTable,
        css: &str,
        html: &str,
    ) -> (result: Result<Docco, Error>)
        ensures
            is_result(
                result,
                new_document(
                    source@,
                    file_name.deep_view(),
                    target_view(output),
                    languages@,
                    css@,
                    html@,
                ),
            ),
            result matches Ok(document) ==> document@.valid(),
    {
        if !matches!(source.kind, PathKind::File) {
            return Err(Error::InvalidSourceFile);
        }
        let parts: Option<(String, Option<String>)> = match &file_name {
            Some(name) => Some(split_file_name(name.as_str())),
            None => None,
        };
        let output_path: String = match output {
            Some(target) => {
                if matches!(target.kind, PathKind::Directory) {
                    match &parts {
                        Some(parts) => {
                            let mut path = target.path;
                            path.append("/");
                            path.append(parts.0.as_str());
                            path.append(".html");
                            path
                        },
                        None => {
                            return Err(Error::InvalidSourceFile);
                        },
                    }
                } else {
                    target.path
                }
            },
            None => match &parts {
                Some(parts) => {
                    let mut path = parts.0.clone();
                    path.append(".html");
                    path
                },
                None => {
                    return Err(Error::InvalidSourceFile);
                },
            },
        };
        let extension: String = match parts {
            Some((_, Some(extension))) => extension,
            _ => {
                return Err(Error::NoExtension);
            },
        };
        match languages.get(extension.as_str()) {
            None => Err(Error::UnsupportedExt(extension)),
            Some(language) => {
                let document = Docco {
                    sections: Vec::new(),
                    css: css.to_owned(),
                    html: html.to_owned(),
                    filename: source.path,
                    output: output_path,
                    language: language.name().clone(),
                    extension,
                    doc_symbol: language.comment().clone(),
                };
                assert(document@.sections =~= Seq::empty());
                Ok(document)
            },
        }
    }

    /// Parses the lines `lines` of the source: splits them into sections,
    /// renders the documentation of each, and holds the sections from then
    /// on in place of those it held.
    pub fn parse(&mut self, lines: &Vec<String>) -> (result: Result<(), Error>)
        ensures
            result is Ok,
            final(self)@ == parsed(old(self)@, lines.deep_view()),
            final(self)@.valid(),
    {
        proof {
            use_type_invariant(&*self);
        }
        let found = segment(lines, self.doc_symbol.as_str());
        let ghost wanted = rendered_sections(blocks(lines.deep_view(), self.doc_symbol@));
        let mut sections: Vec<Section> = Vec::new();
        let mut i: usize = 0;
        while i < found.len()
            invariant
                i <= found.len(),
                sections.len() == i,
                wanted.len() == found.len(),
                forall|j: int|
                    0 <= j < found.len() ==> (#[trigger] wanted[j]) == (SectionView {
                        num: j as nat,
                        docs_html: prose_html(found@[j].doc@),
                        code_html: found@[j].code@,
                    }),
                forall|j: int| 0 <= j < i ==> (#[trigger] sections@[j])@ == wanted[j],
            decreases found.len() - i,
        {
            let docs_html = render_prose(found[i].doc.as_str());
            let code_html = found[i].code.clone();
            sections.push(Section::new(i, docs_html, code_html));
            i += 1;
        }
        assert(section_views(sections@) =~= wanted);
        self.sections = sections;
        Ok(())
    }

    /// Decides where the page is to be written: to the output path, once the
    /// directory that holds it exists. It is not written where the template
    /// does not compile, or where no directory holds the output path.
    pub fn render(&self) -> (result: Result<RenderTarget, Error>)
        ensures
            is_target(
                result,
                render_decision(self@, template_compiles(self@.html), path_parent(self@.output)),
            ),
    {
        if !compiles(self.html.as_str()) {
            return Err(Error::InvalidTemplateSource);
        }
        let directory = parent(self.output.as_str());
        self.render_target(true, directory)
    }

    /// Decides where the page is to be written, given whether the template
    /// compiles and which directory holds the output path.
    pub fn render_target(&self, template_compiles: bool, directory: Option<String>) -> (result:
        Result<RenderTarget, Error>)
        ensures
            is_target(result, render_decision(self@, template_compiles, directory.deep_view())),
    {
        if !template_compiles {
            return Err(Error::InvalidTemplateSource);
        }
        match directory {
            Some(directory) => Ok(RenderTarget { directory, file: self.output.clone() }),
            None => Err(Error::RenderFailed),
        }
    }

    /// The sections of the document, in order.
    pub fn sections(&self) -> (sections: &Vec<Section>)
        ensures
            section_views(sections@) == self@.sections,
            forall|i: int| 0 <= i < sections@.len() ==> (#[trigger] sections@[i])@.num == i,
    {
        proof {
            use_type_invariant(self);
            assert forall|i: int| 0 <= i < self.sections@.len() implies (
            #[trigger] self.sections@[i])@.num == i by {
                assert(self@.sections[i] == self.sections@[i]@);
            }
        }
        &self.sections
    }

    /// The style sheet of the page.
    pub fn css(&self) -> (css: &String)
        ensures
            css@ == self@.css,
    {
        &self.css
    }

    /// The template of the page.
    pub fn html(&self) -> (html: &String)
        ensures
            html@ == self@.html,
    {
        &self.html
    }

    /// The path of the source.
    pub fn filename(&self) -> (filename: &String)
        ensures
            filename@ == self@.filename,
    {
        &self.filename
    }

    /// The path of the page.
    pub fn output(&self) -> (output: &String)
        ensures
            output@ == self@.output,
    {
        &self.output
    }

    /// The extension of the source's file name.
    pub fn extension(&self) -> (extension: &String)
        ensures
            extension@ == self@.extension,
    {
        &self.extension
    }

    /// The name of the source's language.
    pub fn language(&self) -> (language: &String)
        ensures
            language@ == self@.language,
    {
        &self.language
    }

    /// The delimiter that begins a line comment in the source's language.
    pub fn doc_symbol(&self) -> (doc_symbol: &String)
        ensures
            doc_symbol@ == self@.doc_symbol,
            doc_symbol@.len() > 0,
    {
        proof {
            use_type_invariant(self);
        }
        &self.doc_symbol
    }
}

} // verus!
