use rocco::{Docco, Error, Language, LanguageTable, Location, PathKind, RenderTarget};

const CSS: &str = "body { margin: 0; }";

const HTML: &str = "<html><style>{{css}}</style><body>{{#sections}}<div id=\"s{{num}}\">{{{docs_html}}}<pre>{{{code_html}}}</pre></div>{{/sections}}</body></html>";

const SAMPLE: &str = r###"// A literate program combines code and prose (documentation) in one file format.
// The following ascii diagram depicts how ascii generates this html.

//       +-----------------------------------------+
//       | File containing the program description |
//       | peppered with scraps of program code.   |
//       | This is what the programmer works on.   |
//       |          (e.g. source.rs)               |
//       +-----------------------------------------+
//                          |
//                          v
//            o---------------------------o
//            |           Rocco           |
//            o---------------------------o
//                          |
//             +------------+-------------+
//             |                          |
//             v                          v
//    +------------------+   +--------------------------+
//    |       Prose      |   |           Code           |
//    +------------------+   +--------------------------+

// -------------------------------------------------------------------
// The source and prose below is rocco's output on its own source code.

// `Language` represents various attributes of a language used to
// generate and parse code and prose.
#[derive(Debug, Content, serde::Serialize, serde::Deserialize)]
pub struct Language {
    //  of language (e.g, python, rust, go)
    name: String,
    // the delimiter which denotes a comment (//)
    comment: String,
}

// `LANGUAGES` represents a one time initialized json map of languages with their various attributes.
static LANGUAGES: Lazy<HashMap<&'static str, Language>> = Lazy::new(|| {
    let lang_json = include_str!("assets/languages.json");
    serde_json::from_str(lang_json.as_ref()).expect("Language map initialization failed")
});

// A `Section` represents a parsed chunk of code and prose.
#[derive(Content, Debug)]
pub struct Section {
    num: usize,
    docs_html: String,
    code_html: String,
}

// The `Docco` instance contains all items to successfully render a source code.
#[derive(Content)]
pub struct Docco {
    sections: Vec<Section>,
    css: String,
    html: String,
    filename: String,
    output: String,
    extension: String,
    language: String,
    doc_symbol: String,
}

impl Docco {
    // Creates a new Docco instance.
    pub fn new(source: &PathBuf, output: Option<PathBuf>) -> Result<Self, Error> {
        if !source.is_file() {
            return Err(Error::DoccoInitFailed);
        }

        let source_str = source.as_path().display().to_string();
        let output = if let Some(output) = output {
            output.as_path().display().to_string()
        } else {
            let a = source_str.find('.').unwrap();
            let slice = &source_str[..a];
            format!("{}.html", slice)
        };

        let (language, comment, extension) = if let Some(ext) = source_str.split(".").last() {
            let language = LANGUAGES
                .get(ext)
                .map(|l| l)
                .ok_or(Error::UnsupportedExt(ext.to_string()))?;
            (&language.name, &language.comment, ext.to_string())
        } else {
            return Err(Error::DoccoInitFailed);
        };

        Ok(Self {
            sections: vec![],
            filename: source_str,
            css: include_str!("assets/template.css").to_string(),
            html: include_str!("assets/template.html").to_string(),
            output,
            language: language.to_string(),
            extension,
            doc_symbol: comment.to_string(),
        })
    }

    // Sets the output html file
    pub fn set_output(&mut self, output: &str) {
        self.output = output.to_string();
    }

    // Renders the parsed sections to an html file.
    pub fn render(&self) -> Result<(), Error> {
        let template =
            Template::new(self.html.as_str()).map_err(|_| Error::InvalidTemplateSource)?;
        let path = std::path::Path::new(&self.output);
        let prefix = path.parent().unwrap();
        std::fs::create_dir_all(prefix).unwrap();
        template.render_to_file(&self.output, self)?;
        Ok(())
    }

    // Parses code blocks
    fn parse_code(
        &self,
        iter: &mut Peekable<Lines<BufReader<File>>>,
        code_buffer: &mut String,
    ) -> Result<(), Error> {
        while let Some(Ok(next_line)) = iter.peek() {
            let line_trimmed = next_line.trim_start();
            if !line_trimmed.starts_with(&self.doc_symbol) && !line_trimmed.is_empty() {
                let next_line = next_line.replace("<", "&lt");
                let next_line = next_line.replace(">", "&gt");
                code_buffer.push_str(&next_line);
                if !line_trimmed.ends_with("\n") {
                    code_buffer.push_str("\n");
                }

                iter.next();
            } else {
                return Ok(());
            }
        }

        Ok(())
    }

    // Parses documentation blocks
    fn parse_doc(
        &self,
        iter: &mut Peekable<Lines<BufReader<File>>>,
        doc_buffer: &mut String,
    ) -> Result<(), Error> {
        while let Some(Ok(next_line)) = iter.peek() {
            if next_line.trim().starts_with(&self.doc_symbol) {
                // rust specific doc comments
                if next_line.trim().starts_with("///") {
                    doc_buffer.push_str(next_line.trim_start());
                    doc_buffer.push_str("\n");
                } else {
                    let next_line = next_line.trim_start().trim_start_matches(&self.doc_symbol);
                    doc_buffer.push_str(next_line);
                    doc_buffer.push_str("\n");
                }
                iter.next();
            } else {
                return Ok(());
            }
        }

        Ok(())
    }

    // High level method that iterates over lines in the given source file
    // and parses code and prose blocks as `Section`s. Additionally, processes the
    // documentation through markdown.
    pub fn parse(&mut self) -> Result<(), Error> {
        let fs = BufReader::new(OpenOptions::new().read(true).open(&self.filename)?);
        let mut lines = fs.lines().peekable();
        let mut idx = 0;
        while let Some(Ok(next_line)) = lines.peek() {
            if next_line.is_empty() {
                lines.next();
                continue;
            }
            let mut doc = String::new();
            let mut code = String::new();
            self.parse_doc(&mut lines, &mut doc)?;
            self.parse_code(&mut lines, &mut code)?;
            let docs_html = comrak::markdown_to_html(&doc, &comrak::ComrakOptions::default());
            let section = Section {
                num: idx,
                docs_html,
                code_html: code,
            };
            self.sections.push(section);
            idx += 1;
        }
        Ok(())
    }
}
"###;

fn languages() -> LanguageTable {
    let mut table = LanguageTable::new();
    for (extension, name, comment) in
        [("rs", "Rust", "//"), ("rb", "Ruby", "#"), ("go", "Go", "//"), ("py", "Python", "#")]
    {
        table.insert(
            extension.to_string(),
            Language::new(name.to_string(), comment.to_string()).unwrap(),
        );
    }
    table
}

fn file(path: &str) -> Location {
    Location { path: path.to_string(), kind: PathKind::File }
}

fn directory(path: &str) -> Location {
    Location { path: path.to_string(), kind: PathKind::Directory }
}

fn absent(path: &str) -> Location {
    Location { path: path.to_string(), kind: PathKind::Other }
}

fn new(source: Location, output: Option<Location>) -> Result<Docco, Error> {
    Docco::new(source, output, &languages(), CSS, HTML)
}

fn lines_of(text: &str) -> Vec<String> {
    text.lines().map(|line| line.to_string()).collect()
}

fn target(result: Result<RenderTarget, Error>) -> Result<(String, String), Error> {
    result.map(|target| (target.directory, target.file))
}

#[test]
fn render_rust_source() {
    let mut docco = new(file("tests/samples/source.rs"), None).unwrap();
    docco.parse(&lines_of(SAMPLE)).unwrap();
    let written = docco.render().unwrap();

    assert_eq!(docco.sections().len(), 23);
    assert_eq!(written.file, "source.html");
}

#[test]
fn uses_source_filename_in_same_output_dir_when_output_is_specified_as_a_directory() {
    let mut docco = new(file("tests/samples/source.rs"), Some(directory("tests/"))).unwrap();
    docco.parse(&lines_of(SAMPLE)).unwrap();
    let written = docco.render().unwrap();

    assert_eq!(docco.output(), "tests//source.html");
    assert_eq!(std::path::Path::new(&written.file), std::path::Path::new("tests/source.html"));
    assert_eq!(written.directory, "tests");
}

#[test]
fn should_output_in_current_dir_using_sourcename_when_no_output_specified() {
    let mut docco = new(file("tests/samples/source.rs"), None).unwrap();
    docco.parse(&lines_of(SAMPLE)).unwrap();
    let written = docco.render().unwrap();

    assert_eq!(docco.output(), "source.html");
    assert_eq!(written.file, "source.html");
    assert_eq!(written.directory, "");
}

#[test]
fn new_document_holds_what_it_was_made_from() {
    let docco = new(file("dir/prog.py"), Some(absent("out/page.html"))).unwrap();
    assert!(docco.sections().is_empty());
    assert_eq!(docco.css(), CSS);
    assert_eq!(docco.html(), HTML);
    assert_eq!(docco.filename(), "dir/prog.py");
    assert_eq!(docco.output(), "out/page.html");
    assert_eq!(docco.extension(), "py");
    assert_eq!(docco.language(), "Python");
    assert_eq!(docco.doc_symbol(), "#");
}

#[test]
fn source_that_is_no_file_is_refused() {
    assert_eq!(new(absent("missing.rs"), None).err(), Some(Error::InvalidSourceFile));
    assert_eq!(new(directory("src.rs"), None).err(), Some(Error::InvalidSourceFile));
}

#[test]
fn unknown_extension_is_refused_with_the_extension() {
    let result = new(file("notes/prog.xyz"), None);
    assert_eq!(result.err(), Some(Error::UnsupportedExt("xyz".to_string())));
    let result = new(file("prog.RS"), Some(absent("out.html")));
    assert_eq!(result.err(), Some(Error::UnsupportedExt("RS".to_string())));
    let result = new(file("prog."), None);
    assert_eq!(result.err(), Some(Error::UnsupportedExt(String::new())));
}

#[test]
fn source_without_extension_is_refused() {
    assert_eq!(new(file("Makefile"), None).err(), Some(Error::NoExtension));
    assert_eq!(new(file("dir.d/Makefile"), None).err(), Some(Error::NoExtension));
    assert_eq!(new(file(".rs"), Some(directory("out"))).err(), Some(Error::NoExtension));
}

#[test]
fn source_without_file_name_is_refused() {
    assert_eq!(new(file("dir/.."), None).err(), Some(Error::InvalidSourceFile));
    assert_eq!(new(file("dir/.."), Some(directory("out"))).err(), Some(Error::InvalidSourceFile));
    assert_eq!(new(file("dir/.."), Some(absent("out.html"))).err(), Some(Error::NoExtension));
}

#[test]
fn file_name_is_the_last_part_of_the_path() {
    let docco = new(file("a.b/c.d/prog.tar.rs"), None).unwrap();
    assert_eq!(docco.output(), "prog.tar.html");
    assert_eq!(docco.extension(), "rs");
    let docco = new(file("a.b/c.d/prog.rs"), Some(directory("out/dir"))).unwrap();
    assert_eq!(docco.output(), "out/dir/prog.html");
}

#[test]
fn file_name_can_be_given() {
    let table = languages();
    let docco =
        Docco::with_file_name(file("anything"), Some("prog.go".to_string()), None, &table, "", "")
            .unwrap();
    assert_eq!(docco.output(), "prog.html");
    assert_eq!(docco.language(), "Go");
    assert_eq!(docco.filename(), "anything");
    let result = Docco::with_file_name(file("prog.go"), None, None, &table, "", "");
    assert_eq!(result.err(), Some(Error::InvalidSourceFile));
    let result =
        Docco::with_file_name(absent("prog.go"), Some("prog.go".to_string()), None, &table, "", "");
    assert_eq!(result.err(), Some(Error::InvalidSourceFile));
    let result =
        Docco::with_file_name(file("prog"), Some("prog".to_string()), None, &table, "", "");
    assert_eq!(result.err(), Some(Error::NoExtension));
    let result =
        Docco::with_file_name(file("prog.c"), Some("prog.c".to_string()), None, &table, "", "");
    assert_eq!(result.err(), Some(Error::UnsupportedExt("c".to_string())));
}

#[test]
fn sections_are_numbered_from_zero() {
    let mut docco = new(file("source.rs"), None).unwrap();
    docco.parse(&lines_of(SAMPLE)).unwrap();
    for (place, section) in docco.sections().iter().enumerate() {
        assert_eq!(section.num(), place);
    }
}

#[test]
fn parsing_again_gives_the_same_sections() {
    let lines = lines_of(SAMPLE);
    let mut docco = new(file("source.rs"), None).unwrap();
    docco.parse(&lines).unwrap();
    let first: Vec<(usize, String, String)> = docco
        .sections()
        .iter()
        .map(|s| (s.num(), s.docs_html().clone(), s.code_html().clone()))
        .collect();
    docco.parse(&lines).unwrap();
    let second: Vec<(usize, String, String)> = docco
        .sections()
        .iter()
        .map(|s| (s.num(), s.docs_html().clone(), s.code_html().clone()))
        .collect();
    assert_eq!(first.len(), 23);
    assert_eq!(first, second);
}

#[test]
fn parsing_other_lines_replaces_the_sections() {
    let mut docco = new(file("source.rs"), None).unwrap();
    docco.parse(&lines_of("a\n\nb\n\nc")).unwrap();
    assert_eq!(docco.sections().len(), 3);
    docco.parse(&lines_of("a")).unwrap();
    assert_eq!(docco.sections().len(), 1);
    docco.parse(&Vec::new()).unwrap();
    assert!(docco.sections().is_empty());
}

#[test]
fn documentation_is_rendered_and_code_is_escaped() {
    let mut docco = new(file("source.rs"), None).unwrap();
    docco.parse(&lines_of("// # Title\n// some *prose*\nlet v: Vec<u8> = Vec::new();")).unwrap();
    let sections = docco.sections();
    assert_eq!(sections.len(), 1);
    assert_eq!(sections[0].num(), 0);
    assert_eq!(sections[0].docs_html(), "<h1>Title</h1>\n<p>some <em>prose</em></p>\n");
    assert_eq!(sections[0].code_html(), "let v: Vec&ltu8&gt = Vec::new();\n");
}

#[test]
fn code_after_an_empty_line_has_no_documentation() {
    let mut docco = new(file("source.rs"), None).unwrap();
    docco.parse(&lines_of("let a = 1;\n\nlet b = 2;")).unwrap();
    let sections = docco.sections();
    assert_eq!(sections.len(), 2);
    assert_eq!(sections[0].docs_html(), "");
    assert_eq!(sections[0].code_html(), "let a = 1;\n");
    assert_eq!(sections[1].num(), 1);
    assert_eq!(sections[1].docs_html(), "");
    assert_eq!(sections[1].code_html(), "let b = 2;\n");
}

#[test]
fn delimiter_of_the_language_is_used() {
    let mut docco = new(file("prog.py"), None).unwrap();
    docco.parse(&lines_of("# doc\n// code\nx = 1")).unwrap();
    let sections = docco.sections();
    assert_eq!(sections.len(), 1);
    assert_eq!(sections[0].docs_html(), "<p>doc</p>\n");
    assert_eq!(sections[0].code_html(), "// code\nx = 1\n");
}

#[test]
fn render_before_parse_is_no_error() {
    let docco = new(file("source.rs"), Some(absent("out/page.html"))).unwrap();
    assert!(docco.sections().is_empty());
    assert_eq!(
        target(docco.render()),
        Ok(("out".to_string(), "out/page.html".to_string()))
    );
}

#[test]
fn template_that_does_not_compile_is_refused() {
    let table = languages();
    for html in ["{{/sections}}", "{{#a}}{{/b}}", "{{css", "{{>partial}}"] {
        let docco = Docco::new(file("source.rs"), None, &table, CSS, html).unwrap();
        assert_eq!(target(docco.render()), Err(Error::InvalidTemplateSource));
    }
    let docco = Docco::new(file("source.rs"), Some(absent("/")), &table, CSS, "{{css").unwrap();
    assert_eq!(target(docco.render()), Err(Error::InvalidTemplateSource));
}

#[test]
fn output_without_parent_is_refused() {
    let docco = new(file("source.rs"), Some(absent("/"))).unwrap();
    assert_eq!(target(docco.render()), Err(Error::RenderFailed));
    let docco = new(file("source.rs"), Some(absent(""))).unwrap();
    assert_eq!(target(docco.render()), Err(Error::RenderFailed));
}

#[test]
fn render_target_follows_what_it_is_told() {
    let docco = new(file("source.rs"), Some(absent("out/page.html"))).unwrap();
    assert_eq!(
        target(docco.render_target(true, Some("elsewhere".to_string()))),
        Ok(("elsewhere".to_string(), "out/page.html".to_string()))
    );
    assert_eq!(target(docco.render_target(true, None)), Err(Error::RenderFailed));
    assert_eq!(
        target(docco.render_target(false, Some("out".to_string()))),
        Err(Error::InvalidTemplateSource)
    );
    assert_eq!(target(docco.render_target(false, None)), Err(Error::InvalidTemplateSource));
}
