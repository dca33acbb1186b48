use rocco::Error;

#[test]
fn each_error_has_its_sentence() {
    assert_eq!(Error::Io.message(), "I/O error");
    assert_eq!(Error::RenderFailed.message(), "Failed rendering template");
    assert_eq!(Error::InvalidTemplateSource.message(), "Template creation failed");
    assert_eq!(Error::InvalidSourceFile.message(), "Invalid source file");
    assert_eq!(Error::LangMapInitFailed.message(), "Language map initialization failed");
    assert_eq!(Error::DocParseFailed.message(), "Doc parse failed");
    assert_eq!(Error::UnsupportedExt("xyz".to_string()).message(), "Extension not yet supported");
    assert_eq!(
        Error::NoExtension.message(),
        "Could not find extension of source file or Unsupported source file"
    );
}
