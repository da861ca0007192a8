//! Whole-document formatting with `typstyle`.
use vstd::prelude::*;

verus! {

/// Why `typstyle` could not format a document.
#[derive(Debug, Clone, Copy, PartialEq, Eq, Structural)]
pub enum FormatFailure {
    /// The document has syntax errors.
    SyntaxError,
    /// Rendering the formatted document failed.
    RenderError,
}

/// What `typstyle` gives for a document at a maximum line width: the text it
/// renders, or why it could not.
pub uninterp spec fn typstyle_result(text: Seq<char>, max_width: nat) -> Result<Seq<char>, FormatFailure>;

/// Runs `typstyle_core::Typstyle::format_text(..).render()` with the default
/// configuration but for `max_width`, and tells the variants of
/// `typstyle_core::Error` apart. Claimed: what comes back is the result named
/// `typstyle_result` of the arguments, an `Error::SyntaxError` as
/// `SyntaxError` and an `Error::RenderError` as `RenderError`.
#[verifier::external_body]
fn render_with_typstyle(content: &str, max_width: usize) -> (r: Result<String, FormatFailure>)
    ensures
        r matches Ok(s) ==> (typstyle_result(content@, max_width as nat) matches Ok(t) && t == s@),
        r matches Err(f) ==> (typstyle_result(content@, max_width as nat) matches Err(g) && g == f),
{
    let mut config = typstyle_core::Config::default();
    config.max_width = max_width;
    match typstyle_core::Typstyle::new(config).format_text(content).render() {
        Ok(s) => Ok(s),
        Err(typstyle_core::Error::SyntaxError) => Err(FormatFailure::SyntaxError),
        Err(typstyle_core::Error::RenderError) => Err(FormatFailure::RenderError),
    }
}

/// The message of a formatting failure, as `typstyle` words it.
pub open spec fn failure_message(f: FormatFailure) -> Seq<char> {
    match f {
        FormatFailure::SyntaxError => "The document has syntax errors"@,
        FormatFailure::RenderError => "An error occurred while rendering the document"@,
    }
}

/// The message for a formatting failure.
pub fn format_error_message(f: FormatFailure) -> (m: String)
    ensures
        m@ == failure_message(f),
{
    match f {
        FormatFailure::SyntaxError => "The document has syntax errors".to_string(),
        FormatFailure::RenderError => "An error occurred while rendering the document".to_string(),
    }
}

/// Formats a Typst document with `typstyle` at the given line width; on
/// failure, returns the formatter's message for what went wrong.
pub fn format_document(content: &str, line_width: usize) -> (r: Result<String, String>)
    ensures
        typstyle_result(content@, line_width as nat) matches Ok(t) ==> r matches Ok(s) && s@ == t,
        typstyle_result(content@, line_width as nat) matches Err(f) ==> r matches Err(m) && m@
            == failure_message(f),
{
    match render_with_typstyle(content, line_width) {
        Ok(s) => Ok(s),
        Err(f) => Err(format_error_message(f)),
    }
}

} // verus!
