//! Styled text for a block: its Markdown rendering where Slint's Markdown
//! subset reads it, else the text as it stands.
use vstd::prelude::*;

use slint::{StyledText, StyledTextFromMarkdownError};

verus! {

#[verifier::external_type_specification]
#[verifier::external_body]
pub struct ExStyledText(StyledText);

#[verifier::external_type_specification]
#[verifier::external_body]
pub struct ExStyledTextFromMarkdownError(StyledTextFromMarkdownError);

/// Whether Slint's Markdown parser accepts `text` (it rejects headings,
/// tables, code blocks and other syntax outside its subset).
pub uninterp spec fn markdown_parses(text: Seq<char>) -> bool;

/// The styled text that Slint's Markdown parser makes of `text` where it
/// accepts it.
pub uninterp spec fn markdown_styled(text: Seq<char>) -> StyledText;

/// The styled text that Slint makes of `text` as one unstyled paragraph.
pub uninterp spec fn plain_styled(text: Seq<char>) -> StyledText;

/// `slint::StyledText::from_markdown`: succeeds exactly on the texts that
/// Slint's Markdown parser accepts, and then gives their rendering; both are
/// deterministic functions of the text alone.
#[verifier::external_body]
fn styled_from_markdown(text: &str) -> (r: Result<StyledText, StyledTextFromMarkdownError>)
    ensures
        r is Ok <==> markdown_parses(text@),
        r matches Ok(s) ==> s == markdown_styled(text@),
{
    StyledText::from_markdown(text)
}

/// `slint::StyledText::from_plain_text`: the text as one unstyled
/// paragraph, a deterministic function of the text alone.
#[verifier::external_body]
fn styled_from_plain_text(text: &str) -> (s: StyledText)
    ensures
        s == plain_styled(text@),
{
    StyledText::from_plain_text(text)
}

/// The styled text of a block and how it was made.
#[derive(Debug)]
pub enum RenderedText {
    /// The Markdown rendering of the text.
    Markdown(StyledText),
    /// The text as it stands, where the Markdown parser refused it.
    Plain(StyledText),
}

impl RenderedText {
    /// The styled text, however it was made.
    pub fn into_styled(self) -> (s: StyledText)
        ensures
            s == match self {
                RenderedText::Markdown(t) => t,
                RenderedText::Plain(t) => t,
            },
    {
        match self {
            RenderedText::Markdown(t) => t,
            RenderedText::Plain(t) => t,
        }
    }
}

/// What to show for `text` once the Markdown parser has answered with
/// `parsed`: its rendering when it parsed, else the plain text.
pub fn rendered_or_plain(parsed: Result<StyledText, StyledTextFromMarkdownError>, text: &str) -> (r: RenderedText)
    ensures
        parsed is Ok <==> r is Markdown,
        parsed matches Ok(s) ==> r == RenderedText::Markdown(s),
        parsed is Err ==> r == RenderedText::Plain(plain_styled(text@)),
{
    match parsed {
        Ok(s) => RenderedText::Markdown(s),
        Err(_) => RenderedText::Plain(styled_from_plain_text(text)),
    }
}

/// Styled text for `text`: its Markdown rendering when Slint's Markdown
/// subset reads it, else the plain text.
pub fn render_markdown(text: &str) -> (r: RenderedText)
    ensures
        markdown_parses(text@) ==> r == RenderedText::Markdown(markdown_styled(text@)),
        !markdown_parses(text@) ==> r == RenderedText::Plain(plain_styled(text@)),
{
    let parsed = styled_from_markdown(text);
    rendered_or_plain(parsed, text)
}

} // verus!
