//! The Markdown renderer that turns note text into preview blocks.
//!
//! Parsing is done by `iced`; nothing in this file is proved. The library only
//! relies on the parser being a function of the text it is given.

use vstd::prelude::*;

verus! {

/// `iced::widget::markdown::Item`, one parsed block of a note's preview.
/// Its contents are opaque to the verifier.
#[verifier::external_type_specification]
#[verifier::external_body]
pub struct ExItem(iced::widget::markdown::Item);

/// The blocks that `iced::widget::markdown::parse` yields for a text.
pub uninterp spec fn markdown_items(text: Seq<char>) -> Seq<iced::widget::markdown::Item>;

/// Calls `iced::widget::markdown::parse` and collects what it yields.
///
/// Trusted: the blocks depend on the text alone, so the result is
/// `markdown_items` of the text. Nothing is claimed about what the blocks are.
#[verifier::external_body]
pub(crate) fn parse(text: &str) -> (items: Vec<iced::widget::markdown::Item>)
    ensures
        items@ == markdown_items(text@),
{
    iced::widget::markdown::parse(text).collect()
}

} // verus!
