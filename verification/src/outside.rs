//! The calls that leave this library. Each is a small function whose
//! contract is believed, not proved: it says that the call's result is a
//! function of its arguments, and gives that function a name.

use vstd::prelude::*;
use crate::emitter::is_unit_source;

verus! {

/// The snake-case form of a name: what `heck` makes of it.
pub uninterp spec fn snake_case_of(raw: Seq<char>) -> Seq<char>;

/// The lines into which `textwrap` breaks a text at the given width.
pub uninterp spec fn wrapped_lines(text: Seq<char>, width: usize) -> Seq<Seq<char>>;

/// The string literal, quotes and escapes included, that `quote` writes for
/// a text.
pub uninterp spec fn string_literal_of(text: Seq<char>) -> Seq<char>;

/// Whether `syn` reads a text as one expression.
pub uninterp spec fn expression_syntax(text: Seq<char>) -> bool;

/// What `syn` and `prettyplease` make of the source text of a unit: nothing
/// where `syn` does not read it as a file, the printed file otherwise.
pub uninterp spec fn formatted_source(source: Seq<char>) -> Option<Seq<char>>;

/// Whether a text is the snake-case form of some name.
pub open spec fn is_normalized(text: Seq<char>) -> bool {
    exists|raw: Seq<char>| text == #[trigger] snake_case_of(raw)
}

/// Calls `heck::ToSnakeCase::to_snake_case` on `raw`. The conversion splits
/// the name into words and joins their lower-case forms with underscores; it
/// depends on nothing but the name, and the contract says no more than that.
#[verifier::external_body]
pub(crate) fn snake_case(raw: &str) -> (out: String)
    ensures
        out@ == snake_case_of(raw@),
{
    heck::ToSnakeCase::to_snake_case(raw)
}

/// Calls `textwrap::wrap` on `text` with the plain width `width`, which takes
/// the crate's default options, and hands the lines back as owned strings.
/// The lines depend on nothing but the text and the width.
#[verifier::external_body]
pub(crate) fn wrap_text(text: &str, width: usize) -> (lines: Vec<String>)
    ensures
        lines.deep_view() == wrapped_lines(text@, width),
{
    let mut lines: Vec<String> = Vec::new();
    for line in textwrap::wrap(text, width) {
        lines.push(line.into_owned());
    }
    lines
}

/// Calls `quote::ToTokens::to_token_stream` on `text`, which yields the one
/// string literal that stands for it, and writes that token out. The literal
/// depends on nothing but the text.
#[verifier::external_body]
pub(crate) fn string_literal(text: &str) -> (out: String)
    ensures
        out@ == string_literal_of(text@),
{
    quote::ToTokens::to_token_stream(text).to_string()
}

/// Calls `syn::parse_str` for a `syn::Expr` on `text` and says whether it
/// succeeded. The parser descends once for every nested or prefixed part of
/// an expression, without a bound; a snake-case form is at most one token,
/// so on it the parser returns. The answer depends on nothing but the text.
#[verifier::external_body]
pub(crate) fn is_expression(text: &str) -> (ok: bool)
    requires
        is_normalized(text@),
    ensures
        ok == expression_syntax(text@),
{
    syn::parse_str::<syn::Expr>(text).is_ok()
}

/// Calls `syn::parse_str` for a `syn::File` on the source text of a unit
/// and, where that succeeds, `prettyplease::unparse` on the file. The
/// printer stops on syntax that it does not know; a unit holds none: it is
/// made of documented functions whose names and binder identifiers are
/// snake-case forms, each a single token, and whose types are fixed. The
/// result depends on nothing but the text.
#[verifier::external_body]
pub(crate) fn format_source(source: &str) -> (out: Option<String>)
    requires
        is_unit_source(source@),
    ensures
        out.deep_view() == formatted_source(source@),
{
    match syn::parse_str::<syn::File>(source) {
        Ok(file) => Some(prettyplease::unparse(&file)),
        Err(_) => None,
    }
}

} // verus!
