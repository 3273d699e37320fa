use vstd::prelude::*;

verus! {

/// `std::fmt::Formatter`, the sink that the formatting traits write to.
/// Nothing is known of what it holds.
#[verifier::external_type_specification]
#[verifier::external_body]
pub struct ExFormatter<'a>(core::fmt::Formatter<'a>);

/// `std::fmt::Error`, the error of a formatter that could not be written to.
#[verifier::external_type_specification]
#[verifier::external_body]
pub struct ExFmtError(core::fmt::Error);

/// `String::push` appends one character to the end of the string.
pub assume_specification[ String::push ](text: &mut String, c: char)
    ensures
        final(text)@ == old(text)@.push(c),
;

/// The text that the standard library's `Debug` formatting of a `str` gives
/// for `text`: `text` between double quotes, with quotes, backslashes and
/// control characters written as escapes.
pub uninterp spec fn debug_rendering(text: Seq<char>) -> Seq<char>;

/// Formats `text` with the standard library's `Debug` formatting of `str`.
/// The result depends on `text` alone and is only named here.
#[verifier::external_body]
pub(crate) fn format_debug(text: &str) -> (rendering: String)
    ensures
        rendering@ == debug_rendering(text@),
{
    format!("{:?}", text)
}

/// Writes `text` to the formatter with `Formatter::write_str`. Whether the
/// formatter takes it is up to the formatter.
#[verifier::external_body]
pub(crate) fn write_text(f: &mut core::fmt::Formatter<'_>, text: &str) -> (written: Result<
    (),
    core::fmt::Error,
>) {
    f.write_str(text)
}

} // verus!
