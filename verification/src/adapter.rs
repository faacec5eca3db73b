//! The `ini` crate behind contracts, and the error type of `std::io`. Nothing in
//! this file is proved: each contract states what the source of `ini` shows of
//! one of its functions, over the sections and pairs that a document holds.

use vstd::prelude::*;
use crate::assoc::has_key;
use crate::error::ParseFailure;

verus! {

/// `ini::Ini`, a document in memory. What it holds is named by `ini_sections`.
#[verifier::external_type_specification]
#[verifier::external_body]
pub struct ExIni(ini::Ini);

/// `ini::ParseError`, which says where and why a text was rejected.
#[verifier::external_type_specification]
#[verifier::external_body]
pub struct ExParseError(ini::ParseError);

/// `std::io::Error`, which the writer of a document may hand back.
#[verifier::external_type_specification]
#[verifier::external_body]
pub struct ExIoError(std::io::Error);

/// What an `ini::Ini` holds, as `Ini::iter` and `Properties::iter` walk it: its
/// sections in order, each with its name (`None` for the general section) and
/// its pairs in order.
pub uninterp spec fn ini_sections(ini: ini::Ini) -> Seq<
    (Option<Seq<char>>, Seq<(Seq<char>, Seq<char>)>),
>;

/// The sections that `Ini::load_from_str` reads out of a text, or `None` where it
/// rejects the text.
pub uninterp spec fn parsed_ini(text: Seq<char>) -> Option<
    Seq<(Option<Seq<char>>, Seq<(Seq<char>, Seq<char>)>)>,
>;

/// The text that `Ini::write_to_opt` writes for the given sections, with `\n` at
/// the end of each line and otherwise with its default options.
pub uninterp spec fn rendered_ini(
    sections: Seq<(Option<Seq<char>>, Seq<(Seq<char>, Seq<char>)>)>,
) -> Seq<char>;

/// The text that the `Debug` impl which `ini` derives for `ParseError` gives for
/// an error with these fields.
pub uninterp spec fn parse_error_debug(line: int, col: int, msg: Seq<char>) -> Seq<char>;

/// Whether one of the sections has the given name.
pub open spec fn has_section(
    sections: Seq<(Option<Seq<char>>, Seq<(Seq<char>, Seq<char>)>)>,
    name: Option<Seq<char>>,
) -> bool {
    exists|i: int| 0 <= i < sections.len() && (#[trigger] sections[i]).0 == name
}

/// `Ini::load_from_str`: the text is parsed with the default options. The outcome
/// depends on the text alone; `parsed_ini` is the name for it.
#[verifier::external_body]
pub(crate) fn parse_ini(text: &str) -> (r: Result<ini::Ini, ini::ParseError>)
    ensures
        match r {
            Ok(ini) => parsed_ini(text@) == Some(ini_sections(ini)),
            Err(_) => parsed_ini(text@) is None,
        },
{
    ini::Ini::load_from_str(text)
}

/// `Ini::iter`, with `Properties::iter` for each section: hands out, as owned
/// strings, exactly what `ini_sections` names.
#[verifier::external_body]
pub(crate) fn ini_entries(ini: &ini::Ini) -> (r: Vec<(Option<String>, Vec<(String, String)>)>)
    ensures
        r.deep_view() == ini_sections(*ini),
{
    ini.iter().map(
        |(name, values)|
            (
                name.map(|n| n.to_string()),
                values.iter().map(|(k, v)| (k.to_string(), v.to_string())).collect(),
            ),
    ).collect()
}

/// `Ini::new`: the new document holds the general section, without pairs, and
/// nothing else.
#[verifier::external_body]
pub(crate) fn new_ini() -> (r: ini::Ini)
    ensures
        ini_sections(r) == seq![(None::<Seq<char>>, Seq::<(Seq<char>, Seq<char>)>::empty())],
{
    ini::Ini::new()
}

/// `Ini::entry` followed by `SectionEntry::or_insert_with`: a section whose name
/// the document does not have yet is added behind the others, without pairs.
#[verifier::external_body]
pub(crate) fn open_ini_section(ini: &mut ini::Ini, name: &str)
    requires
        !has_section(ini_sections(*old(ini)), Some(name@)),
    ensures
        ini_sections(*final(ini)) == ini_sections(*old(ini)).push(
            (Some(name@), Seq::<(Seq<char>, Seq<char>)>::empty()),
        ),
{
    ini.entry(Some(name.to_string())).or_insert_with(ini::Properties::new);
}

/// `Ini::with_section` followed by `SectionSetter::set`, where the section is the
/// last of the document, no other section has its name and it has no pair with
/// this key yet: the pair is added behind the section's other pairs, and nothing
/// else changes.
#[verifier::external_body]
pub(crate) fn set_in_ini(ini: &mut ini::Ini, section: Option<&str>, key: &str, value: &str)
    requires
        ini_sections(*old(ini)).len() > 0,
        ini_sections(*old(ini)).last().0 == section.deep_view(),
        !has_section(ini_sections(*old(ini)).drop_last(), section.deep_view()),
        !has_key(ini_sections(*old(ini)).last().1, key@),
    ensures
        ini_sections(*final(ini)) == ini_sections(*old(ini)).drop_last().push(
            (section.deep_view(), ini_sections(*old(ini)).last().1.push((key@, value@))),
        ),
{
    ini.with_section(section).set(key, value);
}

/// `Ini::write_to_opt` into a byte vector, with `\n` as the line separator and the
/// other options at their defaults. Every error that `write_to_opt` hands back is
/// one that its writer reported, and the writer here is a byte vector, to which
/// `std` appends without reporting an error: so the call succeeds. The text
/// depends on the document alone; `rendered_ini` is the name for it.
#[verifier::external_body]
pub(crate) fn render_ini(ini: &ini::Ini) -> (r: Result<String, std::io::Error>)
    ensures
        r is Ok,
        r matches Ok(text) ==> text@ == rendered_ini(ini_sections(*ini)),
{
    let mut bytes: Vec<u8> = Vec::new();
    let options = ini::WriteOption { line_separator: ini::LineSeparator::CR, ..Default::default() };
    ini.write_to_opt(&mut bytes, options)?;
    Ok(String::from_utf8_lossy(&bytes).into_owned())
}

/// The fields of an `ini::ParseError`, moved into the library's own type. Nothing
/// is claimed of them.
#[verifier::external_body]
pub(crate) fn failure_of(cause: ini::ParseError) -> (r: ParseFailure) {
    ParseFailure { line: cause.line, col: cause.col, message: cause.msg.into_owned() }
}

/// The derived `Debug` of `ini::ParseError`, called through `format!` on an error
/// with the fields of `failure`. The text depends on the fields alone;
/// `parse_error_debug` is the name for it.
#[verifier::external_body]
pub(crate) fn describe_load_failure(failure: &ParseFailure) -> (r: String)
    ensures
        r@ == parse_error_debug(failure.line as int, failure.col as int, failure.message@),
{
    let cause =
        ini::ParseError { line: failure.line, col: failure.col, msg: failure.message.clone().into() };
    format!("{cause:?}")
}

/// The `Debug` rendering of a `std::io::Error`, made by `format!`. Nothing is
/// claimed of the text.
#[verifier::external_body]
pub(crate) fn describe_io_failure(cause: &std::io::Error) -> (r: String) {
    format!("{cause:?}")
}

} // verus!
