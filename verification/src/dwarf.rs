//! The debugging sections of a file, read through gimli.
//!
//! gimli's readers are generic over the bytes they read from; here they
//! all read from byte slices whose byte order is chosen at run time. What
//! this module states of gimli is believed, not proved. It is little: what
//! gimli decodes is given a name, and a call is said to return what the
//! name stands for, so that the same bytes are taken to decode to the
//! same things every time. The two walks are said to hand out, one by
//! one, what lies ahead of them. Why something cannot be decoded is not
//! handed on: gimli's errors hold where in memory the bytes lie.
//!
//! Only calls that gimli answers without arithmetic of its own on what
//! the file says are made here; the one that multiplies an index is
//! given an index that leaves room for it.

use vstd::prelude::*;

verus! {

/// `gimli::RunTimeEndian`: a byte order, little or big.
#[verifier::external_type_specification]
pub struct ExRunTimeEndian(gimli::RunTimeEndian);

/// `gimli::Abbreviations`: the abbreviations of one unit, by which its
/// entries are decoded.
#[verifier::external_type_specification]
#[verifier::external_body]
pub struct ExAbbreviations(gimli::Abbreviations);

/// The debugging sections of one file: `gimli::Dwarf`.
#[verifier::external_body]
pub struct Sections<'a> {
    dwarf: gimli::Dwarf<gimli::EndianSlice<'a, gimli::RunTimeEndian>>,
}

/// The walk over the unit headers of the `.debug_info` section:
/// `gimli::CompilationUnitHeadersIter`.
#[verifier::external_body]
pub struct UnitHeaders<'a> {
    iter: gimli::CompilationUnitHeadersIter<gimli::EndianSlice<'a, gimli::RunTimeEndian>>,
}

/// The header of one compilation unit: `gimli::CompilationUnitHeader`.
#[verifier::external_body]
pub struct UnitHeader<'a> {
    header: gimli::CompilationUnitHeader<gimli::EndianSlice<'a, gimli::RunTimeEndian>>,
}

/// The walk over the entries of one unit: `gimli::EntriesCursor`.
#[verifier::external_body]
pub struct Entries<'u, 'a> {
    cursor: gimli::EntriesCursor<'u, 'u, gimli::EndianSlice<'a, gimli::RunTimeEndian>>,
}

/// One debugging entry: `gimli::DebuggingInformationEntry`.
#[verifier::external_body]
pub struct Die<'u, 'a> {
    entry: gimli::DebuggingInformationEntry<'u, 'u, gimli::EndianSlice<'a, gimli::RunTimeEndian>>,
}

/// The value of one attribute: `gimli::AttributeValue`.
#[verifier::external_body]
pub struct Value<'a> {
    value: gimli::AttributeValue<gimli::EndianSlice<'a, gimli::RunTimeEndian>>,
}

/// The bytes of the sections that were gathered, in the order in which
/// [`sections`] takes them.
pub uninterp spec fn gathered(sections: Sections) -> Seq<Seq<u8>>;

/// Whether the sections are read as little endian.
pub uninterp spec fn little_endian(sections: Sections) -> bool;

/// What a walk over the unit headers of the gathered sections hands out,
/// from the first header on: each header in the order of the section, and
/// `None` at the end where the next header cannot be decoded.
pub uninterp spec fn section_units(gathered: Seq<Seq<u8>>, little_endian: bool) -> Seq<
    Option<UnitHeader<'static>>,
>;

/// What a walk over unit headers hands out from where it stands.
pub uninterp spec fn headers_ahead(headers: UnitHeaders) -> Seq<Option<UnitHeader>>;

/// Where a unit starts in the `.debug_info` section.
pub uninterp spec fn unit_offset(header: UnitHeader) -> usize;

/// Whether a unit is in the 64-bit format of DWARF.
pub uninterp spec fn dwarf64(header: UnitHeader) -> bool;

/// The abbreviations of a unit in the gathered sections, `None` where
/// they cannot be decoded.
pub uninterp spec fn abbreviations_of(
    gathered: Seq<Seq<u8>>,
    little_endian: bool,
    header: UnitHeader,
) -> Option<gimli::Abbreviations>;

/// What a walk over the entries of a unit hands out, from the root on:
/// each entry in depth-first order with its depth less the depth of the
/// entry before it, and `None` at the end where the next entry cannot be
/// decoded.
pub uninterp spec fn unit_entries(header: UnitHeader, abbreviations: gimli::Abbreviations) -> Seq<
    Option<(isize, Die<'static, 'static>)>,
>;

/// What a walk over entries hands out from where it stands.
pub uninterp spec fn entries_ahead(entries: Entries) -> Seq<
    Option<(isize, Die<'static, 'static>)>,
>;

/// The number of an entry's tag.
pub uninterp spec fn tag_number(die: Die) -> u64;

/// Where an entry starts, counted from the start of its unit.
pub uninterp spec fn place(die: Die) -> usize;

/// The value of the first attribute of an entry that has the name of
/// number `name`: `Some(None)` where the entry has no such attribute,
/// `None` where its attributes cannot be decoded.
pub uninterp spec fn value_of(die: Die, name: u64) -> Option<Option<Value<'static>>>;

/// The form of a value, with the number it holds.
pub uninterp spec fn form_of(value: Value) -> Attribute;

/// The bytes of a value that is a string written in the entry itself,
/// none for a value of another form.
pub uninterp spec fn inline_bytes(value: Value) -> Seq<u8>;

/// The bytes of the string that starts at `offset` in the `.debug_str`
/// section, `None` where none ends there.
pub uninterp spec fn debug_str_at(gathered: Seq<Seq<u8>>, little_endian: bool, offset: usize) -> Option<
    Seq<u8>,
>;

/// The bytes of the string that starts at `offset` in the
/// `.debug_line_str` section, `None` where none ends there.
pub uninterp spec fn debug_line_str_at(
    gathered: Seq<Seq<u8>>,
    little_endian: bool,
    offset: usize,
) -> Option<Seq<u8>>;

/// The offset that the `.debug_str_offsets` section holds at `index`,
/// counted in words of the format from `base`, `None` where the section
/// ends before.
pub uninterp spec fn str_offset_at(
    gathered: Seq<Seq<u8>>,
    little_endian: bool,
    dwarf64: bool,
    base: usize,
    index: usize,
) -> Option<usize>;

/// The text of bytes, with what is not UTF-8 in them replaced.
pub uninterp spec fn lossy_text(bytes: Seq<u8>) -> Seq<char>;

/// The value of an attribute, in the forms that the attribution reads.
#[derive(Debug, Clone, Copy, PartialEq, Eq, Structural)]
pub enum Attribute {
    /// The entry has no such attribute.
    Absent,
    /// A reference to an entry, counted from the start of the unit.
    UnitRef(usize),
    /// A reference to an entry, counted from the start of the section.
    DebugInfoRef(usize),
    /// A machine address.
    Addr(u64),
    /// An unsigned number.
    Udata(u64),
    /// A string written in the entry itself.
    String,
    /// A string at this offset in the `.debug_str` section.
    DebugStrRef(usize),
    /// A string at this offset in the `.debug_line_str` section.
    DebugLineStrRef(usize),
    /// A string whose offset stands at this index in the
    /// `.debug_str_offsets` section.
    DebugStrOffsetsIndex(usize),
    /// Where the unit's string offsets start in `.debug_str_offsets`.
    DebugStrOffsetsBase(usize),
    /// A value of any other form.
    Other,
}

/// Gathers the sections of a file: `gimli::Dwarf` with each section made
/// from its bytes, to be read in the byte order `endian`. Sections that
/// are not named here stay empty.
#[verifier::external_body]
pub(crate) fn sections<'a>(
    abbrev: &'a [u8],
    addr: &'a [u8],
    info: &'a [u8],
    line: &'a [u8],
    line_str: &'a [u8],
    strings: &'a [u8],
    str_offsets: &'a [u8],
    ranges: &'a [u8],
    rnglists: &'a [u8],
    endian: gimli::RunTimeEndian,
) -> (r: Sections<'a>)
    ensures
        gathered(r) == seq![
            abbrev@,
            addr@,
            info@,
            line@,
            line_str@,
            strings@,
            str_offsets@,
            ranges@,
            rnglists@,
        ],
        little_endian(r) == (endian is Little),
{
    let at = |bytes: &'a [u8]| gimli::EndianSlice::new(bytes, endian);
    let ranges = gimli::RangeLists::new(at(ranges).into(), at(rnglists).into());
    let dwarf = gimli::Dwarf {
        debug_abbrev: at(abbrev).into(),
        debug_addr: at(addr).into(),
        debug_info: at(info).into(),
        debug_line: at(line).into(),
        debug_line_str: at(line_str).into(),
        debug_str: at(strings).into(),
        debug_str_offsets: at(str_offsets).into(),
        ranges,
        ..Default::default()
    };
    Sections { dwarf }
}

/// `gimli::Dwarf::units`: a walk over the unit headers, from the first.
/// An empty `.debug_info` section has none.
#[verifier::external_body]
pub(crate) fn units<'a>(sections: &Sections<'a>) -> (r: UnitHeaders<'a>)
    ensures
        headers_ahead(r) == section_units(gathered(*sections), little_endian(*sections)),
        gathered(*sections).len() == 9 && gathered(*sections)[2].len() == 0 ==> headers_ahead(
            r,
        ).len() == 0,
{
    UnitHeaders { iter: sections.dwarf.units() }
}

/// `gimli::CompilationUnitHeadersIter::next`: the next unit header, `None`
/// at the end of the section. The walk hands out what is ahead of it, one
/// header at a time. `Err` stands for a header that cannot be decoded.
#[verifier::external_body]
pub(crate) fn next_unit<'a>(headers: &mut UnitHeaders<'a>) -> (r: Result<
    Option<UnitHeader<'a>>,
    (),
>)
    ensures
        match r {
            Ok(Some(header)) => headers_ahead(*old(headers)).len() > 0 && headers_ahead(
                *old(headers),
            )[0] == Some(header) && headers_ahead(*final(headers)) == headers_ahead(
                *old(headers),
            ).drop_first(),
            Ok(None) => headers_ahead(*old(headers)).len() == 0,
            Err(_) => headers_ahead(*old(headers)).len() > 0 && headers_ahead(*old(headers))[0]
                is None,
        },
{
    match headers.iter.next() {
        Ok(next) => Ok(next.map(|header| UnitHeader { header })),
        Err(_) => Err(()),
    }
}

/// `gimli::CompilationUnitHeader::offset`: where the unit starts in the
/// section.
#[verifier::external_body]
pub(crate) fn unit_base<'a>(header: &UnitHeader<'a>) -> (r: usize)
    ensures
        r == unit_offset(*header),
{
    header.header.offset().0
}

/// `gimli::CompilationUnitHeader::format`: whether the unit is in the
/// 64-bit format.
#[verifier::external_body]
pub(crate) fn is_dwarf64(header: &UnitHeader) -> (r: bool)
    ensures
        r == dwarf64(*header),
{
    matches!(header.header.format(), gimli::Format::Dwarf64)
}

/// `gimli::Dwarf::abbreviations`: the abbreviations of a unit, `None`
/// where they cannot be decoded.
#[verifier::external_body]
pub(crate) fn abbreviations(sections: &Sections, header: &UnitHeader) -> (r: Option<
    gimli::Abbreviations,
>)
    ensures
        r == abbreviations_of(gathered(*sections), little_endian(*sections), *header),
{
    sections.dwarf.abbreviations(&header.header).ok()
}

/// `gimli::CompilationUnitHeader::entries`: a walk over the unit's
/// entries, placed before the root.
#[verifier::external_body]
pub(crate) fn entries<'u, 'a>(
    header: &'u UnitHeader<'a>,
    abbreviations: &'u gimli::Abbreviations,
) -> (r: Entries<'u, 'a>)
    ensures
        entries_ahead(r) == unit_entries(*header, *abbreviations),
{
    Entries { cursor: header.header.entries(abbreviations) }
}

/// `gimli::EntriesCursor::next_dfs`: the next entry in depth-first order
/// and its depth less the depth of the entry before it, `None` at the end
/// of the unit. The walk hands out what is ahead of it, one entry at a
/// time. `Err` stands for an entry that cannot be decoded.
#[verifier::external_body]
pub(crate) fn next_entry<'u, 'a>(entries: &mut Entries<'u, 'a>) -> (r: Result<
    Option<(isize, Die<'u, 'a>)>,
    (),
>)
    ensures
        match r {
            Ok(Some(next)) => entries_ahead(*old(entries)).len() > 0 && entries_ahead(
                *old(entries),
            )[0] == Some(next) && entries_ahead(*final(entries)) == entries_ahead(
                *old(entries),
            ).drop_first(),
            Ok(None) => entries_ahead(*old(entries)).len() == 0,
            Err(_) => entries_ahead(*old(entries)).len() > 0 && entries_ahead(*old(entries))[0]
                is None,
        },
{
    match entries.cursor.next_dfs() {
        Ok(next) => Ok(next.map(|(delta, entry)| (delta, Die { entry: entry.clone() }))),
        Err(_) => Err(()),
    }
}

/// `gimli::DebuggingInformationEntry::tag`, as its number.
#[verifier::external_body]
pub(crate) fn tag_code(die: &Die) -> (r: u64)
    ensures
        r == tag_number(*die),
{
    die.entry.tag().0
}

/// `gimli::DebuggingInformationEntry::offset`: where the entry starts,
/// counted from the start of its unit.
#[verifier::external_body]
pub(crate) fn local_offset(die: &Die) -> (r: usize)
    ensures
        r == place(*die),
{
    die.entry.offset().0
}

/// `gimli::DebuggingInformationEntry::attr_value`: the value of the first
/// attribute with the name of number `name`. `Some(None)` where the entry
/// has no such attribute, `None` where its attributes cannot be decoded.
#[verifier::external_body]
pub(crate) fn attr_value<'u, 'a>(die: &Die<'u, 'a>, name: u64) -> (r: Option<Option<Value<'a>>>)
    ensures
        r == value_of(*die, name),
{
    die.entry.attr_value(gimli::DwAt(name)).ok().map(|found| found.map(|value| Value { value }))
}

/// The form of a value: which variant of `gimli::AttributeValue` it is,
/// with the number that the variant holds.
#[verifier::external_body]
pub(crate) fn form(value: &Value) -> (r: Attribute)
    ensures
        r == form_of(*value),
{
    match value.value {
        gimli::AttributeValue::UnitRef(offset) => Attribute::UnitRef(offset.0),
        gimli::AttributeValue::DebugInfoRef(offset) => Attribute::DebugInfoRef(offset.0),
        gimli::AttributeValue::Addr(address) => Attribute::Addr(address),
        gimli::AttributeValue::Udata(number) => Attribute::Udata(number),
        gimli::AttributeValue::String(_) => Attribute::String,
        gimli::AttributeValue::DebugStrRef(offset) => Attribute::DebugStrRef(offset.0),
        gimli::AttributeValue::DebugLineStrRef(offset) => Attribute::DebugLineStrRef(offset.0),
        gimli::AttributeValue::DebugStrOffsetsIndex(i) => Attribute::DebugStrOffsetsIndex(i.0),
        gimli::AttributeValue::DebugStrOffsetsBase(base) => Attribute::DebugStrOffsetsBase(base.0),
        _ => Attribute::Other,
    }
}

/// The bytes of `gimli::AttributeValue::String`, by
/// `gimli::EndianSlice::slice`; none for another variant.
#[verifier::external_body]
pub(crate) fn inline_string(value: &Value) -> (r: Vec<u8>)
    ensures
        r@ == inline_bytes(*value),
{
    match value.value {
        gimli::AttributeValue::String(string) => string.slice().to_vec(),
        _ => Vec::new(),
    }
}

/// `gimli::Dwarf::string`: the bytes of the string that starts at
/// `offset` in `.debug_str`, up to the zero byte that ends it; `None`
/// where the section ends before.
#[verifier::external_body]
pub(crate) fn debug_str(sections: &Sections, offset: usize) -> (r: Option<Vec<u8>>)
    ensures
        debug_str_at(gathered(*sections), little_endian(*sections), offset) == match r {
            Some(bytes) => Some(bytes@),
            None => None,
        },
{
    sections.dwarf.string(gimli::DebugStrOffset(offset)).ok().map(|found| found.slice().to_vec())
}

/// `gimli::Dwarf::line_string`: the same in `.debug_line_str`.
#[verifier::external_body]
pub(crate) fn debug_line_str(sections: &Sections, offset: usize) -> (r: Option<Vec<u8>>)
    ensures
        debug_line_str_at(gathered(*sections), little_endian(*sections), offset) == match r {
            Some(bytes) => Some(bytes@),
            None => None,
        },
{
    sections.dwarf.line_string(gimli::DebugLineStrOffset(offset)).ok().map(
        |found| found.slice().to_vec(),
    )
}

/// `gimli::DebugStrOffsets::get_str_offset`: the offset that stands at
/// `index` behind `base` in `.debug_str_offsets`, `None` where the
/// section ends before. gimli multiplies the index by the size of a word,
/// four or eight bytes, without a check: the index must leave room for
/// that.
#[verifier::external_body]
pub(crate) fn str_offset(sections: &Sections, header: &UnitHeader, base: usize, index: usize) -> (r:
    Option<usize>)
    requires
        index * 8 <= u64::MAX,
    ensures
        r == str_offset_at(
            gathered(*sections),
            little_endian(*sections),
            dwarf64(*header),
            base,
            index,
        ),
{
    sections.dwarf.debug_str_offsets.get_str_offset(
        header.header.format(),
        gimli::DebugStrOffsetsBase(base),
        gimli::DebugStrOffsetsIndex(index),
    ).ok().map(|offset| offset.0)
}

/// `String::from_utf8_lossy`: the text of bytes, with what is not UTF-8
/// in them replaced.
#[verifier::external_body]
pub(crate) fn lossy(bytes: &Vec<u8>) -> (r: String)
    ensures
        r@ == lossy_text(bytes@),
{
    String::from_utf8_lossy(bytes).into_owned()
}

} // verus!
