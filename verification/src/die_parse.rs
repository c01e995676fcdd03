//! What the attribution reads from one debugging entry: its kind, the
//! function it stands for, its name and the extent of its code.

use crate::attribution::{name_view, Origin, ParseError, Tag};
use crate::dwarf::{
    attr_value, debug_line_str, debug_str, dwarf64, form, gathered, inline_string,
    little_endian, lossy, str_offset, tag_code, tag_number, Attribute, Die, Sections, UnitHeader,
    Value,
};
use crate::reading::{
    attribute_reading, name_reading, origin_reading, size_reading, string_reading, text_at,
    Context,
};
use vstd::prelude::*;

verus! {

/// The number of the tag `DW_TAG_inlined_subroutine`.
pub const DW_TAG_INLINED_SUBROUTINE: u64 = 0x1d;

/// The number of the tag `DW_TAG_subprogram`.
pub const DW_TAG_SUBPROGRAM: u64 = 0x2e;

/// The number of the attribute `DW_AT_name`.
pub const DW_AT_NAME: u64 = 0x03;

/// The number of the attribute `DW_AT_low_pc`.
pub const DW_AT_LOW_PC: u64 = 0x11;

/// The number of the attribute `DW_AT_high_pc`.
pub const DW_AT_HIGH_PC: u64 = 0x12;

/// The number of the attribute `DW_AT_str_offsets_base`.
pub const DW_AT_STR_OFFSETS_BASE: u64 = 0x72;

/// The number of the attribute `DW_AT_abstract_origin`.
pub const DW_AT_ABSTRACT_ORIGIN: u64 = 0x31;

/// The kind of an entry with the tag of number `code`.
pub fn tag_of(code: u64) -> (tag: Tag)
    ensures
        tag == crate::attribution::tag_of(code),
{
    if code == DW_TAG_SUBPROGRAM {
        Tag::Subprogram
    } else if code == DW_TAG_INLINED_SUBROUTINE {
        Tag::InlinedSubroutine
    } else {
        Tag::Other
    }
}

/// An abstract-origin attribute with the value `value`. Only a reference
/// to an entry is expected there.
pub fn origin_of(value: Attribute) -> (origin: Origin)
    ensures
        origin == crate::attribution::origin_of(value),
{
    match value {
        Attribute::Absent => Origin::Absent,
        Attribute::UnitRef(local) => Origin::UnitRef(local),
        Attribute::DebugInfoRef(target) => Origin::DebugInfoRef(target),
        _ => Origin::Unexpected,
    }
}

/// The extent of the code between the addresses that the attributes
/// `DW_AT_low_pc` and `DW_AT_high_pc` give. The upper one is an address or
/// a length. `None` where the entry has no upper attribute, or an upper
/// address and no lower one.
pub fn extent(low: Attribute, high: Attribute) -> (r: Result<Option<u64>, ParseError>)
    ensures
        r == crate::attribution::extent(low, high),
{
    match high {
        Attribute::Absent => Ok(None),
        Attribute::Udata(length) => Ok(Some(length)),
        Attribute::Addr(end) => match low {
            Attribute::Absent => Ok(None),
            Attribute::Addr(begin) => if begin <= end {
                Ok(Some(end - begin))
            } else {
                Err(ParseError::MalformedAttribute)
            },
            _ => Err(ParseError::MalformedAttribute),
        },
        _ => Err(ParseError::MalformedAttribute),
    }
}

/// What the entries of the unit with the header `header` are read with.
pub open spec fn context_of(sections: Sections, header: UnitHeader, str_base: usize, base: usize) -> Context {
    Context {
        gathered: gathered(sections),
        little_endian: little_endian(sections),
        dwarf64: dwarf64(header),
        str_base,
        base,
    }
}

/// The kind of an entry.
pub fn item_tag(die: &Die) -> (tag: Tag)
    ensures
        tag == crate::attribution::tag_of(tag_number(*die)),
{
    tag_of(tag_code(die))
}

/// The value of the attribute of `die` with the name of number `name`, in
/// the form it has. Fails with `MalformedFormat` where the entry's
/// attributes cannot be decoded.
pub fn attribute_value(die: &Die, name: u64) -> (r: Result<Attribute, ParseError>)
    ensures
        r == attribute_reading(*die, name),
{
    match attr_value(die, name) {
        Some(Some(value)) => Ok(form(&value)),
        Some(None) => Ok(Attribute::Absent),
        None => Err(ParseError::MalformedFormat),
    }
}

/// The abstract-origin attribute of an entry. Fails with
/// `MalformedFormat` where the entry's attributes cannot be decoded.
pub fn abstract_origin(die: &Die) -> (r: Result<Origin, ParseError>)
    ensures
        r == origin_reading(*die),
{
    match attribute_value(die, DW_AT_ABSTRACT_ORIGIN) {
        Ok(value) => Ok(origin_of(value)),
        Err(e) => Err(e),
    }
}

/// The text of the string at `offset` in the `.debug_str` section. Fails
/// with `MalformedFormat` where no string ends there.
pub fn string_at(sections: &Sections, offset: usize) -> (r: Result<String, ParseError>)
    ensures
        forall|context: Context|
            context.gathered == gathered(*sections) && context.little_endian == little_endian(
                *sections,
            ) ==> #[trigger] text_at(context, offset) == match r {
                Ok(text) => Ok::<Seq<char>, ParseError>(text@),
                Err(e) => Err(e),
            },
{
    match debug_str(sections, offset) {
        Some(bytes) => Ok(lossy(&bytes)),
        None => Err(ParseError::MalformedFormat),
    }
}

/// The string that a value holds or refers to: written in the entry, or
/// found in one of the string sections, straight or by way of the unit's
/// string offsets, which start at `str_base`. A value of a form that is
/// no string is refused with `MalformedAttribute`, a reference that leads
/// nowhere with `MalformedFormat`.
pub fn string_value(
    sections: &Sections,
    header: &UnitHeader,
    str_base: usize,
    base: usize,
    value: &Value,
) -> (r: Result<String, ParseError>)
    ensures
        string_reading(context_of(*sections, *header, str_base, base), *value) == match r {
            Ok(text) => Ok::<Seq<char>, ParseError>(text@),
            Err(e) => Err(e),
        },
{
    match form(value) {
        Attribute::String => Ok(lossy(&inline_string(value))),
        Attribute::DebugStrRef(offset) => string_at(sections, offset),
        Attribute::DebugLineStrRef(offset) => match debug_line_str(sections, offset) {
            Some(bytes) => Ok(lossy(&bytes)),
            None => Err(ParseError::MalformedFormat),
        },
        Attribute::DebugStrOffsetsIndex(index) => {
            if index > usize::MAX / 8 {
                return Err(ParseError::MalformedAttribute);
            }
            match str_offset(sections, header, str_base, index) {
                Some(offset) => string_at(sections, offset),
                None => Err(ParseError::MalformedFormat),
            }
        },
        _ => Err(ParseError::MalformedAttribute),
    }
}

/// The display name of an entry: the string of its `DW_AT_name`
/// attribute, `None` where it has none.
pub fn item_name(
    sections: &Sections,
    header: &UnitHeader,
    str_base: usize,
    base: usize,
    die: &Die,
) -> (r: Result<Option<String>, ParseError>)
    ensures
        name_reading(context_of(*sections, *header, str_base, base), *die) == match r {
            Ok(name) => Ok::<Option<Seq<char>>, ParseError>(name_view(name)),
            Err(e) => Err(e),
        },
{
    match attr_value(die, DW_AT_NAME) {
        Some(Some(value)) => match string_value(sections, header, str_base, base, &value) {
            Ok(name) => Ok(Some(name)),
            Err(e) => Err(e),
        },
        Some(None) => Ok(None),
        None => Err(ParseError::MalformedFormat),
    }
}

/// The extent of an entry's code in bytes: what its two address
/// attributes give, `None` where it has none. Fails with
/// `MalformedFormat` where the entry's attributes cannot be decoded, and
/// with `MalformedAttribute` where they give no extent.
pub fn entity_size(die: &Die) -> (r: Result<Option<u64>, ParseError>)
    ensures
        r == size_reading(*die),
{
    let low = attribute_value(die, DW_AT_LOW_PC)?;
    let high = attribute_value(die, DW_AT_HIGH_PC)?;
    extent(low, high)
}

} // verus!
