//! What the bytes of the debugging sections come to: the attribution of
//! the units and entries that gimli decodes from them.

use crate::attribution::{
    classify, extent, origin_of, pops, step, tag_of, EntryView, Origin, ParseError, State, Step,
    Table,
};
use crate::die_parse::{
    DW_AT_ABSTRACT_ORIGIN, DW_AT_HIGH_PC, DW_AT_LOW_PC, DW_AT_NAME, DW_AT_STR_OFFSETS_BASE,
};
use crate::dwarf::{
    abbreviations_of, debug_line_str_at, debug_str_at, dwarf64, form_of, inline_bytes,
    lossy_text, place, section_units, str_offset_at, tag_number, unit_entries, unit_offset,
    value_of, Attribute, Die, UnitHeader, Value,
};
use vstd::prelude::*;

verus! {

/// What the entries of one unit are read with.
pub struct Context {
    /// The bytes of the gathered sections.
    pub gathered: Seq<Seq<u8>>,
    /// Whether they are read as little endian.
    pub little_endian: bool,
    /// Whether the unit is in the 64-bit format.
    pub dwarf64: bool,
    /// Where the unit's string offsets start.
    pub str_base: usize,
    /// Where the unit starts in its section.
    pub base: usize,
}

/// The value of an attribute of an entry, in the form it has.
pub open spec fn attribute_reading(die: Die, name: u64) -> Result<Attribute, ParseError> {
    match value_of(die, name) {
        Some(Some(value)) => Ok(form_of(value)),
        Some(None) => Ok(Attribute::Absent),
        None => Err(ParseError::MalformedFormat),
    }
}

/// The abstract-origin attribute of an entry.
pub open spec fn origin_reading(die: Die) -> Result<Origin, ParseError> {
    match attribute_reading(die, DW_AT_ABSTRACT_ORIGIN) {
        Ok(value) => Ok(origin_of(value)),
        Err(e) => Err(e),
    }
}

/// The text of the string at `offset` in `.debug_str`.
pub open spec fn text_at(context: Context, offset: usize) -> Result<Seq<char>, ParseError> {
    match debug_str_at(context.gathered, context.little_endian, offset) {
        Some(bytes) => Ok(lossy_text(bytes)),
        None => Err(ParseError::MalformedFormat),
    }
}

/// The largest index that the `.debug_str_offsets` section is asked for.
pub open spec fn max_str_index() -> usize {
    (usize::MAX / 8) as usize
}

/// The string that a value holds or refers to. A value of a form that is
/// no string, or an index out of all bounds, is refused with
/// `MalformedAttribute`; a reference that leads nowhere with
/// `MalformedFormat`.
pub open spec fn string_reading(context: Context, value: Value) -> Result<Seq<char>, ParseError> {
    match form_of(value) {
        Attribute::String => Ok(lossy_text(inline_bytes(value))),
        Attribute::DebugStrRef(offset) => text_at(context, offset),
        Attribute::DebugLineStrRef(offset) => match debug_line_str_at(
            context.gathered,
            context.little_endian,
            offset,
        ) {
            Some(bytes) => Ok(lossy_text(bytes)),
            None => Err(ParseError::MalformedFormat),
        },
        Attribute::DebugStrOffsetsIndex(index) => if index > max_str_index() {
            Err(ParseError::MalformedAttribute)
        } else {
            match str_offset_at(
                context.gathered,
                context.little_endian,
                context.dwarf64,
                context.str_base,
                index,
            ) {
                Some(offset) => text_at(context, offset),
                None => Err(ParseError::MalformedFormat),
            }
        },
        _ => Err(ParseError::MalformedAttribute),
    }
}

/// The display name of an entry: the string of its `DW_AT_name`.
pub open spec fn name_reading(context: Context, die: Die) -> Result<Option<Seq<char>>, ParseError> {
    match value_of(die, DW_AT_NAME) {
        Some(Some(value)) => match string_reading(context, value) {
            Ok(name) => Ok(Some(name)),
            Err(e) => Err(e),
        },
        Some(None) => Ok(None),
        None => Err(ParseError::MalformedFormat),
    }
}

/// The extent of an entry's code: what its two address attributes give.
pub open spec fn size_reading(die: Die) -> Result<Option<u64>, ParseError> {
    match attribute_reading(die, DW_AT_LOW_PC) {
        Err(e) => Err(e),
        Ok(low) => match attribute_reading(die, DW_AT_HIGH_PC) {
            Err(e) => Err(e),
            Ok(high) => extent(low, high),
        },
    }
}

/// One entry as the attribution reads it. Only what is needed is read:
/// nothing but the tag of an entry of another kind, the name of a
/// subprogram only, and neither name nor size of an entry that cannot be
/// classified.
pub open spec fn entry_reading(context: Context, delta: isize, die: Die) -> Result<
    EntryView,
    ParseError,
> {
    let tag = tag_of(tag_number(die));
    let offset = place(die);
    if tag is Other {
        Ok(EntryView { delta: delta as int, tag, offset, origin: Origin::Absent, name: None, size: None })
    } else {
        match origin_reading(die) {
            Err(e) => Err(e),
            Ok(origin) => if classify(context.base, tag, offset, origin) is Err {
                Ok(EntryView { delta: delta as int, tag, offset, origin, name: None, size: None })
            } else {
                match if tag is Subprogram {
                    name_reading(context, die)
                } else {
                    Ok(None)
                } {
                    Err(e) => Err(e),
                    Ok(name) => match size_reading(die) {
                        Err(e) => Err(e),
                        Ok(size) => Ok(
                            EntryView { delta: delta as int, tag, offset, origin, name, size },
                        ),
                    },
                }
            },
        }
    }
}

/// The records after the rest of a unit, and how its analysis ends: the
/// walk stands at `state` and has `ahead` before it. It ends at the first
/// entry that cannot be decoded or counted, and at an entry beside the
/// root or above it, which must be the last.
pub open spec fn finish_unit(state: State, context: Context, ahead: Seq<Option<(isize, Die)>>) -> (
    Table,
    Result<(), ParseError>,
)
    decreases ahead.len(),
{
    if ahead.len() == 0 {
        (state.table, Ok(()))
    } else {
        match ahead[0] {
            None => (state.table, Err(ParseError::MalformedFormat)),
            Some((delta, die)) => if pops(delta as int) > state.stack.len() {
                if ahead.len() == 1 {
                    (state.table, Ok(()))
                } else {
                    (state.table, Err(ParseError::MalformedFormat))
                }
            } else {
                match entry_reading(context, delta, die) {
                    Err(e) => (state.table, Err(e)),
                    Ok(entry) => match step(state, context.base, entry) {
                        Step::Next(next) => finish_unit(next, context, ahead.drop_first()),
                        Step::Done => (state.table, Ok(())),
                        Step::Fail(e) => (state.table, Err(e)),
                    },
                }
            },
        }
    }
}

/// Where the string offsets of a unit start: what the root says, and the
/// start of the section where it says nothing.
pub open spec fn str_base_of(value: Attribute) -> usize {
    match value {
        Attribute::DebugStrOffsetsBase(base) => base,
        _ => 0,
    }
}

/// The records after one unit, and how its analysis ends. The root is
/// looked for and not counted; a unit without entries has none.
pub open spec fn unit_outcome(
    table: Table,
    gathered: Seq<Seq<u8>>,
    little_endian: bool,
    header: UnitHeader,
) -> (Table, Result<(), ParseError>) {
    match abbreviations_of(gathered, little_endian, header) {
        None => (table, Err(ParseError::MalformedFormat)),
        Some(abbreviations) => {
            let all = unit_entries(header, abbreviations);
            if all.len() == 0 {
                (table, Err(ParseError::MissingTreeRoot))
            } else {
                match all[0] {
                    None => (table, Err(ParseError::MalformedFormat)),
                    Some((_, root)) => match attribute_reading(root, DW_AT_STR_OFFSETS_BASE) {
                        Err(e) => (table, Err(e)),
                        Ok(value) => finish_unit(
                            State { table, stack: Seq::empty() },
                            Context {
                                gathered,
                                little_endian,
                                dwarf64: dwarf64(header),
                                str_base: str_base_of(value),
                                base: unit_offset(header),
                            },
                            all.drop_first(),
                        ),
                    },
                }
            }
        },
    }
}

/// The records after the units that are still ahead, counted one after
/// the other up to the first that fails or cannot be decoded.
pub open spec fn finish_file(
    table: Table,
    gathered: Seq<Seq<u8>>,
    little_endian: bool,
    ahead: Seq<Option<UnitHeader>>,
) -> (Table, Result<(), ParseError>)
    decreases ahead.len(),
{
    if ahead.len() == 0 {
        (table, Ok(()))
    } else {
        match ahead[0] {
            None => (table, Err(ParseError::MalformedFormat)),
            Some(header) => {
                let (reached, r) = unit_outcome(table, gathered, little_endian, header);
                if r is Ok {
                    finish_file(reached, gathered, little_endian, ahead.drop_first())
                } else {
                    (reached, r)
                }
            },
        }
    }
}

/// The records after all units of the gathered sections, and how the
/// analysis ends.
pub open spec fn file_outcome(table: Table, gathered: Seq<Seq<u8>>, little_endian: bool) -> (
    Table,
    Result<(), ParseError>,
) {
    finish_file(table, gathered, little_endian, section_units(gathered, little_endian))
}

} // verus!
