//! The analysis of the debugging sections of a file: they are gathered,
//! their compilation units counted, and the records handed out as items.

use crate::attribution::{ParseError, Record};
use crate::compilation_unit_parse::CompUnitParser;
use crate::dwarf::{gathered, little_endian, sections, Sections};
use crate::emit::{check_items, fits, lists, total_size, CodeItem};
use crate::reading::file_outcome;
use std::borrow::{Borrow, Cow};
use typed_arena::Arena;
use vstd::prelude::*;

verus! {

/// `typed_arena::Arena`: a store that keeps what is put in it for as long
/// as it lives.
#[verifier::external_type_specification]
#[verifier::external_body]
#[verifier::reject_recursive_types(T)]
pub struct ExArena<T>(typed_arena::Arena<T>);

/// `typed_arena::Arena::new` makes an empty arena.
pub assume_specification<T>[ typed_arena::Arena::<T>::new ]() -> (r: typed_arena::Arena<T>)
;

/// `typed_arena::Arena::alloc`: the arena keeps the bytes for as long as
/// it lives, and hands them back as a slice.
#[verifier::external_body]
pub(crate) fn keep<'a, 'd>(arena: &'a Arena<Cow<'d, [u8]>>, data: Cow<'d, [u8]>) -> (r: &'a [u8])
    ensures
        r@ == data@,
{
    (*arena.alloc(data)).borrow()
}

/// What an object file has of the sections that hold the debugging
/// information, each by the name it has in the file. `None` stands for a
/// section that the file does not have.
pub struct SectionData<'d> {
    /// `.debug_abbrev`
    pub debug_abbrev: Option<Cow<'d, [u8]>>,
    /// `.debug_addr`
    pub debug_addr: Option<Cow<'d, [u8]>>,
    /// `.debug_info`
    pub debug_info: Option<Cow<'d, [u8]>>,
    /// `.debug_line`
    pub debug_line: Option<Cow<'d, [u8]>>,
    /// `.debug_line_str`
    pub debug_line_str: Option<Cow<'d, [u8]>>,
    /// `.debug_str`
    pub debug_str: Option<Cow<'d, [u8]>>,
    /// `.debug_str_offsets`
    pub debug_str_offsets: Option<Cow<'d, [u8]>>,
    /// `.debug_ranges`
    pub debug_ranges: Option<Cow<'d, [u8]>>,
    /// `.debug_rnglists`
    pub debug_rnglists: Option<Cow<'d, [u8]>>,
}

/// The bytes of a section, none where the file has no such section.
pub open spec fn loaded(data: Option<Cow<[u8]>>) -> Seq<u8> {
    match data {
        Some(bytes) => bytes@,
        None => Seq::<u8>::empty(),
    }
}

impl<'d> View for SectionData<'d> {
    type V = Seq<Seq<u8>>;

    open spec fn view(&self) -> Seq<Seq<u8>> {
        seq![
            loaded(self.debug_abbrev),
            loaded(self.debug_addr),
            loaded(self.debug_info),
            loaded(self.debug_line),
            loaded(self.debug_line_str),
            loaded(self.debug_str),
            loaded(self.debug_str_offsets),
            loaded(self.debug_ranges),
            loaded(self.debug_rnglists),
        ]
    }
}

/// The bytes of one section, kept in `arena`. A section that the file
/// does not have is empty.
pub fn load_section<'a, 'd>(arena: &'a Arena<Cow<'d, [u8]>>, data: Option<Cow<'d, [u8]>>) -> (r:
    &'a [u8])
    ensures
        r@ == loaded(data),
{
    let data = match data {
        Some(data) => data,
        None => {
            let nothing: &[u8] = &[];
            Cow::Borrowed(nothing)
        },
    };
    keep(arena, data)
}

/// Gathers the debugging sections of a file, each kept in `arena`, to be
/// read as little endian or as big endian. A section that the file does
/// not have is empty.
pub fn load_sections<'a, 'd>(
    arena: &'a Arena<Cow<'d, [u8]>>,
    data: SectionData<'d>,
    is_little_endian: bool,
) -> (r: Sections<'a>)
    ensures
        gathered(r) == data@,
        little_endian(r) == is_little_endian,
{
    let endian = if is_little_endian {
        gimli::RunTimeEndian::Little
    } else {
        gimli::RunTimeEndian::Big
    };
    let debug_abbrev = load_section(arena, data.debug_abbrev);
    let debug_addr = load_section(arena, data.debug_addr);
    let debug_info = load_section(arena, data.debug_info);
    let debug_line = load_section(arena, data.debug_line);
    let debug_line_str = load_section(arena, data.debug_line_str);
    let debug_str = load_section(arena, data.debug_str);
    let debug_str_offsets = load_section(arena, data.debug_str_offsets);
    let debug_ranges = load_section(arena, data.debug_ranges);
    let debug_rnglists = load_section(arena, data.debug_rnglists);
    sections(
        debug_abbrev,
        debug_addr,
        debug_info,
        debug_line,
        debug_line_str,
        debug_str,
        debug_str_offsets,
        debug_ranges,
        debug_rnglists,
        endian,
    )
}

/// What the analysis of the gathered sections hands out beside items
/// whose sizes sum to `added`: where counting the units fails, it fails
/// in the same way; else the records are listed, unless an offset or the
/// sum of all sizes is too large for an item. Sections without units give
/// no items.
pub open spec fn items_outcome(
    gathered: Seq<Seq<u8>>,
    little_endian: bool,
    added: u32,
    r: Result<Vec<CodeItem>, ParseError>,
) -> bool {
    let (table, counted) = file_outcome(Map::<usize, Record>::empty(), gathered, little_endian);
    match counted {
        Err(e) => r == Err::<Vec<CodeItem>, ParseError>(e),
        Ok(()) => match r {
            Ok(records) => {
                &&& lists(table, records@)
                &&& fits(records@)
                &&& added + total_size(records@) <= u32::MAX
            },
            Err(e) => {
                &&& e == ParseError::TooLarge
                &&& exists|records: Seq<CodeItem>| #[trigger]
                    lists(table, records) && !(fits(records) && added + total_size(records)
                        <= u32::MAX)
            },
        },
    }
}

/// Counts the compilation units of `sections` and hands out one item of
/// executable code for each function found, in the order of their
/// offsets. `added` is the sum of the sizes of the items that the file
/// has already.
pub fn parse_items(sections: &Sections, added: u32) -> (r: Result<Vec<CodeItem>, ParseError>)
    ensures
        items_outcome(gathered(*sections), little_endian(*sections), added, r),
        gathered(*sections).len() == 9 && gathered(*sections)[2].len() == 0 ==> r is Ok
            && r->Ok_0@.len() == 0,
{
    let mut parser = CompUnitParser::default();
    let counted = parser.parse_units(sections);
    assert((parser@, counted) == file_outcome(
        Map::<usize, Record>::empty(),
        gathered(*sections),
        little_endian(*sections),
    ));
    match counted {
        Ok(()) => {},
        Err(e) => {
            return Err(e);
        },
    }
    let records = parser.records();
    proof {
        if records@.len() > 0 && parser@ == Map::<usize, Record>::empty() {
            assert(parser@.contains_key(records@[0].offset));
        }
    }
    let ghost table = file_outcome(
        Map::<usize, Record>::empty(),
        gathered(*sections),
        little_endian(*sections),
    ).0;
    assert(lists(table, records@));
    match check_items(&records, added) {
        Ok(()) => {
            assert(fits(records@) && added + total_size(records@) <= u32::MAX);
            Ok(records)
        },
        Err(e) => {
            assert(e == ParseError::TooLarge);
            assert(lists(table, records@) && !(fits(records@) && added + total_size(records@)
                <= u32::MAX));
            Err(e)
        },
    }
}

/// Adds the edges between the items: the debugging information gives
/// none, so there is nothing to add.
pub fn parse_edges(sections: &Sections) -> (r: Result<(), ParseError>)
    ensures
        r is Ok,
{
    Ok(())
}

/// Analyses the debugging sections of a file and hands out one item of
/// executable code for each function that they describe, in the order of
/// their offsets. `added` is the sum of the sizes of the items that the
/// file has already. A file without compilation units gives no items.
pub fn parse(data: SectionData, is_little_endian: bool, added: u32) -> (r: Result<
    Vec<CodeItem>,
    ParseError,
>)
    ensures
        items_outcome(data@, is_little_endian, added, r),
        loaded(data.debug_info).len() == 0 ==> r is Ok && r->Ok_0@.len() == 0,
{
    let arena = Arena::new();
    let dwarf = load_sections(&arena, data, is_little_endian);
    let records = match parse_items(&dwarf, added) {
        Ok(records) => records,
        Err(e) => {
            return Err(e);
        },
    };
    match parse_edges(&dwarf) {
        Ok(()) => Ok(records),
        Err(e) => Err(e),
    }
}

} // verus!
