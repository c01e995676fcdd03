//! The attribution engine: the records of a file and the walk that fills them.

use crate::attribution::{
    entry_views, name_view, parse_unit, pops, step, walk, Entry, Node, Origin, ParseError,
    Progress, Record, State, Step, Table, Tag,
};
use crate::die_parse::{
    abstract_origin, attribute_value, context_of, entity_size, item_name, item_tag,
    DW_AT_STR_OFFSETS_BASE,
};
use crate::dwarf::{
    abbreviations, entries, entries_ahead, gathered, headers_ahead, little_endian, local_offset,
    next_entry, next_unit, unit_base, units, Attribute, Sections, UnitHeader,
};
use crate::reading::{file_outcome, finish_file, finish_unit, unit_outcome};
use std::collections::BTreeMap;
use vstd::prelude::*;

verus! {

/// What is known of one function.
#[derive(Debug, Clone)]
pub struct Subroutine {
    /// The function's name, once a subprogram gave one.
    pub name: Option<String>,
    /// The bytes of code counted for the function.
    pub size: u32,
}

impl View for Subroutine {
    type V = Record;

    open spec fn view(&self) -> Record {
        Record { name: name_view(self.name), size: self.size as nat }
    }
}

impl Default for Subroutine {
    fn default() -> (r: Subroutine)
        ensures
            r@ == (Record { name: None, size: 0 }),
    {
        Subroutine { name: None, size: 0 }
    }
}

/// The records of a file, shared by the walks over its compilation units.
pub struct CompUnitParser {
    /// The records by section offset.
    pub subroutines: BTreeMap<usize, Subroutine>,
}

impl View for CompUnitParser {
    type V = Table;

    open spec fn view(&self) -> Table {
        Map::new(
            |id: usize| self.subroutines@.contains_key(id),
            |id: usize| self.subroutines@[id]@,
        )
    }
}

impl Default for CompUnitParser {
    fn default() -> (r: CompUnitParser)
        ensures
            r@ == Map::<usize, Record>::empty(),
    {
        let r = CompUnitParser { subroutines: BTreeMap::new() };
        assert(r@ =~= Map::<usize, Record>::empty());
        r
    }
}

/// The section offset of what lies `local` bytes into the unit at `base`.
pub fn global_offset(base: usize, local: usize) -> (r: Option<usize>)
    ensures
        r == crate::attribution::global_offset(base, local),
{
    base.checked_add(local)
}

/// The section offset that an abstract-origin attribute refers to, if the
/// entry has one.
pub fn resolve_origin(base: usize, origin: Origin) -> (r: Result<Option<usize>, ParseError>)
    ensures
        r == crate::attribution::resolve_origin(base, origin),
{
    match origin {
        Origin::Absent => Ok(None),
        Origin::UnitRef(local) => match global_offset(base, local) {
            Some(target) => Ok(Some(target)),
            None => Err(ParseError::MalformedAttribute),
        },
        Origin::DebugInfoRef(target) => Ok(Some(target)),
        Origin::Unexpected => Err(ParseError::MalformedAttribute),
    }
}

/// Classifies an entry of the unit at `base` by its tag, and finds the
/// function it stands for.
pub fn classify(base: usize, tag: Tag, offset: usize, origin: Origin) -> (r: Result<Node, ParseError>)
    ensures
        r == crate::attribution::classify(base, tag, offset, origin),
{
    match tag {
        Tag::Other => Ok(Node::Other),
        Tag::Subprogram => match resolve_origin(base, origin) {
            Err(e) => Err(e),
            Ok(Some(id)) => Ok(Node::Subprogram(id)),
            Ok(None) => match global_offset(base, offset) {
                Some(id) => Ok(Node::Subprogram(id)),
                None => Err(ParseError::MalformedFormat),
            },
        },
        Tag::InlinedSubroutine => match resolve_origin(base, origin) {
            Err(e) => Err(e),
            Ok(Some(id)) => Ok(Node::InlinedSubroutine(id)),
            Ok(None) => Err(ParseError::UnresolvedOrigin),
        },
    }
}

/// Closes the path entries that an entry with depth delta `delta` leaves
/// behind. Returns `false`, with the path untouched, where the entry lies
/// beside the unit's root or above it.
pub fn unwind(stack: &mut Vec<Node>, delta: isize) -> (inside: bool)
    ensures
        inside == (pops(delta as int) <= old(stack)@.len()),
        inside ==> final(stack)@ == old(stack)@.take(old(stack)@.len() - pops(delta as int)),
        !inside ==> final(stack)@ == old(stack)@,
{
    if delta > 0 {
        assert(stack@.take(stack@.len() as int) =~= stack@);
        return true;
    }
    let above: usize = if delta == 0 {
        0
    } else {
        (-(delta + 1)) as usize + 1
    };
    if above >= stack.len() {
        return false;
    }
    let kept: usize = stack.len() - above - 1;
    stack.truncate(kept);
    true
}

/// The function of the innermost subprogram or inlined subroutine on the path.
pub fn enclosing_scope(stack: &Vec<Node>) -> (r: Option<usize>)
    ensures
        r == crate::attribution::enclosing_scope(stack@),
{
    let mut i: usize = stack.len();
    assert(stack@.take(i as int) =~= stack@);
    while i > 0
        invariant
            i <= stack.len(),
            crate::attribution::enclosing_scope(stack@) == crate::attribution::enclosing_scope(
                stack@.take(i as int),
            ),
        decreases i,
    {
        i -= 1;
        assert(stack@.take(i + 1).drop_last() =~= stack@.take(i as int));
        match stack[i] {
            Node::Subprogram(id) => {
                return Some(id);
            },
            Node::InlinedSubroutine(id) => {
                return Some(id);
            },
            Node::Other => {},
        }
    }
    None
}

impl CompUnitParser {
    /// Takes `bytes` away from the record of the nearest scope on the path,
    /// as far as that record has them.
    pub fn correct(&mut self, stack: &Vec<Node>, bytes: u32)
        ensures
            final(self)@ == crate::attribution::corrected(old(self)@, stack@, bytes as nat),
    {
        match enclosing_scope(stack) {
            Some(scope) => match self.subroutines.remove(&scope) {
                Some(record) => {
                    let size: u32 = record.size.saturating_sub(bytes);
                    self.subroutines.insert(scope, Subroutine { name: record.name, size });
                    assert(self@ =~= crate::attribution::corrected(
                        old(self)@,
                        stack@,
                        bytes as nat,
                    ));
                },
                None => {
                    assert(self@ =~= old(self)@);
                },
            },
            None => {},
        }
    }

    /// Counts one occurrence, found below the path `stack`: its bytes go to
    /// the record of its function, a subprogram's name too, and the bytes of
    /// an inlined subroutine leave the nearest scope on the path. Where the
    /// occurrence cannot be counted the records stay as they were.
    pub fn attribute(
        &mut self,
        stack: &Vec<Node>,
        node: Node,
        name: Option<String>,
        size: Option<u64>,
    ) -> (r: Result<(), ParseError>)
        ensures
            match crate::attribution::attribute(old(self)@, stack@, node, name_view(name), size) {
                Ok(table) => r is Ok && final(self)@ == table,
                Err(e) => r == Err::<(), ParseError>(e) && final(self)@ == old(self)@,
            },
    {
        let (id, names): (usize, bool) = match node {
            Node::Other => {
                return Ok(());
            },
            Node::Subprogram(id) => (id, true),
            Node::InlinedSubroutine(id) => (id, false),
        };
        let bytes: u64 = match size {
            Some(bytes) => bytes,
            None => 0,
        };
        let mut counted: u32 = 0;
        let mut agrees: bool = true;
        match self.subroutines.get(&id) {
            Some(record) => {
                counted = record.size;
                if names {
                    match (&record.name, &name) {
                        (Some(first), Some(second)) => {
                            agrees = *first == *second;
                        },
                        _ => {},
                    }
                }
            },
            None => {},
        }
        if !agrees {
            return Err(ParseError::DuplicateDefinition);
        }
        if bytes > (u32::MAX - counted) as u64 {
            return Err(ParseError::TooLarge);
        }
        let total: u32 = counted + bytes as u32;
        let first: Option<String> = match self.subroutines.remove(&id) {
            Some(record) => record.name,
            None => None,
        };
        let merged: Option<String> = match first {
            Some(first) => Some(first),
            None => if names {
                name
            } else {
                None
            },
        };
        self.subroutines.insert(id, Subroutine { name: merged, size: total });
        assert(self@ =~= old(self)@.insert(
            id,
            Record { name: name_view(merged), size: total as nat },
        ));
        if !names {
            self.correct(stack, bytes as u32);
        }
        Ok(())
    }

    /// Visits one entry of the unit at `base`: closes the path entries it
    /// leaves behind, counts it, and opens it on the path. Returns
    /// `Ok(false)`, with nothing counted, where the entry ends the unit's
    /// tree.
    pub fn visit(&mut self, stack: &mut Vec<Node>, base: usize, entry: &Entry) -> (r: Result<
        bool,
        ParseError,
    >)
        ensures
            match step(State { table: old(self)@, stack: old(stack)@ }, base, entry@) {
                Step::Next(next) => r == Ok::<bool, ParseError>(true) && final(self)@ == next.table
                    && final(stack)@ == next.stack,
                Step::Done => r == Ok::<bool, ParseError>(false) && final(self)@ == old(self)@,
                Step::Fail(e) => r == Err::<bool, ParseError>(e) && final(self)@ == old(self)@,
            },
    {
        if !unwind(stack, entry.delta) {
            return Ok(false);
        }
        let node = classify(base, entry.tag, entry.offset, entry.origin)?;
        self.attribute(stack, node, entry.name.clone(), entry.size)?;
        stack.push(node);
        Ok(true)
    }

    /// Counts the entries of the compilation unit with the header `header`,
    /// read from `sections`: the root is looked for, and every entry below
    /// it is visited in depth-first order. The walk ends at the first entry
    /// that cannot be decoded or counted, with the records of the entries
    /// before it.
    pub fn parse<'a>(&mut self, sections: &Sections<'a>, header: UnitHeader<'a>) -> (r: Result<
        (),
        ParseError,
    >)
        ensures
            (final(self)@, r) == unit_outcome(
                old(self)@,
                gathered(*sections),
                little_endian(*sections),
                header,
            ),
    {
        let ghost goal = unit_outcome(
            self@,
            gathered(*sections),
            little_endian(*sections),
            header,
        );
        let base = unit_base(&header);
        let abbreviations = match abbreviations(sections, &header) {
            Some(abbreviations) => abbreviations,
            None => {
                return Err(ParseError::MalformedFormat);
            },
        };
        let mut cursor = entries(&header, &abbreviations);
        let root = match next_entry(&mut cursor) {
            Err(_) => {
                return Err(ParseError::MalformedFormat);
            },
            Ok(None) => {
                return Err(ParseError::MissingTreeRoot);
            },
            Ok(Some((_, root))) => root,
        };
        let str_base = match attribute_value(&root, DW_AT_STR_OFFSETS_BASE)? {
            Attribute::DebugStrOffsetsBase(base) => base,
            _ => 0,
        };
        let mut stack: Vec<Node> = Vec::new();
        loop
            invariant
                goal == unit_outcome(
                    old(self)@,
                    gathered(*sections),
                    little_endian(*sections),
                    header,
                ),
                finish_unit(
                    State { table: self@, stack: stack@ },
                    context_of(*sections, header, str_base, base),
                    entries_ahead(cursor),
                ) == goal,
            decreases entries_ahead(cursor).len(),
        {
            let (delta, die) = match next_entry(&mut cursor) {
                Err(_) => {
                    return Err(ParseError::MalformedFormat);
                },
                Ok(None) => {
                    return Ok(());
                },
                Ok(Some(next)) => next,
            };
            if !unwind(&mut stack, delta) {
                return match next_entry(&mut cursor) {
                    Ok(None) => Ok(()),
                    _ => Err(ParseError::MalformedFormat),
                };
            }
            let tag = item_tag(&die);
            let offset = local_offset(&die);
            let origin = match tag {
                Tag::Other => Origin::Absent,
                _ => abstract_origin(&die)?,
            };
            let node = classify(base, tag, offset, origin)?;
            let name = match tag {
                Tag::Subprogram => item_name(sections, &header, str_base, base, &die)?,
                _ => None,
            };
            let size = match tag {
                Tag::Other => None,
                _ => entity_size(&die)?,
            };
            self.attribute(&stack, node, name, size)?;
            stack.push(node);
        }
    }

    /// Counts the compilation units of `sections`, in the order of the
    /// file, up to the first that fails or cannot be decoded. Where the
    /// `.debug_info` section is empty there is no unit, and the records
    /// stay as they are.
    pub fn parse_units<'a>(&mut self, sections: &Sections<'a>) -> (r: Result<(), ParseError>)
        ensures
            (final(self)@, r) == file_outcome(
                old(self)@,
                gathered(*sections),
                little_endian(*sections),
            ),
            gathered(*sections).len() == 9 && gathered(*sections)[2].len() == 0 ==> r is Ok
                && final(self)@ == old(self)@,
    {
        let ghost goal = file_outcome(self@, gathered(*sections), little_endian(*sections));
        let mut headers = units(sections);
        loop
            invariant
                goal == file_outcome(old(self)@, gathered(*sections), little_endian(*sections)),
                gathered(*sections).len() == 9 && gathered(*sections)[2].len() == 0
                    ==> headers_ahead(headers).len() == 0 && self@ == old(self)@,
                finish_file(
                    self@,
                    gathered(*sections),
                    little_endian(*sections),
                    headers_ahead(headers),
                ) == goal,
            decreases headers_ahead(headers).len(),
        {
            let header = match next_unit(&mut headers) {
                Err(_) => {
                    return Err(ParseError::MalformedFormat);
                },
                Ok(None) => {
                    return Ok(());
                },
                Ok(Some(header)) => header,
            };
            self.parse(sections, header)?;
        }
    }

    /// Counts the entries of one compilation unit, which starts at section
    /// offset `base`. `entries` holds the unit's entries in depth-first
    /// order, the root first; the root itself is not counted. The walk ends
    /// at the first entry that cannot be counted, with the records of the
    /// entries before it.
    pub fn parse_entries(&mut self, base: usize, entries: &Vec<Entry>) -> (r: Result<(), ParseError>)
        ensures
            (final(self)@, r) == parse_unit(old(self)@, base, entry_views(entries@)),
    {
        if entries.len() == 0 {
            return Err(ParseError::MissingTreeRoot);
        }
        let ghost start = self@;
        let ghost below = entry_views(entries@).drop_first();
        let mut stack: Vec<Node> = Vec::new();
        let mut i: usize = 1;
        assert(below.take(0) =~= Seq::<crate::attribution::EntryView>::empty());
        while i < entries.len()
            invariant
                1 <= i <= entries.len(),
                start == old(self)@,
                below == entry_views(entries@).drop_first(),
                walk(start, base, below.take(i - 1)) == Progress::Running(
                    State { table: self@, stack: stack@ },
                ),
            decreases entries.len() - i,
        {
            assert(below.take(i as int).drop_last() =~= below.take(i - 1));
            assert(below.take(i as int).last() == entries[i as int]@);
            match self.visit(&mut stack, base, &entries[i]) {
                Ok(true) => {},
                Ok(false) => {
                    proof {
                        assert(below.len() == entries.len() - 1);
                        assert(walk(start, base, below.take(i as int)) == Progress::Finished(
                            self@,
                        ));
                        crate::attribution::lemma_walk_stops(start, base, below, i as int);
                    }
                    if i + 1 == entries.len() {
                        return Ok(());
                    } else {
                        return Err(ParseError::MalformedFormat);
                    }
                },
                Err(e) => {
                    proof {
                        crate::attribution::lemma_walk_stops(start, base, below, i as int);
                    }
                    return Err(e);
                },
            }
            i += 1;
        }
        assert(below.take(i - 1) =~= below);
        Ok(())
    }
}

} // verus!
