//! The mathematical model of the attribution: what one entry does to the
//! records, and what a whole unit does.

use crate::die_parse::{DW_TAG_INLINED_SUBROUTINE, DW_TAG_SUBPROGRAM};
use crate::dwarf::Attribute;
use vstd::prelude::*;

verus! {

/// Why an analysis was given up.
#[derive(Debug, Clone, Copy, PartialEq, Eq, Structural)]
pub enum ParseError {
    /// The file or one of its debugging sections could not be decoded.
    MalformedFormat,
    /// A compilation unit has no root entry.
    MissingTreeRoot,
    /// An attribute has a form that the analysis cannot use.
    MalformedAttribute,
    /// An inlined subroutine does not say which function it came from.
    UnresolvedOrigin,
    /// Two different names were found for one function.
    DuplicateDefinition,
    /// A number is too large for its place: the code of a function or of
    /// the whole file for the 32 bits of a size, or the offset of a record
    /// for the id of an item.
    TooLarge,
}

/// The kind of a debugging entry, as far as the attribution tells kinds apart.
#[derive(Debug, Clone, Copy, PartialEq, Eq, Structural)]
pub enum Tag {
    Subprogram,
    InlinedSubroutine,
    Other,
}

/// The abstract-origin attribute of an entry, in the form it was written.
#[derive(Debug, Clone, Copy, PartialEq, Eq, Structural)]
pub enum Origin {
    /// The entry has no such attribute.
    Absent,
    /// A reference counted from the start of the entry's own unit.
    UnitRef(usize),
    /// A reference counted from the start of the debugging section.
    DebugInfoRef(usize),
    /// The attribute is there, in a form that is no reference to an entry.
    Unexpected,
}

/// An entry on the path from the unit's root to the entry being visited.
/// The offset names the function that the entry stands for.
#[derive(Debug, Clone, Copy, PartialEq, Eq, Structural)]
pub enum Node {
    Subprogram(usize),
    InlinedSubroutine(usize),
    Other,
}

/// One debugging entry, as the attribution reads it.
#[derive(Debug, Clone)]
pub struct Entry {
    /// The entry's depth less the depth of the entry before it.
    pub delta: isize,
    pub tag: Tag,
    /// Where the entry starts, counted from the start of its unit.
    pub offset: usize,
    pub origin: Origin,
    /// The entry's display name, if it has one. Read for subprograms only.
    pub name: Option<String>,
    /// The extent of the entry's code in bytes, if it has addresses.
    pub size: Option<u64>,
}

/// The view of an [`Entry`].
pub struct EntryView {
    pub delta: int,
    pub tag: Tag,
    pub offset: usize,
    pub origin: Origin,
    pub name: Option<Seq<char>>,
    pub size: Option<u64>,
}

/// The view of an optional string.
pub open spec fn name_view(name: Option<String>) -> Option<Seq<char>> {
    match name {
        Some(s) => Some(s@),
        None => None,
    }
}

impl View for Entry {
    type V = EntryView;

    open spec fn view(&self) -> EntryView {
        EntryView {
            delta: self.delta as int,
            tag: self.tag,
            offset: self.offset,
            origin: self.origin,
            name: name_view(self.name),
            size: self.size,
        }
    }
}

/// The views of a sequence of entries.
pub open spec fn entry_views(entries: Seq<Entry>) -> Seq<EntryView> {
    Seq::new(entries.len(), |i: int| entries[i]@)
}

/// What is known of one function: its name, once a subprogram gave one, and
/// the bytes of code counted for it.
pub struct Record {
    pub name: Option<Seq<char>>,
    pub size: nat,
}

/// The records of a file, by the section offset of the entry that declares
/// the function.
pub type Table = Map<usize, Record>;

/// The records and the path to the entry visited last.
pub struct State {
    pub table: Table,
    pub stack: Seq<Node>,
}

/// What one entry leaves behind.
pub enum Step {
    /// The entry was counted; the walk goes on from this state.
    Next(State),
    /// The entry lies beside the unit's root or above it: the unit's tree is over.
    Done,
    /// The entry cannot be counted.
    Fail(ParseError),
}

/// How far a walk has come.
pub enum Progress {
    /// All entries so far were counted.
    Running(State),
    /// The last entry ended the unit's tree.
    Finished(Table),
    /// An entry could not be counted, or entries follow the end of the
    /// tree; the records are those of the entries before it.
    Failed(Table, ParseError),
}

/// The kind of an entry with the tag of number `code`.
pub open spec fn tag_of(code: u64) -> Tag {
    if code == DW_TAG_SUBPROGRAM {
        Tag::Subprogram
    } else if code == DW_TAG_INLINED_SUBROUTINE {
        Tag::InlinedSubroutine
    } else {
        Tag::Other
    }
}

/// An abstract-origin attribute with the value `value`.
pub open spec fn origin_of(value: Attribute) -> Origin {
    match value {
        Attribute::Absent => Origin::Absent,
        Attribute::UnitRef(local) => Origin::UnitRef(local),
        Attribute::DebugInfoRef(target) => Origin::DebugInfoRef(target),
        _ => Origin::Unexpected,
    }
}

/// The extent of the code between a lower address and an upper address or
/// a length.
pub open spec fn extent(low: Attribute, high: Attribute) -> Result<Option<u64>, ParseError> {
    match high {
        Attribute::Absent => Ok(None),
        Attribute::Udata(length) => Ok(Some(length)),
        Attribute::Addr(end) => match low {
            Attribute::Absent => Ok(None),
            Attribute::Addr(begin) => if begin <= end {
                Ok(Some((end - begin) as u64))
            } else {
                Err(ParseError::MalformedAttribute)
            },
            _ => Err(ParseError::MalformedAttribute),
        },
        _ => Err(ParseError::MalformedAttribute),
    }
}

/// The number of path entries that an entry with this depth delta closes.
pub open spec fn pops(delta: int) -> nat {
    if delta <= 0 {
        (1 - delta) as nat
    } else {
        0
    }
}

/// The section offset of what lies `local` bytes into the unit at `base`,
/// where the machine can hold it.
pub open spec fn global_offset(base: usize, local: usize) -> Option<usize> {
    if base + local <= usize::MAX {
        Some((base + local) as usize)
    } else {
        None
    }
}

/// The section offset that an abstract-origin attribute refers to.
pub open spec fn resolve_origin(base: usize, origin: Origin) -> Result<Option<usize>, ParseError> {
    match origin {
        Origin::Absent => Ok(None),
        Origin::UnitRef(local) => match global_offset(base, local) {
            Some(target) => Ok(Some(target)),
            None => Err(ParseError::MalformedAttribute),
        },
        Origin::DebugInfoRef(target) => Ok(Some(target)),
        Origin::Unexpected => Err(ParseError::MalformedAttribute),
    }
}

/// The path entry that a debugging entry becomes. A subprogram stands for
/// its abstract origin, or for itself where it has none. An inlined
/// subroutine must have an abstract origin.
pub open spec fn classify(base: usize, tag: Tag, offset: usize, origin: Origin) -> Result<
    Node,
    ParseError,
> {
    match tag {
        Tag::Other => Ok(Node::Other),
        Tag::Subprogram => match resolve_origin(base, origin) {
            Err(e) => Err(e),
            Ok(Some(id)) => Ok(Node::Subprogram(id)),
            Ok(None) => match global_offset(base, offset) {
                Some(id) => Ok(Node::Subprogram(id)),
                None => Err(ParseError::MalformedFormat),
            },
        },
        Tag::InlinedSubroutine => match resolve_origin(base, origin) {
            Err(e) => Err(e),
            Ok(Some(id)) => Ok(Node::InlinedSubroutine(id)),
            Ok(None) => Err(ParseError::UnresolvedOrigin),
        },
    }
}

/// The function that a path entry stands for.
pub open spec fn identity(node: Node) -> Option<usize> {
    match node {
        Node::Subprogram(id) => Some(id),
        Node::InlinedSubroutine(id) => Some(id),
        Node::Other => None,
    }
}

/// The function of the innermost subprogram or inlined subroutine on the path.
pub open spec fn enclosing_scope(stack: Seq<Node>) -> Option<usize>
    decreases stack.len(),
{
    if stack.len() == 0 {
        None
    } else {
        match identity(stack.last()) {
            Some(id) => Some(id),
            None => enclosing_scope(stack.drop_last()),
        }
    }
}

/// The record of a function, empty where none was made yet.
pub open spec fn record_of(table: Table, id: usize) -> Record {
    if table.contains_key(id) {
        table[id]
    } else {
        Record { name: None, size: 0 }
    }
}

/// The bytes that an entry brings: none where it has no addresses.
pub open spec fn contribution(size: Option<u64>) -> nat {
    match size {
        Some(bytes) => bytes as nat,
        None => 0,
    }
}

/// The name of a record after an occurrence was seen. Only a subprogram
/// names its function, the first name stays, and a second one has to agree
/// with it.
pub open spec fn merged_name(current: Option<Seq<char>>, node: Node, name: Option<Seq<char>>) -> Result<
    Option<Seq<char>>,
    ParseError,
> {
    if node is Subprogram && name is Some {
        match current {
            None => Ok(name),
            Some(first) => if first == name->0 {
                Ok(current)
            } else {
                Err(ParseError::DuplicateDefinition)
            },
        }
    } else {
        Ok(current)
    }
}

/// `size` less `bytes`, and zero where that would be negative.
pub open spec fn reduced(size: nat, bytes: nat) -> nat {
    if size >= bytes {
        (size - bytes) as nat
    } else {
        0
    }
}

/// The records after the nearest scope on `stack` gave up `bytes`.
pub open spec fn corrected(table: Table, stack: Seq<Node>, bytes: nat) -> Table {
    match enclosing_scope(stack) {
        Some(scope) => if table.contains_key(scope) {
            table.insert(
                scope,
                Record { name: table[scope].name, size: reduced(table[scope].size, bytes) },
            )
        } else {
            table
        },
        None => table,
    }
}

/// The records after one occurrence was counted, below the path `stack`.
pub open spec fn attribute(
    table: Table,
    stack: Seq<Node>,
    node: Node,
    name: Option<Seq<char>>,
    size: Option<u64>,
) -> Result<Table, ParseError> {
    match identity(node) {
        None => Ok(table),
        Some(id) => {
            let record = record_of(table, id);
            let bytes = contribution(size);
            match merged_name(record.name, node, name) {
                Err(e) => Err(e),
                Ok(merged) => if record.size + bytes > u32::MAX {
                    Err(ParseError::TooLarge)
                } else {
                    let counted = table.insert(
                        id,
                        Record { name: merged, size: record.size + bytes },
                    );
                    if node is InlinedSubroutine {
                        Ok(corrected(counted, stack, bytes))
                    } else {
                        Ok(counted)
                    }
                },
            }
        },
    }
}

/// What visiting one entry does.
pub open spec fn step(state: State, base: usize, entry: EntryView) -> Step {
    if pops(entry.delta) > state.stack.len() {
        Step::Done
    } else {
        let stack = state.stack.take(state.stack.len() - pops(entry.delta));
        match classify(base, entry.tag, entry.offset, entry.origin) {
            Err(e) => Step::Fail(e),
            Ok(node) => match attribute(state.table, stack, node, entry.name, entry.size) {
                Err(e) => Step::Fail(e),
                Ok(table) => Step::Next(State { table, stack: stack.push(node) }),
            },
        }
    }
}

/// Where a walk stands after `entries`, the entries below a unit's root in
/// depth-first order, started from `table` with an empty path.
pub open spec fn walk(table: Table, base: usize, entries: Seq<EntryView>) -> Progress
    decreases entries.len(),
{
    if entries.len() == 0 {
        Progress::Running(State { table, stack: Seq::empty() })
    } else {
        match walk(table, base, entries.drop_last()) {
            Progress::Running(state) => match step(state, base, entries.last()) {
                Step::Next(next) => Progress::Running(next),
                Step::Done => Progress::Finished(state.table),
                Step::Fail(e) => Progress::Failed(state.table, e),
            },
            Progress::Finished(reached) => Progress::Failed(reached, ParseError::MalformedFormat),
            Progress::Failed(reached, e) => Progress::Failed(reached, e),
        }
    }
}

/// A walk that has stopped stays where it stopped: what follows the end of
/// the tree is an error, and an error stays the error it was.
pub proof fn lemma_walk_stops(table: Table, base: usize, entries: Seq<EntryView>, k: int)
    requires
        0 <= k <= entries.len(),
        !(walk(table, base, entries.take(k)) is Running),
    ensures
        match walk(table, base, entries.take(k)) {
            Progress::Running(_) => true,
            Progress::Finished(reached) => walk(table, base, entries) == if k == entries.len() {
                Progress::Finished(reached)
            } else {
                Progress::Failed(reached, ParseError::MalformedFormat)
            },
            Progress::Failed(reached, e) => walk(table, base, entries) == Progress::Failed(
                reached,
                e,
            ),
        },
    decreases entries.len(),
{
    if k == entries.len() {
        assert(entries.take(k) =~= entries);
    } else {
        assert(entries.drop_last().take(k) =~= entries.take(k));
        lemma_walk_stops(table, base, entries.drop_last(), k);
    }
}

/// The records after a whole unit, and how its analysis ended. `entries`
/// starts with the unit's root, which is not counted itself.
pub open spec fn parse_unit(table: Table, base: usize, entries: Seq<EntryView>) -> (
    Table,
    Result<(), ParseError>,
) {
    if entries.len() == 0 {
        (table, Err(ParseError::MissingTreeRoot))
    } else {
        match walk(table, base, entries.drop_first()) {
            Progress::Running(state) => (state.table, Ok(())),
            Progress::Finished(reached) => (reached, Ok(())),
            Progress::Failed(reached, e) => (reached, Err(e)),
        }
    }
}

/// The sixteen digits of hexadecimal numbers.
pub open spec fn hex_digit(d: nat) -> char {
    seq!['0', '1', '2', '3', '4', '5', '6', '7', '8', '9', 'a', 'b', 'c', 'd', 'e', 'f'][d as int]
}

/// A number in hexadecimal, without leading zeros.
pub open spec fn hex(n: nat) -> Seq<char>
    decreases n,
{
    if n < 16 {
        seq![hex_digit(n)]
    } else {
        hex(n / 16).push(hex_digit(n % 16))
    }
}

/// The name that stands for a function that no subprogram named: built
/// from the offset of its record.
pub open spec fn placeholder(offset: usize) -> Seq<char> {
    seq!['S', 'u', 'b', 'r', 'o', 'u', 't', 'i', 'n', 'e', '[', '0', 'x'] + hex(offset as nat)
        + seq![']']
}

/// The name under which a record is handed out.
pub open spec fn display_name(offset: usize, record: Record) -> Seq<char> {
    match record.name {
        Some(name) => name,
        None => placeholder(offset),
    }
}

} // verus!
