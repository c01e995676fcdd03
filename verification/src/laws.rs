//! What holds of the attribution whatever the input, proved over the model.

use crate::attribution::{
    attribute, classify, contribution, enclosing_scope, identity, lemma_walk_stops, parse_unit,
    pops, record_of, reduced, resolve_origin, step, walk, EntryView, Node, Origin, ParseError,
    Progress, Record, State, Step, Table, Tag,
};
use crate::die_parse::DW_AT_STR_OFFSETS_BASE;
use crate::dwarf::{
    abbreviations_of, dwarf64, section_units, unit_entries, unit_offset, Die, UnitHeader,
};
use crate::emit::{lists, CodeItem};
use crate::reading::{
    attribute_reading, entry_reading, file_outcome, finish_file, finish_unit, str_base_of,
    unit_outcome, Context,
};
use vstd::prelude::*;

verus! {

/// The function that an entry stands for, if it is a subprogram or an
/// inlined subroutine that can be classified.
pub open spec fn stands_for(base: usize, entry: EntryView) -> Option<usize> {
    match classify(base, entry.tag, entry.offset, entry.origin) {
        Ok(node) => identity(node),
        Err(_) => None,
    }
}

/// The functions that some entry of `entries` stands for.
pub open spec fn resolved(base: usize, entries: Seq<EntryView>) -> Set<usize> {
    Set::new(
        |id: usize|
            exists|i: int| 0 <= i < entries.len() && stands_for(base, #[trigger] entries[i]) == Some(id),
    )
}

/// The bytes that the entries standing for `id` bring, all together.
pub open spec fn own_bytes(base: usize, entries: Seq<EntryView>, id: usize) -> nat
    decreases entries.len(),
{
    if entries.len() == 0 {
        0
    } else {
        own_bytes(base, entries.drop_last(), id) + if stands_for(base, entries.last()) == Some(id) {
            contribution(entries.last().size)
        } else {
            0
        }
    }
}

/// Some inlined subroutine among `entries` is visited while `id` is the
/// nearest scope on the path, in the walk that starts from `table`.
pub open spec fn encloses_inlined(table: Table, base: usize, entries: Seq<EntryView>, id: usize) -> bool
    decreases entries.len(),
{
    if entries.len() == 0 {
        false
    } else {
        encloses_inlined(table, base, entries.drop_last(), id) || match walk(
            table,
            base,
            entries.drop_last(),
        ) {
            Progress::Running(state) => {
                &&& entries.last().tag == Tag::InlinedSubroutine
                &&& pops(entries.last().delta) <= state.stack.len()
                &&& enclosing_scope(
                    state.stack.take(state.stack.len() - pops(entries.last().delta)),
                ) == Some(id)
            },
            _ => false,
        }
    }
}

/// The depth of the entry visited last, counted from the unit's root: each
/// entry lies one below the one before it, beside it, or further up.
pub open spec fn depth(entries: Seq<EntryView>) -> int
    decreases entries.len(),
{
    if entries.len() == 0 {
        0
    } else if entries.last().delta > 0 {
        depth(entries.drop_last()) + 1
    } else {
        depth(entries.drop_last()) + entries.last().delta
    }
}

/// Every function on the path has a record.
pub open spec fn on_record(table: Table, stack: Seq<Node>) -> bool {
    forall|i: int|
        0 <= i < stack.len() ==> match identity(#[trigger] stack[i]) {
            Some(id) => table.contains_key(id),
            None => true,
        }
}

/// Every size in `table` is one that a record can hold.
pub open spec fn bounded(table: Table) -> bool {
    forall|id: usize| #[trigger] table.contains_key(id) ==> table[id].size <= u32::MAX
}

/// The records that a walk has reached, wherever it stands.
pub open spec fn reached(progress: Progress) -> Table {
    match progress {
        Progress::Running(state) => state.table,
        Progress::Finished(table) => table,
        Progress::Failed(table, _) => table,
    }
}

/// Counting one occurrence makes a record for its function and for no
/// other.
pub proof fn lemma_attribute_records(
    table: Table,
    stack: Seq<Node>,
    node: Node,
    name: Option<Seq<char>>,
    size: Option<u64>,
)
    requires
        attribute(table, stack, node, name, size) is Ok,
    ensures
        attribute(table, stack, node, name, size)->Ok_0.dom() =~= match identity(node) {
            Some(id) => table.dom().insert(id),
            None => table.dom(),
        },
{
}

/// The entries that a walk counted: all of them while it is under way,
/// and all but the last, which ended the tree, once it is finished.
pub open spec fn counted(table: Table, base: usize, entries: Seq<EntryView>) -> Seq<EntryView> {
    if walk(table, base, entries) is Finished {
        entries.drop_last()
    } else {
        entries
    }
}

/// A walk that did not fail has a record for each function that was on
/// record before or that one of the entries it counted stands for, and
/// for no other: the records are as many as the functions.
pub proof fn law_one_record_per_function(table: Table, base: usize, entries: Seq<EntryView>)
    requires
        !(walk(table, base, entries) is Failed),
    ensures
        reached(walk(table, base, entries)).dom() =~= table.dom().union(
            resolved(base, counted(table, base, entries)),
        ),
    decreases entries.len(),
{
    if entries.len() == 0 {
        assert(resolved(base, entries) =~= Set::<usize>::empty());
    } else if walk(table, base, entries) is Finished {
        law_one_record_per_function(table, base, entries.drop_last());
    } else {
        let before = entries.drop_last();
        let last = entries.last();
        law_one_record_per_function(table, base, before);
        let state = walk(table, base, before)->Running_0;
        let stack = state.stack.take(state.stack.len() - pops(last.delta));
        let node = classify(base, last.tag, last.offset, last.origin)->Ok_0;
        lemma_attribute_records(state.table, stack, node, last.name, last.size);
        assert forall|id: usize| resolved(base, entries).contains(id) <==> (resolved(
            base,
            before,
        ).contains(id) || stands_for(base, last) == Some(id)) by {
            if resolved(base, entries).contains(id) {
                let i = choose|i: int|
                    0 <= i < entries.len() && stands_for(base, #[trigger] entries[i]) == Some(id);
                if i < before.len() {
                    assert(stands_for(base, before[i]) == Some(id));
                }
            }
            if resolved(base, before).contains(id) {
                let i = choose|i: int|
                    0 <= i < before.len() && stands_for(base, #[trigger] before[i]) == Some(id);
                assert(stands_for(base, entries[i]) == Some(id));
            }
            if stands_for(base, last) == Some(id) {
                assert(stands_for(base, entries[entries.len() - 1]) == Some(id));
            }
        }
    }
}

/// While a walk is under way the path is as long as the entry visited
/// last lies deep.
pub proof fn law_path_length_is_depth(table: Table, base: usize, entries: Seq<EntryView>)
    requires
        walk(table, base, entries) is Running,
    ensures
        walk(table, base, entries)->Running_0.stack.len() == depth(entries),
    decreases entries.len(),
{
    if entries.len() > 0 {
        law_path_length_is_depth(table, base, entries.drop_last());
    }
}

/// While a walk is under way every function on the path has a record, so
/// a correction always finds the record of the nearest scope.
pub proof fn law_path_is_on_record(table: Table, base: usize, entries: Seq<EntryView>)
    requires
        walk(table, base, entries) is Running,
    ensures
        on_record(
            walk(table, base, entries)->Running_0.table,
            walk(table, base, entries)->Running_0.stack,
        ),
    decreases entries.len(),
{
    if entries.len() > 0 {
        let last = entries.last();
        law_path_is_on_record(table, base, entries.drop_last());
        let state = walk(table, base, entries.drop_last())->Running_0;
        let stack = state.stack.take(state.stack.len() - pops(last.delta));
        let node = classify(base, last.tag, last.offset, last.origin)->Ok_0;
        lemma_attribute_records(state.table, stack, node, last.name, last.size);
        let next = walk(table, base, entries)->Running_0;
        assert forall|i: int| 0 <= i < next.stack.len() implies match identity(
            #[trigger] next.stack[i],
        ) {
            Some(id) => next.table.contains_key(id),
            None => true,
        } by {
            if i < stack.len() {
                assert(next.stack[i] == state.stack[i]);
            }
        }
    }
}

/// A listing of the records has one entry for each of them.
pub proof fn law_listing_counts_records(table: Table, records: Seq<CodeItem>)
    requires
        lists(table, records),
        table.dom().finite(),
    ensures
        records.len() == table.dom().len(),
{
    let offsets = Seq::new(records.len(), |i: int| records[i].offset);
    assert(offsets.no_duplicates());
    assert(offsets.to_set() =~= table.dom()) by {
        assert forall|offset: usize| offsets.to_set().contains(offset) <==> table.contains_key(
            offset,
        ) by {
            if offsets.to_set().contains(offset) {
                let i = choose|i: int| 0 <= i < offsets.len() && offsets[i] == offset;
                assert(table.contains_key(records[i].offset));
            }
            if table.contains_key(offset) {
                let i = choose|i: int| 0 <= i < records.len() && #[trigger] records[i].offset == offset;
                assert(offsets[i] == offset);
            }
        }
    }
    offsets.unique_seq_to_set();
}

/// Sizes never leave the range of a record: a correction stops at zero,
/// and a sum over `u32::MAX` ends the walk.
pub proof fn law_sizes_stay_in_range(table: Table, base: usize, entries: Seq<EntryView>)
    requires
        bounded(table),
    ensures
        bounded(reached(walk(table, base, entries))),
        bounded(parse_unit(table, base, entries).0),
    decreases entries.len(),
{
    if entries.len() > 0 {
        law_sizes_stay_in_range(table, base, entries.drop_last());
        law_sizes_stay_in_range(table, base, entries.drop_first());
    }
}

/// Where no inlined subroutine is visited while `id` is the nearest scope
/// on the path, the size on record for `id` grows by exactly the bytes of
/// the entries that stand for it.
pub proof fn law_uncorrected_size_is_own_bytes(
    table: Table,
    base: usize,
    entries: Seq<EntryView>,
    id: usize,
)
    requires
        walk(table, base, entries) is Running,
        !encloses_inlined(table, base, entries, id),
    ensures
        record_of(reached(walk(table, base, entries)), id).size == record_of(table, id).size
            + own_bytes(base, entries, id),
    decreases entries.len(),
{
    if entries.len() > 0 {
        law_uncorrected_size_is_own_bytes(table, base, entries.drop_last(), id);
    }
}

/// The nearest scope on the path is the innermost subprogram or inlined
/// subroutine: the one with none above it.
pub proof fn law_enclosing_scope_is_innermost(stack: Seq<Node>, i: int)
    requires
        0 <= i < stack.len(),
        identity(stack[i]) is Some,
        forall|j: int| i < j < stack.len() ==> identity(#[trigger] stack[j]) is None,
    ensures
        enclosing_scope(stack) == identity(stack[i]),
    decreases stack.len(),
{
    if i < stack.len() - 1 {
        assert(identity(stack[stack.len() - 1]) is None);
        law_enclosing_scope_is_innermost(stack.drop_last(), i);
    }
}

/// Counting an inlined subroutine changes two records at most: that of its
/// own function and that of the nearest scope on the path. Every other
/// record, that of a scope further out too, stays as it was.
pub proof fn law_correction_is_local(
    table: Table,
    stack: Seq<Node>,
    id: usize,
    name: Option<Seq<char>>,
    size: Option<u64>,
    other: usize,
)
    requires
        attribute(table, stack, Node::InlinedSubroutine(id), name, size) is Ok,
        other != id,
        enclosing_scope(stack) != Some(other),
    ensures
        ({
            let after = attribute(table, stack, Node::InlinedSubroutine(id), name, size)->Ok_0;
            &&& after.contains_key(other) == table.contains_key(other)
            &&& table.contains_key(other) ==> after[other] == table[other]
        }),
{
}

/// Counting an inlined subroutine takes its bytes away from the record of
/// the nearest scope on the path, as far as that record has them.
pub proof fn law_correction_reduces_scope(
    table: Table,
    stack: Seq<Node>,
    id: usize,
    name: Option<Seq<char>>,
    size: Option<u64>,
    scope: usize,
)
    requires
        attribute(table, stack, Node::InlinedSubroutine(id), name, size) is Ok,
        enclosing_scope(stack) == Some(scope),
        scope != id,
        table.contains_key(scope),
    ensures
        ({
            let after = attribute(table, stack, Node::InlinedSubroutine(id), name, size)->Ok_0;
            &&& after.contains_key(scope)
            &&& after[scope].name == table[scope].name
            &&& after[scope].size == reduced(table[scope].size, contribution(size))
        }),
{
}

/// Two listings of the same records agree entry by entry: what is handed
/// out depends on the records alone.
pub proof fn law_listing_is_unique(table: Table, first: Seq<CodeItem>, second: Seq<CodeItem>)
    requires
        lists(table, first),
        lists(table, second),
    ensures
        first.len() == second.len(),
        forall|i: int|
            0 <= i < first.len() ==> {
                &&& (#[trigger] first[i]).offset == second[i].offset
                &&& first[i].name@ == second[i].name@
                &&& first[i].size == second[i].size
            },
{
    lemma_listing_is_no_longer(table, first, second);
    lemma_listing_is_no_longer(table, second, first);
    assert forall|i: int| 0 <= i < first.len() implies {
        &&& (#[trigger] first[i]).offset == second[i].offset
        &&& first[i].name@ == second[i].name@
        &&& first[i].size == second[i].size
    } by {
        lemma_listings_agree(table, first, second, i);
    }
}

/// Counting the units of the same sections from the same records twice
/// leaves the same records, ends in the same way, and hands out the same
/// listing.
pub proof fn law_same_input_same_listing(
    table: Table,
    gathered: Seq<Seq<u8>>,
    little_endian: bool,
    first: (Table, Result<(), ParseError>),
    second: (Table, Result<(), ParseError>),
    listed_first: Seq<CodeItem>,
    listed_second: Seq<CodeItem>,
)
    requires
        first == file_outcome(table, gathered, little_endian),
        second == file_outcome(table, gathered, little_endian),
        lists(first.0, listed_first),
        lists(second.0, listed_second),
    ensures
        first == second,
        listed_first.len() == listed_second.len(),
        forall|i: int|
            0 <= i < listed_first.len() ==> {
                &&& (#[trigger] listed_first[i]).offset == listed_second[i].offset
                &&& listed_first[i].name@ == listed_second[i].name@
                &&& listed_first[i].size == listed_second[i].size
            },
{
    law_listing_is_unique(first.0, listed_first, listed_second);
}

/// Two listings of the same records have the same offset at each place
/// that both have.
pub proof fn lemma_listings_agree(
    table: Table,
    first: Seq<CodeItem>,
    second: Seq<CodeItem>,
    i: int,
)
    requires
        lists(table, first),
        lists(table, second),
        0 <= i < first.len(),
        i < second.len(),
    ensures
        first[i].offset == second[i].offset,
    decreases i,
{
    assert(table.contains_key(first[i].offset));
    let k = choose|k: int| 0 <= k < second.len() && #[trigger] second[k].offset == first[i].offset;
    if k < i {
        lemma_listings_agree(table, first, second, k);
    }
    assert(table.contains_key(second[i].offset));
    let m = choose|m: int| 0 <= m < first.len() && #[trigger] first[m].offset == second[i].offset;
    if m < i {
        lemma_listings_agree(table, first, second, m);
    }
}

/// A listing is no longer than another listing of the same records.
pub proof fn lemma_listing_is_no_longer(table: Table, one: Seq<CodeItem>, other: Seq<CodeItem>)
    requires
        lists(table, one),
        lists(table, other),
    ensures
        one.len() <= other.len(),
{
    if other.len() < one.len() {
        let extra = one[other.len() as int].offset;
        assert(table.contains_key(extra));
        let k = choose|k: int| 0 <= k < other.len() && #[trigger] other[k].offset == extra;
        lemma_listings_agree(table, other, one, k);
    }
}

/// Sections without compilation units leave the records as they were,
/// and fail in no way; with no records, nothing is listed.
pub proof fn law_no_units_no_records(
    table: Table,
    gathered: Seq<Seq<u8>>,
    little_endian: bool,
    records: Seq<CodeItem>,
)
    requires
        section_units(gathered, little_endian).len() == 0,
        lists(Map::<usize, Record>::empty(), records),
    ensures
        file_outcome(table, gathered, little_endian) == (table, Ok::<(), ParseError>(())),
        records.len() == 0,
{
    if records.len() > 0 {
        assert(Map::<usize, Record>::empty().contains_key(records[0].offset));
    }
}

/// Every entry ahead was decoded, and all that the attribution reads of
/// it can be decoded too.
pub open spec fn readable(context: Context, ahead: Seq<Option<(isize, Die)>>) -> bool {
    forall|i: int|
        0 <= i < ahead.len() ==> (#[trigger] ahead[i]) is Some && entry_reading(
            context,
            (ahead[i]->0).0,
            (ahead[i]->0).1,
        ) is Ok
}

/// The entries ahead as the attribution reads them.
pub open spec fn readings(context: Context, ahead: Seq<Option<(isize, Die)>>) -> Seq<EntryView> {
    Seq::new(
        ahead.len(),
        |i: int| entry_reading(context, (ahead[i]->0).0, (ahead[i]->0).1)->Ok_0,
    )
}

/// How a walk that has come to `progress` ends where nothing is left.
pub open spec fn ending(progress: Progress) -> (Table, Result<(), ParseError>) {
    match progress {
        Progress::Running(state) => (state.table, Ok(())),
        Progress::Finished(reached) => (reached, Ok(())),
        Progress::Failed(reached, e) => (reached, Err(e)),
    }
}

/// Reading a unit from its bytes is walking over its entries: where all
/// entries ahead can be decoded, the rest of the unit ends as the walk
/// over the entries seen so far and those ahead does. So what is proved
/// of walks holds of units that are read from a file.
pub proof fn law_reading_is_a_walk(
    table: Table,
    seen: Seq<EntryView>,
    state: State,
    context: Context,
    ahead: Seq<Option<(isize, Die)>>,
)
    requires
        walk(table, context.base, seen) == Progress::Running(state),
        readable(context, ahead),
    ensures
        finish_unit(state, context, ahead) == ending(
            walk(table, context.base, seen + readings(context, ahead)),
        ),
    decreases ahead.len(),
{
    let base = context.base;
    let all = seen + readings(context, ahead);
    if ahead.len() == 0 {
        assert(all =~= seen);
    } else {
        let first = readings(context, ahead)[0];
        let with_first = seen.push(first);
        assert(with_first.drop_last() =~= seen);
        assert(all.take(seen.len() as int + 1) =~= with_first);
        assert(ahead[0] is Some);
        assert(first.delta == (ahead[0]->0).0);
        match step(state, base, first) {
            Step::Next(next) => {
                let rest = ahead.drop_first();
                assert(readable(context, rest)) by {
                    assert forall|i: int| 0 <= i < rest.len() implies (#[trigger] rest[i]) is Some
                        && entry_reading(context, (rest[i]->0).0, (rest[i]->0).1) is Ok by {
                        assert(rest[i] == ahead[i + 1]);
                    }
                }
                assert(with_first + readings(context, rest) =~= all);
                law_reading_is_a_walk(table, with_first, next, context, rest);
            },
            _ => {
                lemma_walk_stops(table, base, all, seen.len() as int + 1);
            },
        }
    }
}

/// The entries that the rest of a unit counts: those ahead up to the first
/// that ends the walk in one way or another.
pub open spec fn counted_readings(
    state: State,
    context: Context,
    ahead: Seq<Option<(isize, Die)>>,
) -> Seq<EntryView>
    decreases ahead.len(),
{
    if ahead.len() == 0 {
        Seq::empty()
    } else {
        match ahead[0] {
            None => Seq::empty(),
            Some((delta, die)) => if pops(delta as int) > state.stack.len() {
                Seq::empty()
            } else {
                match entry_reading(context, delta, die) {
                    Err(_) => Seq::empty(),
                    Ok(entry) => match step(state, context.base, entry) {
                        Step::Next(next) => seq![entry] + counted_readings(
                            next,
                            context,
                            ahead.drop_first(),
                        ),
                        _ => Seq::empty(),
                    },
                }
            },
        }
    }
}

/// The records that the rest of a unit leaves are those of a walk over
/// the entries it counts, however the unit ends.
pub proof fn lemma_rest_is_a_walk(
    table: Table,
    seen: Seq<EntryView>,
    state: State,
    context: Context,
    ahead: Seq<Option<(isize, Die)>>,
)
    requires
        walk(table, context.base, seen) == Progress::Running(state),
    ensures
        walk(table, context.base, seen + counted_readings(state, context, ahead)) is Running,
        reached(walk(table, context.base, seen + counted_readings(state, context, ahead)))
            == finish_unit(state, context, ahead).0,
    decreases ahead.len(),
{
    let counted = counted_readings(state, context, ahead);
    if counted.len() == 0 {
        assert(seen + counted =~= seen);
    } else {
        let entry = counted[0];
        let next = step(state, context.base, entry)->Next_0;
        let with_first = seen.push(entry);
        assert(with_first.drop_last() =~= seen);
        let rest = ahead.drop_first();
        assert(with_first + counted_readings(next, context, rest) =~= seen + counted);
        lemma_rest_is_a_walk(table, with_first, next, context, rest);
    }
}

/// The entries of a unit that are counted: those below the root, up to
/// the first that ends the walk.
pub open spec fn unit_counted(
    table: Table,
    gathered: Seq<Seq<u8>>,
    little_endian: bool,
    header: UnitHeader,
) -> Seq<EntryView> {
    match abbreviations_of(gathered, little_endian, header) {
        None => Seq::empty(),
        Some(abbreviations) => {
            let all = unit_entries(header, abbreviations);
            if all.len() == 0 {
                Seq::empty()
            } else {
                match all[0] {
                    None => Seq::empty(),
                    Some((_, root)) => match attribute_reading(root, DW_AT_STR_OFFSETS_BASE) {
                        Err(_) => Seq::empty(),
                        Ok(value) => counted_readings(
                            State { table, stack: Seq::empty() },
                            Context {
                                gathered,
                                little_endian,
                                dwarf64: dwarf64(header),
                                str_base: str_base_of(value),
                                base: unit_offset(header),
                            },
                            all.drop_first(),
                        ),
                    },
                }
            }
        },
    }
}

/// A unit read from a file leaves the records of a walk over the entries
/// it counts, however it ends. So what is proved of walks holds of
/// `CompUnitParser::parse`.
pub proof fn law_unit_is_a_walk(
    table: Table,
    gathered: Seq<Seq<u8>>,
    little_endian: bool,
    header: UnitHeader,
)
    ensures
        walk(
            table,
            unit_offset(header),
            unit_counted(table, gathered, little_endian, header),
        ) is Running,
        reached(
            walk(table, unit_offset(header), unit_counted(table, gathered, little_endian, header)),
        ) == unit_outcome(table, gathered, little_endian, header).0,
{
    let none = Seq::<EntryView>::empty();
    let start = State { table, stack: Seq::empty() };
    match abbreviations_of(gathered, little_endian, header) {
        None => {},
        Some(abbreviations) => {
            let all = unit_entries(header, abbreviations);
            if all.len() > 0 {
                match all[0] {
                    None => {},
                    Some((_, root)) => match attribute_reading(root, DW_AT_STR_OFFSETS_BASE) {
                        Err(_) => {},
                        Ok(value) => {
                            let context = Context {
                                gathered,
                                little_endian,
                                dwarf64: dwarf64(header),
                                str_base: str_base_of(value),
                                base: unit_offset(header),
                            };
                            lemma_rest_is_a_walk(table, none, start, context, all.drop_first());
                            assert(none + counted_readings(start, context, all.drop_first())
                                =~= counted_readings(start, context, all.drop_first()));
                        },
                    },
                }
            }
        },
    }
}

/// The nearest scope on a path is a function on the path.
pub proof fn lemma_scope_is_on_path(stack: Seq<Node>)
    requires
        enclosing_scope(stack) is Some,
    ensures
        exists|i: int| 0 <= i < stack.len() && identity(#[trigger] stack[i]) == enclosing_scope(stack),
    decreases stack.len(),
{
    if identity(stack.last()) is None {
        lemma_scope_is_on_path(stack.drop_last());
        let i = choose|i: int|
            0 <= i < stack.drop_last().len() && identity(#[trigger] stack.drop_last()[i])
                == enclosing_scope(stack.drop_last());
        assert(identity(stack[i]) == enclosing_scope(stack));
    } else {
        assert(identity(stack[stack.len() - 1]) == enclosing_scope(stack));
    }
}

/// Every function on the path is one that an entry of the walk stands
/// for.
pub proof fn lemma_path_is_resolved(table: Table, base: usize, entries: Seq<EntryView>)
    requires
        walk(table, base, entries) is Running,
    ensures
        forall|i: int|
            0 <= i < walk(table, base, entries)->Running_0.stack.len() ==> match identity(
                #[trigger] walk(table, base, entries)->Running_0.stack[i],
            ) {
                Some(id) => resolved(base, entries).contains(id),
                None => true,
            },
    decreases entries.len(),
{
    if entries.len() > 0 {
        let before = entries.drop_last();
        let last = entries.last();
        lemma_path_is_resolved(table, base, before);
        let state = walk(table, base, before)->Running_0;
        let next = walk(table, base, entries)->Running_0;
        let kept = state.stack.len() - pops(last.delta);
        assert forall|i: int| 0 <= i < next.stack.len() implies match identity(
            #[trigger] next.stack[i],
        ) {
            Some(id) => resolved(base, entries).contains(id),
            None => true,
        } by {
            if i < kept {
                assert(next.stack[i] == state.stack[i]);
                if identity(state.stack[i]) is Some {
                    let id = identity(state.stack[i])->0;
                    let j = choose|j: int|
                        0 <= j < before.len() && stands_for(base, #[trigger] before[j]) == Some(id);
                    assert(stands_for(base, entries[j]) == Some(id));
                }
            } else {
                assert(stands_for(base, entries[entries.len() - 1]) == identity(next.stack[i]));
            }
        }
    }
}

/// A walk leaves alone every record of a function that none of its
/// entries stands for.
pub proof fn law_other_records_stay(
    table: Table,
    base: usize,
    entries: Seq<EntryView>,
    other: usize,
)
    requires
        walk(table, base, entries) is Running,
        !resolved(base, entries).contains(other),
    ensures
        reached(walk(table, base, entries)).contains_key(other) == table.contains_key(other),
        table.contains_key(other) ==> reached(walk(table, base, entries))[other] == table[other],
    decreases entries.len(),
{
    if entries.len() > 0 {
        let before = entries.drop_last();
        let last = entries.last();
        assert(!resolved(base, before).contains(other)) by {
            if resolved(base, before).contains(other) {
                let j = choose|j: int|
                    0 <= j < before.len() && stands_for(base, #[trigger] before[j]) == Some(other);
                assert(stands_for(base, entries[j]) == Some(other));
            }
        }
        law_other_records_stay(table, base, before, other);
        lemma_path_is_resolved(table, base, before);
        let state = walk(table, base, before)->Running_0;
        let stack = state.stack.take(state.stack.len() - pops(last.delta));
        assert(stands_for(base, entries[entries.len() - 1]) != Some(other));
        if enclosing_scope(stack) is Some {
            lemma_scope_is_on_path(stack);
            let i = choose|i: int|
                0 <= i < stack.len() && identity(#[trigger] stack[i]) == enclosing_scope(stack);
            assert(stack[i] == state.stack[i]);
            let id = identity(state.stack[i])->0;
            let j = choose|j: int|
                0 <= j < before.len() && stands_for(base, #[trigger] before[j]) == Some(id);
            assert(stands_for(base, entries[j]) == Some(id));
        }
    }
}

/// The bytes that inlined subroutines take from `id`: those of every
/// inlined subroutine that is visited while `id` is the nearest scope on
/// the path.
pub open spec fn taken_bytes(table: Table, base: usize, entries: Seq<EntryView>, id: usize) -> nat
    decreases entries.len(),
{
    if entries.len() == 0 {
        0
    } else {
        taken_bytes(table, base, entries.drop_last(), id) + match walk(
            table,
            base,
            entries.drop_last(),
        ) {
            Progress::Running(state) => if entries.last().tag == Tag::InlinedSubroutine && pops(
                entries.last().delta,
            ) <= state.stack.len() && enclosing_scope(
                state.stack.take(state.stack.len() - pops(entries.last().delta)),
            ) == Some(id) {
                contribution(entries.last().size)
            } else {
                0
            },
            _ => 0,
        }
    }
}

/// Some inlined subroutine of the walk asks more of the nearest scope
/// than its record holds, so that the record stops at zero.
pub open spec fn clamps(table: Table, base: usize, entries: Seq<EntryView>) -> bool
    decreases entries.len(),
{
    if entries.len() == 0 {
        false
    } else {
        clamps(table, base, entries.drop_last()) || match walk(table, base, entries.drop_last()) {
            Progress::Running(state) => {
                let last = entries.last();
                let stack = state.stack.take(state.stack.len() - pops(last.delta));
                last.tag == Tag::InlinedSubroutine && pops(last.delta) <= state.stack.len()
                    && match enclosing_scope(stack) {
                    Some(scope) => record_of(state.table, scope).size + (if stands_for(
                        base,
                        last,
                    ) == Some(scope) {
                        contribution(last.size)
                    } else {
                        0
                    }) < contribution(last.size),
                    None => false,
                }
            },
            _ => false,
        }
    }
}

/// Where no record stops at zero, every byte is accounted for: the size
/// on record for a function is what was there, and the bytes of the
/// entries that stand for it, less the bytes of the inlined subroutines
/// that have it as their nearest scope. Each inlined subroutine is so
/// added once, to its own function, and taken once, from one scope.
pub proof fn law_sizes_are_accounted(table: Table, base: usize, entries: Seq<EntryView>, id: usize)
    requires
        walk(table, base, entries) is Running,
        !clamps(table, base, entries),
    ensures
        record_of(reached(walk(table, base, entries)), id).size + taken_bytes(
            table,
            base,
            entries,
            id,
        ) == record_of(table, id).size + own_bytes(base, entries, id),
    decreases entries.len(),
{
    if entries.len() > 0 {
        let before = entries.drop_last();
        let last = entries.last();
        law_sizes_are_accounted(table, base, before, id);
        law_path_is_on_record(table, base, before);
        let state = walk(table, base, before)->Running_0;
        let stack = state.stack.take(state.stack.len() - pops(last.delta));
        if enclosing_scope(stack) is Some {
            lemma_scope_is_on_path(stack);
            let i = choose|i: int|
                0 <= i < stack.len() && identity(#[trigger] stack[i]) == enclosing_scope(stack);
            assert(stack[i] == state.stack[i]);
            assert(state.table.contains_key(enclosing_scope(stack)->0));
        }
    }
}

/// `CompUnitParser::parse` leaves a record for each function that was on
/// record before or that one of the entries it counted stands for, and
/// for no other; and it leaves alone the records of all other functions.
pub proof fn law_unit_records(
    table: Table,
    gathered: Seq<Seq<u8>>,
    little_endian: bool,
    header: UnitHeader,
    other: usize,
)
    ensures
        unit_outcome(table, gathered, little_endian, header).0.dom() =~= table.dom().union(
            resolved(unit_offset(header), unit_counted(table, gathered, little_endian, header)),
        ),
        !resolved(
            unit_offset(header),
            unit_counted(table, gathered, little_endian, header),
        ).contains(other) && table.contains_key(other) ==> unit_outcome(
            table,
            gathered,
            little_endian,
            header,
        ).0[other] == table[other],
{
    let counted = unit_counted(table, gathered, little_endian, header);
    law_unit_is_a_walk(table, gathered, little_endian, header);
    law_one_record_per_function(table, unit_offset(header), counted);
    if !resolved(unit_offset(header), counted).contains(other) {
        law_other_records_stay(table, unit_offset(header), counted, other);
    }
}

/// `CompUnitParser::parse` accounts for every byte where no record stops
/// at zero; and a function that is the nearest scope of no inlined
/// subroutine has exactly the bytes of the entries that stand for it
/// more.
pub proof fn law_unit_sizes(
    table: Table,
    gathered: Seq<Seq<u8>>,
    little_endian: bool,
    header: UnitHeader,
    id: usize,
)
    ensures
        ({
            let base = unit_offset(header);
            let counted = unit_counted(table, gathered, little_endian, header);
            let after = unit_outcome(table, gathered, little_endian, header).0;
            &&& !clamps(table, base, counted) ==> record_of(after, id).size + taken_bytes(
                table,
                base,
                counted,
                id,
            ) == record_of(table, id).size + own_bytes(base, counted, id)
            &&& !encloses_inlined(table, base, counted, id) ==> record_of(after, id).size
                == record_of(table, id).size + own_bytes(base, counted, id)
        }),
{
    let base = unit_offset(header);
    let counted = unit_counted(table, gathered, little_endian, header);
    law_unit_is_a_walk(table, gathered, little_endian, header);
    if !clamps(table, base, counted) {
        law_sizes_are_accounted(table, base, counted, id);
    }
    if !encloses_inlined(table, base, counted, id) {
        law_uncorrected_size_is_own_bytes(table, base, counted, id);
    }
}

/// The functions that the entries counted in the units ahead stand for.
pub open spec fn file_resolved(
    table: Table,
    gathered: Seq<Seq<u8>>,
    little_endian: bool,
    ahead: Seq<Option<UnitHeader>>,
) -> Set<usize>
    decreases ahead.len(),
{
    if ahead.len() == 0 {
        Set::empty()
    } else {
        match ahead[0] {
            None => Set::empty(),
            Some(header) => {
                let here = resolved(
                    unit_offset(header),
                    unit_counted(table, gathered, little_endian, header),
                );
                let (reached, r) = unit_outcome(table, gathered, little_endian, header);
                if r is Ok {
                    here.union(file_resolved(reached, gathered, little_endian, ahead.drop_first()))
                } else {
                    here
                }
            },
        }
    }
}

/// The bytes that the entries standing for `id` bring, in all the units
/// ahead.
pub open spec fn file_own_bytes(
    table: Table,
    gathered: Seq<Seq<u8>>,
    little_endian: bool,
    ahead: Seq<Option<UnitHeader>>,
    id: usize,
) -> nat
    decreases ahead.len(),
{
    if ahead.len() == 0 {
        0
    } else {
        match ahead[0] {
            None => 0,
            Some(header) => {
                let here = own_bytes(
                    unit_offset(header),
                    unit_counted(table, gathered, little_endian, header),
                    id,
                );
                let (reached, r) = unit_outcome(table, gathered, little_endian, header);
                if r is Ok {
                    here + file_own_bytes(reached, gathered, little_endian, ahead.drop_first(), id)
                } else {
                    here
                }
            },
        }
    }
}

/// The bytes that inlined subroutines take from `id`, in all the units
/// ahead.
pub open spec fn file_taken_bytes(
    table: Table,
    gathered: Seq<Seq<u8>>,
    little_endian: bool,
    ahead: Seq<Option<UnitHeader>>,
    id: usize,
) -> nat
    decreases ahead.len(),
{
    if ahead.len() == 0 {
        0
    } else {
        match ahead[0] {
            None => 0,
            Some(header) => {
                let here = taken_bytes(
                    table,
                    unit_offset(header),
                    unit_counted(table, gathered, little_endian, header),
                    id,
                );
                let (reached, r) = unit_outcome(table, gathered, little_endian, header);
                if r is Ok {
                    here + file_taken_bytes(
                        reached,
                        gathered,
                        little_endian,
                        ahead.drop_first(),
                        id,
                    )
                } else {
                    here
                }
            },
        }
    }
}

/// Some record stops at zero in one of the units ahead.
pub open spec fn file_clamps(
    table: Table,
    gathered: Seq<Seq<u8>>,
    little_endian: bool,
    ahead: Seq<Option<UnitHeader>>,
) -> bool
    decreases ahead.len(),
{
    if ahead.len() == 0 {
        false
    } else {
        match ahead[0] {
            None => false,
            Some(header) => {
                let here = clamps(
                    table,
                    unit_offset(header),
                    unit_counted(table, gathered, little_endian, header),
                );
                let (reached, r) = unit_outcome(table, gathered, little_endian, header);
                here || (r is Ok && file_clamps(
                    reached,
                    gathered,
                    little_endian,
                    ahead.drop_first(),
                ))
            },
        }
    }
}

/// Some inlined subroutine in one of the units ahead is visited while
/// `id` is the nearest scope on the path.
pub open spec fn file_encloses_inlined(
    table: Table,
    gathered: Seq<Seq<u8>>,
    little_endian: bool,
    ahead: Seq<Option<UnitHeader>>,
    id: usize,
) -> bool
    decreases ahead.len(),
{
    if ahead.len() == 0 {
        false
    } else {
        match ahead[0] {
            None => false,
            Some(header) => {
                let here = encloses_inlined(
                    table,
                    unit_offset(header),
                    unit_counted(table, gathered, little_endian, header),
                    id,
                );
                let (reached, r) = unit_outcome(table, gathered, little_endian, header);
                here || (r is Ok && file_encloses_inlined(
                    reached,
                    gathered,
                    little_endian,
                    ahead.drop_first(),
                    id,
                ))
            },
        }
    }
}

/// The functions that entries stand for are finitely many.
pub proof fn lemma_resolved_is_finite(base: usize, entries: Seq<EntryView>)
    ensures
        resolved(base, entries).finite(),
    decreases entries.len(),
{
    if entries.len() == 0 {
        assert(resolved(base, entries) =~= Set::<usize>::empty());
    } else {
        let before = entries.drop_last();
        lemma_resolved_is_finite(base, before);
        let grown = match stands_for(base, entries.last()) {
            Some(id) => resolved(base, before).insert(id),
            None => resolved(base, before),
        };
        assert(resolved(base, entries) =~= grown) by {
            assert forall|id: usize| resolved(base, entries).contains(id) <==> grown.contains(
                id,
            ) by {
                if resolved(base, entries).contains(id) {
                    let i = choose|i: int|
                        0 <= i < entries.len() && stands_for(base, #[trigger] entries[i]) == Some(
                            id,
                        );
                    if i < before.len() {
                        assert(stands_for(base, before[i]) == Some(id));
                    }
                }
                if resolved(base, before).contains(id) {
                    let i = choose|i: int|
                        0 <= i < before.len() && stands_for(base, #[trigger] before[i]) == Some(id);
                    assert(stands_for(base, entries[i]) == Some(id));
                }
                if stands_for(base, entries.last()) == Some(id) {
                    assert(stands_for(base, entries[entries.len() - 1]) == Some(id));
                }
            }
        }
    }
}

/// After the units of a file, the records are those of the functions that
/// were on record before or that a counted entry of some unit stands for,
/// one for each, finitely many; and the records of all other functions
/// are as they were.
pub proof fn law_file_records(
    table: Table,
    gathered: Seq<Seq<u8>>,
    little_endian: bool,
    ahead: Seq<Option<UnitHeader>>,
    other: usize,
)
    ensures
        finish_file(table, gathered, little_endian, ahead).0.dom() =~= table.dom().union(
            file_resolved(table, gathered, little_endian, ahead),
        ),
        file_resolved(table, gathered, little_endian, ahead).finite(),
        !file_resolved(table, gathered, little_endian, ahead).contains(other)
            && table.contains_key(other) ==> finish_file(
            table,
            gathered,
            little_endian,
            ahead,
        ).0[other] == table[other],
    decreases ahead.len(),
{
    if ahead.len() > 0 {
        match ahead[0] {
            None => {},
            Some(header) => {
                law_unit_records(table, gathered, little_endian, header, other);
                lemma_resolved_is_finite(
                    unit_offset(header),
                    unit_counted(table, gathered, little_endian, header),
                );
                let (reached, r) = unit_outcome(table, gathered, little_endian, header);
                if r is Ok {
                    law_file_records(reached, gathered, little_endian, ahead.drop_first(), other);
                }
            },
        }
    }
}

/// `parse_items` and `parse` hand out as many items as there are
/// functions that a counted entry of some unit stands for: one for each,
/// none for an entry of another kind, and no second one for a function
/// that is met again.
pub proof fn law_items_are_as_many_as_functions(
    gathered: Seq<Seq<u8>>,
    little_endian: bool,
    records: Seq<CodeItem>,
)
    requires
        lists(file_outcome(Map::<usize, Record>::empty(), gathered, little_endian).0, records),
    ensures
        records.len() == file_resolved(
            Map::<usize, Record>::empty(),
            gathered,
            little_endian,
            section_units(gathered, little_endian),
        ).len(),
{
    let none = Map::<usize, Record>::empty();
    let units = section_units(gathered, little_endian);
    law_file_records(none, gathered, little_endian, units, 0);
    let table = file_outcome(none, gathered, little_endian).0;
    assert(table.dom() =~= file_resolved(none, gathered, little_endian, units));
    law_listing_counts_records(table, records);
}

/// After the units of a file every byte is accounted for where no record
/// stopped at zero; and a function that was the nearest scope of no
/// inlined subroutine has exactly the bytes of the entries that stand for
/// it, in all units, more than before.
pub proof fn law_file_sizes(
    table: Table,
    gathered: Seq<Seq<u8>>,
    little_endian: bool,
    ahead: Seq<Option<UnitHeader>>,
    id: usize,
)
    ensures
        ({
            let after = finish_file(table, gathered, little_endian, ahead).0;
            &&& !file_clamps(table, gathered, little_endian, ahead) ==> record_of(after, id).size
                + file_taken_bytes(table, gathered, little_endian, ahead, id) == record_of(
                table,
                id,
            ).size + file_own_bytes(table, gathered, little_endian, ahead, id)
            &&& !file_encloses_inlined(table, gathered, little_endian, ahead, id) ==> record_of(
                after,
                id,
            ).size == record_of(table, id).size + file_own_bytes(
                table,
                gathered,
                little_endian,
                ahead,
                id,
            )
        }),
    decreases ahead.len(),
{
    if ahead.len() > 0 {
        match ahead[0] {
            None => {},
            Some(header) => {
                law_unit_sizes(table, gathered, little_endian, header, id);
                let (reached, r) = unit_outcome(table, gathered, little_endian, header);
                if r is Ok {
                    law_file_sizes(reached, gathered, little_endian, ahead.drop_first(), id);
                }
            },
        }
    }
}

/// A reference counted from the start of the section and one counted from
/// the start of the unit name the same function where they point at the
/// same entry.
pub proof fn law_origin_forms_agree(base: usize, local: usize, tag: Tag, offset: usize)
    requires
        base + local <= usize::MAX,
    ensures
        resolve_origin(base, Origin::UnitRef(local)) == resolve_origin(
            base,
            Origin::DebugInfoRef((base + local) as usize),
        ),
        classify(base, tag, offset, Origin::UnitRef(local)) == classify(
            base,
            tag,
            offset,
            Origin::DebugInfoRef((base + local) as usize),
        ),
{
}

} // verus!
