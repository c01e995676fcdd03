use twiggy_parser::attribution::{Entry, Node, Origin, ParseError, Tag};
use twiggy_parser::compilation_unit_parse::{
    classify, enclosing_scope, global_offset, resolve_origin, unwind, CompUnitParser,
};

fn root() -> Entry {
    Entry { delta: 0, tag: Tag::Other, offset: 11, origin: Origin::Absent, name: None, size: None }
}

fn other(delta: isize, offset: usize) -> Entry {
    Entry { delta, tag: Tag::Other, offset, origin: Origin::Absent, name: None, size: None }
}

fn subprogram(delta: isize, offset: usize, name: &str, size: u64) -> Entry {
    Entry {
        delta,
        tag: Tag::Subprogram,
        offset,
        origin: Origin::Absent,
        name: Some(name.to_string()),
        size: Some(size),
    }
}

fn inlined(delta: isize, offset: usize, origin: Origin, size: u64) -> Entry {
    Entry { delta, tag: Tag::InlinedSubroutine, offset, origin, name: None, size: Some(size) }
}

fn size_of(parser: &CompUnitParser, id: usize) -> u32 {
    parser.subroutines.get(&id).expect("a record").size
}

fn name_of(parser: &CompUnitParser, id: usize) -> Option<String> {
    parser.subroutines.get(&id).expect("a record").name.clone()
}

#[test]
fn inlined_bytes_leave_the_caller() {
    let mut parser = CompUnitParser::default();
    let entries = vec![
        root(),
        subprogram(1, 0x20, "a", 100),
        inlined(1, 0x30, Origin::DebugInfoRef(0x80), 30),
    ];
    assert_eq!(parser.parse_entries(0, &entries), Ok(()));
    assert_eq!(parser.subroutines.len(), 2);
    assert_eq!(size_of(&parser, 0x20), 70);
    assert_eq!(size_of(&parser, 0x80), 30);
    assert_eq!(name_of(&parser, 0x20), Some("a".to_string()));
    assert_eq!(name_of(&parser, 0x80), None);
}

#[test]
fn callee_inlined_twice_counts_twice() {
    let mut parser = CompUnitParser::default();
    let entries = vec![
        root(),
        subprogram(1, 0x20, "a", 100),
        inlined(1, 0x30, Origin::DebugInfoRef(0x80), 30),
        subprogram(-1, 0x40, "c", 50),
        inlined(1, 0x50, Origin::DebugInfoRef(0x80), 12),
    ];
    assert_eq!(parser.parse_entries(0, &entries), Ok(()));
    assert_eq!(size_of(&parser, 0x20), 70);
    assert_eq!(size_of(&parser, 0x40), 38);
    assert_eq!(size_of(&parser, 0x80), 42);
}

#[test]
fn correction_stops_at_the_nearest_scope() {
    let mut parser = CompUnitParser::default();
    let entries = vec![
        root(),
        subprogram(1, 0x20, "a", 100),
        inlined(1, 0x30, Origin::DebugInfoRef(0x80), 30),
        inlined(1, 0x38, Origin::DebugInfoRef(0x90), 10),
    ];
    assert_eq!(parser.parse_entries(0, &entries), Ok(()));
    assert_eq!(size_of(&parser, 0x20), 70);
    assert_eq!(size_of(&parser, 0x80), 20);
    assert_eq!(size_of(&parser, 0x90), 10);
}

#[test]
fn correction_passes_entries_of_other_kinds() {
    let mut parser = CompUnitParser::default();
    let entries = vec![
        root(),
        subprogram(1, 0x20, "a", 100),
        other(1, 0x28),
        other(1, 0x2c),
        inlined(1, 0x30, Origin::DebugInfoRef(0x80), 25),
    ];
    assert_eq!(parser.parse_entries(0, &entries), Ok(()));
    assert_eq!(size_of(&parser, 0x20), 75);
    assert_eq!(size_of(&parser, 0x80), 25);
}

#[test]
fn correction_stops_at_zero() {
    let mut parser = CompUnitParser::default();
    let entries = vec![
        root(),
        subprogram(1, 0x20, "a", 10),
        inlined(1, 0x30, Origin::DebugInfoRef(0x80), 30),
    ];
    assert_eq!(parser.parse_entries(0, &entries), Ok(()));
    assert_eq!(size_of(&parser, 0x20), 0);
    assert_eq!(size_of(&parser, 0x80), 30);
}

#[test]
fn inlined_below_the_root_corrects_nothing() {
    let mut parser = CompUnitParser::default();
    let entries = vec![root(), inlined(1, 0x30, Origin::DebugInfoRef(0x80), 30)];
    assert_eq!(parser.parse_entries(0, &entries), Ok(()));
    assert_eq!(parser.subroutines.len(), 1);
    assert_eq!(size_of(&parser, 0x80), 30);
}

#[test]
fn function_inlined_into_itself_keeps_nothing() {
    let mut parser = CompUnitParser::default();
    let entries = vec![
        root(),
        subprogram(1, 0x20, "a", 100),
        inlined(1, 0x30, Origin::DebugInfoRef(0x20), 30),
    ];
    assert_eq!(parser.parse_entries(0, &entries), Ok(()));
    assert_eq!(size_of(&parser, 0x20), 100);
}

#[test]
fn siblings_and_returns_move_the_path() {
    let mut parser = CompUnitParser::default();
    let entries = vec![
        root(),
        subprogram(1, 0x20, "a", 100),
        other(1, 0x24),
        inlined(1, 0x28, Origin::DebugInfoRef(0x80), 10),
        inlined(0, 0x2c, Origin::DebugInfoRef(0x80), 5),
        subprogram(-2, 0x40, "b", 60),
        inlined(1, 0x44, Origin::DebugInfoRef(0x90), 7),
        inlined(0, 0x48, Origin::DebugInfoRef(0x90), 8),
    ];
    assert_eq!(parser.parse_entries(0, &entries), Ok(()));
    assert_eq!(size_of(&parser, 0x20), 85);
    assert_eq!(size_of(&parser, 0x40), 45);
    assert_eq!(size_of(&parser, 0x80), 15);
    assert_eq!(size_of(&parser, 0x90), 15);
}

#[test]
fn subprogram_without_inlined_code_has_the_sum_of_its_occurrences() {
    let mut parser = CompUnitParser::default();
    let mut second = subprogram(0, 0x30, "a", 40);
    second.origin = Origin::DebugInfoRef(0x20);
    second.name = None;
    let third = Entry {
        delta: 0,
        tag: Tag::Subprogram,
        offset: 0x40,
        origin: Origin::UnitRef(0x20),
        name: None,
        size: None,
    };
    let entries = vec![root(), subprogram(1, 0x20, "a", 100), second, third];
    assert_eq!(parser.parse_entries(0, &entries), Ok(()));
    assert_eq!(parser.subroutines.len(), 1);
    assert_eq!(size_of(&parser, 0x20), 140);
    assert_eq!(name_of(&parser, 0x20), Some("a".to_string()));
}

#[test]
fn records_are_as_many_as_functions() {
    let mut parser = CompUnitParser::default();
    let entries = vec![
        root(),
        subprogram(1, 0x20, "a", 100),
        inlined(1, 0x30, Origin::DebugInfoRef(0x80), 30),
        inlined(0, 0x34, Origin::DebugInfoRef(0x80), 30),
        inlined(0, 0x38, Origin::UnitRef(0x90), 1),
        subprogram(-1, 0x40, "b", 9),
        other(0, 0x50),
    ];
    assert_eq!(parser.parse_entries(0, &entries), Ok(()));
    let ids: Vec<usize> = parser.subroutines.keys().copied().collect();
    assert_eq!(ids, vec![0x20, 0x40, 0x80, 0x90]);
    assert_eq!(parser.records().len(), 4);
}

#[test]
fn unit_local_and_global_references_agree() {
    let mut local = CompUnitParser::default();
    let mut global = CompUnitParser::default();
    let by_unit = vec![
        root(),
        subprogram(1, 0x20, "a", 100),
        inlined(1, 0x30, Origin::UnitRef(0x80), 30),
    ];
    let by_section = vec![
        root(),
        subprogram(1, 0x20, "a", 100),
        inlined(1, 0x30, Origin::DebugInfoRef(0x1080), 30),
    ];
    assert_eq!(local.parse_entries(0x1000, &by_unit), Ok(()));
    assert_eq!(global.parse_entries(0x1000, &by_section), Ok(()));
    assert_eq!(local.records(), global.records());
    assert_eq!(size_of(&local, 0x1080), 30);
    assert_eq!(size_of(&local, 0x1020), 70);
    assert_eq!(resolve_origin(0x1000, Origin::UnitRef(0x80)), Ok(Some(0x1080)));
    assert_eq!(resolve_origin(0x1000, Origin::DebugInfoRef(0x1080)), Ok(Some(0x1080)));
}

#[test]
fn records_are_shared_by_units() {
    let mut parser = CompUnitParser::default();
    let first = vec![root(), subprogram(1, 0x20, "a", 100)];
    let second = vec![
        root(),
        subprogram(1, 0x20, "b", 50),
        inlined(1, 0x30, Origin::DebugInfoRef(0x20), 20),
    ];
    assert_eq!(parser.parse_entries(0, &first), Ok(()));
    assert_eq!(parser.parse_entries(0x100, &second), Ok(()));
    assert_eq!(size_of(&parser, 0x20), 120);
    assert_eq!(size_of(&parser, 0x120), 30);
}

#[test]
fn same_input_gives_the_same_records() {
    let entries = vec![
        root(),
        subprogram(1, 0x20, "a", 100),
        inlined(1, 0x30, Origin::DebugInfoRef(0x80), 30),
        subprogram(-1, 0x10, "z", 3),
    ];
    let mut first = CompUnitParser::default();
    let mut second = CompUnitParser::default();
    assert_eq!(first.parse_entries(0, &entries), Ok(()));
    assert_eq!(second.parse_entries(0, &entries), Ok(()));
    assert_eq!(first.records(), second.records());
    let offsets: Vec<usize> = first.records().iter().map(|record| record.offset).collect();
    assert_eq!(offsets, vec![0x10, 0x20, 0x80]);
}

#[test]
fn unit_without_root_is_refused() {
    let mut parser = CompUnitParser::default();
    assert_eq!(parser.parse_entries(0, &Vec::new()), Err(ParseError::MissingTreeRoot));
    assert!(parser.subroutines.is_empty());
}

#[test]
fn root_alone_is_an_empty_unit() {
    let mut parser = CompUnitParser::default();
    let mut named = subprogram(0, 0, "root", 9);
    named.origin = Origin::Unexpected;
    assert_eq!(parser.parse_entries(0, &vec![named]), Ok(()));
    assert!(parser.subroutines.is_empty());
}

#[test]
fn inlined_without_origin_is_refused() {
    let mut parser = CompUnitParser::default();
    let entries = vec![
        root(),
        subprogram(1, 0x20, "a", 100),
        inlined(1, 0x30, Origin::Absent, 30),
    ];
    assert_eq!(parser.parse_entries(0, &entries), Err(ParseError::UnresolvedOrigin));
    assert_eq!(parser.subroutines.len(), 1);
    assert_eq!(size_of(&parser, 0x20), 100);
}

#[test]
fn origin_of_another_form_is_refused() {
    let mut parser = CompUnitParser::default();
    let entries = vec![root(), inlined(1, 0x30, Origin::Unexpected, 30)];
    assert_eq!(parser.parse_entries(0, &entries), Err(ParseError::MalformedAttribute));
    let mut parser = CompUnitParser::default();
    let mut entry = subprogram(1, 0x20, "a", 1);
    entry.origin = Origin::Unexpected;
    assert_eq!(parser.parse_entries(0, &vec![root(), entry]), Err(ParseError::MalformedAttribute));
    assert!(parser.subroutines.is_empty());
}

#[test]
fn second_name_must_agree_with_the_first() {
    let mut parser = CompUnitParser::default();
    let mut again = subprogram(0, 0x30, "a", 1);
    again.origin = Origin::DebugInfoRef(0x20);
    let mut other_name = subprogram(0, 0x40, "b", 1);
    other_name.origin = Origin::DebugInfoRef(0x20);
    let entries = vec![root(), subprogram(1, 0x20, "a", 100), again, other_name];
    assert_eq!(parser.parse_entries(0, &entries), Err(ParseError::DuplicateDefinition));
    assert_eq!(size_of(&parser, 0x20), 101);
    assert_eq!(name_of(&parser, 0x20), Some("a".to_string()));
}

#[test]
fn inlined_occurrence_names_nothing() {
    let mut parser = CompUnitParser::default();
    let mut named = inlined(1, 0x30, Origin::DebugInfoRef(0x80), 30);
    named.name = Some("ignored".to_string());
    assert_eq!(parser.parse_entries(0, &vec![root(), named]), Ok(()));
    assert_eq!(name_of(&parser, 0x80), None);
}

#[test]
fn size_over_32_bits_is_refused() {
    let mut parser = CompUnitParser::default();
    let entries = vec![
        root(),
        subprogram(1, 0x20, "a", 0xffff_fff0),
        inlined(1, 0x30, Origin::DebugInfoRef(0x20), 0x10),
    ];
    assert_eq!(parser.parse_entries(0, &entries), Err(ParseError::TooLarge));
    assert_eq!(size_of(&parser, 0x20), 0xffff_fff0);
    let mut parser = CompUnitParser::default();
    let entries = vec![root(), subprogram(1, 0x20, "a", 0x1_0000_0000)];
    assert_eq!(parser.parse_entries(0, &entries), Err(ParseError::TooLarge));
    let mut parser = CompUnitParser::default();
    let entries = vec![root(), subprogram(1, 0x20, "a", 0xffff_ffff)];
    assert_eq!(parser.parse_entries(0, &entries), Ok(()));
    assert_eq!(size_of(&parser, 0x20), u32::MAX);
}

#[test]
fn entry_beside_the_root_ends_the_unit() {
    let mut parser = CompUnitParser::default();
    let entries = vec![root(), subprogram(1, 0x20, "a", 100), subprogram(-1, 0x40, "b", 7)];
    assert_eq!(parser.parse_entries(0, &entries), Ok(()));
    assert_eq!(parser.subroutines.len(), 1);
    let mut parser = CompUnitParser::default();
    let entries = vec![root(), subprogram(0, 0x40, "b", 7)];
    assert_eq!(parser.parse_entries(0, &entries), Ok(()));
    assert!(parser.subroutines.is_empty());
}

#[test]
fn entries_after_the_end_are_refused() {
    let mut parser = CompUnitParser::default();
    let entries = vec![
        root(),
        subprogram(1, 0x20, "a", 100),
        subprogram(-1, 0x40, "b", 7),
        subprogram(1, 0x50, "c", 7),
    ];
    assert_eq!(parser.parse_entries(0, &entries), Err(ParseError::MalformedFormat));
    assert_eq!(parser.subroutines.len(), 1);
}

#[test]
fn offsets_past_the_machine_are_refused() {
    let mut parser = CompUnitParser::default();
    let entries = vec![root(), subprogram(1, 0x20, "a", 100)];
    assert_eq!(parser.parse_entries(usize::MAX, &entries), Err(ParseError::MalformedFormat));
    let entries = vec![root(), inlined(1, 0x20, Origin::UnitRef(0x20), 100)];
    assert_eq!(parser.parse_entries(usize::MAX, &entries), Err(ParseError::MalformedAttribute));
    assert_eq!(global_offset(usize::MAX, 1), None);
    assert_eq!(global_offset(usize::MAX - 1, 1), Some(usize::MAX));
    assert_eq!(global_offset(0x100, 0x23), Some(0x123));
}

#[test]
fn entries_are_classified_by_tag() {
    assert_eq!(classify(0x100, Tag::Other, 0x20, Origin::Unexpected), Ok(Node::Other));
    assert_eq!(classify(0x100, Tag::Subprogram, 0x20, Origin::Absent), Ok(Node::Subprogram(0x120)));
    assert_eq!(
        classify(0x100, Tag::Subprogram, 0x20, Origin::UnitRef(0x40)),
        Ok(Node::Subprogram(0x140))
    );
    assert_eq!(
        classify(0x100, Tag::InlinedSubroutine, 0x20, Origin::DebugInfoRef(0x40)),
        Ok(Node::InlinedSubroutine(0x40))
    );
    assert_eq!(
        classify(0x100, Tag::InlinedSubroutine, 0x20, Origin::Absent),
        Err(ParseError::UnresolvedOrigin)
    );
    assert_eq!(resolve_origin(0x100, Origin::Absent), Ok(None));
    assert_eq!(resolve_origin(0x100, Origin::Unexpected), Err(ParseError::MalformedAttribute));
}

#[test]
fn path_is_unwound_by_the_delta() {
    let full = vec![Node::Subprogram(1), Node::Other, Node::InlinedSubroutine(2), Node::Other];
    let mut stack = full.clone();
    assert!(unwind(&mut stack, 1));
    assert_eq!(stack, full);
    assert!(unwind(&mut stack, 0));
    assert_eq!(stack, vec![Node::Subprogram(1), Node::Other, Node::InlinedSubroutine(2)]);
    assert!(unwind(&mut stack, -1));
    assert_eq!(stack, vec![Node::Subprogram(1)]);
    assert!(!unwind(&mut stack, -1));
    assert_eq!(stack, vec![Node::Subprogram(1)]);
    assert!(unwind(&mut stack, 0));
    assert!(stack.is_empty());
    assert!(!unwind(&mut stack, 0));
    assert!(!unwind(&mut stack, isize::MIN));
    assert!(unwind(&mut stack, isize::MAX));
}

#[test]
fn nearest_scope_is_the_innermost() {
    assert_eq!(enclosing_scope(&Vec::new()), None);
    assert_eq!(enclosing_scope(&vec![Node::Other, Node::Other]), None);
    assert_eq!(
        enclosing_scope(&vec![Node::Subprogram(1), Node::InlinedSubroutine(2), Node::Other]),
        Some(2)
    );
    assert_eq!(enclosing_scope(&vec![Node::Subprogram(1), Node::Other]), Some(1));
}

#[test]
fn visit_counts_one_entry_and_opens_it_on_the_path() {
    let mut parser = CompUnitParser::default();
    let mut stack = Vec::new();
    assert_eq!(parser.visit(&mut stack, 0x100, &subprogram(1, 0x20, "a", 100)), Ok(true));
    assert_eq!(stack, vec![Node::Subprogram(0x120)]);
    assert_eq!(parser.visit(&mut stack, 0x100, &other(1, 0x24)), Ok(true));
    assert_eq!(stack, vec![Node::Subprogram(0x120), Node::Other]);
    let entry = inlined(0, 0x28, Origin::UnitRef(0x60), 40);
    assert_eq!(parser.visit(&mut stack, 0x100, &entry), Ok(true));
    assert_eq!(stack, vec![Node::Subprogram(0x120), Node::InlinedSubroutine(0x160)]);
    assert_eq!(size_of(&parser, 0x120), 60);
    assert_eq!(size_of(&parser, 0x160), 40);
    let failing = inlined(1, 0x2c, Origin::Absent, 1);
    assert_eq!(parser.visit(&mut stack, 0x100, &failing), Err(ParseError::UnresolvedOrigin));
    assert_eq!(size_of(&parser, 0x160), 40);
    assert_eq!(parser.visit(&mut stack, 0x100, &other(-2, 0x40)), Ok(false));
    assert_eq!(parser.subroutines.len(), 2);
}

#[test]
fn attribute_counts_for_the_function_and_corrects_the_scope() {
    let mut parser = CompUnitParser::default();
    let path = vec![Node::Subprogram(1), Node::InlinedSubroutine(2), Node::Other];
    assert_eq!(parser.attribute(&path, Node::Other, Some("x".to_string()), Some(9)), Ok(()));
    assert!(parser.subroutines.is_empty());
    assert_eq!(parser.attribute(&Vec::new(), Node::Subprogram(1), None, Some(50)), Ok(()));
    assert_eq!(parser.attribute(&Vec::new(), Node::Subprogram(2), None, None), Ok(()));
    assert_eq!(size_of(&parser, 2), 0);
    assert_eq!(parser.attribute(&Vec::new(), Node::InlinedSubroutine(2), None, Some(20)), Ok(()));
    assert_eq!(parser.attribute(&path, Node::InlinedSubroutine(3), None, Some(5)), Ok(()));
    assert_eq!(size_of(&parser, 1), 50);
    assert_eq!(size_of(&parser, 2), 15);
    assert_eq!(size_of(&parser, 3), 5);
    assert_eq!(parser.attribute(&path, Node::Subprogram(3), Some("c".to_string()), None), Ok(()));
    assert_eq!(name_of(&parser, 3), Some("c".to_string()));
    assert_eq!(size_of(&parser, 2), 15);
    assert_eq!(
        parser.attribute(&path, Node::Subprogram(3), Some("d".to_string()), Some(1)),
        Err(ParseError::DuplicateDefinition)
    );
    assert_eq!(size_of(&parser, 3), 5);
}

#[test]
fn correct_takes_bytes_from_the_nearest_scope_only() {
    let mut parser = CompUnitParser::default();
    assert_eq!(parser.attribute(&Vec::new(), Node::Subprogram(1), None, Some(50)), Ok(()));
    assert_eq!(parser.attribute(&Vec::new(), Node::Subprogram(2), None, Some(30)), Ok(()));
    parser.correct(&vec![Node::Subprogram(1), Node::Subprogram(2), Node::Other], 10);
    assert_eq!((size_of(&parser, 1), size_of(&parser, 2)), (50, 20));
    parser.correct(&vec![Node::Subprogram(1), Node::Subprogram(2)], 25);
    assert_eq!((size_of(&parser, 1), size_of(&parser, 2)), (50, 0));
    parser.correct(&vec![Node::Other], 25);
    parser.correct(&vec![Node::Subprogram(7)], 25);
    assert_eq!((size_of(&parser, 1), size_of(&parser, 2)), (50, 0));
    assert_eq!(parser.subroutines.len(), 2);
}
