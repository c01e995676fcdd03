//! The records of a file, handed out as items in the order of their
//! offsets.

use crate::attribution::{display_name, hex, hex_digit, placeholder, ParseError, Table};
use crate::compilation_unit_parse::CompUnitParser;
use vstd::prelude::*;
use vstd::string::StringExecFns;
use vstd::std_specs::btree::{increasing_seq, spec_keys_iter};
use vstd::std_specs::cmp::OrdSpec;
use vstd::std_specs::iter::IteratorSpec;

verus! {

/// The first number in the id of every item made of a record; the second
/// is the record's offset. It keeps these items apart from those that
/// other readers of the same file add.
pub const DWARF_SECTION: usize = 0;

/// A record as it is handed out: an item of executable code.
#[derive(Debug, Clone, PartialEq, Eq)]
pub struct CodeItem {
    /// The section offset of the entry that declares the function.
    pub offset: usize,
    /// The function's name, or the placeholder made from its offset.
    pub name: String,
    /// The bytes of code counted for the function.
    pub size: u32,
}

/// `records` lists `table`: every record once, in rising order of offset,
/// with its size, and with its name or the placeholder for it.
pub open spec fn lists(table: Table, records: Seq<CodeItem>) -> bool {
    &&& forall|i: int, j: int|
        0 <= i < j < records.len() ==> records[i].offset < records[j].offset
    &&& forall|i: int|
        0 <= i < records.len() ==> {
            &&& table.contains_key(#[trigger] records[i].offset)
            &&& records[i].name@ == display_name(records[i].offset, table[records[i].offset])
            &&& records[i].size == table[records[i].offset].size
        }
    &&& forall|offset: usize| #[trigger]
        table.contains_key(offset) ==> exists|i: int|
            0 <= i < records.len() && #[trigger] records[i].offset == offset
}

/// The sum of the sizes of `records`.
pub open spec fn total_size(records: Seq<CodeItem>) -> nat
    decreases records.len(),
{
    if records.len() == 0 {
        0
    } else {
        total_size(records.drop_last()) + records.last().size as nat
    }
}

/// Every offset in `records` can be the second number of an id: an id has
/// 32 bits for it, and the last of them stands for a whole section.
pub open spec fn fits(records: Seq<CodeItem>) -> bool {
    forall|i: int| 0 <= i < records.len() ==> (#[trigger] records[i]).offset < u32::MAX
}

/// The sizes of the first records sum to no more than those of all.
pub proof fn lemma_total_size_grows(records: Seq<CodeItem>, k: int)
    requires
        0 <= k <= records.len(),
    ensures
        total_size(records.take(k)) <= total_size(records),
    decreases records.len(),
{
    if k == records.len() {
        assert(records.take(k) =~= records);
    } else {
        assert(records.drop_last().take(k) =~= records.take(k));
        lemma_total_size_grows(records.drop_last(), k);
    }
}

/// One digit of a hexadecimal number.
fn hex_digit_text(d: usize) -> (r: &'static str)
    requires
        d < 16,
    ensures
        r@ == seq![hex_digit(d as nat)],
{
    proof {
        reveal_strlit("0");
        reveal_strlit("1");
        reveal_strlit("2");
        reveal_strlit("3");
        reveal_strlit("4");
        reveal_strlit("5");
        reveal_strlit("6");
        reveal_strlit("7");
        reveal_strlit("8");
        reveal_strlit("9");
        reveal_strlit("a");
        reveal_strlit("b");
        reveal_strlit("c");
        reveal_strlit("d");
        reveal_strlit("e");
        reveal_strlit("f");
    }
    let r = if d == 0 {
        "0"
    } else if d == 1 {
        "1"
    } else if d == 2 {
        "2"
    } else if d == 3 {
        "3"
    } else if d == 4 {
        "4"
    } else if d == 5 {
        "5"
    } else if d == 6 {
        "6"
    } else if d == 7 {
        "7"
    } else if d == 8 {
        "8"
    } else if d == 9 {
        "9"
    } else if d == 10 {
        "a"
    } else if d == 11 {
        "b"
    } else if d == 12 {
        "c"
    } else if d == 13 {
        "d"
    } else if d == 14 {
        "e"
    } else {
        "f"
    };
    assert(r@ =~= seq![hex_digit(d as nat)]);
    r
}

/// A number in hexadecimal, in lower case and without leading zeros.
pub fn hex_string(n: usize) -> (r: String)
    ensures
        r@ == hex(n as nat),
    decreases n,
{
    if n < 16 {
        String::from_str(hex_digit_text(n))
    } else {
        let r = hex_string(n / 16).concat(hex_digit_text(n % 16));
        assert(r@ =~= hex(n as nat));
        r
    }
}

/// The name that stands for the function whose record is at `offset`,
/// where no subprogram named it.
pub fn placeholder_name(offset: usize) -> (r: String)
    ensures
        r@ == placeholder(offset),
{
    proof {
        reveal_strlit("Subroutine[0x");
        reveal_strlit("]");
    }
    let number = hex_string(offset);
    let r = String::from_str("Subroutine[0x").concat(number.as_str()).concat("]");
    assert(r@ =~= placeholder(offset));
    r
}

/// Whether `records` can become items beside items whose sizes sum to
/// `added`: every offset must fit an id, and all sizes together a size.
pub fn check_items(records: &Vec<CodeItem>, added: u32) -> (r: Result<(), ParseError>)
    ensures
        r is Ok <==> fits(records@) && added + total_size(records@) <= u32::MAX,
        r is Err ==> r == Err::<(), ParseError>(ParseError::TooLarge),
{
    let mut total: u32 = added;
    let mut i: usize = 0;
    assert(records@.take(0) =~= Seq::<CodeItem>::empty());
    while i < records.len()
        invariant
            i <= records.len(),
            total == added + total_size(records@.take(i as int)),
            fits(records@.take(i as int)),
        decreases records.len() - i,
    {
        assert(records@.take(i + 1).drop_last() =~= records@.take(i as int));
        proof {
            lemma_total_size_grows(records@, i + 1);
        }
        if records[i].offset >= u32::MAX as usize {
            return Err(ParseError::TooLarge);
        }
        total = match total.checked_add(records[i].size) {
            Some(total) => total,
            None => {
                return Err(ParseError::TooLarge);
            },
        };
        i += 1;
    }
    assert(records@.take(i as int) =~= records@);
    Ok(())
}

impl CompUnitParser {
    /// The records in the order of their offsets, each with its name or
    /// with the placeholder for it.
    pub fn records(&self) -> (r: Vec<CodeItem>)
        ensures
            lists(self@, r@),
    {
        let offsets = self.offsets();
        let mut out: Vec<CodeItem> = Vec::new();
        let mut i: usize = 0;
        while i < offsets.len()
            invariant
                i <= offsets.len(),
                out@.len() == i,
                offsets@.to_set() == self@.dom(),
                forall|k: int| 0 <= k < i ==> {
                    &&& (#[trigger] out@[k]).offset == offsets@[k]
                    &&& out@[k].name@ == display_name(offsets@[k], self@[offsets@[k]])
                    &&& out@[k].size == self@[offsets@[k]].size
                },
            decreases offsets.len() - i,
        {
            let offset = offsets[i];
            assert(offsets@.to_set().contains(offsets@[i as int]));
            assert(self.subroutines@.contains_key(offset));
            if let Some(record) = self.subroutines.get(&offset) {
                let name = match &record.name {
                    Some(name) => name.clone(),
                    None => placeholder_name(offset),
                };
                out.push(CodeItem { offset, name, size: record.size });
            }
            i += 1;
        }
        proof {
            assert forall|offset: usize| #[trigger] self@.contains_key(offset) implies exists|i: int|
                0 <= i < out@.len() && #[trigger] out@[i].offset == offset by {
                assert(offsets@.to_set().contains(offset));
                let i = choose|i: int| 0 <= i < offsets@.len() && offsets@[i] == offset;
                assert(out@[i].offset == offset);
            }
        }
        out
    }
}

impl CompUnitParser {
    /// The offsets that have a record, each once, in rising order.
    pub fn offsets(&self) -> (r: Vec<usize>)
        ensures
            r@.to_set() == self@.dom(),
            r@.no_duplicates(),
            forall|i: int, j: int| 0 <= i < j < r@.len() ==> r@[i] < r@[j],
    {
        let mut out: Vec<usize> = Vec::new();
        for k in it: self.subroutines.keys()
            invariant
                out@.len() == it.index(),
                it.seq() == spec_keys_iter(&self.subroutines).remaining(),
                forall|i: int| 0 <= i < out@.len() ==> out@[i] == *it.seq()[i],
        {
            out.push(*k);
        }
        proof {
            let all = spec_keys_iter(&self.subroutines).remaining();
            assert(out@ =~= all.unref());
            assert(self@.dom() =~= self.subroutines@.dom());
            assert(increasing_seq(all));
            assert forall|i: int, j: int| 0 <= i < j < out@.len() implies out@[i] < out@[j] by {
                assert(OrdSpec::cmp_spec(&all[i], &all[j]) is Less);
            }
        }
        out
    }
}

} // verus!
