//! An assembled program: the immutable instruction sequence and the table
//! resolving label names to instruction addresses. Built once by the
//! assembler (or by hand) and then only read.
use crate::text::str_eq;
use crate::vm::Command;
use vstd::prelude::*;

verus! {

/// The mapping a sequence of (label, address) entries denotes: entries are
/// added in order, a later entry for the same name overriding an earlier one.
pub open spec fn label_map_of(entries: Seq<(String, u64)>) -> Map<Seq<char>, u64>
    decreases entries.len(),
{
    if entries.len() == 0 {
        Map::empty()
    } else {
        label_map_of(entries.drop_last()).insert(entries.last().0@, entries.last().1)
    }
}

proof fn lemma_label_map_skip(entries: Seq<(String, u64)>, i: int, k: Seq<char>)
    requires
        0 <= i <= entries.len(),
        forall|j: int| i <= j < entries.len() ==> entries[j].0@ != k,
    ensures
        label_map_of(entries).contains_key(k) == label_map_of(entries.take(i)).contains_key(k),
        label_map_of(entries).contains_key(k) ==> label_map_of(entries)[k] == label_map_of(
            entries.take(i),
        )[k],
    decreases entries.len() - i,
{
    if i == entries.len() {
        assert(entries.take(i) =~= entries);
    } else {
        assert(entries.drop_last() =~= entries.take(entries.len() - 1));
        lemma_label_map_skip(entries.take(entries.len() - 1), i, k);
        assert(entries.take(entries.len() - 1).take(i) =~= entries.take(i));
    }
}

proof fn lemma_label_map_found(entries: Seq<(String, u64)>, i: int, k: Seq<char>)
    requires
        0 <= i < entries.len(),
        entries[i].0@ == k,
        forall|j: int| i < j < entries.len() ==> entries[j].0@ != k,
    ensures
        label_map_of(entries).contains_key(k),
        label_map_of(entries)[k] == entries[i].1,
{
    lemma_label_map_skip(entries, i + 1, k);
    assert(entries.take(i + 1).drop_last() =~= entries.take(i));
    assert(entries.take(i + 1).last() == entries[i]);
}


/// The mapping a sequence of (name, address) entries denotes, names as
/// character sequences; later entries override earlier ones.
pub open spec fn label_map_of_names(entries: Seq<(Seq<char>, u64)>) -> Map<Seq<char>, u64>
    decreases entries.len(),
{
    if entries.len() == 0 {
        Map::empty()
    } else {
        label_map_of_names(entries.drop_last()).insert(entries.last().0, entries.last().1)
    }
}

/// A label vector denotes the same mapping as its entries' views.
pub proof fn lemma_label_map_views(entries: Seq<(String, u64)>)
    ensures
        label_map_of(entries) == label_map_of_names(
            entries.map_values(|e: (String, u64)| (e.0@, e.1)),
        ),
    decreases entries.len(),
{
    let mapped = entries.map_values(|e: (String, u64)| (e.0@, e.1));
    if entries.len() == 0 {
        assert(mapped.len() == 0);
    } else {
        lemma_label_map_views(entries.drop_last());
        assert(mapped.drop_last() =~= entries.drop_last().map_values(
            |e: (String, u64)| (e.0@, e.1),
        ));
        assert(mapped.last() == (entries.last().0@, entries.last().1));
    }
}

/// Where no later entry carries the same name, the denoted mapping resolves
/// the name to exactly that entry's address: the label table keeps, for each
/// name, the last entry's position.
pub proof fn lemma_label_map_resolves(entries: Seq<(Seq<char>, u64)>, k: int)
    requires
        0 <= k < entries.len(),
        forall|j: int| k < j < entries.len() ==> entries[j].0 != entries[k].0,
    ensures
        label_map_of_names(entries).contains_key(entries[k].0),
        label_map_of_names(entries)[entries[k].0] == entries[k].1,
    decreases entries.len(),
{
    if k < entries.len() - 1 {
        lemma_label_map_resolves(entries.drop_last(), k);
    }
}

/// An instruction sequence addressed 0 .. len-1, with a label table mapping
/// names to the addresses of the instructions they decorate. Labels are
/// resolved only when a jump executes, never at construction.
#[derive(Debug, PartialEq)]
pub struct Program {
    program: Vec<Command>,
    labels: Vec<(String, u64)>,
}

impl Program {
    /// The instructions, in address order.
    pub closed spec fn commands(&self) -> Seq<Command> {
        self.program@
    }

    /// The label table as a mapping from label text to address.
    pub closed spec fn label_map(&self) -> Map<Seq<char>, u64> {
        label_map_of(self.labels@)
    }

    pub fn new(program: Vec<Command>, labels: Vec<(String, u64)>) -> (r: Program)
        ensures
            r.commands() == program@,
            r.label_map() == label_map_of(labels@),
    {
        Program { program, labels }
    }

    /// The address a label resolves to, or None where the table has no
    /// entry of that name.
    pub fn get_address(&self, label: &str) -> (r: Option<u64>)
        ensures
            r == if self.label_map().contains_key(label@) {
                Some(self.label_map()[label@])
            } else {
                None::<u64>
            },
    {
        let n = self.labels.len();
        let mut i: usize = n;
        while i > 0
            invariant
                0 <= i <= n,
                n == self.labels@.len(),
                forall|j: int| i <= j < n ==> self.labels@[j].0@ != label@,
            decreases i,
        {
            i = i - 1;
            let entry = &self.labels[i];
            if str_eq(entry.0.as_str(), label) {
                proof {
                    lemma_label_map_found(self.labels@, i as int, label@);
                }
                return Some(entry.1);
            }
        }
        proof {
            lemma_label_map_skip(self.labels@, 0, label@);
            assert(self.labels@.take(0) =~= Seq::<(String, u64)>::empty());
        }
        None
    }

    /// How many instructions the program holds.
    pub fn len(&self) -> (n: usize)
        ensures
            n == self.commands().len(),
    {
        self.program.len()
    }

    /// The instruction at an address.
    pub fn command_at(&self, i: usize) -> (c: &Command)
        requires
            i < self.commands().len(),
        ensures
            *c == self.commands()[i as int],
    {
        &self.program[i]
    }
}

} // verus!
