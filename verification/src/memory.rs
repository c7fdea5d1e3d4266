//! The memory of a run, with each value held once.
//!
//! An address holds a memory id. A small value, one that fits a limb, has
//! an id below `2^31`, its place in the table of small values; any other has
//! `2^31` plus its place in the table of big values. Each table lists its
//! values in the order in which the addresses first hold them.

use vstd::prelude::*;

use crate::felt252::{Felt252, LIMB_BOUND};

verus! {

/// The bit of a memory id that tells a big value from a small one.
pub const BIG_ID_FLAG: u32 = 0x8000_0000;

/// The number of ids of either kind.
pub const ID_CAPACITY: usize = 0x8000_0000;

/// A value of the memory.
#[derive(Clone, Copy, Debug)]
pub enum MemoryValue {
    /// A value that fits one limb.
    Small(u32),
    /// Any other value.
    Big(Felt252),
}

/// The small values that the cells hold, each once, in the order in which
/// the addresses first hold them.
pub open spec fn small_table(cells: Seq<Option<Felt252>>) -> Seq<u32>
    decreases cells.len(),
{
    if cells.len() == 0 {
        Seq::empty()
    } else {
        let before = small_table(cells.drop_last());
        match cells.last() {
            Some(v) => if v@ < LIMB_BOUND && !before.contains(v@ as u32) {
                before.push(v@ as u32)
            } else {
                before
            },
            None => before,
        }
    }
}

/// The big values that the cells hold, each once by its words, in the order
/// in which the addresses first hold them.
pub open spec fn big_table(cells: Seq<Option<Felt252>>) -> Seq<Seq<u32>>
    decreases cells.len(),
{
    if cells.len() == 0 {
        Seq::empty()
    } else {
        let before = big_table(cells.drop_last());
        match cells.last() {
            Some(v) => if v@ >= LIMB_BOUND && !before.contains(v.words@) {
                before.push(v.words@)
            } else {
                before
            },
            None => before,
        }
    }
}

/// The words of each value of a table.
pub open spec fn table_words(values: Seq<Felt252>) -> Seq<Seq<u32>> {
    values.map_values(|v: Felt252| v.words@)
}

/// The tables of a prefix of the cells, one cell longer.
pub proof fn lemma_tables_step(cells: Seq<Option<Felt252>>, i: int)
    requires
        0 <= i < cells.len(),
    ensures
        small_table(cells.take(i + 1)) == match cells[i] {
            Some(v) => if v@ < LIMB_BOUND && !small_table(cells.take(i)).contains(v@ as u32) {
                small_table(cells.take(i)).push(v@ as u32)
            } else {
                small_table(cells.take(i))
            },
            None => small_table(cells.take(i)),
        },
        big_table(cells.take(i + 1)) == match cells[i] {
            Some(v) => if v@ >= LIMB_BOUND && !big_table(cells.take(i)).contains(v.words@) {
                big_table(cells.take(i)).push(v.words@)
            } else {
                big_table(cells.take(i))
            },
            None => big_table(cells.take(i)),
        },
{
    assert(cells.take(i + 1).drop_last() =~= cells.take(i));
}

/// The table of small values holds values below the limb bound, none twice,
/// so it is no longer than the bound.
pub proof fn lemma_small_table(cells: Seq<Option<Felt252>>)
    ensures
        small_table(cells).no_duplicates(),
        forall|i: int| 0 <= i < small_table(cells).len() ==> #[trigger] small_table(cells)[i] < LIMB_BOUND,
        small_table(cells).len() <= LIMB_BOUND,
    decreases cells.len(),
{
    let table = small_table(cells);
    if cells.len() > 0 {
        lemma_small_table(cells.drop_last());
        match cells.last() {
            Some(v) => {
                if v@ < LIMB_BOUND {
                    crate::felt252::lemma_value_dominates(v);
                }
            },
            None => {},
        }
    }
    table.unique_seq_to_set();
    vstd::seq_lib::seq_to_set_is_finite(table);
    let ints = vstd::set_lib::set_int_range(0, LIMB_BOUND as int);
    vstd::set_lib::lemma_int_range(0, LIMB_BOUND as int);
    let widen = |x: u32| x as int;
    let widened = table.to_set().map(widen);
    assert(vstd::relations::injective_on(widen, table.to_set()));
    vstd::set_lib::lemma_map_size(table.to_set(), widened, widen);
    assert(widened.subset_of(ints)) by {
        assert forall|y: int| widened.contains(y) implies ints.contains(y) by {
            let x = choose|x: u32| table.to_set().contains(x) && widen(x) == y;
            let i = choose|i: int| 0 <= i < table.len() && table[i] == x;
            assert(table[i] < LIMB_BOUND);
        }
    }
    vstd::set_lib::lemma_len_subset(widened, ints);
}

/// The table of big values holds no words twice.
pub proof fn lemma_big_table(cells: Seq<Option<Felt252>>)
    ensures
        big_table(cells).no_duplicates(),
    decreases cells.len(),
{
    if cells.len() > 0 {
        lemma_big_table(cells.drop_last());
    }
}

/// A table of a prefix of the cells is no longer than the table of them all.
pub proof fn lemma_big_table_grows(cells: Seq<Option<Felt252>>, i: int)
    requires
        0 <= i <= cells.len(),
    ensures
        big_table(cells.take(i)).len() <= big_table(cells).len(),
    decreases cells.len() - i,
{
    if i == cells.len() {
        assert(cells.take(i) =~= cells);
    } else {
        lemma_tables_step(cells, i);
        lemma_big_table_grows(cells, i + 1);
    }
}

/// Each value of the table of small values stands at some address.
pub proof fn lemma_small_value_has_address(cells: Seq<Option<Felt252>>, i: int) -> (a: int)
    requires
        0 <= i < small_table(cells).len(),
    ensures
        0 <= a < cells.len(),
        cells[a] matches Some(v) && v@ < LIMB_BOUND && v@ == small_table(cells)[i],
    decreases cells.len(),
{
    if i < small_table(cells.drop_last()).len() {
        lemma_small_value_has_address(cells.drop_last(), i)
    } else {
        crate::felt252::lemma_value_dominates(cells.last()->Some_0);
        cells.len() - 1
    }
}

/// Each value of the table of big values stands at some address.
pub proof fn lemma_big_value_has_address(cells: Seq<Option<Felt252>>, i: int) -> (a: int)
    requires
        0 <= i < big_table(cells).len(),
    ensures
        0 <= a < cells.len(),
        cells[a] matches Some(v) && v@ >= LIMB_BOUND && v.words@ == big_table(cells)[i],
    decreases cells.len(),
{
    if i < big_table(cells.drop_last()).len() {
        lemma_big_value_has_address(cells.drop_last(), i)
    } else {
        cells.len() - 1
    }
}

/// In the tables `small` and `big`, `id` is the id of the value `v`.
pub open spec fn id_holds(small: Seq<u32>, big: Seq<Seq<u32>>, id: u32, v: Felt252) -> bool {
    if v@ < LIMB_BOUND {
        id < small.len() && small[id as int] == v@
    } else {
        id >= BIG_ID_FLAG && id - BIG_ID_FLAG < big.len() && big[id - BIG_ID_FLAG] == v.words@
    }
}

/// The memory of a run: the id at each address that holds a value, and the
/// tables of the values.
#[derive(Debug)]
pub struct Memory {
    pub address_to_id: Vec<Option<u32>>,
    pub small_values: Vec<u32>,
    pub big_values: Vec<Felt252>,
}

/// The position at which a table of small values holds `x`.
fn find_small(table: &Vec<u32>, x: u32) -> (r: Option<usize>)
    ensures
        r matches Some(i) ==> i < table@.len() && table@[i as int] == x,
        r is None ==> !table@.contains(x),
{
    let mut i: usize = 0;
    while i < table.len()
        invariant
            0 <= i <= table@.len(),
            forall|k: int| 0 <= k < i ==> table@[k] != x,
        decreases table@.len() - i,
    {
        if table[i] == x {
            return Some(i);
        }
        i = i + 1;
    }
    None
}

/// The position at which a table of big values holds the words of `v`.
fn find_big(table: &Vec<Felt252>, v: &Felt252) -> (r: Option<usize>)
    ensures
        r matches Some(i) ==> i < table@.len() && table@[i as int].words@ == v.words@,
        r is None ==> !table_words(table@).contains(v.words@),
{
    let mut i: usize = 0;
    while i < table.len()
        invariant
            0 <= i <= table@.len(),
            forall|k: int| 0 <= k < i ==> table@[k].words@ != v.words@,
        decreases table@.len() - i,
    {
        if table[i].same(v) {
            return Some(i);
        }
        i = i + 1;
    }
    None
}

impl Memory {
    /// The ids at the addresses point into the tables, and no table holds a
    /// value twice.
    pub open spec fn wf(&self) -> bool {
        &&& self.small_values@.no_duplicates()
        &&& table_words(self.big_values@).no_duplicates()
        &&& self.small_values@.len() <= LIMB_BOUND
        &&& self.big_values@.len() <= ID_CAPACITY
        &&& forall|a: int|
            0 <= a < self.address_to_id@.len() ==> match #[trigger] self.address_to_id@[a] {
                Some(id) => id < self.small_values@.len() || (id >= BIG_ID_FLAG && id - BIG_ID_FLAG
                    < self.big_values@.len()),
                None => true,
            }
    }

    /// This is the memory of `cells`, the values by address: the tables list
    /// their values in first-seen order, and each address that holds a value
    /// has the id of that value.
    pub open spec fn holds(&self, cells: Seq<Option<Felt252>>) -> bool {
        &&& self.small_values@ == small_table(cells)
        &&& table_words(self.big_values@) == big_table(cells)
        &&& self.address_to_id@.len() == cells.len()
        &&& forall|a: int|
            0 <= a < cells.len() ==> match #[trigger] cells[a] {
                Some(v) => self.address_to_id@[a] matches Some(id) && id_holds(
                    self.small_values@,
                    table_words(self.big_values@),
                    id,
                    v,
                ),
                None => self.address_to_id@[a] is None,
            }
    }

    /// The memory of a run from its cells, the values by address. There is
    /// none where the big values are more than the ids for them.
    pub fn from_relocated(cells: &Vec<Option<Felt252>>) -> (r: Option<Memory>)
        ensures
            r is None <==> big_table(cells@).len() > ID_CAPACITY,
            r matches Some(memory) ==> memory.holds(cells@) && memory.wf(),
    {
        let mut memory = Memory {
            address_to_id: Vec::new(),
            small_values: Vec::new(),
            big_values: Vec::new(),
        };
        let mut a: usize = 0;
        assert(table_words(memory.big_values@) =~= big_table(cells@.take(0)));
        while a < cells.len()
            invariant
                0 <= a <= cells@.len(),
                memory.holds(cells@.take(a as int)),
                memory.big_values@.len() <= ID_CAPACITY,
            decreases cells@.len() - a,
        {
            let ghost before = cells@.take(a as int);
            let ghost after = cells@.take(a + 1);
            proof {
                lemma_tables_step(cells@, a as int);
                lemma_small_table(after);
                assert forall|k: int| 0 <= k < a implies after[k] == before[k] by {}
            }
            let ghost old_memory = memory;
            match &cells[a] {
                Some(v) => {
                    assert(cells@[a as int] == Some(*v));
                    if v.is_small() {
                        proof {
                            crate::felt252::lemma_value_dominates(*v);
                            crate::felt252::lemma_small_value(*v);
                        }
                        let x: u32 = v.words[0];
                        let id: usize = match find_small(&memory.small_values, x) {
                            Some(i) => {
                                assert(memory.small_values@.contains(x));
                                i
                            },
                            None => {
                                memory.small_values.push(x);
                                memory.small_values.len() - 1
                            },
                        };
                        memory.address_to_id.push(Some(id as u32));
                        assert(memory.small_values@ == small_table(after));
                        assert(id_holds(
                            memory.small_values@,
                            table_words(memory.big_values@),
                            id as u32,
                            *v,
                        ));
                    } else {
                        let id: usize = match find_big(&memory.big_values, v) {
                            Some(i) => {
                                assert(table_words(memory.big_values@)[i as int] == v.words@);
                                assert(table_words(memory.big_values@).contains(v.words@));
                                i
                            },
                            None => {
                                if memory.big_values.len() >= ID_CAPACITY {
                                    proof {
                                        lemma_big_table_grows(cells@, a + 1);
                                    }
                                    return None;
                                }
                                let ghost words = table_words(memory.big_values@);
                                memory.big_values.push(*v);
                                assert(table_words(memory.big_values@) =~= words.push(v.words@));
                                memory.big_values.len() - 1
                            },
                        };
                        memory.address_to_id.push(Some(BIG_ID_FLAG + id as u32));
                        assert(table_words(memory.big_values@) == big_table(after));
                        assert(table_words(memory.big_values@)[id as int] == v.words@);
                        assert(id_holds(
                            memory.small_values@,
                            table_words(memory.big_values@),
                            (BIG_ID_FLAG + id) as u32,
                            *v,
                        ));
                    }
                },
                None => {
                    memory.address_to_id.push(None);
                },
            }
            proof {
                assert forall|k: int| 0 <= k < after.len() implies match #[trigger] after[k] {
                    Some(v) => memory.address_to_id@[k] matches Some(id) && id_holds(
                        memory.small_values@,
                        table_words(memory.big_values@),
                        id,
                        v,
                    ),
                    None => memory.address_to_id@[k] is None,
                } by {
                    if k < a {
                        assert(after[k] == before[k]);
                        assert(memory.address_to_id@[k] == old_memory.address_to_id@[k]);
                        match before[k] {
                            Some(v) => {
                                let id = old_memory.address_to_id@[k]->Some_0;
                                assert(id_holds(
                                    old_memory.small_values@,
                                    table_words(old_memory.big_values@),
                                    id,
                                    v,
                                ));
                                if v@ >= LIMB_BOUND {
                                    assert(table_words(memory.big_values@)[id - BIG_ID_FLAG]
                                        == table_words(old_memory.big_values@)[id - BIG_ID_FLAG]);
                                } else {
                                    assert(memory.small_values@[id as int]
                                        == old_memory.small_values@[id as int]);
                                }
                            },
                            None => {},
                        }
                    }
                }
            }
            a = a + 1;
        }
        proof {
            assert(cells@.take(cells@.len() as int) =~= cells@);
            memory.lemma_holds_wf(cells@);
        }
        Some(memory)
    }

    /// The memory of cells is well formed, where its big values are no more
    /// than the ids for them.
    pub proof fn lemma_holds_wf(&self, cells: Seq<Option<Felt252>>)
        requires
            self.holds(cells),
            self.big_values@.len() <= ID_CAPACITY,
        ensures
            self.wf(),
    {
        lemma_small_table(cells);
        lemma_big_table(cells);
        assert forall|a: int| 0 <= a < self.address_to_id@.len() implies match #[trigger] self.address_to_id@[a] {
            Some(id) => id < self.small_values@.len() || (id >= BIG_ID_FLAG && id - BIG_ID_FLAG
                < self.big_values@.len()),
            None => true,
        } by {
            match cells[a] {
                Some(v) => {},
                None => {},
            }
        }
    }

    /// The ids that the tables hold a value for.
    pub open spec fn table_ids(&self) -> Set<u32> {
        Set::new(
            |id: u32|
                id < self.small_values@.len() || (id >= BIG_ID_FLAG && id - BIG_ID_FLAG
                    < self.big_values@.len()),
        )
    }

    /// The ids that stand at some address.
    pub open spec fn address_ids(&self) -> Set<u32> {
        Set::new(
            |id: u32|
                exists|a: int|
                    0 <= a < self.address_to_id@.len() && #[trigger] self.address_to_id@[a] == Some(
                        id,
                    ),
        )
    }

    /// The ids of the tables are the ids at the addresses: each address has
    /// an id with a value, and each value is that of some address.
    pub proof fn lemma_ids_are_referenced(&self, cells: Seq<Option<Felt252>>)
        requires
            self.holds(cells),
            self.big_values@.len() <= ID_CAPACITY,
        ensures
            self.table_ids() == self.address_ids(),
    {
        self.lemma_holds_wf(cells);
        assert forall|id: u32| self.table_ids().contains(id) implies self.address_ids().contains(
            id,
        ) by {
            if id < self.small_values@.len() {
                let a = lemma_small_value_has_address(cells, id as int);
                let v = cells[a]->Some_0;
                let at = self.address_to_id@[a]->Some_0;
                assert(self.small_values@[at as int] == self.small_values@[id as int]);
                assert(self.address_to_id@[a] == Some(id));
            } else {
                let place = id - BIG_ID_FLAG;
                let a = lemma_big_value_has_address(cells, place);
                let v = cells[a]->Some_0;
                let at = self.address_to_id@[a]->Some_0;
                assert(table_words(self.big_values@)[at - BIG_ID_FLAG] == table_words(
                    self.big_values@,
                )[place]);
                assert(self.address_to_id@[a] == Some(id));
            }
        }
        assert forall|id: u32| self.address_ids().contains(id) implies self.table_ids().contains(
            id,
        ) by {
            let a = choose|a: int|
                0 <= a < self.address_to_id@.len() && #[trigger] self.address_to_id@[a] == Some(id);
            assert(self.address_to_id@[a] == Some(id));
        }
        assert(self.table_ids() =~= self.address_ids());
    }

    /// Two addresses have the same id where, and only where, they hold the
    /// same value.
    pub proof fn lemma_same_id_same_value(&self, cells: Seq<Option<Felt252>>, a: int, b: int)
        requires
            self.holds(cells),
            self.big_values@.len() <= ID_CAPACITY,
            0 <= a < cells.len(),
            0 <= b < cells.len(),
            cells[a] is Some,
            cells[b] is Some,
        ensures
            self.address_to_id@[a] == self.address_to_id@[b] <==> cells[a]->Some_0.words@
                == cells[b]->Some_0.words@,
    {
        self.lemma_holds_wf(cells);
        let v = cells[a]->Some_0;
        let w = cells[b]->Some_0;
        let i = self.address_to_id@[a]->Some_0;
        let j = self.address_to_id@[b]->Some_0;
        if v@ < LIMB_BOUND {
            crate::felt252::lemma_value_dominates(v);
            crate::felt252::lemma_small_value(v);
        }
        if w@ < LIMB_BOUND {
            crate::felt252::lemma_value_dominates(w);
            crate::felt252::lemma_small_value(w);
        }
        if v@ < LIMB_BOUND && w@ < LIMB_BOUND {
            if v.words@[0] == w.words@[0] {
                assert(v.words@ =~= w.words@);
            }
        }
        if v@ >= LIMB_BOUND && w@ >= LIMB_BOUND {
            if v.words@ == w.words@ {
                assert(table_words(self.big_values@)[i - BIG_ID_FLAG] == table_words(
                    self.big_values@,
                )[j - BIG_ID_FLAG]);
            }
        }
    }

    /// Cells have one memory: two memories of the same cells have the same
    /// tables and the same id at each address.
    pub proof fn lemma_memory_is_determined(&self, other: &Memory, cells: Seq<Option<Felt252>>)
        requires
            self.holds(cells),
            other.holds(cells),
            self.big_values@.len() <= ID_CAPACITY,
        ensures
            self.small_values@ == other.small_values@,
            table_words(self.big_values@) == table_words(other.big_values@),
            self.address_to_id@ == other.address_to_id@,
    {
        self.lemma_holds_wf(cells);
        assert(table_words(other.big_values@).len() == other.big_values@.len());
        assert(table_words(self.big_values@).len() == self.big_values@.len());
        assert forall|a: int| 0 <= a < cells.len() implies self.address_to_id@[a]
            == other.address_to_id@[a] by {
            match cells[a] {
                Some(v) => {
                    let i = self.address_to_id@[a]->Some_0;
                    let j = other.address_to_id@[a]->Some_0;
                    if v@ < LIMB_BOUND {
                        assert(self.small_values@[i as int] == self.small_values@[j as int]);
                    } else {
                        assert(table_words(self.big_values@)[i - BIG_ID_FLAG] == table_words(
                            self.big_values@,
                        )[j - BIG_ID_FLAG]);
                    }
                },
                None => {},
            }
        }
        assert(self.address_to_id@ =~= other.address_to_id@);
    }

    /// The id at an address, where the address holds a value.
    pub fn id_at(&self, address: u64) -> (r: Option<u32>)
        ensures
            r == if address < self.address_to_id@.len() {
                self.address_to_id@[address as int]
            } else {
                None
            },
    {
        if address < self.address_to_id.len() as u64 {
            self.address_to_id[address as usize]
        } else {
            None
        }
    }

    /// The value of an id, where the tables hold one for it.
    pub fn value_of(&self, id: u32) -> (r: Option<MemoryValue>)
        ensures
            r == if id < BIG_ID_FLAG {
                if id < self.small_values@.len() {
                    Some(MemoryValue::Small(self.small_values@[id as int]))
                } else {
                    None
                }
            } else {
                if id - BIG_ID_FLAG < self.big_values@.len() {
                    Some(MemoryValue::Big(self.big_values@[id - BIG_ID_FLAG]))
                } else {
                    None
                }
            },
    {
        if id < BIG_ID_FLAG {
            if (id as usize) < self.small_values.len() {
                Some(MemoryValue::Small(self.small_values[id as usize]))
            } else {
                None
            }
        } else {
            let place: usize = (id - BIG_ID_FLAG) as usize;
            if place < self.big_values.len() {
                Some(MemoryValue::Big(self.big_values[place]))
            } else {
                None
            }
        }
    }

    /// The value at an address, where the address holds one.
    pub fn get(&self, address: u64) -> (r: Option<MemoryValue>)
        requires
            self.wf(),
        ensures
            r is Some <==> address < self.address_to_id@.len() && self.address_to_id@[address as int] is Some,
            r matches Some(MemoryValue::Small(x)) ==> self.address_to_id@[address as int] matches Some(
                id,
            ) && id < self.small_values@.len() && self.small_values@[id as int] == x,
            r matches Some(MemoryValue::Big(v)) ==> self.address_to_id@[address as int] matches Some(
                id,
            ) && id >= BIG_ID_FLAG && self.big_values@[id - BIG_ID_FLAG] == v,
    {
        proof {
            lemma_small_table(Seq::empty());
        }
        match self.id_at(address) {
            Some(id) => self.value_of(id),
            None => None,
        }
    }
}

} // verus!
