//! A table from symbol names to 16-bit addresses, filled in insertion order:
//! a later entry for a name overrides an earlier one.
use vstd::prelude::*;

verus! {

/// The map that a sequence of `(name, address)` entries denotes, later entries
/// overriding earlier ones.
pub open spec fn entries_map(s: Seq<(String, u16)>) -> Map<Seq<char>, u16>
    decreases s.len(),
{
    if s.len() == 0 {
        Map::empty()
    } else {
        entries_map(s.drop_last()).insert(s.last().0@, s.last().1)
    }
}

pub struct SymbolTable {
    entries: Vec<(String, u16)>,
}

impl View for SymbolTable {
    type V = Map<Seq<char>, u16>;

    closed spec fn view(&self) -> Map<Seq<char>, u16> {
        entries_map(self.entries@)
    }
}

proof fn lemma_entries_map_push(s: Seq<(String, u16)>, e: (String, u16))
    ensures
        entries_map(s.push(e)) == entries_map(s).insert(e.0@, e.1),
{
    assert(s.push(e).drop_last() =~= s);
}

/// Entries after position `i` that do not name `k` leave the meaning of `k` unchanged.
proof fn lemma_entries_map_suffix(s: Seq<(String, u16)>, i: int, k: Seq<char>)
    requires
        0 <= i <= s.len(),
        forall|j: int| i <= j < s.len() ==> (#[trigger] s[j]).0@ != k,
    ensures
        entries_map(s).contains_key(k) == entries_map(s.take(i)).contains_key(k),
        entries_map(s).contains_key(k) ==> entries_map(s)[k] == entries_map(s.take(i))[k],
    decreases s.len() - i,
{
    if i < s.len() {
        lemma_entries_map_suffix(s.drop_last(), i, k);
        assert(s.drop_last().take(i) =~= s.take(i));
    } else {
        assert(s.take(i) =~= s);
    }
}

proof fn lemma_entries_map_concat(a: Seq<(String, u16)>, b: Seq<(String, u16)>)
    ensures
        entries_map(a + b) == entries_map(a).union_prefer_right(entries_map(b)),
    decreases b.len(),
{
    if b.len() == 0 {
        assert(a + b =~= a);
        assert(entries_map(a).union_prefer_right(entries_map(b)) =~= entries_map(a));
    } else {
        lemma_entries_map_concat(a, b.drop_last());
        assert((a + b).drop_last() =~= a + b.drop_last());
        assert(entries_map(a + b) =~= entries_map(a).union_prefer_right(entries_map(b)));
    }
}

impl SymbolTable {
    /// An empty table.
    pub fn new() -> (t: SymbolTable)
        ensures
            t@ == Map::<Seq<char>, u16>::empty(),
    {
        SymbolTable { entries: Vec::new() }
    }

    /// Sets the address of `name`, replacing any earlier one.
    pub fn insert(&mut self, name: String, address: u16)
        ensures
            final(self)@ == old(self)@.insert(name@, address),
    {
        proof {
            lemma_entries_map_push(self.entries@, (name, address));
        }
        self.entries.push((name, address));
    }

    /// The address of `name`, if the table has one.
    pub fn get(&self, name: &String) -> (r: Option<u16>)
        ensures
            r == (if self@.contains_key(name@) { Some(self@[name@]) } else { None }),
    {
        let mut i = self.entries.len();
        while i > 0
            invariant
                i <= self.entries.len(),
                forall|j: int| i <= j < self.entries@.len() ==> (#[trigger] self.entries@[j]).0@ != name@,
            decreases i,
        {
            if self.entries[i - 1].0 == *name {
                proof {
                    let s = self.entries@;
                    lemma_entries_map_suffix(s, i as int, name@);
                    assert(s.take(i as int).drop_last() =~= s.take(i - 1));
                }
                return Some(self.entries[i - 1].1);
            }
            i = i - 1;
        }
        proof {
            lemma_entries_map_suffix(self.entries@, 0, name@);
        }
        None
    }

    pub fn contains_key(&self, name: &String) -> (b: bool)
        ensures
            b == self@.contains_key(name@),
    {
        self.get(name).is_some()
    }

    /// Adds every entry of `other`, its addresses overriding those already here.
    pub fn extend(&mut self, other: &SymbolTable)
        ensures
            final(self)@ == old(self)@.union_prefer_right(other@),
    {
        let ghost start = self.entries@;
        let mut i: usize = 0;
        while i < other.entries.len()
            invariant
                i <= other.entries.len(),
                self.entries@ == start + other.entries@.take(i as int),
            decreases other.entries.len() - i,
        {
            let name = other.entries[i].0.clone();
            let address = other.entries[i].1;
            self.entries.push((name, address));
            assert(other.entries@.take(i + 1) =~= other.entries@.take(i as int).push(other.entries@[i as int]));
            i = i + 1;
        }
        proof {
            assert(other.entries@.take(other.entries@.len() as int) =~= other.entries@);
            lemma_entries_map_concat(start, other.entries@);
        }
    }
}

} // verus!
