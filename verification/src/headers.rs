//! The headers of a request: each name with its values in order of arrival.
//!
//! A name may come more than once in a head. Its values are kept together,
//! the first apart from the later ones, and none is dropped. Names are told
//! apart exactly as they were received.

use vstd::prelude::*;

verus! {

/// The values that came under one name.
#[derive(Debug, Clone, PartialEq, Eq)]
pub struct HeaderValues {
    /// The value of the first line with this name.
    pub first: Vec<u8>,
    /// The values of the later lines with this name, where there are any.
    pub others: Option<Vec<Vec<u8>>>,
}

/// A list of byte strings as a sequence of sequences.
pub open spec fn byte_strings(list: Seq<Vec<u8>>) -> Seq<Seq<u8>> {
    Seq::new(list.len(), |i: int| list[i]@)
}

impl HeaderValues {
    /// All values, in the order in which they came.
    pub open spec fn all(&self) -> Seq<Seq<u8>> {
        match self.others {
            Some(list) => seq![self.first@] + byte_strings(list@),
            None => seq![self.first@],
        }
    }
}

/// The values a name has after one more line with it: those it had, then the
/// new one.
pub open spec fn with_value(
    map: Map<Seq<char>, Seq<Seq<u8>>>,
    name: Seq<char>,
    value: Seq<u8>,
) -> Map<Seq<char>, Seq<Seq<u8>>> {
    map.insert(
        name,
        (if map.contains_key(name) {
            map[name]
        } else {
            Seq::empty()
        }).push(value),
    )
}

/// The values of every line with the given name, in order.
pub open spec fn values_of(lines: Seq<(Seq<char>, Seq<u8>)>, name: Seq<char>) -> Seq<Seq<u8>>
    decreases lines.len(),
{
    if lines.len() == 0 {
        Seq::empty()
    } else if lines.last().0 == name {
        values_of(lines.drop_last(), name).push(lines.last().1)
    } else {
        values_of(lines.drop_last(), name)
    }
}

/// Some line has the given name.
pub open spec fn has_name(lines: Seq<(Seq<char>, Seq<u8>)>, name: Seq<char>) -> bool {
    exists|i: int| 0 <= i < lines.len() && (#[trigger] lines[i]).0 == name
}

/// The header lines of a head, gathered by name.
pub open spec fn grouped(lines: Seq<(Seq<char>, Seq<u8>)>) -> Map<Seq<char>, Seq<Seq<u8>>> {
    Map::new(|name: Seq<char>| has_name(lines, name), |name: Seq<char>| values_of(lines, name))
}

/// Gathering one more line adds its value to the values of its name.
pub proof fn lemma_grouped_push(lines: Seq<(Seq<char>, Seq<u8>)>, name: Seq<char>, value: Seq<u8>)
    ensures
        grouped(lines.push((name, value))) == with_value(grouped(lines), name, value),
{
    let more = lines.push((name, value));
    assert(more.drop_last() == lines);
    lemma_values_of_none(lines, name);
    assert forall|n: Seq<char>| has_name(more, n) <==> (n == name || has_name(lines, n)) by {
        if has_name(lines, n) {
            let i = choose|i: int| 0 <= i < lines.len() && (#[trigger] lines[i]).0 == n;
            assert(more[i].0 == n);
        }
        if n == name {
            assert(more[lines.len() as int].0 == n);
        }
        if has_name(more, n) && n != name {
            let i = choose|i: int| 0 <= i < more.len() && (#[trigger] more[i]).0 == n;
            assert(lines[i].0 == n);
        }
    }
    assert(grouped(more) =~= with_value(grouped(lines), name, value));
}

/// A name that no line has, has no values.
pub proof fn lemma_values_of_none(lines: Seq<(Seq<char>, Seq<u8>)>, name: Seq<char>)
    ensures
        !has_name(lines, name) ==> values_of(lines, name) == Seq::<Seq<u8>>::empty(),
        has_name(lines, name) ==> values_of(lines, name).len() >= 1,
    decreases lines.len(),
{
    if lines.len() > 0 {
        let head = lines.drop_last();
        lemma_values_of_none(head, name);
        if has_name(head, name) {
            let i = choose|i: int| 0 <= i < head.len() && (#[trigger] head[i]).0 == name;
            assert(lines[i].0 == name);
        }
        if has_name(lines, name) && lines.last().0 != name {
            let i = choose|i: int| 0 <= i < lines.len() && (#[trigger] lines[i]).0 == name;
            assert(head[i].0 == name);
        }
        if lines.last().0 == name {
            assert(lines[lines.len() - 1].0 == name);
        }
    }
}

/// The headers of one request.
#[derive(Debug)]
pub struct Headers {
    entries: Vec<(String, HeaderValues)>,
}

/// The names of the entries.
pub open spec fn entry_names(entries: Seq<(String, HeaderValues)>) -> Seq<Seq<char>> {
    Seq::new(entries.len(), |i: int| entries[i].0@)
}

/// The index of the entry with the given name.
pub open spec fn entry_index(entries: Seq<(String, HeaderValues)>, name: Seq<char>) -> int {
    choose|i: int| 0 <= i < entries.len() && (#[trigger] entries[i]).0@ == name
}

/// Some entry has the given name.
pub open spec fn has_entry(entries: Seq<(String, HeaderValues)>, name: Seq<char>) -> bool {
    exists|i: int| 0 <= i < entries.len() && (#[trigger] entries[i]).0@ == name
}

/// The entries as a map from each name to its values.
pub open spec fn entries_map(entries: Seq<(String, HeaderValues)>) -> Map<
    Seq<char>,
    Seq<Seq<u8>>,
> {
    Map::new(
        |name: Seq<char>| has_entry(entries, name),
        |name: Seq<char>| entries[entry_index(entries, name)].1.all(),
    )
}

/// Among entries with distinct names, the entry at `i` is the one that its
/// name leads to.
pub proof fn lemma_entry_found(entries: Seq<(String, HeaderValues)>, i: int)
    requires
        entry_names(entries).no_duplicates(),
        0 <= i < entries.len(),
    ensures
        has_entry(entries, entries[i].0@),
        entry_index(entries, entries[i].0@) == i,
        entries_map(entries).contains_key(entries[i].0@),
        entries_map(entries)[entries[i].0@] == entries[i].1.all(),
{
    let name = entries[i].0@;
    let j = entry_index(entries, name);
    assert(entry_names(entries)[i] == name);
    assert(entry_names(entries)[j] == name);
}

impl Headers {
    #[verifier::type_invariant]
    spec fn distinct_names(self) -> bool {
        entry_names(self.entries@).no_duplicates()
    }

    /// The names that have values, in the order in which each came first.
    pub closed spec fn names(&self) -> Seq<Seq<char>> {
        entry_names(self.entries@)
    }

    /// No headers at all.
    pub fn new() -> (r: Headers)
        ensures
            r@ == Map::<Seq<char>, Seq<Seq<u8>>>::empty(),
            r.names() == Seq::<Seq<char>>::empty(),
    {
        let r = Headers { entries: Vec::new() };
        assert(r@ =~= Map::<Seq<char>, Seq<Seq<u8>>>::empty());
        assert(r.names() =~= Seq::<Seq<char>>::empty());
        r
    }

    /// The number of names that have values.
    pub fn len(&self) -> (r: usize)
        ensures
            r == self.names().len(),
            r == self@.dom().len(),
            self@.dom().finite(),
    {
        proof {
            use_type_invariant(self);
            let names = self.names();
            names.unique_seq_to_set();
            assert(names.to_set() =~= self@.dom()) by {
                assert forall|n: Seq<char>| names.to_set().contains(n) implies self@.dom().contains(
                    n,
                ) by {
                    let i = choose|i: int| 0 <= i < names.len() && names[i] == n;
                    assert(self.entries@[i].0@ == n);
                }
                assert forall|n: Seq<char>| self@.dom().contains(n) implies names.to_set().contains(
                    n,
                ) by {
                    let i = entry_index(self.entries@, n);
                    assert(names[i] == n);
                }
            }
        }
        self.entries.len()
    }

    /// The values that came under `name`, or `None` where no line had it.
    pub fn get(&self, name: &str) -> (r: Option<&HeaderValues>)
        ensures
            match r {
                Some(values) => self@.contains_key(name@) && values.all() == self@[name@],
                None => !self@.contains_key(name@),
            },
    {
        proof {
            use_type_invariant(self);
        }
        let wanted: String = name.to_owned();
        let mut i: usize = 0;
        while i < self.entries.len()
            invariant
                i <= self.entries@.len(),
                wanted@ == name@,
                entry_names(self.entries@).no_duplicates(),
                forall|j: int| 0 <= j < i ==> (#[trigger] self.entries@[j]).0@ != name@,
            decreases self.entries@.len() - i,
        {
            if self.entries[i].0 == wanted {
                proof {
                    lemma_entry_found(self.entries@, i as int);
                }
                return Some(&self.entries[i].1);
            }
            i += 1;
        }
        None
    }

    /// Takes one more header line: the value joins those of its name.
    pub fn add(&mut self, name: String, value: Vec<u8>)
        ensures
            final(self)@ == with_value(old(self)@, name@, value@),
    {
        proof {
            use_type_invariant(&*self);
        }
        let mut entries: Vec<(String, HeaderValues)> = Vec::new();
        core::mem::swap(&mut entries, &mut self.entries);
        let ghost before = entries@;
        let mut i: usize = 0;
        while i < entries.len()
            invariant
                i <= entries@.len(),
                entries@ == before,
                before == old(self).entries@,
                entry_names(before).no_duplicates(),
                forall|j: int| 0 <= j < i ==> (#[trigger] before[j]).0@ != name@,
            decreases entries@.len() - i,
        {
            if entries[i].0 == name {
                let (found, values) = entries.remove(i);
                let HeaderValues { first, others } = values;
                let mut list: Vec<Vec<u8>> = match others {
                    Some(list) => list,
                    None => Vec::new(),
                };
                let ghost had = byte_strings(list@);
                list.push(value);
                assert(byte_strings(list@) =~= had.push(value@));
                let grown = HeaderValues { first, others: Some(list) };
                assert(grown.all() =~= before[i as int].1.all().push(value@));
                entries.insert(i, (found, grown));
                proof {
                    let after = entries@;
                    assert(entry_names(after) =~= entry_names(before));
                    lemma_entry_found(before, i as int);
                    lemma_entry_found(after, i as int);
                    assert forall|n: Seq<char>| has_entry(after, n) <==> has_entry(before, n) by {
                        if has_entry(after, n) {
                            let j = entry_index(after, n);
                            assert(before[j].0@ == n);
                        }
                        if has_entry(before, n) {
                            let j = entry_index(before, n);
                            assert(after[j].0@ == n);
                        }
                    }
                    assert forall|n: Seq<char>| has_entry(before, n) && n != name@ implies entries_map(
                        after,
                    )[n] == entries_map(before)[n] by {
                        let j = entry_index(before, n);
                        lemma_entry_found(before, j);
                        lemma_entry_found(after, j);
                    }
                    assert(entries_map(after) =~= with_value(entries_map(before), name@, value@));
                }
                self.entries = entries;
                return ;
            }
            i += 1;
        }
        entries.push((name, HeaderValues { first: value, others: None }));
        proof {
            let after = entries@;
            let last = before.len() as int;
            assert(entry_names(after) =~= entry_names(before).push(name@));
            assert(!has_entry(before, name@));
            assert(entry_names(after).no_duplicates()) by {
                assert forall|a: int, b: int|
                    0 <= a < after.len() && 0 <= b < after.len() && a != b implies entry_names(
                    after,
                )[a] != entry_names(after)[b] by {
                    if a < last && b < last {
                        assert(entry_names(before)[a] != entry_names(before)[b]);
                    } else if a < last {
                        assert(before[a].0@ != name@);
                    } else {
                        assert(before[b].0@ != name@);
                    }
                }
            }
            lemma_entry_found(after, last);
            assert forall|n: Seq<char>| has_entry(after, n) <==> (n == name@ || has_entry(
                before,
                n,
            )) by {
                if has_entry(after, n) && n != name@ {
                    let j = entry_index(after, n);
                    assert(before[j].0@ == n);
                }
                if has_entry(before, n) {
                    let j = entry_index(before, n);
                    assert(after[j].0@ == n);
                }
            }
            assert forall|n: Seq<char>| has_entry(before, n) implies entries_map(after)[n]
                == entries_map(before)[n] by {
                let j = entry_index(before, n);
                lemma_entry_found(before, j);
                assert(after[j] == before[j]);
                lemma_entry_found(after, j);
            }
            assert(entries_map(after) =~= with_value(entries_map(before), name@, value@));
        }
        self.entries = entries;
    }
}

impl View for Headers {
    type V = Map<Seq<char>, Seq<Seq<u8>>>;

    closed spec fn view(&self) -> Map<Seq<char>, Seq<Seq<u8>>> {
        entries_map(self.entries@)
    }
}

} // verus!
