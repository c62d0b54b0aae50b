//! A mapping from names to texts.

use vstd::prelude::*;
use crate::order::{lemma_name_order_transitive, lemma_name_order_trichotomy, name_lt, rank, Rank};

verus! {

/// One name with the text it stands for.
#[derive(Debug)]
pub struct Entry {
    pub name: String,
    pub text: String,
}

/// A name may head an entry when it is not empty.
pub open spec fn valid_name(name: Seq<char>) -> bool {
    name.len() > 0
}

/// The entries come in strictly increasing order of their names.
pub open spec fn strictly_sorted(entries: Seq<Entry>) -> bool {
    forall|i: int, j: int|
        0 <= i < j < entries.len() ==> name_lt(
            (#[trigger] entries[i]).name@,
            (#[trigger] entries[j]).name@,
        )
}

/// The place of the entry named `name` among `entries`.
pub open spec fn index_of(entries: Seq<Entry>, name: Seq<char>) -> int {
    choose|i: int| 0 <= i < entries.len() && (#[trigger] entries[i]).name@ == name
}

/// Some entry is named `name`.
pub open spec fn has_name(entries: Seq<Entry>, name: Seq<char>) -> bool {
    exists|i: int| 0 <= i < entries.len() && (#[trigger] entries[i]).name@ == name
}

/// The map that a sequence of entries with distinct names stands for.
pub open spec fn entries_map(entries: Seq<Entry>) -> Map<Seq<char>, Seq<char>> {
    Map::new(
        |name: Seq<char>| has_name(entries, name),
        |name: Seq<char>| entries[index_of(entries, name)].text@,
    )
}

/// In a sorted sequence no two entries share a name, so each entry is the
/// one that the map holds under its name.
pub proof fn lemma_sorted_entry_is_mapped(entries: Seq<Entry>, i: int)
    requires
        strictly_sorted(entries),
        0 <= i < entries.len(),
    ensures
        entries_map(entries).contains_key(entries[i].name@),
        entries_map(entries)[entries[i].name@] == entries[i].text@,
        index_of(entries, entries[i].name@) == i,
{
    let name = entries[i].name@;
    let j = index_of(entries, name);
    assert(has_name(entries, name));
    lemma_name_order_trichotomy(entries[i].name@, entries[j].name@);
}

/// The name and the text of each entry, as mathematical values.
pub open spec fn entry_pairs(entries: Seq<Entry>) -> Seq<(Seq<char>, Seq<char>)> {
    entries.map_values(|entry: Entry| (entry.name@, entry.text@))
}

/// `lines` lists `map`: it holds each name of the map once, beside its text,
/// in strictly increasing order of the names.
pub open spec fn is_listing_of(
    lines: Seq<(Seq<char>, Seq<char>)>,
    map: Map<Seq<char>, Seq<char>>,
) -> bool {
    &&& forall|i: int, j: int|
        0 <= i < j < lines.len() ==> name_lt((#[trigger] lines[i]).0, (#[trigger] lines[j]).0)
    &&& forall|i: int|
        0 <= i < lines.len() ==> map.contains_pair((#[trigger] lines[i]).0, lines[i].1)
    &&& forall|name: Seq<char>| #[trigger]
        map.contains_key(name) ==> exists|i: int|
            0 <= i < lines.len() && (#[trigger] lines[i]).0 == name
}

/// The listing of `map`: its entries sorted by name.
pub open spec fn sorted_listing(map: Map<Seq<char>, Seq<char>>) -> Seq<(Seq<char>, Seq<char>)> {
    choose|lines: Seq<(Seq<char>, Seq<char>)>| is_listing_of(lines, map)
}

/// `map` after `text` has been put under each of `names`.
pub open spec fn assigned(
    map: Map<Seq<char>, Seq<char>>,
    names: Seq<Seq<char>>,
    text: Seq<char>,
) -> Map<Seq<char>, Seq<char>> {
    Map::new(
        |name: Seq<char>| map.contains_key(name) || names.contains(name),
        |name: Seq<char>|
            if names.contains(name) {
                text
            } else {
                map[name]
            },
    )
}

/// The last text put under a name is the one it stands for: an earlier
/// text under the same name leaves no trace.
pub proof fn lemma_last_insert_wins(
    map: Map<Seq<char>, Seq<char>>,
    name: Seq<char>,
    first: Seq<char>,
    second: Seq<char>,
)
    ensures
        map.insert(name, first).insert(name, second) == map.insert(name, second),
        map.insert(name, first).insert(name, second)[name] == second,
{
    assert(map.insert(name, first).insert(name, second) =~= map.insert(name, second));
}

/// Entries put under different names can be put in either order: the map,
/// and with it the listing, is the same.
pub proof fn lemma_insert_order_irrelevant(
    map: Map<Seq<char>, Seq<char>>,
    name: Seq<char>,
    text: Seq<char>,
    other_name: Seq<char>,
    other_text: Seq<char>,
)
    requires
        name != other_name,
    ensures
        map.insert(name, text).insert(other_name, other_text) == map.insert(
            other_name,
            other_text,
        ).insert(name, text),
        sorted_listing(map.insert(name, text).insert(other_name, other_text)) == sorted_listing(
            map.insert(other_name, other_text).insert(name, text),
        ),
{
    assert(map.insert(name, text).insert(other_name, other_text) =~= map.insert(
        other_name,
        other_text,
    ).insert(name, text));
}

/// Putting a text under each of `names` leaves every one of them standing
/// for that text, however often it occurs among them, and no other name
/// changed; a second text put under the same names replaces the first.
pub proof fn lemma_last_assignment_wins(
    map: Map<Seq<char>, Seq<char>>,
    names: Seq<Seq<char>>,
    first: Seq<char>,
    second: Seq<char>,
)
    ensures
        forall|i: int|
            0 <= i < names.len() ==> assigned(map, names, first).contains_pair(
                #[trigger] names[i],
                first,
            ),
        forall|name: Seq<char>|
            !names.contains(name) && map.contains_key(name) ==> assigned(
                map,
                names,
                first,
            ).contains_pair(name, #[trigger] map[name]),
        assigned(assigned(map, names, first), names, second) == assigned(map, names, second),
{
    assert(assigned(assigned(map, names, first), names, second) =~= assigned(map, names, second));
}

/// Every name of the map may head an entry.
pub open spec fn names_valid(map: Map<Seq<char>, Seq<char>>) -> bool {
    forall|name: Seq<char>| map.contains_key(name) ==> valid_name(name)
}

/// Every one of `names` may head an entry.
pub open spec fn all_valid(names: Seq<Seq<char>>) -> bool {
    forall|i: int| 0 <= i < names.len() ==> valid_name(#[trigger] names[i])
}

/// Two listings of one map agree on their first `n` lines.
proof fn lemma_listings_agree_upto(
    first: Seq<(Seq<char>, Seq<char>)>,
    second: Seq<(Seq<char>, Seq<char>)>,
    map: Map<Seq<char>, Seq<char>>,
    n: nat,
)
    requires
        is_listing_of(first, map),
        is_listing_of(second, map),
        n <= first.len(),
    ensures
        n <= second.len(),
        first.take(n as int) == second.take(n as int),
    decreases n,
{
    if n == 0 {
        assert(first.take(0) =~= second.take(0));
    } else {
        let i = n - 1;
        lemma_listings_agree_upto(first, second, map, i as nat);
        assert forall|j: int| 0 <= j < i implies first[j] == second[j] by {
            assert(first.take(i)[j] == second.take(i)[j]);
        }
        let name = first[i].0;
        assert(map.contains_key(name));
        let p = choose|p: int| 0 <= p < second.len() && (#[trigger] second[p]).0 == name;
        if p < i {
            assert(first[p].0 == name);
            lemma_name_order_trichotomy(name, name);
        }
        let other = second[i].0;
        assert(map.contains_key(other));
        let q = choose|q: int| 0 <= q < first.len() && (#[trigger] first[q]).0 == other;
        if q < i {
            assert(second[q].0 == other);
            lemma_name_order_trichotomy(other, other);
        }
        if p > i {
            lemma_name_order_trichotomy(other, name);
        }
        assert(p == i);
        assert(first[i] == second[i]);
        assert(first.take(n as int) =~= second.take(n as int));
    }
}

/// A map has at most one listing: which entries are listed, and in what
/// order, depends on nothing but the map.
pub proof fn lemma_listing_unique(
    first: Seq<(Seq<char>, Seq<char>)>,
    second: Seq<(Seq<char>, Seq<char>)>,
    map: Map<Seq<char>, Seq<char>>,
)
    requires
        is_listing_of(first, map),
        is_listing_of(second, map),
    ensures
        first == second,
{
    lemma_listings_agree_upto(first, second, map, first.len());
    lemma_listings_agree_upto(second, first, map, second.len());
    assert(first =~= first.take(first.len() as int));
    assert(second =~= second.take(second.len() as int));
}

/// Sorted entries list the map they stand for.
pub proof fn lemma_sorted_entries_list_map(entries: Seq<Entry>)
    requires
        strictly_sorted(entries),
    ensures
        is_listing_of(entry_pairs(entries), entries_map(entries)),
        sorted_listing(entries_map(entries)) == entry_pairs(entries),
{
    let lines = entry_pairs(entries);
    let map = entries_map(entries);
    assert forall|i: int| 0 <= i < lines.len() implies map.contains_pair(
        (#[trigger] lines[i]).0,
        lines[i].1,
    ) by {
        lemma_sorted_entry_is_mapped(entries, i);
    }
    assert forall|name: Seq<char>| #[trigger] map.contains_key(name) implies exists|i: int|
        0 <= i < lines.len() && (#[trigger] lines[i]).0 == name by {
        let i = index_of(entries, name);
        assert(lines[i].0 == name);
    }
    assert(is_listing_of(lines, map));
    lemma_listing_unique(sorted_listing(map), lines, map);
}

/// A store of abbreviations: each name in it stands for one text.
///
/// The entries are kept sorted by name, so no name occurs twice, and no name
/// is empty.
#[derive(Debug)]
pub struct Mapping {
    entries: Vec<Entry>,
}

impl View for Mapping {
    type V = Map<Seq<char>, Seq<char>>;

    closed spec fn view(&self) -> Map<Seq<char>, Seq<char>> {
        entries_map(self.entries@)
    }
}

impl Mapping {
    #[verifier::type_invariant]
    spec fn well_formed(&self) -> bool {
        &&& strictly_sorted(self.entries@)
        &&& forall|i: int|
            0 <= i < self.entries@.len() ==> valid_name((#[trigger] self.entries@[i]).name@)
    }

    /// A mapping without entries.
    pub fn new() -> (m: Mapping)
        ensures
            m@ == Map::<Seq<char>, Seq<char>>::empty(),
    {
        let m = Mapping { entries: Vec::new() };
        assert(m@ =~= Map::<Seq<char>, Seq<char>>::empty());
        m
    }

    /// The entries, sorted by name.
    pub fn entries(&self) -> (entries: &Vec<Entry>)
        ensures
            entry_pairs(entries@) == sorted_listing(self@),
            is_listing_of(entry_pairs(entries@), self@),
            entries_map(entries@) == self@,
            strictly_sorted(entries@),
            names_valid(self@),
    {
        proof {
            use_type_invariant(self);
            lemma_sorted_entries_list_map(self.entries@);
            assert forall|name: Seq<char>| self@.contains_key(name) implies valid_name(name) by {
                let i = index_of(self.entries@, name);
                assert(valid_name(self.entries@[i].name@));
            }
        }
        &self.entries
    }

    /// The first place whose entry is not named before `name`, and whether
    /// the entry there is named `name`. Found by bisection.
    fn locate(&self, name: &str) -> (r: (usize, bool))
        ensures
            r.0 <= self.entries@.len(),
            forall|i: int| 0 <= i < r.0 ==> name_lt((#[trigger] self.entries@[i]).name@, name@),
            forall|i: int|
                r.0 <= i < self.entries@.len() ==> !name_lt(
                    (#[trigger] self.entries@[i]).name@,
                    name@,
                ),
            r.1 <==> (r.0 < self.entries@.len() && self.entries@[r.0 as int].name@ == name@),
            r.1 <==> has_name(self.entries@, name@),
    {
        proof {
            use_type_invariant(self);
        }
        let ghost entries = self.entries@;
        let mut low: usize = 0;
        let mut high: usize = self.entries.len();
        while low < high
            invariant
                low <= high <= entries.len(),
                entries == self.entries@,
                strictly_sorted(entries),
                forall|k: int| 0 <= k < low ==> name_lt((#[trigger] entries[k]).name@, name@),
                forall|k: int|
                    high <= k < entries.len() ==> name_lt(name@, (#[trigger] entries[k]).name@),
            decreases high - low,
        {
            let mid: usize = low + (high - low) / 2;
            match rank(self.entries[mid].name.as_str(), name) {
                Rank::Before => {
                    proof {
                        assert forall|k: int| 0 <= k < mid + 1 implies name_lt(
                            (#[trigger] entries[k]).name@,
                            name@,
                        ) by {
                            if k < mid {
                                lemma_name_order_transitive(
                                    entries[k].name@,
                                    entries[mid as int].name@,
                                    name@,
                                );
                            }
                        }
                    }
                    low = mid + 1;
                },
                Rank::Same => {
                    proof {
                        assert forall|k: int| mid <= k < entries.len() implies !name_lt(
                            (#[trigger] entries[k]).name@,
                            name@,
                        ) by {
                            lemma_name_order_trichotomy(entries[k].name@, name@);
                        }
                        assert(has_name(entries, name@));
                    }
                    return (mid, true);
                },
                Rank::After => {
                    proof {
                        lemma_name_order_trichotomy(entries[mid as int].name@, name@);
                        assert forall|k: int| mid <= k < entries.len() implies name_lt(
                            name@,
                            (#[trigger] entries[k]).name@,
                        ) by {
                            if k > mid {
                                lemma_name_order_transitive(
                                    name@,
                                    entries[mid as int].name@,
                                    entries[k].name@,
                                );
                            }
                        }
                    }
                    high = mid;
                },
            }
        }
        proof {
            assert forall|k: int| 0 <= k < entries.len() implies (#[trigger] entries[k]).name@
                != name@ && (low <= k ==> !name_lt(entries[k].name@, name@)) by {
                lemma_name_order_trichotomy(entries[k].name@, name@);
            }
        }
        (low, false)
    }

    /// The text that `name` stands for, if the mapping holds the name.
    pub fn get(&self, name: &str) -> (r: Option<&String>)
        ensures
            r is Some <==> self@.contains_key(name@),
            r matches Some(text) ==> text@ == self@[name@],
    {
        proof {
            use_type_invariant(self);
        }
        let (at, found) = self.locate(name);
        if found {
            proof {
                lemma_sorted_entry_is_mapped(self.entries@, at as int);
            }
            Some(&self.entries[at].text)
        } else {
            None
        }
    }

    /// Whether the mapping holds `name`.
    pub fn contains(&self, name: &str) -> (r: bool)
        ensures
            r == self@.contains_key(name@),
    {
        self.locate(name).1
    }

    /// Lets `name` stand for `text`, whether or not it stood for a text
    /// before.
    pub fn insert(&mut self, name: String, text: String)
        requires
            valid_name(name@),
        ensures
            final(self)@ == old(self)@.insert(name@, text@),
    {
        proof {
            use_type_invariant(&*self);
        }
        let (at, found) = self.locate(name.as_str());
        let entry = Entry { name, text };
        let mut entries: Vec<Entry> = Vec::new();
        core::mem::swap(&mut self.entries, &mut entries);
        if found {
            proof {
                lemma_replace(entries@, at as int, entry);
            }
            entries.set(at, entry);
        } else {
            proof {
                lemma_insert(entries@, at as int, entry);
            }
            entries.insert(at, entry);
        }
        self.entries = entries;
    }

    /// Lets each of `names` stand for `text`.
    pub fn assign(&mut self, names: &Vec<String>, text: &str)
        requires
            all_valid(names.deep_view()),
        ensures
            final(self)@ == assigned(old(self)@, names.deep_view(), text@),
    {
        let ghost wanted = names.deep_view();
        let ghost before = self@;
        let mut i: usize = 0;
        proof {
            assert(self@ =~= assigned(before, wanted.take(0), text@));
        }
        while i < names.len()
            invariant
                i <= names@.len(),
                wanted == names.deep_view(),
                wanted.len() == names@.len(),
                all_valid(wanted),
                self@ == assigned(before, wanted.take(i as int), text@),
            decreases names@.len() - i,
        {
            proof {
                assert(wanted[i as int] == names@[i as int]@);
                lemma_assign_one_more(before, wanted, text@, i as int);
            }
            self.insert(names[i].clone(), text.to_owned());
            i = i + 1;
        }
        proof {
            assert(wanted.take(i as int) =~= wanted);
        }
    }

    /// Whether every one of `names` may head an entry: none is empty.
    pub fn names_are_valid(names: &Vec<String>) -> (ok: bool)
        ensures
            ok == all_valid(names.deep_view()),
    {
        let ghost wanted = names.deep_view();
        let mut i: usize = 0;
        while i < names.len()
            invariant
                i <= names@.len(),
                wanted == names.deep_view(),
                wanted.len() == names@.len(),
                forall|j: int| 0 <= j < i ==> valid_name(#[trigger] wanted[j]),
            decreases names@.len() - i,
        {
            if names[i].as_str().is_empty() {
                proof {
                    assert(wanted[i as int] == names@[i as int]@);
                    assert(!valid_name(wanted[i as int]));
                }
                return false;
            }
            proof {
                assert(wanted[i as int] == names@[i as int]@);
            }
            i = i + 1;
        }
        true
    }
}

/// Putting the text under one name more is one more insertion.
proof fn lemma_assign_one_more(
    map: Map<Seq<char>, Seq<char>>,
    names: Seq<Seq<char>>,
    text: Seq<char>,
    i: int,
)
    requires
        0 <= i < names.len(),
    ensures
        assigned(map, names.take(i + 1), text) == assigned(map, names.take(i), text).insert(
            names[i],
            text,
        ),
{
    let shorter = names.take(i);
    let longer = names.take(i + 1);
    assert forall|name: Seq<char>| longer.contains(name) <==> (shorter.contains(name) || name
        == names[i]) by {
        if longer.contains(name) {
            let k = choose|k: int| 0 <= k < longer.len() && longer[k] == name;
            if k < i {
                assert(shorter[k] == name);
            }
        }
        if shorter.contains(name) {
            let k = choose|k: int| 0 <= k < shorter.len() && shorter[k] == name;
            assert(longer[k] == name);
        }
        if name == names[i] {
            assert(longer[i] == name);
        }
    }
    assert(assigned(map, longer, text) =~= assigned(map, shorter, text).insert(names[i], text));
}

/// Putting a new text under a name that is present keeps the order and
/// changes the map at that name only.
proof fn lemma_replace(entries: Seq<Entry>, at: int, entry: Entry)
    requires
        strictly_sorted(entries),
        0 <= at < entries.len(),
        entries[at].name@ == entry.name@,
    ensures
        strictly_sorted(entries.update(at, entry)),
        entries_map(entries.update(at, entry)) == entries_map(entries).insert(
            entry.name@,
            entry.text@,
        ),
{
    let after = entries.update(at, entry);
    assert(strictly_sorted(after)) by {
        assert forall|i: int, j: int| 0 <= i < j < after.len() implies name_lt(
            (#[trigger] after[i]).name@,
            (#[trigger] after[j]).name@,
        ) by {
            assert(after[i].name@ == entries[i].name@);
            assert(after[j].name@ == entries[j].name@);
        }
    }
    let old_map = entries_map(entries);
    let new_map = entries_map(after);
    assert forall|name: Seq<char>| new_map.contains_key(name) <==> #[trigger] old_map.insert(
        entry.name@,
        entry.text@,
    ).contains_key(name) by {
        if has_name(after, name) {
            let i = index_of(after, name);
            assert(entries[i].name@ == name);
        }
        if has_name(entries, name) {
            let i = index_of(entries, name);
            assert(after[i].name@ == name);
        }
        if name == entry.name@ {
            assert(after[at].name@ == name);
        }
    }
    assert forall|name: Seq<char>| new_map.contains_key(name) implies #[trigger] new_map[name]
        == old_map.insert(entry.name@, entry.text@)[name] by {
        let i = index_of(after, name);
        lemma_sorted_entry_is_mapped(after, i);
        if i != at {
            assert(entries[i].name@ == name);
            lemma_sorted_entry_is_mapped(entries, i);
            lemma_sorted_entry_is_mapped(entries, at);
        }
    }
    assert(new_map =~= old_map.insert(entry.name@, entry.text@));
}

/// Putting an entry with a new name at its place in the order keeps the
/// order and adds that name to the map.
proof fn lemma_insert(entries: Seq<Entry>, at: int, entry: Entry)
    requires
        strictly_sorted(entries),
        0 <= at <= entries.len(),
        forall|i: int| 0 <= i < at ==> name_lt((#[trigger] entries[i]).name@, entry.name@),
        forall|i: int|
            at <= i < entries.len() ==> !name_lt((#[trigger] entries[i]).name@, entry.name@),
        !has_name(entries, entry.name@),
    ensures
        strictly_sorted(entries.insert(at, entry)),
        entries_map(entries.insert(at, entry)) == entries_map(entries).insert(
            entry.name@,
            entry.text@,
        ),
{
    let after = entries.insert(at, entry);
    assert forall|i: int| at <= i < entries.len() implies name_lt(
        entry.name@,
        (#[trigger] entries[i]).name@,
    ) by {
        lemma_name_order_trichotomy(entry.name@, entries[i].name@);
    }
    assert(strictly_sorted(after)) by {
        assert forall|i: int, j: int| 0 <= i < j < after.len() implies name_lt(
            (#[trigger] after[i]).name@,
            (#[trigger] after[j]).name@,
        ) by {
            let a = if i < at { i } else { i - 1 };
            let b = if j < at { j } else { j - 1 };
            if i != at {
                assert(after[i] == entries[a]);
            }
            if j != at {
                assert(after[j] == entries[b]);
            }
        }
    }
    let old_map = entries_map(entries);
    let new_map = entries_map(after);
    assert forall|name: Seq<char>| new_map.contains_key(name) <==> #[trigger] old_map.insert(
        entry.name@,
        entry.text@,
    ).contains_key(name) by {
        if has_name(after, name) {
            let i = index_of(after, name);
            if i < at {
                assert(entries[i].name@ == name);
            } else if i > at {
                assert(entries[i - 1].name@ == name);
            }
        }
        if has_name(entries, name) {
            let i = index_of(entries, name);
            if i < at {
                assert(after[i].name@ == name);
            } else {
                assert(after[i + 1].name@ == name);
            }
        }
        if name == entry.name@ {
            assert(after[at].name@ == name);
        }
    }
    assert forall|name: Seq<char>| new_map.contains_key(name) implies #[trigger] new_map[name]
        == old_map.insert(entry.name@, entry.text@)[name] by {
        let i = index_of(after, name);
        lemma_sorted_entry_is_mapped(after, i);
        if i < at {
            assert(entries[i].name@ == name);
            lemma_sorted_entry_is_mapped(entries, i);
        } else if i > at {
            assert(entries[i - 1].name@ == name);
            lemma_sorted_entry_is_mapped(entries, i - 1);
        }
    }
    assert(new_map =~= old_map.insert(entry.name@, entry.text@));
}

} // verus!
