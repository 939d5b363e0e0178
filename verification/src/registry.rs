//! A keyed store whose names are unique and kept in key order.

use vstd::prelude::*;
use crate::text::key_lt;
use crate::text::lemma_key_lt_transitive;
use crate::text::lemma_key_lt_trichotomy;
use crate::text::precedes;
use crate::text::same_text;
use crate::text::texts;

verus! {

/// One named value of a registry.
pub struct Entry<V> {
    pub name: String,
    pub value: V,
}

/// Names strictly ascending in key order; so no name occurs twice.
spec fn ascending<V>(s: Seq<Entry<V>>) -> bool {
    forall|i: int, j: int| 0 <= i < j < s.len() ==> key_lt(#[trigger] s[i].name@, #[trigger] s[j].name@)
}

/// Whether some entry of `s` is named `k`.
spec fn names_key<V>(s: Seq<Entry<V>>, k: Seq<char>) -> bool {
    exists|i: int| 0 <= i < s.len() && #[trigger] s[i].name@ == k
}

/// The position of the entry named `k`.
spec fn index_of<V>(s: Seq<Entry<V>>, k: Seq<char>) -> int {
    choose|i: int| 0 <= i < s.len() && #[trigger] s[i].name@ == k
}

/// The mapping that a sequence of entries stands for.
spec fn entries_map<V: View>(s: Seq<Entry<V>>) -> Map<Seq<char>, V::V> {
    Map::new(|k: Seq<char>| names_key(s, k), |k: Seq<char>| s[index_of(s, k)].value@)
}

/// The entries as pairs of plain values, in their order.
spec fn entries_listing<V: View>(s: Seq<Entry<V>>) -> Seq<(Seq<char>, V::V)> {
    Seq::new(s.len(), |i: int| (s[i].name@, s[i].value@))
}

/// In ascending entries a name stands at one position only.
proof fn lemma_ascending_distinct<V>(s: Seq<Entry<V>>, i: int, j: int)
    requires
        ascending(s),
        0 <= i < s.len(),
        0 <= j < s.len(),
        s[i].name@ == s[j].name@,
    ensures
        i == j,
{
    lemma_key_lt_trichotomy(s[i].name@, s[j].name@);
}

/// Ascending entries bind each of their names to the value that stands with it.
proof fn lemma_entries_map_at<V: View>(s: Seq<Entry<V>>, i: int)
    requires
        ascending(s),
        0 <= i < s.len(),
    ensures
        entries_map(s).contains_key(s[i].name@),
        entries_map(s)[s[i].name@] == s[i].value@,
{
    let k = s[i].name@;
    assert(names_key(s, k));
    lemma_ascending_distinct(s, i, index_of(s, k));
}

/// Putting a new name in at its place adds one binding and keeps the rest.
proof fn lemma_entries_map_insert<V: View>(s: Seq<Entry<V>>, i: int, e: Entry<V>)
    requires
        ascending(s),
        0 <= i <= s.len(),
        forall|j: int| 0 <= j < i ==> key_lt(#[trigger] s[j].name@, e.name@),
        forall|j: int| i <= j < s.len() ==> key_lt(e.name@, #[trigger] s[j].name@),
    ensures
        ascending(s.insert(i, e)),
        entries_map(s.insert(i, e)) == entries_map(s).insert(e.name@, e.value@),
{
    let t = s.insert(i, e);
    assert forall|a: int, b: int| 0 <= a < b < t.len() implies key_lt(
        #[trigger] t[a].name@,
        #[trigger] t[b].name@,
    ) by {
        if a < i && b > i {
            assert(t[a] == s[a] && t[b] == s[b - 1]);
        } else if a > i {
            assert(t[a] == s[a - 1] && t[b] == s[b - 1]);
        }
    }
    let m = entries_map(s).insert(e.name@, e.value@);
    assert forall|k: Seq<char>| #[trigger] entries_map(t).contains_key(k) implies m.contains_key(k)
        && m[k] == entries_map(t)[k] by {
        let j = index_of(t, k);
        lemma_entries_map_at(t, j);
        if j < i {
            assert(t[j] == s[j]);
            lemma_entries_map_at(s, j);
            lemma_key_lt_trichotomy(s[j].name@, e.name@);
        } else if j > i {
            assert(t[j] == s[j - 1]);
            lemma_entries_map_at(s, j - 1);
            lemma_key_lt_trichotomy(e.name@, s[j - 1].name@);
        }
    }
    assert forall|k: Seq<char>| #[trigger] m.contains_key(k) implies entries_map(t).contains_key(k) by {
        if k == e.name@ {
            assert(t[i].name@ == k);
        } else {
            let j = index_of(s, k);
            if j < i {
                assert(t[j].name@ == k);
            } else {
                assert(t[j + 1].name@ == k);
            }
        }
    }
    assert(entries_map(t) =~= m);
}

/// Taking an entry out removes its binding and keeps the rest.
proof fn lemma_entries_map_remove<V: View>(s: Seq<Entry<V>>, i: int)
    requires
        ascending(s),
        0 <= i < s.len(),
    ensures
        ascending(s.remove(i)),
        entries_map(s.remove(i)) == entries_map(s).remove(s[i].name@),
{
    let t = s.remove(i);
    assert forall|a: int, b: int| 0 <= a < b < t.len() implies key_lt(
        #[trigger] t[a].name@,
        #[trigger] t[b].name@,
    ) by {
        let a0 = if a < i { a } else { a + 1 };
        let b0 = if b < i { b } else { b + 1 };
        assert(t[a] == s[a0] && t[b] == s[b0]);
    }
    let m = entries_map(s).remove(s[i].name@);
    assert forall|k: Seq<char>| #[trigger] entries_map(t).contains_key(k) implies m.contains_key(k)
        && m[k] == entries_map(t)[k] by {
        let j = index_of(t, k);
        lemma_entries_map_at(t, j);
        let j0 = if j < i { j } else { j + 1 };
        assert(t[j] == s[j0]);
        lemma_entries_map_at(s, j0);
        lemma_ascending_distinct(s, j0, if s[i].name@ == k { i } else { j0 });
    }
    assert forall|k: Seq<char>| #[trigger] m.contains_key(k) implies entries_map(t).contains_key(k) by {
        let j = index_of(s, k);
        if j < i {
            assert(t[j].name@ == k);
        } else {
            assert(t[j - 1].name@ == k);
        }
    }
    assert(entries_map(t) =~= m);
}

/// A listing whose names stand in strictly ascending key order.
pub open spec fn listing_ascending<T>(l: Seq<(Seq<char>, T)>) -> bool {
    forall|i: int, j: int| 0 <= i < j < l.len() ==> key_lt(#[trigger] l[i].0, #[trigger] l[j].0)
}

/// `l` lists the bindings of `m`: each once, in key order, and nothing else.
pub open spec fn lists<T>(l: Seq<(Seq<char>, T)>, m: Map<Seq<char>, T>) -> bool {
    &&& listing_ascending(l)
    &&& forall|i: int| 0 <= i < l.len() ==> m.contains_key(#[trigger] l[i].0) && m[l[i].0] == l[i].1
    &&& forall|k: Seq<char>| #[trigger] m.contains_key(k) ==> exists|i: int| 0 <= i < l.len() && #[trigger] l[i].0 == k
}

/// The mapping read from a listing in any order; of two bindings of one name the later one counts.
pub open spec fn bindings<T>(l: Seq<(Seq<char>, T)>) -> Map<Seq<char>, T>
    decreases l.len(),
{
    if l.len() == 0 {
        Map::empty()
    } else {
        bindings(l.drop_last()).insert(l.last().0, l.last().1)
    }
}

/// The names bound by a listing are the names that occur in it.
pub proof fn lemma_bindings_keys<T>(l: Seq<(Seq<char>, T)>, k: Seq<char>)
    ensures
        bindings(l).contains_key(k) <==> exists|i: int| 0 <= i < l.len() && #[trigger] l[i].0 == k,
    decreases l.len(),
{
    if l.len() > 0 {
        let p = l.drop_last();
        lemma_bindings_keys(p, k);
        if bindings(l).contains_key(k) {
            if l.last().0 == k {
                assert(l[l.len() - 1].0 == k);
            } else {
                let i = choose|i: int| 0 <= i < p.len() && #[trigger] p[i].0 == k;
                assert(l[i].0 == k);
            }
        } else if exists|i: int| 0 <= i < l.len() && #[trigger] l[i].0 == k {
            let i = choose|i: int| 0 <= i < l.len() && #[trigger] l[i].0 == k;
            assert(i < p.len());
            assert(p[i].0 == k);
        }
    }
}

/// Whether no name occurs twice in a listing.
pub open spec fn distinct_names<T>(l: Seq<(Seq<char>, T)>) -> bool {
    forall|i: int, j: int| 0 <= i < j < l.len() ==> (#[trigger] l[i]).0 != (#[trigger] l[j]).0
}

/// A listing without repeated names binds each of its names to the value that stands with it.
pub proof fn lemma_bindings_of_distinct<T>(l: Seq<(Seq<char>, T)>, i: int)
    requires
        distinct_names(l),
        0 <= i < l.len(),
    ensures
        bindings(l).contains_key(l[i].0),
        bindings(l)[l[i].0] == l[i].1,
    decreases l.len(),
{
    let p = l.drop_last();
    if i < l.len() - 1 {
        assert(forall|a: int| 0 <= a < p.len() ==> p[a] == l[a]);
        lemma_bindings_of_distinct(p, i);
        assert(l[i].0 != l[l.len() - 1].0);
    }
}

/// The order of a listing without repeated names does not matter: two such listings of the
/// same pairs are read as the same mapping.
pub proof fn lemma_bindings_any_order<T>(a: Seq<(Seq<char>, T)>, b: Seq<(Seq<char>, T)>)
    requires
        distinct_names(a),
        distinct_names(b),
        a.to_set() == b.to_set(),
    ensures
        bindings(a) == bindings(b),
{
    assert forall|k: Seq<char>| #[trigger] bindings(a).contains_key(k) implies bindings(b).contains_key(k)
        && bindings(b)[k] == bindings(a)[k] by {
        lemma_bindings_keys(a, k);
        let i = choose|i: int| 0 <= i < a.len() && #[trigger] a[i].0 == k;
        lemma_bindings_of_distinct(a, i);
        assert(a.to_set().contains(a[i]));
        assert(b.contains(a[i]));
        let j = choose|j: int| 0 <= j < b.len() && b[j] == a[i];
        lemma_bindings_of_distinct(b, j);
    }
    assert forall|k: Seq<char>| #[trigger] bindings(b).contains_key(k) implies bindings(a).contains_key(k) by {
        lemma_bindings_keys(b, k);
        let j = choose|j: int| 0 <= j < b.len() && #[trigger] b[j].0 == k;
        assert(b.to_set().contains(b[j]));
        assert(a.contains(b[j]));
        let i = choose|i: int| 0 <= i < a.len() && a[i] == b[j];
        lemma_bindings_of_distinct(a, i);
    }
    assert(bindings(a) =~= bindings(b));
}

/// Reading back the listing of a mapping gives the mapping again.
pub proof fn lemma_listing_round_trip<T>(l: Seq<(Seq<char>, T)>, m: Map<Seq<char>, T>)
    requires
        lists(l, m),
    ensures
        bindings(l) == m,
    decreases l.len(),
{
    if l.len() == 0 {
        assert(m =~= Map::empty());
    } else {
        let p = l.drop_last();
        let k = l.last().0;
        let rest = m.remove(k);
        assert(lists(p, rest)) by {
            assert forall|i: int| 0 <= i < p.len() implies rest.contains_key(#[trigger] p[i].0)
                && rest[p[i].0] == p[i].1 by {
                assert(p[i] == l[i]);
                lemma_key_lt_trichotomy(l[i].0, l[l.len() - 1].0);
            }
            assert forall|q: Seq<char>| #[trigger] rest.contains_key(q) implies exists|i: int|
                0 <= i < p.len() && #[trigger] p[i].0 == q by {
                let i = choose|i: int| 0 <= i < l.len() && #[trigger] l[i].0 == q;
                assert(p[i].0 == q);
            }
        }
        lemma_listing_round_trip(p, rest);
        assert(rest.insert(k, l.last().1) =~= m);
    }
}

/// Entries in key order list the mapping they stand for.
proof fn lemma_entries_listing<V: View>(s: Seq<Entry<V>>)
    requires
        ascending(s),
    ensures
        lists(entries_listing(s), entries_map(s)),
{
    let l = entries_listing(s);
    let m = entries_map(s);
    assert forall|i: int| 0 <= i < l.len() implies m.contains_key(#[trigger] l[i].0) && m[l[i].0]
        == l[i].1 by {
        lemma_entries_map_at(s, i);
    }
    assert forall|k: Seq<char>| #[trigger] m.contains_key(k) implies exists|i: int|
        0 <= i < l.len() && #[trigger] l[i].0 == k by {
        let i = index_of(s, k);
        assert(l[i].0 == k);
    }
}

/// One step of reading a listing from its end: the binding before position `i` counts only
/// where no later binding has its name.
pub proof fn lemma_bindings_step<T>(l: Seq<(Seq<char>, T)>, i: int, later: Map<Seq<char>, T>)
    requires
        0 < i <= l.len(),
    ensures
        later.contains_key(l[i - 1].0) ==> bindings(l.take(i)).union_prefer_right(later) == bindings(
            l.take(i - 1),
        ).union_prefer_right(later),
        !later.contains_key(l[i - 1].0) ==> bindings(l.take(i)).union_prefer_right(later) == bindings(
            l.take(i - 1),
        ).union_prefer_right(later.insert(l[i - 1].0, l[i - 1].1)),
{
    assert(l.take(i).drop_last() =~= l.take(i - 1));
    assert(l.take(i).last() == l[i - 1]);
    let a = bindings(l.take(i)).union_prefer_right(later);
    if later.contains_key(l[i - 1].0) {
        assert(a =~= bindings(l.take(i - 1)).union_prefer_right(later));
    } else {
        assert(a =~= bindings(l.take(i - 1)).union_prefer_right(later.insert(l[i - 1].0, l[i - 1].1)));
    }
}

/// Giving an entry a new value rebinds its name and keeps the rest.
proof fn lemma_entries_map_update<V: View>(s: Seq<Entry<V>>, i: int, e: Entry<V>)
    requires
        ascending(s),
        0 <= i < s.len(),
        e.name@ == s[i].name@,
    ensures
        ascending(s.update(i, e)),
        entries_map(s.update(i, e)) == entries_map(s).insert(e.name@, e.value@),
        entries_listing(s.update(i, e)) == entries_listing(s).update(i, (e.name@, e.value@)),
{
    let t = s.update(i, e);
    assert forall|a: int, b: int| 0 <= a < b < t.len() implies key_lt(
        #[trigger] t[a].name@,
        #[trigger] t[b].name@,
    ) by {
        assert(t[a].name@ == s[a].name@ && t[b].name@ == s[b].name@);
    }
    let m = entries_map(s).insert(e.name@, e.value@);
    assert forall|k: Seq<char>| #[trigger] entries_map(t).contains_key(k) implies m.contains_key(k)
        && m[k] == entries_map(t)[k] by {
        let j = index_of(t, k);
        lemma_entries_map_at(t, j);
        if j != i {
            assert(t[j] == s[j]);
            lemma_entries_map_at(s, j);
            lemma_ascending_distinct(s, j, if s[j].name@ == s[i].name@ { i } else { j });
        }
    }
    assert forall|k: Seq<char>| #[trigger] m.contains_key(k) implies entries_map(t).contains_key(k) by {
        if k == e.name@ {
            assert(t[i].name@ == k);
        } else {
            let j = index_of(s, k);
            assert(t[j].name@ == k);
        }
    }
    assert(entries_map(t) =~= m);
    assert(entries_listing(t) =~= entries_listing(s).update(i, (e.name@, e.value@)));
}

/// A store of named values. No name occurs twice, and the entries stand in key order.
pub struct Registry<V> {
    entries: Vec<Entry<V>>,
}

impl<V: View> View for Registry<V> {
    type V = Map<Seq<char>, V::V>;

    closed spec fn view(&self) -> Map<Seq<char>, V::V> {
        entries_map(self.entries@)
    }
}

impl<V> Registry<V> {
    #[verifier::type_invariant]
    spec fn in_order(self) -> bool {
        ascending(self.entries@)
    }
}

impl<V: View> Registry<V> {
    /// The entries as pairs of name and value, in key order.
    pub closed spec fn listing(&self) -> Seq<(Seq<char>, V::V)> {
        entries_listing(self.entries@)
    }

    /// An empty registry.
    pub fn new() -> (r: Self)
        ensures
            r@ == Map::<Seq<char>, V::V>::empty(),
            r.listing().len() == 0,
    {
        let r = Registry { entries: Vec::new() };
        assert(r@ =~= Map::<Seq<char>, V::V>::empty());
        r
    }

    /// The number of entries.
    pub fn len(&self) -> (n: usize)
        ensures
            n == self.listing().len(),
            lists(self.listing(), self@),
    {
        proof {
            use_type_invariant(self);
            lemma_entries_listing(self.entries@);
        }
        self.entries.len()
    }

    /// The first position whose name does not come before `name`, and whether `name` stands there.
    fn locate(&self, name: &str) -> (r: (usize, bool))
        ensures
            r.0 <= self.entries@.len(),
            forall|j: int| 0 <= j < r.0 ==> key_lt(#[trigger] self.entries@[j].name@, name@),
            forall|j: int| r.0 <= j < self.entries@.len() ==> !key_lt(#[trigger] self.entries@[j].name@, name@),
            r.1 <==> r.0 < self.entries@.len() && self.entries@[r.0 as int].name@ == name@,
            r.1 == self@.contains_key(name@),
    {
        proof {
            use_type_invariant(self);
        }
        let mut i: usize = 0;
        while i < self.entries.len() && precedes(self.entries[i].name.as_str(), name)
            invariant
                ascending(self.entries@),
                i <= self.entries@.len(),
                forall|j: int| 0 <= j < i ==> key_lt(#[trigger] self.entries@[j].name@, name@),
            decreases self.entries@.len() - i,
        {
            i += 1;
        }
        let found = i < self.entries.len() && same_text(self.entries[i].name.as_str(), name);
        proof {
            let s = self.entries@;
            assert forall|j: int| i <= j < s.len() implies !key_lt(#[trigger] s[j].name@, name@) by {
                if j > i {
                    if key_lt(s[j].name@, name@) {
                        lemma_key_lt_transitive(s[i as int].name@, s[j].name@, name@);
                    }
                }
            }
            if found {
                assert(names_key(s, name@));
            } else if names_key(s, name@) {
                let j = index_of(s, name@);
                lemma_key_lt_trichotomy(s[j].name@, name@);
                if j > i {
                    lemma_key_lt_trichotomy(s[i as int].name@, name@);
                }
            }
        }
        (i, found)
    }

    /// Whether an entry is named `name`.
    pub fn contains(&self, name: &str) -> (b: bool)
        ensures
            b == self@.contains_key(name@),
    {
        self.locate(name).1
    }

    /// The value named `name`.
    pub fn get(&self, name: &str) -> (r: Option<&V>)
        ensures
            r is Some <==> self@.contains_key(name@),
            r is Some ==> r.unwrap()@ == self@[name@],
    {
        proof {
            use_type_invariant(self);
        }
        let (i, found) = self.locate(name);
        if found {
            proof {
                lemma_entries_map_at(self.entries@, i as int);
            }
            Some(&self.entries[i].value)
        } else {
            None
        }
    }
    /// Adds `value` under `name` unless the name is taken. Says whether it was added.
    pub fn insert(&mut self, name: String, value: V) -> (added: bool)
        ensures
            added == !old(self)@.contains_key(name@),
            added ==> final(self)@ == old(self)@.insert(name@, value@),
            !added ==> *final(self) == *old(self),
    {
        proof {
            use_type_invariant(&*self);
        }
        let (i, found) = self.locate(name.as_str());
        if found {
            return false;
        }
        let entry = Entry { name, value };
        proof {
            let s = self.entries@;
            assert forall|j: int| i <= j < s.len() implies key_lt(entry.name@, #[trigger] s[j].name@) by {
                lemma_key_lt_trichotomy(entry.name@, s[j].name@);
                if s[j].name@ == entry.name@ {
                    assert(names_key(s, entry.name@));
                }
            }
            lemma_entries_map_insert(s, i as int, entry);
        }
        let mut entries: Vec<Entry<V>> = Vec::new();
        core::mem::swap(&mut self.entries, &mut entries);
        entries.insert(i, entry);
        core::mem::swap(&mut self.entries, &mut entries);
        true
    }

    /// Takes the entry named `name` out and hands back its value.
    pub fn remove(&mut self, name: &str) -> (r: Option<V>)
        ensures
            r is Some <==> old(self)@.contains_key(name@),
            r is Some ==> r.unwrap()@ == old(self)@[name@] && final(self)@ == old(self)@.remove(name@),
            r is None ==> *final(self) == *old(self),
    {
        proof {
            use_type_invariant(&*self);
        }
        let (i, found) = self.locate(name);
        if !found {
            return None;
        }
        proof {
            lemma_entries_map_at(self.entries@, i as int);
            lemma_entries_map_remove(self.entries@, i as int);
        }
        let mut entries: Vec<Entry<V>> = Vec::new();
        core::mem::swap(&mut self.entries, &mut entries);
        let entry = entries.remove(i);
        core::mem::swap(&mut self.entries, &mut entries);
        Some(entry.value)
    }
    /// The entry at position `i` of the listing.
    pub fn entry_at(&self, i: usize) -> (e: &Entry<V>)
        requires
            i < self.listing().len(),
        ensures
            (e.name@, e.value@) == self.listing()[i as int],
            lists(self.listing(), self@),
    {
        proof {
            use_type_invariant(self);
            lemma_entries_listing(self.entries@);
        }
        &self.entries[i]
    }
    /// The names, in key order.
    pub fn names(&self) -> (r: Vec<String>)
        ensures
            r@.len() == self.listing().len(),
            forall|i: int| 0 <= i < r@.len() ==> (#[trigger] r@[i])@ == self.listing()[i].0,
            lists(self.listing(), self@),
    {
        proof {
            use_type_invariant(self);
            lemma_entries_listing(self.entries@);
        }
        let mut r: Vec<String> = Vec::new();
        let mut i: usize = 0;
        while i < self.entries.len()
            invariant
                i <= self.entries@.len(),
                r@.len() == i,
                forall|j: int| 0 <= j < i ==> (#[trigger] r@[j])@ == self.entries@[j].name@,
            decreases self.entries@.len() - i,
        {
            r.push(self.entries[i].name.clone());
            i += 1;
        }
        r
    }

    /// Drops the entries with the given names, whether or not their files are still there. Says
    /// for each name whether an entry went with it.
    pub fn remove_all(&mut self, names: &Vec<String>) -> (dropped: Vec<bool>)
        ensures
            final(self)@ == old(self)@.remove_keys(texts(names@).to_set()),
            dropped@.len() == names@.len(),
            forall|i: int|
                0 <= i < names@.len() ==> (#[trigger] dropped@[i] <==> old(self)@.contains_key(names@[i]@)
                    && forall|j: int| 0 <= j < i ==> names@[j]@ != names@[i]@),
    {
        let mut dropped: Vec<bool> = Vec::new();
        let mut i: usize = 0;
        assert(self@ =~= old(self)@.remove_keys(texts(names@).take(0).to_set()));
        while i < names.len()
            invariant
                i <= names@.len(),
                dropped@.len() == i,
                self@ == old(self)@.remove_keys(texts(names@).take(i as int).to_set()),
                forall|k: int|
                    0 <= k < i ==> (#[trigger] dropped@[k] <==> old(self)@.contains_key(names@[k]@)
                        && forall|j: int| 0 <= j < k ==> names@[j]@ != names@[k]@),
            decreases names@.len() - i,
        {
            let ghost before = self@;
            let ghost seen = texts(names@).take(i as int);
            let gone = self.remove(names[i].as_str());
            proof {
                let name = names@[i as int]@;
                let next = texts(names@).take(i + 1);
                assert(next =~= seen.push(name));
                assert forall|k: Seq<char>| next.to_set().contains(k) <==> (seen.to_set().contains(k) || k
                    == name) by {
                    if seen.to_set().contains(k) {
                        let j = choose|j: int| 0 <= j < seen.len() && seen[j] == k;
                        assert(next[j] == k);
                    }
                    if k == name {
                        assert(next[i as int] == k);
                    }
                    if next.to_set().contains(k) {
                        let j = choose|j: int| 0 <= j < next.len() && next[j] == k;
                        if j < i {
                            assert(seen[j] == k);
                        }
                    }
                }
                assert(before.remove(name) =~= old(self)@.remove_keys(next.to_set()));
                if before.contains_key(name) {
                    assert forall|j: int| 0 <= j < i implies names@[j]@ != name by {
                        assert(seen[j] == names@[j]@);
                        assert(seen.to_set().contains(seen[j]));
                    }
                } else if old(self)@.contains_key(name) {
                    let j = choose|j: int| 0 <= j < seen.len() && seen[j] == name;
                    assert(names@[j]@ == name);
                }
            }
            dropped.push(gone.is_some());
            i += 1;
        }
        assert(texts(names@).take(i as int) =~= texts(names@));
        dropped
    }
    /// Gives the entry at position `i` of the listing a new value.
    pub fn set_value_at(&mut self, i: usize, value: V)
        requires
            i < old(self).listing().len(),
        ensures
            final(self).listing() == old(self).listing().update(
                i as int,
                (old(self).listing()[i as int].0, value@),
            ),
            final(self)@ == old(self)@.insert(old(self).listing()[i as int].0, value@),
            lists(final(self).listing(), final(self)@),
    {
        proof {
            use_type_invariant(&*self);
        }
        let mut entries: Vec<Entry<V>> = Vec::new();
        core::mem::swap(&mut self.entries, &mut entries);
        let ghost s = entries@;
        let previous = entries.remove(i);
        let entry = Entry { name: previous.name, value };
        entries.insert(i, entry);
        proof {
            assert(entries@ =~= s.update(i as int, entry));
            lemma_entries_map_update(s, i as int, entry);
            lemma_entries_listing(entries@);
        }
        core::mem::swap(&mut self.entries, &mut entries);
    }
}

} // verus!
