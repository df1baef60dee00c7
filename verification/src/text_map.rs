//! A map with text for keys, its entries in the order of their keys.
use crate::text::{chars_of, same_text, texts};
use vstd::prelude::*;

verus! {

/// `a` comes before `b` in the order of their characters.
pub open spec fn precedes(a: Seq<char>, b: Seq<char>) -> bool
    decreases a.len(),
{
    if b.len() == 0 {
        false
    } else if a.len() == 0 {
        true
    } else if a[0] == b[0] {
        precedes(a.skip(1), b.skip(1))
    } else {
        a[0] < b[0]
    }
}

/// No text comes before itself.
pub proof fn law_precedes_irreflexive(a: Seq<char>)
    ensures
        !precedes(a, a),
    decreases a.len(),
{
    if a.len() > 0 {
        law_precedes_irreflexive(a.skip(1));
    }
}

/// What comes before a text comes before what that text comes before.
pub proof fn law_precedes_transitive(a: Seq<char>, b: Seq<char>, c: Seq<char>)
    requires
        precedes(a, b),
        precedes(b, c),
    ensures
        precedes(a, c),
    decreases a.len(),
{
    if a.len() > 0 && a[0] == b[0] && b[0] == c[0] {
        law_precedes_transitive(a.skip(1), b.skip(1), c.skip(1));
    }
}

/// Of two different texts one comes before the other.
pub proof fn law_precedes_total(a: Seq<char>, b: Seq<char>)
    ensures
        a == b || precedes(a, b) || precedes(b, a),
    decreases a.len(),
{
    if a.len() == 0 || b.len() == 0 {
        if a.len() == b.len() {
            assert(a =~= b);
        }
    } else if a[0] == b[0] {
        law_precedes_total(a.skip(1), b.skip(1));
        if a.skip(1) == b.skip(1) {
            assert(a =~= seq![a[0]] + a.skip(1));
            assert(b =~= seq![b[0]] + b.skip(1));
        }
    }
}

/// Whether `a` comes before `b`.
pub fn text_precedes(a: &str, b: &str) -> (r: bool)
    ensures
        r == precedes(a@, b@),
{
    let left = chars_of(a);
    let right = chars_of(b);
    let mut i: usize = 0;
    proof {
        assert(a@.skip(0) =~= a@);
        assert(b@.skip(0) =~= b@);
    }
    while i < left.len() && i < right.len()
        invariant
            left@ == a@,
            right@ == b@,
            i <= left.len(),
            i <= right.len(),
            precedes(a@, b@) == precedes(a@.skip(i as int), b@.skip(i as int)),
        decreases left.len() - i,
    {
        if left[i] != right[i] {
            return left[i] < right[i];
        }
        proof {
            assert(a@.skip(i as int).skip(1) =~= a@.skip(i + 1));
            assert(b@.skip(i as int).skip(1) =~= b@.skip(i + 1));
        }
        i = i + 1;
    }
    i < right.len()
}

/// A map from texts to values of type `V`.
pub struct TextMap<V> {
    entries: Vec<(String, V)>,
}

/// The keys stand in ascending order, so none stands twice.
pub open spec fn ascending<V>(entries: Seq<(String, V)>) -> bool {
    forall|i: int, j: int|
        0 <= i < j < entries.len() ==> precedes(#[trigger] entries[i].0@, #[trigger] entries[j].0@)
}

/// The values of the entries with the given key.
pub open spec fn entries_map<V>(entries: Seq<(String, V)>) -> Map<Seq<char>, V>
    decreases entries.len(),
{
    if entries.len() == 0 {
        Map::empty()
    } else {
        entries_map(entries.drop_last()).insert(entries.last().0@, entries.last().1)
    }
}

proof fn lemma_entries_map<V>(entries: Seq<(String, V)>)
    requires
        ascending(entries),
    ensures
        forall|i: int|
            0 <= i < entries.len() ==> entries_map(entries).contains_key(
                #[trigger] entries[i].0@,
            ) && entries_map(entries)[entries[i].0@] == entries[i].1,
        forall|k: Seq<char>| #[trigger]
            entries_map(entries).contains_key(k) ==> exists|i: int|
                0 <= i < entries.len() && #[trigger] entries[i].0@ == k,
        entries_map(entries).dom().finite(),
        entries_map(entries).len() == entries.len(),
    decreases entries.len(),
{
    if entries.len() > 0 {
        let rest = entries.drop_last();
        assert(ascending(rest)) by {
            assert forall|i: int, j: int| 0 <= i < j < rest.len() implies precedes(
                #[trigger] rest[i].0@,
                #[trigger] rest[j].0@,
            ) by {
                assert(precedes(entries[i].0@, entries[j].0@));
            }
        }
        lemma_entries_map(rest);
        let last = entries.len() - 1;
        assert forall|i: int| 0 <= i < rest.len() implies #[trigger] entries[i].0@
            != entries[last].0@ by {
            assert(precedes(entries[i].0@, entries[last].0@));
            law_precedes_irreflexive(entries[i].0@);
        }
        assert forall|i: int| 0 <= i < entries.len() implies entries_map(entries).contains_key(
            #[trigger] entries[i].0@,
        ) && entries_map(entries)[entries[i].0@] == entries[i].1 by {
            if i < last {
                assert(rest[i].0@ == entries[i].0@);
            }
        }
        assert forall|k: Seq<char>| #[trigger]
            entries_map(entries).contains_key(k) implies exists|i: int|
            0 <= i < entries.len() && #[trigger] entries[i].0@ == k by {
            if k == entries[last].0@ {
            } else {
                assert(entries_map(rest).contains_key(k));
                let i = choose|i: int| 0 <= i < rest.len() && #[trigger] rest[i].0@ == k;
                assert(entries[i].0@ == k);
            }
        }
        assert(!entries_map(rest).contains_key(entries[last].0@)) by {
            if entries_map(rest).contains_key(entries[last].0@) {
                let i = choose|i: int|
                    0 <= i < rest.len() && #[trigger] rest[i].0@ == entries[last].0@;
                assert(entries[i].0@ == entries[last].0@);
            }
        }
        assert(entries_map(entries).dom() =~= entries_map(rest).dom().insert(entries[last].0@));
    }
}

/// A map is known by the entries that a list in key order holds.
proof fn lemma_entries_map_is<V>(entries: Seq<(String, V)>, m: Map<Seq<char>, V>)
    requires
        ascending(entries),
        forall|i: int|
            0 <= i < entries.len() ==> m.contains_key(#[trigger] entries[i].0@)
                && m[entries[i].0@] == entries[i].1,
        forall|k: Seq<char>| #[trigger]
            m.contains_key(k) ==> exists|i: int|
                0 <= i < entries.len() && #[trigger] entries[i].0@ == k,
    ensures
        entries_map(entries) == m,
{
    lemma_entries_map(entries);
    let e = entries_map(entries);
    assert forall|k: Seq<char>| #[trigger] e.contains_key(k) <==> m.contains_key(k) by {
        if e.contains_key(k) {
            let i = choose|i: int| 0 <= i < entries.len() && #[trigger] entries[i].0@ == k;
            assert(m.contains_key(entries[i].0@));
        }
        if m.contains_key(k) {
            let i = choose|i: int| 0 <= i < entries.len() && #[trigger] entries[i].0@ == k;
            assert(e.contains_key(entries[i].0@));
        }
    }
    assert forall|k: Seq<char>| e.contains_key(k) implies e[k] == m[k] by {
        let i = choose|i: int| 0 <= i < entries.len() && #[trigger] entries[i].0@ == k;
        assert(m[entries[i].0@] == entries[i].1);
    }
    assert(e =~= m);
}

impl<V> TextMap<V> {
    /// What the map holds.
    pub closed spec fn view(&self) -> Map<Seq<char>, V> {
        entries_map(self.entries@)
    }

    #[verifier::type_invariant]
    spec fn in_order(self) -> bool {
        ascending(self.entries@)
    }

    /// The empty map.
    pub fn new() -> (r: Self)
        ensures
            r@ == Map::<Seq<char>, V>::empty(),
    {
        TextMap { entries: Vec::new() }
    }

    /// The number of entries.
    pub fn len(&self) -> (r: usize)
        ensures
            self@.dom().finite(),
            r == self@.len(),
    {
        proof {
            use_type_invariant(self);
            lemma_entries_map(self.entries@);
        }
        self.entries.len()
    }

    /// Whether there is no entry.
    pub fn is_empty(&self) -> (r: bool)
        ensures
            r == (self@ == Map::<Seq<char>, V>::empty()),
    {
        proof {
            use_type_invariant(self);
            lemma_entries_map(self.entries@);
            if self.entries@.len() > 0 {
                assert(self@.contains_key(self.entries@[0].0@));
            }
        }
        self.entries.len() == 0
    }

    /// The position of `key`: where it stands, or where it would stand.
    fn position(&self, key: &str) -> (r: (usize, bool))
        ensures
            r.0 <= self.entries@.len(),
            forall|i: int| 0 <= i < r.0 ==> precedes(#[trigger] self.entries@[i].0@, key@),
            r.1 ==> r.0 < self.entries@.len() && self.entries@[r.0 as int].0@ == key@,
            !r.1 ==> forall|i: int|
                r.0 <= i < self.entries@.len() ==> precedes(key@, #[trigger] self.entries@[i].0@),
    {
        proof {
            use_type_invariant(self);
        }
        let mut i: usize = 0;
        while i < self.entries.len() && text_precedes(self.entries[i].0.as_str(), key)
            invariant
                i <= self.entries@.len(),
                forall|j: int| 0 <= j < i ==> precedes(#[trigger] self.entries@[j].0@, key@),
            decreases self.entries.len() - i,
        {
            i = i + 1;
        }
        if i == self.entries.len() {
            return (i, false);
        }
        let here = same_text(self.entries[i].0.as_str(), key);
        proof {
            if !here {
                law_precedes_total(self.entries@[i as int].0@, key@);
                assert forall|j: int| i <= j < self.entries@.len() implies precedes(
                    key@,
                    #[trigger] self.entries@[j].0@,
                ) by {
                    if i < j {
                        law_precedes_transitive(
                            key@,
                            self.entries@[i as int].0@,
                            self.entries@[j].0@,
                        );
                    }
                }
            }
        }
        (i, here)
    }

    /// Whether there is an entry for `key`.
    pub fn contains_key(&self, key: &str) -> (r: bool)
        ensures
            r == self@.contains_key(key@),
    {
        self.get(key).is_some()
    }

    /// The value for `key`.
    pub fn get(&self, key: &str) -> (r: Option<&V>)
        ensures
            match r {
                Some(v) => self@.contains_key(key@) && *v == self@[key@],
                None => !self@.contains_key(key@),
            },
    {
        let (i, here): (usize, bool) = self.position(key);
        proof {
            use_type_invariant(self);
            lemma_entries_map(self.entries@);
        }
        if here {
            Some(&self.entries[i].1)
        } else {
            proof {
                if self@.contains_key(key@) {
                    let j = choose|j: int|
                        0 <= j < self.entries@.len() && #[trigger] self.entries@[j].0@ == key@;
                    law_precedes_irreflexive(key@);
                    assert(precedes(self.entries@[j].0@, key@) || precedes(
                        key@,
                        self.entries@[j].0@,
                    ));
                }
            }
            None
        }
    }

    /// The keys, in ascending order.
    pub fn keys(&self) -> (r: Vec<String>)
        ensures
            forall|i: int, j: int|
                0 <= i < j < r@.len() ==> precedes(#[trigger] r@[i]@, #[trigger] r@[j]@),
            forall|k: Seq<char>| texts(r@).contains(k) <==> #[trigger] self@.contains_key(k),
    {
        proof {
            use_type_invariant(self);
            lemma_entries_map(self.entries@);
        }
        let mut keys: Vec<String> = Vec::new();
        let mut i: usize = 0;
        while i < self.entries.len()
            invariant
                i <= self.entries@.len(),
                keys@.len() == i,
                forall|j: int| 0 <= j < i ==> #[trigger] keys@[j]@ == self.entries@[j].0@,
            decreases self.entries.len() - i,
        {
            keys.push(self.entries[i].0.clone());
            i = i + 1;
        }
        proof {
            assert forall|i: int, j: int| 0 <= i < j < keys@.len() implies precedes(
                #[trigger] keys@[i]@,
                #[trigger] keys@[j]@,
            ) by {
                assert(precedes(self.entries@[i].0@, self.entries@[j].0@));
            }
            assert forall|k: Seq<char>|
                texts(keys@).contains(k) <==> #[trigger] self@.contains_key(k) by {
                if texts(keys@).contains(k) {
                    let i = choose|i: int| 0 <= i < keys@.len() && texts(keys@)[i] == k;
                    assert(keys@[i]@ == k);
                    assert(self@.contains_key(self.entries@[i].0@));
                }
                if self@.contains_key(k) {
                    let i = choose|i: int|
                        0 <= i < self.entries@.len() && #[trigger] self.entries@[i].0@ == k;
                    assert(keys@[i]@ == k);
                    assert(texts(keys@)[i] == k);
                }
            }
        }
        keys
    }

    /// Sets the value for `key`.
    pub fn insert(&mut self, key: String, value: V)
        ensures
            final(self)@ == old(self)@.insert(key@, value),
    {
        let (i, here): (usize, bool) = self.position(key.as_str());
        proof {
            use_type_invariant(&*self);
            lemma_entries_map(self.entries@);
        }
        let ghost held = self.entries@;
        let ghost wanted = self@.insert(key@, value);
        let mut entries: Vec<(String, V)> = Vec::new();
        std::mem::swap(&mut entries, &mut self.entries);
        if here {
            let ghost k = entries@[i as int].0;
            let old_entry = entries.remove(i);
            entries.insert(i, (key, value));
            proof {
                assert(entries@ =~= held.update(i as int, (key, value)));
                assert forall|a: int, b: int| 0 <= a < b < entries@.len() implies precedes(
                    #[trigger] entries@[a].0@,
                    #[trigger] entries@[b].0@,
                ) by {
                    assert(precedes(held[a].0@, held[b].0@));
                }
                assert forall|a: int| 0 <= a < entries@.len() implies wanted.contains_key(
                    #[trigger] entries@[a].0@,
                ) && wanted[entries@[a].0@] == entries@[a].1 by {
                    assert(held[a].0@ == entries@[a].0@);
                    if a != i {
                        law_precedes_irreflexive(key@);
                        assert(a < i ==> precedes(held[a].0@, held[i as int].0@));
                        assert(i < a ==> precedes(held[i as int].0@, held[a].0@));
                    }
                }
                assert forall|k: Seq<char>| #[trigger] wanted.contains_key(k) implies exists|a: int|
                    0 <= a < entries@.len() && #[trigger] entries@[a].0@ == k by {
                    if k == key@ {
                        assert(entries@[i as int].0@ == k);
                    } else {
                        assert(entries_map(held).contains_key(k));
                        let a = choose|a: int| 0 <= a < held.len() && #[trigger] held[a].0@ == k;
                        assert(entries@[a].0@ == k);
                    }
                }
            }
        } else {
            entries.insert(i, (key, value));
            proof {
                assert(entries@ =~= held.insert(i as int, (key, value)));
                assert forall|a: int, b: int| 0 <= a < b < entries@.len() implies precedes(
                    #[trigger] entries@[a].0@,
                    #[trigger] entries@[b].0@,
                ) by {
                    let x = if a < i { a } else { a - 1 };
                    let y = if b < i { b } else { b - 1 };
                    if a != i && b != i {
                        assert(precedes(held[x].0@, held[y].0@));
                    } else if a == i {
                        assert(precedes(key@, held[y].0@));
                    } else {
                        assert(precedes(held[x].0@, key@));
                    }
                }
                assert forall|a: int| 0 <= a < entries@.len() implies wanted.contains_key(
                    #[trigger] entries@[a].0@,
                ) && wanted[entries@[a].0@] == entries@[a].1 by {
                    if a != i {
                        let x = if a < i { a } else { a - 1 };
                        assert(entries@[a] == held[x]);
                        law_precedes_irreflexive(key@);
                        assert(precedes(held[x].0@, key@) || precedes(key@, held[x].0@));
                    }
                }
                assert forall|k: Seq<char>| #[trigger] wanted.contains_key(k) implies exists|a: int|
                    0 <= a < entries@.len() && #[trigger] entries@[a].0@ == k by {
                    if k == key@ {
                        assert(entries@[i as int].0@ == k);
                    } else {
                        assert(entries_map(held).contains_key(k));
                        let x = choose|x: int| 0 <= x < held.len() && #[trigger] held[x].0@ == k;
                        let a = if x < i { x } else { x + 1 };
                        assert(entries@[a].0@ == k);
                    }
                }
            }
        }
        proof {
            lemma_entries_map_is(entries@, wanted);
        }
        self.entries = entries;
    }
}

/// Of two texts that start alike, the one comes first whose next character does, and a text
/// comes before every longer one that it starts.
pub proof fn law_precedes_by_first_difference(
    start: Seq<char>,
    a: char,
    b: char,
    left: Seq<char>,
    right: Seq<char>,
)
    requires
        a != b,
    ensures
        precedes(start + seq![a] + left, start + seq![b] + right) <==> a < b,
        precedes(start, start + seq![b] + right),
        !precedes(start + seq![b] + right, start),
    decreases start.len(),
{
    let x = start + seq![a] + left;
    let y = start + seq![b] + right;
    if start.len() > 0 {
        let less = start.skip(1);
        law_precedes_by_first_difference(less, a, b, left, right);
        assert(x.skip(1) =~= less + seq![a] + left);
        assert(y.skip(1) =~= less + seq![b] + right);
        assert(x[0] == start[0] && y[0] == start[0]);
    }
}

} // verus!
