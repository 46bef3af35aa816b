//! Header fields without a dedicated slot: a map from key to value, kept in
//! increasing byte order of the keys.

use vstd::prelude::*;
use vstd::utf8::encode_utf8;

use crate::text::{bytes_equal, lemma_same_bytes_same_text};

verus! {

/// Lexicographic order of byte strings (the order of `[u8]` and of `String`).
pub open spec fn bytes_before(a: Seq<u8>, b: Seq<u8>) -> bool
    decreases a.len(),
{
    if b.len() == 0 {
        false
    } else if a.len() == 0 {
        true
    } else if a[0] != b[0] {
        a[0] < b[0]
    } else {
        bytes_before(a.drop_first(), b.drop_first())
    }
}

/// No byte string comes before itself.
pub proof fn lemma_before_irreflexive(a: Seq<u8>)
    ensures
        !bytes_before(a, a),
    decreases a.len(),
{
    if a.len() > 0 {
        lemma_before_irreflexive(a.drop_first());
    }
}

/// Of two distinct byte strings exactly one comes first.
pub proof fn lemma_before_total(a: Seq<u8>, b: Seq<u8>)
    ensures
        a != b ==> (bytes_before(a, b) || bytes_before(b, a)),
        !(bytes_before(a, b) && bytes_before(b, a)),
    decreases a.len(),
{
    if a.len() > 0 && b.len() > 0 && a[0] == b[0] {
        lemma_before_total(a.drop_first(), b.drop_first());
        if a != b {
            assert(a =~= seq![a[0]] + a.drop_first());
            assert(b =~= seq![b[0]] + b.drop_first());
        }
    } else if a.len() == 0 && b.len() == 0 {
        assert(a =~= b);
    }
}

/// The order is transitive.
pub proof fn lemma_before_transitive(a: Seq<u8>, b: Seq<u8>, c: Seq<u8>)
    requires
        bytes_before(a, b),
        bytes_before(b, c),
    ensures
        bytes_before(a, c),
    decreases a.len(),
{
    if a.len() > 0 && a[0] == b[0] && b[0] == c[0] {
        lemma_before_transitive(a.drop_first(), b.drop_first(), c.drop_first());
    }
}

/// The outcome of comparing two byte strings.
pub enum ByteOrder {
    Before,
    Same,
    After,
}

/// Compares two byte strings in lexicographic order.
pub fn compare_bytes(a: &[u8], b: &[u8]) -> (r: ByteOrder)
    ensures
        r is Before <==> bytes_before(a@, b@),
        r is Same <==> a@ == b@,
        r is After <==> bytes_before(b@, a@),
{
    proof {
        lemma_before_total(a@, b@);
        lemma_before_irreflexive(a@);
    }
    let mut i: usize = 0;
    assert(a@.skip(0) =~= a@);
    assert(b@.skip(0) =~= b@);
    while i < a.len() && i < b.len()
        invariant
            i <= a.len(),
            i <= b.len(),
            a@.subrange(0, i as int) == b@.subrange(0, i as int),
            bytes_before(a@, b@) == bytes_before(a@.skip(i as int), b@.skip(i as int)),
            bytes_before(b@, a@) == bytes_before(b@.skip(i as int), a@.skip(i as int)),
        decreases a.len() - i,
    {
        if a[i] < b[i] {
            return ByteOrder::Before;
        }
        if a[i] > b[i] {
            return ByteOrder::After;
        }
        assert(a@.skip(i as int).drop_first() =~= a@.skip(i + 1));
        assert(b@.skip(i as int).drop_first() =~= b@.skip(i + 1));
        assert(a@.subrange(0, i + 1) =~= a@.subrange(0, i as int).push(a@[i as int]));
        assert(b@.subrange(0, i + 1) =~= b@.subrange(0, i as int).push(b@[i as int]));
        i = i + 1;
    }
    if a.len() == b.len() {
        assert(a@ =~= a@.subrange(0, i as int));
        assert(b@ =~= b@.subrange(0, i as int));
        ByteOrder::Same
    } else if a.len() < b.len() {
        assert(a@ != b@);
        ByteOrder::Before
    } else {
        assert(a@ != b@);
        ByteOrder::After
    }
}

/// The UTF-8 bytes of a key.
pub open spec fn key_bytes(k: Seq<char>) -> Seq<u8> {
    encode_utf8(k)
}

/// Entries in strictly increasing order of key bytes.
pub open spec fn sorted_entries(e: Seq<(String, String)>) -> bool {
    forall|i: int, j: int|
        0 <= i < j < e.len() ==> bytes_before(
            key_bytes(#[trigger] e[i].0@),
            key_bytes(#[trigger] e[j].0@),
        )
}

/// Whether some entry has key `k`.
pub open spec fn has_key(e: Seq<(String, String)>, k: Seq<char>) -> bool {
    exists|i: int| 0 <= i < e.len() && #[trigger] e[i].0@ == k
}

/// An index of an entry with key `k`, where there is one.
pub open spec fn key_index(e: Seq<(String, String)>, k: Seq<char>) -> int {
    choose|i: int| 0 <= i < e.len() && #[trigger] e[i].0@ == k
}

/// The map that a sequence of entries holds.
pub open spec fn entries_map(e: Seq<(String, String)>) -> Map<Seq<char>, Seq<char>> {
    Map::new(|k: Seq<char>| has_key(e, k), |k: Seq<char>| e[key_index(e, k)].1@)
}

/// In sorted entries, each entry's key maps to that entry's value.
pub proof fn lemma_entries_map_at(e: Seq<(String, String)>, i: int)
    requires
        sorted_entries(e),
        0 <= i < e.len(),
    ensures
        entries_map(e).contains_key(e[i].0@),
        entries_map(e)[e[i].0@] == e[i].1@,
{
    let k = e[i].0@;
    assert(has_key(e, k));
    let j = key_index(e, k);
    assert(entries_map(e)[k] == e[j].1@);
    if j != i {
        lemma_before_irreflexive(key_bytes(k));
        if i < j {
            assert(bytes_before(key_bytes(e[i].0@), key_bytes(e[j].0@)));
        } else {
            assert(bytes_before(key_bytes(e[j].0@), key_bytes(e[i].0@)));
        }
    }
}

/// Replacing the value of an existing key updates the map at that key only.
proof fn lemma_replace_view(
    old: Seq<(String, String)>,
    new: Seq<(String, String)>,
    k: Seq<char>,
    v: Seq<char>,
    i: int,
)
    requires
        sorted_entries(old),
        sorted_entries(new),
        0 <= i < old.len(),
        new.len() == old.len(),
        old[i].0@ == k,
        new[i].0@ == k,
        new[i].1@ == v,
        forall|j: int| 0 <= j < old.len() && j != i ==> new[j] == old[j],
    ensures
        entries_map(new) == entries_map(old).insert(k, v),
{
    let target = entries_map(old).insert(k, v);
    lemma_entries_map_at(new, i);
    assert forall|x: Seq<char>| #[trigger] entries_map(new).contains_key(x) <==> target.contains_key(x) by {
        if entries_map(new).contains_key(x) {
            let j = key_index(new, x);
            if j != i {
                assert(old[j].0@ == x);
            }
        }
        if target.contains_key(x) && x != k {
            let j = key_index(old, x);
            assert(j != i);
            assert(new[j].0@ == x);
        }
    }
    assert forall|x: Seq<char>| #[trigger] entries_map(new).contains_key(x) implies entries_map(
        new,
    )[x] == target[x] by {
        if x != k {
            let j = key_index(old, x);
            assert(j != i);
            lemma_entries_map_at(old, j);
            lemma_entries_map_at(new, j);
        }
    }
    assert(entries_map(new) =~= target);
}

/// Adding an entry for a new key at its place in the order adds that key.
proof fn lemma_insert_view(
    old: Seq<(String, String)>,
    new: Seq<(String, String)>,
    k: Seq<char>,
    v: Seq<char>,
    i: int,
)
    requires
        sorted_entries(old),
        sorted_entries(new),
        0 <= i <= old.len(),
        new.len() == old.len() + 1,
        new[i].0@ == k,
        new[i].1@ == v,
        forall|j: int| 0 <= j < i ==> new[j] == old[j],
        forall|j: int| i < j < new.len() ==> new[j] == old[j - 1],
        forall|j: int| 0 <= j < i ==> bytes_before(key_bytes(#[trigger] old[j].0@), key_bytes(k)),
        i < old.len() ==> bytes_before(key_bytes(k), key_bytes(old[i].0@)),
    ensures
        entries_map(new) == entries_map(old).insert(k, v),
{
    let target = entries_map(old).insert(k, v);
    lemma_entries_map_at(new, i);
    // Each old entry sits in the new sequence at `old_at(j)`.
    assert forall|j: int| 0 <= j < old.len() implies (if j < i { new[j] } else { new[j + 1] })
        == old[j] by {
        if j >= i {
            assert(new[j + 1] == old[j]);
        }
    }
    assert forall|x: Seq<char>| #[trigger] entries_map(new).contains_key(x) <==> target.contains_key(x) by {
        if entries_map(new).contains_key(x) && x != k {
            let j = key_index(new, x);
            if j < i {
                assert(old[j].0@ == x);
            } else if j > i {
                assert(old[j - 1].0@ == x);
            }
        }
        if target.contains_key(x) && x != k {
            let j = key_index(old, x);
            if j < i {
                assert(new[j].0@ == x);
            } else {
                assert(new[j + 1].0@ == x);
            }
        }
    }
    assert forall|x: Seq<char>| #[trigger] entries_map(new).contains_key(x) implies entries_map(
        new,
    )[x] == target[x] by {
        if x != k {
            let j = key_index(old, x);
            lemma_entries_map_at(old, j);
            if j < i {
                lemma_entries_map_at(new, j);
            } else {
                assert(new[j + 1] == old[j]);
                lemma_entries_map_at(new, j + 1);
            }
        }
    }
    assert(entries_map(new) =~= target);
}

/// The keys of a sequence of entries, in order.
pub open spec fn entry_keys(e: Seq<(String, String)>) -> Seq<Seq<char>> {
    e.map_values(|p: (String, String)| p.0@)
}

/// The keys that a sequence of entries holds are the keys of its entries,
/// so there are finitely many.
pub proof fn lemma_entries_map_finite(e: Seq<(String, String)>)
    ensures
        entries_map(e).dom() == entry_keys(e).to_set(),
        entries_map(e).dom().finite(),
{
    let keys = entry_keys(e);
    assert forall|k: Seq<char>| #[trigger] entries_map(e).dom().contains(k) <==> keys.to_set().contains(k) by {
        if has_key(e, k) {
            let i = key_index(e, k);
            assert(keys[i] == k);
        }
        if keys.contains(k) {
            let i = choose|i: int| 0 <= i < keys.len() && keys[i] == k;
            assert(e[i].0@ == k);
        }
    }
    assert(entries_map(e).dom() =~= keys.to_set());
    vstd::seq_lib::seq_to_set_is_finite(keys);
}

/// Sorted entries hold one field per entry.
pub proof fn lemma_entries_map_len(e: Seq<(String, String)>)
    requires
        sorted_entries(e),
    ensures
        entries_map(e).len() == e.len(),
{
    lemma_entries_map_finite(e);
    let keys = entry_keys(e);
    assert forall|i: int, j: int| 0 <= i < keys.len() && 0 <= j < keys.len() && i != j implies keys[i]
        != keys[j] by {
        lemma_before_irreflexive(key_bytes(e[i].0@));
        if i < j {
            assert(bytes_before(key_bytes(e[i].0@), key_bytes(e[j].0@)));
        } else {
            assert(bytes_before(key_bytes(e[j].0@), key_bytes(e[i].0@)));
        }
    }
    assert(keys.no_duplicates());
    keys.unique_seq_to_set();
}

/// Additional header fields, from key to value.
#[derive(Debug, PartialEq, Eq)]
pub struct ExtraFields {
    entries: Vec<(String, String)>,
}

impl View for ExtraFields {
    type V = Map<Seq<char>, Seq<char>>;

    closed spec fn view(&self) -> Map<Seq<char>, Seq<char>> {
        entries_map(self.entries@)
    }
}

impl Clone for ExtraFields {
    /// A copy holding the same fields.
    fn clone(&self) -> (r: Self)
        ensures
            r@ == self@,
    {
        proof {
            use_type_invariant(self);
        }
        let mut entries: Vec<(String, String)> = Vec::new();
        let mut i: usize = 0;
        while i < self.entries.len()
            invariant
                i <= self.entries@.len(),
                entries@.len() == i,
                sorted_entries(self.entries@),
                forall|j: int| 0 <= j < i ==> #[trigger] entries@[j] == self.entries@[j],
            decreases self.entries@.len() - i,
        {
            let pair = (self.entries[i].0.clone(), self.entries[i].1.clone());
            entries.push(pair);
            i = i + 1;
        }
        assert(entries@ =~= self.entries@);
        ExtraFields { entries }
    }
}

impl ExtraFields {
    #[verifier::type_invariant]
    spec fn keys_sorted(self) -> bool {
        sorted_entries(self.entries@)
    }

    /// The fields always form a finite map.
    pub proof fn lemma_finite(&self)
        ensures
            self@.dom().finite(),
    {
        lemma_entries_map_finite(self.entries@);
    }

    /// The number of fields.
    pub fn len(&self) -> (r: usize)
        ensures
            r == self@.len(),
            self@.dom().finite(),
    {
        proof {
            use_type_invariant(self);
            lemma_entries_map_finite(self.entries@);
            lemma_entries_map_len(self.entries@);
        }
        self.entries.len()
    }

    /// The fields as `(key, value)` pairs, each key once, in increasing
    /// byte order of the keys.
    pub fn entries(&self) -> (r: &[(String, String)])
        ensures
            entries_map(r@) == self@,
            sorted_entries(r@),
    {
        proof {
            use_type_invariant(self);
        }
        self.entries.as_slice()
    }

    /// No fields.
    pub fn new() -> (r: Self)
        ensures
            r@ == Map::<Seq<char>, Seq<char>>::empty(),
    {
        let r = ExtraFields { entries: Vec::new() };
        assert(r@ =~= Map::<Seq<char>, Seq<char>>::empty());
        r
    }

    /// The value of `key`, if it has one.
    pub fn get(&self, key: &str) -> (r: Option<&str>)
        ensures
            match r {
                Some(v) => self@.contains_key(key@) && self@[key@] == v@,
                None => !self@.contains_key(key@),
            },
    {
        proof {
            use_type_invariant(self);
        }
        let kb = key.as_bytes();
        let mut i: usize = 0;
        while i < self.entries.len()
            invariant
                i <= self.entries@.len(),
                kb@ == key_bytes(key@),
                sorted_entries(self.entries@),
                forall|j: int| 0 <= j < i ==> self.entries@[j].0@ != key@,
            decreases self.entries@.len() - i,
        {
            let name = self.entries[i].0.as_str();
            if bytes_equal(name.as_bytes(), kb) {
                proof {
                    lemma_same_bytes_same_text(name@, key@);
                    lemma_entries_map_at(self.entries@, i as int);
                }
                return Some(self.entries[i].1.as_str());
            }
            proof {
                lemma_same_bytes_same_text(name@, key@);
            }
            i = i + 1;
        }
        None
    }

    /// Sets the value of `key`, replacing the value it had.
    pub fn insert(&mut self, key: String, value: String)
        ensures
            final(self)@ == old(self)@.insert(key@, value@),
    {
        proof {
            use_type_invariant(&*self);
        }
        let ghost old_entries = self.entries@;
        let n = self.entries.len();
        let mut i: usize = 0;
        let mut same = false;
        {
            let kb = key.as_str().as_bytes();
            while i < n
                invariant_except_break
                    !same,
                invariant
                    n == self.entries@.len(),
                    self.entries@ == old_entries,
                    i <= n,
                    kb@ == key_bytes(key@),
                    forall|j: int| 0 <= j < i ==> bytes_before(key_bytes(old_entries[j].0@), kb@),
                ensures
                    i <= n,
                    forall|j: int| 0 <= j < i ==> bytes_before(key_bytes(old_entries[j].0@), kb@),
                    same ==> i < n && old_entries[i as int].0@ == key@,
                    !same && i < n ==> bytes_before(kb@, key_bytes(old_entries[i as int].0@)),
                decreases n - i,
            {
                match compare_bytes(self.entries[i].0.as_str().as_bytes(), kb) {
                    ByteOrder::Before => {
                        i = i + 1;
                    },
                    ByteOrder::Same => {
                        proof {
                            lemma_same_bytes_same_text(old_entries[i as int].0@, key@);
                        }
                        same = true;
                        break;
                    },
                    ByteOrder::After => {
                        break;
                    },
                }
            }
        }
        let ghost k = key@;
        let ghost v = value@;
        let mut entries: Vec<(String, String)> = Vec::new();
        std::mem::swap(&mut entries, &mut self.entries);
        assert(entries@ == old_entries);
        if same {
            entries.set(i, (key, value));
            let ghost e = entries@;
            assert forall|a: int, b: int| 0 <= a < b < e.len() implies bytes_before(
                key_bytes(#[trigger] e[a].0@),
                key_bytes(#[trigger] e[b].0@),
            ) by {
                assert(old_entries[a].0@ == e[a].0@ || a == i);
                assert(old_entries[b].0@ == e[b].0@ || b == i);
            }
            proof {
                lemma_replace_view(old_entries, e, k, v, i as int);
            }
        } else {
            entries.insert(i, (key, value));
            let ghost e = entries@;
            assert forall|a: int, b: int| 0 <= a < b < e.len() implies bytes_before(
                key_bytes(#[trigger] e[a].0@),
                key_bytes(#[trigger] e[b].0@),
            ) by {
                if b < i {
                    assert(e[a] == old_entries[a] && e[b] == old_entries[b]);
                } else if b == i {
                    assert(e[a] == old_entries[a]);
                } else if a == i {
                    assert(e[b] == old_entries[b - 1]);
                    if b - 1 > i {
                        assert(bytes_before(
                            key_bytes(old_entries[i as int].0@),
                            key_bytes(old_entries[b - 1].0@),
                        ));
                        lemma_before_transitive(
                            key_bytes(k),
                            key_bytes(old_entries[i as int].0@),
                            key_bytes(old_entries[b - 1].0@),
                        );
                    }
                } else if a < i {
                    assert(e[a] == old_entries[a] && e[b] == old_entries[b - 1]);
                    if b - 1 > i {
                        assert(bytes_before(
                            key_bytes(old_entries[i as int].0@),
                            key_bytes(old_entries[b - 1].0@),
                        ));
                        lemma_before_transitive(
                            key_bytes(k),
                            key_bytes(old_entries[i as int].0@),
                            key_bytes(old_entries[b - 1].0@),
                        );
                    }
                    lemma_before_transitive(
                        key_bytes(old_entries[a].0@),
                        key_bytes(k),
                        key_bytes(old_entries[b - 1].0@),
                    );
                } else {
                    assert(e[a] == old_entries[a - 1] && e[b] == old_entries[b - 1]);
                }
            }
            proof {
                lemma_insert_view(old_entries, e, k, v, i as int);
            }
        }
        self.entries = entries;
    }
}

/// What a read gives back after a write: where `after` is `before` with
/// `value` set for `key`, `key` reads `value`, every other key reads what it
/// read before, and the number of fields grows by one exactly when `key` was
/// new.
pub proof fn lemma_read_after_write(
    before: ExtraFields,
    after: ExtraFields,
    key: Seq<char>,
    value: Seq<char>,
)
    requires
        after@ == before@.insert(key, value),
    ensures
        after@.contains_key(key),
        after@[key] == value,
        forall|other: Seq<char>|
            other != key ==> (#[trigger] after@.contains_key(other) == before@.contains_key(other)
                && (before@.contains_key(other) ==> after@[other] == before@[other])),
        after@.len() == before@.len() + (if before@.contains_key(key) {
            0int
        } else {
            1int
        }),
{
    before.lemma_finite();
    if before@.contains_key(key) {
        assert(before@.insert(key, value).dom() =~= before@.dom());
    }
}

} // verus!
