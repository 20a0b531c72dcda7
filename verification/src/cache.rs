use vstd::prelude::*;
use vstd::seq_lib::seq_to_set_is_finite;

verus! {

/// The key views of an entry list, in entry order.
pub open spec fn entry_keys(s: Seq<(String, String)>) -> Seq<Seq<char>> {
    s.map_values(|p: (String, String)| p.0@)
}

/// The position of the entry holding key `k`; meaningful only when some
/// entry holds it and, under `distinct_keys`, unique.
pub open spec fn index_of_key(s: Seq<(String, String)>, k: Seq<char>) -> int {
    choose|i: int| 0 <= i < s.len() && s[i].0@ == k
}

/// The finite map an entry list denotes: each stored key to its value.
pub open spec fn entries_map(s: Seq<(String, String)>) -> Map<Seq<char>, Seq<char>> {
    Map::new(
        |k: Seq<char>| entry_keys(s).contains(k),
        |k: Seq<char>| s[index_of_key(s, k)].1@,
    )
}

/// No two entries of the list share a key.
pub open spec fn distinct_keys(s: Seq<(String, String)>) -> bool {
    forall|i: int, j: int|
        0 <= i < j < s.len() ==> #[trigger] s[i].0@ != #[trigger] s[j].0@
}

/// Under distinct keys, entry `i` decides what the map holds at its key.
proof fn lemma_value_at(s: Seq<(String, String)>, i: int)
    requires
        distinct_keys(s),
        0 <= i < s.len(),
    ensures
        entries_map(s).contains_key(s[i].0@),
        entries_map(s)[s[i].0@] == s[i].1@,
{
    assert(entry_keys(s)[i] == s[i].0@);
    assert(entry_keys(s).contains(s[i].0@));
    let j = index_of_key(s, s[i].0@);
    assert(0 <= j < s.len() && s[j].0@ == s[i].0@);
    assert(j == i);
}

/// A key held by no entry is outside the map.
proof fn lemma_key_absent(s: Seq<(String, String)>, k: Seq<char>)
    requires
        forall|i: int| 0 <= i < s.len() ==> #[trigger] s[i].0@ != k,
    ensures
        !entries_map(s).contains_key(k),
{
    assert forall|i: int| 0 <= i < entry_keys(s).len() implies entry_keys(s)[i] != k by {
        assert(s[i].0@ != k);
    }
}

/// Replacing the entry that already holds a key denotes the inserted map.
proof fn lemma_update_entry(s: Seq<(String, String)>, i: int, kv: (String, String))
    requires
        distinct_keys(s),
        0 <= i < s.len(),
        kv.0@ == s[i].0@,
    ensures
        distinct_keys(s.update(i, kv)),
        entries_map(s.update(i, kv)) == entries_map(s).insert(kv.0@, kv.1@),
{
    let t = s.update(i, kv);
    assert forall|a: int, b: int| 0 <= a < b < t.len() implies #[trigger] t[a].0@
        != #[trigger] t[b].0@ by {
        assert(s[a].0@ != s[b].0@);
    }
    assert(entry_keys(t) =~= entry_keys(s)) by {
        assert forall|x: int| 0 <= x < t.len() implies entry_keys(t)[x] == entry_keys(s)[x] by {
            assert(t[x].0@ == s[x].0@);
        }
    }
    lemma_value_at(s, i);
    assert forall|k2: Seq<char>| #[trigger]
        entries_map(t).contains_key(k2) implies entries_map(t)[k2] == entries_map(s).insert(
        kv.0@,
        kv.1@,
    )[k2] by {
        let x = choose|x: int| 0 <= x < t.len() && #[trigger] t[x].0@ == k2;
        lemma_value_at(t, x);
        if k2 == kv.0@ {
            assert(x == i) by {
                if x != i {
                    assert(t[x].0@ == s[x].0@);
                    assert(s[x].0@ != s[i].0@);
                }
            }
        } else {
            assert(x != i);
            lemma_value_at(s, x);
        }
    }
    assert(entries_map(t) =~= entries_map(s).insert(kv.0@, kv.1@)) by {
        assert forall|k2: Seq<char>|
            entries_map(t).contains_key(k2) == #[trigger] entries_map(s).insert(
                kv.0@,
                kv.1@,
            ).contains_key(k2) by {
            assert(entry_keys(t).contains(k2) == entry_keys(s).contains(k2));
        }
    }
}

/// Appending an entry with a fresh key denotes the inserted map.
proof fn lemma_push_entry(s: Seq<(String, String)>, kv: (String, String))
    requires
        distinct_keys(s),
        forall|i: int| 0 <= i < s.len() ==> #[trigger] s[i].0@ != kv.0@,
    ensures
        distinct_keys(s.push(kv)),
        entries_map(s.push(kv)) == entries_map(s).insert(kv.0@, kv.1@),
{
    let t = s.push(kv);
    assert forall|a: int, b: int| 0 <= a < b < t.len() implies #[trigger] t[a].0@
        != #[trigger] t[b].0@ by {
        if b < s.len() {
            assert(s[a].0@ != s[b].0@);
        } else {
            assert(t[b] == kv);
            assert(t[a] == s[a]);
        }
    }
    assert forall|k2: Seq<char>| #[trigger]
        entries_map(t).contains_key(k2) implies entries_map(s).insert(kv.0@, kv.1@).contains_key(
        k2,
    ) && entries_map(t)[k2] == entries_map(s).insert(kv.0@, kv.1@)[k2] by {
        let x = choose|x: int| 0 <= x < t.len() && #[trigger] t[x].0@ == k2;
        lemma_value_at(t, x);
        if x == s.len() {
            assert(t[x] == kv);
        } else {
            assert(t[x] == s[x]);
            assert(s[x].0@ != kv.0@);
            lemma_value_at(s, x);
        }
    }
    assert forall|k2: Seq<char>| #[trigger]
        entries_map(s).insert(kv.0@, kv.1@).contains_key(k2) implies entries_map(
        t,
    ).contains_key(k2) by {
        if k2 == kv.0@ {
            assert(t[s.len() as int].0@ == k2);
            assert(entry_keys(t)[s.len() as int] == k2);
        } else {
            let x = choose|x: int| 0 <= x < s.len() && #[trigger] s[x].0@ == k2;
            assert(entry_keys(s).contains(k2));
            assert(t[x].0@ == k2);
            assert(entry_keys(t)[x] == k2);
        }
    }
    assert(entries_map(t) =~= entries_map(s).insert(kv.0@, kv.1@));
}

/// Under distinct keys, the denoted map is finite and has one key per entry.
proof fn lemma_map_size(s: Seq<(String, String)>)
    requires
        distinct_keys(s),
    ensures
        entries_map(s).dom().finite(),
        entries_map(s).dom().len() == s.len(),
{
    broadcast use seq_to_set_is_finite;

    let ks = entry_keys(s);
    assert(ks.no_duplicates()) by {
        assert forall|i: int, j: int| 0 <= i < ks.len() && 0 <= j < ks.len() && i != j implies ks[i]
            != ks[j] by {
            if i < j {
                assert(s[i].0@ != s[j].0@);
            } else {
                assert(s[j].0@ != s[i].0@);
            }
        }
    }
    assert(entries_map(s).dom() =~= ks.to_set());
    ks.unique_seq_to_set();
}

/// A string key-value store meant to live behind a reader-writer lock: many
/// concurrent shared readers or one exclusive writer at a time. The store
/// itself holds the entries; the surrounding lock (modelled in [`crate::lock`])
/// decides who may call which operation when. Lookups never fail: a key that
/// was never written reads as the sentinel `"Not found"`.
pub struct ThreadSafeCache {
    entries: Vec<(String, String)>,
}

impl View for ThreadSafeCache {
    type V = Map<Seq<char>, Seq<char>>;

    closed spec fn view(&self) -> Map<Seq<char>, Seq<char>> {
        entries_map(self.entries@)
    }
}

impl ThreadSafeCache {
    /// Well-formedness: no two entries share a key, so each key denotes one
    /// value and the entry count equals the map's size.
    pub closed spec fn wf(&self) -> bool {
        distinct_keys(self.entries@)
    }

    /// The view of the sentinel returned for absent keys.
    pub open spec fn not_found_view() -> Seq<char> {
        "Not found"@
    }

    /// Creates an empty cache.
    pub fn new() -> (c: Self)
        ensures
            c.wf(),
            c@ == Map::<Seq<char>, Seq<char>>::empty(),
    {
        let c = ThreadSafeCache { entries: Vec::new() };
        proof {
            assert(entry_keys(c.entries@) =~= Seq::<Seq<char>>::empty());
            assert(c@ =~= Map::<Seq<char>, Seq<char>>::empty());
        }
        c
    }

    /// Looks `key` up under shared access: returns a copy of the stored
    /// value, or the `"Not found"` sentinel when the key was never written.
    /// Read-only: the cache is untouched.
    pub fn read(&self, key: &str) -> (r: String)
        requires
            self.wf(),
        ensures
            self@.contains_key(key@) ==> r@ == self@[key@],
            !self@.contains_key(key@) ==> r@ == Self::not_found_view(),
    {
        let owned_key: String = key.to_owned();
        let n = self.entries.len();
        let mut i: usize = 0;
        while i < n
            invariant
                self.wf(),
                n == self.entries@.len(),
                0 <= i <= n,
                owned_key@ == key@,
                forall|j: int| 0 <= j < i ==> #[trigger] self.entries@[j].0@ != key@,
            decreases n - i,
        {
            if self.entries[i].0 == owned_key {
                proof {
                    lemma_value_at(self.entries@, i as int);
                }
                return self.entries[i].1.clone();
            }
            i = i + 1;
        }
        proof {
            lemma_key_absent(self.entries@, key@);
        }
        "Not found".to_owned()
    }

    /// Inserts or overwrites under exclusive access: afterwards the store
    /// maps `key` to `value` and every other key to what it held before.
    pub fn write(&mut self, key: String, value: String)
        requires
            old(self).wf(),
        ensures
            final(self).wf(),
            final(self)@ == old(self)@.insert(key@, value@),
    {
        let n = self.entries.len();
        let mut i: usize = 0;
        while i < n
            invariant
                self.wf(),
                *self == *old(self),
                n == self.entries@.len(),
                0 <= i <= n,
                forall|j: int| 0 <= j < i ==> #[trigger] self.entries@[j].0@ != key@,
            decreases n - i,
        {
            if self.entries[i].0 == key {
                proof {
                    lemma_update_entry(self.entries@, i as int, (key, value));
                }
                self.entries[i] = (key, value);
                return;
            }
            i = i + 1;
        }
        proof {
            lemma_key_absent(self.entries@, key@);
            lemma_push_entry(self.entries@, (key, value));
        }
        self.entries.push((key, value));
    }

    /// The number of entries, read under shared access: exactly the number
    /// of distinct keys ever written.
    pub fn size(&self) -> (n: usize)
        requires
            self.wf(),
        ensures
            n == self@.dom().len(),
    {
        proof {
            lemma_map_size(self.entries@);
        }
        self.entries.len()
    }
}

/// The cache map after a sequence of writes, applied first to last; each
/// write is a key paired with the value stored for it.
pub open spec fn apply_writes(
    m: Map<Seq<char>, Seq<char>>,
    ws: Seq<(Seq<char>, Seq<char>)>,
) -> Map<Seq<char>, Seq<char>>
    decreases ws.len(),
{
    if ws.len() == 0 {
        m
    } else {
        apply_writes(m.insert(ws[0].0, ws[0].1), ws.subrange(1, ws.len() as int))
    }
}

/// Writes that never touch `k` leave what the map holds at `k` unchanged.
proof fn lemma_writes_frame(
    m: Map<Seq<char>, Seq<char>>,
    ws: Seq<(Seq<char>, Seq<char>)>,
    k: Seq<char>,
)
    requires
        forall|i: int| 0 <= i < ws.len() ==> (#[trigger] ws[i]).0 != k,
    ensures
        apply_writes(m, ws).contains_key(k) == m.contains_key(k),
        m.contains_key(k) ==> apply_writes(m, ws)[k] == m[k],
    decreases ws.len(),
{
    if ws.len() > 0 {
        let tail = ws.subrange(1, ws.len() as int);
        assert forall|i: int| 0 <= i < tail.len() implies (#[trigger] tail[i]).0 != k by {
            assert(tail[i] == ws[i + 1]);
        }
        lemma_writes_frame(m.insert(ws[0].0, ws[0].1), tail, k);
    }
}

/// Read correctness: after `write(k, v)` completes, a read of `k` that
/// begins later returns exactly `v`, as long as no subsequent write touches
/// `k` — whatever writes to other keys come in between. Combined with the
/// `ensures` of [`ThreadSafeCache::write`] and [`ThreadSafeCache::read`],
/// the read's result view is `v`.
pub proof fn lemma_read_after_write(
    m: Map<Seq<char>, Seq<char>>,
    k: Seq<char>,
    v: Seq<char>,
    ws: Seq<(Seq<char>, Seq<char>)>,
)
    requires
        forall|i: int| 0 <= i < ws.len() ==> (#[trigger] ws[i]).0 != k,
    ensures
        apply_writes(m.insert(k, v), ws).contains_key(k),
        apply_writes(m.insert(k, v), ws)[k] == v,
{
    lemma_writes_frame(m.insert(k, v), ws, k);
}

/// Absence correctness: starting from an empty cache, a key that no write
/// ever touches stays outside the map, so by the `ensures` of
/// [`ThreadSafeCache::read`] a read of it returns the `"Not found"`
/// sentinel — never a stale or default value.
pub proof fn lemma_absent_key_reads_not_found(ws: Seq<(Seq<char>, Seq<char>)>, k: Seq<char>)
    requires
        forall|i: int| 0 <= i < ws.len() ==> (#[trigger] ws[i]).0 != k,
    ensures
        !apply_writes(Map::<Seq<char>, Seq<char>>::empty(), ws).contains_key(k),
{
    lemma_writes_frame(Map::<Seq<char>, Seq<char>>::empty(), ws, k);
}

/// Idempotent overwrite: writing `v1` then `v2` under the same key leaves
/// the cache exactly as writing `v2` alone would, a read of the key returns
/// `v2`, and the second write of an already present key leaves the size
/// unchanged — size grows only on the first insertion of a new key.
pub proof fn lemma_overwrite(m: Map<Seq<char>, Seq<char>>, k: Seq<char>, v1: Seq<char>, v2: Seq<char>)
    ensures
        m.insert(k, v1).insert(k, v2) == m.insert(k, v2),
        m.insert(k, v1).insert(k, v2)[k] == v2,
        m.dom().finite() ==> m.insert(k, v1).insert(k, v2).dom().len() == m.insert(
            k,
            v1,
        ).dom().len(),
{
    assert(m.insert(k, v1).insert(k, v2) =~= m.insert(k, v2));
    if m.dom().finite() {
        assert(m.insert(k, v1).insert(k, v2).dom() =~= m.insert(k, v1).dom());
    }
}

/// Inserting a fresh key grows a finite map by one; inserting a present key
/// does not grow it.
pub proof fn lemma_insert_size(m: Map<Seq<char>, Seq<char>>, k: Seq<char>, v: Seq<char>)
    requires
        m.dom().finite(),
    ensures
        m.insert(k, v).dom().finite(),
        !m.contains_key(k) ==> m.insert(k, v).dom().len() == m.dom().len() + 1,
        m.contains_key(k) ==> m.insert(k, v).dom().len() == m.dom().len(),
{
    assert(m.insert(k, v).dom() =~= m.dom().insert(k));
    if m.contains_key(k) {
        assert(m.dom().insert(k) =~= m.dom());
    }
}

/// Size consistency: after any number of writes under pairwise distinct
/// keys, all of them new to the map, the size has grown by exactly the
/// number of writes — and reads, which take `&self`, cannot change it.
proof fn lemma_distinct_writes_size(m: Map<Seq<char>, Seq<char>>, ws: Seq<(Seq<char>, Seq<char>)>)
    requires
        m.dom().finite(),
        forall|i: int, j: int|
            0 <= i < j < ws.len() ==> (#[trigger] ws[i]).0 != (#[trigger] ws[j]).0,
        forall|i: int| 0 <= i < ws.len() ==> !m.contains_key((#[trigger] ws[i]).0),
    ensures
        apply_writes(m, ws).dom().finite(),
        apply_writes(m, ws).dom().len() == m.dom().len() + ws.len(),
    decreases ws.len(),
{
    if ws.len() > 0 {
        let m1 = m.insert(ws[0].0, ws[0].1);
        lemma_insert_size(m, ws[0].0, ws[0].1);
        let tail = ws.subrange(1, ws.len() as int);
        assert forall|i: int, j: int|
            0 <= i < j < tail.len() implies (#[trigger] tail[i]).0 != (#[trigger] tail[j]).0 by {
            assert(tail[i] == ws[i + 1]);
            assert(tail[j] == ws[j + 1]);
        }
        assert forall|i: int| 0 <= i < tail.len() implies !m1.contains_key(
            (#[trigger] tail[i]).0,
        ) by {
            assert(tail[i] == ws[i + 1]);
            assert(ws[0].0 != ws[i + 1].0);
        }
        lemma_distinct_writes_size(m1, tail);
    }
}

/// Size consistency from an empty cache: `W` distinct-key writes (and any
/// number of reads) leave `size()` returning exactly `W`.
pub proof fn lemma_size_after_distinct_writes(ws: Seq<(Seq<char>, Seq<char>)>)
    requires
        forall|i: int, j: int|
            0 <= i < j < ws.len() ==> (#[trigger] ws[i]).0 != (#[trigger] ws[j]).0,
    ensures
        apply_writes(Map::<Seq<char>, Seq<char>>::empty(), ws).dom().finite(),
        apply_writes(Map::<Seq<char>, Seq<char>>::empty(), ws).dom().len() == ws.len(),
{
    let m = Map::<Seq<char>, Seq<char>>::empty();
    assert(m.dom() =~= Set::<Seq<char>>::empty());
    lemma_distinct_writes_size(m, ws);
}

} // verus!
