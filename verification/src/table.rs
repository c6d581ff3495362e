//! An open-addressing hash table from byte-string keys to values, with
//! linear probing, tombstone deletion, and growth at a load factor of
//! three quarters.  It backs both the global-variable table and the
//! string-interning set.
use vstd::prelude::*;
use crate::value::{AbsValue, Value};
use crate::text::bytes_equal;

verus! {

/// One slot of the table: never used, used and since deleted, or holding
/// a key and its value.
pub enum Entry {
    Empty,
    Tombstone,
    Occupied { key: Vec<u8>, value: Value },
}

impl Entry {
    /// The slot holds this key.
    pub open spec fn is_occupied_with(&self, k: Seq<u8>) -> bool {
        self matches Entry::Occupied { key, value: _ } && key@ == k
    }
}

/// The key of an occupied slot.
pub open spec fn entry_key(e: Entry) -> Seq<u8> {
    match e {
        Entry::Occupied { key, value } => key@,
        _ => Seq::empty(),
    }
}

/// The value of an occupied slot.
pub open spec fn entry_val(e: Entry) -> AbsValue {
    match e {
        Entry::Occupied { key, value } => value@,
        _ => AbsValue::Nil,
    }
}

/// One step of the 32-bit FNV-1a hash: fold a byte in, then multiply by
/// the FNV prime modulo 2^32.
pub open spec fn fnv_step(h: u32, b: u8) -> u32 {
    ((((h ^ (b as u32)) as u64) * 16777619) % 0x1_0000_0000) as u32
}

/// The FNV-1a hash of the first `n` bytes, from the FNV offset basis.
pub open spec fn fnv_prefix(s: Seq<u8>, n: int) -> u32
    decreases n,
{
    if n <= 0 {
        2166136261u32
    } else {
        fnv_step(fnv_prefix(s, n - 1), s[n - 1])
    }
}

/// The 32-bit FNV-1a hash of a byte string.
pub open spec fn spec_hash(s: Seq<u8>) -> u32 {
    fnv_prefix(s, s.len() as int)
}

/// The 32-bit FNV-1a hash of a byte string.
pub fn hash_string(key: &[u8]) -> (r: u32)
    ensures
        r == spec_hash(key@),
{
    let mut hash: u32 = 2166136261;
    let mut i: usize = 0;
    while i < key.len()
        invariant
            i <= key@.len(),
            hash == fnv_prefix(key@, i as int),
        decreases key@.len() - i,
    {
        let folded: u32 = hash ^ (key[i] as u32);
        hash = (((folded as u64) * 16777619) % 0x1_0000_0000) as u32;
        i = i + 1;
    }
    hash
}

/// How many slots are not `Empty` (occupied slots and tombstones both).
pub open spec fn nonempty_count(s: Seq<Entry>) -> int
    decreases s.len(),
{
    if s.len() == 0 {
        0
    } else {
        nonempty_count(s.drop_last()) + if !(s.last() is Empty) {
            1int
        } else {
            0int
        }
    }
}

/// How many slots are occupied.
pub open spec fn occupied_count(s: Seq<Entry>) -> int
    decreases s.len(),
{
    if s.len() == 0 {
        0
    } else {
        occupied_count(s.drop_last()) + if s.last() is Occupied {
            1int
        } else {
            0int
        }
    }
}

proof fn lemma_counts_bounds(s: Seq<Entry>)
    ensures
        0 <= occupied_count(s) <= nonempty_count(s) <= s.len(),
    decreases s.len(),
{
    if s.len() > 0 {
        lemma_counts_bounds(s.drop_last());
    }
}

proof fn lemma_count_update(s: Seq<Entry>, i: int, e: Entry)
    requires
        0 <= i < s.len(),
    ensures
        nonempty_count(s.update(i, e)) == nonempty_count(s) + (if !(e is Empty) {
            1int
        } else {
            0int
        }) - (if !(s[i] is Empty) {
            1int
        } else {
            0int
        }),
        occupied_count(s.update(i, e)) == occupied_count(s) + (if e is Occupied {
            1int
        } else {
            0int
        }) - (if s[i] is Occupied {
            1int
        } else {
            0int
        }),
    decreases s.len(),
{
    if i == s.len() - 1 {
        assert(s.update(i, e).drop_last() =~= s.drop_last());
        assert(s.update(i, e).last() == e);
    } else {
        assert(s.update(i, e).drop_last() =~= s.drop_last().update(i, e));
        assert(s.update(i, e).last() == s.last());
        lemma_count_update(s.drop_last(), i, e);
    }
}

proof fn lemma_count_all_nonempty(s: Seq<Entry>)
    requires
        forall|i: int| 0 <= i < s.len() ==> !((#[trigger] s[i]) is Empty),
    ensures
        nonempty_count(s) == s.len(),
    decreases s.len(),
{
    if s.len() > 0 {
        lemma_count_all_nonempty(s.drop_last());
    }
}

proof fn lemma_count_all_empty(s: Seq<Entry>)
    requires
        forall|i: int| 0 <= i < s.len() ==> (#[trigger] s[i]) is Empty,
    ensures
        nonempty_count(s) == 0,
        occupied_count(s) == 0,
    decreases s.len(),
{
    if s.len() > 0 {
        lemma_count_all_empty(s.drop_last());
    }
}

/// A power of two: one, or an even number whose half is a power of two.
pub open spec fn is_pow2(n: int) -> bool
    decreases n,
{
    if n <= 0 {
        false
    } else if n == 1 {
        true
    } else {
        n % 2 == 0 && is_pow2(n / 2)
    }
}

/// No two occupied slots hold the same key.
pub open spec fn unique_keys(s: Seq<Entry>) -> bool {
    forall|i: int, j: int|
        0 <= i < s.len() && 0 <= j < s.len() && i != j && (#[trigger] s[i]) is Occupied
            && (#[trigger] s[j]) is Occupied ==> entry_key(s[i]) != entry_key(s[j])
}

/// The slot where a key's probe sequence starts.
pub open spec fn home_of(k: Seq<u8>, cap: int) -> int {
    spec_hash(k) as int % cap
}

/// The `d`-th slot of the probe sequence from `home`, for `0 <= d < cap`
/// and `0 <= home < cap`: linear probing wraps around the table.
pub open spec fn probe_slot(home: int, d: int, cap: int) -> int {
    if home + d < cap {
        home + d
    } else {
        home + d - cap
    }
}

/// How many probe steps from `home` reach slot `i`.
pub open spec fn probe_dist(home: int, i: int, cap: int) -> int {
    if i >= home {
        i - home
    } else {
        i - home + cap
    }
}

/// Every slot fewer than `dist` probe steps from `home` is not `Empty`.
pub open spec fn path_nonempty(s: Seq<Entry>, home: int, dist: int) -> bool {
    forall|d: int|
        0 <= d < dist ==> !((#[trigger] s[probe_slot(home, d, s.len() as int)]) is Empty)
}

/// No slot fewer than `dist` probe steps from `home` holds the key `k`.
pub open spec fn path_no_match(s: Seq<Entry>, home: int, dist: int, k: Seq<u8>) -> bool {
    forall|d: int|
        0 <= d < dist ==> !(#[trigger] s[probe_slot(home, d, s.len() as int)]).is_occupied_with(k)
}

/// Every occupied slot is reachable from its key's home slot without
/// crossing an `Empty` slot: the probe chains that lookups follow are
/// intact.
pub open spec fn probe_ok(s: Seq<Entry>) -> bool {
    forall|i: int|
        0 <= i < s.len() && (#[trigger] s[i]) is Occupied ==> path_nonempty(
            s,
            home_of(entry_key(s[i]), s.len() as int),
            probe_dist(home_of(entry_key(s[i]), s.len() as int), i, s.len() as int),
        )
}

/// The map from keys to values held by the occupied slots.
pub open spec fn slot_map(s: Seq<Entry>) -> Map<Seq<u8>, AbsValue>
    decreases s.len(),
{
    if s.len() == 0 {
        Map::empty()
    } else if s.last() is Occupied {
        slot_map(s.drop_last()).insert(entry_key(s.last()), entry_val(s.last()))
    } else {
        slot_map(s.drop_last())
    }
}

proof fn lemma_slot_map_contains(s: Seq<Entry>, k: Seq<u8>)
    ensures
        slot_map(s).contains_key(k) <==> exists|i: int|
            0 <= i < s.len() && (#[trigger] s[i]).is_occupied_with(k),
    decreases s.len(),
{
    if s.len() > 0 {
        lemma_slot_map_contains(s.drop_last(), k);
        if s.last().is_occupied_with(k) {
            assert(s[s.len() - 1].is_occupied_with(k));
        } else if slot_map(s).contains_key(k) {
            let i = choose|i: int| 0 <= i < s.drop_last().len() && (#[trigger] s.drop_last()[i]).is_occupied_with(k);
            assert(s[i].is_occupied_with(k));
        } else {
            if exists|i: int| 0 <= i < s.len() && (#[trigger] s[i]).is_occupied_with(k) {
                let i = choose|i: int| 0 <= i < s.len() && (#[trigger] s[i]).is_occupied_with(k);
                assert(i < s.len() - 1);
                assert(s.drop_last()[i].is_occupied_with(k));
            }
        }
    }
}

proof fn lemma_slot_map_value(s: Seq<Entry>, i: int)
    requires
        unique_keys(s),
        0 <= i < s.len(),
        s[i] is Occupied,
    ensures
        slot_map(s).contains_key(entry_key(s[i])),
        slot_map(s)[entry_key(s[i])] == entry_val(s[i]),
    decreases s.len(),
{
    assert(s.drop_last() =~= s.subrange(0, s.len() - 1));
    if i == s.len() - 1 {
    } else {
        assert(s.last() == s[s.len() - 1]);
        if s.last() is Occupied {
            assert(entry_key(s[s.len() - 1]) != entry_key(s[i]));
        }
        lemma_slot_map_value(s.drop_last(), i);
    }
}

/// What probing for a key finds: either the slot occupied by the key, or
/// a free slot at which the key may be stored, in which case the key is
/// nowhere in the table.  Either way the probe path up to the found slot
/// holds no `Empty` slot and no slot occupied by the key.
pub open spec fn find_post(s: Seq<Entry>, k: Seq<u8>, r: int) -> bool {
    &&& 0 <= r < s.len()
    &&& (s[r].is_occupied_with(k) || ((s[r] is Empty || s[r] is Tombstone) && forall|i: int|
        0 <= i < s.len() ==> !(#[trigger] s[i]).is_occupied_with(k)))
    &&& path_nonempty(s, home_of(k, s.len() as int), probe_dist(home_of(k, s.len() as int), r, s.len() as int))
    &&& path_no_match(s, home_of(k, s.len() as int), probe_dist(home_of(k, s.len() as int), r, s.len() as int), k)
}

/// When a probe path from a key's home reaches an `Empty` slot without
/// meeting the key, the key is nowhere in the table: any occupied slot
/// holding it would have an intact probe chain crossing that slot.
proof fn lemma_probe_miss(s: Seq<Entry>, k: Seq<u8>, d: int)
    requires
        s.len() > 0,
        probe_ok(s),
        0 <= d < s.len(),
        path_no_match(s, home_of(k, s.len() as int), d, k),
        s[probe_slot(home_of(k, s.len() as int), d, s.len() as int)] is Empty,
    ensures
        forall|i: int| 0 <= i < s.len() ==> !(#[trigger] s[i]).is_occupied_with(k),
{
    let cap = s.len() as int;
    let home = home_of(k, cap);
    assert forall|i: int| 0 <= i < s.len() implies !(#[trigger] s[i]).is_occupied_with(k) by {
        if s[i].is_occupied_with(k) {
            assert(entry_key(s[i]) == k);
            let di = probe_dist(home, i, cap);
            assert(probe_slot(home, di, cap) == i);
            if di < d {
                assert(!s[probe_slot(home, di, cap)].is_occupied_with(k));
            } else if di == d {
                assert(s[i] is Empty);
            } else {
                assert(path_nonempty(s, home, di));
                assert(!(s[probe_slot(home, d, cap)] is Empty));
            }
        }
    }
}

/// If every slot on the full probe cycle is filled, the table has no
/// `Empty` slot at all, so the count of filled slots is the capacity.
proof fn lemma_probe_full(s: Seq<Entry>, home: int)
    requires
        s.len() > 0,
        0 <= home < s.len(),
        path_nonempty(s, home, s.len() as int),
    ensures
        nonempty_count(s) == s.len(),
{
    let cap = s.len() as int;
    assert forall|i: int| 0 <= i < s.len() implies !((#[trigger] s[i]) is Empty) by {
        let di = probe_dist(home, i, cap);
        assert(probe_slot(home, di, cap) == i);
        assert(!(s[probe_slot(home, di, cap)] is Empty));
    }
    lemma_count_all_nonempty(s);
}

/// Replacing a slot by a filled one keeps every probe chain intact; a
/// newly occupied slot also needs its own chain clear.
proof fn lemma_probe_ok_update(s: Seq<Entry>, idx: int, e: Entry)
    requires
        probe_ok(s),
        0 <= idx < s.len(),
        !(e is Empty),
        e is Occupied ==> path_nonempty(
            s,
            home_of(entry_key(e), s.len() as int),
            probe_dist(home_of(entry_key(e), s.len() as int), idx, s.len() as int),
        ),
    ensures
        probe_ok(s.update(idx, e)),
{
    let t = s.update(idx, e);
    let cap = s.len() as int;
    assert forall|i: int|
        0 <= i < t.len() && (#[trigger] t[i]) is Occupied implies path_nonempty(
        t,
        home_of(entry_key(t[i]), cap),
        probe_dist(home_of(entry_key(t[i]), cap), i, cap),
    ) by {
        let home = home_of(entry_key(t[i]), cap);
        let di = probe_dist(home, i, cap);
        assert(path_nonempty(s, home, di));
        assert forall|dd: int| 0 <= dd < di implies !((#[trigger] t[probe_slot(home, dd, cap)])
            is Empty) by {
            if probe_slot(home, dd, cap) != idx {
                assert(!(s[probe_slot(home, dd, cap)] is Empty));
            }
        }
    }
}

/// Storing a key at the slot probing found for it updates the key's
/// entry in the map the table holds and keeps keys unique.
proof fn lemma_slot_map_insert(s: Seq<Entry>, idx: int, e: Entry)
    requires
        unique_keys(s),
        0 <= idx < s.len(),
        e is Occupied,
        s[idx].is_occupied_with(entry_key(e)) || (!(s[idx] is Occupied) && forall|i: int|
            0 <= i < s.len() ==> !(#[trigger] s[i]).is_occupied_with(entry_key(e))),
    ensures
        unique_keys(s.update(idx, e)),
        slot_map(s.update(idx, e)) == slot_map(s).insert(entry_key(e), entry_val(e)),
{
    let t = s.update(idx, e);
    let k = entry_key(e);
    assert forall|i: int, j: int|
        0 <= i < t.len() && 0 <= j < t.len() && i != j && (#[trigger] t[i]) is Occupied
            && (#[trigger] t[j]) is Occupied implies entry_key(t[i]) != entry_key(t[j]) by {
        if i == idx {
            assert(!s[j].is_occupied_with(k));
        } else if j == idx {
            assert(!s[i].is_occupied_with(k));
        }
    }
    assert forall|k2: Seq<u8>| true implies #[trigger] slot_map(t).contains_key(k2) == slot_map(
        s,
    ).insert(k, entry_val(e)).contains_key(k2) && (slot_map(t).contains_key(k2)
        ==> slot_map(t)[k2] == slot_map(s).insert(k, entry_val(e))[k2]) by {
        lemma_slot_map_contains(s, k2);
        lemma_slot_map_contains(t, k2);
        if k2 == k {
            assert(t[idx].is_occupied_with(k2));
            lemma_slot_map_value(t, idx);
        } else {
            if slot_map(t).contains_key(k2) {
                let i = choose|i: int| 0 <= i < t.len() && (#[trigger] t[i]).is_occupied_with(k2);
                assert(i != idx);
                assert(s[i].is_occupied_with(k2));
                lemma_slot_map_value(t, i);
                lemma_slot_map_value(s, i);
            }
            if slot_map(s).contains_key(k2) {
                let i = choose|i: int| 0 <= i < s.len() && (#[trigger] s[i]).is_occupied_with(k2);
                assert(i != idx || s[idx].is_occupied_with(k2));
                assert(i != idx);
                assert(t[i].is_occupied_with(k2));
            }
        }
    }
    assert(slot_map(t) =~= slot_map(s).insert(k, entry_val(e)));
}

/// Replacing an occupied slot by a tombstone removes exactly its key
/// from the map the table holds.
proof fn lemma_slot_map_remove(s: Seq<Entry>, idx: int)
    requires
        unique_keys(s),
        0 <= idx < s.len(),
        s[idx] is Occupied,
    ensures
        unique_keys(s.update(idx, Entry::Tombstone)),
        slot_map(s.update(idx, Entry::Tombstone)) == slot_map(s).remove(entry_key(s[idx])),
{
    let t = s.update(idx, Entry::Tombstone);
    let k = entry_key(s[idx]);
    assert forall|k2: Seq<u8>| true implies #[trigger] slot_map(t).contains_key(k2) == slot_map(
        s,
    ).remove(k).contains_key(k2) && (slot_map(t).contains_key(k2) ==> slot_map(t)[k2] == slot_map(
        s,
    ).remove(k)[k2]) by {
        lemma_slot_map_contains(s, k2);
        lemma_slot_map_contains(t, k2);
        if k2 == k {
            if slot_map(t).contains_key(k2) {
                let i = choose|i: int| 0 <= i < t.len() && (#[trigger] t[i]).is_occupied_with(k2);
                assert(i != idx);
                assert(s[i].is_occupied_with(k2));
                assert(s[idx].is_occupied_with(k2));
                assert(false);
            }
        } else {
            if slot_map(t).contains_key(k2) {
                let i = choose|i: int| 0 <= i < t.len() && (#[trigger] t[i]).is_occupied_with(k2);
                assert(i != idx);
                assert(s[i].is_occupied_with(k2));
                lemma_slot_map_value(t, i);
                lemma_slot_map_value(s, i);
            }
            if slot_map(s).contains_key(k2) {
                let i = choose|i: int| 0 <= i < s.len() && (#[trigger] s[i]).is_occupied_with(k2);
                assert(i != idx);
                assert(t[i].is_occupied_with(k2));
            }
        }
    }
    assert(slot_map(t) =~= slot_map(s).remove(k));
}

proof fn lemma_slot_map_all_empty(s: Seq<Entry>)
    requires
        forall|i: int| 0 <= i < s.len() ==> (#[trigger] s[i]) is Empty,
    ensures
        slot_map(s) == Map::<Seq<u8>, AbsValue>::empty(),
    decreases s.len(),
{
    if s.len() > 0 {
        lemma_slot_map_all_empty(s.drop_last());
    }
}

proof fn lemma_occupied_subrange_le(s: Seq<Entry>, n: int)
    requires
        0 <= n <= s.len(),
    ensures
        occupied_count(s.subrange(0, n)) <= occupied_count(s),
    decreases s.len(),
{
    if n == s.len() {
        assert(s.subrange(0, n) =~= s);
    } else {
        assert(s.drop_last().subrange(0, n) =~= s.subrange(0, n));
        lemma_occupied_subrange_le(s.drop_last(), n);
    }
}

/// The hash table: a vector of slots and the number of slots in use
/// (occupied slots and tombstones both; the load that probing sees).
pub struct Table {
    pub entries: Vec<Entry>,
    pub count: usize,
}

impl View for Table {
    type V = Map<Seq<u8>, AbsValue>;

    open spec fn view(&self) -> Map<Seq<u8>, AbsValue> {
        slot_map(self.entries@)
    }
}

impl Table {
    pub open spec fn cap(&self) -> int {
        self.entries@.len() as int
    }

    /// The table's invariant: the capacity is zero or at least eight and
    /// well below the address-space limit, `count` counts the slots in
    /// use, the load stays at or below three quarters, keys are unique,
    /// and probe chains are intact.
    pub open spec fn wf(&self) -> bool {
        &&& (self.cap() == 0 || (self.cap() >= 8 && is_pow2(self.cap())))
        &&& self.cap() <= usize::MAX as int / 4
        &&& self.count == nonempty_count(self.entries@)
        &&& (self.cap() > 0 ==> self.count <= self.cap() * 3 / 4)
        &&& unique_keys(self.entries@)
        &&& probe_ok(self.entries@)
    }

    pub fn new() -> (r: Self)
        ensures
            r.wf(),
            r@ == Map::<Seq<u8>, AbsValue>::empty(),
            r.count == 0,
    {
        Table { entries: Vec::new(), count: 0 }
    }

    /// Probe for a key: return the slot holding it, or the slot at which
    /// it should be stored — the first tombstone seen, else the first
    /// empty slot.
    fn find_entry(&self, key: &[u8]) -> (r: usize)
        requires
            self.cap() > 0,
            self.cap() <= usize::MAX as int / 4,
            nonempty_count(self.entries@) < self.cap(),
            unique_keys(self.entries@),
            probe_ok(self.entries@),
        ensures
            find_post(self.entries@, key@, r as int),
    {
        let ghost s = self.entries@;
        let cap = self.entries.len();
        let ghost capi = cap as int;
        let hash = hash_string(key);
        let home: usize = (hash as usize) % cap;
        let ghost homei = home as int;
        proof {
            assert(homei == home_of(key@, capi));
        }
        let mut tombstone: Option<usize> = None;
        let mut d: usize = 0;
        while d < cap
            invariant
                s == self.entries@,
                capi == s.len(),
                0 < capi,
                capi <= usize::MAX as int / 4,
                nonempty_count(s) < capi,
                unique_keys(s),
                probe_ok(s),
                0 <= homei < capi,
                home as int == homei,
                homei == home_of(key@, capi),
                d <= cap,
                capi == cap,
                path_nonempty(s, homei, d as int),
                path_no_match(s, homei, d as int, key@),
                match tombstone {
                    Some(t) => t < cap && s[t as int] is Tombstone && probe_dist(homei, t as int, capi) < d,
                    None => true,
                },
            decreases cap - d,
        {
            let mut idx: usize = home + d;
            if idx >= cap {
                idx = idx - cap;
            }
            proof {
                assert(idx as int == probe_slot(homei, d as int, capi));
            }
            match &self.entries[idx] {
                Entry::Empty => {
                    proof {
                        lemma_probe_miss(s, key@, d as int);
                    }
                    match tombstone {
                        Some(t) => {
                            return t;
                        },
                        None => {
                            return idx;
                        },
                    }
                },
                Entry::Occupied { key: entry_key_bytes, value: _ } => {
                    if bytes_equal(entry_key_bytes.as_slice(), key) {
                        return idx;
                    }
                },
                Entry::Tombstone => {
                    if tombstone.is_none() {
                        tombstone = Some(idx);
                    }
                },
            }
            d = d + 1;
            proof {
                assert forall|dd: int| 0 <= dd < d as int implies !((#[trigger] s[probe_slot(
                    homei,
                    dd,
                    capi,
                )]) is Empty) by {}
                assert forall|dd: int| 0 <= dd < d as int implies !(#[trigger] s[probe_slot(
                    homei,
                    dd,
                    capi,
                )]).is_occupied_with(key@) by {}
            }
        }
        proof {
            lemma_probe_full(s, homei);
        }
        unreached()
    }

    /// Store a value under a key, growing the table first when the load
    /// would pass three quarters.  Returns whether the key was absent.
    /// The count limit is a machine bound: a further doubling of the
    /// table must fit in the address space.
    pub fn set(&mut self, key: Vec<u8>, value: Value) -> (r: bool)
        requires
            old(self).wf(),
            old(self).count < usize::MAX / 16,
        ensures
            final(self).wf(),
            final(self)@ == old(self)@.insert(key@, value@),
            r == !old(self)@.contains_key(key@),
            final(self).count <= old(self).count + 1,
    {
        let len = self.entries.len();
        if (self.count as u128) + 1 > (len as u128) * 3 / 4 {
            let capacity = if len < 8 {
                8
            } else {
                len * 2
            };
            proof {
                lemma_counts_bounds(self.entries@);
                reveal_with_fuel(is_pow2, 5);
                assert(is_pow2(8));
                if len >= 8 {
                    assert(is_pow2(2 * len));
                }
            }
            self.adjust_capacity(capacity);
        }
        let ghost s = self.entries@;
        let ghost capi = self.cap();
        let idx = self.find_entry(key.as_slice());
        let ghost k = key@;
        proof {
            lemma_slot_map_contains(s, k);
        }
        let is_new = !matches!(&self.entries[idx], Entry::Occupied { .. });
        let was_empty = matches!(&self.entries[idx], Entry::Empty);
        if was_empty {
            self.count = self.count + 1;
        }
        let ghost e = Entry::Occupied { key: key, value: value };
        proof {
            lemma_count_update(s, idx as int, e);
            lemma_probe_ok_update(s, idx as int, e);
            lemma_slot_map_insert(s, idx as int, e);
        }
        self.entries.set(idx, Entry::Occupied { key, value });
        proof {
            assert(self.entries@ == s.update(idx as int, e));
        }
        is_new
    }

    /// The value stored under a key, if the key is present.
    pub fn get(&self, key: &[u8]) -> (r: Option<&Value>)
        requires
            self.wf(),
        ensures
            match r {
                Some(v) => self@.contains_key(key@) && v@ == self@[key@],
                None => !self@.contains_key(key@),
            },
    {
        proof {
            lemma_slot_map_contains(self.entries@, key@);
        }
        if self.entries.len() == 0 {
            return None;
        }
        let idx = self.find_entry(key);
        match &self.entries[idx] {
            Entry::Occupied { key: _, value } => {
                proof {
                    lemma_slot_map_value(self.entries@, idx as int);
                }
                Some(value)
            },
            _ => None,
        }
    }

    /// Remove a key, leaving a tombstone so that probe chains through the
    /// slot stay intact.  Returns whether the key was present.
    pub fn delete(&mut self, key: &[u8]) -> (r: bool)
        requires
            old(self).wf(),
        ensures
            final(self).wf(),
            final(self)@ == old(self)@.remove(key@),
            r == old(self)@.contains_key(key@),
            final(self).count == old(self).count,
    {
        let ghost s = self.entries@;
        proof {
            lemma_slot_map_contains(s, key@);
        }
        if self.entries.len() == 0 {
            proof {
                assert(slot_map(s) =~= slot_map(s).remove(key@));
            }
            return false;
        }
        let idx = self.find_entry(key);
        let occupied = matches!(&self.entries[idx], Entry::Occupied { .. });
        if occupied {
            proof {
                lemma_count_update(s, idx as int, Entry::Tombstone);
                lemma_probe_ok_update(s, idx as int, Entry::Tombstone);
                lemma_slot_map_remove(s, idx as int);
            }
            self.entries.set(idx, Entry::Tombstone);
            true
        } else {
            proof {
                assert(slot_map(s) =~= slot_map(s).remove(key@));
            }
            false
        }
    }

    /// Look a string up by content, with its hash precomputed; return the
    /// stored key, which holds the same bytes.
    pub fn find_string(&self, string: &[u8], hash: u32) -> (r: Option<&Vec<u8>>)
        requires
            self.wf(),
            hash == spec_hash(string@),
        ensures
            match r {
                Some(stored) => stored@ == string@ && self@.contains_key(string@),
                None => !self@.contains_key(string@),
            },
    {
        proof {
            lemma_slot_map_contains(self.entries@, string@);
        }
        if self.entries.len() == 0 {
            return None;
        }
        let idx = self.find_entry(string);
        match &self.entries[idx] {
            Entry::Occupied { key, value: _ } => Some(key),
            _ => None,
        }
    }

    /// Move every occupied slot into a fresh table of the given capacity,
    /// dropping tombstones and recounting.
    fn adjust_capacity(&mut self, capacity: usize)
        requires
            old(self).wf(),
            capacity >= 8,
            is_pow2(capacity as int),
            capacity <= usize::MAX / 4,
            nonempty_count(old(self).entries@) < capacity,
        ensures
            final(self).entries@.len() == capacity,
            final(self).count == occupied_count(old(self).entries@),
            final(self).count == nonempty_count(final(self).entries@),
            unique_keys(final(self).entries@),
            probe_ok(final(self).entries@),
            final(self)@ == old(self)@,
    {
        let ghost olds = old(self).entries@;
        proof {
            lemma_counts_bounds(olds);
        }
        let mut source: Vec<Entry> = Vec::new();
        let mut j: usize = 0;
        while j < capacity
            invariant
                source@.len() == j,
                j <= capacity,
                forall|t: int| 0 <= t < j ==> (#[trigger] source@[t]) is Empty,
            decreases capacity - j,
        {
            source.push(Entry::Empty);
            j = j + 1;
        }
        core::mem::swap(&mut self.entries, &mut source);
        self.count = 0;
        proof {
            lemma_count_all_empty(self.entries@);
            lemma_slot_map_all_empty(self.entries@);
            assert(olds.subrange(0, 0) =~= Seq::<Entry>::empty());
        }
        let mut i: usize = 0;
        while i < source.len()
            invariant
                source@.len() == olds.len(),
                forall|t: int| i <= t < olds.len() ==> source@[t] == olds[t],
                i <= olds.len(),
                unique_keys(olds),
                occupied_count(olds) < capacity,
                capacity >= 8,
                capacity <= usize::MAX / 4,
                self.entries@.len() == capacity,
                unique_keys(self.entries@),
                probe_ok(self.entries@),
                forall|t: int| 0 <= t < capacity ==> !((#[trigger] self.entries@[t]) is Tombstone),
                self.count == nonempty_count(self.entries@),
                self.count == occupied_count(olds.subrange(0, i as int)),
                slot_map(self.entries@) == slot_map(olds.subrange(0, i as int)),
            decreases source@.len() - i,
        {
            let ghost s = self.entries@;
            let ghost prefix = olds.subrange(0, i as int);
            proof {
                assert(olds.subrange(0, i + 1).drop_last() =~= prefix);
                assert(olds.subrange(0, i + 1).last() == olds[i as int]);
                lemma_occupied_subrange_le(olds, i + 1);
            }
            let mut taken = Entry::Empty;
            source.set_and_swap(i, &mut taken);
            match taken {
                Entry::Occupied { key, value } => {
                    proof {
                        lemma_slot_map_contains(s, key@);
                        if exists|t: int| 0 <= t < s.len() && (#[trigger] s[t]).is_occupied_with(
                            key@,
                        ) {
                            lemma_slot_map_contains(prefix, key@);
                            let t = choose|t: int|
                                0 <= t < prefix.len() && (#[trigger] prefix[t]).is_occupied_with(
                                    key@,
                                );
                            assert(olds[t].is_occupied_with(key@));
                            assert(olds[i as int].is_occupied_with(key@));
                            assert(false);
                        }
                        lemma_counts_bounds(s);
                    }
                    let idx = find_entry_in(&self.entries, key.as_slice());
                    let ghost e = Entry::Occupied { key: key, value: value };
                    proof {
                        assert(s[idx as int] is Empty);
                        lemma_count_update(s, idx as int, e);
                        lemma_probe_ok_update(s, idx as int, e);
                        lemma_slot_map_insert(s, idx as int, e);
                    }
                    self.entries.set(idx, Entry::Occupied { key, value });
                    self.count = self.count + 1;
                    proof {
                        assert(self.entries@ == s.update(idx as int, e));
                        assert(slot_map(olds.subrange(0, i + 1)) == slot_map(prefix).insert(
                            entry_key(e),
                            entry_val(e),
                        ));
                    }
                },
                _ => {
                    proof {
                        assert(slot_map(olds.subrange(0, i + 1)) == slot_map(prefix));
                    }
                },
            }
            i = i + 1;
        }
        proof {
            assert(olds.subrange(0, olds.len() as int) =~= olds);
        }
    }
}

/// One operation of a set/delete history: store a value under a key, or
/// delete a key.
pub enum TableOp {
    SetOp { key: Seq<u8>, value: AbsValue },
    DeleteOp { key: Seq<u8> },
}

/// The map a history of operations leaves behind, starting from `m`:
/// `set` inserts and `delete` removes, exactly as `Table::set` and
/// `Table::delete` ensure of the table's map view.
pub open spec fn apply_ops(m: Map<Seq<u8>, AbsValue>, ops: Seq<TableOp>) -> Map<Seq<u8>, AbsValue>
    decreases ops.len(),
{
    if ops.len() == 0 {
        m
    } else {
        match ops.last() {
            TableOp::SetOp { key, value } => apply_ops(m, ops.drop_last()).insert(key, value),
            TableOp::DeleteOp { key } => apply_ops(m, ops.drop_last()).remove(key),
        }
    }
}

/// The most recent value a history leaves under a key: the value of the
/// last `set` of that key, unless a later `delete` of it intervened.
pub open spec fn live_value(ops: Seq<TableOp>, k: Seq<u8>) -> Option<AbsValue>
    decreases ops.len(),
{
    if ops.len() == 0 {
        None
    } else {
        match ops.last() {
            TableOp::SetOp { key, value } => if key == k {
                Some(value)
            } else {
                live_value(ops.drop_last(), k)
            },
            TableOp::DeleteOp { key } => if key == k {
                None
            } else {
                live_value(ops.drop_last(), k)
            },
        }
    }
}

/// After any sequence of `set` and `delete` operations on a fresh table,
/// a key that is live — set, and not deleted since — reads back its most
/// recent value, and a key never set, or deleted since its last set,
/// reads back as absent.  `Table::new` gives the empty map, `set`
/// inserts and `delete` removes, and `get` reads the map, so this is the
/// law of the table's operation history.
pub proof fn lemma_table_history(ops: Seq<TableOp>, k: Seq<u8>)
    ensures
        apply_ops(Map::<Seq<u8>, AbsValue>::empty(), ops).contains_key(k) <==> (live_value(ops, k)
            is Some),
        live_value(ops, k) matches Some(v) ==> apply_ops(Map::<Seq<u8>, AbsValue>::empty(), ops)[k]
            == v,
    decreases ops.len(),
{
    if ops.len() > 0 {
        lemma_table_history(ops.drop_last(), k);
    }
}

/// Probe a table that holds no tombstones for a key: return the slot
/// holding it, or the first empty slot.
fn find_entry_in(entries: &Vec<Entry>, key: &[u8]) -> (r: usize)
    requires
        entries@.len() > 0,
        entries@.len() <= usize::MAX as int / 4,
        nonempty_count(entries@) < entries@.len(),
        unique_keys(entries@),
        probe_ok(entries@),
        forall|t: int| 0 <= t < entries@.len() ==> !((#[trigger] entries@[t]) is Tombstone),
    ensures
        find_post(entries@, key@, r as int),
        entries@[r as int] is Empty || entries@[r as int].is_occupied_with(key@),
{
    let ghost s = entries@;
    let cap = entries.len();
    let ghost capi = cap as int;
    let hash = hash_string(key);
    let home: usize = (hash as usize) % cap;
    let ghost homei = home as int;
    let mut d: usize = 0;
    while d < cap
        invariant
            s == entries@,
            capi == s.len(),
            0 < capi,
            capi == cap,
            capi <= usize::MAX as int / 4,
            nonempty_count(s) < capi,
            unique_keys(s),
            probe_ok(s),
            forall|t: int| 0 <= t < s.len() ==> !((#[trigger] s[t]) is Tombstone),
            0 <= homei < capi,
            home as int == homei,
            homei == home_of(key@, capi),
            d <= cap,
            path_nonempty(s, homei, d as int),
            path_no_match(s, homei, d as int, key@),
        decreases cap - d,
    {
        let mut idx: usize = home + d;
        if idx >= cap {
            idx = idx - cap;
        }
        proof {
            assert(idx as int == probe_slot(homei, d as int, capi));
        }
        match &entries[idx] {
            Entry::Empty | Entry::Tombstone => {
                proof {
                    lemma_probe_miss(s, key@, d as int);
                }
                return idx;
            },
            Entry::Occupied { key: entry_key_bytes, value: _ } => {
                if bytes_equal(entry_key_bytes.as_slice(), key) {
                    return idx;
                }
            },
        }
        d = d + 1;
        proof {
            assert forall|dd: int| 0 <= dd < d as int implies !((#[trigger] s[probe_slot(
                homei,
                dd,
                capi,
            )]) is Empty) by {}
            assert forall|dd: int| 0 <= dd < d as int implies !(#[trigger] s[probe_slot(
                homei,
                dd,
                capi,
            )]).is_occupied_with(key@) by {}
        }
    }
    proof {
        lemma_probe_full(s, homei);
    }
    unreached()
}

} // verus!
