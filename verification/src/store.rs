//! The resource store: a single-owner container holding at most one live
//! value per resource key, together with the access descriptors and the
//! simultaneous accessor that hands out a read borrow and a write borrow
//! of two distinct entries in one call.
//!
//! Each logical resource type of a scene is identified by a `u64` key; the
//! store is modelled as a `Map<u64, V>` from keys to resource values.

use vstd::prelude::*;

verus! {

/// One slot of the store: a resource value filed under its key.
struct Entry<V> {
    key: u64,
    val: V,
}

/// The abstraction of a run of slots: the map from each key to the value
/// most recently filed under it.
spec fn map_of<V>(s: Seq<Entry<V>>) -> Map<u64, V>
    decreases s.len(),
{
    if s.len() == 0 {
        Map::empty()
    } else {
        map_of(s.drop_last()).insert(s.last().key, s.last().val)
    }
}

/// No two slots share a key.
spec fn distinct_keys<V>(s: Seq<Entry<V>>) -> bool {
    forall|i: int, j: int| 0 <= i < j < s.len() ==> s[i].key != s[j].key
}

/// A key occurs in the map exactly when some slot carries it.
proof fn lemma_map_of_contains<V>(s: Seq<Entry<V>>, key: u64)
    ensures
        map_of(s).contains_key(key) <==> exists|i: int| 0 <= i < s.len() && s[i].key == key,
    decreases s.len(),
{
    if s.len() > 0 {
        lemma_map_of_contains(s.drop_last(), key);
        if s.last().key == key {
            assert(s[s.len() - 1].key == key);
        } else if map_of(s).contains_key(key) {
            let i = choose|i: int| 0 <= i < s.drop_last().len() && s.drop_last()[i].key == key;
            assert(s[i].key == key);
        } else if exists|i: int| 0 <= i < s.len() && s[i].key == key {
            let i = choose|i: int| 0 <= i < s.len() && s[i].key == key;
            assert(s.drop_last()[i].key == key);
        }
    }
}

/// With distinct keys, the map sends each slot's key to that slot's value.
proof fn lemma_map_of_index<V>(s: Seq<Entry<V>>, i: int)
    requires
        distinct_keys(s),
        0 <= i < s.len(),
    ensures
        map_of(s).contains_key(s[i].key),
        map_of(s)[s[i].key] == s[i].val,
    decreases s.len(),
{
    if i == s.len() - 1 {
    } else {
        assert(s.drop_last()[i] == s[i]);
        lemma_map_of_index(s.drop_last(), i);
        assert(s[s.len() - 1].key != s[i].key);
    }
}

/// Overwriting one slot's value updates exactly that key of the map.
proof fn lemma_map_of_update<V>(s: Seq<Entry<V>>, i: int, v: V)
    requires
        distinct_keys(s),
        0 <= i < s.len(),
    ensures
        map_of(s.update(i, Entry { key: s[i].key, val: v })) == map_of(s).insert(s[i].key, v),
        distinct_keys(s.update(i, Entry { key: s[i].key, val: v })),
    decreases s.len(),
{
    let t = s.update(i, Entry { key: s[i].key, val: v });
    assert(distinct_keys(t)) by {
        assert(forall|p: int, q: int|
            0 <= p < q < t.len() ==> t[p].key == s[p].key && t[q].key == s[q].key);
    }
    if i == s.len() - 1 {
        assert(t.drop_last() =~= s.drop_last());
        assert(map_of(t) == map_of(s.drop_last()).insert(s[i].key, v));
        assert(map_of(s.drop_last()).insert(s[i].key, s[i].val).insert(s[i].key, v)
            =~= map_of(s.drop_last()).insert(s[i].key, v));
    } else {
        assert(t.drop_last() =~= s.drop_last().update(i, Entry { key: s[i].key, val: v }));
        assert(s.drop_last()[i] == s[i]);
        lemma_map_of_update(s.drop_last(), i, v);
        assert(s[s.len() - 1].key != s[i].key);
        assert(map_of(s.drop_last()).insert(s[i].key, v).insert(s.last().key, s.last().val)
            =~= map_of(s.drop_last()).insert(s.last().key, s.last().val).insert(s[i].key, v));
    }
}

/// Filing a value under a fresh slot inserts its key into the map.
proof fn lemma_map_of_push<V>(s: Seq<Entry<V>>, key: u64, v: V)
    ensures
        map_of(s.push(Entry { key, val: v })) == map_of(s).insert(key, v),
        distinct_keys(s) && (forall|i: int| 0 <= i < s.len() ==> s[i].key != key)
            ==> distinct_keys(s.push(Entry { key, val: v })),
{
    let t = s.push(Entry { key, val: v });
    assert(t.drop_last() =~= s);
    assert(t.last() == Entry { key, val: v });
    if distinct_keys(s) && (forall|i: int| 0 <= i < s.len() ==> s[i].key != key) {
        assert(forall|p: int, q: int| 0 <= p < q < t.len() && q < s.len()
            ==> t[p].key == s[p].key && t[q].key == s[q].key);
        assert(forall|p: int| 0 <= p < s.len() ==> t[p].key == s[p].key);
    }
}

/// The type-erased container of the original design, keyed by resource
/// identity: at most one live value per key, and inserting under a present
/// key replaces the prior value.
pub struct ResourceStore<V> {
    entries: Vec<Entry<V>>,
}

impl<V> View for ResourceStore<V> {
    type V = Map<u64, V>;

    closed spec fn view(&self) -> Map<u64, V> {
        map_of(self.entries@)
    }
}

impl<V> ResourceStore<V> {
    /// Internal invariant: one slot per key.
    pub closed spec fn wf(&self) -> bool {
        distinct_keys(self.entries@)
    }

    /// An empty store, holding no resource at all.
    pub fn new() -> (s: ResourceStore<V>)
        ensures
            s.wf(),
            s@ == Map::<u64, V>::empty(),
    {
        ResourceStore { entries: Vec::new() }
    }
}

/// The slot position of a key, if any slot carries it.
fn find_index<V>(data: &ResourceStore<V>, key: u64) -> (r: Option<usize>)
    ensures
        match r {
            Some(i) => i < data.entries@.len() && data.entries@[i as int].key == key,
            None => forall|i: int| 0 <= i < data.entries@.len() ==> data.entries@[i].key != key,
        },
{
    let mut idx: usize = 0;
    while idx < data.entries.len()
        invariant
            idx <= data.entries@.len(),
            forall|i: int| 0 <= i < idx ==> data.entries@[i].key != key,
        decreases data.entries@.len() - idx,
    {
        if data.entries[idx].key == key {
            return Some(idx);
        }
        idx = idx + 1;
    }
    None
}

/// Whether a value is currently filed under `key`.
pub fn has_res<V>(data: &ResourceStore<V>, key: u64) -> (r: bool)
    ensures
        r == data@.contains_key(key),
{
    proof {
        lemma_map_of_contains(data.entries@, key);
    }
    match find_index(data, key) {
        Some(_) => true,
        None => false,
    }
}

/// Files `new_data` under `key`, replacing whatever was there: the store
/// keeps at most one value per key, and the most recent one wins.
pub fn return_res<V>(data: &mut ResourceStore<V>, key: u64, new_data: V)
    requires
        old(data).wf(),
    ensures
        final(data).wf(),
        final(data)@ == old(data)@.insert(key, new_data),
{
    match find_index(data, key) {
        Some(i) => {
            proof {
                lemma_map_of_update(data.entries@, i as int, new_data);
            }
            let slot = &mut data.entries[i];
            slot.val = new_data;
        }
        None => {
            proof {
                lemma_map_of_push(data.entries@, key, new_data);
            }
            data.entries.push(Entry { key, val: new_data });
        }
    }
}

/// Read access to the value filed under `key`; the caller must have filed
/// one, as every scene is expected to register its dependencies up front.
pub fn get_res<'a, V>(data: &'a ResourceStore<V>, key: u64) -> (r: &'a V)
    requires
        data.wf(),
        data@.contains_key(key),
    ensures
        *r == data@[key],
{
    proof {
        lemma_map_of_contains(data.entries@, key);
    }
    let i = find_index(data, key).unwrap();
    proof {
        lemma_map_of_index(data.entries@, i as int);
    }
    &data.entries[i].val
}

/// Read access that reports a missing key instead of requiring presence.
pub fn try_get_res<'a, V>(data: &'a ResourceStore<V>, key: u64) -> (r: Option<&'a V>)
    requires
        data.wf(),
    ensures
        match r {
            Some(v) => data@.contains_key(key) && *v == data@[key],
            None => !data@.contains_key(key),
        },
{
    proof {
        lemma_map_of_contains(data.entries@, key);
    }
    match find_index(data, key) {
        Some(i) => {
            proof {
                lemma_map_of_index(data.entries@, i as int);
            }
            Some(&data.entries[i].val)
        }
        None => None,
    }
}

/// Write access to the value filed under `key`.
pub fn get_res_mut<'a, V>(data: &'a mut ResourceStore<V>, key: u64) -> (r: &'a mut V)
    requires
        old(data).wf(),
        old(data)@.contains_key(key),
    ensures
        *r == old(data)@[key],
        final(data)@ == old(data)@.insert(key, *final(r)),
        final(data).wf(),
{
    proof {
        lemma_map_of_contains(data.entries@, key);
    }
    let i = find_index(data, key).unwrap();
    proof {
        lemma_map_of_index(data.entries@, i as int);
        assert forall|v: V|
            map_of(#[trigger] data.entries@.update(i as int, Entry { key, val: v }))
                == map_of(data.entries@).insert(key, v)
            && distinct_keys(data.entries@.update(i as int, Entry { key, val: v })) by {
            lemma_map_of_update(data.entries@, i as int, v);
        }
    }
    let slot = &mut data.entries[i];
    &mut slot.val
}

/// An access mode a capability descriptor can carry: shared reading or
/// exclusive writing.
pub trait AccessMode {
    /// Whether this mode permits mutation.
    spec fn writes(&self) -> bool;
}

/// The shared, read-only access mode.
pub struct Read;

/// The exclusive, mutating access mode.
pub struct Write;

impl AccessMode for Read {
    open spec fn writes(&self) -> bool {
        false
    }
}

impl AccessMode for Write {
    open spec fn writes(&self) -> bool {
        true
    }
}

/// A capability descriptor: a resource key bound to an access mode.
pub trait RefOrMut {
    /// The access mode this descriptor requests.
    type Mode: AccessMode;

    /// The key of the resource this descriptor targets.
    spec fn target_key(&self) -> u64;
}

/// A descriptor requesting read access to the resource under `key`.
pub struct Ref {
    pub key: u64,
}

impl RefOrMut for Ref {
    type Mode = Read;

    open spec fn target_key(&self) -> u64 {
        self.key
    }
}

impl Ref {
    /// Serves this descriptor on its own: the read borrow.
    pub fn process<'a, V>(&self, data: &'a ResourceStore<V>) -> (r: &'a V)
        requires
            data.wf(),
            data@.contains_key(self.key),
        ensures
            *r == data@[self.key],
    {
        get_res(data, self.key)
    }
}

/// A descriptor requesting write access to the resource under `key`.
pub struct Mut {
    pub key: u64,
}

impl RefOrMut for Mut {
    type Mode = Write;

    open spec fn target_key(&self) -> u64 {
        self.key
    }
}

impl Mut {
    /// Serves this descriptor on its own: the write borrow.
    pub fn process<'a, V>(&self, data: &'a mut ResourceStore<V>) -> (r: &'a mut V)
        requires
            old(data).wf(),
            old(data)@.contains_key(self.key),
        ensures
            *r == old(data)@[self.key],
            final(data)@ == old(data)@.insert(self.key, *final(r)),
            final(data).wf(),
    {
        get_res_mut(data, self.key)
    }
}

/// Whether a pair of descriptors may be served at all: distinct keys,
/// both registered. A host-side caller establishes this before asking
/// `refs_muts` for the borrows.
pub fn can_access<V>(data: &ResourceStore<V>, read: &Ref, write: &Mut) -> (r: bool)
    ensures
        r == (read.key != write.key && data@.contains_key(read.key) && data@.contains_key(
            write.key,
        )),
{
    read.key != write.key && has_res(data, read.key) && has_res(data, write.key)
}

/// The simultaneous accessor: one read borrow and one write borrow out of
/// the same store, live together, so a single paint call can read one
/// resource while mutating another. Sound only because the two
/// descriptors name distinct keys — the precondition every caller must
/// discharge — so the borrows cover disjoint slots.
pub fn refs_muts<'a, V>(data: &'a mut ResourceStore<V>, read: Ref, write: Mut) -> (out: (
    &'a V,
    &'a mut V,
))
    requires
        old(data).wf(),
        read.key != write.key,
        old(data)@.contains_key(read.key),
        old(data)@.contains_key(write.key),
    ensures
        *out.0 == old(data)@[read.key],
        *out.1 == old(data)@[write.key],
        final(data).wf(),
        final(data)@ == old(data)@.insert(write.key, *final(out.1)),
{
    proof {
        lemma_map_of_contains(data.entries@, read.key);
        lemma_map_of_contains(data.entries@, write.key);
    }
    let i = find_index(data, read.key).unwrap();
    let j = find_index(data, write.key).unwrap();
    proof {
        lemma_map_of_index(data.entries@, i as int);
        lemma_map_of_index(data.entries@, j as int);
        assert forall|v: V|
            map_of(#[trigger] data.entries@.update(j as int, Entry { key: write.key, val: v }))
                == map_of(data.entries@).insert(write.key, v)
            && distinct_keys(
                data.entries@.update(j as int, Entry { key: write.key, val: v }),
            ) by {
            lemma_map_of_update(data.entries@, j as int, v);
        }
    }
    let ghost s = data.entries@;
    let slice = data.entries.as_mut_slice();
    if i < j {
        let (lo, hi) = slice.split_at_mut(j);
        let a = &lo[i].val;
        let b = hi.first_mut().unwrap();
        proof {
            assert forall|e: Entry<V>|
                s.subrange(0, j as int).add(
                    #[trigger] s.subrange(j as int, s.len() as int).update(0, e),
                ) =~= s.update(j as int, e) by {}
        }
        let bv = &mut b.val;
        (a, bv)
    } else {
        let (lo, hi) = slice.split_at_mut(j + 1);
        let a = &hi[i - j - 1].val;
        let b = lo.last_mut().unwrap();
        proof {
            assert forall|e: Entry<V>|
                (#[trigger] s.subrange(0, j as int + 1).update(j as int, e)).add(
                    s.subrange(j as int + 1, s.len() as int),
                ) =~= s.update(j as int, e) by {}
        }
        let bv = &mut b.val;
        (a, bv)
    }
}

/// The all-read pair: two read borrows out of the same store, live
/// together, under the same pairwise distinctness precondition as every
/// descriptor tuple.
pub fn two_refs<'a, V>(data: &'a ResourceStore<V>, read_a: Ref, read_b: Ref) -> (out: (
    &'a V,
    &'a V,
))
    requires
        data.wf(),
        read_a.key != read_b.key,
        data@.contains_key(read_a.key),
        data@.contains_key(read_b.key),
    ensures
        *out.0 == data@[read_a.key],
        *out.1 == data@[read_b.key],
{
    (get_res(data, read_a.key), get_res(data, read_b.key))
}

/// The all-write pair: two exclusive borrows out of the same store, live
/// together; each writes its own slot, and the final store carries both.
pub fn two_muts<'a, V>(data: &'a mut ResourceStore<V>, write_a: Mut, write_b: Mut) -> (out: (
    &'a mut V,
    &'a mut V,
))
    requires
        old(data).wf(),
        write_a.key != write_b.key,
        old(data)@.contains_key(write_a.key),
        old(data)@.contains_key(write_b.key),
    ensures
        *out.0 == old(data)@[write_a.key],
        *out.1 == old(data)@[write_b.key],
        final(data).wf(),
        final(data)@ == old(data)@.insert(write_a.key, *final(out.0)).insert(
            write_b.key,
            *final(out.1),
        ),
{
    proof {
        lemma_map_of_contains(data.entries@, write_a.key);
        lemma_map_of_contains(data.entries@, write_b.key);
    }
    let i = find_index(data, write_a.key).unwrap();
    let j = find_index(data, write_b.key).unwrap();
    proof {
        lemma_map_of_index(data.entries@, i as int);
        lemma_map_of_index(data.entries@, j as int);
    }
    let ghost s = data.entries@;
    let slice = data.entries.as_mut_slice();
    if i < j {
        let (left, right) = slice.split_at_mut(j);
        let (jslot, _tail) = right.split_at_mut(1);
        let wj = jslot.first_mut().unwrap();
        let (islot, _mid) = left.split_at_mut(i + 1);
        let wi = islot.last_mut().unwrap();
        proof {
            assert forall|ea: Entry<V>, eb: Entry<V>|
                #![trigger s.subrange(0, j as int).subrange(0, i as int + 1).update(i as int, ea),
                    s.subrange(j as int, s.len() as int).subrange(0, 1).update(0, eb)]
                two_slot_rebuild(s, i as int, j as int, write_a.key, write_b.key, ea, eb) by {
                lemma_two_slot_rebuild(s, i as int, j as int, write_a.key, write_b.key, ea, eb);
            }
        }
        let va = &mut wi.val;
        let vb = &mut wj.val;
        (va, vb)
    } else {
        let (left, right) = slice.split_at_mut(i);
        let (islot, _tail) = right.split_at_mut(1);
        let wi = islot.first_mut().unwrap();
        let (jslot, _mid) = left.split_at_mut(j + 1);
        let wj = jslot.last_mut().unwrap();
        proof {
            assert forall|ea: Entry<V>, eb: Entry<V>|
                #![trigger s.subrange(0, i as int).subrange(0, j as int + 1).update(j as int, eb),
                    s.subrange(i as int, s.len() as int).subrange(0, 1).update(0, ea)]
                two_slot_rebuild(s, j as int, i as int, write_b.key, write_a.key, eb, ea) by {
                lemma_two_slot_rebuild(s, j as int, i as int, write_b.key, write_a.key, eb, ea);
            }
        }
        let va = &mut wi.val;
        let vb = &mut wj.val;
        (va, vb)
    }
}

/// What splitting a run of slots at a later position `q` and
/// overwriting the slot at `p` in the left part and the one at `q` at
/// the split says of the whole: the rebuilt run is the original with
/// both slots overwritten, and — for entries that keep their keys — its
/// map is the original's with both values newly inserted, in either
/// insertion order.
spec fn two_slot_rebuild<V>(
    s: Seq<Entry<V>>,
    p: int,
    q: int,
    kp: u64,
    kq: u64,
    ep: Entry<V>,
    eq: Entry<V>,
) -> bool {
    let rebuilt = (s.subrange(0, q).subrange(0, p + 1).update(p, ep).add(
        s.subrange(0, q).subrange(p + 1, q),
    )).add(s.subrange(q, s.len() as int).subrange(0, 1).update(0, eq).add(
        s.subrange(q, s.len() as int).subrange(1, s.len() - q),
    ));
    let t = s.update(p, ep).update(q, eq);
    &&& rebuilt == t
    &&& (ep.key == kp && eq.key == kq ==> {
        &&& distinct_keys(t)
        &&& map_of(t) == map_of(s).insert(kp, ep.val).insert(kq, eq.val)
        &&& map_of(t) == map_of(s).insert(kq, eq.val).insert(kp, ep.val)
    })
}

proof fn lemma_two_slot_rebuild<V>(
    s: Seq<Entry<V>>,
    p: int,
    q: int,
    kp: u64,
    kq: u64,
    ep: Entry<V>,
    eq: Entry<V>,
)
    requires
        distinct_keys(s),
        0 <= p < q < s.len(),
        s[p].key == kp,
        s[q].key == kq,
        kp != kq,
    ensures
        two_slot_rebuild(s, p, q, kp, kq, ep, eq),
{
    assert((s.subrange(0, q).subrange(0, p + 1).update(p, ep).add(
        s.subrange(0, q).subrange(p + 1, q),
    )).add(s.subrange(q, s.len() as int).subrange(0, 1).update(0, eq).add(
        s.subrange(q, s.len() as int).subrange(1, s.len() - q),
    )) =~= s.update(p, ep).update(q, eq));
    if ep.key == kp && eq.key == kq {
        lemma_map_of_update(s, p, ep.val);
        let s1 = s.update(p, Entry { key: kp, val: ep.val });
        assert(ep == Entry { key: kp, val: ep.val });
        assert(s1[q] == s[q]);
        lemma_map_of_update(s1, q, eq.val);
        assert(eq == Entry { key: kq, val: eq.val });
        assert(map_of(s).insert(kp, ep.val).insert(kq, eq.val) =~= map_of(s).insert(
            kq,
            eq.val,
        ).insert(kp, ep.val));
    }
}

/// The pairwise accessor taken by bare keys instead of descriptors:
/// read the resource under `read_key` while writing the one under
/// `write_key`, simultaneously.
pub fn get_ref_and_mut<'a, V>(
    data: &'a mut ResourceStore<V>,
    read_key: u64,
    write_key: u64,
) -> (out: (&'a V, &'a mut V))
    requires
        old(data).wf(),
        read_key != write_key,
        old(data)@.contains_key(read_key),
        old(data)@.contains_key(write_key),
    ensures
        *out.0 == old(data)@[read_key],
        *out.1 == old(data)@[write_key],
        final(data).wf(),
        final(data)@ == old(data)@.insert(write_key, *final(out.1)),
{
    refs_muts(data, Ref { key: read_key }, Mut { key: write_key })
}

/// The three-descriptor accessor: two read borrows and one write borrow
/// out of the same store, live together, under the same pairwise
/// distinctness precondition.
pub fn refs_muts3<'a, V>(
    data: &'a mut ResourceStore<V>,
    read_a: Ref,
    read_b: Ref,
    write: Mut,
) -> (out: (&'a V, &'a V, &'a mut V))
    requires
        old(data).wf(),
        read_a.key != read_b.key,
        read_a.key != write.key,
        read_b.key != write.key,
        old(data)@.contains_key(read_a.key),
        old(data)@.contains_key(read_b.key),
        old(data)@.contains_key(write.key),
    ensures
        *out.0 == old(data)@[read_a.key],
        *out.1 == old(data)@[read_b.key],
        *out.2 == old(data)@[write.key],
        final(data).wf(),
        final(data)@ == old(data)@.insert(write.key, *final(out.2)),
{
    proof {
        lemma_map_of_contains(data.entries@, read_a.key);
        lemma_map_of_contains(data.entries@, read_b.key);
        lemma_map_of_contains(data.entries@, write.key);
    }
    let ia = find_index(data, read_a.key).unwrap();
    let ib = find_index(data, read_b.key).unwrap();
    let j = find_index(data, write.key).unwrap();
    proof {
        lemma_map_of_index(data.entries@, ia as int);
        lemma_map_of_index(data.entries@, ib as int);
        lemma_map_of_index(data.entries@, j as int);
        assert forall|v: V|
            map_of(#[trigger] data.entries@.update(j as int, Entry { key: write.key, val: v }))
                == map_of(data.entries@).insert(write.key, v)
            && distinct_keys(
                data.entries@.update(j as int, Entry { key: write.key, val: v }),
            ) by {
            lemma_map_of_update(data.entries@, j as int, v);
        }
    }
    let ghost s = data.entries@;
    let slice = data.entries.as_mut_slice();
    let (lo, hi) = slice.split_at_mut(j);
    let (wslot, rest) = hi.split_at_mut(1);
    let a = if ia < j {
        &lo[ia].val
    } else {
        &rest[ia - j - 1].val
    };
    let b = if ib < j {
        &lo[ib].val
    } else {
        &rest[ib - j - 1].val
    };
    let w = wslot.first_mut().unwrap();
    proof {
        assert forall|e: Entry<V>|
            s.subrange(0, j as int).add(
                (#[trigger] s.subrange(j as int, s.len() as int).subrange(0, 1).update(0, e)).add(
                    s.subrange(j as int, s.len() as int).subrange(
                        1,
                        s.len() - j,
                    ),
                ),
            ) =~= s.update(j as int, e) by {}
    }
    let wv = &mut w.val;
    (a, b, wv)
}

/// The four-descriptor accessor: three read borrows and one write
/// borrow, by the same pattern.
pub fn refs_muts4<'a, V>(
    data: &'a mut ResourceStore<V>,
    read_a: Ref,
    read_b: Ref,
    read_c: Ref,
    write: Mut,
) -> (out: (&'a V, &'a V, &'a V, &'a mut V))
    requires
        old(data).wf(),
        read_a.key != read_b.key,
        read_a.key != read_c.key,
        read_b.key != read_c.key,
        read_a.key != write.key,
        read_b.key != write.key,
        read_c.key != write.key,
        old(data)@.contains_key(read_a.key),
        old(data)@.contains_key(read_b.key),
        old(data)@.contains_key(read_c.key),
        old(data)@.contains_key(write.key),
    ensures
        *out.0 == old(data)@[read_a.key],
        *out.1 == old(data)@[read_b.key],
        *out.2 == old(data)@[read_c.key],
        *out.3 == old(data)@[write.key],
        final(data).wf(),
        final(data)@ == old(data)@.insert(write.key, *final(out.3)),
{
    proof {
        lemma_map_of_contains(data.entries@, read_a.key);
        lemma_map_of_contains(data.entries@, read_b.key);
        lemma_map_of_contains(data.entries@, read_c.key);
        lemma_map_of_contains(data.entries@, write.key);
    }
    let ia = find_index(data, read_a.key).unwrap();
    let ib = find_index(data, read_b.key).unwrap();
    let ic = find_index(data, read_c.key).unwrap();
    let j = find_index(data, write.key).unwrap();
    proof {
        lemma_map_of_index(data.entries@, ia as int);
        lemma_map_of_index(data.entries@, ib as int);
        lemma_map_of_index(data.entries@, ic as int);
        lemma_map_of_index(data.entries@, j as int);
        assert forall|v: V|
            map_of(#[trigger] data.entries@.update(j as int, Entry { key: write.key, val: v }))
                == map_of(data.entries@).insert(write.key, v)
            && distinct_keys(
                data.entries@.update(j as int, Entry { key: write.key, val: v }),
            ) by {
            lemma_map_of_update(data.entries@, j as int, v);
        }
    }
    let ghost s = data.entries@;
    let slice = data.entries.as_mut_slice();
    let (lo, hi) = slice.split_at_mut(j);
    let (wslot, rest) = hi.split_at_mut(1);
    let a = if ia < j {
        &lo[ia].val
    } else {
        &rest[ia - j - 1].val
    };
    let b = if ib < j {
        &lo[ib].val
    } else {
        &rest[ib - j - 1].val
    };
    let c = if ic < j {
        &lo[ic].val
    } else {
        &rest[ic - j - 1].val
    };
    let w = wslot.first_mut().unwrap();
    proof {
        assert forall|e: Entry<V>|
            s.subrange(0, j as int).add(
                (#[trigger] s.subrange(j as int, s.len() as int).subrange(0, 1).update(0, e)).add(
                    s.subrange(j as int, s.len() as int).subrange(
                        1,
                        s.len() - j,
                    ),
                ),
            ) =~= s.update(j as int, e) by {}
    }
    let wv = &mut w.val;
    (a, b, c, wv)
}

/// The most recent value filed under a key is the one every later lookup
/// sees: filing `a` and then `b` under one key leaves `b` live, whatever
/// the store held before and whatever other keys were touched in between.
pub proof fn lemma_latest_put_wins<V>(m: Map<u64, V>, key: u64, other: u64, a: V, b: V)
    ensures
        m.insert(key, a).insert(key, b)[key] == b,
        key != other ==> m.insert(key, a).insert(other, b)[key] == a,
{
}

/// The store a fresh scene grows into after a run of puts: each
/// `return_res` call is one `insert`, by its contract.
pub open spec fn store_after<V>(puts: Seq<(u64, V)>) -> Map<u64, V>
    decreases puts.len(),
{
    if puts.len() == 0 {
        Map::empty()
    } else {
        store_after(puts.drop_last()).insert(puts.last().0, puts.last().1)
    }
}

/// A lookup before any matching put fails, and never yields a default:
/// a fresh store holds no key at all, and however long the run of puts
/// under other keys, the key stays absent — so `get_res` refuses it and
/// `try_get_res` reports `None`, for every such run.
pub proof fn lemma_get_before_put_fails<V>(puts: Seq<(u64, V)>, key: u64)
    requires
        forall|i: int| 0 <= i < puts.len() ==> (#[trigger] puts[i]).0 != key,
    ensures
        !store_after(puts).contains_key(key),
    decreases puts.len(),
{
    if puts.len() > 0 {
        assert(forall|i: int| 0 <= i < puts.len() - 1
            ==> (#[trigger] puts.drop_last()[i]) == puts[i]);
        lemma_get_before_put_fails(puts.drop_last(), key);
    }
}

} // verus!
