//! The scene: a resource store plus two ordered registrations — ready
//! entries, run once to populate the store before the first frame, and
//! paint entries, run in registration order on every rendered frame.
//!
//! The scene itself owns only the bookkeeping: which keys were registered,
//! in what order, and whether the one-time ready pass has been taken. The
//! host dispatches the returned schedules to the subsystems that implement
//! them, since their work (GPU submission, presentation) lives outside.

use vstd::prelude::*;

use crate::store::ResourceStore;

verus! {

/// A scene in one of three phases: building (entries being registered),
/// readied (every ready initializer handed out exactly once), running
/// (paint schedule served once per rendered frame).
pub struct Scene<V> {
    name: String,
    /// The shared world all entries read and mutate.
    pub res: ResourceStore<V>,
    readys: Vec<u64>,
    paints: Vec<u64>,
    readied: bool,
}

impl<V> Scene<V> {
    /// Internal invariant: the store keeps one slot per key.
    pub closed spec fn wf(&self) -> bool {
        self.res.wf()
    }

    /// The store's contents, as the map from keys to live values.
    pub closed spec fn res_map(&self) -> Map<u64, V> {
        self.res@
    }

    /// The scene's diagnostic name.
    pub closed spec fn name_spec(&self) -> Seq<char> {
        self.name@
    }

    /// Ready keys, in registration order.
    pub closed spec fn ready_keys(&self) -> Seq<u64> {
        self.readys@
    }

    /// Paint keys, in registration order: the fixed draw order of every
    /// frame.
    pub closed spec fn paint_keys(&self) -> Seq<u64> {
        self.paints@
    }

    /// Whether the one-time ready pass has already been handed out.
    pub closed spec fn is_readied(&self) -> bool {
        self.readied
    }

    /// Whether the one-time ready pass has already been handed out.
    pub fn ready_done(&self) -> (r: bool)
        ensures
            r == self.is_readied(),
    {
        self.readied
    }

    /// A fresh scene: empty store, no entries, ready pass still pending.
    pub fn new(name: String) -> (s: Scene<V>)
        ensures
            s.wf(),
            s.name_spec() == name@,
            s.res_map() == Map::<u64, V>::empty(),
            s.ready_keys() == Seq::<u64>::empty(),
            s.paint_keys() == Seq::<u64>::empty(),
            !s.is_readied(),
    {
        Scene {
            name,
            res: ResourceStore::new(),
            readys: Vec::new(),
            paints: Vec::new(),
            readied: false,
        }
    }

    /// The scene's diagnostic name.
    pub fn get_name(&self) -> (r: &str)
        ensures
            r@ == self.name_spec(),
    {
        self.name.as_str()
    }

    /// Registers `key` as a ready entry and files `seed` as its store
    /// placeholder, to be overwritten by the initializer during the ready
    /// pass. Registration order is preserved.
    pub fn add_ready(&mut self, key: u64, seed: V)
        requires
            old(self).wf(),
            !old(self).is_readied(),
        ensures
            final(self).wf(),
            final(self).ready_keys() == old(self).ready_keys().push(key),
            final(self).res_map() == old(self).res_map().insert(key, seed),
            final(self).paint_keys() == old(self).paint_keys(),
            final(self).name_spec() == old(self).name_spec(),
            !final(self).is_readied(),
    {
        self.readys.push(key);
        crate::store::return_res(&mut self.res, key, seed);
    }

    /// Registers `key` as a paint entry at the end of the draw order.
    pub fn add_paint(&mut self, key: u64)
        requires
            old(self).wf(),
        ensures
            final(self).wf(),
            final(self).paint_keys() == old(self).paint_keys().push(key),
            final(self).ready_keys() == old(self).ready_keys(),
            final(self).res_map() == old(self).res_map(),
            final(self).name_spec() == old(self).name_spec(),
            final(self).is_readied() == old(self).is_readied(),
    {
        self.paints.push(key);
    }

    /// Hands out the one-time initialization schedule: the ready keys in
    /// registration order, so a later initializer may read any resource
    /// registered before it. Returns `None` — and changes nothing — if the
    /// ready pass was already taken: ready entries run exactly once per
    /// scene, however many frames follow.
    pub fn ready(&mut self) -> (sched: Option<Vec<u64>>)
        requires
            old(self).wf(),
        ensures
            final(self).wf(),
            old(self).is_readied() ==> sched is None && *final(self) == *old(self),
            !old(self).is_readied() ==> {
                &&& sched matches Some(v) && v@ == old(self).ready_keys()
                &&& final(self).is_readied()
                &&& final(self).ready_keys() == old(self).ready_keys()
                &&& final(self).paint_keys() == old(self).paint_keys()
                &&& final(self).res_map() == old(self).res_map()
                &&& final(self).name_spec() == old(self).name_spec()
            },
    {
        if self.readied {
            return None;
        }
        self.readied = true;
        Some(copy_keys(&self.readys))
    }

    /// Hands out the per-frame draw schedule: the paint keys in
    /// registration order. Every frame receives the same order, so a later
    /// entry observes the store mutations of every earlier one.
    pub fn paint(&self) -> (sched: Vec<u64>)
        ensures
            sched@ == self.paint_keys(),
    {
        copy_keys(&self.paints)
    }
}

/// A fresh copy of a key list, in order.
fn copy_keys(keys: &Vec<u64>) -> (out: Vec<u64>)
    ensures
        out@ == keys@,
{
    let mut out: Vec<u64> = Vec::new();
    let mut idx: usize = 0;
    while idx < keys.len()
        invariant
            idx <= keys@.len(),
            out@ == keys@.subrange(0, idx as int),
        decreases keys@.len() - idx,
    {
        out.push(keys[idx]);
        idx = idx + 1;
    }
    proof {
        assert(out@ =~= keys@);
    }
    out
}

/// Registration order is draw order: registering `x` and then `y` puts
/// `x` immediately before `y` in every later paint schedule, so `x`'s
/// store writes within a frame are visible to `y`, never the reverse.
pub proof fn lemma_paint_order_preserved(p: Seq<u64>, x: u64, y: u64)
    ensures
        p.push(x).push(y).len() == p.len() + 2,
        p.push(x).push(y)[p.len() as int] == x,
        p.push(x).push(y)[p.len() as int + 1] == y,
{
}

} // verus!
