//! holds built namespaces. lazy: a layer is built on first use, pinned to
//! disk, then kept. idle eviction bounds memory. the registry keeps the
//! bookkeeping; building and tearing down namespaces is the caller's work
//! on the entries it hands in and gets back

use crate::api::layer::{same_descriptor, Layer, LayerDescriptor, LayerId};
use crate::api::mounts::Mounts;
use vstd::prelude::*;

verus! {

broadcast use vstd::seq_lib::group_seq_properties;

/// one built layer: its namespace, what the backend mounted for it (replayed
/// in reverse at eviction), and when it was last used. time is a monotonic
/// tick count the caller supplies
pub struct Entry {
    pub layer: Layer,
    pub mounts: Mounts,
    pub last_used: u64,
}

pub struct EntryView {
    pub id: Seq<char>,
    /// the descriptor the namespace was built from
    pub desc: LayerDescriptor,
    pub ns_path: Seq<char>,
    pub mounts: Seq<Seq<char>>,
    pub last_used: u64,
}

impl View for Entry {
    type V = EntryView;

    open spec fn view(&self) -> EntryView {
        EntryView {
            id: self.layer.desc.id@,
            desc: self.layer.desc,
            ns_path: self.layer.ns_path@,
            mounts: self.mounts@,
            last_used: self.last_used,
        }
    }
}

pub struct Registry {
    built: Vec<Entry>,
}

pub open spec fn entry_views(v: Seq<Entry>) -> Seq<EntryView> {
    v.map_values(|e: Entry| e@)
}

pub open spec fn ids_of(s: Seq<EntryView>) -> Seq<Seq<char>> {
    s.map_values(|e: EntryView| e.id)
}

/// whether `s` holds an entry for `id`
pub open spec fn has_id(s: Seq<EntryView>, id: Seq<char>) -> bool {
    exists|i: int| 0 <= i < s.len() && #[trigger] s[i].id == id
}

/// an entry is idle when eviction is enabled (a non-zero limit) and it has
/// gone unused for at least the limit. a zero limit never evicts
pub open spec fn is_idle(e: EntryView, now: u64, max_idle: u64) -> bool {
    max_idle > 0 && now >= e.last_used + max_idle
}

impl View for Registry {
    type V = Seq<EntryView>;

    closed spec fn view(&self) -> Seq<EntryView> {
        entry_views(self.built@)
    }
}

/// filtering keeps ids distinct
proof fn lemma_filter_ids_distinct(s: Seq<EntryView>, p: spec_fn(EntryView) -> bool)
    requires
        ids_of(s).no_duplicates(),
    ensures
        ids_of(s.filter(p)).no_duplicates(),
        forall|k: int| 0 <= k < s.filter(p).len() ==> has_id(s, #[trigger] s.filter(p)[k].id),
    decreases s.len(),
{
    reveal(Seq::filter);
    if s.len() > 0 {
        let t = s.drop_last();
        assert(ids_of(t) =~= ids_of(s).drop_last());
        assert forall|a: int, b: int|
            0 <= a < ids_of(t).len() && 0 <= b < ids_of(t).len() && a != b implies ids_of(t)[a]
            != ids_of(t)[b] by {
            assert(ids_of(s)[a] != ids_of(s)[b]);
        }
        lemma_filter_ids_distinct(t, p);
        let ft = t.filter(p);
        assert forall|k: int| 0 <= k < ft.len() implies has_id(s, #[trigger] ft[k].id) by {
            let i = choose|i: int| 0 <= i < t.len() && #[trigger] t[i].id == ft[k].id;
            assert(s[i].id == ft[k].id);
        }
        if p(s.last()) {
            let fs = ft.push(s.last());
            assert forall|a: int, b: int|
                0 <= a < ids_of(fs).len() && 0 <= b < ids_of(fs).len() && a != b implies ids_of(
                fs,
            )[a] != ids_of(fs)[b] by {
                if a == fs.len() - 1 && b < fs.len() - 1 {
                    let i = choose|i: int| 0 <= i < t.len() && #[trigger] t[i].id == ft[b].id;
                    assert(ids_of(s)[i] != ids_of(s)[s.len() - 1]);
                } else if b == fs.len() - 1 && a < fs.len() - 1 {
                    let i = choose|i: int| 0 <= i < t.len() && #[trigger] t[i].id == ft[a].id;
                    assert(ids_of(s)[i] != ids_of(s)[s.len() - 1]);
                } else {
                    assert(ids_of(ft)[a] != ids_of(ft)[b]);
                }
            }
            assert forall|k: int| 0 <= k < fs.len() implies has_id(s, #[trigger] fs[k].id) by {
                if k == fs.len() - 1 {
                    assert(s[s.len() - 1].id == fs[k].id);
                } else {
                    assert(fs[k] == ft[k]);
                }
            }
        }
    }
}

impl Registry {
    /// ids are distinct: at most one entry per layer
    pub open spec fn wf(&self) -> bool {
        &&& ids_of(self@).no_duplicates()
        &&& forall|i: int| 0 <= i < self@.len() ==> (#[trigger] self@[i]).id == self@[i].desc.id@
    }

    pub fn new() -> (r: Self)
        ensures
            r.wf(),
            r@ == Seq::<EntryView>::empty(),
    {
        let r = Registry { built: Vec::new() };
        assert(r@ =~= Seq::<EntryView>::empty());
        r
    }

    fn find(&self, id: &str) -> (res: Option<usize>)
        ensures
            match res {
                Some(i) => i < self@.len() && self@[i as int].id == id@,
                None => !has_id(self@, id@),
            },
    {
        let mut i: usize = 0;
        while i < self.built.len()
            invariant
                i <= self.built@.len(),
                forall|k: int| 0 <= k < i ==> self@[k].id != id@,
            decreases self.built@.len() - i,
        {
            if crate::text::str_eq(self.built[i].layer.desc.id.as_str(), id) {
                return Some(i);
            }
            i += 1;
        }
        None
    }

    /// the layer built for `id`, marking it used at `now`; none when the
    /// layer has not been built
    pub fn lookup(&mut self, id: &LayerId, now: u64) -> (res: Option<Layer>)
        requires
            old(self).wf(),
        ensures
            final(self).wf(),
            match res {
                Some(l) => exists|i: int|
                    0 <= i < old(self)@.len() && #[trigger] old(self)@[i].id == id@
                        && same_descriptor(l.desc, old(self)@[i].desc) && l.ns_path@ == old(
                        self,
                    )@[i].ns_path && final(self)@ == old(self)@.update(
                        i,
                        EntryView { last_used: now, ..old(self)@[i] },
                    ),
                None => !has_id(old(self)@, id@) && final(self)@ == old(self)@,
            },
    {
        match self.find(id.as_str()) {
            None => None,
            Some(i) => {
                let mut e = self.built.remove(i);
                e.last_used = now;
                let layer = e.layer.clone();
                self.built.insert(i, e);
                proof {
                    assert(self@ =~= old(self)@.update(
                        i as int,
                        EntryView { last_used: now, ..old(self)@[i as int] },
                    ));
                    assert(ids_of(self@) =~= ids_of(old(self)@));
                }
                Some(layer)
            },
        }
    }

    /// record a freshly built layer, used at `now`. a layer already present
    /// is replaced
    pub fn insert(&mut self, layer: Layer, mounts: Mounts, now: u64)
        requires
            old(self).wf(),
        ensures
            final(self).wf(),
            ({
                let v = EntryView {
                    id: layer.desc.id@,
                    desc: layer.desc,
                    ns_path: layer.ns_path@,
                    mounts: mounts@,
                    last_used: now,
                };
                if has_id(old(self)@, layer.desc.id@) {
                    exists|i: int|
                        0 <= i < old(self)@.len() && #[trigger] old(self)@[i].id == layer.desc.id@
                            && final(self)@ == old(self)@.update(i, v)
                } else {
                    final(self)@ == old(self)@.push(v)
                }
            }),
    {
        let e = Entry { layer, mounts, last_used: now };
        match self.find(e.layer.desc.id.as_str()) {
            Some(i) => {
                self.built.set(i, e);
                proof {
                    assert(self@ =~= old(self)@.update(i as int, e@));
                    assert(ids_of(self@) =~= ids_of(old(self)@));
                }
            },
            None => {
                self.built.push(e);
                proof {
                    assert(self@ =~= old(self)@.push(e@));
                    assert(ids_of(self@) =~= ids_of(old(self)@).push(e@.id));
                    assert forall|a: int, b: int|
                        0 <= a < ids_of(self@).len() && 0 <= b < ids_of(self@).len() && a
                            != b implies ids_of(self@)[a] != ids_of(self@)[b] by {
                        if a == ids_of(self@).len() - 1 {
                            assert(old(self)@[b].id != e@.id);
                        } else if b == ids_of(self@).len() - 1 {
                            assert(old(self)@[a].id != e@.id);
                        } else {
                            assert(ids_of(old(self)@)[a] != ids_of(old(self)@)[b]);
                        }
                    }
                }
            },
        }
    }

    /// drop one layer's entry and hand it back for teardown; none when the
    /// layer was not built. a later build records it afresh
    pub fn evict(&mut self, id: &LayerId) -> (res: Option<Entry>)
        requires
            old(self).wf(),
        ensures
            final(self).wf(),
            !has_id(final(self)@, id@),
            match res {
                Some(e) => exists|i: int|
                    0 <= i < old(self)@.len() && #[trigger] old(self)@[i] == e@ && e@.id == id@
                        && final(self)@ == old(self)@.remove(i),
                None => !has_id(old(self)@, id@) && final(self)@ == old(self)@,
            },
    {
        self.evict_name(id.as_str())
    }

    /// as `evict`, for a layer named by a plain string
    pub fn evict_name(&mut self, id: &str) -> (res: Option<Entry>)
        requires
            old(self).wf(),
        ensures
            final(self).wf(),
            !has_id(final(self)@, id@),
            match res {
                Some(e) => exists|i: int|
                    0 <= i < old(self)@.len() && #[trigger] old(self)@[i] == e@ && e@.id == id@
                        && final(self)@ == old(self)@.remove(i),
                None => !has_id(old(self)@, id@) && final(self)@ == old(self)@,
            },
    {
        match self.find(id) {
            None => None,
            Some(i) => {
                let e = self.built.remove(i);
                proof {
                    assert(self@ =~= old(self)@.remove(i as int));
                    assert(ids_of(self@) =~= ids_of(old(self)@).remove(i as int));
                    assert forall|a: int, b: int|
                        0 <= a < ids_of(self@).len() && 0 <= b < ids_of(self@).len() && a
                            != b implies ids_of(self@)[a] != ids_of(self@)[b] by {
                        let a2 = if a < i {
                            a
                        } else {
                            a + 1
                        };
                        let b2 = if b < i {
                            b
                        } else {
                            b + 1
                        };
                        assert(ids_of(old(self)@)[a2] != ids_of(old(self)@)[b2]);
                    }
                    if has_id(self@, id@) {
                        let k = choose|k: int| 0 <= k < self@.len() && #[trigger] self@[k].id == id@;
                        let k2 = if k < i {
                            k
                        } else {
                            k + 1
                        };
                        assert(ids_of(old(self)@)[k2] == ids_of(old(self)@)[i as int]);
                    }
                }
                Some(e)
            },
        }
    }

    /// drop every entry idle for at least `max_idle` ticks at `now` and hand
    /// them back for teardown, in registry order. a zero limit never evicts
    pub fn evict_idle(&mut self, now: u64, max_idle: u64) -> (stale: Vec<Entry>)
        requires
            old(self).wf(),
        ensures
            final(self).wf(),
            final(self)@ == old(self)@.filter(|e: EntryView| !is_idle(e, now, max_idle)),
            entry_views(stale@) == old(self)@.filter(|e: EntryView| is_idle(e, now, max_idle)),
    {
        let ghost keep = |e: EntryView| !is_idle(e, now, max_idle);
        let ghost drop = |e: EntryView| is_idle(e, now, max_idle);
        let ghost before = self@;
        let mut rest: Vec<Entry> = Vec::new();
        std::mem::swap(&mut rest, &mut self.built);
        let mut kept: Vec<Entry> = Vec::new();
        let mut stale: Vec<Entry> = Vec::new();
        let ghost mut i: int = 0;
        assert(entry_views(rest@) =~= before.skip(0));
        assert(before.take(0) =~= Seq::<EntryView>::empty());
        while rest.len() > 0
            invariant
                keep == (|e: EntryView| !is_idle(e, now, max_idle)),
                drop == (|e: EntryView| is_idle(e, now, max_idle)),
                0 <= i <= before.len(),
                entry_views(rest@) == before.skip(i),
                entry_views(kept@) == before.take(i).filter(keep),
                entry_views(stale@) == before.take(i).filter(drop),
            decreases rest@.len(),
        {
            let ghost r0 = entry_views(rest@);
            let ghost raw0 = rest@;
            assert(r0.len() > 0);
            assert(i < before.len());
            let e = rest.remove(0);
            let idle = max_idle > 0 && now >= e.last_used && now - e.last_used >= max_idle;
            proof {
                assert(e@ == r0[0]);
                assert(before.skip(i)[0] == before[i]);
                assert(rest@ == raw0.remove(0));
                assert(entry_views(rest@) =~= r0.drop_first());
                assert(r0.drop_first() =~= before.skip(i + 1));
                assert(before.take(i + 1) =~= before.take(i).push(before[i]));
                assert(idle == is_idle(e@, now, max_idle));
                before.take(i).lemma_filter_push(before[i], keep);
                before.take(i).lemma_filter_push(before[i], drop);
            }
            let ghost sv = stale@;
            let ghost kv = kept@;
            if idle {
                stale.push(e);
                proof {
                    assert(entry_views(stale@) =~= entry_views(sv).push(e@));
                }
            } else {
                proof {
                    assert(entry_views(kv.push(e)) =~= entry_views(kv).push(e@));
                }
                kept.push(e);
            }
            proof {
                let x = before[i];
                if idle {
                    assert(drop(x));
                    assert(!keep(x));
                } else {
                    assert(keep(x));
                    assert(!drop(x));
                }
                i = i + 1;
            }
        }
        proof {
            assert(i == before.len()) by {
                assert(before.skip(i).len() == 0);
            }
            assert(before.take(i) =~= before);
            lemma_filter_ids_distinct(before, keep);
        }
        self.built = kept;
        stale
    }

    /// the ids of every built layer, in registry order
    pub fn ids(&self) -> (out: Vec<LayerId>)
        ensures
            out@.map_values(|l: LayerId| l@) == ids_of(self@),
    {
        let mut out: Vec<LayerId> = Vec::new();
        let mut i: usize = 0;
        while i < self.built.len()
            invariant
                i <= self.built@.len(),
                out@.len() == i,
                forall|k: int| 0 <= k < i ==> #[trigger] out@[k]@ == self@[k].id,
            decreases self.built@.len() - i,
        {
            out.push(self.built[i].layer.desc.id.clone());
            i += 1;
        }
        assert(out@.map_values(|l: LayerId| l@) =~= ids_of(self@));
        out
    }

    /// how many layers are built
    pub fn len(&self) -> (n: usize)
        ensures
            n == self@.len(),
    {
        self.built.len()
    }
}

/// A lookup after an insert finds what was inserted: once a layer is
/// recorded, the registry holds exactly one entry for it, carrying the new
/// namespace path and mounts.
pub proof fn law_insert_then_lookup(
    before: Seq<EntryView>,
    after: Seq<EntryView>,
    v: EntryView,
)
    requires
        ids_of(before).no_duplicates(),
        ids_of(after).no_duplicates(),
        if has_id(before, v.id) {
            exists|i: int|
                0 <= i < before.len() && #[trigger] before[i].id == v.id && after == before.update(
                    i,
                    v,
                )
        } else {
            after == before.push(v)
        },
    ensures
        has_id(after, v.id),
        forall|k: int| 0 <= k < after.len() && #[trigger] after[k].id == v.id ==> after[k] == v,
{
    if has_id(before, v.id) {
        let i = choose|i: int|
            0 <= i < before.len() && #[trigger] before[i].id == v.id && after == before.update(i, v);
        assert(after[i].id == v.id);
        assert forall|k: int| 0 <= k < after.len() && #[trigger] after[k].id == v.id implies after[k]
            == v by {
            if k != i {
                assert(ids_of(after)[k] == ids_of(after)[i]);
            }
        }
    } else {
        assert(after[before.len() as int].id == v.id);
        assert forall|k: int| 0 <= k < after.len() && #[trigger] after[k].id == v.id implies after[k]
            == v by {
            if k < before.len() {
                assert(before[k].id == v.id);
            }
        }
    }
}

/// Idle eviction loses nothing: every entry either stays or is handed back
/// for teardown, so the two counts add up to the old size; with eviction
/// disabled (a zero limit) everything stays.
pub proof fn law_evict_idle_partitions(s: Seq<EntryView>, now: u64, max_idle: u64)
    ensures
        s.filter(|e: EntryView| !is_idle(e, now, max_idle)).len() + s.filter(
            |e: EntryView| is_idle(e, now, max_idle),
        ).len() == s.len(),
        max_idle == 0 ==> s.filter(|e: EntryView| !is_idle(e, now, max_idle)) == s,
    decreases s.len(),
{
    reveal(Seq::filter);
    if s.len() > 0 {
        law_evict_idle_partitions(s.drop_last(), now, max_idle);
        if max_idle == 0 {
            assert(s.drop_last().push(s.last()) =~= s);
        }
    }
}

} // verus!
