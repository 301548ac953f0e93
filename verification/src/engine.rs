//! the facade policy drives: the layers, the backend, the settings and the
//! namespace registry, with the decisions of its operations. each operation
//! answers at once or names the one piece of system work it needs (build a
//! namespace, tear one down); the system layer does that work and reports
//! back

use crate::api::err::{Error, ErrorView, Result};
use crate::api::layer::{Layer, LayerDescriptor, LayerId, layer_id_violation, same_descriptor};
use crate::api::mounts::Mounts;
use crate::control::proto::{parse_spec, Reply, ReplyView, Request, RequestView};
use crate::ns::reg::{has_id, ids_of, is_idle, Entry, EntryView, Registry, entry_views};
use crate::path::join;
use crate::ns::pin::ns_path;
use crate::paths::{Layout, ns_file_of};
use crate::state::system::System;
use crate::store::erofs::ErofsBackend;
use crate::store::generations::Generations;
use crate::store::overlay::OverlayBackend;
use crate::sys::cgroup::Cgroups;
use crate::text::{concat, dec, str_eq, u64_to_dec, views};
use crate::vocab;
use vstd::prelude::*;

verus! {

/// the store backend a system runs on
pub enum Backend {
    Overlay(OverlayBackend),
    Erofs(ErofsBackend),
}

impl Backend {
    /// the backend a system's token names, rooted in the layout's store and
    /// state. any token but "erofs" falls back to overlay
    pub fn for_token(layout: &Layout, token: &str) -> (b: Backend)
        ensures
            token@ == vocab::BACKEND_EROFS@ ==> (b matches Backend::Erofs(e) && e.store_spec()
                == join(layout@, ".store"@) && e.state_spec() == join(layout@, ".state"@)),
            token@ != vocab::BACKEND_EROFS@ ==> (b matches Backend::Overlay(o) && o.store_spec()
                == join(layout@, ".store"@) && o.state_spec() == join(layout@, ".state"@)),
    {
        let store = layout.store();
        let state = layout.state();
        if str_eq(token, vocab::BACKEND_EROFS) {
            Backend::Erofs(ErofsBackend::new(store.as_str(), state.as_str()))
        } else {
            Backend::Overlay(OverlayBackend::new(store.as_str(), state.as_str()))
        }
    }

    /// the mount points the backend records for `layer` mounted at `target`
    pub fn mount_points(&self, layer: &LayerDescriptor, target: &str) -> (m: Mounts)
        ensures
            match self {
                Backend::Overlay(o) => m@ == if layer.flags.ephemeral && !layer.flags.atomic {
                    seq![
                        crate::store::overlay::per_layer(o.state_spec(), "ephemeral"@, layer.id@),
                        target@,
                    ]
                } else {
                    seq![target@]
                },
                Backend::Erofs(e) => m@ == if layer.flags.ephemeral && !layer.flags.atomic {
                    seq![
                        crate::store::overlay::per_layer(e.state_spec(), "lower"@, layer.id@),
                        crate::store::overlay::per_layer(e.state_spec(), "ephemeral"@, layer.id@),
                        target@,
                    ]
                } else {
                    seq![
                        crate::store::overlay::per_layer(e.state_spec(), "lower"@, layer.id@),
                        target@,
                    ]
                },
            },
    {
        match self {
            Backend::Overlay(o) => o.mount_points(layer, target),
            Backend::Erofs(e) => e.mount_points(layer, target),
        }
    }
}

/// what an operation asks of the system layer
pub enum Step {
    /// answer the client with this reply; nothing else to do
    Answer(Reply),
    /// build and pin this layer's namespace, record it with `finish_build`,
    /// and answer with `build_reply` of the outcome
    Build(LayerDescriptor),
    /// tear down the evicted entry, if any, remove the layer's resource
    /// scope (best effort), then answer ok
    Evict { entry: Option<Entry>, scope: String },
}

/// where warming a layer stands
pub enum Warm {
    /// the layer is built: enter it
    Ready(Layer),
    /// its namespace must be built first: build it, then `finish_build`
    Build(LayerDescriptor),
}

/// the first index of `layers` whose id is `id`
pub open spec fn find_index(layers: Seq<LayerDescriptor>, id: Seq<char>) -> Option<int>
    decreases layers.len(),
{
    if layers.len() == 0 {
        None
    } else {
        match find_index(layers.drop_last(), id) {
            Some(i) => Some(i),
            None => if layers.last().id@ == id {
                Some(layers.len() - 1)
            } else {
                None
            },
        }
    }
}

/// the search stops at the first match, or finds nothing when none matches
proof fn lemma_find_first(layers: Seq<LayerDescriptor>, id: Seq<char>, i: int)
    requires
        0 <= i <= layers.len(),
        forall|j: int| 0 <= j < i ==> layers[j].id@ != id,
        i == layers.len() || layers[i].id@ == id,
    ensures
        find_index(layers, id) == if i == layers.len() {
            None::<int>
        } else {
            Some(i)
        },
    decreases layers.len(),
{
    if layers.len() > 0 {
        let t = layers.drop_last();
        if i < layers.len() - 1 {
            lemma_find_first(t, id, i);
        } else {
            lemma_find_first(t, id, t.len() as int);
        }
    }
}

proof fn lemma_find_index(layers: Seq<LayerDescriptor>, id: Seq<char>)
    ensures
        find_index(layers, id) matches Some(k) ==> 0 <= k < layers.len() && layers[k].id@ == id,
    decreases layers.len(),
{
    if layers.len() > 0 {
        lemma_find_index(layers.drop_last(), id);
    }
}

/// the status line the daemon answers with
pub open spec fn status_line(built: nat) -> Seq<char> {
    "built "@ + dec(built)
}

pub struct Core {
    layout: Layout,
    layers: Vec<LayerDescriptor>,
    backend: Backend,
    system: System,
    registry: Registry,
    gens: Generations,
    cgroups: Cgroups,
}

impl Core {
    #[verifier::type_invariant]
    closed spec fn inv(self) -> bool {
        &&& self.registry.wf()
        &&& self.gens@ == join(self.layout@, ".gen"@)
        &&& self.cgroups@ == self.system.cgroup_root@
    }

    /// the namespaces built so far, in registry order
    pub closed spec fn built(&self) -> Seq<EntryView> {
        self.registry@
    }

    /// the configured layers
    pub closed spec fn descriptors(&self) -> Seq<LayerDescriptor> {
        self.layers@
    }

    /// seconds a namespace may stay unused before eviction; zero never evicts
    pub closed spec fn idle_limit(&self) -> u64 {
        self.system.idle_evict_secs
    }

    pub closed spec fn layout_spec(&self) -> Seq<char> {
        self.layout@
    }

    /// the backend the core composes layers with
    pub closed spec fn backend_spec(&self) -> Backend {
        self.backend
    }

    /// the settings the core was opened with
    pub closed spec fn system_spec(&self) -> System {
        self.system
    }

    pub fn new(layout: Layout, layers: Vec<LayerDescriptor>, backend: Backend, system: System) -> (c:
        Self)
        ensures
            c.built() == Seq::<EntryView>::empty(),
            c.descriptors() == layers@,
            c.idle_limit() == system.idle_evict_secs,
            c.layout_spec() == layout@,
            c.system_spec() == system,
            c.backend_spec() == backend,
    {
        let gens = Generations::new(layout.gens().as_str());
        let cgroups = Cgroups::new(system.cgroup_root.as_str());
        Core { layout, layers, backend, system, registry: Registry::new(), gens, cgroups }
    }

    /// a core on the backend the settings name; an unknown name falls back
    /// to overlay. probing the kernel and preparing the cgroup subtree are
    /// the system layer's, before and after
    pub fn open(layout: Layout, layers: Vec<LayerDescriptor>, system: System) -> (c: Self)
        ensures
            c.built() == Seq::<EntryView>::empty(),
            c.descriptors() == layers@,
            c.idle_limit() == system.idle_evict_secs,
            c.layout_spec() == layout@,
            c.system_spec() == system,
            system.backend@ == vocab::BACKEND_EROFS@ ==> c.backend_spec() is Erofs,
            system.backend@ != vocab::BACKEND_EROFS@ ==> c.backend_spec() is Overlay,
    {
        let backend = Backend::for_token(&layout, system.backend.as_str());
        Self::new(layout, layers, backend, system)
    }

    pub fn layout(&self) -> (l: &Layout)
        ensures
            l@ == self.layout_spec(),
    {
        &self.layout
    }

    pub fn backend(&self) -> (b: &Backend)
        ensures
            *b == self.backend_spec(),
    {
        &self.backend
    }

    pub fn system(&self) -> (s: &System)
        ensures
            *s == self.system_spec(),
            s.idle_evict_secs == self.idle_limit(),
    {
        &self.system
    }

    /// the generations, under the layout's .gen directory
    pub fn gens(&self) -> (g: &Generations)
        ensures
            g@ == join(self.layout_spec(), ".gen"@),
    {
        proof {
            use_type_invariant(self);
        }
        &self.gens
    }

    /// the cgroup subtree the settings name
    pub fn cgroups(&self) -> (c: &Cgroups)
        ensures
            c@ == self.system_spec().cgroup_root@,
    {
        proof {
            use_type_invariant(self);
        }
        &self.cgroups
    }

    pub fn layers(&self) -> (l: &Vec<LayerDescriptor>)
        ensures
            l@ == self.descriptors(),
    {
        &self.layers
    }

    /// the descriptor of layer `id`
    pub fn find(&self, id: &LayerId) -> (res: Result<&LayerDescriptor>)
        ensures
            match find_index(self.descriptors(), id@) {
                Some(i) => res matches Ok(d) && *d == self.descriptors()[i],
                None => res matches Err(e) && e@ == ErrorView::UnknownLayer(id@),
            },
    {
        let mut i: usize = 0;
        while i < self.layers.len()
            invariant
                i <= self.layers@.len(),
                forall|j: int| 0 <= j < i ==> self.layers@[j].id@ != id@,
            decreases self.layers@.len() - i,
        {
            if str_eq(self.layers[i].id.as_str(), id.as_str()) {
                proof {
                    lemma_find_first(self.layers@, id@, i as int);
                }
                return Ok(&self.layers[i]);
            }
            i += 1;
        }
        proof {
            lemma_find_first(self.layers@, id@, i as int);
        }
        Err(Error::UnknownLayer(String::from_str(id.as_str())))
    }

    /// start warming layer `id` at `now`: an id that names no configured
    /// layer is unknown; a built layer is marked used and is ready; any
    /// other needs its namespace built
    pub fn begin_build(&mut self, id: &str, now: u64) -> (res: Result<Warm>)
        ensures
            layer_id_violation(id@) is Some || find_index(old(self).descriptors(), id@) is None
                ==> (res matches Err(e) && e@ == ErrorView::UnknownLayer(id@) && final(self).built()
                == old(self).built()),
            layer_id_violation(id@) is None && find_index(old(self).descriptors(), id@) is Some
                ==> res is Ok,
            res matches Ok(Warm::Ready(l)) ==> exists|i: int|
                0 <= i < old(self).built().len() && #[trigger] old(self).built()[i].id == id@
                    && l.desc.id@ == id@ && same_descriptor(l.desc, old(self).built()[i].desc)
                    && l.ns_path@ == old(self).built()[i].ns_path
                    && final(self).built() == old(self).built().update(
                    i,
                    EntryView { last_used: now, ..old(self).built()[i] },
                ),
            res matches Ok(Warm::Build(d)) ==> !has_id(old(self).built(), id@)
                && final(self).built() == old(self).built() && d.id@ == id@ && same_descriptor(
                d,
                old(self).descriptors()[find_index(old(self).descriptors(), id@)->0],
            ),
            final(self).descriptors() == old(self).descriptors(),
            final(self).idle_limit() == old(self).idle_limit(),
            final(self).layout_spec() == old(self).layout_spec(),
    {
        proof {
            use_type_invariant(&*self);
        }
        // an invalid id cannot name a real layer, so it is simply unknown
        let lid = match LayerId::new(id) {
            Ok(l) => l,
            Err(_) => {
                return Err(Error::UnknownLayer(String::from_str(id)));
            },
        };
        let desc = match self.find(&lid) {
            Ok(d) => {
                proof {
                    lemma_find_index(self.layers@, id@);
                }
                d.clone()
            },
            Err(e) => {
                return Err(e);
            },
        };
        assert(desc.id@ == id@);
        let ghost before = self.registry@;
        let mut reg = Registry::new();
        std::mem::swap(&mut reg, &mut self.registry);
        let found = reg.lookup(&lid, now);
        proof {
            if found is Some {
                let i = choose|i: int|
                    0 <= i < before.len() && #[trigger] before[i].id == id@ && reg@ == before.update(
                        i,
                        EntryView { last_used: now, ..before[i] },
                    );
                assert(old(self).built()[i].id == id@);
            }
        }
        self.registry = reg;
        match found {
            Some(l) => Ok(Warm::Ready(l)),
            None => Ok(Warm::Build(desc)),
        }
    }

    /// record the namespace the system layer built and pinned for `desc`,
    /// used at `now`: the layer is the descriptor with its namespace file
    /// under the layout, and what is recorded is handed back
    pub fn finish_build(&mut self, desc: LayerDescriptor, mounts: Mounts, now: u64) -> (layer: Layer)
        ensures
            same_descriptor(layer.desc, desc),
            layer.ns_path@ == ns_file_of(old(self).layout_spec(), desc.id@),
            ({
                let v = EntryView {
                    id: desc.id@,
                    desc: desc,
                    ns_path: ns_file_of(old(self).layout_spec(), desc.id@),
                    mounts: mounts@,
                    last_used: now,
                };
                &&& if has_id(old(self).built(), desc.id@) {
                    exists|i: int|
                        0 <= i < old(self).built().len() && #[trigger] old(self).built()[i].id
                            == desc.id@ && final(self).built() == old(self).built().update(
                            i,
                            v,
                        )
                } else {
                    final(self).built() == old(self).built().push(v)
                }
                &&& has_id(final(self).built(), desc.id@)
                &&& forall|i: int|
                    0 <= i < final(self).built().len() && #[trigger] final(self).built()[i].id
                        == desc.id@ ==> final(self).built()[i] == v
            }),
            final(self).descriptors() == old(self).descriptors(),
            final(self).idle_limit() == old(self).idle_limit(),
            final(self).layout_spec() == old(self).layout_spec(),
    {
        proof {
            use_type_invariant(&*self);
        }
        let ns = ns_path(&self.layout, &desc.id);
        let layer = Layer { desc, ns_path: ns };
        let recorded = layer.clone();
        let ghost before = self.registry@;
        let ghost v = EntryView {
            id: layer.desc.id@,
            desc: layer.desc,
            ns_path: layer.ns_path@,
            mounts: mounts@,
            last_used: now,
        };
        let mut reg = Registry::new();
        std::mem::swap(&mut reg, &mut self.registry);
        reg.insert(layer, mounts, now);
        proof {
            if has_id(before, v.id) {
                let i = choose|i: int|
                    0 <= i < before.len() && #[trigger] before[i].id == v.id && reg@
                        == before.update(i, v);
                assert(old(self).built()[i].id == v.id);
            }
        }
        self.registry = reg;
        proof {
            crate::ns::reg::law_insert_then_lookup(before, self.registry@, v);
        }
        recorded
    }

    /// drop a built layer's namespace and hand its entry back for teardown.
    /// a later build rebuilds it. an id that is invalid (and so was never
    /// built) is a no-op
    pub fn evict(&mut self, id: &str) -> (res: Option<Entry>)
        ensures
            layer_id_violation(id@) is None ==> !has_id(final(self).built(), id@),
            match res {
                Some(e) => exists|i: int|
                    0 <= i < old(self).built().len() && #[trigger] old(self).built()[i] == e@
                        && e@.id == id@ && final(self).built() == old(self).built().remove(i),
                None => final(self).built() == old(self).built(),
            },
            final(self).descriptors() == old(self).descriptors(),
            final(self).idle_limit() == old(self).idle_limit(),
            final(self).layout_spec() == old(self).layout_spec(),
    {
        proof {
            use_type_invariant(&*self);
        }
        if LayerId::new(id).is_err() {
            return None;
        }
        let ghost before = self.registry@;
        let mut reg = Registry::new();
        std::mem::swap(&mut reg, &mut self.registry);
        assert(reg@ == before);
        let res = reg.evict_name(id);
        proof {
            if res is Some {
                let e = res->0;
                let i = choose|i: int|
                    0 <= i < before.len() && #[trigger] before[i] == e@ && e@.id == id@ && reg@
                        == before.remove(i);
                assert(old(self).built()[i] == e@);
            }
        }
        self.registry = reg;
        res
    }

    /// drop every namespace unused for the configured idle time at `now`
    /// and hand the entries back for teardown. a zero limit never evicts
    pub fn evict_idle(&mut self, now: u64) -> (stale: Vec<Entry>)
        ensures
            final(self).built() == old(self).built().filter(
                |e: EntryView| !is_idle(e, now, old(self).idle_limit()),
            ),
            entry_views(stale@) == old(self).built().filter(
                |e: EntryView| is_idle(e, now, old(self).idle_limit()),
            ),
            final(self).descriptors() == old(self).descriptors(),
            final(self).idle_limit() == old(self).idle_limit(),
            final(self).layout_spec() == old(self).layout_spec(),
    {
        proof {
            use_type_invariant(&*self);
        }
        let max_idle = self.system.idle_evict_secs;
        let mut reg = Registry::new();
        std::mem::swap(&mut reg, &mut self.registry);
        let stale = reg.evict_idle(now, max_idle);
        self.registry = reg;
        stale
    }

    /// the ids of the built layers, in registry order
    pub fn built_layers(&self) -> (out: Vec<String>)
        ensures
            views(out@) == ids_of(self.built()),
    {
        let ids = self.registry.ids();
        let mut out: Vec<String> = Vec::new();
        let mut i: usize = 0;
        while i < ids.len()
            invariant
                ids@.map_values(|l: LayerId| l@) == ids_of(self.built()),
                i <= ids@.len(),
                out@.len() == i,
                forall|k: int| 0 <= k < i ==> #[trigger] out@[k]@ == ids@[k]@,
            decreases ids@.len() - i,
        {
            out.push(String::from_str(ids[i].as_str()));
            i += 1;
        }
        proof {
            assert(views(out@) =~= ids_of(self.built())) by {
                assert forall|k: int| 0 <= k < out@.len() implies views(out@)[k] == ids_of(
                    self.built(),
                )[k] by {
                    assert(ids@.map_values(|l: LayerId| l@)[k] == ids@[k]@);
                }
            }
        }
        out
    }

    /// how many layers are built
    pub fn built_count(&self) -> (n: usize)
        ensures
            n == self.built().len(),
    {
        self.registry.len()
    }

    /// what the daemon does with one request line at `now`: a line that
    /// does not parse is answered with the error; build warms a layer (see
    /// `begin_build`); evict drops one; list names the built layers; status
    /// counts them
    pub fn dispatch_line(&mut self, line: &str, now: u64) -> (step: Step)
        ensures
            match parse_spec(line@) {
                Err(e) => (step matches Step::Answer(r) && r@ == ReplyView::Failed(e.message()))
                    && final(self).built() == old(self).built(),
                Ok(RequestView::Build(id)) => match step {
                    Step::Answer(r) => (r@ == ReplyView::Okay && exists|i: int|
                        0 <= i < old(self).built().len() && #[trigger] old(self).built()[i].id == id
                            && final(self).built() == old(self).built().update(
                            i,
                            EntryView { last_used: now, ..old(self).built()[i] },
                        )) || (r@ == ReplyView::Failed(ErrorView::UnknownLayer(id).message())
                        && final(self).built() == old(self).built() && (layer_id_violation(
                        id,
                    ) is Some || find_index(old(self).descriptors(), id) is None)),
                    Step::Build(d) => d.id@ == id && !has_id(old(self).built(), id)
                        && final(self).built() == old(self).built() && layer_id_violation(id) is None
                        && find_index(old(self).descriptors(), id) is Some && same_descriptor(
                        d,
                        old(self).descriptors()[find_index(old(self).descriptors(), id)->0],
                    ),
                    Step::Evict { .. } => false,
                },
                Ok(RequestView::Evict(id)) => (step matches Step::Evict { entry, scope }
                    && scope@ == id && layer_id_violation(id) is None && !has_id(
                    final(self).built(),
                    id,
                ) && match entry {
                    Some(e) => exists|i: int|
                        0 <= i < old(self).built().len() && #[trigger] old(self).built()[i] == e@
                            && e@.id == id && final(self).built() == old(self).built().remove(i),
                    None => final(self).built() == old(self).built(),
                }) || (step matches Step::Answer(r) && r@ == ReplyView::Okay && layer_id_violation(
                    id,
                ) is Some && final(self).built() == old(self).built()),
                Ok(RequestView::List) => (step matches Step::Answer(r) && r@ == ReplyView::Lines(
                    ids_of(old(self).built()),
                )) && final(self).built() == old(self).built(),
                Ok(RequestView::Status) => (step matches Step::Answer(r) && r@ == ReplyView::Lines(
                    seq![status_line(old(self).built().len())],
                )) && final(self).built() == old(self).built(),
            },
            final(self).descriptors() == old(self).descriptors(),
            final(self).idle_limit() == old(self).idle_limit(),
            final(self).layout_spec() == old(self).layout_spec(),
    {
        let req = match Request::parse(line) {
            Ok(r) => r,
            Err(e) => {
                return Step::Answer(Reply::Failed(e.message()));
            },
        };
        match req {
            Request::Build(id) => match self.begin_build(id.as_str(), now) {
                Ok(Warm::Ready(_)) => Step::Answer(Reply::Okay),
                Ok(Warm::Build(d)) => Step::Build(d),
                Err(e) => Step::Answer(Reply::Failed(e.message())),
            },
            Request::Evict(id) => {
                if LayerId::new(id.as_str()).is_err() {
                    return Step::Answer(Reply::Okay);
                }
                let entry = self.evict(id.as_str());
                Step::Evict { entry, scope: id }
            },
            Request::List => Step::Answer(Reply::Lines(self.built_layers())),
            Request::Status => {
                let n = self.built_count();
                let line = concat("built ", u64_to_dec(n as u64).as_str());
                let mut lines: Vec<String> = Vec::new();
                lines.push(line);
                proof {
                    assert(views(lines@) =~= seq![status_line(self.built().len())]);
                }
                Step::Answer(Reply::Lines(lines))
            },
        }
    }
}

/// the answer to a build request once the system layer has built (or
/// failed to build) the namespace
pub fn build_reply(outcome: &Result<()>) -> (r: Reply)
    ensures
        match outcome {
            Ok(()) => r@ == ReplyView::Okay,
            Err(e) => r@ == ReplyView::Failed(e@.message()),
        },
{
    match outcome {
        Ok(()) => Reply::Okay,
        Err(e) => Reply::Failed(e.message()),
    }
}

} // verus!
