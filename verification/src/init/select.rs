//! healthy layer with lowest priority wins; rescue layers are the
//! last-resort fallback and only win when no non-rescue layer is healthy

use crate::api::err::{Error, ErrorView, Result, result_view};
use crate::api::hooks::{HealthCheck, LayerSelector};
use crate::api::layer::{LayerDescriptor, LayerId, LayerType};
use crate::path::{join, path_join};
use vstd::prelude::*;

verus! {

pub struct DefaultSelector;

/// the selection key: non-rescue before rescue, then lower priority first
pub open spec fn ranks_before(a: LayerDescriptor, b: LayerDescriptor) -> bool {
    let ra = a.layer_type == LayerType::Rescue;
    let rb = b.layer_type == LayerType::Rescue;
    (!ra && rb) || (ra == rb && a.priority < b.priority)
}

/// `i` is the layer the default policy boots given which candidates are
/// healthy: healthy, no healthy candidate ranks before it, and every healthy
/// candidate ahead of it in the list ranks strictly after it (the first of
/// equally ranked ones wins)
pub open spec fn is_pick(c: Seq<LayerDescriptor>, healthy: Seq<bool>, i: int) -> bool {
    &&& 0 <= i < c.len()
    &&& healthy[i]
    &&& forall|j: int| 0 <= j < c.len() && healthy[j] ==> !ranks_before(#[trigger] c[j], c[i])
    &&& forall|j: int| 0 <= j < i && healthy[j] ==> ranks_before(c[i], #[trigger] c[j])
}

pub open spec fn none_healthy(healthy: Seq<bool>) -> bool {
    forall|j: int| 0 <= j < healthy.len() ==> !#[trigger] healthy[j]
}

/// the outcome of the default policy for given health answers
pub open spec fn select_outcome(c: Seq<LayerDescriptor>, healthy: Seq<bool>) -> std::result::Result<Seq<char>, ErrorView> {
    if exists|i: int| is_pick(c, healthy, i) {
        Ok(c[choose|i: int| is_pick(c, healthy, i)].id@)
    } else {
        Err(ErrorView::NoHealthyLayer)
    }
}

/// a pick exists exactly when some candidate is healthy, and it is unique
pub proof fn lemma_pick_unique(c: Seq<LayerDescriptor>, healthy: Seq<bool>, i: int, k: int)
    requires
        is_pick(c, healthy, i),
        is_pick(c, healthy, k),
    ensures
        i == k,
{
    if i < k {
        assert(ranks_before(c[k], c[i]));
    } else if k < i {
        assert(ranks_before(c[i], c[k]));
    }
}

/// the index of the layer to boot among the healthy candidates, or none when
/// no candidate is healthy
pub fn pick_healthy(candidates: &[LayerDescriptor], healthy: &[bool]) -> (res: Option<usize>)
    requires
        candidates@.len() == healthy@.len(),
    ensures
        match res {
            Some(i) => is_pick(candidates@, healthy@, i as int),
            None => none_healthy(healthy@),
        },
{
    let mut best: Option<usize> = None;
    let mut j: usize = 0;
    while j < candidates.len()
        invariant
            candidates@.len() == healthy@.len(),
            j <= candidates@.len(),
            match best {
                Some(b) => is_pick(candidates@.take(j as int), healthy@.take(j as int), b as int),
                None => forall|k: int| 0 <= k < j ==> !#[trigger] healthy@[k],
            },
        decreases candidates@.len() - j,
    {
        let ghost c0 = candidates@.take(j as int);
        let ghost h0 = healthy@.take(j as int);
        let ghost c1 = candidates@.take(j + 1);
        let ghost h1 = healthy@.take(j + 1);
        if healthy[j] {
            let take = match best {
                None => true,
                Some(b) => {
                    let cj = &candidates[j];
                    let cb = &candidates[b];
                    let rj = cj.layer_type == LayerType::Rescue;
                    let rb = cb.layer_type == LayerType::Rescue;
                    (!rj && rb) || (rj == rb && cj.priority < cb.priority)
                },
            };
            if take {
                proof {
                    assert forall|k: int| 0 <= k < c1.len() && h1[k] implies !ranks_before(
                        #[trigger] c1[k],
                        c1[j as int],
                    ) by {
                        if k < j {
                            assert(c1[k] == c0[k]);
                            assert(h1[k] == h0[k]);
                            if let Some(b) = best {
                                assert(!ranks_before(c0[k], c0[b as int]));
                            }
                        }
                    }
                    assert forall|k: int| 0 <= k < j && h1[k] implies ranks_before(
                        c1[j as int],
                        #[trigger] c1[k],
                    ) by {
                        assert(c1[k] == c0[k]);
                        assert(h1[k] == h0[k]);
                        if let Some(b) = best {
                            assert(!ranks_before(c0[k], c0[b as int]));
                        }
                    }
                }
                best = Some(j);
            } else {
                proof {
                    let b = best->0;
                    assert forall|k: int| 0 <= k < c1.len() && h1[k] implies !ranks_before(
                        #[trigger] c1[k],
                        c1[b as int],
                    ) by {
                        if k < j {
                            assert(c1[k] == c0[k]);
                            assert(h1[k] == h0[k]);
                        }
                    }
                    assert forall|k: int| 0 <= k < b && h1[k] implies ranks_before(
                        c1[b as int],
                        #[trigger] c1[k],
                    ) by {
                        assert(c1[k] == c0[k]);
                        assert(h1[k] == h0[k]);
                    }
                }
            }
        } else {
            proof {
                if let Some(b) = best {
                    assert forall|k: int| 0 <= k < c1.len() && h1[k] implies !ranks_before(
                        #[trigger] c1[k],
                        c1[b as int],
                    ) by {
                        assert(c1[k] == c0[k]);
                        assert(h1[k] == h0[k]);
                    }
                    assert forall|k: int| 0 <= k < b && h1[k] implies ranks_before(
                        c1[b as int],
                        #[trigger] c1[k],
                    ) by {
                        assert(c1[k] == c0[k]);
                        assert(h1[k] == h0[k]);
                    }
                }
            }
        }
        j += 1;
    }
    assert(candidates@.take(j as int) =~= candidates@);
    assert(healthy@.take(j as int) =~= healthy@);
    best
}

/// the outcome of the default policy once every candidate's health is known
pub fn select_from(candidates: &[LayerDescriptor], healthy: &[bool]) -> (res: Result<LayerId>)
    requires
        candidates@.len() == healthy@.len(),
    ensures
        result_view(res) == select_outcome(candidates@, healthy@),
{
    match pick_healthy(candidates, healthy) {
        Some(i) => {
            proof {
                let k = choose|k: int| is_pick(candidates@, healthy@, k);
                lemma_pick_unique(candidates@, healthy@, i as int, k);
            }
            Ok(candidates[i].id.clone())
        },
        None => {
            proof {
                if exists|i: int| is_pick(candidates@, healthy@, i) {
                    let k = choose|k: int| is_pick(candidates@, healthy@, k);
                    assert(healthy@[k]);
                }
            }
            Err(Error::NoHealthyLayer)
        },
    }
}

/// `b` is an answer that `health` may give for `c` when it is handed the
/// path of `c`'s own tree under `store_root`
pub open spec fn answered<H: HealthCheck>(
    health: &H,
    c: LayerDescriptor,
    store_root: Seq<char>,
    b: bool,
) -> bool {
    exists|r: &str|
        r@ == join(store_root, c.id@) && #[trigger] call_ensures(H::is_healthy, (health, &c, r), b)
}

impl LayerSelector for DefaultSelector {
    /// each candidate is checked against its own tree under `store_root`;
    /// the outcome is the default policy's for the answers the check gave
    fn select<H: HealthCheck>(
        &self,
        candidates: &[LayerDescriptor],
        health: &H,
        store_root: &str,
    ) -> (res: Result<LayerId>)
        ensures
            exists|healthy: Seq<bool>|
                {
                    &&& healthy.len() == candidates@.len()
                    &&& forall|k: int|
                        0 <= k < candidates@.len() ==> #[trigger] answered(
                            health,
                            candidates@[k],
                            store_root@,
                            healthy[k],
                        )
                    &&& result_view(res) == #[trigger] select_outcome(candidates@, healthy)
                },
    {
        let mut healthy: Vec<bool> = Vec::new();
        let mut i: usize = 0;
        while i < candidates.len()
            invariant
                i <= candidates@.len(),
                healthy@.len() == i,
                forall|k: int|
                    0 <= k < i ==> #[trigger] answered(
                        health,
                        candidates@[k],
                        store_root@,
                        healthy@[k],
                    ),
            decreases candidates@.len() - i,
        {
            let root = path_join(store_root, candidates[i].id.as_str());
            let rs = root.as_str();
            let b = health.is_healthy(&candidates[i], rs);
            let ghost before = healthy@;
            healthy.push(b);
            proof {
                assert(answered(health, candidates@[i as int], store_root@, b));
                assert forall|k: int| 0 <= k < i + 1 implies #[trigger] answered(
                    health,
                    candidates@[k],
                    store_root@,
                    healthy@[k],
                ) by {
                    if k < i {
                        assert(healthy@[k] == before[k]);
                    }
                }
            }
            i += 1;
        }
        select_from(candidates, healthy.as_slice())
    }
}

/// The chosen layer is healthy and no healthy layer ranks before it; when
/// nothing is healthy (an empty candidate list included) the answer is
/// `NoHealthyLayer`.
pub proof fn law_selection_is_best_healthy(c: Seq<LayerDescriptor>, healthy: Seq<bool>)
    requires
        healthy.len() == c.len(),
    ensures
        select_outcome(c, healthy) matches Ok(id) ==> exists|i: int|
            0 <= i < c.len() && healthy[i] && c[i].id@ == id && forall|j: int|
                0 <= j < c.len() && healthy[j] ==> !ranks_before(#[trigger] c[j], c[i]),
        none_healthy(healthy) ==> select_outcome(c, healthy) == Err::<Seq<char>, ErrorView>(
            ErrorView::NoHealthyLayer,
        ),
        c.len() == 0 ==> select_outcome(c, healthy) == Err::<Seq<char>, ErrorView>(
            ErrorView::NoHealthyLayer,
        ),
{
    if exists|i: int| is_pick(c, healthy, i) {
        let k = choose|k: int| is_pick(c, healthy, k);
        assert(healthy[k]);
    }
}

/// A healthy non-rescue layer always beats every rescue layer, whatever the
/// priorities.
pub proof fn law_rescue_is_last_resort(c: Seq<LayerDescriptor>, healthy: Seq<bool>, i: int)
    requires
        healthy.len() == c.len(),
        is_pick(c, healthy, i),
        c[i].layer_type == LayerType::Rescue,
    ensures
        forall|j: int|
            0 <= j < c.len() && healthy[j] ==> #[trigger] c[j].layer_type == LayerType::Rescue,
{
    assert forall|j: int| 0 <= j < c.len() && healthy[j] implies #[trigger] c[j].layer_type
        == LayerType::Rescue by {
        if c[j].layer_type != LayerType::Rescue {
            assert(ranks_before(c[j], c[i]));
        }
    }
}


/// a layer the default policy would boot, when some candidate is healthy
proof fn lemma_pick_exists(c: Seq<LayerDescriptor>, healthy: Seq<bool>) -> (i: int)
    requires
        healthy.len() == c.len(),
        exists|j: int| 0 <= j < c.len() && healthy[j],
    ensures
        is_pick(c, healthy, i),
    decreases c.len(),
{
    let n = c.len() - 1;
    let cl = c.drop_last();
    let hl = healthy.drop_last();
    assert forall|j: int| 0 <= j < n implies #[trigger] cl[j] == c[j] && hl[j] == healthy[j] by {}
    if exists|j: int| 0 <= j < n && hl[j] {
        let b = lemma_pick_exists(cl, hl);
        assert(cl[b] == c[b] && hl[b] == healthy[b]);
        if healthy[n] && ranks_before(c[n], c[b]) {
            assert forall|j: int| 0 <= j < c.len() && healthy[j] implies !ranks_before(
                #[trigger] c[j],
                c[n],
            ) by {
                if j < n {
                    assert(cl[j] == c[j]);
                    assert(!ranks_before(cl[j], cl[b]));
                }
            }
            assert forall|j: int| 0 <= j < n && healthy[j] implies ranks_before(
                c[n],
                #[trigger] c[j],
            ) by {
                assert(cl[j] == c[j]);
                assert(!ranks_before(cl[j], cl[b]));
            }
            n
        } else {
            assert forall|j: int| 0 <= j < c.len() && healthy[j] implies !ranks_before(
                #[trigger] c[j],
                c[b],
            ) by {
                if j < n {
                    assert(cl[j] == c[j]);
                    assert(hl[j] == healthy[j]);
                }
            }
            assert forall|j: int| 0 <= j < b && healthy[j] implies ranks_before(
                c[b],
                #[trigger] c[j],
            ) by {
                assert(cl[j] == c[j]);
                assert(hl[j] == healthy[j]);
            }
            b
        }
    } else {
        let w = choose|j: int| 0 <= j < c.len() && healthy[j];
        if w < n {
            assert(hl[w]);
        }
        assert forall|j: int| 0 <= j < n implies !healthy[j] by {
            assert(hl[j] == healthy[j]);
        }
        n
    }
}

/// Boot order by layer kind and priority: some candidate boots exactly when
/// one is healthy. The one that boots has the lowest priority of the
/// healthy non-rescue layers, whatever their kinds; a rescue layer boots
/// only when no non-rescue layer is healthy, and then the lowest-priority
/// healthy rescue layer; of equal ones the first listed boots.
pub proof fn law_boot_order(c: Seq<LayerDescriptor>, healthy: Seq<bool>)
    requires
        healthy.len() == c.len(),
    ensures
        select_outcome(c, healthy) is Ok <==> exists|j: int| 0 <= j < c.len() && healthy[j],
        select_outcome(c, healthy) matches Ok(id) ==> exists|i: int|
            {
                &&& 0 <= i < c.len()
                &&& healthy[i]
                &&& c[i].id@ == id
                &&& forall|j: int|
                    0 <= j < c.len() && healthy[j] && #[trigger] c[j].layer_type != LayerType::Rescue
                        ==> c[i].layer_type != LayerType::Rescue && c[i].priority <= c[j].priority
                &&& forall|j: int|
                    0 <= j < c.len() && healthy[j] && #[trigger] c[j].layer_type == LayerType::Rescue
                        ==> c[i].layer_type != LayerType::Rescue || c[i].priority <= c[j].priority
                &&& forall|j: int|
                    0 <= j < i && healthy[j] && (#[trigger] c[j].layer_type == LayerType::Rescue)
                        == (c[i].layer_type == LayerType::Rescue) ==> c[i].priority < c[j].priority
            },
{
    if exists|j: int| 0 <= j < c.len() && healthy[j] {
        let k = lemma_pick_exists(c, healthy);
        assert(exists|i: int| is_pick(c, healthy, i));
    } else {
        assert(!exists|i: int| is_pick(c, healthy, i));
    }
    if exists|i: int| is_pick(c, healthy, i) {
        let i = choose|i: int| is_pick(c, healthy, i);
        assert(healthy[i]);
        assert forall|j: int|
            0 <= j < c.len() && healthy[j] && #[trigger] c[j].layer_type != LayerType::Rescue
                implies c[i].layer_type != LayerType::Rescue && c[i].priority <= c[j].priority by {
            assert(!ranks_before(c[j], c[i]));
        }
        assert forall|j: int|
            0 <= j < c.len() && healthy[j] && #[trigger] c[j].layer_type == LayerType::Rescue
                implies c[i].layer_type != LayerType::Rescue || c[i].priority <= c[j].priority by {
            assert(!ranks_before(c[j], c[i]));
        }
        assert forall|j: int|
            0 <= j < i && healthy[j] && (#[trigger] c[j].layer_type == LayerType::Rescue) == (
            c[i].layer_type == LayerType::Rescue) implies c[i].priority < c[j].priority by {
            assert(ranks_before(c[i], c[j]));
        }
    }
}

} // verus!
