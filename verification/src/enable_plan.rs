//! The decisions of loading the enabled plugins in batches: ids are taken
//! for the plugins to load, the dependency check and the load order decide
//! which of them are loaded and in which order, the ids of the others are
//! given back, and each load's outcome is recorded. Loading a plugin itself
//! (compiling its wasm) happens between these steps, outside the library.

use vstd::prelude::*;

use crate::plugin_loader::{
    raw_id, raw_wasm_ids, PluginDependencyError, PluginLoadError, PluginLoader, PluginPreloadError,
    PluginRaw, PLUGIN_ID_BITMAP_SIZE, PLUGIN_LIMIT, PLUGIN_WASM_ID_BITMAP_SIZE,
};
use crate::lazy_plugin::LazyLoadPlugin;
use crate::types::{PluginId, PluginName};

verus! {

/// The ids of a plan, as a set.
pub open spec fn plan_ids(plan: Seq<(PluginId, usize)>) -> Set<nat> {
    Set::new(|n: nat| exists|k: int| 0 <= k < plan.len() && plan[k].0.0 == n)
}

/// The ids of a list, as a set.
pub open spec fn id_set(ids: Seq<PluginId>) -> Set<nat> {
    Set::new(|n: nat| exists|k: int| 0 <= k < ids.len() && ids[k].0 == n)
}

/// The batches of a load order, one after another.
pub open spec fn flatten_batches(bs: Seq<Vec<PluginId>>) -> Seq<PluginId>
    decreases bs.len(),
{
    if bs.len() == 0 {
        Seq::empty()
    } else {
        flatten_batches(bs.drop_last()) + bs.last()@
    }
}

/// The ids of a list of dependency errors.
pub open spec fn error_id_set(es: Seq<PluginDependencyError>) -> Set<nat> {
    Set::new(|n: nat| exists|k: int| 0 <= k < es.len() && es[k].id.0 == n)
}

/// No id occurs twice in the plan, and each is a valid plugin id.
pub open spec fn plan_valid(plan: Seq<(PluginId, usize)>) -> bool {
    &&& forall|i: int, j: int| 0 <= i < j < plan.len() ==> plan[i].0 != plan[j].0
    &&& forall|i: int| 0 <= i < plan.len() ==> (#[trigger] plan[i]).0.0 < PLUGIN_ID_BITMAP_SIZE * 64
}

/// What the load order asks to load: each id of its batches once, each
/// planned. (Anything else cannot come out of the dependency analysis.)
pub open spec fn order_valid(
    plan: Seq<(PluginId, usize)>,
    order: Result<Vec<Vec<PluginId>>, Vec<PluginDependencyError>>,
) -> bool {
    match order {
        Ok(bs) => {
            &&& flatten_batches(bs@).no_duplicates()
            &&& forall|i: int|
                0 <= i < flatten_batches(bs@).len() ==> plan_ids(plan).contains(
                    (#[trigger] flatten_batches(bs@)[i]).0 as nat,
                )
        },
        Err(es) => forall|k: int| 0 <= k < es@.len() ==> (#[trigger] es@[k]).id.0 < PLUGIN_ID_BITMAP_SIZE * 64,
    }
}

/// The loads to perform for a load order: for each id of its batches, in
/// order, that id with the plugin index it was planned for.
pub open spec fn loads_for(
    plan: Seq<(PluginId, usize)>,
    flat: Seq<PluginId>,
    loads: Seq<(PluginId, usize)>,
) -> bool {
    &&& loads.len() == flat.len()
    &&& forall|i: int|
        0 <= i < loads.len() ==> (#[trigger] loads[i]).0 == flat[i] && exists|k: int|
            0 <= k < plan.len() && plan[k] == loads[i]
}

impl PluginLoader {
    /// Takes `n` plugin ids, smallest first. On failure the ids taken so far
    /// stay taken and the error is that there is no id left.
    pub fn allocate_plugin_ids(&mut self, n: usize) -> (r: Result<Vec<PluginId>, PluginLoadError>)
        requires
            old(self).well_formed(),
        ensures
            final(self).well_formed(),
            final(self).registered() == old(self).registered(),
            final(self).lazy_plugins() == old(self).lazy_plugins(),
            final(self).wasm_ids() == old(self).wasm_ids(),
            final(self).plugin_names() == old(self).plugin_names(),
            final(self).enable_count() == old(self).enable_count(),
            match r {
                Ok(ids) => {
                    &&& ids@.len() == n
                    &&& forall|i: int, j: int| 0 <= i < j < ids@.len() ==> ids@[i] != ids@[j]
                    &&& forall|i: int|
                        0 <= i < ids@.len() ==> !old(self).plugin_ids().contains(
                            (#[trigger] ids@[i]).0 as nat,
                        ) && ids@[i].0 < PLUGIN_ID_BITMAP_SIZE * 64
                    &&& final(self).plugin_ids() == old(self).plugin_ids().union(id_set(ids@))
                },
                Err(e) => {
                    &&& old(self).plugin_ids().subset_of(final(self).plugin_ids())
                    &&& forall|j: nat| j < PLUGIN_ID_BITMAP_SIZE * 64 ==> #[trigger] final(self).plugin_ids().contains(j)
                    &&& e matches PluginLoadError::PreLoadError(PluginPreloadError::PluginIdCapacityReached(c)) && c == PLUGIN_LIMIT
                },
            },
    {
        let ghost start = self.plugin_ids();
        let mut ids: Vec<PluginId> = Vec::new();
        let mut i: usize = 0;
        assert(start.union(id_set(ids@)) =~= start);
        while i < n
            invariant
                self.well_formed(),
                i <= n,
                ids@.len() == i,
                self.registered() == old(self).registered(),
                self.lazy_plugins() == old(self).lazy_plugins(),
                self.wasm_ids() == old(self).wasm_ids(),
                self.plugin_names() == old(self).plugin_names(),
                self.enable_count() == old(self).enable_count(),
                start == old(self).plugin_ids(),
                forall|a: int, b: int| 0 <= a < b < ids@.len() ==> ids@[a] != ids@[b],
                forall|a: int|
                    0 <= a < ids@.len() ==> !start.contains((#[trigger] ids@[a]).0 as nat)
                        && ids@[a].0 < PLUGIN_ID_BITMAP_SIZE * 64,
                self.plugin_ids() == start.union(id_set(ids@)),
            decreases n - i,
        {
            let ghost before = self.plugin_ids();
            match self.alloc_plugin_id() {
                Ok(id) => {
                    proof {
                        assert forall|a: int| 0 <= a < ids@.len() implies ids@[a] != id by {
                            assert(before.contains(ids@[a].0 as nat)) by {
                                assert(id_set(ids@).contains(ids@[a].0 as nat));
                            }
                        }
                        assert(!start.contains(id.0 as nat));
                    }
                    let ghost old_ids = ids@;
                    ids.push(id);
                    proof {
                        assert(ids@.drop_last() =~= old_ids);
                        assert(id_set(ids@) =~= id_set(ids@.drop_last()).insert(id.0 as nat)) by {
                            assert forall|m: nat| id_set(ids@).contains(m) implies id_set(
                                ids@.drop_last(),
                            ).insert(id.0 as nat).contains(m) by {
                                let k = choose|k: int| 0 <= k < ids@.len() && ids@[k].0 == m;
                                if k < ids@.len() - 1 {
                                    assert(ids@.drop_last()[k].0 == m);
                                }
                            }
                            assert forall|m: nat| id_set(ids@.drop_last()).insert(id.0 as nat).contains(m) implies id_set(ids@).contains(m) by {
                                if m != id.0 as nat {
                                    let k = choose|k: int| 0 <= k < ids@.drop_last().len() && ids@.drop_last()[k].0 == m;
                                    assert(ids@[k].0 == m);
                                } else {
                                    assert(ids@[ids@.len() - 1].0 == m);
                                }
                            }
                        }
                        assert(self.plugin_ids() =~= start.union(id_set(ids@)));
                    }
                },
                Err(e) => {
                    return Err(e);
                },
            }
            i = i + 1;
        }
        Ok(ids)
    }

    /// Settles a batch load once the dependency check and the load order are
    /// known: `plan` pairs each taken id with the plugin it is for,
    /// `issue_count` is how many problems the dependency check found, and
    /// `order` is the load order (or the plugins left in cycles). The
    /// plugins without problems are counted as enabled. With a load order,
    /// the loads to perform are returned in its order; with cycles, the ids
    /// reported are given back and nothing is loaded. The ids of the plan
    /// that are not loaded are given back.
    pub fn settle_enabled_plugins(
        &mut self,
        plan: &Vec<(PluginId, usize)>,
        issue_count: usize,
        order: Result<Vec<Vec<PluginId>>, Vec<PluginDependencyError>>,
    ) -> (loads: Vec<(PluginId, usize)>)
        requires
            old(self).well_formed(),
            plan_valid(plan@),
            order_valid(plan@, order),
            issue_count <= plan@.len(),
            old(self).enable_count() + (plan@.len() - issue_count) <= usize::MAX,
        ensures
            final(self).well_formed(),
            final(self).registered() == old(self).registered(),
            final(self).lazy_plugins() == old(self).lazy_plugins(),
            final(self).wasm_ids() == old(self).wasm_ids(),
            final(self).plugin_names() == old(self).plugin_names(),
            final(self).enable_count() == old(self).enable_count() + (plan@.len() - issue_count),
            match order {
                Ok(bs) => {
                    &&& loads_for(plan@, flatten_batches(bs@), loads@)
                    &&& final(self).plugin_ids() == old(self).plugin_ids().difference(
                        plan_ids(plan@).difference(id_set(flatten_batches(bs@))),
                    )
                },
                Err(es) => {
                    &&& loads@.len() == 0
                    &&& final(self).plugin_ids() == old(self).plugin_ids().difference(
                        plan_ids(plan@).union(error_id_set(es@)),
                    )
                },
            },
    {
        let total = plan.len() - issue_count;
        self.count_enabled(total);
        let ghost counted = *self;
        let mut loads: Vec<(PluginId, usize)> = Vec::new();
        let mut loaded: Vec<PluginId> = Vec::new();
        match &order {
            Ok(batches) => {
                let flat = flatten(batches);
                let mut i: usize = 0;
                while i < flat.len()
                    invariant
                        flat@ == flatten_batches(batches@),
                        forall|q: int|
                            0 <= q < flat@.len() ==> plan_ids(plan@).contains(
                                (#[trigger] flat@[q]).0 as nat,
                            ),
                        plan_valid(plan@),
                        i <= flat@.len(),
                        loaded@ == flat@.take(i as int),
                        loads_for(plan@, flat@.take(i as int), loads@),
                    decreases flat.len() - i,
                {
                    let id = flat[i];
                    assert(plan_ids(plan@).contains(flat@[i as int].0 as nat));
                    let p = plan_position(plan, id);
                    loads.push(plan[p]);
                    loaded.push(id);
                    assert(loaded@ =~= flat@.take(i as int + 1));
                    assert forall|q: int| 0 <= q < loads@.len() implies (#[trigger] loads@[q]).0
                        == flat@.take(i as int + 1)[q] && exists|k: int|
                        0 <= k < plan@.len() && plan@[k] == loads@[q] by {
                        if q == i {
                            assert(plan@[p as int] == loads@[q]);
                        }
                    }
                    i = i + 1;
                }
                assert(flat@.take(flat@.len() as int) =~= flat@);
            },
            Err(errors) => {
                let mut k: usize = 0;
                let ghost es = errors@;
                while k < errors.len()
                    invariant
                        self.well_formed(),
                        es == errors@,
                        forall|q: int| 0 <= q < es.len() ==> (#[trigger] es[q]).id.0 < PLUGIN_ID_BITMAP_SIZE * 64,
                        k <= es.len(),
                        self.registered() == counted.registered(),
                        self.lazy_plugins() == counted.lazy_plugins(),
                        self.wasm_ids() == counted.wasm_ids(),
                        self.plugin_names() == counted.plugin_names(),
                        self.enable_count() == counted.enable_count(),
                        self.plugin_ids() == counted.plugin_ids().difference(error_id_set(es.take(k as int))),
                    decreases errors.len() - k,
                {
                    let id = errors[k].id;
                    assert(es[k as int].id.0 < PLUGIN_ID_BITMAP_SIZE * 64);
                    self.free_plugin_id(id);
                    proof {
                        let t0 = es.take(k as int);
                        let t1 = es.take(k as int + 1);
                        assert forall|n: nat| error_id_set(t1).contains(n) == (error_id_set(t0).contains(n) || n == id.0) by {
                            if error_id_set(t1).contains(n) {
                                let q = choose|q: int| 0 <= q < t1.len() && #[trigger] t1[q].id.0 == n;
                                if q < k {
                                    assert(t0[q].id.0 == n);
                                }
                            }
                            if error_id_set(t0).contains(n) {
                                let q = choose|q: int| 0 <= q < t0.len() && #[trigger] t0[q].id.0 == n;
                                assert(t1[q].id.0 == n);
                            }
                            if n == id.0 {
                                assert(t1[k as int].id.0 == n);
                            }
                        }
                        assert(self.plugin_ids() =~= counted.plugin_ids().difference(error_id_set(t1)));
                    }
                    k = k + 1;
                }
                assert(es.take(es.len() as int) =~= es);
            },
        }
        let ghost mid = *self;
        let ghost kept = id_set(loaded@);
        let mut p: usize = 0;
        assert(mid.plugin_ids().difference(leftover(plan@, kept, 0)) =~= mid.plugin_ids());
        while p < plan.len()
            invariant
                self.well_formed(),
                plan_valid(plan@),
                p <= plan@.len(),
                kept == id_set(loaded@),
                self.registered() == mid.registered(),
                self.lazy_plugins() == mid.lazy_plugins(),
                self.wasm_ids() == mid.wasm_ids(),
                self.plugin_names() == mid.plugin_names(),
                self.enable_count() == mid.enable_count(),
                self.plugin_ids() == mid.plugin_ids().difference(leftover(plan@, kept, p as int)),
            decreases plan.len() - p,
        {
            let id = plan[p].0;
            let ghost before = self.plugin_ids();
            if !contains_id(&loaded, id) {
                assert(plan@[p as int].0.0 < PLUGIN_ID_BITMAP_SIZE * 64);
                self.free_plugin_id(id);
            }
            proof {
                assert forall|n: nat| leftover(plan@, kept, p + 1).contains(n) == (leftover(plan@, kept, p as int).contains(n)
                    || (n == id.0 && !kept.contains(n))) by {
                    if leftover(plan@, kept, p + 1).contains(n) {
                        let q = choose|q: int| 0 <= q < p + 1 && #[trigger] plan@[q].0.0 == n && !kept.contains(n);
                        if q < p {
                            assert(leftover(plan@, kept, p as int).contains(n));
                        }
                    }
                    if leftover(plan@, kept, p as int).contains(n) {
                        let q = choose|q: int| 0 <= q < p && #[trigger] plan@[q].0.0 == n && !kept.contains(n);
                        assert(leftover(plan@, kept, p + 1).contains(n));
                    }
                    if n == id.0 && !kept.contains(n) {
                        assert(plan@[p as int].0.0 == n);
                    }
                }
                assert(self.plugin_ids() =~= mid.plugin_ids().difference(leftover(plan@, kept, p + 1)));
            }
            p = p + 1;
        }
        proof {
            assert(leftover(plan@, kept, plan@.len() as int) =~= plan_ids(plan@).difference(kept));
            match order {
                Ok(bs) => {
                    assert(self.plugin_ids() =~= old(self).plugin_ids().difference(
                        plan_ids(plan@).difference(id_set(flatten_batches(bs@))),
                    ));
                },
                Err(es) => {
                    assert(kept =~= Set::<nat>::empty());
                    assert(self.plugin_ids() =~= old(self).plugin_ids().difference(
                        plan_ids(plan@).union(error_id_set(es@)),
                    ));
                },
            }
        }
        loads
    }

    /// Records the outcome of one load of a batch: a loaded plugin is
    /// registered under its id; when the load failed, the id is given back.
    pub fn finish_plugin_load(&mut self, id: PluginId, loaded: Option<PluginRaw>)
        requires
            old(self).well_formed(),
            id.0 < PLUGIN_ID_BITMAP_SIZE * 64,
            loaded matches Some(p) ==> raw_id(p) == id.0 && forall|k: int|
                0 <= k < raw_wasm_ids(p).len() ==> (#[trigger] raw_wasm_ids(p)[k]).0
                    < PLUGIN_WASM_ID_BITMAP_SIZE * 64,
        ensures
            final(self).well_formed(),
            final(self).lazy_plugins() == old(self).lazy_plugins(),
            final(self).wasm_ids() == old(self).wasm_ids(),
            final(self).plugin_names() == old(self).plugin_names(),
            final(self).enable_count() == old(self).enable_count(),
            match loaded {
                Some(p) => {
                    &&& final(self).registered() == old(self).registered().insert(id.0, p)
                    &&& final(self).plugin_ids() == old(self).plugin_ids()
                },
                None => {
                    &&& final(self).registered() == old(self).registered()
                    &&& final(self).plugin_ids() == old(self).plugin_ids().remove(id.0 as nat)
                },
            },
    {
        match loaded {
            Some(p) => self.register_plugin(p),
            None => self.free_plugin_id(id),
        }
    }
}

/// The plan's ids among its first `p` entries that are not kept.
pub open spec fn leftover(plan: Seq<(PluginId, usize)>, kept: Set<nat>, p: int) -> Set<nat> {
    Set::new(|n: nat| exists|q: int| 0 <= q < p && #[trigger] plan[q].0.0 == n && !kept.contains(n))
}

/// The batches one after another.
fn flatten(bs: &Vec<Vec<PluginId>>) -> (r: Vec<PluginId>)
    ensures
        r@ == flatten_batches(bs@),
{
    let mut r: Vec<PluginId> = Vec::new();
    let mut j: usize = 0;
    assert(bs@.take(0) =~= Seq::<Vec<PluginId>>::empty());
    while j < bs.len()
        invariant
            j <= bs@.len(),
            r@ == flatten_batches(bs@.take(j as int)),
        decreases bs.len() - j,
    {
        assert(bs@.take(j as int + 1).drop_last() =~= bs@.take(j as int));
        let ghost base = r@;
        let mut k: usize = 0;
        while k < bs[j].len()
            invariant
                j < bs@.len(),
                k <= bs@[j as int]@.len(),
                r@ == base + bs@[j as int]@.take(k as int),
            decreases bs[j as int]@.len() - k,
        {
            r.push(bs[j][k]);
            assert(r@ =~= base + bs@[j as int]@.take(k as int + 1));
            k = k + 1;
        }
        assert(bs@[j as int]@.take(bs@[j as int]@.len() as int) =~= bs@[j as int]@);
        j = j + 1;
    }
    assert(bs@.take(bs@.len() as int) =~= bs@);
    r
}

/// The position of `id` in the plan.
fn plan_position(plan: &Vec<(PluginId, usize)>, id: PluginId) -> (r: usize)
    requires
        plan_ids(plan@).contains(id.0 as nat),
    ensures
        r < plan@.len(),
        plan@[r as int].0 == id,
{
    let mut i: usize = 0;
    while i < plan.len()
        invariant
            i <= plan@.len(),
            plan_ids(plan@).contains(id.0 as nat),
            forall|q: int| 0 <= q < i ==> plan@[q].0.0 != id.0,
        decreases plan.len() - i,
    {
        if plan[i].0.0 == id.0 {
            return i;
        }
        i = i + 1;
    }
    proof {
        let q = choose|q: int| 0 <= q < plan@.len() && plan@[q].0.0 == id.0;
        assert(plan@[q].0.0 != id.0);
    }
    0
}

/// Whether `id` is in `ids`.
fn contains_id(ids: &Vec<PluginId>, id: PluginId) -> (r: bool)
    ensures
        r == id_set(ids@).contains(id.0 as nat),
{
    let mut i: usize = 0;
    while i < ids.len()
        invariant
            i <= ids@.len(),
            forall|q: int| 0 <= q < i ==> ids@[q].0 != id.0,
        decreases ids.len() - i,
    {
        if ids[i].0 == id.0 {
            assert(ids@[i as int].0 == id.0);
            return true;
        }
        i = i + 1;
    }
    false
}

/// The name a plugin found so far goes by, whatever became of its manifest.
pub open spec fn lazy_name(lz: LazyLoadPlugin) -> Seq<char> {
    match lz {
        LazyLoadPlugin::ExternalPlugin { name, .. } => name@,
        LazyLoadPlugin::BuiltinPlugin { name, .. } => name@,
        LazyLoadPlugin::InvalidPlugin { name, .. } => name@,
    }
}

impl PluginLoader {
    /// The position, among the plugins found so far, of the last one named
    /// `name` (the one a later find of that name replaces the others with).
    pub fn lazy_plugin_index(&self, name: &PluginName) -> (r: Option<usize>)
        ensures
            match r {
                Some(i) => {
                    &&& i < self.lazy_plugins().len()
                    &&& lazy_name(self.lazy_plugins()[i as int]) == name@
                    &&& forall|j: int|
                        i < j < self.lazy_plugins().len() ==> lazy_name(#[trigger] self.lazy_plugins()[j])
                            != name@
                },
                None => forall|j: int|
                    0 <= j < self.lazy_plugins().len() ==> lazy_name(#[trigger] self.lazy_plugins()[j])
                        != name@,
            },
    {
        let list = self.lazy_load_plugins();
        let mut i: usize = list.len();
        while i > 0
            invariant
                list@ == self.lazy_plugins(),
                i <= list@.len(),
                forall|j: int| i <= j < list@.len() ==> lazy_name(#[trigger] list@[j]) != name@,
            decreases i,
        {
            let k = i - 1;
            let found = match &list[k] {
                LazyLoadPlugin::ExternalPlugin { name: n, .. } => *n == *name,
                LazyLoadPlugin::BuiltinPlugin { name: n, .. } => *n == *name,
                LazyLoadPlugin::InvalidPlugin { name: n, .. } => *n == *name,
            };
            if found {
                return Some(k);
            }
            i = k;
        }
        None
    }
}

} // verus!
