//! The reverse dependency graph of plugins, and its ordering into batches
//! that can be loaded one after the other (each batch in parallel).

use vstd::prelude::*;
use vstd::seq_lib::seq_to_set_is_finite;
use vstd::set_lib::{lemma_len_subset, lemma_set_disjoint_lens};

use crate::plugin_loader::{PluginDependencyError, PluginDependencyErrorInner, PluginLoader};
use crate::types::{PluginId, plugin_id_text};

use std::collections::HashMap;

verus! {

broadcast use vstd::std_specs::hash::group_hash_axioms;

/// A dependency graph as a list of `(provider, dependents)` entries: the
/// plugins listed under a provider depend on it.
pub type Graph = Seq<(u64, Seq<u64>)>;

/// No provider is listed twice.
pub open spec fn keys_distinct(g: Graph) -> bool {
    forall|i: int, j: int| 0 <= i < j < g.len() ==> g[i].0 != g[j].0
}

/// How often `n` occurs in `s`.
pub open spec fn occurrences(s: Seq<u64>, n: u64) -> nat
    decreases s.len(),
{
    if s.len() == 0 {
        0
    } else {
        occurrences(s.drop_last(), n) + (if s.last() == n {
            1nat
        } else {
            0nat
        })
    }
}

/// The number of dependency edges into `n` whose provider is not in `done`.
pub open spec fn pending(g: Graph, done: Set<u64>, n: u64) -> nat
    decreases g.len(),
{
    if g.len() == 0 {
        0
    } else {
        pending(g.drop_last(), done, n) + (if done.contains(g.last().0) {
            0nat
        } else {
            occurrences(g.last().1, n)
        })
    }
}

/// Every id the graph mentions, providers and dependents, in order.
pub open spec fn all_ids(g: Graph) -> Seq<u64>
    decreases g.len(),
{
    if g.len() == 0 {
        Seq::empty()
    } else {
        all_ids(g.drop_last()).push(g.last().0) + g.last().1
    }
}

/// The plugins of the graph.
pub open spec fn graph_nodes(g: Graph) -> Set<u64> {
    all_ids(g).to_set()
}

/// The total number of dependency edges.
pub open spec fn edge_count(g: Graph) -> nat
    decreases g.len(),
{
    if g.len() == 0 {
        0
    } else {
        edge_count(g.drop_last()) + g.last().1.len()
    }
}

/// The plugins not in `done` all of whose providers are in `done`.
pub open spec fn ready(g: Graph, done: Set<u64>) -> Set<u64> {
    graph_nodes(g).filter(|n: u64| !done.contains(n) && pending(g, done, n) == 0)
}

/// The plugins of the first `k` batches.
pub open spec fn done_before(g: Graph, k: nat) -> Set<u64>
    decreases k,
{
    if k == 0 {
        Set::empty()
    } else {
        let d = done_before(g, (k - 1) as nat);
        d.union(ready(g, d))
    }
}

/// Batch `k`: the plugins whose providers all lie in earlier batches.
pub open spec fn layer(g: Graph, k: nat) -> Set<u64> {
    ready(g, done_before(g, k))
}

/// The ids of a list of plugin ids.
pub open spec fn ids_of(s: Seq<PluginId>) -> Seq<u64> {
    s.map_values(|p: PluginId| p.0)
}

pub proof fn lemma_occurrences_bound(s: Seq<u64>, n: u64)
    ensures
        occurrences(s, n) <= s.len(),
    decreases s.len(),
{
    if s.len() > 0 {
        lemma_occurrences_bound(s.drop_last(), n);
    }
}

pub proof fn lemma_occurrences_step(s: Seq<u64>, j: int, n: u64)
    requires
        0 <= j < s.len(),
    ensures
        occurrences(s.take(j + 1), n) == occurrences(s.take(j), n) + (if s[j] == n {
            1nat
        } else {
            0nat
        }),
{
    assert(s.take(j + 1).drop_last() =~= s.take(j));
}

pub proof fn lemma_pending_bound(g: Graph, done: Set<u64>, n: u64)
    ensures
        pending(g, done, n) <= edge_count(g),
    decreases g.len(),
{
    if g.len() > 0 {
        lemma_pending_bound(g.drop_last(), done, n);
        lemma_occurrences_bound(g.last().1, n);
    }
}

pub proof fn lemma_edge_count_prefix(g: Graph, i: int)
    requires
        0 <= i <= g.len(),
    ensures
        edge_count(g.take(i)) <= edge_count(g),
    decreases g.len(),
{
    if i < g.len() {
        assert(g.drop_last().take(i) =~= g.take(i));
        lemma_edge_count_prefix(g.drop_last(), i);
    } else {
        assert(g.take(i) =~= g);
    }
}

/// Unfolding the graph spec functions one entry at a time from the front.
pub proof fn lemma_take_step(g: Graph, i: int, done: Set<u64>, n: u64)
    requires
        0 <= i < g.len(),
    ensures
        all_ids(g.take(i + 1)) == all_ids(g.take(i)).push(g[i].0) + g[i].1,
        edge_count(g.take(i + 1)) == edge_count(g.take(i)) + g[i].1.len(),
        pending(g.take(i + 1), done, n) == pending(g.take(i), done, n) + (if done.contains(
            g[i].0,
        ) {
            0nat
        } else {
            occurrences(g[i].1, n)
        }),
{
    assert(g.take(i + 1).drop_last() =~= g.take(i));
}

pub proof fn lemma_pending_non_key(g: Graph, done: Set<u64>, x: u64, n: u64)
    requires
        forall|i: int| 0 <= i < g.len() ==> g[i].0 != x,
    ensures
        pending(g, done.insert(x), n) == pending(g, done, n),
    decreases g.len(),
{
    if g.len() > 0 {
        lemma_pending_non_key(g.drop_last(), done, x, n);
    }
}

/// Marking provider `g[e].0` done takes its edges off the pending counts.
pub proof fn lemma_pending_done_key(g: Graph, done: Set<u64>, e: int, n: u64)
    requires
        keys_distinct(g),
        0 <= e < g.len(),
        !done.contains(g[e].0),
    ensures
        occurrences(g[e].1, n) <= pending(g, done, n),
        pending(g, done.insert(g[e].0), n) + occurrences(g[e].1, n) == pending(g, done, n),
    decreases g.len(),
{
    let h = g.drop_last();
    let x = g[e].0;
    if e == g.len() - 1 {
        lemma_pending_non_key(h, done, x, n);
    } else {
        assert(h[e] == g[e]);
        lemma_pending_done_key(h, done, e, n);
        assert(g.last().0 != x);
    }
}

pub proof fn lemma_pending_mono(g: Graph, p: Set<u64>, q: Set<u64>, n: u64)
    requires
        p.subset_of(q),
    ensures
        pending(g, q, n) <= pending(g, p, n),
    decreases g.len(),
{
    if g.len() > 0 {
        lemma_pending_mono(g.drop_last(), p, q, n);
    }
}

/// Providers and dependents are plugins of the graph.
pub proof fn lemma_in_nodes(g: Graph, e: int)
    requires
        0 <= e < g.len(),
    ensures
        all_ids(g).contains(g[e].0),
        forall|j: int| 0 <= j < g[e].1.len() ==> all_ids(g).contains(#[trigger] g[e].1[j]),
    decreases g.len(),
{
    let h = g.drop_last();
    let a = all_ids(h).push(g.last().0);
    assert(all_ids(g) == a + g.last().1);
    if e == g.len() - 1 {
        assert(all_ids(g)[all_ids(h).len() as int] == g[e].0);
        assert forall|j: int| 0 <= j < g[e].1.len() implies all_ids(g).contains(
            #[trigger] g[e].1[j],
        ) by {
            assert(all_ids(g)[a.len() + j] == g[e].1[j]);
        }
    } else {
        assert(h[e] == g[e]);
        lemma_in_nodes(h, e);
        let k = choose|k: int| 0 <= k < all_ids(h).len() && all_ids(h)[k] == g[e].0;
        assert(all_ids(g)[k] == g[e].0);
        assert forall|j: int| 0 <= j < g[e].1.len() implies all_ids(g).contains(
            #[trigger] g[e].1[j],
        ) by {
            assert(all_ids(h).contains(h[e].1[j]));
            let k2 = choose|k2: int| 0 <= k2 < all_ids(h).len() && all_ids(h)[k2] == g[e].1[j];
            assert(all_ids(g)[k2] == g[e].1[j]);
        }
    }
}

/// The batches so far are finite plugins of the graph, none with an edge
/// still pending.
pub proof fn lemma_done_before(g: Graph, k: nat)
    ensures
        done_before(g, k).finite(),
        done_before(g, k).subset_of(graph_nodes(g)),
        forall|n: u64| #[trigger] done_before(g, k).contains(n) ==> pending(g, done_before(g, k), n) == 0,
        done_before(g, k + 1) == done_before(g, k).union(layer(g, k)),
        layer(g, k).finite(),
        layer(g, k).disjoint(done_before(g, k)),
        done_before(g, k + 1).len() == done_before(g, k).len() + layer(g, k).len(),
        done_before(g, k + 1).len() <= graph_nodes(g).len(),
    decreases k,
{
    seq_to_set_is_finite(all_ids(g));
    let d = done_before(g, k);
    if k > 0 {
        lemma_done_before(g, (k - 1) as nat);
        let d0 = done_before(g, (k - 1) as nat);
        assert forall|n: u64| #[trigger] d.contains(n) implies pending(g, d, n) == 0 by {
            lemma_pending_mono(g, d0, d, n);
        }
    }
    let l = layer(g, k);
    assert(l.subset_of(graph_nodes(g)));
    lemma_len_subset(l, graph_nodes(g));
    assert(l.disjoint(d));
    lemma_set_disjoint_lens(d, l);
    assert(d.union(l).subset_of(graph_nodes(g)));
    lemma_len_subset(d.union(l), graph_nodes(g));
}

/// Once batch `k` is empty, the plugins left over are exactly those with an
/// edge still pending.
pub proof fn lemma_leftover(g: Graph, k: nat, n: u64)
    requires
        layer(g, k).is_empty(),
        graph_nodes(g).contains(n),
    ensures
        !done_before(g, k).contains(n) <==> pending(g, done_before(g, k), n) > 0,
{
    lemma_done_before(g, k);
    if !done_before(g, k).contains(n) && pending(g, done_before(g, k), n) == 0 {
        assert(layer(g, k).contains(n));
    }
}

/// The provider at `g[e]` and everything it provides to.
pub proof fn lemma_entry_in_nodes(g: Graph, e: int)
    requires
        0 <= e < g.len(),
    ensures
        graph_nodes(g).contains(g[e].0),
        forall|j: int| 0 <= j < g[e].1.len() ==> graph_nodes(g).contains(#[trigger] g[e].1[j]),
{
    lemma_in_nodes(g, e);
}


pub proof fn lemma_occurrences_prefix(s: Seq<u64>, j: int, n: u64)
    requires
        0 <= j <= s.len(),
    ensures
        occurrences(s.take(j), n) <= occurrences(s, n),
    decreases s.len(),
{
    if j < s.len() {
        assert(s.drop_last().take(j) =~= s.take(j));
        lemma_occurrences_prefix(s.drop_last(), j, n);
    } else {
        assert(s.take(j) =~= s);
    }
}

pub proof fn lemma_push_contains(s: Seq<u64>, x: u64, a: u64)
    ensures
        s.push(x).contains(a) <==> (s.contains(a) || a == x),
{
    if s.push(x).contains(a) {
        let i = choose|i: int| 0 <= i < s.push(x).len() && s.push(x)[i] == a;
        if i < s.len() {
            assert(s[i] == a);
        }
    }
    if s.contains(a) {
        let i = choose|i: int| 0 <= i < s.len() && s[i] == a;
        assert(s.push(x)[i] == a);
    }
    if a == x {
        assert(s.push(x)[s.len() as int] == a);
    }
}

/// Whether `g` lists `x` as a provider.
pub open spec fn has_key(g: Graph, x: u64) -> bool {
    exists|i: int| 0 <= i < g.len() && g[i].0 == x
}

/// The position of provider `x` in `g` (where `g` lists it).
pub open spec fn key_index(g: Graph, x: u64) -> int {
    choose|i: int| 0 <= i < g.len() && g[i].0 == x
}

/// `g` with `x` listed as a provider (with no dependents if it was not).
pub open spec fn ensure_node(g: Graph, x: u64) -> Graph {
    if has_key(g, x) {
        g
    } else {
        g.push((x, Seq::empty()))
    }
}

/// `g` with `dependent` added to the dependents of `provider`.
pub open spec fn add_edge(g: Graph, provider: u64, dependent: u64) -> Graph {
    if has_key(g, provider) {
        let i = key_index(g, provider);
        g.update(i, (provider, g[i].1.push(dependent)))
    } else {
        g.push((provider, seq![dependent]))
    }
}

/// For each provider plugin, the plugins that depend on it; each provider is
/// listed once, and the providers are kept in the order they were first
/// added.
pub struct ReverseDeps {
    keys: Vec<u64>,
    dependents: HashMap<u64, Vec<u64>>,
}

impl View for ReverseDeps {
    type V = Graph;

    closed spec fn view(&self) -> Graph {
        Seq::new(
            self.keys.len() as nat,
            |i: int| (self.keys@[i], self.dependents@[self.keys@[i]]@),
        )
    }
}

impl ReverseDeps {
    /// Providers are distinct, and exactly the providers have a list of
    /// dependents.
    pub closed spec fn well_formed(&self) -> bool {
        &&& keys_distinct(self@)
        &&& forall|k: u64| #[trigger] self.dependents@.contains_key(k) <==> self.keys@.contains(k)
    }

    /// Each node of a well-formed graph is listed once.
    pub proof fn lemma_keys_distinct(&self)
        requires
            self.well_formed(),
        ensures
            keys_distinct(self@),
    {
    }

    /// An empty graph.
    pub fn new() -> (r: Self)
        ensures
            r.well_formed(),
            r@ == Seq::<(u64, Seq<u64>)>::empty(),
    {
        let r = ReverseDeps { keys: Vec::new(), dependents: HashMap::new() };
        assert(r@ =~= Seq::<(u64, Seq<u64>)>::empty());
        r
    }

    /// The number of providers listed.
    pub fn len(&self) -> (r: usize)
        requires
            self.well_formed(),
        ensures
            r == self@.len(),
    {
        self.keys.len()
    }

    fn position(&self, x: u64) -> (r: Option<usize>)
        requires
            self.well_formed(),
        ensures
            match r {
                Some(i) => i < self@.len() && self@[i as int].0 == x,
                None => !has_key(self@, x),
            },
    {
        let mut i: usize = 0;
        while i < self.keys.len()
            invariant
                self.well_formed(),
                0 <= i <= self.keys.len(),
                forall|j: int| 0 <= j < i ==> self@[j].0 != x,
            decreases self.keys.len() - i,
        {
            if self.keys[i] == x {
                return Some(i);
            }
            i = i + 1;
        }
        None
    }

    /// The dependents listed under the provider at position `i`.
    fn dependents_at(&self, i: usize) -> (r: &Vec<u64>)
        requires
            self.well_formed(),
            i < self@.len(),
        ensures
            r@ == self@[i as int].1,
    {
        assert(self.keys@.contains(self.keys@[i as int]));
        self.dependents.get(&self.keys[i]).unwrap()
    }

    /// Lists `id` as a provider, with no dependents, unless it is listed
    /// already.
    pub fn insert_node(&mut self, id: PluginId)
        requires
            old(self).well_formed(),
        ensures
            final(self).well_formed(),
            final(self)@ == ensure_node(old(self)@, id.0),
    {
        match self.position(id.0) {
            Some(_) => {},
            None => {
                let ghost g = self@;
                let ghost old_keys = self.keys@;
                let ghost old_map = self.dependents@;
                proof {
                    assert(!old_keys.contains(id.0)) by {
                        if old_keys.contains(id.0) {
                            let k = choose|k: int| 0 <= k < old_keys.len() && old_keys[k] == id.0;
                            assert(g[k].0 == id.0);
                        }
                    }
                }
                self.keys.push(id.0);
                self.dependents.insert(id.0, Vec::new());
                proof {
                    assert forall|k: u64| #[trigger] self.dependents@.contains_key(k) <==> self.keys@.contains(k) by {
                        if old_keys.contains(k) {
                            let t = choose|t: int| 0 <= t < old_keys.len() && old_keys[t] == k;
                            assert(self.keys@[t] == k);
                        }
                        if self.keys@.contains(k) && k != id.0 {
                            let t = choose|t: int| 0 <= t < self.keys@.len() && self.keys@[t] == k;
                            assert(old_keys[t] == k);
                        }
                        assert(self.keys@[old_keys.len() as int] == id.0);
                    }
                    assert forall|t: int| 0 <= t < old_keys.len() implies self.keys@[t] != id.0
                        && self.dependents@[self.keys@[t]] == old_map[old_keys[t]] by {
                        assert(old_keys.contains(old_keys[t]));
                    }
                    assert(self@ =~= g.push((id.0, Seq::<u64>::empty())));
                }
            },
        }
    }

    /// Records that `dependent` depends on `provider`.
    pub fn add_dependent(&mut self, provider: PluginId, dependent: PluginId)
        requires
            old(self).well_formed(),
        ensures
            final(self).well_formed(),
            final(self)@ == add_edge(old(self)@, provider.0, dependent.0),
    {
        let ghost g = self@;
        let ghost old_keys = self.keys@;
        let ghost old_map = self.dependents@;
        match self.position(provider.0) {
            Some(i) => {
                assert(old_keys.contains(provider.0));
                let mut d = self.dependents.remove(&provider.0).unwrap();
                d.push(dependent.0);
                self.dependents.insert(provider.0, d);
                proof {
                    assert forall|k: u64| #[trigger] self.dependents@.contains_key(k) <==> self.keys@.contains(k) by {
                    }
                    assert forall|t: int| 0 <= t < old_keys.len() && t != i implies self.keys@[t] != provider.0
                        && self.dependents@[self.keys@[t]] == old_map[old_keys[t]] by {
                        assert(g[t].0 != g[i as int].0);
                    }
                    assert(self@ =~= g.update(i as int, (provider.0, g[i as int].1.push(dependent.0))));
                    assert(has_key(g, provider.0));
                    assert(key_index(g, provider.0) == i as int);
                }
            },
            None => {
                proof {
                    assert(!old_keys.contains(provider.0)) by {
                        if old_keys.contains(provider.0) {
                            let k = choose|k: int| 0 <= k < old_keys.len() && old_keys[k] == provider.0;
                            assert(g[k].0 == provider.0);
                        }
                    }
                }
                self.keys.push(provider.0);
                let mut d = Vec::new();
                d.push(dependent.0);
                self.dependents.insert(provider.0, d);
                proof {
                    assert forall|k: u64| #[trigger] self.dependents@.contains_key(k) <==> self.keys@.contains(k) by {
                        if old_keys.contains(k) {
                            let t = choose|t: int| 0 <= t < old_keys.len() && old_keys[t] == k;
                            assert(self.keys@[t] == k);
                        }
                        if self.keys@.contains(k) && k != provider.0 {
                            let t = choose|t: int| 0 <= t < self.keys@.len() && self.keys@[t] == k;
                            assert(old_keys[t] == k);
                        }
                        assert(self.keys@[old_keys.len() as int] == provider.0);
                    }
                    assert forall|t: int| 0 <= t < old_keys.len() implies self.keys@[t] != provider.0
                        && self.dependents@[self.keys@[t]] == old_map[old_keys[t]] by {
                        assert(old_keys.contains(old_keys[t]));
                    }
                    assert(self@ =~= g.push((provider.0, seq![dependent.0])));
                }
            },
        }
    }

    /// The plugins that depend on `id`, if `id` is listed as a provider.
    pub fn get(&self, id: PluginId) -> (r: Option<Vec<PluginId>>)
        requires
            self.well_formed(),
        ensures
            match r {
                Some(v) => exists|i: int|
                    0 <= i < self@.len() && self@[i].0 == id.0 && ids_of(v@) == self@[i].1,
                None => !has_key(self@, id.0),
            },
    {
        match self.position(id.0) {
            Some(i) => Some(to_plugin_ids(self.dependents_at(i))),
            None => None,
        }
    }
}

/// The plugin ids with the given numbers.
pub fn to_plugin_ids(v: &Vec<u64>) -> (r: Vec<PluginId>)
    ensures
        ids_of(r@) == v@,
{
    let mut r: Vec<PluginId> = Vec::new();
    let mut i: usize = 0;
    while i < v.len()
        invariant
            0 <= i <= v.len(),
            r@.len() == i,
            forall|j: int| 0 <= j < i ==> r@[j].0 == v@[j],
        decreases v.len() - i,
    {
        r.push(PluginId(v[i]));
        i = i + 1;
    }
    assert(ids_of(r@) =~= v@);
    r
}


fn add_unique(v: &mut Vec<u64>, x: u64)
    requires
        old(v)@.no_duplicates(),
    ensures
        final(v)@.no_duplicates(),
        forall|a: u64| #[trigger] final(v)@.contains(a) <==> (old(v)@.contains(a) || a == x),
{
    let mut i: usize = 0;
    while i < v.len()
        invariant
            0 <= i <= v.len(),
            v@.no_duplicates(),
            forall|j: int| 0 <= j < i ==> v@[j] != x,
        decreases v.len() - i,
    {
        if v[i] == x {
            proof {
                assert forall|a: u64| #[trigger] v@.contains(a) <==> (v@.contains(a) || a == x) by {
                    if a == x {
                        assert(v@[i as int] == a);
                    }
                }
            }
            return;
        }
        i = i + 1;
    }
    let ghost old_v = v@;
    v.push(x);
    proof {
        assert forall|a: u64| #[trigger] v@.contains(a) <==> (old_v.contains(a) || a == x) by {
            lemma_push_contains(old_v, x, a);
        }
    }
}

fn index_of(v: &Vec<u64>, x: u64) -> (r: usize)
    requires
        v@.contains(x),
    ensures
        r < v.len(),
        v@[r as int] == x,
{
    let mut i: usize = 0;
    while i < v.len()
        invariant
            0 <= i <= v.len(),
            v@.contains(x),
            forall|j: int| 0 <= j < i ==> v@[j] != x,
        decreases v.len() - i,
    {
        if v[i] == x {
            return i;
        }
        i = i + 1;
    }
    proof {
        let j = choose|j: int| 0 <= j < v@.len() && v@[j] == x;
        assert(v@[j] != x);
    }
    0
}

/// Every plugin of the graph, once each.
fn collect_nodes(rd: &ReverseDeps) -> (nodes: Vec<u64>)
    requires
        rd.well_formed(),
    ensures
        nodes@.no_duplicates(),
        forall|a: u64| #[trigger] nodes@.contains(a) <==> graph_nodes(rd@).contains(a),
{
    let ghost g = rd@;
    let mut nodes: Vec<u64> = Vec::new();
    let mut i: usize = 0;
    assert(g.take(0) =~= Seq::<(u64, Seq<u64>)>::empty());
    while i < rd.keys.len()
        invariant
            rd.well_formed(),
            g == rd@,
            0 <= i <= g.len(),
            nodes@.no_duplicates(),
            forall|a: u64| #[trigger] nodes@.contains(a) <==> all_ids(g.take(i as int)).contains(a),
        decreases g.len() - i,
    {
        let ghost before = all_ids(g.take(i as int));
        add_unique(&mut nodes, rd.keys[i]);
        let ghost base = before.push(g[i as int].0);
        proof {
            assert forall|a: u64| #[trigger] nodes@.contains(a) <==> (base + g[i as int].1.take(
                0,
            )).contains(a) by {
                lemma_push_contains(before, g[i as int].0, a);
                assert(base + g[i as int].1.take(0) =~= base);
            }
        }
        let d = rd.dependents_at(i);
        assert(d@ == g[i as int].1);
        let mut j: usize = 0;
        while j < d.len()
            invariant
                0 <= j <= d@.len(),
                nodes@.no_duplicates(),
                forall|a: u64| #[trigger] nodes@.contains(a) <==> (base + d@.take(j as int)).contains(a),
            decreases d.len() - j,
        {
            let ghost prev = base + d@.take(j as int);
            add_unique(&mut nodes, d[j]);
            proof {
                assert(base + d@.take(j + 1) =~= prev.push(d@[j as int]));
                assert forall|a: u64| #[trigger] nodes@.contains(a) <==> (base + d@.take(
                    j + 1,
                )).contains(a) by {
                    lemma_push_contains(prev, d@[j as int], a);
                }
            }
            j = j + 1;
        }
        proof {
            lemma_take_step(g, i as int, Set::empty(), 0);
            assert(d@.take(d@.len() as int) =~= d@);
        }
        i = i + 1;
    }
    assert(g.take(g.len() as int) =~= g);
    nodes
}

/// For each plugin, the number of dependency edges into it.
fn initial_degrees(rd: &ReverseDeps, nodes: &Vec<u64>) -> (deg: Vec<usize>)
    requires
        rd.well_formed(),
        edge_count(rd@) <= usize::MAX,
        nodes@.no_duplicates(),
        forall|a: u64| #[trigger] nodes@.contains(a) <==> graph_nodes(rd@).contains(a),
    ensures
        deg.len() == nodes.len(),
        forall|t: int| 0 <= t < nodes.len() ==> deg@[t] == pending(rd@, Set::empty(), #[trigger] nodes@[t]),
{
    let ghost g = rd@;
    let ghost none = Set::<u64>::empty();
    let mut deg: Vec<usize> = Vec::new();
    while deg.len() < nodes.len()
        invariant
            deg.len() <= nodes.len(),
            forall|t: int| 0 <= t < deg.len() ==> deg@[t] == 0,
        decreases nodes.len() - deg.len(),
    {
        deg.push(0);
    }
    assert(g.take(0) =~= Seq::<(u64, Seq<u64>)>::empty());
    let mut i: usize = 0;
    while i < rd.keys.len()
        invariant
            rd.well_formed(),
            g == rd@,
            none == Set::<u64>::empty(),
            edge_count(g) <= usize::MAX,
            nodes@.no_duplicates(),
            forall|a: u64| #[trigger] nodes@.contains(a) <==> graph_nodes(g).contains(a),
            0 <= i <= g.len(),
            deg.len() == nodes.len(),
            forall|t: int| 0 <= t < nodes.len() ==> deg@[t] == pending(g.take(i as int), none, #[trigger] nodes@[t]),
        decreases g.len() - i,
    {
        let d = rd.dependents_at(i);
        assert(d@ == g[i as int].1);
        proof {
            lemma_entry_in_nodes(g, i as int);
            lemma_edge_count_prefix(g, i + 1);
            lemma_take_step(g, i as int, none, 0);
            assert(d@.take(0) =~= Seq::<u64>::empty());
        }
        let mut j: usize = 0;
        while j < d.len()
            invariant
                0 <= i < g.len(),
                d@ == g[i as int].1,
                edge_count(g.take(i as int)) + d@.len() <= usize::MAX,
                nodes@.no_duplicates(),
                forall|a: u64| #[trigger] nodes@.contains(a) <==> graph_nodes(g).contains(a),
                forall|k: int| 0 <= k < d@.len() ==> graph_nodes(g).contains(#[trigger] d@[k]),
                0 <= j <= d@.len(),
                deg.len() == nodes.len(),
                forall|t: int| 0 <= t < nodes.len() ==> deg@[t] == pending(g.take(i as int), none, #[trigger] nodes@[t]) + occurrences(d@.take(j as int), nodes@[t]),
            decreases d.len() - j,
        {
            let x = d[j];
            assert(graph_nodes(g).contains(x));
            let t = index_of(nodes, x);
            proof {
                lemma_pending_bound(g.take(i as int), none, x);
                lemma_occurrences_bound(d@.take(j + 1), x);
                lemma_occurrences_step(d@, j as int, x);
            }
            let ghost old_deg = deg@;
            let v = deg[t] + 1;
            deg.set(t, v);
            proof {
                assert forall|u: int| 0 <= u < nodes.len() implies deg@[u] == pending(g.take(i as int), none, #[trigger] nodes@[u]) + occurrences(d@.take(j + 1), nodes@[u]) by {
                    lemma_occurrences_step(d@, j as int, nodes@[u]);
                    assert(old_deg[u] == pending(g.take(i as int), none, nodes@[u]) + occurrences(d@.take(j as int), nodes@[u]));
                    if u != t {
                        assert(nodes@[u] != nodes@[t as int]);
                    }
                }
            }
            j = j + 1;
        }
        proof {
            assert(d@.take(d@.len() as int) =~= d@);
            assert forall|u: int| 0 <= u < nodes.len() implies deg@[u] == pending(g.take(i + 1), none, #[trigger] nodes@[u]) by {
                lemma_take_step(g, i as int, none, nodes@[u]);
                assert(!none.contains(g[i as int].0));
                assert(occurrences(d@.take(d@.len() as int), nodes@[u]) == occurrences(d@, nodes@[u]));
            }
        }
        i = i + 1;
    }
    assert(g.take(g.len() as int) =~= g);
    deg
}

/// The plugins whose count is zero, in order.
fn zero_nodes(nodes: &Vec<u64>, deg: &Vec<usize>) -> (r: Vec<u64>)
    requires
        nodes@.no_duplicates(),
        deg.len() == nodes.len(),
    ensures
        r@.no_duplicates(),
        forall|a: u64| #[trigger] r@.contains(a) ==> nodes@.contains(a),
        forall|t: int| 0 <= t < nodes.len() ==> (r@.contains(#[trigger] nodes@[t]) <==> deg@[t] == 0),
{
    let mut r: Vec<u64> = Vec::new();
    let mut i: usize = 0;
    while i < nodes.len()
        invariant
            nodes@.no_duplicates(),
            deg.len() == nodes.len(),
            0 <= i <= nodes.len(),
            r@.no_duplicates(),
            forall|a: u64| #[trigger] r@.contains(a) ==> nodes@.take(i as int).contains(a),
            forall|t: int| 0 <= t < i ==> (r@.contains(#[trigger] nodes@[t]) <==> deg@[t] == 0),
        decreases nodes.len() - i,
    {
        let ghost old_r = r@;
        if deg[i] == 0 {
            proof {
                if old_r.contains(nodes@[i as int]) {
                    let k = choose|k: int| 0 <= k < i && nodes@.take(i as int)[k] == nodes@[i as int];
                    assert(nodes@[k] == nodes@[i as int]);
                }
            }
            r.push(nodes[i]);
            proof {
                assert forall|a: u64| #[trigger] r@.contains(a) <==> (old_r.contains(a) || a == nodes@[i as int]) by {
                    lemma_push_contains(old_r, nodes@[i as int], a);
                }
            }
        }
        proof {
            assert(nodes@.take(i + 1) =~= nodes@.take(i as int).push(nodes@[i as int]));
            assert forall|a: u64| #[trigger] r@.contains(a) implies nodes@.take(i + 1).contains(a) by {
                lemma_push_contains(nodes@.take(i as int), nodes@[i as int], a);
            }
            assert forall|t: int| 0 <= t < i implies (r@.contains(#[trigger] nodes@[t]) <==> deg@[t] == 0) by {
                assert(nodes@[t] != nodes@[i as int]);
            }
        }
        i = i + 1;
    }
    proof {
        assert(nodes@.take(nodes.len() as int) =~= nodes@);
    }
    r
}


/// Marks provider `x` done: takes its edges off the counts and collects the
/// plugins whose count drops to zero and that are not in `closed`.
fn release(
    rd: &ReverseDeps,
    nodes: &Vec<u64>,
    x: u64,
    deg: &mut Vec<usize>,
    next: &mut Vec<u64>,
    Ghost(p): Ghost<Set<u64>>,
    Ghost(closed): Ghost<Set<u64>>,
)
    requires
        rd.well_formed(),
        nodes@.no_duplicates(),
        forall|a: u64| #[trigger] nodes@.contains(a) <==> graph_nodes(rd@).contains(a),
        old(deg).len() == nodes.len(),
        forall|t: int| 0 <= t < nodes.len() ==> old(deg)@[t] == pending(rd@, p, #[trigger] nodes@[t]),
        !p.contains(x),
        forall|n: u64| #[trigger] closed.contains(n) ==> pending(rd@, p, n) == 0,
        old(next)@.no_duplicates(),
        forall|a: u64| #[trigger] old(next)@.contains(a) <==> (graph_nodes(rd@).contains(a) && !closed.contains(a) && pending(rd@, p, a) == 0),
    ensures
        final(deg).len() == nodes.len(),
        forall|t: int| 0 <= t < nodes.len() ==> final(deg)@[t] == pending(rd@, p.insert(x), #[trigger] nodes@[t]),
        final(next)@.no_duplicates(),
        forall|a: u64| #[trigger] final(next)@.contains(a) <==> (graph_nodes(rd@).contains(a) && !closed.contains(a) && pending(rd@, p.insert(x), a) == 0),
{
    let ghost g = rd@;
    match rd.position(x) {
        None => {
            proof {
                assert forall|n: u64| pending(g, p.insert(x), n) == pending(g, p, n) by {
                    assert forall|i: int| 0 <= i < g.len() implies g[i].0 != x by {
                        if g[i].0 == x {
                            assert(has_key(g, x));
                        }
                    }
                    lemma_pending_non_key(g, p, x, n);
                }
            }
        },
        Some(e) => {
            let d = rd.dependents_at(e);
            assert(d@ == g[e as int].1);
            proof {
                lemma_entry_in_nodes(g, e as int);
                assert forall|n: u64| #[trigger] occurrences(d@, n) <= pending(g, p, n) by {
                    lemma_pending_done_key(g, p, e as int, n);
                }
                assert(d@.take(0) =~= Seq::<u64>::empty());
            }
            let mut j: usize = 0;
            while j < d.len()
                invariant
                    rd.well_formed(),
                    g == rd@,
                    0 <= e < g.len(),
                    d@ == g[e as int].1,
                    nodes@.no_duplicates(),
                    forall|a: u64| #[trigger] nodes@.contains(a) <==> graph_nodes(g).contains(a),
                    forall|k: int| 0 <= k < d@.len() ==> graph_nodes(g).contains(#[trigger] d@[k]),
                    forall|n: u64| #[trigger] occurrences(d@, n) <= pending(g, p, n),
                    forall|n: u64| #[trigger] closed.contains(n) ==> pending(g, p, n) == 0,
                    0 <= j <= d@.len(),
                    deg.len() == nodes.len(),
                    forall|t: int| 0 <= t < nodes.len() ==> deg@[t] == pending(g, p, #[trigger] nodes@[t]) - occurrences(d@.take(j as int), nodes@[t]),
                    next@.no_duplicates(),
                    forall|a: u64| #[trigger] next@.contains(a) <==> (graph_nodes(g).contains(a) && !closed.contains(a) && pending(g, p, a) == occurrences(d@.take(j as int), a)),
                decreases d.len() - j,
            {
                let y = d[j];
                assert(graph_nodes(g).contains(y));
                let t = index_of(nodes, y);
                proof {
                    lemma_occurrences_step(d@, j as int, y);
                    lemma_occurrences_prefix(d@, j + 1, y);
                }
                let ghost old_deg = deg@;
                let ghost old_next = next@;
                assert(old_deg[t as int] >= 1);
                let v = deg[t] - 1;
                deg.set(t, v);
                if v == 0 {
                    assert(!closed.contains(y));
                    assert(!old_next.contains(y));
                    next.push(y);
                }
                proof {
                    assert forall|u: int| 0 <= u < nodes.len() implies deg@[u] == pending(g, p, #[trigger] nodes@[u]) - occurrences(d@.take(j + 1), nodes@[u]) by {
                        lemma_occurrences_step(d@, j as int, nodes@[u]);
                        if u != t {
                            assert(nodes@[u] != nodes@[t as int]);
                        }
                    }
                    assert forall|a: u64| #[trigger] next@.contains(a) <==> (graph_nodes(g).contains(a) && !closed.contains(a) && pending(g, p, a) == occurrences(d@.take(j + 1), a)) by {
                        lemma_occurrences_step(d@, j as int, a);
                        lemma_push_contains(old_next, y, a);
                    }
                }
                j = j + 1;
            }
            proof {
                assert(d@.take(d@.len() as int) =~= d@);
                assert forall|n: u64| pending(g, p.insert(x), n) + occurrences(d@, n) == pending(g, p, n) by {
                    lemma_pending_done_key(g, p, e as int, n);
                }
            }
        },
    }
}

/// An error for each plugin whose count is not zero, in order.
fn circular_errors(nodes: &Vec<u64>, deg: &Vec<usize>) -> (r: Vec<PluginDependencyError>)
    requires
        nodes@.no_duplicates(),
        deg.len() == nodes.len(),
    ensures
        error_ids(r@).no_duplicates(),
        forall|a: u64| #[trigger] error_ids(r@).contains(a) ==> nodes@.contains(a),
        forall|t: int| 0 <= t < nodes.len() ==> (error_ids(r@).contains(#[trigger] nodes@[t]) <==> deg@[t] > 0),
        forall|i: int| 0 <= i < r.len() ==> is_circular(#[trigger] r@[i]),
{
    let mut r: Vec<PluginDependencyError> = Vec::new();
    let mut i: usize = 0;
    assert(error_ids(r@) =~= Seq::<u64>::empty());
    while i < nodes.len()
        invariant
            nodes@.no_duplicates(),
            deg.len() == nodes.len(),
            0 <= i <= nodes.len(),
            error_ids(r@).no_duplicates(),
            forall|a: u64| #[trigger] error_ids(r@).contains(a) ==> nodes@.take(i as int).contains(a),
            forall|t: int| 0 <= t < i ==> (error_ids(r@).contains(#[trigger] nodes@[t]) <==> deg@[t] > 0),
            forall|k: int| 0 <= k < r.len() ==> is_circular(#[trigger] r@[k]),
        decreases nodes.len() - i,
    {
        let ghost old_ids = error_ids(r@);
        if deg[i] > 0 {
            proof {
                if old_ids.contains(nodes@[i as int]) {
                    let k = choose|k: int| 0 <= k < i && nodes@.take(i as int)[k] == nodes@[i as int];
                    assert(nodes@[k] == nodes@[i as int]);
                }
            }
            let id = PluginId(nodes[i]);
            let text = id.to_string();
            r.push(PluginDependencyError { id, error: PluginDependencyErrorInner::Circular(text) });
            proof {
                assert(error_ids(r@) =~= old_ids.push(nodes@[i as int]));
                assert forall|a: u64| #[trigger] error_ids(r@).contains(a) <==> (old_ids.contains(a) || a == nodes@[i as int]) by {
                    lemma_push_contains(old_ids, nodes@[i as int], a);
                }
            }
        }
        proof {
            assert(nodes@.take(i + 1) =~= nodes@.take(i as int).push(nodes@[i as int]));
            assert forall|a: u64| #[trigger] error_ids(r@).contains(a) implies nodes@.take(i + 1).contains(a) by {
                lemma_push_contains(nodes@.take(i as int), nodes@[i as int], a);
            }
            assert forall|t: int| 0 <= t < i implies (error_ids(r@).contains(#[trigger] nodes@[t]) <==> deg@[t] > 0) by {
                assert(nodes@[t] != nodes@[i as int]);
            }
        }
        i = i + 1;
    }
    proof {
        assert(nodes@.take(nodes.len() as int) =~= nodes@);
    }
    r
}

/// The plugin ids of a list of errors.
pub open spec fn error_ids(s: Seq<PluginDependencyError>) -> Seq<u64> {
    s.map_values(|e: PluginDependencyError| e.id.0)
}

/// A cycle error that names its plugin as `PluginId(n)`.
pub open spec fn is_circular(e: PluginDependencyError) -> bool {
    e.error matches PluginDependencyErrorInner::Circular(s) && s@ == plugin_id_text(e.id.0 as nat)
}


/// Batch `j` holds exactly the plugins of layer `j`, once each.
pub open spec fn batch_is_layer(g: Graph, batch: Seq<PluginId>, j: nat) -> bool {
    &&& batch.len() > 0
    &&& ids_of(batch).no_duplicates()
    &&& ids_of(batch).to_set() == layer(g, j)
}

/// Layers `0..m` are the nonempty ones.
pub open spec fn settles_at(g: Graph, m: nat) -> bool {
    &&& layer(g, m).is_empty()
    &&& forall|j: nat| j < m ==> !(#[trigger] layer(g, j)).is_empty()
}

impl PluginLoader {
    /// Orders the plugins of `reverse_deps` into batches: batch `k` holds the
    /// plugins whose providers all lie in earlier batches. When the batches
    /// hold `total_nodes` plugins they are returned; otherwise every plugin
    /// left out (in a cycle, or waiting on one) is reported as circular.
    /// When `total_nodes` is the number of plugins in the graph, this
    /// succeeds exactly when the graph has no dependency cycle.
    pub fn dependencies_analyzer(reverse_deps: ReverseDeps, total_nodes: usize) -> (r: Result<
        Vec<Vec<PluginId>>,
        Vec<PluginDependencyError>,
    >)
        requires
            reverse_deps.well_formed(),
            edge_count(reverse_deps@) <= usize::MAX,
        ensures
            match r {
                Ok(batches) => {
                    &&& settles_at(reverse_deps@, batches.len() as nat)
                    &&& forall|j: int| 0 <= j < batches.len() ==> batch_is_layer(reverse_deps@, #[trigger] batches@[j]@, j as nat)
                    &&& total_nodes == done_before(reverse_deps@, batches.len() as nat).len()
                },
                Err(errors) => exists|m: nat| {
                    &&& settles_at(reverse_deps@, m)
                    &&& total_nodes != done_before(reverse_deps@, m).len()
                    &&& error_ids(errors@).no_duplicates()
                    &&& error_ids(errors@).to_set() == graph_nodes(reverse_deps@).difference(done_before(reverse_deps@, m))
                    &&& forall|i: int| 0 <= i < errors.len() ==> is_circular(#[trigger] errors@[i])
                },
            },
            total_nodes == graph_nodes(reverse_deps@).len() ==> (r is Ok <==> acyclic(reverse_deps@)),
    {
        let ghost g = reverse_deps@;
        let rd = &reverse_deps;
        let nodes = collect_nodes(rd);
        proof {
            seq_to_set_is_finite(all_ids(g));
            nodes@.unique_seq_to_set();
            assert(nodes@.to_set() =~= graph_nodes(g));
        }
        let mut deg = initial_degrees(rd, &nodes);
        let mut current = zero_nodes(&nodes, &deg);
        proof {
            assert(done_before(g, 0) == Set::<u64>::empty());
            assert forall|a: u64| #[trigger] current@.contains(a) <==> layer(g, 0).contains(a) by {
                if graph_nodes(g).contains(a) {
                    let t = index_of_spec(nodes@, a);
                }
            }
        }
        let mut result: Vec<Vec<PluginId>> = Vec::new();
        let mut visited: usize = 0;
        let ghost mut k: nat = 0;
        while current.len() > 0
            invariant
                rd.well_formed(),
                g == rd@,
                nodes@.no_duplicates(),
                forall|a: u64| #[trigger] nodes@.contains(a) <==> graph_nodes(g).contains(a),
                graph_nodes(g).len() == nodes.len(),
                deg.len() == nodes.len(),
                forall|t: int| 0 <= t < nodes.len() ==> deg@[t] == pending(g, done_before(g, k), #[trigger] nodes@[t]),
                current@.no_duplicates(),
                forall|a: u64| #[trigger] current@.contains(a) <==> layer(g, k).contains(a),
                result.len() == k,
                forall|j: int| 0 <= j < k ==> batch_is_layer(g, #[trigger] result@[j]@, j as nat),
                visited == done_before(g, k).len(),
            decreases nodes.len() - visited,
        {
            let ghost dk = done_before(g, k);
            let ghost closed = done_before(g, k + 1);
            proof {
                lemma_done_before(g, k);
                current@.unique_seq_to_set();
                assert(current@.to_set() =~= layer(g, k));
                assert forall|n: u64| #[trigger] closed.contains(n) implies pending(g, dk, n) == 0 by {
                    if dk.contains(n) {
                    } else {
                        assert(layer(g, k).contains(n));
                    }
                }
            }
            visited = visited + current.len();
            let mut next: Vec<u64> = Vec::new();
            let mut b: usize = 0;
            proof {
                assert(current@.take(0).to_set() =~= Set::<u64>::empty());
                assert(dk.union(current@.take(0).to_set()) =~= dk);
                assert forall|a: u64| #[trigger] next@.contains(a) <==> (graph_nodes(g).contains(a) && !closed.contains(a) && pending(g, dk, a) == 0) by {
                    if graph_nodes(g).contains(a) && !closed.contains(a) && pending(g, dk, a) == 0 {
                        assert(layer(g, k).contains(a));
                    }
                }
            }
            while b < current.len()
                invariant
                    rd.well_formed(),
                    g == rd@,
                    nodes@.no_duplicates(),
                    forall|a: u64| #[trigger] nodes@.contains(a) <==> graph_nodes(g).contains(a),
                    deg.len() == nodes.len(),
                    current@.no_duplicates(),
                    forall|a: u64| #[trigger] current@.contains(a) <==> layer(g, k).contains(a),
                    dk == done_before(g, k),
                    closed == done_before(g, k + 1),
                    layer(g, k).disjoint(dk),
                    forall|n: u64| #[trigger] closed.contains(n) ==> pending(g, dk, n) == 0,
                    0 <= b <= current.len(),
                    forall|t: int| 0 <= t < nodes.len() ==> deg@[t] == pending(g, dk.union(current@.take(b as int).to_set()), #[trigger] nodes@[t]),
                    next@.no_duplicates(),
                    forall|a: u64| #[trigger] next@.contains(a) <==> (graph_nodes(g).contains(a) && !closed.contains(a) && pending(g, dk.union(current@.take(b as int).to_set()), a) == 0),
                decreases current.len() - b,
            {
                let x = current[b];
                let ghost p = dk.union(current@.take(b as int).to_set());
                proof {
                    assert(current@[b as int] == x);
                    assert(current@.contains(x));
                    assert(layer(g, k).contains(x));
                    assert(!dk.contains(x));
                    if current@.take(b as int).contains(x) {
                        let c = choose|c: int| 0 <= c < b && current@.take(b as int)[c] == x;
                        assert(current@[c] == current@[b as int]);
                    }
                    assert forall|n: u64| #[trigger] closed.contains(n) implies pending(g, p, n) == 0 by {
                        lemma_pending_mono(g, dk, p, n);
                    }
                }
                release(rd, &nodes, x, &mut deg, &mut next, Ghost(p), Ghost(closed));
                proof {
                    assert(current@.take(b + 1) =~= current@.take(b as int).push(x));
                    assert forall|a: u64| #[trigger] current@.take(b + 1).contains(a) <==> (current@.take(b as int).contains(a) || a == x) by {
                        lemma_push_contains(current@.take(b as int), x, a);
                    }
                    assert(dk.union(current@.take(b + 1).to_set()) =~= p.insert(x));
                }
                b = b + 1;
            }
            proof {
                assert(current@.take(current.len() as int) =~= current@);
                assert(dk.union(current@.to_set()) =~= closed);
                assert forall|a: u64| #[trigger] next@.contains(a) <==> layer(g, k + 1).contains(a) by {
                }
            }
            let batch = to_plugin_ids(&current);
            proof {
                assert(ids_of(batch@).to_set() =~= layer(g, k));
            }
            result.push(batch);
            current = next;
            proof {
                k = k + 1;
            }
        }
        proof {
            assert forall|j: nat| j < k implies !(#[trigger] layer(g, j)).is_empty() by {
                assert(batch_is_layer(g, result@[j as int]@, j));
                let s = ids_of(result@[j as int]@);
                assert(s.to_set().contains(s[0]));
            }
            assert(layer(g, k) =~= Set::<u64>::empty()) by {
                assert forall|a: u64| !layer(g, k).contains(a) by {
                    if layer(g, k).contains(a) {
                        assert(current@.contains(a));
                    }
                }
            }
        }
        proof {
            lemma_ordering_succeeds_iff_acyclic(g, k);
        }
        if visited == total_nodes {
            Ok(result)
        } else {
            let errors = circular_errors(&nodes, &deg);
            proof {
                let ids = error_ids(errors@);
                assert forall|a: u64| #[trigger] ids.to_set().contains(a) <==> graph_nodes(g).difference(done_before(g, k)).contains(a) by {
                    if graph_nodes(g).contains(a) {
                        lemma_leftover(g, k, a);
                        let t = index_of_spec(nodes@, a);
                    }
                }
                assert(ids.to_set() =~= graph_nodes(g).difference(done_before(g, k)));
                assert(settles_at(g, k));
                assert(total_nodes != done_before(g, k).len());
                assert(ids.no_duplicates());
                assert(forall|i: int| 0 <= i < errors.len() ==> is_circular(#[trigger] errors@[i]));
            }
            Err(errors)
        }
    }
}

/// The position of `a` in `s`, where it occurs.
spec fn index_of_spec(s: Seq<u64>, a: u64) -> int {
    choose|t: int| 0 <= t < s.len() && s[t] == a
}


/// The edge from provider `g[e].0` to `n` is counted while the provider is
/// not done.
pub proof fn lemma_edge_pending(g: Graph, done: Set<u64>, e: int, n: u64)
    requires
        0 <= e < g.len(),
        !done.contains(g[e].0),
    ensures
        occurrences(g[e].1, n) <= pending(g, done, n),
    decreases g.len(),
{
    if e < g.len() - 1 {
        assert(g.drop_last()[e] == g[e]);
        lemma_edge_pending(g.drop_last(), done, e, n);
    }
}

pub proof fn lemma_occurs(s: Seq<u64>, n: u64)
    requires
        s.contains(n),
    ensures
        occurrences(s, n) >= 1,
    decreases s.len(),
{
    if s.last() != n {
        let i = choose|i: int| 0 <= i < s.len() && s[i] == n;
        assert(s.drop_last()[i] == n);
        lemma_occurs(s.drop_last(), n);
    }
}

/// A pending edge into `n` has a provider outside `done`.
pub proof fn lemma_pending_provider(g: Graph, done: Set<u64>, n: u64) -> (e: int)
    requires
        pending(g, done, n) > 0,
    ensures
        0 <= e < g.len(),
        !done.contains(g[e].0),
        g[e].1.contains(n),
    decreases g.len(),
{
    let h = g.drop_last();
    if pending(h, done, n) > 0 {
        let e = lemma_pending_provider(h, done, n);
        assert(h[e] == g[e]);
        e
    } else {
        let s = g.last().1;
        if !s.contains(n) {
            lemma_no_occurrence(s, n);
        }
        g.len() - 1
    }
}

pub proof fn lemma_no_occurrence(s: Seq<u64>, n: u64)
    requires
        !s.contains(n),
    ensures
        occurrences(s, n) == 0,
    decreases s.len(),
{
    if s.len() > 0 {
        assert(forall|i: int| 0 <= i < s.drop_last().len() ==> s.drop_last()[i] == s[i]);
        if s.drop_last().contains(n) {
            let i = choose|i: int| 0 <= i < s.drop_last().len() && s.drop_last()[i] == n;
            assert(s[i] == n);
        }
        assert(s[s.len() - 1] != n);
        lemma_no_occurrence(s.drop_last(), n);
    }
}

/// The first `j` batches are exactly the plugins of layers `0..j`.
pub proof fn lemma_done_before_layers(g: Graph, j: nat, n: u64)
    ensures
        done_before(g, j).contains(n) <==> exists|i: nat| i < j && #[trigger] layer(g, i).contains(n),
    decreases j,
{
    if j > 0 {
        lemma_done_before_layers(g, (j - 1) as nat, n);
        if done_before(g, j).contains(n) {
            if !done_before(g, (j - 1) as nat).contains(n) {
                assert(layer(g, (j - 1) as nat).contains(n));
            }
        }
        if exists|i: nat| i < j && #[trigger] layer(g, i).contains(n) {
            let i = choose|i: nat| i < j && #[trigger] layer(g, i).contains(n);
            if i < j - 1 {
                assert(done_before(g, (j - 1) as nat).contains(n));
            }
        }
    }
}

/// Every plugin is loaded after the plugins it depends on: when a dependent
/// of `g[e].0` is in batch `j`, the provider is in one of the batches before.
pub proof fn lemma_batches_respect_dependencies(g: Graph, e: int, i: int, j: nat)
    requires
        0 <= e < g.len(),
        0 <= i < g[e].1.len(),
        layer(g, j).contains(g[e].1[i]),
    ensures
        exists|b: nat| b < j && #[trigger] layer(g, b).contains(g[e].0),
{
    let n = g[e].1[i];
    if !done_before(g, j).contains(g[e].0) {
        lemma_edge_pending(g, done_before(g, j), e, n);
        lemma_occurs(g[e].1, n);
    }
    lemma_done_before_layers(g, j, g[e].0);
}

/// No plugin is in two batches.
pub proof fn lemma_batches_disjoint(g: Graph, i: nat, j: nat, n: u64)
    requires
        i < j,
        layer(g, i).contains(n),
    ensures
        !layer(g, j).contains(n),
{
    lemma_done_before_layers(g, j, n);
}

/// Once the batches settle, every plugin left out depends on another plugin
/// left out: the leftovers hold a dependency cycle.
pub proof fn lemma_leftovers_wait_on_leftovers(g: Graph, m: nat, n: u64) -> (e: int)
    requires
        settles_at(g, m),
        graph_nodes(g).contains(n),
        !done_before(g, m).contains(n),
    ensures
        0 <= e < g.len(),
        g[e].1.contains(n),
        graph_nodes(g).contains(g[e].0),
        !done_before(g, m).contains(g[e].0),
{
    lemma_leftover(g, m, n);
    let e = lemma_pending_provider(g, done_before(g, m), n);
    lemma_entry_in_nodes(g, e);
    e
}

/// When the settled batches hold as many plugins as the graph has, they hold
/// every plugin of the graph.
pub proof fn lemma_batches_cover_all(g: Graph, m: nat)
    requires
        done_before(g, m).len() == graph_nodes(g).len(),
    ensures
        done_before(g, m) == graph_nodes(g),
{
    lemma_done_before(g, m);
    seq_to_set_is_finite(all_ids(g));
    let rest = graph_nodes(g).difference(done_before(g, m));
    lemma_set_disjoint_lens(done_before(g, m), rest);
    assert(done_before(g, m) + rest =~= graph_nodes(g));
    lemma_len_subset(rest, graph_nodes(g));
    assert(rest.len() == 0);
    vstd::set_lib::lemma_set_empty_equivalency_len(rest);
    assert(done_before(g, m) =~= graph_nodes(g)) by {
        assert forall|a: u64| graph_nodes(g).contains(a) implies done_before(g, m).contains(a) by {
            if !done_before(g, m).contains(a) {
                assert(rest.contains(a));
            }
        }
    }
}

/// `b` depends on `a`: `a` is a provider that lists `b`.
pub open spec fn depends_edge(g: Graph, a: u64, b: u64) -> bool {
    exists|e: int| 0 <= e < g.len() && g[e].0 == a && g[e].1.contains(b)
}

/// `c` is a dependency cycle: each of its plugins provides for the next,
/// and the last for the first.
pub open spec fn is_cycle(g: Graph, c: Seq<u64>) -> bool {
    &&& c.len() > 0
    &&& forall|i: int| 0 <= i < c.len() ==> #[trigger] depends_edge(g, c[i], c[(i + 1) % (c.len() as int)])
}

/// The graph has no dependency cycle.
pub open spec fn acyclic(g: Graph) -> bool {
    forall|c: Seq<u64>| !#[trigger] is_cycle(g, c)
}

/// No plugin on a cycle ever gets into a batch.
proof fn lemma_cycle_never_done(g: Graph, c: Seq<u64>, k: nat)
    requires
        is_cycle(g, c),
    ensures
        forall|i: int| 0 <= i < c.len() ==> !#[trigger] done_before(g, k).contains(c[i]),
    decreases k,
{
    if k > 0 {
        lemma_cycle_never_done(g, c, (k - 1) as nat);
        let d = done_before(g, (k - 1) as nat);
        assert forall|i: int| 0 <= i < c.len() implies !#[trigger] done_before(g, k).contains(c[i]) by {
            let len = c.len() as int;
            let p = if i == 0 { len - 1 } else { i - 1 };
            assert((p + 1) % len == i) by {
                if i == 0 {
                    assert((len - 1 + 1) % len == 0) by {
                        vstd::arithmetic::div_mod::lemma_mod_self_0(len);
                    }
                } else {
                    vstd::arithmetic::div_mod::lemma_small_mod(i as nat, len as nat);
                }
            }
            assert(depends_edge(g, c[p], c[(p + 1) % len]));
            let e = choose|e: int| 0 <= e < g.len() && g[e].0 == c[p] && g[e].1.contains(c[i]);
            assert(!d.contains(c[p]));
            lemma_edge_pending(g, d, e, c[i]);
            lemma_occurs(g[e].1, c[i]);
        }
    }
}

/// A walk against the edges through plugins left out of the settled
/// batches: each next plugin provides for the one before.
proof fn lemma_leftover_walk(g: Graph, m: nat, n: u64, k: nat) -> (w: Seq<u64>)
    requires
        settles_at(g, m),
        graph_nodes(g).contains(n),
        !done_before(g, m).contains(n),
    ensures
        w.len() == k + 1,
        w[0] == n,
        forall|t: int| 0 <= t < w.len() ==> graph_nodes(g).contains(#[trigger] w[t]),
        forall|t: int| 0 <= t < k ==> #[trigger] depends_edge(g, w[t + 1], w[t]),
        forall|t: int| 0 <= t < w.len() ==> !done_before(g, m).contains(#[trigger] w[t]),
    decreases k,
{
    if k == 0 {
        seq![n]
    } else {
        let v = lemma_leftover_walk(g, m, n, (k - 1) as nat);
        let last = v[k - 1];
        let e = lemma_leftovers_wait_on_leftovers(g, m, last);
        let w = v.push(g[e].0);
        assert forall|t: int| 0 <= t < k implies #[trigger] depends_edge(g, w[t + 1], w[t]) by {
            if t < k - 1 {
                assert(w[t + 1] == v[t + 1] && w[t] == v[t]);
                assert(depends_edge(g, v[t + 1], v[t]));
            } else {
                assert(w[t] == last);
            }
        }
        w
    }
}

/// Once the batches settle, they hold every plugin of the graph exactly
/// when the graph has no dependency cycle.
pub proof fn lemma_settled_batches_complete_iff_acyclic(g: Graph, m: nat)
    requires
        settles_at(g, m),
    ensures
        done_before(g, m) == graph_nodes(g) <==> acyclic(g),
{
    seq_to_set_is_finite(all_ids(g));
    if done_before(g, m) == graph_nodes(g) {
        assert forall|c: Seq<u64>| !#[trigger] is_cycle(g, c) by {
            if is_cycle(g, c) {
                lemma_cycle_never_done(g, c, m);
                let e = choose|e: int| 0 <= e < g.len() && g[e].0 == c[0] && g[e].1.contains(c[(0int + 1) % (c.len() as int)]);
                assert(depends_edge(g, c[0], c[(0int + 1) % (c.len() as int)]));
                lemma_entry_in_nodes(g, e);
                assert(!done_before(g, m).contains(c[0]));
            }
        }
    } else {
        lemma_done_before(g, m);
        let n = choose|n: u64| graph_nodes(g).contains(n) && !done_before(g, m).contains(n);
        assert(graph_nodes(g).contains(n) && !done_before(g, m).contains(n)) by {
            assert(!(done_before(g, m) =~= graph_nodes(g)));
        }
        let size = graph_nodes(g).len();
        let w = lemma_leftover_walk(g, m, n, size);
        assert(w.to_set().subset_of(graph_nodes(g)));
        lemma_len_subset(w.to_set(), graph_nodes(g));
        if w.no_duplicates() {
            w.unique_seq_to_set();
            assert(false);
        }
        let (a, b) = choose|a: int, b: int| 0 <= a < w.len() && 0 <= b < w.len() && a != b && w[a] == w[b];
        let lo = if a < b { a } else { b };
        let hi = if a < b { b } else { a };
        let len = hi - lo;
        let c = Seq::new(len as nat, |i: int| w[hi - i]);
        assert(is_cycle(g, c)) by {
            assert forall|i: int| 0 <= i < c.len() implies #[trigger] depends_edge(g, c[i], c[(i + 1) % (c.len() as int)]) by {
                if i + 1 < len {
                    vstd::arithmetic::div_mod::lemma_small_mod((i + 1) as nat, len as nat);
                    assert(depends_edge(g, w[hi - i - 1 + 1], w[hi - i - 1]));
                    assert(c[(i + 1) % len] == w[hi - i - 1]);
                } else {
                    vstd::arithmetic::div_mod::lemma_mod_self_0(len);
                    assert(c[(i + 1) % len] == c[0]);
                    assert(c[0] == w[hi]);
                    assert(w[hi] == w[lo]);
                    assert(depends_edge(g, w[lo + 1], w[lo]));
                    assert(c[i] == w[lo + 1]);
                }
            }
        }
    }
}

/// When `total_nodes` is the number of plugins in the graph, ordering the
/// graph into batches succeeds exactly when it has no dependency cycle:
/// the settled batches then hold that many plugins exactly when the graph
/// is acyclic.
pub proof fn lemma_ordering_succeeds_iff_acyclic(g: Graph, m: nat)
    requires
        settles_at(g, m),
    ensures
        (done_before(g, m).len() == graph_nodes(g).len()) <==> acyclic(g),
{
    lemma_settled_batches_complete_iff_acyclic(g, m);
    lemma_done_before(g, m);
    seq_to_set_is_finite(all_ids(g));
    if done_before(g, m).len() == graph_nodes(g).len() {
        lemma_batches_cover_all(g, m);
    }
}

} // verus!
