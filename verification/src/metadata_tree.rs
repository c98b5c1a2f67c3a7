//! The metadata tree that plugins walk and edit through their metadata
//! handle: nodes addressed by id or by a `/`-separated path of names,
//! with moves that may never put a node under itself.

use vstd::prelude::*;

use crate::text::{split_char, split_ranges, str_chars};

verus! {

/// What kind of entry a node stands for.
#[derive(Debug, Clone, Copy, PartialEq, Eq, Structural)]
pub enum MetadataKind {
    File,
    Directory,
    Unknown,
}

/// What a node carries besides its name: its URL, its kind and its
/// payload (encoded).
#[derive(Debug)]
pub struct MetadataInfo {
    pub url: String,
    pub kind: MetadataKind,
    pub payload: Vec<u8>,
}

/// A node of the tree: its name, what else it carries, its parent (none
/// for the root) and its children in order, each by id.
#[derive(Debug)]
pub struct MetadataSlot {
    pub name: String,
    pub info: MetadataInfo,
    pub parent: Option<u64>,
    pub children: Vec<u64>,
}

/// The URL, kind and payload of a node's information.
pub open spec fn info_view(i: MetadataInfo) -> (Seq<char>, MetadataKind, Seq<u8>) {
    (i.url@, i.kind, i.payload@)
}

/// How a node is addressed: by its id, or by the names on the way from the
/// root, separated by `/`.
#[derive(Debug)]
pub enum MetadataQuery {
    Id(u64),
    Path(String),
}

/// Why an edit of the tree was refused.
#[derive(Debug, Clone, Copy, PartialEq, Eq, Structural)]
pub enum MetadataError {
    /// The node's path leads nowhere.
    InvalidQuery,
    /// No node has this id.
    NotFound(u64),
    /// The node to move under does not exist.
    TargetNotFound,
    /// The root cannot move.
    MoveRoot(u64),
    /// A node cannot move under itself.
    IntoItself(u64),
    /// A node cannot move under one of its descendants.
    IntoOwnSubtree(u64),
    /// The node to insert under does not exist.
    ParentNotFound,
    /// The root cannot be deleted.
    DeleteRoot(u64),
}

/// The metadata tree. Node ids are handed out in order, starting with the
/// root's `0`; the node with id `i` lives in slot `i` until it is deleted.
pub struct MetadataTree {
    slots: Vec<Option<MetadataSlot>>,
    /// A height for every live node, larger than its parent's: the
    /// witness that following parents always ends at the root.
    rank: Ghost<Map<u64, nat>>,
}

impl MetadataTree {
    /// The number of ids handed out so far.
    pub closed spec fn next_id(&self) -> nat {
        self.slots@.len()
    }

    /// Node `r` exists.
    pub closed spec fn live(&self, r: u64) -> bool {
        r < self.slots@.len() && self.slots@[r as int] is Some
    }

    pub closed spec fn name_of(&self, r: u64) -> Seq<char> {
        self.slots@[r as int]->0.name@
    }

    /// The URL, kind and payload of node `r`.
    pub closed spec fn info_of(&self, r: u64) -> (Seq<char>, MetadataKind, Seq<u8>) {
        info_view(self.slots@[r as int]->0.info)
    }

    pub closed spec fn parent_of(&self, r: u64) -> Option<u64> {
        self.slots@[r as int]->0.parent
    }

    pub closed spec fn children_of(&self, r: u64) -> Seq<u64> {
        self.slots@[r as int]->0.children@
    }

    /// The tree's shape: the root `0` has no parent; every other node has
    /// a live parent that lists it once; every listed child is live and
    /// names that parent; ranks grow from parent to child.
    pub closed spec fn well_formed(&self) -> bool {
        &&& self.slots@.len() >= 1
        &&& self.live(0)
        &&& self.parent_of(0) is None
        &&& forall|r: u64|
            #![trigger self.parent_of(r)]
            self.live(r) && r != 0 ==> {
                &&& self.parent_of(r) is Some
                &&& self.live(self.parent_of(r)->0)
                &&& self.children_of(self.parent_of(r)->0).contains(r)
                &&& self.rank@.dom().contains(r)
                &&& self.rank@.dom().contains(self.parent_of(r)->0)
                &&& self.rank@[r] > self.rank@[self.parent_of(r)->0]
            }
        &&& forall|p: u64, i: int|
            #![trigger self.children_of(p)[i]]
            self.live(p) && 0 <= i < self.children_of(p).len() ==> {
                &&& self.live(self.children_of(p)[i])
                &&& self.children_of(p)[i] != 0
                &&& self.parent_of(self.children_of(p)[i]) == Some(p)
            }
        &&& forall|p: u64, i: int, j: int|
            #![trigger self.children_of(p)[i], self.children_of(p)[j]]
            self.live(p) && 0 <= i < j < self.children_of(p).len() ==> self.children_of(p)[i]
                != self.children_of(p)[j]
        &&& self.rank@.dom().contains(0)
    }

    /// A tree holding only the root, whose name is empty.
    pub fn new() -> (t: Self)
        ensures
            t.well_formed(),
            t.next_id() == 1,
            t.live(0),
            t.name_of(0) == Seq::<char>::empty(),
            t.info_of(0) == (Seq::<char>::empty(), MetadataKind::Unknown, Seq::<u8>::empty()),
            t.children_of(0) == Seq::<u64>::empty(),
            forall|r: u64| r != 0 ==> !t.live(r),
    {
        let mut slots: Vec<Option<MetadataSlot>> = Vec::new();
        let info = MetadataInfo { url: String::new(), kind: MetadataKind::Unknown, payload: Vec::new() };
        slots.push(Some(MetadataSlot { name: String::new(), info, parent: None, children: Vec::new() }));
        let ghost rank = Map::<u64, nat>::empty().insert(0, 0);
        let t = MetadataTree { slots, rank: Ghost(rank) };
        assert(t.children_of(0) =~= Seq::<u64>::empty());
        t
    }

    /// The first of `ch` named `name`.
    pub open spec fn first_named(&self, ch: Seq<u64>, name: Seq<char>) -> Option<u64>
        decreases ch.len(),
    {
        if ch.len() == 0 {
            None
        } else if self.name_of(ch[0]) == name {
            Some(ch[0])
        } else {
            self.first_named(ch.drop_first(), name)
        }
    }

    /// The node reached from `cur` by following `segs`, each time to the
    /// first child of that name; empty segments are passed over.
    pub open spec fn walk(&self, cur: u64, segs: Seq<Seq<char>>) -> Option<u64>
        decreases segs.len(),
    {
        if segs.len() == 0 {
            Some(cur)
        } else if segs[0].len() == 0 {
            self.walk(cur, segs.drop_first())
        } else {
            match self.first_named(self.children_of(cur), segs[0]) {
                Some(c) => self.walk(c, segs.drop_first()),
                None => None,
            }
        }
    }

    /// The node a query addresses, if it exists.
    pub open spec fn resolve(&self, q: MetadataQuery) -> Option<u64> {
        match q {
            MetadataQuery::Id(r) => if self.live(r) {
                Some(r)
            } else {
                None
            },
            MetadataQuery::Path(p) => self.walk(0, split_char(p@, '/')),
        }
    }

    /// Whether node `r` exists.
    pub fn contains(&self, r: u64) -> (b: bool)
        ensures
            b == self.live(r),
    {
        if r < self.slots.len() as u64 {
            self.slots[r as usize].is_some()
        } else {
            false
        }
    }
}

/// Whether `name` is the text of `v[a..b]`.
fn name_is(name: &String, v: &Vec<char>, a: usize, b: usize) -> (r: bool)
    requires
        a <= b <= v@.len(),
    ensures
        r == (name@ == v@.subrange(a as int, b as int)),
{
    let n = str_chars(name.as_str());
    if n.len() != b - a {
        return false;
    }
    let mut i: usize = 0;
    while i < n.len()
        invariant
            n@ == name@,
            n@.len() == b - a,
            a <= b <= v@.len(),
            i <= n@.len(),
            forall|k: int| 0 <= k < i ==> n@[k] == v@[a + k],
        decreases n@.len() - i,
    {
        if n[i] != v[a + i] {
            assert(n@[i as int] != v@.subrange(a as int, b as int)[i as int]);
            return false;
        }
        i = i + 1;
    }
    assert(n@ =~= v@.subrange(a as int, b as int));
    true
}

impl MetadataTree {
    /// The slot of live node `r`.
    fn slot(&self, r: u64) -> (s: &MetadataSlot)
        requires
            self.live(r),
        ensures
            *s == self.slots@[r as int]->0,
    {
        let n = self.slots.len();
        assert(r < n);
        let i = r as usize;
        self.slots[i].as_ref().unwrap()
    }

    /// A path walked from a live node ends, if anywhere, at a live node.
    pub proof fn lemma_walk_live(&self, cur: u64, segs: Seq<Seq<char>>)
        requires
            self.well_formed(),
            self.live(cur),
        ensures
            self.walk(cur, segs) matches Some(r) ==> self.live(r),
        decreases segs.len(),
    {
        if segs.len() > 0 {
            if segs[0].len() == 0 {
                self.lemma_walk_live(cur, segs.drop_first());
            } else {
                let ch = self.children_of(cur);
                self.lemma_first_named_in(ch, segs[0]);
                match self.first_named(ch, segs[0]) {
                    Some(c) => {
                        let i = choose|i: int| 0 <= i < ch.len() && ch[i] == c;
                        assert(self.live(self.children_of(cur)[i]));
                        self.lemma_walk_live(c, segs.drop_first());
                    },
                    None => {},
                }
            }
        }
    }

    proof fn lemma_first_named_in(&self, ch: Seq<u64>, name: Seq<char>)
        ensures
            self.first_named(ch, name) matches Some(c) ==> exists|i: int| 0 <= i < ch.len() && ch[i] == c,
        decreases ch.len(),
    {
        if ch.len() > 0 && self.name_of(ch[0]) != name {
            self.lemma_first_named_in(ch.drop_first(), name);
            if let Some(c) = self.first_named(ch.drop_first(), name) {
                let i = choose|i: int| 0 <= i < ch.drop_first().len() && ch.drop_first()[i] == c;
                assert(ch[i + 1] == c);
            }
        } else if ch.len() > 0 {
            assert(ch[0] == ch[0]);
        }
    }

    /// The first child of `p` whose name is `v[a..b]`.
    fn child_named(&self, p: u64, v: &Vec<char>, a: usize, b: usize) -> (r: Option<u64>)
        requires
            self.well_formed(),
            self.live(p),
            a <= b <= v@.len(),
        ensures
            r == self.first_named(self.children_of(p), v@.subrange(a as int, b as int)),
    {
        let ghost name = v@.subrange(a as int, b as int);
        let ghost ch = self.children_of(p);
        let slot = self.slot(p);
        assert(ch.skip(0) =~= ch);
        let mut i: usize = 0;
        while i < slot.children.len()
            invariant
                self.well_formed(),
                self.live(p),
                a <= b <= v@.len(),
                name == v@.subrange(a as int, b as int),
                ch == self.children_of(p),
                ch == slot.children@,
                i <= ch.len(),
                self.first_named(ch, name) == self.first_named(ch.skip(i as int), name),
            decreases ch.len() - i,
        {
            let c = slot.children[i];
            assert(ch.skip(i as int)[0] == c);
            assert(ch.skip(i as int).drop_first() =~= ch.skip(i + 1));
            assert(self.live(self.children_of(p)[i as int]));
            let cs = self.slot(c);
            if name_is(&cs.name, v, a, b) {
                return Some(c);
            }
            i = i + 1;
        }
        assert(ch.skip(ch.len() as int) =~= Seq::<u64>::empty());
        None
    }

    /// The node at `path`: from the root, each non-empty `/`-separated
    /// segment leads to the first child of that name.
    pub fn query_by_path(&self, path: &String) -> (r: Option<u64>)
        requires
            self.well_formed(),
        ensures
            r == self.walk(0, split_char(path@, '/')),
            r matches Some(n) ==> self.live(n),
    {
        let v = str_chars(path.as_str());
        let n = v.len();
        let ranges = split_ranges(&v, 0, n, '/');
        let ghost segs = split_char(path@, '/');
        assert(v@.subrange(0, n as int) =~= path@);
        let mut cur: u64 = 0;
        let mut k: usize = 0;
        assert(segs.skip(0) =~= segs);
        while k < ranges.len()
            invariant
                self.well_formed(),
                self.live(cur),
                n == v@.len(),
                segs == split_char(path@, '/'),
                v@.subrange(0, n as int) == path@,
                ranges@.len() == segs.len(),
                forall|q: int|
                    0 <= q < ranges@.len() ==> 0 <= (#[trigger] ranges@[q]).0 <= ranges@[q].1 <= n
                        && v@.subrange(ranges@[q].0 as int, ranges@[q].1 as int) == segs[q],
                k <= ranges@.len(),
                self.walk(0, segs) == self.walk(cur, segs.skip(k as int)),
            decreases ranges@.len() - k,
        {
            let (a, b) = ranges[k];
            let ghost rest = segs.skip(k as int);
            assert(rest[0] == segs[k as int]);
            assert(rest.drop_first() =~= segs.skip(k + 1));
            if a < b {
                match self.child_named(cur, &v, a, b) {
                    Some(c) => {
                        proof {
                            let ch = self.children_of(cur);
                            self.lemma_first_named_in(ch, segs[k as int]);
                            let i = choose|i: int| 0 <= i < ch.len() && ch[i] == c;
                            assert(self.live(self.children_of(cur)[i]));
                        }
                        cur = c;
                    },
                    None => {
                        return None;
                    },
                }
            }
            k = k + 1;
        }
        assert(segs.skip(ranges@.len() as int) =~= Seq::<Seq<char>>::empty());
        Some(cur)
    }

    /// The node a query addresses, if it exists.
    pub fn resolve_query(&self, q: &MetadataQuery) -> (r: Option<u64>)
        requires
            self.well_formed(),
        ensures
            r == self.resolve(*q),
            r matches Some(n) ==> self.live(n),
    {
        match q {
            MetadataQuery::Id(r) => if self.contains(*r) {
                Some(*r)
            } else {
                None
            },
            MetadataQuery::Path(p) => self.query_by_path(p),
        }
    }

    /// The children of the node a query addresses, in order; none when it
    /// addresses no node.
    pub fn query_all(&self, q: &MetadataQuery) -> (r: Vec<u64>)
        requires
            self.well_formed(),
        ensures
            r@ == match self.resolve(*q) {
                Some(n) => self.children_of(n),
                None => Seq::<u64>::empty(),
            },
    {
        match self.resolve_query(q) {
            Some(n) => self.slot(n).children.clone(),
            None => Vec::new(),
        }
    }

    /// The parent of node `r`, if it exists and is not the root.
    pub fn parent(&self, r: u64) -> (p: Option<u64>)
        ensures
            p == if self.live(r) {
                self.parent_of(r)
            } else {
                None
            },
    {
        if self.contains(r) {
            self.slot(r).parent
        } else {
            None
        }
    }

    /// The name of node `r`, if it exists.
    pub fn name(&self, r: u64) -> (n: Option<String>)
        ensures
            match n {
                Some(s) => self.live(r) && s@ == self.name_of(r),
                None => !self.live(r),
            },
    {
        if self.contains(r) {
            Some(self.slot(r).name.clone())
        } else {
            None
        }
    }

    /// The URL, kind and payload of node `r`, if it exists.
    pub fn info(&self, r: u64) -> (i: Option<&MetadataInfo>)
        ensures
            match i {
                Some(x) => self.live(r) && info_view(*x) == self.info_of(r),
                None => !self.live(r),
            },
    {
        if self.contains(r) {
            Some(&self.slot(r).info)
        } else {
            None
        }
    }
}

impl MetadataTree {
    /// The node `k` steps above `c`, following parents.
    pub open spec fn up(&self, c: u64, k: nat) -> Option<u64>
        decreases k,
    {
        if k == 0 {
            Some(c)
        } else {
            match self.up(c, (k - 1) as nat) {
                Some(a) => if self.live(a) {
                    self.parent_of(a)
                } else {
                    None
                },
                None => None,
            }
        }
    }

    /// Node `c` is `x` or lies below it.
    pub open spec fn descends(&self, c: u64, x: u64) -> bool {
        exists|k: nat| self.up(c, k) == Some(x)
    }

    /// Node `r` is the same in `self` and in `other`.
    pub open spec fn same_node(&self, other: &Self, r: u64) -> bool {
        &&& self.live(r) == other.live(r)
        &&& self.live(r) ==> {
            &&& self.name_of(r) == other.name_of(r)
            &&& self.info_of(r) == other.info_of(r)
            &&& self.parent_of(r) == other.parent_of(r)
            &&& self.children_of(r) == other.children_of(r)
        }
    }

    proof fn lemma_up_shift(&self, c: u64, k: nat)
        requires
            self.live(c),
            self.parent_of(c) is Some,
        ensures
            self.up(c, k + 1) == self.up(self.parent_of(c)->0, k),
        decreases k,
    {
        let p = self.parent_of(c)->0;
        assert(((k + 1) - 1) as nat == k);
        if k > 0 {
            self.lemma_up_shift(c, (k - 1) as nat);
            assert(self.up(c, k) == self.up(p, (k - 1) as nat));
        } else {
            assert(self.up(c, 1) == self.parent_of(c));
        }
    }

    proof fn lemma_up_rank(&self, c: u64, k: nat)
        requires
            self.well_formed(),
            self.live(c),
        ensures
            self.up(c, k) matches Some(a) ==> self.live(a) && self.rank@.dom().contains(a) && (
            k > 0 ==> self.rank@[a] < self.rank@[c]) && (self.rank@.dom().contains(c)),
        decreases k,
    {
        if c != 0 {
            assert(self.parent_of(c) is Some);
        }
        if k > 0 {
            self.lemma_up_rank(c, (k - 1) as nat);
            if let Some(a) = self.up(c, (k - 1) as nat) {
                if a != 0 {
                    assert(self.parent_of(a) is Some);
                }
            }
        }
    }

    proof fn lemma_up_past_root(&self, c: u64, k: nat, m: nat)
        requires
            self.up(c, k) matches Some(a) && self.live(a) && self.parent_of(a) is None,
            m > 0,
        ensures
            self.up(c, k + m) is None,
        decreases m,
    {
        if m > 1 {
            self.lemma_up_past_root(c, k, (m - 1) as nat);
        }
    }

    /// A node below `x` other than `x` has its parent below `x` too.
    pub proof fn lemma_descends_parent(&self, c: u64, x: u64)
        requires
            self.live(c),
            self.descends(c, x),
            c != x,
        ensures
            self.parent_of(c) is Some,
            self.descends(self.parent_of(c)->0, x),
    {
        let k = choose|k: nat| self.up(c, k) == Some(x);
        assert(k > 0);
        if self.parent_of(c) is None {
            self.lemma_up_past_root(c, 0, k);
        } else {
            self.lemma_up_shift(c, (k - 1) as nat);
            assert(self.up(self.parent_of(c)->0, (k - 1) as nat) == Some(x));
        }
    }

    /// A child of a node below `x` lies below `x`.
    pub proof fn lemma_descends_child(&self, c: u64, x: u64)
        requires
            self.live(c),
            self.parent_of(c) is Some,
            self.descends(self.parent_of(c)->0, x),
        ensures
            self.descends(c, x),
    {
        let k = choose|k: nat| self.up(self.parent_of(c)->0, k) == Some(x);
        self.lemma_up_shift(c, k);
        assert(self.up(c, k + 1) == Some(x));
    }

    /// The root lies below nothing but itself.
    pub proof fn lemma_root_descends(&self, x: u64)
        requires
            self.well_formed(),
            self.descends(0, x),
        ensures
            x == 0,
    {
        let k = choose|k: nat| self.up(0, k) == Some(x);
        if k > 0 {
            self.lemma_up_past_root(0, 0, k);
        }
    }

    /// The shape of a well-formed tree: the root `0` lives and has no
    /// parent; every other live node has a live parent that lists it; every
    /// listed child lives, is not the root and names that parent; no node
    /// is listed twice under one parent; and no node's parent lies below
    /// the node.
    pub proof fn lemma_tree_shape(&self)
        requires
            self.well_formed(),
        ensures
            self.live(0),
            self.parent_of(0) is None,
            forall|r: u64|
                #![trigger self.parent_of(r)]
                self.live(r) && r != 0 ==> {
                    &&& self.parent_of(r) is Some
                    &&& self.live(self.parent_of(r)->0)
                    &&& self.children_of(self.parent_of(r)->0).contains(r)
                    &&& !self.descends(self.parent_of(r)->0, r)
                },
            forall|p: u64, i: int|
                #![trigger self.children_of(p)[i]]
                self.live(p) && 0 <= i < self.children_of(p).len() ==> {
                    &&& self.live(self.children_of(p)[i])
                    &&& self.children_of(p)[i] != 0
                    &&& self.parent_of(self.children_of(p)[i]) == Some(p)
                },
            forall|p: u64, i: int, j: int|
                #![trigger self.children_of(p)[i], self.children_of(p)[j]]
                self.live(p) && 0 <= i < j < self.children_of(p).len() ==> self.children_of(p)[i]
                    != self.children_of(p)[j],
    {
        assert forall|r: u64| #![trigger self.parent_of(r)] self.live(r) && r != 0 implies !self.descends(
            self.parent_of(r)->0,
            r,
        ) by {
            self.lemma_parent_not_below(r);
        }
    }

    /// A node's parent does not lie below it.
    pub proof fn lemma_parent_not_below(&self, x: u64)
        requires
            self.well_formed(),
            self.live(x),
            x != 0,
        ensures
            !self.descends(self.parent_of(x)->0, x),
    {
        let p = self.parent_of(x)->0;
        if self.descends(p, x) {
            let k = choose|k: nat| self.up(p, k) == Some(x);
            self.lemma_up_rank(p, k);
            if k == 0 {
                assert(p == x);
            }
        }
    }
}

impl MetadataTree {
    /// Whether node `c` is `x` or lies below it.
    fn is_descendant(&self, c: u64, x: u64) -> (b: bool)
        requires
            self.well_formed(),
            self.live(c),
        ensures
            b == self.descends(c, x),
    {
        let mut cur = c;
        let ghost mut k: nat = 0;
        proof {
            self.lemma_up_rank(c, 0);
        }
        loop
            invariant
                self.well_formed(),
                self.live(c),
                self.live(cur),
                self.up(c, k) == Some(cur),
                self.rank@.dom().contains(cur),
                forall|j: nat| j < k ==> self.up(c, j) != Some(x),
            decreases self.rank@[cur],
        {
            if cur == x {
                return true;
            }
            match self.slot(cur).parent {
                None => {
                    proof {
                        assert forall|j: nat| self.up(c, j) != Some(x) by {
                            if j > k {
                                self.lemma_up_past_root(c, k, (j - k) as nat);
                                assert(k + (j - k) as nat == j);
                            }
                        }
                    }
                    return false;
                },
                Some(p) => {
                    proof {
                        assert(cur != 0);
                        assert(self.parent_of(cur) == Some(p));
                        assert(self.up(c, k + 1) == Some(p));
                        k = k + 1;
                    }
                    cur = p;
                },
            }
        }
    }

    /// Takes the slot of live node `r` out, leaving the slot empty.
    fn take_slot(&mut self, r: u64) -> (s: MetadataSlot)
        requires
            old(self).live(r),
        ensures
            Some(s) == old(self).slots@[r as int],
            final(self).slots@ == old(self).slots@.update(r as int, None),
            final(self).rank == old(self).rank,
    {
        let n = self.slots.len();
        assert(r < n);
        let i = r as usize;
        let t = self.slots[i].take();
        t.unwrap()
    }

    /// Puts `s` in slot `r`.
    fn put_slot(&mut self, r: u64, s: MetadataSlot)
        requires
            r < old(self).slots@.len(),
        ensures
            final(self).slots@ == old(self).slots@.update(r as int, Some(s)),
            final(self).rank == old(self).rank,
    {
        let n = self.slots.len();
        assert(r < n);
        let i = r as usize;
        self.slots[i] = Some(s);
    }

    /// The number of ids handed out so far.
    pub fn id_count(&self) -> (n: u64)
        requires
            self.next_id() <= u64::MAX,
        ensures
            n == self.next_id(),
    {
        self.slots.len() as u64
    }

    /// Adds a node named `name` that carries `info` as the last child of the
    /// node `q` addresses, under the next id, which it returns.
    pub fn insert(&mut self, q: &MetadataQuery, name: String, info: MetadataInfo) -> (r: Result<
        u64,
        MetadataError,
    >)
        requires
            old(self).well_formed(),
            old(self).next_id() < u64::MAX,
        ensures
            final(self).well_formed(),
            match r {
                Err(e) => {
                    &&& e == MetadataError::ParentNotFound
                    &&& old(self).resolve(*q) is None
                    &&& *final(self) == *old(self)
                },
                Ok(id) => {
                    &&& old(self).resolve(*q) matches Some(p)
                    &&& id == old(self).next_id()
                    &&& final(self).next_id() == id + 1
                    &&& final(self).live(id)
                    &&& final(self).name_of(id) == name@
                    &&& final(self).info_of(id) == info_view(info)
                    &&& final(self).parent_of(id) == Some(p)
                    &&& final(self).children_of(id) == Seq::<u64>::empty()
                    &&& final(self).live(p)
                    &&& final(self).name_of(p) == old(self).name_of(p)
                    &&& final(self).info_of(p) == old(self).info_of(p)
                    &&& final(self).parent_of(p) == old(self).parent_of(p)
                    &&& final(self).children_of(p) == old(self).children_of(p).push(id)
                    &&& forall|x: u64| x != p && x != id ==> #[trigger] final(self).same_node(old(self), x)
                },
            },
    {
        let p = match self.resolve_query(q) {
            Some(p) => p,
            None => {
                return Err(MetadataError::ParentNotFound);
            },
        };
        let id = self.slots.len() as u64;
        let ghost old_self = *self;
        self.slots.push(Some(MetadataSlot { name, info, parent: Some(p), children: Vec::new() }));
        let mut ps = self.take_slot(p);
        ps.children.push(id);
        self.put_slot(p, ps);
        let ghost new_rank = old_self.rank@.insert(id, old_self.rank@[p] + 1);
        proof {
            if p != 0 {
                assert(old_self.parent_of(p) is Some);
            }
        }
        self.rank = Ghost(new_rank);
        proof {
            assert(self.children_of(id) =~= Seq::<u64>::empty());
            assert forall|x: u64| x != p && x != id implies #[trigger] self.same_node(&old_self, x) by {
                if x < old_self.slots@.len() {
                    assert(self.slots@[x as int] == old_self.slots@[x as int]);
                }
            }
            self.lemma_insert_well_formed(&old_self, p, id);
        }
        Ok(id)
    }

    proof fn lemma_insert_well_formed(&self, old_self: &Self, p: u64, id: u64)
        requires
            old_self.well_formed(),
            old_self.live(p),
            id == old_self.next_id(),
            self.next_id() == id + 1,
            self.live(id),
            self.parent_of(id) == Some(p),
            self.children_of(id) == Seq::<u64>::empty(),
            self.live(p),
            self.parent_of(p) == old_self.parent_of(p),
            self.children_of(p) == old_self.children_of(p).push(id),
            forall|x: u64| x != p && x != id ==> #[trigger] self.same_node(old_self, x),
            self.rank@ == old_self.rank@.insert(id, old_self.rank@[p] + 1),
            old_self.rank@.dom().contains(p),
        ensures
            self.well_formed(),
    {
        assert(self.same_node(old_self, 0) || p == 0);
        assert forall|r: u64| #![trigger self.parent_of(r)] self.live(r) && r != 0 implies {
            &&& self.parent_of(r) is Some
            &&& self.live(self.parent_of(r)->0)
            &&& self.children_of(self.parent_of(r)->0).contains(r)
            &&& self.rank@.dom().contains(r)
            &&& self.rank@.dom().contains(self.parent_of(r)->0)
            &&& self.rank@[r] > self.rank@[self.parent_of(r)->0]
        } by {
            if r == id {
                assert(self.children_of(p)[old_self.children_of(p).len() as int] == id);
            } else {
                if r != p {
                    assert(self.same_node(old_self, r));
                }
                assert(old_self.parent_of(r) is Some);
                let q = old_self.parent_of(r)->0;
                assert(old_self.children_of(q).contains(r));
                if q != p {
                    assert(self.same_node(old_self, q));
                    assert(q != id);
                } else {
                    let i = choose|i: int| 0 <= i < old_self.children_of(p).len() && old_self.children_of(p)[i] == r;
                    assert(self.children_of(p)[i] == r);
                }
            }
        }
        assert forall|q: u64, i: int|
            #![trigger self.children_of(q)[i]]
            self.live(q) && 0 <= i < self.children_of(q).len() implies {
            &&& self.live(self.children_of(q)[i])
            &&& self.children_of(q)[i] != 0
            &&& self.parent_of(self.children_of(q)[i]) == Some(q)
        } by {
            if q == p {
                if i < old_self.children_of(p).len() {
                    let c = old_self.children_of(p)[i];
                    assert(self.children_of(p)[i] == c);
                    assert(old_self.live(c));
                    assert(c != id);
                    if c != p {
                        assert(self.same_node(old_self, c));
                    }
                }
            } else if q != id {
                assert(self.same_node(old_self, q));
                let c = old_self.children_of(q)[i];
                assert(old_self.live(c));
                assert(c != id);
                if c != p {
                    assert(self.same_node(old_self, c));
                } else {
                    assert(old_self.parent_of(c) == Some(q));
                }
            }
        }
        assert forall|q: u64, i: int, j: int|
            #![trigger self.children_of(q)[i], self.children_of(q)[j]]
            self.live(q) && 0 <= i < j < self.children_of(q).len() implies self.children_of(q)[i]
                != self.children_of(q)[j] by {
            if q == p {
                if j == old_self.children_of(p).len() {
                    assert(old_self.live(old_self.children_of(p)[i]));
                } else {
                    assert(old_self.children_of(p)[i] != old_self.children_of(p)[j]);
                }
            } else if q != id {
                assert(self.same_node(old_self, q));
                assert(old_self.children_of(q)[i] != old_self.children_of(q)[j]);
            }
        }
    }
}

impl MetadataTree {
    /// The id a query names: its id, or the node its path leads to.
    pub open spec fn query_rid(&self, q: MetadataQuery) -> Option<u64> {
        match q {
            MetadataQuery::Id(r) => Some(r),
            MetadataQuery::Path(p) => self.walk(0, split_char(p@, '/')),
        }
    }

    /// `self` is `old` with node `x` and everything below it removed.
    pub open spec fn deleted(&self, old: &Self, x: u64) -> bool {
        let px = old.parent_of(x)->0;
        &&& self.next_id() == old.next_id()
        &&& forall|r: u64| #[trigger] self.live(r) == (old.live(r) && !old.descends(r, x))
        &&& forall|r: u64| r != px ==> #[trigger] self.same_node(old, r) || !self.live(r)
        &&& self.live(px)
        &&& self.name_of(px) == old.name_of(px)
        &&& self.info_of(px) == old.info_of(px)
        &&& self.parent_of(px) == old.parent_of(px)
        &&& exists|i: int|
            0 <= i < old.children_of(px).len() && old.children_of(px)[i] == x
                && self.children_of(px) == old.children_of(px).remove(i)
    }

    /// The id a query names.
    fn query_rid_exec(&self, q: &MetadataQuery) -> (r: Option<u64>)
        requires
            self.well_formed(),
        ensures
            r == self.query_rid(*q),
    {
        match q {
            MetadataQuery::Id(r) => Some(*r),
            MetadataQuery::Path(p) => self.query_by_path(p),
        }
    }

    /// The position of `x` among the children of `p`.
    fn child_index(&self, p: u64, x: u64) -> (i: usize)
        requires
            self.well_formed(),
            self.live(p),
            self.children_of(p).contains(x),
        ensures
            i < self.children_of(p).len(),
            self.children_of(p)[i as int] == x,
    {
        let ch = &self.slot(p).children;
        let mut i: usize = 0;
        while i < ch.len()
            invariant
                ch@ == self.children_of(p),
                self.children_of(p).contains(x),
                i <= ch@.len(),
                forall|j: int| 0 <= j < i ==> ch@[j] != x,
            decreases ch@.len() - i,
        {
            if ch[i] == x {
                return i;
            }
            i = i + 1;
        }
        assert(false);
        0
    }

    /// Removes the node a query names, with everything below it. The root
    /// cannot be removed.
    pub fn delete(&mut self, q: &MetadataQuery) -> (r: Result<(), MetadataError>)
        requires
            old(self).well_formed(),
        ensures
            final(self).well_formed(),
            match r {
                Err(e) => *final(self) == *old(self) && match old(self).query_rid(*q) {
                    None => e == MetadataError::InvalidQuery,
                    Some(x) => if !old(self).live(x) {
                        e == MetadataError::NotFound(x)
                    } else {
                        x == 0 && e == MetadataError::DeleteRoot(x)
                    },
                },
                Ok(()) => old(self).query_rid(*q) matches Some(x) && old(self).live(x) && x != 0
                    && final(self).deleted(old(self), x),
            },
    {
        let x = match self.query_rid_exec(q) {
            Some(x) => x,
            None => {
                return Err(MetadataError::InvalidQuery);
            },
        };
        if !self.contains(x) {
            return Err(MetadataError::NotFound(x));
        }
        let px = match self.slot(x).parent {
            Some(p) => p,
            None => {
                assert(self.parent_of(x) is None);
                assert(x == 0);
                return Err(MetadataError::DeleteRoot(x));
            },
        };
        let ghost old_self = *self;
        assert(x != 0);
        let n = self.slots.len();
        let mut marks: Vec<bool> = Vec::new();
        let mut r: usize = 0;
        while r < n
            invariant
                *self == old_self,
                old_self.well_formed(),
                n == old_self.slots@.len(),
                r <= n,
                marks@.len() == r,
                forall|j: int|
                    0 <= j < r ==> marks@[j] == (old_self.live(j as u64) && old_self.descends(
                        j as u64,
                        x,
                    )),
            decreases n - r,
        {
            let m = if self.slots[r].is_some() {
                assert(self.live(r as u64));
                self.is_descendant(r as u64, x)
            } else {
                false
            };
            marks.push(m);
            r = r + 1;
        }
        proof {
            old_self.lemma_parent_not_below(x);
            assert(old_self.children_of(px).contains(x));
        }
        let i = self.child_index(px, x);
        let mut ps = self.take_slot(px);
        ps.children.remove(i);
        let ghost kept = ps.children@;
        assert(kept == old_self.children_of(px).remove(i as int));
        self.put_slot(px, ps);
        let mut r: usize = 0;
        while r < n
            invariant
                old_self.well_formed(),
                n == old_self.slots@.len(),
                n == self.slots@.len(),
                self.rank == old_self.rank,
                r <= n,
                px < n,
                marks@.len() == n,
                forall|j: int|
                    0 <= j < n ==> marks@[j] == (old_self.live(j as u64) && old_self.descends(
                        j as u64,
                        x,
                    )),
                !marks@[px as int],
                self.slots@[px as int] is Some,
                self.slots@[px as int]->0.name == old_self.slots@[px as int]->0.name,
                self.slots@[px as int]->0.info == old_self.slots@[px as int]->0.info,
                self.slots@[px as int]->0.parent == old_self.slots@[px as int]->0.parent,
                self.slots@[px as int]->0.children@ == kept,
                forall|j: int|
                    0 <= j < n && j != px ==> #[trigger] self.slots@[j] == if j < r && marks@[j] {
                        None
                    } else {
                        old_self.slots@[j]
                    },
            decreases n - r,
        {
            if marks[r] {
                self.slots[r] = None;
            }
            r = r + 1;
        }
        proof {
            self.lemma_delete_well_formed(&old_self, x, px, i as int);
        }
        Ok(())
    }
}

impl MetadataTree {
    proof fn lemma_delete_well_formed(&self, old_self: &Self, x: u64, px: u64, i: int)
        requires
            old_self.well_formed(),
            old_self.live(x),
            x != 0,
            old_self.parent_of(x) == Some(px),
            0 <= i < old_self.children_of(px).len(),
            old_self.children_of(px)[i] == x,
            self.slots@.len() == old_self.slots@.len(),
            self.rank == old_self.rank,
            !old_self.descends(px, x),
            self.slots@[px as int] is Some,
            self.slots@[px as int]->0.name == old_self.slots@[px as int]->0.name,
                self.slots@[px as int]->0.info == old_self.slots@[px as int]->0.info,
            self.slots@[px as int]->0.parent == old_self.slots@[px as int]->0.parent,
            self.slots@[px as int]->0.children@ == old_self.children_of(px).remove(i),
            forall|j: int|
                0 <= j < self.slots@.len() && j != px ==> #[trigger] self.slots@[j] == if old_self.live(
                    j as u64,
                ) && old_self.descends(j as u64, x) {
                    None
                } else {
                    old_self.slots@[j]
                },
        ensures
            self.well_formed(),
            self.deleted(old_self, x),
    {
        assert forall|r: u64| #[trigger] self.live(r) == (old_self.live(r) && !old_self.descends(r, x)) by {
            if r < self.slots@.len() && r != px {
                assert(self.slots@[r as int] == if old_self.live(r as u64) && old_self.descends(r as u64, x) {
                    None
                } else {
                    old_self.slots@[r as int]
                });
            }
        }
        assert forall|r: u64| r != px implies #[trigger] self.same_node(old_self, r) || !self.live(r) by {
            if r < self.slots@.len() {
                assert(self.slots@[r as int] == if old_self.live(r as u64) && old_self.descends(r as u64, x) {
                    None
                } else {
                    old_self.slots@[r as int]
                });
            }
        }
        assert(self.live(0)) by {
            if old_self.descends(0, x) {
                old_self.lemma_root_descends(x);
            }
        }
        assert(self.parent_of(0) is None) by {
            if px != 0 {
                assert(self.same_node(old_self, 0));
            }
        }
        let kept = old_self.children_of(px).remove(i);
        assert(self.children_of(px) == kept);
        assert forall|r: u64| #![trigger self.parent_of(r)] self.live(r) && r != 0 implies {
            &&& self.parent_of(r) is Some
            &&& self.live(self.parent_of(r)->0)
            &&& self.children_of(self.parent_of(r)->0).contains(r)
            &&& self.rank@.dom().contains(r)
            &&& self.rank@.dom().contains(self.parent_of(r)->0)
            &&& self.rank@[r] > self.rank@[self.parent_of(r)->0]
        } by {
            assert(old_self.live(r) && !old_self.descends(r, x));
            assert(self.parent_of(r) == old_self.parent_of(r)) by {
                if r != px {
                    assert(self.same_node(old_self, r));
                }
            }
            assert(old_self.parent_of(r) is Some);
            let q = old_self.parent_of(r)->0;
            assert(!old_self.descends(q, x)) by {
                if old_self.descends(q, x) {
                    old_self.lemma_descends_child(r, x);
                }
            }
            assert(self.live(q));
            assert(old_self.children_of(q).contains(r));
            if q != px {
                assert(self.same_node(old_self, q));
            } else {
                let k = choose|k: int| 0 <= k < old_self.children_of(px).len() && old_self.children_of(px)[k] == r;
                assert(r != x) by {
                    assert(old_self.up(r, 0) == Some(r));
                }
                assert(k != i);
                if k < i {
                    assert(kept[k] == r);
                } else {
                    assert(kept[k - 1] == r);
                }
            }
        }
        assert forall|q: u64, j: int|
            #![trigger self.children_of(q)[j]]
            self.live(q) && 0 <= j < self.children_of(q).len() implies {
            &&& self.live(self.children_of(q)[j])
            &&& self.children_of(q)[j] != 0
            &&& self.parent_of(self.children_of(q)[j]) == Some(q)
        } by {
            assert(old_self.live(q) && !old_self.descends(q, x));
            let c = self.children_of(q)[j];
            let k: int = if q == px && j >= i { j + 1 } else { j };
            if q != px {
                assert(self.same_node(old_self, q));
            }
            assert(old_self.children_of(q)[k] == c);
            assert(old_self.live(c));
            assert(old_self.parent_of(c) == Some(q));
            assert(c != x) by {
                if c == x {
                    if q == px {
                        assert(old_self.children_of(px)[k] == old_self.children_of(px)[i]);
                        assert(k == i);
                    }
                }
            }
            assert(!old_self.descends(c, x)) by {
                if old_self.descends(c, x) {
                    old_self.lemma_descends_parent(c, x);
                }
            }
            assert(self.live(c));
            if c != px {
                assert(self.same_node(old_self, c));
            }
        }
        assert forall|q: u64, a: int, b: int|
            #![trigger self.children_of(q)[a], self.children_of(q)[b]]
            self.live(q) && 0 <= a < b < self.children_of(q).len() implies self.children_of(q)[a]
                != self.children_of(q)[b] by {
            if q == px {
                let ka: int = if a >= i { a + 1 } else { a };
                let kb: int = if b >= i { b + 1 } else { b };
                assert(old_self.children_of(px)[ka] != old_self.children_of(px)[kb]);
            } else {
                assert(self.same_node(old_self, q));
                assert(old_self.children_of(q)[a] != old_self.children_of(q)[b]);
            }
        }
    }
}

impl MetadataTree {
    /// `self` is `old` with node `x` moved to the end of the children of
    /// `t`, everything below `x` going with it.
    pub open spec fn moved(&self, old: &Self, x: u64, t: u64) -> bool {
        let px = old.parent_of(x)->0;
        &&& self.next_id() == old.next_id()
        &&& forall|r: u64| #[trigger] self.live(r) == old.live(r)
        &&& forall|r: u64| r != x && r != px && r != t ==> #[trigger] self.same_node(old, r)
        &&& self.name_of(x) == old.name_of(x)
        &&& self.info_of(x) == old.info_of(x)
        &&& self.parent_of(x) == Some(t)
        &&& self.children_of(x) == old.children_of(x)
        &&& self.name_of(px) == old.name_of(px)
        &&& self.info_of(px) == old.info_of(px)
        &&& self.parent_of(px) == old.parent_of(px)
        &&& exists|i: int|
            0 <= i < old.children_of(px).len() && old.children_of(px)[i] == x
                && self.children_of(px) == old.children_of(px).remove(i)
        &&& self.name_of(t) == old.name_of(t)
        &&& self.info_of(t) == old.info_of(t)
        &&& self.parent_of(t) == old.parent_of(t)
        &&& self.children_of(t) == old.children_of(t).push(x)
    }

    /// Moves the node `q` names to the end of the children of the node
    /// `target` addresses, with everything below it. Moving under the node
    /// it already hangs from changes nothing; the root cannot move, and no
    /// node can move under itself or under anything below it.
    pub fn move_(&mut self, q: &MetadataQuery, target: &MetadataQuery) -> (r: Result<
        (),
        MetadataError,
    >)
        requires
            old(self).well_formed(),
        ensures
            final(self).well_formed(),
            match r {
                Err(e) => *final(self) == *old(self) && match old(self).query_rid(*q) {
                    None => e == MetadataError::InvalidQuery,
                    Some(x) => if !old(self).live(x) {
                        e == MetadataError::NotFound(x)
                    } else if old(self).resolve(*target) is None {
                        e == MetadataError::TargetNotFound
                    } else if x == 0 {
                        e == MetadataError::MoveRoot(x)
                    } else if old(self).resolve(*target) == Some(x) {
                        e == MetadataError::IntoItself(x)
                    } else {
                        old(self).descends(old(self).resolve(*target)->0, x)
                            && e == MetadataError::IntoOwnSubtree(x)
                    },
                },
                Ok(()) => {
                    &&& old(self).query_rid(*q) matches Some(x)
                    &&& old(self).live(x)
                    &&& x != 0
                    &&& old(self).resolve(*target) matches Some(t)
                    &&& if t == old(self).parent_of(x)->0 {
                        *final(self) == *old(self)
                    } else {
                        t != x && !old(self).descends(t, x) && final(self).moved(old(self), x, t)
                    }
                },
            },
    {
        let x = match self.query_rid_exec(q) {
            Some(x) => x,
            None => {
                return Err(MetadataError::InvalidQuery);
            },
        };
        if !self.contains(x) {
            return Err(MetadataError::NotFound(x));
        }
        let t = match self.resolve_query(target) {
            Some(t) => t,
            None => {
                return Err(MetadataError::TargetNotFound);
            },
        };
        let px = match self.slot(x).parent {
            Some(p) => p,
            None => {
                assert(self.parent_of(x) is None);
                assert(x == 0);
                return Err(MetadataError::MoveRoot(x));
            },
        };
        assert(x != 0);
        if px == t {
            return Ok(());
        }
        if t == x {
            return Err(MetadataError::IntoItself(x));
        }
        if self.is_descendant(t, x) {
            return Err(MetadataError::IntoOwnSubtree(x));
        }
        let ghost old_self = *self;
        proof {
            old_self.lemma_parent_not_below(x);
            assert(old_self.children_of(px).contains(x));
            if t != 0 {
                assert(old_self.parent_of(t) is Some);
            }
        }
        let i = self.child_index(px, x);
        let mut ps = self.take_slot(px);
        ps.children.remove(i);
        self.put_slot(px, ps);
        let mut ts = self.take_slot(t);
        ts.children.push(x);
        self.put_slot(t, ts);
        let mut xs = self.take_slot(x);
        xs.parent = Some(t);
        self.put_slot(x, xs);
        let ghost k = old_self.rank@[t] + 1;
        let ghost new_rank = Map::<u64, nat>::new(
            |r: u64| old_self.rank@.dom().contains(r),
            |r: u64|
                if old_self.descends(r, x) {
                    old_self.rank@[r] + k
                } else {
                    old_self.rank@[r]
                },
        );
        self.rank = Ghost(new_rank);
        proof {
            assert forall|r: u64| r != x && r != px && r != t implies #[trigger] self.same_node(
                &old_self,
                r,
            ) by {
                if r < self.slots@.len() {
                    assert(self.slots@[r as int] == old_self.slots@[r as int]);
                }
            }
            assert forall|r: u64| #[trigger] self.live(r) == old_self.live(r) by {
                if r < self.slots@.len() && r != x && r != px && r != t {
                    assert(self.slots@[r as int] == old_self.slots@[r as int]);
                }
            }
            assert(self.children_of(px) == old_self.children_of(px).remove(i as int));
            self.lemma_move_well_formed(&old_self, x, t, i as int, k);
        }
        Ok(())
    }

    proof fn lemma_move_well_formed(&self, old_self: &Self, x: u64, t: u64, i: int, k: nat)
        requires
            old_self.well_formed(),
            old_self.live(x),
            x != 0,
            old_self.live(t),
            t != x,
            t != old_self.parent_of(x)->0,
            !old_self.descends(t, x),
            !old_self.descends(old_self.parent_of(x)->0, x),
            0 <= i < old_self.children_of(old_self.parent_of(x)->0).len(),
            old_self.children_of(old_self.parent_of(x)->0)[i] == x,
            old_self.rank@.dom().contains(t),
            k == old_self.rank@[t] + 1,
            self.rank@ == Map::<u64, nat>::new(
                |r: u64| old_self.rank@.dom().contains(r),
                |r: u64|
                    if old_self.descends(r, x) {
                        old_self.rank@[r] + k
                    } else {
                        old_self.rank@[r]
                    },
            ),
            self.slots@.len() == old_self.slots@.len(),
            forall|r: u64| #[trigger] self.live(r) == old_self.live(r),
            forall|r: u64|
                r != x && r != old_self.parent_of(x)->0 && r != t ==> #[trigger] self.same_node(
                    old_self,
                    r,
                ),
            self.name_of(x) == old_self.name_of(x),
            self.info_of(x) == old_self.info_of(x),
            self.parent_of(x) == Some(t),
            self.children_of(x) == old_self.children_of(x),
            self.name_of(old_self.parent_of(x)->0) == old_self.name_of(old_self.parent_of(x)->0),
            self.info_of(old_self.parent_of(x)->0) == old_self.info_of(old_self.parent_of(x)->0),
            self.parent_of(old_self.parent_of(x)->0) == old_self.parent_of(old_self.parent_of(x)->0),
            self.children_of(old_self.parent_of(x)->0) == old_self.children_of(
                old_self.parent_of(x)->0,
            ).remove(i),
            self.name_of(t) == old_self.name_of(t),
            self.info_of(t) == old_self.info_of(t),
            self.parent_of(t) == old_self.parent_of(t),
            self.children_of(t) == old_self.children_of(t).push(x),
        ensures
            self.well_formed(),
            self.moved(old_self, x, t),
    {
        let px = old_self.parent_of(x)->0;
        let kept = old_self.children_of(px).remove(i);
        assert(old_self.descends(x, x)) by {
            assert(old_self.up(x, 0) == Some(x));
        }
        assert(self.parent_of(0) is None) by {
            if 0 != px && 0 != t {
                assert(self.same_node(old_self, 0));
            }
        }
        assert(self.rank@.dom().contains(0)) by {
            assert(old_self.rank@.dom().contains(0));
        }
        assert(self.rank@.dom().contains(t));
        assert(self.rank@[t] == old_self.rank@[t]);
        // The parent-side facts.
        assert forall|r: u64| #![trigger self.parent_of(r)] self.live(r) && r != 0 implies {
            &&& self.parent_of(r) is Some
            &&& self.live(self.parent_of(r)->0)
            &&& self.children_of(self.parent_of(r)->0).contains(r)
            &&& self.rank@.dom().contains(r)
            &&& self.rank@.dom().contains(self.parent_of(r)->0)
            &&& self.rank@[r] > self.rank@[self.parent_of(r)->0]
        } by {
            assert(old_self.live(r));
            assert(old_self.parent_of(r) is Some);
            assert(old_self.rank@.dom().contains(r));
            if r == x {
                assert(self.children_of(t)[old_self.children_of(t).len() as int] == x);
                assert(self.rank@[x] == old_self.rank@[x] + k);
            } else {
                let q = old_self.parent_of(r)->0;
                assert(self.parent_of(r) == Some(q)) by {
                    if r != px && r != t {
                        assert(self.same_node(old_self, r));
                    }
                }
                assert(old_self.children_of(q).contains(r));
                assert(old_self.rank@.dom().contains(q));
                if old_self.descends(r, x) {
                    old_self.lemma_descends_parent(r, x);
                    assert(old_self.descends(q, x));
                    assert(q != px && q != t);
                    if q != x {
                        assert(self.same_node(old_self, q));
                    }
                    assert(self.rank@[r] == old_self.rank@[r] + k);
                    assert(self.rank@[q] == old_self.rank@[q] + k);
                } else {
                    assert(!old_self.descends(q, x)) by {
                        if old_self.descends(q, x) {
                            old_self.lemma_descends_child(r, x);
                        }
                    }
                    assert(self.rank@[r] == old_self.rank@[r]);
                    assert(self.rank@[q] == old_self.rank@[q]);
                    assert(q != x);
                    if q == px {
                        let m = choose|m: int| 0 <= m < old_self.children_of(px).len() && old_self.children_of(px)[m] == r;
                        assert(m != i);
                        if m < i {
                            assert(kept[m] == r);
                        } else {
                            assert(kept[m - 1] == r);
                        }
                    } else if q == t {
                        let m = choose|m: int| 0 <= m < old_self.children_of(t).len() && old_self.children_of(t)[m] == r;
                        assert(self.children_of(t)[m] == r);
                    } else {
                        assert(self.same_node(old_self, q));
                    }
                }
            }
        }
        // The child-side facts.
        assert forall|q: u64, j: int|
            #![trigger self.children_of(q)[j]]
            self.live(q) && 0 <= j < self.children_of(q).len() implies {
            &&& self.live(self.children_of(q)[j])
            &&& self.children_of(q)[j] != 0
            &&& self.parent_of(self.children_of(q)[j]) == Some(q)
        } by {
            let c = self.children_of(q)[j];
            if q == t && j == old_self.children_of(t).len() {
                assert(c == x);
            } else {
                let m: int = if q == px && j >= i { j + 1 } else { j };
                if q != px && q != t && q != x {
                    assert(self.same_node(old_self, q));
                }
                assert(old_self.children_of(q)[m] == c);
                assert(old_self.live(c));
                assert(old_self.parent_of(c) == Some(q));
                assert(c != x) by {
                    if c == x {
                        if q == px {
                            assert(old_self.children_of(px)[m] == old_self.children_of(px)[i]);
                        }
                    }
                }
                if c != px && c != t {
                    assert(self.same_node(old_self, c));
                }
            }
        }
        assert forall|q: u64, a: int, b: int|
            #![trigger self.children_of(q)[a], self.children_of(q)[b]]
            self.live(q) && 0 <= a < b < self.children_of(q).len() implies self.children_of(q)[a]
                != self.children_of(q)[b] by {
            if q == px {
                let ka: int = if a >= i { a + 1 } else { a };
                let kb: int = if b >= i { b + 1 } else { b };
                assert(old_self.children_of(px)[ka] != old_self.children_of(px)[kb]);
            } else if q == t {
                if b == old_self.children_of(t).len() {
                    let c = old_self.children_of(t)[a];
                    assert(old_self.parent_of(c) == Some(t));
                } else {
                    assert(old_self.children_of(t)[a] != old_self.children_of(t)[b]);
                }
            } else if q == x {
                assert(old_self.children_of(x)[a] != old_self.children_of(x)[b]);
            } else {
                assert(self.same_node(old_self, q));
                assert(old_self.children_of(q)[a] != old_self.children_of(q)[b]);
            }
        }
    }
}

impl MetadataTree {
    proof fn lemma_moved_keeps_chain(&self, old: &Self, x: u64, t: u64, c: u64, k: nat)
        requires
            old.well_formed(),
            self.moved(old, x, t),
            old.live(c),
            old.up(c, k) == Some(x),
        ensures
            self.descends(c, x),
        decreases k,
    {
        if c == x {
            assert(self.up(c, 0) == Some(x));
        } else {
            assert(k > 0) by {
                if k == 0 {
                    assert(old.up(c, 0) == Some(c));
                }
            }
            if old.parent_of(c) is None {
                old.lemma_up_past_root(c, 0, k);
            }
            let q = old.parent_of(c)->0;
            old.lemma_up_shift(c, (k - 1) as nat);
            assert(old.up(q, (k - 1) as nat) == Some(x));
            if c != 0 {
                assert(old.live(q));
            }
            self.lemma_moved_keeps_chain(old, x, t, q, (k - 1) as nat);
            let px = old.parent_of(x)->0;
            assert(self.parent_of(c) == Some(q)) by {
                if c != px && c != t {
                    assert(self.same_node(old, c));
                }
            }
            assert(self.live(c));
            self.lemma_descends_child(c, x);
        }
    }

    /// Moving a node carries everything below it: each node that lay below
    /// `x` still lies below `x`, and now below the target `t` as well.
    pub proof fn lemma_move_carries_subtree(&self, old: &Self, x: u64, t: u64, r: u64)
        requires
            old.well_formed(),
            self.moved(old, x, t),
            old.live(r),
            old.descends(r, x),
        ensures
            self.descends(r, x),
            self.descends(r, t),
    {
        let k = choose|k: nat| old.up(r, k) == Some(x);
        self.lemma_moved_keeps_chain(old, x, t, r, k);
        let j = choose|j: nat| self.up(r, j) == Some(x);
        assert(self.live(x));
        self.lemma_up_append(r, j, x);
        assert(self.up(r, j + 1) == Some(t));
    }

    proof fn lemma_up_append(&self, c: u64, j: nat, a: u64)
        requires
            self.up(c, j) == Some(a),
        ensures
            self.up(c, j + 1) == (if self.live(a) {
                self.parent_of(a)
            } else {
                None
            }),
    {
        assert(((j + 1) - 1) as nat == j);
    }
}

} // verus!
