//! The hierarchical row store behind a model: rows in an arena, each with its
//! parent, its position among its siblings, its children and a textual id.

use vstd::prelude::*;
use crate::path::TreePath;

verus! {

/// Type of the values that a column holds.
#[derive(Clone, Copy, Debug, PartialEq, Eq, Structural)]
pub enum ColumnType {
    Bool,
    Int,
    UInt,
    Text,
}

/// Structural properties of a store.
#[derive(Clone, Copy, Debug, PartialEq, Eq, Structural)]
pub struct TreeModelFlags {
    /// Iterators stay valid while rows are added.
    pub iters_persist: bool,
    /// Every row is at the top level: the store is a flat list.
    pub list_only: bool,
}

/// Navigation token for one row. It is only meaningful to the store that made
/// it; a store answers "no such row" for a token that it cannot place.
#[derive(Clone, Copy, Debug)]
pub struct TreeIter {
    node: usize,
}

impl TreeIter {
    /// Arena slot of the row.
    pub closed spec fn node(self) -> nat {
        self.node as nat
    }

    /// Arena slot of the row.
    pub(crate) fn slot(&self) -> (r: usize)
        ensures
            r == self.node(),
    {
        self.node
    }
}

/// Rows in an arena. Slot 0 is the invisible root whose children are the
/// top-level rows; every other slot is a row.
pub struct TreeStore {
    columns: Vec<ColumnType>,
    flags: TreeModelFlags,
    parent: Vec<usize>,
    pos: Vec<usize>,
    children: Vec<Vec<usize>>,
    ids: Vec<String>,
}

impl TreeStore {
    /// Number of arena slots, the root included.
    pub closed spec fn slots(&self) -> nat {
        self.parent@.len()
    }

    /// Number of rows.
    pub closed spec fn row_count(&self) -> nat {
        (self.slots() - 1) as nat
    }

    /// Arena slots of the children of slot `n`, in order.
    pub closed spec fn kids(&self, n: nat) -> Seq<usize> {
        self.children@[n as int]@
    }

    /// Arena slot of the parent of slot `n`.
    pub closed spec fn parent_slot(&self, n: nat) -> nat {
        self.parent@[n as int] as nat
    }

    /// Position of slot `n` among its siblings.
    pub closed spec fn position(&self, n: nat) -> nat {
        self.pos@[n as int] as nat
    }

    /// Types of the columns, in order.
    pub closed spec fn column_types(&self) -> Seq<ColumnType> {
        self.columns@
    }

    /// Structural properties of the store.
    pub closed spec fn flags_spec(&self) -> TreeModelFlags {
        self.flags
    }

    /// The parent links, positions and child lists agree; parents come before
    /// their children in the arena; a list store has top-level rows only.
    pub closed spec fn wf(&self) -> bool {
        &&& self.parent@.len() >= 1
        &&& self.parent@.len() <= u32::MAX
        &&& self.pos@.len() == self.parent@.len()
        &&& self.children@.len() == self.parent@.len()
        &&& self.ids@.len() == self.parent@.len()
        &&& self.columns@.len() <= u32::MAX
        &&& forall|i: nat|
            0 < i < self.slots() ==> {
                &&& #[trigger] self.parent_slot(i) < i
                &&& self.position(i) < self.kids(self.parent_slot(i)).len()
                &&& self.kids(self.parent_slot(i))[self.position(i) as int] == i
            }
        &&& forall|i: nat, k: int|
            i < self.slots() && 0 <= k < self.kids(i).len() ==> {
                &&& 0 < #[trigger] self.kids(i)[k] < self.slots()
                &&& self.parent_slot(self.kids(i)[k] as nat) == i
                &&& self.position(self.kids(i)[k] as nat) == k
            }
        &&& forall|i: nat| i < self.slots() ==> #[trigger] self.kids(i).len() < self.slots()
        &&& self.flags.list_only ==> forall|i: nat|
            0 < i < self.slots() ==> #[trigger] self.parent_slot(i) == 0
    }

    /// The token for arena slot `n`.
    pub closed spec fn iter_at(&self, n: nat) -> TreeIter {
        TreeIter { node: n as usize }
    }

    /// `it` names a row of this store.
    pub closed spec fn valid_iter(&self, it: TreeIter) -> bool {
        0 < it.node < self.slots()
    }

    /// The slot that path `p` leads to from the root, if any.
    pub closed spec fn slot_at(&self, p: Seq<u32>) -> Option<nat>
        decreases p.len(),
    {
        if p.len() == 0 {
            Some(0)
        } else {
            match self.slot_at(p.drop_last()) {
                Some(n) => if n < self.slots() && p.last() < self.kids(n).len() {
                    Some(self.kids(n)[p.last() as int] as nat)
                } else {
                    None
                },
                None => None,
            }
        }
    }

    /// Positions from the root down to slot `n`.
    pub closed spec fn path_to(&self, n: nat) -> Seq<u32>
        decreases n,
    {
        if n == 0 || n >= self.slots() || self.parent_slot(n) >= n {
            seq![]
        } else {
            self.path_to(self.parent_slot(n)).push(self.position(n) as u32)
        }
    }

    /// Number of rows directly under path `p` (the top level for the empty
    /// path); 0 where no row is at `p`.
    pub closed spec fn children_at(&self, p: Seq<u32>) -> nat {
        match self.slot_at(p) {
            Some(n) => if n < self.slots() {
                self.kids(n).len()
            } else {
                0
            },
            None => 0,
        }
    }

    /// The row at path `p`; `None` where no row is there (the empty path
    /// included).
    pub closed spec fn resolve(&self, p: Seq<u32>) -> Option<TreeIter> {
        match self.slot_at(p) {
            Some(n) => if n > 0 {
                Some(self.iter_at(n))
            } else {
                None
            },
            None => None,
        }
    }

    /// The path of the row that `it` names.
    pub closed spec fn path_of(&self, it: TreeIter) -> Option<Seq<u32>> {
        if self.valid_iter(it) {
            Some(self.path_to(it.node()))
        } else {
            None
        }
    }

    /// Number of children of the row that `it` names; 0 for a token that
    /// names no row.
    pub closed spec fn child_count(&self, it: TreeIter) -> nat {
        if self.valid_iter(it) {
            self.kids(it.node()).len()
        } else {
            0
        }
    }

    /// The `k`-th child of the row that `it` names.
    pub closed spec fn nth_child(&self, it: TreeIter, k: int) -> Option<TreeIter> {
        if self.valid_iter(it) && 0 <= k < self.kids(it.node()).len() {
            Some(self.iter_at(self.kids(it.node())[k] as nat))
        } else {
            None
        }
    }

    /// The first top-level row.
    pub closed spec fn first(&self) -> Option<TreeIter> {
        if self.kids(0).len() > 0 {
            Some(self.iter_at(self.kids(0)[0] as nat))
        } else {
            None
        }
    }

    /// The sibling after the row that `it` names.
    pub closed spec fn next(&self, it: TreeIter) -> Option<TreeIter> {
        let p = self.parent_slot(it.node());
        let k = self.position(it.node());
        if self.valid_iter(it) && k + 1 < self.kids(p).len() {
            Some(self.iter_at(self.kids(p)[k + 1int] as nat))
        } else {
            None
        }
    }

    /// The sibling before the row that `it` names.
    pub closed spec fn previous(&self, it: TreeIter) -> Option<TreeIter> {
        let p = self.parent_slot(it.node());
        let k = self.position(it.node());
        if self.valid_iter(it) && k > 0 {
            Some(self.iter_at(self.kids(p)[k - 1int] as nat))
        } else {
            None
        }
    }

    /// The parent of the row that `it` names; `None` at the top level.
    pub closed spec fn parent_of(&self, it: TreeIter) -> Option<TreeIter> {
        if self.valid_iter(it) && self.parent_slot(it.node()) != 0 {
            Some(self.iter_at(self.parent_slot(it.node())))
        } else {
            None
        }
    }

    /// Textual id of the row that `it` names; empty for a token that names no row.
    pub closed spec fn row_id(&self, it: TreeIter) -> Seq<char> {
        if self.valid_iter(it) {
            self.ids@[it.node() as int]@
        } else {
            seq![]
        }
    }

    /// An empty store with the given columns.
    pub fn new(columns: Vec<ColumnType>, flags: TreeModelFlags) -> (r: TreeStore)
        requires
            columns@.len() <= u32::MAX,
        ensures
            r.wf(),
            r.column_types() == columns@,
            r.flags_spec() == flags,
            r.first() is None,
            r.children_at(Seq::empty()) == 0,
            r.row_count() == 0,
            forall|p: Seq<u32>| r.resolve(p) is None,
    {
        let mut children: Vec<Vec<usize>> = Vec::new();
        children.push(Vec::new());
        let mut parent: Vec<usize> = Vec::new();
        parent.push(0);
        let mut pos: Vec<usize> = Vec::new();
        pos.push(0);
        let mut ids: Vec<String> = Vec::new();
        ids.push(String::new());
        let r = TreeStore { columns, flags, parent, pos, children, ids };
        assert forall|p: Seq<u32>| r.resolve(p) is None by {
            r.lemma_slot_at_root_only(p);
        }
        r
    }

    /// In a store without rows only the empty path leads anywhere.
    proof fn lemma_slot_at_root_only(&self, p: Seq<u32>)
        requires
            self.slots() == 1,
            self.kids(0).len() == 0,
        ensures
            self.slot_at(p) is None || (p.len() == 0 && self.slot_at(p) == Some(0nat)),
        decreases p.len(),
    {
        if p.len() > 0 {
            self.lemma_slot_at_root_only(p.drop_last());
        }
    }
    /// The slot that path `p` leads to, and the path back from it.
    proof fn lemma_slot_at_path(&self, p: Seq<u32>)
        requires
            self.wf(),
        ensures
            self.slot_at(p) matches Some(n) ==> n < self.slots() && self.path_to(n) == p,
        decreases p.len(),
    {
        if p.len() > 0 {
            let q = p.drop_last();
            self.lemma_slot_at_path(q);
            if let Some(m) = self.slot_at(q) {
                if m < self.slots() && p.last() < self.kids(m).len() {
                    let k = p.last() as int;
                    let n = self.kids(m)[k] as nat;
                    assert(0 < n < self.slots());
                    assert(self.parent_slot(n) == m);
                    assert(self.position(n) == k);
                    assert(self.parent_slot(n) < n);
                    assert(q.push(p.last()) == p);
                }
            }
        }
    }

    /// The path to a slot leads back to it.
    proof fn lemma_path_to_slot(&self, n: nat)
        requires
            self.wf(),
            n < self.slots(),
        ensures
            self.slot_at(self.path_to(n)) == Some(n),
        decreases n,
    {
        if n > 0 {
            let up = self.parent_slot(n);
            assert(up < n);
            self.lemma_path_to_slot(up);
            assert(self.kids(up).len() < self.slots());
            let q = self.path_to(up).push(self.position(n) as u32);
            assert(q.drop_last() == self.path_to(up));
        }
    }

    /// Every non-empty path that leads anywhere leads to a row.
    proof fn lemma_slot_at_positive(&self, p: Seq<u32>)
        requires
            self.wf(),
        ensures
            p.len() == 0 ==> self.slot_at(p) == Some(0nat),
            p.len() > 0 ==> (self.slot_at(p) is Some <==> self.resolve(p) is Some),
    {
        self.lemma_slot_at_path(p);
        if p.len() > 0 {
            self.lemma_slot_at_path(p.drop_last());
        }
    }

    /// Resolving a path and asking the row for its path gives the path back.
    pub proof fn lemma_resolve_path_round_trip(&self, p: Seq<u32>)
        requires
            self.wf(),
        ensures
            self.resolve(p) matches Some(it) ==> self.path_of(it) == Some(p),
    {
        self.lemma_slot_at_path(p);
    }

    /// The `k`-th child of a row is the row at the row's path extended by `k`.
    pub proof fn lemma_nth_child_path(&self, it: TreeIter, k: u32)
        requires
            self.wf(),
            self.path_of(it) is Some,
        ensures
            self.nth_child(it, k as int) == self.resolve(self.path_of(it).unwrap().push(k)),
    {
        self.lemma_path_to_slot(it.node());
        let p = self.path_of(it).unwrap();
        assert(p.push(k).drop_last() == p);
    }

    /// A row with `n` children has a `k`-th child exactly for `k` in `[0, n)`.
    pub proof fn lemma_nth_child_exists(&self, it: TreeIter, k: int)
        requires
            self.wf(),
        ensures
            self.nth_child(it, k) is Some <==> 0 <= k < self.child_count(it),
    {
    }

    /// Stepping to the next sibling and back to the previous one returns to
    /// the starting row.
    pub proof fn lemma_next_then_previous(&self, a: TreeIter, b: TreeIter)
        requires
            self.wf(),
            self.next(a) == Some(b),
        ensures
            self.previous(b) == Some(a),
    {
        let p = self.parent_slot(a.node());
        let k = self.position(a.node()) as int;
        assert(self.kids(p)[k] == a.node());
        assert(self.parent_slot(b.node()) == p);
        assert(self.position(b.node()) == k + 1);
    }

    /// Stepping to the previous sibling and back to the next one returns to
    /// the starting row.
    pub proof fn lemma_previous_then_next(&self, a: TreeIter, b: TreeIter)
        requires
            self.wf(),
            self.previous(a) == Some(b),
        ensures
            self.next(b) == Some(a),
    {
        let p = self.parent_slot(a.node());
        let k = self.position(a.node()) as int;
        assert(self.kids(p)[k] == a.node());
        assert(self.parent_slot(b.node()) == p);
        assert(self.position(b.node()) == k - 1);
    }

    /// Whether `it` names a row of this store.
    pub fn is_row(&self, it: &TreeIter) -> (r: bool)
        requires
            self.wf(),
        ensures
            r == self.valid_iter(*it),
    {
        it.node > 0 && it.node < self.parent.len()
    }

    /// The slot at path `p`.
    fn slot_of(&self, p: &TreePath) -> (r: Option<usize>)
        requires
            self.wf(),
        ensures
            r matches Some(n) ==> self.slot_at(p@) == Some(n as nat) && n < self.slots(),
            r is None ==> self.slot_at(p@) is None,
    {
        let ix = p.get_indices();
        let len = ix.len();
        let mut node: usize = 0;
        let mut j: usize = 0;
        while j < len
            invariant
                self.wf(),
                ix@ == p@,
                len == p@.len(),
                j <= len,
                node < self.slots(),
                self.slot_at(p@.take(j as int)) == Some(node as nat),
            decreases len - j,
        {
            assert(p@.take(j + 1).drop_last() == p@.take(j as int));
            assert(p@.take(j + 1).last() == p@[j as int]);
            let k = ix[j];
            if (k as usize) < self.children[node].len() {
                node = self.children[node][k as usize];
                assert(self.kids(node as nat) == self.children@[node as int]@);
            } else {
                proof { self.lemma_slot_at_stays_none(p@, j as int + 1); }
                return None;
            }
            j = j + 1;
        }
        assert(p@.take(len as int) == p@);
        Some(node)
    }

    proof fn lemma_slot_at_stays_none(&self, p: Seq<u32>, j: int)
        requires
            0 <= j <= p.len(),
            self.slot_at(p.take(j)) is None,
        ensures
            self.slot_at(p) is None,
        decreases p.len() - j,
    {
        if j < p.len() {
            assert(p.take(j + 1).drop_last() == p.take(j));
            self.lemma_slot_at_stays_none(p, j + 1);
        } else {
            assert(p.take(j) == p);
        }
    }

    /// Positions from the root down to slot `n`.
    fn path_indices(&self, n: usize) -> (r: Vec<u32>)
        requires
            self.wf(),
            n < self.slots(),
        ensures
            r@ == self.path_to(n as nat),
        decreases n,
    {
        if n == 0 {
            Vec::new()
        } else {
            let up = self.parent[n];
            assert(self.parent_slot(n as nat) < n);
            let mut v = self.path_indices(up);
            let k = self.pos[n];
            assert(self.kids(up as nat).len() < self.slots());
            v.push(k as u32);
            v
        }
    }

    /// Structural properties of the store.
    pub fn get_flags(&self) -> (r: TreeModelFlags)
        ensures
            r == self.flags_spec(),
    {
        self.flags
    }

    /// Number of columns.
    pub fn get_n_columns(&self) -> (r: u32)
        requires
            self.wf(),
        ensures
            r == self.column_types().len(),
    {
        self.columns.len() as u32
    }

    /// Type of column `index`; `None` where `index` is not below the column count.
    pub fn get_column_type(&self, index: u32) -> (r: Option<ColumnType>)
        ensures
            index < self.column_types().len() ==> r == Some(self.column_types()[index as int]),
            index >= self.column_types().len() ==> r is None,
    {
        if (index as usize) < self.columns.len() {
            Some(self.columns[index as usize])
        } else {
            None
        }
    }

    /// The row at `path`.
    pub fn get_iter(&self, path: &TreePath) -> (r: Option<TreeIter>)
        requires
            self.wf(),
        ensures
            r == self.resolve(path@),
    {
        match self.slot_of(path) {
            Some(n) => if n > 0 {
                Some(TreeIter { node: n })
            } else {
                None
            },
            None => None,
        }
    }

    /// The first top-level row.
    pub fn get_iter_first(&self) -> (r: Option<TreeIter>)
        requires
            self.wf(),
        ensures
            r == self.first(),
    {
        if self.children[0].len() > 0 {
            Some(TreeIter { node: self.children[0][0] })
        } else {
            None
        }
    }

    /// The path of the row that `iter` names; `None` for a token that names no row.
    pub fn get_path(&self, iter: &TreeIter) -> (r: Option<TreePath>)
        requires
            self.wf(),
        ensures
            r is None <==> self.path_of(*iter) is None,
            r matches Some(p) ==> self.path_of(*iter) == Some(p@),
    {
        if self.is_row(iter) {
            Some(TreePath::from_indices(self.path_indices(iter.node)))
        } else {
            None
        }
    }

    /// The next sibling.
    pub fn iter_next(&self, iter: &TreeIter) -> (r: Option<TreeIter>)
        requires
            self.wf(),
        ensures
            r == self.next(*iter),
    {
        if !self.is_row(iter) {
            return None;
        }
        let up = self.parent[iter.node];
        let k = self.pos[iter.node];
        assert(self.kids(up as nat).len() < self.slots());
        if k + 1 < self.children[up].len() {
            Some(TreeIter { node: self.children[up][k + 1] })
        } else {
            None
        }
    }

    /// The previous sibling.
    pub fn iter_previous(&self, iter: &TreeIter) -> (r: Option<TreeIter>)
        requires
            self.wf(),
        ensures
            r == self.previous(*iter),
    {
        if !self.is_row(iter) {
            return None;
        }
        let up = self.parent[iter.node];
        let k = self.pos[iter.node];
        if k > 0 {
            Some(TreeIter { node: self.children[up][k - 1] })
        } else {
            None
        }
    }

    /// The first child of `parent`.
    pub fn iter_children(&self, parent: &TreeIter) -> (r: Option<TreeIter>)
        requires
            self.wf(),
        ensures
            r == self.nth_child(*parent, 0),
    {
        self.iter_nth_child(parent, 0)
    }

    /// Whether `iter` has children.
    pub fn iter_has_child(&self, iter: &TreeIter) -> (r: bool)
        requires
            self.wf(),
        ensures
            r == (self.child_count(*iter) > 0),
    {
        self.is_row(iter) && self.children[iter.node].len() > 0
    }

    /// Number of children of `iter`.
    pub fn iter_n_children(&self, iter: &TreeIter) -> (r: u32)
        requires
            self.wf(),
        ensures
            r == self.child_count(*iter),
    {
        if self.is_row(iter) {
            assert(self.kids(iter.node as nat).len() < self.slots());
            self.children[iter.node].len() as u32
        } else {
            0
        }
    }

    /// The `n`-th child of `parent`.
    pub fn iter_nth_child(&self, parent: &TreeIter, n: u32) -> (r: Option<TreeIter>)
        requires
            self.wf(),
        ensures
            r == self.nth_child(*parent, n as int),
    {
        if self.is_row(parent) && (n as usize) < self.children[parent.node].len() {
            Some(TreeIter { node: self.children[parent.node][n as usize] })
        } else {
            None
        }
    }

    /// The parent of `child`; `None` at the top level.
    pub fn iter_parent(&self, child: &TreeIter) -> (r: Option<TreeIter>)
        requires
            self.wf(),
        ensures
            r == self.parent_of(*child),
    {
        if self.is_row(child) && self.parent[child.node] != 0 {
            Some(TreeIter { node: self.parent[child.node] })
        } else {
            None
        }
    }

    /// The textual id of `iter`; empty for a token that names no row.
    pub fn get_string_from_iter(&self, iter: &TreeIter) -> (r: String)
        requires
            self.wf(),
        ensures
            r@ == self.row_id(*iter),
    {
        if self.is_row(iter) {
            self.ids[iter.node].clone()
        } else {
            String::new()
        }
    }
    /// Adds a row with id `id` after the last child of the row at `parent`
    /// (at the top level for the empty path). `None`, with the store
    /// unchanged, where no row is at `parent`, or where the store is a list
    /// and `parent` is not the top level, or where the store holds
    /// `u32::MAX - 1` rows already. Rows already present keep their paths and
    /// tokens.
    pub fn append_row(&mut self, parent: &TreePath, id: String) -> (r: Option<TreeIter>)
        requires
            old(self).wf(),
        ensures
            final(self).wf(),
            r is Some <==> (parent@.len() == 0 || old(self).resolve(parent@) is Some) && (old(
                self,
            ).flags_spec().list_only ==> parent@.len() == 0) && old(self).row_count() + 1 < u32::MAX,
            r is None ==> *final(self) == *old(self),
            r matches Some(it) ==> {
                &&& final(self).row_count() == old(self).row_count() + 1
                &&& final(self).path_of(it) == Some(parent@.push(old(self).children_at(parent@) as u32))
                &&& final(self).resolve(parent@.push(old(self).children_at(parent@) as u32)) == Some(it)
                &&& final(self).children_at(parent@) == old(self).children_at(parent@) + 1
                &&& final(self).children_at(parent@.push(old(self).children_at(parent@) as u32)) == 0
                &&& forall|q: Seq<u32>| #[trigger] old(self).resolve(q) is Some && q != parent@
                    ==> final(self).children_at(q) == old(self).children_at(q)
                &&& forall|x: TreeIter| #[trigger] old(self).path_of(x) is Some ==> final(self).child_count(x)
                    == old(self).child_count(x) + if old(self).path_of(x) == Some(parent@) { 1nat } else { 0nat }
                &&& final(self).child_count(it) == 0
                &&& final(self).row_id(it) == id@
                &&& final(self).column_types() == old(self).column_types()
                &&& final(self).flags_spec() == old(self).flags_spec()
                &&& forall|q: Seq<u32>| #[trigger] old(self).resolve(q) is Some ==> final(self).resolve(q) == old(self).resolve(q)
                &&& forall|x: TreeIter| #[trigger] old(self).path_of(x) is Some ==> final(self).path_of(x) == old(self).path_of(x)
            },
    {
        proof { self.lemma_slot_at_positive(parent@); }
        let pn = match self.slot_of(parent) {
            Some(pn) => pn,
            None => return None,
        };
        if self.flags.list_only && parent.get_depth() > 0 {
            return None;
        }
        if self.parent.len() >= u32::MAX as usize {
            return None;
        }
        proof {
            if self.flags.list_only {
                assert(parent@.len() == 0);
            }
        }
        let ghost prev = *self;
        let n = self.parent.len();
        let k = self.children[pn].len();
        self.parent.push(pn);
        self.pos.push(k);
        self.children.push(Vec::new());
        self.ids.push(id);
        let mut kids: Vec<usize> = Vec::new();
        self.children.set_and_swap(pn, &mut kids);
        kids.push(n);
        self.children.set_and_swap(pn, &mut kids);
        proof {
            assert(self.kids(pn as nat) == prev.kids(pn as nat).push(n));
            assert forall|i: nat| i < prev.slots() && i != pn implies #[trigger] self.kids(i) == prev.kids(i) by {}
            assert(self.kids(n as nat) == Seq::<usize>::empty());
            assert forall|i: nat| i < prev.slots() implies #[trigger] self.parent_slot(i) == prev.parent_slot(i)
                && self.position(i) == prev.position(i) by {}
            assert forall|i: nat| 0 < i < self.slots() implies {
                &&& #[trigger] self.parent_slot(i) < i
                &&& self.position(i) < self.kids(self.parent_slot(i)).len()
                &&& self.kids(self.parent_slot(i))[self.position(i) as int] == i
            } by {
                if i < prev.slots() {
                    assert(prev.parent_slot(i) < i);
                }
            }
            assert forall|i: nat, j: int| i < self.slots() && 0 <= j < self.kids(i).len() implies {
                &&& 0 < #[trigger] self.kids(i)[j] < self.slots()
                &&& self.parent_slot(self.kids(i)[j] as nat) == i
                &&& self.position(self.kids(i)[j] as nat) == j
            } by {
                if i == pn && j == k {
                } else if i < prev.slots() {
                    assert(self.kids(i)[j] == prev.kids(i)[j]);
                    assert(0 < prev.kids(i)[j] < prev.slots());
                }
            }
            assert forall|i: nat| i < self.slots() implies #[trigger] self.kids(i).len() < self.slots() by {
                if i < prev.slots() {
                    assert(prev.kids(i).len() < prev.slots());
                }
            }
            assert(self.wf());
            assert forall|q: Seq<u32>| #[trigger] prev.slot_at(q) is Some implies self.slot_at(q) == prev.slot_at(q) by {
                self.lemma_slot_at_kept(prev, pn as nat, q);
            }
            assert forall|q: Seq<u32>| #[trigger] prev.resolve(q) is Some implies self.resolve(q) == prev.resolve(q) by {
                assert(prev.slot_at(q) is Some);
            }
            assert forall|x: TreeIter| #[trigger] prev.path_of(x) is Some implies self.path_of(x) == prev.path_of(x) by {
                self.lemma_path_to_kept(prev, x.node());
            }
            let pp = parent@.push(k as u32);
            assert(pp.drop_last() == parent@);
            assert(self.slot_at(parent@) == Some(pn as nat));
            assert(self.slot_at(pp) == Some(n as nat));
            self.lemma_slot_at_path(pp);
            assert forall|x: TreeIter| #[trigger] prev.path_of(x) is Some implies self.child_count(x)
                == prev.child_count(x) + if prev.path_of(x) == Some(parent@) { 1nat } else { 0nat } by {
                prev.lemma_path_to_slot(x.node());
                prev.lemma_slot_at_path(parent@);
            }
            assert forall|q: Seq<u32>| #[trigger] prev.resolve(q) is Some && q != parent@
                implies self.children_at(q) == prev.children_at(q) by {
                prev.lemma_slot_at_path(q);
                prev.lemma_slot_at_path(parent@);
                assert(prev.slot_at(q) is Some);
            }
        }
        Some(TreeIter { node: n })
    }

    /// Slots reachable before a row is appended are reached by the same paths after.
    proof fn lemma_slot_at_kept(&self, prev: TreeStore, pn: nat, q: Seq<u32>)
        requires
            prev.wf(),
            pn < prev.slots(),
            self.slots() == prev.slots() + 1,
            forall|i: nat| i < prev.slots() && i != pn ==> #[trigger] self.kids(i) == prev.kids(i),
            prev.kids(pn).is_prefix_of(self.kids(pn)),
            prev.slot_at(q) is Some,
        ensures
            self.slot_at(q) == prev.slot_at(q),
        decreases q.len(),
    {
        if q.len() > 0 {
            self.lemma_slot_at_kept(prev, pn, q.drop_last());
            prev.lemma_slot_at_path(q.drop_last());
            let m = prev.slot_at(q.drop_last()).unwrap();
            if m == pn {
                assert(self.kids(pn)[q.last() as int] == prev.kids(pn)[q.last() as int]);
            }
        }
    }

    /// Slots present before a row is appended keep their paths after.
    proof fn lemma_path_to_kept(&self, prev: TreeStore, n: nat)
        requires
            prev.wf(),
            n < prev.slots(),
            self.slots() == prev.slots() + 1,
            forall|i: nat| i < prev.slots() ==> #[trigger] self.parent_slot(i) == prev.parent_slot(i)
                && self.position(i) == prev.position(i),
        ensures
            self.path_to(n) == prev.path_to(n),
        decreases n,
    {
        if n > 0 {
            assert(self.parent_slot(n) == prev.parent_slot(n));
            assert(prev.parent_slot(n) < n);
            self.lemma_path_to_kept(prev, prev.parent_slot(n));
        }
    }
}

} // verus!
