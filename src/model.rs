//! The model facade: a counted handle on a shared row store, with the
//! navigation queries, the row change announcements and the row pins.

use vstd::prelude::*;
use std::rc::Rc;
use crate::path::{parse, PathParseError, TreePath};
use crate::store::{ColumnType, TreeIter, TreeModelFlags, TreeStore};

verus! {

/// Caller errors that the facade reports instead of forwarding.
#[derive(Clone, Copy, Debug, PartialEq, Eq, Structural)]
pub enum ModelError {
    /// A column index at or beyond the column count.
    IndexOutOfRange,
    /// A reorder announcement whose order is not a permutation of the children.
    InvalidPermutation,
}

/// An announcement to the observers of a model, in the order issued.
#[derive(Clone, Debug)]
pub enum RowSignal {
    /// The row's data changed in place.
    Changed(TreePath, TreeIter),
    /// A new row is at the path.
    Inserted(TreePath, TreeIter),
    /// The row gained its first child or lost its last one.
    HasChildToggled(TreePath, TreeIter),
    /// The row that was at the path is gone.
    Deleted(TreePath),
    /// The row's children were permuted: entry `i` of the order is the former
    /// position of the child now at position `i`.
    Reordered(TreePath, TreeIter, Vec<i32>),
}

/// `order` lists each of `0..n` exactly once.
pub open spec fn is_permutation(order: Seq<i32>, n: nat) -> bool {
    &&& order.len() == n
    &&& forall|i: int| 0 <= i < n ==> 0 <= #[trigger] order[i] < n
    &&& forall|i: int, j: int| 0 <= i < j < n ==> order[i] != order[j]
}

/// A handle on a shared row store. Cloning takes one more hold on the store;
/// dropping a handle releases its hold, and the store goes away with the last
/// one. A released handle cannot be used: it no longer exists.
pub struct TreeModel {
    store: Rc<TreeStore>,
    pins: Vec<u32>,
    signals: Vec<RowSignal>,
}

impl TreeModel {
    #[verifier::type_invariant]
    spec fn inv(&self) -> bool {
        self.store.wf()
    }

    /// The store that this handle holds.
    pub closed spec fn model(&self) -> TreeStore {
        *self.store
    }

    /// Pin count of the row that `it` names.
    pub closed spec fn pin_count(&self, it: TreeIter) -> nat {
        if it.node() < self.pins@.len() {
            self.pins@[it.node() as int] as nat
        } else {
            0
        }
    }

    /// Announcements issued and not yet taken by an observer.
    pub closed spec fn pending(&self) -> Seq<RowSignal> {
        self.signals@
    }

    /// A handle on a new shared hold of `store`.
    pub fn new(store: TreeStore) -> (r: TreeModel)
        requires
            store.wf(),
        ensures
            r.model() == store,
            r.model().wf(),
            r.pending().len() == 0,
            forall|it: TreeIter| r.pin_count(it) == 0,
    {
        TreeModel::wrap_pointer(Rc::new(store))
    }

    /// A handle that takes over the hold `store`.
    pub fn wrap_pointer(store: Rc<TreeStore>) -> (r: TreeModel)
        requires
            store.wf(),
        ensures
            r.model() == *store,
            r.model().wf(),
            r.pending().len() == 0,
            forall|it: TreeIter| r.pin_count(it) == 0,
    {
        TreeModel { store, pins: Vec::new(), signals: Vec::new() }
    }

    /// The hold on the store.
    pub fn get_pointer(&self) -> (r: &Rc<TreeStore>)
        ensures
            **r == self.model(),
    {
        &self.store
    }

    /// Another handle on the same store, with the same pins and pending
    /// announcements; each of the two is released on its own.
    pub fn share(&self) -> (r: TreeModel)
        ensures
            r.model() == self.model(),
            r.model().wf(),
            r.pending().len() == self.pending().len(),
            forall|it: TreeIter| r.pin_count(it) == self.pin_count(it),
    {
        proof { use_type_invariant(self); }
        let store = Rc::clone(&self.store);
        let pins = self.pins.clone();
        assert(pins@ =~= self.pins@);
        TreeModel { store, pins, signals: self.signals.clone() }
    }

    /// Structural properties of the store.
    pub fn get_flags(&self) -> (r: TreeModelFlags)
        ensures
            r == self.model().flags_spec(),
    {
        self.store.get_flags()
    }

    /// Number of columns, whether or not the store has rows.
    pub fn get_n_columns(&self) -> (r: u32)
        ensures
            r == self.model().column_types().len(),
    {
        proof { use_type_invariant(self); }
        self.store.get_n_columns()
    }

    /// Type of column `index`.
    pub fn get_column_type(&self, index: u32) -> (r: Result<ColumnType, ModelError>)
        ensures
            index < self.model().column_types().len() ==> r == Ok::<ColumnType, ModelError>(
                self.model().column_types()[index as int],
            ),
            index >= self.model().column_types().len() ==> r == Err::<ColumnType, ModelError>(
                ModelError::IndexOutOfRange,
            ),
    {
        match self.store.get_column_type(index) {
            Some(t) => Ok(t),
            None => Err(ModelError::IndexOutOfRange),
        }
    }

    /// The row at `path`; `None` where no row is there.
    pub fn get_iter(&self, path: &TreePath) -> (r: Option<TreeIter>)
        ensures
            r == self.model().resolve(path@),
    {
        proof { use_type_invariant(self); }
        self.store.get_iter(path)
    }

    /// The row at the path that `path_string` denotes; `None` where the text
    /// is malformed or no row is there.
    pub fn get_iter_from_string(&self, path_string: &str) -> (r: Option<TreeIter>)
        ensures
            r == (match parse(path_string@) {
                Some(p) => self.model().resolve(p),
                None => None,
            }),
    {
        match TreePath::from_string(path_string) {
            Ok(p) => self.get_iter(&p),
            Err(PathParseError) => None,
        }
    }

    /// The first top-level row; `None` for an empty model.
    pub fn get_iter_first(&self) -> (r: Option<TreeIter>)
        ensures
            r == self.model().first(),
    {
        proof { use_type_invariant(self); }
        self.store.get_iter_first()
    }

    /// The path of the row that `iter` names; `None` for a token that names no row.
    pub fn get_path(&self, iter: &TreeIter) -> (r: Option<TreePath>)
        ensures
            r is None <==> self.model().path_of(*iter) is None,
            r matches Some(p) ==> self.model().path_of(*iter) == Some(p@),
    {
        proof { use_type_invariant(self); }
        self.store.get_path(iter)
    }

    /// The next sibling; `None` after the last one.
    pub fn iter_next(&self, iter: &TreeIter) -> (r: Option<TreeIter>)
        ensures
            r == self.model().next(*iter),
    {
        proof { use_type_invariant(self); }
        self.store.iter_next(iter)
    }

    /// The previous sibling; `None` before the first one.
    pub fn iter_previous(&self, iter: &TreeIter) -> (r: Option<TreeIter>)
        ensures
            r == self.model().previous(*iter),
    {
        proof { use_type_invariant(self); }
        self.store.iter_previous(iter)
    }

    /// The first child of `parent`; `None` for a row without children.
    pub fn iter_children(&self, parent: &TreeIter) -> (r: Option<TreeIter>)
        ensures
            r == self.model().nth_child(*parent, 0),
    {
        proof { use_type_invariant(self); }
        self.store.iter_children(parent)
    }

    /// Whether `iter` has children.
    pub fn iter_has_child(&self, iter: &TreeIter) -> (r: bool)
        ensures
            r == (self.model().child_count(*iter) > 0),
    {
        proof { use_type_invariant(self); }
        self.store.iter_has_child(iter)
    }

    /// Number of children of `iter`; 0 for a leaf.
    pub fn iter_n_children(&self, iter: &TreeIter) -> (r: u32)
        ensures
            r == self.model().child_count(*iter),
    {
        proof { use_type_invariant(self); }
        self.store.iter_n_children(iter)
    }

    /// The `n`-th child of `parent`; `None` where `n` is not below its child count.
    pub fn iter_nth_child(&self, parent: &TreeIter, n: u32) -> (r: Option<TreeIter>)
        ensures
            r == self.model().nth_child(*parent, n as int),
    {
        proof { use_type_invariant(self); }
        self.store.iter_nth_child(parent, n)
    }

    /// The parent of `child`; `None` at the top level.
    pub fn iter_parent(&self, child: &TreeIter) -> (r: Option<TreeIter>)
        ensures
            r == self.model().parent_of(*child),
    {
        proof { use_type_invariant(self); }
        self.store.iter_parent(child)
    }

    /// The textual id of `iter`; empty where the row has none or the token
    /// names no row.
    pub fn get_string_from_iter(&self, iter: &TreeIter) -> (r: String)
        ensures
            r@ == self.model().row_id(*iter),
    {
        proof { use_type_invariant(self); }
        self.store.get_string_from_iter(iter)
    }

    /// Queues `signal` for the observers.
    fn announce(&mut self, signal: RowSignal)
        ensures
            final(self).model() == old(self).model(),
            final(self).pending() == old(self).pending().push(signal),
            forall|it: TreeIter| final(self).pin_count(it) == old(self).pin_count(it),
    {
        proof { use_type_invariant(&*self); }
        let mut signals: Vec<RowSignal> = Vec::new();
        std::mem::swap(&mut signals, &mut self.signals);
        signals.push(signal);
        std::mem::swap(&mut signals, &mut self.signals);
    }

    /// Announces that the data of the row at `path` changed in place.
    pub fn row_changed(&mut self, path: &TreePath, iter: &TreeIter)
        requires
            old(self).model().resolve(path@) == Some(*iter),
        ensures
            final(self).model() == old(self).model(),
            final(self).pending().drop_last() == old(self).pending(),
            final(self).pending().last() matches RowSignal::Changed(p, i) && p@ == path@ && i == *iter,
            forall|it: TreeIter| final(self).pin_count(it) == old(self).pin_count(it),
    {
        self.announce(RowSignal::Changed(path.duplicate(), *iter));
    }

    /// Announces that a new row is at `path`.
    pub fn row_inserted(&mut self, path: &TreePath, iter: &TreeIter)
        requires
            old(self).model().resolve(path@) == Some(*iter),
        ensures
            final(self).model() == old(self).model(),
            final(self).pending().drop_last() == old(self).pending(),
            final(self).pending().last() matches RowSignal::Inserted(p, i) && p@ == path@ && i == *iter,
            forall|it: TreeIter| final(self).pin_count(it) == old(self).pin_count(it),
    {
        self.announce(RowSignal::Inserted(path.duplicate(), *iter));
    }

    /// Announces that the row at `path` gained its first child or lost its last one.
    pub fn row_has_child_toggled(&mut self, path: &TreePath, iter: &TreeIter)
        requires
            old(self).model().resolve(path@) == Some(*iter),
        ensures
            final(self).model() == old(self).model(),
            final(self).pending().drop_last() == old(self).pending(),
            final(self).pending().last() matches RowSignal::HasChildToggled(p, i) && p@ == path@ && i
                == *iter,
            forall|it: TreeIter| final(self).pin_count(it) == old(self).pin_count(it),
    {
        self.announce(RowSignal::HasChildToggled(path.duplicate(), *iter));
    }

    /// Announces that the row that was at `path` is gone.
    pub fn row_deleted(&mut self, path: &TreePath)
        ensures
            final(self).model() == old(self).model(),
            final(self).pending().drop_last() == old(self).pending(),
            final(self).pending().last() matches RowSignal::Deleted(p) && p@ == path@,
            forall|it: TreeIter| final(self).pin_count(it) == old(self).pin_count(it),
    {
        self.announce(RowSignal::Deleted(path.duplicate()));
    }

    /// Announces that the children of the row at `path` were permuted:
    /// `new_order[i]` is the former position of the child now at position `i`.
    /// An order that is not a permutation of the row's children is refused,
    /// and nothing is announced.
    pub fn rows_reordered(&mut self, path: &TreePath, iter: &TreeIter, new_order: &[i32]) -> (r:
        Result<(), ModelError>)
        requires
            old(self).model().resolve(path@) == Some(*iter),
        ensures
            final(self).model() == old(self).model(),
            forall|it: TreeIter| final(self).pin_count(it) == old(self).pin_count(it),
            r is Ok <==> is_permutation(new_order@, old(self).model().child_count(*iter)),
            r is Err ==> r == Err::<(), ModelError>(ModelError::InvalidPermutation)
                && final(self).pending() == old(self).pending(),
            r is Ok ==> final(self).pending().drop_last() == old(self).pending(),
            r is Ok ==> (final(self).pending().last() matches RowSignal::Reordered(p, i, o) && p@
                == path@ && i == *iter && o@ == new_order@),
    {
        proof { use_type_invariant(&*self); }
        let n = self.store.iter_n_children(iter);
        if !check_permutation(new_order, n as usize) {
            return Err(ModelError::InvalidPermutation);
        }
        let order = copy_order(new_order);
        self.announce(RowSignal::Reordered(path.duplicate(), *iter, order));
        Ok(())
    }

    /// Takes the pending announcements, oldest first.
    pub fn take_signals(&mut self) -> (r: Vec<RowSignal>)
        ensures
            r@ == old(self).pending(),
            final(self).pending().len() == 0,
            final(self).model() == old(self).model(),
            forall|it: TreeIter| final(self).pin_count(it) == old(self).pin_count(it),
    {
        proof { use_type_invariant(&*self); }
        let mut signals: Vec<RowSignal> = Vec::new();
        std::mem::swap(&mut signals, &mut self.signals);
        signals
    }

    /// Pins the row that `iter` names once more; a count at `u32::MAX` stays
    /// there. Nothing happens for a token that names no row.
    pub fn ref_node(&mut self, iter: &TreeIter)
        ensures
            final(self).model() == old(self).model(),
            final(self).pending() == old(self).pending(),
            old(self).model().valid_iter(*iter) ==> final(self).pin_count(*iter) == if old(
                self,
            ).pin_count(*iter) < u32::MAX {
                old(self).pin_count(*iter) + 1
            } else {
                old(self).pin_count(*iter)
            },
            !old(self).model().valid_iter(*iter) ==> final(self).pin_count(*iter) == old(
                self,
            ).pin_count(*iter),
            forall|it: TreeIter|
                it.node() != iter.node() ==> final(self).pin_count(it) == old(self).pin_count(it),
    {
        proof { use_type_invariant(&*self); }
        if !self.store.is_row(iter) {
            return;
        }
        let mut pins: Vec<u32> = Vec::new();
        std::mem::swap(&mut pins, &mut self.pins);
        let ghost before = pins@;
        grow_pins(&mut pins, iter.slot());
        let c = pins[iter.slot()];
        if c < u32::MAX {
            pins.set(iter.slot(), c + 1);
        }
        std::mem::swap(&mut pins, &mut self.pins);
        proof {
            assert forall|it: TreeIter| it.node() != iter.node() implies self.pin_count(it) == old(
                self,
            ).pin_count(it) by {
                if it.node() < before.len() {
                    assert(self.pins@[it.node() as int] == before[it.node() as int]);
                }
            }
        }
    }

    /// Pin count of the row that `iter` names.
    pub fn get_pin_count(&self, iter: &TreeIter) -> (r: u32)
        ensures
            r == self.pin_count(*iter),
    {
        if iter.slot() < self.pins.len() {
            self.pins[iter.slot()]
        } else {
            0
        }
    }

    /// Releases one pin of the row that `iter` names; a count at 0 stays there.
    /// Nothing happens for a token that names no row.
    pub fn unref_node(&mut self, iter: &TreeIter)
        ensures
            final(self).model() == old(self).model(),
            final(self).pending() == old(self).pending(),
            final(self).pin_count(*iter) == if old(self).pin_count(*iter) > 0 {
                old(self).pin_count(*iter) - 1
            } else {
                0
            },
            forall|it: TreeIter|
                it.node() != iter.node() ==> final(self).pin_count(it) == old(self).pin_count(it),
    {
        proof { use_type_invariant(&*self); }
        if iter.slot() < self.pins.len() && self.pins[iter.slot()] > 0 {
            let mut pins: Vec<u32> = Vec::new();
            std::mem::swap(&mut pins, &mut self.pins);
            let c = pins[iter.slot()];
            pins.set(iter.slot(), c - 1);
            std::mem::swap(&mut pins, &mut self.pins);
        }
    }
}

/// Extends `pins` with zeros until slot `n` has an entry.
fn grow_pins(pins: &mut Vec<u32>, n: usize)
    ensures
        final(pins)@.len() > n,
        final(pins)@.len() >= old(pins)@.len(),
        forall|i: int| 0 <= i < old(pins)@.len() ==> final(pins)@[i] == old(pins)@[i],
        forall|i: int| old(pins)@.len() <= i < final(pins)@.len() ==> final(pins)@[i] == 0,
{
    while pins.len() <= n
        invariant
            pins@.len() >= old(pins)@.len(),
            forall|i: int| 0 <= i < old(pins)@.len() ==> pins@[i] == old(pins)@[i],
            forall|i: int| old(pins)@.len() <= i < pins@.len() ==> pins@[i] == 0,
        decreases n + 1 - pins@.len(),
    {
        pins.push(0);
    }
}

/// Whether `order` lists each of `0..n` exactly once.
fn check_permutation(order: &[i32], n: usize) -> (r: bool)
    ensures
        r == is_permutation(order@, n as nat),
{
    if order.len() != n {
        return false;
    }
    let mut seen: Vec<bool> = Vec::new();
    while seen.len() < n
        invariant
            seen@.len() <= n,
            forall|v: int| 0 <= v < seen@.len() ==> !seen@[v],
        decreases n - seen@.len(),
    {
        seen.push(false);
    }
    let mut i: usize = 0;
    while i < n
        invariant
            order@.len() == n,
            seen@.len() == n,
            i <= n,
            forall|k: int| 0 <= k < i ==> 0 <= #[trigger] order@[k] < n,
            forall|k: int, j: int| 0 <= k < j < i ==> order@[k] != order@[j],
            forall|v: int| 0 <= v < n ==> (#[trigger] seen@[v] <==> exists|k: int| 0 <= k < i && order@[k] == v),
        decreases n - i,
    {
        let v = order[i];
        if v < 0 || v as usize >= n {
            return false;
        }
        if seen[v as usize] {
            let ghost k = choose|k: int| 0 <= k < i && order@[k] == v;
            assert(order@[k] == order@[i as int]);
            return false;
        }
        seen.set(v as usize, true);
        i = i + 1;
    }
    true
}

/// A copy of `order`.
fn copy_order(order: &[i32]) -> (r: Vec<i32>)
    ensures
        r@ == order@,
{
    let mut r: Vec<i32> = Vec::new();
    let mut i: usize = 0;
    while i < order.len()
        invariant
            i <= order@.len(),
            r@ == order@.take(i as int),
        decreases order@.len() - i,
    {
        r.push(order[i]);
        i = i + 1;
    }
    assert(order@.take(order@.len() as int) == order@);
    r
}

impl Clone for TreeModel {
    /// Another handle on the same store (see [`TreeModel::share`]).
    fn clone(&self) -> (r: Self)
        ensures
            r.model() == self.model(),
            r.model().wf(),
            r.pending().len() == self.pending().len(),
            forall|it: TreeIter| r.pin_count(it) == self.pin_count(it),
    {
        proof { use_type_invariant(self); }
        self.share()
    }
}

} // verus!
