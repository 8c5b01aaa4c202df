use std::rc::Rc;
use treemodel::{ColumnType, ModelError, RowSignal, TreeModel, TreeModelFlags, TreePath, TreeStore};

fn path(ix: &[u32]) -> TreePath {
    TreePath::from_indices(ix.to_vec())
}

/// Top level "p" with three children.
fn sample() -> TreeModel {
    let mut s = TreeStore::new(vec![ColumnType::Text], TreeModelFlags { iters_persist: true, list_only: false });
    s.append_row(&TreePath::new(), "p".to_string()).unwrap();
    for id in ["x", "y", "z"] {
        s.append_row(&path(&[0]), id.to_string()).unwrap();
    }
    TreeModel::new(s)
}

#[test]
fn clone_survives_release_of_original() {
    let m = sample();
    let weak = Rc::downgrade(m.get_pointer());
    assert_eq!(Rc::strong_count(m.get_pointer()), 1);
    let c = m.clone();
    assert_eq!(Rc::strong_count(c.get_pointer()), 2);
    assert!(Rc::ptr_eq(m.get_pointer(), c.get_pointer()));
    drop(m);
    assert_eq!(Rc::strong_count(c.get_pointer()), 1);
    let it = c.get_iter(&path(&[0, 2])).unwrap();
    assert_eq!(c.get_string_from_iter(&it), "z");
    let d = c.share();
    drop(c);
    assert!(weak.upgrade().is_some());
    drop(d);
    assert!(weak.upgrade().is_none());
}

#[test]
fn wrap_pointer_takes_over_a_hold() {
    let store = Rc::new(TreeStore::new(vec![], TreeModelFlags { iters_persist: true, list_only: true }));
    let m = TreeModel::wrap_pointer(Rc::clone(&store));
    assert_eq!(Rc::strong_count(&store), 2);
    assert_eq!(m.get_n_columns(), 0);
    drop(m);
    assert_eq!(Rc::strong_count(&store), 1);
}

#[test]
fn reorder_accepts_a_permutation() {
    let mut m = sample();
    let p = m.get_iter(&path(&[0])).unwrap();
    assert_eq!(m.rows_reordered(&path(&[0]), &p, &[2, 0, 1]), Ok(()));
    let sigs = m.take_signals();
    assert_eq!(sigs.len(), 1);
    match &sigs[0] {
        RowSignal::Reordered(q, _, order) => {
            assert_eq!(q, &path(&[0]));
            assert_eq!(order, &vec![2, 0, 1]);
        }
        other => panic!("unexpected signal {:?}", other),
    }
}

#[test]
fn reorder_rejects_what_is_not_a_permutation() {
    let mut m = sample();
    let p = m.get_iter(&path(&[0])).unwrap();
    for order in [vec![0, 0, 1], vec![0, 1, 3], vec![0, 1], vec![0, 1, 2, 3], vec![-1, 0, 1], vec![]] {
        assert_eq!(m.rows_reordered(&path(&[0]), &p, &order), Err(ModelError::InvalidPermutation));
    }
    assert!(m.take_signals().is_empty());
    let leaf = m.get_iter(&path(&[0, 1])).unwrap();
    assert_eq!(m.rows_reordered(&path(&[0, 1]), &leaf, &[]), Ok(()));
    assert_eq!(m.rows_reordered(&path(&[0, 1]), &leaf, &[0]), Err(ModelError::InvalidPermutation));
}

#[test]
fn announcements_arrive_in_order() {
    let mut m = sample();
    let x = m.get_iter(&path(&[0, 0])).unwrap();
    let p = m.get_iter(&path(&[0])).unwrap();
    m.row_changed(&path(&[0, 0]), &x);
    m.row_inserted(&path(&[0, 0]), &x);
    m.row_has_child_toggled(&path(&[0]), &p);
    m.row_deleted(&path(&[0, 3]));
    let sigs = m.take_signals();
    assert_eq!(sigs.len(), 4);
    assert!(matches!(&sigs[0], RowSignal::Changed(q, _) if *q == path(&[0, 0])));
    assert!(matches!(&sigs[1], RowSignal::Inserted(q, _) if *q == path(&[0, 0])));
    assert!(matches!(&sigs[2], RowSignal::HasChildToggled(q, _) if *q == path(&[0])));
    assert!(matches!(&sigs[3], RowSignal::Deleted(q) if *q == path(&[0, 3])));
    assert!(m.take_signals().is_empty());
}

#[test]
fn pins_count_up_and_not_below_zero() {
    let mut m = sample();
    let x = m.get_iter(&path(&[0, 0])).unwrap();
    let y = m.get_iter(&path(&[0, 1])).unwrap();
    assert_eq!(m.get_pin_count(&x), 0);
    m.ref_node(&x);
    m.ref_node(&x);
    assert_eq!(m.get_pin_count(&x), 2);
    assert_eq!(m.get_pin_count(&y), 0);
    m.unref_node(&x);
    assert_eq!(m.get_pin_count(&x), 1);
    m.unref_node(&y);
    assert_eq!(m.get_pin_count(&y), 0);
    m.unref_node(&x);
    m.unref_node(&x);
    assert_eq!(m.get_pin_count(&x), 0);
    m.ref_node(&y);
    let c = m.clone();
    assert_eq!(c.get_pin_count(&y), 1);
    assert_eq!(c.get_pin_count(&x), 0);
}

#[test]
fn pins_ignore_tokens_that_name_no_row() {
    let big = sample();
    let deep = big.get_iter(&path(&[0, 2])).unwrap();
    let mut small = TreeModel::new(TreeStore::new(vec![], TreeModelFlags { iters_persist: true, list_only: false }));
    small.ref_node(&deep);
    assert_eq!(small.get_pin_count(&deep), 0);
}
