use treemodel::{ColumnType, ModelError, TreeIter, TreeModel, TreeModelFlags, TreePath, TreeStore};

fn path(ix: &[u32]) -> TreePath {
    TreePath::from_indices(ix.to_vec())
}

fn tree_flags() -> TreeModelFlags {
    TreeModelFlags { iters_persist: true, list_only: false }
}

fn columns() -> Vec<ColumnType> {
    vec![ColumnType::Text, ColumnType::Int, ColumnType::Bool]
}

/// Top level: "a", "b", "c"; "a" has children "a0" and "a1"; "a1" has "a10".
fn sample() -> TreeModel {
    let mut s = TreeStore::new(columns(), tree_flags());
    for (parent, id) in [
        (vec![], "a"),
        (vec![], "b"),
        (vec![], "c"),
        (vec![0], "a0"),
        (vec![0], "a1"),
        (vec![0, 1], "a10"),
    ] {
        assert!(s.append_row(&TreePath::from_indices(parent), id.to_string()).is_some());
    }
    TreeModel::new(s)
}

fn path_of(m: &TreeModel, it: &TreeIter) -> Vec<u32> {
    m.get_path(it).unwrap().get_indices().clone()
}

#[test]
fn empty_model_has_no_first_row_but_its_columns() {
    let m = TreeModel::new(TreeStore::new(columns(), tree_flags()));
    assert!(m.get_iter_first().is_none());
    assert_eq!(m.get_n_columns(), 3);
    assert_eq!(m.get_column_type(1), Ok(ColumnType::Int));
    assert_eq!(m.get_column_type(3), Err(ModelError::IndexOutOfRange));
    assert!(m.get_iter(&path(&[0])).is_none());
    assert!(m.get_iter_from_string("0").is_none());
    assert_eq!(m.get_flags(), tree_flags());
}

#[test]
fn root_with_two_children() {
    let mut s = TreeStore::new(columns(), tree_flags());
    s.append_row(&TreePath::new(), "root".to_string()).unwrap();
    s.append_row(&path(&[0]), "c0".to_string()).unwrap();
    s.append_row(&path(&[0]), "c1".to_string()).unwrap();
    let m = TreeModel::new(s);
    let root = m.get_iter_first().unwrap();
    let c0 = m.iter_children(&root).unwrap();
    assert_eq!(path_of(&m, &c0), vec![0, 0]);
    let c1 = m.iter_nth_child(&root, 1).unwrap();
    assert_eq!(path_of(&m, &c1), vec![0, 1]);
    assert!(m.iter_nth_child(&root, 2).is_none());
    let up = m.iter_parent(&c0).unwrap();
    assert_eq!(path_of(&m, &up), vec![0]);
    assert_eq!(m.get_string_from_iter(&c1), "c1");
}

#[test]
fn resolving_below_a_leaf_gives_none() {
    let m = sample();
    let two = m.get_iter(&path(&[2])).unwrap();
    assert!(!m.iter_has_child(&two));
    assert!(m.get_iter(&path(&[2, 0])).is_none());
    assert!(m.get_iter_from_string("2:0").is_none());
}

#[test]
fn resolve_then_path_round_trip() {
    let m = sample();
    for ix in [vec![0], vec![1], vec![2], vec![0, 0], vec![0, 1], vec![0, 1, 0]] {
        let it = m.get_iter(&TreePath::from_indices(ix.clone())).unwrap();
        assert_eq!(path_of(&m, &it), ix);
    }
    assert!(m.get_iter(&path(&[3])).is_none());
    assert!(m.get_iter(&TreePath::new()).is_none());
}

#[test]
fn iter_from_string_matches_iter_from_path() {
    let m = sample();
    let a = m.get_iter_from_string("0:1:0").unwrap();
    assert_eq!(m.get_string_from_iter(&a), "a10");
    let b = m.get_iter_from_string("0.1").unwrap();
    assert_eq!(m.get_string_from_iter(&b), "a1");
    assert!(m.get_iter_from_string("0:x").is_none());
}

#[test]
fn nth_child_exists_exactly_below_child_count() {
    let m = sample();
    let a = m.get_iter(&path(&[0])).unwrap();
    let n = m.iter_n_children(&a);
    assert_eq!(n, 2);
    for k in 0..n {
        assert!(m.iter_nth_child(&a, k).is_some());
    }
    assert!(m.iter_nth_child(&a, n).is_none());
    assert!(m.iter_nth_child(&a, u32::MAX).is_none());
    let leaf = m.get_iter(&path(&[1])).unwrap();
    assert_eq!(m.iter_n_children(&leaf), 0);
    assert!(m.iter_children(&leaf).is_none());
}

#[test]
fn next_and_previous_are_inverse() {
    let m = sample();
    let mut cur = m.get_iter_first().unwrap();
    let mut seen = vec![m.get_string_from_iter(&cur)];
    while let Some(nx) = m.iter_next(&cur) {
        let back = m.iter_previous(&nx).unwrap();
        assert_eq!(path_of(&m, &back), path_of(&m, &cur));
        seen.push(m.get_string_from_iter(&nx));
        cur = nx;
    }
    assert_eq!(seen, vec!["a", "b", "c"]);
    let first = m.get_iter_first().unwrap();
    assert!(m.iter_previous(&first).is_none());
    let a1 = m.get_iter(&path(&[0, 1])).unwrap();
    assert!(m.iter_next(&a1).is_none());
    let a0 = m.iter_previous(&a1).unwrap();
    assert_eq!(m.get_string_from_iter(&a0), "a0");
}

#[test]
fn parent_is_none_at_top_level() {
    let m = sample();
    let b = m.get_iter(&path(&[1])).unwrap();
    assert!(m.iter_parent(&b).is_none());
    let a10 = m.get_iter(&path(&[0, 1, 0])).unwrap();
    let a1 = m.iter_parent(&a10).unwrap();
    assert_eq!(m.get_string_from_iter(&a1), "a1");
}

#[test]
fn tokens_from_a_larger_store_name_no_row() {
    let big = sample();
    let small = TreeModel::new(TreeStore::new(columns(), tree_flags()));
    let a10 = big.get_iter(&path(&[0, 1, 0])).unwrap();
    assert!(small.get_path(&a10).is_none());
    assert!(small.iter_next(&a10).is_none());
    assert!(small.iter_previous(&a10).is_none());
    assert!(small.iter_parent(&a10).is_none());
    assert!(!small.iter_has_child(&a10));
    assert_eq!(small.iter_n_children(&a10), 0);
    assert_eq!(small.get_string_from_iter(&a10), "");
}

#[test]
fn append_row_refuses_missing_parent_and_nesting_in_a_list() {
    let mut s = TreeStore::new(columns(), tree_flags());
    assert!(s.append_row(&path(&[0]), "x".to_string()).is_none());
    let mut list = TreeStore::new(columns(), TreeModelFlags { iters_persist: true, list_only: true });
    assert!(list.append_row(&TreePath::new(), "r0".to_string()).is_some());
    assert!(list.append_row(&path(&[0]), "nested".to_string()).is_none());
    let it = list.append_row(&TreePath::new(), "r1".to_string()).unwrap();
    assert_eq!(list.get_path(&it).unwrap().get_indices(), &vec![1]);
}

#[test]
fn rows_keep_their_tokens_when_rows_are_added() {
    let mut s = TreeStore::new(columns(), tree_flags());
    let a = s.append_row(&TreePath::new(), "a".to_string()).unwrap();
    s.append_row(&TreePath::new(), "b".to_string()).unwrap();
    s.append_row(&path(&[0]), "a0".to_string()).unwrap();
    assert_eq!(s.get_path(&a).unwrap().get_indices(), &vec![0]);
    assert_eq!(s.get_string_from_iter(&a), "a");
    assert_eq!(s.iter_n_children(&a), 1);
}
