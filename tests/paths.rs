use treemodel::{PathParseError, TreePath};

fn path(ix: &[u32]) -> TreePath {
    TreePath::from_indices(ix.to_vec())
}

#[test]
fn path_renders_colon_separated() {
    assert_eq!(path(&[2, 0, 13]).to_string(), "2:0:13");
    assert_eq!(path(&[0]).to_string(), "0");
    assert_eq!(path(&[4294967295]).to_string(), "4294967295");
    assert_eq!(TreePath::new().to_string(), "");
}

#[test]
fn path_parses_colon_and_dot_separators() {
    assert_eq!(TreePath::from_string("2:0"), Ok(path(&[2, 0])));
    assert_eq!(TreePath::from_string("1.2.3"), Ok(path(&[1, 2, 3])));
    assert_eq!(TreePath::from_string("007"), Ok(path(&[7])));
    assert_eq!(TreePath::from_string(""), Ok(TreePath::new()));
}

#[test]
fn path_parse_rejects_malformed_text() {
    assert_eq!(TreePath::from_string("1::2"), Err(PathParseError));
    assert_eq!(TreePath::from_string(":1"), Err(PathParseError));
    assert_eq!(TreePath::from_string("1:"), Err(PathParseError));
    assert_eq!(TreePath::from_string("1:a"), Err(PathParseError));
    assert_eq!(TreePath::from_string("-1"), Err(PathParseError));
    assert_eq!(TreePath::from_string("4294967296"), Err(PathParseError));
}

#[test]
fn path_text_round_trip() {
    for ix in [vec![], vec![0], vec![3, 1, 4, 1, 5], vec![10, 200, 4294967295]] {
        let p = TreePath::from_indices(ix);
        assert_eq!(TreePath::from_string(&p.to_string()), Ok(p));
    }
}

#[test]
fn path_equality_is_structural() {
    let mut a = path(&[1]);
    a.append_index(2);
    assert_eq!(a, path(&[1, 2]));
    assert_ne!(a, path(&[1, 3]));
    assert_ne!(a, path(&[1]));
    assert_eq!(a.get_depth(), 2);
    assert_eq!(a.get_indices(), &vec![1, 2]);
    assert_eq!(a.duplicate(), a);
}

#[test]
fn path_order_is_lexicographic() {
    assert!(path(&[1, 2]) < path(&[1, 3]));
    assert!(path(&[1]) < path(&[1, 0]));
    assert!(path(&[2]) > path(&[1, 9, 9]));
    assert!(TreePath::new() < path(&[0]));
    assert_eq!(path(&[4, 5]).partial_cmp(&path(&[4, 5])), Some(std::cmp::Ordering::Equal));
    assert_eq!(path(&[4, 5]).cmp(&path(&[4, 6])), std::cmp::Ordering::Less);
}
