use sf_compact::paths::common_prefix_len;

fn p(parts: &[&str]) -> Vec<String> {
    parts.iter().map(|s| s.to_string()).collect()
}

#[test]
fn common_prefix_of_sibling_directories() {
    let dirs = vec![p(&["/", "home", "proj", "force-app"]), p(&["/", "home", "proj", "other-app"])];
    assert_eq!(common_prefix_len(&dirs), 3);
}

#[test]
fn common_prefix_of_nested_directories() {
    let dirs = vec![p(&["/", "a", "b", "c"]), p(&["/", "a"]), p(&["/", "a", "b"])];
    assert_eq!(common_prefix_len(&dirs), 2);
}

#[test]
fn common_prefix_of_identical_directories() {
    let dirs = vec![p(&["/", "a", "b"]), p(&["/", "a", "b"])];
    assert_eq!(common_prefix_len(&dirs), 3);
}

#[test]
fn common_prefix_of_unrelated_relative_paths() {
    let dirs = vec![p(&["x", "y"]), p(&["z"])];
    assert_eq!(common_prefix_len(&dirs), 0);
}

#[test]
fn common_prefix_of_one_or_no_path() {
    assert_eq!(common_prefix_len(&vec![p(&["/", "a"])]), 2);
    assert_eq!(common_prefix_len(&vec![]), 0);
}
