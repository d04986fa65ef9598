use lib::order::{path_le_exec, sort_paths, sort_strings, str_le_exec};
use lib::path::{
    ext_is, extension, file_name, join_path_of, name_is, rel_path_of, strip_tail_of, swap_ext2_of,
};
use std::path::Path;

fn strings(v: &[&str]) -> Vec<String> {
    v.iter().map(|s| s.to_string()).collect()
}

#[test]
fn file_names_like_std() {
    for p in ["/a/b.ts", "a/b/", "a/b/.", "/", "", ".", "..", "a/..", "x", ".hidden", "a//b//"] {
        let expected = Path::new(p).file_name().map(|n| n.to_string_lossy().to_string());
        assert_eq!(file_name(p), expected, "path {:?}", p);
    }
}

#[test]
fn extensions_like_std() {
    for p in ["a.ts", "a.d.ts", ".bashrc", "a.", "dir.x/file", "a/b.tsx", "noext", "..", "a/.b.c"] {
        let expected = Path::new(p).extension().map(|n| n.to_string_lossy().to_string());
        assert_eq!(extension(p), expected, "path {:?}", p);
    }
    assert!(ext_is("/p/a.js", "js"));
    assert!(!ext_is("/p/a.json", "js"));
    assert!(name_is("/p/packages/.registry.json", ".registry.json"));
    assert!(!name_is("/p/registry.json", ".registry.json"));
}

#[test]
fn relative_and_joined_paths() {
    assert_eq!(rel_path_of("/p", "/p/src/a.ts"), "src/a.ts");
    assert_eq!(rel_path_of("/p/", "/p/src/a.ts"), "src/a.ts");
    assert_eq!(rel_path_of("/p", "/q/a.ts"), "/q/a.ts");
    assert_eq!(rel_path_of("/p", "/px/a.ts"), "/px/a.ts");
    assert_eq!(join_path_of("/p", "src"), "/p/src");
    assert_eq!(join_path_of("/p/", "src"), "/p/src");
    assert_eq!(join_path_of("", "a"), "a");
    assert_eq!(strip_tail_of("a/b//"), "a/b");
    assert_eq!(swap_ext2_of("/p/src/app.js", "ts"), "/p/src/app.ts");
    assert_eq!(swap_ext2_of("/p/src/app.js", "tsx"), "/p/src/app.tsx");
}

#[test]
fn string_order() {
    assert!(str_le_exec("abc", "abd"));
    assert!(str_le_exec("ab", "abc"));
    assert!(str_le_exec("", "a"));
    assert!(!str_le_exec("b", "abc"));
    assert!(str_le_exec("Z", "a"));
    assert_eq!(sort_strings(&strings(&["b", "a", "B", "ab"])), strings(&["B", "a", "ab", "b"]));
}

#[test]
fn path_order_by_components() {
    assert!(path_le_exec("a/b", "a.b"));
    assert!(!path_le_exec("a.b", "a/b"));
    assert!(path_le_exec("/p/src/a.ts", "/p/src/b.ts"));
    let sorted = sort_paths(&strings(&["a.b", "a/c", "a/b", "a"]));
    let mut expected: Vec<std::path::PathBuf> =
        ["a.b", "a/c", "a/b", "a"].iter().map(std::path::PathBuf::from).collect();
    expected.sort();
    let expected: Vec<String> = expected.iter().map(|p| p.to_string_lossy().to_string()).collect();
    assert_eq!(sorted, expected);
}
