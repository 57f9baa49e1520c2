use path_ratchet::component::{components, Component};
use path_ratchet::prelude::{
    MultiComponentPath, MultiComponentPathBuf, PushPathComponent, SingleComponentPath,
    SingleComponentPathBuf,
};
use path_ratchet::order::compare_paths;
use path_ratchet::push::{is_absolute, push_path};
use std::cmp::Ordering;
use std::hash::Hasher;
use std::path::PathBuf;

const NON_EXISTING_ABSOLUTE: &str = "/23271d44-a599-4423-bb43-29b89b371ed0";

fn non_existing_absolute() -> Vec<u8> {
    NON_EXISTING_ABSOLUTE.as_bytes().to_vec()
}

/// The path that a buffer of UTF-8 bytes spells.
fn std_path(bytes: Vec<u8>) -> PathBuf {
    PathBuf::from(String::from_utf8(bytes).unwrap())
}

fn assert_single_disallow(path: &str) {
    assert!(SingleComponentPathBuf::new(path).is_none());
}

fn assert_multi_disallow(path: &str) {
    assert!(MultiComponentPathBuf::new(path).is_none());
}

#[test]
fn single_disallow_parent() {
    assert_single_disallow("../file");
}

#[test]
fn multi_disallow_parent() {
    assert_multi_disallow("../file");
    assert_multi_disallow("../folder/file");
}

#[test]
fn single_strip_current_dir() {
    let mut path = non_existing_absolute();
    let mut replica_path = PathBuf::from(NON_EXISTING_ABSOLUTE);

    path.push_component(SingleComponentPath::new("./file/.").unwrap());
    replica_path.push("file");

    assert_eq!(std_path(path), replica_path);
}

#[test]
fn multi_strip_current_dir() {
    let mut path = non_existing_absolute();
    let mut replica_path = PathBuf::from(NON_EXISTING_ABSOLUTE);

    path.push_components(MultiComponentPath::new("./folder/./file/.").unwrap());
    replica_path.push("folder/file");

    assert_eq!(std_path(path), replica_path);
}

#[test]
fn single_buf_examples() {
    assert!(SingleComponentPathBuf::new("foo").is_some());
    assert!(SingleComponentPathBuf::new("bar.txt").is_some());
    assert!(SingleComponentPathBuf::new("./bar.txt").is_some());
    assert!(SingleComponentPathBuf::new("foo/bar.txt").is_none());
    assert!(SingleComponentPathBuf::new("..").is_none());
    assert!(SingleComponentPathBuf::new("/").is_none());
    assert!(SingleComponentPathBuf::new("/etc/shadow").is_none());
}

#[test]
fn single_ref_examples() {
    assert!(SingleComponentPath::new("foo").is_some());
    assert!(SingleComponentPath::new("bar.txt").is_some());
    assert!(SingleComponentPath::new("./bar.txt").is_some());
    assert!(SingleComponentPath::new("foo/bar.txt").is_none());
    assert!(SingleComponentPath::new("..").is_none());
    assert!(SingleComponentPath::new("/").is_none());
    assert!(SingleComponentPath::new("/etc/shadow").is_none());
}

#[test]
fn multi_buf_examples() {
    assert!(MultiComponentPathBuf::new("foo").is_some());
    assert!(MultiComponentPathBuf::new("bar.txt").is_some());
    assert!(MultiComponentPathBuf::new("./bar.txt").is_some());
    assert!(MultiComponentPathBuf::new("foo/bar.txt").is_some());
    assert!(MultiComponentPathBuf::new("..").is_none());
    assert!(MultiComponentPathBuf::new("/").is_none());
    assert!(MultiComponentPathBuf::new("/etc/shadow").is_none());
}

#[test]
fn multi_ref_examples() {
    assert!(MultiComponentPath::new("foo").is_some());
    assert!(MultiComponentPath::new("bar.txt").is_some());
    assert!(MultiComponentPath::new("./bar.txt").is_some());
    assert!(MultiComponentPath::new("foo/bar.txt").is_some());
    assert!(MultiComponentPath::new("..").is_none());
    assert!(MultiComponentPath::new("/").is_none());
    assert!(MultiComponentPath::new("/etc/shadow").is_none());
}

#[test]
fn edge_cases_of_the_checks() {
    assert!(SingleComponentPathBuf::new("").is_none());
    assert!(SingleComponentPathBuf::new(".").is_none());
    assert!(SingleComponentPathBuf::new("./.").is_none());
    assert!(SingleComponentPathBuf::new("foo/").is_some());
    assert!(SingleComponentPathBuf::new("foo//.").is_some());
    assert!(SingleComponentPathBuf::new(".foo").is_some());
    assert!(SingleComponentPathBuf::new("...").is_some());
    assert!(SingleComponentPathBuf::new("a/..").is_none());
    assert!(MultiComponentPathBuf::new("").is_some());
    assert!(MultiComponentPathBuf::new(".").is_some());
    assert!(MultiComponentPathBuf::new("a//b/./c/").is_some());
    assert!(MultiComponentPathBuf::new("a/../b").is_none());
    assert!(MultiComponentPathBuf::new("a/b/..").is_none());
    assert!(MultiComponentPathBuf::new("//a").is_none());
    assert!(MultiComponentPathBuf::new("ä/ö").is_some());
}

#[test]
fn push_component_doc_example() {
    let mut path: Vec<u8> = Vec::new();
    path.push_component(SingleComponentPath::new("foo").unwrap());
    path.push_component(SingleComponentPathBuf::new("bar.txt").unwrap().as_path());
    assert_eq!(path, b"foo/bar.txt");
    assert_eq!(std_path(path), PathBuf::from("foo/bar.txt"));
}

#[test]
fn push_components_doc_example() {
    let mut path: Vec<u8> = Vec::new();
    path.push_components(MultiComponentPath::new("foo/bar.txt").unwrap());
    assert_eq!(std_path(path), PathBuf::from("foo/bar.txt"));
}

#[test]
fn push_replaces_on_absolute_path() {
    let mut filename = b"/tmp".to_vec();
    push_path(&mut filename, b"/etc/shadow");
    assert_eq!(filename, b"/etc/shadow");
    assert!(is_absolute(b"/etc/shadow"));
    assert!(!is_absolute(b"etc/shadow"));
    assert!(!is_absolute(b""));
}

#[test]
fn user_input_cannot_escape() {
    let user_input = "/etc/shadow";
    assert!(SingleComponentPathBuf::new(user_input).is_none());
    assert!(MultiComponentPathBuf::new(user_input).is_none());
}

#[test]
fn push_path_separator_rules() {
    let mut a = b"a".to_vec();
    push_path(&mut a, b"b");
    assert_eq!(a, b"a/b");
    let mut b = b"a/".to_vec();
    push_path(&mut b, b"b");
    assert_eq!(b, b"a/b");
    let mut c: Vec<u8> = Vec::new();
    push_path(&mut c, b"b");
    assert_eq!(c, b"b");
    let mut d = b"a".to_vec();
    push_path(&mut d, b"");
    assert_eq!(d, b"a/");
}

#[test]
fn components_of_examples() {
    assert_eq!(
        components(b"/a//b/./c/"),
        vec![
            Component::RootDir,
            Component::Normal(&b"a"[..]),
            Component::Normal(&b"b"[..]),
            Component::Normal(&b"c"[..])
        ]
    );
    assert_eq!(
        components(b"./a/../b"),
        vec![
            Component::CurDir,
            Component::Normal(&b"a"[..]),
            Component::ParentDir,
            Component::Normal(&b"b"[..])
        ]
    );
    assert_eq!(components(b"."), vec![Component::CurDir]);
    assert_eq!(components(b"a/."), vec![Component::Normal(&b"a"[..])]);
    assert_eq!(components(b"/."), vec![Component::RootDir]);
    assert_eq!(components(b".a"), vec![Component::Normal(&b".a"[..])]);
    assert_eq!(components(b""), vec![]);
}

#[test]
fn accessors_keep_the_text() {
    let buf = SingleComponentPathBuf::new("./x.txt").unwrap();
    assert_eq!(buf.as_bytes(), b"./x.txt");
    assert_eq!(buf.clone().as_bytes(), b"./x.txt");
    assert_eq!(buf.as_path().as_bytes(), b"./x.txt");
    assert_eq!(buf.as_path().to_path_buf().as_bytes(), b"./x.txt");
    let multi = MultiComponentPathBuf::new("a/b").unwrap();
    assert_eq!(multi.as_bytes(), b"a/b");
    assert_eq!(multi.clone().as_bytes(), b"a/b");
    assert_eq!(multi.as_path().as_bytes(), b"a/b");
    assert_eq!(multi.as_path().to_path_buf().as_bytes(), b"a/b");
    assert!(SingleComponentPath::is_valid(b"x"));
    assert!(!SingleComponentPath::is_valid(b"x/y"));
    assert!(MultiComponentPath::is_valid(b"x/y"));
    assert!(!MultiComponentPath::is_valid(b"x/../y"));
}

fn hash_of<T: std::hash::Hash>(value: &T) -> u64 {
    let mut state = std::collections::hash_map::DefaultHasher::new();
    value.hash(&mut state);
    state.finish()
}

#[test]
fn equality_compares_components() {
    assert_eq!(SingleComponentPathBuf::new("foo/").unwrap(), SingleComponentPathBuf::new("foo").unwrap());
    assert_eq!(SingleComponentPath::new("foo//.").unwrap(), SingleComponentPath::new("foo").unwrap());
    assert_ne!(SingleComponentPath::new("./foo").unwrap(), SingleComponentPath::new("foo").unwrap());
    assert_eq!(MultiComponentPathBuf::new("a//b/").unwrap(), MultiComponentPathBuf::new("a/b").unwrap());
    assert_eq!(MultiComponentPath::new("a/./b").unwrap(), MultiComponentPath::new("a/b").unwrap());
    assert_ne!(MultiComponentPath::new("a/b").unwrap(), MultiComponentPath::new("a/c").unwrap());
}

#[test]
fn order_compares_components() {
    let a = MultiComponentPathBuf::new("a").unwrap();
    let ab = MultiComponentPathBuf::new("a/b").unwrap();
    let b = MultiComponentPathBuf::new("b").unwrap();
    let cur = MultiComponentPathBuf::new("./z").unwrap();
    assert!(a < ab);
    assert!(ab < b);
    assert!(cur < a);
    assert_eq!(a.partial_cmp(&MultiComponentPathBuf::new("a/").unwrap()), Some(Ordering::Equal));
    // "a-b" sorts before "a/b" as text, but after it by components
    let dash = MultiComponentPathBuf::new("a-b").unwrap();
    assert!(ab < dash);
}

#[test]
fn hash_follows_components() {
    assert_eq!(
        hash_of(&SingleComponentPathBuf::new("foo/").unwrap()),
        hash_of(&SingleComponentPathBuf::new("foo/.").unwrap())
    );
    assert_eq!(
        hash_of(&MultiComponentPath::new("a//b").unwrap()),
        hash_of(&MultiComponentPath::new("a/b/.").unwrap())
    );
    assert_ne!(
        hash_of(&MultiComponentPath::new("a/b").unwrap()),
        hash_of(&MultiComponentPath::new("ab").unwrap())
    );
}

#[test]
fn paths_need_not_be_utf8() {
    assert!(SingleComponentPathBuf::from_bytes(&[0xff, 0xfe]).is_some());
    assert!(SingleComponentPath::from_bytes(&[0x2e, 0x2f, 0xff]).is_some());
    assert!(SingleComponentPathBuf::from_bytes(&[0xff, 0x2f, 0xfe]).is_none());
    assert!(MultiComponentPathBuf::from_bytes(&[0xff, 0x2f, 0xfe]).is_some());
    assert!(MultiComponentPath::from_bytes(&[0xff, 0x2f, 0x2e, 0x2e]).is_none());
    assert!(MultiComponentPath::from_bytes(&[0x2f, 0xff]).is_none());
    let mut path = b"/srv".to_vec();
    path.push_component(SingleComponentPath::from_bytes(&[0xff]).unwrap());
    assert_eq!(path, vec![0x2f, b's', b'r', b'v', 0x2f, 0xff]);
    assert_eq!(
        components(&path),
        vec![Component::RootDir, Component::Normal(&b"srv"[..]), Component::Normal(&[0xff][..])]
    );
}

#[test]
fn new_reads_utf8_bytes() {
    let text = "\u{e4}/\u{f6}";
    let buf = MultiComponentPathBuf::new(text).unwrap();
    assert_eq!(buf.as_bytes(), text.as_bytes());
    assert!(SingleComponentPathBuf::new("\u{e4}").is_some());
}

#[test]
fn component_texts_tell_components_apart() {
    // law_equal_components_equal_texts
    let texts = path_ratchet::hashing::component_texts(b"/a/./../b/");
    let expected: Vec<&[u8]> = vec![b"/", b"a", b"..", b"b"];
    assert_eq!(texts, expected);
    assert_eq!(path_ratchet::hashing::component_texts(b"./x"), vec![&b"."[..], &b"x"[..]]);
    assert_eq!(
        path_ratchet::hashing::component_texts(b"a//b"),
        path_ratchet::hashing::component_texts(b"a/b/.")
    );
}

#[test]
fn order_laws_on_values() {
    // law_path_order_antisymmetric, law_path_order_transitive

    assert_eq!(compare_paths(b"a/b", b"a-b"), -compare_paths(b"a-b", b"a/b"));
    assert_eq!(compare_paths(b"/x", b"./x"), -1);
    assert_eq!(compare_paths(b"./x", b"../x"), -1);
    assert_eq!(compare_paths(b"../x", b"x"), -1);
    assert_eq!(compare_paths(b"/x", b"x"), -1);
    assert_eq!(compare_paths(b"a//b/", b"a/b"), 0);
    assert_eq!(compare_paths(&[0xff], b"z"), 1);
}
