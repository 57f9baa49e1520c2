//! The component structure and the push agree with `std::path` on short paths.

use path_ratchet::component::{components, Component};
use path_ratchet::prelude::{
    MultiComponentPath, MultiComponentPathBuf, PushPathComponent, SingleComponentPath,
    SingleComponentPathBuf,
};
use path_ratchet::push::push_path;
use std::path::{Component as StdComponent, Path, PathBuf};

/// Every string of length at most `max` over `alphabet`.
fn all_strings(alphabet: &[char], max: usize) -> Vec<String> {
    let mut out = vec![String::new()];
    let mut layer = vec![String::new()];
    for _ in 0..max {
        let mut next = Vec::new();
        for s in &layer {
            for c in alphabet {
                let mut t = s.clone();
                t.push(*c);
                next.push(t);
            }
        }
        out.extend(next.iter().cloned());
        layer = next;
    }
    out
}

fn same_component(ours: &Component, theirs: &StdComponent) -> bool {
    match (ours, theirs) {
        (Component::RootDir, StdComponent::RootDir) => true,
        (Component::CurDir, StdComponent::CurDir) => true,
        (Component::ParentDir, StdComponent::ParentDir) => true,
        (Component::Normal(a), StdComponent::Normal(b)) => b.as_encoded_bytes() == *a,
        _ => false,
    }
}

fn count_components(p: &Path) -> usize {
    p.components().count()
}

#[test]
fn components_agree_with_std() {
    for s in all_strings(&['a', '.', '/'], 7) {
        let ours = components(s.as_bytes());
        let theirs: Vec<StdComponent> = Path::new(&s).components().collect();
        assert_eq!(ours.len(), theirs.len(), "{:?}", s);
        for (o, t) in ours.iter().zip(theirs.iter()) {
            assert!(same_component(o, t), "{:?}: {:?} {:?}", s, o, t);
        }
    }
}

#[test]
fn push_agrees_with_std() {
    let strings = all_strings(&['a', '.', '/'], 4);
    for base in &strings {
        for path in &strings {
            let mut ours = base.as_bytes().to_vec();
            push_path(&mut ours, path.as_bytes());
            let mut theirs = PathBuf::from(base);
            theirs.push(path);
            assert_eq!(&ours[..], theirs.as_os_str().as_encoded_bytes(), "{:?} {:?}", base, path);
        }
    }
}

#[test]
fn single_push_keeps_base_and_adds_one() {
    let base_path = PathBuf::from("/23271d44-a599-4423-bb43-29b89b371ed0");
    let base_components = count_components(&base_path);
    for appending in all_strings(&['a', '.', '/'], 6) {
        let mut path = b"/23271d44-a599-4423-bb43-29b89b371ed0".to_vec();
        match SingleComponentPath::new(&appending) {
            Some(component) => {
                path.push_component(component);
                let path = PathBuf::from(String::from_utf8(path).unwrap());
                assert_eq!(count_components(&path), base_components + 1, "{:?}", appending);
                let head: Vec<_> = path.components().take(base_components).collect();
                let base: Vec<_> = base_path.components().collect();
                assert_eq!(head, base);
                let tail: Vec<_> = path.components().skip(base_components).collect();
                let expected: Vec<_> = Path::new(&appending)
                    .components()
                    .filter(|c| c != &StdComponent::CurDir)
                    .collect();
                assert_eq!(tail, expected);
            },
            None => {
                let named = Path::new(&appending)
                    .components()
                    .filter(|c| c != &StdComponent::CurDir)
                    .collect::<Vec<_>>();
                assert!(
                    named.len() != 1 || !matches!(named[0], StdComponent::Normal(_)),
                    "{:?}",
                    appending
                );
            },
        }
    }
}

#[test]
fn multi_push_keeps_base_and_adds_names() {
    let base_path = PathBuf::from("/23271d44-a599-4423-bb43-29b89b371ed0");
    let base_components = count_components(&base_path);
    for appending in all_strings(&['a', '.', '/'], 6) {
        let mut path = b"/23271d44-a599-4423-bb43-29b89b371ed0".to_vec();
        match MultiComponentPathBuf::new(&appending) {
            Some(component) => {
                path.push_components(component.as_path());
                let path = PathBuf::from(String::from_utf8(path).unwrap());
                let head: Vec<_> = path.components().take(base_components).collect();
                let base: Vec<_> = base_path.components().collect();
                assert_eq!(head, base);
                let tail: Vec<_> = path.components().skip(base_components).collect();
                assert!(tail.iter().all(|c| matches!(c, StdComponent::Normal(_))));
                let expected: Vec<_> = Path::new(&appending)
                    .components()
                    .filter(|c| c != &StdComponent::CurDir)
                    .collect();
                assert_eq!(tail, expected);
            },
            None => {
                assert!(
                    Path::new(&appending)
                        .components()
                        .any(|c| !matches!(c, StdComponent::Normal(_) | StdComponent::CurDir)),
                    "{:?}",
                    appending
                );
            },
        }
    }
}

#[test]
fn single_law_on_values() {
    // law_push_single_component: one name added after the base's components
    let mut path = b"/srv".to_vec();
    path.push_component(SingleComponentPath::new("./data/.").unwrap());
    assert_eq!(
        components(&path),
        vec![Component::RootDir, Component::Normal(&b"srv"[..]), Component::Normal(&b"data"[..])]
    );
    // onto an empty path the component comes out as it is
    let mut empty: Vec<u8> = Vec::new();
    empty.push_component(SingleComponentPath::new("./data").unwrap());
    assert_eq!(empty, b"./data");
}

#[test]
fn multi_law_on_values() {
    // law_push_multi_component: only names added after the base's components
    let mut path = b"srv/".to_vec();
    path.push_components(MultiComponentPath::new("./a//b/.").unwrap());
    assert_eq!(path, b"srv/./a//b/.");
    assert_eq!(
        components(&path),
        vec![Component::Normal(&b"srv"[..]), Component::Normal(&b"a"[..]), Component::Normal(&b"b"[..])]
    );
}

#[test]
fn single_is_multi_on_values() {
    // law_single_is_multi
    for s in all_strings(&['a', '.', '/'], 6) {
        if SingleComponentPathBuf::new(&s).is_some() {
            assert!(MultiComponentPathBuf::new(&s).is_some(), "{:?}", s);
        }
    }
}

#[test]
fn absolute_replaces_on_values() {
    // law_absolute_replaces
    let mut path = b"/srv/www".to_vec();
    push_path(&mut path, b"/etc/passwd");
    assert_eq!(components(&path), components(b"/etc/passwd"));
    assert!(SingleComponentPath::new("/etc").is_none());
    assert!(MultiComponentPath::new("/etc").is_none());
}

#[test]
fn equality_and_order_agree_with_std() {
    let strings: Vec<String> = all_strings(&['a', 'b', '.', '/'], 4)
        .into_iter()
        .filter(|s| MultiComponentPath::new(s).is_some())
        .collect();
    for a in &strings {
        for b in &strings {
            let (pa, pb) = (MultiComponentPath::new(a).unwrap(), MultiComponentPath::new(b).unwrap());
            let expected = Path::new(a).cmp(Path::new(b));
            assert_eq!(pa.partial_cmp(&pb), Some(expected), "{:?} {:?}", a, b);
            assert_eq!(pa == pb, Path::new(a) == Path::new(b), "{:?} {:?}", a, b);
            let (ba, bb) = (pa.to_path_buf(), pb.to_path_buf());
            assert_eq!(ba.partial_cmp(&bb), Some(expected), "{:?} {:?}", a, b);
            assert_eq!(ba == bb, Path::new(a) == Path::new(b), "{:?} {:?}", a, b);
            if let (Some(sa), Some(sb)) = (SingleComponentPath::new(a), SingleComponentPath::new(b)) {
                assert_eq!(sa.partial_cmp(&sb), Some(expected), "{:?} {:?}", a, b);
                assert_eq!(sa == sb, Path::new(a) == Path::new(b));
                let (ta, tb) = (sa.to_path_buf(), sb.to_path_buf());
                assert_eq!(ta.partial_cmp(&tb), Some(expected));
                assert_eq!(ta == tb, Path::new(a) == Path::new(b));
            }
        }
    }
}
