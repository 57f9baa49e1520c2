//! Extending a path with another one.

use vstd::prelude::*;
use vstd::slice::slice_to_vec;

use crate::multi::{is_multi_component, MultiComponentPath};
use crate::single::{is_single_component, SingleComponentPath};
use crate::component::{
    body_components, has_root, is_separator, SEPARATOR, lemma_body_concat, lemma_body_split, lemma_relative_components, lemma_without_cur_dir_body,
    lemma_without_cur_dir_concat, path_components, without_cur_dir, SpecComponent,
    starts_with_cur_dir,
};

verus! {

/// The bytes of `base` extended by `path`: an absolute `path` replaces `base`;
/// otherwise a separator is put between them when `base` is non-empty and does
/// not already end with one.
pub open spec fn push_spec(base: Seq<u8>, path: Seq<u8>) -> Seq<u8> {
    if has_root(path) {
        path
    } else if base.len() > 0 && !is_separator(base.last()) {
        base + seq![SEPARATOR] + path
    } else {
        base + path
    }
}

/// Pushing a relative path onto a non-empty path keeps every component of the
/// base, in order, and appends the body of the pushed path.
pub proof fn lemma_push_components(base: Seq<u8>, path: Seq<u8>)
    requires
        base.len() > 0,
        !has_root(path),
    ensures
        path_components(push_spec(base, path)) =~= path_components(base) + body_components(
            path,
        ),
{
    let r = push_spec(base, path);
    let sep = base.len() > 0 && !is_separator(base.last());
    // what follows `base` in `r`
    let tail = if sep {
        seq![SEPARATOR] + path
    } else {
        path
    };
    assert(r =~= base + tail);
    assert(r[0] == base[0]);
    if base.len() == 1 && sep {
        assert(r[1] == '/');
    } else if base.len() > 1 {
        assert(r[1] == base[1]);
    }
    assert(has_root(r) == has_root(base));
    assert(starts_with_cur_dir(r) == starts_with_cur_dir(base));
    // the part of `base` whose body is read
    let a = if has_root(base) || starts_with_cur_dir(base) {
        base.drop_first()
    } else {
        base
    };
    let ra = if has_root(base) || starts_with_cur_dir(base) {
        r.drop_first()
    } else {
        r
    };
    assert(ra =~= a + tail);
    if sep {
        assert(a + tail =~= a + seq![SEPARATOR] + path);
        lemma_body_split(a, path);
    } else {
        if a.len() > 0 {
            assert(a.last() == base.last());
        }
        lemma_body_concat(a, path);
    }
}

/// Whether the path starts at the root directory.
pub fn is_absolute(path: &[u8]) -> (r: bool)
    ensures
        r == has_root(path@),
{
    path.len() > 0 && path[0] == SEPARATOR
}

/// Extends `base` by `path`, as `push_spec` says: an absolute `path` replaces
/// `base`, a relative one is appended after a separator where one is needed.
pub fn push_path(base: &mut Vec<u8>, path: &[u8])
    ensures
        final(base)@ == push_spec(old(base)@, path@),
{
    if is_absolute(path) {
        *base = slice_to_vec(path);
    } else {
        let n = base.len();
        if n > 0 && base[n - 1] != SEPARATOR {
            base.push(SEPARATOR);
        }
        let ghost start = base@;
        let mut i: usize = 0;
        while i < path.len()
            invariant
                i <= path@.len(),
                base@ == start + path@.take(i as int),
            decreases path@.len() - i,
        {
            base.push(path[i]);
            assert(path@.take(i + 1int) =~= path@.take(i as int).push(path@[i as int]));
            i = i + 1;
        }
        assert(path@.take(path@.len() as int) =~= path@);
    }
}

/// Extending a path only by components that cannot leave it.
pub trait PushPathComponent {
    /// The bytes of the path.
    spec fn path_text(&self) -> Seq<u8>;

    /// Extends the path by one normal component (and whatever `.` it carries).
    fn push_component(&mut self, component: SingleComponentPath<'_>)
        ensures
            final(self).path_text() == push_spec(old(self).path_text(), component@),
    ;

    /// Extends the path by a relative path that only goes forward.
    fn push_components(&mut self, component: MultiComponentPath<'_>)
        ensures
            final(self).path_text() == push_spec(old(self).path_text(), component@),
    ;
}

/// A path held as its bytes, as a `std::path::PathBuf` holds it on Unix.
impl PushPathComponent for Vec<u8> {
    open spec fn path_text(&self) -> Seq<u8> {
        self@
    }

    fn push_component(&mut self, component: SingleComponentPath<'_>)
        ensures
            old(self)@.len() > 0 ==> path_components(final(self)@) == path_components(old(self)@)
                + without_cur_dir(path_components(component@)),
            old(self)@.len() == 0 ==> final(self)@ == component@,
    {
        let text = component.as_bytes();
        proof {
            lemma_single_relative(text@);
            if self@.len() > 0 {
                lemma_push_components(self@, text@);
                lemma_relative_components(text@);
            }
        }
        push_path(self, text);
    }

    fn push_components(&mut self, component: MultiComponentPath<'_>)
        ensures
            old(self)@.len() > 0 ==> path_components(final(self)@) == path_components(old(self)@)
                + without_cur_dir(path_components(component@)),
            old(self)@.len() == 0 ==> final(self)@ == component@,
    {
        let text = component.as_bytes();
        proof {
            lemma_multi_relative(text@);
            if self@.len() > 0 {
                lemma_push_components(self@, text@);
                lemma_relative_components(text@);
            }
        }
        push_path(self, text);
    }
}

/// A single-component path is relative.
pub proof fn lemma_single_relative(p: Seq<u8>)
    requires
        is_single_component(p),
    ensures
        !has_root(p),
{
    if has_root(p) {
        let head = seq![SpecComponent::RootDir];
        lemma_without_cur_dir_concat(head, body_components(p.drop_first()));
        lemma_without_cur_dir_body(p.drop_first());
        assert(head.drop_last() =~= seq![]);
        assert(without_cur_dir(head) =~= head);
        assert(without_cur_dir(path_components(p))[0] is RootDir);
    }
}

/// A forward-only path is relative.
pub proof fn lemma_multi_relative(p: Seq<u8>)
    requires
        is_multi_component(p),
    ensures
        !has_root(p),
{
    if has_root(p) {
        assert(path_components(p)[0] is RootDir);
    }
}

} // verus!
