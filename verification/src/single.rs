//! Paths made of exactly one normal component.

use core::cmp::Ordering;
use core::hash::{Hash, Hasher};
use vstd::prelude::*;
use vstd::slice::slice_to_vec;
use vstd::string::StringSliceAdditionalSpecFns;
use vstd::std_specs::cmp::{PartialEqSpec, PartialEqSpecImpl, PartialOrdSpec, PartialOrdSpecImpl};

use crate::hashing::{hash_components, law_equal_components_equal_texts, path_texts};
use crate::order::{
    compare_paths, law_path_order_antisymmetric, law_path_order_equal, law_path_order_prefix,
    law_path_order_transitive, path_order, same_components,
};
use crate::ordering::{sign_ordering, to_ordering};

use crate::component::{
    component_views, components, lemma_without_cur_dir_concat, path_components,
    without_cur_dir, Component,
};

verus! {

/// The path names exactly one file or directory: once its current-directory
/// components are left out, one component remains, and it is a normal one (no
/// root, no parent).
pub open spec fn is_single_component(p: Seq<u8>) -> bool {
    let named = without_cur_dir(path_components(p));
    named.len() == 1 && named[0] is Normal
}

/// Whether `path` names exactly one file or directory.
fn single_component_check(path: &[u8]) -> (r: bool)
    ensures
        r == is_single_component(path@),
{
    let comps = components(path);
    let ghost all = component_views(comps@);
    // whether the first component that is not `.` is a normal one, once seen
    let mut first: Option<bool> = None;
    let mut k: usize = 0;
    while k < comps.len()
        invariant
            k <= comps@.len(),
            all == component_views(comps@),
            all == path_components(path@),
            without_cur_dir(all.take(k as int)).len() <= 1,
            first is None <==> without_cur_dir(all.take(k as int)).len() == 0,
            first matches Some(b) ==> b == (without_cur_dir(all.take(k as int))[0] is Normal),
        decreases comps@.len() - k,
    {
        let ghost w = without_cur_dir(all.take(k as int));
        assert(all.take(k + 1).drop_last() =~= all.take(k as int));
        assert(all.take(k + 1).last() == comps@[k as int]@);
        match comps[k] {
            Component::CurDir => {},
            Component::Normal(_) => {
                if first.is_some() {
                    proof {
                        lemma_without_cur_dir_concat(all.take(k + 1), all.skip(k + 1));
                        assert(all.take(k + 1) + all.skip(k + 1) =~= all);
                    }
                    return false;
                }
                first = Some(true);
            },
            _ => {
                if first.is_some() {
                    proof {
                        lemma_without_cur_dir_concat(all.take(k + 1), all.skip(k + 1));
                        assert(all.take(k + 1) + all.skip(k + 1) =~= all);
                    }
                    return false;
                }
                first = Some(false);
            },
        }
        k = k + 1;
    }
    assert(all.take(k as int) =~= all);
    match first {
        Some(b) => b,
        None => false,
    }
}

/// Paths are read in POSIX syntax (see `crate::component`); do not push
/// their bytes onto a Windows `std::path::PathBuf`.
///
/// An owned path with a single normal component, such as `foo` or `./bar.txt`.
/// A path that has a parent (`..`), a root (`/`) or more than one name
/// (`foo/bar`) is not one, so pushing it onto a directory cannot leave it.
#[derive(Debug)]
pub struct SingleComponentPathBuf {
    path: Vec<u8>,
}

impl SingleComponentPathBuf {
    #[verifier::type_invariant]
    spec fn well_formed(self) -> bool {
        is_single_component(self.path@)
    }

    /// The bytes of the path.
    pub closed spec fn spec_text(self) -> Seq<u8> {
        self.path@
    }

    /// A copy of `component` when it is a single normal component; `None` otherwise. The
    /// path is the UTF-8 bytes of `component`.
    pub fn new(component: &str) -> (r: Option<Self>)
        ensures
            r is Some <==> is_single_component(component.spec_bytes()),
            r matches Some(p) ==> p@ == component.spec_bytes(),
    {
        Self::from_bytes(component.as_bytes())
    }

    /// A copy of `component` when it is a single normal component; `None` otherwise. The
    /// bytes need not be UTF-8.
    pub fn from_bytes(component: &[u8]) -> (r: Option<Self>)
        ensures
            r is Some <==> is_single_component(component@),
            r matches Some(p) ==> p@ == component@,
    {
        if SingleComponentPath::is_valid(component) {
            Some(SingleComponentPathBuf { path: slice_to_vec(component) })
        } else {
            None
        }
    }

    /// The bytes of the path; it is a single normal component.
    pub fn as_bytes(&self) -> (r: &[u8])
        ensures
            r@ == self@,
            is_single_component(r@),
    {
        proof {
            use_type_invariant(self);
        }
        self.path.as_slice()
    }

    /// The borrowed form of the path.
    pub fn as_path(&self) -> (r: SingleComponentPath<'_>)
        ensures
            r@ == self@,
    {
        proof {
            use_type_invariant(self);
        }
        SingleComponentPath { path: self.path.as_slice() }
    }
}

impl View for SingleComponentPathBuf {
    type V = Seq<u8>;

    open spec fn view(&self) -> Seq<u8> {
        self.spec_text()
    }
}

impl Clone for SingleComponentPathBuf {
    fn clone(&self) -> (r: Self)
        ensures
            r@ == self@,
    {
        proof {
            use_type_invariant(self);
        }
        SingleComponentPathBuf { path: slice_to_vec(self.path.as_slice()) }
    }
}

/// A borrowed path with a single normal component, such as `foo` or
/// `./bar.txt`.
#[derive(Clone, Copy, Debug)]
pub struct SingleComponentPath<'a> {
    path: &'a [u8],
}

impl<'a> SingleComponentPath<'a> {
    #[verifier::type_invariant]
    spec fn well_formed(self) -> bool {
        is_single_component(self.path@)
    }

    /// The bytes of the path.
    pub closed spec fn spec_text(self) -> Seq<u8> {
        self.path@
    }

    /// Whether `component` is a single normal component: leaving out its
    /// current-directory components, exactly one remains and it is a name.
    pub fn is_valid(component: &[u8]) -> (r: bool)
        ensures
            r == is_single_component(component@),
    {
        single_component_check(component)
    }

    /// `component` as a checked path when it is a single normal component; `None` otherwise.
    /// The path is the UTF-8 bytes of `component`.
    pub fn new(component: &'a str) -> (r: Option<Self>)
        ensures
            r is Some <==> is_single_component(component.spec_bytes()),
            r matches Some(p) ==> p@ == component.spec_bytes(),
    {
        Self::from_bytes(component.as_bytes())
    }

    /// `component` as a checked path when it is a single normal component; `None` otherwise.
    /// The bytes need not be UTF-8.
    pub fn from_bytes(component: &'a [u8]) -> (r: Option<Self>)
        ensures
            r is Some <==> is_single_component(component@),
            r matches Some(p) ==> p@ == component@,
    {
        if Self::is_valid(component) {
            Some(SingleComponentPath { path: component })
        } else {
            None
        }
    }

    /// The bytes of the path; it is a single normal component.
    pub fn as_bytes(&self) -> (r: &'a [u8])
        ensures
            r@ == self@,
            is_single_component(r@),
    {
        proof {
            use_type_invariant(self);
        }
        self.path
    }

    /// An owned copy of the path.
    pub fn to_path_buf(&self) -> (r: SingleComponentPathBuf)
        ensures
            r@ == self@,
    {
        proof {
            use_type_invariant(self);
        }
        SingleComponentPathBuf { path: slice_to_vec(self.path) }
    }
}

impl<'a> View for SingleComponentPath<'a> {
    type V = Seq<u8>;

    open spec fn view(&self) -> Seq<u8> {
        self.spec_text()
    }
}


impl PartialEq for SingleComponentPathBuf {
    /// Equal when the components are equal, however they are spelled.
    fn eq(&self, other: &Self) -> (r: bool) {
        same_components(self.path.as_slice(), other.path.as_slice())
    }
}

impl PartialEqSpecImpl for SingleComponentPathBuf {
    open spec fn obeys_eq_spec() -> bool {
        true
    }

    open spec fn eq_spec(&self, other: &Self) -> bool {
        path_components(self@) == path_components(other@)
    }
}

impl Eq for SingleComponentPathBuf {}

impl PartialOrd for SingleComponentPathBuf {
    /// Ordered component by component.
    fn partial_cmp(&self, other: &Self) -> (r: Option<Ordering>) {
        Some(to_ordering(compare_paths(self.path.as_slice(), other.path.as_slice())))
    }
}

impl PartialOrdSpecImpl for SingleComponentPathBuf {
    open spec fn obeys_partial_cmp_spec() -> bool {
        true
    }

    open spec fn partial_cmp_spec(&self, other: &Self) -> Option<Ordering> {
        Some(sign_ordering(path_order(self@, other@)))
    }
}

impl Hash for SingleComponentPathBuf {
    /// Hashes the components, so that equal paths hash alike.
    fn hash<H: Hasher>(&self, state: &mut H) {
        let _ = hash_components(self.path.as_slice(), state);
    }
}

impl<'a> PartialEq for SingleComponentPath<'a> {
    /// Equal when the components are equal, however they are spelled.
    fn eq(&self, other: &Self) -> (r: bool) {
        same_components(self.path, other.path)
    }
}

impl<'a> PartialEqSpecImpl for SingleComponentPath<'a> {
    open spec fn obeys_eq_spec() -> bool {
        true
    }

    open spec fn eq_spec(&self, other: &Self) -> bool {
        path_components(self@) == path_components(other@)
    }
}

impl<'a> Eq for SingleComponentPath<'a> {}

impl<'a> PartialOrd for SingleComponentPath<'a> {
    /// Ordered component by component.
    fn partial_cmp(&self, other: &Self) -> (r: Option<Ordering>) {
        Some(to_ordering(compare_paths(self.path, other.path)))
    }
}

impl<'a> PartialOrdSpecImpl for SingleComponentPath<'a> {
    open spec fn obeys_partial_cmp_spec() -> bool {
        true
    }

    open spec fn partial_cmp_spec(&self, other: &Self) -> Option<Ordering> {
        Some(sign_ordering(path_order(self@, other@)))
    }
}

impl<'a> Hash for SingleComponentPath<'a> {
    /// Hashes the components, so that equal paths hash alike.
    fn hash<H: Hasher>(&self, state: &mut H) {
        let _ = hash_components(self.path, state);
    }
}


/// How checked paths of this type compare. They are equal exactly when their
/// components are (`foo/` equals `foo`; names that differ in any byte differ),
/// that is, exactly when they feed a hasher the same byte strings.
/// They are ordered as their components are: the order says equal exactly of
/// equal paths, swapping the two reverses it, it is transitive, and a path
/// whose components are a proper prefix of another's comes first.
pub proof fn law_single_buf_comparison(a: SingleComponentPathBuf, b: SingleComponentPathBuf, c: SingleComponentPathBuf)
    ensures
        PartialEqSpec::eq_spec(&a, &b) <==> path_components(a@) == path_components(b@),
        PartialEqSpec::eq_spec(&a, &b) <==> path_texts(a@) == path_texts(b@),
        PartialOrdSpec::partial_cmp_spec(&a, &b) == Some(sign_ordering(path_order(a@, b@))),
        PartialOrdSpec::partial_cmp_spec(&a, &b) == Some(Ordering::Equal) <==> PartialEqSpec::eq_spec(&a, &b),
        PartialOrdSpec::partial_cmp_spec(&a, &b) == Some(Ordering::Less) <==> PartialOrdSpec::partial_cmp_spec(&b, &a) == Some(
            Ordering::Greater,
        ),
        PartialOrdSpec::partial_cmp_spec(&a, &b) != Some(Ordering::Greater) && PartialOrdSpec::partial_cmp_spec(&b, &c) != Some(
            Ordering::Greater,
        ) ==> PartialOrdSpec::partial_cmp_spec(&a, &c) != Some(Ordering::Greater),
        path_components(a@).len() < path_components(b@).len() && (forall|k: int|
            0 <= k < path_components(a@).len() ==> #[trigger] path_components(a@)[k]
                == path_components(b@)[k]) ==> PartialOrdSpec::partial_cmp_spec(&a, &b) == Some(Ordering::Less),
{
    law_path_order_equal(a@, b@);
    law_equal_components_equal_texts(a@, b@);
    law_path_order_antisymmetric(a@, b@);
    law_path_order_transitive(a@, b@, c@);
    if path_components(a@).len() < path_components(b@).len() && (forall|k: int|
        0 <= k < path_components(a@).len() ==> #[trigger] path_components(a@)[k]
            == path_components(b@)[k]) {
        law_path_order_prefix(a@, b@);
    }
}

/// How checked paths of this type compare. They are equal exactly when their
/// components are (`foo/` equals `foo`; names that differ in any byte differ),
/// that is, exactly when they feed a hasher the same byte strings.
/// They are ordered as their components are: the order says equal exactly of
/// equal paths, swapping the two reverses it, it is transitive, and a path
/// whose components are a proper prefix of another's comes first.
pub proof fn law_single_path_comparison<'a>(a: SingleComponentPath<'a>, b: SingleComponentPath<'a>, c: SingleComponentPath<'a>)
    ensures
        PartialEqSpec::eq_spec(&a, &b) <==> path_components(a@) == path_components(b@),
        PartialEqSpec::eq_spec(&a, &b) <==> path_texts(a@) == path_texts(b@),
        PartialOrdSpec::partial_cmp_spec(&a, &b) == Some(sign_ordering(path_order(a@, b@))),
        PartialOrdSpec::partial_cmp_spec(&a, &b) == Some(Ordering::Equal) <==> PartialEqSpec::eq_spec(&a, &b),
        PartialOrdSpec::partial_cmp_spec(&a, &b) == Some(Ordering::Less) <==> PartialOrdSpec::partial_cmp_spec(&b, &a) == Some(
            Ordering::Greater,
        ),
        PartialOrdSpec::partial_cmp_spec(&a, &b) != Some(Ordering::Greater) && PartialOrdSpec::partial_cmp_spec(&b, &c) != Some(
            Ordering::Greater,
        ) ==> PartialOrdSpec::partial_cmp_spec(&a, &c) != Some(Ordering::Greater),
        path_components(a@).len() < path_components(b@).len() && (forall|k: int|
            0 <= k < path_components(a@).len() ==> #[trigger] path_components(a@)[k]
                == path_components(b@)[k]) ==> PartialOrdSpec::partial_cmp_spec(&a, &b) == Some(Ordering::Less),
{
    law_path_order_equal(a@, b@);
    law_equal_components_equal_texts(a@, b@);
    law_path_order_antisymmetric(a@, b@);
    law_path_order_transitive(a@, b@, c@);
    if path_components(a@).len() < path_components(b@).len() && (forall|k: int|
        0 <= k < path_components(a@).len() ==> #[trigger] path_components(a@)[k]
            == path_components(b@)[k]) {
        law_path_order_prefix(a@, b@);
    }
}

} // verus!
