//! Relative paths that only go forward: names and `.`, nothing else.

use core::cmp::Ordering;
use core::hash::{Hash, Hasher};
use vstd::prelude::*;
use vstd::slice::slice_to_vec;
use vstd::string::StringSliceAdditionalSpecFns;
use vstd::std_specs::cmp::{PartialEqSpec, PartialEqSpecImpl, PartialOrdSpec, PartialOrdSpecImpl};

use crate::hashing::{hash_components, law_equal_components_equal_texts, path_texts};
use crate::order::{
    compare_paths, law_path_order_antisymmetric, law_path_order_equal, law_path_order_prefix,
    law_path_order_transitive, path_order, same_components,
};
use crate::ordering::{sign_ordering, to_ordering};

use crate::component::{component_views, components, path_components, Component};

verus! {

/// Every component of the path is a name or the current directory: no root,
/// no parent.
pub open spec fn is_multi_component(p: Seq<u8>) -> bool {
    forall|k: int|
        0 <= k < path_components(p).len() ==> (#[trigger] path_components(p)[k] is Normal
            || path_components(p)[k] is CurDir)
}

/// Paths are read in POSIX syntax (see `crate::component`); do not push
/// their bytes onto a Windows `std::path::PathBuf`.
///
/// An owned relative path that only goes forward, such as `foo/bar.txt` or
/// `./foo`. A path with a parent (`..`) or a root (`/`) is not one.
#[derive(Debug)]
pub struct MultiComponentPathBuf {
    path: Vec<u8>,
}

impl MultiComponentPathBuf {
    #[verifier::type_invariant]
    spec fn well_formed(self) -> bool {
        is_multi_component(self.path@)
    }

    /// The bytes of the path.
    pub closed spec fn spec_text(self) -> Seq<u8> {
        self.path@
    }

    /// A copy of `component` when it only goes forward; `None` otherwise. The
    /// path is the UTF-8 bytes of `component`.
    pub fn new(component: &str) -> (r: Option<Self>)
        ensures
            r is Some <==> is_multi_component(component.spec_bytes()),
            r matches Some(p) ==> p@ == component.spec_bytes(),
    {
        Self::from_bytes(component.as_bytes())
    }

    /// A copy of `component` when it only goes forward; `None` otherwise. The
    /// bytes need not be UTF-8.
    pub fn from_bytes(component: &[u8]) -> (r: Option<Self>)
        ensures
            r is Some <==> is_multi_component(component@),
            r matches Some(p) ==> p@ == component@,
    {
        if MultiComponentPath::is_valid(component) {
            Some(MultiComponentPathBuf { path: slice_to_vec(component) })
        } else {
            None
        }
    }

    /// The bytes of the path; it only goes forward.
    pub fn as_bytes(&self) -> (r: &[u8])
        ensures
            r@ == self@,
            is_multi_component(r@),
    {
        proof {
            use_type_invariant(self);
        }
        self.path.as_slice()
    }

    /// The borrowed form of the path.
    pub fn as_path(&self) -> (r: MultiComponentPath<'_>)
        ensures
            r@ == self@,
    {
        proof {
            use_type_invariant(self);
        }
        MultiComponentPath { path: self.path.as_slice() }
    }
}

impl View for MultiComponentPathBuf {
    type V = Seq<u8>;

    open spec fn view(&self) -> Seq<u8> {
        self.spec_text()
    }
}

impl Clone for MultiComponentPathBuf {
    fn clone(&self) -> (r: Self)
        ensures
            r@ == self@,
    {
        proof {
            use_type_invariant(self);
        }
        MultiComponentPathBuf { path: slice_to_vec(self.path.as_slice()) }
    }
}

/// A borrowed relative path that only goes forward, such as `foo/bar.txt`.
#[derive(Clone, Copy, Debug)]
pub struct MultiComponentPath<'p> {
    path: &'p [u8],
}

impl<'p> MultiComponentPath<'p> {
    #[verifier::type_invariant]
    spec fn well_formed(self) -> bool {
        is_multi_component(self.path@)
    }

    /// The bytes of the path.
    pub closed spec fn spec_text(self) -> Seq<u8> {
        self.path@
    }

    /// Whether every component of `component` is a name or the current
    /// directory.
    pub fn is_valid(component: &[u8]) -> (r: bool)
        ensures
            r == is_multi_component(component@),
    {
        let comps = components(component);
        let ghost all = component_views(comps@);
        let mut k: usize = 0;
        while k < comps.len()
            invariant
                k <= comps@.len(),
                all == component_views(comps@),
                all == path_components(component@),
                forall|m: int| 0 <= m < k ==> (#[trigger] all[m] is Normal || all[m] is CurDir),
            decreases comps@.len() - k,
        {
            match comps[k] {
                Component::Normal(_) | Component::CurDir => {},
                _ => {
                    assert(!(all[k as int] is Normal || all[k as int] is CurDir));
                    return false;
                },
            }
            k = k + 1;
        }
        true
    }

    /// `component` as a checked path when it only goes forward; `None` otherwise.
    /// The path is the UTF-8 bytes of `component`.
    pub fn new(component: &'p str) -> (r: Option<Self>)
        ensures
            r is Some <==> is_multi_component(component.spec_bytes()),
            r matches Some(p) ==> p@ == component.spec_bytes(),
    {
        Self::from_bytes(component.as_bytes())
    }

    /// `component` as a checked path when it only goes forward; `None` otherwise.
    /// The bytes need not be UTF-8.
    pub fn from_bytes(component: &'p [u8]) -> (r: Option<Self>)
        ensures
            r is Some <==> is_multi_component(component@),
            r matches Some(p) ==> p@ == component@,
    {
        if Self::is_valid(component) {
            Some(MultiComponentPath { path: component })
        } else {
            None
        }
    }

    /// The bytes of the path; it only goes forward.
    pub fn as_bytes(&self) -> (r: &'p [u8])
        ensures
            r@ == self@,
            is_multi_component(r@),
    {
        proof {
            use_type_invariant(self);
        }
        self.path
    }

    /// An owned copy of the path.
    pub fn to_path_buf(&self) -> (r: MultiComponentPathBuf)
        ensures
            r@ == self@,
    {
        proof {
            use_type_invariant(self);
        }
        MultiComponentPathBuf { path: slice_to_vec(self.path) }
    }
}

impl<'p> View for MultiComponentPath<'p> {
    type V = Seq<u8>;

    open spec fn view(&self) -> Seq<u8> {
        self.spec_text()
    }
}


impl PartialEq for MultiComponentPathBuf {
    /// Equal when the components are equal, however they are spelled.
    fn eq(&self, other: &Self) -> (r: bool) {
        same_components(self.path.as_slice(), other.path.as_slice())
    }
}

impl PartialEqSpecImpl for MultiComponentPathBuf {
    open spec fn obeys_eq_spec() -> bool {
        true
    }

    open spec fn eq_spec(&self, other: &Self) -> bool {
        path_components(self@) == path_components(other@)
    }
}

impl Eq for MultiComponentPathBuf {}

impl PartialOrd for MultiComponentPathBuf {
    /// Ordered component by component.
    fn partial_cmp(&self, other: &Self) -> (r: Option<Ordering>) {
        Some(to_ordering(compare_paths(self.path.as_slice(), other.path.as_slice())))
    }
}

impl PartialOrdSpecImpl for MultiComponentPathBuf {
    open spec fn obeys_partial_cmp_spec() -> bool {
        true
    }

    open spec fn partial_cmp_spec(&self, other: &Self) -> Option<Ordering> {
        Some(sign_ordering(path_order(self@, other@)))
    }
}

impl Hash for MultiComponentPathBuf {
    /// Hashes the components, so that equal paths hash alike.
    fn hash<H: Hasher>(&self, state: &mut H) {
        let _ = hash_components(self.path.as_slice(), state);
    }
}

impl<'a> PartialEq for MultiComponentPath<'a> {
    /// Equal when the components are equal, however they are spelled.
    fn eq(&self, other: &Self) -> (r: bool) {
        same_components(self.path, other.path)
    }
}

impl<'a> PartialEqSpecImpl for MultiComponentPath<'a> {
    open spec fn obeys_eq_spec() -> bool {
        true
    }

    open spec fn eq_spec(&self, other: &Self) -> bool {
        path_components(self@) == path_components(other@)
    }
}

impl<'a> Eq for MultiComponentPath<'a> {}

impl<'a> PartialOrd for MultiComponentPath<'a> {
    /// Ordered component by component.
    fn partial_cmp(&self, other: &Self) -> (r: Option<Ordering>) {
        Some(to_ordering(compare_paths(self.path, other.path)))
    }
}

impl<'a> PartialOrdSpecImpl for MultiComponentPath<'a> {
    open spec fn obeys_partial_cmp_spec() -> bool {
        true
    }

    open spec fn partial_cmp_spec(&self, other: &Self) -> Option<Ordering> {
        Some(sign_ordering(path_order(self@, other@)))
    }
}

impl<'a> Hash for MultiComponentPath<'a> {
    /// Hashes the components, so that equal paths hash alike.
    fn hash<H: Hasher>(&self, state: &mut H) {
        let _ = hash_components(self.path, state);
    }
}


/// How checked paths of this type compare. They are equal exactly when their
/// components are (`foo/` equals `foo`; names that differ in any byte differ),
/// that is, exactly when they feed a hasher the same byte strings.
/// They are ordered as their components are: the order says equal exactly of
/// equal paths, swapping the two reverses it, it is transitive, and a path
/// whose components are a proper prefix of another's comes first.
pub proof fn law_multi_buf_comparison(a: MultiComponentPathBuf, b: MultiComponentPathBuf, c: MultiComponentPathBuf)
    ensures
        PartialEqSpec::eq_spec(&a, &b) <==> path_components(a@) == path_components(b@),
        PartialEqSpec::eq_spec(&a, &b) <==> path_texts(a@) == path_texts(b@),
        PartialOrdSpec::partial_cmp_spec(&a, &b) == Some(sign_ordering(path_order(a@, b@))),
        PartialOrdSpec::partial_cmp_spec(&a, &b) == Some(Ordering::Equal) <==> PartialEqSpec::eq_spec(&a, &b),
        PartialOrdSpec::partial_cmp_spec(&a, &b) == Some(Ordering::Less) <==> PartialOrdSpec::partial_cmp_spec(&b, &a) == Some(
            Ordering::Greater,
        ),
        PartialOrdSpec::partial_cmp_spec(&a, &b) != Some(Ordering::Greater) && PartialOrdSpec::partial_cmp_spec(&b, &c) != Some(
            Ordering::Greater,
        ) ==> PartialOrdSpec::partial_cmp_spec(&a, &c) != Some(Ordering::Greater),
        path_components(a@).len() < path_components(b@).len() && (forall|k: int|
            0 <= k < path_components(a@).len() ==> #[trigger] path_components(a@)[k]
                == path_components(b@)[k]) ==> PartialOrdSpec::partial_cmp_spec(&a, &b) == Some(Ordering::Less),
{
    law_path_order_equal(a@, b@);
    law_equal_components_equal_texts(a@, b@);
    law_path_order_antisymmetric(a@, b@);
    law_path_order_transitive(a@, b@, c@);
    if path_components(a@).len() < path_components(b@).len() && (forall|k: int|
        0 <= k < path_components(a@).len() ==> #[trigger] path_components(a@)[k]
            == path_components(b@)[k]) {
        law_path_order_prefix(a@, b@);
    }
}

/// How checked paths of this type compare. They are equal exactly when their
/// components are (`foo/` equals `foo`; names that differ in any byte differ),
/// that is, exactly when they feed a hasher the same byte strings.
/// They are ordered as their components are: the order says equal exactly of
/// equal paths, swapping the two reverses it, it is transitive, and a path
/// whose components are a proper prefix of another's comes first.
pub proof fn law_multi_path_comparison<'a>(a: MultiComponentPath<'a>, b: MultiComponentPath<'a>, c: MultiComponentPath<'a>)
    ensures
        PartialEqSpec::eq_spec(&a, &b) <==> path_components(a@) == path_components(b@),
        PartialEqSpec::eq_spec(&a, &b) <==> path_texts(a@) == path_texts(b@),
        PartialOrdSpec::partial_cmp_spec(&a, &b) == Some(sign_ordering(path_order(a@, b@))),
        PartialOrdSpec::partial_cmp_spec(&a, &b) == Some(Ordering::Equal) <==> PartialEqSpec::eq_spec(&a, &b),
        PartialOrdSpec::partial_cmp_spec(&a, &b) == Some(Ordering::Less) <==> PartialOrdSpec::partial_cmp_spec(&b, &a) == Some(
            Ordering::Greater,
        ),
        PartialOrdSpec::partial_cmp_spec(&a, &b) != Some(Ordering::Greater) && PartialOrdSpec::partial_cmp_spec(&b, &c) != Some(
            Ordering::Greater,
        ) ==> PartialOrdSpec::partial_cmp_spec(&a, &c) != Some(Ordering::Greater),
        path_components(a@).len() < path_components(b@).len() && (forall|k: int|
            0 <= k < path_components(a@).len() ==> #[trigger] path_components(a@)[k]
                == path_components(b@)[k]) ==> PartialOrdSpec::partial_cmp_spec(&a, &b) == Some(Ordering::Less),
{
    law_path_order_equal(a@, b@);
    law_equal_components_equal_texts(a@, b@);
    law_path_order_antisymmetric(a@, b@);
    law_path_order_transitive(a@, b@, c@);
    if path_components(a@).len() < path_components(b@).len() && (forall|k: int|
        0 <= k < path_components(a@).len() ==> #[trigger] path_components(a@)[k]
            == path_components(b@)[k]) {
        law_path_order_prefix(a@, b@);
    }
}

} // verus!
