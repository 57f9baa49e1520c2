//! Hashing paths by their components, so that equal paths hash alike.

use core::hash::{Hash, Hasher};
use vstd::prelude::*;

use crate::component::{
    component_views, components, is_separator, lemma_path_names, path_components, Component,
    SpecComponent, DOT, SEPARATOR,
};

verus! {

/// The bytes that stand for a component when it is hashed: `/` for the root,
/// `.` for the current directory, `..` for the parent, and a name itself.
pub open spec fn component_text(c: SpecComponent) -> Seq<u8> {
    match c {
        SpecComponent::RootDir => seq![SEPARATOR],
        SpecComponent::CurDir => seq![DOT],
        SpecComponent::ParentDir => seq![DOT, DOT],
        SpecComponent::Normal(name) => name,
    }
}

/// Feeds `bytes` to `state` through std's `Hash` for byte slices
/// (`<[u8] as core::hash::Hash>::hash`). Nothing is stated of the hasher's
/// state afterwards.
#[verifier::external_body]
fn hash_bytes<H: Hasher>(bytes: &[u8], state: &mut H) {
    bytes.hash(state);
}

const ROOT_TEXT: [u8; 1] = [0x2f];

const CUR_DIR_TEXT: [u8; 1] = [0x2e];

const PARENT_DIR_TEXT: [u8; 2] = [0x2e, 0x2e];

/// The bytes that stand for each component of a path, in order.
pub open spec fn path_texts(p: Seq<u8>) -> Seq<Seq<u8>> {
    path_components(p).map_values(|c: SpecComponent| component_text(c))
}

/// The bytes that stand for each component of `path`, in order: one entry per
/// component, `component_text` of it.
pub fn component_texts<'a>(path: &'a [u8]) -> (r: Vec<&'a [u8]>)
    ensures
        r@.len() == path_texts(path@).len(),
        forall|k: int| 0 <= k < r@.len() ==> #[trigger] r@[k]@ == path_texts(path@)[k],
{
    let comps = components(path);
    let mut out: Vec<&'a [u8]> = Vec::new();
    let mut k: usize = 0;
    while k < comps.len()
        invariant
            k <= comps@.len(),
            out@.len() == k,
            component_views(comps@) == path_components(path@),
            forall|m: int| 0 <= m < k ==> #[trigger] out@[m]@ == path_texts(path@)[m],
        decreases comps@.len() - k,
    {
        let text: &'a [u8] = match comps[k] {
            Component::RootDir => {
                assert(ROOT_TEXT@ =~= seq![SEPARATOR]);
                ROOT_TEXT.as_slice()
            },
            Component::CurDir => {
                assert(CUR_DIR_TEXT@ =~= seq![DOT]);
                CUR_DIR_TEXT.as_slice()
            },
            Component::ParentDir => {
                assert(PARENT_DIR_TEXT@ =~= seq![DOT, DOT]);
                PARENT_DIR_TEXT.as_slice()
            },
            Component::Normal(name) => name,
        };
        out.push(text);
        k = k + 1;
    }
    out
}

/// Feeds the texts of the components of `path` to `state`, one after the
/// other, as `component_texts` gives them. The result records, in order, the
/// byte strings handed to the hasher: exactly `path_texts(path@)`, a function
/// of the components alone, so paths with equal components feed it alike.
pub fn hash_components<H: Hasher>(path: &[u8], state: &mut H) -> (fed: Ghost<Seq<Seq<u8>>>)
    ensures
        fed@ == path_texts(path@),
{
    let texts = component_texts(path);
    let ghost mut log: Seq<Seq<u8>> = seq![];
    let mut k: usize = 0;
    while k < texts.len()
        invariant
            k <= texts@.len(),
            texts@.len() == path_texts(path@).len(),
            forall|m: int| 0 <= m < texts@.len() ==> #[trigger] texts@[m]@ == path_texts(path@)[m],
            log =~= path_texts(path@).take(k as int),
        decreases texts@.len() - k,
    {
        proof {
            log = log.push(texts@[k as int]@);
        }
        hash_bytes(texts[k], state);
        k = k + 1;
        assert(log =~= path_texts(path@).take(k as int));
    }
    assert(path_texts(path@).take(k as int) =~= path_texts(path@));
    Ghost(log)
}

/// Two paths have equal components exactly when the texts that stand for
/// their components are equal, one by one: the texts tell components apart,
/// kinds included.
pub proof fn law_equal_components_equal_texts(a: Seq<u8>, b: Seq<u8>)
    ensures
        path_components(a) == path_components(b) <==> path_texts(a) == path_texts(b),
{
    let (ca, cb) = (path_components(a), path_components(b));
    if path_texts(a) == path_texts(b) {
        lemma_path_names(a);
        lemma_path_names(b);
        assert(ca.len() == path_texts(a).len());
        assert forall|k: int| 0 <= k < ca.len() implies ca[k] == cb[k] by {
            assert(path_texts(a)[k] == component_text(ca[k]));
            assert(path_texts(b)[k] == component_text(cb[k]));
            lemma_text_identifies(ca[k], cb[k]);
        }
        assert(ca =~= cb);
    }
}

/// Components of paths with the same text are the same component.
proof fn lemma_text_identifies(x: SpecComponent, y: SpecComponent)
    requires
        x is Normal ==> crate::component::is_name(x->Normal_0),
        y is Normal ==> crate::component::is_name(y->Normal_0),
        component_text(x) == component_text(y),
    ensures
        x == y,
{
    let (tx, ty) = (component_text(x), component_text(y));
    if x is Normal && !(y is Normal) {
        assert(ty.len() <= 2);
        if y is RootDir {
            assert(is_separator(tx[0]));
        } else if y is CurDir {
            assert(tx =~= seq![DOT]);
        } else {
            assert(tx =~= seq![DOT, DOT]);
        }
    } else if y is Normal && !(x is Normal) {
        if x is RootDir {
            assert(is_separator(ty[0]));
        } else if x is CurDir {
            assert(ty =~= seq![DOT]);
        } else {
            assert(ty =~= seq![DOT, DOT]);
        }
    } else if !(x is Normal) {
        assert(seq![SEPARATOR].len() == 1 && seq![SEPARATOR][0] == SEPARATOR);
        assert(seq![DOT].len() == 1 && seq![DOT][0] == DOT);
        assert(seq![DOT, DOT].len() == 2);
        assert(tx.len() == ty.len());
        assert(tx[0] == ty[0]);
    } else {
        assert(x->Normal_0 == tx);
        assert(y->Normal_0 == ty);
    }
}

} // verus!
