//! Equality and order of paths by their components.
//!
//! Two paths are equal when their components are, whatever separators or `.`
//! spell them (`foo/` and `foo`, `a//b` and `a/b`). They are ordered
//! component by component: the root directory first, then `.`, then `..`,
//! then names, which compare byte by byte. A comparison is `-1`
//! (less), `0` (equal) or `1` (greater).

use vstd::prelude::*;

use crate::component::{components, path_components, Component, SpecComponent};

verus! {

/// Compares two sequences element by element with `order`; a proper prefix
/// comes first.
pub open spec fn lexicographic<A>(
    a: Seq<A>,
    b: Seq<A>,
    order: spec_fn(A, A) -> int,
) -> int
    decreases a.len(),
{
    if a.len() == 0 {
        if b.len() == 0 {
            0
        } else {
            -1
        }
    } else if b.len() == 0 {
        1
    } else {
        let first = order(a[0], b[0]);
        if first == 0 {
            lexicographic(a.drop_first(), b.drop_first(), order)
        } else {
            first
        }
    }
}

/// The order of two bytes.
pub open spec fn byte_order(x: u8, y: u8) -> int {
    if x < y {
        -1
    } else if x == y {
        0
    } else {
        1
    }
}

/// The order of bytes, as a function.
pub open spec fn byte_order_fn() -> spec_fn(u8, u8) -> int {
    |p: u8, q: u8| byte_order(p, q)
}

/// The place of a component's kind: root, `.`, `..`, name.
pub open spec fn kind_rank(c: SpecComponent) -> int {
    match c {
        SpecComponent::RootDir => 0,
        SpecComponent::CurDir => 1,
        SpecComponent::ParentDir => 2,
        SpecComponent::Normal(_) => 3,
    }
}

/// The order of two components: by kind, then names by their bytes.
pub open spec fn component_order(x: SpecComponent, y: SpecComponent) -> int {
    if kind_rank(x) < kind_rank(y) {
        -1
    } else if kind_rank(x) > kind_rank(y) {
        1
    } else {
        match (x, y) {
            (SpecComponent::Normal(m), SpecComponent::Normal(n)) => lexicographic(m, n, byte_order_fn()),
            _ => 0,
        }
    }
}

/// The order of components, as a function.
pub open spec fn component_order_fn() -> spec_fn(SpecComponent, SpecComponent) -> int {
    |x: SpecComponent, y: SpecComponent| component_order(x, y)
}

/// The order of two paths: their components compared one by one.
pub open spec fn path_order(a: Seq<u8>, b: Seq<u8>) -> int {
    lexicographic(path_components(a), path_components(b), component_order_fn())
}

/// Once a common prefix of equal elements is passed, the comparison is that of
/// the rest.
pub proof fn lemma_lexicographic_skip<A>(
    a: Seq<A>,
    b: Seq<A>,
    order: spec_fn(A, A) -> int,
    i: int,
)
    requires
        0 <= i <= a.len(),
        i <= b.len(),
        forall|k: int| 0 <= k < i ==> order(a[k], b[k]) == 0,
    ensures
        lexicographic(a, b, order) == lexicographic(a.skip(i), b.skip(i), order),
    decreases i,
{
    if i > 0 {
        assert(order(a[0], b[0]) == 0);
        let (a1, b1) = (a.drop_first(), b.drop_first());
        assert forall|k: int| 0 <= k < i - 1 implies order(a1[k], b1[k]) == 0 by {
            assert(order(a[k + 1], b[k + 1]) == 0);
        }
        lemma_lexicographic_skip(a1, b1, order, i - 1);
        assert(a1.skip(i - 1) =~= a.skip(i));
        assert(b1.skip(i - 1) =~= b.skip(i));
    } else {
        assert(a.skip(0) =~= a);
        assert(b.skip(0) =~= b);
    }
}

/// When the element order says `Equal` exactly of equal elements, the
/// comparison says `Equal` exactly of equal sequences.
pub proof fn lemma_lexicographic_equal<A>(
    a: Seq<A>,
    b: Seq<A>,
    order: spec_fn(A, A) -> int,
)
    requires
        forall|x: A, y: A| #[trigger] order(x, y) == 0 <==> x == y,
    ensures
        lexicographic(a, b, order) == 0 <==> a == b,
    decreases a.len(),
{
    if a.len() > 0 && b.len() > 0 {
        lemma_lexicographic_equal(a.drop_first(), b.drop_first(), order);
        if a.drop_first() == b.drop_first() && a[0] == b[0] {
            assert forall|k: int| 0 <= k < a.len() implies a[k] == b[k] by {
                if k > 0 {
                    assert(a[k] == a.drop_first()[k - 1]);
                    assert(b[k] == b.drop_first()[k - 1]);
                }
            }
            assert(a =~= b);
        }
        if a == b {
            assert(order(a[0], b[0]) == 0);
        }
    } else if a.len() == 0 && b.len() > 0 {
        assert(a != b);
    } else if a.len() > 0 && b.len() == 0 {
        assert(a != b);
    } else {
        assert(a =~= b);
    }
}

/// Components compare `Equal` exactly when they are equal.
pub proof fn lemma_component_order_equal()
    ensures
        forall|x: SpecComponent, y: SpecComponent|
            #[trigger] component_order(x, y) == 0 <==> x == y,
{
    let ghost f = byte_order_fn();
    assert forall|x: SpecComponent, y: SpecComponent|
        #[trigger] component_order(x, y) == 0 <==> x == y by {
        if let (SpecComponent::Normal(m), SpecComponent::Normal(n)) = (x, y) {
            assert forall|p: u8, q: u8| #[trigger] f(p, q) == 0 <==> p == q by {}
            lemma_lexicographic_equal(m, n, f);
        }
    }
}

/// Paths compare `Equal` exactly when their components are equal.
pub proof fn law_path_order_equal(a: Seq<u8>, b: Seq<u8>)
    ensures
        path_order(a, b) == 0 <==> path_components(a) == path_components(b),
{
    let ghost f = component_order_fn();
    lemma_component_order_equal();
    assert forall|x: SpecComponent, y: SpecComponent|
        #[trigger] f(x, y) == 0 <==> x == y by {}
    lemma_lexicographic_equal(path_components(a), path_components(b), f);
}

/// Swapping the sequences negates the comparison, when it does so for
/// elements.
pub proof fn lemma_lexicographic_antisymmetric<A>(
    a: Seq<A>,
    b: Seq<A>,
    order: spec_fn(A, A) -> int,
)
    requires
        forall|x: A, y: A| #[trigger] order(x, y) == -order(y, x),
    ensures
        lexicographic(a, b, order) == -lexicographic(b, a, order),
    decreases a.len(),
{
    if a.len() > 0 && b.len() > 0 {
        assert(order(a[0], b[0]) == -order(b[0], a[0]));
        lemma_lexicographic_antisymmetric(a.drop_first(), b.drop_first(), order);
    }
}

/// The comparison is transitive when the element order is a total order.
pub proof fn lemma_lexicographic_transitive<A>(
    a: Seq<A>,
    b: Seq<A>,
    c: Seq<A>,
    order: spec_fn(A, A) -> int,
)
    requires
        forall|x: A, y: A| #[trigger] order(x, y) == -order(y, x),
        forall|x: A, y: A| #[trigger] order(x, y) == 0 <==> x == y,
        forall|x: A, y: A, z: A|
            #[trigger] order(x, y) <= 0 && #[trigger] order(y, z) <= 0 ==> #[trigger] order(x, z)
                <= 0,
    ensures
        lexicographic(a, b, order) <= 0 && lexicographic(b, c, order) <= 0 ==> lexicographic(
            a,
            c,
            order,
        ) <= 0,
    decreases a.len(),
{
    if a.len() > 0 && b.len() > 0 && c.len() > 0 {
        let (o1, o2, o3) = (order(a[0], b[0]), order(b[0], c[0]), order(a[0], c[0]));
        if lexicographic(a, b, order) <= 0 && lexicographic(b, c, order) <= 0 {
            assert(o1 <= 0 && o2 <= 0);
            assert(o3 <= 0);
            if o3 == 0 {
                assert(a[0] == c[0]);
                assert(o2 == -order(c[0], b[0]));
                assert(o1 == 0 && o2 == 0);
                lemma_lexicographic_transitive(a.drop_first(), b.drop_first(), c.drop_first(), order);
            }
        }
    }
}

/// The byte order is a total order.
pub proof fn lemma_byte_order_total()
    ensures
        forall|x: u8, y: u8| #[trigger] byte_order_fn()(x, y) == -byte_order_fn()(y, x),
        forall|x: u8, y: u8| #[trigger] byte_order_fn()(x, y) == 0 <==> x == y,
        forall|x: u8, y: u8, z: u8|
            #[trigger] byte_order_fn()(x, y) <= 0 && #[trigger] byte_order_fn()(y, z) <= 0
                ==> #[trigger] byte_order_fn()(x, z) <= 0,
{
}

/// The component order is a total order.
pub proof fn lemma_component_order_total()
    ensures
        forall|x: SpecComponent, y: SpecComponent|
            #[trigger] component_order_fn()(x, y) == -component_order_fn()(y, x),
        forall|x: SpecComponent, y: SpecComponent|
            #[trigger] component_order_fn()(x, y) == 0 <==> x == y,
        forall|x: SpecComponent, y: SpecComponent, z: SpecComponent|
            #[trigger] component_order_fn()(x, y) <= 0 && #[trigger] component_order_fn()(y, z)
                <= 0 ==> #[trigger] component_order_fn()(x, z) <= 0,
{
    let f = byte_order_fn();
    lemma_byte_order_total();
    lemma_component_order_equal();
    assert forall|x: SpecComponent, y: SpecComponent|
        #[trigger] component_order_fn()(x, y) == -component_order_fn()(y, x) by {
        if let (SpecComponent::Normal(m), SpecComponent::Normal(n)) = (x, y) {
            lemma_lexicographic_antisymmetric(m, n, f);
        }
    }
    assert forall|x: SpecComponent, y: SpecComponent, z: SpecComponent|
        #[trigger] component_order_fn()(x, y) <= 0 && #[trigger] component_order_fn()(y, z) <= 0
            implies #[trigger] component_order_fn()(x, z) <= 0 by {
        if let (SpecComponent::Normal(m), SpecComponent::Normal(n), SpecComponent::Normal(o)) = (
            x,
            y,
            z,
        ) {
            lemma_lexicographic_transitive(m, n, o, f);
        }
    }
}

/// Compares two names byte by byte.
fn compare_names(a: &[u8], b: &[u8]) -> (r: i8)
    ensures
        r == lexicographic(a@, b@, byte_order_fn()),
{
    let ghost f = byte_order_fn();
    let x = a;
    let y = b;
    let mut i: usize = 0;
    while i < x.len() && i < y.len()
        invariant
            f == byte_order_fn(),
            x@ == a@,
            y@ == b@,
            i <= x@.len(),
            i <= y@.len(),
            forall|k: int| 0 <= k < i ==> f(x@[k], y@[k]) == 0,
        decreases x@.len() - i,
    {
        if x[i] != y[i] {
            proof {
                lemma_lexicographic_skip(a@, b@, f, i as int);
                assert(a@.skip(i as int)[0] == x@[i as int]);
                assert(b@.skip(i as int)[0] == y@[i as int]);
                assert(f(x@[i as int], y@[i as int]) == byte_order(x@[i as int], y@[i as int]));
            }
            if x[i] < y[i] {
                return -1;
            } else {
                return 1;
            }
        }
        i = i + 1;
    }
    proof {
        lemma_lexicographic_skip(a@, b@, f, i as int);
        assert(a@.skip(i as int).len() == x@.len() - i);
        assert(b@.skip(i as int).len() == y@.len() - i);
    }
    if x.len() == y.len() {
        0
    } else if i == x.len() {
        -1
    } else {
        1
    }
}

/// The place of a component's kind.
fn rank(c: &Component) -> (r: u8)
    ensures
        r == kind_rank(c@),
{
    match c {
        Component::RootDir => 0,
        Component::CurDir => 1,
        Component::ParentDir => 2,
        Component::Normal(_) => 3,
    }
}

/// Compares two components: by kind, then names by their bytes.
fn compare_components(x: &Component, y: &Component) -> (r: i8)
    ensures
        r == component_order(x@, y@),
{
    let (rx, ry) = (rank(x), rank(y));
    if rx < ry {
        -1
    } else if rx > ry {
        1
    } else {
        match (x, y) {
            (Component::Normal(m), Component::Normal(n)) => compare_names(m, n),
            _ => 0,
        }
    }
}

/// Compares two paths component by component.
pub fn compare_paths(a: &[u8], b: &[u8]) -> (r: i8)
    ensures
        r == path_order(a@, b@),
{
    let ghost f = component_order_fn();
    let ca = components(a);
    let cb = components(b);
    let ghost va = path_components(a@);
    let ghost vb = path_components(b@);
    let mut i: usize = 0;
    while i < ca.len() && i < cb.len()
        invariant
            f == component_order_fn(),
            va == path_components(a@),
            vb == path_components(b@),
            va.len() == ca@.len(),
            vb.len() == cb@.len(),
            forall|k: int| 0 <= k < ca@.len() ==> va[k] == #[trigger] ca@[k]@,
            forall|k: int| 0 <= k < cb@.len() ==> vb[k] == #[trigger] cb@[k]@,
            i <= ca@.len(),
            i <= cb@.len(),
            forall|k: int| 0 <= k < i ==> f(va[k], vb[k]) == 0,
        decreases ca@.len() - i,
    {
        let o = compare_components(&ca[i], &cb[i]);
        assert(va[i as int] == ca@[i as int]@);
        assert(vb[i as int] == cb@[i as int]@);
        assert(f(va[i as int], vb[i as int]) == component_order(va[i as int], vb[i as int]));
        match o {
            0 => {},
            _ => {
                proof {
                    lemma_lexicographic_skip(va, vb, f, i as int);
                    assert(va.skip(i as int)[0] == va[i as int]);
                    assert(vb.skip(i as int)[0] == vb[i as int]);
                    assert(f(va[i as int], vb[i as int]) == component_order(va[i as int], vb[i as int]));
                }
                return o;
            },
        }
        i = i + 1;
    }
    proof {
        lemma_lexicographic_skip(va, vb, f, i as int);
        assert(va.skip(i as int).len() == va.len() - i);
        assert(vb.skip(i as int).len() == vb.len() - i);
    }
    if ca.len() == cb.len() {
        0
    } else if i == ca.len() {
        -1
    } else {
        1
    }
}

/// Whether two paths have the same components.
pub fn same_components(a: &[u8], b: &[u8]) -> (r: bool)
    ensures
        r == (path_components(a@) == path_components(b@)),
{
    proof {
        law_path_order_equal(a@, b@);
    }
    match compare_paths(a, b) {
        0 => true,
        _ => false,
    }
}

/// A path whose components are a proper prefix of another's comes first.
pub proof fn law_path_order_prefix(a: Seq<u8>, b: Seq<u8>)
    requires
        path_components(a).len() < path_components(b).len(),
        forall|k: int|
            0 <= k < path_components(a).len() ==> #[trigger] path_components(a)[k]
                == path_components(b)[k],
    ensures
        path_order(a, b) == -1,
{
    let (ca, cb) = (path_components(a), path_components(b));
    let n = ca.len() as int;
    lemma_component_order_total();
    assert forall|k: int| 0 <= k < n implies component_order_fn()(ca[k], cb[k]) == 0 by {
        assert(ca[k] == cb[k]);
    }
    lemma_lexicographic_skip(ca, cb, component_order_fn(), n);
    assert(ca.skip(n).len() == 0);
}

/// The order of paths is antisymmetric: swapping them negates the comparison.
pub proof fn law_path_order_antisymmetric(a: Seq<u8>, b: Seq<u8>)
    ensures
        path_order(a, b) == -path_order(b, a),
{
    lemma_component_order_total();
    lemma_lexicographic_antisymmetric(path_components(a), path_components(b), component_order_fn());
}

/// The order of paths is transitive.
pub proof fn law_path_order_transitive(a: Seq<u8>, b: Seq<u8>, c: Seq<u8>)
    ensures
        path_order(a, b) <= 0 && path_order(b, c) <= 0 ==> path_order(a, c) <= 0,
{
    lemma_component_order_total();
    lemma_lexicographic_transitive(
        path_components(a),
        path_components(b),
        path_components(c),
        component_order_fn(),
    );
}

} // verus!
