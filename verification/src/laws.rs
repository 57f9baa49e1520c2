//! What holds of every checked path and of every push.

use vstd::prelude::*;

use crate::component::{
    body_components, has_root, lemma_body_cur_dir_head, lemma_body_only_parent_or_normal,
    lemma_body_split, lemma_relative_components, lemma_sep_index_at, path_components,
    starts_with_cur_dir, without_cur_dir, SpecComponent, DOT, SEPARATOR,
};
use crate::multi::is_multi_component;
use crate::order::{
    byte_order_fn, lemma_component_order_equal, lemma_lexicographic_skip, path_order,
};
use crate::push::{lemma_multi_relative, lemma_push_components, lemma_single_relative, push_spec};
use crate::single::is_single_component;

verus! {

/// Pushing a single-component path onto a non-empty path keeps every component
/// of the base, in order, and adds exactly one normal component after them;
/// pushing it onto an empty path gives the component itself.
pub proof fn law_push_single_component(base: Seq<u8>, component: Seq<u8>)
    requires
        is_single_component(component),
    ensures
        base.len() > 0 ==> {
            let added = without_cur_dir(path_components(component));
            &&& added.len() == 1
            &&& added[0] is Normal
            &&& path_components(push_spec(base, component)) == path_components(base) + added
        },
        base.len() == 0 ==> push_spec(base, component) == component,
{
    lemma_single_relative(component);
    if base.len() > 0 {
        lemma_push_components(base, component);
        lemma_relative_components(component);
    } else {
        assert(base + component =~= component);
    }
}

/// Pushing a forward-only path onto a non-empty path keeps every component of
/// the base, in order, and adds only normal components after them; pushing it
/// onto an empty path gives the pushed path itself.
pub proof fn law_push_multi_component(base: Seq<u8>, component: Seq<u8>)
    requires
        is_multi_component(component),
    ensures
        base.len() > 0 ==> {
            let added = without_cur_dir(path_components(component));
            &&& forall|k: int| 0 <= k < added.len() ==> #[trigger] added[k] is Normal
            &&& path_components(push_spec(base, component)) == path_components(base) + added
        },
        base.len() == 0 ==> push_spec(base, component) == component,
{
    lemma_multi_relative(component);
    if base.len() > 0 {
        lemma_push_components(base, component);
        lemma_relative_components(component);
        let added = body_components(component);
        lemma_body_only_parent_or_normal(component);
        assert forall|k: int| 0 <= k < added.len() implies #[trigger] added[k] is Normal by {
            if starts_with_cur_dir(component) {
                lemma_body_cur_dir_head(component);
                assert(path_components(component)[k + 1] == added[k]);
            } else {
                assert(path_components(component)[k] == added[k]);
            }
        }
    } else {
        assert(base + component =~= component);
    }
}

/// Every single-component path is a forward-only path.
pub proof fn law_single_is_multi(p: Seq<u8>)
    requires
        is_single_component(p),
    ensures
        is_multi_component(p),
{
    lemma_single_relative(p);
    lemma_relative_components(p);
    lemma_body_only_parent_or_normal(p);
    let body = body_components(p);
    assert(body.len() == 1 && body[0] is Normal);
    assert forall|k: int| 0 <= k < path_components(p).len() implies (
    #[trigger] path_components(p)[k] is Normal || path_components(p)[k] is CurDir) by {
        if starts_with_cur_dir(p) {
            lemma_body_cur_dir_head(p);
            if k > 0 {
                assert(path_components(p)[k] == body[k - 1]);
            }
        } else {
            assert(path_components(p)[k] == body[k]);
        }
    }
}

/// For a relative path pushed onto a non-empty path, the check of a single
/// component accepts exactly the paths whose push adds one normal component
/// and keeps the base.
pub proof fn law_single_exactly_one_added(base: Seq<u8>, component: Seq<u8>)
    requires
        base.len() > 0,
        !has_root(component),
    ensures
        is_single_component(component) <==> exists|name: Seq<u8>|
            path_components(push_spec(base, component)) == #[trigger] path_components(base).push(
                SpecComponent::Normal(name),
            ),
{
    lemma_push_components(base, component);
    lemma_relative_components(component);
    let pb = path_components(base);
    let body = body_components(component);
    if is_single_component(component) {
        let name = body[0]->Normal_0;
        assert(pb + body =~= pb.push(SpecComponent::Normal(name)));
    }
    if exists|name: Seq<u8>|
        path_components(push_spec(base, component)) == #[trigger] pb.push(
            SpecComponent::Normal(name),
        ) {
        let name = choose|name: Seq<u8>|
            path_components(push_spec(base, component)) == #[trigger] pb.push(
                SpecComponent::Normal(name),
            );
        let both = pb + body;
        assert(both == pb.push(SpecComponent::Normal(name)));
        assert(both.skip(pb.len() as int) =~= body);
        assert(pb.push(SpecComponent::Normal(name)).skip(pb.len() as int) =~= seq![
            SpecComponent::Normal(name),
        ]);
    }
}

/// For a relative path pushed onto a non-empty path, the check of a
/// forward-only path accepts exactly the paths whose push keeps the base and
/// adds only normal components.
pub proof fn law_multi_only_names_added(base: Seq<u8>, component: Seq<u8>)
    requires
        base.len() > 0,
        !has_root(component),
    ensures
        is_multi_component(component) <==> exists|added: Seq<SpecComponent>|
            path_components(push_spec(base, component)) == path_components(base) + added
                && forall|k: int| 0 <= k < added.len() ==> #[trigger] added[k] is Normal,
{
    lemma_push_components(base, component);
    lemma_relative_components(component);
    lemma_body_only_parent_or_normal(component);
    let pb = path_components(base);
    let body = body_components(component);
    if is_multi_component(component) {
        law_push_multi_component(base, component);
    }
    if exists|added: Seq<SpecComponent>|
        path_components(push_spec(base, component)) == pb + added && forall|k: int|
            0 <= k < added.len() ==> #[trigger] added[k] is Normal {
        let added = choose|added: Seq<SpecComponent>|
            path_components(push_spec(base, component)) == pb + added && forall|k: int|
                0 <= k < added.len() ==> #[trigger] added[k] is Normal;
        assert((pb + body).skip(pb.len() as int) =~= body);
        assert((pb + added).skip(pb.len() as int) =~= added);
        assert(body =~= added);
        assert forall|k: int| 0 <= k < path_components(component).len() implies (
        #[trigger] path_components(component)[k] is Normal
            || path_components(component)[k] is CurDir) by {
            if starts_with_cur_dir(component) {
                lemma_body_cur_dir_head(component);
                if k > 0 {
                    assert(path_components(component)[k] == body[k - 1]);
                }
            } else {
                assert(path_components(component)[k] == body[k]);
            }
        }
    }
}

/// Pushing an absolute path throws the base away: the result has exactly the
/// components of the pushed path. Neither kind of checked path is absolute.
pub proof fn law_absolute_replaces(base: Seq<u8>, path: Seq<u8>)
    requires
        has_root(path),
    ensures
        path_components(push_spec(base, path)) == path_components(path),
        !is_single_component(path),
        !is_multi_component(path),
{
    if is_single_component(path) {
        lemma_single_relative(path);
    }
    if is_multi_component(path) {
        lemma_multi_relative(path);
    }
}

/// The segments joined by separators: `a`, `b`, `c` gives `a/b/c`.
pub open spec fn join_segments(segs: Seq<Seq<u8>>) -> Seq<u8>
    decreases segs.len(),
{
    if segs.len() == 0 {
        seq![]
    } else if segs.len() == 1 {
        segs[0]
    } else {
        segs[0] + seq![SEPARATOR] + join_segments(segs.drop_first())
    }
}

/// The component that a segment which is neither empty, `.`, nor holds a
/// separator stands for: `..` is the parent, anything else the name it spells.
pub open spec fn segment_meaning(seg: Seq<u8>) -> SpecComponent {
    if seg == seq![DOT, DOT] {
        SpecComponent::ParentDir
    } else {
        SpecComponent::Normal(seg)
    }
}

/// A joined path opens with its first segment, so it has no root and no
/// leading `.`.
proof fn lemma_join_plain_start(segs: Seq<Seq<u8>>)
    requires
        segs.len() > 0,
        forall|i: int|
            0 <= i < segs.len() ==> {
                let seg = #[trigger] segs[i];
                &&& seg.len() > 0
                &&& seg != seq![DOT]
                &&& forall|k: int| 0 <= k < seg.len() ==> seg[k] != SEPARATOR
            },
    ensures
        !has_root(join_segments(segs)),
        !starts_with_cur_dir(join_segments(segs)),
{
    let first = segs[0];
    let p = join_segments(segs);
    assert(p[0] == first[0]);
    if first.len() == 1 && first[0] == DOT {
        assert(first =~= seq![DOT]);
    }
    if first.len() > 1 {
        assert(p[1] == first[1]);
    }
}

/// The body of joined segments: one component per segment.
proof fn lemma_join_body(segs: Seq<Seq<u8>>)
    requires
        forall|i: int|
            0 <= i < segs.len() ==> {
                let seg = #[trigger] segs[i];
                &&& seg.len() > 0
                &&& seg != seq![DOT]
                &&& forall|k: int| 0 <= k < seg.len() ==> seg[k] != SEPARATOR
            },
    ensures
        body_components(join_segments(segs)) =~= segs.map_values(
            |seg: Seq<u8>| segment_meaning(seg),
        ),
    decreases segs.len(),
{
    if segs.len() > 0 {
        let first = segs[0];
        assert(first.len() > 0 && first != seq![DOT]);
        lemma_sep_index_at(first, first.len() as int);
        if first =~= seq![DOT, DOT] {
        }
        assert(body_components(first) =~= seq![segment_meaning(first)]);
        if segs.len() > 1 {
            let rest = segs.drop_first();
            assert forall|i: int| 0 <= i < rest.len() implies {
                let seg = #[trigger] rest[i];
                &&& seg.len() > 0
                &&& seg != seq![DOT]
                &&& forall|k: int| 0 <= k < seg.len() ==> seg[k] != SEPARATOR
            } by {
                assert(rest[i] == segs[i + 1]);
            }
            lemma_join_body(rest);
            lemma_body_split(first, join_segments(rest));
            assert(segs.map_values(|seg: Seq<u8>| segment_meaning(seg)) =~= seq![
                segment_meaning(first),
            ] + rest.map_values(|seg: Seq<u8>| segment_meaning(seg)));
        }
    }
}

/// Segments joined by separators are read one by one: each segment is one
/// component, `..` the parent and every other segment, of any length, a name
/// that carries exactly its bytes. No segment is dropped and none is read as
/// the parent but `..` itself.
pub proof fn law_joined_segments(segs: Seq<Seq<u8>>)
    requires
        forall|i: int|
            0 <= i < segs.len() ==> {
                let seg = #[trigger] segs[i];
                &&& seg.len() > 0
                &&& seg != seq![DOT]
                &&& forall|k: int| 0 <= k < seg.len() ==> seg[k] != SEPARATOR
            },
    ensures
        path_components(join_segments(segs)).len() == segs.len(),
        forall|i: int|
            0 <= i < segs.len() ==> (path_components(join_segments(segs))[i] == if #[trigger] segs[i]
                == seq![DOT, DOT] {
                SpecComponent::ParentDir
            } else {
                SpecComponent::Normal(segs[i])
            }),
{
    lemma_join_body(segs);
    if segs.len() > 0 {
        lemma_join_plain_start(segs);
    }
    assert(path_components(join_segments(segs)) == body_components(join_segments(segs)));
}

/// A name, of any length, is one normal component carrying its bytes, so it
/// is a single-component path and a forward-only one.
pub proof fn law_name_is_one_component(name: Seq<u8>)
    requires
        name.len() > 0,
        name != seq![DOT],
        name != seq![DOT, DOT],
        forall|k: int| 0 <= k < name.len() ==> name[k] != SEPARATOR,
    ensures
        path_components(name) == seq![SpecComponent::Normal(name)],
        is_single_component(name),
        is_multi_component(name),
{
    let segs = seq![name];
    assert(join_segments(segs) == name);
    law_joined_segments(segs);
    assert(path_components(name) =~= seq![SpecComponent::Normal(name)]);
    assert(without_cur_dir(seq![SpecComponent::Normal(name)].drop_last()) =~= seq![]);
    assert(without_cur_dir(path_components(name)) =~= seq![SpecComponent::Normal(name)]);
}

/// Names joined by separators, of any lengths, make a forward-only path whose
/// components are exactly those names; it is a single-component path exactly
/// when there is one name.
pub proof fn law_joined_names(names: Seq<Seq<u8>>)
    requires
        forall|i: int|
            0 <= i < names.len() ==> {
                let name = #[trigger] names[i];
                &&& name.len() > 0
                &&& name != seq![DOT]
                &&& name != seq![DOT, DOT]
                &&& forall|k: int| 0 <= k < name.len() ==> name[k] != SEPARATOR
            },
    ensures
        path_components(join_segments(names)) == names.map_values(
            |n: Seq<u8>| SpecComponent::Normal(n),
        ),
        is_multi_component(join_segments(names)),
        is_single_component(join_segments(names)) <==> names.len() == 1,
{
    law_joined_segments(names);
    let p = join_segments(names);
    let comps = path_components(p);
    assert(comps =~= names.map_values(|n: Seq<u8>| SpecComponent::Normal(n)));
    lemma_without_cur_dir_normal(comps);
}

/// A sequence of normal components is left as it is when current-directory
/// components are left out.
proof fn lemma_without_cur_dir_normal(s: Seq<SpecComponent>)
    requires
        forall|k: int| 0 <= k < s.len() ==> #[trigger] s[k] is Normal,
    ensures
        without_cur_dir(s) =~= s,
    decreases s.len(),
{
    if s.len() > 0 {
        assert(s[s.len() - 1] is Normal);
        lemma_without_cur_dir_normal(s.drop_last());
    }
}

/// Two names are ordered by their first differing byte: the name with the
/// smaller byte there comes first, whatever their lengths.
pub proof fn law_name_order(m: Seq<u8>, n: Seq<u8>, i: int)
    requires
        m.len() > 0,
        m != seq![DOT],
        m != seq![DOT, DOT],
        forall|k: int| 0 <= k < m.len() ==> m[k] != SEPARATOR,
        n.len() > 0,
        n != seq![DOT],
        n != seq![DOT, DOT],
        forall|k: int| 0 <= k < n.len() ==> n[k] != SEPARATOR,
        0 <= i < m.len(),
        i < n.len(),
        forall|k: int| 0 <= k < i ==> m[k] == n[k],
        m[i] < n[i],
    ensures
        path_order(m, n) == -1,
        path_order(n, m) == 1,
{
    law_name_is_one_component(m);
    law_name_is_one_component(n);
    let f = byte_order_fn();
    assert forall|k: int| 0 <= k < i implies f(m[k], n[k]) == 0 by {}
    lemma_lexicographic_skip(m, n, f, i);
    assert forall|k: int| 0 <= k < i implies f(n[k], m[k]) == 0 by {}
    lemma_lexicographic_skip(n, m, f, i);
    assert(m.skip(i)[0] == m[i]);
    assert(n.skip(i)[0] == n[i]);
    lemma_component_order_equal();
}

} // verus!
