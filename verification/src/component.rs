//! The component structure of a path written in POSIX syntax.
//!
//! Only POSIX syntax is modelled: `\` is an ordinary byte and there are
//! no prefixes such as `C:`. Text checked here must not be handed to a Windows
//! `std::path::PathBuf`, which reads `..\x` as a parent followed by a name.
//!
//! A path is a sequence of bytes, as on Unix, where a path need not be
//! UTF-8. The byte `/` separates
//! components; a leading `/` is the root directory; a `.` that opens a
//! relative path is the current directory; every other `.` segment and every
//! empty segment (repeated or trailing separators) is dropped; `..` is the
//! parent directory and anything else is a normal component.

use vstd::prelude::*;
use vstd::slice::slice_subrange;

verus! {

/// One component of a path, as a mathematical value.
pub enum SpecComponent {
    /// The root directory, written as a leading `/`.
    RootDir,
    /// The current directory `.`, kept only at the start of a relative path.
    CurDir,
    /// The parent directory `..`.
    ParentDir,
    /// A file or directory name.
    Normal(Seq<u8>),
}

/// The byte `/`, which separates components.
pub const SEPARATOR: u8 = 0x2f;

/// The byte `.`.
pub const DOT: u8 = 0x2e;

/// The byte that separates components.
pub open spec fn is_separator(c: u8) -> bool {
    c == SEPARATOR
}

/// The path starts at the root directory.
pub open spec fn has_root(p: Seq<u8>) -> bool {
    p.len() > 0 && is_separator(p[0])
}

/// The relative path opens with the current directory: `.` alone or `./...`.
pub open spec fn starts_with_cur_dir(p: Seq<u8>) -> bool {
    &&& !has_root(p)
    &&& p.len() > 0
    &&& p[0] == DOT
    &&& (p.len() == 1 || is_separator(p[1]))
}

/// Index of the first separator in `s`, or its length when it has none.
pub open spec fn sep_index(s: Seq<u8>) -> nat
    decreases s.len(),
{
    if s.len() == 0 {
        0
    } else if is_separator(s[0]) {
        0
    } else {
        1 + sep_index(s.drop_first())
    }
}

/// The components that one segment between separators contributes.
pub open spec fn segment_components(seg: Seq<u8>) -> Seq<SpecComponent> {
    if seg.len() == 0 || seg =~= seq![DOT] {
        seq![]
    } else if seg =~= seq![DOT, DOT] {
        seq![SpecComponent::ParentDir]
    } else {
        seq![SpecComponent::Normal(seg)]
    }
}

/// The components of the part of a path after its root or leading `.`:
/// each segment between separators, in order.
pub open spec fn body_components(s: Seq<u8>) -> Seq<SpecComponent>
    decreases s.len(),
{
    if s.len() == 0 {
        seq![]
    } else {
        let i = sep_index(s);
        proof {
            lemma_sep_index_bound(s);
        }
        if i < s.len() {
            segment_components(s.take(i as int)) + body_components(s.skip(i + 1int))
        } else {
            segment_components(s)
        }
    }
}

/// The components of a path.
pub open spec fn path_components(p: Seq<u8>) -> Seq<SpecComponent> {
    if has_root(p) {
        seq![SpecComponent::RootDir] + body_components(p.drop_first())
    } else if starts_with_cur_dir(p) {
        seq![SpecComponent::CurDir] + body_components(p.drop_first())
    } else {
        body_components(p)
    }
}

/// The components with every current-directory component left out.
pub open spec fn without_cur_dir(s: Seq<SpecComponent>) -> Seq<SpecComponent>
    decreases s.len(),
{
    if s.len() == 0 {
        seq![]
    } else if s.last() is CurDir {
        without_cur_dir(s.drop_last())
    } else {
        without_cur_dir(s.drop_last()).push(s.last())
    }
}

/// The first separator of `s` stands at `sep_index(s)`, and none before it.
pub proof fn lemma_sep_index_bound(s: Seq<u8>)
    ensures
        sep_index(s) <= s.len(),
        sep_index(s) < s.len() ==> is_separator(s[sep_index(s) as int]),
        forall|k: int| 0 <= k < sep_index(s) ==> !is_separator(#[trigger] s[k]),
    decreases s.len(),
{
    if s.len() > 0 && !is_separator(s[0]) {
        lemma_sep_index_bound(s.drop_first());
        assert forall|k: int| 0 <= k < sep_index(s) implies !is_separator(#[trigger] s[k]) by {
            if k > 0 {
                assert(s[k] == s.drop_first()[k - 1]);
            }
        }
    }
}

/// A position before which no separator stands, and at which one stands or the
/// sequence ends, is the first separator.
pub proof fn lemma_sep_index_at(s: Seq<u8>, m: int)
    requires
        0 <= m <= s.len(),
        forall|k: int| 0 <= k < m ==> !is_separator(#[trigger] s[k]),
        m == s.len() || is_separator(s[m]),
    ensures
        sep_index(s) == m,
    decreases s.len(),
{
    if s.len() > 0 && m > 0 {
        assert(!is_separator(s[0]));
        let t = s.drop_first();
        assert forall|k: int| 0 <= k < m - 1 implies !is_separator(#[trigger] t[k]) by {
            assert(t[k] == s[k + 1]);
        }
        if m < s.len() {
            assert(t[m - 1] == s[m]);
        }
        lemma_sep_index_at(t, m - 1);
    }
}

/// A name: not empty, not `.` or `..`, and free of separators.
pub open spec fn is_name(n: Seq<u8>) -> bool {
    &&& n.len() > 0
    &&& n != seq![DOT]
    &&& n != seq![DOT, DOT]
    &&& forall|k: int| 0 <= k < n.len() ==> !is_separator(#[trigger] n[k])
}

/// Every normal component of a body is a name.
pub proof fn lemma_body_names(s: Seq<u8>)
    ensures
        forall|k: int|
            0 <= k < body_components(s).len() && #[trigger] body_components(s)[k] is Normal
                ==> is_name(body_components(s)[k]->Normal_0),
    decreases s.len(),
{
    if s.len() > 0 {
        let i = sep_index(s);
        lemma_sep_index_bound(s);
        let seg = if i < s.len() {
            s.take(i as int)
        } else {
            s
        };
        assert forall|k: int| 0 <= k < seg.len() implies !is_separator(#[trigger] seg[k]) by {
            assert(seg[k] == s[k]);
        }
        if i < s.len() {
            lemma_body_names(s.skip(i + 1int));
            let head = segment_components(seg);
            let rest = body_components(s.skip(i + 1int));
            assert(body_components(s) == head + rest);
            assert forall|k: int|
                0 <= k < body_components(s).len() && #[trigger] body_components(s)[k] is Normal
                    implies is_name(body_components(s)[k]->Normal_0) by {
                if k >= head.len() {
                    assert(body_components(s)[k] == rest[k - head.len()]);
                }
            }
        }
    }
}

/// Every normal component of a path is a name.
pub proof fn lemma_path_names(p: Seq<u8>)
    ensures
        forall|k: int|
            0 <= k < path_components(p).len() && #[trigger] path_components(p)[k] is Normal
                ==> is_name(path_components(p)[k]->Normal_0),
{
    if has_root(p) || starts_with_cur_dir(p) {
        let rest = p.drop_first();
        lemma_body_names(rest);
        assert forall|k: int|
            0 <= k < path_components(p).len() && #[trigger] path_components(p)[k] is Normal
                implies is_name(path_components(p)[k]->Normal_0) by {
            assert(path_components(p)[k] == body_components(rest)[k - 1]);
        }
    } else {
        lemma_body_names(p);
    }
}

/// No body yields a root or a current-directory component.
pub proof fn lemma_body_only_parent_or_normal(s: Seq<u8>)
    ensures
        forall|k: int|
            0 <= k < body_components(s).len() ==> (#[trigger] body_components(s)[k] is ParentDir
                || body_components(s)[k] is Normal),
    decreases s.len(),
{
    if s.len() > 0 {
        let i = sep_index(s);
        lemma_sep_index_bound(s);
        if i < s.len() {
            lemma_body_only_parent_or_normal(s.skip(i + 1int));
        }
    }
}

/// Splitting a path at a separator splits its body.
pub proof fn lemma_body_split(a: Seq<u8>, b: Seq<u8>)
    ensures
        body_components(a + seq![SEPARATOR] + b) =~= body_components(a) + body_components(b),
    decreases a.len(),
{
    let s = a + seq![SEPARATOR] + b;
    let i = sep_index(a);
    lemma_sep_index_bound(a);
    assert forall|k: int| 0 <= k < i implies !is_separator(#[trigger] s[k]) by {
        assert(s[k] == a[k]);
    }
    if i < a.len() {
        assert(s[i as int] == a[i as int]);
        lemma_sep_index_at(s, i as int);
        let rest = a.skip(i + 1int);
        assert(s.take(i as int) =~= a.take(i as int));
        assert(s.skip(i + 1int) =~= rest + seq![SEPARATOR] + b);
        lemma_body_split(rest, b);
    } else {
        assert(s[a.len() as int] == SEPARATOR);
        lemma_sep_index_at(s, a.len() as int);
        assert(s.take(a.len() as int) =~= a);
        assert(s.skip(a.len() + 1int) =~= b);
        if a.len() == 0 {
            assert(segment_components(a) =~= seq![]);
        }
    }
}

/// A path that is empty or ends with a separator joins its body with what follows.
pub proof fn lemma_body_concat(a: Seq<u8>, b: Seq<u8>)
    requires
        a.len() == 0 || is_separator(a.last()),
    ensures
        body_components(a + b) =~= body_components(a) + body_components(b),
{
    if a.len() == 0 {
        assert(a + b =~= b);
    } else {
        let a0 = a.drop_last();
        assert(a =~= a0 + seq![SEPARATOR] + seq![]);
        assert(a + b =~= a0 + seq![SEPARATOR] + b);
        lemma_body_split(a0, b);
        lemma_body_split(a0, seq![]);
        assert(body_components(seq![]) =~= seq![]);
    }
}

/// A leading `.` segment of a relative path contributes nothing to its body.
pub proof fn lemma_body_cur_dir_head(c: Seq<u8>)
    requires
        starts_with_cur_dir(c),
    ensures
        body_components(c) =~= body_components(c.drop_first()),
{
    let rest = c.drop_first();
    if c.len() == 1 {
        lemma_sep_index_at(c, 1);
        assert(c =~= seq![DOT]);
        assert(rest.len() == 0);
    } else {
        lemma_sep_index_at(c, 1);
        assert(c.take(1) =~= seq![DOT]);
        lemma_sep_index_at(rest, 0);
        assert(rest.take(0) =~= seq![]);
        assert(c.skip(2) =~= rest.skip(1));
    }
}

/// Leaving out current-directory components distributes over concatenation.
pub proof fn lemma_without_cur_dir_concat(a: Seq<SpecComponent>, b: Seq<SpecComponent>)
    ensures
        without_cur_dir(a + b) =~= without_cur_dir(a) + without_cur_dir(b),
    decreases b.len(),
{
    if b.len() == 0 {
        assert(a + b =~= a);
    } else {
        assert((a + b).drop_last() =~= a + b.drop_last());
        assert((a + b).last() == b.last());
        lemma_without_cur_dir_concat(a, b.drop_last());
    }
}

/// A body has no current-directory component to leave out.
pub proof fn lemma_without_cur_dir_body(s: Seq<u8>)
    ensures
        without_cur_dir(body_components(s)) =~= body_components(s),
{
    lemma_body_only_parent_or_normal(s);
    lemma_without_cur_dir_identity(body_components(s));
}

/// A sequence without current-directory components is left as it is.
pub proof fn lemma_without_cur_dir_identity(s: Seq<SpecComponent>)
    requires
        forall|k: int| 0 <= k < s.len() ==> !(#[trigger] s[k] is CurDir),
    ensures
        without_cur_dir(s) =~= s,
    decreases s.len(),
{
    if s.len() > 0 {
        assert(!(s[s.len() - 1] is CurDir));
        lemma_without_cur_dir_identity(s.drop_last());
    }
}

/// The components of a relative path, without its current-directory components,
/// are the components of its body.
pub proof fn lemma_relative_components(c: Seq<u8>)
    requires
        !has_root(c),
    ensures
        without_cur_dir(path_components(c)) =~= body_components(c),
{
    lemma_without_cur_dir_body(c);
    if starts_with_cur_dir(c) {
        lemma_body_cur_dir_head(c);
        let head = seq![SpecComponent::CurDir];
        lemma_without_cur_dir_concat(head, body_components(c.drop_first()));
        assert(without_cur_dir(head.drop_last()) =~= seq![]);
        assert(without_cur_dir(head) =~= seq![]);
    }
}

/// One component of a path, borrowing its name from the path's bytes.
#[derive(Debug, Clone, Copy, PartialEq, Eq)]
pub enum Component<'a> {
    /// The root directory, written as a leading `/`.
    RootDir,
    /// The current directory `.`, kept only at the start of a relative path.
    CurDir,
    /// The parent directory `..`.
    ParentDir,
    /// A file or directory name.
    Normal(&'a [u8]),
}

impl<'a> View for Component<'a> {
    type V = SpecComponent;

    open spec fn view(&self) -> SpecComponent {
        match self {
            Component::RootDir => SpecComponent::RootDir,
            Component::CurDir => SpecComponent::CurDir,
            Component::ParentDir => SpecComponent::ParentDir,
            Component::Normal(name) => SpecComponent::Normal(name@),
        }
    }
}

/// The mathematical values of a sequence of components.
pub open spec fn component_views<'a>(s: Seq<Component<'a>>) -> Seq<SpecComponent> {
    s.map_values(|c: Component<'a>| c@)
}

/// The components of `path`, in order, read in POSIX syntax.
pub fn components<'a>(path: &'a [u8]) -> (r: Vec<Component<'a>>)
    ensures
        component_views(r@) == path_components(path@),
{
    let n = path.len();
    let mut out: Vec<Component<'a>> = Vec::new();
    let mut i: usize = 0;
    if n > 0 && path[0] == SEPARATOR {
        out.push(Component::RootDir);
        i = 1;
        assert(component_views(out@) =~= seq![SpecComponent::RootDir]);
        assert(path@.skip(1) =~= path@.drop_first());
    } else if n > 0 && path[0] == DOT && (n == 1 || path[1] == SEPARATOR) {
        out.push(Component::CurDir);
        i = 1;
        assert(component_views(out@) =~= seq![SpecComponent::CurDir]);
        assert(path@.skip(1) =~= path@.drop_first());
    } else {
        assert(component_views(out@) =~= seq![]);
        assert(path@.skip(0) =~= path@);
    }
    assert(component_views(out@) + body_components(path@.skip(i as int)) =~= path_components(
        path@,
    ));
    while i < n
        invariant
            i <= n,
            n == path@.len(),
                        component_views(out@) + body_components(path@.skip(i as int)) =~= path_components(
                path@,
            ),
        decreases n - i,
    {
        let ghost s = path@.skip(i as int);
        let ghost before = component_views(out@);
        let mut j: usize = i;
        while j < n && path[j] != SEPARATOR
            invariant
                i <= j <= n,
                n == path@.len(),
                                forall|k: int| i <= k < j ==> !is_separator(#[trigger] path@[k]),
            decreases n - j,
        {
            j = j + 1;
        }
        proof {
            assert forall|k: int| 0 <= k < j - i implies !is_separator(#[trigger] s[k]) by {
                assert(s[k] == path@[i + k]);
            }
            if j < n {
                assert(s[j - i] == path@[j as int]);
            }
            lemma_sep_index_at(s, j - i);
        }
        let ghost seg = s.take(j - i);
        let len = j - i;
        if len == 0 || (len == 1 && path[i] == DOT) {
            assert(segment_components(seg) =~= seq![]) by {
                if len == 1 {
                    assert(seg =~= seq![DOT]);
                }
            }
        } else if len == 2 && path[i] == DOT && path[i + 1] == DOT {
            assert(seg =~= seq![DOT, DOT]);
            out.push(Component::ParentDir);
        } else {
            proof {
                if seg =~= seq![DOT] {
                    assert(seg[0] == path@[i as int]);
                }
                if seg =~= seq![DOT, DOT] {
                    assert(seg[0] == path@[i as int]);
                    assert(seg[1] == path@[i + 1]);
                }
            }
            let name = slice_subrange(path, i, j);
            assert(name@ =~= seg);
            out.push(Component::Normal(name));
        }
        assert(component_views(out@) =~= before + segment_components(seg));
        if j < n {
            assert(s.skip(j - i + 1) =~= path@.skip(j + 1));
            i = j + 1;
        } else {
            assert(seg =~= s);
            assert(path@.skip(n as int) =~= seq![]);
            i = n;
        }
    }
    assert(path@.skip(n as int) =~= seq![]);
    out
}

} // verus!
