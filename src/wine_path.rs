//! Wine paths: how native components are written with backslashes, and how
//! backslash-separated segments become native components again.
use vstd::prelude::*;
use crate::native::{Component, ComponentView, NativePath};

verus! {

/// A path inside Wine, such as `c:\windows\system32\ddraw.dll`.
#[derive(Debug, Clone)]
pub struct WinePath(pub String);

impl WinePath {
    /// The text of the path.
    pub fn as_str(&self) -> (r: &str)
        ensures
            r@ == self.0@,
    {
        self.0.as_str()
    }
}

impl From<String> for WinePath {
    fn from(string: String) -> (r: WinePath) {
        WinePath(string)
    }
}

impl vstd::std_specs::convert::FromSpecImpl<String> for WinePath {
    open spec fn obeys_from_spec() -> bool {
        true
    }

    open spec fn from_spec(v: String) -> WinePath {
        WinePath(v)
    }
}

/// Why a conversion could not be made.
#[derive(Debug, Clone, Copy, PartialEq, Eq, Structural)]
pub enum WinePathError {
    /// Could not determine the wine prefix to use.
    PrefixNotFound,
    /// No drive letter → file path mapping is available for the given path.
    NoDrive,
}

impl WinePathError {
    /// A sentence that describes the error.
    pub fn message(&self) -> (r: &'static str)
        ensures
            *self == WinePathError::PrefixNotFound ==> r@ == "could not determine wine prefix"@,
            *self == WinePathError::NoDrive ==> r@ == "native path is not mapped to a wine drive"@,
    {
        match self {
            WinePathError::PrefixNotFound => "could not determine wine prefix",
            WinePathError::NoDrive => "native path is not mapped to a wine drive",
        }
    }
}

/// Relies on `String::push`: the character is appended at the end.
#[verifier::external_body]
pub(crate) fn push_char(s: &mut String, c: char)
    ensures
        final(s)@ == old(s)@.push(c),
{
    s.push(c)
}

/// How a component is written inside a Wine path: the root marker is empty,
/// `.` and `..` stand as they are, a name as its text.
pub open spec fn component_text(c: ComponentView) -> Seq<char> {
    match c {
        ComponentView::RootDir => Seq::empty(),
        ComponentView::CurDir => seq!['.'],
        ComponentView::ParentDir => seq!['.', '.'],
        ComponentView::Normal(s) => s,
    }
}

/// Each component preceded by a backslash, in order.
pub open spec fn render_components(cs: Seq<ComponentView>) -> Seq<char>
    decreases cs.len(),
{
    if cs.len() == 0 {
        Seq::empty()
    } else {
        render_components(cs.drop_last()) + seq!['\\'] + component_text(cs.last())
    }
}

/// Writes `path` after `drive_prefix`, each component behind a backslash.
pub fn stringify_path(drive_prefix: &str, path: &NativePath) -> (r: String)
    ensures
        r@ == drive_prefix@ + render_components(path@),
{
    let mut out = drive_prefix.to_owned();
    let mut i: usize = 0;
    while i < path.components.len()
        invariant
            i <= path@.len(),
            path@.len() == path.components.len(),
            out@ == drive_prefix@ + render_components(path@.take(i as int)),
        decreases path.components.len() - i,
    {
        proof {
            reveal_strlit("\\");
            reveal_strlit(".");
            reveal_strlit("..");
        }
        let ghost before = out@;
        out.append("\\");
        assert("\\"@ =~= seq!['\\']);
        match &path.components[i] {
            Component::RootDir => {},
            Component::CurDir => {
                out.append(".");
                assert("."@ =~= seq!['.']);
            },
            Component::ParentDir => {
                out.append("..");
                assert(".."@ =~= seq!['.', '.']);
            },
            Component::Normal(name) => out.append(name.as_str()),
        }
        assert(out@ =~= before + seq!['\\'] + component_text(path@[i as int]));
        assert(path@.take(i + 1).drop_last() =~= path@.take(i as int));
        i = i + 1;
        assert(out@ =~= drive_prefix@ + render_components(path@.take(i as int)));
    }
    assert(path@.take(i as int) =~= path@);
    out
}

/// The backslash-separated segments of a text, in order; a text without a
/// backslash is one segment, and each backslash starts a new one.
pub open spec fn split_segments(s: Seq<char>) -> Seq<Seq<char>>
    decreases s.len(),
{
    if s.len() == 0 {
        seq![Seq::empty()]
    } else {
        let prev = split_segments(s.drop_last());
        if s.last() == '\\' {
            prev.push(Seq::empty())
        } else {
            prev.update(prev.len() - 1, prev.last().push(s.last()))
        }
    }
}

/// There is always at least one segment.
pub proof fn lemma_split_segments_nonempty(s: Seq<char>)
    ensures
        split_segments(s).len() >= 1,
    decreases s.len(),
{
    if s.len() > 0 {
        lemma_split_segments_nonempty(s.drop_last());
    }
}

/// The native component a segment becomes: `.` and `..` their markers, any
/// other text a name; an empty segment adds nothing.
pub open spec fn segment_components(seg: Seq<char>) -> Seq<ComponentView> {
    if seg.len() == 0 {
        Seq::empty()
    } else if seg == seq!['.'] {
        seq![ComponentView::CurDir]
    } else if seg == seq!['.', '.'] {
        seq![ComponentView::ParentDir]
    } else {
        seq![ComponentView::Normal(seg)]
    }
}

/// The components that a list of segments becomes, in order.
pub open spec fn segments_components(segs: Seq<Seq<char>>) -> Seq<ComponentView>
    decreases segs.len(),
{
    if segs.len() == 0 {
        Seq::empty()
    } else {
        segments_components(segs.drop_last()) + segment_components(segs.last())
    }
}

/// Appends what one segment becomes.
fn push_segment(out: &mut NativePath, seg: String)
    ensures
        final(out)@ == old(out)@ + segment_components(seg@),
{
    let n = seg.as_str().unicode_len();
    if n == 0 {
        assert(old(out)@ + segment_components(seg@) =~= old(out)@);
    } else if n == 1 && seg.as_str().get_char(0) == '.' {
        assert(seg@ =~= seq!['.']);
        out.push(Component::CurDir);
    } else if n == 2 && seg.as_str().get_char(0) == '.' && seg.as_str().get_char(1) == '.' {
        assert(seg@ =~= seq!['.', '.']);
        out.push(Component::ParentDir);
    } else {
        assert(seg@ != seq!['.']);
        assert(seg@ != seq!['.', '.']);
        out.push(Component::Normal(seg));
    }
}

/// Appends to `out`, in order, what each backslash-separated segment of
/// `text` becomes.
pub fn push_segments(out: &mut NativePath, text: &str)
    ensures
        final(out)@ == old(out)@ + segments_components(split_segments(text@)),
{
    let n = text.unicode_len();
    let mut cur = String::new();
    let mut i: usize = 0;
    while i < n
        invariant
            n == text@.len(),
            i <= n,
            split_segments(text@.take(i as int)).len() >= 1,
            cur@ == split_segments(text@.take(i as int)).last(),
            out@ == old(out)@ + segments_components(
                split_segments(text@.take(i as int)).drop_last(),
            ),
        decreases n - i,
    {
        let c = text.get_char(i);
        let ghost prev = split_segments(text@.take(i as int));
        assert(text@.take(i + 1).drop_last() =~= text@.take(i as int));
        if c == '\\' {
            let seg = cur;
            cur = String::new();
            push_segment(out, seg);
            assert(split_segments(text@.take(i + 1)).drop_last() =~= prev);
        } else {
            push_char(&mut cur, c);
            assert(split_segments(text@.take(i + 1)).drop_last() =~= prev.drop_last());
        }
        i = i + 1;
        proof {
            lemma_split_segments_nonempty(text@.take(i as int));
        }
    }
    assert(text@.take(i as int) =~= text@);
    let ghost segs = split_segments(text@);
    proof {
        lemma_split_segments_nonempty(text@);
    }
    push_segment(out, cur);
    assert(segs.drop_last().push(segs.last()) =~= segs);
    assert(segs.drop_last() =~= segs.drop_last().push(segs.last()).drop_last());
    assert(old(out)@ + segments_components(segs.drop_last()) + segment_components(segs.last())
        =~= old(out)@ + segments_components(segs));
}

/// A component that a Wine path carries through unchanged: a non-empty name
/// without a backslash that is neither `.` nor `..`.
pub open spec fn is_plain_name(c: ComponentView) -> bool {
    match c {
        ComponentView::Normal(s) => s.len() > 0 && !s.contains('\\') && s != seq!['.'] && s
            != seq!['.', '.'],
        _ => false,
    }
}

/// A backslash starts a new segment, and text without a backslash after it
/// is the whole of that segment.
pub proof fn lemma_split_after_backslash(x: Seq<char>, w: Seq<char>)
    requires
        !w.contains('\\'),
    ensures
        split_segments(x + seq!['\\'] + w) == split_segments(x).push(w),
    decreases w.len(),
{
    if w.len() == 0 {
        assert(x + seq!['\\'] + w =~= x.push('\\'));
        assert(x.push('\\').drop_last() =~= x);
        assert(x.push('\\').last() == '\\');
        assert(w =~= Seq::<char>::empty());
        assert(split_segments(x.push('\\')) == split_segments(x).push(Seq::<char>::empty()));
    } else {
        let v = w.drop_last();
        assert(!v.contains('\\')) by {
            if v.contains('\\') {
                let k = choose|k: int| 0 <= k < v.len() && v[k] == '\\';
                assert(w[k] == '\\');
            }
        }
        assert(w[w.len() - 1] != '\\');
        lemma_split_after_backslash(x, v);
        assert((x + seq!['\\'] + w).drop_last() =~= x + seq!['\\'] + v);
        assert((x + seq!['\\'] + w).last() == w.last());
        assert(v.push(w.last()) =~= w);
        let s = x + seq!['\\'] + w;
        assert(split_segments(s) == split_segments(s.drop_last()).update(
            split_segments(s.drop_last()).len() - 1,
            split_segments(s.drop_last()).last().push(s.last()),
        ));
        assert(split_segments(x).push(v).update(split_segments(x).len() as int, v.push(w.last()))
            =~= split_segments(x).push(w));
    }
}

/// Splitting what the plain names render to gives back the names.
pub proof fn lemma_render_then_split(rest: Seq<ComponentView>)
    requires
        forall|k: int| 0 <= k < rest.len() ==> is_plain_name(#[trigger] rest[k]),
    ensures
        segments_components(split_segments(render_components(rest))) == rest,
    decreases rest.len(),
{
    if rest.len() == 0 {
        let one = seq![Seq::<char>::empty()];
        assert(one.drop_last() =~= Seq::<Seq<char>>::empty());
        assert(segments_components(one.drop_last()) =~= Seq::<ComponentView>::empty());
        assert(segment_components(one.last()) =~= Seq::<ComponentView>::empty());
        assert(split_segments(render_components(rest)) == one);
    } else {
        let prev = rest.drop_last();
        lemma_render_then_split(prev);
        let name = rest.last()->Normal_0;
        assert(is_plain_name(rest[rest.len() - 1]));
        lemma_split_after_backslash(render_components(prev), name);
        let segs = split_segments(render_components(prev));
        assert(segs.push(name).drop_last() =~= segs);
        assert(segment_components(name) =~= seq![rest.last()]);
        assert(prev.push(rest.last()) =~= rest);
    }
}

} // verus!
