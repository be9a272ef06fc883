//! Native paths, held as the sequence of their components.
use vstd::prelude::*;

verus! {

/// What a native path component stands for.
pub enum ComponentView {
    RootDir,
    CurDir,
    ParentDir,
    Normal(Seq<char>),
}

/// One component of a native path.
#[derive(Debug)]
pub enum Component {
    /// The root marker of an absolute path.
    RootDir,
    /// `.`
    CurDir,
    /// `..`
    ParentDir,
    /// An ordinary name.
    Normal(String),
}

impl View for Component {
    type V = ComponentView;

    open spec fn view(&self) -> ComponentView {
        match self {
            Component::RootDir => ComponentView::RootDir,
            Component::CurDir => ComponentView::CurDir,
            Component::ParentDir => ComponentView::ParentDir,
            Component::Normal(s) => ComponentView::Normal(s@),
        }
    }
}

impl Clone for Component {
    fn clone(&self) -> (r: Self)
        ensures
            r@ == self@,
    {
        match self {
            Component::RootDir => Component::RootDir,
            Component::CurDir => Component::CurDir,
            Component::ParentDir => Component::ParentDir,
            Component::Normal(s) => Component::Normal(s.clone()),
        }
    }
}

impl Component {
    /// Whether two components are the same.
    pub fn same_as(&self, other: &Component) -> (r: bool)
        ensures
            r == (self@ == other@),
    {
        match (self, other) {
            (Component::RootDir, Component::RootDir) => true,
            (Component::CurDir, Component::CurDir) => true,
            (Component::ParentDir, Component::ParentDir) => true,
            (Component::Normal(a), Component::Normal(b)) => a.eq(b),
            _ => false,
        }
    }
}

impl PartialEq for Component {
    fn eq(&self, other: &Component) -> (r: bool) {
        self.same_as(other)
    }
}

impl vstd::std_specs::cmp::PartialEqSpecImpl for Component {
    open spec fn obeys_eq_spec() -> bool {
        true
    }

    open spec fn eq_spec(&self, other: &Component) -> bool {
        self@ == other@
    }
}

/// A native path on the host: its components, in order.
#[derive(Debug)]
pub struct NativePath {
    pub components: Vec<Component>,
}

/// The components that a sequence of components stands for.
pub open spec fn components_view(v: Seq<Component>) -> Seq<ComponentView> {
    v.map_values(|c: Component| c@)
}

impl View for NativePath {
    type V = Seq<ComponentView>;

    open spec fn view(&self) -> Seq<ComponentView> {
        components_view(self.components@)
    }
}

impl Clone for NativePath {
    fn clone(&self) -> (r: Self)
        ensures
            r@ == self@,
    {
        let mut components: Vec<Component> = Vec::new();
        let mut i: usize = 0;
        while i < self.components.len()
            invariant
                i <= self.components.len(),
                components@.len() == i,
                forall|k: int| 0 <= k < i ==> #[trigger] components@[k]@ == self.components@[k]@,
            decreases self.components.len() - i,
        {
            components.push(self.components[i].clone());
            i = i + 1;
        }
        assert(components_view(components@) =~= components_view(self.components@));
        NativePath { components }
    }
}

/// An absolute path: it starts at the root.
pub open spec fn is_absolute(path: Seq<ComponentView>) -> bool {
    path.len() > 0 && path[0] == ComponentView::RootDir
}

impl PartialEq for NativePath {
    fn eq(&self, other: &NativePath) -> (r: bool) {
        let r = self.components.len() == other.components.len() && self.starts_with(other);
        proof {
            if self@.len() == other@.len() {
                assert(self@.take(other@.len() as int) =~= self@);
            }
        }
        r
    }
}

impl vstd::std_specs::cmp::PartialEqSpecImpl for NativePath {
    open spec fn obeys_eq_spec() -> bool {
        true
    }

    open spec fn eq_spec(&self, other: &NativePath) -> bool {
        self@ == other@
    }
}

/// `root` is the whole of `path` or one of its ancestors, compared
/// component by component.
pub open spec fn has_prefix(path: Seq<ComponentView>, root: Seq<ComponentView>) -> bool {
    root.len() <= path.len() && path.take(root.len() as int) == root
}

/// The components of `path` past `root`, when `root` is a prefix of it.
pub open spec fn strip_prefix(path: Seq<ComponentView>, root: Seq<ComponentView>) -> Option<
    Seq<ComponentView>,
> {
    if has_prefix(path, root) {
        Some(path.skip(root.len() as int))
    } else {
        None
    }
}

impl NativePath {
    /// The path with no components.
    pub fn new() -> (r: NativePath)
        ensures
            r@ == Seq::<ComponentView>::empty(),
    {
        NativePath { components: Vec::new() }
    }

    /// Appends one component.
    pub fn push(&mut self, c: Component)
        ensures
            final(self)@ == old(self)@.push(c@),
    {
        self.components.push(c);
        assert(components_view(self.components@) =~= components_view(old(self).components@).push(
            c@,
        ));
    }

    /// Appends an ordinary name.
    pub fn push_normal(&mut self, name: &str)
        ensures
            final(self)@ == old(self)@.push(ComponentView::Normal(name@)),
    {
        self.push(Component::Normal(name.to_owned()));
    }

    /// Whether `root` is this path or one of its ancestors.
    pub fn starts_with(&self, root: &NativePath) -> (r: bool)
        ensures
            r == has_prefix(self@, root@),
    {
        if root.components.len() > self.components.len() {
            return false;
        }
        let mut i: usize = 0;
        while i < root.components.len()
            invariant
                root.components.len() <= self.components.len(),
                i <= root.components.len(),
                forall|k: int| 0 <= k < i ==> self@[k] == root@[k],
            decreases root.components.len() - i,
        {
            if !self.components[i].same_as(&root.components[i]) {
                assert(self@.take(root@.len() as int)[i as int] != root@[i as int]);
                return false;
            }
            i = i + 1;
        }
        assert(self@.take(root@.len() as int) =~= root@);
        true
    }

    /// The components past `root`, or `None` where `root` is not this path
    /// or one of its ancestors.
    pub fn strip_prefix(&self, root: &NativePath) -> (r: Option<NativePath>)
        ensures
            r matches Some(rest) ==> strip_prefix(self@, root@) == Some(rest@),
            r is None ==> strip_prefix(self@, root@) is None,
    {
        if !self.starts_with(root) {
            return None;
        }
        let mut rest = NativePath::new();
        let mut i: usize = root.components.len();
        while i < self.components.len()
            invariant
                root@.len() <= i <= self@.len(),
                self@.len() == self.components.len(),
                rest@ == self@.subrange(root@.len() as int, i as int),
            decreases self.components.len() - i,
        {
            rest.push(self.components[i].clone());
            i = i + 1;
            assert(rest@ =~= self@.subrange(root@.len() as int, i as int));
        }
        assert(rest@ =~= self@.skip(root@.len() as int));
        Some(rest)
    }
}

} // verus!
