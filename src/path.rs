use vstd::prelude::*;

verus! {

/// The abstract value of a path: whether it starts at the filesystem root,
/// and the names of its components in order.
pub struct PathView {
    pub absolute: bool,
    pub components: Seq<Seq<char>>,
}

/// A component name: not empty, and free of the separator.
pub open spec fn valid_name(name: Seq<char>) -> bool {
    name.len() > 0 && forall|i: int| 0 <= i < name.len() ==> name[i] != '/'
}

pub open spec fn valid_path(p: PathView) -> bool {
    forall|i: int| 0 <= i < p.components.len() ==> #[trigger] valid_name(p.components[i])
}

/// `p` extended by one more component.
pub open spec fn child_of(p: PathView, name: Seq<char>) -> PathView {
    PathView { absolute: p.absolute, components: p.components.push(name) }
}

/// `p` extended by the components `names`, in order.
pub open spec fn join_all(p: PathView, names: Seq<Seq<char>>) -> PathView {
    PathView { absolute: p.absolute, components: p.components + names }
}

/// The parent of a path: its last component removed. The root and the empty
/// relative path have none.
pub open spec fn parent_of(p: PathView) -> Option<PathView> {
    if p.components.len() == 0 {
        None
    } else {
        Some(PathView { absolute: p.absolute, components: p.components.drop_last() })
    }
}

/// The ancestor of `p` that keeps its first `n` components.
pub open spec fn prefix_of(p: PathView, n: int) -> PathView {
    PathView { absolute: p.absolute, components: p.components.take(n) }
}

/// `q` is `p` or one of its ancestors.
pub open spec fn is_ancestor(q: PathView, p: PathView) -> bool {
    q.absolute == p.absolute && q.components.len() <= p.components.len() && q.components
        =~= p.components.take(q.components.len() as int)
}

/// The chain of candidates that a walk up from `p` visits: `p` itself, its
/// parent, and so on up to the root (or the empty relative path).
pub open spec fn ancestor_chain(p: PathView) -> Seq<PathView> {
    Seq::new(
        (p.components.len() + 1) as nat,
        |i: int| prefix_of(p, p.components.len() - i),
    )
}

/// The text of a list of names, joined by the separator.
pub open spec fn names_text(names: Seq<Seq<char>>) -> Seq<char>
    decreases names.len(),
{
    if names.len() == 0 {
        Seq::empty()
    } else if names.len() == 1 {
        names[0]
    } else {
        names_text(names.drop_last()) + seq!['/'] + names.last()
    }
}

/// The text of a path: a leading separator for an absolute path, then its names.
pub open spec fn path_text(p: PathView) -> Seq<char> {
    if p.absolute {
        seq!['/'] + names_text(p.components)
    } else {
        names_text(p.components)
    }
}

/// The names held by a list of strings.
pub open spec fn names_view(names: Seq<String>) -> Seq<Seq<char>> {
    names.map_values(|s: String| s@)
}

/// A filesystem path, held as its components.
#[derive(Debug)]
pub struct RepoPath {
    absolute: bool,
    components: Vec<String>,
}

impl View for RepoPath {
    type V = PathView;

    closed spec fn view(&self) -> PathView {
        PathView { absolute: self.absolute, components: names_view(self.components@) }
    }
}

fn name_is_valid(name: &String) -> (r: bool)
    ensures
        r == valid_name(name@),
{
    let n = name.unicode_len();
    if n == 0 {
        return false;
    }
    let mut i: usize = 0;
    while i < n
        invariant
            n == name@.len(),
            0 <= i <= n,
            forall|j: int| 0 <= j < i ==> name@[j] != '/',
        decreases n - i,
    {
        if name.get_char(i) == '/' {
            return false;
        }
        i = i + 1;
    }
    true
}

fn copy_names(names: &Vec<String>) -> (r: Vec<String>)
    ensures
        names_view(r@) == names_view(names@),
{
    let mut r: Vec<String> = Vec::new();
    let mut i: usize = 0;
    while i < names.len()
        invariant
            0 <= i <= names.len(),
            r.len() == i,
            forall|j: int| 0 <= j < i ==> #[trigger] r@[j]@ == names@[j]@,
        decreases names.len() - i,
    {
        r.push(names[i].clone());
        i = i + 1;
    }
    assert(names_view(r@) =~= names_view(names@));
    r
}

impl RepoPath {
    /// The filesystem root.
    pub fn root() -> (r: RepoPath)
        ensures
            r@ == (PathView { absolute: true, components: Seq::empty() }),
    {
        let r = RepoPath { absolute: true, components: Vec::new() };
        assert(r@.components =~= Seq::empty());
        r
    }

    /// A path from its components; `None` where a name is empty or holds the
    /// separator.
    pub fn from_components(absolute: bool, components: Vec<String>) -> (r: Option<RepoPath>)
        ensures
            match r {
                Some(p) => valid_path(p@) && p@.absolute == absolute && p@.components
                    == names_view(components@),
                None => !valid_path(
                    PathView { absolute, components: names_view(components@) },
                ),
            },
    {
        let ghost v = names_view(components@);
        let mut i: usize = 0;
        while i < components.len()
            invariant
                0 <= i <= components.len(),
                v == names_view(components@),
                forall|j: int| 0 <= j < i ==> #[trigger] valid_name(v[j]),
            decreases components.len() - i,
        {
            if !name_is_valid(&components[i]) {
                let ghost p = PathView { absolute, components: v };
                assert(0 <= i < p.components.len());
                assert(!valid_name(p.components[i as int]));
                return None;
            }
            i = i + 1;
        }
        Some(RepoPath { absolute, components })
    }

    /// A second path equal to this one.
    pub fn duplicate(&self) -> (r: RepoPath)
        ensures
            r@ == self@,
    {
        RepoPath { absolute: self.absolute, components: copy_names(&self.components) }
    }

    pub fn is_absolute(&self) -> (r: bool)
        ensures
            r == self@.absolute,
    {
        self.absolute
    }

    /// The names of the components, in order.
    pub fn components(&self) -> (r: Vec<String>)
        ensures
            names_view(r@) == self@.components,
    {
        copy_names(&self.components)
    }

    /// This path extended by the component `name`.
    pub fn child(&self, name: &str) -> (r: RepoPath)
        ensures
            r@ == child_of(self@, name@),
    {
        let mut components = copy_names(&self.components);
        components.push(name.to_owned());
        let r = RepoPath { absolute: self.absolute, components };
        assert(r@.components =~= self@.components.push(name@));
        r
    }

    /// The parent directory: `None` at the root or at the empty relative path.
    pub fn parent(&self) -> (r: Option<RepoPath>)
        ensures
            match (r, parent_of(self@)) {
                (Some(a), Some(b)) => a@ == b,
                (None, None) => true,
                _ => false,
            },
    {
        if self.components.len() == 0 {
            return None;
        }
        let mut components = copy_names(&self.components);
        components.pop();
        let r = RepoPath { absolute: self.absolute, components };
        assert(r@.components =~= self@.components.drop_last());
        Some(r)
    }

    /// The candidates of a walk up from this path: itself first, then each
    /// parent in turn, up to and including the root.
    pub fn ancestors(&self) -> (r: Vec<RepoPath>)
        ensures
            r@.map_values(|a: RepoPath| a@) == ancestor_chain(self@),
            forall|i: int| 0 < i < r.len() ==> parent_of(r[i - 1]@) == Some(#[trigger] r[i]@),
            parent_of(r@.last()@) is None,
    {
        let mut r: Vec<RepoPath> = Vec::new();
        let mut current = RepoPath { absolute: self.absolute, components: copy_names(&self.components) };
        let n = self.components.len();
        assert(current@.components =~= self@.components.take(n as int));
        let mut k: usize = n;
        while k > 0
            invariant
                n == self@.components.len(),
                k <= n,
                r.len() == n - k,
                current@ == prefix_of(self@, k as int),
                forall|i: int|
                    0 <= i < r.len() ==> #[trigger] r[i]@ == prefix_of(self@, n - i),
            decreases k,
        {
            let next = current.parent();
            match next {
                Some(p) => {
                    assert(p@ == prefix_of(self@, k - 1)) by {
                        assert(p@.components =~= self@.components.take(k - 1));
                    }
                    r.push(current);
                    current = p;
                },
                None => {},
            }
            k = k - 1;
        }
        r.push(current);
        assert(r@.map_values(|a: RepoPath| a@) =~= ancestor_chain(self@));
        assert forall|i: int| 0 < i < r.len() implies parent_of(r[i - 1]@) == Some(
            #[trigger] r[i]@,
        ) by {
            assert(r[i]@.components =~= r[i - 1]@.components.drop_last());
        }
        r
    }

    /// The path as text, with `/` between components.
    pub fn to_text(&self) -> (r: String)
        ensures
            r@ == path_text(self@),
    {
        let mut names = String::new();
        let mut i: usize = 0;
        while i < self.components.len()
            invariant
                0 <= i <= self.components.len(),
                names@ == names_text(self@.components.take(i as int)),
            decreases self.components.len() - i,
        {
            let ghost before = self@.components.take(i as int);
            proof {
                reveal_strlit("/");
            }
            if i > 0 {
                names.append("/");
            }
            names.append(self.components[i].as_str());
            proof {
                let after = self@.components.take(i + 1);
                assert(after.drop_last() =~= before);
                assert(after.last() == self.components@[i as int]@);
                if i == 0 {
                    assert(names@ =~= names_text(after));
                } else {
                    assert(names@ =~= names_text(after));
                }
            }
            i = i + 1;
        }
        assert(self@.components.take(self.components.len() as int) =~= self@.components);
        proof {
            reveal_strlit("/");
        }
        if self.absolute {
            let mut r = String::new();
            r.append("/");
            r.append(names.as_str());
            assert(r@ =~= seq!['/'] + names@);
            r
        } else {
            names
        }
    }
}

} // verus!
