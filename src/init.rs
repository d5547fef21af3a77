use vstd::prelude::*;

use crate::locate::probed;
use crate::path::{ancestor_chain, is_ancestor, parent_of, PathView, RepoPath};
use crate::repository::{
    config_of, description_of, git_dir_of, head_of, heads_of, info_of, pack_of, tags_of,
    Repository,
};

verus! {

/// What the filesystem holds at a path.
pub ghost enum Node {
    Dir,
    File(Seq<char>),
}

/// The filesystem as a map from paths to what stands there.
pub type FsModel = Map<PathView, Node>;

/// The text of a fresh HEAD: the `main` branch, with no newline after it.
pub open spec fn head_text() -> Seq<char> {
    "ref: refs/heads/main"@
}

/// The placeholder text of a fresh description file.
pub open spec fn description_text() -> Seq<char> {
    "Unnamed repository; edit this file 'description' to name the repository.\n"@
}

/// One filesystem action of the initialization, as a value.
pub ghost enum StepView {
    CreateDirAll(PathView),
    CreateFileIfAbsent(PathView, Seq<char>),
}

/// One filesystem action of the initialization.
#[derive(Debug)]
pub enum InitStep {
    /// Create this directory and every missing ancestor of it; a directory
    /// that is already there is left as it is.
    CreateDirAll(RepoPath),
    /// Where nothing stands at this path yet, create a file there holding this
    /// text; otherwise leave the path alone.
    CreateFileIfAbsent(RepoPath, String),
}

impl View for InitStep {
    type V = StepView;

    open spec fn view(&self) -> StepView {
        match self {
            InitStep::CreateDirAll(p) => StepView::CreateDirAll(p@),
            InitStep::CreateFileIfAbsent(p, text) => StepView::CreateFileIfAbsent(p@, text@),
        }
    }
}

/// A file stands at `p` or at one of its ancestors, so no directory can be
/// created there.
pub open spec fn blocked(fs: FsModel, p: PathView) -> bool {
    exists|q: PathView| is_ancestor(q, p) && #[trigger] fs.contains_key(q) && fs[q] is File
}

/// `fs` with `p` and each of its ancestors made a directory.
pub open spec fn with_dirs(fs: FsModel, p: PathView) -> FsModel {
    Map::new(
        |q: PathView| fs.contains_key(q) || is_ancestor(q, p),
        |q: PathView|
            if is_ancestor(q, p) {
                Node::Dir
            } else {
                fs[q]
            },
    )
}

/// The parent of `p` exists and is a directory.
pub open spec fn parent_is_dir(fs: FsModel, p: PathView) -> bool {
    match parent_of(p) {
        Some(q) => fs.contains_key(q) && fs[q] == Node::Dir,
        None => false,
    }
}

/// The filesystem after one action that succeeds, or `None` where it fails.
pub open spec fn apply_step(fs: FsModel, step: StepView) -> Option<FsModel> {
    match step {
        StepView::CreateDirAll(p) => if blocked(fs, p) {
            None
        } else {
            Some(with_dirs(fs, p))
        },
        StepView::CreateFileIfAbsent(p, text) => if fs.contains_key(p) {
            Some(fs)
        } else if parent_is_dir(fs, p) {
            Some(fs.insert(p, Node::File(text)))
        } else {
            None
        },
    }
}

/// The filesystem after the actions `steps`, in order, or `None` where one
/// of them fails (the run stops there).
pub open spec fn run_steps(fs: FsModel, steps: Seq<StepView>) -> Option<FsModel>
    decreases steps.len(),
{
    if steps.len() == 0 {
        Some(fs)
    } else {
        match apply_step(fs, steps[0]) {
            Some(next) => run_steps(next, steps.drop_first()),
            None => None,
        }
    }
}

/// The filesystem after `n` runs of `steps`, one after another.
pub open spec fn run_times(fs: FsModel, steps: Seq<StepView>, n: nat) -> Option<FsModel>
    decreases n,
{
    if n == 0 {
        Some(fs)
    } else {
        match run_times(fs, steps, (n - 1) as nat) {
            Some(g) => run_steps(g, steps),
            None => None,
        }
    }
}

/// The actions that initialize a repository rooted at `base`: the four
/// directories first, then the three files.
pub open spec fn init_plan(base: PathView) -> Seq<StepView> {
    seq![
        StepView::CreateDirAll(heads_of(base)),
        StepView::CreateDirAll(tags_of(base)),
        StepView::CreateDirAll(info_of(base)),
        StepView::CreateDirAll(pack_of(base)),
        StepView::CreateFileIfAbsent(head_of(base), head_text()),
        StepView::CreateFileIfAbsent(description_of(base), description_text()),
        StepView::CreateFileIfAbsent(config_of(base), Seq::empty()),
    ]
}

/// `p` is a directory that holds a metadata directory.
pub open spec fn has_metadata(fs: FsModel, p: PathView) -> bool {
    fs.contains_key(p) && fs[p] == Node::Dir && fs.contains_key(git_dir_of(p))
}

/// What probing each candidate of the walk up from `start` finds in `fs`.
pub open spec fn probes_of(fs: FsModel, start: PathView) -> Seq<bool> {
    ancestor_chain(start).map_values(|c: PathView| has_metadata(fs, c))
}

impl Repository {
    /// The actions that create this repository's skeleton, in the order in
    /// which they are to be carried out.
    pub fn initialization_steps(&self) -> (r: Vec<InitStep>)
        ensures
            r@.map_values(|s: InitStep| s@) == init_plan(self@),
    {
        let mut r: Vec<InitStep> = Vec::new();
        r.push(InitStep::CreateDirAll(self.heads()));
        r.push(InitStep::CreateDirAll(self.tags()));
        r.push(InitStep::CreateDirAll(self.info()));
        r.push(InitStep::CreateDirAll(self.pack()));
        r.push(InitStep::CreateFileIfAbsent(self.HEAD(), "ref: refs/heads/main".to_owned()));
        r.push(
            InitStep::CreateFileIfAbsent(
                self.description(),
                "Unnamed repository; edit this file 'description' to name the repository.\n".to_owned(),
            ),
        );
        r.push(InitStep::CreateFileIfAbsent(self.config(), String::new()));
        assert(r@.map_values(|s: InitStep| s@) =~= init_plan(self@));
        r
    }
}

/// The effect of `step` is already in place in `fs`.
pub open spec fn settled(fs: FsModel, step: StepView) -> bool {
    match step {
        StepView::CreateDirAll(p) => forall|q: PathView|
            is_ancestor(q, p) ==> #[trigger] fs.contains_key(q) && fs[q] == Node::Dir,
        StepView::CreateFileIfAbsent(p, _) => fs.contains_key(p),
    }
}

/// `g` holds every entry of `f`, unchanged.
pub open spec fn keeps(f: FsModel, g: FsModel) -> bool {
    forall|k: PathView| #[trigger] f.contains_key(k) ==> g.contains_key(k) && g[k] == f[k]
}

proof fn lemma_step_keeps(fs: FsModel, step: StepView)
    requires
        apply_step(fs, step) is Some,
    ensures
        keeps(fs, apply_step(fs, step)->Some_0),
        settled(apply_step(fs, step)->Some_0, step),
{
    let g = apply_step(fs, step)->Some_0;
    match step {
        StepView::CreateDirAll(p) => {
            assert forall|k: PathView| #[trigger] fs.contains_key(k) implies g.contains_key(k)
                && g[k] == fs[k] by {
                if is_ancestor(k, p) {
                    assert(!(fs[k] is File));
                }
            }
        },
        StepView::CreateFileIfAbsent(p, text) => {},
    }
}

proof fn lemma_keeps_settled(f: FsModel, g: FsModel, step: StepView)
    requires
        keeps(f, g),
        settled(f, step),
    ensures
        settled(g, step),
{
    match step {
        StepView::CreateDirAll(p) => {
            assert forall|q: PathView| is_ancestor(q, p) implies #[trigger] g.contains_key(q)
                && g[q] == Node::Dir by {
                assert(f.contains_key(q));
            }
        },
        StepView::CreateFileIfAbsent(p, _) => {},
    }
}

proof fn lemma_run_keeps(fs: FsModel, steps: Seq<StepView>)
    requires
        run_steps(fs, steps) is Some,
    ensures
        keeps(fs, run_steps(fs, steps)->Some_0),
        forall|i: int| 0 <= i < steps.len() ==> settled(run_steps(fs, steps)->Some_0, #[trigger] steps[i]),
    decreases steps.len(),
{
    if steps.len() > 0 {
        let next = apply_step(fs, steps[0])->Some_0;
        let g = run_steps(fs, steps)->Some_0;
        lemma_step_keeps(fs, steps[0]);
        lemma_run_keeps(next, steps.drop_first());
        lemma_keeps_settled(next, g, steps[0]);
        assert forall|i: int| 0 <= i < steps.len() implies settled(g, #[trigger] steps[i]) by {
            if i > 0 {
                assert(steps[i] == steps.drop_first()[i - 1]);
            }
        }
    }
}

proof fn lemma_settled_step_noop(fs: FsModel, step: StepView)
    requires
        settled(fs, step),
    ensures
        apply_step(fs, step) == Some(fs),
{
    match step {
        StepView::CreateDirAll(p) => {
            assert(!blocked(fs, p));
            assert(with_dirs(fs, p) =~= fs);
        },
        StepView::CreateFileIfAbsent(p, _) => {},
    }
}

proof fn lemma_settled_run_noop(fs: FsModel, steps: Seq<StepView>)
    requires
        forall|i: int| 0 <= i < steps.len() ==> settled(fs, #[trigger] steps[i]),
    ensures
        run_steps(fs, steps) == Some(fs),
    decreases steps.len(),
{
    if steps.len() > 0 {
        lemma_settled_step_noop(fs, steps[0]);
        assert forall|i: int| 0 <= i < steps.drop_first().len() implies settled(
            fs,
            #[trigger] steps.drop_first()[i],
        ) by {
            assert(steps.drop_first()[i] == steps[i + 1]);
        }
        lemma_settled_run_noop(fs, steps.drop_first());
    }
}

/// Running the same actions a second time changes nothing: after a run that
/// succeeds, every action already finds its effect in place.
pub proof fn lemma_run_twice(fs: FsModel, steps: Seq<StepView>)
    ensures
        match run_steps(fs, steps) {
            Some(g) => run_steps(g, steps) == Some(g),
            None => true,
        },
{
    if run_steps(fs, steps) is Some {
        lemma_run_keeps(fs, steps);
        lemma_settled_run_noop(run_steps(fs, steps)->Some_0, steps);
    }
}

/// Initializing a directory any number of times, one or more, leaves the
/// filesystem exactly as initializing it once does.
pub proof fn lemma_initialization_idempotent(base: PathView, fs: FsModel, n: nat)
    requires
        n >= 1,
    ensures
        run_times(fs, init_plan(base), n) == run_steps(fs, init_plan(base)),
    decreases n,
{
    let plan = init_plan(base);
    if n > 1 {
        lemma_initialization_idempotent(base, fs, (n - 1) as nat);
        lemma_run_twice(fs, plan);
    } else {
        assert(run_times(fs, plan, 0) == Some(fs));
    }
}

/// Initialization never alters what already stands in the filesystem: in
/// particular a HEAD that exists keeps its contents, whatever they are.
pub proof fn lemma_initialization_keeps_head(base: PathView, fs: FsModel)
    ensures
        match run_steps(fs, init_plan(base)) {
            Some(g) => keeps(fs, g) && (fs.contains_key(head_of(base)) ==> g[head_of(base)]
                == fs[head_of(base)]),
            None => true,
        },
{
    if run_steps(fs, init_plan(base)) is Some {
        lemma_run_keeps(fs, init_plan(base));
    }
}

/// Every ancestor of `t`, `t` included, is a directory, and so is whatever
/// stands below `t`.
spec fn dirs_around(f: FsModel, t: PathView) -> bool {
    &&& forall|q: PathView| is_ancestor(q, t) ==> #[trigger] f.contains_key(q) && f[q] == Node::Dir
    &&& forall|q: PathView| #[trigger] f.contains_key(q) && is_ancestor(t, q) ==> f[q] == Node::Dir
}

proof fn lemma_ancestors_comparable(q: PathView, t: PathView, p: PathView)
    requires
        is_ancestor(q, p),
        is_ancestor(t, p),
    ensures
        is_ancestor(q, t) || is_ancestor(t, q),
{
    let ql = q.components.len() as int;
    let tl = t.components.len() as int;
    if ql <= tl {
        assert(p.components.take(tl).take(ql) =~= p.components.take(ql));
    } else {
        assert(p.components.take(ql).take(tl) =~= p.components.take(tl));
    }
}

proof fn lemma_dir_step_below(f: FsModel, t: PathView, p: PathView)
    requires
        dirs_around(f, t),
        is_ancestor(t, p),
    ensures
        apply_step(f, StepView::CreateDirAll(p)) == Some(with_dirs(f, p)),
        dirs_around(with_dirs(f, p), t),
{
    assert forall|q: PathView| is_ancestor(q, p) && #[trigger] f.contains_key(q) implies !(
    f[q] is File) by {
        lemma_ancestors_comparable(q, t, p);
    }
    assert(!blocked(f, p));
}

proof fn lemma_run_cons(fs: FsModel, s: StepView, rest: Seq<StepView>)
    ensures
        run_steps(fs, seq![s] + rest) == match apply_step(fs, s) {
            Some(next) => run_steps(next, rest),
            None => None,
        },
{
    assert((seq![s] + rest).drop_first() =~= rest);
}

proof fn lemma_extends(t: PathView, names: Seq<Seq<char>>, p: PathView)
    requires
        p.absolute == t.absolute,
        p.components == t.components + names,
    ensures
        is_ancestor(t, p),
{
    assert(p.components.take(t.components.len() as int) =~= t.components);
}

/// Initializing an empty directory `t` succeeds. Afterwards the three files
/// and the four directories of the skeleton exist, `t` holds a metadata
/// directory, and so the walk up from `t` stops at `t` itself.
pub proof fn lemma_fresh_initialization_then_locate(t: PathView, fs: FsModel)
    requires
        forall|q: PathView| is_ancestor(q, t) ==> #[trigger] fs.contains_key(q) && fs[q] == Node::Dir,
        forall|q: PathView| #[trigger] fs.contains_key(q) && is_ancestor(t, q) ==> q == t,
    ensures
        match run_steps(fs, init_plan(t)) {
            Some(g) => {
                &&& g.contains_key(head_of(t))
                &&& g.contains_key(description_of(t))
                &&& g.contains_key(config_of(t))
                &&& g.contains_key(heads_of(t)) && g[heads_of(t)] == Node::Dir
                &&& g.contains_key(tags_of(t)) && g[tags_of(t)] == Node::Dir
                &&& g.contains_key(info_of(t)) && g[info_of(t)] == Node::Dir
                &&& g.contains_key(pack_of(t)) && g[pack_of(t)] == Node::Dir
                &&& has_metadata(g, t)
                &&& probed(probes_of(g, t), 0)
            },
            None => false,
        },
{
    let plan = init_plan(t);
    let git = git_dir_of(t);
    let heads = heads_of(t);
    let tags = tags_of(t);
    let info = info_of(t);
    let pack = pack_of(t);
    let head = head_of(t);
    let desc = description_of(t);
    let config = config_of(t);
    assert(is_ancestor(t, t)) by {
        lemma_extends(t, Seq::empty(), t);
        assert(t.components + Seq::empty() =~= t.components);
    }
    assert(dirs_around(fs, t));
    assert(heads.components =~= t.components + seq![".git"@, "refs"@, "heads"@]);
    assert(tags.components =~= t.components + seq![".git"@, "refs"@, "tags"@]);
    assert(info.components =~= t.components + seq![".git"@, "objects"@, "info"@]);
    assert(pack.components =~= t.components + seq![".git"@, "objects"@, "pack"@]);
    lemma_extends(t, seq![".git"@, "refs"@, "heads"@], heads);
    lemma_extends(t, seq![".git"@, "refs"@, "tags"@], tags);
    lemma_extends(t, seq![".git"@, "objects"@, "info"@], info);
    lemma_extends(t, seq![".git"@, "objects"@, "pack"@], pack);

    let f1 = with_dirs(fs, heads);
    lemma_dir_step_below(fs, t, heads);
    let f2 = with_dirs(f1, tags);
    lemma_dir_step_below(f1, t, tags);
    let f3 = with_dirs(f2, info);
    lemma_dir_step_below(f2, t, info);
    let f4 = with_dirs(f3, pack);
    lemma_dir_step_below(f3, t, pack);

    assert(is_ancestor(git, pack)) by {
        assert(pack.components.take(git.components.len() as int) =~= git.components);
    }
    assert(f4.contains_key(git) && f4[git] == Node::Dir);
    assert(parent_of(head) == Some(git)) by {
        assert(head.components.drop_last() =~= git.components);
    }
    assert(parent_of(desc) == Some(git)) by {
        assert(desc.components.drop_last() =~= git.components);
    }
    assert(parent_of(config) == Some(git)) by {
        assert(config.components.drop_last() =~= git.components);
    }
    let s5 = StepView::CreateFileIfAbsent(head, head_text());
    let s6 = StepView::CreateFileIfAbsent(desc, description_text());
    let s7 = StepView::CreateFileIfAbsent(config, Seq::empty());
    let f5 = apply_step(f4, s5)->Some_0;
    assert(head.components.len() != git.components.len());
    assert(f5.contains_key(git) && f5[git] == Node::Dir);
    let f6 = apply_step(f5, s6)->Some_0;
    assert(desc.components.len() != git.components.len());
    assert(f6.contains_key(git) && f6[git] == Node::Dir);
    let f7 = apply_step(f6, s7)->Some_0;

    let s1 = StepView::CreateDirAll(heads);
    let s2 = StepView::CreateDirAll(tags);
    let s3 = StepView::CreateDirAll(info);
    let s4 = StepView::CreateDirAll(pack);
    let e = Seq::<StepView>::empty();
    assert(plan =~= seq![s1] + (seq![s2] + (seq![s3] + (seq![s4] + (seq![s5] + (seq![s6] + (
    seq![s7] + e)))))));
    lemma_run_cons(f6, s7, e);
    lemma_run_cons(f5, s6, seq![s7] + e);
    lemma_run_cons(f4, s5, seq![s6] + (seq![s7] + e));
    lemma_run_cons(f3, s4, seq![s5] + (seq![s6] + (seq![s7] + e)));
    lemma_run_cons(f2, s3, seq![s4] + (seq![s5] + (seq![s6] + (seq![s7] + e))));
    lemma_run_cons(f1, s2, seq![s3] + (seq![s4] + (seq![s5] + (seq![s6] + (seq![s7] + e)))));
    lemma_run_cons(
        fs,
        s1,
        seq![s2] + (seq![s3] + (seq![s4] + (seq![s5] + (seq![s6] + (seq![s7] + e))))),
    );
    assert(run_steps(fs, plan) == Some(f7));

    lemma_run_keeps(fs, plan);
    assert(settled(f7, plan[0]));
    assert(settled(f7, plan[1]));
    assert(settled(f7, plan[2]));
    assert(settled(f7, plan[3]));
    assert(settled(f7, plan[4]));
    assert(settled(f7, plan[5]));
    assert(settled(f7, plan[6]));
    assert(is_ancestor(git, heads)) by {
        assert(heads.components.take(git.components.len() as int) =~= git.components);
    }
    assert(is_ancestor(heads, heads)) by {
        assert(heads.components.take(heads.components.len() as int) =~= heads.components);
    }
    assert(is_ancestor(tags, tags)) by {
        assert(tags.components.take(tags.components.len() as int) =~= tags.components);
    }
    assert(is_ancestor(info, info)) by {
        assert(info.components.take(info.components.len() as int) =~= info.components);
    }
    assert(is_ancestor(pack, pack)) by {
        assert(pack.components.take(pack.components.len() as int) =~= pack.components);
    }
    assert(has_metadata(f7, t));
    assert(ancestor_chain(t)[0] == t) by {
        assert(ancestor_chain(t)[0].components =~= t.components);
    }
    assert(probes_of(f7, t)[0] == has_metadata(f7, t));
}

} // verus!
