use vstd::prelude::*;

use crate::path::{child_of, PathView, RepoPath};

verus! {

/// The metadata directory of a repository rooted at `base`.
pub open spec fn git_dir_of(base: PathView) -> PathView {
    child_of(base, ".git"@)
}

/// A path directly inside the metadata directory.
pub open spec fn in_git_dir(base: PathView, name: Seq<char>) -> PathView {
    child_of(git_dir_of(base), name)
}

pub open spec fn config_of(base: PathView) -> PathView {
    in_git_dir(base, "config"@)
}

pub open spec fn description_of(base: PathView) -> PathView {
    in_git_dir(base, "description"@)
}

pub open spec fn head_of(base: PathView) -> PathView {
    in_git_dir(base, "HEAD"@)
}

pub open spec fn refs_of(base: PathView) -> PathView {
    in_git_dir(base, "refs"@)
}

pub open spec fn heads_of(base: PathView) -> PathView {
    child_of(refs_of(base), "heads"@)
}

pub open spec fn tags_of(base: PathView) -> PathView {
    child_of(refs_of(base), "tags"@)
}

pub open spec fn objects_of(base: PathView) -> PathView {
    in_git_dir(base, "objects"@)
}

pub open spec fn info_of(base: PathView) -> PathView {
    child_of(objects_of(base), "info"@)
}

pub open spec fn pack_of(base: PathView) -> PathView {
    child_of(objects_of(base), "pack"@)
}

/// A repository rooted at a directory, and the well-known paths inside it.
/// Building one looks at no file.
#[derive(Debug)]
pub struct Repository {
    base_dir: RepoPath,
}

impl View for Repository {
    type V = PathView;

    /// The root directory.
    closed spec fn view(&self) -> PathView {
        self.base_dir@
    }
}

impl Repository {
    /// A repository rooted at `path`, which need not be one yet.
    pub fn maybe_uninitialized_repo(path: RepoPath) -> (r: Repository)
        ensures
            r@ == path@,
    {
        Repository { base_dir: path }
    }

    /// The root directory.
    pub fn base_dir(&self) -> (r: RepoPath)
        ensures
            r@ == self@,
    {
        self.base_dir.duplicate()
    }

    /// The metadata directory, `.git`.
    pub fn git_dir(&self) -> (r: RepoPath)
        ensures
            r@ == git_dir_of(self@),
    {
        self.base_dir.child(".git")
    }

    /// The local configuration file, `.git/config`.
    pub fn config(&self) -> (r: RepoPath)
        ensures
            r@ == config_of(self@),
    {
        self.git_dir().child("config")
    }

    /// The description file, `.git/description`.
    pub fn description(&self) -> (r: RepoPath)
        ensures
            r@ == description_of(self@),
    {
        self.git_dir().child("description")
    }

    /// The HEAD file, `.git/HEAD`.
    #[allow(non_snake_case)]
    pub fn HEAD(&self) -> (r: RepoPath)
        ensures
            r@ == head_of(self@),
    {
        self.git_dir().child("HEAD")
    }

    /// The refs directory, `.git/refs`.
    pub fn refs(&self) -> (r: RepoPath)
        ensures
            r@ == refs_of(self@),
    {
        self.git_dir().child("refs")
    }

    /// The branch heads directory, `.git/refs/heads`.
    pub fn heads(&self) -> (r: RepoPath)
        ensures
            r@ == heads_of(self@),
    {
        self.refs().child("heads")
    }

    /// The tags directory, `.git/refs/tags`.
    pub fn tags(&self) -> (r: RepoPath)
        ensures
            r@ == tags_of(self@),
    {
        self.refs().child("tags")
    }

    /// The object store, `.git/objects`.
    pub fn objects(&self) -> (r: RepoPath)
        ensures
            r@ == objects_of(self@),
    {
        self.git_dir().child("objects")
    }

    /// The object store's info directory, `.git/objects/info`.
    pub fn info(&self) -> (r: RepoPath)
        ensures
            r@ == info_of(self@),
    {
        self.objects().child("info")
    }

    /// The pack directory, `.git/objects/pack`.
    pub fn pack(&self) -> (r: RepoPath)
        ensures
            r@ == pack_of(self@),
    {
        self.objects().child("pack")
    }
}

} // verus!
