//! Moving through a directory tree in search of a repository.

use std::path::PathBuf;
use vstd::prelude::*;

verus! {

/// `std::path::PathBuf`, carried through as an opaque value.
#[verifier::external_type_specification]
#[verifier::external_body]
pub struct ExPathBuf(std::path::PathBuf);

/// What `Path::parent` gives for a path: the path without its last
/// component, or `None` for a root, a prefix or the empty path.
pub uninterp spec fn path_parent(path: PathBuf) -> Option<PathBuf>;

/// What `Path::join` gives for a path and one more component.
pub uninterp spec fn path_join(path: PathBuf, component: Seq<char>) -> PathBuf;

/// Calls `PathBuf::clone`. Trusted: the copy is the same path.
#[verifier::external_body]
fn copy_path(path: &PathBuf) -> (copy: PathBuf)
    ensures
        copy == *path,
{
    path.clone()
}

/// Calls `Path::parent` and makes an owned path of what it gives. Trusted:
/// the result is a function of the path alone, named `path_parent`.
#[verifier::external_body]
fn parent_of(path: &PathBuf) -> (parent: Option<PathBuf>)
    ensures
        parent == path_parent(*path),
{
    path.parent().map(|p| p.to_path_buf())
}

/// Calls `Path::join`. Trusted: the result is a function of the path and
/// the component alone, named `path_join`.
#[verifier::external_body]
fn join_component(path: &PathBuf, component: &str) -> (joined: PathBuf)
    ensures
        joined == path_join(*path, component@),
{
    path.join(component)
}

/// Calls `Path::is_dir`, which asks the file system. Nothing is claimed of
/// the answer: it depends on what is on disk at that moment.
#[verifier::external_body]
fn is_directory(path: &PathBuf) -> (yes: bool) {
    path.is_dir()
}

/// A position in the directory tree, and the place where the search began.
pub struct GitFinder {
    pub current_dir: PathBuf,
    original_dir: PathBuf,
}

impl GitFinder {
    /// The directory in which the finder stands.
    pub closed spec fn current(&self) -> PathBuf {
        self.current_dir
    }

    /// The directory in which the search began.
    pub closed spec fn original_dir(&self) -> PathBuf {
        self.original_dir
    }

    /// The path whose presence as a directory marks `path` as a repository.
    pub open spec fn marker_of(path: PathBuf) -> PathBuf {
        path_join(path, ".git"@)
    }

    /// A finder that starts in `start_dir` and stands there.
    pub fn new(start_dir: PathBuf) -> (finder: GitFinder)
        ensures
            finder.current() == start_dir,
            finder.original_dir() == start_dir,
    {
        let current_dir = copy_path(&start_dir);
        GitFinder { current_dir, original_dir: start_dir }
    }

    /// The path that `is_git_repo` looks for below `path`.
    pub fn git_marker(&self, path: &PathBuf) -> (marker: PathBuf)
        ensures
            marker == Self::marker_of(*path),
    {
        join_component(path, ".git")
    }

    /// Whether `path` holds a repository: whether its marker is a directory
    /// on disk right now. The answer is the file system's, so nothing is
    /// promised of it.
    pub fn is_git_repo(&self, path: &PathBuf) -> (found: bool) {
        let marker = self.git_marker(path);
        is_directory(&marker)
    }

    /// Moves to `path`.
    pub fn navigate_to(&mut self, path: PathBuf)
        ensures
            final(self).current() == path,
            final(self).original_dir() == old(self).original_dir(),
    {
        self.current_dir = path;
    }

    /// Moves one directory up, and says whether it did: at a root the
    /// finder stays where it is.
    pub fn navigate_to_parent(&mut self) -> (moved: bool)
        ensures
            final(self).original_dir() == old(self).original_dir(),
            moved == path_parent(old(self).current()).is_some(),
            moved ==> Some(final(self).current()) == path_parent(old(self).current()),
            !moved ==> final(self).current() == old(self).current(),
    {
        match parent_of(&self.current_dir) {
            Some(parent) => {
                self.current_dir = parent;
                true
            },
            None => false,
        }
    }

    /// Moves back to the directory in which the search began.
    pub fn navigate_to_root(&mut self)
        ensures
            final(self).current() == old(self).original_dir(),
            final(self).original_dir() == old(self).original_dir(),
    {
        self.current_dir = copy_path(&self.original_dir);
    }

    /// The directory in which the finder stands.
    pub fn get_current_dir(&self) -> (dir: &PathBuf)
        ensures
            *dir == self.current(),
    {
        &self.current_dir
    }
}

} // verus!
