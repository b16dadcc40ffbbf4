use vstd::prelude::*;
use vstd::string::StringExecFns;

verus! {

/// A file system rooted at a directory, whose reads the driver performs on a
/// worker thread.  The verified part holds the root and resolves paths
/// against it; the reading itself belongs to the driver.
pub struct ThreadedFileSystem {
    root: String,
}

impl Default for ThreadedFileSystem {
    /// Creates a file system rooted at the current directory, as
    /// [`ThreadedFileSystem::new`] does.
    fn default() -> (r: Self)
        ensures
            r.spec_root() == Seq::<char>::empty(),
    {
        ThreadedFileSystem::new()
    }
}

impl ThreadedFileSystem {
    /// The root directory every read is resolved against.
    pub closed spec fn spec_root(&self) -> Seq<char> {
        self.root@
    }

    /// Creates a file system rooted at the current directory.
    pub fn new() -> (r: Self)
        ensures
            r.spec_root() == Seq::<char>::empty(),
    {
        ThreadedFileSystem { root: String::new() }
    }

    /// Creates a file system with the given root path.
    pub fn new_with_root(root: String) -> (r: Self)
        ensures
            r.spec_root() == root@,
    {
        ThreadedFileSystem { root }
    }

    /// The root directory, for the driver.
    pub fn root(&self) -> (r: &String)
        ensures
            r@ == self.spec_root(),
    {
        &self.root
    }

    /// Resolves a path against the root: the root, a separator, and the
    /// path; or the path alone under an empty root.
    pub fn full_path(&self, path: &String) -> (r: String)
        ensures
            self.spec_root().len() == 0 ==> r@ == path@,
            self.spec_root().len() > 0 ==> r@ == self.spec_root() + "/"@ + path@,
    {
        if self.root.as_str().is_empty() {
            path.clone()
        } else {
            let mut r = self.root.clone();
            r.append("/");
            r.append(path.as_str());
            r
        }
    }
}

} // verus!
