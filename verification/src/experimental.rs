use vstd::prelude::*;

verus! {

/// Common interface for file loading tasks, implemented by drivers.  A task
/// stands for one file being read in the background.
pub trait FileTask {
    /// Polls the task for completion.
    fn poll(&mut self) -> bool;

    /// The data read so far; only complete once `poll` has returned true.
    fn data(&self) -> &Vec<u8>;

    /// The extension of the file being read.
    fn extension(&self) -> &String;
}

/// Common interface for file systems, implemented by drivers.
pub trait FileSystem {
    /// The tasks this file system hands out.
    type Task: FileTask;

    /// Starts reading the given file.
    fn read(&mut self, path: &String) -> Self::Task;
}

} // verus!
