use vstd::prelude::*;

verus! {

/// The command line: one subcommand.
pub struct Cli {
    pub command: Commands,
}

/// What to report on.
pub enum Commands {
    /// Capacity, use and free space of the filesystem that holds `path`.
    Disk { path: String },
    /// The sizes below the directory `path`: one line per entry of the directory,
    /// or with `detail` one line per object of the whole tree.
    Folder { path: String, detail: bool },
}

impl Commands {
    /// The path the command reports on.
    pub fn path(&self) -> (r: &String)
        ensures
            r == (match self {
                Commands::Disk { path } => path,
                Commands::Folder { path, .. } => path,
            }),
    {
        match self {
            Commands::Disk { path } => path,
            Commands::Folder { path, .. } => path,
        }
    }
}

} // verus!
