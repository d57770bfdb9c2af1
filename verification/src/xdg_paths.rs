//! The user's XDG directories, as the `xdg` crate finds them. The values here
//! can only be made by the calls into `xdg`, so what they record of those
//! calls (the prefix and the file name) is what was handed to them.
use std::path::PathBuf;
use vstd::prelude::*;

verus! {

#[verifier::external_type_specification]
#[verifier::external_body]
pub struct ExBaseDirectories(xdg::BaseDirectories);

#[verifier::external_type_specification]
#[verifier::external_body]
pub struct ExBaseDirectoriesError(xdg::BaseDirectoriesError);

/// The user's XDG base directories and the prefix they were opened with.
pub struct XdgDirs {
    dirs: xdg::BaseDirectories,
    prefix: String,
}

impl XdgDirs {
    /// The prefix the directories were opened with.
    pub closed spec fn prefix(self) -> Seq<char> {
        self.prefix@
    }
}

/// A file in the user's XDG configuration home: its path and the prefix and
/// file name it was joined from.
pub struct XdgConfigFile {
    path: PathBuf,
    prefix: String,
    file: String,
}

impl XdgConfigFile {
    /// The prefix the path was joined from.
    pub closed spec fn prefix(self) -> Seq<char> {
        self.prefix@
    }

    /// The file name the path was joined from.
    pub closed spec fn file(self) -> Seq<char> {
        self.file@
    }

    /// The path.
    pub closed spec fn path(self) -> PathBuf {
        self.path
    }

    /// The prefix the path was joined from.
    pub fn prefix_str(&self) -> (r: &str)
        ensures
            r@ == self.prefix(),
    {
        self.prefix.as_str()
    }

    /// The file name the path was joined from.
    pub fn file_str(&self) -> (r: &str)
        ensures
            r@ == self.file(),
    {
        self.file.as_str()
    }

    /// The path itself.
    pub fn into_path(self) -> (r: PathBuf)
        ensures
            r == self.path(),
    {
        self.path
    }
}

/// Calls `xdg::BaseDirectories::with_prefix`, which reads the process
/// environment (`HOME` and the `XDG_*` variables) and fails when no home
/// directory can be found; whether it fails depends on the environment, so
/// that is not stated. The directories come back with the prefix they were
/// opened with.
#[verifier::external_body]
pub(crate) fn xdg_with_prefix(prefix: &str) -> (r: Result<XdgDirs, xdg::BaseDirectoriesError>)
    ensures
        r matches Ok(d) ==> d.prefix() == prefix@,
{
    xdg::BaseDirectories::with_prefix(prefix).map(|dirs| XdgDirs { dirs, prefix: prefix.to_string() })
}

/// Calls `xdg::BaseDirectories::get_config_file`, which joins the user's
/// configuration home, the prefix and `file` without touching the file
/// system. The configuration home depends on the environment, so nothing is
/// stated of the path; the result records the prefix and the file it joined.
#[verifier::external_body]
pub(crate) fn xdg_config_file(dirs: &XdgDirs, file: &str) -> (r: XdgConfigFile)
    ensures
        r.prefix() == dirs.prefix(),
        r.file() == file@,
{
    XdgConfigFile { path: dirs.dirs.get_config_file(file), prefix: dirs.prefix.clone(), file: file.to_string() }
}

} // verus!
