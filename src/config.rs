//! The configuration that the binding engine runs with.

use std::path::PathBuf;
use vstd::prelude::*;

use crate::script_filename::ShellScriptFilename;

verus! {

/// The binding root and the validated script file name.
#[derive(Debug, Clone)]
pub struct Config {
    root_path: PathBuf,
    script_filename: ShellScriptFilename,
}

impl Config {
    /// The binding root.
    pub closed spec fn spec_root_path(&self) -> PathBuf {
        self.root_path
    }

    /// The script file name.
    pub closed spec fn spec_script_filename(&self) -> ShellScriptFilename {
        self.script_filename
    }

    pub fn new(root_path: PathBuf, script_filename: ShellScriptFilename) -> (r: Config)
        ensures
            r.spec_root_path() == root_path,
            r.spec_script_filename() == script_filename,
    {
        Config { root_path, script_filename }
    }

    /// The binding root.
    pub fn root_path(&self) -> (r: &PathBuf)
        ensures
            *r == self.spec_root_path(),
    {
        &self.root_path
    }

    /// The script file name.
    pub fn script_filename(&self) -> (r: &ShellScriptFilename)
        ensures
            *r == self.spec_script_filename(),
    {
        &self.script_filename
    }
}

} // verus!
