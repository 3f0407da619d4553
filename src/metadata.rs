use vstd::prelude::*;
use vstd::string::*;

use crate::text::{path_safe, replace_separators};

verus! {

/// A build step that contributed layers, named by its id and version.
#[derive(Clone, Debug)]
pub struct Buildpack {
    pub id: String,
    pub version: String,
}

impl Buildpack {
    pub fn new(id: &str, version: &str) -> (r: Buildpack)
        ensures
            r.id@ == id@,
            r.version@ == version@,
    {
        Buildpack { id: String::from_str(id), version: String::from_str(version) }
    }

    /// The id in a form that can name a single directory: each `/` becomes `_`.
    pub fn path_id(&self) -> (r: String)
        ensures
            r@ == path_safe(self.id@),
    {
        replace_separators(self.id.as_str())
    }
}

/// A process that can be launched. `process_type` is the key it is selected by;
/// `direct` asks for it to be executed without a shell.
#[derive(Clone, Debug, PartialEq)]
pub struct Process {
    pub process_type: String,
    pub command: String,
    pub args: Vec<String>,
    pub direct: bool,
}

} // verus!
