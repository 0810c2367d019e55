//! The options of a generation run.
use vstd::prelude::*;
use crate::error::Error;
use crate::strings::joined;

verus! {

/// The options of one run: the project to read, the output format and
/// destination, the framework style (detected when absent), and verbosity.
pub struct CliArgs {
    pub project_path: String,
    pub output_format: OutputFormat,
    pub output_path: Option<String>,
    pub framework: Option<Framework>,
    pub verbose: bool,
}

#[derive(Debug, Clone, Copy, PartialEq, Eq, Structural)]
pub enum OutputFormat {
    Yaml,
    Json,
}

#[derive(Debug, Clone, Copy, PartialEq, Eq, Structural, Hash)]
pub enum Framework {
    /// The chained-builder style.
    Axum,
    /// The attribute style.
    ActixWeb,
}

/// Accepts a project path only when it exists and is a directory.
pub fn check_project_path(path: &str, exists: bool, is_dir: bool) -> (r: Result<(), Error>)
    ensures
        exists && is_dir <==> r is Ok,
        !exists ==> (r matches Err(Error::InvalidArgument(m)) && m@ == "Project path does not exist: "@ + path@),
        exists && !is_dir ==> (r matches Err(Error::InvalidArgument(m)) && m@ == "Project path is not a directory: "@ + path@),
{
    if !exists {
        return Err(Error::InvalidArgument(joined("Project path does not exist: ", path)));
    }
    if !is_dir {
        return Err(Error::InvalidArgument(joined("Project path is not a directory: ", path)));
    }
    Ok(())
}

/// The framework styles to read: the requested one when there is one, else
/// those detected; with none requested and none detected there is nothing to
/// read, which is an error.
pub fn frameworks_to_use(requested: Option<Framework>, detected: Vec<Framework>) -> (r: Result<Vec<Framework>, Error>)
    ensures
        requested matches Some(f) ==> (r matches Ok(v) && v@ == seq![f]),
        requested is None && detected@.len() == 0 ==> (r matches Err(Error::FrameworkNotDetected)),
        requested is None && detected@.len() > 0 ==> (r matches Ok(v) && v@ == detected@),
{
    match requested {
        Some(f) => {
            let v = vec![f];
            Ok(v)
        },
        None => {
            if detected.len() == 0 {
                Err(Error::FrameworkNotDetected)
            } else {
                Ok(detected)
            }
        },
    }
}

} // verus!
