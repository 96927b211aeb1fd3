//! The pipeline: the four phases bundled with their options.
//!
//! Locating the runfile on disk, reading it and executing the bound
//! invocation are the caller's work; the pipeline itself only carries
//! the phase values and the optional starting directory for the search.

use vstd::prelude::*;
use crate::parse::ParsePhase;
use crate::resolve::ResolvePhase;
use crate::run::RunPhase;
use crate::tokenize::TokenizePhase;

verus! {

/// Options for a pipeline: the directory the runfile search starts
/// from, the process's current directory when absent.
pub struct PipelineOptions {
    pub directory: Option<String>,
}

impl Default for PipelineOptions {
    fn default() -> (r: Self)
        ensures
            r.directory is None,
    {
        PipelineOptions { directory: None }
    }
}

pub struct Pipeline {
    pub tokenize: TokenizePhase,
    pub parse: ParsePhase,
    pub resolve: ResolvePhase,
    pub run: RunPhase,
    pub options: PipelineOptions,
}

impl Pipeline {
    pub fn with_options(options: PipelineOptions) -> (r: Self)
        ensures
            r.options == options,
    {
        Pipeline {
            tokenize: TokenizePhase::new(),
            parse: ParsePhase::new(),
            resolve: ResolvePhase::new(),
            run: RunPhase::new(),
            options,
        }
    }

    pub fn new() -> (r: Self)
        ensures
            r.options.directory is None,
    {
        Self::with_options(PipelineOptions { directory: None })
    }
}

impl Default for Pipeline {
    fn default() -> (r: Self)
        ensures
            r.options.directory is None,
    {
        Self::with_options(PipelineOptions { directory: None })
    }
}

} // verus!
