//! The arguments of the tools offered to AI agents, with their defaults.

use vstd::prelude::*;
use crate::model::Storage;

verus! {

/// Index a local folder.
pub struct IndexFolderArgs {
    pub path: String,
    pub name: Option<String>,
}

/// Find functions and classes by name.
pub struct SearchSymbolsArgs {
    pub query: String,
    pub repo: Option<String>,
    pub kind: Option<String>,
    pub limit: Option<usize>,
}

/// Get the source of a symbol by its byte offsets.
pub struct GetSymbolArgs {
    pub repo: String,
    pub file: String,
    pub start_byte: usize,
    pub end_byte: usize,
}

/// Find symbols by meaning.
pub struct SemanticSearchArgs {
    pub query: String,
    pub repo: Option<String>,
    pub limit: Option<usize>,
}

/// Find HTTP routes indexed from a repository.
pub struct SearchRoutesArgs {
    pub repo: String,
    pub method: Option<String>,
    pub path_contains: Option<String>,
    pub limit: Option<usize>,
}

/// The limit given, or `default` when none is.
pub open spec fn limit_or(limit: Option<usize>, default: usize) -> usize {
    match limit {
        Some(l) => l,
        None => default,
    }
}

impl SearchSymbolsArgs {
    /// The result limit: 20 unless given.
    pub fn effective_limit(&self) -> (r: usize)
        ensures
            r == limit_or(self.limit, 20),
    {
        match self.limit {
            Some(l) => l,
            None => 20,
        }
    }
}

impl SemanticSearchArgs {
    /// The result limit: 10 unless given.
    pub fn effective_limit(&self) -> (r: usize)
        ensures
            r == limit_or(self.limit, 10),
    {
        match self.limit {
            Some(l) => l,
            None => 10,
        }
    }
}

impl SearchRoutesArgs {
    /// The result limit: 50 unless given.
    pub fn effective_limit(&self) -> (r: usize)
        ensures
            r == limit_or(self.limit, 50),
    {
        match self.limit {
            Some(l) => l,
            None => 50,
        }
    }
}

/// A call of one of the tools, with its arguments.
pub enum ToolCall {
    IndexFolder(IndexFolderArgs),
    SearchSymbols(SearchSymbolsArgs),
    GetSymbol(GetSymbolArgs),
    SemanticSearch(SemanticSearchArgs),
    SearchRoutes(SearchRoutesArgs),
}

/// Serves the tools over one index.
pub struct RustDexHandler {
    pub storage: Storage,
}

} // verus!
