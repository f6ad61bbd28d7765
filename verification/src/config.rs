//! The user-facing configuration choices that the settings and welcome panels cycle
//! through.

use vstd::prelude::*;

verus! {

/// How much the model thinks before answering.
#[derive(Debug, Clone, Copy, PartialEq, Eq, Structural)]
pub enum ThinkingLevel {
    Off,
    Minimal,
    Low,
    Medium,
    High,
    XHigh,
}

/// The shell that runs commands.
#[derive(Debug, Clone, Copy, PartialEq, Eq, Structural)]
pub enum ShellBackend {
    Sh,
    Rush,
    RushDaemon,
}

/// How tool output is shown in the sidebar.
#[derive(Debug, Clone, Copy, PartialEq, Eq, Structural)]
pub enum ToolOutputDisplay {
    Full,
    Compact,
    Collapsed,
}

/// How tool calls are shown in the chat.
#[derive(Debug, Clone, Copy, PartialEq, Eq, Structural)]
pub enum ChatToolDisplay {
    Interleaved,
    Summary,
    Hidden,
}

/// The web search service.
#[derive(Debug, Clone, Copy, PartialEq, Eq, Structural)]
pub enum SearchProvider {
    Tavily,
    Exa,
    Linkup,
    Perplexity,
}

} // verus!
