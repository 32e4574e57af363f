use vstd::prelude::*;
use crate::pattern::Pattern;

verus! {

/// A rule that assigns a group and a scope to the commits it matches, or
/// drops them.
pub struct CommitParser {
    /// Pattern tested against the whole message.
    pub message: Option<Pattern>,
    /// Pattern tested against the conventional body.
    pub body: Option<Pattern>,
    /// Group to assign.
    pub group: Option<String>,
    /// Default scope to assign.
    pub default_scope: Option<String>,
    /// Scope to assign.
    pub scope: Option<String>,
    /// Whether matching commits are dropped.
    pub skip: Option<bool>,
}

/// A rule that turns matches in the message into links.
pub struct LinkParser {
    /// Pattern searched for in the message.
    pub pattern: Pattern,
    /// Template of the link target; may refer to capture groups.
    pub href: String,
    /// Template of the link text; the matched text when absent.
    pub text: Option<String>,
}

/// A rule that rewrites the message before it is parsed.
pub struct CommitPreprocessor {
    /// Pattern searched for in the message.
    pub pattern: Pattern,
    /// Replacement template for every match.
    pub replace: Option<String>,
    /// Command whose output replaces the message when the pattern matches.
    pub replace_command: Option<String>,
}

/// How commits are processed.
pub struct GitConfig {
    /// Whether messages are parsed as conventional commits (default: yes).
    pub conventional_commits: Option<bool>,
    /// Whether unconventional commits are dropped (default: yes).
    pub filter_unconventional: Option<bool>,
    /// Rules that classify commits.
    pub commit_parsers: Option<Vec<CommitParser>>,
    /// Whether breaking commits are kept even when a rule skips them
    /// (default: no).
    pub protect_breaking_commits: Option<bool>,
    /// Whether commits that no rule matches are dropped (default: no).
    pub filter_commits: Option<bool>,
    /// Rules that extract links.
    pub link_parsers: Option<Vec<LinkParser>>,
}

} // verus!
