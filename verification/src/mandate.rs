//! Domain types for a mandate. Plain data: what a mandate file says once it
//! has been read, before anything is checked.

use vstd::prelude::*;

verus! {

/// One mandate: the rules it defines, the documents it governs, and the
/// source files it links to those documents.
#[derive(Debug, Clone, PartialEq, Eq)]
pub struct Mandate {
    pub name: String,
    pub description: Option<String>,
    pub rules: Vec<Rule>,
    pub governs: Vec<GovernedDoc>,
    pub code: Vec<CodeLink>,
}

/// A rule a governed document must follow.
#[derive(Debug, Clone, PartialEq, Eq)]
pub struct Rule {
    pub id: String,
    pub description: Option<String>,
    pub kind: RuleKind,
}

/// How a rule is checked: by running a script, or by prompting an agent.
#[derive(Debug, Clone, PartialEq, Eq)]
pub enum RuleKind {
    Script { run: String },
    Agent { prompt: String },
}

/// A document the mandate governs, and the ids of the rules it must follow.
#[derive(Debug, Clone, PartialEq, Eq)]
pub struct GovernedDoc {
    pub doc: String,
    pub rules: Vec<String>,
}

/// A source file, and the governed documents that describe it.
#[derive(Debug, Clone, PartialEq, Eq)]
pub struct CodeLink {
    pub path: String,
    pub docs: Vec<String>,
}

} // verus!
