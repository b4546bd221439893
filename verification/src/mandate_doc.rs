//! The shape of a mandate file, field for field, before the rules are
//! checked against their declared type, and the step that turns that shape
//! into a [`Mandate`]. Reading the text into this shape is the YAML
//! reader's job; it does not check cross-references (unknown rule ids,
//! ungoverned documents, missing files), which is validation's job.

use vstd::prelude::*;

use crate::mandate::{CodeLink, GovernedDoc, Mandate, Rule, RuleKind};
use crate::ports::MandateParseError;
use crate::text::{concat3, same_text};

verus! {

/// A mandate file as written.
#[derive(Debug, Clone, PartialEq, Eq)]
pub struct MandateDoc {
    pub name: String,
    pub description: Option<String>,
    pub rules: Vec<RuleDoc>,
    pub governs: Vec<GovernedDocDoc>,
    pub code: Vec<CodeLinkDoc>,
}

/// A rule as written: its declared `type`, and whichever of `run` and
/// `prompt` it gives.
#[derive(Debug, Clone, PartialEq, Eq)]
pub struct RuleDoc {
    pub id: String,
    pub kind: String,
    pub description: Option<String>,
    pub run: Option<String>,
    pub prompt: Option<String>,
}

/// A governed document as written.
#[derive(Debug, Clone, PartialEq, Eq)]
pub struct GovernedDocDoc {
    pub doc: String,
    pub rules: Vec<String>,
}

/// A code link as written.
#[derive(Debug, Clone, PartialEq, Eq)]
pub struct CodeLinkDoc {
    pub path: String,
    pub docs: Vec<String>,
}

/// The rule matches its declared type: a script rule gives `run` and not
/// `prompt`, an agent rule gives `prompt` and not `run`.
pub open spec fn rule_doc_ok(r: RuleDoc) -> bool {
    ||| r.kind@ == "script"@ && r.run is Some && r.prompt is None
    ||| r.kind@ == "agent"@ && r.prompt is Some && r.run is None
}

/// The rule a well-typed rule document describes.
pub open spec fn rule_of(r: RuleDoc) -> Rule {
    Rule {
        id: r.id,
        description: r.description,
        kind: if r.kind@ == "script"@ {
            RuleKind::Script { run: r.run->0 }
        } else {
            RuleKind::Agent { prompt: r.prompt->0 }
        },
    }
}

/// Why a rule document does not match its declared type.
pub open spec fn rule_problem(r: RuleDoc) -> Seq<char> {
    if r.kind@ == "script"@ {
        if r.run is None {
            "type: script requires 'run'"@
        } else {
            "type: script must not declare 'prompt'"@
        }
    } else if r.kind@ == "agent"@ {
        if r.prompt is None {
            "type: agent requires 'prompt'"@
        } else {
            "type: agent must not declare 'run'"@
        }
    } else {
        "unknown rule type '"@ + r.kind@ + "'"@
    }
}

/// `e` is the error reported for the ill-typed rule document `r`.
pub open spec fn is_rule_error(r: RuleDoc, e: MandateParseError) -> bool {
    e matches MandateParseError::InvalidRule { id, reason } && id == r.id && reason@ == rule_problem(r)
}

/// Turns one rule document into a [`Rule`], checking that it matches its
/// declared type.
pub fn rule_from_doc(rule: RuleDoc) -> (r: Result<Rule, MandateParseError>)
    ensures
        rule_doc_ok(rule) ==> r == Ok::<Rule, MandateParseError>(rule_of(rule)),
        !rule_doc_ok(rule) ==> (r matches Err(e) && is_rule_error(rule, e)),
{
    proof {
        reveal_strlit("script");
        reveal_strlit("agent");
        assert("script"@ != "agent"@) by {
            assert("script"@[0] != "agent"@[0]);
        }
    }
    let RuleDoc { id, kind, description, run, prompt } = rule;
    let kind = if same_text(kind.as_str(), "script") {
        match (run, prompt) {
            (Some(run), None) => RuleKind::Script { run },
            (None, _) => {
                return Err(
                    MandateParseError::InvalidRule {
                        id,
                        reason: "type: script requires 'run'".to_owned(),
                    },
                );
            },
            (Some(_), Some(_)) => {
                return Err(
                    MandateParseError::InvalidRule {
                        id,
                        reason: "type: script must not declare 'prompt'".to_owned(),
                    },
                );
            },
        }
    } else if same_text(kind.as_str(), "agent") {
        match (prompt, run) {
            (Some(prompt), None) => RuleKind::Agent { prompt },
            (None, _) => {
                return Err(
                    MandateParseError::InvalidRule {
                        id,
                        reason: "type: agent requires 'prompt'".to_owned(),
                    },
                );
            },
            (Some(_), Some(_)) => {
                return Err(
                    MandateParseError::InvalidRule {
                        id,
                        reason: "type: agent must not declare 'run'".to_owned(),
                    },
                );
            },
        }
    } else {
        return Err(
            MandateParseError::InvalidRule {
                id,
                reason: concat3("unknown rule type '", kind.as_str(), "'"),
            },
        );
    };
    Ok(Rule { id, description, kind })
}

/// The governed document a governed-document entry describes.
pub open spec fn governed_of(g: GovernedDocDoc) -> GovernedDoc {
    GovernedDoc { doc: g.doc, rules: g.rules }
}

/// The code link a code-link entry describes.
pub open spec fn code_link_of(c: CodeLinkDoc) -> CodeLink {
    CodeLink { path: c.path, docs: c.docs }
}

/// Every rule document in `rules` matches its declared type.
pub open spec fn rule_docs_ok(rules: Seq<RuleDoc>) -> bool {
    forall|i: int| 0 <= i < rules.len() ==> rule_doc_ok(#[trigger] rules[i])
}

/// `m` is the mandate the well-typed document `doc` describes.
pub open spec fn describes(doc: MandateDoc, m: Mandate) -> bool {
    &&& m.name == doc.name
    &&& m.description == doc.description
    &&& m.rules@ == doc.rules@.map_values(|r: RuleDoc| rule_of(r))
    &&& m.governs@ == doc.governs@.map_values(|g: GovernedDocDoc| governed_of(g))
    &&& m.code@ == doc.code@.map_values(|c: CodeLinkDoc| code_link_of(c))
}

/// Turns a mandate document into a [`Mandate`]. Fails with the error for
/// the first rule that does not match its declared type.
pub fn mandate_from_doc(doc: MandateDoc) -> (r: Result<Mandate, MandateParseError>)
    ensures
        rule_docs_ok(doc.rules@) ==> (r matches Ok(m) && describes(doc, m)),
        !rule_docs_ok(doc.rules@) ==> (r matches Err(e) && exists|k: int|
            0 <= k < doc.rules@.len() && is_rule_error(#[trigger] doc.rules@[k], e) && rule_docs_ok(
                doc.rules@.take(k),
            )),
{
    let ghost given = doc;
    let MandateDoc { name, description, rules: rule_docs, governs: governs_docs, code: code_docs } =
        doc;
    let mut rule_docs = rule_docs;
    let mut rules: Vec<Rule> = Vec::new();
    let ghost mut k: int = 0;
    while rule_docs.len() > 0
        invariant
            given == doc,
            0 <= k <= given.rules@.len(),
            rule_docs@ == given.rules@.skip(k),
            rules@ == given.rules@.take(k).map_values(|r: RuleDoc| rule_of(r)),
            rule_docs_ok(given.rules@.take(k)),
        decreases rule_docs@.len(),
    {
        let rule_doc = rule_docs.remove(0);
        assert(rule_doc == given.rules@[k]);
        match rule_from_doc(rule_doc) {
            Ok(rule) => {
                rules.push(rule);
                proof {
                    assert(given.rules@.take(k + 1) =~= given.rules@.take(k).push(given.rules@[k]));
                    assert(rules@ =~= given.rules@.take(k + 1).map_values(|r: RuleDoc| rule_of(r)));
                    assert(rule_docs@ =~= given.rules@.skip(k + 1));
                    k = k + 1;
                }
            },
            Err(e) => {
                proof {
                    assert(!rule_doc_ok(given.rules@[k]));
                    assert(is_rule_error(given.rules@[k], e));
                    assert(!rule_docs_ok(given.rules@));
                }
                return Err(e);
            },
        }
    }
    assert(given.rules@.take(k) =~= given.rules@);

    let mut governs_docs = governs_docs;
    let mut governs: Vec<GovernedDoc> = Vec::new();
    let ghost mut g: int = 0;
    while governs_docs.len() > 0
        invariant
            0 <= g <= given.governs@.len(),
            governs_docs@ == given.governs@.skip(g),
            governs@ == given.governs@.take(g).map_values(|x: GovernedDocDoc| governed_of(x)),
        decreases governs_docs@.len(),
    {
        let entry = governs_docs.remove(0);
        assert(entry == given.governs@[g]);
        governs.push(GovernedDoc { doc: entry.doc, rules: entry.rules });
        proof {
            assert(given.governs@.take(g + 1) =~= given.governs@.take(g).push(given.governs@[g]));
            assert(governs@ =~= given.governs@.take(g + 1).map_values(
                |x: GovernedDocDoc| governed_of(x),
            ));
            assert(governs_docs@ =~= given.governs@.skip(g + 1));
            g = g + 1;
        }
    }
    assert(given.governs@.take(g) =~= given.governs@);

    let mut code_docs = code_docs;
    let mut code: Vec<CodeLink> = Vec::new();
    let ghost mut c: int = 0;
    while code_docs.len() > 0
        invariant
            0 <= c <= given.code@.len(),
            code_docs@ == given.code@.skip(c),
            code@ == given.code@.take(c).map_values(|x: CodeLinkDoc| code_link_of(x)),
        decreases code_docs@.len(),
    {
        let entry = code_docs.remove(0);
        assert(entry == given.code@[c]);
        code.push(CodeLink { path: entry.path, docs: entry.docs });
        proof {
            assert(given.code@.take(c + 1) =~= given.code@.take(c).push(given.code@[c]));
            assert(code@ =~= given.code@.take(c + 1).map_values(|x: CodeLinkDoc| code_link_of(x)));
            assert(code_docs@ =~= given.code@.skip(c + 1));
            c = c + 1;
        }
    }
    assert(given.code@.take(c) =~= given.code@);

    Ok(Mandate { name, description, rules, governs, code })
}

} // verus!
