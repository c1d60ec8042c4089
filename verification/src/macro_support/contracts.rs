//! Contract documentation: the doc lines and the violation messages of
//! `#[requires(..)]`, `#[ensures(..)]`, `#[invariant(..)]` and `#[pure]`.
use vstd::prelude::*;
use crate::text::push_str;

verus! {

/// The kind of a checked contract.
#[derive(Clone, Copy, Debug, PartialEq, Eq, Structural)]
pub enum ContractKind {
    /// A precondition, checked on entry.
    Requires,
    /// A postcondition over `result`, checked before returning.
    Ensures,
    /// An invariant, checked on entry.
    Invariant,
}

/// The word that names the kind in documentation.
pub open spec fn kind_label(kind: ContractKind) -> Seq<char> {
    match kind {
        ContractKind::Requires => "Requires"@,
        ContractKind::Ensures => "Ensures"@,
        ContractKind::Invariant => "Invariant"@,
    }
}

/// The word that names the kind in a violation message.
pub open spec fn kind_noun(kind: ContractKind) -> Seq<char> {
    match kind {
        ContractKind::Requires => "Precondition"@,
        ContractKind::Ensures => "Postcondition"@,
        ContractKind::Invariant => "Invariant"@,
    }
}

/// The doc line of a contract: ``**Requires:** `x > 0` `` and the like.
pub fn contract_doc(kind: ContractKind, condition: &str) -> (r: String)
    ensures
        r@ == "**"@ + kind_label(kind) + ":** `"@ + condition@ + "`"@,
{
    let mut r = String::new();
    push_str(&mut r, "**");
    match kind {
        ContractKind::Requires => push_str(&mut r, "Requires"),
        ContractKind::Ensures => push_str(&mut r, "Ensures"),
        ContractKind::Invariant => push_str(&mut r, "Invariant"),
    }
    push_str(&mut r, ":** `");
    push_str(&mut r, condition);
    push_str(&mut r, "`");
    r
}

/// The message of a failed check: `Precondition violated: x > 0` and the
/// like.
pub fn violation_message(kind: ContractKind, condition: &str) -> (r: String)
    ensures
        r@ == kind_noun(kind) + " violated: "@ + condition@,
{
    let mut r = String::new();
    match kind {
        ContractKind::Requires => push_str(&mut r, "Precondition"),
        ContractKind::Ensures => push_str(&mut r, "Postcondition"),
        ContractKind::Invariant => push_str(&mut r, "Invariant"),
    }
    push_str(&mut r, " violated: ");
    push_str(&mut r, condition);
    r
}

/// The doc line of `#[pure]`.
pub fn pure_doc() -> (r: String)
    ensures
        r@ == "**Pure:** this function has no observable side effects."@,
{
    let mut r = String::new();
    push_str(&mut r, "**Pure:** this function has no observable side effects.");
    r
}

} // verus!
