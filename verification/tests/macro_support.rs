//! The names and text that the attribute macros generate.

use tpt_formal_lab::macro_support::contracts::{
    contract_doc, pure_doc, violation_message, ContractKind,
};
use tpt_formal_lab::macro_support::traces::{to_upper_snake, trace_const_name, traces_doc};

#[test]
fn generated_const_matches_macro_args() {
    // `#[traces("REQ-INT-001", "REQ-INT-002")] pub fn sample_fn()` and
    // `#[traces("REQ-SINGLE")] pub fn single_req()`.
    assert_eq!(trace_const_name("sample_fn"), "__TPT_TRACES_SAMPLE_FN");
    assert_eq!(trace_const_name("single_req"), "__TPT_TRACES_SINGLE_REQ");
}

#[test]
fn upper_snake_constant_name() {
    // `#[traces("REQ-CAMEL-001")] pub fn camelCaseFn()`.
    assert_eq!(trace_const_name("camelCaseFn"), "__TPT_TRACES_CAMEL_CASE_FN");
}

// ── Further cases ──────────────────────────────────────────────────────────

#[test]
fn upper_snake_forms() {
    assert_eq!(to_upper_snake("do_work"), "DO_WORK");
    assert_eq!(to_upper_snake("Throttle"), "THROTTLE");
    assert_eq!(to_upper_snake("HTTPServer"), "HTTPSERVER");
    assert_eq!(to_upper_snake("a_B"), "A_B");
    assert_eq!(to_upper_snake("x1Y"), "X1_Y");
    assert_eq!(to_upper_snake(""), "");
    assert_eq!(to_upper_snake("straße"), "STRASSE");
}

#[test]
fn traces_doc_lists_the_ids() {
    let ids = vec!["REQ-THR-001".to_string(), "REQ-SAFE-002".to_string()];
    assert_eq!(traces_doc(&ids), "**Traces:** REQ-THR-001, REQ-SAFE-002");
    assert_eq!(traces_doc(&["REQ-SINGLE".to_string()]), "**Traces:** REQ-SINGLE");
    assert_eq!(traces_doc(&[]), "**Traces:** ");
}

#[test]
fn contract_docs_and_messages() {
    assert_eq!(contract_doc(ContractKind::Requires, "x > 0"), "**Requires:** `x > 0`");
    assert_eq!(contract_doc(ContractKind::Ensures, "result >= 0"), "**Ensures:** `result >= 0`");
    assert_eq!(
        contract_doc(ContractKind::Invariant, "self.value <= self.max"),
        "**Invariant:** `self.value <= self.max`"
    );
    assert_eq!(violation_message(ContractKind::Requires, "x > 0"), "Precondition violated: x > 0");
    assert_eq!(
        violation_message(ContractKind::Ensures, "result >= 0"),
        "Postcondition violated: result >= 0"
    );
    assert_eq!(
        violation_message(ContractKind::Invariant, "self.value <= self.max"),
        "Invariant violated: self.value <= self.max"
    );
    assert_eq!(pure_doc(), "**Pure:** this function has no observable side effects.");
}
