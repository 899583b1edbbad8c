//! Language intelligence for network intrusion detection rules
//! (Suricata/Snort-style signatures).
//!
//! A line of rule text is read into a tree whose every node carries the span
//! of text it came from (`parser`). Queries then look into those trees:
//! what lies under an offset (`hover`), which variables exist (`completion`),
//! where a variable occurs (`reference`), which tokens to highlight
//! (`semantic_token`), and how each rule is written canonically (the
//! `to_string` methods, `document`). Suricata's log is read into
//! diagnostics by `suricata_log`.
use vstd::prelude::*;

pub mod span;
pub mod text;
pub mod net;
pub mod header;
pub mod options;
pub mod action;
pub mod rule;
pub mod equality;
pub mod grammar;
pub mod parser;
pub mod semantic_token;
pub mod suricata;
pub mod reference;
pub mod completion;
pub mod hover;
pub mod document;
pub mod suricata_log;

verus! {

} // verus!
