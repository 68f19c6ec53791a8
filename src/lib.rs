//! Marshalling layer between a Greek orthography linter and a host that only
//! speaks in strings, numbers and plain records: byte ranges become character
//! ranges, loose option maps become rule selections, and engine diagnostics
//! become host-facing records.

pub mod diagnostic;
pub mod offsets;
pub mod rules;
pub mod syllables;

pub use diagnostic::{pascal_to_snake, scan_text, to_fixjs, Diagnostic, DiagnosticJs, Fix};
pub use offsets::byte_range_to_char_range;
pub use rules::{all_rules, load_config, Rule};
pub use syllables::join_syllables;
