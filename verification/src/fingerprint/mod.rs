//! Device fingerprinting: OUI vendor lookup and the rule-based classifier.

pub mod engine;
pub mod oui;
pub mod rules;

pub use engine::{Category, Classification, Fingerprinter};
pub use rules::RuleFingerprinter;
