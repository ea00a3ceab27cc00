//! Anomaly alert model, shared by storage and the anomaly engine.

use vstd::prelude::*;

use crate::text::{chars_eq, chars_of, push_str};

verus! {

#[derive(Clone, Copy, PartialEq, Eq, Debug, Structural)]
pub enum Severity {
    Info,
    Warning,
    Critical,
}

pub open spec fn severity_name(s: Severity) -> &'static str {
    match s {
        Severity::Info => "info",
        Severity::Warning => "warning",
        Severity::Critical => "critical",
    }
}

/// The severity a lower-case name denotes.
pub open spec fn severity_of_name(s: Seq<char>) -> Option<Severity> {
    if s == "info"@ {
        Some(Severity::Info)
    } else if s == "warning"@ {
        Some(Severity::Warning)
    } else if s == "critical"@ {
        Some(Severity::Critical)
    } else {
        None
    }
}

impl Severity {
    pub fn as_str(self) -> (r: &'static str)
        ensures
            r == severity_name(self),
    {
        match self {
            Severity::Info => "info",
            Severity::Warning => "warning",
            Severity::Critical => "critical",
        }
    }

    /// Parse a severity name, or explain what was wrong with it.
    pub fn parse(s: &str) -> (r: Result<Severity, String>)
        ensures
            match r {
                Ok(v) => severity_of_name(s@) == Some(v),
                Err(msg) => severity_of_name(s@) is None && msg@ == "unknown severity `"@ + s@
                    + "`"@,
            },
    {
        let c = chars_of(s);
        let info = chars_of("info");
        let warning = chars_of("warning");
        let critical = chars_of("critical");
        if chars_eq(c.as_slice(), info.as_slice()) {
            Ok(Severity::Info)
        } else if chars_eq(c.as_slice(), warning.as_slice()) {
            Ok(Severity::Warning)
        } else if chars_eq(c.as_slice(), critical.as_slice()) {
            Ok(Severity::Critical)
        } else {
            let mut msg = String::new();
            push_str(&mut msg, "unknown severity `");
            push_str(&mut msg, s);
            push_str(&mut msg, "`");
            Err(msg)
        }
    }
}

impl std::str::FromStr for Severity {
    type Err = String;

    fn from_str(s: &str) -> (r: Result<Self, Self::Err>)
        ensures
            match r {
                Ok(v) => severity_of_name(s@) == Some(v),
                Err(msg) => severity_of_name(s@) is None && msg@ == "unknown severity `"@ + s@
                    + "`"@,
            },
    {
        Severity::parse(s)
    }
}

/// Every severity's name parses back to it.
pub proof fn law_severity_name_roundtrip(s: Severity)
    ensures
        severity_of_name(severity_name(s)@) == Some(s),
{
    reveal_strlit("info");
    reveal_strlit("warning");
    reveal_strlit("critical");
    assert("warning"@.len() != "info"@.len());
    assert("critical"@.len() != "info"@.len());
    assert("critical"@.len() != "warning"@.len());
}

/// A single anomaly finding.
#[derive(Clone, Debug, PartialEq)]
pub struct Alert {
    /// Unix seconds.
    pub ts: i64,
    /// Device this alert concerns (formatted MAC), if any.
    pub mac: Option<String>,
    pub severity: Severity,
    /// Machine-readable category, e.g. `new_device`, `port_scan`.
    pub kind: String,
    /// Human-readable description.
    pub message: String,
}

/// The mathematical content of an [`Alert`].
pub struct AlertView {
    pub ts: i64,
    pub mac: Option<Seq<char>>,
    pub severity: Severity,
    pub kind: Seq<char>,
    pub message: Seq<char>,
}

impl View for Alert {
    type V = AlertView;

    open spec fn view(&self) -> AlertView {
        AlertView {
            ts: self.ts,
            mac: match self.mac {
                Some(m) => Some(m@),
                None => None,
            },
            severity: self.severity,
            kind: self.kind@,
            message: self.message@,
        }
    }
}

/// The views of a sequence of alerts.
pub open spec fn alert_views(v: Seq<Alert>) -> Seq<AlertView> {
    Seq::new(v.len(), |i: int| v[i]@)
}

impl Alert {
    pub fn new(ts: i64, mac: Option<String>, severity: Severity, kind: String, message: String) -> (r: Self)
        ensures
            r.ts == ts,
            r.mac == mac,
            r.severity == severity,
            r.kind == kind,
            r.message == message,
    {
        Alert { ts, mac, severity, kind, message }
    }
}

} // verus!
