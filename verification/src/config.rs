//! Runtime configuration: capture mode, interface, paths, intervals.

use vstd::prelude::*;

use crate::text::{ascii_lower, chars_eq, chars_of, lower_chars, push_chars, push_str, string_push};

verus! {

/// Where the tool sits on the network — this determines what traffic the
/// capture path can see and therefore how much of the feature set is usable.
#[derive(Clone, Copy, PartialEq, Eq, Debug, Structural)]
pub enum CaptureMode {
    /// Host is the router/gateway: sees *all* device traffic.
    Gateway,
    /// Host receives a switch SPAN/mirror feed: same visibility as gateway.
    Span,
    /// Ordinary host: its own traffic plus broadcast/multicast.
    Host,
}

impl Default for CaptureMode {
    fn default() -> (r: Self)
        ensures
            r == CaptureMode::Host,
    {
        CaptureMode::Host
    }
}

pub open spec fn capture_mode_name(m: CaptureMode) -> &'static str {
    match m {
        CaptureMode::Gateway => "gateway",
        CaptureMode::Span => "span",
        CaptureMode::Host => "host",
    }
}

/// The mode an already lower-cased name or alias denotes.
pub open spec fn capture_mode_of_name(s: Seq<char>) -> Option<CaptureMode> {
    if s == "gateway"@ || s == "gw"@ {
        Some(CaptureMode::Gateway)
    } else if s == "span"@ || s == "mirror"@ {
        Some(CaptureMode::Span)
    } else if s == "host"@ || s == "local"@ {
        Some(CaptureMode::Host)
    } else {
        None
    }
}

impl CaptureMode {
    /// Whether this mode can observe traffic between *other* hosts.
    pub fn sees_whole_lan(self) -> (r: bool)
        ensures
            r == (self == CaptureMode::Gateway || self == CaptureMode::Span),
    {
        match self {
            CaptureMode::Gateway | CaptureMode::Span => true,
            CaptureMode::Host => false,
        }
    }

    pub fn as_str(self) -> (r: &'static str)
        ensures
            r == capture_mode_name(self),
    {
        match self {
            CaptureMode::Gateway => "gateway",
            CaptureMode::Span => "span",
            CaptureMode::Host => "host",
        }
    }

    /// Parse a mode name (case-insensitive; `gw`, `mirror` and `local` are
    /// aliases), or explain what was wrong with it.
    pub fn parse(s: &str) -> (r: Result<CaptureMode, String>)
        ensures
            match r {
                Ok(m) => capture_mode_of_name(ascii_lower(s@)) == Some(m),
                Err(msg) => capture_mode_of_name(ascii_lower(s@)) is None && msg@
                    == "unknown capture mode `"@ + ascii_lower(s@)
                    + "` (expected gateway|span|host)"@,
            },
    {
        let raw = chars_of(s);
        let c = lower_chars(raw.as_slice());
        let names = [
            chars_of("gateway"),
            chars_of("gw"),
            chars_of("span"),
            chars_of("mirror"),
            chars_of("host"),
            chars_of("local"),
        ];
        if chars_eq(c.as_slice(), names[0].as_slice()) || chars_eq(c.as_slice(), names[1].as_slice()) {
            Ok(CaptureMode::Gateway)
        } else if chars_eq(c.as_slice(), names[2].as_slice()) || chars_eq(c.as_slice(), names[3].as_slice()) {
            Ok(CaptureMode::Span)
        } else if chars_eq(c.as_slice(), names[4].as_slice()) || chars_eq(c.as_slice(), names[5].as_slice()) {
            Ok(CaptureMode::Host)
        } else {
            let mut msg = String::new();
            push_str(&mut msg, "unknown capture mode `");
            push_chars(&mut msg, c.as_slice());
            push_str(&mut msg, "` (expected gateway|span|host)");
            Err(msg)
        }
    }
}

impl std::str::FromStr for CaptureMode {
    type Err = String;

    fn from_str(s: &str) -> (r: Result<Self, Self::Err>)
        ensures
            match r {
                Ok(m) => capture_mode_of_name(ascii_lower(s@)) == Some(m),
                Err(msg) => capture_mode_of_name(ascii_lower(s@)) is None && msg@
                    == "unknown capture mode `"@ + ascii_lower(s@)
                    + "` (expected gateway|span|host)"@,
            },
    {
        CaptureMode::parse(s)
    }
}

/// Every mode's name parses back to it.
pub proof fn law_capture_mode_name_roundtrip(m: CaptureMode)
    ensures
        capture_mode_of_name(capture_mode_name(m)@) == Some(m),
{
    reveal_strlit("gateway");
    reveal_strlit("gw");
    reveal_strlit("span");
    reveal_strlit("mirror");
    reveal_strlit("host");
    reveal_strlit("local");
    assert("span"@.len() != "gateway"@.len());
    assert("span"@.len() != "gw"@.len());
    assert("host"@[0] != "span"@[0]);
    assert("host"@.len() != "gateway"@.len());
    assert("host"@.len() != "gw"@.len());
    assert("host"@.len() != "mirror"@.len());
}

/// Fully resolved configuration for a capture session.
#[derive(Clone, Debug)]
pub struct Config {
    pub mode: CaptureMode,
    pub interface: String,
    /// SQLite database path.
    pub db_path: String,
    /// How often, in seconds, the flow table is drained.
    pub flow_drain_interval_secs: u64,
    /// Optional ONNX model path.
    pub model_path: Option<String>,
}

impl Config {
    /// A configuration with the default drain interval (2 s) and no model.
    /// `db_path` is where the database lives (by default under the user's
    /// data directory, which the caller resolves from the environment).
    pub fn new(mode: CaptureMode, interface: String, db_path: String) -> (r: Self)
        ensures
            r.mode == mode,
            r.interface == interface,
            r.db_path == db_path,
            r.flow_drain_interval_secs == 2,
            r.model_path is None,
    {
        Config { mode, interface, db_path, flow_drain_interval_secs: 2, model_path: None }
    }
}

/// `Path::join` of a relative component: the component alone after an
/// empty base, appended directly after a trailing `/`, otherwise after a `/`.
pub open spec fn path_join(base: Seq<char>, part: Seq<char>) -> Seq<char> {
    if base.len() == 0 {
        part
    } else if base.last() == '/' {
        base + part
    } else {
        base + seq!['/'] + part
    }
}

/// Where the database lives by default, given the values of `XDG_DATA_HOME`
/// and `HOME`: `lanscope/lanscope.db` under the XDG data directory, else
/// under `$HOME/.local/share`, else under the current directory.
pub open spec fn default_db_text(xdg_data_home: Option<Seq<char>>, home: Option<Seq<char>>) -> Seq<
    char,
> {
    let base = match xdg_data_home {
        Some(x) => x,
        None => match home {
            Some(h) => path_join(h, ".local/share"@),
            None => "."@,
        },
    };
    path_join(path_join(base, "lanscope"@), "lanscope.db"@)
}

fn join_path(base: String, part: &str) -> (r: String)
    ensures
        r@ == path_join(base@, part@),
{
    let chars = chars_of(base.as_str());
    if chars.len() == 0 {
        return String::from_str(part);
    }
    let mut r = base;
    if chars[chars.len() - 1] != '/' {
        string_push(&mut r, '/');
    }
    push_str(&mut r, part);
    r
}

/// The default database path, given the values of `XDG_DATA_HOME` and
/// `HOME`.
pub fn default_db_path(xdg_data_home: Option<String>, home: Option<String>) -> (r: String)
    ensures
        r@ == default_db_text(
            match xdg_data_home {
                Some(x) => Some(x@),
                None => None,
            },
            match home {
                Some(h) => Some(h@),
                None => None,
            },
        ),
{
    let base = match xdg_data_home {
        Some(x) => x,
        None => match home {
            Some(h) => join_path(h, ".local/share"),
            None => String::from_str("."),
        },
    };
    join_path(join_path(base, "lanscope"), "lanscope.db")
}

} // verus!
