//! The snapshot of pipeline state that the terminal dashboard renders: the
//! device list, most recently seen first, and a bounded feed of alerts,
//! newest first. Drawing and input handling live with the binary.

use std::collections::VecDeque;

use vstd::prelude::*;

use crate::alert::{Alert, Severity};
use crate::registry::{device_views, Device};
use crate::report::{by_recency, sort_by_recency};

verus! {

/// Maximum alerts retained for the live feed.
pub const MAX_ALERTS: usize = 200;

/// Snapshot of pipeline state shared with the renderer.
pub struct Dashboard {
    pub backend: String,
    pub mode: String,
    pub devices: Vec<Device>,
    pub alerts: VecDeque<Alert>,
}

/// The alert feed after `a` arrives: newest first, the oldest dropped beyond
/// the cap.
pub open spec fn feed_after(feed: Seq<Alert>, a: Alert) -> Seq<Alert> {
    let s = seq![a] + feed;
    if s.len() <= MAX_ALERTS {
        s
    } else {
        s.take(MAX_ALERTS as int)
    }
}

impl Dashboard {
    pub fn new(backend: String, mode: String) -> (r: Self)
        ensures
            r.backend == backend,
            r.mode == mode,
            r.devices@.len() == 0,
            r.alerts@.len() == 0,
    {
        Dashboard { backend, mode, devices: Vec::new(), alerts: VecDeque::new() }
    }

    /// Replace the device list (sorted most-recently-seen first).
    pub fn set_devices(&mut self, devices: Vec<Device>)
        ensures
            device_views(final(self).devices@) == by_recency(device_views(devices@)),
            final(self).backend == old(self).backend,
            final(self).mode == old(self).mode,
            final(self).alerts == old(self).alerts,
    {
        self.devices = sort_by_recency(devices);
    }

    /// Push a new alert, evicting the oldest beyond the cap.
    pub fn push_alert(&mut self, alert: Alert)
        ensures
            final(self).alerts@ == feed_after(old(self).alerts@, alert),
            final(self).alerts@.len() <= MAX_ALERTS,
            final(self).backend == old(self).backend,
            final(self).mode == old(self).mode,
            final(self).devices == old(self).devices,
    {
        self.alerts.push_front(alert);
        self.alerts.truncate(MAX_ALERTS);
    }
}

/// The alerts of a feed above `Info` severity.
pub open spec fn warning_count(feed: Seq<Alert>) -> nat
    decreases feed.len(),
{
    if feed.len() == 0 {
        0
    } else {
        warning_count(feed.drop_last()) + (if feed.last().severity == Severity::Info {
            0nat
        } else {
            1nat
        })
    }
}

impl Dashboard {
    /// Number of alerts in the feed above `Info` severity.
    pub fn warnings(&self) -> (r: usize)
        ensures
            r == warning_count(self.alerts@),
    {
        let mut n: usize = 0;
        let mut i: usize = 0;
        while i < self.alerts.len()
            invariant
                i <= self.alerts@.len(),
                n == warning_count(self.alerts@.take(i as int)),
                n <= i,
            decreases self.alerts.len() - i,
        {
            assert(self.alerts@.take(i + 1).drop_last() == self.alerts@.take(i as int));
            let info = match self.alerts[i].severity {
                Severity::Info => true,
                _ => false,
            };
            if !info {
                n += 1;
            }
            i += 1;
        }
        assert(self.alerts@.take(self.alerts@.len() as int) == self.alerts@);
        n
    }
}

/// A key the dashboard reacts to.
pub enum Key {
    Char(char),
    Up,
    Down,
    Esc,
    Other,
}

/// What a key press does on the dashboard.
pub enum KeyAction {
    Quit,
    /// Move the selection by this many rows.
    Move(isize),
    Ignore,
}

/// `q` and `Esc` quit; `j` and the down arrow move down a row; `k` and the
/// up arrow move up a row; other keys do nothing.
pub open spec fn key_action_spec(key: Key) -> KeyAction {
    match key {
        Key::Char(c) => if c == 'q' {
            KeyAction::Quit
        } else if c == 'j' {
            KeyAction::Move(1isize)
        } else if c == 'k' {
            KeyAction::Move(-1isize)
        } else {
            KeyAction::Ignore
        },
        Key::Esc => KeyAction::Quit,
        Key::Down => KeyAction::Move(1isize),
        Key::Up => KeyAction::Move(-1isize),
        Key::Other => KeyAction::Ignore,
    }
}

/// What a key press does on the dashboard.
pub fn key_action(key: Key) -> (r: KeyAction)
    ensures
        r == key_action_spec(key),
{
    match key {
        Key::Char(c) => if c == 'q' {
            KeyAction::Quit
        } else if c == 'j' {
            KeyAction::Move(1)
        } else if c == 'k' {
            KeyAction::Move(-1)
        } else {
            KeyAction::Ignore
        },
        Key::Esc => KeyAction::Quit,
        Key::Down => KeyAction::Move(1),
        Key::Up => KeyAction::Move(-1),
        Key::Other => KeyAction::Ignore,
    }
}

/// The table row selected after moving `delta` rows from `selected` (the
/// first row when nothing is selected; the index is taken as an `isize`),
/// wrapping around a table of `len` rows; nothing is selected in an empty
/// table.
pub fn moved_selection(selected: Option<usize>, delta: isize, len: usize) -> (r: Option<usize>)
    requires
        len <= isize::MAX,
        len > 0 ==> isize::MIN <= (match selected {
            Some(c) => (c as isize) as int,
            None => 0int,
        }) + delta <= isize::MAX,
    ensures
        len == 0 ==> r is None,
        len > 0 ==> r == Some(
            (((match selected {
                Some(c) => (c as isize) as int,
                None => 0int,
            }) + delta) % (len as int)) as usize,
        ),
{
    if len == 0 {
        return None;
    }
    let cur: isize = match selected {
        Some(c) => c as isize,
        None => 0,
    };
    let sum: isize = cur + delta;
    if sum >= 0 {
        let r: usize = (sum as usize) % len;
        return Some(r);
    }
    let neg: usize = (0i128 - sum as i128) as usize;
    let rest: usize = neg % len;
    let wrapped: usize = if rest == 0 {
        0
    } else {
        len - rest
    };
    proof {
        let s = sum as int;
        let l = len as int;
        let q = (-s) / l;
        vstd::arithmetic::div_mod::lemma_fundamental_div_mod(-s, l);
        assert(-s == l * q + rest);
        if rest == 0 {
            assert(s == (-q) * l + 0) by (nonlinear_arith)
                requires
                    -s == l * q,
            ;
            vstd::arithmetic::div_mod::lemma_fundamental_div_mod_converse(s, l, -q, 0);
        } else {
            assert(s == (-q - 1) * l + (l - rest)) by (nonlinear_arith)
                requires
                    -s == l * q + rest,
            ;
            vstd::arithmetic::div_mod::lemma_fundamental_div_mod_converse(s, l, -q - 1, l - rest);
        }
    }
    Some(wrapped)
}

} // verus!
