//! Anomaly detection.
//!
//! Detection is split into small, single-purpose [`Detector`]s composed by an
//! [`Engine`]. Each detector reacts to the two event streams (device updates
//! and flow snapshots) and emits [`Alert`]s. Detectors are stateful but free
//! of I/O, and take an explicit `now`, so they're deterministic.

pub mod heuristics;

use vstd::prelude::*;

use crate::alert::{alert_views, Alert, AlertView};
use crate::common::{FlowKey, FlowStats};
use crate::registry::{Change, Device, DeviceView};
use heuristics::{new_device_alert, NewDeviceDetector, PortScanDetector, ScanView};

verus! {

/// A single anomaly heuristic. A detector of this library states, over its
/// own state, which alerts it raises for a device event and for a flow; one
/// written elsewhere states nothing, and nothing is claimed of its alerts.
pub trait Detector: Send {
    /// Whether `device_alerts` and `flow_alerts` say what this detector
    /// raises.
    open spec fn stated(&self) -> bool {
        false
    }

    /// The alerts this detector, in its current state, raises for a device
    /// event.
    open spec fn device_alerts(&self, device: DeviceView, change: Change, now: i64) -> Seq<AlertView> {
        seq![]
    }

    /// The alerts this detector, in its current state, raises for a flow.
    open spec fn flow_alerts(&self, key: FlowKey, stats: FlowStats, now: i64) -> Seq<AlertView> {
        seq![]
    }

    /// React to a device being created or updated.
    fn on_device(&mut self, device: &Device, change: Change, now: i64) -> (r: Vec<Alert>)
        ensures
            final(self).stated() == old(self).stated(),
            old(self).stated() ==> alert_views(r@) == old(self).device_alerts(device@, change, now),
    ;

    /// React to a flow seen in a snapshot.
    fn on_flow(&mut self, key: &FlowKey, stats: &FlowStats, now: i64) -> (r: Vec<Alert>)
        ensures
            final(self).stated() == old(self).stated(),
            old(self).stated() ==> alert_views(r@) == old(self).flow_alerts(*key, *stats, now),
    ;
}

/// Runs of alerts joined end to end, in order.
pub open spec fn joined(parts: Seq<Seq<AlertView>>) -> Seq<AlertView>
    decreases parts.len(),
{
    if parts.len() == 0 {
        seq![]
    } else {
        joined(parts.drop_last()) + parts.last()
    }
}

/// A detector as the engine holds it: one of this library's heuristics, or
/// any other detector behind a trait object.
pub enum Registered {
    NewDevice(NewDeviceDetector),
    PortScan(PortScanDetector),
    Other(Box<dyn Detector>),
}

impl Detector for Registered {
    /// The library's heuristics state their alerts; other detectors do not.
    open spec fn stated(&self) -> bool {
        match self {
            Registered::Other(_) => false,
            _ => true,
        }
    }

    open spec fn device_alerts(&self, device: DeviceView, change: Change, now: i64) -> Seq<AlertView> {
        match self {
            Registered::NewDevice(d) => d.device_alerts(device, change, now),
            Registered::PortScan(d) => d.device_alerts(device, change, now),
            Registered::Other(_) => seq![],
        }
    }

    open spec fn flow_alerts(&self, key: FlowKey, stats: FlowStats, now: i64) -> Seq<AlertView> {
        match self {
            Registered::NewDevice(d) => d.flow_alerts(key, stats, now),
            Registered::PortScan(d) => d.flow_alerts(key, stats, now),
            Registered::Other(_) => seq![],
        }
    }

    fn on_device(&mut self, device: &Device, change: Change, now: i64) -> (r: Vec<Alert>) {
        match self {
            Registered::NewDevice(d) => d.on_device(device, change, now),
            Registered::PortScan(d) => d.on_device(device, change, now),
            Registered::Other(d) => d.on_device(device, change, now),
        }
    }

    fn on_flow(&mut self, key: &FlowKey, stats: &FlowStats, now: i64) -> (r: Vec<Alert>) {
        match self {
            Registered::NewDevice(d) => d.on_flow(key, stats, now),
            Registered::PortScan(d) => d.on_flow(key, stats, now),
            Registered::Other(d) => d.on_flow(key, stats, now),
        }
    }
}

/// Fans events out to a set of detectors and concatenates their alerts.
pub struct Engine {
    detectors: Vec<Registered>,
}

impl Engine {
    /// The registered detectors, in registration order.
    pub closed spec fn detectors(&self) -> Seq<Registered> {
        self.detectors@
    }

    /// Number of registered detectors.
    pub open spec fn detector_count(&self) -> nat {
        self.detectors().len()
    }

    /// Every registered detector states its alerts.
    pub open spec fn all_stated(&self) -> bool {
        forall|i: int| 0 <= i < self.detectors().len() ==> #[trigger] self.detectors()[i].stated()
    }

    /// Each detector states its alerts exactly when it did before.
    pub open spec fn keeps_stated(&self, before: &Engine) -> bool {
        &&& self.detectors().len() == before.detectors().len()
        &&& forall|i: int|
            0 <= i < self.detectors().len() ==> #[trigger] self.detectors()[i].stated()
                == before.detectors()[i].stated()
    }

    /// What the engine raises for a device event when every detector states
    /// its alerts: every detector's alerts, in registration order.
    pub open spec fn device_alerts(&self, device: DeviceView, change: Change, now: i64) -> Seq<
        AlertView,
    > {
        joined(
            Seq::new(
                self.detectors().len(),
                |i: int| self.detectors()[i].device_alerts(device, change, now),
            ),
        )
    }

    /// What the engine raises for a flow when every detector states its
    /// alerts: every detector's alerts, in registration order.
    pub open spec fn flow_alerts(&self, key: FlowKey, stats: FlowStats, now: i64) -> Seq<AlertView> {
        joined(
            Seq::new(
                self.detectors().len(),
                |i: int| self.detectors()[i].flow_alerts(key, stats, now),
            ),
        )
    }

    /// `runs` holds one run of alerts per detector, in registration order,
    /// and a detector that states its alerts for the device event ran
    /// exactly those.
    pub open spec fn device_runs(
        &self,
        runs: Seq<Seq<AlertView>>,
        device: DeviceView,
        change: Change,
        now: i64,
    ) -> bool {
        &&& runs.len() == self.detectors().len()
        &&& forall|i: int|
            0 <= i < runs.len() && #[trigger] self.detectors()[i].stated() ==> runs[i]
                == self.detectors()[i].device_alerts(device, change, now)
    }

    /// `runs` holds one run of alerts per detector, in registration order,
    /// and a detector that states its alerts for the flow ran exactly those.
    pub open spec fn flow_runs(
        &self,
        runs: Seq<Seq<AlertView>>,
        key: FlowKey,
        stats: FlowStats,
        now: i64,
    ) -> bool {
        &&& runs.len() == self.detectors().len()
        &&& forall|i: int|
            0 <= i < runs.len() && #[trigger] self.detectors()[i].stated() ==> runs[i]
                == self.detectors()[i].flow_alerts(key, stats, now)
    }

    /// `alerts` is what the engine raises for a device event: its detectors'
    /// runs joined in registration order.
    pub open spec fn raises_for_device(
        &self,
        device: DeviceView,
        change: Change,
        now: i64,
        alerts: Seq<AlertView>,
    ) -> bool {
        exists|runs: Seq<Seq<AlertView>>|
            #[trigger] self.device_runs(runs, device, change, now) && joined(runs) == alerts
    }

    /// `alerts` is what the engine raises for a flow: its detectors' runs
    /// joined in registration order.
    pub open spec fn raises_for_flow(
        &self,
        key: FlowKey,
        stats: FlowStats,
        now: i64,
        alerts: Seq<AlertView>,
    ) -> bool {
        exists|runs: Seq<Seq<AlertView>>|
            #[trigger] self.flow_runs(runs, key, stats, now) && joined(runs) == alerts
    }

    /// When every detector states its alerts, what the engine raises for a
    /// device event is exactly their alerts, joined in registration order.
    pub proof fn law_stated_device_alerts(
        &self,
        device: DeviceView,
        change: Change,
        now: i64,
        alerts: Seq<AlertView>,
    )
        requires
            self.all_stated(),
            self.raises_for_device(device, change, now, alerts),
        ensures
            alerts == self.device_alerts(device, change, now),
    {
        let runs = choose|runs: Seq<Seq<AlertView>>|
            #[trigger] self.device_runs(runs, device, change, now) && joined(runs) == alerts;
        let all = Seq::new(
            self.detectors().len(),
            |i: int| self.detectors()[i].device_alerts(device, change, now),
        );
        assert forall|i: int| 0 <= i < runs.len() implies runs[i] == all[i] by {
            assert(self.detectors()[i].stated());
        }
        assert(runs =~= all);
    }

    /// When every detector states its alerts, what the engine raises for a
    /// flow is exactly their alerts, joined in registration order.
    pub proof fn law_stated_flow_alerts(
        &self,
        key: FlowKey,
        stats: FlowStats,
        now: i64,
        alerts: Seq<AlertView>,
    )
        requires
            self.all_stated(),
            self.raises_for_flow(key, stats, now, alerts),
        ensures
            alerts == self.flow_alerts(key, stats, now),
    {
        let runs = choose|runs: Seq<Seq<AlertView>>|
            #[trigger] self.flow_runs(runs, key, stats, now) && joined(runs) == alerts;
        let all = Seq::new(
            self.detectors().len(),
            |i: int| self.detectors()[i].flow_alerts(key, stats, now),
        );
        assert forall|i: int| 0 <= i < runs.len() implies runs[i] == all[i] by {
            assert(self.detectors()[i].stated());
        }
        assert(runs =~= all);
    }

    pub fn new() -> (r: Self)
        ensures
            r.detectors() == Seq::<Registered>::empty(),
    {
        Engine { detectors: Vec::new() }
    }

    /// Builder-style registration.
    pub fn with(self, detector: Box<dyn Detector>) -> (r: Self)
        ensures
            r.detectors() == self.detectors().push(Registered::Other(detector)),
    {
        let mut detectors = self.detectors;
        detectors.push(Registered::Other(detector));
        Engine { detectors }
    }

    /// The shape of the standard stack: the new-device heuristic, the
    /// port-scan heuristic, then one other detector.
    pub open spec fn is_standard(&self) -> bool {
        &&& self.detectors().len() == 3
        &&& self.detectors()[0] is NewDevice
        &&& self.detectors()[1] is PortScan
        &&& self.detectors()[2] is Other
    }

    /// The standard stack: the new-device and port-scan heuristics, then the
    /// volume-spike detector, which works in floating point and is built by
    /// the caller. The port-scan heuristic starts with no scans, a window of
    /// 10 seconds and a threshold of 20 ports.
    pub fn default_stack(volume_spike: Box<dyn Detector>) -> (r: Self)
        ensures
            r.is_standard(),
            r.detectors()[0] == Registered::NewDevice(NewDeviceDetector),
            r.detectors()[1] matches Registered::PortScan(p) && p.scans() == Map::<u32, ScanView>::empty()
                && p.window() == 10 && p.threshold() == 20,
            r.detectors()[2] == Registered::Other(volume_spike),
    {
        let scan = PortScanDetector::default();
        let detectors: Vec<Registered> = vec![
            Registered::NewDevice(NewDeviceDetector),
            Registered::PortScan(scan),
            Registered::Other(volume_spike),
        ];
        Engine { detectors }
    }

    /// In the standard stack, what the engine raises for a device event
    /// starts with the new-device heuristic's alerts (the port-scan
    /// heuristic raises none); the rest is the other detector's run.
    pub proof fn law_standard_device_alerts(
        &self,
        device: DeviceView,
        change: Change,
        now: i64,
        alerts: Seq<AlertView>,
    )
        requires
            self.is_standard(),
            self.raises_for_device(device, change, now, alerts),
        ensures
            ({
                let first = self.detectors()[0].device_alerts(device, change, now);
                &&& first == (if change == Change::NewDevice {
                    seq![new_device_alert(device, now)]
                } else {
                    seq![]
                })
                &&& first.len() <= alerts.len()
                &&& alerts.take(first.len() as int) == first
            }),
    {
        let runs = choose|runs: Seq<Seq<AlertView>>|
            #[trigger] self.device_runs(runs, device, change, now) && joined(runs) == alerts;
        assert(self.detectors()[0].stated() && self.detectors()[1].stated());
        assert(runs.take(1).drop_last() =~= seq![]);
        assert(joined(runs.take(1).drop_last()) =~= seq![]);
        assert(runs.take(1).last() == runs[0]);
        assert(runs.take(2).drop_last() =~= runs.take(1));
        assert(runs.take(3).drop_last() =~= runs.take(2));
        assert(runs.take(3) =~= runs);
        assert(joined(runs.take(1)) =~= runs[0]);
        assert(runs[1] =~= seq![]);
        assert(joined(runs.take(2)) =~= runs[0]);
        assert(alerts =~= runs[0] + runs[2]);
        assert(alerts.take(runs[0].len() as int) =~= runs[0]);
    }

    /// In the standard stack, what the engine raises for a flow is the
    /// port-scan heuristic's alerts (the new-device heuristic raises none)
    /// followed by the other detector's run.
    pub proof fn law_standard_flow_alerts(
        &self,
        key: FlowKey,
        stats: FlowStats,
        now: i64,
        alerts: Seq<AlertView>,
    )
        requires
            self.is_standard(),
            self.raises_for_flow(key, stats, now, alerts),
        ensures
            ({
                let first = self.detectors()[1].flow_alerts(key, stats, now);
                &&& first.len() <= alerts.len()
                &&& alerts.take(first.len() as int) == first
            }),
    {
        let runs = choose|runs: Seq<Seq<AlertView>>|
            #[trigger] self.flow_runs(runs, key, stats, now) && joined(runs) == alerts;
        assert(self.detectors()[0].stated() && self.detectors()[1].stated());
        assert(runs.take(1).drop_last() =~= seq![]);
        assert(joined(runs.take(1).drop_last()) =~= seq![]);
        assert(runs.take(1).last() == runs[0]);
        assert(runs.take(2).drop_last() =~= runs.take(1));
        assert(runs.take(3).drop_last() =~= runs.take(2));
        assert(runs.take(3) =~= runs);
        assert(runs[0] =~= seq![]);
        assert(joined(runs.take(1)) =~= seq![]);
        assert(joined(runs.take(2)) =~= runs[1]);
        assert(alerts =~= runs[1] + runs[2]);
        assert(alerts.take(runs[1].len() as int) =~= runs[1]);
    }

    /// Every detector's alerts for a device event, detector by detector, in
    /// registration order; each detector is handed the device, the change
    /// and the time.
    pub fn on_device(&mut self, device: &Device, change: Change, now: i64) -> (r: Vec<Alert>)
        ensures
            final(self).keeps_stated(old(self)),
            old(self).raises_for_device(device@, change, now, alert_views(r@)),
            old(self).all_stated() ==> alert_views(r@) == old(self).device_alerts(device@, change, now),
    {
        let ghost mut runs: Seq<Seq<AlertView>> = seq![];
        let mut out: Vec<Alert> = Vec::new();
        let mut i: usize = 0;
        while i < self.detectors.len()
            invariant
                self.detectors@.len() == old(self).detectors@.len(),
                i <= self.detectors@.len(),
                runs.len() == i,
                forall|j: int| i <= j < self.detectors@.len() ==> #[trigger] self.detectors@[j] == old(self).detectors@[j],
                forall|j: int| 0 <= j < i ==> #[trigger] self.detectors@[j].stated() == old(self).detectors@[j].stated(),
                forall|j: int|
                    0 <= j < i && #[trigger] old(self).detectors@[j].stated() ==> runs[j]
                        == old(self).detectors@[j].device_alerts(device@, change, now),
                alert_views(out@) == joined(runs),
            decreases self.detectors.len() - i,
        {
            let ghost before_out = out@;
            let ghost before_runs = runs;
            let mut alerts = self.detectors[i].on_device(device, change, now);
            let ghost run = alert_views(alerts@);
            out.append(&mut alerts);
            proof {
                runs = runs.push(run);
                assert(runs.drop_last() == before_runs);
                assert(alert_views(out@) =~= alert_views(before_out) + run);
            }
            i += 1;
        }
        proof {
            assert(old(self).device_runs(runs, device@, change, now));
            if old(self).all_stated() {
                old(self).law_stated_device_alerts(device@, change, now, alert_views(out@));
            }
        }
        out
    }

    /// Every detector's alerts for a flow, detector by detector, in
    /// registration order; each detector is handed the key, the counters and
    /// the time.
    pub fn on_flow(&mut self, key: &FlowKey, stats: &FlowStats, now: i64) -> (r: Vec<Alert>)
        ensures
            final(self).keeps_stated(old(self)),
            old(self).raises_for_flow(*key, *stats, now, alert_views(r@)),
            old(self).all_stated() ==> alert_views(r@) == old(self).flow_alerts(*key, *stats, now),
    {
        let ghost mut runs: Seq<Seq<AlertView>> = seq![];
        let mut out: Vec<Alert> = Vec::new();
        let mut i: usize = 0;
        while i < self.detectors.len()
            invariant
                self.detectors@.len() == old(self).detectors@.len(),
                i <= self.detectors@.len(),
                runs.len() == i,
                forall|j: int| i <= j < self.detectors@.len() ==> #[trigger] self.detectors@[j] == old(self).detectors@[j],
                forall|j: int| 0 <= j < i ==> #[trigger] self.detectors@[j].stated() == old(self).detectors@[j].stated(),
                forall|j: int|
                    0 <= j < i && #[trigger] old(self).detectors@[j].stated() ==> runs[j]
                        == old(self).detectors@[j].flow_alerts(*key, *stats, now),
                alert_views(out@) == joined(runs),
            decreases self.detectors.len() - i,
        {
            let ghost before_out = out@;
            let ghost before_runs = runs;
            let mut alerts = self.detectors[i].on_flow(key, stats, now);
            let ghost run = alert_views(alerts@);
            out.append(&mut alerts);
            proof {
                runs = runs.push(run);
                assert(runs.drop_last() == before_runs);
                assert(alert_views(out@) =~= alert_views(before_out) + run);
            }
            i += 1;
        }
        proof {
            assert(old(self).flow_runs(runs, *key, *stats, now));
            if old(self).all_stated() {
                old(self).law_stated_flow_alerts(*key, *stats, now, alert_views(out@));
            }
        }
        out
    }
}

} // verus!
