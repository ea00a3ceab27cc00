//! The agent's per-event decisions: how a capture event changes the device
//! registry and what has to be persisted or reported as a result. The
//! agent's event loop performs the effects (storage, logging, metrics, the
//! dashboard); everything it decides is here.

use vstd::prelude::*;

use crate::alert::{alert_views, Alert, AlertView};
use crate::capture::CaptureEvent;
use crate::anomaly::{joined, Detector, Engine};
use crate::common::{Event, FlowKey, FlowStats, Ipv4Be, MacAddr};
use crate::config::{CaptureMode, Config};
use crate::decode::{decode_event, event_ip, event_signals, SpecSignal};
use crate::fingerprint::oui::is_zero_mac;
use crate::fingerprint::rules::{classification_of, haystack};
use crate::fingerprint::{Fingerprinter, RuleFingerprinter};
use crate::netfmt::{mac_of_text, parse_mac};
use crate::registry::{
    device_views, flow_applied, law_mac_key_roundtrip, law_observation_keeps_record, mac_key,
    now_unix, observed,
    record_well_kept, opt_text, texts, Change, Device, DeviceRegistry, DeviceView,
};

verus! {

/// Something the agent must do as a result of an event.
pub enum Effect {
    /// Persist a newly discovered device right away.
    PersistDevice(Device),
    /// Log, persist and surface an alert.
    EmitAlert(Alert),
}

/// A device view with the device type the rule fingerprinter infers for it.
pub open spec fn retyped(d: DeviceView) -> DeviceView {
    DeviceView {
        device_type: match classification_of(d) {
            Some(c) => Some(c.device_type),
            None => None,
        },
        ..d
    }
}

/// The devices after one observation: the all-zero MAC (a capture artifact,
/// e.g. on the loopback interface) is skipped; otherwise the device is
/// observed and its type re-inferred.
pub open spec fn after_observation(
    devs: Map<u64, DeviceView>,
    mac: MacAddr,
    ip: Option<Ipv4Be>,
    s: SpecSignal,
    now: i64,
) -> Map<u64, DeviceView> {
    if is_zero_mac(mac) {
        devs
    } else {
        let k = mac_key(mac);
        let prev = if devs.contains_key(k) {
            Some(devs[k])
        } else {
            None
        };
        devs.insert(k, retyped(observed(prev, mac, ip, s, now)))
    }
}

/// The devices after a run of observations of one source.
pub open spec fn after_signals(
    devs: Map<u64, DeviceView>,
    mac: MacAddr,
    ip: Option<Ipv4Be>,
    sigs: Seq<SpecSignal>,
    now: i64,
) -> Map<u64, DeviceView>
    decreases sigs.len(),
{
    if sigs.len() == 0 {
        devs
    } else {
        after_observation(after_signals(devs, mac, ip, sigs.drop_last(), now), mac, ip, sigs.last(), now)
    }
}

/// Every record in the registry is well kept.
pub open spec fn all_well_kept(devs: Map<u64, DeviceView>) -> bool {
    forall|k: u64| #[trigger] devs.contains_key(k) ==> record_well_kept(devs[k])
}

/// Folding a discovery event in keeps every record well kept: services stay
/// distinct and capped, addresses stay distinct.
pub proof fn law_discovery_keeps_records(
    devs: Map<u64, DeviceView>,
    mac: MacAddr,
    ip: Option<Ipv4Be>,
    sigs: Seq<SpecSignal>,
    now: i64,
)
    requires
        all_well_kept(devs),
    ensures
        all_well_kept(after_signals(devs, mac, ip, sigs, now)),
    decreases sigs.len(),
{
    if sigs.len() > 0 {
        law_discovery_keeps_records(devs, mac, ip, sigs.drop_last(), now);
        let before = after_signals(devs, mac, ip, sigs.drop_last(), now);
        if !is_zero_mac(mac) {
            let k = mac_key(mac);
            let prev = if before.contains_key(k) {
                Some(before[k])
            } else {
                None
            };
            law_observation_keeps_record(prev, mac, ip, sigs.last(), now);
        }
    }
}

/// Folding a discovery event in leaves the record of the all-zero MAC as it
/// was: present exactly when it was before, and unchanged.
pub proof fn law_discovery_leaves_zero_mac(
    devs: Map<u64, DeviceView>,
    mac: MacAddr,
    ip: Option<Ipv4Be>,
    sigs: Seq<SpecSignal>,
    now: i64,
    zero: MacAddr,
)
    requires
        is_zero_mac(zero),
    ensures
        ({
            let after = after_signals(devs, mac, ip, sigs, now);
            let k = mac_key(zero);
            &&& after.contains_key(k) == devs.contains_key(k)
            &&& devs.contains_key(k) ==> after[k] == devs[k]
        }),
    decreases sigs.len(),
{
    if sigs.len() > 0 {
        law_discovery_leaves_zero_mac(devs, mac, ip, sigs.drop_last(), now, zero);
        if !is_zero_mac(mac) {
            law_mac_key_roundtrip(mac);
            law_mac_key_roundtrip(zero);
            if mac_key(mac) == mac_key(zero) {
                assert(mac[0] == zero[0] && mac[1] == zero[1] && mac[2] == zero[2]);
                assert(mac[3] == zero[3] && mac[4] == zero[4] && mac[5] == zero[5]);
            }
        }
    }
}

/// After a discovery event of a non-zero MAC with at least one
/// observation, the device's type is the one the rule fingerprinter infers
/// for its record.
pub proof fn law_discovered_device_is_classified(
    devs: Map<u64, DeviceView>,
    mac: MacAddr,
    ip: Option<Ipv4Be>,
    sigs: Seq<SpecSignal>,
    now: i64,
)
    requires
        !is_zero_mac(mac),
        sigs.len() > 0,
    ensures
        ({
            let d = after_signals(devs, mac, ip, sigs, now)[mac_key(mac)];
            d.device_type == match classification_of(d) {
                Some(c) => Some(c.device_type),
                None => None,
            }
        }),
{
    let before = after_signals(devs, mac, ip, sigs.drop_last(), now);
    let k = mac_key(mac);
    let prev = if before.contains_key(k) {
        Some(before[k])
    } else {
        None
    };
    let d = observed(prev, mac, ip, sigs.last(), now);
    assert(haystack(retyped(d)) == haystack(d));
}

/// The mathematical content of an [`Effect`].
pub enum EffectView {
    PersistDevice(DeviceView),
    EmitAlert(AlertView),
}

/// The views of a sequence of effects.
pub open spec fn effect_views(v: Seq<Effect>) -> Seq<EffectView> {
    Seq::new(
        v.len(),
        |i: int|
            match v[i] {
                Effect::PersistDevice(d) => EffectView::PersistDevice(d@),
                Effect::EmitAlert(a) => EffectView::EmitAlert(a@),
            },
    )
}

/// Each alert as an effect that emits it, in order.
pub open spec fn emits(alerts: Seq<AlertView>) -> Seq<EffectView> {
    Seq::new(alerts.len(), |i: int| EffectView::EmitAlert(alerts[i]))
}

/// `engines` traces the anomaly engine through `n` steps, from `first` to
/// `last`: `engines[j]` is its state when step `j` is handled, and every
/// detector states its alerts in each state exactly when it did in the
/// first.
pub open spec fn engine_trace(engines: Seq<Engine>, n: nat, first: Engine, last: Engine) -> bool {
    &&& engines.len() == n + 1
    &&& engines[0] == first
    &&& engines[n as int] == last
    &&& forall|j: int| 0 <= j <= n ==> #[trigger] engines[j].keeps_stated(&first)
}

/// The device record right after the observation `sigs[j]` is folded in.
pub open spec fn device_after_step(
    devs: Map<u64, DeviceView>,
    mac: MacAddr,
    ip: Option<Ipv4Be>,
    sigs: Seq<SpecSignal>,
    now: i64,
    j: int,
) -> DeviceView {
    after_signals(devs, mac, ip, sigs.take(j + 1), now)[mac_key(mac)]
}

/// Whether the observation `sigs[j]` creates the device or updates it.
pub open spec fn change_at_step(
    devs: Map<u64, DeviceView>,
    mac: MacAddr,
    ip: Option<Ipv4Be>,
    sigs: Seq<SpecSignal>,
    now: i64,
    j: int,
) -> Change {
    if after_signals(devs, mac, ip, sigs.take(j), now).contains_key(mac_key(mac)) {
        Change::Updated
    } else {
        Change::NewDevice
    }
}

/// `alerts[j]` is what the anomaly engine, in the state `engines[j]`,
/// raises for the device updated by the observation `sigs[j]` (there are
/// no observations of the all-zero MAC).
pub open spec fn discovery_raised(
    devs: Map<u64, DeviceView>,
    mac: MacAddr,
    ip: Option<Ipv4Be>,
    sigs: Seq<SpecSignal>,
    now: i64,
    engines: Seq<Engine>,
    alerts: Seq<Seq<AlertView>>,
) -> bool {
    &&& alerts.len() == sigs.len()
    &&& !is_zero_mac(mac) ==> forall|j: int|
        0 <= j < sigs.len() ==> #[trigger] engines[j].raises_for_device(
            device_after_step(devs, mac, ip, sigs, now, j),
            change_at_step(devs, mac, ip, sigs, now, j),
            now,
            alerts[j],
        )
}

/// The effects of folding the signals `sigs` of one source in, in order,
/// where the observation `sigs[j]` raises the alerts `alerts[j]`: for each
/// observation (none for the all-zero MAC), the device is persisted when it
/// is new, then each of its alerts is emitted.
pub open spec fn discovery_effects(
    devs: Map<u64, DeviceView>,
    mac: MacAddr,
    ip: Option<Ipv4Be>,
    sigs: Seq<SpecSignal>,
    now: i64,
    alerts: Seq<Seq<AlertView>>,
) -> Seq<EffectView>
    decreases sigs.len(),
{
    if sigs.len() == 0 || is_zero_mac(mac) {
        seq![]
    } else {
        let before = after_signals(devs, mac, ip, sigs.drop_last(), now);
        let k = mac_key(mac);
        let dev = after_observation(before, mac, ip, sigs.last(), now)[k];
        discovery_effects(devs, mac, ip, sigs.drop_last(), now, alerts) + (if before.contains_key(k) {
            seq![]
        } else {
            seq![EffectView::PersistDevice(dev)]
        }) + emits(alerts[sigs.len() - 1])
    }
}

proof fn lemma_discovery_effects_prefix(
    devs: Map<u64, DeviceView>,
    mac: MacAddr,
    ip: Option<Ipv4Be>,
    sigs: Seq<SpecSignal>,
    now: i64,
    a1: Seq<Seq<AlertView>>,
    a2: Seq<Seq<AlertView>>,
)
    requires
        forall|j: int| 0 <= j < sigs.len() ==> a1[j] == a2[j],
    ensures
        discovery_effects(devs, mac, ip, sigs, now, a1) == discovery_effects(devs, mac, ip, sigs, now, a2),
    decreases sigs.len(),
{
    if sigs.len() > 0 {
        lemma_discovery_effects_prefix(devs, mac, ip, sigs.drop_last(), now, a1, a2);
    }
}

/// An engine traced from a state where every detector states its alerts
/// has every detector state its alerts at each step.
proof fn lemma_trace_all_stated(engines: Seq<Engine>, n: nat, first: Engine, last: Engine, j: int)
    requires
        engine_trace(engines, n, first, last),
        first.all_stated(),
        0 <= j <= n,
    ensures
        engines[j].all_stated(),
{
    assert(engines[j].keeps_stated(&first));
    assert forall|i: int| 0 <= i < engines[j].detectors().len() implies #[trigger] engines[j].detectors()[i].stated() by {
        assert(first.detectors()[i].stated());
    }
}

/// When every detector of the anomaly engine states its alerts, each
/// observation of a discovery event raises exactly the alerts the engine,
/// in its state at that observation, states for the updated device.
pub proof fn law_stated_discovery_alerts(
    devs: Map<u64, DeviceView>,
    mac: MacAddr,
    ip: Option<Ipv4Be>,
    sigs: Seq<SpecSignal>,
    now: i64,
    engines: Seq<Engine>,
    alerts: Seq<Seq<AlertView>>,
    first: Engine,
    last: Engine,
)
    requires
        engine_trace(engines, sigs.len(), first, last),
        first.all_stated(),
        !is_zero_mac(mac),
        discovery_raised(devs, mac, ip, sigs, now, engines, alerts),
    ensures
        forall|j: int|
            0 <= j < sigs.len() ==> #[trigger] alerts[j] == engines[j].device_alerts(
                device_after_step(devs, mac, ip, sigs, now, j),
                change_at_step(devs, mac, ip, sigs, now, j),
                now,
            ),
{
    assert forall|j: int| 0 <= j < sigs.len() implies #[trigger] alerts[j] == engines[j].device_alerts(
        device_after_step(devs, mac, ip, sigs, now, j),
        change_at_step(devs, mac, ip, sigs, now, j),
        now,
    ) by {
        lemma_trace_all_stated(engines, sigs.len(), first, last, j);
        engines[j].law_stated_device_alerts(
            device_after_step(devs, mac, ip, sigs, now, j),
            change_at_step(devs, mac, ip, sigs, now, j),
            now,
            alerts[j],
        );
    }
}

fn clone_strings(v: &Vec<String>) -> (r: Vec<String>)
    ensures
        texts(r@) == texts(v@),
{
    let mut out: Vec<String> = Vec::new();
    let mut i: usize = 0;
    while i < v.len()
        invariant
            i <= v@.len(),
            out@.len() == i,
            forall|j: int| 0 <= j < i ==> #[trigger] out@[j]@ == v@[j]@,
        decreases v.len() - i,
    {
        out.push(v[i].clone());
        i += 1;
    }
    assert(texts(out@) =~= texts(v@));
    out
}

fn clone_opt(o: &Option<String>) -> (r: Option<String>)
    ensures
        opt_text(r) == opt_text(*o),
{
    match o {
        Some(s) => Some(s.clone()),
        None => None,
    }
}

/// A copy of a device record.
pub fn copy_device(d: &Device) -> (r: Device)
    ensures
        r@ == d@,
{
    Device {
        mac: d.mac.clone(),
        vendor: clone_opt(&d.vendor),
        hostname: clone_opt(&d.hostname),
        ips: clone_strings(&d.ips),
        services: clone_strings(&d.services),
        dhcp_fingerprint: clone_opt(&d.dhcp_fingerprint),
        dhcp_vendor_class: clone_opt(&d.dhcp_vendor_class),
        device_type: clone_opt(&d.device_type),
        first_seen: d.first_seen,
        last_seen: d.last_seen,
        packets: d.packets,
        bytes: d.bytes,
    }
}

/// Fold one observation of a non-zero MAC into the registry and re-infer
/// the device's type.
fn observe_and_classify(
    registry: &mut DeviceRegistry,
    obs: &crate::decode::Observation,
    now: i64,
    fingerprinter: &RuleFingerprinter,
) -> (r: (MacAddr, Change))
    requires
        old(registry).well_formed(),
        !is_zero_mac(obs.mac),
    ensures
        final(registry).well_formed(),
        r.0 == obs.mac,
        r.1 == (if old(registry).devices().contains_key(mac_key(obs.mac)) {
            Change::Updated
        } else {
            Change::NewDevice
        }),
        final(registry).devices() == after_observation(
            old(registry).devices(),
            obs.mac,
            obs.ip,
            obs.signal@,
            now,
        ),
{
    let ghost before = registry.devices();
    let ghost k = mac_key(obs.mac);
    let (m, change) = registry.observe(obs, now);
    let ghost prev = if before.contains_key(k) {
        Some(before[k])
    } else {
        None
    };
    let ghost after_obs = observed(prev, obs.mac, obs.ip, obs.signal@, now);
    let class = match registry.get(&m) {
        Some(d) => fingerprinter.classify(d),
        None => None,
    };
    let device_type = match class {
        Some(c) => Some(c.device_type),
        None => None,
    };
    let ghost mid = registry.devices();
    assert(mid.contains_key(k) && mid[k] == after_obs);
    registry.set_device_type(&m, device_type);
    proof {
        assert(opt_text(device_type) == retyped(after_obs).device_type);
        assert(registry.devices() =~= before.insert(k, retyped(after_obs)));
    }
    (m, change)
}

/// What folding the discovery event `ev` in at time `now` does: the
/// devices go from `before` to `after`, `count` observations are folded in,
/// and the effects are, observation by observation, the persistence of a
/// new device and the alerts the anomaly engine raises for the updated
/// device, the engine going from `engine_before` to `engine_after`.
pub open spec fn discovery_outcome(
    before: Map<u64, DeviceView>,
    after: Map<u64, DeviceView>,
    engine_before: Engine,
    engine_after: Engine,
    ev: Event,
    now: i64,
    count: u64,
    effects: Seq<Effect>,
) -> bool {
    &&& after == after_signals(before, ev.src_mac, event_ip(ev), event_signals(ev), now)
    &&& count == (if is_zero_mac(ev.src_mac) {
        0
    } else {
        event_signals(ev).len()
    })
    &&& exists|engines: Seq<Engine>, alerts: Seq<Seq<AlertView>>|
        #![trigger engine_trace(engines, event_signals(ev).len(), engine_before, engine_after), discovery_raised(before, ev.src_mac, event_ip(ev), event_signals(ev), now, engines, alerts)]
        {
            &&& engine_trace(engines, event_signals(ev).len(), engine_before, engine_after)
            &&& discovery_raised(before, ev.src_mac, event_ip(ev), event_signals(ev), now, engines, alerts)
            &&& effect_views(effects) == discovery_effects(
                before,
                ev.src_mac,
                event_ip(ev),
                event_signals(ev),
                now,
                alerts,
            )
        }
}

/// Fold one discovery event into the registry. Returns the number of
/// observations folded in and the effects to perform, in order: a newly
/// discovered device is persisted at once, and every alert the anomaly
/// engine raises for the updated device is emitted.
#[verifier::rlimit(60)]
pub fn handle_discovery(
    registry: &mut DeviceRegistry,
    ev: &Event,
    now: i64,
    fingerprinter: &RuleFingerprinter,
    anomaly: &mut Engine,
) -> (r: (u64, Vec<Effect>))
    requires
        old(registry).well_formed(),
    ensures
        final(registry).well_formed(),
        discovery_outcome(
            old(registry).devices(),
            final(registry).devices(),
            *old(anomaly),
            *final(anomaly),
            *ev,
            now,
            r.0,
            r.1@,
        ),
{
    let observations = decode_event(ev);
    let ghost sigs = event_signals(*ev);
    let ghost ip = event_ip(*ev);
    let ghost mac = ev.src_mac;
    let ghost start = registry.devices();
    let ghost k = mac_key(ev.src_mac);
    let ghost zero = is_zero_mac(ev.src_mac);
    let ghost mut engines: Seq<Engine> = seq![*anomaly];
    let ghost mut raised: Seq<Seq<AlertView>> = seq![];
    let mut effects: Vec<Effect> = Vec::new();
    let mut n: u64 = 0;
    let mut i: usize = 0;
    assert(sigs.take(0) =~= Seq::<SpecSignal>::empty());
    assert(effect_views(effects@) =~= seq![]);
    while i < observations.len()
        invariant
            i <= observations@.len(),
            observations@.len() == sigs.len(),
            forall|j: int|
                0 <= j < observations@.len() ==> {
                    &&& (#[trigger] observations@[j]).mac == ev.src_mac
                    &&& observations@[j].ip == ip
                    &&& observations@[j].signal@ == sigs[j]
                },
            mac == ev.src_mac,
            zero == is_zero_mac(ev.src_mac),
            k == mac_key(ev.src_mac),
            registry.well_formed(),
            registry.devices() == after_signals(start, mac, ip, sigs.take(i as int), now),
            n == (if zero {
                0
            } else {
                i as int
            }),
            engines.len() == i + 1,
            engines[0] == *old(anomaly),
            engines[i as int] == *anomaly,
            forall|j: int| 0 <= j <= i ==> #[trigger] engines[j].keeps_stated(old(anomaly)),
            raised.len() == i,
            !zero ==> forall|j: int|
                0 <= j < i ==> #[trigger] engines[j].raises_for_device(
                    device_after_step(start, mac, ip, sigs, now, j),
                    change_at_step(start, mac, ip, sigs, now, j),
                    now,
                    raised[j],
                ),
            effect_views(effects@) == discovery_effects(start, mac, ip, sigs.take(i as int), now, raised),
        decreases observations.len() - i,
    {
        let obs = &observations[i];
        let ghost before = registry.devices();
        let ghost eng_before = *anomaly;
        let ghost eff_before = effects@;
        let ghost t = sigs.take(i + 1);
        proof {
            assert(*obs == observations@[i as int]);
            assert(t.drop_last() == sigs.take(i as int));
            assert(t.last() == sigs[i as int]);
        }
        let m0 = obs.mac;
        if m0[0] == 0 && m0[1] == 0 && m0[2] == 0 && m0[3] == 0 && m0[4] == 0 && m0[5] == 0 {
            proof {
                let prev = raised;
                engines = engines.push(*anomaly);
                raised = raised.push(seq![]);
                assert(discovery_effects(start, mac, ip, t, now, raised) =~= seq![]);
                assert(discovery_effects(start, mac, ip, sigs.take(i as int), now, prev) =~= seq![]);
            }
            i += 1;
            continue;
        }
        let (m, change) = observe_and_classify(registry, obs, now, fingerprinter);
        n += 1;
        match registry.get(&m) {
            Some(dev) => {
                let ghost dv = dev@;
                if change == Change::NewDevice {
                    let copy = copy_device(dev);
                    effects.push(Effect::PersistDevice(copy));
                }
                let ghost eff_mid = effects@;
                let alerts = anomaly.on_device(dev, change, now);
                let ghost run = alert_views(alerts@);
                let mut extra = alert_effects(alerts);
                let ghost extra_v = extra@;
                effects.append(&mut extra);
                proof {
                    let prev_e = engines;
                    let prev_r = raised;
                    engines = engines.push(*anomaly);
                    raised = raised.push(run);
                    lemma_discovery_effects_prefix(start, mac, ip, sigs.take(i as int), now, prev_r, raised);
                    assert(engines[i as int] == eng_before);
                    assert(dv == after_observation(before, mac, ip, sigs[i as int], now)[k]);
                    assert(dv == device_after_step(start, mac, ip, sigs, now, i as int));
                    assert(change == change_at_step(start, mac, ip, sigs, now, i as int));
                    assert(effect_views(extra_v) =~= emits(run));
                    if change == Change::NewDevice {
                        assert(effect_views(eff_mid) =~= effect_views(eff_before).push(EffectView::PersistDevice(dv)));
                    } else {
                        assert(eff_mid == eff_before);
                    }
                    assert(effect_views(effects@) =~= effect_views(eff_mid) + effect_views(extra_v));
                    assert(effect_views(effects@) =~= discovery_effects(start, mac, ip, t, now, raised));
                    assert forall|j: int| 0 <= j <= i + 1 implies #[trigger] engines[j].keeps_stated(old(anomaly)) by {
                        if j <= i {
                            assert(engines[j] == prev_e[j]);
                        } else {
                            assert(eng_before.keeps_stated(old(anomaly)));
                        }
                    }
                    assert forall|j: int| 0 <= j < i + 1 implies #[trigger] engines[j].raises_for_device(
                        device_after_step(start, mac, ip, sigs, now, j),
                        change_at_step(start, mac, ip, sigs, now, j),
                        now,
                        raised[j],
                    ) by {
                        if j < i {
                            assert(engines[j] == prev_e[j] && raised[j] == prev_r[j]);
                        }
                    }
                }
            },
            None => {
                assert(false);
            },
        }
        i += 1;
    }
    assert(sigs.take(sigs.len() as int) == sigs);
    assert(engine_trace(engines, sigs.len(), *old(anomaly), *anomaly));
    assert(discovery_raised(start, mac, ip, sigs, now, engines, raised));
    (n, effects)
}

/// The devices after a flow snapshot differ from before only in traffic
/// counters and last sighting: no device appears or disappears, and every
/// other field is kept.
pub open spec fn only_traffic_changed(before: Map<u64, DeviceView>, after: Map<u64, DeviceView>) -> bool {
    &&& after.dom() == before.dom()
    &&& forall|k: u64|
        #[trigger] before.contains_key(k) ==> after[k] == (DeviceView {
            packets: after[k].packets,
            bytes: after[k].bytes,
            last_seen: after[k].last_seen,
            ..before[k]
        })
}

/// `steps` traces a run of flows being attributed one after another: each
/// step applies the next flow to the devices of the step before.
pub open spec fn flow_trace(
    steps: Seq<Map<u64, DeviceView>>,
    flows: Seq<(FlowKey, FlowStats)>,
    now: i64,
) -> bool {
    &&& steps.len() == flows.len() + 1
    &&& forall|i: int|
        0 <= i < flows.len() ==> flow_applied(
            #[trigger] steps[i],
            steps[i + 1],
            flows[i].0,
            flows[i].1,
            now,
        )
}

/// The devices go from `before` to `after` by attributing `flows` in order.
pub open spec fn flows_applied(
    before: Map<u64, DeviceView>,
    after: Map<u64, DeviceView>,
    flows: Seq<(FlowKey, FlowStats)>,
    now: i64,
) -> bool {
    exists|steps: Seq<Map<u64, DeviceView>>|
        #[trigger] flow_trace(steps, flows, now) && steps[0] == before && steps.last() == after
}

/// Attributing traffic keeps every record well kept.
pub proof fn law_flows_keep_records(before: Map<u64, DeviceView>, after: Map<u64, DeviceView>)
    requires
        all_well_kept(before),
        only_traffic_changed(before, after),
    ensures
        all_well_kept(after),
{
    assert forall|k: u64| #[trigger] after.contains_key(k) implies record_well_kept(after[k]) by {
        assert(before.contains_key(k));
    }
}

/// `alerts[j]` is what the anomaly engine, in the state `engines[j]`,
/// raises for the flow `flows[j]`.
pub open spec fn flows_raised(
    flows: Seq<(FlowKey, FlowStats)>,
    now: i64,
    engines: Seq<Engine>,
    alerts: Seq<Seq<AlertView>>,
) -> bool {
    &&& alerts.len() == flows.len()
    &&& forall|j: int|
        0 <= j < flows.len() ==> #[trigger] engines[j].raises_for_flow(
            flows[j].0,
            flows[j].1,
            now,
            alerts[j],
        )
}

/// The alerts a run of flows raises, flow by flow, when every detector
/// states its alerts and the engine is in the states `engines`.
pub open spec fn stated_flows_alerts(
    flows: Seq<(FlowKey, FlowStats)>,
    now: i64,
    engines: Seq<Engine>,
) -> Seq<AlertView> {
    joined(Seq::new(flows.len(), |j: int| engines[j].flow_alerts(flows[j].0, flows[j].1, now)))
}

/// When every detector of the anomaly engine states its alerts, a flow
/// snapshot raises exactly, flow by flow, the alerts the engine in its
/// state at that flow states for it.
pub proof fn law_stated_flows_alerts(
    flows: Seq<(FlowKey, FlowStats)>,
    now: i64,
    engines: Seq<Engine>,
    alerts: Seq<Seq<AlertView>>,
    first: Engine,
    last: Engine,
)
    requires
        engine_trace(engines, flows.len(), first, last),
        first.all_stated(),
        flows_raised(flows, now, engines, alerts),
    ensures
        joined(alerts) == stated_flows_alerts(flows, now, engines),
{
    let all = Seq::new(flows.len(), |j: int| engines[j].flow_alerts(flows[j].0, flows[j].1, now));
    assert forall|j: int| 0 <= j < flows.len() implies alerts[j] == all[j] by {
        lemma_trace_all_stated(engines, flows.len(), first, last, j);
        assert(engines[j].raises_for_flow(flows[j].0, flows[j].1, now, alerts[j]));
        engines[j].law_stated_flow_alerts(flows[j].0, flows[j].1, now, alerts[j]);
    }
    assert(alerts =~= all);
}

/// Attribute every flow of a snapshot to its source device, in order, and
/// collect the anomaly engine's alerts for each flow, in order.
pub fn handle_flows(
    registry: &mut DeviceRegistry,
    flows: &Vec<(FlowKey, FlowStats)>,
    now: i64,
    anomaly: &mut Engine,
) -> (r: Vec<Alert>)
    requires
        old(registry).well_formed(),
    ensures
        final(registry).well_formed(),
        flows_applied(old(registry).devices(), final(registry).devices(), flows@, now),
        only_traffic_changed(old(registry).devices(), final(registry).devices()),
        exists|engines: Seq<Engine>, alerts: Seq<Seq<AlertView>>|
            #![trigger engine_trace(engines, flows@.len(), *old(anomaly), *final(anomaly)), flows_raised(flows@, now, engines, alerts)]
            {
                &&& engine_trace(engines, flows@.len(), *old(anomaly), *final(anomaly))
                &&& flows_raised(flows@, now, engines, alerts)
                &&& alert_views(r@) == joined(alerts)
            },
{
    let mut out: Vec<Alert> = Vec::new();
    let ghost mut engines: Seq<Engine> = seq![*anomaly];
    let ghost mut raised: Seq<Seq<AlertView>> = seq![];
    let ghost mut steps: Seq<Map<u64, DeviceView>> = seq![registry.devices()];
    let mut i: usize = 0;
    while i < flows.len()
        invariant
            i <= flows@.len(),
            registry.well_formed(),
            flow_trace(steps, flows@.take(i as int), now),
            steps[0] == old(registry).devices(),
            steps.last() == registry.devices(),
            only_traffic_changed(old(registry).devices(), registry.devices()),
            engines.len() == i + 1,
            engines[0] == *old(anomaly),
            engines[i as int] == *anomaly,
            forall|j: int| 0 <= j <= i ==> #[trigger] engines[j].keeps_stated(old(anomaly)),
            raised.len() == i,
            forall|j: int|
                0 <= j < i ==> #[trigger] engines[j].raises_for_flow(
                    flows@[j].0,
                    flows@[j].1,
                    now,
                    raised[j],
                ),
            alert_views(out@) == joined(raised),
        decreases flows.len() - i,
    {
        let (key, stats) = flows[i];
        let ghost eng_before = *anomaly;
        let ghost out_before = out@;
        let ghost before = registry.devices();
        registry.apply_flow(&key, &stats, now);
        proof {
            let after = registry.devices();
            assert(after.dom() =~= before.dom());
            let prev = steps;
            steps = steps.push(after);
            let t = flows@.take(i + 1);
            assert forall|j: int| 0 <= j < t.len() implies flow_applied(
                #[trigger] steps[j],
                steps[j + 1],
                t[j].0,
                t[j].1,
                now,
            ) by {
                if j < i {
                    assert(steps[j] == prev[j] && steps[j + 1] == prev[j + 1]);
                    assert(t[j] == flows@.take(i as int)[j]);
                }
            }
        }
        let mut alerts = anomaly.on_flow(&key, &stats, now);
        let ghost run = alert_views(alerts@);
        out.append(&mut alerts);
        proof {
            let prev_e = engines;
            let prev_r = raised;
            engines = engines.push(*anomaly);
            raised = raised.push(run);
            assert(raised.drop_last() == prev_r);
            assert(engines[i as int] == eng_before);
            assert(flows@[i as int] == (key, stats));
            assert(alert_views(out@) =~= alert_views(out_before) + run);
            assert forall|j: int| 0 <= j <= i + 1 implies #[trigger] engines[j].keeps_stated(old(anomaly)) by {
                if j <= i {
                    assert(engines[j] == prev_e[j]);
                } else {
                    assert(eng_before.keeps_stated(old(anomaly)));
                }
            }
            assert forall|j: int| 0 <= j < i + 1 implies #[trigger] engines[j].raises_for_flow(
                flows@[j].0,
                flows@[j].1,
                now,
                raised[j],
            ) by {
                if j < i {
                    assert(engines[j] == prev_e[j] && raised[j] == prev_r[j]);
                }
            }
        }
        i += 1;
    }
    assert(flows@.take(flows@.len() as int) == flows@);
    assert(flow_trace(steps, flows@, now));
    assert(engine_trace(engines, flows@.len(), *old(anomaly), *anomaly));
    assert(flows_raised(flows@, now, engines, raised));
    out
}

/// What a flow snapshot taken at `now` does: its flows are attributed in
/// order (so only traffic counters and sightings change), nothing is
/// counted as a discovery, and the effects emit, flow by flow, the alerts
/// the anomaly engine raises, the engine going from `engine_before` to
/// `engine_after`.
pub open spec fn flows_outcome(
    before: Map<u64, DeviceView>,
    after: Map<u64, DeviceView>,
    engine_before: Engine,
    engine_after: Engine,
    flows: Seq<(FlowKey, FlowStats)>,
    now: i64,
    count: u64,
    effects: Seq<Effect>,
) -> bool {
    &&& flows_applied(before, after, flows, now)
    &&& only_traffic_changed(before, after)
    &&& count == 0
    &&& exists|engines: Seq<Engine>, alerts: Seq<Seq<AlertView>>|
        #![trigger engine_trace(engines, flows.len(), engine_before, engine_after), flows_raised(flows, now, engines, alerts)]
        {
            &&& engine_trace(engines, flows.len(), engine_before, engine_after)
            &&& flows_raised(flows, now, engines, alerts)
            &&& effect_views(effects) == emits(joined(alerts))
        }
}

/// Each alert as an effect to emit, in order.
fn alert_effects(alerts: Vec<Alert>) -> (r: Vec<Effect>)
    ensures
        r@.len() == alerts@.len(),
        forall|i: int| 0 <= i < r@.len() ==> #[trigger] r@[i] == Effect::EmitAlert(alerts@[i]),
        effect_views(r@) == emits(alert_views(alerts@)),
{
    let ghost all = alerts@;
    let n = alerts.len();
    let mut rest = alerts;
    let mut effects: Vec<Effect> = Vec::new();
    let mut i: usize = 0;
    while i < n
        invariant
            i <= n,
            n == all.len(),
            rest@.len() == n - i,
            forall|j: int| 0 <= j < rest@.len() ==> #[trigger] rest@[j] == all[i + j],
            effects@.len() == i,
            forall|j: int| 0 <= j < i ==> #[trigger] effects@[j] == Effect::EmitAlert(all[j]),
        decreases n - i,
    {
        let ghost old_rest = rest@;
        let a = rest.remove(0);
        effects.push(Effect::EmitAlert(a));
        i += 1;
        assert forall|j: int| 0 <= j < rest@.len() implies #[trigger] rest@[j] == all[i + j] by {
            assert(rest@[j] == old_rest[j + 1]);
        }
    }
    assert(effect_views(effects@) =~= emits(alert_views(all)));
    effects
}

/// Process one capture event at the current time: returns that time, the
/// number of discovery observations folded in, and the effects to perform,
/// in order.
pub fn handle_event(
    ev: CaptureEvent,
    registry: &mut DeviceRegistry,
    fingerprinter: &RuleFingerprinter,
    anomaly: &mut Engine,
) -> (r: (i64, u64, Vec<Effect>))
    requires
        old(registry).well_formed(),
    ensures
        final(registry).well_formed(),
        match ev {
            CaptureEvent::Discovery(e) => discovery_outcome(
                old(registry).devices(),
                final(registry).devices(),
                *old(anomaly),
                *final(anomaly),
                *e,
                r.0,
                r.1,
                r.2@,
            ),
            CaptureEvent::Flows(flows) => flows_outcome(
                old(registry).devices(),
                final(registry).devices(),
                *old(anomaly),
                *final(anomaly),
                flows@,
                r.0,
                r.1,
                r.2@,
            ),
        },
{
    let now = now_unix();
    match ev {
        CaptureEvent::Discovery(e) => {
            let (n, effects) = handle_discovery(registry, &e, now, fingerprinter, anomaly);
            (now, n, effects)
        },
        CaptureEvent::Flows(flows) => {
            let alerts = handle_flows(registry, &flows, now, anomaly);
            let effects = alert_effects(alerts);
            (now, 0, effects)
        },
    }
}

/// The devices after seeding with persisted records: each record whose
/// `mac` text parses is loaded under that MAC, later records replacing
/// earlier ones.
pub open spec fn seeded(devs: Map<u64, DeviceView>, records: Seq<DeviceView>) -> Map<u64, DeviceView>
    decreases records.len(),
{
    if records.len() == 0 {
        devs
    } else {
        let prev = seeded(devs, records.drop_last());
        let d = records.last();
        match mac_of_text(d.mac) {
            Some(m) => prev.insert(mac_key(m), d),
            None => prev,
        }
    }
}

/// Seed the registry from persisted records.
pub fn seed_registry(registry: &mut DeviceRegistry, devices: Vec<Device>)
    requires
        old(registry).well_formed(),
    ensures
        final(registry).well_formed(),
        final(registry).devices() == seeded(old(registry).devices(), device_views(devices@)),
{
    let ghost all = device_views(devices@);
    let mut rest = devices;
    let n = rest.len();
    let mut i: usize = 0;
    while i < n
        invariant
            i <= n,
            n == all.len(),
            rest@.len() == n - i,
            forall|j: int| 0 <= j < rest@.len() ==> #[trigger] rest@[j]@ == all[i + j],
            registry.well_formed(),
            registry.devices() == seeded(old(registry).devices(), all.take(i as int)),
        decreases n - i,
    {
        let ghost old_rest = rest@;
        let dev = rest.remove(0);
        assert(dev@ == all[i as int]);
        assert(all.take(i + 1).drop_last() == all.take(i as int));
        assert(all.take(i + 1).last() == dev@);
        if let Some(mac) = parse_mac(dev.mac.as_str()) {
            registry.load(mac, dev);
        }
        i += 1;
        assert forall|j: int| 0 <= j < rest@.len() implies #[trigger] rest@[j]@ == all[i + j] by {
            assert(rest@[j] == old_rest[j + 1]);
        }
    }
    assert(all.take(n as int) == all);
}

/// The configuration for a capture run: the interface defaults to `any`,
/// the database path to `default_db`, and the model path is taken as given.
pub fn resolve_config(
    mode: CaptureMode,
    interface: Option<String>,
    db: Option<String>,
    default_db: String,
    model: Option<String>,
) -> (r: Config)
    ensures
        r.mode == mode,
        r.interface@ == (match interface {
            Some(i) => i@,
            None => "any"@,
        }),
        r.db_path == (match db {
            Some(p) => p,
            None => default_db,
        }),
        r.flow_drain_interval_secs == 2,
        r.model_path == model,
{
    let iface = match interface {
        Some(i) => i,
        None => "any".to_owned(),
    };
    let mut cfg = Config::new(mode, iface, default_db);
    if let Some(p) = db {
        cfg.db_path = p;
    }
    cfg.model_path = model;
    cfg
}

} // verus!
