use vstd::prelude::*;

use crate::catalog::derive::string_seq;
use crate::catalog::linking::{law_assumptions_keep_links, systems_linked};
use crate::catalog::overlay::{ends_with, ends_with_marker, overlay_marker, SystemOverlayEntry};
use crate::catalog::requirement::{Assumption, AssumptionKind, Requirement, RequirementCatalog, RequirementClass, RequirementId};
use crate::text::{chars_of, holds_str, str_eq};

verus! {

/// Whether the network is up.
#[derive(Clone, Copy, Debug, PartialEq, Eq, Structural)]
pub enum NetworkState {
    Online,
    Offline,
}

/// Hardware a journey assumes.
#[derive(Debug)]
pub enum HardwareAssumption {
    /// A flight controller, by the `Debug` text of its board.
    FlightController(String),
    UsbCamera,
    Ping1d,
    Ping360,
    ExternalNmeaGps,
    UsbSerialDevice,
    RaspberryPi5,
}

/// Software settings a journey assumes.
#[derive(Clone, Copy, Debug, PartialEq, Eq, Structural)]
pub enum SoftwareAssumption {
    PirateMode,
    AdvancedMode,
    DevMode,
    ConfirmDangerousOp,
}

/// Network resources a journey assumes.
#[derive(Clone, Copy, Debug, PartialEq, Eq, Structural)]
pub enum NetworkResource {
    WifiRadioPresent,
    KnownWifiNetwork,
    HotspotCapable,
    WiredEthernetPresent,
    UsbOtgPresent,
}

/// Data a journey assumes to exist.
#[derive(Clone, Copy, Debug, PartialEq, Eq, Structural)]
pub enum DataAssumption {
    ExtensionInstalled,
    LocalBlueosVersionAvailable,
    SerialBridgeConfigured,
    NmeaSocketConfigured,
    RecordingListed,
    WifiNetworkSaved,
    WifiCurrentlyConnected,
    OnboardDhcpServerActive,
}

/// A precondition of a journey.
#[derive(Debug)]
pub enum Precondition {
    /// A service, by id, in a state, by its display text.
    ServiceState { service: String, state: String },
    Network(NetworkState),
    HardwarePresent(String),
    /// A configuration file, by path, left clean.
    ConfigClean(String),
    Other(String),
    Hardware(HardwareAssumption),
    Software(SoftwareAssumption),
    NetworkResource(NetworkResource),
    Data(DataAssumption),
}

/// The sentence that states a precondition as an assumption.
pub open spec fn precondition_text(p: Precondition) -> Seq<char> {
    match p {
        Precondition::ServiceState { service, state } => service@ + " service is in the "@ + state@ + " state"@,
        Precondition::Network(NetworkState::Online) => "network connectivity is available"@,
        Precondition::Network(NetworkState::Offline) => "network connectivity is unavailable"@,
        Precondition::HardwarePresent(label) => label@ + " hardware is present"@,
        Precondition::ConfigClean(path) => path@ + " configuration is clean"@,
        Precondition::Other(label) => label@,
        Precondition::Hardware(h) => match h {
            HardwareAssumption::FlightController(board) => "a "@ + board@ + " flight controller is connected"@,
            HardwareAssumption::UsbCamera => "a USB camera is connected"@,
            HardwareAssumption::Ping1d => "a Ping1D sonar is connected"@,
            HardwareAssumption::Ping360 => "a Ping360 sonar is connected"@,
            HardwareAssumption::ExternalNmeaGps => "an external NMEA GPS is connected"@,
            HardwareAssumption::UsbSerialDevice => "a USB serial device is connected"@,
            HardwareAssumption::RaspberryPi5 => "a Raspberry Pi 5 host is in use"@,
        },
        Precondition::Software(s) => match s {
            SoftwareAssumption::PirateMode => "pirate mode is enabled"@,
            SoftwareAssumption::AdvancedMode => "advanced mode is enabled"@,
            SoftwareAssumption::DevMode => "developer mode is enabled"@,
            SoftwareAssumption::ConfirmDangerousOp => "the operator confirmed a dangerous operation"@,
        },
        Precondition::NetworkResource(r) => match r {
            NetworkResource::WifiRadioPresent => "a Wi-Fi radio is present"@,
            NetworkResource::KnownWifiNetwork => "a known Wi-Fi network is available"@,
            NetworkResource::HotspotCapable => "hotspot capability is available"@,
            NetworkResource::WiredEthernetPresent => "wired Ethernet is present"@,
            NetworkResource::UsbOtgPresent => "USB OTG is present"@,
        },
        Precondition::Data(d) => match d {
            DataAssumption::ExtensionInstalled => "an extension is installed"@,
            DataAssumption::LocalBlueosVersionAvailable => "a local BlueOS version image is available"@,
            DataAssumption::SerialBridgeConfigured => "a serial bridge is configured"@,
            DataAssumption::NmeaSocketConfigured => "an NMEA socket is configured"@,
            DataAssumption::RecordingListed => "a video recording is listed"@,
            DataAssumption::WifiNetworkSaved => "a Wi-Fi network is saved"@,
            DataAssumption::WifiCurrentlyConnected => "Wi-Fi is currently connected"@,
            DataAssumption::OnboardDhcpServerActive => "the onboard DHCP server is active"@,
        },
    }
}

/// The sentence that states a precondition as an assumption.
pub fn precondition_statement(precondition: &Precondition) -> (text: String)
    ensures
        text@ == precondition_text(*precondition),
{
    match precondition {
        Precondition::ServiceState { service, state } => {
            let mut text = String::from_str(service.as_str());
            text.append(" service is in the ");
            text.append(state.as_str());
            text.append(" state");
            text
        },
        Precondition::Network(NetworkState::Online) => String::from_str("network connectivity is available"),
        Precondition::Network(NetworkState::Offline) => String::from_str("network connectivity is unavailable"),
        Precondition::HardwarePresent(label) => {
            let mut text = String::from_str(label.as_str());
            text.append(" hardware is present");
            text
        },
        Precondition::ConfigClean(path) => {
            let mut text = String::from_str(path.as_str());
            text.append(" configuration is clean");
            text
        },
        Precondition::Other(label) => label.clone(),
        Precondition::Hardware(hardware) => match hardware {
            HardwareAssumption::FlightController(board) => {
                let mut text = String::from_str("a ");
                text.append(board.as_str());
                text.append(" flight controller is connected");
                text
            },
            HardwareAssumption::UsbCamera => String::from_str("a USB camera is connected"),
            HardwareAssumption::Ping1d => String::from_str("a Ping1D sonar is connected"),
            HardwareAssumption::Ping360 => String::from_str("a Ping360 sonar is connected"),
            HardwareAssumption::ExternalNmeaGps => String::from_str("an external NMEA GPS is connected"),
            HardwareAssumption::UsbSerialDevice => String::from_str("a USB serial device is connected"),
            HardwareAssumption::RaspberryPi5 => String::from_str("a Raspberry Pi 5 host is in use"),
        },
        Precondition::Software(software) => match software {
            SoftwareAssumption::PirateMode => String::from_str("pirate mode is enabled"),
            SoftwareAssumption::AdvancedMode => String::from_str("advanced mode is enabled"),
            SoftwareAssumption::DevMode => String::from_str("developer mode is enabled"),
            SoftwareAssumption::ConfirmDangerousOp => String::from_str("the operator confirmed a dangerous operation"),
        },
        Precondition::NetworkResource(resource) => match resource {
            NetworkResource::WifiRadioPresent => String::from_str("a Wi-Fi radio is present"),
            NetworkResource::KnownWifiNetwork => String::from_str("a known Wi-Fi network is available"),
            NetworkResource::HotspotCapable => String::from_str("hotspot capability is available"),
            NetworkResource::WiredEthernetPresent => String::from_str("wired Ethernet is present"),
            NetworkResource::UsbOtgPresent => String::from_str("USB OTG is present"),
        },
        Precondition::Data(data) => match data {
            DataAssumption::ExtensionInstalled => String::from_str("an extension is installed"),
            DataAssumption::LocalBlueosVersionAvailable => String::from_str("a local BlueOS version image is available"),
            DataAssumption::SerialBridgeConfigured => String::from_str("a serial bridge is configured"),
            DataAssumption::NmeaSocketConfigured => String::from_str("an NMEA socket is configured"),
            DataAssumption::RecordingListed => String::from_str("a video recording is listed"),
            DataAssumption::WifiNetworkSaved => String::from_str("a Wi-Fi network is saved"),
            DataAssumption::WifiCurrentlyConnected => String::from_str("Wi-Fi is currently connected"),
            DataAssumption::OnboardDhcpServerActive => String::from_str("the onboard DHCP server is active"),
        },
    }
}

/// What a precondition is about.
pub open spec fn kind_of(p: Precondition) -> AssumptionKind {
    match p {
        Precondition::Hardware(_) | Precondition::HardwarePresent(_) => AssumptionKind::Hardware,
        Precondition::Software(_) => AssumptionKind::Software,
        Precondition::Data(_) => AssumptionKind::Data,
        Precondition::Network(_) | Precondition::NetworkResource(_) => AssumptionKind::Network,
        Precondition::Other(_) | Precondition::ServiceState { .. } | Precondition::ConfigClean(_) => AssumptionKind::Other,
    }
}

/// What a precondition is about.
pub fn assumption_kind(precondition: &Precondition) -> (kind: AssumptionKind)
    ensures
        kind == kind_of(*precondition),
{
    match precondition {
        Precondition::Hardware(_) | Precondition::HardwarePresent(_) => AssumptionKind::Hardware,
        Precondition::Software(_) => AssumptionKind::Software,
        Precondition::Data(_) => AssumptionKind::Data,
        Precondition::Network(_) | Precondition::NetworkResource(_) => AssumptionKind::Network,
        Precondition::Other(_) | Precondition::ServiceState { .. } | Precondition::ConfigClean(_) => AssumptionKind::Other,
    }
}

/// A journey's preconditions, each with the label under which a repeat of it is recognised.
pub struct JourneyPreconditions {
    pub id: String,
    pub preconditions: Vec<(String, Precondition)>,
}

/// Journey `k` is the first with id `id`.
pub open spec fn is_first_journey_with(journeys: Seq<JourneyPreconditions>, id: Seq<char>, k: int) -> bool {
    &&& 0 <= k < journeys.len()
    &&& journeys[k].id@ == id
    &&& forall|j: int| 0 <= j < k ==> journeys[j].id@ != id
}

/// Some journey has id `id`.
pub open spec fn knows_journey_id(journeys: Seq<JourneyPreconditions>, id: Seq<char>) -> bool {
    exists|k: int| 0 <= k < journeys.len() && (#[trigger] journeys[k]).id@ == id
}

/// A journey's preconditions as cited: label, precondition, and the journey's id.
pub open spec fn citations_of(j: JourneyPreconditions) -> Seq<(Seq<char>, Precondition, Seq<char>)> {
    j.preconditions@.map_values(|p: (String, Precondition)| (p.0@, p.1, j.id@))
}

/// The preconditions cited by a run of journey ids, in order, each id read as the first journey
/// that has it.
pub open spec fn cited(journeys: Seq<JourneyPreconditions>, ids: Seq<Seq<char>>) -> Seq<(Seq<char>, Precondition, Seq<char>)>
    decreases ids.len(),
{
    if ids.len() == 0 {
        seq![]
    } else {
        let k = choose|k: int| is_first_journey_with(journeys, ids.last(), k);
        cited(journeys, ids.drop_last()) + citations_of(journeys[k])
    }
}

/// The labels of cited preconditions.
pub open spec fn labels_of(items: Seq<(Seq<char>, Precondition, Seq<char>)>) -> Seq<Seq<char>> {
    items.map_values(|c: (Seq<char>, Precondition, Seq<char>)| c.0)
}

/// Cited preconditions with every repeat of a label dropped, keeping the first in order.
pub open spec fn first_by_label(items: Seq<(Seq<char>, Precondition, Seq<char>)>) -> Seq<(Seq<char>, Precondition, Seq<char>)>
    decreases items.len(),
{
    if items.len() == 0 {
        items
    } else {
        let d = first_by_label(items.drop_last());
        if labels_of(d).contains(items.last().0) {
            d
        } else {
            d.push(items.last())
        }
    }
}

/// An assumption as values: statement, source journey, kind.
pub open spec fn assumption_view(a: Assumption) -> (Seq<char>, Seq<char>, AssumptionKind) {
    (a.statement@, a.source_use_case@, a.kind)
}

/// The assumption that a cited precondition stands for.
pub open spec fn assumption_of(c: (Seq<char>, Precondition, Seq<char>)) -> (Seq<char>, Seq<char>, AssumptionKind) {
    (precondition_text(c.1), c.2, kind_of(c.1))
}

/// The assumptions that a run of journey ids carries: one per distinct precondition label, in
/// the order the journeys cite them, each from the journey that cites it first.
pub open spec fn journey_assumptions(journeys: Seq<JourneyPreconditions>, ids: Seq<Seq<char>>) -> Seq<(Seq<char>, Seq<char>, AssumptionKind)> {
    first_by_label(cited(journeys, ids)).map_values(|c: (Seq<char>, Precondition, Seq<char>)| assumption_of(c))
}

proof fn lemma_first_by_label_push(d: Seq<(Seq<char>, Precondition, Seq<char>)>, s: Seq<(Seq<char>, Precondition, Seq<char>)>, x: (Seq<char>, Precondition, Seq<char>))
    requires
        d == first_by_label(s),
    ensures
        first_by_label(s.push(x)) == (if labels_of(d).contains(x.0) {
            d
        } else {
            d.push(x)
        }),
{
    assert(s.push(x).drop_last() =~= s);
}

/// The position of the first journey with id `id`.
fn journey_position(journeys: &[JourneyPreconditions], id: &str) -> (k: usize)
    requires
        knows_journey_id(journeys@, id@),
    ensures
        is_first_journey_with(journeys@, id@, k as int),
{
    let mut k: usize = 0;
    while k < journeys.len()
        invariant
            k <= journeys@.len(),
            knows_journey_id(journeys@, id@),
            forall|j: int| 0 <= j < k ==> journeys@[j].id@ != id@,
        decreases journeys@.len() - k,
    {
        if str_eq(journeys[k].id.as_str(), id) {
            return k;
        }
        k += 1;
    }
    proof {
        let j = choose|j: int| 0 <= j < journeys@.len() && (#[trigger] journeys@[j]).id@ == id@;
        assert(journeys@[j].id@ != id@);
    }
    0
}

/// The assumptions that a requirement verified by the journeys `journey_ids` carries: the
/// preconditions of those journeys, in order, with each label kept once (its first citation),
/// stated as sentences with the citing journey as their source.
pub fn assumptions_for_journeys(journeys: &[JourneyPreconditions], journey_ids: &[String]) -> (assumptions: Vec<Assumption>)
    requires
        forall|i: int| 0 <= i < journey_ids@.len() ==> knows_journey_id(journeys@, #[trigger] journey_ids@[i]@),
    ensures
        assumptions@.map_values(|a: Assumption| assumption_view(a))
            == journey_assumptions(journeys@, journey_ids@.map_values(|s: String| s@)),
{
    let ghost ids = journey_ids@.map_values(|s: String| s@);
    let mut assumptions: Vec<Assumption> = Vec::new();
    let mut seen: Vec<String> = Vec::new();
    let mut i: usize = 0;
    while i < journey_ids.len()
        invariant
            i <= journey_ids@.len(),
            ids == journey_ids@.map_values(|s: String| s@),
            forall|i: int| 0 <= i < journey_ids@.len() ==> knows_journey_id(journeys@, #[trigger] journey_ids@[i]@),
            seen@.map_values(|s: String| s@) == labels_of(first_by_label(cited(journeys@, ids.take(i as int)))),
            assumptions@.map_values(|a: Assumption| assumption_view(a))
                == first_by_label(cited(journeys@, ids.take(i as int))).map_values(|c: (Seq<char>, Precondition, Seq<char>)| assumption_of(c)),
        decreases journey_ids@.len() - i,
    {
        let k = journey_position(journeys, journey_ids[i].as_str());
        let journey = &journeys[k];
        let ghost base = cited(journeys@, ids.take(i as int));
        let ghost add = citations_of(*journey);
        proof {
            let taken = ids.take(i + 1);
            assert(taken.drop_last() =~= ids.take(i as int));
            assert(taken.last() == journey_ids@[i as int]@);
            let c = choose|c: int| is_first_journey_with(journeys@, taken.last(), c);
            assert(c == k) by {
                if c < k {
                    assert(journeys@[c].id@ != taken.last());
                } else if k < c {
                    assert(journeys@[k as int].id@ != taken.last());
                }
            }
            assert(cited(journeys@, taken) == base + add);
        }
        let mut m: usize = 0;
        assert(base + add.take(0) =~= base);
        while m < journey.preconditions.len()
            invariant
                m <= journey.preconditions@.len(),
                add == citations_of(*journey),
                seen@.map_values(|s: String| s@) == labels_of(first_by_label(base + add.take(m as int))),
                assumptions@.map_values(|a: Assumption| assumption_view(a))
                    == first_by_label(base + add.take(m as int)).map_values(|c: (Seq<char>, Precondition, Seq<char>)| assumption_of(c)),
            decreases journey.preconditions@.len() - m,
        {
            let (label, precondition) = (&journey.preconditions[m].0, &journey.preconditions[m].1);
            let ghost before = first_by_label(base + add.take(m as int));
            proof {
                assert(add[m as int] == (label@, *precondition, journey.id@));
                assert(base + add.take(m + 1) =~= (base + add.take(m as int)).push(add[m as int]));
                lemma_first_by_label_push(before, base + add.take(m as int), add[m as int]);
            }
            let found = holds_str(&seen, label.as_str());
            proof {
                let sv = seen@.map_values(|s: String| s@);
                if found {
                    let q = choose|q: int| 0 <= q < seen@.len() && (#[trigger] seen@[q])@ == label@;
                    assert(sv[q] == label@);
                    assert(labels_of(before).contains(label@));
                } else {
                    assert forall|q: int| 0 <= q < labels_of(before).len() implies labels_of(before)[q] != label@ by {
                        assert(sv[q] == seen@[q]@);
                    }
                }
            }
            if !found {
                let ghost old_seen = seen@;
                let ghost old_assumptions = assumptions@;
                seen.push(label.clone());
                assumptions.push(Assumption {
                    statement: precondition_statement(precondition),
                    source_use_case: journey.id.clone(),
                    kind: assumption_kind(precondition),
                });
                proof {
                    assert(seen@.map_values(|s: String| s@) =~= old_seen.map_values(|s: String| s@).push(label@));
                    assert(labels_of(before.push(add[m as int])) =~= labels_of(before).push(label@));
                    assert(assumptions@.map_values(|a: Assumption| assumption_view(a)) =~= old_assumptions.map_values(
                        |a: Assumption| assumption_view(a),
                    ).push(assumption_of(add[m as int])));
                    assert(before.push(add[m as int]).map_values(|c: (Seq<char>, Precondition, Seq<char>)| assumption_of(c))
                        =~= before.map_values(|c: (Seq<char>, Precondition, Seq<char>)| assumption_of(c)).push(assumption_of(add[m as int])));
                }
            }
            m += 1;
        }
        assert(add.take(add.len() as int) =~= add);
        i += 1;
    }
    assert(ids.take(journey_ids@.len() as int) =~= ids);
    assumptions
}

/// `after` is `before` with only its assumptions replaced.
pub open spec fn same_but_assumptions(after: Requirement, before: Requirement) -> bool {
    &&& after.id == before.id
    &&& after.kind == before.kind
    &&& after.domain == before.domain
    &&& after.aggregate == before.aggregate
    &&& after.statement == before.statement
    &&& after.criteria == before.criteria
    &&& after.feature_id == before.feature_id
    &&& after.journey_id == before.journey_id
    &&& after.function_id == before.function_id
    &&& after.requirement_verifications == before.requirement_verifications
    &&& after.subrequirements == before.subrequirements
    &&& after.rationale == before.rationale
}

/// Every journey that verifies a functional requirement is among `journeys`.
pub open spec fn functional_verifiers_known(reqs: Seq<Requirement>, journeys: Seq<JourneyPreconditions>) -> bool {
    forall|k: int, i: int|
        0 <= k < reqs.len() && reqs[k].kind == RequirementClass::Functional && 0 <= i
            < reqs[k].requirement_verifications@.len() ==> knows_journey_id(
            journeys,
            (#[trigger] reqs[k].requirement_verifications@[i])@,
        )
}

impl RequirementCatalog {
    /// Gives each functional requirement the assumptions of the journeys that verify it, in place;
    /// the other requirements, and everything else about the functional ones, stay as they were.
    pub fn attach_functional_assumptions(&mut self, journeys: &[JourneyPreconditions])
        requires
            functional_verifiers_known(old(self).requirements@, journeys@),
        ensures
            final(self).contamination_findings == old(self).contamination_findings,
            final(self).requirements@.len() == old(self).requirements@.len(),
            forall|k: int|
                0 <= k < old(self).requirements@.len() ==> same_but_assumptions(
                    #[trigger] final(self).requirements@[k],
                    old(self).requirements@[k],
                ),
            forall|k: int|
                0 <= k < old(self).requirements@.len() && old(self).requirements@[k].kind != RequirementClass::Functional
                    ==> #[trigger] final(self).requirements@[k] == old(self).requirements@[k],
            forall|k: int|
                0 <= k < old(self).requirements@.len() && old(self).requirements@[k].kind == RequirementClass::Functional
                    ==> (#[trigger] final(self).requirements@[k]).assumptions@.map_values(|a: Assumption| assumption_view(a))
                    == journey_assumptions(
                    journeys@,
                    old(self).requirements@[k].requirement_verifications@.map_values(|s: String| s@),
                ),
            systems_linked(old(self).requirements@) ==> systems_linked(final(self).requirements@),
    {
        let ghost start = self.requirements@;
        let mut k: usize = 0;
        while k < self.requirements.len()
            invariant
                k <= self.requirements@.len(),
                self.requirements@.len() == start.len(),
                functional_verifiers_known(start, journeys@),
                self.contamination_findings == old(self).contamination_findings,
                start == old(self).requirements@,
                forall|j: int| k <= j < start.len() ==> #[trigger] self.requirements@[j] == start[j],
                forall|j: int| 0 <= j < k ==> same_but_assumptions(#[trigger] self.requirements@[j], start[j]),
                forall|j: int|
                    0 <= j < k && start[j].kind != RequirementClass::Functional ==> #[trigger] self.requirements@[j]
                        == start[j],
                forall|j: int|
                    0 <= j < k && start[j].kind == RequirementClass::Functional
                        ==> (#[trigger] self.requirements@[j]).assumptions@.map_values(|a: Assumption| assumption_view(a))
                        == journey_assumptions(journeys@, start[j].requirement_verifications@.map_values(|s: String| s@)),
            decreases start.len() - k,
        {
            if self.requirements[k].kind == RequirementClass::Functional {
                let ghost before = self.requirements@;
                let mut req = self.requirements.remove(k);
                assert(req == start[k as int]);
                assert forall|i: int| 0 <= i < req.requirement_verifications@.len() implies knows_journey_id(
                    journeys@,
                    (#[trigger] req.requirement_verifications@[i])@,
                ) by {
                    assert(start[k as int].requirement_verifications@[i] == req.requirement_verifications@[i]);
                }
                req.assumptions = assumptions_for_journeys(journeys, &req.requirement_verifications);
                self.requirements.insert(k, req);
                proof {
                    assert forall|j: int| 0 <= j < start.len() && j != k implies #[trigger] self.requirements@[j] == before[j] by {}
                }
            }
            k += 1;
        }
        proof {
            if systems_linked(start) {
                law_assumptions_keep_links(start, self.requirements@);
            }
        }
    }
}

/// Requirement `f` is the first with id `id`.
pub open spec fn is_first_requirement_with(reqs: Seq<Requirement>, id: Seq<char>, f: int) -> bool {
    &&& 0 <= f < reqs.len()
    &&& reqs[f].id.0@ == id
    &&& forall|j: int| 0 <= j < f ==> reqs[j].id.0@ != id
}

/// Some requirement has id `id`.
pub open spec fn has_requirement_with(reqs: Seq<Requirement>, id: Seq<char>) -> bool {
    exists|f: int| 0 <= f < reqs.len() && (#[trigger] reqs[f]).id.0@ == id
}

/// The journeys that verify the children `subs`, in order: for each child id, those of the first
/// requirement with that id (none when no requirement has it).
pub open spec fn child_journeys(reqs: Seq<Requirement>, subs: Seq<RequirementId>) -> Seq<Seq<char>>
    decreases subs.len(),
{
    if subs.len() == 0 {
        seq![]
    } else {
        let id = subs.last().0@;
        child_journeys(reqs, subs.drop_last()) + if has_requirement_with(reqs, id) {
            string_seq(reqs[choose|f: int| is_first_requirement_with(reqs, id, f)].requirement_verifications@)
        } else {
            seq![]
        }
    }
}

/// Overlay entry `k` is the first whose "/SYS-OVR/<suffix>" tail ends `id`.
pub open spec fn is_first_entry_for(entries: Seq<SystemOverlayEntry>, id: Seq<char>, k: int) -> bool {
    &&& 0 <= k < entries.len()
    &&& ends_with(id, overlay_marker(entries[k].suffix@))
    &&& forall|j: int| 0 <= j < k ==> !ends_with(id, overlay_marker(entries[j].suffix@))
}

/// The journeys of the overlay entry of requirement id `id`; none when no entry's tail ends it.
pub open spec fn overlay_journeys_for(entries: Seq<SystemOverlayEntry>, id: Seq<char>) -> Seq<Seq<char>> {
    if exists|k: int| is_first_entry_for(entries, id, k) {
        entries[choose|k: int| is_first_entry_for(entries, id, k)].journey_ids@.map_values(|s: &str| s@)
    } else {
        seq![]
    }
}

/// The ids of `order` that `set` holds, in the order of `order`.
pub open spec fn keep_listed(order: Seq<Seq<char>>, set: Seq<Seq<char>>) -> Seq<Seq<char>>
    decreases order.len(),
{
    if order.len() == 0 {
        seq![]
    } else {
        let d = keep_listed(order.drop_last(), set);
        if set.contains(order.last()) {
            d.push(order.last())
        } else {
            d
        }
    }
}

/// The journeys whose assumptions a system requirement carries: those that verify its children
/// and those of its overlay entry, each once, in journey-id order (`order` lists the journey ids
/// in the order they sort).
pub open spec fn system_journey_ids(
    reqs: Seq<Requirement>,
    entries: Seq<SystemOverlayEntry>,
    order: Seq<Seq<char>>,
    q: Requirement,
) -> Seq<Seq<char>> {
    keep_listed(order, child_journeys(reqs, q.subrequirements@) + overlay_journeys_for(entries, q.id.0@))
}

/// The position of the first requirement with id `id`.
fn first_requirement_with(reqs: &Vec<Requirement>, id: &str) -> (f: Option<usize>)
    ensures
        match f {
            Some(f) => is_first_requirement_with(reqs@, id@, f as int),
            None => !has_requirement_with(reqs@, id@),
        },
{
    let mut k: usize = 0;
    while k < reqs.len()
        invariant
            k <= reqs@.len(),
            forall|j: int| 0 <= j < k ==> reqs@[j].id.0@ != id@,
        decreases reqs@.len() - k,
    {
        if str_eq(reqs[k].id.0.as_str(), id) {
            return Some(k);
        }
        k += 1;
    }
    None
}

/// The journeys that verify the children `subs`.
fn child_journey_list(reqs: &Vec<Requirement>, subs: &Vec<RequirementId>) -> (out: Vec<String>)
    ensures
        string_seq(out@) == child_journeys(reqs@, subs@),
{
    let mut out: Vec<String> = Vec::new();
    let mut i: usize = 0;
    while i < subs.len()
        invariant
            i <= subs@.len(),
            string_seq(out@) == child_journeys(reqs@, subs@.take(i as int)),
        decreases subs@.len() - i,
    {
        let ghost prefix = string_seq(out@);
        proof {
            assert(subs@.take(i + 1).drop_last() =~= subs@.take(i as int));
            assert(subs@.take(i + 1).last() == subs@[i as int]);
        }
        match first_requirement_with(reqs, subs[i].0.as_str()) {
            Some(f) => {
                let verifs = &reqs[f].requirement_verifications;
                let ghost add = string_seq(verifs@);
                proof {
                    let id = subs@[i as int].0@;
                    let c = choose|c: int| is_first_requirement_with(reqs@, id, c);
                    assert(c == f) by {
                        if c < f {
                            assert(reqs@[c].id.0@ != id);
                        } else if f < c {
                            assert(reqs@[f as int].id.0@ != id);
                        }
                    }
                    assert(child_journeys(reqs@, subs@.take(i + 1)) == prefix + add);
                }
                let mut m: usize = 0;
                while m < verifs.len()
                    invariant
                        m <= verifs@.len(),
                        add == string_seq(verifs@),
                        string_seq(out@) == prefix + add.take(m as int),
                    decreases verifs@.len() - m,
                {
                    let ghost before = out@;
                    out.push(verifs[m].clone());
                    assert(string_seq(out@) =~= string_seq(before).push(verifs@[m as int]@));
                    assert(prefix + add.take(m + 1) =~= (prefix + add.take(m as int)).push(add[m as int]));
                    m += 1;
                }
                assert(add.take(add.len() as int) =~= add);
            },
            None => {
                assert(child_journeys(reqs@, subs@.take(i + 1)) =~= prefix);
            },
        }
        i += 1;
    }
    assert(subs@.take(subs@.len() as int) =~= subs@);
    out
}

/// The journeys of the overlay entry of requirement id `id`.
fn overlay_journey_list(entries: &[SystemOverlayEntry], id: &str) -> (out: Vec<String>)
    ensures
        string_seq(out@) == overlay_journeys_for(entries@, id@),
{
    let chars = chars_of(id);
    let mut k: usize = 0;
    while k < entries.len()
        invariant
            k <= entries@.len(),
            chars@ == id@,
            forall|j: int| 0 <= j < k ==> !ends_with(id@, overlay_marker(entries@[j].suffix@)),
        decreases entries@.len() - k,
    {
        if ends_with_marker(&chars, entries[k].suffix) {
            let ids = &entries[k].journey_ids;
            let ghost want = ids@.map_values(|s: &str| s@);
            proof {
                assert(is_first_entry_for(entries@, id@, k as int));
                let c = choose|c: int| is_first_entry_for(entries@, id@, c);
                assert(c == k) by {
                    if c < k {
                        assert(!ends_with(id@, overlay_marker(entries@[c].suffix@)));
                    } else if k < c {
                        assert(!ends_with(id@, overlay_marker(entries@[k as int].suffix@)));
                    }
                }
            }
            let mut out: Vec<String> = Vec::new();
            let mut m: usize = 0;
            while m < ids.len()
                invariant
                    m <= ids@.len(),
                    want == ids@.map_values(|s: &str| s@),
                    string_seq(out@) == want.take(m as int),
                decreases ids@.len() - m,
            {
                let ghost before = out@;
                out.push(String::from_str(ids[m]));
                assert(string_seq(out@) =~= string_seq(before).push(ids@[m as int]@));
                assert(want.take(m + 1) =~= want.take(m as int).push(want[m as int]));
                m += 1;
            }
            assert(want.take(want.len() as int) =~= want);
            return out;
        }
        k += 1;
    }
    assert(!exists|c: int| is_first_entry_for(entries@, id@, c));
    Vec::new()
}

/// The ids of `order` that `set` holds, in order.
fn keep_listed_ids(order: &[String], set: &Vec<String>) -> (out: Vec<String>)
    ensures
        string_seq(out@) == keep_listed(string_seq(order@), string_seq(set@)),
{
    let ghost o = string_seq(order@);
    let ghost sv = string_seq(set@);
    let mut out: Vec<String> = Vec::new();
    let mut i: usize = 0;
    while i < order.len()
        invariant
            i <= order@.len(),
            o == string_seq(order@),
            sv == string_seq(set@),
            string_seq(out@) == keep_listed(o.take(i as int), sv),
        decreases order@.len() - i,
    {
        proof {
            assert(o.take(i + 1).drop_last() =~= o.take(i as int));
            assert(o.take(i + 1).last() == order@[i as int]@);
        }
        let found = holds_str(set, order[i].as_str());
        proof {
            if found {
                let q = choose|q: int| 0 <= q < set@.len() && (#[trigger] set@[q])@ == order@[i as int]@;
                assert(sv[q] == order@[i as int]@);
            } else {
                assert forall|q: int| 0 <= q < sv.len() implies sv[q] != order@[i as int]@ by {
                    assert(sv[q] == set@[q]@);
                }
            }
        }
        if found {
            let ghost before = out@;
            out.push(order[i].clone());
            assert(string_seq(out@) =~= string_seq(before).push(order@[i as int]@));
        }
        i += 1;
    }
    assert(o.take(order@.len() as int) =~= o);
    out
}

/// The journeys whose assumptions system requirement `q` carries.
fn system_journey_list(
    reqs: &Vec<Requirement>,
    entries: &[SystemOverlayEntry],
    order: &[String],
    q: &Requirement,
) -> (out: Vec<String>)
    ensures
        string_seq(out@) == system_journey_ids(reqs@, entries@, string_seq(order@), *q),
{
    let mut all = child_journey_list(reqs, &q.subrequirements);
    let mut extra = overlay_journey_list(entries, q.id.0.as_str());
    let ghost a = string_seq(all@);
    let ghost b = string_seq(extra@);
    all.append(&mut extra);
    assert(string_seq(all@) =~= a + b);
    keep_listed_ids(order, &all)
}

impl RequirementCatalog {
    /// Gives each system requirement the assumptions of its journeys, in place: those that
    /// verify its functional children and those of its overlay entry (found among `entries` by
    /// the "/SYS-OVR/<suffix>" tail of its id), each once, in the order of `journey_order`, which
    /// lists the journey ids as they sort. The other requirements, and everything else about the
    /// system ones, stay as they were.
    pub fn attach_system_assumptions(
        &mut self,
        journeys: &[JourneyPreconditions],
        entries: &[SystemOverlayEntry],
        journey_order: &[String],
    )
        requires
            forall|k: int, i: int|
                0 <= k < old(self).requirements@.len() && old(self).requirements@[k].kind == RequirementClass::System
                    && 0 <= i < system_journey_ids(
                    old(self).requirements@,
                    entries@,
                    string_seq(journey_order@),
                    old(self).requirements@[k],
                ).len() ==> knows_journey_id(
                    journeys@,
                    #[trigger] system_journey_ids(
                        old(self).requirements@,
                        entries@,
                        string_seq(journey_order@),
                        old(self).requirements@[k],
                    )[i],
                ),
        ensures
            final(self).contamination_findings == old(self).contamination_findings,
            final(self).requirements@.len() == old(self).requirements@.len(),
            forall|k: int|
                0 <= k < old(self).requirements@.len() ==> same_but_assumptions(
                    #[trigger] final(self).requirements@[k],
                    old(self).requirements@[k],
                ),
            forall|k: int|
                0 <= k < old(self).requirements@.len() && old(self).requirements@[k].kind != RequirementClass::System
                    ==> #[trigger] final(self).requirements@[k] == old(self).requirements@[k],
            forall|k: int|
                0 <= k < old(self).requirements@.len() && old(self).requirements@[k].kind == RequirementClass::System
                    ==> (#[trigger] final(self).requirements@[k]).assumptions@.map_values(|a: Assumption| assumption_view(a))
                    == journey_assumptions(
                    journeys@,
                    system_journey_ids(
                        old(self).requirements@,
                        entries@,
                        string_seq(journey_order@),
                        old(self).requirements@[k],
                    ),
                ),
            systems_linked(old(self).requirements@) ==> systems_linked(final(self).requirements@),
    {
        let ghost start = self.requirements@;
        let ghost order = string_seq(journey_order@);
        let mut lists: Vec<Vec<String>> = Vec::new();
        let mut k: usize = 0;
        while k < self.requirements.len()
            invariant
                k <= self.requirements@.len(),
                self.requirements@ == start,
                order == string_seq(journey_order@),
                lists@.len() == k,
                forall|j: int|
                    0 <= j < k && start[j].kind == RequirementClass::System ==> string_seq(#[trigger] lists@[j]@)
                        == system_journey_ids(start, entries@, order, start[j]),
            decreases start.len() - k,
        {
            if self.requirements[k].kind == RequirementClass::System {
                let list = system_journey_list(&self.requirements, entries, journey_order, &self.requirements[k]);
                lists.push(list);
            } else {
                lists.push(Vec::new());
            }
            k += 1;
        }
        let mut k: usize = 0;
        while k < self.requirements.len()
            invariant
                k <= self.requirements@.len(),
                self.requirements@.len() == start.len(),
                lists@.len() == start.len(),
                order == string_seq(journey_order@),
                start == old(self).requirements@,
                self.contamination_findings == old(self).contamination_findings,
                forall|j: int|
                    0 <= j < start.len() && start[j].kind == RequirementClass::System ==> string_seq(#[trigger] lists@[j]@)
                        == system_journey_ids(start, entries@, order, start[j]),
                forall|j: int, i: int|
                    0 <= j < start.len() && start[j].kind == RequirementClass::System && 0 <= i
                        < system_journey_ids(start, entries@, order, start[j]).len() ==> knows_journey_id(
                        journeys@,
                        #[trigger] system_journey_ids(start, entries@, order, start[j])[i],
                    ),
                forall|j: int| k <= j < start.len() ==> #[trigger] self.requirements@[j] == start[j],
                forall|j: int| 0 <= j < k ==> same_but_assumptions(#[trigger] self.requirements@[j], start[j]),
                forall|j: int|
                    0 <= j < k && start[j].kind != RequirementClass::System ==> #[trigger] self.requirements@[j]
                        == start[j],
                forall|j: int|
                    0 <= j < k && start[j].kind == RequirementClass::System
                        ==> (#[trigger] self.requirements@[j]).assumptions@.map_values(|a: Assumption| assumption_view(a))
                        == journey_assumptions(journeys@, system_journey_ids(start, entries@, order, start[j])),
            decreases start.len() - k,
        {
            if self.requirements[k].kind == RequirementClass::System {
                let ghost before = self.requirements@;
                let ids = &lists[k];
                proof {
                    let want = system_journey_ids(start, entries@, order, start[k as int]);
                    assert(string_seq(ids@) == want);
                    assert forall|i: int| 0 <= i < ids@.len() implies knows_journey_id(journeys@, (#[trigger] ids@[i])@) by {
                        assert(string_seq(ids@)[i] == ids@[i]@);
                        assert(knows_journey_id(journeys@, want[i]));
                    }
                    assert(ids@.map_values(|s: String| s@) == want);
                }
                let mut req = self.requirements.remove(k);
                req.assumptions = assumptions_for_journeys(journeys, ids);
                self.requirements.insert(k, req);
                proof {
                    assert forall|j: int| 0 <= j < start.len() && j != k implies #[trigger] self.requirements@[j] == before[j] by {}
                }
            }
            k += 1;
        }
        proof {
            if systems_linked(start) {
                law_assumptions_keep_links(start, self.requirements@);
            }
        }
    }
}

} // verus!
