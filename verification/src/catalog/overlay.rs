use vstd::prelude::*;

use crate::text::chars_of;

verus! {

/// The part of the catalog a system-overlay requirement belongs to.
#[derive(Clone, Copy, Debug, PartialEq, Eq, Structural)]
pub enum Aggregate {
    WebIngress,
    WiredNetwork,
    Storage,
    HostControl,
}

/// Where a catalog claim comes from. Overlay claims are asserted with a rationale.
#[derive(Clone, Copy, Debug)]
pub enum Provenance {
    Asserted { rationale: &'static str },
}

/// A system requirement that no journey composes, stated directly with its criteria.
#[derive(Debug)]
pub struct SystemOverlayEntry {
    pub suffix: &'static str,
    pub aggregate: Aggregate,
    pub statement: &'static str,
    pub criteria: Vec<&'static str>,
    pub provenance: Provenance,
    /// The journeys (by id) whose availability the requirement takes.
    pub journey_ids: Vec<&'static str>,
    pub traces: Vec<&'static str>,
}

/// A copy of a list of static texts.
fn copy_strs(v: &Vec<&'static str>) -> (out: Vec<&'static str>)
    ensures
        out@ == v@,
{
    let mut out: Vec<&'static str> = Vec::new();
    let mut i: usize = 0;
    while i < v.len()
        invariant
            i <= v@.len(),
            out@ == v@.take(i as int),
        decreases v@.len() - i,
    {
        out.push(v[i]);
        i += 1;
        assert(out@ =~= v@.take(i as int));
    }
    assert(v@.take(v@.len() as int) =~= v@);
    out
}

impl SystemOverlayEntry {
    /// A copy of this entry.
    pub fn duplicate(&self) -> (out: SystemOverlayEntry)
        ensures
            out.suffix == self.suffix,
            out.aggregate == self.aggregate,
            out.statement == self.statement,
            out.criteria@ == self.criteria@,
            out.journey_ids@ == self.journey_ids@,
            out.traces@ == self.traces@,
    {
        SystemOverlayEntry {
            suffix: self.suffix,
            aggregate: self.aggregate,
            statement: self.statement,
            criteria: copy_strs(&self.criteria),
            provenance: self.provenance,
            journey_ids: copy_strs(&self.journey_ids),
            traces: copy_strs(&self.traces),
        }
    }
}

/// The suffixes of the overlay entries, in order.
pub open spec fn overlay_suffixes() -> Seq<Seq<char>> {
    seq![
        "boot_to_usable_web_ui"@,
        "local_network_without_internet"@,
        "storage_pressure_visibility"@,
        "essential_service_supervision"@,
    ]
}

/// The system-overlay requirements.
pub fn system_overlay_entries() -> (entries: Vec<SystemOverlayEntry>)
    ensures
        entries@.len() == overlay_suffixes().len(),
        forall|k: int| 0 <= k < entries@.len() ==> (#[trigger] entries@[k]).suffix@ == overlay_suffixes()[k]
            && entries@[k].criteria@.len() > 0,
{
    vec![
        SystemOverlayEntry {
            suffix: "boot_to_usable_web_ui",
            aggregate: Aggregate::WebIngress,
            statement: "After power-on the operator can reach the vehicle web interface without manual service recovery",
            criteria: vec![
                "boot_timeline recorded HTTP 200 on port 80 at phase2 on 2 of 3 monitored hosts, each only after one automatic reboot (catalog/boot-timeline-192.168.0.124/summary.json:55 at 73.4s, catalog/boot-timeline-192.168.0.177/summary.json:65 at 121.9s)",
                "the third host reached no HTTP response and no reboot before the monitor gave up (catalog/boot-timeline-192.168.0.87/summary.json:16 max_wait)",
                "content/usage/installation.md documents first-boot expansion may take minutes",
            ],
            provenance: Provenance::Asserted {
                rationale: "Operators and field techs expect a powered vehicle to present the BlueOS UI without ssh intervention; boot_timeline captures this on real hardware",
            },
            journey_ids: vec!["discover_blueos_on_network"],
            traces: vec![
                "content/usage/installation.md:59",
                "catalog/boot-timeline-192.168.0.124/summary.json:55",
                "catalog/boot-timeline-192.168.0.177/summary.json:65",
                "catalog/boot-timeline-192.168.0.87/summary.json:16",
            ],
        },
        SystemOverlayEntry {
            suffix: "local_network_without_internet",
            aggregate: Aggregate::WiredNetwork,
            statement: "Core vehicle configuration remains available on the local network when wide-area internet is unavailable",
            criteria: vec![
                "journey:DiscoverBlueosOnNetwork declares two wired-connection preconditions and no Network::Online (catalog/crates/catalog-data/src/journeys/beacon.rs:110-121)",
                "RenameVehicle (catalog/crates/catalog-data/src/journeys/beacon.rs:36) and InspectDiskUsage (catalog/crates/catalog-data/src/journeys/disk_usage.rs:55) declare empty preconditions, so neither requires Network::Online",
            ],
            provenance: Provenance::Asserted {
                rationale: "ROV operators routinely configure vehicles on bench Ethernet before internet is available; getting-started documents wired access",
            },
            journey_ids: vec!["discover_blueos_on_network", "rename_vehicle", "inspect_disk_usage"],
            traces: vec![
                "content/usage/getting-started/index.md:29",
                "catalog/crates/catalog-data/src/journeys/beacon.rs:36",
                "catalog/crates/catalog-data/src/journeys/beacon.rs:110",
                "catalog/crates/catalog-data/src/journeys/disk_usage.rs:55",
            ],
        },
        SystemOverlayEntry {
            suffix: "storage_pressure_visibility",
            aggregate: Aggregate::Storage,
            statement: "The operator can inspect storage consumption before userdata exhaustion blocks operations",
            criteria: vec![
                "journey:InspectDiskUsage returns a du-backed usage tree for a selected path",
                "journey:FreeDiskSpace removes files to reclaim space",
            ],
            provenance: Provenance::Asserted {
                rationale: "Full userdata disks brick log and recording workflows; disk_usage journeys are the operator-facing contract",
            },
            journey_ids: vec!["inspect_disk_usage", "free_disk_space"],
            traces: vec!["core/services/disk_usage/main.py:251"],
        },
        SystemOverlayEntry {
            suffix: "essential_service_supervision",
            aggregate: Aggregate::HostControl,
            statement: "Essential platform services are supervised and restarted when they exit unexpectedly",
            criteria: vec![
                "core/run-service.sh:142-154 restarts the service command in a while-true loop after unexpected exit",
                "core/start-blueos-core:200 invokes run-service for each launched service",
                "journey:RebootOnboardComputer returns the platform to service without operator intervention, so every service it lost is relaunched by that supervisor",
            ],
            provenance: Provenance::Asserted {
                rationale: "BlueOS 1.x restarts essential services via the run-service while-true loop, not via tmux itself",
            },
            journey_ids: vec!["reboot_onboard_computer"],
            traces: vec!["core/run-service.sh:142", "core/start-blueos-core:200"],
        },
    ]
}

/// `s` ends with `suffix`.
pub open spec fn ends_with(s: Seq<char>, suffix: Seq<char>) -> bool {
    suffix.len() <= s.len() && s.subrange(s.len() - suffix.len(), s.len() as int) == suffix
}

/// The id tail that marks the overlay requirement for `suffix`.
pub open spec fn overlay_marker(suffix: Seq<char>) -> Seq<char> {
    "/SYS-OVR/"@ + suffix
}

/// `k` is the first overlay entry whose marker ends the requirement id.
pub open spec fn is_first_overlay_for(id: Seq<char>, k: int) -> bool {
    &&& 0 <= k < overlay_suffixes().len()
    &&& ends_with(id, overlay_marker(overlay_suffixes()[k]))
    &&& forall|j: int| 0 <= j < k ==> !ends_with(id, overlay_marker(overlay_suffixes()[j]))
}

/// Whether `chars` ends with `marker` followed by `suffix`.
pub(crate) fn ends_with_marker(chars: &[char], suffix: &str) -> (found: bool)
    ensures
        found == ends_with(chars@, overlay_marker(suffix@)),
{
    let mut marker = chars_of("/SYS-OVR/");
    let tail = chars_of(suffix);
    let ghost marker_view = marker@;
    marker.extend_from_slice(tail.as_slice());
    assert(marker@ =~= overlay_marker(suffix@));
    let n = chars.len();
    if marker.len() > n {
        return false;
    }
    crate::text::range_eq(chars, n - marker.len(), n, &marker)
}

/// The overlay entry whose requirement has id `id`, found by the "/SYS-OVR/<suffix>" tail.
pub fn overlay_entry_for_requirement_id(id: &str) -> (entry: Option<SystemOverlayEntry>)
    ensures
        match entry {
            Some(e) => exists|k: int| is_first_overlay_for(id@, k) && e.suffix@ == overlay_suffixes()[k],
            None => forall|k: int| 0 <= k < overlay_suffixes().len() ==> !ends_with(id@, overlay_marker(overlay_suffixes()[k])),
        },
{
    let chars = chars_of(id);
    let entries = system_overlay_entries();
    let mut k: usize = 0;
    while k < entries.len()
        invariant
            k <= entries@.len(),
            chars@ == id@,
            entries@.len() == overlay_suffixes().len(),
            forall|m: int| 0 <= m < entries@.len() ==> (#[trigger] entries@[m]).suffix@ == overlay_suffixes()[m],
            forall|m: int| 0 <= m < k ==> !ends_with(id@, overlay_marker(#[trigger] overlay_suffixes()[m])),
        decreases entries@.len() - k,
    {
        if ends_with_marker(&chars, entries[k].suffix) {
            proof {
                assert(entries@[k as int].suffix@ == overlay_suffixes()[k as int]);
                assert(is_first_overlay_for(id@, k as int));
            }
            return Some(entries[k].duplicate());
        }
        proof {
            assert(entries@[k as int].suffix@ == overlay_suffixes()[k as int]);
        }
        k += 1;
    }
    None
}

} // verus!
