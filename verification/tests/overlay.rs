use blueos_logic::catalog::contamination::find_contamination;
use blueos_logic::catalog::overlay::{overlay_entry_for_requirement_id, system_overlay_entries, Aggregate, Provenance};

#[test]
fn overlay_entry_count_within_cap() {
    let entries = system_overlay_entries();
    assert!(entries.len() <= 12, "overlay must have at most 12 entries");
    assert!(!entries.is_empty(), "overlay must not be empty");
}

#[test]
fn overlay_statements_pass_contamination_lint() {
    for entry in system_overlay_entries() {
        assert!(
            find_contamination(entry.statement).is_none(),
            "overlay statement contaminated: {}",
            entry.suffix
        );
    }
}

#[test]
fn overlay_citation_kind_is_asserted() {
    for entry in system_overlay_entries() {
        assert!(
            matches!(entry.provenance, Provenance::Asserted { .. }),
            "overlay must stay Asserted-only so provenance_walk can exclude it: {}",
            entry.suffix
        );
    }
}

#[test]
fn overlay_entries_have_at_least_one_criterion() {
    for entry in system_overlay_entries() {
        assert!(
            !entry.criteria.is_empty(),
            "overlay entry states no acceptance criterion: {}",
            entry.suffix
        );
    }
}

#[test]
fn overlay_entry_found_by_requirement_id_suffix() {
    let entry = overlay_entry_for_requirement_id("REQ/storage/SYS-OVR/storage_pressure_visibility")
        .expect("storage overlay");
    assert_eq!(entry.suffix, "storage_pressure_visibility");
    assert_eq!(entry.aggregate, Aggregate::Storage);
    assert_eq!(entry.journey_ids, vec!["inspect_disk_usage", "free_disk_space"]);
}

#[test]
fn overlay_entry_needs_the_overlay_marker() {
    assert!(overlay_entry_for_requirement_id("REQ/storage/SYS/storage_pressure_visibility").is_none());
    assert!(overlay_entry_for_requirement_id("storage_pressure_visibility").is_none());
    assert!(overlay_entry_for_requirement_id("").is_none());
}
