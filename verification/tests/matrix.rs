use blueos_logic::catalog::matrix::{
    backend_typed_skip_reason, blank_both_violations, build_journey_matrix, catalog_row, count_pass, dut_label, format_cell, format_matrix,
    has_frontend_step, has_known_route, is_hard_excluded, report_hits, yn, Actor, Cell, Journey, JourneyMatrix,
    JourneyStep, RawDut, RawReport, RawVerification, ReportHit, Verdict,
};

fn step(route_known: bool, actor: Actor) -> JourneyStep {
    JourneyStep { route_known, actor }
}

fn journey(id: &str, present: bool, steps: Option<Vec<JourneyStep>>) -> Journey {
    Journey { id: id.to_string(), present_on_1_4_dev: present, steps }
}

fn cell(state: Verdict, reason: Option<&str>, dut: Option<&str>, path: Option<&str>, utc: Option<&str>) -> Cell {
    Cell {
        state,
        reason: reason.map(|s| s.to_string()),
        dut: dut.map(|s| s.to_string()),
        report_path: path.map(|s| s.to_string()),
        utc: utc.map(|s| s.to_string()),
    }
}

fn raw(id: &str, use_case: &str, result: &str, verdict: &str) -> RawVerification {
    RawVerification {
        id: id.to_string(),
        use_case: use_case.to_string(),
        result: result.to_string(),
        verdict: verdict.to_string(),
        skip_reason: None,
    }
}

#[test]
fn keys_prefer_use_case_and_verdict() {
    let entry = raw("old_id", "calibrate_compass", "passed", "pass");
    assert_eq!(entry.journey_key(), "calibrate_compass");
    assert_eq!(entry.verdict_key(), "pass");
    let legacy = raw("old_id", "", "passed", "");
    assert_eq!(legacy.journey_key(), "old_id");
    assert_eq!(legacy.verdict_key(), "passed");
}

#[test]
fn dut_label_takes_the_host_of_the_base() {
    assert_eq!(dut_label("  http://192.168.0.177:80/x ", None), Some("192.168.0.177".to_string()));
    assert_eq!(dut_label("https://blueos.local/", None), Some("blueos.local".to_string()));
    assert_eq!(dut_label("http://http://host", None), Some("host".to_string()));
    let dut = RawDut { tag: "1.4-dev".to_string() };
    assert_eq!(dut_label("", Some(&dut)), Some("1.4-dev".to_string()));
    assert_eq!(dut_label("http://", Some(&RawDut { tag: String::new() })), None);
    assert_eq!(dut_label("", None), None);
}

#[test]
fn yn_marks() {
    assert_eq!(yn(true), "y");
    assert_eq!(yn(false), ".");
}

#[test]
fn cells_format_by_state() {
    assert_eq!(format_cell(&Cell::empty()), "empty");
    assert_eq!(format_cell(&Cell::planned()), "planned");
    assert_eq!(format_cell(&Cell::skip("no_route")), "skip:no_route");
    assert_eq!(format_cell(&cell(Verdict::Pass, None, Some("10.0.0.2"), None, None)), "pass@10.0.0.2");
    assert_eq!(format_cell(&cell(Verdict::Pass, Some("F-068"), None, None, None)), "pass+F-068");
    assert_eq!(format_cell(&cell(Verdict::Pass, Some(""), None, None, None)), "pass");
    assert_eq!(format_cell(&cell(Verdict::Fail("x".to_string()), None, Some("d"), None, None)), "fail@d");
    assert_eq!(format_cell(&cell(Verdict::Inconclusive(String::new()), None, Some("d"), None, None)), "planned");
}

#[test]
fn overlay_respects_hard_exclusion_and_ranks() {
    let mut excluded = Cell::skip("hard_exclude");
    excluded.overlay(cell(Verdict::Pass, None, None, None, None), 9, 0);
    assert!(matches!(excluded.state, Verdict::Inconclusive(_)));

    let mut current = Cell::empty();
    current.overlay(cell(Verdict::Pass, None, Some("d"), Some("r.json"), None), 3, 0);
    assert!(matches!(current.state, Verdict::Pass));

    let mut timed = cell(Verdict::Pass, None, None, Some("a.json"), Some("2024-01-02"));
    timed.overlay(cell(Verdict::Fail(String::new()), None, None, Some("b.json"), Some("2024-01-01")), 3, 3);
    assert_eq!(timed.report_path.as_deref(), Some("a.json"));
    timed.overlay(cell(Verdict::Fail(String::new()), None, None, Some("c.json"), Some("2024-01-03")), 3, 3);
    assert_eq!(timed.report_path.as_deref(), Some("c.json"));

    let mut planned = Cell::planned();
    planned.overlay(cell(Verdict::Inconclusive(String::new()), None, None, Some("p.json"), None), 1, 1);
    assert_eq!(planned.report_path.as_deref(), Some("p.json"));
    planned.overlay(cell(Verdict::Inconclusive(String::new()), None, None, Some("q.json"), None), 1, 1);
    assert_eq!(planned.report_path.as_deref(), Some("p.json"));
}

#[test]
fn routes_and_frontend_steps_need_known_steps() {
    let j = journey("x", true, Some(vec![step(false, Actor::Operator), step(true, Actor::Frontend("ui".to_string()))]));
    assert!(has_known_route(&j));
    assert!(has_frontend_step(&j));
    let unknown = journey("y", true, None);
    assert!(!has_known_route(&unknown));
    assert!(!has_frontend_step(&unknown));
}

#[test]
fn catalog_rows_pick_initial_cells() {
    let excluded = catalog_row(&journey("deploy", true, Some(vec![step(true, Actor::Operator)])), true, None);
    assert_eq!(format_cell(&excluded.backend), "skip:hard_exclude");
    assert_eq!(format_cell(&excluded.ui), "skip:hard_exclude");
    assert!(is_hard_excluded("shutdown_onboard_computer"));

    let absent = catalog_row(&journey("rename_vehicle", false, None), false, None);
    assert_eq!(format_cell(&absent.backend), "skip:not_on_1.4-dev");

    let typed = catalog_row(&journey("enable_ping1d_rangefinder_mavlink", true, Some(vec![step(true, Actor::Operator)])), false, None);
    assert_eq!(format_cell(&typed.backend), "skip:no_sonar");
    assert_eq!(format_cell(&typed.ui), "empty");
    assert_eq!(backend_typed_skip_reason("create_serial_to_udp_bridge"), Some("usb_serial_device"));

    let page = catalog_row(&journey("view_system_information", true, Some(vec![step(false, Actor::Service("x".to_string()))])), false, None);
    assert_eq!(format_cell(&page.backend), "skip:no_route");
    assert_eq!(format_cell(&page.ui), "planned");
    assert!(page.page_load_ui);

    let ui_skip = catalog_row(&journey("x", true, Some(vec![step(true, Actor::Operator)])), false, Some("needs_vehicle"));
    assert_eq!(format_cell(&ui_skip.ui), "skip:needs_vehicle");
    assert_eq!(format_cell(&ui_skip.backend), "planned");

    let no_ui = catalog_row(&journey("x", true, Some(vec![step(true, Actor::Service("s".to_string()))])), false, None);
    assert_eq!(format_cell(&no_ui.ui), "skip:no_operator_ui");
}

#[test]
fn present_catalog_rows_have_no_blank_both_cells() {
    let rows = vec![
        catalog_row(&journey("a", true, Some(vec![step(false, Actor::Operator)])), false, None),
        catalog_row(&journey("b", true, None), false, None),
    ];
    let matrix = JourneyMatrix { rows };
    assert!(blank_both_violations(&matrix).is_empty());
}

#[test]
fn matrix_text_lists_counts_and_rows() {
    let mut blank = catalog_row(&journey("b_blank", true, Some(vec![step(false, Actor::Operator)])), false, None);
    blank.backend = Cell::empty();
    let mut measured = catalog_row(&journey("a_ok", true, Some(vec![step(true, Actor::Operator)])), true, None);
    measured.backend = cell(Verdict::Pass, None, Some("host"), Some("r.json"), None);
    let mut contradicted = catalog_row(&journey("c_gone", false, None), false, None);
    contradicted.presence_contradiction = true;
    let matrix = JourneyMatrix { rows: vec![measured, blank, contradicted] };
    assert_eq!(count_pass(&matrix, true), 1);
    assert_eq!(count_pass(&matrix, false), 0);
    assert_eq!(blank_both_violations(&matrix), vec!["b_blank".to_string()]);
    let text = format_matrix(&matrix);
    let expected = format!(
        "BlueOS catalog \u{2014} journey coverage matrix (1.4-dev)\n\
Oracle: per-step route/frontend detection. derive_automatable is a hint only.\n\n\
Journeys: 3 (present on 1.4-dev: 2)\n\
Backend measured pass: 1   UI measured pass: 0\n\
UI empty (needs plan): 1   presence contradictions: 1\n\
Both cells empty (gate): 1\n\n\
Both cells empty:\n  b_blank\n\n\
Presence map vs live report:\n  c_gone\n\n\
UI cell empty (operator/frontend, no ui_plan, not page-load):\n  b_blank\n\n\
{:<42} {:<4} {:<5} {:<3} {:<5} {:<22} {}\n\
{:<42} {:<4} {:<5} {:<3} {:<5} {:<22} {}\n\
{:<42} {:<4} {:<5} {:<3} {:<5} {:<22} {}\n\
{:<42} {:<4} {:<5} {:<3} {:<5} {:<22} {}\n",
        "id", "1.4", "route", "fe", "plan", "backend", "ui",
        "a_ok", "y", "y", ".", "y", "pass@host", "planned",
        "b_blank", "y", ".", ".", ".", "empty", "empty",
        "c_gone", ".", ".", ".", ".", "skip:not_on_1.4-dev", "skip:not_on_1.4-dev"
    );
    assert_eq!(text, expected);
}

#[test]
fn report_hits_resolve_entries_and_mark_the_compass_finding() {
    let report = RawReport {
        suite: "ui".to_string(),
        base: "http://192.168.0.177".to_string(),
        dut: None,
        finished_at: "2024-05-01T10:00:00Z".to_string(),
        journeys: vec![],
        verifications: vec![
            raw("", "calibrate_compass", "", "pass"),
            raw("", "", "", "pass"),
            raw("level_horizon", "", "fail", ""),
            raw("mystery", "", "pass", ""),
        ],
    };
    let resolved = vec![
        Some(("calibrate_compass".to_string(), Verdict::Pass)),
        Some(("ignored".to_string(), Verdict::Pass)),
        Some(("level_horizon".to_string(), Verdict::Fail(String::new()))),
        None,
    ];
    let hits = report_hits(&report, "reports/ui.json", &resolved);
    assert_eq!(hits.len(), 2);
    assert_eq!(hits[0].journey_id, "calibrate_compass");
    assert!(hits[0].suite_is_ui);
    assert_eq!(hits[0].reason.as_deref(), Some("F-068"));
    assert_eq!(hits[0].dut.as_deref(), Some("192.168.0.177"));
    assert_eq!(hits[0].utc.as_deref(), Some("2024-05-01T10:00:00Z"));
    assert_eq!(hits[0].report_path, "reports/ui.json");
    assert_eq!(hits[1].journey_id, "level_horizon");
    assert!(hits[1].reason.is_none());
}

#[test]
fn legacy_reports_use_their_journeys() {
    let report = RawReport {
        suite: "backend".to_string(),
        base: String::new(),
        dut: Some(RawDut { tag: "1.4-dev".to_string() }),
        finished_at: String::new(),
        journeys: vec![raw("rename_vehicle", "", "pass", "")],
        verifications: vec![],
    };
    let hits = report_hits(&report, "legacy.json", &[Some(("rename_vehicle".to_string(), Verdict::Pass))]);
    assert_eq!(hits.len(), 1);
    assert!(!hits[0].suite_is_ui);
    assert_eq!(hits[0].dut.as_deref(), Some("1.4-dev"));
    assert!(hits[0].utc.is_none());
}

fn hit(journey: &str, ui: bool, state: Verdict, utc: Option<&str>) -> ReportHit {
    ReportHit {
        journey_id: journey.to_string(),
        suite_is_ui: ui,
        state,
        reason: None,
        dut: Some("1.4-dev".to_string()),
        report_path: format!("reports/{journey}.json"),
        utc: utc.map(|s| s.to_string()),
    }
}

#[test]
fn matrix_rows_sort_by_journey_id_keeping_ties_in_order() {
    let rows = vec![
        catalog_row(&journey("b_journey", true, None), false, None),
        catalog_row(&journey("a_journey", false, None), true, None),
        catalog_row(&journey("b_journey", false, None), false, None),
        catalog_row(&journey("a", true, None), false, None),
    ];
    let matrix = build_journey_matrix(rows);
    let order: Vec<(String, bool)> = matrix.rows.iter().map(|r| (r.journey_id.clone(), r.present_on_1_4_dev)).collect();
    assert_eq!(
        order,
        vec![
            ("a".to_string(), true),
            ("a_journey".to_string(), false),
            ("b_journey".to_string(), true),
            ("b_journey".to_string(), false),
        ]
    );
    assert!(build_journey_matrix(Vec::new()).rows.is_empty());
}

#[test]
fn hits_land_on_their_rows_column_and_flag_absent_journeys() {
    let rows = vec![
        catalog_row(&journey("present", true, None), false, None),
        catalog_row(&journey("absent", false, None), false, None),
    ];
    let mut matrix = build_journey_matrix(rows);
    matrix.apply_hit(hit("absent", false, Verdict::Pass, Some("2024-01-01")), 4, 1);
    let absent = &matrix.rows[0];
    assert_eq!(absent.journey_id, "absent");
    assert!(matches!(absent.backend.state, Verdict::Pass));
    assert_eq!(absent.backend.report_path.as_deref(), Some("reports/absent.json"));
    assert!(absent.presence_contradiction);
    matrix.apply_hit(hit("present", true, Verdict::Fail("x".to_string()), None), 3, 1);
    let present = &matrix.rows[1];
    assert!(matches!(present.ui.state, Verdict::Fail(_)));
    assert!(!present.presence_contradiction);
    matrix.apply_hit(hit("present", true, Verdict::Pass, None), 2, 3);
    assert!(matches!(matrix.rows[1].ui.state, Verdict::Fail(_)));
    matrix.apply_hit(hit("unknown", false, Verdict::Pass, None), 9, 0);
    assert_eq!(matrix.rows.len(), 2);
}
