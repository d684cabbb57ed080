use blueos_logic::catalog::assemble::{first_route_positions, FunctionalPart};
use blueos_logic::catalog::routes::InterfaceStep;
use blueos_logic::catalog::assumption::{
    assumption_kind, assumptions_for_journeys, precondition_statement, DataAssumption, JourneyPreconditions, HardwareAssumption, NetworkResource, NetworkState,
    Precondition, SoftwareAssumption,
};
use blueos_logic::catalog::availability::{
    availability_for_capability, availability_for_service, merge_journey_availabilities, overlay_availability_from_ids,
    Availability, JourneyLinks,
};
use blueos_logic::catalog::attribution::{
    availability_first_tag_key, capability_attributions_for_journey, capability_summary_overlap,
    journey_summary_fits_capability, primary_capability_for_journey, select_primary_capability,
};
use blueos_logic::catalog::derive::{
    capability_phrase_for_service, functional_requirement_id_for_function, interface_criteria, interface_requirement_id,
    overlay_requirement_id, path_starts_with_service_prefix, performance_requirement_id, performance_statement,
    robustness_requirement_id, robustness_statement, sanitize_path_for_id, system_requirement_id,
};
use blueos_logic::catalog::functional::{
    compose_function_criteria, compose_function_statement, format_step_criterion, functional_criteria, step_criterion,
    StepEvidence, StepOutcome, StepProvenance, StepRoute, Transition, VerifyingJourney,
};
use blueos_logic::catalog::overlay::system_overlay_entries;
use blueos_logic::catalog::requirement::{
    AcceptanceCriterion, AssumptionKind, ContaminationSource, Requirement, RequirementCatalog, RequirementClass,
    RequirementCriteria, RequirementId, RequirementStatement, RequirementValidationError,
};
use blueos_logic::catalog::structure::{DeclaredCapability, JourneyAutomation};

fn criteria(items: &[&str]) -> RequirementCriteria {
    RequirementCriteria::Known { items: items.iter().map(|t| AcceptanceCriterion { text: t.to_string() }).collect() }
}

fn functional(id: &str, feature: &str, statement: &str, items: &[&str], verifiers: &[&str]) -> Requirement {
    Requirement {
        id: RequirementId(id.to_string()),
        kind: RequirementClass::Functional,
        domain: "onboard_computer".to_string(),
        aggregate: "host_control".to_string(),
        statement: RequirementStatement::Known { text: statement.to_string() },
        criteria: criteria(items),
        feature_id: Some(feature.to_string()),
        journey_id: None,
        function_id: None,
        requirement_verifications: verifiers.iter().map(|v| v.to_string()).collect(),
        subrequirements: Vec::new(),
        assumptions: Vec::new(),
        rationale: None,
    }
}

fn parts(rows: Vec<Requirement>) -> Vec<FunctionalPart> {
    rows.into_iter()
        .map(|r| FunctionalPart {
            id: r.id,
            domain: r.domain,
            aggregate: r.aggregate,
            statement: r.statement,
            criteria: r.criteria,
            capability: r.feature_id.unwrap_or_default(),
            function_id: r.function_id.unwrap_or_default(),
            verifications: r.requirement_verifications,
        })
        .collect()
}

fn capability(id: &str) -> DeclaredCapability {
    DeclaredCapability {
        id: id.to_string(),
        domain: "onboard_computer".to_string(),
        aggregate: "host_control".to_string(),
        rationale: format!("why {id}"),
    }
}

fn texts(c: &RequirementCriteria) -> Vec<String> {
    match c {
        RequirementCriteria::Known { items } => items.iter().map(|i| i.text.clone()).collect(),
        RequirementCriteria::Unknown { reason } => vec![format!("unknown: {reason}")],
    }
}

#[test]
fn sanitize_path_drops_leading_slashes_and_separators() {
    assert_eq!(sanitize_path_for_id("//v1.0/wifi/scan?x=1&y=2"), "v1.0_wifi_scan_x_1_y_2");
    assert_eq!(sanitize_path_for_id(""), "");
}

#[test]
fn requirement_ids_follow_the_layout() {
    assert_eq!(system_requirement_id("d", "a", "cap").0, "REQ/d/a/SYS/cap");
    assert_eq!(functional_requirement_id_for_function("d", "a", "fn_x").0, "REQ/d/a/FUN/fn_x");
    assert_eq!(interface_requirement_id("d", "a", "GET", "/v1/status").0, "REQ/d/a/IF/GET/v1_status");
    assert_eq!(performance_requirement_id("d", "a", "POST", "/x?y").0, "REQ/d/a/PERF/POST/x_y");
    assert_eq!(robustness_requirement_id("d", "a", "probe-1").0, "REQ/d/a/ROB/probe-1");
    assert_eq!(overlay_requirement_id("d", "a", "s").0, "REQ/d/a/SYS-OVR/s");
}

#[test]
fn statements_of_derived_requirements() {
    assert_eq!(robustness_statement(Some("wifi_network_config")), "Invalid or unsafe wifi network config request is rejected safely");
    assert_eq!(robustness_statement(None), "Invalid or unsafe request is rejected safely");
    assert_eq!(performance_statement(Some("disk usage")), "Captured disk usage endpoint latency stays within measured baseline");
    assert_eq!(performance_statement(None), "Captured endpoint latency stays within measured baseline");
    let caps = vec!["inspect_disk_usage".to_string()];
    assert_eq!(capability_phrase_for_service(Some(&caps)), Some("inspect disk usage".to_string()));
    assert_eq!(capability_phrase_for_service(Some(&[])), None);
    assert_eq!(capability_phrase_for_service(None), None);
}

#[test]
fn interface_criteria_cite_capture() {
    assert_eq!(texts(&interface_criteria("GET", "/v1/x", Some("capture=c env=e".to_string()))), vec!["GET /v1/x (capture=c env=e)"]);
    assert_eq!(texts(&interface_criteria("PUT", "/y", None)), vec!["PUT /y"]);
}

#[test]
fn service_prefixes_cover_paths() {
    let prefixes = vec!["/".to_string(), "/wifi-manager/".to_string()];
    assert!(path_starts_with_service_prefix(Some(&prefixes), "/wifi-manager/v1.0/scan"));
    assert!(path_starts_with_service_prefix(Some(&prefixes), "/wifi-manager"));
    assert!(!path_starts_with_service_prefix(Some(&prefixes), "/other"));
    assert!(!path_starts_with_service_prefix(None, "/wifi-manager"));
}

#[test]
fn preconditions_state_assumptions() {
    let p = Precondition::ServiceState { service: "kraken".to_string(), state: "running".to_string() };
    assert_eq!(precondition_statement(&p), "kraken service is in the running state");
    assert_eq!(assumption_kind(&p), AssumptionKind::Other);
    let p = Precondition::Hardware(HardwareAssumption::FlightController("Navigator".to_string()));
    assert_eq!(precondition_statement(&p), "a Navigator flight controller is connected");
    assert_eq!(assumption_kind(&p), AssumptionKind::Hardware);
    assert_eq!(precondition_statement(&Precondition::Network(NetworkState::Offline)), "network connectivity is unavailable");
    assert_eq!(assumption_kind(&Precondition::NetworkResource(NetworkResource::UsbOtgPresent)), AssumptionKind::Network);
    assert_eq!(precondition_statement(&Precondition::Software(SoftwareAssumption::DevMode)), "developer mode is enabled");
    assert_eq!(assumption_kind(&Precondition::Data(DataAssumption::RecordingListed)), AssumptionKind::Data);
    assert_eq!(precondition_statement(&Precondition::ConfigClean("/etc/x".to_string())), "/etc/x configuration is clean");
    assert_eq!(precondition_statement(&Precondition::HardwarePresent("Ping360".to_string())), "Ping360 hardware is present");
}

#[test]
fn capability_overlap_scores_tokens_and_bonuses() {
    assert_eq!(capability_summary_overlap("inspect_disk_usage", "inspect the disk usage tree"), 3);
    assert_eq!(capability_summary_overlap("inspect_disk_usage", "the disk"), 1);
    assert_eq!(capability_summary_overlap("flash_firmware", "install new firmware"), 5);
    assert_eq!(capability_summary_overlap("a_b", "a b"), 0);
}

#[test]
fn summaries_fit_capabilities() {
    assert!(journey_summary_fits_capability("Discover BlueOS on the network", "advertise_mdns_domains"));
    assert!(journey_summary_fits_capability("Detect the connected board", "detect_flight_controllers"));
    assert!(!journey_summary_fits_capability("Rename vehicle", "inspect_disk_usage"));
    assert!(journey_summary_fits_capability("Inspect disk usage", "inspect_disk_usage"));
}

#[test]
fn primary_capability_takes_last_best_positive_overlap() {
    let candidates = vec!["inspect_disk_usage".to_string(), "free_disk_space".to_string(), "rename_vehicle".to_string()];
    assert_eq!(select_primary_capability("Free disk space now", &candidates), Some("free_disk_space".to_string()));
    let tie = vec!["disk_alpha".to_string(), "disk_bravo".to_string()];
    assert_eq!(select_primary_capability("disk", &tie), Some("disk_bravo".to_string()));
    assert_eq!(select_primary_capability("nothing", &tie), None);
    assert_eq!(capability_attributions_for_journey("Free disk space now", Some(&candidates)), vec!["free_disk_space".to_string()]);
    assert_eq!(primary_capability_for_journey("Free disk space now", None), None);
    let one = vec!["inspect_disk_usage".to_string()];
    assert_eq!(primary_capability_for_journey("Inspect disk usage", Some(&one)), Some("inspect_disk_usage".to_string()));
}

#[test]
fn tag_keys_sort_versions() {
    assert_eq!(availability_first_tag_key(Some("v1.4.2")), (1, 4, 2, 0));
    assert_eq!(availability_first_tag_key(Some("1.4")), (1, 4, u32::MAX, 0));
    assert_eq!(availability_first_tag_key(Some("1.x.3.9")), (1, u32::MAX, 3, 0));
    assert_eq!(availability_first_tag_key(Some("master")), (u32::MAX, u32::MAX, u32::MAX, 0));
    assert_eq!(availability_first_tag_key(None), (u32::MAX, u32::MAX, u32::MAX, u32::MAX));
}

#[test]
fn step_criteria_from_routes_or_descriptions() {
    let route = StepRoute { method: "POST".to_string(), resolved: "/v1/name".to_string() };
    let outcome = StepOutcome {
        expected_status: Some(200),
        body_predicate: Some("ok".to_string()),
        transition: Some(Transition { machine: "ap".to_string(), from: "idle".to_string(), to: "armed".to_string() }),
        provenance: StepProvenance::Runtime { capture: "cap1".to_string(), environment: "pi4".to_string() },
    };
    assert_eq!(
        format_step_criterion(&route, &outcome, "capture=cap1 env=pi4"),
        "POST /v1/name status=200 body~=ok transition ap:idle->armed (capture=cap1 env=pi4)"
    );
    let step = StepEvidence { route: Some(route), outcome: Some(outcome), description: "rename".to_string() };
    assert_eq!(
        step_criterion(0, &step).unwrap().text,
        "POST /v1/name status=200 body~=ok transition ap:idle->armed (capture=cap1 env=pi4)"
    );
    let described = StepEvidence { route: None, outcome: None, description: "open the page".to_string() };
    assert_eq!(step_criterion(3, &described).unwrap().text, "step 3: open the page");
    let blank = StepEvidence { route: None, outcome: None, description: String::new() };
    assert!(step_criterion(1, &blank).is_none());
}

#[test]
fn journey_criteria_need_steps_and_captures() {
    assert_eq!(texts(&functional_criteria(&None, false)), vec!["unknown: journey steps are not grounded"]);
    let steps = Some(vec![StepEvidence { route: None, outcome: None, description: "look".to_string() }]);
    assert_eq!(texts(&functional_criteria(&steps, false)), vec!["step 0: look"]);
    assert_eq!(texts(&functional_criteria(&steps, true)), vec!["unknown: http-automatable journey lacks runtime capture evidence"]);
    assert_eq!(texts(&functional_criteria(&Some(vec![]), false)), vec!["unknown: journey has no step-level acceptance criteria"]);
}

#[test]
fn function_criteria_merge_journeys() {
    let journeys = vec![
        VerifyingJourney { id: "a".to_string(), criteria: criteria(&["x", "y"]), http_automatable: false },
        VerifyingJourney { id: "b".to_string(), criteria: criteria(&["y", "z capture=1"]), http_automatable: true },
    ];
    assert_eq!(texts(&compose_function_criteria(&journeys)), vec!["x", "y", "z capture=1"]);
    let unknown = vec![
        VerifyingJourney { id: "a".to_string(), criteria: criteria(&["x"]), http_automatable: false },
        VerifyingJourney { id: "b".to_string(), criteria: RequirementCriteria::Unknown { reason: "r".to_string() }, http_automatable: false },
    ];
    assert_eq!(texts(&compose_function_criteria(&unknown)), vec!["unknown: verifying journey b has unknown criteria: r"]);
    let no_capture = vec![VerifyingJourney { id: "a".to_string(), criteria: criteria(&["x"]), http_automatable: true }];
    assert_eq!(texts(&compose_function_criteria(&no_capture)), vec!["unknown: http-automatable verifying journey lacks runtime capture evidence"]);
    assert_eq!(texts(&compose_function_criteria(&[])), vec!["unknown: verifying journeys have no acceptance criteria"]);
}

#[test]
fn function_statement_joins_distinct_summaries() {
    let mut findings = Vec::new();
    let ids = vec!["a".to_string(), "b".to_string(), "c".to_string()];
    let summaries = vec!["Rename the vehicle".to_string(), "Show the name".to_string(), "Rename the vehicle".to_string()];
    match compose_function_statement(&ids, &summaries, &mut findings) {
        RequirementStatement::Known { text } => assert_eq!(text, "Rename the vehicle; Show the name"),
        other => panic!("expected known, got {:?}", other),
    }
    assert!(findings.is_empty());
    let contaminated = vec!["POST /vehicle_name".to_string()];
    let statement = compose_function_statement(&ids[..1], &contaminated, &mut findings);
    assert!(matches!(statement, RequirementStatement::Unknown { .. }));
    assert_eq!(findings.len(), 1);
    assert!(matches!(&findings[0].source, ContaminationSource::Journey { id } if id == "a"));
    assert!(matches!(compose_function_statement(&[], &[], &mut findings), RequirementStatement::Unknown { reason } if reason == "no verifying journey summaries"));
}

#[test]
fn from_parts_links_systems_to_functional_children() {
    let caps = vec![capability("disk"), capability("lonely"), capability("unused")];
    let functionals = vec![
        functional("REQ/d/a/FUN/f1", "disk", "Inspect disk usage", &["GET /du (capture=1)"], &["inspect_disk_usage"]),
        functional("REQ/d/a/FUN/f2", "disk", "Free disk space", &["DELETE /file (capture=2)"], &["free_disk_space"]),
    ];
    let catalog = RequirementCatalog::from_parts(&caps, &["unused".to_string()], parts(functionals));
    let reqs = catalog.requirements();
    assert_eq!(reqs.len(), 5);
    assert_eq!(reqs[0].id.0, "REQ/onboard_computer/host_control/SYS/disk");
    assert_eq!(reqs[0].subrequirements.iter().map(|s| s.0.clone()).collect::<Vec<_>>(), vec!["REQ/d/a/FUN/f1", "REQ/d/a/FUN/f2"]);
    assert!(matches!(&reqs[0].statement, RequirementStatement::Known { text } if text == "Inspect disk usage; Free disk space"));
    assert_eq!(texts(&reqs[0].criteria), vec!["GET /du (capture=1)", "DELETE /file (capture=2)"]);
    assert_eq!(reqs[0].rationale.as_deref(), Some("why disk"));
    assert!(matches!(&reqs[1].statement, RequirementStatement::Unknown { reason } if reason == "no functional requirement derived for this capability"));
    assert!(matches!(&reqs[2].criteria, RequirementCriteria::Unknown { reason } if reason == "no journey references this capability"));
    assert_eq!(reqs[3].id.0, "REQ/d/a/FUN/f1");
    assert!(catalog.contamination_findings().is_empty());
    let counts = catalog.count_by_kind();
    assert_eq!(counts.system, 3);
    assert_eq!(counts.functional, 2);
    assert_eq!(counts.get(RequirementClass::Interface), 0);
}

#[test]
fn bootstrap_like_catalog_validates_structure() {
    let caps = vec![capability("disk")];
    let functionals = vec![functional("REQ/d/a/FUN/f1", "disk", "Inspect disk usage", &["GET /du (capture=1)"], &["inspect_disk_usage"])];
    let mut catalog = RequirementCatalog::from_parts(&caps, &[], parts(functionals));
    let entries = system_overlay_entries();
    let placements: Vec<(String, String)> = entries.iter().map(|_| ("platform".to_string(), "system".to_string())).collect();
    catalog.append_overlay_requirements(&entries, &placements);
    assert_eq!(catalog.requirements().len(), 2 + entries.len());
    assert_eq!(catalog.requirements()[2].id.0, "REQ/platform/system/SYS-OVR/boot_to_usable_web_ui");
    let journeys = vec![JourneyAutomation { id: "inspect_disk_usage".to_string(), http_automatable: true }];
    assert!(catalog.validate_structure(&caps, &journeys).is_ok());
}

#[test]
fn missing_system_requirement_fails_validate() {
    let caps = vec![capability("disk")];
    let catalog = RequirementCatalog { requirements: Vec::new(), contamination_findings: Vec::new() };
    let errors = catalog.validate_structure(&caps, &[]).expect_err("dropping system requirements must fail");
    assert!(matches!(&errors[..], [RequirementValidationError::MissingSystemRequirement { feature }] if feature == "disk"));
}

#[test]
fn empty_verifying_journeys_fails_structure() {
    let caps: Vec<DeclaredCapability> = Vec::new();
    let catalog = RequirementCatalog {
        requirements: vec![functional("REQ/test", "x", "test", &["c"], &[])],
        contamination_findings: Vec::new(),
    };
    let errors = catalog.validate_structure(&caps, &[]).expect_err("empty verifying journeys must fail");
    assert!(errors.iter().any(|e| matches!(e, RequirementValidationError::FunctionalWithoutCriterion { id } if id == "REQ/test")));
}

#[test]
fn http_automatable_journey_needs_capture_in_criteria() {
    let catalog = RequirementCatalog {
        requirements: vec![functional("REQ/f", "x", "test", &["GET /a"], &["j"])],
        contamination_findings: Vec::new(),
    };
    let journeys = vec![JourneyAutomation { id: "j".to_string(), http_automatable: true }];
    let errors = catalog.validate_structure(&[], &journeys).unwrap_err();
    assert!(matches!(&errors[..], [RequirementValidationError::HttpAutomatableWithoutRuntime { journey, step: 0 }] if journey == "j"));
}

#[test]
fn overlay_without_criterion_and_childless_system_fail() {
    let mut overlay = functional("REQ/d/a/SYS-OVR/x", "x", "Overlay", &[], &["j"]);
    overlay.kind = RequirementClass::System;
    let mut childless = functional("REQ/d/a/SYS/y", "y", "System", &["c"], &[]);
    childless.kind = RequirementClass::System;
    let catalog = RequirementCatalog { requirements: vec![overlay, childless], contamination_findings: Vec::new() };
    let errors = catalog.validate_structure(&[], &[]).unwrap_err();
    assert!(matches!(
        &errors[..],
        [RequirementValidationError::SystemOverlayWithoutCriterion { id: a }, RequirementValidationError::SystemWithoutFunctional { id: b }]
            if a == "REQ/d/a/SYS-OVR/x" && b == "REQ/d/a/SYS/y"
    ));
}

#[test]
fn overlay_contamination_injected_route_is_held_back() {
    let caps: Vec<DeclaredCapability> = Vec::new();
    let mut catalog = RequirementCatalog::from_parts(&caps, &[], Vec::new());
    let mut entries = system_overlay_entries();
    entries[0].statement = "GET /injected overlay route";
    let placements: Vec<(String, String)> = entries.iter().map(|_| ("d".to_string(), "a".to_string())).collect();
    catalog.append_overlay_requirements(&entries, &placements);
    assert!(matches!(&catalog.requirements()[0].statement, RequirementStatement::Unknown { .. }));
    assert_eq!(catalog.contamination_findings().len(), 1);
    assert_eq!(catalog.contamination_findings()[0].substring, "GET");
    assert!(catalog.validate_emitted_statements().is_ok());
}

#[test]
fn requirements_mut_changes_in_place() {
    let mut catalog = RequirementCatalog { requirements: Vec::new(), contamination_findings: Vec::new() };
    catalog.requirements_mut().push(functional("REQ/x", "x", "s", &["c"], &["j"]));
    assert_eq!(catalog.requirements().len(), 1);
}

#[test]
fn interface_routes_count_once_by_method_and_path() {
    let routes: Vec<(String, String)> = [("GET", "/a"), ("POST", "/a"), ("GET", "/a"), ("GET", "/b"), ("POST", "/a")]
        .iter()
        .map(|(m, p)| (m.to_string(), p.to_string()))
        .collect();
    assert_eq!(first_route_positions(&routes), vec![0, 1, 3]);
    assert_eq!(first_route_positions(&[]), Vec::<usize>::new());
}

fn journey(id: &str, preconditions: Vec<(&str, Precondition)>) -> JourneyPreconditions {
    JourneyPreconditions {
        id: id.to_string(),
        preconditions: preconditions.into_iter().map(|(l, p)| (l.to_string(), p)).collect(),
    }
}

fn sample_journeys() -> Vec<JourneyPreconditions> {
    vec![
        journey("ping", vec![
            ("hw:ping1d", Precondition::Hardware(HardwareAssumption::Ping1d)),
            ("net:online", Precondition::Network(NetworkState::Online)),
        ]),
        journey("wifi", vec![
            ("net:online", Precondition::Network(NetworkState::Online)),
            ("data:wifi_saved", Precondition::Data(DataAssumption::WifiNetworkSaved)),
        ]),
        journey("ping", vec![("other:x", Precondition::Other("never read".to_string()))]),
    ]
}

#[test]
fn assumptions_keep_first_citation_of_each_label() {
    let journeys = sample_journeys();
    let ids = vec!["wifi".to_string(), "ping".to_string()];
    let got: Vec<(String, String, AssumptionKind)> = assumptions_for_journeys(&journeys, &ids)
        .into_iter()
        .map(|a| (a.statement, a.source_use_case, a.kind))
        .collect();
    assert_eq!(got.len(), 3);
    assert_eq!(got[0].0, "network connectivity is available");
    assert_eq!(got[0].1, "wifi");
    assert!(matches!(got[0].2, AssumptionKind::Network));
    assert_eq!(got[1].0, "a Wi-Fi network is saved");
    assert!(matches!(got[1].2, AssumptionKind::Data));
    assert_eq!(got[2].0, "a Ping1D sonar is connected");
    assert_eq!(got[2].1, "ping");
    assert!(matches!(got[2].2, AssumptionKind::Hardware));
    assert!(assumptions_for_journeys(&journeys, &[]).is_empty());
}

#[test]
fn functional_requirements_gain_their_journeys_assumptions() {
    let journeys = sample_journeys();
    let mut catalog = RequirementCatalog {
        requirements: vec![
            functional("REQ/a/b/FUN/f", "cap", "does a thing", &["x"], &["ping"]),
            {
                let mut system = functional("REQ/a/b/SYS/cap", "cap", "a system", &["x"], &["no_such_journey"]);
                system.kind = RequirementClass::System;
                system
            },
        ],
        contamination_findings: Vec::new(),
    };
    catalog.attach_functional_assumptions(&journeys);
    let f = &catalog.requirements[0];
    assert_eq!(f.assumptions.len(), 2);
    assert_eq!(f.assumptions[0].statement, "a Ping1D sonar is connected");
    assert_eq!(f.assumptions[1].statement, "network connectivity is available");
    assert!(catalog.requirements[1].assumptions.is_empty());
}

fn availability(commit: &str, tags: &[&str], master: bool, dev: bool) -> Availability {
    Availability {
        intro_commit: commit.to_string(),
        present_in_tags: tags.iter().map(|t| t.to_string()).collect(),
        present_on_master: master,
        present_on_1_4_dev: dev,
    }
}

#[test]
fn merged_availability_anchors_on_earliest_tag_then_commit() {
    let journeys = vec![
        availability("c2", &["1.2.0"], false, true),
        availability("c1", &["v1.0.0", "1.2.0"], false, false),
        availability("c0", &[], true, false),
        availability("c0", &["1.0.0"], false, false),
    ];
    let merged = merge_journey_availabilities(&journeys).expect("journeys given");
    assert_eq!(merged.intro_commit, "c0");
    assert_eq!(merged.present_in_tags, vec!["1.0.0".to_string()]);
    assert!(merged.present_on_master);
    assert!(merged.present_on_1_4_dev);
}

#[test]
fn merged_availability_ties_go_to_the_first_journey() {
    let journeys = vec![availability("c", &["1.0.0"], false, false), availability("c", &["1.0.0", "2.0.0"], false, false)];
    let merged = merge_journey_availabilities(&journeys).expect("journeys given");
    assert_eq!(merged.present_in_tags, vec!["1.0.0".to_string()]);
    assert!(!merged.present_on_master);
    assert!(merge_journey_availabilities(&[]).is_none());
}

#[test]
fn empty_verifying_journeys_fails_structure_even_when_unknown() {
    let caps = vec![capability("disk")];
    let functionals = vec![functional("REQ/d/a/FUN/f1", "disk", "Inspect disk usage", &["GET /du (capture=1)"], &["inspect_disk_usage"])];
    let mut requirements = RequirementCatalog::from_parts(&caps, &[], parts(functionals));
    let fun = requirements
        .requirements
        .iter_mut()
        .find(|req| req.kind == RequirementClass::Functional)
        .expect("functional requirement");
    fun.requirement_verifications.clear();
    fun.statement = RequirementStatement::Unknown { reason: "no verifying journey summaries".to_string() };
    fun.criteria = RequirementCriteria::Unknown { reason: "test".to_string() };
    let journeys = vec![JourneyAutomation { id: "inspect_disk_usage".to_string(), http_automatable: true }];
    let errors = requirements.validate_structure(&caps, &journeys).expect_err("empty verifying journeys must fail");
    assert!(errors.iter().any(|err| matches!(err, RequirementValidationError::FunctionalWithoutCriterion { .. })));
}

#[test]
fn overlay_contamination_injected_route_fails_validation() {
    let caps = vec![capability("disk")];
    let functionals = vec![functional("REQ/d/a/FUN/f1", "disk", "Inspect disk usage", &["GET /du (capture=1)"], &["inspect_disk_usage"])];
    let mut requirements = RequirementCatalog::from_parts(&caps, &[], parts(functionals));
    let entries = system_overlay_entries();
    let placements: Vec<(String, String)> = entries.iter().map(|_| ("platform".to_string(), "system".to_string())).collect();
    requirements.append_overlay_requirements(&entries, &placements);
    let idx = requirements.requirements.iter().position(|req| req.id.0.contains("/SYS-OVR/")).expect("overlay requirement");
    requirements.requirements[idx].statement = RequirementStatement::Known { text: "GET /injected overlay route".to_string() };
    let errors = requirements.validate_emitted_statements().expect_err("contaminated overlay");
    assert!(errors.iter().any(|err| matches!(err, RequirementValidationError::ContaminatedStatementEmitted { .. })));
}

fn system_with_children(id: &str, children: &[&str]) -> Requirement {
    let mut system = functional(id, "cap", "a system", &["x"], &[]);
    system.kind = RequirementClass::System;
    system.subrequirements = children.iter().map(|c| RequirementId(c.to_string())).collect();
    system
}

#[test]
fn system_requirements_gain_their_childrens_and_overlay_journeys_assumptions() {
    let mut journeys = sample_journeys();
    journeys.push(journey("inspect_disk_usage", vec![("data:disk", Precondition::Other("a disk is mounted".to_string()))]));
    journeys.push(journey("free_disk_space", vec![("data:disk", Precondition::Other("a disk is mounted".to_string()))]));
    let mut overlay = system_with_children("REQ/p/s/SYS-OVR/storage_pressure_visibility", &[]);
    overlay.feature_id = None;
    let mut catalog = RequirementCatalog {
        requirements: vec![
            system_with_children("REQ/a/b/SYS/cap", &["REQ/a/b/FUN/f1", "REQ/a/b/FUN/f2"]),
            functional("REQ/a/b/FUN/f1", "cap", "one", &["x"], &["wifi"]),
            functional("REQ/a/b/FUN/f2", "cap", "two", &["x"], &["ping", "wifi"]),
            overlay,
        ],
        contamination_findings: Vec::new(),
    };
    let order: Vec<String> =
        ["ping", "wifi", "inspect_disk_usage", "free_disk_space"].iter().map(|s| s.to_string()).collect();
    catalog.attach_system_assumptions(&journeys, &system_overlay_entries(), &order);
    let system: Vec<(String, String)> =
        catalog.requirements[0].assumptions.iter().map(|a| (a.statement.clone(), a.source_use_case.clone())).collect();
    assert_eq!(
        system,
        vec![
            ("a Ping1D sonar is connected".to_string(), "ping".to_string()),
            ("network connectivity is available".to_string(), "ping".to_string()),
            ("a Wi-Fi network is saved".to_string(), "wifi".to_string()),
        ]
    );
    assert!(catalog.requirements[1].assumptions.is_empty());
    assert!(catalog.requirements[2].assumptions.is_empty());
    let overlay: Vec<(String, String)> =
        catalog.requirements[3].assumptions.iter().map(|a| (a.statement.clone(), a.source_use_case.clone())).collect();
    assert_eq!(overlay, vec![("a disk is mounted".to_string(), "inspect_disk_usage".to_string())]);
    assert_eq!(catalog.requirements[0].subrequirements.len(), 2);
}

fn links(id: &str, caps: Option<&[&str]>, services: Option<&[&str]>) -> JourneyLinks {
    JourneyLinks {
        id: id.to_string(),
        capability_refs: caps.map(|c| c.iter().map(|s| s.to_string()).collect()),
        services: services.map(|c| c.iter().map(|s| s.to_string()).collect()),
    }
}

#[test]
fn availability_of_capabilities_services_and_overlay_ids() {
    let journeys = vec![
        links("inspect_disk_usage", Some(&["disk"]), Some(&["commander"])),
        links("free_disk_space", Some(&["disk", "files"]), None),
        links("discover_blueos_on_network", None, Some(&["beacon", "commander"])),
    ];
    let availabilities = vec![
        availability("c2", &["1.2.0"], false, true),
        availability("c1", &["1.1.0"], true, false),
        availability("c0", &["1.0.0"], false, false),
    ];
    let disk = availability_for_capability(&journeys, &availabilities, "disk").expect("two journeys");
    assert_eq!(disk.intro_commit, "c1");
    assert!(disk.present_on_master && disk.present_on_1_4_dev);
    assert!(availability_for_capability(&journeys, &availabilities, "beacon").is_none());
    let commander = availability_for_service(&journeys, &availabilities, "commander").expect("two journeys");
    assert_eq!(commander.intro_commit, "c0");
    assert!(!commander.present_on_master && commander.present_on_1_4_dev);
    let ids = vec!["discover_blueos_on_network".to_string(), "inspect_disk_usage".to_string()];
    let overlay = overlay_availability_from_ids(&journeys, &availabilities, &ids).expect("cited journeys");
    assert_eq!(overlay.present_in_tags, vec!["1.0.0".to_string()]);
    assert!(overlay.present_on_1_4_dev);
    assert!(overlay_availability_from_ids(&journeys, &availabilities, &[]).is_none());
}

fn interface_step(journey: &str, method: &str, resolved: &str, description: &str, capture: Option<&str>) -> InterfaceStep {
    InterfaceStep {
        journey_id: journey.to_string(),
        domain: "onboard_computer".to_string(),
        aggregate: "host_control".to_string(),
        method: method.to_string(),
        resolved: resolved.to_string(),
        description: description.to_string(),
        capture: capture.map(|c| c.to_string()),
        feature_id: Some("disk".to_string()),
        function_id: None,
    }
}

#[test]
fn interface_requirements_one_per_route_in_step_order() {
    let mut catalog = RequirementCatalog::from_parts(&[capability("disk")], &[], Vec::new());
    let steps = vec![
        interface_step("inspect_disk_usage", "GET", "/disk/usage", "Read the disk usage", Some("cap1")),
        interface_step("free_disk_space", "DELETE", "/disk/file", "GET /injected route", None),
        interface_step("free_disk_space", "GET", "/disk/usage", "Read it again", None),
    ];
    catalog.add_interface_requirements(&steps);
    let reqs = catalog.requirements();
    assert_eq!(reqs.len(), 3);
    assert_eq!(reqs[1].id.0, "REQ/onboard_computer/host_control/IF/GET/disk_usage");
    assert!(matches!(reqs[1].kind, RequirementClass::Interface));
    assert!(matches!(&reqs[1].statement, RequirementStatement::Known { text } if text == "Read the disk usage"));
    assert_eq!(texts(&reqs[1].criteria), vec!["GET /disk/usage (cap1)"]);
    assert_eq!(reqs[1].journey_id.as_deref(), Some("inspect_disk_usage"));
    assert_eq!(reqs[2].id.0, "REQ/onboard_computer/host_control/IF/DELETE/disk_file");
    assert!(matches!(&reqs[2].statement, RequirementStatement::Unknown { .. }));
    assert_eq!(catalog.contamination_findings().len(), 1);
    assert!(matches!(&catalog.contamination_findings()[0].source, ContaminationSource::Journey { id } if id == "free_disk_space"));
}

#[test]
fn performance_and_robustness_requirements() {
    let mut catalog = RequirementCatalog { requirements: Vec::new(), contamination_findings: Vec::new() };
    catalog.add_performance_requirement(
        "onboard_computer",
        "host_control",
        "GET",
        "/disk/usage",
        Some("disk usage"),
        "GET /disk/usage p50=1ms p95=2ms p99=3ms n=10".to_string(),
        Some("capture-7".to_string()),
    );
    catalog.add_robustness_requirement(
        "onboard_computer",
        "host_control",
        "delete_root",
        "free_disk_space",
        Some("free_disk_space"),
        "DELETE /disk/file?path=/ status=400".to_string(),
    );
    let reqs = catalog.requirements();
    assert_eq!(reqs[0].id.0, "REQ/onboard_computer/host_control/PERF/GET/disk_usage");
    assert!(matches!(&reqs[0].statement, RequirementStatement::Known { text }
        if text == "Captured disk usage endpoint latency stays within measured baseline"));
    assert_eq!(texts(&reqs[0].criteria), vec!["GET /disk/usage p50=1ms p95=2ms p99=3ms n=10"]);
    assert_eq!(reqs[0].rationale.as_deref(), Some("capture-7"));
    assert_eq!(reqs[1].id.0, "REQ/onboard_computer/host_control/ROB/delete_root");
    assert!(matches!(&reqs[1].statement, RequirementStatement::Known { text }
        if text == "Invalid or unsafe free disk space request is rejected safely"));
    assert_eq!(reqs[1].feature_id.as_deref(), Some("free_disk_space"));
    assert_eq!(reqs[1].journey_id.as_deref(), Some("free_disk_space"));
}
