use blueos_logic::catalog::contamination::find_contamination;
use blueos_logic::catalog::requirement::{
    derive_statement, ContaminationSource, Requirement, RequirementCatalog, RequirementClass,
    RequirementCriteria, RequirementId, RequirementStatement, RequirementValidationError,
};

fn test_requirement(id: &str, statement: &str) -> Requirement {
    Requirement {
        id: RequirementId(id.to_string()),
        kind: RequirementClass::Functional,
        domain: "onboard_computer".to_string(),
        aggregate: "host_control".to_string(),
        statement: RequirementStatement::Known { text: statement.to_string() },
        criteria: RequirementCriteria::Unknown { reason: "test".to_string() },
        feature_id: None,
        journey_id: None,
        function_id: None,
        requirement_verifications: Vec::new(),
        subrequirements: Vec::new(),
        assumptions: Vec::new(),
        rationale: None,
    }
}

#[test]
fn contamination_lint_catches_impl_notes_and_spares_english() {
    assert_eq!(find_contamination("POST /vehicle_name"), Some("POST".to_string()));
    assert_eq!(find_contamination("listen on port 8000"), Some("8000".to_string()));
    assert!(find_contamination("Connect BlueOS to a wifi network").is_none());
    assert!(find_contamination("Ping family sonar devices").is_none());
    assert!(find_contamination("Delete a recording").is_none());
    assert!(find_contamination("Get the disk usage tree").is_none());
    assert_eq!(
        find_contamination("reads from mavlink2rest and nginx on port 80"),
        Some("mavlink2rest".to_string())
    );
    assert_eq!(
        find_contamination("Run an arbitrary bash command on the host through commander"),
        Some("commander".to_string())
    );

    let contaminated = "POST /vehicle_name";
    let statement = derive_statement(
        contaminated,
        ContaminationSource::Journey { id: "monitor_internet_connectivity".to_string() },
        &mut Vec::new(),
    );
    assert!(matches!(statement, RequirementStatement::Unknown { .. }));
    let catalog = RequirementCatalog {
        requirements: vec![test_requirement("REQ/test", contaminated)],
        contamination_findings: Vec::new(),
    };
    let errors = catalog
        .validate_emitted_statements()
        .expect_err("contaminated emitted statement must fail");
    assert!(errors.iter().any(|err| matches!(
        err,
        RequirementValidationError::ContaminatedStatementEmitted { .. }
    )));
}

#[test]
fn derive_statement_trims_clean_text_and_records_nothing() {
    let mut findings = Vec::new();
    let statement = derive_statement(
        "  Delete a recording \n",
        ContaminationSource::Capability { id: "recorder".to_string() },
        &mut findings,
    );
    match statement {
        RequirementStatement::Known { text } => assert_eq!(text, "Delete a recording"),
        other => panic!("expected a known statement, got {:?}", other),
    }
    assert!(findings.is_empty());
}

#[test]
fn derive_statement_blank_text_is_unknown_without_finding() {
    let mut findings = Vec::new();
    let statement = derive_statement(
        "   ",
        ContaminationSource::Overlay { suffix: "x".to_string() },
        &mut findings,
    );
    match statement {
        RequirementStatement::Unknown { reason } => assert_eq!(reason, "source text is empty"),
        other => panic!("expected an unknown statement, got {:?}", other),
    }
    assert!(findings.is_empty());
}

#[test]
fn derive_statement_records_the_betraying_piece() {
    let mut findings = Vec::new();
    let _ = derive_statement(
        "listen on port 8000",
        ContaminationSource::Journey { id: "j".to_string() },
        &mut findings,
    );
    assert_eq!(findings.len(), 1);
    assert_eq!(findings[0].substring, "8000");
}

#[test]
fn clean_statements_validate() {
    let catalog = RequirementCatalog {
        requirements: vec![test_requirement("REQ/a", "Delete a recording")],
        contamination_findings: Vec::new(),
    };
    assert!(catalog.validate_emitted_statements().is_ok());
}

#[test]
fn contamination_finds_status_codes_and_host_paths() {
    assert_eq!(find_contamination("answers 404 when missing"), Some("404".to_string()));
    assert!(find_contamination("writes /etc/hosts").is_none());
    assert_eq!(find_contamination("calls /v1.0/services, then waits"), Some("/v1.0/services".to_string()));
    assert!(find_contamination("keeps 3 copies").is_none());
}
