use blueos_logic::catalog::extract::{
    check_against_observed, extract_services, find_extracted, parse_fields_and_command, parse_next_u32_field,
    parse_quoted_command, parse_quoted_name, parse_tuple_line, service_dir_from_command, ExtractError,
    ObservedFacts, ResourceLimits, StartupTier,
};

const SCRIPT: &str = "#!/usr/bin/env bash\n\
# comment\n\
PRIORITY_SERVICES=(\n\
    'autopilot',    250, 0, 0, 0, \"nice --19 $SERVICES_PATH/ardupilot_manager/main.py\"\n\
)\n\
\n\
SERVICES=(\n\
    # 'disabled', 1, 2, 3, 4, \"x\"\n\
    'kraken',       0, 5, 0, 0, \"$SERVICES_PATH/kraken/main.py\"\r\n\
    'video',        0, 0, 0, 0, \"mavlink-camera-manager --default-settings BlueROVUDP\"\n\
)\n\
'outside', 1, 1, 1, 1, \"ignored\"\n";

#[test]
fn extract_finds_services_with_their_tiers() {
    let services = extract_services(SCRIPT).expect("extract");
    assert_eq!(services.len(), 3);
    let ardupilot = services
        .iter()
        .find(|s| s.service_dir == Some("ardupilot_manager".to_string()))
        .expect("ardupilot_manager entry");
    assert_eq!(ardupilot.startup_tier, StartupTier::Priority);
    assert_eq!(ardupilot.tmux_name, "autopilot");
    assert_eq!(ardupilot.memory_mb, Some(250));
    let kraken = services.iter().find(|s| s.service_dir == Some("kraken".to_string())).expect("kraken entry");
    assert_eq!(kraken.startup_tier, StartupTier::Normal);
    assert_eq!(kraken.memory_mb, Some(0));
    assert_eq!(kraken.cpu_percent, Some(5));
    let video = &services[2];
    assert_eq!(video.service_dir, None);
    assert_eq!(video.command, "mavlink-camera-manager --default-settings BlueROVUDP");
}

#[test]
fn extract_reports_the_failing_line() {
    let script = "SERVICES=(\n    'broken' 1, 2, 3, 4, \"x\"\n)\n";
    match extract_services(script) {
        Err(ExtractError::Parse(message)) => {
            assert_eq!(message, "line 2: expected comma after name in `'broken' 1, 2, 3, 4, \"x\"`")
        }
        other => panic!("expected a parse error, got {:?}", other),
    }
}

#[test]
fn quoted_name_and_its_errors() {
    assert_eq!(parse_quoted_name("'kraken', 0"), Ok("kraken".to_string()));
    assert_eq!(parse_quoted_name("kraken"), Err("tuple line must start with quoted name: `kraken`".to_string()));
    assert_eq!(parse_quoted_name("'kraken"), Err("unterminated service name in `'kraken`".to_string()));
}

#[test]
fn next_u32_field_advances_past_its_comma() {
    let mut rest = "  12 , 7, \"cmd\"";
    assert_eq!(parse_next_u32_field(&mut rest), Ok(12));
    assert_eq!(rest, " 7, \"cmd\"");
    assert_eq!(parse_next_u32_field(&mut rest), Ok(7));
    assert_eq!(rest, " \"cmd\"");
    let before = rest;
    assert_eq!(
        parse_next_u32_field(&mut rest),
        Err("expected comma-separated integer field in `\"cmd\"`".to_string())
    );
    assert_eq!(rest, before);
    let mut bad = "x1, 2";
    assert_eq!(parse_next_u32_field(&mut bad), Err("invalid integer field `x1`".to_string()));
}

#[test]
fn quoted_command_takes_up_to_the_last_quote() {
    assert_eq!(parse_quoted_command("\"a \"b\" c\""), Ok("a \"b\" c".to_string()));
    assert_eq!(parse_quoted_command("'x'"), Ok("x".to_string()));
    assert_eq!(parse_quoted_command("x"), Err("expected quoted command in `x`".to_string()));
    assert_eq!(parse_quoted_command("\"open"), Err("unterminated command quote in `\"open`".to_string()));
}

#[test]
fn fields_and_command_read_four_limits() {
    assert_eq!(
        parse_fields_and_command("1, 2, 3, 4, \"run\""),
        Ok((1, 2, 3, 4, "run".to_string()))
    );
    assert!(parse_fields_and_command("1, 2, 3, \"run\"").is_err());
}

#[test]
fn service_dir_needs_main_py_under_services_path() {
    assert_eq!(service_dir_from_command("$SERVICES_PATH/helper/main.py --x"), Some("helper".to_string()));
    assert_eq!(service_dir_from_command("$SERVICES_PATH/helper/other.py"), None);
    assert_eq!(service_dir_from_command("$SERVICES_PATH/helper"), None);
    assert_eq!(service_dir_from_command("python main.py"), None);
}

#[test]
fn tuple_line_keeps_tier() {
    let service = parse_tuple_line("  'beacon', 0, 0, 0, 0, \"$SERVICES_PATH/beacon/main.py\"  ", StartupTier::Priority).unwrap();
    assert_eq!(service.tmux_name, "beacon");
    assert_eq!(service.service_dir, Some("beacon".to_string()));
    assert_eq!(service.startup_tier, StartupTier::Priority);
    assert_eq!(service.memory_mb, Some(0));
}

fn facts(id: &str, tmux: Option<&str>, tier: Option<StartupTier>, limits: Option<ResourceLimits>) -> ObservedFacts {
    ObservedFacts {
        id: id.to_string(),
        tmux_name: tmux.map(|t| t.to_string()),
        startup_tier: tier,
        resource_limits: limits,
    }
}

#[test]
fn drift_reports_disagreeing_tier_and_limits() {
    let services = extract_services(SCRIPT).unwrap();
    let observed = vec![
        facts("kraken", None, Some(StartupTier::Priority), Some(ResourceLimits { memory_mb: None, cpu_percent: Some(5) })),
        facts("ardupilot_manager", None, Some(StartupTier::Priority), None),
        facts("unknown", None, Some(StartupTier::Normal), None),
    ];
    let report = check_against_observed(&services, &observed);
    assert!(report.has_drift());
    let pairs: Vec<(String, String)> = report.findings.iter().map(|f| (f.field.clone(), f.message.clone())).collect();
    assert_eq!(
        pairs,
        vec![
            ("kraken.startup_tier".to_string(), "observed Priority, extracted Normal".to_string()),
            ("kraken.memory_mb".to_string(), "observed None, extracted Some(0)".to_string()),
        ]
    );
}

#[test]
fn matching_observations_report_no_drift() {
    let services = extract_services(SCRIPT).unwrap();
    let observed = vec![facts("kraken", None, Some(StartupTier::Normal), Some(ResourceLimits { memory_mb: Some(0), cpu_percent: Some(5) }))];
    assert!(!check_against_observed(&services, &observed).has_drift());
}

#[test]
fn find_extracted_falls_back_to_tmux_names() {
    let services = extract_services(SCRIPT).unwrap();
    let by_dir = find_extracted(&services, &facts("kraken", None, None, None)).unwrap();
    assert_eq!(by_dir.tmux_name, "kraken");
    let by_name = find_extracted(&services, &facts("autopilot", None, None, None)).unwrap();
    assert_eq!(by_name.service_dir, Some("ardupilot_manager".to_string()));
    let by_observed_tmux = find_extracted(&services, &facts("mavlink-camera-manager", Some("video"), None, None)).unwrap();
    assert_eq!(by_observed_tmux.tmux_name, "video");
    assert!(find_extracted(&services, &facts("none", Some("nothing"), None, None)).is_none());
}
