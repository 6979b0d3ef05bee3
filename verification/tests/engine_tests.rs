use abof::codec::ExperimentMemberKind;
use abof::codec::TrackingDataParser;
use abof::entities::App;
use abof::entities::Audience;
use abof::entities::AudienceList;
use abof::entities::Experiment;
use abof::entities::ExperimentKind;
use abof::entities::Project;
use abof::entities::SizeSpec;
use abof::entities::TrackingMethod;
use abof::entities::Variation;
use abof::errors::HttpError;
use abof::service::AbOptimisationService;
use abof::service::ExperimentRequest;
use abof::store::EntityMap;

const NOW: i64 = 1700000000;

fn blank_app(name: &str, short: &str) -> App {
    App {
        id: String::new(),
        name: name.to_string(),
        short_name: short.to_string(),
        projects: EntityMap::new(),
        modification_time: 0,
    }
}

fn blank_project(name: &str, short: &str, method: TrackingMethod) -> Project {
    Project {
        id: String::new(),
        name: name.to_string(),
        short_name: short.to_string(),
        tracking_method: method,
        experiments: EntityMap::new(),
        audience_lists: EntityMap::new(),
        modification_time: 0,
    }
}

fn variation(name: &str, short: &str, size: u64) -> Variation {
    Variation {
        name: name.to_string(),
        short_name: short.to_string(),
        size,
        data: None,
    }
}

fn audience(name: &str, size: SizeSpec) -> Audience {
    Audience {
        name: name.to_string(),
        script_src: None,
        list_id: None,
        size,
        picked_size: 0,
    }
}

fn experiment(name: &str, short: &str, audiences: Vec<Audience>, variations: Option<Vec<Variation>>) -> Experiment {
    Experiment {
        id: String::new(),
        name: name.to_string(),
        short_name: short.to_string(),
        version: 0,
        kind: ExperimentKind::Experiment,
        inactive: false,
        start_time: None,
        end_time: None,
        audiences,
        frequency_constraint: None,
        variations,
        data: None,
        control_size: 0,
        test_size: 0,
    }
}

fn setup(exp: Experiment) -> (AbOptimisationService, String, String, String) {
    let mut svc = AbOptimisationService::new();
    let app_id = svc.add_app(blank_app("My App", "app")).unwrap().id;
    let project_id = svc
        .add_project(&app_id, blank_project("My Project", "proj", TrackingMethod::Data))
        .unwrap()
        .id;
    let exp_id = svc.add_experiment(&app_id, &project_id, exp).unwrap().id;
    (svc, app_id, project_id, exp_id)
}

fn request(app_id: &str, project_id: &str, user: &str, tracking: Option<String>) -> ExperimentRequest {
    ExperimentRequest {
        app_id: app_id.to_string(),
        project_id: project_id.to_string(),
        user_id: user.to_string(),
        context: None,
        tracking_data: tracking,
    }
}

#[test]
fn percent_outcome_reproduces_with_fed_back_tracking() {
    let exp = experiment(
        "Experiment One",
        "exp1",
        vec![audience("all", SizeSpec::Percent { value: 50 })],
        Some(vec![variation("Variation A", "A", 40), variation("Variation B", "B", 60)]),
    );
    let (mut svc, app_id, project_id, _exp_id) = setup(exp);
    let cookies: Vec<(String, String)> = Vec::new();

    let first = svc
        .run_request(&request(&app_id, &project_id, "u1", None), &cookies, NOW)
        .unwrap();
    let first_active: Vec<String> = first
        .active_experiments
        .iter()
        .map(|a| a.short_name.clone())
        .collect();
    let first_records = TrackingDataParser::parse_tracking_data(
        first.tracking_data.as_ref().unwrap(),
    )
    .unwrap();
    assert_eq!(first_records.experiments.len(), 1);
    let first_kind = first_records.experiments[0].selected_member_kind;
    let first_variation = first_records.experiments[0].selected_variation.clone();

    let second = svc
        .run_request(
            &request(&app_id, &project_id, "u1", first.tracking_data.clone()),
            &cookies,
            NOW + 10,
        )
        .unwrap();
    let second_records = TrackingDataParser::parse_tracking_data(
        second.tracking_data.as_ref().unwrap(),
    )
    .unwrap();
    let second_active: Vec<String> = second
        .active_experiments
        .iter()
        .map(|a| a.short_name.clone())
        .collect();
    assert_eq!(second_records.experiments[0].selected_member_kind, first_kind);
    assert_eq!(second_records.experiments[0].selected_variation, first_variation);
    assert_eq!(second_active, first_active);
    assert_eq!(second_records.experiments[0].total_selection_count, 2);
}

#[test]
fn absolute_audience_admits_only_one_user() {
    let exp = experiment(
        "Capped",
        "cap",
        vec![audience("first-one", SizeSpec::Absolute { value: 1 })],
        Some(vec![variation("Only", "O", 100)]),
    );
    let (mut svc, app_id, project_id, exp_id) = setup(exp);
    let cookies: Vec<(String, String)> = Vec::new();

    let first = svc
        .run_request(&request(&app_id, &project_id, "alice", None), &cookies, NOW)
        .unwrap();
    assert_eq!(first.active_experiments.len(), 1);
    {
        let stored = svc.get_experiment(&app_id, &project_id, &exp_id).unwrap();
        assert_eq!(stored.audiences[0].picked_size, 1);
        assert_eq!(stored.test_size, 1);
    }

    let second = svc
        .run_request(&request(&app_id, &project_id, "bob", None), &cookies, NOW)
        .unwrap();
    assert_eq!(second.active_experiments.len(), 0);
    let records = TrackingDataParser::parse_tracking_data(
        second.tracking_data.as_ref().unwrap(),
    )
    .unwrap();
    assert_eq!(
        records.experiments[0].selected_member_kind,
        ExperimentMemberKind::Control
    );
    let stored = svc.get_experiment(&app_id, &project_id, &exp_id).unwrap();
    assert_eq!(stored.audiences[0].picked_size, 1);
    assert_eq!(stored.control_size, 1);
}

#[test]
fn sticky_assignment_at_same_version() {
    let exp = experiment(
        "Sticky",
        "st",
        vec![audience("all", SizeSpec::Percent { value: 100 })],
        Some(vec![variation("Variation A", "A", 40), variation("Variation B", "B", 60)]),
    );
    let (mut svc, app_id, project_id, _exp_id) = setup(exp);
    let cookies: Vec<(String, String)> = Vec::new();
    // A prior Test record naming variation A at the experiment's current
    // version (1).
    let prior = "st|1|T|A|0|1|1|0|1".to_string();
    for _ in 0..5 {
        let resp = svc
            .run_request(&request(&app_id, &project_id, "u9", Some(prior.clone())), &cookies, NOW)
            .unwrap();
        assert_eq!(resp.active_experiments.len(), 1);
        assert_eq!(resp.active_experiments[0].variation, Some("A".to_string()));
    }
}

#[test]
fn version_bump_resamples() {
    let exp = experiment(
        "Bump",
        "bp",
        vec![audience("all", SizeSpec::Percent { value: 100 })],
        Some(vec![variation("Only B", "B", 100)]),
    );
    let (mut svc, app_id, project_id, exp_id) = setup(exp);
    // A semantically meaningful change bumps the version to 2.
    let update = experiment(
        "Bump",
        "bp",
        vec![audience("all", SizeSpec::Percent { value: 100 })],
        Some(vec![variation("Only B renamed", "B", 100)]),
    );
    svc.update_experiment(&app_id, &project_id, &exp_id, update).unwrap();
    assert_eq!(svc.get_experiment(&app_id, &project_id, &exp_id).unwrap().version, 2);

    let cookies: Vec<(String, String)> = Vec::new();
    // The prior record is pinned to version 1 and a variation that no
    // longer exists; the engine is free to resample, and with a single
    // 100-weight variation the fresh sample must land on B.
    let prior = "bp|1|T|A|0|1|1|0|1".to_string();
    let resp = svc
        .run_request(&request(&app_id, &project_id, "u2", Some(prior)), &cookies, NOW)
        .unwrap();
    assert_eq!(resp.active_experiments.len(), 1);
    assert_eq!(resp.active_experiments[0].variation, Some("B".to_string()));
    let records = TrackingDataParser::parse_tracking_data(resp.tracking_data.as_ref().unwrap())
        .unwrap();
    assert_eq!(records.experiments[0].invocation_version, 2);
}

#[test]
fn audience_list_membership_gates_targeting() {
    let mut svc = AbOptimisationService::new();
    let app_id = svc.add_app(blank_app("My App", "app")).unwrap().id;
    let project_id = svc
        .add_project(&app_id, blank_project("My Project", "proj", TrackingMethod::Data))
        .unwrap()
        .id;
    let list_id = svc
        .add_audience_list(
            &app_id,
            &project_id,
            AudienceList {
                id: String::new(),
                name: "vips".to_string(),
                list: vec!["alice".to_string()],
                modification_time: 0,
            },
        )
        .unwrap()
        .id;
    let mut aud = audience("vips-only", SizeSpec::Percent { value: 100 });
    aud.list_id = Some(list_id);
    let exp = experiment("Gated", "gt", vec![aud], Some(vec![variation("Only", "O", 100)]));
    svc.add_experiment(&app_id, &project_id, exp).unwrap();

    let cookies: Vec<(String, String)> = Vec::new();
    let member = svc
        .run_request(&request(&app_id, &project_id, "alice", None), &cookies, NOW)
        .unwrap();
    assert_eq!(member.active_experiments.len(), 1);
    let outsider = svc
        .run_request(&request(&app_id, &project_id, "mallory", None), &cookies, NOW)
        .unwrap();
    assert_eq!(outsider.active_experiments.len(), 0);
    // Targeting failed outright, so no record is carried for the outsider.
    assert_eq!(outsider.tracking_data.as_deref(), Some(""));
}

#[test]
fn dangling_audience_list_is_a_bad_request() {
    let mut aud = audience("broken", SizeSpec::Percent { value: 100 });
    aud.list_id = Some("no-such-list".to_string());
    let exp = experiment("Broken", "br", vec![aud], None);
    let (mut svc, app_id, project_id, _exp_id) = setup(exp);
    let cookies: Vec<(String, String)> = Vec::new();
    let err = svc
        .run_request(&request(&app_id, &project_id, "u", None), &cookies, NOW)
        .unwrap_err();
    assert!(matches!(err, HttpError::BadRequest(_)));
}

#[test]
fn evaluation_error_names_script_and_context() {
    // A script that parses but evaluates to a non-boolean fails the
    // experiment with an EvaluationError naming the script and context.
    let mut exp = experiment(
        "Numeric",
        "num",
        vec![audience("all", SizeSpec::Percent { value: 100 })],
        None,
    );
    exp.audiences[0].script_src = Some("1 + 1".to_string());
    let (mut svc, app_id, project_id, _exp_id) = setup(exp);
    let cookies: Vec<(String, String)> = Vec::new();
    let err = svc
        .run_request(&request(&app_id, &project_id, "u", None), &cookies, NOW)
        .unwrap_err();
    match err {
        HttpError::EvaluationError(m) => {
            assert!(m.contains("script=1 + 1"));
            assert!(m.contains("ctx="));
        }
        other => panic!("expected an evaluation error, got {:?}", other),
    }
}

#[test]
fn non_ascii_loaded_script_fails_evaluation_cleanly() {
    // Loaded snapshots bypass admin validation; a non-ASCII script must
    // surface as an evaluation error at decision time, never a panic.
    let mut svc = AbOptimisationService::new();
    let app_id = svc.add_app(blank_app("My App", "app")).unwrap().id;
    let project_id = svc
        .add_project(&app_id, blank_project("My Project", "proj", TrackingMethod::Data))
        .unwrap()
        .id;
    let mut exp = experiment(
        "Loaded",
        "ld",
        vec![audience("all", SizeSpec::Percent { value: 100 })],
        None,
    );
    exp.audiences[0].script_src = Some("r\u{e9}gion == 'fr'".to_string());
    exp.version = 1;
    svc.load_experiment(&app_id, &project_id, "e1", exp, 0).unwrap();

    let cookies: Vec<(String, String)> = Vec::new();
    let err = svc
        .run_request(&request(&app_id, &project_id, "u", None), &cookies, NOW)
        .unwrap_err();
    match err {
        HttpError::EvaluationError(m) => assert!(m.contains("not ASCII")),
        other => panic!("expected an evaluation error, got {:?}", other),
    }
}

#[test]
fn missing_app_and_project_are_not_found() {
    let mut svc = AbOptimisationService::new();
    let cookies: Vec<(String, String)> = Vec::new();
    let err = svc
        .run_request(&request("nope", "nope", "u", None), &cookies, NOW)
        .unwrap_err();
    assert!(matches!(err, HttpError::NotFound(_)));
    let app_id = svc.add_app(blank_app("My App", "app")).unwrap().id;
    let err = svc
        .run_request(&request(&app_id, "nope", "u", None), &cookies, NOW)
        .unwrap_err();
    assert!(matches!(err, HttpError::NotFound(_)));
}

#[test]
fn malformed_tracking_data_is_a_parse_error() {
    let exp = experiment(
        "Any",
        "any",
        vec![audience("all", SizeSpec::Percent { value: 100 })],
        None,
    );
    let (mut svc, app_id, project_id, _exp_id) = setup(exp);
    let cookies: Vec<(String, String)> = Vec::new();
    let err = svc
        .run_request(
            &request(&app_id, &project_id, "u", Some("%%bad%%".to_string())),
            &cookies,
            NOW,
        )
        .unwrap_err();
    assert!(matches!(err, HttpError::ParseError(_)));
}

#[test]
fn cookie_tracking_method_reads_the_named_cookie() {
    let mut svc = AbOptimisationService::new();
    let app_id = svc.add_app(blank_app("My App", "app")).unwrap().id;
    let project_id = svc
        .add_project(&app_id, blank_project("My Project", "proj", TrackingMethod::Cookie))
        .unwrap()
        .id;
    let exp = experiment(
        "Sticky",
        "st",
        vec![audience("all", SizeSpec::Percent { value: 100 })],
        Some(vec![variation("Variation A", "A", 40), variation("Variation B", "B", 60)]),
    );
    svc.add_experiment(&app_id, &project_id, exp).unwrap();
    let cookies = vec![
        ("unrelated".to_string(), "zzz".to_string()),
        ("X-abof-app-proj".to_string(), "st|1|T|A|0|1|1|0|1".to_string()),
    ];
    let resp = svc
        .run_request(&request(&app_id, &project_id, "u", None), &cookies, NOW)
        .unwrap();
    assert_eq!(resp.tracking_cookie_name.as_deref(), Some("X-abof-app-proj"));
    assert_eq!(resp.active_experiments.len(), 1);
    assert_eq!(resp.active_experiments[0].variation, Some("A".to_string()));
}

#[test]
fn inactive_experiment_carries_prior_record_unchanged() {
    let mut exp = experiment(
        "Dormant",
        "dm",
        vec![audience("all", SizeSpec::Percent { value: 100 })],
        None,
    );
    exp.inactive = true;
    let (mut svc, app_id, project_id, _exp_id) = setup(exp);
    let cookies: Vec<(String, String)> = Vec::new();
    let prior = "dm|1|T|A|5|3|1|2|6".to_string();
    let resp = svc
        .run_request(&request(&app_id, &project_id, "u", Some(prior.clone())), &cookies, NOW)
        .unwrap();
    assert_eq!(resp.active_experiments.len(), 0);
    assert_eq!(resp.tracking_data.as_deref(), Some(prior.as_str()));
}
