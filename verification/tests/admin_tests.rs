use abof::entities::App;
use abof::entities::Audience;
use abof::entities::Experiment;
use abof::entities::ExperimentKind;
use abof::entities::Project;
use abof::entities::SizeSpec;
use abof::entities::TrackingMethod;
use abof::entities::Variation;
use abof::errors::HttpError;
use abof::service::AbOptimisationService;
use abof::store::EntityMap;

fn blank_app(name: &str, short: &str) -> App {
    App {
        id: String::new(),
        name: name.to_string(),
        short_name: short.to_string(),
        projects: EntityMap::new(),
        modification_time: 0,
    }
}

fn blank_project(name: &str, short: &str) -> Project {
    Project {
        id: String::new(),
        name: name.to_string(),
        short_name: short.to_string(),
        tracking_method: TrackingMethod::Both,
        experiments: EntityMap::new(),
        audience_lists: EntityMap::new(),
        modification_time: 0,
    }
}

fn variation(name: &str, short: &str, size: u64) -> Variation {
    Variation {
        name: name.to_string(),
        short_name: short.to_string(),
        size,
        data: None,
    }
}

fn experiment_sized(sizes: &[u64]) -> Experiment {
    let variations: Vec<Variation> = sizes
        .iter()
        .enumerate()
        .map(|(i, s)| variation(&format!("Variation {}", i), &format!("v{}", i), *s))
        .collect();
    Experiment {
        id: String::new(),
        name: "Sized".to_string(),
        short_name: "sz".to_string(),
        version: 0,
        kind: ExperimentKind::Experiment,
        inactive: false,
        start_time: None,
        end_time: None,
        audiences: vec![Audience {
            name: "all".to_string(),
            script_src: None,
            list_id: None,
            size: SizeSpec::Percent { value: 100 },
            picked_size: 0,
        }],
        frequency_constraint: None,
        variations: Some(variations),
        data: None,
        control_size: 0,
        test_size: 0,
    }
}

#[test]
fn duplicate_app_names_are_rejected() {
    let mut svc = AbOptimisationService::new();
    svc.add_app(blank_app("My App", "app")).unwrap();
    let err = svc.add_app(blank_app("Other", "app")).unwrap_err();
    assert!(matches!(err, HttpError::BadRequest(_)));
    let err = svc.add_app(blank_app("My App", "other")).unwrap_err();
    assert!(matches!(err, HttpError::BadRequest(_)));
    svc.add_app(blank_app("Second", "two")).unwrap();
}

#[test]
fn duplicate_project_names_are_rejected_within_an_app() {
    let mut svc = AbOptimisationService::new();
    let app_id = svc.add_app(blank_app("My App", "app")).unwrap().id;
    svc.add_project(&app_id, blank_project("P", "p")).unwrap();
    let err = svc.add_project(&app_id, blank_project("P", "q")).unwrap_err();
    assert!(matches!(err, HttpError::BadRequest(_)));
    // The same names are free under another app.
    let other_app = svc.add_app(blank_app("Other App", "oth")).unwrap().id;
    svc.add_project(&other_app, blank_project("P", "p")).unwrap();
}

#[test]
fn variation_sizes_must_sum_to_one_hundred() {
    let mut svc = AbOptimisationService::new();
    let app_id = svc.add_app(blank_app("My App", "app")).unwrap().id;
    let project_id = svc.add_project(&app_id, blank_project("P", "p")).unwrap().id;
    let err = svc
        .add_experiment(&app_id, &project_id, experiment_sized(&[40, 59]))
        .unwrap_err();
    assert!(matches!(err, HttpError::BadRequest(_)));
    let err = svc
        .add_experiment(&app_id, &project_id, experiment_sized(&[40, 61]))
        .unwrap_err();
    assert!(matches!(err, HttpError::BadRequest(_)));
    svc.add_experiment(&app_id, &project_id, experiment_sized(&[40, 60]))
        .unwrap();
}

#[test]
fn features_cannot_carry_variations() {
    let mut svc = AbOptimisationService::new();
    let app_id = svc.add_app(blank_app("My App", "app")).unwrap().id;
    let project_id = svc.add_project(&app_id, blank_project("P", "p")).unwrap().id;
    let mut exp = experiment_sized(&[100]);
    exp.kind = ExperimentKind::Feature;
    let err = svc.add_experiment(&app_id, &project_id, exp).unwrap_err();
    assert!(matches!(err, HttpError::BadRequest(_)));
}

#[test]
fn preset_versions_are_rejected() {
    let mut svc = AbOptimisationService::new();
    let app_id = svc.add_app(blank_app("My App", "app")).unwrap().id;
    let project_id = svc.add_project(&app_id, blank_project("P", "p")).unwrap().id;
    let mut exp = experiment_sized(&[100]);
    exp.version = 3;
    let err = svc.add_experiment(&app_id, &project_id, exp).unwrap_err();
    assert!(matches!(err, HttpError::BadRequest(_)));
}

#[test]
fn update_bumps_version_only_on_change() {
    let mut svc = AbOptimisationService::new();
    let app_id = svc.add_app(blank_app("My App", "app")).unwrap().id;
    let project_id = svc.add_project(&app_id, blank_project("P", "p")).unwrap().id;
    let exp_id = svc
        .add_experiment(&app_id, &project_id, experiment_sized(&[40, 60]))
        .unwrap()
        .id;
    assert_eq!(svc.get_experiment(&app_id, &project_id, &exp_id).unwrap().version, 1);

    // An identical configuration leaves the version alone.
    svc.update_experiment(&app_id, &project_id, &exp_id, experiment_sized(&[40, 60]))
        .unwrap();
    assert_eq!(svc.get_experiment(&app_id, &project_id, &exp_id).unwrap().version, 1);

    // A changed weight bumps it once.
    svc.update_experiment(&app_id, &project_id, &exp_id, experiment_sized(&[30, 70]))
        .unwrap();
    assert_eq!(svc.get_experiment(&app_id, &project_id, &exp_id).unwrap().version, 2);
}

#[test]
fn malformed_scripts_are_rejected() {
    let mut svc = AbOptimisationService::new();
    let app_id = svc.add_app(blank_app("My App", "app")).unwrap().id;
    let project_id = svc.add_project(&app_id, blank_project("P", "p")).unwrap().id;

    let mut exp = experiment_sized(&[100]);
    exp.audiences[0].script_src = Some("((".to_string());
    let err = svc.add_experiment(&app_id, &project_id, exp).unwrap_err();
    assert!(matches!(err, HttpError::BadRequest(_)));

    let mut exp = experiment_sized(&[100]);
    exp.frequency_constraint = Some("((".to_string());
    let err = svc.add_experiment(&app_id, &project_id, exp).unwrap_err();
    assert!(matches!(err, HttpError::BadRequest(_)));

    let mut exp = experiment_sized(&[100]);
    exp.audiences[0].script_src = Some("true".to_string());
    exp.frequency_constraint = Some("true".to_string());
    svc.add_experiment(&app_id, &project_id, exp).unwrap();
}

#[test]
fn non_ascii_scripts_are_rejected() {
    // The script language is ASCII; a non-ASCII source must be refused at
    // validation rather than reach the parser.
    let mut svc = AbOptimisationService::new();
    let app_id = svc.add_app(blank_app("My App", "app")).unwrap().id;
    let project_id = svc.add_project(&app_id, blank_project("P", "p")).unwrap().id;

    let mut exp = experiment_sized(&[100]);
    exp.audiences[0].script_src = Some("r\u{e9}gion == 'fr'".to_string());
    let err = svc.add_experiment(&app_id, &project_id, exp).unwrap_err();
    assert!(matches!(err, HttpError::BadRequest(_)));

    let mut exp = experiment_sized(&[100]);
    exp.frequency_constraint = Some("'Jos\u{e9}' == user".to_string());
    let err = svc.add_experiment(&app_id, &project_id, exp).unwrap_err();
    assert!(matches!(err, HttpError::BadRequest(_)));
}

#[test]
fn loader_respects_modification_times() {
    let mut svc = AbOptimisationService::new();
    let mut app = blank_app("Loaded", "ld");
    app.id = "a1".to_string();
    svc.load_app("a1", app, 100).unwrap();
    assert_eq!(svc.get_app("a1").unwrap().name, "Loaded");

    // A stale snapshot does not clobber the newer state.
    let mut stale = blank_app("Stale", "st");
    stale.id = "a1".to_string();
    svc.load_app("a1", stale, 50).unwrap();
    assert_eq!(svc.get_app("a1").unwrap().name, "Loaded");

    // A newer one does.
    let mut newer = blank_app("Newer", "nw");
    newer.id = "a1".to_string();
    svc.load_app("a1", newer, 150).unwrap();
    assert_eq!(svc.get_app("a1").unwrap().name, "Newer");

    // A zero modification time forces the overwrite.
    let mut forced = blank_app("Forced", "fc");
    forced.id = "a1".to_string();
    svc.load_app("a1", forced, 0).unwrap();
    assert_eq!(svc.get_app("a1").unwrap().name, "Forced");
}

#[test]
fn getters_report_missing_entities() {
    let svc = AbOptimisationService::new();
    assert!(matches!(svc.get_app("nope"), Err(HttpError::NotFound(_))));
    let mut svc = AbOptimisationService::new();
    let app_id = svc.add_app(blank_app("My App", "app")).unwrap().id;
    assert!(matches!(
        svc.get_project(&app_id, "nope"),
        Err(HttpError::NotFound(_))
    ));
    let project_id = svc.add_project(&app_id, blank_project("P", "p")).unwrap().id;
    assert!(matches!(
        svc.get_experiment(&app_id, &project_id, "nope"),
        Err(HttpError::NotFound(_))
    ));
    assert!(matches!(
        svc.get_audience_list(&app_id, &project_id, "nope"),
        Err(HttpError::NotFound(_))
    ));
}
