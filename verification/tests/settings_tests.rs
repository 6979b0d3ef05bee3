use abof::paths::LocalStore;
use abof::paths::parse_app_path;
use abof::paths::parse_audience_list_path;
use abof::paths::parse_experiment_path;
use abof::paths::parse_project_path;
use abof::settings::Settings;
use abof::settings::config_file_paths;
use abof::settings::http_workers;
use abof::settings::json_payload_limit;
use abof::settings::local_store_config;
use abof::settings::s3_store_config;
use abof::settings::secure_cookie;
use abof::settings::store_kind;

#[test]
fn settings_defaults_apply() {
    let s = Settings::empty();
    assert_eq!(http_workers(&s), 1);
    assert_eq!(json_payload_limit(&s), 1048576);
    assert!(!secure_cookie(&s));
    assert_eq!(store_kind(&s), "local");
    assert_eq!(local_store_config(&s).path, "data");
    let s3 = s3_store_config(&s);
    assert_eq!(s3.bucket, "abof-data");
    assert_eq!(s3.region, "ap-south-1");
    assert_eq!(s3.path, "data");
    assert_eq!(s3.refresh_rate, 10);
}

#[test]
fn settings_overrides_apply() {
    let mut s = Settings::empty();
    s.store_kind = Some("s3".to_string());
    s.store_path = Some("snapshots".to_string());
    s.secure_cookie = Some(true);
    s.s3_refresh_rate = Some(60);
    assert_eq!(store_kind(&s), "s3");
    assert!(secure_cookie(&s));
    assert_eq!(s3_store_config(&s).path, "snapshots");
    assert_eq!(s3_store_config(&s).refresh_rate, 60);
}

#[test]
fn config_paths_are_built_from_base_and_env() {
    let (default_path, env_path) = config_file_paths("/etc/svc", "prod");
    assert_eq!(default_path, "/etc/svc/service-default.yml");
    assert_eq!(env_path, "/etc/svc/service-prod.yml");
}

#[test]
fn data_paths_round_trip_through_their_parsers() {
    let store = LocalStore {
        path: "data".to_string(),
    };
    assert_eq!(store.apps_path(), "data/apps");
    assert_eq!(store.app_data_path("a1"), "data/apps/a1.app.data.json");
    assert_eq!(
        store.project_data_path("a1", "p2"),
        "data/projects/a1.p2.project.data.json"
    );
    assert_eq!(
        store.experiment_data_path("a1", "p2", "e3"),
        "data/experiments/a1.p2.e3.experiment.data.json"
    );
    assert_eq!(
        store.audience_list_data_path("a1", "p2", "l4"),
        "data/audience_lists/a1.p2.l4.audience-list.data.json"
    );

    assert_eq!(parse_app_path("a1.app.data.json"), Some("a1".to_string()));
    assert_eq!(parse_app_path("a1.project.data.json"), None);
    assert_eq!(
        parse_project_path("a1.p2.project.data.json"),
        Some(("a1".to_string(), "p2".to_string()))
    );
    assert_eq!(
        parse_experiment_path("a1.p2.e3.experiment.data.json"),
        Some(("a1".to_string(), "p2".to_string(), "e3".to_string()))
    );
    assert_eq!(
        parse_audience_list_path("a1.p2.l4.audience-list.data.json"),
        Some(("a1".to_string(), "p2".to_string(), "l4".to_string()))
    );
    assert_eq!(parse_experiment_path("nonsense"), None);
}
