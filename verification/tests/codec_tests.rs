use abof::codec::ExperimentMemberKind;
use abof::codec::TrackedExperiment;
use abof::codec::TrackingData;
use abof::codec::TrackingDataParser;

fn record(
    short_name: &str,
    selected_version: i64,
    kind: ExperimentMemberKind,
    variation: Option<&str>,
    selection_date: i64,
    selection_count: u64,
    invocation_version: i64,
    invocation_date: i64,
    invocation_count: u64,
) -> TrackedExperiment {
    TrackedExperiment {
        short_name: short_name.to_string(),
        selected_version,
        selected_member_kind: kind,
        selected_variation: variation.map(|v| v.to_string()),
        selection_date,
        total_selection_count: selection_count,
        invocation_version,
        invocation_date,
        total_invocation_count: invocation_count,
    }
}

#[test]
fn parse() {
    assert!(TrackingDataParser::parse_tracking_data("a|0|T|;a|0|C|d").is_ok());
}

#[test]
fn parse_short_records() {
    let td = TrackingDataParser::parse_tracking_data("a|0|T|;a|0|C|d").unwrap();
    assert_eq!(td.experiments.len(), 2);
    assert_eq!(td.experiments[0].short_name, "a");
    assert_eq!(
        td.experiments[0].selected_member_kind,
        ExperimentMemberKind::Test
    );
    assert_eq!(td.experiments[0].selected_variation, None);
    assert_eq!(td.experiments[0].selection_date, 0);
    assert_eq!(td.experiments[1].selected_variation, Some("d".to_string()));
    assert_eq!(
        td.experiments[1].selected_member_kind,
        ExperimentMemberKind::Control
    );
}

#[test]
fn empty_string_is_empty_history() {
    let td = TrackingDataParser::parse_tracking_data("").unwrap();
    assert_eq!(td.experiments.len(), 0);
}

#[test]
fn garbage_is_a_parse_error() {
    assert!(TrackingDataParser::parse_tracking_data("not a record").is_err());
    assert!(TrackingDataParser::parse_tracking_data("a|b|c").is_err());
    assert!(TrackingDataParser::parse_tracking_data("|1|C|").is_err());
    assert!(TrackingDataParser::parse_tracking_data("a|1|X|").is_err());
    assert!(TrackingDataParser::parse_tracking_data("a|1|C|v|oops|2|1|0|3").is_err());
}

#[test]
fn encode_exact_format() {
    let epoch = abof::codec::FIRST_JULY_2021;
    let rec = record(
        "exp",
        3,
        ExperimentMemberKind::Test,
        Some("var"),
        epoch + 5,
        2,
        3,
        epoch + 9,
        7,
    );
    assert_eq!(rec.to_string(), "exp|3|T|var|5|2|3|4|7");
    let td = TrackingData {
        experiments: vec![rec],
    };
    assert_eq!(td.to_string(), "exp|3|T|var|5|2|3|4|7");
}

#[test]
fn encode_joins_records_with_tilde() {
    let epoch = abof::codec::FIRST_JULY_2021;
    let a = record("a", 1, ExperimentMemberKind::Control, None, epoch, 1, 1, epoch, 1);
    let b = record("b", 2, ExperimentMemberKind::Test, Some("v"), epoch, 1, 2, epoch, 1);
    let td = TrackingData {
        experiments: vec![a, b],
    };
    assert_eq!(td.to_string(), "a|1|C||0|1|1|0|1~b|2|T|v|0|1|2|0|1");
}

#[test]
fn round_trip() {
    let epoch = abof::codec::FIRST_JULY_2021;
    let td = TrackingData {
        experiments: vec![
            record(
                "one",
                4,
                ExperimentMemberKind::Test,
                Some("blue"),
                epoch + 100,
                3,
                4,
                epoch + 250,
                9,
            ),
            record(
                "two",
                -2,
                ExperimentMemberKind::Control,
                None,
                epoch - 50,
                1,
                -2,
                epoch - 50,
                1,
            ),
        ],
    };
    let encoded = td.to_string();
    let decoded = TrackingDataParser::parse_tracking_data(&encoded).unwrap();
    assert_eq!(decoded.experiments.len(), 2);
    for (x, y) in td.experiments.iter().zip(decoded.experiments.iter()) {
        assert_eq!(x.short_name, y.short_name);
        assert_eq!(x.selected_version, y.selected_version);
        assert_eq!(x.selected_member_kind, y.selected_member_kind);
        assert_eq!(x.selected_variation, y.selected_variation);
        assert_eq!(x.selection_date, y.selection_date);
        assert_eq!(x.total_selection_count, y.total_selection_count);
        assert_eq!(x.invocation_version, y.invocation_version);
        assert_eq!(x.invocation_date, y.invocation_date);
        assert_eq!(x.total_invocation_count, y.total_invocation_count);
    }
}

#[test]
fn parse_experiment_single_record() {
    let rec = TrackingDataParser::parse_experiment("abc|7|T|v|10|2|7|1|4").unwrap();
    assert_eq!(rec.short_name, "abc");
    assert_eq!(rec.selected_version, 7);
    assert_eq!(rec.selection_date, abof::codec::FIRST_JULY_2021 + 10);
    assert_eq!(rec.invocation_date, abof::codec::FIRST_JULY_2021 + 11);
    assert_eq!(rec.total_invocation_count, 4);
    assert!(TrackingDataParser::parse_experiment("a~b|1|C|").is_err());
}

#[test]
fn parse_no_err_swallows_garbage() {
    let td = TrackingDataParser::parse_tracking_data_no_err("complete garbage");
    assert_eq!(td.experiments.len(), 0);
    let td = TrackingDataParser::parse_tracking_data_no_err("ok|1|C|");
    assert_eq!(td.experiments.len(), 1);
}
