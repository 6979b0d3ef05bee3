use abof::data::DataValue;
use abof::data::merge_data;

fn num(n: i64) -> DataValue {
    DataValue::from_i64(n)
}

fn obj(entries: Vec<(&str, DataValue)>) -> DataValue {
    DataValue::Object(
        entries
            .into_iter()
            .map(|(k, v)| (k.to_string(), v))
            .collect(),
    )
}

fn render(v: &Option<DataValue>) -> String {
    match v {
        Some(d) => d.to_json_string(),
        None => "absent".to_string(),
    }
}

#[test]
fn merge_with_absent_side_passes_through() {
    let d = obj(vec![("a", num(1))]);
    let merged = merge_data(None, Some(d.duplicate()));
    assert_eq!(render(&merged), "{\"a\":1}");
    let merged = merge_data(Some(d.duplicate()), None);
    assert_eq!(render(&merged), "{\"a\":1}");
    let merged = merge_data(None, None);
    assert!(merged.is_none());
}

#[test]
fn merge_overrides_matching_keys() {
    let experiment = obj(vec![("a", num(1))]);
    let variation = obj(vec![("a", num(2)), ("b", num(3))]);
    let merged = merge_data(Some(experiment), Some(variation));
    assert_eq!(render(&merged), "{\"a\":2,\"b\":3}");
}

#[test]
fn merge_is_recursive_on_objects() {
    let experiment = obj(vec![
        ("nested", obj(vec![("x", num(1)), ("y", num(2))])),
        ("k", DataValue::Text("base".to_string())),
    ]);
    let variation = obj(vec![("nested", obj(vec![("y", num(9)), ("z", num(3))]))]);
    let merged = merge_data(Some(experiment), Some(variation));
    assert_eq!(
        render(&merged),
        "{\"nested\":{\"x\":1,\"y\":9,\"z\":3},\"k\":\"base\"}"
    );
}

#[test]
fn non_object_values_replace_outright() {
    let experiment = obj(vec![("a", obj(vec![("x", num(1))]))]);
    let variation = obj(vec![("a", DataValue::Bool(true))]);
    let merged = merge_data(Some(experiment), Some(variation));
    assert_eq!(render(&merged), "{\"a\":true}");
}

#[test]
fn json_rendering_escapes_strings() {
    let v = obj(vec![
        ("plain", DataValue::Text("hello".to_string())),
        ("quoted", DataValue::Text("say \"hi\"\n".to_string())),
        ("arr", DataValue::Array(vec![DataValue::Null, DataValue::Bool(false), num(-7)])),
    ]);
    assert_eq!(
        v.to_json_string(),
        "{\"plain\":\"hello\",\"quoted\":\"say \\\"hi\\\"\\u000a\",\"arr\":[null,false,-7]}"
    );
}
