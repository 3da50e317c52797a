use prayer_times::extract::{extract_conf, extract_from_scripts, ExtractError};

const PAGE: &str = "<html><head><style>body { color: black; }</style>\
<script>var tracker = 1;</script>\
<script>var confData = {\"times\":[\"05:00\",\"13:00\",\"16:30\",\"19:45\",\"21:15\"],\
\"name\":\"Test\"};</script>\
</head><body><p>{brace noise}</p></body></html>";

#[test]
fn extracts_object_literal_from_marked_script() {
    let json = extract_conf(PAGE).expect("extraction should succeed");
    let value: serde_json::Value = serde_json::from_str(&json).expect("literal should be JSON");
    assert_eq!(value.get("name").and_then(|v| v.as_str()), Some("Test"));
    let times = value.get("times").and_then(|v| v.as_array()).expect("times should be an array");
    assert_eq!(times.len(), 5);
    let listed: Vec<&str> = times.iter().map(|v| v.as_str().unwrap()).collect();
    assert_eq!(listed, vec!["05:00", "13:00", "16:30", "19:45", "21:15"]);
}

#[test]
fn missing_marker_is_a_distinct_error() {
    let page = "<html><script>var other = {\"a\":1};</script></html>";
    assert_eq!(extract_conf(page), Err(ExtractError::MarkerNotFound));
}

#[test]
fn marker_without_braces_is_malformed() {
    let page = "<html><script>var confData = nothing;</script></html>";
    assert_eq!(extract_conf(page), Err(ExtractError::Malformed));
}

#[test]
fn crossed_braces_are_malformed() {
    let scripts = vec!["var confData = } broken {".to_string()];
    assert_eq!(extract_from_scripts(&scripts), Err(ExtractError::Malformed));
}

#[test]
fn first_marked_script_wins() {
    let scripts = vec![
        "var unrelated = {\"x\":0};".to_string(),
        "var confData = {\"name\":\"A\"};".to_string(),
        "var confData = {\"name\":\"B\"};".to_string(),
    ];
    assert_eq!(extract_from_scripts(&scripts), Ok("{\"name\":\"A\"}".to_string()));
}

#[test]
fn literal_spans_first_to_last_brace() {
    let scripts = vec!["var confData = {\"a\":{\"b\":2}}; trailing".to_string()];
    assert_eq!(extract_from_scripts(&scripts), Ok("{\"a\":{\"b\":2}}".to_string()));
}

#[test]
fn empty_script_list_has_no_marker() {
    let scripts: Vec<String> = Vec::new();
    assert_eq!(extract_from_scripts(&scripts), Err(ExtractError::MarkerNotFound));
}
