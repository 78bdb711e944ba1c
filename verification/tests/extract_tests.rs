use attractor::extract::extract_json;

#[test]
fn payload_is_recovered_from_noisy_output() {
    let raw = "noise noise {\"status\":\"success\",\"response\":\"ok\"} trailing junk";
    let out = extract_json(raw).expect("a payload should be recovered");
    assert_eq!(out.status, "success");
    assert_eq!(out.response, "ok");
    assert_eq!(out.session_id, "");
    assert_eq!(out.model, "");
    assert!(out.error.is_none());
}

#[test]
fn pure_noise_yields_no_payload() {
    assert!(extract_json("just some progress text, no json here").is_none());
    assert!(extract_json("").is_none());
    assert!(extract_json("{ not json").is_none());
}

#[test]
fn clean_json_parses_on_the_fast_path() {
    let raw = "{\"status\":\"success\",\"response\":\"hi\",\"session_id\":\"s1\",\"model\":\"m1\"}";
    let out = extract_json(raw).unwrap();
    assert_eq!(out.status, "success");
    assert_eq!(out.response, "hi");
    assert_eq!(out.session_id, "s1");
    assert_eq!(out.model, "m1");
}

#[test]
fn failure_payload_carries_error_fields() {
    let raw = "spinner...\n{\"status\":\"error\",\"error\":\"quota\",\"error_type\":\"limit\"}";
    let out = extract_json(raw).unwrap();
    assert_eq!(out.status, "error");
    assert_eq!(out.error.as_deref(), Some("quota"));
    assert_eq!(out.error_type.as_deref(), Some("limit"));
    assert_eq!(out.response, "");
}

#[test]
fn rightmost_parseable_object_wins() {
    let raw = "{\"status\":\"success\",\"response\":\"first\"} mid {\"status\":\"success\",\"response\":\"second\"}";
    // the whole stream parses as the first object with trailing text, so the
    // fast path returns it
    let out = extract_json(raw).unwrap();
    assert_eq!(out.response, "first");
    // with a broken head, the scan finds the last object
    let raw2 = "{oops {\"status\":\"success\",\"response\":\"second\"}";
    let out2 = extract_json(raw2).unwrap();
    assert_eq!(out2.response, "second");
}

#[test]
fn object_without_status_is_no_payload() {
    assert!(extract_json("{\"response\":\"ok\"}").is_none());
    assert!(extract_json("{\"status\":7}").is_none());
}
