use bem::{from_json, parse, to_json, BEMBlock, BEMElement};

fn create_test_bem_block() -> BEMBlock {
    BEMBlock {
        name: "media-player".to_string(),
        modifiers: vec!["dark".to_string()],
        elements: vec![
            BEMElement {
                name: "button".to_string(),
                modifiers: vec!["fast-forward".to_string(), "rewind".to_string()],
            },
            BEMElement { name: "timeline".to_string(), modifiers: vec![] },
        ],
    }
}

#[test]
fn test_to_json() {
    let bem_block = create_test_bem_block();
    let result = to_json(&bem_block);

    assert!(result.is_ok());

    assert_eq!(
        result.unwrap(),
        "{\"name\":\"media-player\",\"modifiers\":[\"dark\"],\"elements\":[{\"name\":\"button\",\"modifiers\":[\"fast-forward\",\"rewind\"]},{\"name\":\"timeline\",\"modifiers\":[]}]}"
    );
}

#[test]
fn test_from_json() {
    let json =
        "{\"name\":\"media-player\",\"modifiers\":[\"dark\"],\"elements\":[{\"name\":\"button\",\"modifiers\":[\"fast-forward\",\"rewind\"]},{\"name\":\"timeline\",\"modifiers\":[]}]}";
    let result = from_json(json);

    assert!(result.is_ok());

    assert_eq!(result.unwrap(), create_test_bem_block());
}

#[test]
fn test_to_json_empty_block() {
    let block = BEMBlock { name: "x".to_string(), modifiers: vec![], elements: vec![] };

    assert_eq!(
        to_json(&block).unwrap(),
        "{\"name\":\"x\",\"modifiers\":[],\"elements\":[]}"
    );
}

#[test]
fn test_from_json_round_trips_to_json() {
    let block = create_test_bem_block();
    let json = to_json(&block).unwrap();
    let back = from_json(&json).unwrap();

    assert_eq!(back, create_test_bem_block());
}

#[test]
fn test_round_trip_of_parsed_document() {
    let block = parse("a[b,c]\nd[e,f]\ng\nh[i]").unwrap();
    let json = to_json(&block).unwrap();
    let back = from_json(&json).unwrap();

    assert_eq!(back, parse("a[b,c]\nd[e,f]\ng\nh[i]").unwrap());
}

#[test]
fn test_from_json_accepts_whitespace_between_tokens() {
    let json = " { \"name\" : \"x\" ,\n\"modifiers\" : [ ] , \"elements\" : [ ] }\n";
    let result = from_json(json);

    assert!(result.is_ok());
    assert_eq!(
        result.unwrap(),
        BEMBlock { name: "x".to_string(), modifiers: vec![], elements: vec![] }
    );
}

#[test]
fn test_from_json_reads_escapes() {
    let json = "{\"name\":\"a\\\\b\\nc\",\"modifiers\":[],\"elements\":[]}";
    let result = from_json(json);

    assert!(result.is_ok());
    assert_eq!(
        result.unwrap(),
        BEMBlock { name: "a\\b\nc".to_string(), modifiers: vec![], elements: vec![] }
    );
}

#[test]
fn test_from_json_missing_name() {
    assert!(from_json("{\"modifiers\":[],\"elements\":[]}").is_err());
}

#[test]
fn test_from_json_missing_modifiers() {
    assert!(from_json("{\"name\":\"x\",\"elements\":[]}").is_err());
}

#[test]
fn test_from_json_missing_elements() {
    assert!(from_json("{\"name\":\"x\",\"modifiers\":[]}").is_err());
}

#[test]
fn test_from_json_rejects_unknown_field() {
    let json = "{\"name\":\"x\",\"modifiers\":[],\"elements\":[],\"extra\":\"y\"}";

    assert!(from_json(json).is_err());
}

#[test]
fn test_from_json_rejects_reordered_fields() {
    let json = "{\"modifiers\":[],\"name\":\"x\",\"elements\":[]}";

    assert!(from_json(json).is_err());
}

#[test]
fn test_from_json_rejects_malformed_text() {
    assert!(from_json("").is_err());
    assert!(from_json("not json").is_err());
    assert!(from_json("{\"name\":5,\"modifiers\":[],\"elements\":[]}").is_err());
    assert!(from_json("{\"name\":\"x\",\"modifiers\":[],\"elements\":[]").is_err());
    assert!(from_json("{\"name\":\"x\",\"modifiers\":[],\"elements\":[]} trailing").is_err());
}

#[test]
fn test_from_json_rejects_unknown_escape() {
    assert!(from_json("{\"name\":\"a\\u0062\",\"modifiers\":[],\"elements\":[]}").is_err());
}

#[test]
fn test_from_json_error_names_missing_field() {
    let message = from_json("{\"name\":\"x\",\"elements\":[]}").unwrap_err();

    assert!(message.contains("missing field modifiers"));
}
