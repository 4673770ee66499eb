use graph_wire::codec::DecodeError;
use graph_wire::decode::decode;
use graph_wire::encode::encode;
use graph_wire::value::{Val, Date, Time, DateTime, ZonedDateTime, Duration, Node, Relationship};
use graph_wire::wire::Wire;

fn to_wire(v: &serde_json::Value) -> Wire {
    match v {
        serde_json::Value::Bool(b) => Wire::Bool(*b),
        serde_json::Value::Number(n) => Wire::Int(n.as_i64().expect("integral number")),
        serde_json::Value::String(s) => Wire::Str(s.clone()),
        serde_json::Value::Array(a) => Wire::Arr(a.iter().map(to_wire).collect()),
        serde_json::Value::Object(o) => {
            Wire::Obj(o.iter().map(|(k, v)| (k.clone(), to_wire(v))).collect())
        }
        serde_json::Value::Null => panic!("null is not part of the wire model"),
    }
}

fn from_wire(w: &Wire) -> serde_json::Value {
    match w {
        Wire::Bool(b) => serde_json::Value::Bool(*b),
        Wire::Int(i) => serde_json::Value::from(*i),
        Wire::Str(s) => serde_json::Value::String(s.clone()),
        Wire::Arr(items) => serde_json::Value::Array(items.iter().map(from_wire).collect()),
        Wire::Obj(entries) => {
            let mut m = serde_json::Map::new();
            for (k, v) in entries {
                m.insert(k.clone(), from_wire(v));
            }
            serde_json::Value::Object(m)
        }
    }
}

fn decode_text(text: &str) -> Result<Val, DecodeError> {
    let v: serde_json::Value = serde_json::from_str(text).expect("well-formed transport text");
    decode(&to_wire(&v))
}

fn encode_text(v: &Val) -> String {
    serde_json::to_string(&from_wire(&encode(v))).expect("serializable")
}

fn lookup<'a>(m: &'a [(String, Val)], k: &str) -> Option<&'a Val> {
    m.iter().find(|(key, _)| key == k).map(|(_, v)| v)
}

fn envelope(tag: &str, payload: Wire) -> Wire {
    Wire::Obj(vec![
        ("$type".to_string(), Wire::Str(tag.to_string())),
        ("_value".to_string(), payload),
    ])
}

// ----- the original suite ---------------------------------------------------

#[test]
fn bool_deserializes() {
    let test = "{ \"$type\":\"Boolean\", \"_value\": true }";
    match decode_text(test).unwrap() {
        Val::Boolean { value } => {
            assert_eq!(true, value);
        }
        _ => panic!("test fail"),
    }
}

#[test]
fn bool_serializes() {
    let input = Val::Boolean { value: false };
    let output = encode_text(&input);
    assert_eq!(output, "{\"$type\":\"Boolean\",\"_value\":false}");
}

#[test]
fn i64_deserializes() {
    let test = "{ \"$type\":\"Integer\", \"_value\": \"10\" }";
    match decode_text(test).unwrap() {
        Val::Integer { value } => {
            assert_eq!(10i64, value);
        }
        _ => panic!("test fail"),
    }
}

#[test]
fn i64_serializes() {
    let input = Val::Integer { value: 123 };
    let output = encode_text(&input);
    assert_eq!(output, "{\"$type\":\"Integer\",\"_value\":\"123\"}");
}

#[test]
fn f64_deserializes() {
    let test = "{ \"$type\":\"Float\", \"_value\": \"1.0\" }";
    match decode_text(test).unwrap() {
        Val::Float { value } => {
            assert_eq!(1.0, value.parse::<f64>().unwrap());
        }
        _ => panic!("test fail"),
    }
}

#[test]
fn f64_serializes() {
    let input = Val::Float { value: "1.23".to_string() };
    let output = encode_text(&input);
    assert_eq!(output, "{\"$type\":\"Float\",\"_value\":\"1.23\"}");
}

#[test]
fn string_deserializes() {
    let test = "{ \"$type\":\"String\", \"_value\": \"bert\" }";
    match decode_text(test).unwrap() {
        Val::String { value } => {
            assert_eq!("bert", value);
        }
        _ => panic!("test fail"),
    }
}

#[test]
fn string_serializes() {
    let input = Val::String { value: "Grant Loves Java!".parse().unwrap() };
    let output = encode_text(&input);
    assert_eq!(output, "{\"$type\":\"String\",\"_value\":\"Grant Loves Java!\"}");
}

#[test]
fn u8_deserializes() {
    let test = "{ \"$type\":\"ByteArray\", \"_value\": [1,2,3,4,255] }";
    match decode_text(test).unwrap() {
        Val::ByteArray { value } => {
            let res: &[u8] = &value;
            assert_eq!([1u8, 2u8, 3u8, 4u8, 255u8], res);
        }
        _ => panic!("test fail"),
    }
}

#[test]
fn u8_serializes() {
    let byte_array = Vec::from([1u8, 2u8, 3u8, 4u8, 255u8]);
    let input = Val::ByteArray { value: byte_array };
    let output = encode_text(&input);
    assert_eq!(output, "{\"$type\":\"ByteArray\",\"_value\":[1,2,3,4,255]}");
}

#[test]
fn map_deserializes() {
    let test = "{ \"$type\":\"Map\", \"_value\": {\"k\": { \"$type\":\"String\", \"_value\": \"bert\" } } }";
    match decode_text(test).unwrap() {
        Val::Dict { value } => match lookup(&value, "k").unwrap() {
            Val::String { value } => {
                assert_eq!("bert", value);
            }
            _ => panic!("test fail"),
        },
        _ => panic!("test fail"),
    }
}

#[test]
fn map_serializes() {
    let mut map: Vec<(String, Val)> = Vec::new();
    map.push(("k".to_string(), Val::String { value: "bert".to_string() }));
    let input = Val::Dict { value: map };
    let output = encode_text(&input);
    let test = "{\"$type\":\"Map\",\"_value\":{\"k\":{\"$type\":\"String\",\"_value\":\"bert\"}}}";
    assert_eq!(output, test);
}

#[test]
fn nest_map_deserializes() {
    let test = "{ \"$type\":\"Map\", \"_value\": {\"k\": { \"$type\":\"Map\", \"_value\":  {\"m\": { \"$type\":\"String\", \"_value\": \"bert\" } } } } }";
    match decode_text(test).unwrap() {
        Val::Dict { value } => match lookup(&value, "k").unwrap() {
            Val::Dict { value } => match lookup(value, "m").unwrap() {
                Val::String { value } => {
                    assert_eq!("bert", value);
                }
                _ => panic!("test fail"),
            },
            _ => panic!("test fail"),
        },
        _ => panic!("test fail"),
    }
}

#[test]
fn zdt_deserializes() {
    let test = "{ \"$type\":\"ZonedDateTime\", \"_value\": \"2012-01-01T12:00:00[+02:00]\" }";
    match decode_text(test).unwrap() {
        Val::ZonedDateTime { value } => {
            assert_eq!(12u32, value.datetime.time.hour as u32);
        }
        _ => panic!("test fail"),
    }
}

#[test]
fn zdt_serializes() {
    let zdt = graph_wire::temporal::parse_zdt("2012-01-01T12:00:00[+02:00]").unwrap();
    let input = Val::ZonedDateTime { value: zdt };
    let output = encode_text(&input);
    assert_eq!(output, "{\"$type\":\"ZonedDateTime\",\"_value\":\"2012-01-01T12:00:00[+02:00]\"}");
}

#[test]
fn dt_deserializes() {
    let test = "{ \"$type\":\"DateTime\", \"_value\": \"2012-01-01T12:00:00\" }";
    match decode_text(test).unwrap() {
        Val::DateTime { value } => {
            assert_eq!(12u32, value.time.hour as u32);
        }
        _ => panic!("test fail"),
    }
}

#[test]
fn list_deserializes() {
    let test = "{ \"$type\":\"List\", \"_value\": [{ \"$type\":\"Integer\", \"_value\": \"10\" }]}";
    match decode_text(test).unwrap() {
        Val::List { value } => match value.get(0).unwrap() {
            Val::Integer { value } => {
                assert_eq!(*value, 10);
            }
            _ => panic!("test fail"),
        },
        _ => panic!("test fail"),
    }
}

#[test]
fn nest_list_deserializes() {
    let test = "{ \"$type\":\"List\", \"_value\": [{ \"$type\":\"List\", \"_value\": [{\"$type\":\"Integer\", \"_value\": \"10\"}] }]}";
    match decode_text(test).unwrap() {
        Val::List { value } => {
            let outer = value.get(0).unwrap();
            match outer {
                Val::List { value } => {
                    let inner = value.get(0).unwrap();
                    match inner {
                        Val::Integer { value } => {
                            assert_eq!(*value, 10);
                        }
                        _ => panic!("test fail"),
                    }
                }
                _ => panic!("test fail"),
            }
        }
        _ => panic!("test fail"),
    }
}

#[test]
fn node_deserializes() {
    let test = "{
            \"$type\": \"Node\",
            \"_value\": {
                \"_element_id\": \"4:ca452f2f-1fbe-4d91-8b67-486b237e24c5:13\",
                \"_labels\": [\"Person\"],
                \"_properties\": {
                    \"name\": {
                        \"$type\": \"String\",
                        \"_value\": \"Richard\"
                    }
                }
            }
        }";
    match decode_text(test).unwrap() {
        Val::Node { value } => {
            assert_eq!("4:ca452f2f-1fbe-4d91-8b67-486b237e24c5:13", value.element_id);
            let labels: &[String] = &value.labels;
            assert_eq!(labels, &value.labels[..]);
            assert_eq!(1, value.properties.len());
            match lookup(&value.properties, "name").unwrap() {
                Val::String { value } => {
                    assert_eq!("Richard", value);
                }
                _ => panic!("test fail"),
            }
        }
        _ => panic!("test fail"),
    }
}

#[test]
fn rel_deserializes() {
    let test = "{
            \"$type\": \"Relationship\",
            \"_value\": {
                \"_element_id\": \"5:ca452f2f-1fbe-4d91-8b67-486b237e24c5:1152921504606846989\",
                \"_start_node_element_id\": \"4:ca452f2f-1fbe-4d91-8b67-486b237e24c5:13\",
                \"_end_node_element_id\": \"4:ca452f2f-1fbe-4d91-8b67-486b237e24c5:14\",
                \"_type\": \"RIDES\",
                \"_properties\": {
                    \"name\": {
                        \"$type\": \"String\",
                        \"_value\": \"Richard\"
                    }
                }
            }
        }";
    match decode_text(test).unwrap() {
        Val::Relationship { value } => {
            assert_eq!(
                "5:ca452f2f-1fbe-4d91-8b67-486b237e24c5:1152921504606846989",
                value.element_id
            );
            assert_eq!("4:ca452f2f-1fbe-4d91-8b67-486b237e24c5:13", value.start_node_element_id);
            assert_eq!("4:ca452f2f-1fbe-4d91-8b67-486b237e24c5:14", value.end_node_element_id);
            assert_eq!("RIDES", value.type_);
            assert_eq!(1, value.properties.len());
            match lookup(&value.properties, "name").unwrap() {
                Val::String { value } => {
                    assert_eq!("Richard", value);
                }
                _ => panic!("test fail"),
            }
        }
        _ => panic!("test fail"),
    }
}

#[test]
fn path_deserializes() {
    let test = "{
            \"$type\": \"Path\",
            \"_value\": [
                {
                    \"$type\": \"Node\",
                    \"_value\": {
                        \"_element_id\": \"4:ca452f2f-1fbe-4d91-8b67-486b237e24c5:13\",
                        \"_labels\": [\"Person\"],
                        \"_properties\": {}
                    }
                },
                {
                    \"$type\": \"Relationship\",
                    \"_value\": {
                        \"_element_id\": \"5:ca452f2f-1fbe-4d91-8b67-486b237e24c5:1152921504606846989\",
                        \"_start_node_element_id\": \"4:ca452f2f-1fbe-4d91-8b67-486b237e24c5:13\",
                        \"_end_node_element_id\": \"4:ca452f2f-1fbe-4d91-8b67-486b237e24c5:14\",
                        \"_type\": \"RIDES\",
                        \"_properties\": {}
                    }
                },
                {
                    \"$type\": \"Node\",
                    \"_value\": {
                        \"_element_id\": \"4:ca452f2f-1fbe-4d91-8b67-486b237e24c5:14\",
                        \"_labels\": [\"Bicycle\"],
                        \"_properties\": {}
                    }
                }
            ]
        }";
    match decode_text(test).unwrap() {
        Val::Path { value } => {
            assert_eq!(2, value.nodes.len());
            assert_eq!(1, value.relationships.len());
            assert_eq!(
                value.nodes.get(0).unwrap().element_id,
                "4:ca452f2f-1fbe-4d91-8b67-486b237e24c5:13"
            );
            assert_eq!(
                value.nodes.get(1).unwrap().element_id,
                "4:ca452f2f-1fbe-4d91-8b67-486b237e24c5:14"
            );
            assert_eq!(
                value.relationships.get(0).unwrap().element_id,
                "5:ca452f2f-1fbe-4d91-8b67-486b237e24c5:1152921504606846989"
            );
            assert_eq!(
                value.relationships.get(0).unwrap().start_node_element_id,
                "4:ca452f2f-1fbe-4d91-8b67-486b237e24c5:13"
            );
            assert_eq!(
                value.relationships.get(0).unwrap().end_node_element_id,
                "4:ca452f2f-1fbe-4d91-8b67-486b237e24c5:14"
            );
        }
        _ => panic!("test fail"),
    }
}

// ----- scalar and temporal round trips --------------------------------------

fn assert_round_trips(v: Val) -> Val {
    let w = encode(&v);
    match decode(&w) {
        Ok(back) => {
            assert_eq!(v, back);
            back
        }
        Err(e) => panic!("round trip failed: {:?}", e),
    }
}

#[test]
fn integer_extremes_round_trip() {
    assert_round_trips(Val::Integer { value: 9223372036854775807 });
    assert_round_trips(Val::Integer { value: -9223372036854775808 });
    assert_round_trips(Val::Integer { value: 0 });
    assert_round_trips(Val::Integer { value: -7 });
}

#[test]
fn scalar_round_trips() {
    assert_round_trips(Val::Boolean { value: true });
    assert_round_trips(Val::Float { value: "1.5e300".to_string() });
    assert_round_trips(Val::String { value: "".to_string() });
    assert_round_trips(Val::ByteArray { value: vec![0, 255, 128] });
}

#[test]
fn temporal_round_trips() {
    assert_round_trips(Val::Date { value: Date { year: 2024, month: 2, day: 29 } });
    assert_round_trips(Val::Time { value: Time { hour: 23, minute: 59, second: 59 } });
    assert_round_trips(Val::DateTime {
        value: DateTime {
            date: Date { year: 0, month: 1, day: 1 },
            time: Time { hour: 0, minute: 0, second: 0 },
        },
    });
    assert_round_trips(Val::ZonedDateTime {
        value: ZonedDateTime {
            datetime: DateTime {
                date: Date { year: 9999, month: 12, day: 31 },
                time: Time { hour: 12, minute: 30, second: 1 },
            },
            offset_minutes: -1439,
        },
    });
    assert_round_trips(Val::Duration { value: Duration { seconds: -9223372036854775808 } });
    assert_round_trips(Val::Duration { value: Duration { seconds: 0 } });
}

#[test]
fn temporal_canonical_texts() {
    assert_eq!(
        encode_text(&Val::Date { value: Date { year: 33, month: 2, day: 3 } }),
        "{\"$type\":\"Date\",\"_value\":\"0033-02-03\"}"
    );
    assert_eq!(
        encode_text(&Val::Time { value: Time { hour: 7, minute: 8, second: 9 } }),
        "{\"$type\":\"Time\",\"_value\":\"07:08:09\"}"
    );
    assert_eq!(
        encode_text(&Val::Duration { value: Duration { seconds: -90 } }),
        "{\"$type\":\"Duration\",\"_value\":\"-PT90S\"}"
    );
    assert_eq!(
        encode_text(&Val::Duration { value: Duration { seconds: 5 } }),
        "{\"$type\":\"Duration\",\"_value\":\"PT5S\"}"
    );
}

#[test]
fn duration_deserializes() {
    match decode_text("{ \"$type\":\"Duration\", \"_value\": \"PT90S\" }").unwrap() {
        Val::Duration { value } => assert_eq!(90, value.seconds),
        _ => panic!("test fail"),
    }
    match decode_text("{ \"$type\":\"Duration\", \"_value\": \"-PT007S\" }").unwrap() {
        Val::Duration { value } => assert_eq!(-7, value.seconds),
        _ => panic!("test fail"),
    }
}

// ----- duplicate keys: the last listed value wins ----------------------------

#[test]
fn map_duplicate_key_last_wins() {
    let payload = Wire::Obj(vec![
        ("k".to_string(), envelope("String", Wire::Str("first".to_string()))),
        ("k".to_string(), envelope("String", Wire::Str("second".to_string()))),
    ]);
    match decode(&envelope("Map", payload)).unwrap() {
        Val::Dict { value } => {
            assert_eq!(1, value.len());
            match lookup(&value, "k").unwrap() {
                Val::String { value } => assert_eq!("second", value),
                _ => panic!("test fail"),
            }
        }
        _ => panic!("test fail"),
    }
}

// ----- lists keep order through a round trip ---------------------------------

#[test]
fn list_round_trip_keeps_order() {
    let items: Vec<Val> = (0..5).map(|i| Val::Integer { value: i * 11 }).collect();
    match assert_round_trips(Val::List { value: items }) {
        Val::List { value } => {
            assert_eq!(5, value.len());
            for (i, v) in value.iter().enumerate() {
                match v {
                    Val::Integer { value } => assert_eq!(*value, i as i64 * 11),
                    _ => panic!("test fail"),
                }
            }
        }
        _ => panic!("test fail"),
    }
}

// ----- paths ----------------------------------------------------------------

fn node_envelope(id: &str) -> Wire {
    envelope(
        "Node",
        Wire::Obj(vec![
            ("_element_id".to_string(), Wire::Str(id.to_string())),
            ("_labels".to_string(), Wire::Arr(vec![])),
            ("_properties".to_string(), Wire::Obj(vec![])),
        ]),
    )
}

fn rel_envelope(id: &str) -> Wire {
    envelope(
        "Relationship",
        Wire::Obj(vec![
            ("_element_id".to_string(), Wire::Str(id.to_string())),
            ("_type".to_string(), Wire::Str("LINKS".to_string())),
            ("_start_node_element_id".to_string(), Wire::Str("s".to_string())),
            ("_end_node_element_id".to_string(), Wire::Str("e".to_string())),
            ("_properties".to_string(), Wire::Obj(vec![])),
        ]),
    )
}

#[test]
fn path_five_elements_splits_in_order() {
    let payload = Wire::Arr(vec![
        node_envelope("n1"),
        rel_envelope("r1"),
        node_envelope("n2"),
        rel_envelope("r2"),
        node_envelope("n3"),
    ]);
    match decode(&envelope("Path", payload)).unwrap() {
        Val::Path { value } => {
            assert_eq!(3, value.nodes.len());
            assert_eq!(2, value.relationships.len());
            assert_eq!("n1", value.nodes[0].element_id);
            assert_eq!("n2", value.nodes[1].element_id);
            assert_eq!("n3", value.nodes[2].element_id);
            assert_eq!("r1", value.relationships[0].element_id);
            assert_eq!("r2", value.relationships[1].element_id);
        }
        _ => panic!("test fail"),
    }
}

#[test]
fn path_rejects_string_element() {
    let payload = Wire::Arr(vec![
        node_envelope("n1"),
        envelope("String", Wire::Str("stray".to_string())),
    ]);
    let err = decode(&envelope("Path", payload)).unwrap_err();
    assert!(matches!(err, DecodeError::UnexpectedPathElement { .. }));
}

#[test]
fn path_round_trip() {
    let payload = Wire::Arr(vec![node_envelope("a"), rel_envelope("x"), node_envelope("b")]);
    let decoded = decode(&envelope("Path", payload)).unwrap();
    assert_round_trips(decoded);
}

#[test]
fn node_and_rel_round_trip() {
    let n = Val::Node {
        value: Node {
            labels: vec!["Person".to_string()],
            properties: vec![("name".to_string(), Val::String { value: "R".to_string() })],
            element_id: "id1".to_string(),
        },
    };
    assert_round_trips(n);
    let r = Val::Relationship {
        value: Relationship {
            type_: "RIDES".to_string(),
            properties: vec![],
            element_id: "id2".to_string(),
            start_node_element_id: "id1".to_string(),
            end_node_element_id: "id3".to_string(),
        },
    };
    assert_round_trips(r);
}

// ----- errors ----------------------------------------------------------------

#[test]
fn integer_rejects_bad_literal() {
    let err = decode_text("{ \"$type\":\"Integer\", \"_value\": \"not-a-number\" }").unwrap_err();
    assert!(matches!(err, DecodeError::InvalidIntegerLiteral { .. }));
    let err = decode_text("{ \"$type\":\"Integer\", \"_value\": \"9223372036854775808\" }")
        .unwrap_err();
    assert!(matches!(err, DecodeError::InvalidIntegerLiteral { .. }));
}

#[test]
fn unknown_discriminator_rejected() {
    let err = decode_text("{ \"$type\":\"Frobnicate\", \"_value\": 1 }").unwrap_err();
    match err {
        DecodeError::UnknownDiscriminator { tag } => assert_eq!("Frobnicate", tag),
        _ => panic!("test fail"),
    }
}

#[test]
fn float_rejects_bad_literal() {
    let err = decode_text("{ \"$type\":\"Float\", \"_value\": \"abc\" }").unwrap_err();
    assert!(matches!(err, DecodeError::InvalidFloatLiteral { .. }));
}

#[test]
fn byte_out_of_range_rejected() {
    let err = decode_text("{ \"$type\":\"ByteArray\", \"_value\": [1, 256] }").unwrap_err();
    match err {
        DecodeError::ByteOutOfRange { value } => assert_eq!(256, value),
        _ => panic!("test fail"),
    }
}

#[test]
fn temporal_rejects_bad_literals() {
    let err = decode_text("{ \"$type\":\"Date\", \"_value\": \"2023-02-29\" }").unwrap_err();
    assert!(matches!(err, DecodeError::InvalidTemporalLiteral { .. }));
    let err = decode_text("{ \"$type\":\"Time\", \"_value\": \"24:00:00\" }").unwrap_err();
    assert!(matches!(err, DecodeError::InvalidTemporalLiteral { .. }));
    let err = decode_text("{ \"$type\":\"ZonedDateTime\", \"_value\": \"2012-01-01T12:00:00\" }")
        .unwrap_err();
    assert!(matches!(err, DecodeError::InvalidTemporalLiteral { .. }));
}

#[test]
fn missing_field_rejected() {
    let w = Wire::Obj(vec![("$type".to_string(), Wire::Str("Boolean".to_string()))]);
    match decode(&w).unwrap_err() {
        DecodeError::MissingField { name } => assert_eq!("_value", name),
        _ => panic!("test fail"),
    }
    let w = Wire::Obj(vec![("_value".to_string(), Wire::Bool(true))]);
    match decode(&w).unwrap_err() {
        DecodeError::MissingField { name } => assert_eq!("$type", name),
        _ => panic!("test fail"),
    }
}

#[test]
fn deep_nesting_exceeds_depth() {
    let mut w = envelope("Boolean", Wire::Bool(true));
    for _ in 0..70 {
        w = envelope("List", Wire::Arr(vec![w]));
    }
    let err = decode(&w).unwrap_err();
    assert!(matches!(err, DecodeError::StructuralDepthExceeded));
}

// ----- nested structures round trip ------------------------------------------

#[test]
fn nested_map_in_map_in_list_round_trips() {
    let text = "{ \"$type\":\"List\", \"_value\": [ { \"$type\":\"Map\", \"_value\": {\"outer\": { \"$type\":\"Map\", \"_value\": {\"inner\": { \"$type\":\"Integer\", \"_value\": \"42\" } } } } } ] }";
    let first = decode_text(text).unwrap();
    let reencoded = encode(&first);
    let second = decode(&reencoded).unwrap();
    let first_again = decode_text(text).unwrap();
    assert_eq!(first_again, second);
}
