use openprotocol::controller_from_json;
use openprotocol::controller_to_json;
use openprotocol::parse_message;
use openprotocol::serialize_message;
use openprotocol::Controller;
use openprotocol::Decimal;
use openprotocol::Filter;
use openprotocol::GeoLocation;
use openprotocol::JobCard;
use openprotocol::JobMode;
use openprotocol::Message;
use openprotocol::MessageOptions;
use openprotocol::OpMode;
use openprotocol::Operator;
use openprotocol::Timestamp;

fn opts(sequence: u32) -> MessageOptions {
    MessageOptions { sequence }
}

fn round_trip(m: &Message) {
    let text = serialize_message(m).unwrap();
    let back = parse_message(&text).unwrap();
    assert_eq!(*m, back, "round trip failed for {}", text);
}

#[test]
fn alive_wire_text_is_exact() {
    let m = Message::Alive { options: opts(7) };
    let text = serialize_message(&m).unwrap();
    assert_eq!(r#"{"$type":"Alive","sequence":7}"#, text);
    round_trip(&m);
}

#[test]
fn join_response_wire_text_is_exact() {
    let m = Message::JoinResponse { result: 150, options: opts(2) };
    let text = serialize_message(&m).unwrap();
    assert_eq!(r#"{"$type":"JoinResponse","result":150,"sequence":2}"#, text);
    round_trip(&m);
}

#[test]
fn request_controllers_list_wire_text_is_exact() {
    let all = Message::RequestControllersList { controller_id: None, options: opts(3) };
    assert_eq!(
        r#"{"$type":"RequestControllersList","sequence":3}"#,
        serialize_message(&all).unwrap()
    );
    round_trip(&all);

    let one = Message::RequestControllersList { controller_id: Some(12), options: opts(4) };
    assert_eq!(
        r#"{"$type":"RequestControllersList","controllerId":12,"sequence":4}"#,
        serialize_message(&one).unwrap()
    );
    round_trip(&one);
}

#[test]
fn every_message_variant_round_trips() {
    let controller = Controller {
        display_name: Some("Press".to_string()),
        geo_location: Some(GeoLocation {
            geo_latitude: Decimal::from_text("22.28".to_string()).unwrap(),
            geo_longitude: Decimal::from_text("-114.16".to_string()).unwrap(),
        }),
        last_cycle_data: Some(vec![
            ("Z_QDGODCNT".to_string(), Decimal::from_text("8567".to_string()).unwrap()),
            ("Z_QDCYCTIM".to_string(), Decimal::from_text("979.283".to_string()).unwrap()),
        ]),
        variables: Some(vec![(
            "RESIN".to_string(),
            Decimal::from_text("123.456".to_string()).unwrap(),
        )]),
        last_connection_time: Some(Timestamp {
            year: 2016,
            month: 3,
            day: 6,
            hour: 23,
            minute: 11,
            second: 27,
            offset_negative: false,
            offset_hour: 8,
            offset_minute: 0,
        }),
        operator: Some(Operator { operator_id: 42, operator_name: None }),
        job_card_id: Some("JOB_CARD_1".to_string()),
        mold_id: Some("MOULD_003".to_string()),
        op_mode: OpMode::Automatic,
        job_mode: JobMode::ID02,
        ..Default::default()
    };
    controller.check().unwrap();

    let cases: Vec<Message> = vec![
        Message::Alive { options: opts(1) },
        Message::Join {
            version: "4.0".to_string(),
            password: "hello".to_string(),
            filter: vec![Filter::All, Filter::JobCards, Filter::Operators],
            options: opts(2),
        },
        Message::JoinResponse { result: 100, options: opts(3) },
        Message::RequestControllersList { controller_id: None, options: opts(4) },
        Message::ControllersList { data: vec![controller.clone()], options: opts(5) },
        Message::RequestJobCardsList { controller_id: 9, options: opts(6) },
        Message::JobCardsList {
            controller_id: 9,
            data: vec![
                JobCard::new("JOB_CARD_1", "ABC-123", 0, 8000),
                JobCard::new("JOB_CARD_2", "M002", 2000, 10000),
            ],
            options: opts(7),
        },
        Message::RequestMoldData { controller_id: 9, options: opts(8) },
        Message::ReadMoldData { controller_id: 9, field: None, options: opts(9) },
        Message::ReadMoldData {
            controller_id: 9,
            field: Some("RESIN".to_string()),
            options: opts(10),
        },
        Message::ControllerAction { controller_id: 9, action_id: 1001, options: opts(11) },
        Message::LoginOperator {
            controller_id: 9,
            password: "000000".to_string(),
            options: opts(12),
        },
        Message::OperatorInfo {
            controller_id: 9,
            operator_id: Some(1),
            name: "MISUser0".to_string(),
            password: "000000".to_string(),
            level: 0,
            options: opts(13),
        },
        Message::OperatorInfo {
            controller_id: 9,
            operator_id: None,
            name: "Not Allowed".to_string(),
            password: "xyz".to_string(),
            level: 0,
            options: opts(14),
        },
    ];
    for m in cases.iter() {
        round_trip(m);
    }
}

#[test]
fn strings_with_quotes_and_backslashes_round_trip() {
    let m = Message::LoginOperator {
        controller_id: 1,
        password: "pa\"ss\\word".to_string(),
        options: opts(1),
    };
    round_trip(&m);
}

#[test]
fn parse_rejects_malformed_and_unknown_shapes() {
    assert!(parse_message("").is_err());
    assert!(parse_message("not json at all").is_err());
    assert!(parse_message(r#"{"$type":"Nonsense","sequence":1}"#).is_err());
    // missing the sequence field
    assert!(parse_message(r#"{"$type":"Alive"}"#).is_err());
    // trailing garbage
    assert!(parse_message(r#"{"$type":"Alive","sequence":7}x"#).is_err());
    // zero controller ID violates the domain rules
    assert!(parse_message(r#"{"$type":"RequestJobCardsList","controllerId":0,"sequence":1}"#)
        .is_err());
    // an empty password violates the domain rules
    assert!(parse_message(r#"{"$type":"LoginOperator","controllerId":1,"password":"","sequence":1}"#)
        .is_err());
}

#[test]
fn serialize_refuses_invalid_messages() {
    let bad = Message::RequestJobCardsList { controller_id: 0, options: opts(1) };
    assert!(serialize_message(&bad).is_err());
}

#[test]
fn duplicate_list_keys_are_refused_on_both_sides() {
    // two job cards under the same ID cannot form a keyed wire object
    let bad = Message::JobCardsList {
        controller_id: 1,
        data: vec![JobCard::new("J1", "M1", 0, 10), JobCard::new("J1", "M2", 5, 10)],
        options: opts(1),
    };
    assert!(serialize_message(&bad).is_err());
    let wire = r#"{"$type":"JobCardsList","controllerId":1,"data":{"J1":{"jobCardId":"J1","moldId":"M1","progress":0,"total":10},"J1":{"jobCardId":"J1","moldId":"M2","progress":5,"total":10}},"sequence":1}"#;
    assert!(parse_message(wire).is_err());
}

#[test]
fn numbers_with_leading_zeros_are_rejected() {
    assert!(parse_message(r#"{"$type":"Alive","sequence":07}"#).is_err());
    assert!(parse_message(r#"{"$type":"Alive","sequence":0}"#).is_ok());
    assert!(parse_message(r#"{"$type":"JoinResponse","result":010,"sequence":1}"#).is_err());
}

#[test]
fn wire_sample_reserializes_to_itself() {
    let samples = [
        r#"{"$type":"Alive","sequence":7}"#,
        r#"{"$type":"JoinResponse","result":42,"sequence":1}"#,
        r#"{"$type":"LoginOperator","controllerId":3,"password":"000000","sequence":5}"#,
        r#"{"$type":"JobCardsList","controllerId":3,"data":{"J1":{"jobCardId":"J1","moldId":"M1","progress":5,"total":10}},"sequence":6}"#,
    ];
    for sample in samples {
        let m = parse_message(sample).unwrap();
        let text = serialize_message(&m).unwrap();
        assert_eq!(sample, text);
    }
}

#[test]
fn controller_with_geo_and_maps_serializes_exactly() {
    let c = Controller {
        geo_location: Some(GeoLocation {
            geo_latitude: Decimal::from_text("22.28".to_string()).unwrap(),
            geo_longitude: Decimal::from_text("-114.16".to_string()).unwrap(),
        }),
        last_cycle_data: Some(vec![(
            "Z_QDGODCNT".to_string(),
            Decimal::from_text("8567".to_string()).unwrap(),
        )]),
        ..Default::default()
    };
    let text = controller_to_json(&c).unwrap();
    assert_eq!(
        r#"{"controllerId":1,"controllerType":"Unknown","version":"Unknown","model":"Unknown","IP":"0.0.0.0:1","geoLatitude":22.28,"geoLongitude":-114.16,"opMode":"Unknown","jobMode":"Unknown","lastCycleData":{"Z_QDGODCNT":8567}}"#,
        text
    );
}

#[test]
fn controller_from_json_rejects_trailing_or_invalid_input() {
    let c: Controller = Default::default();
    let text = controller_to_json(&c).unwrap();
    assert!(controller_from_json(&text).is_ok());
    let mut trailing = text.clone();
    trailing.push(' ');
    assert!(controller_from_json(&trailing).is_err());
    assert!(controller_from_json("").is_err());
    // structurally fine, but the controller ID is zero
    let zero = text.replace("\"controllerId\":1", "\"controllerId\":2")
        .replace("\"IP\":\"0.0.0.0:1\"", "\"IP\":\"0.0.0.0:0\"");
    assert!(controller_from_json(&zero).is_err());
}

#[test]
fn decimal_accepts_numerals_and_rejects_non_finite_text() {
    assert!(Decimal::from_text("0".to_string()).is_ok());
    assert!(Decimal::from_text("-12.5".to_string()).is_ok());
    assert!(Decimal::from_text("NaN".to_string()).is_err());
    assert!(Decimal::from_text("inf".to_string()).is_err());
    assert!(Decimal::from_text("1.".to_string()).is_err());
    assert!(Decimal::from_text("".to_string()).is_err());
}

#[test]
fn timestamp_validity_follows_the_calendar() {
    let mut t = Timestamp {
        year: 2016,
        month: 2,
        day: 29,
        hour: 0,
        minute: 0,
        second: 0,
        offset_negative: false,
        offset_hour: 8,
        offset_minute: 0,
    };
    assert!(t.valid());
    t.year = 2015;
    assert!(!t.valid());
    t.year = 2000;
    assert!(t.valid());
    t.year = 1900;
    assert!(!t.valid());
}
