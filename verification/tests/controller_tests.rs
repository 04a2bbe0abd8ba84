use openprotocol::controller_from_json;
use openprotocol::Decimal;
use openprotocol::OpenProtocolError;
use openprotocol::controller_to_json;
use openprotocol::Controller;
use openprotocol::JobMode;
use openprotocol::OpMode;
use openprotocol::Operator;

#[test]
fn test_controller_serialize() {
    let c = Controller {
        op_mode: OpMode::Automatic,
        job_mode: JobMode::ID02,
        operator: Some(Operator { operator_id: 123, operator_name: Some("John".to_string()) }),
        ..Default::default()
    };
    c.check().unwrap();
    let serialized = controller_to_json(&c).unwrap();
    assert_eq!(
        r#"{"controllerId":1,"controllerType":"Unknown","version":"Unknown","model":"Unknown","IP":"0.0.0.0:1","opMode":"Automatic","jobMode":"ID02","operatorId":123,"operatorName":"John"}"#,
        serialized
    );
}

#[test]
fn test_controller_deserialize() {
    let c: Controller = controller_from_json(r#"{"controllerId":1,"controllerType":"Unknown","version":"Unknown","model":"Unknown","IP":"127.0.0.1:123","opMode":"Automatic","jobMode":"ID02","operatorId":123,"operatorName":"John"}"#).unwrap();
    c.check().unwrap();

    assert_eq!(
        r#"Controller { controller_id: 1, display_name: None, controller_type: "Unknown", version: "Unknown", model: "Unknown", address: "127.0.0.1:123", geo_location: None, op_mode: Automatic, job_mode: ID02, last_cycle_data: None, variables: None, last_connection_time: None, operator: Some(Operator { operator_id: 123, operator_name: Some("John") }), job_card_id: None, mold_id: None }"#,
        format!("{:?}", &c)
    );
}

#[test]
fn test_controller_check() {
    let c: Controller = Default::default();
    c.check().unwrap();
}

#[test]
fn test_controller_check_operator() {
    let c = Controller {
        operator: Some(Operator { operator_id: 123, operator_name: Some("John".to_string()) }),
        ..Default::default()
    };
    c.check().unwrap();
}

#[test]
fn test_controller_check_ip() {
    let mut c: Controller = Default::default();

    // 1.02.003.004:05
    c.address = "1.02.003.004:05".to_string();
    c.check().unwrap();
    assert_eq!("1.02.003.004:05", c.address);

    // COM123
    c.address = "COM123".to_string();
    c.check().unwrap();
    assert_eq!("COM123", c.address);

    // ttyABC
    c.address = "ttyABC".to_string();
    c.check().unwrap();
    assert_eq!("ttyABC", c.address);
}

#[test]
fn controller_round_trips_through_json() {
    let c = Controller {
        display_name: Some("Machine 7".to_string()),
        op_mode: OpMode::SemiAutomatic,
        job_mode: JobMode::ID05,
        job_card_id: Some("JOB-1".to_string()),
        mold_id: Some("MOLD-9".to_string()),
        ..Default::default()
    };
    let text = controller_to_json(&c).unwrap();
    let back = controller_from_json(&text).unwrap();
    assert_eq!(c, back);
}

#[test]
fn controller_check_rejects_bad_addresses() {
    let mut c: Controller = Default::default();
    for bad in ["1.2.3.4", "1.2.3.4:0", "COM", "", "999.2.3.4:5", "1.2.3.4:70000"] {
        c.address = bad.to_string();
        assert!(c.check().is_err(), "accepted {:?}", bad);
    }
}

#[test]
fn controller_check_names_the_violated_field() {
    let mut c: Controller = Default::default();
    c.model = String::new();
    match c.check() {
        Err(OpenProtocolError::InvalidField { field, .. }) => assert_eq!(field, "model"),
        other => panic!("unexpected: {:?}", other),
    }
    let mut c2: Controller = Default::default();
    c2.version = String::new();
    match c2.check() {
        Err(OpenProtocolError::InvalidField { field, .. }) => assert_eq!(field, "version"),
        other => panic!("unexpected: {:?}", other),
    }
}

#[test]
fn controller_check_rejects_duplicate_map_keys() {
    let mut c: Controller = Default::default();
    c.last_cycle_data = Some(vec![
        ("A".to_string(), Decimal::from_text("1".to_string()).unwrap()),
        ("A".to_string(), Decimal::from_text("2".to_string()).unwrap()),
    ]);
    assert!(c.check().is_err());
    c.last_cycle_data = Some(vec![
        ("A".to_string(), Decimal::from_text("1".to_string()).unwrap()),
        ("B".to_string(), Decimal::from_text("2".to_string()).unwrap()),
    ]);
    assert!(c.check().is_ok());
}

#[test]
fn controller_check_rejects_zero_id_and_empty_strings() {
    let mut c: Controller = Default::default();
    c.controller_id = 0;
    assert!(c.check().is_err());

    let mut c2: Controller = Default::default();
    c2.model = String::new();
    assert!(c2.check().is_err());

    let mut c3: Controller = Default::default();
    c3.job_card_id = Some(String::new());
    assert!(c3.check().is_err());
}
