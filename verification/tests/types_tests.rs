use openprotocol::Language;
use openprotocol::JobMode;
use openprotocol::OpMode;
use openprotocol::ID;

#[test]
fn id_cannot_be_built_from_zero() {
    assert!(ID::try_new(0).is_none());
    let id = ID::try_new(7).unwrap();
    assert_eq!(id.get(), 7);
}

#[test]
fn id_equals_and_orders_as_its_number() {
    let a = ID::new(3);
    let b = ID::new(10);
    assert!(a.eq_num(3));
    assert!(!a.eq_num(4));
    assert!(a.lt_num(4));
    assert!(!b.lt_num(10));
    assert!(a < b);
    assert!(a == ID::new(3));
    assert!(a != b);
}

#[test]
fn op_mode_predicates() {
    // Producing exactly in SemiAutomatic and Automatic.
    assert!(OpMode::SemiAutomatic.is_producing());
    assert!(OpMode::Automatic.is_producing());
    assert!(!OpMode::Unknown.is_producing());
    assert!(!OpMode::Manual.is_producing());
    assert!(!OpMode::Others.is_producing());
    assert!(!OpMode::Offline.is_producing());

    // Online exactly outside Unknown and Offline.
    assert!(!OpMode::Unknown.is_online());
    assert!(!OpMode::Offline.is_online());
    assert!(OpMode::Manual.is_online());
    assert!(OpMode::SemiAutomatic.is_online());
    assert!(OpMode::Automatic.is_online());
    assert!(OpMode::Others.is_online());

    assert!(OpMode::Unknown.is_unknown());
    assert!(OpMode::Offline.is_offline());
    assert_eq!(OpMode::default(), OpMode::Unknown);
}

#[test]
fn job_mode_predicates() {
    assert!(JobMode::Unknown.is_unknown());
    assert!(JobMode::Offline.is_offline());
    assert!(!JobMode::Unknown.is_online());
    assert!(!JobMode::Offline.is_online());
    assert!(JobMode::ID01.is_online());
    assert!(JobMode::ID15.is_online());
    assert_eq!(JobMode::default(), JobMode::Unknown);
}

#[test]
fn language_predicates() {
    assert!(Language::Unknown.is_unknown());
    assert!(!Language::EN.is_unknown());
    assert_eq!(Language::default(), Language::Unknown);
}
