use openprotocol::Filter;
use openprotocol::JobCard;
use openprotocol::Message;
use openprotocol::MessageOptions;
use openprotocol::MisUser;
use openprotocol::Session;
use openprotocol::SessionState;

fn opts(sequence: u32) -> MessageOptions {
    MessageOptions { sequence }
}

fn users() -> Vec<MisUser> {
    vec![
        MisUser { password: "000000".to_string(), level: 0, name: "MISUser0".to_string() },
        MisUser { password: "111111".to_string(), level: 1, name: "MISUser1".to_string() },
    ]
}

fn jobs() -> Vec<JobCard> {
    vec![
        JobCard::new("JOB_CARD_1", "ABC-123", 0, 8000),
        JobCard::new("JOB_CARD_2", "M002", 2000, 10000),
    ]
}

fn joined_session() -> Session {
    let mut s = Session::new();
    let join = s.start_join("4.0", "hello", vec![Filter::All, Filter::JobCards, Filter::Operators]);
    assert!(matches!(join, Message::Join { .. }));
    assert_eq!(s.state, SessionState::Joining);
    s
}

#[test]
fn successful_join_response_activates_and_requests_controllers() {
    let mut s = joined_session();
    let inbound = Message::JoinResponse { result: 150, options: opts(1) };
    let reply = s.react(&inbound, &users(), &jobs());
    assert_eq!(s.state, SessionState::Active);
    match reply {
        Some(Message::RequestControllersList { controller_id, .. }) => {
            assert_eq!(controller_id, None);
        },
        other => panic!("unexpected reply: {:?}", other),
    }
}

#[test]
fn failed_join_response_closes_without_reply() {
    let mut s = joined_session();
    let inbound = Message::JoinResponse { result: 42, options: opts(1) };
    let reply = s.react(&inbound, &users(), &jobs());
    assert_eq!(s.state, SessionState::Closing);
    assert!(reply.is_none());
}

#[test]
fn alive_is_echoed_with_a_fresh_sequence() {
    let mut s = joined_session();
    let activate = Message::JoinResponse { result: 100, options: opts(1) };
    s.react(&activate, &users(), &jobs());
    let expected_seq = s.next_sequence;

    let inbound = Message::Alive { options: opts(7) };
    let reply = s.react(&inbound, &users(), &jobs());
    match reply {
        Some(Message::Alive { options }) => {
            // a fresh sequence assigned by this side, not the inbound one
            assert_eq!(options.sequence, expected_seq);
            assert_eq!(s.next_sequence, expected_seq + 1);
        },
        other => panic!("unexpected reply: {:?}", other),
    }
    assert_eq!(s.state, SessionState::Active);
}

#[test]
fn login_with_known_password_reports_its_level_and_name() {
    let mut s = joined_session();
    let inbound = Message::LoginOperator {
        controller_id: 3,
        password: "000000".to_string(),
        options: opts(9),
    };
    let reply = s.react(&inbound, &users(), &jobs());
    match reply {
        Some(Message::OperatorInfo { controller_id, operator_id, name, password, level, .. }) => {
            assert_eq!(controller_id, 3);
            assert_eq!(operator_id, Some(1));
            assert_eq!(name, "MISUser0");
            assert_eq!(password, "000000");
            assert_eq!(level, 0);
        },
        other => panic!("unexpected reply: {:?}", other),
    }
}

#[test]
fn login_with_unknown_password_is_answered_not_errored() {
    let mut s = joined_session();
    let inbound = Message::LoginOperator {
        controller_id: 3,
        password: "zzzzzz".to_string(),
        options: opts(9),
    };
    let reply = s.react(&inbound, &users(), &jobs());
    match reply {
        Some(Message::OperatorInfo { operator_id, name, level, .. }) => {
            assert_eq!(operator_id, None);
            assert_eq!(name, "Not Allowed");
            assert_eq!(level, 0);
        },
        other => panic!("unexpected reply: {:?}", other),
    }
}

#[test]
fn job_cards_request_is_answered_from_the_directory() {
    let mut s = joined_session();
    let inbound = Message::RequestJobCardsList { controller_id: 3, options: opts(9) };
    let reply = s.react(&inbound, &users(), &jobs());
    match reply {
        Some(Message::JobCardsList { controller_id, data, .. }) => {
            assert_eq!(controller_id, 3);
            assert_eq!(data, jobs());
        },
        other => panic!("unexpected reply: {:?}", other),
    }
}

#[test]
fn other_recognized_messages_draw_no_automatic_reply() {
    let mut s = joined_session();
    let activate = Message::JoinResponse { result: 100, options: opts(1) };
    s.react(&activate, &users(), &jobs());
    let inbound = Message::ControllersList { data: vec![], options: opts(2) };
    assert!(s.react(&inbound, &users(), &jobs()).is_none());
    assert_eq!(s.state, SessionState::Active);
}

#[test]
fn closing_sessions_process_nothing_further() {
    let mut s = joined_session();
    s.stop();
    assert_eq!(s.state, SessionState::Closing);
    let inbound = Message::Alive { options: opts(1) };
    assert!(s.react(&inbound, &users(), &jobs()).is_none());
    assert_eq!(s.state, SessionState::Closing);

    s.on_close();
    assert_eq!(s.state, SessionState::Closed);
    s.on_close();
    assert_eq!(s.state, SessionState::Closed);
}
