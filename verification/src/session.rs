//! The client-side session protocol state machine: the JOIN handshake, the
//! ALIVE keep-alive echo, and request/response dispatch.  The machine
//! consumes one decoded inbound message at a time and decides zero or one
//! outbound message; it never crashes or hangs on malformed input, because
//! only decoded, validated messages reach it.

use vstd::prelude::*;

use crate::jobcard::JobCard;
use crate::messages::Filter;
use crate::messages::Message;
use crate::messages::MessageOptions;
use crate::messages::MessageView;

verus! {

use vstd::string::StringExecFns;

/// The lifecycle of one connection.  `Joining` is entered the instant a
/// JOIN message is sent; a successful JOIN response folds directly into
/// `Active`.
#[derive(Clone, Copy, Debug, PartialEq, Eq, Structural)]
pub enum SessionState {
    Disconnected,
    Joining,
    Active,
    Closing,
    Closed,
}

/// One user of the operator directory: a credential, an access level and a
/// display name.
#[derive(Clone, Debug, PartialEq)]
pub struct MisUser {
    pub password: String,
    pub level: u8,
    pub name: String,
}

/// The first user whose credential equals `p`, if any.
pub open spec fn first_match(users: Seq<MisUser>, p: Seq<char>) -> Option<MisUser>
    decreases users.len(),
{
    if users.len() == 0 {
        None
    } else if users[0].password@ == p {
        Some(users[0])
    } else {
        first_match(users.drop_first(), p)
    }
}

/// The sequence counter after one number is taken: it advances by one and
/// wraps back to 1 rather than reaching zero.
pub open spec fn spec_next_seq(n: u32) -> u32 {
    if n == u32::MAX {
        1
    } else {
        (n + 1) as u32
    }
}

/// The state a session moves to on an inbound message, as the transition
/// table of the protocol gives it.
pub open spec fn spec_transition(st: SessionState, inbound: MessageView) -> SessionState {
    if st is Closing || st is Closed {
        st
    } else {
        match inbound {
            MessageView::JoinResponse { result, .. } => if st is Joining {
                if result >= 100 {
                    SessionState::Active
                } else {
                    SessionState::Closing
                }
            } else {
                st
            },
            _ => st,
        }
    }
}

/// Whether an inbound message draws a reply in the given state.
pub open spec fn spec_replies(st: SessionState, inbound: MessageView) -> bool {
    if st is Closing || st is Closed {
        false
    } else {
        match inbound {
            MessageView::Alive { .. } => st is Active,
            MessageView::JoinResponse { result, .. } => st is Joining && result >= 100,
            MessageView::LoginOperator { .. } => true,
            MessageView::RequestJobCardsList { .. } => true,
            _ => false,
        }
    }
}

/// The reply drawn by an inbound message, given the directories and the
/// sequence number the reply will carry.
pub open spec fn spec_reply(
    inbound: MessageView,
    users: Seq<MisUser>,
    jobs: Seq<JobCard>,
    sequence: u32,
) -> MessageView {
    let options = MessageOptions { sequence };
    match inbound {
        MessageView::Alive { .. } => MessageView::Alive { options },
        MessageView::JoinResponse { .. } => MessageView::RequestControllersList {
            controller_id: None,
            options,
        },
        MessageView::LoginOperator { controller_id, password, .. } => {
            match first_match(users, password) {
                Some(u) => MessageView::OperatorInfo {
                    controller_id,
                    operator_id: Some((u.level as u32 + 1) as u32),
                    name: u.name@,
                    password,
                    level: u.level,
                    options,
                },
                None => MessageView::OperatorInfo {
                    controller_id,
                    operator_id: None,
                    name: "Not Allowed"@,
                    password,
                    level: 0,
                    options,
                },
            }
        },
        MessageView::RequestJobCardsList { controller_id, .. } => MessageView::JobCardsList {
            controller_id,
            data: jobs.map_values(|j: JobCard| j@),
            options,
        },
        _ => MessageView::Alive { options },
    }
}

/// One client session: the connection state and the counter that assigns
/// sequence numbers to outbound messages.
pub struct Session {
    pub state: SessionState,
    pub next_sequence: u32,
}

impl Session {
    /// Well-formed session: the sequence counter never reaches zero.
    pub open spec fn wf(self) -> bool {
        self.next_sequence != 0
    }

    /// A fresh session: not yet connected, sequence numbers start at 1.
    pub fn new() -> (r: Session)
        ensures
            r.state is Disconnected,
            r.next_sequence == 1,
            r.wf(),
    {
        Session { state: SessionState::Disconnected, next_sequence: 1 }
    }

    /// Takes the next outbound sequence number.
    fn take_sequence(&mut self) -> (r: u32)
        requires
            old(self).wf(),
        ensures
            r == old(self).next_sequence,
            final(self).next_sequence == spec_next_seq(old(self).next_sequence),
            final(self).state == old(self).state,
            final(self).wf(),
    {
        let r = self.next_sequence;
        if self.next_sequence == u32::MAX {
            self.next_sequence = 1;
        } else {
            self.next_sequence = self.next_sequence + 1;
        }
        r
    }

    /// Sends the JOIN handshake: builds the message and enters `Joining`
    /// the instant it is handed out.
    pub fn start_join(&mut self, version: &str, password: &str, filter: Vec<Filter>) -> (r:
        Message)
        requires
            old(self).wf(),
            old(self).state is Disconnected,
        ensures
            final(self).state is Joining,
            final(self).next_sequence == spec_next_seq(old(self).next_sequence),
            final(self).wf(),
            r@ == (MessageView::Join {
                version: version@,
                password: password@,
                filter: filter@,
                options: MessageOptions { sequence: old(self).next_sequence },
            }),
    {
        let sequence = self.take_sequence();
        self.state = SessionState::Joining;
        Message::Join {
            version: String::from_str(version),
            password: String::from_str(password),
            filter,
            options: MessageOptions { sequence },
        }
    }

    /// Reacts to one decoded inbound message: moves the state as the
    /// transition table says and hands back the zero-or-one outbound reply.
    /// A credential miss is answered, never an error, so the session stays
    /// alive regardless of the outcome.
    pub fn react(&mut self, inbound: &Message, users: &Vec<MisUser>, jobs: &Vec<JobCard>) -> (r:
        Option<Message>)
        requires
            old(self).wf(),
        ensures
            final(self).wf(),
            final(self).state == spec_transition(old(self).state, inbound@),
            r is Some <==> spec_replies(old(self).state, inbound@),
            r matches Some(m) ==> m@ == spec_reply(
                inbound@,
                users@,
                jobs@,
                old(self).next_sequence,
            ),
            r is Some ==> final(self).next_sequence == spec_next_seq(old(self).next_sequence),
            r is None ==> final(self).next_sequence == old(self).next_sequence,
    {
        if matches!(self.state, SessionState::Closing) || matches!(
            self.state,
            SessionState::Closed,
        ) {
            return None;
        }
        match inbound {
            Message::Alive { .. } => {
                if matches!(self.state, SessionState::Active) {
                    let sequence = self.take_sequence();
                    Some(Message::Alive { options: MessageOptions { sequence } })
                } else {
                    None
                }
            },
            Message::JoinResponse { result, .. } => {
                if matches!(self.state, SessionState::Joining) {
                    if *result >= 100 {
                        self.state = SessionState::Active;
                        let sequence = self.take_sequence();
                        Some(
                            Message::RequestControllersList {
                                controller_id: None,
                                options: MessageOptions { sequence },
                            },
                        )
                    } else {
                        self.state = SessionState::Closing;
                        None
                    }
                } else {
                    None
                }
            },
            Message::LoginOperator { controller_id, password, .. } => {
                let sequence = self.take_sequence();
                let found = find_user(users, password.as_str());
                match found {
                    Some(k) => {
                        let u = &users[k];
                        proof {
                            lemma_first_match_found(users@, password@, k as int);
                        }
                        Some(
                            Message::OperatorInfo {
                                controller_id: *controller_id,
                                operator_id: Some(u.level as u32 + 1),
                                name: u.name.clone(),
                                password: password.clone(),
                                level: u.level,
                                options: MessageOptions { sequence },
                            },
                        )
                    },
                    None => {
                        proof {
                            lemma_first_match_missing(users@, password@);
                        }
                        Some(
                        Message::OperatorInfo {
                            controller_id: *controller_id,
                            operator_id: None,
                            name: String::from_str("Not Allowed"),
                            password: password.clone(),
                            level: 0,
                            options: MessageOptions { sequence },
                        },
                    )
                    },
                }
            },
            Message::RequestJobCardsList { controller_id, .. } => {
                let sequence = self.take_sequence();
                let mut data: Vec<JobCard> = Vec::new();
                let mut k: usize = 0;
                while k < jobs.len()
                    invariant
                        0 <= k <= jobs@.len(),
                        data@ =~= jobs@.subrange(0, k as int),
                    decreases jobs@.len() - k,
                {
                    let j = &jobs[k];
                    data.push(
                        JobCard {
                            job_card_id: j.job_card_id.clone(),
                            mold_id: j.mold_id.clone(),
                            progress: j.progress,
                            total: j.total,
                        },
                    );
                    proof {
                        assert(jobs@[k as int] == (JobCard {
                            job_card_id: jobs@[k as int].job_card_id,
                            mold_id: jobs@[k as int].mold_id,
                            progress: jobs@[k as int].progress,
                            total: jobs@[k as int].total,
                        }));
                        assert(data@ =~= jobs@.subrange(0, k as int + 1));
                    }
                    k = k + 1;
                }
                proof {
                    assert(data@ =~= jobs@);
                }
                Some(
                    Message::JobCardsList {
                        controller_id: *controller_id,
                        data,
                        options: MessageOptions { sequence },
                    },
                )
            },
            _ => None,
        }
    }

    /// The external stop signal: the session is closing; the caller emits
    /// the transport-level close.
    pub fn stop(&mut self)
        requires
            old(self).wf(),
        ensures
            final(self).state is Closing,
            final(self).next_sequence == old(self).next_sequence,
            final(self).wf(),
    {
        self.state = SessionState::Closing;
    }

    /// An inbound transport close, honored immediately and idempotently.
    pub fn on_close(&mut self)
        requires
            old(self).wf(),
        ensures
            final(self).state is Closed,
            final(self).next_sequence == old(self).next_sequence,
            final(self).wf(),
    {
        self.state = SessionState::Closed;
    }
}

/// The index of the first user whose credential equals `p`, if any.
fn find_user(users: &Vec<MisUser>, p: &str) -> (r: Option<usize>)
    ensures
        match r {
            Some(k) => k < users@.len() && users@[k as int].password@ == p@ && forall|m: int|
                0 <= m < k ==> users@[m].password@ != p@,
            None => forall|m: int| 0 <= m < users@.len() ==> users@[m].password@ != p@,
        },
{
    let mut k: usize = 0;
    while k < users.len()
        invariant
            0 <= k <= users@.len(),
            forall|m: int| 0 <= m < k ==> users@[m].password@ != p@,
        decreases users@.len() - k,
    {
        if crate::lex::str_eq(users[k].password.as_str(), p) {
            return Some(k);
        }
        k = k + 1;
    }
    None
}

/// A hit at index `k`, with misses before it, is the first match.
proof fn lemma_first_match_found(users: Seq<MisUser>, p: Seq<char>, k: int)
    requires
        0 <= k < users.len(),
        users[k].password@ == p,
        forall|m: int| 0 <= m < k ==> users[m].password@ != p,
    ensures
        first_match(users, p) == Some(users[k]),
    decreases k,
{
    if k > 0 {
        lemma_first_match_found(users.drop_first(), p, k - 1);
        assert(users.drop_first()[k - 1] == users[k]);
        assert forall|m: int| 0 <= m < k - 1 implies users.drop_first()[m].password@ != p by {
            assert(users.drop_first()[m] == users[m + 1]);
        }
    }
}

/// No hit anywhere means no first match.
proof fn lemma_first_match_missing(users: Seq<MisUser>, p: Seq<char>)
    requires
        forall|m: int| 0 <= m < users.len() ==> users[m].password@ != p,
    ensures
        first_match(users, p) is None,
    decreases users.len(),
{
    if users.len() > 0 {
        assert forall|m: int|
            0 <= m < users.drop_first().len() implies users.drop_first()[m].password@ != p by {
            assert(users.drop_first()[m] == users[m + 1]);
        }
        lemma_first_match_missing(users.drop_first(), p);
    }
}

} // verus!
