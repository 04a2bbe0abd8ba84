//! The closed, tagged-union message model of the protocol, its
//! mathematical view, and the well-formedness predicate that the codec
//! enforces on both directions.

use vstd::prelude::*;

use crate::controller::controller_wf;
use crate::controller::Controller;
use crate::controller::ControllerView;
use crate::jobcard::jobcard_wf;
use crate::jobcard::JobCard;
use crate::jobcard::JobCardView;

verus! {

/// The shared options envelope of every message: a client-assigned
/// sequence number, preserved opaquely and used by callers to correlate
/// requests and responses.
#[derive(Clone, Copy, Debug, PartialEq, Eq, Structural)]
pub struct MessageOptions {
    pub sequence: u32,
}

impl MessageOptions {
    /// An envelope carrying the given sequence number.
    pub fn with_sequence(sequence: u32) -> (r: MessageOptions)
        ensures
            r.sequence == sequence,
    {
        MessageOptions { sequence }
    }
}

/// A category of status updates that a client subscribes to at JOIN time.
#[derive(Clone, Copy, Debug, PartialEq, Eq, Structural)]
pub enum Filter {
    /// All generic status updates.
    All,
    /// Job-card related updates.
    JobCards,
    /// Operator related updates.
    Operators,
}

/// Every message of the protocol.  The suffix of each variant name is also
/// its wire tag.
#[derive(Clone, Debug, PartialEq)]
pub enum Message {
    /// Keep-alive echo.
    Alive { options: MessageOptions },
    /// Outbound only: the JOIN handshake, carrying the client's protocol
    /// version, the password and the requested filter set.
    Join { version: String, password: String, filter: Vec<Filter>, options: MessageOptions },
    /// Inbound only: result of the JOIN; values under 100 are failures.
    JoinResponse { result: u32, options: MessageOptions },
    /// Ask for the list of known controllers; no ID means all of them.
    RequestControllersList { controller_id: Option<u32>, options: MessageOptions },
    /// The list of known controllers, keyed by controller ID.
    ControllersList { data: Vec<Controller>, options: MessageOptions },
    /// Ask for the job cards available on one controller.
    RequestJobCardsList { controller_id: u32, options: MessageOptions },
    /// The job cards of one controller, keyed by job-card ID.
    JobCardsList { controller_id: u32, data: Vec<JobCard>, options: MessageOptions },
    /// Ask for the mold data set of one controller.
    RequestMoldData { controller_id: u32, options: MessageOptions },
    /// Read one field of the current mold data, or all fields when no
    /// field is named.
    ReadMoldData { controller_id: u32, field: Option<String>, options: MessageOptions },
    /// A remote action on one controller.
    ControllerAction { controller_id: u32, action_id: u32, options: MessageOptions },
    /// Inbound only: an operator tries to log in with a password.
    LoginOperator { controller_id: u32, password: String, options: MessageOptions },
    /// Outbound only: the verdict on an operator login.
    OperatorInfo {
        controller_id: u32,
        operator_id: Option<u32>,
        name: String,
        password: String,
        level: u8,
        options: MessageOptions,
    },
}

/// Mathematical model of a `Message`.
pub enum MessageView {
    Alive { options: MessageOptions },
    Join {
        version: Seq<char>,
        password: Seq<char>,
        filter: Seq<Filter>,
        options: MessageOptions,
    },
    JoinResponse { result: u32, options: MessageOptions },
    RequestControllersList { controller_id: Option<u32>, options: MessageOptions },
    ControllersList { data: Seq<ControllerView>, options: MessageOptions },
    RequestJobCardsList { controller_id: u32, options: MessageOptions },
    JobCardsList { controller_id: u32, data: Seq<JobCardView>, options: MessageOptions },
    RequestMoldData { controller_id: u32, options: MessageOptions },
    ReadMoldData { controller_id: u32, field: Option<Seq<char>>, options: MessageOptions },
    ControllerAction { controller_id: u32, action_id: u32, options: MessageOptions },
    LoginOperator { controller_id: u32, password: Seq<char>, options: MessageOptions },
    OperatorInfo {
        controller_id: u32,
        operator_id: Option<u32>,
        name: Seq<char>,
        password: Seq<char>,
        level: u8,
        options: MessageOptions,
    },
}

impl View for Message {
    type V = MessageView;

    open spec fn view(&self) -> MessageView {
        match self {
            Message::Alive { options } => MessageView::Alive { options: *options },
            Message::Join { version, password, filter, options } => MessageView::Join {
                version: version@,
                password: password@,
                filter: filter@,
                options: *options,
            },
            Message::JoinResponse { result, options } => MessageView::JoinResponse {
                result: *result,
                options: *options,
            },
            Message::RequestControllersList { controller_id, options } => {
                MessageView::RequestControllersList {
                    controller_id: *controller_id,
                    options: *options,
                }
            },
            Message::ControllersList { data, options } => MessageView::ControllersList {
                data: data@.map_values(|c: Controller| c@),
                options: *options,
            },
            Message::RequestJobCardsList { controller_id, options } => {
                MessageView::RequestJobCardsList {
                    controller_id: *controller_id,
                    options: *options,
                }
            },
            Message::JobCardsList { controller_id, data, options } => MessageView::JobCardsList {
                controller_id: *controller_id,
                data: data@.map_values(|j: JobCard| j@),
                options: *options,
            },
            Message::RequestMoldData { controller_id, options } => MessageView::RequestMoldData {
                controller_id: *controller_id,
                options: *options,
            },
            Message::ReadMoldData { controller_id, field, options } => MessageView::ReadMoldData {
                controller_id: *controller_id,
                field: match field {
                    Some(f) => Some(f@),
                    None => None,
                },
                options: *options,
            },
            Message::ControllerAction { controller_id, action_id, options } => {
                MessageView::ControllerAction {
                    controller_id: *controller_id,
                    action_id: *action_id,
                    options: *options,
                }
            },
            Message::LoginOperator { controller_id, password, options } => {
                MessageView::LoginOperator {
                    controller_id: *controller_id,
                    password: password@,
                    options: *options,
                }
            },
            Message::OperatorInfo { controller_id, operator_id, name, password, level, options } => {
                MessageView::OperatorInfo {
                    controller_id: *controller_id,
                    operator_id: *operator_id,
                    name: name@,
                    password: password@,
                    level: *level,
                    options: *options,
                }
            },
        }
    }
}

/// Distinct controller IDs, as the wire object keyed by ID demands.
pub open spec fn cids_distinct(data: Seq<ControllerView>) -> bool {
    forall|a: int, b: int|
        0 <= a < b < data.len() ==> (#[trigger] data[a].controller_id) != (
        #[trigger] data[b].controller_id)
}

/// Distinct job-card IDs, as the wire object keyed by ID demands.
pub open spec fn jids_distinct(data: Seq<JobCardView>) -> bool {
    forall|a: int, b: int|
        0 <= a < b < data.len() ==> (#[trigger] data[a].job_card_id) != (
        #[trigger] data[b].job_card_id)
}

/// Well-formed message: identifiers are non-zero, names and passwords are
/// non-empty, carried records are themselves well formed, and list keys
/// are distinct.
pub open spec fn msg_wf(m: MessageView) -> bool {
    match m {
        MessageView::Alive { .. } => true,
        MessageView::Join { version, password, .. } => version.len() > 0 && password.len() > 0,
        MessageView::JoinResponse { .. } => true,
        MessageView::RequestControllersList { controller_id, .. } => controller_id matches Some(
            id,
        ) ==> id != 0,
        MessageView::ControllersList { data, .. } => (forall|k: int|
            0 <= k < data.len() ==> controller_wf(#[trigger] data[k])) && cids_distinct(data),
        MessageView::RequestJobCardsList { controller_id, .. } => controller_id != 0,
        MessageView::JobCardsList { controller_id, data, .. } => controller_id != 0 && (forall|
            k: int,
        | 0 <= k < data.len() ==> jobcard_wf(#[trigger] data[k])) && jids_distinct(data),
        MessageView::RequestMoldData { controller_id, .. } => controller_id != 0,
        MessageView::ReadMoldData { controller_id, field, .. } => controller_id != 0 && (
        field matches Some(f) ==> f.len() > 0),
        MessageView::ControllerAction { controller_id, action_id, .. } => controller_id != 0
            && action_id != 0,
        MessageView::LoginOperator { controller_id, password, .. } => controller_id != 0
            && password.len() > 0,
        MessageView::OperatorInfo { controller_id, operator_id, name, password, .. } => {
            &&& controller_id != 0
            &&& (operator_id matches Some(o) ==> o != 0)
            &&& name.len() > 0
            &&& password.len() > 0
        },
    }
}

impl Message {
    /// The sequence number of the options envelope.
    pub fn sequence(&self) -> (r: u32)
        ensures
            r == self.spec_options().sequence,
    {
        match self {
            Message::Alive { options } => options.sequence,
            Message::Join { options, .. } => options.sequence,
            Message::JoinResponse { options, .. } => options.sequence,
            Message::RequestControllersList { options, .. } => options.sequence,
            Message::ControllersList { options, .. } => options.sequence,
            Message::RequestJobCardsList { options, .. } => options.sequence,
            Message::JobCardsList { options, .. } => options.sequence,
            Message::RequestMoldData { options, .. } => options.sequence,
            Message::ReadMoldData { options, .. } => options.sequence,
            Message::ControllerAction { options, .. } => options.sequence,
            Message::LoginOperator { options, .. } => options.sequence,
            Message::OperatorInfo { options, .. } => options.sequence,
        }
    }

    /// The options envelope, at the specification level.
    pub open spec fn spec_options(&self) -> MessageOptions {
        match self {
            Message::Alive { options } => *options,
            Message::Join { options, .. } => *options,
            Message::JoinResponse { options, .. } => *options,
            Message::RequestControllersList { options, .. } => *options,
            Message::ControllersList { options, .. } => *options,
            Message::RequestJobCardsList { options, .. } => *options,
            Message::JobCardsList { options, .. } => *options,
            Message::RequestMoldData { options, .. } => *options,
            Message::ReadMoldData { options, .. } => *options,
            Message::ControllerAction { options, .. } => *options,
            Message::LoginOperator { options, .. } => *options,
            Message::OperatorInfo { options, .. } => *options,
        }
    }

    /// Decides `msg_wf` of this message's model exactly.
    pub fn valid(&self) -> (r: bool)
        ensures
            r == msg_wf(self@),
    {
        match self {
            Message::Alive { .. } => true,
            Message::Join { version, password, .. } => version.as_str().is_empty() == false
                && password.as_str().is_empty() == false,
            Message::JoinResponse { .. } => true,
            Message::RequestControllersList { controller_id, .. } => match controller_id {
                Some(id) => *id != 0,
                None => true,
            },
            Message::ControllersList { data, .. } => {
                let ghost dv = data@.map_values(|c: Controller| c@);
                let mut k: usize = 0;
                let mut ok = true;
                while k < data.len()
                    invariant
                        0 <= k <= data@.len(),
                        dv == data@.map_values(|c: Controller| c@),
                        ok == (forall|m: int| 0 <= m < k ==> controller_wf(#[trigger] dv[m])),
                    decreases data@.len() - k,
                {
                    let good = match data[k].check() {
                        Ok(()) => true,
                        Err(_) => false,
                    };
                    proof {
                        assert(dv[k as int] == data@[k as int]@);
                    }
                    ok = ok && good;
                    k = k + 1;
                }
                proof {
                    let vd = match self@ {
                        MessageView::ControllersList { data: d, .. } => d,
                        _ => Seq::empty(),
                    };
                    assert forall|m: int| 0 <= m < vd.len() implies #[trigger] vd[m] == dv[m] by {
                        assert(vd[m] == data@[m]@);
                        assert(dv[m] == data@[m]@);
                    }
                    assert(vd =~= dv);
                }
                ok && distinct_cids(data)
            },
            Message::RequestJobCardsList { controller_id, .. } => *controller_id != 0,
            Message::JobCardsList { controller_id, data, .. } => {
                let ghost dv = data@.map_values(|j: JobCard| j@);
                let cid_ok = *controller_id != 0;
                let mut k: usize = 0;
                let mut ok = cid_ok;
                while k < data.len()
                    invariant
                        0 <= k <= data@.len(),
                        dv == data@.map_values(|j: JobCard| j@),
                        cid_ok == (controller_id != 0),
                        ok == (cid_ok && forall|m: int| 0 <= m < k ==> jobcard_wf(#[trigger] dv[m])),
                    decreases data@.len() - k,
                {
                    let good = match data[k].check() {
                        Ok(()) => true,
                        Err(_) => false,
                    };
                    proof {
                        assert(dv[k as int] == data@[k as int]@);
                    }
                    ok = ok && good;
                    k = k + 1;
                }
                proof {
                    let vd = match self@ {
                        MessageView::JobCardsList { data: d, .. } => d,
                        _ => Seq::empty(),
                    };
                    assert forall|m: int| 0 <= m < vd.len() implies #[trigger] vd[m] == dv[m] by {
                        assert(vd[m] == data@[m]@);
                        assert(dv[m] == data@[m]@);
                    }
                    assert(vd =~= dv);
                }
                ok && distinct_jids(data)
            },
            Message::RequestMoldData { controller_id, .. } => *controller_id != 0,
            Message::ReadMoldData { controller_id, field, .. } => *controller_id != 0
                && match field {
                Some(f) => f.as_str().is_empty() == false,
                None => true,
            },
            Message::ControllerAction { controller_id, action_id, .. } => *controller_id != 0
                && *action_id != 0,
            Message::LoginOperator { controller_id, password, .. } => *controller_id != 0
                && password.as_str().is_empty() == false,
            Message::OperatorInfo { controller_id, operator_id, name, password, .. } => {
                let op_ok = match operator_id {
                    Some(o) => *o != 0,
                    None => true,
                };
                *controller_id != 0 && op_ok && name.as_str().is_empty() == false
                    && password.as_str().is_empty() == false
            },
        }
    }
}

/// Decides whether every controller ID in the list is distinct.
fn distinct_cids(data: &Vec<Controller>) -> (b: bool)
    ensures
        b == cids_distinct(data@.map_values(|c: Controller| c@)),
{
    let ghost dv = data@.map_values(|c: Controller| c@);
    let mut i: usize = 0;
    let mut ok = true;
    while i < data.len()
        invariant
            0 <= i <= data@.len(),
            dv == data@.map_values(|c: Controller| c@),
            ok == (forall|a: int, b: int|
                0 <= a < b < i ==> (#[trigger] dv[a].controller_id) != (
                #[trigger] dv[b].controller_id)),
        decreases data@.len() - i,
    {
        let mut j: usize = 0;
        while j < i
            invariant
                0 <= j <= i < data@.len(),
                dv == data@.map_values(|c: Controller| c@),
                ok == ((forall|a: int, b: int|
                    0 <= a < b < i ==> (#[trigger] dv[a].controller_id) != (
                    #[trigger] dv[b].controller_id)) && forall|a: int|
                    0 <= a < j ==> (#[trigger] dv[a].controller_id) != dv[
                        i as int
                    ].controller_id),
            decreases i - j,
        {
            let same = data[j].controller_id == data[i].controller_id;
            proof {
                assert(dv[j as int] == data@[j as int]@);
                assert(dv[i as int] == data@[i as int]@);
                assert(dv[j as int].controller_id == data@[j as int].controller_id);
                assert(dv[i as int].controller_id == data@[i as int].controller_id);
            }
            ok = ok && !same;
            j = j + 1;
        }
        i = i + 1;
    }
    ok
}

/// Decides whether every job-card ID in the list is distinct.
fn distinct_jids(data: &Vec<JobCard>) -> (b: bool)
    ensures
        b == jids_distinct(data@.map_values(|j: JobCard| j@)),
{
    let ghost dv = data@.map_values(|j2: JobCard| j2@);
    let mut i: usize = 0;
    let mut ok = true;
    while i < data.len()
        invariant
            0 <= i <= data@.len(),
            dv == data@.map_values(|j2: JobCard| j2@),
            ok == (forall|a: int, b: int|
                0 <= a < b < i ==> (#[trigger] dv[a].job_card_id) != (
                #[trigger] dv[b].job_card_id)),
        decreases data@.len() - i,
    {
        let mut j: usize = 0;
        while j < i
            invariant
                0 <= j <= i < data@.len(),
                dv == data@.map_values(|j2: JobCard| j2@),
                ok == ((forall|a: int, b: int|
                    0 <= a < b < i ==> (#[trigger] dv[a].job_card_id) != (
                    #[trigger] dv[b].job_card_id)) && forall|a: int|
                    0 <= a < j ==> (#[trigger] dv[a].job_card_id) != dv[i as int].job_card_id),
            decreases i - j,
        {
            let same = crate::lex::str_eq(
                data[j].job_card_id.as_str(),
                data[i].job_card_id.as_str(),
            );
            proof {
                assert(dv[j as int] == data@[j as int]@);
                assert(dv[i as int] == data@[i as int]@);
                assert(dv[j as int].job_card_id == data@[j as int].job_card_id@);
                assert(dv[i as int].job_card_id == data@[i as int].job_card_id@);
            }
            ok = ok && !same;
            j = j + 1;
        }
        i = i + 1;
    }
    ok
}

} // verus!
