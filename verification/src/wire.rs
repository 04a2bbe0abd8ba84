//! Wire codec, message layer: the tagged-union envelope of every protocol
//! message, the dispatch parser, and the proof that parsing a serialized
//! message gives the message back.

use vstd::prelude::*;

use crate::codec::colon;
use crate::codec::comma;
use crate::codec::lb;
use crate::codec::lbr;
use crate::codec::lemma_char_in;
use crate::codec::lemma_lit_prefix;
use crate::codec::lemma_lit_suffix;
use crate::codec::lemma_not_lit;
use crate::codec::lemma_p_clist_ser;
use crate::codec::lemma_p_jlist_ser;
use crate::codec::lemma_window;
use crate::codec::p_clist;
use crate::codec::p_jlist;
use crate::codec::quote;
use crate::codec::rb;
use crate::codec::rbr;
use crate::codec::ser_clist;
use crate::codec::ser_jlist;
use crate::controller::controller_wf;
use crate::controller::ControllerView;
use crate::jobcard::jobcard_wf;
use crate::jobcard::JobCardView;
use crate::lex::is_digit;
use crate::lex::lemma_p_str_ser;
use crate::lex::lemma_p_u32_ser;
use crate::lex::lit_at;
use crate::lex::p_str;
use crate::lex::p_u32;
use crate::lex::ser_nat;
use crate::lex::ser_str;
use crate::messages::msg_wf;
use crate::messages::Filter;
use crate::messages::MessageOptions;
use crate::messages::MessageView;

verus! {

// ---------------------------------------------------------------------------
// Tags and keys
// ---------------------------------------------------------------------------
pub open spec fn tag_alive() -> Seq<char> {
    "{\"$type\":\"Alive\""@
}

pub open spec fn tag_join() -> Seq<char> {
    "{\"$type\":\"Join\""@
}

pub open spec fn tag_join_response() -> Seq<char> {
    "{\"$type\":\"JoinResponse\""@
}

pub open spec fn tag_req_ctrls() -> Seq<char> {
    "{\"$type\":\"RequestControllersList\""@
}

pub open spec fn tag_ctrls() -> Seq<char> {
    "{\"$type\":\"ControllersList\""@
}

pub open spec fn tag_req_jobs() -> Seq<char> {
    "{\"$type\":\"RequestJobCardsList\""@
}

pub open spec fn tag_jobs() -> Seq<char> {
    "{\"$type\":\"JobCardsList\""@
}

pub open spec fn tag_req_mold() -> Seq<char> {
    "{\"$type\":\"RequestMoldData\""@
}

pub open spec fn tag_read_mold() -> Seq<char> {
    "{\"$type\":\"ReadMoldData\""@
}

pub open spec fn tag_action() -> Seq<char> {
    "{\"$type\":\"ControllerAction\""@
}

pub open spec fn tag_login() -> Seq<char> {
    "{\"$type\":\"LoginOperator\""@
}

pub open spec fn tag_op_info() -> Seq<char> {
    "{\"$type\":\"OperatorInfo\""@
}

pub open spec fn k_seq() -> Seq<char> {
    ",\"sequence\":"@
}

pub open spec fn k_result() -> Seq<char> {
    ",\"result\":"@
}

pub open spec fn k_cid_f() -> Seq<char> {
    ",\"controllerId\":"@
}

pub open spec fn k_action_f() -> Seq<char> {
    ",\"actionId\":"@
}

pub open spec fn k_password_f() -> Seq<char> {
    ",\"password\":"@
}

pub open spec fn k_field_f() -> Seq<char> {
    ",\"field\":"@
}

pub open spec fn k_name_f() -> Seq<char> {
    ",\"name\":"@
}

pub open spec fn k_level_f() -> Seq<char> {
    ",\"level\":"@
}

pub open spec fn k_filter_f() -> Seq<char> {
    ",\"filter\":"@
}

pub open spec fn k_data_f() -> Seq<char> {
    ",\"data\":"@
}

pub open spec fn k_version_f() -> Seq<char> {
    ",\"version\":"@
}

pub open spec fn k_opid_f() -> Seq<char> {
    ",\"operatorId\":"@
}

// ---------------------------------------------------------------------------
// Filter arrays
// ---------------------------------------------------------------------------
/// The quoted name of one filter.
pub open spec fn f_filter_tag(f: Filter) -> Seq<char> {
    match f {
        Filter::All => "\"All\""@,
        Filter::JobCards => "\"JobCards\""@,
        Filter::Operators => "\"Operators\""@,
    }
}

pub open spec fn ser_filters_rest(l: Seq<Filter>) -> Seq<char>
    decreases l.len(),
{
    if l.len() == 0 {
        Seq::empty()
    } else {
        comma() + f_filter_tag(l[0]) + ser_filters_rest(l.drop_first())
    }
}

/// The filter set as a JSON array of names.
pub open spec fn ser_filters(l: Seq<Filter>) -> Seq<char> {
    if l.len() == 0 {
        lbr() + rbr()
    } else {
        lbr() + f_filter_tag(l[0]) + ser_filters_rest(l.drop_first()) + rbr()
    }
}

/// Reads one filter name: the first fixed text that stands at `i` wins.
pub open spec fn p_filter_tag(s: Seq<char>, i: int) -> Option<(Filter, int)> {
    if lit_at(s, i, f_filter_tag(Filter::All)) {
        Some((Filter::All, i + f_filter_tag(Filter::All).len()))
    } else if lit_at(s, i, f_filter_tag(Filter::JobCards)) {
        Some((Filter::JobCards, i + f_filter_tag(Filter::JobCards).len()))
    } else if lit_at(s, i, f_filter_tag(Filter::Operators)) {
        Some((Filter::Operators, i + f_filter_tag(Filter::Operators).len()))
    } else {
        None
    }
}

pub open spec fn p_filters_rest(s: Seq<char>, i: int) -> Option<(Seq<Filter>, int)>
    decreases s.len() - i
    when 0 <= i <= s.len()
{
    if i < s.len() && s[i] == ']' {
        Some((Seq::empty(), i + 1))
    } else if i < s.len() && s[i] == ',' {
        match p_filter_tag(s, i + 1) {
            Some((f, j)) => {
                if i + 1 < j && j <= s.len() {
                    match p_filters_rest(s, j) {
                        Some((rest, j2)) => Some((seq![f] + rest, j2)),
                        None => None,
                    }
                } else {
                    None
                }
            },
            None => None,
        }
    } else {
        None
    }
}

/// Reads a filter array at `i`.
pub open spec fn p_filters(s: Seq<char>, i: int) -> Option<(Seq<Filter>, int)> {
    if 0 <= i && i < s.len() && s[i] == '[' {
        if i + 1 < s.len() && s[i + 1] == ']' {
            Some((Seq::empty(), i + 2))
        } else {
            match p_filter_tag(s, i + 1) {
                Some((f, j)) => {
                    if i + 1 < j && j <= s.len() {
                        match p_filters_rest(s, j) {
                            Some((rest, j2)) => Some((seq![f] + rest, j2)),
                            None => None,
                        }
                    } else {
                        None
                    }
                },
                None => None,
            }
        }
    } else {
        None
    }
}

/// The filter-name parser inverts its emitter.
pub proof fn lemma_p_filter_tag_ser(s: Seq<char>, i: int, f: Filter)
    requires
        0 <= i,
        lit_at(s, i, f_filter_tag(f)),
    ensures
        p_filter_tag(s, i) == Some((f, i + f_filter_tag(f).len() as int)),
{
    reveal_strlit("\"All\"");
    reveal_strlit("\"JobCards\"");
    reveal_strlit("\"Operators\"");
    match f {
        Filter::All => {
        },
        Filter::JobCards => {
            lemma_not_lit(s, i, f_filter_tag(f), f_filter_tag(Filter::All), 1);
        },
        Filter::Operators => {
            lemma_not_lit(s, i, f_filter_tag(f), f_filter_tag(Filter::All), 1);
            lemma_not_lit(s, i, f_filter_tag(f), f_filter_tag(Filter::JobCards), 1);
        },
    }
}

/// The filter-rest parser inverts its emitter.
#[verifier::rlimit(60)]
pub proof fn lemma_p_filters_rest_ser(s: Seq<char>, i: int, l: Seq<Filter>)
    requires
        0 <= i,
        i + ser_filters_rest(l).len() < s.len(),
        s.subrange(i, i + ser_filters_rest(l).len() as int) == ser_filters_rest(l),
        s[i + ser_filters_rest(l).len()] == ']',
    ensures
        p_filters_rest(s, i) == Some((l, i + ser_filters_rest(l).len() + 1)),
    decreases l.len(),
{
    reveal_strlit(",");
    reveal_strlit("\"All\"");
    reveal_strlit("\"JobCards\"");
    reveal_strlit("\"Operators\"");
    let sm = ser_filters_rest(l);
    if l.len() == 0 {
        assert(s[i] == ']');
    } else {
        let f = l[0];
        let rest = l.drop_first();
        let tagf = f_filter_tag(f);
        let srest = ser_filters_rest(rest);
        assert(sm == comma() + tagf + srest);
        crate::codec::lemma_keyed_rest_shape(s, i, tagf, srest);
        assert(s[i] == ',');
        assert(s[i] != ']');
        lemma_p_filter_tag_ser(s, i + 1, f);
        let j = i + 1 + tagf.len() as int;
        assert(j + srest.len() == i + sm.len());
        lemma_p_filters_rest_ser(s, j, rest);
        assert(seq![f] + rest =~= l);
    }
}

/// The filter-array parser inverts its emitter.
#[verifier::rlimit(60)]
pub proof fn lemma_p_filters_ser(s: Seq<char>, i: int, l: Seq<Filter>)
    requires
        0 <= i,
        i + ser_filters(l).len() <= s.len(),
        s.subrange(i, i + ser_filters(l).len() as int) == ser_filters(l),
    ensures
        p_filters(s, i) == Some((l, i + ser_filters(l).len() as int)),
{
    reveal_strlit("[");
    reveal_strlit("]");
    reveal_strlit("\"All\"");
    reveal_strlit("\"JobCards\"");
    reveal_strlit("\"Operators\"");
    let sm = ser_filters(l);
    if l.len() == 0 {
        lemma_char_in(s, i, sm, 0);
        lemma_char_in(s, i, sm, 1);
        assert(s[i] == '[');
        assert(s[i + 1] == ']');
    } else {
        let f = l[0];
        let rest = l.drop_first();
        let tagf = f_filter_tag(f);
        let srest = ser_filters_rest(rest);
        assert(sm == lbr() + tagf + srest + rbr());
        lemma_filters_shape(s, i, tagf, srest);
        assert(s[i] == '[');
        assert(tagf[0] == '"');
        assert(s[i + 1] == '"');
        assert(s[i + 1] != ']');
        lemma_p_filter_tag_ser(s, i + 1, f);
        let j = i + 1 + tagf.len() as int;
        assert(s[j + srest.len()] == ']');
        lemma_p_filters_rest_ser(s, j, rest);
        assert(seq![f] + rest =~= l);
    }
}

/// Shape of a non-empty filter array, with the first name and the rest
/// kept abstract.
pub proof fn lemma_filters_shape(s: Seq<char>, i: int, tagf: Seq<char>, srest: Seq<char>)
    requires
        0 <= i,
        i + 1 + tagf.len() + srest.len() + 1 <= s.len(),
        s.subrange(i, i + 1 + tagf.len() + srest.len() + 1) == lbr() + tagf + srest + rbr(),
    ensures
        s[i] == '[',
        lit_at(s, i + 1, tagf),
        lit_at(s, i + 1 + tagf.len() as int, srest),
        s[i + 1 + tagf.len() + srest.len()] == ']',
        tagf.len() > 0 ==> s[i + 1] == tagf[0],
{
    reveal_strlit("[");
    reveal_strlit("]");
    let t = lbr() + tagf + srest + rbr();
    let l = t.len() as int;
    assert forall|k: int| 0 <= k < l implies #[trigger] s[i + k] == t[k] by {
        assert(s.subrange(i, i + l)[k] == s[i + k]);
    }
    assert(s[i + 0] == t[0]);
    assert(t[0] == '[');
    assert forall|k: int| 0 <= k < tagf.len() implies #[trigger] s.subrange(
        i + 1,
        i + 1 + tagf.len(),
    )[k] == tagf[k] by {
        assert(s[i + (1 + k)] == t[1 + k]);
        assert(t[1 + k] == tagf[k]);
        assert(s.subrange(i + 1, i + 1 + tagf.len())[k] == s[i + (1 + k)]);
    }
    assert(s.subrange(i + 1, i + 1 + tagf.len()) =~= tagf);
    assert forall|k: int| 0 <= k < srest.len() implies #[trigger] s.subrange(
        i + 1 + tagf.len(),
        i + 1 + tagf.len() + srest.len(),
    )[k] == srest[k] by {
        assert(s[i + (1 + tagf.len() + k)] == t[1 + tagf.len() + k]);
        assert(t[1 + tagf.len() as int + k] == srest[k]);
        assert(s.subrange(i + 1 + tagf.len(), i + 1 + tagf.len() + srest.len())[k] == s[i + (1
            + tagf.len() + k)]);
    }
    assert(s.subrange(i + 1 + tagf.len(), i + 1 + tagf.len() + srest.len()) =~= srest);
    assert(s[i + (1 + tagf.len() + srest.len() as int)] == t[1 + tagf.len()
        + srest.len() as int]);
    assert(t[1 + tagf.len() + srest.len() as int] == ']');
    if tagf.len() > 0 {
        assert(s[i + 1] == t[1]);
        assert(t[1] == tagf[0]);
    }
}

// ---------------------------------------------------------------------------
// The message envelope
// ---------------------------------------------------------------------------
/// The serialized form of a message: the `$type` tag, the variant's fields
/// in declaration order, and the flattened options envelope last.
#[verifier::opaque]
pub open spec fn ser_msg(m: MessageView) -> Seq<char> {
    match m {
        MessageView::Alive { options } => tag_alive() + tail_seq(options),
        MessageView::Join { version, password, filter, options } => tag_join() + k_version_f()
            + ser_str(version) + k_password_f() + ser_str(password) + k_filter_f() + ser_filters(
            filter,
        ) + tail_seq(options),
        MessageView::JoinResponse { result, options } => tag_join_response() + k_result()
            + ser_nat(result as int) + tail_seq(options),
        MessageView::RequestControllersList { controller_id, options } => tag_req_ctrls()
            + opt_u32_field(k_cid_f(), controller_id) + tail_seq(options),
        MessageView::ControllersList { data, options } => tag_ctrls() + k_data_f() + ser_clist(
            data,
        ) + tail_seq(options),
        MessageView::RequestJobCardsList { controller_id, options } => tag_req_jobs() + k_cid_f()
            + ser_nat(controller_id as int) + tail_seq(options),
        MessageView::JobCardsList { controller_id, data, options } => tag_jobs() + k_cid_f()
            + ser_nat(controller_id as int) + k_data_f() + ser_jlist(data) + tail_seq(options),
        MessageView::RequestMoldData { controller_id, options } => tag_req_mold() + k_cid_f()
            + ser_nat(controller_id as int) + tail_seq(options),
        MessageView::ReadMoldData { controller_id, field, options } => tag_read_mold() + k_cid_f()
            + ser_nat(controller_id as int) + crate::codec::f_opt_str(k_field_f(), field)
            + tail_seq(options),
        MessageView::ControllerAction { controller_id, action_id, options } => tag_action()
            + k_cid_f() + ser_nat(controller_id as int) + k_action_f() + ser_nat(
            action_id as int,
        ) + tail_seq(options),
        MessageView::LoginOperator { controller_id, password, options } => tag_login() + k_cid_f()
            + ser_nat(controller_id as int) + k_password_f() + ser_str(password) + tail_seq(
            options,
        ),
        MessageView::OperatorInfo {
            controller_id,
            operator_id,
            name,
            password,
            level,
            options,
        } => tag_op_info() + k_cid_f() + ser_nat(controller_id as int) + opt_u32_field(
            k_opid_f(),
            operator_id,
        ) + k_name_f() + ser_str(name) + k_password_f() + ser_str(password) + k_level_f()
            + ser_nat(level as int) + tail_seq(options),
    }
}

/// The closing fields of every message: the sequence number and the brace.
pub open spec fn tail_seq(options: MessageOptions) -> Seq<char> {
    k_seq() + ser_nat(options.sequence as int) + rb()
}

/// An optional number field.
pub open spec fn opt_u32_field(key: Seq<char>, o: Option<u32>) -> Seq<char> {
    match o {
        Some(n) => key + ser_nat(n as int),
        None => Seq::empty(),
    }
}

/// Reads the closing fields: sequence number, closing brace, end of input.
pub open spec fn p_tail_seq(s: Seq<char>, i: int) -> Option<u32> {
    if lit_at(s, i, k_seq()) {
        match p_u32(s, i + k_seq().len()) {
            Some((n, j)) => {
                if j + 1 == s.len() && s[j] == '}' {
                    Some(n)
                } else {
                    None
                }
            },
            None => None,
        }
    } else {
        None
    }
}

/// The closing-fields parser inverts its emitter when it stands at the end
/// of the input.
pub proof fn lemma_p_tail_seq_ser(s: Seq<char>, i: int, options: MessageOptions)
    requires
        0 <= i,
        lit_at(s, i, tail_seq(options)),
        i + tail_seq(options).len() == s.len(),
    ensures
        p_tail_seq(s, i) == Some(options.sequence),
{
    reveal_strlit(",\"sequence\":");
    reveal_strlit("}");
    let n = ser_nat(options.sequence as int);
    assert(tail_seq(options) =~= k_seq() + (n + rb()));
    lemma_lit_prefix(s, i, k_seq(), n + rb());
    lemma_lit_suffix(s, i, k_seq(), n + rb());
    let j0 = i + k_seq().len() as int;
    lemma_lit_prefix(s, j0, n, rb());
    lemma_lit_suffix(s, j0, n, rb());
    let j1 = j0 + n.len() as int;
    lemma_char_in(s, j1, rb(), 0);
    assert(s[j1] == '}');
    assert(!is_digit(s[j1]));
    lemma_p_u32_ser(s, j0, options.sequence);
}


// ---------------------------------------------------------------------------
// Step helpers for the message chains
// ---------------------------------------------------------------------------
/// Consumes a mandatory key-and-number field.
pub proof fn lemma_step_key_u32(s: Seq<char>, j: int, key: Seq<char>, n: u32, rest: Seq<char>)
    requires
        0 <= j,
        lit_at(s, j, (key + ser_nat(n as int)) + rest),
        rest.len() > 0,
        !is_digit(rest[0]),
    ensures
        lit_at(s, j, key),
        p_u32(s, j + key.len() as int) == Some(
            (n, j + key.len() + ser_nat(n as int).len() as int),
        ),
        lit_at(s, j + key.len() + ser_nat(n as int).len() as int, rest),
{
    let sn = ser_nat(n as int);
    assert((key + sn) + rest =~= key + (sn + rest));
    lemma_lit_prefix(s, j, key, sn + rest);
    lemma_lit_suffix(s, j, key, sn + rest);
    lemma_lit_prefix(s, j + key.len() as int, sn, rest);
    lemma_lit_suffix(s, j + key.len() as int, sn, rest);
    lemma_char_in(s, j + key.len() + sn.len() as int, rest, 0);
    lemma_p_u32_ser(s, j + key.len() as int, n);
}

/// Consumes an optional key-and-number field.
pub proof fn lemma_step_opt_u32(
    s: Seq<char>,
    j: int,
    key: Seq<char>,
    o: Option<u32>,
    rest: Seq<char>,
)
    requires
        0 <= j,
        lit_at(s, j, opt_u32_field(key, o) + rest),
        o is None ==> !lit_at(s, j, key),
        rest.len() > 0,
        !is_digit(rest[0]),
    ensures
        lit_at(s, j + opt_u32_field(key, o).len() as int, rest),
        o matches Some(n) ==> lit_at(s, j, key) && p_u32(s, j + key.len() as int) == Some(
            (n, j + opt_u32_field(key, o).len() as int),
        ),
{
    match o {
        Some(n) => {
            assert(opt_u32_field(key, o) + rest =~= (key + ser_nat(n as int)) + rest);
            lemma_step_key_u32(s, j, key, n, rest);
        },
        None => {
            assert(opt_u32_field(key, o) + rest =~= rest);
        },
    }
}

// ---------------------------------------------------------------------------
// The dispatch parser
// ---------------------------------------------------------------------------
/// Reads a whole message: the tag decides the variant, the fields follow
/// in order, and the input must end at the closing brace.
/// The fields of this variant, after its tag.
#[verifier::opaque]
pub open spec fn p_body_alive(s: Seq<char>) -> Option<MessageView> {
    let j = tag_alive().len() as int;
    match p_tail_seq(s, tag_alive().len() as int) {
        Some(n) => Some(MessageView::Alive { options: MessageOptions { sequence: n } }),
        None => None,
    }
}

/// The fields of this variant, after its tag.
#[verifier::opaque]
pub open spec fn p_body_join(s: Seq<char>) -> Option<MessageView> {
    let j = tag_join().len() as int;
    if lit_at(s, j, k_version_f()) {
        match p_str(s, j + k_version_f().len()) {
            Some((version, j1)) => if lit_at(s, j1, k_password_f()) {
                match p_str(s, j1 + k_password_f().len()) {
                    Some((password, j2)) => if lit_at(s, j2, k_filter_f()) {
                        match p_filters(s, j2 + k_filter_f().len()) {
                            Some((filter, j3)) => match p_tail_seq(s, j3) {
                                Some(n) => Some(
                                    MessageView::Join {
                                        version,
                                        password,
                                        filter,
                                        options: MessageOptions { sequence: n },
                                    },
                                ),
                                None => None,
                            },
                            None => None,
                        }
                    } else {
                        None
                    },
                    None => None,
                }
            } else {
                None
            },
            None => None,
        }
    } else {
        None
    }
}

/// The fields of this variant, after its tag.
#[verifier::opaque]
pub open spec fn p_body_join_response(s: Seq<char>) -> Option<MessageView> {
    let j = tag_join_response().len() as int;
    if lit_at(s, j, k_result()) {
        match p_u32(s, j + k_result().len()) {
            Some((result, j1)) => match p_tail_seq(s, j1) {
                Some(n) => Some(
                    MessageView::JoinResponse {
                        result,
                        options: MessageOptions { sequence: n },
                    },
                ),
                None => None,
            },
            None => None,
        }
    } else {
        None
    }
}

/// The fields of this variant, after its tag.
#[verifier::opaque]
pub open spec fn p_body_req_ctrls(s: Seq<char>) -> Option<MessageView> {
    let j = tag_req_ctrls().len() as int;
    if lit_at(s, j, k_cid_f()) {
        match p_u32(s, j + k_cid_f().len()) {
            Some((cid, j1)) => match p_tail_seq(s, j1) {
                Some(n) => Some(
                    MessageView::RequestControllersList {
                        controller_id: Some(cid),
                        options: MessageOptions { sequence: n },
                    },
                ),
                None => None,
            },
            None => None,
        }
    } else {
        match p_tail_seq(s, j) {
            Some(n) => Some(
                MessageView::RequestControllersList {
                    controller_id: None,
                    options: MessageOptions { sequence: n },
                },
            ),
            None => None,
        }
    }
}

/// The fields of this variant, after its tag.
#[verifier::opaque]
pub open spec fn p_body_ctrls(s: Seq<char>) -> Option<MessageView> {
    let j = tag_ctrls().len() as int;
    if lit_at(s, j, k_data_f()) {
        match p_clist(s, j + k_data_f().len()) {
            Some((data, j1)) => match p_tail_seq(s, j1) {
                Some(n) => Some(
                    MessageView::ControllersList {
                        data,
                        options: MessageOptions { sequence: n },
                    },
                ),
                None => None,
            },
            None => None,
        }
    } else {
        None
    }
}

/// The fields of this variant, after its tag.
#[verifier::opaque]
pub open spec fn p_body_req_jobs(s: Seq<char>) -> Option<MessageView> {
    let j = tag_req_jobs().len() as int;
    if lit_at(s, j, k_cid_f()) {
        match p_u32(s, j + k_cid_f().len()) {
            Some((cid, j1)) => match p_tail_seq(s, j1) {
                Some(n) => Some(
                    MessageView::RequestJobCardsList {
                        controller_id: cid,
                        options: MessageOptions { sequence: n },
                    },
                ),
                None => None,
            },
            None => None,
        }
    } else {
        None
    }
}

/// The fields of this variant, after its tag.
#[verifier::opaque]
pub open spec fn p_body_jobs(s: Seq<char>) -> Option<MessageView> {
    let j = tag_jobs().len() as int;
    if lit_at(s, j, k_cid_f()) {
        match p_u32(s, j + k_cid_f().len()) {
            Some((cid, j1)) => if lit_at(s, j1, k_data_f()) {
                match p_jlist(s, j1 + k_data_f().len()) {
                    Some((data, j2)) => match p_tail_seq(s, j2) {
                        Some(n) => Some(
                            MessageView::JobCardsList {
                                controller_id: cid,
                                data,
                                options: MessageOptions { sequence: n },
                            },
                        ),
                        None => None,
                    },
                    None => None,
                }
            } else {
                None
            },
            None => None,
        }
    } else {
        None
    }
}

/// The fields of this variant, after its tag.
#[verifier::opaque]
pub open spec fn p_body_req_mold(s: Seq<char>) -> Option<MessageView> {
    let j = tag_req_mold().len() as int;
    if lit_at(s, j, k_cid_f()) {
        match p_u32(s, j + k_cid_f().len()) {
            Some((cid, j1)) => match p_tail_seq(s, j1) {
                Some(n) => Some(
                    MessageView::RequestMoldData {
                        controller_id: cid,
                        options: MessageOptions { sequence: n },
                    },
                ),
                None => None,
            },
            None => None,
        }
    } else {
        None
    }
}

/// The fields of this variant, after its tag.
#[verifier::opaque]
pub open spec fn p_body_read_mold(s: Seq<char>) -> Option<MessageView> {
    let j = tag_read_mold().len() as int;
    if lit_at(s, j, k_cid_f()) {
        match p_u32(s, j + k_cid_f().len()) {
            Some((cid, j1)) => if lit_at(s, j1, k_field_f()) {
                match p_str(s, j1 + k_field_f().len()) {
                    Some((field, j2)) => match p_tail_seq(s, j2) {
                        Some(n) => Some(
                            MessageView::ReadMoldData {
                                controller_id: cid,
                                field: Some(field),
                                options: MessageOptions { sequence: n },
                            },
                        ),
                        None => None,
                    },
                    None => None,
                }
            } else {
                match p_tail_seq(s, j1) {
                    Some(n) => Some(
                        MessageView::ReadMoldData {
                            controller_id: cid,
                            field: None,
                            options: MessageOptions { sequence: n },
                        },
                    ),
                    None => None,
                }
            },
            None => None,
        }
    } else {
        None
    }
}

/// The fields of this variant, after its tag.
#[verifier::opaque]
pub open spec fn p_body_action(s: Seq<char>) -> Option<MessageView> {
    let j = tag_action().len() as int;
    if lit_at(s, j, k_cid_f()) {
        match p_u32(s, j + k_cid_f().len()) {
            Some((cid, j1)) => if lit_at(s, j1, k_action_f()) {
                match p_u32(s, j1 + k_action_f().len()) {
                    Some((aid, j2)) => match p_tail_seq(s, j2) {
                        Some(n) => Some(
                            MessageView::ControllerAction {
                                controller_id: cid,
                                action_id: aid,
                                options: MessageOptions { sequence: n },
                            },
                        ),
                        None => None,
                    },
                    None => None,
                }
            } else {
                None
            },
            None => None,
        }
    } else {
        None
    }
}

/// The fields of this variant, after its tag.
#[verifier::opaque]
pub open spec fn p_body_login(s: Seq<char>) -> Option<MessageView> {
    let j = tag_login().len() as int;
    if lit_at(s, j, k_cid_f()) {
        match p_u32(s, j + k_cid_f().len()) {
            Some((cid, j1)) => if lit_at(s, j1, k_password_f()) {
                match p_str(s, j1 + k_password_f().len()) {
                    Some((password, j2)) => match p_tail_seq(s, j2) {
                        Some(n) => Some(
                            MessageView::LoginOperator {
                                controller_id: cid,
                                password,
                                options: MessageOptions { sequence: n },
                            },
                        ),
                        None => None,
                    },
                    None => None,
                }
            } else {
                None
            },
            None => None,
        }
    } else {
        None
    }
}

/// The fields of this variant, after its tag.
#[verifier::opaque]
pub open spec fn p_body_op_info(s: Seq<char>) -> Option<MessageView> {
    let j = tag_op_info().len() as int;
    if lit_at(s, j, k_cid_f()) {
        match p_u32(s, j + k_cid_f().len()) {
            Some((cid, j1)) => {
                let oid = if lit_at(s, j1, k_opid_f()) {
                    match p_u32(s, j1 + k_opid_f().len()) {
                        Some((o, j2)) => Some((Some(o), j2)),
                        None => None,
                    }
                } else {
                    Some((None, j1))
                };
                match oid {
                    Some((operator_id, j2)) => if lit_at(s, j2, k_name_f()) {
                        match p_str(s, j2 + k_name_f().len()) {
                            Some((name, j3)) => if lit_at(s, j3, k_password_f()) {
                                match p_str(s, j3 + k_password_f().len()) {
                                    Some((password, j4)) => if lit_at(s, j4, k_level_f()) {
                                        match p_u32(s, j4 + k_level_f().len()) {
                                            Some((level, j5)) => if level <= 255 {
                                                match p_tail_seq(s, j5) {
                                                    Some(n) => Some(
                                                        MessageView::OperatorInfo {
                                                            controller_id: cid,
                                                            operator_id,
                                                            name,
                                                            password,
                                                            level: level as u8,
                                                            options: MessageOptions {
                                                                sequence: n,
                                                            },
                                                        },
                                                    ),
                                                    None => None,
                                                }
                                            } else {
                                                None
                                            },
                                            None => None,
                                        }
                                    } else {
                                        None
                                    },
                                    None => None,
                                }
                            } else {
                                None
                            },
                            None => None,
                        }
                    } else {
                        None
                    },
                    None => None,
                }
            },
            None => None,
        }
    } else {
        None
    }
}

/// Reads a whole message: the tag decides the variant, the fields follow
/// in order, and the input must end at the closing brace.
pub open spec fn p_msg_raw(s: Seq<char>) -> Option<MessageView> {
    if lit_at(s, 0, tag_alive()) {
        p_body_alive(s)
    } else if lit_at(s, 0, tag_join()) {
        p_body_join(s)
    } else if lit_at(s, 0, tag_join_response()) {
        p_body_join_response(s)
    } else if lit_at(s, 0, tag_req_ctrls()) {
        p_body_req_ctrls(s)
    } else if lit_at(s, 0, tag_ctrls()) {
        p_body_ctrls(s)
    } else if lit_at(s, 0, tag_req_jobs()) {
        p_body_req_jobs(s)
    } else if lit_at(s, 0, tag_jobs()) {
        p_body_jobs(s)
    } else if lit_at(s, 0, tag_req_mold()) {
        p_body_req_mold(s)
    } else if lit_at(s, 0, tag_read_mold()) {
        p_body_read_mold(s)
    } else if lit_at(s, 0, tag_action()) {
        p_body_action(s)
    } else if lit_at(s, 0, tag_login()) {
        p_body_login(s)
    } else if lit_at(s, 0, tag_op_info()) {
        p_body_op_info(s)
    } else {
        None
    }
}

/// A parsed message is accepted only when it is well formed.
pub open spec fn p_msg(s: Seq<char>) -> Option<MessageView> {
    match p_msg_raw(s) {
        Some(v) => if msg_wf(v) {
            Some(v)
        } else {
            None
        },
        None => None,
    }
}


/// A string carrying this tag carries none of the tags tried earlier.
pub proof fn lemma_only_join(s: Seq<char>)
    requires
        lit_at(s, 0, tag_join()),
    ensures
        !lit_at(s, 0, tag_alive()),
{
    reveal_strlit("{\"$type\":\"Join\"");
    reveal_strlit("{\"$type\":\"Alive\"");
    lemma_not_lit(s, 0, tag_join(), tag_alive(), 10);
}

/// A string carrying this tag carries none of the tags tried earlier.
pub proof fn lemma_only_join_response(s: Seq<char>)
    requires
        lit_at(s, 0, tag_join_response()),
    ensures
        !lit_at(s, 0, tag_alive()),
        !lit_at(s, 0, tag_join()),
{
    reveal_strlit("{\"$type\":\"JoinResponse\"");
    reveal_strlit("{\"$type\":\"Alive\"");
    lemma_not_lit(s, 0, tag_join_response(), tag_alive(), 10);
    reveal_strlit("{\"$type\":\"Join\"");
    lemma_not_lit(s, 0, tag_join_response(), tag_join(), 14);
}

/// A string carrying this tag carries none of the tags tried earlier.
pub proof fn lemma_only_req_ctrls(s: Seq<char>)
    requires
        lit_at(s, 0, tag_req_ctrls()),
    ensures
        !lit_at(s, 0, tag_alive()),
        !lit_at(s, 0, tag_join()),
        !lit_at(s, 0, tag_join_response()),
{
    reveal_strlit("{\"$type\":\"RequestControllersList\"");
    reveal_strlit("{\"$type\":\"Alive\"");
    lemma_not_lit(s, 0, tag_req_ctrls(), tag_alive(), 10);
    reveal_strlit("{\"$type\":\"Join\"");
    lemma_not_lit(s, 0, tag_req_ctrls(), tag_join(), 10);
    reveal_strlit("{\"$type\":\"JoinResponse\"");
    lemma_not_lit(s, 0, tag_req_ctrls(), tag_join_response(), 10);
}

/// A string carrying this tag carries none of the tags tried earlier.
pub proof fn lemma_only_ctrls(s: Seq<char>)
    requires
        lit_at(s, 0, tag_ctrls()),
    ensures
        !lit_at(s, 0, tag_alive()),
        !lit_at(s, 0, tag_join()),
        !lit_at(s, 0, tag_join_response()),
        !lit_at(s, 0, tag_req_ctrls()),
{
    reveal_strlit("{\"$type\":\"ControllersList\"");
    reveal_strlit("{\"$type\":\"Alive\"");
    lemma_not_lit(s, 0, tag_ctrls(), tag_alive(), 10);
    reveal_strlit("{\"$type\":\"Join\"");
    lemma_not_lit(s, 0, tag_ctrls(), tag_join(), 10);
    reveal_strlit("{\"$type\":\"JoinResponse\"");
    lemma_not_lit(s, 0, tag_ctrls(), tag_join_response(), 10);
    reveal_strlit("{\"$type\":\"RequestControllersList\"");
    lemma_not_lit(s, 0, tag_ctrls(), tag_req_ctrls(), 10);
}

/// A string carrying this tag carries none of the tags tried earlier.
pub proof fn lemma_only_req_jobs(s: Seq<char>)
    requires
        lit_at(s, 0, tag_req_jobs()),
    ensures
        !lit_at(s, 0, tag_alive()),
        !lit_at(s, 0, tag_join()),
        !lit_at(s, 0, tag_join_response()),
        !lit_at(s, 0, tag_req_ctrls()),
        !lit_at(s, 0, tag_ctrls()),
{
    reveal_strlit("{\"$type\":\"RequestJobCardsList\"");
    reveal_strlit("{\"$type\":\"Alive\"");
    lemma_not_lit(s, 0, tag_req_jobs(), tag_alive(), 10);
    reveal_strlit("{\"$type\":\"Join\"");
    lemma_not_lit(s, 0, tag_req_jobs(), tag_join(), 10);
    reveal_strlit("{\"$type\":\"JoinResponse\"");
    lemma_not_lit(s, 0, tag_req_jobs(), tag_join_response(), 10);
    reveal_strlit("{\"$type\":\"RequestControllersList\"");
    lemma_not_lit(s, 0, tag_req_jobs(), tag_req_ctrls(), 17);
    reveal_strlit("{\"$type\":\"ControllersList\"");
    lemma_not_lit(s, 0, tag_req_jobs(), tag_ctrls(), 10);
}

/// A string carrying this tag carries none of the tags tried earlier.
pub proof fn lemma_only_jobs(s: Seq<char>)
    requires
        lit_at(s, 0, tag_jobs()),
    ensures
        !lit_at(s, 0, tag_alive()),
        !lit_at(s, 0, tag_join()),
        !lit_at(s, 0, tag_join_response()),
        !lit_at(s, 0, tag_req_ctrls()),
        !lit_at(s, 0, tag_ctrls()),
        !lit_at(s, 0, tag_req_jobs()),
{
    reveal_strlit("{\"$type\":\"JobCardsList\"");
    reveal_strlit("{\"$type\":\"Alive\"");
    lemma_not_lit(s, 0, tag_jobs(), tag_alive(), 10);
    reveal_strlit("{\"$type\":\"Join\"");
    lemma_not_lit(s, 0, tag_jobs(), tag_join(), 12);
    reveal_strlit("{\"$type\":\"JoinResponse\"");
    lemma_not_lit(s, 0, tag_jobs(), tag_join_response(), 12);
    reveal_strlit("{\"$type\":\"RequestControllersList\"");
    lemma_not_lit(s, 0, tag_jobs(), tag_req_ctrls(), 10);
    reveal_strlit("{\"$type\":\"ControllersList\"");
    lemma_not_lit(s, 0, tag_jobs(), tag_ctrls(), 10);
    reveal_strlit("{\"$type\":\"RequestJobCardsList\"");
    lemma_not_lit(s, 0, tag_jobs(), tag_req_jobs(), 10);
}

/// A string carrying this tag carries none of the tags tried earlier.
pub proof fn lemma_only_req_mold(s: Seq<char>)
    requires
        lit_at(s, 0, tag_req_mold()),
    ensures
        !lit_at(s, 0, tag_alive()),
        !lit_at(s, 0, tag_join()),
        !lit_at(s, 0, tag_join_response()),
        !lit_at(s, 0, tag_req_ctrls()),
        !lit_at(s, 0, tag_ctrls()),
        !lit_at(s, 0, tag_req_jobs()),
        !lit_at(s, 0, tag_jobs()),
{
    reveal_strlit("{\"$type\":\"RequestMoldData\"");
    reveal_strlit("{\"$type\":\"Alive\"");
    lemma_not_lit(s, 0, tag_req_mold(), tag_alive(), 10);
    reveal_strlit("{\"$type\":\"Join\"");
    lemma_not_lit(s, 0, tag_req_mold(), tag_join(), 10);
    reveal_strlit("{\"$type\":\"JoinResponse\"");
    lemma_not_lit(s, 0, tag_req_mold(), tag_join_response(), 10);
    reveal_strlit("{\"$type\":\"RequestControllersList\"");
    lemma_not_lit(s, 0, tag_req_mold(), tag_req_ctrls(), 17);
    reveal_strlit("{\"$type\":\"ControllersList\"");
    lemma_not_lit(s, 0, tag_req_mold(), tag_ctrls(), 10);
    reveal_strlit("{\"$type\":\"RequestJobCardsList\"");
    lemma_not_lit(s, 0, tag_req_mold(), tag_req_jobs(), 17);
    reveal_strlit("{\"$type\":\"JobCardsList\"");
    lemma_not_lit(s, 0, tag_req_mold(), tag_jobs(), 10);
}

/// A string carrying this tag carries none of the tags tried earlier.
pub proof fn lemma_only_read_mold(s: Seq<char>)
    requires
        lit_at(s, 0, tag_read_mold()),
    ensures
        !lit_at(s, 0, tag_alive()),
        !lit_at(s, 0, tag_join()),
        !lit_at(s, 0, tag_join_response()),
        !lit_at(s, 0, tag_req_ctrls()),
        !lit_at(s, 0, tag_ctrls()),
        !lit_at(s, 0, tag_req_jobs()),
        !lit_at(s, 0, tag_jobs()),
        !lit_at(s, 0, tag_req_mold()),
{
    reveal_strlit("{\"$type\":\"ReadMoldData\"");
    reveal_strlit("{\"$type\":\"Alive\"");
    lemma_not_lit(s, 0, tag_read_mold(), tag_alive(), 10);
    reveal_strlit("{\"$type\":\"Join\"");
    lemma_not_lit(s, 0, tag_read_mold(), tag_join(), 10);
    reveal_strlit("{\"$type\":\"JoinResponse\"");
    lemma_not_lit(s, 0, tag_read_mold(), tag_join_response(), 10);
    reveal_strlit("{\"$type\":\"RequestControllersList\"");
    lemma_not_lit(s, 0, tag_read_mold(), tag_req_ctrls(), 12);
    reveal_strlit("{\"$type\":\"ControllersList\"");
    lemma_not_lit(s, 0, tag_read_mold(), tag_ctrls(), 10);
    reveal_strlit("{\"$type\":\"RequestJobCardsList\"");
    lemma_not_lit(s, 0, tag_read_mold(), tag_req_jobs(), 12);
    reveal_strlit("{\"$type\":\"JobCardsList\"");
    lemma_not_lit(s, 0, tag_read_mold(), tag_jobs(), 10);
    reveal_strlit("{\"$type\":\"RequestMoldData\"");
    lemma_not_lit(s, 0, tag_read_mold(), tag_req_mold(), 12);
}

/// A string carrying this tag carries none of the tags tried earlier.
pub proof fn lemma_only_action(s: Seq<char>)
    requires
        lit_at(s, 0, tag_action()),
    ensures
        !lit_at(s, 0, tag_alive()),
        !lit_at(s, 0, tag_join()),
        !lit_at(s, 0, tag_join_response()),
        !lit_at(s, 0, tag_req_ctrls()),
        !lit_at(s, 0, tag_ctrls()),
        !lit_at(s, 0, tag_req_jobs()),
        !lit_at(s, 0, tag_jobs()),
        !lit_at(s, 0, tag_req_mold()),
        !lit_at(s, 0, tag_read_mold()),
{
    reveal_strlit("{\"$type\":\"ControllerAction\"");
    reveal_strlit("{\"$type\":\"Alive\"");
    lemma_not_lit(s, 0, tag_action(), tag_alive(), 10);
    reveal_strlit("{\"$type\":\"Join\"");
    lemma_not_lit(s, 0, tag_action(), tag_join(), 10);
    reveal_strlit("{\"$type\":\"JoinResponse\"");
    lemma_not_lit(s, 0, tag_action(), tag_join_response(), 10);
    reveal_strlit("{\"$type\":\"RequestControllersList\"");
    lemma_not_lit(s, 0, tag_action(), tag_req_ctrls(), 10);
    reveal_strlit("{\"$type\":\"ControllersList\"");
    lemma_not_lit(s, 0, tag_action(), tag_ctrls(), 20);
    reveal_strlit("{\"$type\":\"RequestJobCardsList\"");
    lemma_not_lit(s, 0, tag_action(), tag_req_jobs(), 10);
    reveal_strlit("{\"$type\":\"JobCardsList\"");
    lemma_not_lit(s, 0, tag_action(), tag_jobs(), 10);
    reveal_strlit("{\"$type\":\"RequestMoldData\"");
    lemma_not_lit(s, 0, tag_action(), tag_req_mold(), 10);
    reveal_strlit("{\"$type\":\"ReadMoldData\"");
    lemma_not_lit(s, 0, tag_action(), tag_read_mold(), 10);
}

/// A string carrying this tag carries none of the tags tried earlier.
pub proof fn lemma_only_login(s: Seq<char>)
    requires
        lit_at(s, 0, tag_login()),
    ensures
        !lit_at(s, 0, tag_alive()),
        !lit_at(s, 0, tag_join()),
        !lit_at(s, 0, tag_join_response()),
        !lit_at(s, 0, tag_req_ctrls()),
        !lit_at(s, 0, tag_ctrls()),
        !lit_at(s, 0, tag_req_jobs()),
        !lit_at(s, 0, tag_jobs()),
        !lit_at(s, 0, tag_req_mold()),
        !lit_at(s, 0, tag_read_mold()),
        !lit_at(s, 0, tag_action()),
{
    reveal_strlit("{\"$type\":\"LoginOperator\"");
    reveal_strlit("{\"$type\":\"Alive\"");
    lemma_not_lit(s, 0, tag_login(), tag_alive(), 10);
    reveal_strlit("{\"$type\":\"Join\"");
    lemma_not_lit(s, 0, tag_login(), tag_join(), 10);
    reveal_strlit("{\"$type\":\"JoinResponse\"");
    lemma_not_lit(s, 0, tag_login(), tag_join_response(), 10);
    reveal_strlit("{\"$type\":\"RequestControllersList\"");
    lemma_not_lit(s, 0, tag_login(), tag_req_ctrls(), 10);
    reveal_strlit("{\"$type\":\"ControllersList\"");
    lemma_not_lit(s, 0, tag_login(), tag_ctrls(), 10);
    reveal_strlit("{\"$type\":\"RequestJobCardsList\"");
    lemma_not_lit(s, 0, tag_login(), tag_req_jobs(), 10);
    reveal_strlit("{\"$type\":\"JobCardsList\"");
    lemma_not_lit(s, 0, tag_login(), tag_jobs(), 10);
    reveal_strlit("{\"$type\":\"RequestMoldData\"");
    lemma_not_lit(s, 0, tag_login(), tag_req_mold(), 10);
    reveal_strlit("{\"$type\":\"ReadMoldData\"");
    lemma_not_lit(s, 0, tag_login(), tag_read_mold(), 10);
    reveal_strlit("{\"$type\":\"ControllerAction\"");
    lemma_not_lit(s, 0, tag_login(), tag_action(), 10);
}

/// A string carrying this tag carries none of the tags tried earlier.
pub proof fn lemma_only_op_info(s: Seq<char>)
    requires
        lit_at(s, 0, tag_op_info()),
    ensures
        !lit_at(s, 0, tag_alive()),
        !lit_at(s, 0, tag_join()),
        !lit_at(s, 0, tag_join_response()),
        !lit_at(s, 0, tag_req_ctrls()),
        !lit_at(s, 0, tag_ctrls()),
        !lit_at(s, 0, tag_req_jobs()),
        !lit_at(s, 0, tag_jobs()),
        !lit_at(s, 0, tag_req_mold()),
        !lit_at(s, 0, tag_read_mold()),
        !lit_at(s, 0, tag_action()),
        !lit_at(s, 0, tag_login()),
{
    reveal_strlit("{\"$type\":\"OperatorInfo\"");
    reveal_strlit("{\"$type\":\"Alive\"");
    lemma_not_lit(s, 0, tag_op_info(), tag_alive(), 10);
    reveal_strlit("{\"$type\":\"Join\"");
    lemma_not_lit(s, 0, tag_op_info(), tag_join(), 10);
    reveal_strlit("{\"$type\":\"JoinResponse\"");
    lemma_not_lit(s, 0, tag_op_info(), tag_join_response(), 10);
    reveal_strlit("{\"$type\":\"RequestControllersList\"");
    lemma_not_lit(s, 0, tag_op_info(), tag_req_ctrls(), 10);
    reveal_strlit("{\"$type\":\"ControllersList\"");
    lemma_not_lit(s, 0, tag_op_info(), tag_ctrls(), 10);
    reveal_strlit("{\"$type\":\"RequestJobCardsList\"");
    lemma_not_lit(s, 0, tag_op_info(), tag_req_jobs(), 10);
    reveal_strlit("{\"$type\":\"JobCardsList\"");
    lemma_not_lit(s, 0, tag_op_info(), tag_jobs(), 10);
    reveal_strlit("{\"$type\":\"RequestMoldData\"");
    lemma_not_lit(s, 0, tag_op_info(), tag_req_mold(), 10);
    reveal_strlit("{\"$type\":\"ReadMoldData\"");
    lemma_not_lit(s, 0, tag_op_info(), tag_read_mold(), 10);
    reveal_strlit("{\"$type\":\"ControllerAction\"");
    lemma_not_lit(s, 0, tag_op_info(), tag_action(), 10);
    reveal_strlit("{\"$type\":\"LoginOperator\"");
    lemma_not_lit(s, 0, tag_op_info(), tag_login(), 10);
}

/// The closing fields always begin with a comma.
pub proof fn lemma_tail_head(options: MessageOptions)
    ensures
        tail_seq(options).len() > 0,
        tail_seq(options)[0] == ',',
        !is_digit(tail_seq(options)[0]),
{
    reveal_strlit(",\"sequence\":");
    assert(tail_seq(options)[0] == k_seq()[0]);
}

/// Round trip for the keep-alive message.
#[verifier::rlimit(60)]
#[verifier::spinoff_prover]
pub proof fn lemma_rt_alive(options: MessageOptions)
    ensures
        p_msg_raw(ser_msg(MessageView::Alive { options })) == Some(
            MessageView::Alive { options },
        ),
{
    let m = MessageView::Alive { options };
    let s = ser_msg(m);
    reveal(ser_msg);
    reveal(p_msg_raw);
    reveal(p_body_alive);
    reveal_strlit(",\"sequence\":");
    lemma_tail_head(options);
    assert(s.subrange(0, s.len() as int) =~= s);
    assert(lit_at(s, 0, s));
    assert(s =~= tag_alive() + (tail_seq(options)));
    lemma_lit_prefix(s, 0, tag_alive(), tail_seq(options));
    lemma_lit_suffix(s, 0, tag_alive(), tail_seq(options));

    let j = tag_alive().len() as int;
    assert(j + tail_seq(options).len() == s.len());
    lemma_p_tail_seq_ser(s, j, options);
}

/// Round trip for this request message.
#[verifier::rlimit(60)]
#[verifier::spinoff_prover]
pub proof fn lemma_rt_join_response(result: u32, options: MessageOptions)
    ensures
        p_msg_raw(ser_msg(MessageView::JoinResponse { result, options })) == Some(MessageView::JoinResponse { result, options }),
{
    let m = MessageView::JoinResponse { result, options };
    let s = ser_msg(m);
    reveal(ser_msg);
    reveal(p_msg_raw);
    reveal(p_body_join_response);
    reveal(p_body_join);
    reveal_strlit(",\"sequence\":");
    lemma_tail_head(options);
    assert(s.subrange(0, s.len() as int) =~= s);
    assert(lit_at(s, 0, s));
    assert(s =~= tag_join_response() + ((k_result() + ser_nat(result as int)) + tail_seq(options)));
    lemma_lit_prefix(s, 0, tag_join_response(), (k_result() + ser_nat(result as int)) + tail_seq(options));
    lemma_lit_suffix(s, 0, tag_join_response(), (k_result() + ser_nat(result as int)) + tail_seq(options));
    lemma_only_join_response(s);
    let j = tag_join_response().len() as int;
    lemma_step_key_u32(s, j, k_result(), result, tail_seq(options));
    let j1 = j + k_result().len() + ser_nat(result as int).len() as int;
    assert(j1 + tail_seq(options).len() == s.len());
    lemma_p_tail_seq_ser(s, j1, options);
}

/// Round trip for this request message.
#[verifier::rlimit(60)]
#[verifier::spinoff_prover]
pub proof fn lemma_rt_req_jobs(controller_id: u32, options: MessageOptions)
    ensures
        p_msg_raw(ser_msg(MessageView::RequestJobCardsList { controller_id, options })) == Some(MessageView::RequestJobCardsList { controller_id, options }),
{
    let m = MessageView::RequestJobCardsList { controller_id, options };
    let s = ser_msg(m);
    reveal(ser_msg);
    reveal(p_msg_raw);
    reveal(p_body_req_jobs);
    reveal_strlit(",\"sequence\":");
    lemma_tail_head(options);
    assert(s.subrange(0, s.len() as int) =~= s);
    assert(lit_at(s, 0, s));
    assert(s =~= tag_req_jobs() + ((k_cid_f() + ser_nat(controller_id as int)) + tail_seq(options)));
    lemma_lit_prefix(s, 0, tag_req_jobs(), (k_cid_f() + ser_nat(controller_id as int)) + tail_seq(options));
    lemma_lit_suffix(s, 0, tag_req_jobs(), (k_cid_f() + ser_nat(controller_id as int)) + tail_seq(options));
    lemma_only_req_jobs(s);
    let j = tag_req_jobs().len() as int;
    lemma_step_key_u32(s, j, k_cid_f(), controller_id, tail_seq(options));
    let j1 = j + k_cid_f().len() + ser_nat(controller_id as int).len() as int;
    assert(j1 + tail_seq(options).len() == s.len());
    lemma_p_tail_seq_ser(s, j1, options);
}

/// Round trip for this request message.
#[verifier::rlimit(60)]
#[verifier::spinoff_prover]
pub proof fn lemma_rt_req_mold(controller_id: u32, options: MessageOptions)
    ensures
        p_msg_raw(ser_msg(MessageView::RequestMoldData { controller_id, options })) == Some(MessageView::RequestMoldData { controller_id, options }),
{
    let m = MessageView::RequestMoldData { controller_id, options };
    let s = ser_msg(m);
    reveal(ser_msg);
    reveal(p_msg_raw);
    reveal(p_body_req_mold);
    reveal_strlit(",\"sequence\":");
    lemma_tail_head(options);
    assert(s.subrange(0, s.len() as int) =~= s);
    assert(lit_at(s, 0, s));
    assert(s =~= tag_req_mold() + ((k_cid_f() + ser_nat(controller_id as int)) + tail_seq(options)));
    lemma_lit_prefix(s, 0, tag_req_mold(), (k_cid_f() + ser_nat(controller_id as int)) + tail_seq(options));
    lemma_lit_suffix(s, 0, tag_req_mold(), (k_cid_f() + ser_nat(controller_id as int)) + tail_seq(options));
    lemma_only_req_mold(s);
    let j = tag_req_mold().len() as int;
    lemma_step_key_u32(s, j, k_cid_f(), controller_id, tail_seq(options));
    let j1 = j + k_cid_f().len() + ser_nat(controller_id as int).len() as int;
    assert(j1 + tail_seq(options).len() == s.len());
    lemma_p_tail_seq_ser(s, j1, options);
}

/// Round trip for the controller-action message.
#[verifier::rlimit(60)]
#[verifier::spinoff_prover]
pub proof fn lemma_rt_action(controller_id: u32, action_id: u32, options: MessageOptions)
    ensures
        p_msg_raw(ser_msg(MessageView::ControllerAction { controller_id, action_id, options }))
            == Some(MessageView::ControllerAction { controller_id, action_id, options }),
{
    let m = MessageView::ControllerAction { controller_id, action_id, options };
    reveal_strlit(",\"actionId\":");
    let s = ser_msg(m);
    reveal(ser_msg);
    reveal(p_msg_raw);
    reveal(p_body_action);
    reveal_strlit(",\"sequence\":");
    lemma_tail_head(options);
    assert(s.subrange(0, s.len() as int) =~= s);
    assert(lit_at(s, 0, s));
    assert(s =~= tag_action() + ((k_cid_f() + ser_nat(controller_id as int)) + ((k_action_f() + ser_nat(action_id as int)) + tail_seq(options))));
    lemma_lit_prefix(s, 0, tag_action(), (k_cid_f() + ser_nat(controller_id as int)) + ((k_action_f() + ser_nat(action_id as int)) + tail_seq(options)));
    lemma_lit_suffix(s, 0, tag_action(), (k_cid_f() + ser_nat(controller_id as int)) + ((k_action_f() + ser_nat(action_id as int)) + tail_seq(options)));
    lemma_only_action(s);
    let j = tag_action().len() as int;
    assert(((k_action_f() + ser_nat(action_id as int)) + tail_seq(options)).len() > 0);
    assert(((k_action_f() + ser_nat(action_id as int)) + tail_seq(options))[0] == k_action_f()[0]);
    lemma_step_key_u32(
        s,
        j,
        k_cid_f(),
        controller_id,
        (k_action_f() + ser_nat(action_id as int)) + tail_seq(options),
    );
    let j1 = j + k_cid_f().len() + ser_nat(controller_id as int).len() as int;
    lemma_step_key_u32(s, j1, k_action_f(), action_id, tail_seq(options));
    let j2 = j1 + k_action_f().len() + ser_nat(action_id as int).len() as int;
    assert(j2 + tail_seq(options).len() == s.len());
    lemma_p_tail_seq_ser(s, j2, options);
}

/// Round trip for the operator-login message.
#[verifier::rlimit(60)]
#[verifier::spinoff_prover]
pub proof fn lemma_rt_login(controller_id: u32, password: Seq<char>, options: MessageOptions)
    ensures
        p_msg_raw(ser_msg(MessageView::LoginOperator { controller_id, password, options }))
            == Some(MessageView::LoginOperator { controller_id, password, options }),
{
    let m = MessageView::LoginOperator { controller_id, password, options };
    reveal_strlit(",\"password\":");
    let s = ser_msg(m);
    reveal(ser_msg);
    reveal(p_msg_raw);
    reveal(p_body_login);
    reveal_strlit(",\"sequence\":");
    lemma_tail_head(options);
    assert(s.subrange(0, s.len() as int) =~= s);
    assert(lit_at(s, 0, s));
    assert(s =~= tag_login() + ((k_cid_f() + ser_nat(controller_id as int)) + ((k_password_f() + ser_str(password)) + tail_seq(options))));
    lemma_lit_prefix(s, 0, tag_login(), (k_cid_f() + ser_nat(controller_id as int)) + ((k_password_f() + ser_str(password)) + tail_seq(options)));
    lemma_lit_suffix(s, 0, tag_login(), (k_cid_f() + ser_nat(controller_id as int)) + ((k_password_f() + ser_str(password)) + tail_seq(options)));
    lemma_only_login(s);
    let j = tag_login().len() as int;
    assert(((k_password_f() + ser_str(password)) + tail_seq(options)).len() > 0);
    assert(((k_password_f() + ser_str(password)) + tail_seq(options))[0] == k_password_f()[0]);
    lemma_step_key_u32(
        s,
        j,
        k_cid_f(),
        controller_id,
        (k_password_f() + ser_str(password)) + tail_seq(options),
    );
    let j1 = j + k_cid_f().len() + ser_nat(controller_id as int).len() as int;
    crate::codec::lemma_step_key_str(s, j1, k_password_f(), password, tail_seq(options));
    let j2 = j1 + k_password_f().len() + ser_str(password).len() as int;
    assert(j2 + tail_seq(options).len() == s.len());
    lemma_p_tail_seq_ser(s, j2, options);
}

/// Round trip for the controllers-list request.
#[verifier::rlimit(100)]
#[verifier::spinoff_prover]
pub proof fn lemma_rt_req_ctrls(controller_id: Option<u32>, options: MessageOptions)
    ensures
        p_msg_raw(ser_msg(MessageView::RequestControllersList { controller_id, options }))
            == Some(MessageView::RequestControllersList { controller_id, options }),
{
    let m = MessageView::RequestControllersList { controller_id, options };
    reveal_strlit(",\"controllerId\":");
    let s = ser_msg(m);
    reveal(ser_msg);
    reveal(p_msg_raw);
    reveal(p_body_req_ctrls);
    reveal_strlit(",\"sequence\":");
    lemma_tail_head(options);
    assert(s.subrange(0, s.len() as int) =~= s);
    assert(lit_at(s, 0, s));
    assert(s =~= tag_req_ctrls() + (opt_u32_field(k_cid_f(), controller_id) + tail_seq(options)));
    lemma_lit_prefix(s, 0, tag_req_ctrls(), opt_u32_field(k_cid_f(), controller_id) + tail_seq(options));
    lemma_lit_suffix(s, 0, tag_req_ctrls(), opt_u32_field(k_cid_f(), controller_id) + tail_seq(options));
    lemma_only_req_ctrls(s);
    let j = tag_req_ctrls().len() as int;
    if controller_id is None {
        assert(opt_u32_field(k_cid_f(), controller_id) + tail_seq(options) =~= tail_seq(options));
        assert(tail_seq(options) =~= k_seq() + (ser_nat(options.sequence as int) + rb()));
        lemma_lit_prefix(s, j, k_seq(), ser_nat(options.sequence as int) + rb());
        lemma_not_lit(s, j, k_seq(), k_cid_f(), 2);
    }
    lemma_step_opt_u32(s, j, k_cid_f(), controller_id, tail_seq(options));
    let j1 = j + opt_u32_field(k_cid_f(), controller_id).len() as int;
    assert(j1 + tail_seq(options).len() == s.len());
    lemma_p_tail_seq_ser(s, j1, options);
}

/// Round trip for the mold-data read message.
#[verifier::rlimit(100)]
#[verifier::spinoff_prover]
pub proof fn lemma_rt_read_mold(
    controller_id: u32,
    field: Option<Seq<char>>,
    options: MessageOptions,
)
    ensures
        p_msg_raw(ser_msg(MessageView::ReadMoldData { controller_id, field, options })) == Some(
            MessageView::ReadMoldData { controller_id, field, options },
        ),
{
    let m = MessageView::ReadMoldData { controller_id, field, options };
    reveal_strlit(",\"field\":");
    let s = ser_msg(m);
    reveal(ser_msg);
    reveal(p_msg_raw);
    reveal(p_body_read_mold);
    reveal_strlit(",\"sequence\":");
    lemma_tail_head(options);
    assert(s.subrange(0, s.len() as int) =~= s);
    assert(lit_at(s, 0, s));
    assert(s =~= tag_read_mold() + ((k_cid_f() + ser_nat(controller_id as int)) + (crate::codec::f_opt_str(k_field_f(), field) + tail_seq(options))));
    lemma_lit_prefix(s, 0, tag_read_mold(), (k_cid_f() + ser_nat(controller_id as int)) + (crate::codec::f_opt_str(k_field_f(), field) + tail_seq(options)));
    lemma_lit_suffix(s, 0, tag_read_mold(), (k_cid_f() + ser_nat(controller_id as int)) + (crate::codec::f_opt_str(k_field_f(), field) + tail_seq(options)));
    lemma_only_read_mold(s);
    let j = tag_read_mold().len() as int;
    let frest = crate::codec::f_opt_str(k_field_f(), field) + tail_seq(options);
    match field {
        Some(t) => {
            assert(frest[0] == k_field_f()[0]);
        },
        None => {
            assert(frest =~= tail_seq(options));
            assert(frest[0] == tail_seq(options)[0]);
        },
    }
    assert(frest.len() > 0);
    assert(!is_digit(frest[0]));
    lemma_step_key_u32(s, j, k_cid_f(), controller_id, frest);
    let j1 = j + k_cid_f().len() + ser_nat(controller_id as int).len() as int;
    if field is None {
        assert(frest =~= tail_seq(options));
        assert(tail_seq(options) =~= k_seq() + (ser_nat(options.sequence as int) + rb()));
        lemma_lit_prefix(s, j1, k_seq(), ser_nat(options.sequence as int) + rb());
        lemma_not_lit(s, j1, k_seq(), k_field_f(), 2);
    }
    crate::codec::lemma_step_opt_str(s, j1, k_field_f(), field, tail_seq(options));
    let j2 = j1 + crate::codec::f_opt_str(k_field_f(), field).len() as int;
    assert(j2 + tail_seq(options).len() == s.len());
    lemma_p_tail_seq_ser(s, j2, options);
}

/// Round trip for the JOIN handshake message.
#[verifier::rlimit(100)]
#[verifier::spinoff_prover]
pub proof fn lemma_rt_join(
    version: Seq<char>,
    password: Seq<char>,
    filter: Seq<Filter>,
    options: MessageOptions,
)
    ensures
        p_msg_raw(ser_msg(MessageView::Join { version, password, filter, options })) == Some(
            MessageView::Join { version, password, filter, options },
        ),
{
    let m = MessageView::Join { version, password, filter, options };
    reveal_strlit(",\"version\":");
    reveal_strlit(",\"password\":");
    reveal_strlit(",\"filter\":");
    let s = ser_msg(m);
    reveal(ser_msg);
    reveal(p_msg_raw);
    reveal(p_body_join);
    reveal_strlit(",\"sequence\":");
    lemma_tail_head(options);
    assert(s.subrange(0, s.len() as int) =~= s);
    assert(lit_at(s, 0, s));
    assert(s =~= tag_join() + ((k_version_f() + ser_str(version)) + ((k_password_f() + ser_str(password)) + ((k_filter_f() + ser_filters(filter)) + tail_seq(options)))));
    lemma_lit_prefix(s, 0, tag_join(), (k_version_f() + ser_str(version)) + ((k_password_f() + ser_str(password)) + ((k_filter_f() + ser_filters(filter)) + tail_seq(options))));
    lemma_lit_suffix(s, 0, tag_join(), (k_version_f() + ser_str(version)) + ((k_password_f() + ser_str(password)) + ((k_filter_f() + ser_filters(filter)) + tail_seq(options))));
    lemma_only_join(s);
    let j = tag_join().len() as int;
    crate::codec::lemma_step_key_str(
        s,
        j,
        k_version_f(),
        version,
        (k_password_f() + ser_str(password)) + ((k_filter_f() + ser_filters(filter)) + tail_seq(
            options,
        )),
    );
    let j1 = j + k_version_f().len() + ser_str(version).len() as int;
    crate::codec::lemma_step_key_str(
        s,
        j1,
        k_password_f(),
        password,
        (k_filter_f() + ser_filters(filter)) + tail_seq(options),
    );
    let j2 = j1 + k_password_f().len() + ser_str(password).len() as int;
    lemma_rt_join_filters(s, j2, filter, options);
    let j3 = j2 + k_filter_f().len() as int;
    let j4 = j3 + ser_filters(filter).len() as int;
    assert(p_body_join(s) == Some(m));
}

/// The filter array and the closing fields of a JOIN message.
#[verifier::rlimit(100)]
#[verifier::spinoff_prover]
pub proof fn lemma_rt_join_filters(
    s: Seq<char>,
    j2: int,
    filter: Seq<Filter>,
    options: MessageOptions,
)
    requires
        0 <= j2,
        lit_at(s, j2, (k_filter_f() + ser_filters(filter)) + tail_seq(options)),
        j2 + ((k_filter_f() + ser_filters(filter)) + tail_seq(options)).len() == s.len(),
    ensures
        lit_at(s, j2, k_filter_f()),
        p_filters(s, j2 + k_filter_f().len() as int) == Some(
            (filter, j2 + k_filter_f().len() + ser_filters(filter).len() as int),
        ),
        p_tail_seq(s, j2 + k_filter_f().len() + ser_filters(filter).len() as int) == Some(
            options.sequence,
        ),
{
    assert((k_filter_f() + ser_filters(filter)) + tail_seq(options) =~= k_filter_f() + (
    ser_filters(filter) + tail_seq(options)));
    lemma_lit_prefix(s, j2, k_filter_f(), ser_filters(filter) + tail_seq(options));
    lemma_lit_suffix(s, j2, k_filter_f(), ser_filters(filter) + tail_seq(options));
    let j3 = j2 + k_filter_f().len() as int;
    lemma_lit_prefix(s, j3, ser_filters(filter), tail_seq(options));
    lemma_lit_suffix(s, j3, ser_filters(filter), tail_seq(options));
    lemma_p_filters_ser(s, j3, filter);
    let j4 = j3 + ser_filters(filter).len() as int;
    assert(j4 + tail_seq(options).len() == s.len());
    lemma_p_tail_seq_ser(s, j4, options);
}

/// Round trip for the controllers list.
#[verifier::rlimit(100)]
#[verifier::spinoff_prover]
pub proof fn lemma_rt_ctrls(data: Seq<ControllerView>, options: MessageOptions)
    requires
        forall|k: int| 0 <= k < data.len() ==> controller_wf(#[trigger] data[k]),
    ensures
        p_msg_raw(ser_msg(MessageView::ControllersList { data, options })) == Some(
            MessageView::ControllersList { data, options },
        ),
{
    let m = MessageView::ControllersList { data, options };
    reveal_strlit(",\"data\":");
    let s = ser_msg(m);
    reveal(ser_msg);
    reveal(p_msg_raw);
    reveal(p_body_ctrls);
    reveal_strlit(",\"sequence\":");
    lemma_tail_head(options);
    assert(s.subrange(0, s.len() as int) =~= s);
    assert(lit_at(s, 0, s));
    assert(s =~= tag_ctrls() + ((k_data_f() + ser_clist(data)) + tail_seq(options)));
    lemma_lit_prefix(s, 0, tag_ctrls(), (k_data_f() + ser_clist(data)) + tail_seq(options));
    lemma_lit_suffix(s, 0, tag_ctrls(), (k_data_f() + ser_clist(data)) + tail_seq(options));
    lemma_only_ctrls(s);
    let j = tag_ctrls().len() as int;
    assert((k_data_f() + ser_clist(data)) + tail_seq(options) =~= k_data_f() + (ser_clist(data)
        + tail_seq(options)));
    lemma_lit_prefix(s, j, k_data_f(), ser_clist(data) + tail_seq(options));
    lemma_lit_suffix(s, j, k_data_f(), ser_clist(data) + tail_seq(options));
    let j1 = j + k_data_f().len() as int;
    lemma_lit_prefix(s, j1, ser_clist(data), tail_seq(options));
    lemma_lit_suffix(s, j1, ser_clist(data), tail_seq(options));
    lemma_p_clist_ser(s, j1, data);
    let j2 = j1 + ser_clist(data).len() as int;
    assert(j2 + tail_seq(options).len() == s.len());
    lemma_p_tail_seq_ser(s, j2, options);
}

/// Round trip for the job-cards list.
#[verifier::rlimit(100)]
#[verifier::spinoff_prover]
pub proof fn lemma_rt_jobs(controller_id: u32, data: Seq<JobCardView>, options: MessageOptions)
    ensures
        p_msg_raw(ser_msg(MessageView::JobCardsList { controller_id, data, options })) == Some(
            MessageView::JobCardsList { controller_id, data, options },
        ),
{
    let m = MessageView::JobCardsList { controller_id, data, options };
    reveal_strlit(",\"data\":");
    let s = ser_msg(m);
    reveal(ser_msg);
    reveal(p_msg_raw);
    reveal(p_body_jobs);
    reveal_strlit(",\"sequence\":");
    lemma_tail_head(options);
    assert(s.subrange(0, s.len() as int) =~= s);
    assert(lit_at(s, 0, s));
    assert(s =~= tag_jobs() + ((k_cid_f() + ser_nat(controller_id as int)) + ((k_data_f() + ser_jlist(data)) + tail_seq(options))));
    lemma_lit_prefix(s, 0, tag_jobs(), (k_cid_f() + ser_nat(controller_id as int)) + ((k_data_f() + ser_jlist(data)) + tail_seq(options)));
    lemma_lit_suffix(s, 0, tag_jobs(), (k_cid_f() + ser_nat(controller_id as int)) + ((k_data_f() + ser_jlist(data)) + tail_seq(options)));
    lemma_only_jobs(s);
    let j = tag_jobs().len() as int;
    assert(((k_data_f() + ser_jlist(data)) + tail_seq(options)).len() > 0);
    assert(((k_data_f() + ser_jlist(data)) + tail_seq(options))[0] == k_data_f()[0]);
    lemma_step_key_u32(
        s,
        j,
        k_cid_f(),
        controller_id,
        (k_data_f() + ser_jlist(data)) + tail_seq(options),
    );
    let j1 = j + k_cid_f().len() + ser_nat(controller_id as int).len() as int;
    assert((k_data_f() + ser_jlist(data)) + tail_seq(options) =~= k_data_f() + (ser_jlist(data)
        + tail_seq(options)));
    lemma_lit_prefix(s, j1, k_data_f(), ser_jlist(data) + tail_seq(options));
    lemma_lit_suffix(s, j1, k_data_f(), ser_jlist(data) + tail_seq(options));
    let j2 = j1 + k_data_f().len() as int;
    lemma_lit_prefix(s, j2, ser_jlist(data), tail_seq(options));
    lemma_lit_suffix(s, j2, ser_jlist(data), tail_seq(options));
    lemma_p_jlist_ser(s, j2, data);
    let j3 = j2 + ser_jlist(data).len() as int;
    assert(j3 + tail_seq(options).len() == s.len());
    lemma_p_tail_seq_ser(s, j3, options);
}

/// Round trip for the operator-info verdict.
#[verifier::rlimit(100)]
#[verifier::spinoff_prover]
pub proof fn lemma_rt_op_info(
    controller_id: u32,
    operator_id: Option<u32>,
    name: Seq<char>,
    password: Seq<char>,
    level: u8,
    options: MessageOptions,
)
    ensures
        p_msg_raw(
            ser_msg(
                MessageView::OperatorInfo {
                    controller_id,
                    operator_id,
                    name,
                    password,
                    level,
                    options,
                },
            ),
        ) == Some(
            MessageView::OperatorInfo {
                controller_id,
                operator_id,
                name,
                password,
                level,
                options,
            },
        ),
{
    let m = MessageView::OperatorInfo {
        controller_id,
        operator_id,
        name,
        password,
        level,
        options,
    };
    reveal_strlit(",\"operatorId\":");
    reveal_strlit(",\"name\":");
    let s = ser_msg(m);
    reveal(ser_msg);
    reveal(p_msg_raw);
    reveal(p_body_op_info);
    reveal_strlit(",\"sequence\":");
    lemma_tail_head(options);
    assert(s.subrange(0, s.len() as int) =~= s);
    assert(lit_at(s, 0, s));
    assert(s =~= tag_op_info() + ((k_cid_f() + ser_nat(controller_id as int)) + (opt_u32_field(k_opid_f(), operator_id) + ((k_name_f() + ser_str(name)) + ((k_password_f() + ser_str(password)) + ((k_level_f() + ser_nat(level as int)) + tail_seq(options)))))));
    lemma_lit_prefix(s, 0, tag_op_info(), (k_cid_f() + ser_nat(controller_id as int)) + (opt_u32_field(k_opid_f(), operator_id) + ((k_name_f() + ser_str(name)) + ((k_password_f() + ser_str(password)) + ((k_level_f() + ser_nat(level as int)) + tail_seq(options))))));
    lemma_lit_suffix(s, 0, tag_op_info(), (k_cid_f() + ser_nat(controller_id as int)) + (opt_u32_field(k_opid_f(), operator_id) + ((k_name_f() + ser_str(name)) + ((k_password_f() + ser_str(password)) + ((k_level_f() + ser_nat(level as int)) + tail_seq(options))))));
    lemma_only_op_info(s);
    let j = tag_op_info().len() as int;
    let after_oid = (k_name_f() + ser_str(name)) + ((k_password_f() + ser_str(password)) + ((
    k_level_f() + ser_nat(level as int)) + tail_seq(options)));
    let r0 = opt_u32_field(k_opid_f(), operator_id) + after_oid;
    match operator_id {
        Some(oid) => {
            assert(r0[0] == k_opid_f()[0]);
        },
        None => {
            assert(r0 =~= after_oid);
            assert(r0[0] == k_name_f()[0]);
        },
    }
    assert(r0.len() > 0);
    assert(!is_digit(r0[0]));
    lemma_step_key_u32(s, j, k_cid_f(), controller_id, r0);
    let j1 = j + k_cid_f().len() + ser_nat(controller_id as int).len() as int;
    if operator_id is None {
        assert(r0 =~= after_oid);
        assert(after_oid =~= k_name_f() + (ser_str(name) + ((k_password_f() + ser_str(password))
            + ((k_level_f() + ser_nat(level as int)) + tail_seq(options)))));
        lemma_lit_prefix(
            s,
            j1,
            k_name_f(),
            ser_str(name) + ((k_password_f() + ser_str(password)) + ((k_level_f() + ser_nat(
                level as int,
            )) + tail_seq(options))),
        );
        lemma_not_lit(s, j1, k_name_f(), k_opid_f(), 2);
    }
    assert(after_oid.len() > 0);
    assert(after_oid[0] == k_name_f()[0]);
    assert(!is_digit(after_oid[0]));
    lemma_step_opt_u32(s, j1, k_opid_f(), operator_id, after_oid);
    let j2 = j1 + opt_u32_field(k_opid_f(), operator_id).len() as int;
    crate::codec::lemma_step_key_str(
        s,
        j2,
        k_name_f(),
        name,
        (k_password_f() + ser_str(password)) + ((k_level_f() + ser_nat(level as int)) + tail_seq(
            options,
        )),
    );
    let j3 = j2 + k_name_f().len() + ser_str(name).len() as int;
    crate::codec::lemma_step_key_str(
        s,
        j3,
        k_password_f(),
        password,
        (k_level_f() + ser_nat(level as int)) + tail_seq(options),
    );
    let j4 = j3 + k_password_f().len() + ser_str(password).len() as int;
    lemma_step_key_u32(s, j4, k_level_f(), level as u32, tail_seq(options));
    let j5 = j4 + k_level_f().len() + ser_nat(level as int).len() as int;
    assert(j5 + tail_seq(options).len() == s.len());
    lemma_p_tail_seq_ser(s, j5, options);
}

/// Two adjacent windows of a string join into one.
pub proof fn lemma_subrange_join(s: Seq<char>, i: int, m: int, j: int)
    requires
        0 <= i <= m <= j <= s.len(),
    ensures
        s.subrange(i, j) == s.subrange(i, m) + s.subrange(m, j),
{
    assert(s.subrange(i, j) =~= s.subrange(i, m) + s.subrange(m, j));
}

/// The closing-fields parser accepts only the canonical rendering of the
/// sequence number it returns.
pub proof fn lemma_p_tail_seq_sound(s: Seq<char>, i: int, n: u32)
    requires
        0 <= i <= s.len(),
        p_tail_seq(s, i) == Some(n),
    ensures
        s.subrange(i, s.len() as int) == tail_seq(MessageOptions { sequence: n }),
{
    reveal_strlit("}");
    let l = k_seq().len() as int;
    let j = crate::lex::p_u32(s, i + l).unwrap().1;
    crate::lex::lemma_p_u32_sound(s, i + l, n, j);
    assert(s[j] == '}');
    assert(s.subrange(j, j + 1) =~= rb());
    lemma_subrange_join(s, i, i + l, j);
    lemma_subrange_join(s, i, j, j + 1);
    assert(s.subrange(i, i + l) == k_seq());
    assert(s.subrange(i, s.len() as int) =~= tail_seq(MessageOptions { sequence: n }));
}

/// An accepted keep-alive text is exactly the canonical rendering of the
/// message it parses to: the parser admits no other spelling.  The same
/// holds of the other variants by the same construction; this lemma states
/// it for the keep-alive.
#[verifier::rlimit(100)]
#[verifier::spinoff_prover]
pub proof fn lemma_parse_alive_sound(s: Seq<char>, options: MessageOptions)
    requires
        p_msg(s) == Some(MessageView::Alive { options }),
    ensures
        s == ser_msg(MessageView::Alive { options }),
{
    reveal(p_msg_raw);
    reveal(p_body_alive);
    reveal(p_body_join);
    reveal(p_body_join_response);
    reveal(p_body_req_ctrls);
    reveal(p_body_ctrls);
    reveal(p_body_req_jobs);
    reveal(p_body_jobs);
    reveal(p_body_req_mold);
    reveal(p_body_read_mold);
    reveal(p_body_action);
    reveal(p_body_login);
    reveal(p_body_op_info);
    reveal(ser_msg);
    assert(lit_at(s, 0, tag_alive()));
    let l = tag_alive().len() as int;
    assert(p_tail_seq(s, l) == Some(options.sequence));
    lemma_p_tail_seq_sound(s, l, options.sequence);
    assert(s.subrange(0, l) == tag_alive());
    lemma_subrange_join(s, 0, l, s.len() as int);
    assert(s.subrange(0, s.len() as int) =~= s);
}

/// The same, for a JOIN response: accepted texts are canonical.
#[verifier::rlimit(100)]
#[verifier::spinoff_prover]
pub proof fn lemma_parse_join_response_sound(s: Seq<char>, result: u32, options: MessageOptions)
    requires
        p_msg(s) == Some(MessageView::JoinResponse { result, options }),
    ensures
        s == ser_msg(MessageView::JoinResponse { result, options }),
{
    reveal(p_msg_raw);
    reveal(p_body_alive);
    reveal(p_body_join);
    reveal(p_body_join_response);
    reveal(p_body_req_ctrls);
    reveal(p_body_ctrls);
    reveal(p_body_req_jobs);
    reveal(p_body_jobs);
    reveal(p_body_req_mold);
    reveal(p_body_read_mold);
    reveal(p_body_action);
    reveal(p_body_login);
    reveal(p_body_op_info);
    reveal(ser_msg);
    assert(lit_at(s, 0, tag_join_response()));
    let l = tag_join_response().len() as int;
    assert(lit_at(s, l, k_result()));
    let l2 = l + k_result().len() as int;
    let j = p_u32(s, l2).unwrap().1;
    crate::lex::lemma_p_u32_sound(s, l2, result, j);
    assert(p_tail_seq(s, j) == Some(options.sequence));
    lemma_p_tail_seq_sound(s, j, options.sequence);
    lemma_subrange_join(s, l2, j, s.len() as int);
    lemma_subrange_join(s, l, l2, s.len() as int);
    lemma_subrange_join(s, 0, l, s.len() as int);
    assert(s.subrange(0, s.len() as int) == tag_join_response() + (k_result() + (ser_nat(result as int)
        + tail_seq(options))));
    assert(tag_join_response() + (k_result() + (ser_nat(result as int) + tail_seq(options))) =~= ser_msg(
        MessageView::JoinResponse { result, options },
    ));
    assert(s.subrange(0, s.len() as int) =~= s);
}

/// The same, for a job-cards request: accepted texts are canonical.
#[verifier::rlimit(100)]
#[verifier::spinoff_prover]
pub proof fn lemma_parse_req_jobs_sound(s: Seq<char>, controller_id: u32, options: MessageOptions)
    requires
        p_msg(s) == Some(MessageView::RequestJobCardsList { controller_id, options }),
    ensures
        s == ser_msg(MessageView::RequestJobCardsList { controller_id, options }),
{
    reveal(p_msg_raw);
    reveal(p_body_alive);
    reveal(p_body_join);
    reveal(p_body_join_response);
    reveal(p_body_req_ctrls);
    reveal(p_body_ctrls);
    reveal(p_body_req_jobs);
    reveal(p_body_jobs);
    reveal(p_body_req_mold);
    reveal(p_body_read_mold);
    reveal(p_body_action);
    reveal(p_body_login);
    reveal(p_body_op_info);
    reveal(ser_msg);
    assert(lit_at(s, 0, tag_req_jobs()));
    let l = tag_req_jobs().len() as int;
    assert(lit_at(s, l, k_cid_f()));
    let l2 = l + k_cid_f().len() as int;
    let j = p_u32(s, l2).unwrap().1;
    crate::lex::lemma_p_u32_sound(s, l2, controller_id, j);
    assert(p_tail_seq(s, j) == Some(options.sequence));
    lemma_p_tail_seq_sound(s, j, options.sequence);
    lemma_subrange_join(s, l2, j, s.len() as int);
    lemma_subrange_join(s, l, l2, s.len() as int);
    lemma_subrange_join(s, 0, l, s.len() as int);
    assert(s.subrange(0, s.len() as int) == tag_req_jobs() + (k_cid_f() + (ser_nat(controller_id as int)
        + tail_seq(options))));
    assert(tag_req_jobs() + (k_cid_f() + (ser_nat(controller_id as int) + tail_seq(options))) =~= ser_msg(
        MessageView::RequestJobCardsList { controller_id, options },
    ));
    assert(s.subrange(0, s.len() as int) =~= s);
}

/// The same, for a mold-data request: accepted texts are canonical.
#[verifier::rlimit(100)]
#[verifier::spinoff_prover]
pub proof fn lemma_parse_req_mold_sound(s: Seq<char>, controller_id: u32, options: MessageOptions)
    requires
        p_msg(s) == Some(MessageView::RequestMoldData { controller_id, options }),
    ensures
        s == ser_msg(MessageView::RequestMoldData { controller_id, options }),
{
    reveal(p_msg_raw);
    reveal(p_body_alive);
    reveal(p_body_join);
    reveal(p_body_join_response);
    reveal(p_body_req_ctrls);
    reveal(p_body_ctrls);
    reveal(p_body_req_jobs);
    reveal(p_body_jobs);
    reveal(p_body_req_mold);
    reveal(p_body_read_mold);
    reveal(p_body_action);
    reveal(p_body_login);
    reveal(p_body_op_info);
    reveal(ser_msg);
    assert(lit_at(s, 0, tag_req_mold()));
    let l = tag_req_mold().len() as int;
    assert(lit_at(s, l, k_cid_f()));
    let l2 = l + k_cid_f().len() as int;
    let j = p_u32(s, l2).unwrap().1;
    crate::lex::lemma_p_u32_sound(s, l2, controller_id, j);
    assert(p_tail_seq(s, j) == Some(options.sequence));
    lemma_p_tail_seq_sound(s, j, options.sequence);
    lemma_subrange_join(s, l2, j, s.len() as int);
    lemma_subrange_join(s, l, l2, s.len() as int);
    lemma_subrange_join(s, 0, l, s.len() as int);
    assert(s.subrange(0, s.len() as int) == tag_req_mold() + (k_cid_f() + (ser_nat(controller_id as int)
        + tail_seq(options))));
    assert(tag_req_mold() + (k_cid_f() + (ser_nat(controller_id as int) + tail_seq(options))) =~= ser_msg(
        MessageView::RequestMoldData { controller_id, options },
    ));
    assert(s.subrange(0, s.len() as int) =~= s);
}

/// The same, for a controller action: accepted texts are canonical.
#[verifier::rlimit(100)]
#[verifier::spinoff_prover]
pub proof fn lemma_parse_action_sound(
    s: Seq<char>,
    controller_id: u32,
    action_id: u32,
    options: MessageOptions,
)
    requires
        p_msg(s) == Some(MessageView::ControllerAction { controller_id, action_id, options }),
    ensures
        s == ser_msg(MessageView::ControllerAction { controller_id, action_id, options }),
{
    reveal(p_msg_raw);
    reveal(p_body_alive);
    reveal(p_body_join);
    reveal(p_body_join_response);
    reveal(p_body_req_ctrls);
    reveal(p_body_ctrls);
    reveal(p_body_req_jobs);
    reveal(p_body_jobs);
    reveal(p_body_req_mold);
    reveal(p_body_read_mold);
    reveal(p_body_action);
    reveal(p_body_login);
    reveal(p_body_op_info);
    reveal(ser_msg);
    assert(lit_at(s, 0, tag_action()));
    let l = tag_action().len() as int;
    assert(lit_at(s, l, k_cid_f()));
    let l2 = l + k_cid_f().len() as int;
    let j1 = p_u32(s, l2).unwrap().1;
    crate::lex::lemma_p_u32_sound(s, l2, controller_id, j1);
    assert(lit_at(s, j1, k_action_f()));
    let l3 = j1 + k_action_f().len() as int;
    let j2 = p_u32(s, l3).unwrap().1;
    crate::lex::lemma_p_u32_sound(s, l3, action_id, j2);
    assert(p_tail_seq(s, j2) == Some(options.sequence));
    lemma_p_tail_seq_sound(s, j2, options.sequence);
    lemma_subrange_join(s, l3, j2, s.len() as int);
    lemma_subrange_join(s, j1, l3, s.len() as int);
    lemma_subrange_join(s, l2, j1, s.len() as int);
    lemma_subrange_join(s, l, l2, s.len() as int);
    lemma_subrange_join(s, 0, l, s.len() as int);
    assert(s.subrange(0, s.len() as int) == tag_action() + (k_cid_f() + (ser_nat(
        controller_id as int,
    ) + (k_action_f() + (ser_nat(action_id as int) + tail_seq(options))))));
    assert(tag_action() + (k_cid_f() + (ser_nat(controller_id as int) + (k_action_f() + (ser_nat(
        action_id as int,
    ) + tail_seq(options))))) =~= ser_msg(
        MessageView::ControllerAction { controller_id, action_id, options },
    ));
    assert(s.subrange(0, s.len() as int) =~= s);
}

/// The same, for an operator login: accepted texts are canonical.
#[verifier::rlimit(100)]
#[verifier::spinoff_prover]
pub proof fn lemma_parse_login_sound(
    s: Seq<char>,
    controller_id: u32,
    password: Seq<char>,
    options: MessageOptions,
)
    requires
        p_msg(s) == Some(MessageView::LoginOperator { controller_id, password, options }),
    ensures
        s == ser_msg(MessageView::LoginOperator { controller_id, password, options }),
{
    reveal(p_msg_raw);
    reveal(p_body_alive);
    reveal(p_body_join);
    reveal(p_body_join_response);
    reveal(p_body_req_ctrls);
    reveal(p_body_ctrls);
    reveal(p_body_req_jobs);
    reveal(p_body_jobs);
    reveal(p_body_req_mold);
    reveal(p_body_read_mold);
    reveal(p_body_action);
    reveal(p_body_login);
    reveal(p_body_op_info);
    reveal(ser_msg);
    assert(lit_at(s, 0, tag_login()));
    let l = tag_login().len() as int;
    assert(lit_at(s, l, k_cid_f()));
    let l2 = l + k_cid_f().len() as int;
    let j1 = p_u32(s, l2).unwrap().1;
    crate::lex::lemma_p_u32_sound(s, l2, controller_id, j1);
    assert(lit_at(s, j1, k_password_f()));
    let l3 = j1 + k_password_f().len() as int;
    let j2 = p_str(s, l3).unwrap().1;
    crate::lex::lemma_p_str_sound(s, l3, password, j2);
    assert(p_tail_seq(s, j2) == Some(options.sequence));
    lemma_p_tail_seq_sound(s, j2, options.sequence);
    lemma_subrange_join(s, l3, j2, s.len() as int);
    lemma_subrange_join(s, j1, l3, s.len() as int);
    lemma_subrange_join(s, l2, j1, s.len() as int);
    lemma_subrange_join(s, l, l2, s.len() as int);
    lemma_subrange_join(s, 0, l, s.len() as int);
    assert(s.subrange(0, s.len() as int) == tag_login() + (k_cid_f() + (ser_nat(
        controller_id as int,
    ) + (k_password_f() + (ser_str(password) + tail_seq(options))))));
    assert(tag_login() + (k_cid_f() + (ser_nat(controller_id as int) + (k_password_f() + (
    ser_str(password) + tail_seq(options))))) =~= ser_msg(
        MessageView::LoginOperator { controller_id, password, options },
    ));
    assert(s.subrange(0, s.len() as int) =~= s);
}

/// The same, for a controllers-list request, with or without an ID:
/// accepted texts are canonical.
#[verifier::rlimit(100)]
#[verifier::spinoff_prover]
pub proof fn lemma_parse_req_ctrls_sound(
    s: Seq<char>,
    controller_id: Option<u32>,
    options: MessageOptions,
)
    requires
        p_msg(s) == Some(MessageView::RequestControllersList { controller_id, options }),
    ensures
        s == ser_msg(MessageView::RequestControllersList { controller_id, options }),
{
    reveal(p_msg_raw);
    reveal(p_body_alive);
    reveal(p_body_join);
    reveal(p_body_join_response);
    reveal(p_body_req_ctrls);
    reveal(p_body_ctrls);
    reveal(p_body_req_jobs);
    reveal(p_body_jobs);
    reveal(p_body_req_mold);
    reveal(p_body_read_mold);
    reveal(p_body_action);
    reveal(p_body_login);
    reveal(p_body_op_info);
    reveal(ser_msg);
    assert(lit_at(s, 0, tag_req_ctrls()));
    let l = tag_req_ctrls().len() as int;
    match controller_id {
        Some(cid) => {
            assert(lit_at(s, l, k_cid_f()));
            let l2 = l + k_cid_f().len() as int;
            let j1 = p_u32(s, l2).unwrap().1;
            crate::lex::lemma_p_u32_sound(s, l2, cid, j1);
            assert(p_tail_seq(s, j1) == Some(options.sequence));
            lemma_p_tail_seq_sound(s, j1, options.sequence);
            lemma_subrange_join(s, l2, j1, s.len() as int);
            lemma_subrange_join(s, l, l2, s.len() as int);
            lemma_subrange_join(s, 0, l, s.len() as int);
            assert(s.subrange(0, s.len() as int) == tag_req_ctrls() + (k_cid_f() + (ser_nat(
                cid as int,
            ) + tail_seq(options))));
            assert(tag_req_ctrls() + (k_cid_f() + (ser_nat(cid as int) + tail_seq(options)))
                =~= ser_msg(MessageView::RequestControllersList { controller_id, options }));
        },
        None => {
            assert(p_tail_seq(s, l) == Some(options.sequence));
            lemma_p_tail_seq_sound(s, l, options.sequence);
            lemma_subrange_join(s, 0, l, s.len() as int);
            assert(s.subrange(0, s.len() as int) == tag_req_ctrls() + tail_seq(options));
            assert(tag_req_ctrls() + tail_seq(options) =~= ser_msg(
                MessageView::RequestControllersList { controller_id, options },
            ));
        },
    }
    assert(s.subrange(0, s.len() as int) =~= s);
}

/// The same, for a mold-data read, with or without a field selector:
/// accepted texts are canonical.
#[verifier::rlimit(100)]
#[verifier::spinoff_prover]
pub proof fn lemma_parse_read_mold_sound(
    s: Seq<char>,
    controller_id: u32,
    field: Option<Seq<char>>,
    options: MessageOptions,
)
    requires
        p_msg(s) == Some(MessageView::ReadMoldData { controller_id, field, options }),
    ensures
        s == ser_msg(MessageView::ReadMoldData { controller_id, field, options }),
{
    reveal(p_msg_raw);
    reveal(p_body_alive);
    reveal(p_body_join);
    reveal(p_body_join_response);
    reveal(p_body_req_ctrls);
    reveal(p_body_ctrls);
    reveal(p_body_req_jobs);
    reveal(p_body_jobs);
    reveal(p_body_req_mold);
    reveal(p_body_read_mold);
    reveal(p_body_action);
    reveal(p_body_login);
    reveal(p_body_op_info);
    reveal(ser_msg);
    assert(lit_at(s, 0, tag_read_mold()));
    let l = tag_read_mold().len() as int;
    assert(lit_at(s, l, k_cid_f()));
    let l2 = l + k_cid_f().len() as int;
    let j1 = p_u32(s, l2).unwrap().1;
    crate::lex::lemma_p_u32_sound(s, l2, controller_id, j1);
    match field {
        Some(t) => {
            assert(lit_at(s, j1, k_field_f()));
            let l3 = j1 + k_field_f().len() as int;
            let j2 = p_str(s, l3).unwrap().1;
            crate::lex::lemma_p_str_sound(s, l3, t, j2);
            assert(p_tail_seq(s, j2) == Some(options.sequence));
            lemma_p_tail_seq_sound(s, j2, options.sequence);
            lemma_subrange_join(s, l3, j2, s.len() as int);
            lemma_subrange_join(s, j1, l3, s.len() as int);
            lemma_subrange_join(s, l2, j1, s.len() as int);
            lemma_subrange_join(s, l, l2, s.len() as int);
            lemma_subrange_join(s, 0, l, s.len() as int);
            assert(s.subrange(0, s.len() as int) == tag_read_mold() + (k_cid_f() + (ser_nat(
                controller_id as int,
            ) + (k_field_f() + (ser_str(t) + tail_seq(options))))));
            assert(tag_read_mold() + (k_cid_f() + (ser_nat(controller_id as int) + (k_field_f()
                + (ser_str(t) + tail_seq(options))))) =~= ser_msg(
                MessageView::ReadMoldData { controller_id, field, options },
            ));
        },
        None => {
            assert(p_tail_seq(s, j1) == Some(options.sequence));
            lemma_p_tail_seq_sound(s, j1, options.sequence);
            lemma_subrange_join(s, l2, j1, s.len() as int);
            lemma_subrange_join(s, l, l2, s.len() as int);
            lemma_subrange_join(s, 0, l, s.len() as int);
            assert(s.subrange(0, s.len() as int) == tag_read_mold() + (k_cid_f() + (ser_nat(
                controller_id as int,
            ) + tail_seq(options))));
            assert(tag_read_mold() + (k_cid_f() + (ser_nat(controller_id as int) + tail_seq(
                options,
            ))) =~= ser_msg(MessageView::ReadMoldData { controller_id, field, options }));
        },
    }
    assert(s.subrange(0, s.len() as int) =~= s);
}

/// The same, for an operator-info verdict, with or without an operator
/// ID: accepted texts are canonical.
#[verifier::rlimit(100)]
#[verifier::spinoff_prover]
pub proof fn lemma_parse_op_info_sound(
    s: Seq<char>,
    controller_id: u32,
    operator_id: Option<u32>,
    name: Seq<char>,
    password: Seq<char>,
    level: u8,
    options: MessageOptions,
)
    requires
        p_msg(s) == Some(
            MessageView::OperatorInfo {
                controller_id,
                operator_id,
                name,
                password,
                level,
                options,
            },
        ),
    ensures
        s == ser_msg(
            MessageView::OperatorInfo {
                controller_id,
                operator_id,
                name,
                password,
                level,
                options,
            },
        ),
{
    reveal(p_msg_raw);
    reveal(p_body_alive);
    reveal(p_body_join);
    reveal(p_body_join_response);
    reveal(p_body_req_ctrls);
    reveal(p_body_ctrls);
    reveal(p_body_req_jobs);
    reveal(p_body_jobs);
    reveal(p_body_req_mold);
    reveal(p_body_read_mold);
    reveal(p_body_action);
    reveal(p_body_login);
    reveal(p_body_op_info);
    reveal(ser_msg);
    let m = MessageView::OperatorInfo {
        controller_id,
        operator_id,
        name,
        password,
        level,
        options,
    };
    assert(lit_at(s, 0, tag_op_info()));
    let l = tag_op_info().len() as int;
    assert(lit_at(s, l, k_cid_f()));
    let l2 = l + k_cid_f().len() as int;
    let j1 = p_u32(s, l2).unwrap().1;
    crate::lex::lemma_p_u32_sound(s, l2, controller_id, j1);
    let j2: int = match operator_id {
        Some(oid) => {
            assert(lit_at(s, j1, k_opid_f()));
            let lo = j1 + k_opid_f().len() as int;
            let jo = p_u32(s, lo).unwrap().1;
            crate::lex::lemma_p_u32_sound(s, lo, oid, jo);
            lemma_subrange_join(s, j1, lo, jo);
            assert(s.subrange(j1, jo) == k_opid_f() + ser_nat(oid as int));
            assert(s.subrange(j1, jo) =~= opt_u32_field(k_opid_f(), operator_id));
            jo
        },
        None => {
            assert(s.subrange(j1, j1) =~= opt_u32_field(k_opid_f(), operator_id));
            j1
        },
    };
    assert(s.subrange(j1, j2) == opt_u32_field(k_opid_f(), operator_id));
    assert(lit_at(s, j2, k_name_f()));
    let l3 = j2 + k_name_f().len() as int;
    let j3 = p_str(s, l3).unwrap().1;
    crate::lex::lemma_p_str_sound(s, l3, name, j3);
    assert(lit_at(s, j3, k_password_f()));
    let l4 = j3 + k_password_f().len() as int;
    let j4 = p_str(s, l4).unwrap().1;
    crate::lex::lemma_p_str_sound(s, l4, password, j4);
    assert(lit_at(s, j4, k_level_f()));
    let l5 = j4 + k_level_f().len() as int;
    let lv = p_u32(s, l5).unwrap().0;
    let j5 = p_u32(s, l5).unwrap().1;
    crate::lex::lemma_p_u32_sound(s, l5, lv, j5);
    assert(lv == level as u32);
    assert(lv as int == level as int);
    assert(p_tail_seq(s, j5) == Some(options.sequence));
    lemma_p_tail_seq_sound(s, j5, options.sequence);
    lemma_subrange_join(s, l5, j5, s.len() as int);
    lemma_subrange_join(s, j4, l5, s.len() as int);
    lemma_subrange_join(s, l4, j4, s.len() as int);
    lemma_subrange_join(s, j3, l4, s.len() as int);
    lemma_subrange_join(s, l3, j3, s.len() as int);
    lemma_subrange_join(s, j2, l3, s.len() as int);
    lemma_subrange_join(s, j1, j2, s.len() as int);
    lemma_subrange_join(s, l2, j1, s.len() as int);
    lemma_subrange_join(s, l, l2, s.len() as int);
    lemma_subrange_join(s, 0, l, s.len() as int);
    assert(s.subrange(0, s.len() as int) == tag_op_info() + (k_cid_f() + (ser_nat(
        controller_id as int,
    ) + (opt_u32_field(k_opid_f(), operator_id) + (k_name_f() + (ser_str(name) + (k_password_f()
        + (ser_str(password) + (k_level_f() + (ser_nat(level as int) + tail_seq(
        options,
    )))))))))));
    assert(tag_op_info() + (k_cid_f() + (ser_nat(controller_id as int) + (opt_u32_field(
        k_opid_f(),
        operator_id,
    ) + (k_name_f() + (ser_str(name) + (k_password_f() + (ser_str(password) + (k_level_f() + (
    ser_nat(level as int) + tail_seq(options)))))))))) =~= ser_msg(m));
    assert(s.subrange(0, s.len() as int) =~= s);
}

/// The filter-name parser accepts only the fixed texts it returns.
pub proof fn lemma_p_filter_tag_sound(s: Seq<char>, i: int, f: Filter, j: int)
    requires
        p_filter_tag(s, i) == Some((f, j)),
    ensures
        0 <= i < j <= s.len(),
        j == i + f_filter_tag(f).len(),
        s.subrange(i, j) == f_filter_tag(f),
{
    reveal_strlit("\"All\"");
    reveal_strlit("\"JobCards\"");
    reveal_strlit("\"Operators\"");
}

/// The filter-rest parser accepts only the canonical rendering of the
/// filters it returns, up to and including the closing bracket.
pub proof fn lemma_p_filters_rest_sound(s: Seq<char>, i: int, l: Seq<Filter>, j: int)
    requires
        0 <= i <= s.len(),
        p_filters_rest(s, i) == Some((l, j)),
    ensures
        i < j <= s.len(),
        s.subrange(i, j) == ser_filters_rest(l) + rbr(),
    decreases s.len() - i,
{
    reveal_strlit("]");
    reveal_strlit(",");
    if s[i] == ']' {
        assert(s.subrange(i, j) =~= ser_filters_rest(l) + rbr());
    } else {
        let p = p_filter_tag(s, i + 1).unwrap();
        let f = p.0;
        let j1 = p.1;
        lemma_p_filter_tag_sound(s, i + 1, f, j1);
        let inner = p_filters_rest(s, j1).unwrap();
        lemma_p_filters_rest_sound(s, j1, inner.0, j);
        assert(l == seq![f] + inner.0);
        assert(l[0] == f);
        assert(l.drop_first() =~= inner.0);
        assert(ser_filters_rest(l) == comma() + f_filter_tag(f) + ser_filters_rest(inner.0));
        lemma_subrange_join(s, i + 1, j1, j);
        lemma_subrange_join(s, i, i + 1, j);
        assert(s.subrange(i, i + 1) =~= comma());
        assert(s.subrange(i, j) =~= ser_filters_rest(l) + rbr());
    }
}

/// The filter-array parser accepts only the canonical rendering of the
/// filters it returns.
pub proof fn lemma_p_filters_sound(s: Seq<char>, i: int, l: Seq<Filter>, j: int)
    requires
        0 <= i <= s.len(),
        p_filters(s, i) == Some((l, j)),
    ensures
        i < j <= s.len(),
        s.subrange(i, j) == ser_filters(l),
{
    reveal_strlit("[");
    reveal_strlit("]");
    if i + 1 < s.len() && s[i + 1] == ']' {
        assert(s.subrange(i, j) =~= ser_filters(l));
    } else {
        let p = p_filter_tag(s, i + 1).unwrap();
        let f = p.0;
        let j1 = p.1;
        lemma_p_filter_tag_sound(s, i + 1, f, j1);
        let inner = p_filters_rest(s, j1).unwrap();
        lemma_p_filters_rest_sound(s, j1, inner.0, j);
        assert(l == seq![f] + inner.0);
        assert(l[0] == f);
        assert(l.drop_first() =~= inner.0);
        assert(ser_filters(l) == lbr() + f_filter_tag(f) + ser_filters_rest(inner.0) + rbr());
        lemma_subrange_join(s, i + 1, j1, j);
        lemma_subrange_join(s, i, i + 1, j);
        assert(s.subrange(i, i + 1) =~= lbr());
        assert(s.subrange(i, j) =~= ser_filters(l));
    }
}

/// The same, for the JOIN handshake: accepted texts are canonical.
#[verifier::rlimit(100)]
#[verifier::spinoff_prover]
pub proof fn lemma_parse_join_sound(
    s: Seq<char>,
    version: Seq<char>,
    password: Seq<char>,
    filter: Seq<Filter>,
    options: MessageOptions,
)
    requires
        p_msg(s) == Some(MessageView::Join { version, password, filter, options }),
    ensures
        s == ser_msg(MessageView::Join { version, password, filter, options }),
{
    reveal(p_msg_raw);
    reveal(p_body_alive);
    reveal(p_body_join);
    reveal(p_body_join_response);
    reveal(p_body_req_ctrls);
    reveal(p_body_ctrls);
    reveal(p_body_req_jobs);
    reveal(p_body_jobs);
    reveal(p_body_req_mold);
    reveal(p_body_read_mold);
    reveal(p_body_action);
    reveal(p_body_login);
    reveal(p_body_op_info);
    reveal(ser_msg);
    let m = MessageView::Join { version, password, filter, options };
    assert(lit_at(s, 0, tag_join()));
    let l = tag_join().len() as int;
    assert(lit_at(s, l, k_version_f()));
    let l2 = l + k_version_f().len() as int;
    let j1 = p_str(s, l2).unwrap().1;
    crate::lex::lemma_p_str_sound(s, l2, version, j1);
    assert(lit_at(s, j1, k_password_f()));
    let l3 = j1 + k_password_f().len() as int;
    let j2 = p_str(s, l3).unwrap().1;
    crate::lex::lemma_p_str_sound(s, l3, password, j2);
    assert(lit_at(s, j2, k_filter_f()));
    let l4 = j2 + k_filter_f().len() as int;
    let j3 = p_filters(s, l4).unwrap().1;
    lemma_p_filters_sound(s, l4, filter, j3);
    assert(p_tail_seq(s, j3) == Some(options.sequence));
    lemma_p_tail_seq_sound(s, j3, options.sequence);
    lemma_subrange_join(s, l4, j3, s.len() as int);
    lemma_subrange_join(s, j2, l4, s.len() as int);
    lemma_subrange_join(s, l3, j2, s.len() as int);
    lemma_subrange_join(s, j1, l3, s.len() as int);
    lemma_subrange_join(s, l2, j1, s.len() as int);
    lemma_subrange_join(s, l, l2, s.len() as int);
    lemma_subrange_join(s, 0, l, s.len() as int);
    assert(s.subrange(0, s.len() as int) == tag_join() + (k_version_f() + (ser_str(version) + (
    k_password_f() + (ser_str(password) + (k_filter_f() + (ser_filters(filter) + tail_seq(
        options,
    ))))))));
    assert(tag_join() + (k_version_f() + (ser_str(version) + (k_password_f() + (ser_str(password)
        + (k_filter_f() + (ser_filters(filter) + tail_seq(options))))))) =~= ser_msg(m));
    assert(s.subrange(0, s.len() as int) =~= s);
}

/// An accepted wire text reserializes to itself verbatim: the parser
/// admits only the canonical rendering.  Shown for every variant except
/// the two that carry keyed record lists.
pub proof fn lemma_parse_sound(s: Seq<char>, m: MessageView)
    requires
        p_msg(s) == Some(m),
        !(m is ControllersList),
        !(m is JobCardsList),
    ensures
        s == ser_msg(m),
{
    match m {
        MessageView::Alive { options } => lemma_parse_alive_sound(s, options),
        MessageView::Join { version, password, filter, options } => lemma_parse_join_sound(
            s,
            version,
            password,
            filter,
            options,
        ),
        MessageView::JoinResponse { result, options } => lemma_parse_join_response_sound(
            s,
            result,
            options,
        ),
        MessageView::RequestControllersList { controller_id, options } => {
            lemma_parse_req_ctrls_sound(s, controller_id, options)
        },
        MessageView::ControllersList { .. } => {
            assert(false);
        },
        MessageView::RequestJobCardsList { controller_id, options } => lemma_parse_req_jobs_sound(
            s,
            controller_id,
            options,
        ),
        MessageView::JobCardsList { .. } => {
            assert(false);
        },
        MessageView::RequestMoldData { controller_id, options } => lemma_parse_req_mold_sound(
            s,
            controller_id,
            options,
        ),
        MessageView::ReadMoldData { controller_id, field, options } => {
            lemma_parse_read_mold_sound(s, controller_id, field, options)
        },
        MessageView::ControllerAction { controller_id, action_id, options } => {
            lemma_parse_action_sound(s, controller_id, action_id, options)
        },
        MessageView::LoginOperator { controller_id, password, options } => {
            lemma_parse_login_sound(s, controller_id, password, options)
        },
        MessageView::OperatorInfo {
            controller_id,
            operator_id,
            name,
            password,
            level,
            options,
        } => lemma_parse_op_info_sound(
            s,
            controller_id,
            operator_id,
            name,
            password,
            level,
            options,
        ),
    }
}

/// ROUND TRIP: parsing the serialization of any well-formed message gives
/// exactly that message back.
pub proof fn lemma_round_trip(m: MessageView)
    requires
        msg_wf(m),
    ensures
        p_msg(ser_msg(m)) == Some(m),
{
    match m {
        MessageView::Alive { options } => lemma_rt_alive(options),
        MessageView::Join { version, password, filter, options } => lemma_rt_join(
            version,
            password,
            filter,
            options,
        ),
        MessageView::JoinResponse { result, options } => lemma_rt_join_response(result, options),
        MessageView::RequestControllersList { controller_id, options } => lemma_rt_req_ctrls(
            controller_id,
            options,
        ),
        MessageView::ControllersList { data, options } => lemma_rt_ctrls(data, options),
        MessageView::RequestJobCardsList { controller_id, options } => lemma_rt_req_jobs(
            controller_id,
            options,
        ),
        MessageView::JobCardsList { controller_id, data, options } => lemma_rt_jobs(
            controller_id,
            data,
            options,
        ),
        MessageView::RequestMoldData { controller_id, options } => lemma_rt_req_mold(
            controller_id,
            options,
        ),
        MessageView::ReadMoldData { controller_id, field, options } => lemma_rt_read_mold(
            controller_id,
            field,
            options,
        ),
        MessageView::ControllerAction { controller_id, action_id, options } => lemma_rt_action(
            controller_id,
            action_id,
            options,
        ),
        MessageView::LoginOperator { controller_id, password, options } => lemma_rt_login(
            controller_id,
            password,
            options,
        ),
        MessageView::OperatorInfo {
            controller_id,
            operator_id,
            name,
            password,
            level,
            options,
        } => lemma_rt_op_info(controller_id, operator_id, name, password, level, options),
    }
}


// ---------------------------------------------------------------------------
// Executable message codec
// ---------------------------------------------------------------------------
/// Emits the filter entries from index `k` on and the closing bracket.
pub fn emit_filters_rest(out: &mut Vec<char>, l: &Vec<Filter>, k: usize)
    requires
        k <= l@.len(),
    ensures
        final(out)@ == old(out)@ + ser_filters_rest(l@.skip(k as int)) + rbr(),
    decreases l@.len() - k,
{
    proof {
        reveal_strlit("]");
        reveal_strlit(",");
        reveal_strlit("\"All\"");
        reveal_strlit("\"JobCards\"");
        reveal_strlit("\"Operators\"");
    }
    if k == l.len() {
        out.push(']');
        proof {
            assert(l@.skip(k as int) =~= Seq::empty());
            assert(final(out)@ =~= old(out)@ + ser_filters_rest(Seq::empty()) + rbr());
        }
    } else {
        out.push(',');
        match l[k] {
            Filter::All => {
                let t = crate::lex::str_to_vec("\"All\"");
                crate::codec::push_seq(out, &t);
            },
            Filter::JobCards => {
                let t = crate::lex::str_to_vec("\"JobCards\"");
                crate::codec::push_seq(out, &t);
            },
            Filter::Operators => {
                let t = crate::lex::str_to_vec("\"Operators\"");
                crate::codec::push_seq(out, &t);
            },
        }
        let ghost mid = out@;
        emit_filters_rest(out, l, k + 1);
        proof {
            assert(l@.skip(k as int)[0] == l@[k as int]);
            assert(l@.skip(k as int).drop_first() =~= l@.skip(k as int + 1));
            assert(mid =~= old(out)@ + comma() + f_filter_tag(l@[k as int]));
            assert(final(out)@ =~= old(out)@ + ser_filters_rest(l@.skip(k as int)) + rbr());
        }
    }
}

/// Emits a whole filter array.
pub fn emit_filters(out: &mut Vec<char>, l: &Vec<Filter>)
    ensures
        final(out)@ == old(out)@ + ser_filters(l@),
{
    proof {
        reveal_strlit("[");
        reveal_strlit("]");
        reveal_strlit("\"All\"");
        reveal_strlit("\"JobCards\"");
        reveal_strlit("\"Operators\"");
    }
    out.push('[');
    if l.len() == 0 {
        out.push(']');
        proof {
            assert(final(out)@ =~= old(out)@ + ser_filters(l@));
        }
    } else {
        match l[0] {
            Filter::All => {
                let t = crate::lex::str_to_vec("\"All\"");
                crate::codec::push_seq(out, &t);
            },
            Filter::JobCards => {
                let t = crate::lex::str_to_vec("\"JobCards\"");
                crate::codec::push_seq(out, &t);
            },
            Filter::Operators => {
                let t = crate::lex::str_to_vec("\"Operators\"");
                crate::codec::push_seq(out, &t);
            },
        }
        let ghost mid = out@;
        emit_filters_rest(out, l, 1);
        proof {
            assert(l@.skip(1) =~= l@.drop_first());
            assert(mid =~= old(out)@ + lbr() + f_filter_tag(l@[0]));
            assert(final(out)@ =~= old(out)@ + ser_filters(l@));
        }
    }
}

/// Reads one filter name at `i`.
pub fn parse_filter_tag(v: &Vec<char>, i: usize) -> (r: Option<(Filter, usize)>)
    requires
        i <= v@.len(),
    ensures
        match r {
            Some((f, j)) => p_filter_tag(v@, i as int) == Some((f, j as int)) && i < j
                <= v@.len(),
            None => p_filter_tag(v@, i as int) is None,
        },
{
    let n = v.len();
    proof {
        reveal_strlit("\"All\"");
        reveal_strlit("\"JobCards\"");
        reveal_strlit("\"Operators\"");
    }
    let ta = crate::lex::str_to_vec("\"All\"");
    if crate::lex::match_lit(v, i, &ta) {
        return Some((Filter::All, i + ta.len()));
    }
    let tj = crate::lex::str_to_vec("\"JobCards\"");
    if crate::lex::match_lit(v, i, &tj) {
        return Some((Filter::JobCards, i + tj.len()));
    }
    let to = crate::lex::str_to_vec("\"Operators\"");
    if crate::lex::match_lit(v, i, &to) {
        return Some((Filter::Operators, i + to.len()));
    }
    None
}

/// Reads `,name` repetitions until the closing bracket.
pub fn parse_filters_rest(v: &Vec<char>, i: usize, acc: &mut Vec<Filter>) -> (r: Option<usize>)
    requires
        i <= v@.len(),
    ensures
        match r {
            Some(j) => {
                &&& p_filters_rest(v@, i as int) matches Some((l, je)) && je == j as int && (
                *final(acc))@ == (*old(acc))@ + l
                &&& i < j <= v@.len()
            },
            None => p_filters_rest(v@, i as int) is None,
        },
    decreases v@.len() - i,
{
    if i < v.len() && v[i] == ']' {
        proof {
            assert(acc@ =~= acc@ + Seq::<Filter>::empty());
        }
        return Some(i + 1);
    }
    if !(i < v.len() && v[i] == ',') {
        return None;
    }
    match parse_filter_tag(v, i + 1) {
        Some((f, j)) => {
            if !(i + 1 < j && j <= v.len()) {
                return None;
            }
            let ghost acc0 = acc@;
            acc.push(f);
            proof {
                assert(acc@ =~= acc0 + seq![f]);
            }
            match parse_filters_rest(v, j, acc) {
                Some(j2) => {
                    proof {
                        let rest = p_filters_rest(v@, j as int).unwrap().0;
                        assert((*final(acc))@ == acc0 + seq![f] + rest);
                        assert(acc0 + seq![f] + rest =~= acc0 + (seq![f] + rest));
                    }
                    Some(j2)
                },
                None => None,
            }
        },
        None => None,
    }
}

/// Reads a filter array at `i`.
pub fn parse_filters(v: &Vec<char>, i: usize) -> (r: Option<(Vec<Filter>, usize)>)
    requires
        i <= v@.len(),
    ensures
        match r {
            Some((l, j)) => p_filters(v@, i as int) == Some((l@, j as int)) && i < j <= v@.len(),
            None => p_filters(v@, i as int) is None,
        },
{
    let n = v.len();
    if !(i < n && v[i] == '[') {
        return None;
    }
    if i + 1 < n && v[i + 1] == ']' {
        let empty: Vec<Filter> = Vec::new();
        proof {
            assert(empty@ =~= Seq::<Filter>::empty());
        }
        return Some((empty, i + 2));
    }
    match parse_filter_tag(v, i + 1) {
        Some((f, j)) => {
            if !(i + 1 < j && j <= n) {
                return None;
            }
            let mut acc: Vec<Filter> = Vec::new();
            acc.push(f);
            proof {
                assert(acc@ =~= Seq::<Filter>::empty() + seq![f]);
            }
            match parse_filters_rest(v, j, &mut acc) {
                Some(j2) => {
                    proof {
                        let rest = p_filters_rest(v@, j as int).unwrap().0;
                        assert(acc@ == Seq::<Filter>::empty() + seq![f] + rest);
                        assert(Seq::<Filter>::empty() + seq![f] + rest =~= seq![f] + rest);
                    }
                    Some((acc, j2))
                },
                None => None,
            }
        },
        None => None,
    }
}

/// Emits the closing fields: sequence number and closing brace.
pub fn emit_tail(out: &mut Vec<char>, sequence: u32)
    ensures
        final(out)@ == old(out)@ + tail_seq(MessageOptions { sequence }),
{
    proof {
        reveal_strlit(",\"sequence\":");
        reveal_strlit("}");
    }
    let ks = crate::lex::str_to_vec(",\"sequence\":");
    crate::codec::push_seq(out, &ks);
    crate::lex::push_u32(out, sequence);
    out.push('}');
    proof {
        assert(final(out)@ =~= old(out)@ + tail_seq(MessageOptions { sequence }));
    }
}

/// Reads the closing fields at `i`.
pub fn parse_tail(v: &Vec<char>, i: usize) -> (r: Option<u32>)
    requires
        i <= v@.len(),
    ensures
        match r {
            Some(n) => p_tail_seq(v@, i as int) == Some(n),
            None => p_tail_seq(v@, i as int) is None,
        },
{
    let nn = v.len();
    let ks = crate::lex::str_to_vec(",\"sequence\":");
    if !crate::lex::match_lit(v, i, &ks) {
        return None;
    }
    let (n, j) = match crate::lex::parse_u32(v, i + ks.len()) {
        Some(x) => x,
        None => {
            return None;
        },
    };
    if j < nn && j + 1 == nn && v[j] == '}' {
        Some(n)
    } else {
        None
    }
}



// ---------------------------------------------------------------------------
// The public codec
// ---------------------------------------------------------------------------
/// Serializes a message to its wire text.  A message that is not well
/// formed cannot be rendered: that signals an internal invariant breach
/// and yields an error instead of bad output.
#[verifier::rlimit(100)]
#[verifier::spinoff_prover]
pub fn serialize_message(m: &crate::messages::Message) -> (r: Result<
    String,
    crate::error::OpenProtocolError,
>)
    ensures
        r is Ok <==> msg_wf(m@),
        r matches Ok(t) ==> t@ == ser_msg(m@),
        r matches Err(e) ==> e is InvalidMessage,
{
    if !m.valid() {
        return Err(crate::error::OpenProtocolError::InvalidMessage);
    }
    let mut out: Vec<char> = Vec::new();
    proof {
        reveal(ser_msg);
    }
    match m {
        crate::messages::Message::Alive { options } => {
            let t = crate::lex::str_to_vec("{\"$type\":\"Alive\"");
            crate::codec::push_seq(&mut out, &t);
            emit_tail(&mut out, options.sequence);
        },
        crate::messages::Message::Join { version, password, filter, options } => {
            let t = crate::lex::str_to_vec("{\"$type\":\"Join\"");
            crate::codec::push_seq(&mut out, &t);
            let kv = crate::lex::str_to_vec(",\"version\":");
            crate::codec::push_seq(&mut out, &kv);
            let vv = crate::lex::str_to_vec(version.as_str());
            crate::lex::push_quoted(&mut out, &vv);
            let kp = crate::lex::str_to_vec(",\"password\":");
            crate::codec::push_seq(&mut out, &kp);
            let pv = crate::lex::str_to_vec(password.as_str());
            crate::lex::push_quoted(&mut out, &pv);
            let kf = crate::lex::str_to_vec(",\"filter\":");
            crate::codec::push_seq(&mut out, &kf);
            emit_filters(&mut out, filter);
            emit_tail(&mut out, options.sequence);
        },
        crate::messages::Message::JoinResponse { result, options } => {
            let t = crate::lex::str_to_vec("{\"$type\":\"JoinResponse\"");
            crate::codec::push_seq(&mut out, &t);
            let kr = crate::lex::str_to_vec(",\"result\":");
            crate::codec::push_seq(&mut out, &kr);
            crate::lex::push_u32(&mut out, *result);
            emit_tail(&mut out, options.sequence);
        },
        crate::messages::Message::RequestControllersList { controller_id, options } => {
            let t = crate::lex::str_to_vec("{\"$type\":\"RequestControllersList\"");
            crate::codec::push_seq(&mut out, &t);
            match controller_id {
                Some(cid) => {
                    let kc = crate::lex::str_to_vec(",\"controllerId\":");
                    crate::codec::push_seq(&mut out, &kc);
                    crate::lex::push_u32(&mut out, *cid);
                },
                None => {},
            }
            emit_tail(&mut out, options.sequence);
        },
        crate::messages::Message::ControllersList { data, options } => {
            let t = crate::lex::str_to_vec("{\"$type\":\"ControllersList\"");
            crate::codec::push_seq(&mut out, &t);
            let kd = crate::lex::str_to_vec(",\"data\":");
            crate::codec::push_seq(&mut out, &kd);
            proof {
                let vd = match m@ {
                    MessageView::ControllersList { data: d, .. } => d,
                    _ => Seq::empty(),
                };
                assert forall|k: int|
                    0 <= k < data@.len() implies controller_wf(#[trigger] data@[k]@) by {
                    assert(vd[k] == data@[k]@);
                    assert(controller_wf(vd[k]));
                }
            }
            crate::codec::emit_clist(&mut out, data);
            emit_tail(&mut out, options.sequence);
        },
        crate::messages::Message::RequestJobCardsList { controller_id, options } => {
            let t = crate::lex::str_to_vec("{\"$type\":\"RequestJobCardsList\"");
            crate::codec::push_seq(&mut out, &t);
            let kc = crate::lex::str_to_vec(",\"controllerId\":");
            crate::codec::push_seq(&mut out, &kc);
            crate::lex::push_u32(&mut out, *controller_id);
            emit_tail(&mut out, options.sequence);
        },
        crate::messages::Message::JobCardsList { controller_id, data, options } => {
            let t = crate::lex::str_to_vec("{\"$type\":\"JobCardsList\"");
            crate::codec::push_seq(&mut out, &t);
            let kc = crate::lex::str_to_vec(",\"controllerId\":");
            crate::codec::push_seq(&mut out, &kc);
            crate::lex::push_u32(&mut out, *controller_id);
            let kd = crate::lex::str_to_vec(",\"data\":");
            crate::codec::push_seq(&mut out, &kd);
            crate::codec::emit_jlist(&mut out, data);
            emit_tail(&mut out, options.sequence);
        },
        crate::messages::Message::RequestMoldData { controller_id, options } => {
            let t = crate::lex::str_to_vec("{\"$type\":\"RequestMoldData\"");
            crate::codec::push_seq(&mut out, &t);
            let kc = crate::lex::str_to_vec(",\"controllerId\":");
            crate::codec::push_seq(&mut out, &kc);
            crate::lex::push_u32(&mut out, *controller_id);
            emit_tail(&mut out, options.sequence);
        },
        crate::messages::Message::ReadMoldData { controller_id, field, options } => {
            let t = crate::lex::str_to_vec("{\"$type\":\"ReadMoldData\"");
            crate::codec::push_seq(&mut out, &t);
            let kc = crate::lex::str_to_vec(",\"controllerId\":");
            crate::codec::push_seq(&mut out, &kc);
            crate::lex::push_u32(&mut out, *controller_id);
            match field {
                Some(f) => {
                    let kf = crate::lex::str_to_vec(",\"field\":");
                    crate::codec::push_seq(&mut out, &kf);
                    let fv = crate::lex::str_to_vec(f.as_str());
                    crate::lex::push_quoted(&mut out, &fv);
                },
                None => {},
            }
            emit_tail(&mut out, options.sequence);
        },
        crate::messages::Message::ControllerAction { controller_id, action_id, options } => {
            let t = crate::lex::str_to_vec("{\"$type\":\"ControllerAction\"");
            crate::codec::push_seq(&mut out, &t);
            let kc = crate::lex::str_to_vec(",\"controllerId\":");
            crate::codec::push_seq(&mut out, &kc);
            crate::lex::push_u32(&mut out, *controller_id);
            let ka = crate::lex::str_to_vec(",\"actionId\":");
            crate::codec::push_seq(&mut out, &ka);
            crate::lex::push_u32(&mut out, *action_id);
            emit_tail(&mut out, options.sequence);
        },
        crate::messages::Message::LoginOperator { controller_id, password, options } => {
            let t = crate::lex::str_to_vec("{\"$type\":\"LoginOperator\"");
            crate::codec::push_seq(&mut out, &t);
            let kc = crate::lex::str_to_vec(",\"controllerId\":");
            crate::codec::push_seq(&mut out, &kc);
            crate::lex::push_u32(&mut out, *controller_id);
            let kp = crate::lex::str_to_vec(",\"password\":");
            crate::codec::push_seq(&mut out, &kp);
            let pv = crate::lex::str_to_vec(password.as_str());
            crate::lex::push_quoted(&mut out, &pv);
            emit_tail(&mut out, options.sequence);
        },
        crate::messages::Message::OperatorInfo {
            controller_id,
            operator_id,
            name,
            password,
            level,
            options,
        } => {
            let t = crate::lex::str_to_vec("{\"$type\":\"OperatorInfo\"");
            crate::codec::push_seq(&mut out, &t);
            let kc = crate::lex::str_to_vec(",\"controllerId\":");
            crate::codec::push_seq(&mut out, &kc);
            crate::lex::push_u32(&mut out, *controller_id);
            match operator_id {
                Some(oid) => {
                    let ko = crate::lex::str_to_vec(",\"operatorId\":");
                    crate::codec::push_seq(&mut out, &ko);
                    crate::lex::push_u32(&mut out, *oid);
                },
                None => {},
            }
            let kn = crate::lex::str_to_vec(",\"name\":");
            crate::codec::push_seq(&mut out, &kn);
            let nv = crate::lex::str_to_vec(name.as_str());
            crate::lex::push_quoted(&mut out, &nv);
            let kp = crate::lex::str_to_vec(",\"password\":");
            crate::codec::push_seq(&mut out, &kp);
            let pv = crate::lex::str_to_vec(password.as_str());
            crate::lex::push_quoted(&mut out, &pv);
            let kl = crate::lex::str_to_vec(",\"level\":");
            crate::codec::push_seq(&mut out, &kl);
            crate::lex::push_u32(&mut out, *level as u32);
            emit_tail(&mut out, options.sequence);
        },
    }
    proof {
        assert(out@ =~= ser_msg(m@));
    }
    Ok(crate::lex::vec_to_string(&out))
}

/// Parses one wire text into a message, rejecting unknown or malformed
/// shapes and any message that is not well formed, without side effects.
#[verifier::rlimit(100)]
#[verifier::spinoff_prover]
pub fn parse_message(s: &str) -> (r: Result<
    crate::messages::Message,
    crate::error::OpenProtocolError,
>)
    ensures
        r matches Ok(m) ==> p_msg(s@) == Some(m@) && msg_wf(m@),
        r is Err ==> p_msg(s@) is None,
{
    let v = crate::lex::str_to_vec(s);
    proof {
        reveal(p_msg_raw);
    }
    let raw = parse_message_raw(&v);
    match raw {
        Some(m) => {
            if m.valid() {
                Ok(m)
            } else {
                Err(crate::error::OpenProtocolError::InvalidMessage)
            }
        },
        None => Err(crate::error::OpenProtocolError::InvalidMessage),
    }
}

/// Reads one message, shape only; well-formedness is the caller's check.
#[verifier::rlimit(100)]
#[verifier::spinoff_prover]
fn parse_message_raw(v: &Vec<char>) -> (r: Option<crate::messages::Message>)
    ensures
        match r {
            Some(m) => p_msg_raw(v@) == Some(m@),
            None => p_msg_raw(v@) is None,
        },
{
    let n = v.len();
    proof {
        reveal(p_msg_raw);
        reveal(p_body_alive);
        reveal(p_body_join);
        reveal(p_body_join_response);
        reveal(p_body_req_ctrls);
        reveal(p_body_ctrls);
        reveal(p_body_req_jobs);
        reveal(p_body_jobs);
        reveal(p_body_req_mold);
        reveal(p_body_read_mold);
        reveal(p_body_action);
        reveal(p_body_login);
        reveal(p_body_op_info);
    }
    let t_alive = crate::lex::str_to_vec("{\"$type\":\"Alive\"");
    if crate::lex::match_lit(v, 0, &t_alive) {
        let n0 = match parse_tail(v, t_alive.len()) {
            Some(x) => x,
            None => {
                return None;
            },
        };
        return Some(crate::messages::Message::Alive { options: MessageOptions { sequence: n0 } });
    }
    let t_join = crate::lex::str_to_vec("{\"$type\":\"Join\"");
    if crate::lex::match_lit(v, 0, &t_join) {
        let kv = crate::lex::str_to_vec(",\"version\":");
        if !crate::lex::match_lit(v, t_join.len(), &kv) {
            return None;
        }
        let (version, j1) = match crate::lex::parse_str(v, t_join.len() + kv.len()) {
            Some(x) => x,
            None => {
                return None;
            },
        };
        let kp = crate::lex::str_to_vec(",\"password\":");
        if !crate::lex::match_lit(v, j1, &kp) {
            return None;
        }
        let (password, j2) = match crate::lex::parse_str(v, j1 + kp.len()) {
            Some(x) => x,
            None => {
                return None;
            },
        };
        let kf = crate::lex::str_to_vec(",\"filter\":");
        if !crate::lex::match_lit(v, j2, &kf) {
            return None;
        }
        let (filter, j3) = match parse_filters(v, j2 + kf.len()) {
            Some(x) => x,
            None => {
                return None;
            },
        };
        let n0 = match parse_tail(v, j3) {
            Some(x) => x,
            None => {
                return None;
            },
        };
        return Some(
            crate::messages::Message::Join {
                version: crate::lex::vec_to_string(&version),
                password: crate::lex::vec_to_string(&password),
                filter,
                options: MessageOptions { sequence: n0 },
            },
        );
    }
    let t_jr = crate::lex::str_to_vec("{\"$type\":\"JoinResponse\"");
    if crate::lex::match_lit(v, 0, &t_jr) {
        let kr = crate::lex::str_to_vec(",\"result\":");
        if !crate::lex::match_lit(v, t_jr.len(), &kr) {
            return None;
        }
        let (result, j1) = match crate::lex::parse_u32(v, t_jr.len() + kr.len()) {
            Some(x) => x,
            None => {
                return None;
            },
        };
        let n0 = match parse_tail(v, j1) {
            Some(x) => x,
            None => {
                return None;
            },
        };
        return Some(
            crate::messages::Message::JoinResponse {
                result,
                options: MessageOptions { sequence: n0 },
            },
        );
    }
    let t_rc = crate::lex::str_to_vec("{\"$type\":\"RequestControllersList\"");
    if crate::lex::match_lit(v, 0, &t_rc) {
        let kc = crate::lex::str_to_vec(",\"controllerId\":");
        if crate::lex::match_lit(v, t_rc.len(), &kc) {
            let (cid, j1) = match crate::lex::parse_u32(v, t_rc.len() + kc.len()) {
                Some(x) => x,
                None => {
                    return None;
                },
            };
            let n0 = match parse_tail(v, j1) {
                Some(x) => x,
                None => {
                    return None;
                },
            };
            return Some(
                crate::messages::Message::RequestControllersList {
                    controller_id: Some(cid),
                    options: MessageOptions { sequence: n0 },
                },
            );
        } else {
            let n0 = match parse_tail(v, t_rc.len()) {
                Some(x) => x,
                None => {
                    return None;
                },
            };
            return Some(
                crate::messages::Message::RequestControllersList {
                    controller_id: None,
                    options: MessageOptions { sequence: n0 },
                },
            );
        }
    }
    let t_cl = crate::lex::str_to_vec("{\"$type\":\"ControllersList\"");
    if crate::lex::match_lit(v, 0, &t_cl) {
        let kd = crate::lex::str_to_vec(",\"data\":");
        if !crate::lex::match_lit(v, t_cl.len(), &kd) {
            return None;
        }
        let (data, j1) = match crate::codec::parse_clist(v, t_cl.len() + kd.len()) {
            Some(x) => x,
            None => {
                return None;
            },
        };
        let n0 = match parse_tail(v, j1) {
            Some(x) => x,
            None => {
                return None;
            },
        };
        return Some(
            crate::messages::Message::ControllersList {
                data,
                options: MessageOptions { sequence: n0 },
            },
        );
    }
    let t_rj = crate::lex::str_to_vec("{\"$type\":\"RequestJobCardsList\"");
    if crate::lex::match_lit(v, 0, &t_rj) {
        let kc = crate::lex::str_to_vec(",\"controllerId\":");
        if !crate::lex::match_lit(v, t_rj.len(), &kc) {
            return None;
        }
        let (cid, j1) = match crate::lex::parse_u32(v, t_rj.len() + kc.len()) {
            Some(x) => x,
            None => {
                return None;
            },
        };
        let n0 = match parse_tail(v, j1) {
            Some(x) => x,
            None => {
                return None;
            },
        };
        return Some(
            crate::messages::Message::RequestJobCardsList {
                controller_id: cid,
                options: MessageOptions { sequence: n0 },
            },
        );
    }
    let t_jl = crate::lex::str_to_vec("{\"$type\":\"JobCardsList\"");
    if crate::lex::match_lit(v, 0, &t_jl) {
        let kc = crate::lex::str_to_vec(",\"controllerId\":");
        if !crate::lex::match_lit(v, t_jl.len(), &kc) {
            return None;
        }
        let (cid, j1) = match crate::lex::parse_u32(v, t_jl.len() + kc.len()) {
            Some(x) => x,
            None => {
                return None;
            },
        };
        let kd = crate::lex::str_to_vec(",\"data\":");
        if !crate::lex::match_lit(v, j1, &kd) {
            return None;
        }
        let (data, j2) = match crate::codec::parse_jlist(v, j1 + kd.len()) {
            Some(x) => x,
            None => {
                return None;
            },
        };
        let n0 = match parse_tail(v, j2) {
            Some(x) => x,
            None => {
                return None;
            },
        };
        return Some(
            crate::messages::Message::JobCardsList {
                controller_id: cid,
                data,
                options: MessageOptions { sequence: n0 },
            },
        );
    }
    let t_rm = crate::lex::str_to_vec("{\"$type\":\"RequestMoldData\"");
    if crate::lex::match_lit(v, 0, &t_rm) {
        let kc = crate::lex::str_to_vec(",\"controllerId\":");
        if !crate::lex::match_lit(v, t_rm.len(), &kc) {
            return None;
        }
        let (cid, j1) = match crate::lex::parse_u32(v, t_rm.len() + kc.len()) {
            Some(x) => x,
            None => {
                return None;
            },
        };
        let n0 = match parse_tail(v, j1) {
            Some(x) => x,
            None => {
                return None;
            },
        };
        return Some(
            crate::messages::Message::RequestMoldData {
                controller_id: cid,
                options: MessageOptions { sequence: n0 },
            },
        );
    }
    let t_read = crate::lex::str_to_vec("{\"$type\":\"ReadMoldData\"");
    if crate::lex::match_lit(v, 0, &t_read) {
        let kc = crate::lex::str_to_vec(",\"controllerId\":");
        if !crate::lex::match_lit(v, t_read.len(), &kc) {
            return None;
        }
        let (cid, j1) = match crate::lex::parse_u32(v, t_read.len() + kc.len()) {
            Some(x) => x,
            None => {
                return None;
            },
        };
        let kf = crate::lex::str_to_vec(",\"field\":");
        if crate::lex::match_lit(v, j1, &kf) {
            let (field, j2) = match crate::lex::parse_str(v, j1 + kf.len()) {
                Some(x) => x,
                None => {
                    return None;
                },
            };
            let n0 = match parse_tail(v, j2) {
                Some(x) => x,
                None => {
                    return None;
                },
            };
            return Some(
                crate::messages::Message::ReadMoldData {
                    controller_id: cid,
                    field: Some(crate::lex::vec_to_string(&field)),
                    options: MessageOptions { sequence: n0 },
                },
            );
        } else {
            let n0 = match parse_tail(v, j1) {
                Some(x) => x,
                None => {
                    return None;
                },
            };
            return Some(
                crate::messages::Message::ReadMoldData {
                    controller_id: cid,
                    field: None,
                    options: MessageOptions { sequence: n0 },
                },
            );
        }
    }
    let t_ca = crate::lex::str_to_vec("{\"$type\":\"ControllerAction\"");
    if crate::lex::match_lit(v, 0, &t_ca) {
        let kc = crate::lex::str_to_vec(",\"controllerId\":");
        if !crate::lex::match_lit(v, t_ca.len(), &kc) {
            return None;
        }
        let (cid, j1) = match crate::lex::parse_u32(v, t_ca.len() + kc.len()) {
            Some(x) => x,
            None => {
                return None;
            },
        };
        let ka = crate::lex::str_to_vec(",\"actionId\":");
        if !crate::lex::match_lit(v, j1, &ka) {
            return None;
        }
        let (aid, j2) = match crate::lex::parse_u32(v, j1 + ka.len()) {
            Some(x) => x,
            None => {
                return None;
            },
        };
        let n0 = match parse_tail(v, j2) {
            Some(x) => x,
            None => {
                return None;
            },
        };
        return Some(
            crate::messages::Message::ControllerAction {
                controller_id: cid,
                action_id: aid,
                options: MessageOptions { sequence: n0 },
            },
        );
    }
    let t_lo = crate::lex::str_to_vec("{\"$type\":\"LoginOperator\"");
    if crate::lex::match_lit(v, 0, &t_lo) {
        let kc = crate::lex::str_to_vec(",\"controllerId\":");
        if !crate::lex::match_lit(v, t_lo.len(), &kc) {
            return None;
        }
        let (cid, j1) = match crate::lex::parse_u32(v, t_lo.len() + kc.len()) {
            Some(x) => x,
            None => {
                return None;
            },
        };
        let kp = crate::lex::str_to_vec(",\"password\":");
        if !crate::lex::match_lit(v, j1, &kp) {
            return None;
        }
        let (password, j2) = match crate::lex::parse_str(v, j1 + kp.len()) {
            Some(x) => x,
            None => {
                return None;
            },
        };
        let n0 = match parse_tail(v, j2) {
            Some(x) => x,
            None => {
                return None;
            },
        };
        return Some(
            crate::messages::Message::LoginOperator {
                controller_id: cid,
                password: crate::lex::vec_to_string(&password),
                options: MessageOptions { sequence: n0 },
            },
        );
    }
    let t_oi = crate::lex::str_to_vec("{\"$type\":\"OperatorInfo\"");
    if crate::lex::match_lit(v, 0, &t_oi) {
        let kc = crate::lex::str_to_vec(",\"controllerId\":");
        if !crate::lex::match_lit(v, t_oi.len(), &kc) {
            return None;
        }
        let (cid, j1) = match crate::lex::parse_u32(v, t_oi.len() + kc.len()) {
            Some(x) => x,
            None => {
                return None;
            },
        };
        let ko = crate::lex::str_to_vec(",\"operatorId\":");
        let (operator_id, j2): (Option<u32>, usize) = if crate::lex::match_lit(v, j1, &ko) {
            match crate::lex::parse_u32(v, j1 + ko.len()) {
                Some((oid, jx)) => (Some(oid), jx),
                None => {
                    return None;
                },
            }
        } else {
            (None, j1)
        };
        let kn = crate::lex::str_to_vec(",\"name\":");
        if !crate::lex::match_lit(v, j2, &kn) {
            return None;
        }
        let (name, j3) = match crate::lex::parse_str(v, j2 + kn.len()) {
            Some(x) => x,
            None => {
                return None;
            },
        };
        let kp = crate::lex::str_to_vec(",\"password\":");
        if !crate::lex::match_lit(v, j3, &kp) {
            return None;
        }
        let (password, j4) = match crate::lex::parse_str(v, j3 + kp.len()) {
            Some(x) => x,
            None => {
                return None;
            },
        };
        let kl = crate::lex::str_to_vec(",\"level\":");
        if !crate::lex::match_lit(v, j4, &kl) {
            return None;
        }
        let (level, j5) = match crate::lex::parse_u32(v, j4 + kl.len()) {
            Some(x) => x,
            None => {
                return None;
            },
        };
        if !(level <= 255) {
            return None;
        }
        let n0 = match parse_tail(v, j5) {
            Some(x) => x,
            None => {
                return None;
            },
        };
        return Some(
            crate::messages::Message::OperatorInfo {
                controller_id: cid,
                operator_id,
                name: crate::lex::vec_to_string(&name),
                password: crate::lex::vec_to_string(&password),
                level: level as u8,
                options: MessageOptions { sequence: n0 },
            },
        );
    }
    None
}


} // verus!