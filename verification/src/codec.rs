//! Wire codec, object layer: the JSON forms of cycle-data maps, job cards
//! and controller snapshots.  Field names are lower-camel-case except the
//! literal `"IP"` key; nested geo-location and operator records are
//! flattened into the parent object; absent optional fields are omitted
//! entirely.  Every parser is proved to invert the matching emitter.

use vstd::prelude::*;

use crate::controller::Controller;
use crate::controller::ControllerView;
use crate::controller::GeoLocation;
use crate::controller::GeoLocationView;
use crate::controller::map_view;
use crate::controller::Operator;
use crate::controller::OperatorView;
use crate::jobcard::JobCard;
use crate::jobcard::JobCardView;
use crate::lex::is_digit;
use crate::lex::lemma_p_str_ser;
use crate::lex::lemma_p_u32_ser;
use crate::lex::lit_at;
use crate::lex::match_lit;
use crate::lex::p_str;
use crate::lex::p_u32;
use crate::lex::parse_str;
use crate::lex::parse_u32;
use crate::lex::push_quoted;
use crate::lex::push_u32;
use crate::lex::ser_nat;
use crate::lex::ser_str;
use crate::lex::str_to_vec;
use crate::lex::vec_to_string;
use crate::number::Decimal;
use crate::number::is_decimal_text;
use crate::number::lemma_p_num_ser;
use crate::number::p_num;
use crate::number::parse_num;
use crate::timestamp::lemma_p_ts_ser;
use crate::timestamp::p_ts;
use crate::timestamp::parse_ts;
use crate::timestamp::push_ts;
use crate::timestamp::ser_ts;
use crate::timestamp::Timestamp;
use crate::types::JobMode;
use crate::types::OpMode;

verus! {

// ---------------------------------------------------------------------------
// Shared helpers
// ---------------------------------------------------------------------------
/// Reads the middle piece of a three-piece window back out of `s`.
pub proof fn lemma_window(s: Seq<char>, i: int, a: Seq<char>, b: Seq<char>, c: Seq<char>)
    requires
        0 <= i,
        i + a.len() + b.len() + c.len() <= s.len(),
        s.subrange(i, i + a.len() + b.len() + c.len()) == a + b + c,
    ensures
        s.subrange(i + a.len(), i + a.len() + b.len()) == b,
        lit_at(s, i + a.len() as int, b),
        c.len() > 0 ==> s[i + a.len() + b.len()] == c[0],
{
    let l = a.len() + b.len() + c.len();
    assert forall|k: int| 0 <= k < l implies #[trigger] s[i + k] == (a + b + c)[k] by {
        assert(s.subrange(i, i + l as int)[k] == s[i + k]);
    }
    assert forall|k: int|
        0 <= k < b.len() implies #[trigger] s.subrange(
        i + a.len(),
        i + a.len() + b.len(),
    )[k] == b[k] by {
        assert(s[i + (a.len() + k)] == (a + b + c)[a.len() + k]);
    }
    assert(s.subrange(i + a.len(), i + a.len() + b.len()) =~= b);
    if c.len() > 0 {
        assert(s[i + (a.len() + b.len() as int)] == (a + b + c)[a.len() + b.len() as int]);
    }
}

/// The character at offset `d` of a window.
pub proof fn lemma_char_in(s: Seq<char>, i: int, w: Seq<char>, d: int)
    requires
        0 <= i,
        i + w.len() <= s.len(),
        s.subrange(i, i + w.len() as int) == w,
        0 <= d < w.len(),
    ensures
        s[i + d] == w[d],
{
    assert(s.subrange(i, i + w.len() as int)[d] == s[i + d]);
}

/// A pattern that differs from what actually stands at `j` does not match.
pub proof fn lemma_not_lit(s: Seq<char>, j: int, have: Seq<char>, not_pat: Seq<char>, d: int)
    requires
        lit_at(s, j, have),
        0 <= d < have.len(),
        d < not_pat.len(),
        have[d] != not_pat[d],
    ensures
        !lit_at(s, j, not_pat),
{
    if lit_at(s, j, not_pat) {
        assert(s.subrange(j, j + not_pat.len() as int)[d] == not_pat[d]);
        assert(s.subrange(j, j + have.len() as int)[d] == have[d]);
        assert(s[j + d] == not_pat[d]);
        assert(s[j + d] == have[d]);
    }
}

// ---------------------------------------------------------------------------
// Keys
// ---------------------------------------------------------------------------
pub open spec fn k_obj_cid() -> Seq<char> {
    "{\"controllerId\":"@
}

pub open spec fn k_dn() -> Seq<char> {
    ",\"displayName\":"@
}

pub open spec fn k_ct() -> Seq<char> {
    ",\"controllerType\":"@
}

pub open spec fn k_ver() -> Seq<char> {
    ",\"version\":"@
}

pub open spec fn k_model() -> Seq<char> {
    ",\"model\":"@
}

pub open spec fn k_ip() -> Seq<char> {
    ",\"IP\":"@
}

pub open spec fn k_glat() -> Seq<char> {
    ",\"geoLatitude\":"@
}

pub open spec fn k_glon() -> Seq<char> {
    ",\"geoLongitude\":"@
}

pub open spec fn k_lcd() -> Seq<char> {
    ",\"lastCycleData\":"@
}

pub open spec fn k_vars() -> Seq<char> {
    ",\"variables\":"@
}

pub open spec fn k_lct() -> Seq<char> {
    ",\"lastConnectionTime\":\""@
}

pub open spec fn k_opid() -> Seq<char> {
    ",\"operatorId\":"@
}

pub open spec fn k_opname() -> Seq<char> {
    ",\"operatorName\":"@
}

pub open spec fn k_jcid() -> Seq<char> {
    ",\"jobCardId\":"@
}

pub open spec fn k_mold() -> Seq<char> {
    ",\"moldId\":"@
}

pub open spec fn quote() -> Seq<char> {
    "\""@
}

pub open spec fn lb() -> Seq<char> {
    "{"@
}

pub open spec fn rb() -> Seq<char> {
    "}"@
}

pub open spec fn comma() -> Seq<char> {
    ","@
}

pub open spec fn colon() -> Seq<char> {
    ":"@
}


// ---------------------------------------------------------------------------
// Mode fields
// ---------------------------------------------------------------------------
pub open spec fn k_op_prefix() -> Seq<char> {
    ",\"opMode\":\""@
}

pub open spec fn k_job_prefix() -> Seq<char> {
    ",\"jobMode\":\""@
}

/// The quoted value of the op field, closing quote included.
pub open spec fn op_tag_q(m: OpMode) -> Seq<char> {
    match m {
        OpMode::Unknown => "Unknown\""@,
        OpMode::Manual => "Manual\""@,
        OpMode::SemiAutomatic => "SemiAutomatic\""@,
        OpMode::Automatic => "Automatic\""@,
        OpMode::Others => "Others\""@,
        OpMode::Offline => "Offline\""@,
    }
}

/// The quoted value of the job field, closing quote included.
pub open spec fn job_tag_q(m: JobMode) -> Seq<char> {
    match m {
        JobMode::Unknown => "Unknown\""@,
        JobMode::ID01 => "ID01\""@,
        JobMode::ID02 => "ID02\""@,
        JobMode::ID03 => "ID03\""@,
        JobMode::ID04 => "ID04\""@,
        JobMode::ID05 => "ID05\""@,
        JobMode::ID06 => "ID06\""@,
        JobMode::ID07 => "ID07\""@,
        JobMode::ID08 => "ID08\""@,
        JobMode::ID09 => "ID09\""@,
        JobMode::ID10 => "ID10\""@,
        JobMode::ID11 => "ID11\""@,
        JobMode::ID12 => "ID12\""@,
        JobMode::ID13 => "ID13\""@,
        JobMode::ID14 => "ID14\""@,
        JobMode::ID15 => "ID15\""@,
        JobMode::Offline => "Offline\""@,
    }
}

/// The whole opMode field.
pub open spec fn f_op_mode(m: OpMode) -> Seq<char> {
    k_op_prefix() + op_tag_q(m)
}

/// The whole jobMode field.
pub open spec fn f_job_mode(m: JobMode) -> Seq<char> {
    k_job_prefix() + job_tag_q(m)
}

/// Reads the op field: the first quoted value that stands there wins.
pub open spec fn p_op_mode(s: Seq<char>, i: int) -> Option<(OpMode, int)> {
    if lit_at(s, i, k_op_prefix()) {
        let j = i + k_op_prefix().len();
        if lit_at(s, j, op_tag_q(OpMode::Unknown)) {
            Some((OpMode::Unknown, j + op_tag_q(OpMode::Unknown).len()))
        } else if lit_at(s, j, op_tag_q(OpMode::Manual)) {
            Some((OpMode::Manual, j + op_tag_q(OpMode::Manual).len()))
        } else if lit_at(s, j, op_tag_q(OpMode::SemiAutomatic)) {
            Some((OpMode::SemiAutomatic, j + op_tag_q(OpMode::SemiAutomatic).len()))
        } else if lit_at(s, j, op_tag_q(OpMode::Automatic)) {
            Some((OpMode::Automatic, j + op_tag_q(OpMode::Automatic).len()))
        } else if lit_at(s, j, op_tag_q(OpMode::Others)) {
            Some((OpMode::Others, j + op_tag_q(OpMode::Others).len()))
        } else if lit_at(s, j, op_tag_q(OpMode::Offline)) {
            Some((OpMode::Offline, j + op_tag_q(OpMode::Offline).len()))
        } else {
            None
        }
    } else {
        None
    }
}

/// Reads the job field: the first quoted value that stands there wins.
pub open spec fn p_job_mode(s: Seq<char>, i: int) -> Option<(JobMode, int)> {
    if lit_at(s, i, k_job_prefix()) {
        let j = i + k_job_prefix().len();
        if lit_at(s, j, job_tag_q(JobMode::Unknown)) {
            Some((JobMode::Unknown, j + job_tag_q(JobMode::Unknown).len()))
        } else if lit_at(s, j, job_tag_q(JobMode::ID01)) {
            Some((JobMode::ID01, j + job_tag_q(JobMode::ID01).len()))
        } else if lit_at(s, j, job_tag_q(JobMode::ID02)) {
            Some((JobMode::ID02, j + job_tag_q(JobMode::ID02).len()))
        } else if lit_at(s, j, job_tag_q(JobMode::ID03)) {
            Some((JobMode::ID03, j + job_tag_q(JobMode::ID03).len()))
        } else if lit_at(s, j, job_tag_q(JobMode::ID04)) {
            Some((JobMode::ID04, j + job_tag_q(JobMode::ID04).len()))
        } else if lit_at(s, j, job_tag_q(JobMode::ID05)) {
            Some((JobMode::ID05, j + job_tag_q(JobMode::ID05).len()))
        } else if lit_at(s, j, job_tag_q(JobMode::ID06)) {
            Some((JobMode::ID06, j + job_tag_q(JobMode::ID06).len()))
        } else if lit_at(s, j, job_tag_q(JobMode::ID07)) {
            Some((JobMode::ID07, j + job_tag_q(JobMode::ID07).len()))
        } else if lit_at(s, j, job_tag_q(JobMode::ID08)) {
            Some((JobMode::ID08, j + job_tag_q(JobMode::ID08).len()))
        } else if lit_at(s, j, job_tag_q(JobMode::ID09)) {
            Some((JobMode::ID09, j + job_tag_q(JobMode::ID09).len()))
        } else if lit_at(s, j, job_tag_q(JobMode::ID10)) {
            Some((JobMode::ID10, j + job_tag_q(JobMode::ID10).len()))
        } else if lit_at(s, j, job_tag_q(JobMode::ID11)) {
            Some((JobMode::ID11, j + job_tag_q(JobMode::ID11).len()))
        } else if lit_at(s, j, job_tag_q(JobMode::ID12)) {
            Some((JobMode::ID12, j + job_tag_q(JobMode::ID12).len()))
        } else if lit_at(s, j, job_tag_q(JobMode::ID13)) {
            Some((JobMode::ID13, j + job_tag_q(JobMode::ID13).len()))
        } else if lit_at(s, j, job_tag_q(JobMode::ID14)) {
            Some((JobMode::ID14, j + job_tag_q(JobMode::ID14).len()))
        } else if lit_at(s, j, job_tag_q(JobMode::ID15)) {
            Some((JobMode::ID15, j + job_tag_q(JobMode::ID15).len()))
        } else if lit_at(s, j, job_tag_q(JobMode::Offline)) {
            Some((JobMode::Offline, j + job_tag_q(JobMode::Offline).len()))
        } else {
            None
        }
    } else {
        None
    }
}

/// The second part of a match of a concatenation.
pub proof fn lemma_lit_suffix(s: Seq<char>, j: int, x: Seq<char>, y: Seq<char>)
    requires
        lit_at(s, j, x + y),
    ensures
        lit_at(s, j + x.len() as int, y),
{
    assert forall|k: int|
        0 <= k < y.len() implies #[trigger] s.subrange(
        j + x.len(),
        j + x.len() + y.len(),
    )[k] == y[k] by {
        assert(s.subrange(j, j + (x + y).len() as int)[x.len() + k] == s[j + x.len() + k]);
        assert(s.subrange(j + x.len(), j + x.len() + y.len())[k] == s[j + (x.len() + k)]);
    }
    assert(s.subrange(j + x.len(), j + x.len() + y.len()) =~= y);
}

/// The op field parser inverts its emitter.
#[verifier::rlimit(60)]
pub proof fn lemma_p_op_mode_ser(s: Seq<char>, i: int, m: OpMode)
    requires
        0 <= i,
        lit_at(s, i, f_op_mode(m)),
    ensures
        p_op_mode(s, i) == Some((m, i + f_op_mode(m).len() as int)),
{
    reveal_strlit("Unknown\"");
    reveal_strlit("Manual\"");
    reveal_strlit("SemiAutomatic\"");
    reveal_strlit("Automatic\"");
    reveal_strlit("Others\"");
    reveal_strlit("Offline\"");
    let j = i + k_op_prefix().len() as int;
    lemma_lit_prefix(s, i, k_op_prefix(), op_tag_q(m));
    lemma_lit_suffix(s, i, k_op_prefix(), op_tag_q(m));
    match m {
        OpMode::Unknown => {

        },
        OpMode::Manual => {
            lemma_not_lit(s, j, op_tag_q(OpMode::Manual), op_tag_q(OpMode::Unknown), 0);
        },
        OpMode::SemiAutomatic => {
            lemma_not_lit(s, j, op_tag_q(OpMode::SemiAutomatic), op_tag_q(OpMode::Unknown), 0);
            lemma_not_lit(s, j, op_tag_q(OpMode::SemiAutomatic), op_tag_q(OpMode::Manual), 0);
        },
        OpMode::Automatic => {
            lemma_not_lit(s, j, op_tag_q(OpMode::Automatic), op_tag_q(OpMode::Unknown), 0);
            lemma_not_lit(s, j, op_tag_q(OpMode::Automatic), op_tag_q(OpMode::Manual), 0);
            lemma_not_lit(s, j, op_tag_q(OpMode::Automatic), op_tag_q(OpMode::SemiAutomatic), 0);
        },
        OpMode::Others => {
            lemma_not_lit(s, j, op_tag_q(OpMode::Others), op_tag_q(OpMode::Unknown), 0);
            lemma_not_lit(s, j, op_tag_q(OpMode::Others), op_tag_q(OpMode::Manual), 0);
            lemma_not_lit(s, j, op_tag_q(OpMode::Others), op_tag_q(OpMode::SemiAutomatic), 0);
            lemma_not_lit(s, j, op_tag_q(OpMode::Others), op_tag_q(OpMode::Automatic), 0);
        },
        OpMode::Offline => {
            lemma_not_lit(s, j, op_tag_q(OpMode::Offline), op_tag_q(OpMode::Unknown), 0);
            lemma_not_lit(s, j, op_tag_q(OpMode::Offline), op_tag_q(OpMode::Manual), 0);
            lemma_not_lit(s, j, op_tag_q(OpMode::Offline), op_tag_q(OpMode::SemiAutomatic), 0);
            lemma_not_lit(s, j, op_tag_q(OpMode::Offline), op_tag_q(OpMode::Automatic), 0);
            lemma_not_lit(s, j, op_tag_q(OpMode::Offline), op_tag_q(OpMode::Others), 1);
        },
    }
}

/// The job field parser inverts its emitter.
#[verifier::rlimit(60)]
pub proof fn lemma_p_job_mode_ser(s: Seq<char>, i: int, m: JobMode)
    requires
        0 <= i,
        lit_at(s, i, f_job_mode(m)),
    ensures
        p_job_mode(s, i) == Some((m, i + f_job_mode(m).len() as int)),
{
    reveal_strlit("Unknown\"");
    reveal_strlit("ID01\"");
    reveal_strlit("ID02\"");
    reveal_strlit("ID03\"");
    reveal_strlit("ID04\"");
    reveal_strlit("ID05\"");
    reveal_strlit("ID06\"");
    reveal_strlit("ID07\"");
    reveal_strlit("ID08\"");
    reveal_strlit("ID09\"");
    reveal_strlit("ID10\"");
    reveal_strlit("ID11\"");
    reveal_strlit("ID12\"");
    reveal_strlit("ID13\"");
    reveal_strlit("ID14\"");
    reveal_strlit("ID15\"");
    reveal_strlit("Offline\"");
    let j = i + k_job_prefix().len() as int;
    lemma_lit_prefix(s, i, k_job_prefix(), job_tag_q(m));
    lemma_lit_suffix(s, i, k_job_prefix(), job_tag_q(m));
    match m {
        JobMode::Unknown => {

        },
        JobMode::ID01 => {
            lemma_not_lit(s, j, job_tag_q(JobMode::ID01), job_tag_q(JobMode::Unknown), 0);
        },
        JobMode::ID02 => {
            lemma_not_lit(s, j, job_tag_q(JobMode::ID02), job_tag_q(JobMode::Unknown), 0);
            lemma_not_lit(s, j, job_tag_q(JobMode::ID02), job_tag_q(JobMode::ID01), 3);
        },
        JobMode::ID03 => {
            lemma_not_lit(s, j, job_tag_q(JobMode::ID03), job_tag_q(JobMode::Unknown), 0);
            lemma_not_lit(s, j, job_tag_q(JobMode::ID03), job_tag_q(JobMode::ID01), 3);
            lemma_not_lit(s, j, job_tag_q(JobMode::ID03), job_tag_q(JobMode::ID02), 3);
        },
        JobMode::ID04 => {
            lemma_not_lit(s, j, job_tag_q(JobMode::ID04), job_tag_q(JobMode::Unknown), 0);
            lemma_not_lit(s, j, job_tag_q(JobMode::ID04), job_tag_q(JobMode::ID01), 3);
            lemma_not_lit(s, j, job_tag_q(JobMode::ID04), job_tag_q(JobMode::ID02), 3);
            lemma_not_lit(s, j, job_tag_q(JobMode::ID04), job_tag_q(JobMode::ID03), 3);
        },
        JobMode::ID05 => {
            lemma_not_lit(s, j, job_tag_q(JobMode::ID05), job_tag_q(JobMode::Unknown), 0);
            lemma_not_lit(s, j, job_tag_q(JobMode::ID05), job_tag_q(JobMode::ID01), 3);
            lemma_not_lit(s, j, job_tag_q(JobMode::ID05), job_tag_q(JobMode::ID02), 3);
            lemma_not_lit(s, j, job_tag_q(JobMode::ID05), job_tag_q(JobMode::ID03), 3);
            lemma_not_lit(s, j, job_tag_q(JobMode::ID05), job_tag_q(JobMode::ID04), 3);
        },
        JobMode::ID06 => {
            lemma_not_lit(s, j, job_tag_q(JobMode::ID06), job_tag_q(JobMode::Unknown), 0);
            lemma_not_lit(s, j, job_tag_q(JobMode::ID06), job_tag_q(JobMode::ID01), 3);
            lemma_not_lit(s, j, job_tag_q(JobMode::ID06), job_tag_q(JobMode::ID02), 3);
            lemma_not_lit(s, j, job_tag_q(JobMode::ID06), job_tag_q(JobMode::ID03), 3);
            lemma_not_lit(s, j, job_tag_q(JobMode::ID06), job_tag_q(JobMode::ID04), 3);
            lemma_not_lit(s, j, job_tag_q(JobMode::ID06), job_tag_q(JobMode::ID05), 3);
        },
        JobMode::ID07 => {
            lemma_not_lit(s, j, job_tag_q(JobMode::ID07), job_tag_q(JobMode::Unknown), 0);
            lemma_not_lit(s, j, job_tag_q(JobMode::ID07), job_tag_q(JobMode::ID01), 3);
            lemma_not_lit(s, j, job_tag_q(JobMode::ID07), job_tag_q(JobMode::ID02), 3);
            lemma_not_lit(s, j, job_tag_q(JobMode::ID07), job_tag_q(JobMode::ID03), 3);
            lemma_not_lit(s, j, job_tag_q(JobMode::ID07), job_tag_q(JobMode::ID04), 3);
            lemma_not_lit(s, j, job_tag_q(JobMode::ID07), job_tag_q(JobMode::ID05), 3);
            lemma_not_lit(s, j, job_tag_q(JobMode::ID07), job_tag_q(JobMode::ID06), 3);
        },
        JobMode::ID08 => {
            lemma_not_lit(s, j, job_tag_q(JobMode::ID08), job_tag_q(JobMode::Unknown), 0);
            lemma_not_lit(s, j, job_tag_q(JobMode::ID08), job_tag_q(JobMode::ID01), 3);
            lemma_not_lit(s, j, job_tag_q(JobMode::ID08), job_tag_q(JobMode::ID02), 3);
            lemma_not_lit(s, j, job_tag_q(JobMode::ID08), job_tag_q(JobMode::ID03), 3);
            lemma_not_lit(s, j, job_tag_q(JobMode::ID08), job_tag_q(JobMode::ID04), 3);
            lemma_not_lit(s, j, job_tag_q(JobMode::ID08), job_tag_q(JobMode::ID05), 3);
            lemma_not_lit(s, j, job_tag_q(JobMode::ID08), job_tag_q(JobMode::ID06), 3);
            lemma_not_lit(s, j, job_tag_q(JobMode::ID08), job_tag_q(JobMode::ID07), 3);
        },
        JobMode::ID09 => {
            lemma_not_lit(s, j, job_tag_q(JobMode::ID09), job_tag_q(JobMode::Unknown), 0);
            lemma_not_lit(s, j, job_tag_q(JobMode::ID09), job_tag_q(JobMode::ID01), 3);
            lemma_not_lit(s, j, job_tag_q(JobMode::ID09), job_tag_q(JobMode::ID02), 3);
            lemma_not_lit(s, j, job_tag_q(JobMode::ID09), job_tag_q(JobMode::ID03), 3);
            lemma_not_lit(s, j, job_tag_q(JobMode::ID09), job_tag_q(JobMode::ID04), 3);
            lemma_not_lit(s, j, job_tag_q(JobMode::ID09), job_tag_q(JobMode::ID05), 3);
            lemma_not_lit(s, j, job_tag_q(JobMode::ID09), job_tag_q(JobMode::ID06), 3);
            lemma_not_lit(s, j, job_tag_q(JobMode::ID09), job_tag_q(JobMode::ID07), 3);
            lemma_not_lit(s, j, job_tag_q(JobMode::ID09), job_tag_q(JobMode::ID08), 3);
        },
        JobMode::ID10 => {
            lemma_not_lit(s, j, job_tag_q(JobMode::ID10), job_tag_q(JobMode::Unknown), 0);
            lemma_not_lit(s, j, job_tag_q(JobMode::ID10), job_tag_q(JobMode::ID01), 2);
            lemma_not_lit(s, j, job_tag_q(JobMode::ID10), job_tag_q(JobMode::ID02), 2);
            lemma_not_lit(s, j, job_tag_q(JobMode::ID10), job_tag_q(JobMode::ID03), 2);
            lemma_not_lit(s, j, job_tag_q(JobMode::ID10), job_tag_q(JobMode::ID04), 2);
            lemma_not_lit(s, j, job_tag_q(JobMode::ID10), job_tag_q(JobMode::ID05), 2);
            lemma_not_lit(s, j, job_tag_q(JobMode::ID10), job_tag_q(JobMode::ID06), 2);
            lemma_not_lit(s, j, job_tag_q(JobMode::ID10), job_tag_q(JobMode::ID07), 2);
            lemma_not_lit(s, j, job_tag_q(JobMode::ID10), job_tag_q(JobMode::ID08), 2);
            lemma_not_lit(s, j, job_tag_q(JobMode::ID10), job_tag_q(JobMode::ID09), 2);
        },
        JobMode::ID11 => {
            lemma_not_lit(s, j, job_tag_q(JobMode::ID11), job_tag_q(JobMode::Unknown), 0);
            lemma_not_lit(s, j, job_tag_q(JobMode::ID11), job_tag_q(JobMode::ID01), 2);
            lemma_not_lit(s, j, job_tag_q(JobMode::ID11), job_tag_q(JobMode::ID02), 2);
            lemma_not_lit(s, j, job_tag_q(JobMode::ID11), job_tag_q(JobMode::ID03), 2);
            lemma_not_lit(s, j, job_tag_q(JobMode::ID11), job_tag_q(JobMode::ID04), 2);
            lemma_not_lit(s, j, job_tag_q(JobMode::ID11), job_tag_q(JobMode::ID05), 2);
            lemma_not_lit(s, j, job_tag_q(JobMode::ID11), job_tag_q(JobMode::ID06), 2);
            lemma_not_lit(s, j, job_tag_q(JobMode::ID11), job_tag_q(JobMode::ID07), 2);
            lemma_not_lit(s, j, job_tag_q(JobMode::ID11), job_tag_q(JobMode::ID08), 2);
            lemma_not_lit(s, j, job_tag_q(JobMode::ID11), job_tag_q(JobMode::ID09), 2);
            lemma_not_lit(s, j, job_tag_q(JobMode::ID11), job_tag_q(JobMode::ID10), 3);
        },
        JobMode::ID12 => {
            lemma_not_lit(s, j, job_tag_q(JobMode::ID12), job_tag_q(JobMode::Unknown), 0);
            lemma_not_lit(s, j, job_tag_q(JobMode::ID12), job_tag_q(JobMode::ID01), 2);
            lemma_not_lit(s, j, job_tag_q(JobMode::ID12), job_tag_q(JobMode::ID02), 2);
            lemma_not_lit(s, j, job_tag_q(JobMode::ID12), job_tag_q(JobMode::ID03), 2);
            lemma_not_lit(s, j, job_tag_q(JobMode::ID12), job_tag_q(JobMode::ID04), 2);
            lemma_not_lit(s, j, job_tag_q(JobMode::ID12), job_tag_q(JobMode::ID05), 2);
            lemma_not_lit(s, j, job_tag_q(JobMode::ID12), job_tag_q(JobMode::ID06), 2);
            lemma_not_lit(s, j, job_tag_q(JobMode::ID12), job_tag_q(JobMode::ID07), 2);
            lemma_not_lit(s, j, job_tag_q(JobMode::ID12), job_tag_q(JobMode::ID08), 2);
            lemma_not_lit(s, j, job_tag_q(JobMode::ID12), job_tag_q(JobMode::ID09), 2);
            lemma_not_lit(s, j, job_tag_q(JobMode::ID12), job_tag_q(JobMode::ID10), 3);
            lemma_not_lit(s, j, job_tag_q(JobMode::ID12), job_tag_q(JobMode::ID11), 3);
        },
        JobMode::ID13 => {
            lemma_not_lit(s, j, job_tag_q(JobMode::ID13), job_tag_q(JobMode::Unknown), 0);
            lemma_not_lit(s, j, job_tag_q(JobMode::ID13), job_tag_q(JobMode::ID01), 2);
            lemma_not_lit(s, j, job_tag_q(JobMode::ID13), job_tag_q(JobMode::ID02), 2);
            lemma_not_lit(s, j, job_tag_q(JobMode::ID13), job_tag_q(JobMode::ID03), 2);
            lemma_not_lit(s, j, job_tag_q(JobMode::ID13), job_tag_q(JobMode::ID04), 2);
            lemma_not_lit(s, j, job_tag_q(JobMode::ID13), job_tag_q(JobMode::ID05), 2);
            lemma_not_lit(s, j, job_tag_q(JobMode::ID13), job_tag_q(JobMode::ID06), 2);
            lemma_not_lit(s, j, job_tag_q(JobMode::ID13), job_tag_q(JobMode::ID07), 2);
            lemma_not_lit(s, j, job_tag_q(JobMode::ID13), job_tag_q(JobMode::ID08), 2);
            lemma_not_lit(s, j, job_tag_q(JobMode::ID13), job_tag_q(JobMode::ID09), 2);
            lemma_not_lit(s, j, job_tag_q(JobMode::ID13), job_tag_q(JobMode::ID10), 3);
            lemma_not_lit(s, j, job_tag_q(JobMode::ID13), job_tag_q(JobMode::ID11), 3);
            lemma_not_lit(s, j, job_tag_q(JobMode::ID13), job_tag_q(JobMode::ID12), 3);
        },
        JobMode::ID14 => {
            lemma_not_lit(s, j, job_tag_q(JobMode::ID14), job_tag_q(JobMode::Unknown), 0);
            lemma_not_lit(s, j, job_tag_q(JobMode::ID14), job_tag_q(JobMode::ID01), 2);
            lemma_not_lit(s, j, job_tag_q(JobMode::ID14), job_tag_q(JobMode::ID02), 2);
            lemma_not_lit(s, j, job_tag_q(JobMode::ID14), job_tag_q(JobMode::ID03), 2);
            lemma_not_lit(s, j, job_tag_q(JobMode::ID14), job_tag_q(JobMode::ID04), 2);
            lemma_not_lit(s, j, job_tag_q(JobMode::ID14), job_tag_q(JobMode::ID05), 2);
            lemma_not_lit(s, j, job_tag_q(JobMode::ID14), job_tag_q(JobMode::ID06), 2);
            lemma_not_lit(s, j, job_tag_q(JobMode::ID14), job_tag_q(JobMode::ID07), 2);
            lemma_not_lit(s, j, job_tag_q(JobMode::ID14), job_tag_q(JobMode::ID08), 2);
            lemma_not_lit(s, j, job_tag_q(JobMode::ID14), job_tag_q(JobMode::ID09), 2);
            lemma_not_lit(s, j, job_tag_q(JobMode::ID14), job_tag_q(JobMode::ID10), 3);
            lemma_not_lit(s, j, job_tag_q(JobMode::ID14), job_tag_q(JobMode::ID11), 3);
            lemma_not_lit(s, j, job_tag_q(JobMode::ID14), job_tag_q(JobMode::ID12), 3);
            lemma_not_lit(s, j, job_tag_q(JobMode::ID14), job_tag_q(JobMode::ID13), 3);
        },
        JobMode::ID15 => {
            lemma_not_lit(s, j, job_tag_q(JobMode::ID15), job_tag_q(JobMode::Unknown), 0);
            lemma_not_lit(s, j, job_tag_q(JobMode::ID15), job_tag_q(JobMode::ID01), 2);
            lemma_not_lit(s, j, job_tag_q(JobMode::ID15), job_tag_q(JobMode::ID02), 2);
            lemma_not_lit(s, j, job_tag_q(JobMode::ID15), job_tag_q(JobMode::ID03), 2);
            lemma_not_lit(s, j, job_tag_q(JobMode::ID15), job_tag_q(JobMode::ID04), 2);
            lemma_not_lit(s, j, job_tag_q(JobMode::ID15), job_tag_q(JobMode::ID05), 2);
            lemma_not_lit(s, j, job_tag_q(JobMode::ID15), job_tag_q(JobMode::ID06), 2);
            lemma_not_lit(s, j, job_tag_q(JobMode::ID15), job_tag_q(JobMode::ID07), 2);
            lemma_not_lit(s, j, job_tag_q(JobMode::ID15), job_tag_q(JobMode::ID08), 2);
            lemma_not_lit(s, j, job_tag_q(JobMode::ID15), job_tag_q(JobMode::ID09), 2);
            lemma_not_lit(s, j, job_tag_q(JobMode::ID15), job_tag_q(JobMode::ID10), 3);
            lemma_not_lit(s, j, job_tag_q(JobMode::ID15), job_tag_q(JobMode::ID11), 3);
            lemma_not_lit(s, j, job_tag_q(JobMode::ID15), job_tag_q(JobMode::ID12), 3);
            lemma_not_lit(s, j, job_tag_q(JobMode::ID15), job_tag_q(JobMode::ID13), 3);
            lemma_not_lit(s, j, job_tag_q(JobMode::ID15), job_tag_q(JobMode::ID14), 3);
        },
        JobMode::Offline => {
            lemma_not_lit(s, j, job_tag_q(JobMode::Offline), job_tag_q(JobMode::Unknown), 0);
            lemma_not_lit(s, j, job_tag_q(JobMode::Offline), job_tag_q(JobMode::ID01), 0);
            lemma_not_lit(s, j, job_tag_q(JobMode::Offline), job_tag_q(JobMode::ID02), 0);
            lemma_not_lit(s, j, job_tag_q(JobMode::Offline), job_tag_q(JobMode::ID03), 0);
            lemma_not_lit(s, j, job_tag_q(JobMode::Offline), job_tag_q(JobMode::ID04), 0);
            lemma_not_lit(s, j, job_tag_q(JobMode::Offline), job_tag_q(JobMode::ID05), 0);
            lemma_not_lit(s, j, job_tag_q(JobMode::Offline), job_tag_q(JobMode::ID06), 0);
            lemma_not_lit(s, j, job_tag_q(JobMode::Offline), job_tag_q(JobMode::ID07), 0);
            lemma_not_lit(s, j, job_tag_q(JobMode::Offline), job_tag_q(JobMode::ID08), 0);
            lemma_not_lit(s, j, job_tag_q(JobMode::Offline), job_tag_q(JobMode::ID09), 0);
            lemma_not_lit(s, j, job_tag_q(JobMode::Offline), job_tag_q(JobMode::ID10), 0);
            lemma_not_lit(s, j, job_tag_q(JobMode::Offline), job_tag_q(JobMode::ID11), 0);
            lemma_not_lit(s, j, job_tag_q(JobMode::Offline), job_tag_q(JobMode::ID12), 0);
            lemma_not_lit(s, j, job_tag_q(JobMode::Offline), job_tag_q(JobMode::ID13), 0);
            lemma_not_lit(s, j, job_tag_q(JobMode::Offline), job_tag_q(JobMode::ID14), 0);
            lemma_not_lit(s, j, job_tag_q(JobMode::Offline), job_tag_q(JobMode::ID15), 0);
        },
    }
}

// ---------------------------------------------------------------------------
// Cycle-data and variable maps
// ---------------------------------------------------------------------------
/// One map entry: quoted key, colon, numeral value.
pub open spec fn ser_map_entry(e: (Seq<char>, Seq<char>)) -> Seq<char> {
    ser_str(e.0) + colon() + e.1
}

/// The entries after the first, each preceded by a comma.
pub open spec fn ser_map_rest(m: Seq<(Seq<char>, Seq<char>)>) -> Seq<char>
    decreases m.len(),
{
    if m.len() == 0 {
        Seq::empty()
    } else {
        comma() + ser_map_entry(m[0]) + ser_map_rest(m.drop_first())
    }
}

/// A whole map object.
pub open spec fn ser_map(m: Seq<(Seq<char>, Seq<char>)>) -> Seq<char> {
    if m.len() == 0 {
        lb() + rb()
    } else {
        lb() + ser_map_entry(m[0]) + ser_map_rest(m.drop_first()) + rb()
    }
}

/// Reads one entry at `i`; returns the entry and the end position.
pub open spec fn p_map_entry(s: Seq<char>, i: int) -> Option<((Seq<char>, Seq<char>), int)> {
    match p_str(s, i) {
        Some((key, j1)) => {
            if j1 < s.len() && s[j1] == ':' {
                match p_num(s, j1 + 1) {
                    Some((value, j2)) => Some(((key, value), j2)),
                    None => None,
                }
            } else {
                None
            }
        },
        None => None,
    }
}

/// Reads `,entry` repetitions until the closing brace, which it consumes.
pub open spec fn p_map_rest(s: Seq<char>, i: int) -> Option<(Seq<(Seq<char>, Seq<char>)>, int)>
    decreases s.len() - i
    when 0 <= i <= s.len()
{
    if i < s.len() && s[i] == '}' {
        Some((Seq::empty(), i + 1))
    } else if i < s.len() && s[i] == ',' {
        match p_map_entry(s, i + 1) {
            Some((e, j)) => {
                if i + 1 < j && j <= s.len() {
                    match p_map_rest(s, j) {
                        Some((rest, j2)) => Some((seq![e] + rest, j2)),
                        None => None,
                    }
                } else {
                    None
                }
            },
            None => None,
        }
    } else {
        None
    }
}

/// Reads a whole map object at `i`.
pub open spec fn p_map(s: Seq<char>, i: int) -> Option<(Seq<(Seq<char>, Seq<char>)>, int)> {
    if 0 <= i && i < s.len() && s[i] == '{' {
        if i + 1 < s.len() && s[i + 1] == '}' {
            Some((Seq::empty(), i + 2))
        } else {
            match p_map_entry(s, i + 1) {
                Some((e, j)) => {
                    if i + 1 < j && j <= s.len() {
                        match p_map_rest(s, j) {
                            Some((rest, j2)) => Some((seq![e] + rest, j2)),
                            None => None,
                        }
                    } else {
                        None
                    }
                },
                None => None,
            }
        }
    } else {
        None
    }
}

/// The map-rest parser inverts the map-rest emitter when a closing brace
/// follows the emitted entries.
#[verifier::rlimit(40)]
pub proof fn lemma_p_map_rest_ser(s: Seq<char>, i: int, m: Seq<(Seq<char>, Seq<char>)>)
    requires
        0 <= i,
        i + ser_map_rest(m).len() < s.len(),
        s.subrange(i, i + ser_map_rest(m).len() as int) == ser_map_rest(m),
        s[i + ser_map_rest(m).len()] == '}',
        forall|k: int| 0 <= k < m.len() ==> is_decimal_text(#[trigger] m[k].1),
    ensures
        p_map_rest(s, i) == Some((m, i + ser_map_rest(m).len() + 1)),
    decreases m.len(),
{
    reveal_strlit(",");
    reveal_strlit(":");
    reveal_strlit("}");
    let sm = ser_map_rest(m);
    let l = sm.len() as int;
    if m.len() == 0 {
        assert(s[i] == '}');
    } else {
        let e = m[0];
        let rest = m.drop_first();
        let entry = ser_map_entry(e);
        let srest = ser_map_rest(rest);
        assert(sm == comma() + entry + srest);
        assert(comma().len() == 1);
        assert(colon().len() == 1);
        // the leading comma
        lemma_char_in(s, i, sm, 0);
        assert(sm[0] == ',');
        assert(s[i] == ',');
        assert(s[i] != '}');
        // the key string
        assert(sm =~= comma() + ser_str(e.0) + (colon() + e.1 + srest));
        assert(s.subrange(i, i + 1 + ser_str(e.0).len() + (1 + e.1.len() + srest.len())) == comma()
            + ser_str(e.0) + (colon() + e.1 + srest));
        lemma_window(s, i, comma(), ser_str(e.0), colon() + e.1 + srest);
        lemma_p_str_ser(s, i + 1, e.0);
        let j1 = i + 1 + ser_str(e.0).len() as int;
        assert(s[j1] == (colon() + e.1 + srest)[0]);
        assert(s[j1] == ':');
        // the numeral
        assert(sm =~= (comma() + ser_str(e.0) + colon()) + e.1 + srest);
        assert(s.subrange(i, i + (1 + ser_str(e.0).len() + 1) + e.1.len() + srest.len()) == (
        comma() + ser_str(e.0) + colon()) + e.1 + srest);
        lemma_window(s, i, comma() + ser_str(e.0) + colon(), e.1, srest);
        let j2 = j1 + 1 + e.1.len() as int;
        if rest.len() == 0 {
            assert(srest.len() == 0);
            assert(j2 == i + l);
            assert(s[j2] == '}');
        } else {
            assert(srest[0] == ',');
            assert(s[j2] == ',');
        }
        reveal_strlit("0");
        reveal_strlit("9");
        assert(!is_digit(s[j2]));
        assert(s[j2] != '.');
        assert(is_decimal_text(e.1));
        lemma_p_num_ser(s, j1 + 1, e.1);
        assert(p_map_entry(s, i + 1) == Some(((e.0, e.1), j2)));
        assert((e.0, e.1) == e);
        // the remaining entries
        assert(sm =~= (comma() + entry) + srest + Seq::<char>::empty());
        assert(s.subrange(i, i + (1 + entry.len()) + srest.len() + 0) == (comma() + entry) + srest
            + Seq::<char>::empty());
        lemma_window(s, i, comma() + entry, srest, Seq::<char>::empty());
        assert(s.subrange(j2, j2 + srest.len() as int) == srest);
        assert(j2 + srest.len() == i + l);
        lemma_p_map_rest_ser(s, j2, rest);
        assert(seq![e] + rest =~= m);
    }
}

/// The map parser inverts the map emitter.
#[verifier::rlimit(40)]
pub proof fn lemma_p_map_ser(s: Seq<char>, i: int, m: Seq<(Seq<char>, Seq<char>)>)
    requires
        0 <= i,
        i + ser_map(m).len() <= s.len(),
        s.subrange(i, i + ser_map(m).len() as int) == ser_map(m),
        forall|k: int| 0 <= k < m.len() ==> is_decimal_text(#[trigger] m[k].1),
    ensures
        p_map(s, i) == Some((m, i + ser_map(m).len() as int)),
{
    reveal_strlit("{");
    reveal_strlit("}");
    reveal_strlit(",");
    reveal_strlit(":");
    let sm = ser_map(m);
    let l = sm.len() as int;
    assert(lb().len() == 1);
    assert(rb().len() == 1);
    if m.len() == 0 {
        assert(sm == lb() + rb());
        lemma_char_in(s, i, sm, 0);
        lemma_char_in(s, i, sm, 1);
        assert(s[i] == '{');
        assert(s[i + 1] == '}');
    } else {
        let e = m[0];
        let rest = m.drop_first();
        let entry = ser_map_entry(e);
        let srest = ser_map_rest(rest);
        assert(sm == lb() + entry + srest + rb());
        lemma_char_in(s, i, sm, 0);
        assert(sm[0] == '{');
        assert(s[i] == '{');
        lemma_char_in(s, i, sm, 1);
        assert(entry[0] == (ser_str(e.0))[0]);
        assert(entry[0] == '\"');
        assert(sm[1] == '\"');
        assert(s[i + 1] == '\"');
        assert(s[i + 1] != '}');
        // the key string
        assert(sm =~= lb() + ser_str(e.0) + (colon() + e.1 + srest + rb()));
        assert(s.subrange(i, i + 1 + ser_str(e.0).len() + (1 + e.1.len() + srest.len() + 1)) == lb()
            + ser_str(e.0) + (colon() + e.1 + srest + rb()));
        lemma_window(s, i, lb(), ser_str(e.0), colon() + e.1 + srest + rb());
        lemma_p_str_ser(s, i + 1, e.0);
        let j1 = i + 1 + ser_str(e.0).len() as int;
        assert(s[j1] == (colon() + e.1 + srest + rb())[0]);
        assert(s[j1] == ':');
        // the numeral
        assert(sm =~= (lb() + ser_str(e.0) + colon()) + e.1 + (srest + rb()));
        assert(s.subrange(i, i + (1 + ser_str(e.0).len() + 1) + e.1.len() + (srest.len() + 1)) == (
        lb() + ser_str(e.0) + colon()) + e.1 + (srest + rb()));
        lemma_window(s, i, lb() + ser_str(e.0) + colon(), e.1, srest + rb());
        let j2 = j1 + 1 + e.1.len() as int;
        assert(s[j2] == (srest + rb())[0]);
        if rest.len() == 0 {
            assert(s[j2] == '}');
        } else {
            assert(srest[0] == ',');
            assert(s[j2] == ',');
        }
        reveal_strlit("0");
        reveal_strlit("9");
        assert(!is_digit(s[j2]));
        assert(s[j2] != '.');
        assert(is_decimal_text(e.1));
        lemma_p_num_ser(s, j1 + 1, e.1);
        assert(p_map_entry(s, i + 1) == Some(((e.0, e.1), j2)));
        assert((e.0, e.1) == e);
        // the remaining entries and the closing brace
        assert(sm =~= (lb() + entry) + srest + rb());
        assert(s.subrange(i, i + (1 + entry.len()) + srest.len() + 1) == (lb() + entry) + srest
            + rb());
        lemma_window(s, i, lb() + entry, srest, rb());
        assert(s.subrange(j2, j2 + srest.len() as int) == srest);
        assert(s[j2 + srest.len()] == '}');
        assert(j2 + srest.len() < s.len());
        lemma_p_map_rest_ser(s, j2, rest);
        assert(seq![e] + rest =~= m);
    }
}


// ---------------------------------------------------------------------------
// Job cards
// ---------------------------------------------------------------------------
/// A match of a concatenation is also a match of its first part.
pub proof fn lemma_lit_prefix(s: Seq<char>, j: int, x: Seq<char>, y: Seq<char>)
    requires
        lit_at(s, j, x + y),
    ensures
        lit_at(s, j, x),
{
    assert forall|k: int| 0 <= k < x.len() implies #[trigger] s.subrange(j, j + x.len() as int)[k]
        == x[k] by {
        assert(s.subrange(j, j + (x + y).len() as int)[k] == s[j + k]);
        assert(s.subrange(j, j + x.len() as int)[k] == s[j + k]);
    }
    assert(s.subrange(j, j + x.len() as int) =~= x);
}

/// Appends a whole character vector.
pub fn push_seq(out: &mut Vec<char>, p: &Vec<char>)
    ensures
        final(out)@ == old(out)@ + p@,
{
    let mut k: usize = 0;
    while k < p.len()
        invariant
            0 <= k <= p@.len(),
            out@ == old(out)@ + p@.subrange(0, k as int),
        decreases p@.len() - k,
    {
        out.push(p[k]);
        proof {
            assert((old(out)@ + p@.subrange(0, k as int)).push(p@[k as int]) =~= old(out)@
                + p@.subrange(0, k as int + 1));
        }
        k = k + 1;
    }
    proof {
        assert(p@.subrange(0, p@.len() as int) =~= p@);
    }
}

pub open spec fn k_obj_jcid() -> Seq<char> {
    "{\"jobCardId\":"@
}

pub open spec fn k_progress() -> Seq<char> {
    ",\"progress\":"@
}

pub open spec fn k_total() -> Seq<char> {
    ",\"total\":"@
}

/// The JSON object of one job card.
pub open spec fn ser_jobcard(j: JobCardView) -> Seq<char> {
    k_obj_jcid() + ser_str(j.job_card_id) + k_mold() + ser_str(j.mold_id) + k_progress() + ser_nat(
        j.progress as int,
    ) + k_total() + ser_nat(j.total as int) + rb()
}

/// Reads one job-card object at `i`.
pub open spec fn p_jobcard(s: Seq<char>, i: int) -> Option<(JobCardView, int)> {
    if lit_at(s, i, k_obj_jcid()) {
        match p_str(s, i + k_obj_jcid().len()) {
            Some((jid, j1)) => if lit_at(s, j1, k_mold()) {
                match p_str(s, j1 + k_mold().len()) {
                    Some((mid, j2)) => if lit_at(s, j2, k_progress()) {
                        match p_u32(s, j2 + k_progress().len()) {
                            Some((pr, j3)) => if lit_at(s, j3, k_total()) {
                                match p_u32(s, j3 + k_total().len()) {
                                    Some((tot, j4)) => if j4 < s.len() && s[j4] == '}' {
                                        Some(
                                            (
                                                JobCardView {
                                                    job_card_id: jid,
                                                    mold_id: mid,
                                                    progress: pr,
                                                    total: tot,
                                                },
                                                j4 + 1,
                                            ),
                                        )
                                    } else {
                                        None
                                    },
                                    None => None,
                                }
                            } else {
                                None
                            },
                            None => None,
                        }
                    } else {
                        None
                    },
                    None => None,
                }
            } else {
                None
            },
            None => None,
        }
    } else {
        None
    }
}

/// The job-card parser inverts the job-card emitter.
#[verifier::rlimit(60)]
pub proof fn lemma_p_jobcard_ser(s: Seq<char>, i: int, j: JobCardView)
    requires
        0 <= i,
        i + ser_jobcard(j).len() <= s.len(),
        s.subrange(i, i + ser_jobcard(j).len() as int) == ser_jobcard(j),
    ensures
        p_jobcard(s, i) == Some((j, i + ser_jobcard(j).len() as int)),
{
    reveal_strlit(",\"total\":");
    reveal_strlit("}");
    let sj = ser_jobcard(j);
    let a = k_obj_jcid();
    let sjid = ser_str(j.job_card_id);
    let smid = ser_str(j.mold_id);
    let spr = ser_nat(j.progress as int);
    let stot = ser_nat(j.total as int);
    crate::lex::lemma_ser_nat_digits(j.progress as int);
    crate::lex::lemma_ser_nat_digits(j.total as int);
    assert(sj =~= Seq::<char>::empty() + a + (sjid + k_mold() + smid + k_progress() + spr
        + k_total() + stot + rb()));
    lemma_window(
        s,
        i,
        Seq::<char>::empty(),
        a,
        sjid + k_mold() + smid + k_progress() + spr + k_total() + stot + rb(),
    );
    assert(sj =~= a + sjid + (k_mold() + smid + k_progress() + spr + k_total() + stot + rb()));
    lemma_window(s, i, a, sjid, k_mold() + smid + k_progress() + spr + k_total() + stot + rb());
    lemma_p_str_ser(s, i + a.len(), j.job_card_id);
    let j1 = i + a.len() + sjid.len() as int;
    assert(sj =~= (a + sjid) + k_mold() + (smid + k_progress() + spr + k_total() + stot + rb()));
    lemma_window(s, i, a + sjid, k_mold(), smid + k_progress() + spr + k_total() + stot + rb());
    assert(sj =~= (a + sjid + k_mold()) + smid + (k_progress() + spr + k_total() + stot + rb()));
    lemma_window(s, i, a + sjid + k_mold(), smid, k_progress() + spr + k_total() + stot + rb());
    lemma_p_str_ser(s, j1 + k_mold().len(), j.mold_id);
    let j2 = j1 + k_mold().len() + smid.len() as int;
    assert(sj =~= (a + sjid + k_mold() + smid) + k_progress() + (spr + k_total() + stot + rb()));
    lemma_window(s, i, a + sjid + k_mold() + smid, k_progress(), spr + k_total() + stot + rb());
    assert(sj =~= (a + sjid + k_mold() + smid + k_progress()) + spr + (k_total() + stot + rb()));
    lemma_window(s, i, a + sjid + k_mold() + smid + k_progress(), spr, k_total() + stot + rb());
    let j3 = j2 + k_progress().len() + spr.len() as int;
    assert((k_total() + stot + rb())[0] == ',');
    assert(s[j3] == ',');
    assert(!is_digit(s[j3]));
    lemma_p_u32_ser(s, j2 + k_progress().len(), j.progress);
    assert(sj =~= (a + sjid + k_mold() + smid + k_progress() + spr) + k_total() + (stot + rb()));
    lemma_window(s, i, a + sjid + k_mold() + smid + k_progress() + spr, k_total(), stot + rb());
    assert(sj =~= (a + sjid + k_mold() + smid + k_progress() + spr + k_total()) + stot + rb());
    lemma_window(s, i, a + sjid + k_mold() + smid + k_progress() + spr + k_total(), stot, rb());
    let j4 = j3 + k_total().len() + stot.len() as int;
    assert(rb()[0] == '}');
    assert(s[j4] == '}');
    assert(!is_digit(s[j4]));
    lemma_p_u32_ser(s, j3 + k_total().len(), j.total);
    assert(j4 + 1 == i + sj.len());
    assert(p_jobcard(s, i) == Some(
        (
            JobCardView {
                job_card_id: j.job_card_id,
                mold_id: j.mold_id,
                progress: j.progress,
                total: j.total,
            },
            j4 + 1,
        ),
    ));
    assert(JobCardView {
        job_card_id: j.job_card_id,
        mold_id: j.mold_id,
        progress: j.progress,
        total: j.total,
    } == j);
}

/// Emits one job-card object.
pub fn emit_jobcard(out: &mut Vec<char>, j: &JobCard)
    ensures
        final(out)@ == old(out)@ + ser_jobcard(j@),
{
    let kj = str_to_vec("{\"jobCardId\":");
    let km = str_to_vec(",\"moldId\":");
    let kp = str_to_vec(",\"progress\":");
    let kt = str_to_vec(",\"total\":");
    push_seq(out, &kj);
    let jidv = str_to_vec(j.job_card_id.as_str());
    push_quoted(out, &jidv);
    push_seq(out, &km);
    let midv = str_to_vec(j.mold_id.as_str());
    push_quoted(out, &midv);
    push_seq(out, &kp);
    push_u32(out, j.progress);
    push_seq(out, &kt);
    push_u32(out, j.total);
    out.push('}');
    proof {
        reveal_strlit("}");
        assert(final(out)@ =~= old(out)@ + ser_jobcard(j@));
    }
}

/// Reads one job-card object at `i`.
pub fn parse_jobcard(v: &Vec<char>, i: usize) -> (r: Option<(JobCard, usize)>)
    requires
        i <= v@.len(),
    ensures
        match r {
            Some((jc, j)) => p_jobcard(v@, i as int) == Some((jc@, j as int)) && i < j <= v@.len(),
            None => p_jobcard(v@, i as int) is None,
        },
{
    let n = v.len();
    let kj = str_to_vec("{\"jobCardId\":");
    let km = str_to_vec(",\"moldId\":");
    let kp = str_to_vec(",\"progress\":");
    let kt = str_to_vec(",\"total\":");
    if !match_lit(v, i, &kj) {
        return None;
    }
    let (jid, j1) = match parse_str(v, i + kj.len()) {
        Some(x) => x,
        None => {
            return None;
        },
    };
    if !match_lit(v, j1, &km) {
        return None;
    }
    let (mid, j2) = match parse_str(v, j1 + km.len()) {
        Some(x) => x,
        None => {
            return None;
        },
    };
    if !match_lit(v, j2, &kp) {
        return None;
    }
    let (pr, j3) = match parse_u32(v, j2 + kp.len()) {
        Some(x) => x,
        None => {
            return None;
        },
    };
    if !match_lit(v, j3, &kt) {
        return None;
    }
    let (tot, j4) = match parse_u32(v, j3 + kt.len()) {
        Some(x) => x,
        None => {
            return None;
        },
    };
    if !(j4 < v.len() && v[j4] == '}') {
        return None;
    }
    let jc = JobCard {
        job_card_id: vec_to_string(&jid),
        mold_id: vec_to_string(&mid),
        progress: pr,
        total: tot,
    };
    Some((jc, j4 + 1))
}


// ---------------------------------------------------------------------------
// Controller objects
// ---------------------------------------------------------------------------
/// An optional string field: key and quoted value, or nothing.
pub open spec fn f_opt_str(key: Seq<char>, o: Option<Seq<char>>) -> Seq<char> {
    match o {
        Some(t) => key + ser_str(t),
        None => Seq::empty(),
    }
}

/// An optional map field: key and map object, or nothing.
pub open spec fn f_opt_map(key: Seq<char>, o: Option<Seq<(Seq<char>, Seq<char>)>>) -> Seq<char> {
    match o {
        Some(m) => key + ser_map(m),
        None => Seq::empty(),
    }
}

/// The flattened geo-location fields, or nothing.
pub open spec fn f_geo(o: Option<GeoLocationView>) -> Seq<char> {
    match o {
        Some(g) => k_glat() + g.geo_latitude + k_glon() + g.geo_longitude,
        None => Seq::empty(),
    }
}

/// The quoted connection timestamp, or nothing.
pub open spec fn f_lct(o: Option<Timestamp>) -> Seq<char> {
    match o {
        Some(t) => k_lct() + ser_ts(t) + quote(),
        None => Seq::empty(),
    }
}

/// The optional operator name inside the flattened operator fields.
pub open spec fn f_opname(o: Option<Seq<char>>) -> Seq<char> {
    f_opt_str(k_opname(), o)
}

/// The flattened operator fields, or nothing.
pub open spec fn f_operator(o: Option<OperatorView>) -> Seq<char> {
    match o {
        Some(op) => k_opid() + ser_nat(op.operator_id as int) + f_opname(op.operator_name),
        None => Seq::empty(),
    }
}

// What remains of a controller object from each field on.
pub open spec fn t_rb(c: ControllerView) -> Seq<char> {
    rb()
}

pub open spec fn t_mold(c: ControllerView) -> Seq<char> {
    f_opt_str(k_mold(), c.mold_id) + t_rb(c)
}

pub open spec fn t_jcid(c: ControllerView) -> Seq<char> {
    f_opt_str(k_jcid(), c.job_card_id) + t_mold(c)
}

pub open spec fn t_operator(c: ControllerView) -> Seq<char> {
    f_operator(c.operator) + t_jcid(c)
}

pub open spec fn t_lct(c: ControllerView) -> Seq<char> {
    f_lct(c.last_connection_time) + t_operator(c)
}

pub open spec fn t_vars(c: ControllerView) -> Seq<char> {
    f_opt_map(k_vars(), c.variables) + t_lct(c)
}

pub open spec fn t_lcd(c: ControllerView) -> Seq<char> {
    f_opt_map(k_lcd(), c.last_cycle_data) + t_vars(c)
}

pub open spec fn t_job(c: ControllerView) -> Seq<char> {
    f_job_mode(c.job_mode) + t_lcd(c)
}

pub open spec fn t_op(c: ControllerView) -> Seq<char> {
    f_op_mode(c.op_mode) + t_job(c)
}

pub open spec fn t_geo(c: ControllerView) -> Seq<char> {
    f_geo(c.geo_location) + t_op(c)
}

pub open spec fn t_ip(c: ControllerView) -> Seq<char> {
    k_ip() + ser_str(c.address) + t_geo(c)
}

pub open spec fn t_model(c: ControllerView) -> Seq<char> {
    k_model() + ser_str(c.model) + t_ip(c)
}

pub open spec fn t_ver(c: ControllerView) -> Seq<char> {
    k_ver() + ser_str(c.version) + t_model(c)
}

pub open spec fn t_ct(c: ControllerView) -> Seq<char> {
    k_ct() + ser_str(c.controller_type) + t_ver(c)
}

pub open spec fn t_dn(c: ControllerView) -> Seq<char> {
    f_opt_str(k_dn(), c.display_name) + t_ct(c)
}

/// The JSON object of one controller snapshot.
#[verifier::opaque]
pub open spec fn ser_controller(c: ControllerView) -> Seq<char> {
    k_obj_cid() + ser_nat(c.controller_id as int) + t_dn(c)
}

// ---------------------------------------------------------------------------
// Controller object parsing
// ---------------------------------------------------------------------------
/// An optional string field at `i`.
pub open spec fn p_opt_str(s: Seq<char>, i: int, key: Seq<char>) -> Option<(Option<Seq<char>>, int)> {
    if lit_at(s, i, key) {
        match p_str(s, i + key.len()) {
            Some((t, j)) => Some((Some(t), j)),
            None => None,
        }
    } else {
        Some((None, i))
    }
}

/// An optional map field at `i`.
pub open spec fn p_opt_map(s: Seq<char>, i: int, key: Seq<char>) -> Option<(Option<Seq<(Seq<char>, Seq<char>)>>, int)> {
    if lit_at(s, i, key) {
        match p_map(s, i + key.len()) {
            Some((m, j)) => Some((Some(m), j)),
            None => None,
        }
    } else {
        Some((None, i))
    }
}

/// The optional flattened geo-location at `i`.
pub open spec fn p_geo(s: Seq<char>, i: int) -> Option<(Option<GeoLocationView>, int)> {
    if lit_at(s, i, k_glat()) {
        match p_num(s, i + k_glat().len()) {
            Some((lat, j1)) => if lit_at(s, j1, k_glon()) {
                match p_num(s, j1 + k_glon().len()) {
                    Some((lon, j2)) => Some(
                        (Some(GeoLocationView { geo_latitude: lat, geo_longitude: lon }), j2),
                    ),
                    None => None,
                }
            } else {
                None
            },
            None => None,
        }
    } else {
        Some((None, i))
    }
}

/// The optional quoted timestamp at `i`.
pub open spec fn p_lct(s: Seq<char>, i: int) -> Option<(Option<Timestamp>, int)> {
    if lit_at(s, i, k_lct()) {
        match p_ts(s, i + k_lct().len()) {
            Some((t, j)) => if j < s.len() && s[j] == '"' {
                Some((Some(t), j + 1))
            } else {
                None
            },
            None => None,
        }
    } else {
        Some((None, i))
    }
}

/// The optional flattened operator at `i`.
pub open spec fn p_operator(s: Seq<char>, i: int) -> Option<(Option<OperatorView>, int)> {
    if lit_at(s, i, k_opid()) {
        match p_u32(s, i + k_opid().len()) {
            Some((oid, j1)) => match p_opt_str(s, j1, k_opname()) {
                Some((name, j2)) => Some(
                    (Some(OperatorView { operator_id: oid, operator_name: name }), j2),
                ),
                None => None,
            },
            None => None,
        }
    } else {
        Some((None, i))
    }
}

/// Reads one controller object at `i`.
#[verifier::opaque]
pub open spec fn p_controller(s: Seq<char>, i: int) -> Option<(ControllerView, int)> {
    if lit_at(s, i, k_obj_cid()) {
        match p_u32(s, i + k_obj_cid().len()) {
            Some((cid, j0)) => match p_opt_str(s, j0, k_dn()) {
                Some((dn, j1)) => if lit_at(s, j1, k_ct()) {
                    match p_str(s, j1 + k_ct().len()) {
                        Some((ct, j2)) => if lit_at(s, j2, k_ver()) {
                            match p_str(s, j2 + k_ver().len()) {
                                Some((ver, j3)) => if lit_at(s, j3, k_model()) {
                                    match p_str(s, j3 + k_model().len()) {
                                        Some((model, j4)) => if lit_at(s, j4, k_ip()) {
                                            match p_str(s, j4 + k_ip().len()) {
                                                Some((ip, j5)) => p_controller_tail(
                                                    s, j5, cid, dn, ct, ver, model, ip,
                                                ),
                                                None => None,
                                            }
                                        } else {
                                            None
                                        },
                                        None => None,
                                    }
                                } else {
                                    None
                                },
                                None => None,
                            }
                        } else {
                            None
                        },
                        None => None,
                    }
                } else {
                    None
                },
                None => None,
            },
            None => None,
        }
    } else {
        None
    }
}

/// The second half of a controller object, from the geo-location on.
pub open spec fn p_controller_tail(
    s: Seq<char>,
    i: int,
    cid: u32,
    dn: Option<Seq<char>>,
    ct: Seq<char>,
    ver: Seq<char>,
    model: Seq<char>,
    ip: Seq<char>,
) -> Option<(ControllerView, int)> {
    match p_geo(s, i) {
        Some((geo, j6)) => match p_op_mode(s, j6) {
            Some((om, j7)) => match p_job_mode(s, j7) {
                Some((jm, j8)) => match p_opt_map(s, j8, k_lcd()) {
                    Some((lcd, j9)) => match p_opt_map(s, j9, k_vars()) {
                        Some((vars, j10)) => match p_lct(s, j10) {
                            Some((lct, j11)) => match p_operator(s, j11) {
                                Some((op, j12)) => match p_opt_str(s, j12, k_jcid()) {
                                    Some((jcid, j13)) => match p_opt_str(s, j13, k_mold()) {
                                        Some((mold, j14)) => if j14 < s.len() && s[j14] == '}' {
                                            Some(
                                                (
                                                    ControllerView {
                                                        controller_id: cid,
                                                        display_name: dn,
                                                        controller_type: ct,
                                                        version: ver,
                                                        model: model,
                                                        address: ip,
                                                        geo_location: geo,
                                                        op_mode: om,
                                                        job_mode: jm,
                                                        last_cycle_data: lcd,
                                                        variables: vars,
                                                        last_connection_time: lct,
                                                        operator: op,
                                                        job_card_id: jcid,
                                                        mold_id: mold,
                                                    },
                                                    j14 + 1,
                                                ),
                                            )
                                        } else {
                                            None
                                        },
                                        None => None,
                                    },
                                    None => None,
                                },
                                None => None,
                            },
                            None => None,
                        },
                        None => None,
                    },
                    None => None,
                },
                None => None,
            },
            None => None,
        },
        None => None,
    }
}

/// When the field keyed by this pattern is absent, the text that follows
/// cannot begin with its key.
pub proof fn lemma_no_lcd(s: Seq<char>, j: int, c: ControllerView)
    requires
        lit_at(s, j, t_vars(c)),
    ensures
        !lit_at(s, j, k_lcd()),
{
    reveal_strlit(",\"lastCycleData\":");
    reveal_strlit(",\"variables\":");
    reveal_strlit(",\"lastConnectionTime\":\"");
    reveal_strlit(",\"operatorId\":");
    reveal_strlit(",\"operatorName\":");
    reveal_strlit(",\"jobCardId\":");
    reveal_strlit(",\"moldId\":");
    reveal_strlit("}");
    match c.variables {
        Some(x) => {
            assert(t_vars(c) == f_opt_map(k_vars(), c.variables) + t_lct(c));
            lemma_lit_prefix(s, j, f_opt_map(k_vars(), c.variables), t_lct(c));
            assert(f_opt_map(k_vars(), c.variables) =~= k_vars() + ser_map(x));
            lemma_lit_prefix(s, j, k_vars(), ser_map(x));
            lemma_not_lit(s, j, k_vars(), k_lcd(), 2);
        },
        None => {
            assert(t_vars(c) =~= t_lct(c));
            match c.last_connection_time {
                Some(x) => {
                    assert(t_lct(c) == f_lct(c.last_connection_time) + t_operator(c));
                    lemma_lit_prefix(s, j, f_lct(c.last_connection_time), t_operator(c));
                    assert(f_lct(c.last_connection_time) =~= k_lct() + (ser_ts(x) + quote()));
                    lemma_lit_prefix(s, j, k_lct(), ser_ts(x) + quote());
                    lemma_not_lit(s, j, k_lct(), k_lcd(), 7);
                },
                None => {
                    assert(t_lct(c) =~= t_operator(c));
                    match c.operator {
                        Some(x) => {
                            assert(t_operator(c) == f_operator(c.operator) + t_jcid(c));
                            lemma_lit_prefix(s, j, f_operator(c.operator), t_jcid(c));
                            assert(f_operator(c.operator) =~= k_opid() + (ser_nat(x.operator_id as int) + f_opname(x.operator_name)));
                            lemma_lit_prefix(s, j, k_opid(), ser_nat(x.operator_id as int) + f_opname(x.operator_name));
                            lemma_not_lit(s, j, k_opid(), k_lcd(), 2);
                        },
                        None => {
                            assert(t_operator(c) =~= t_jcid(c));
                            match c.job_card_id {
                                Some(x) => {
                                    assert(t_jcid(c) == f_opt_str(k_jcid(), c.job_card_id) + t_mold(c));
                                    lemma_lit_prefix(s, j, f_opt_str(k_jcid(), c.job_card_id), t_mold(c));
                                    assert(f_opt_str(k_jcid(), c.job_card_id) =~= k_jcid() + ser_str(x));
                                    lemma_lit_prefix(s, j, k_jcid(), ser_str(x));
                                    lemma_not_lit(s, j, k_jcid(), k_lcd(), 2);
                                },
                                None => {
                                    assert(t_jcid(c) =~= t_mold(c));
                                    match c.mold_id {
                                        Some(x) => {
                                            assert(t_mold(c) == f_opt_str(k_mold(), c.mold_id) + t_rb(c));
                                            lemma_lit_prefix(s, j, f_opt_str(k_mold(), c.mold_id), t_rb(c));
                                            assert(f_opt_str(k_mold(), c.mold_id) =~= k_mold() + ser_str(x));
                                            lemma_lit_prefix(s, j, k_mold(), ser_str(x));
                                            lemma_not_lit(s, j, k_mold(), k_lcd(), 2);
                                        },
                                        None => {
                                            assert(t_mold(c) =~= t_rb(c));
                                            assert(t_rb(c) == rb());
                                            lemma_not_lit(s, j, rb(), k_lcd(), 0);
                                        },
                                    }
                                },
                            }
                        },
                    }
                },
            }
        },
    }
}

/// When the field keyed by this pattern is absent, the text that follows
/// cannot begin with its key.
pub proof fn lemma_no_vars(s: Seq<char>, j: int, c: ControllerView)
    requires
        lit_at(s, j, t_lct(c)),
    ensures
        !lit_at(s, j, k_vars()),
{
    reveal_strlit(",\"lastCycleData\":");
    reveal_strlit(",\"variables\":");
    reveal_strlit(",\"lastConnectionTime\":\"");
    reveal_strlit(",\"operatorId\":");
    reveal_strlit(",\"operatorName\":");
    reveal_strlit(",\"jobCardId\":");
    reveal_strlit(",\"moldId\":");
    reveal_strlit("}");
    match c.last_connection_time {
        Some(x) => {
            assert(t_lct(c) == f_lct(c.last_connection_time) + t_operator(c));
            lemma_lit_prefix(s, j, f_lct(c.last_connection_time), t_operator(c));
            assert(f_lct(c.last_connection_time) =~= k_lct() + (ser_ts(x) + quote()));
            lemma_lit_prefix(s, j, k_lct(), ser_ts(x) + quote());
            lemma_not_lit(s, j, k_lct(), k_vars(), 2);
        },
        None => {
            assert(t_lct(c) =~= t_operator(c));
            match c.operator {
                Some(x) => {
                    assert(t_operator(c) == f_operator(c.operator) + t_jcid(c));
                    lemma_lit_prefix(s, j, f_operator(c.operator), t_jcid(c));
                    assert(f_operator(c.operator) =~= k_opid() + (ser_nat(x.operator_id as int) + f_opname(x.operator_name)));
                    lemma_lit_prefix(s, j, k_opid(), ser_nat(x.operator_id as int) + f_opname(x.operator_name));
                    lemma_not_lit(s, j, k_opid(), k_vars(), 2);
                },
                None => {
                    assert(t_operator(c) =~= t_jcid(c));
                    match c.job_card_id {
                        Some(x) => {
                            assert(t_jcid(c) == f_opt_str(k_jcid(), c.job_card_id) + t_mold(c));
                            lemma_lit_prefix(s, j, f_opt_str(k_jcid(), c.job_card_id), t_mold(c));
                            assert(f_opt_str(k_jcid(), c.job_card_id) =~= k_jcid() + ser_str(x));
                            lemma_lit_prefix(s, j, k_jcid(), ser_str(x));
                            assert(k_jcid()[2] == 'j');
                            assert(k_vars()[2] == 'v');
                            lemma_not_lit(s, j, k_jcid(), k_vars(), 2);
                        },
                        None => {
                            assert(t_jcid(c) =~= t_mold(c));
                            match c.mold_id {
                                Some(x) => {
                                    assert(t_mold(c) == f_opt_str(k_mold(), c.mold_id) + t_rb(c));
                                    lemma_lit_prefix(s, j, f_opt_str(k_mold(), c.mold_id), t_rb(c));
                                    assert(f_opt_str(k_mold(), c.mold_id) =~= k_mold() + ser_str(x));
                                    lemma_lit_prefix(s, j, k_mold(), ser_str(x));
                                    lemma_not_lit(s, j, k_mold(), k_vars(), 2);
                                },
                                None => {
                                    assert(t_mold(c) =~= t_rb(c));
                                    assert(t_rb(c) == rb());
                                    lemma_not_lit(s, j, rb(), k_vars(), 0);
                                },
                            }
                        },
                    }
                },
            }
        },
    }
}

/// When the field keyed by this pattern is absent, the text that follows
/// cannot begin with its key.
pub proof fn lemma_no_lct(s: Seq<char>, j: int, c: ControllerView)
    requires
        lit_at(s, j, t_operator(c)),
    ensures
        !lit_at(s, j, k_lct()),
{
    reveal_strlit(",\"lastCycleData\":");
    reveal_strlit(",\"variables\":");
    reveal_strlit(",\"lastConnectionTime\":\"");
    reveal_strlit(",\"operatorId\":");
    reveal_strlit(",\"operatorName\":");
    reveal_strlit(",\"jobCardId\":");
    reveal_strlit(",\"moldId\":");
    reveal_strlit("}");
    match c.operator {
        Some(x) => {
            assert(t_operator(c) == f_operator(c.operator) + t_jcid(c));
            lemma_lit_prefix(s, j, f_operator(c.operator), t_jcid(c));
            assert(f_operator(c.operator) =~= k_opid() + (ser_nat(x.operator_id as int) + f_opname(x.operator_name)));
            lemma_lit_prefix(s, j, k_opid(), ser_nat(x.operator_id as int) + f_opname(x.operator_name));
            lemma_not_lit(s, j, k_opid(), k_lct(), 2);
        },
        None => {
            assert(t_operator(c) =~= t_jcid(c));
            match c.job_card_id {
                Some(x) => {
                    assert(t_jcid(c) == f_opt_str(k_jcid(), c.job_card_id) + t_mold(c));
                    lemma_lit_prefix(s, j, f_opt_str(k_jcid(), c.job_card_id), t_mold(c));
                    assert(f_opt_str(k_jcid(), c.job_card_id) =~= k_jcid() + ser_str(x));
                    lemma_lit_prefix(s, j, k_jcid(), ser_str(x));
                    lemma_not_lit(s, j, k_jcid(), k_lct(), 2);
                },
                None => {
                    assert(t_jcid(c) =~= t_mold(c));
                    match c.mold_id {
                        Some(x) => {
                            assert(t_mold(c) == f_opt_str(k_mold(), c.mold_id) + t_rb(c));
                            lemma_lit_prefix(s, j, f_opt_str(k_mold(), c.mold_id), t_rb(c));
                            assert(f_opt_str(k_mold(), c.mold_id) =~= k_mold() + ser_str(x));
                            lemma_lit_prefix(s, j, k_mold(), ser_str(x));
                            lemma_not_lit(s, j, k_mold(), k_lct(), 2);
                        },
                        None => {
                            assert(t_mold(c) =~= t_rb(c));
                            assert(t_rb(c) == rb());
                            lemma_not_lit(s, j, rb(), k_lct(), 0);
                        },
                    }
                },
            }
        },
    }
}

/// When the field keyed by this pattern is absent, the text that follows
/// cannot begin with its key.
pub proof fn lemma_no_opid(s: Seq<char>, j: int, c: ControllerView)
    requires
        lit_at(s, j, t_jcid(c)),
    ensures
        !lit_at(s, j, k_opid()),
{
    reveal_strlit(",\"lastCycleData\":");
    reveal_strlit(",\"variables\":");
    reveal_strlit(",\"lastConnectionTime\":\"");
    reveal_strlit(",\"operatorId\":");
    reveal_strlit(",\"operatorName\":");
    reveal_strlit(",\"jobCardId\":");
    reveal_strlit(",\"moldId\":");
    reveal_strlit("}");
    match c.job_card_id {
        Some(x) => {
            assert(t_jcid(c) == f_opt_str(k_jcid(), c.job_card_id) + t_mold(c));
            lemma_lit_prefix(s, j, f_opt_str(k_jcid(), c.job_card_id), t_mold(c));
            assert(f_opt_str(k_jcid(), c.job_card_id) =~= k_jcid() + ser_str(x));
            lemma_lit_prefix(s, j, k_jcid(), ser_str(x));
            lemma_not_lit(s, j, k_jcid(), k_opid(), 2);
        },
        None => {
            assert(t_jcid(c) =~= t_mold(c));
            match c.mold_id {
                Some(x) => {
                    assert(t_mold(c) == f_opt_str(k_mold(), c.mold_id) + t_rb(c));
                    lemma_lit_prefix(s, j, f_opt_str(k_mold(), c.mold_id), t_rb(c));
                    assert(f_opt_str(k_mold(), c.mold_id) =~= k_mold() + ser_str(x));
                    lemma_lit_prefix(s, j, k_mold(), ser_str(x));
                    lemma_not_lit(s, j, k_mold(), k_opid(), 2);
                },
                None => {
                    assert(t_mold(c) =~= t_rb(c));
                    assert(t_rb(c) == rb());
                    lemma_not_lit(s, j, rb(), k_opid(), 0);
                },
            }
        },
    }
}

/// When the field keyed by this pattern is absent, the text that follows
/// cannot begin with its key.
pub proof fn lemma_no_opname(s: Seq<char>, j: int, c: ControllerView)
    requires
        lit_at(s, j, t_jcid(c)),
    ensures
        !lit_at(s, j, k_opname()),
{
    reveal_strlit(",\"lastCycleData\":");
    reveal_strlit(",\"variables\":");
    reveal_strlit(",\"lastConnectionTime\":\"");
    reveal_strlit(",\"operatorId\":");
    reveal_strlit(",\"operatorName\":");
    reveal_strlit(",\"jobCardId\":");
    reveal_strlit(",\"moldId\":");
    reveal_strlit("}");
    match c.job_card_id {
        Some(x) => {
            assert(t_jcid(c) == f_opt_str(k_jcid(), c.job_card_id) + t_mold(c));
            lemma_lit_prefix(s, j, f_opt_str(k_jcid(), c.job_card_id), t_mold(c));
            assert(f_opt_str(k_jcid(), c.job_card_id) =~= k_jcid() + ser_str(x));
            lemma_lit_prefix(s, j, k_jcid(), ser_str(x));
            lemma_not_lit(s, j, k_jcid(), k_opname(), 2);
        },
        None => {
            assert(t_jcid(c) =~= t_mold(c));
            match c.mold_id {
                Some(x) => {
                    assert(t_mold(c) == f_opt_str(k_mold(), c.mold_id) + t_rb(c));
                    lemma_lit_prefix(s, j, f_opt_str(k_mold(), c.mold_id), t_rb(c));
                    assert(f_opt_str(k_mold(), c.mold_id) =~= k_mold() + ser_str(x));
                    lemma_lit_prefix(s, j, k_mold(), ser_str(x));
                    lemma_not_lit(s, j, k_mold(), k_opname(), 2);
                },
                None => {
                    assert(t_mold(c) =~= t_rb(c));
                    assert(t_rb(c) == rb());
                    lemma_not_lit(s, j, rb(), k_opname(), 0);
                },
            }
        },
    }
}

/// When the field keyed by this pattern is absent, the text that follows
/// cannot begin with its key.
pub proof fn lemma_no_jcid(s: Seq<char>, j: int, c: ControllerView)
    requires
        lit_at(s, j, t_mold(c)),
    ensures
        !lit_at(s, j, k_jcid()),
{
    reveal_strlit(",\"lastCycleData\":");
    reveal_strlit(",\"variables\":");
    reveal_strlit(",\"lastConnectionTime\":\"");
    reveal_strlit(",\"operatorId\":");
    reveal_strlit(",\"operatorName\":");
    reveal_strlit(",\"jobCardId\":");
    reveal_strlit(",\"moldId\":");
    reveal_strlit("}");
    match c.mold_id {
        Some(x) => {
            assert(t_mold(c) == f_opt_str(k_mold(), c.mold_id) + t_rb(c));
            lemma_lit_prefix(s, j, f_opt_str(k_mold(), c.mold_id), t_rb(c));
            assert(f_opt_str(k_mold(), c.mold_id) =~= k_mold() + ser_str(x));
            lemma_lit_prefix(s, j, k_mold(), ser_str(x));
            lemma_not_lit(s, j, k_mold(), k_jcid(), 2);
        },
        None => {
            assert(t_mold(c) =~= t_rb(c));
            assert(t_rb(c) == rb());
            lemma_not_lit(s, j, rb(), k_jcid(), 0);
        },
    }
}

/// When the field keyed by this pattern is absent, the text that follows
/// cannot begin with its key.
pub proof fn lemma_no_mold(s: Seq<char>, j: int, c: ControllerView)
    requires
        lit_at(s, j, t_rb(c)),
    ensures
        !lit_at(s, j, k_mold()),
{
    reveal_strlit(",\"lastCycleData\":");
    reveal_strlit(",\"variables\":");
    reveal_strlit(",\"lastConnectionTime\":\"");
    reveal_strlit(",\"operatorId\":");
    reveal_strlit(",\"operatorName\":");
    reveal_strlit(",\"jobCardId\":");
    reveal_strlit(",\"moldId\":");
    reveal_strlit("}");
    assert(t_rb(c) == rb());
    lemma_not_lit(s, j, rb(), k_mold(), 0);
}


// ---------------------------------------------------------------------------
// Stepping through a controller object
// ---------------------------------------------------------------------------
/// First characters of the tails that follow a number field.
pub proof fn lemma_tail_heads(c: ControllerView)
    ensures
        t_dn(c).len() > 0 && t_dn(c)[0] == ',',
        t_op(c).len() > 0 && t_op(c)[0] == ',',
        t_jcid(c).len() > 0 && (t_jcid(c)[0] == ',' || t_jcid(c)[0] == '}'),
{
    reveal_strlit(",\"displayName\":");
    reveal_strlit(",\"controllerType\":");
    reveal_strlit(",\"opMode\":\"");
    reveal_strlit(",\"jobCardId\":");
    reveal_strlit(",\"moldId\":");
    reveal_strlit("}");
    match c.display_name {
        Some(n) => {
            assert(t_dn(c)[0] == k_dn()[0]);
        },
        None => {
            assert(t_dn(c) =~= t_ct(c));
            assert(t_ct(c)[0] == k_ct()[0]);
        },
    }
    assert(t_op(c)[0] == k_op_prefix()[0]);
    match c.job_card_id {
        Some(n) => {
            assert(t_jcid(c)[0] == k_jcid()[0]);
        },
        None => {
            assert(t_jcid(c) =~= t_mold(c));
            match c.mold_id {
                Some(n) => {
                    assert(t_mold(c)[0] == k_mold()[0]);
                },
                None => {
                    assert(t_mold(c) =~= rb());
                    assert(rb()[0] == '}');
                },
            }
        },
    }
}

/// Consumes an optional quoted-string field.
pub proof fn lemma_step_opt_str(
    s: Seq<char>,
    j: int,
    key: Seq<char>,
    o: Option<Seq<char>>,
    rest: Seq<char>,
)
    requires
        0 <= j,
        lit_at(s, j, f_opt_str(key, o) + rest),
        o is None ==> !lit_at(s, j, key),
    ensures
        p_opt_str(s, j, key) == Some((o, j + f_opt_str(key, o).len() as int)),
        lit_at(s, j + f_opt_str(key, o).len() as int, rest),
{
    match o {
        Some(t) => {
            assert(f_opt_str(key, o) + rest =~= key + (ser_str(t) + rest));
            lemma_lit_prefix(s, j, key, ser_str(t) + rest);
            lemma_lit_suffix(s, j, key, ser_str(t) + rest);
            lemma_lit_prefix(s, j + key.len() as int, ser_str(t), rest);
            lemma_lit_suffix(s, j + key.len() as int, ser_str(t), rest);
            lemma_p_str_ser(s, j + key.len() as int, t);
        },
        None => {
            assert(f_opt_str(key, o) + rest =~= rest);
        },
    }
}

/// Consumes a mandatory key and quoted-string field.
pub proof fn lemma_step_key_str(s: Seq<char>, j: int, key: Seq<char>, t: Seq<char>, rest: Seq<char>)
    requires
        0 <= j,
        lit_at(s, j, (key + ser_str(t)) + rest),
    ensures
        lit_at(s, j, key),
        p_str(s, j + key.len() as int) == Some((t, j + key.len() + ser_str(t).len() as int)),
        lit_at(s, j + key.len() + ser_str(t).len() as int, rest),
{
    assert((key + ser_str(t)) + rest =~= key + (ser_str(t) + rest));
    lemma_lit_prefix(s, j, key, ser_str(t) + rest);
    lemma_lit_suffix(s, j, key, ser_str(t) + rest);
    lemma_lit_prefix(s, j + key.len() as int, ser_str(t), rest);
    lemma_lit_suffix(s, j + key.len() as int, ser_str(t), rest);
    lemma_p_str_ser(s, j + key.len() as int, t);
}

/// Consumes an optional map field.
pub proof fn lemma_step_opt_map(
    s: Seq<char>,
    j: int,
    key: Seq<char>,
    o: Option<Seq<(Seq<char>, Seq<char>)>>,
    rest: Seq<char>,
)
    requires
        0 <= j,
        lit_at(s, j, f_opt_map(key, o) + rest),
        o is None ==> !lit_at(s, j, key),
        o matches Some(m) ==> forall|k: int|
            0 <= k < m.len() ==> is_decimal_text(#[trigger] m[k].1),
    ensures
        p_opt_map(s, j, key) == Some((o, j + f_opt_map(key, o).len() as int)),
        lit_at(s, j + f_opt_map(key, o).len() as int, rest),
{
    match o {
        Some(m) => {
            assert(f_opt_map(key, o) + rest =~= key + (ser_map(m) + rest));
            lemma_lit_prefix(s, j, key, ser_map(m) + rest);
            lemma_lit_suffix(s, j, key, ser_map(m) + rest);
            lemma_lit_prefix(s, j + key.len() as int, ser_map(m), rest);
            lemma_lit_suffix(s, j + key.len() as int, ser_map(m), rest);
            lemma_p_map_ser(s, j + key.len() as int, m);
        },
        None => {
            assert(f_opt_map(key, o) + rest =~= rest);
        },
    }
}

/// Consumes the optional geo-location fields.
pub proof fn lemma_step_geo(s: Seq<char>, j: int, o: Option<GeoLocationView>, rest: Seq<char>)
    requires
        0 <= j,
        lit_at(s, j, f_geo(o) + rest),
        o matches Some(g) ==> crate::controller::geo_wf(g),
        o is None ==> !lit_at(s, j, k_glat()),
        rest.len() > 0,
        !is_digit(rest[0]),
        rest[0] != '.',
    ensures
        p_geo(s, j) == Some((o, j + f_geo(o).len() as int)),
        lit_at(s, j + f_geo(o).len() as int, rest),
    {
    reveal_strlit(",\"geoLatitude\":");
    reveal_strlit(",\"geoLongitude\":");
    match o {
        Some(g) => {
            let lat = g.geo_latitude;
            let lon = g.geo_longitude;
            assert(f_geo(o) + rest =~= k_glat() + (lat + (k_glon() + (lon + rest))));
            lemma_lit_prefix(s, j, k_glat(), lat + (k_glon() + (lon + rest)));
            lemma_lit_suffix(s, j, k_glat(), lat + (k_glon() + (lon + rest)));
            let j1 = j + k_glat().len() as int;
            lemma_lit_prefix(s, j1, lat, k_glon() + (lon + rest));
            lemma_lit_suffix(s, j1, lat, k_glon() + (lon + rest));
            let j2 = j1 + lat.len() as int;
            lemma_char_in(s, j2, k_glon() + (lon + rest), 0);
            assert((k_glon() + (lon + rest))[0] == k_glon()[0]);
            assert(s[j2] == ',');
            lemma_p_num_ser(s, j1, lat);
            lemma_lit_prefix(s, j2, k_glon(), lon + rest);
            lemma_lit_suffix(s, j2, k_glon(), lon + rest);
            let j3 = j2 + k_glon().len() as int;
            lemma_lit_prefix(s, j3, lon, rest);
            lemma_lit_suffix(s, j3, lon, rest);
            let j4 = j3 + lon.len() as int;
            lemma_char_in(s, j4, rest, 0);
            lemma_p_num_ser(s, j3, lon);
            assert(p_geo(s, j) == Some(
                (Some(GeoLocationView { geo_latitude: lat, geo_longitude: lon }), j4),
            ));
            assert(GeoLocationView { geo_latitude: lat, geo_longitude: lon } == g);
        },
        None => {
            assert(f_geo(o) + rest =~= rest);
        },
    }
}

/// Consumes the optional quoted timestamp field.
pub proof fn lemma_step_lct(s: Seq<char>, j: int, o: Option<Timestamp>, rest: Seq<char>)
    requires
        0 <= j,
        lit_at(s, j, f_lct(o) + rest),
        o matches Some(t) ==> crate::timestamp::ts_wf(t),
        o is None ==> !lit_at(s, j, k_lct()),
    ensures
        p_lct(s, j) == Some((o, j + f_lct(o).len() as int)),
        lit_at(s, j + f_lct(o).len() as int, rest),
{
    reveal_strlit(",\"lastConnectionTime\":\"");
    reveal_strlit("\"");
    match o {
        Some(t) => {
            assert(f_lct(o) + rest =~= k_lct() + (ser_ts(t) + (quote() + rest)));
            lemma_lit_prefix(s, j, k_lct(), ser_ts(t) + (quote() + rest));
            lemma_lit_suffix(s, j, k_lct(), ser_ts(t) + (quote() + rest));
            let j1 = j + k_lct().len() as int;
            lemma_lit_prefix(s, j1, ser_ts(t), quote() + rest);
            lemma_lit_suffix(s, j1, ser_ts(t), quote() + rest);
            crate::timestamp::lemma_ser_ts_len(t);
            let j2 = j1 + 25;
            lemma_p_ts_ser(s, j1, t);
            lemma_char_in(s, j2, quote() + rest, 0);
            assert((quote() + rest)[0] == quote()[0]);
            assert(s[j2] == '"');
            lemma_lit_prefix(s, j2, quote(), rest);
            lemma_lit_suffix(s, j2, quote(), rest);
        },
        None => {
            assert(f_lct(o) + rest =~= rest);
        },
    }
}

/// Consumes the optional flattened operator fields.
#[verifier::rlimit(60)]
pub proof fn lemma_step_operator(s: Seq<char>, j11: int, c: ControllerView)
    requires
        0 <= j11,
        lit_at(s, j11, t_operator(c)),
    ensures
        p_operator(s, j11) == Some((c.operator, j11 + f_operator(c.operator).len() as int)),
        lit_at(s, j11 + f_operator(c.operator).len() as int, t_jcid(c)),
{
    reveal_strlit(",\"operatorId\":");
    lemma_tail_heads(c);
    match c.operator {
        Some(o) => {
            assert(t_operator(c) == f_operator(c.operator) + t_jcid(c));
            assert(f_operator(c.operator) + t_jcid(c) =~= k_opid() + (ser_nat(
                o.operator_id as int,
            ) + (f_opname(o.operator_name) + t_jcid(c))));
            lemma_lit_prefix(
                s,
                j11,
                k_opid(),
                ser_nat(o.operator_id as int) + (f_opname(o.operator_name) + t_jcid(c)),
            );
            lemma_lit_suffix(
                s,
                j11,
                k_opid(),
                ser_nat(o.operator_id as int) + (f_opname(o.operator_name) + t_jcid(c)),
            );
            let ja = j11 + k_opid().len() as int;
            lemma_lit_prefix(
                s,
                ja,
                ser_nat(o.operator_id as int),
                f_opname(o.operator_name) + t_jcid(c),
            );
            lemma_lit_suffix(
                s,
                ja,
                ser_nat(o.operator_id as int),
                f_opname(o.operator_name) + t_jcid(c),
            );
            let jb = ja + ser_nat(o.operator_id as int).len() as int;
            lemma_char_in(s, jb, f_opname(o.operator_name) + t_jcid(c), 0);
            match o.operator_name {
                Some(n) => {
                    reveal_strlit(",\"operatorName\":");
                    assert(f_opname(o.operator_name)[0] == k_opname()[0]);
                    assert((f_opname(o.operator_name) + t_jcid(c))[0] == ',');
                },
                None => {
                    assert(f_opname(o.operator_name) + t_jcid(c) =~= t_jcid(c));
                    assert((f_opname(o.operator_name) + t_jcid(c))[0] == t_jcid(c)[0]);
                },
            }
            assert(!is_digit(s[jb]));
            lemma_p_u32_ser(s, ja, o.operator_id);
            if o.operator_name is None {
                assert(f_opname(o.operator_name) + t_jcid(c) =~= t_jcid(c));
                lemma_no_opname(s, jb, c);
            }
            lemma_step_opt_str(s, jb, k_opname(), o.operator_name, t_jcid(c));
            assert(p_operator(s, j11) == Some(
                (
                    Some(OperatorView { operator_id: o.operator_id, operator_name: o.operator_name }),
                    jb + f_opname(o.operator_name).len() as int,
                ),
            ));
            assert(OperatorView { operator_id: o.operator_id, operator_name: o.operator_name }
                == o);
        },
        None => {
            assert(t_operator(c) =~= t_jcid(c));
            lemma_no_opid(s, j11, c);
        },
    }
}

/// The geo-location and the two mode fields of a controller object.
#[verifier::rlimit(100)]
#[verifier::spinoff_prover]
pub proof fn lemma_steps_front(s: Seq<char>, j: int, c: ControllerView)
    requires
        0 <= j,
        lit_at(s, j, t_geo(c)),
        crate::controller::controller_wf(c),
    ensures
        ({
            let j6 = j + f_geo(c.geo_location).len() as int;
            let j7 = j6 + f_op_mode(c.op_mode).len() as int;
            let j8 = j7 + f_job_mode(c.job_mode).len() as int;
            &&& p_geo(s, j) == Some((c.geo_location, j6))
            &&& p_op_mode(s, j6) == Some((c.op_mode, j7))
            &&& p_job_mode(s, j7) == Some((c.job_mode, j8))
            &&& lit_at(s, j8, t_lcd(c))
        }),
{
    reveal_strlit(",\"geoLatitude\":");
    reveal_strlit(",\"opMode\":\"");
    reveal_strlit("}");
    lemma_tail_heads(c);
    assert(t_geo(c) == f_geo(c.geo_location) + t_op(c));
    if c.geo_location is None {
        assert(t_geo(c) =~= t_op(c));
        assert(t_op(c) =~= k_op_prefix() + (op_tag_q(c.op_mode) + t_job(c)));
        lemma_lit_prefix(s, j, k_op_prefix(), op_tag_q(c.op_mode) + t_job(c));
        lemma_not_lit(s, j, k_op_prefix(), k_glat(), 2);
    }
    assert(t_op(c)[0] == ',');
    assert(!is_digit(t_op(c)[0]));
    assert(t_op(c)[0] != '.');
    lemma_step_geo(s, j, c.geo_location, t_op(c));
    let j6 = j + f_geo(c.geo_location).len() as int;
    assert(t_op(c) =~= (f_op_mode(c.op_mode)) + t_job(c));
    lemma_lit_prefix(s, j6, f_op_mode(c.op_mode), t_job(c));
    lemma_lit_suffix(s, j6, f_op_mode(c.op_mode), t_job(c));
    lemma_p_op_mode_ser(s, j6, c.op_mode);
    let j7 = j6 + f_op_mode(c.op_mode).len() as int;
    assert(t_job(c) =~= (f_job_mode(c.job_mode)) + t_lcd(c));
    lemma_lit_prefix(s, j7, f_job_mode(c.job_mode), t_lcd(c));
    lemma_lit_suffix(s, j7, f_job_mode(c.job_mode), t_lcd(c));
    lemma_p_job_mode_ser(s, j7, c.job_mode);
}

/// The two maps and the timestamp of a controller object.
#[verifier::rlimit(100)]
#[verifier::spinoff_prover]
pub proof fn lemma_steps_maps(s: Seq<char>, j8: int, c: ControllerView)
    requires
        0 <= j8,
        lit_at(s, j8, t_lcd(c)),
        crate::controller::controller_wf(c),
    ensures
        ({
            let j9 = j8 + f_opt_map(k_lcd(), c.last_cycle_data).len() as int;
            let j10 = j9 + f_opt_map(k_vars(), c.variables).len() as int;
            let j11 = j10 + f_lct(c.last_connection_time).len() as int;
            &&& p_opt_map(s, j8, k_lcd()) == Some((c.last_cycle_data, j9))
            &&& p_opt_map(s, j9, k_vars()) == Some((c.variables, j10))
            &&& p_lct(s, j10) == Some((c.last_connection_time, j11))
            &&& lit_at(s, j11, t_operator(c))
        }),
{
    if c.last_cycle_data is None {
        assert(t_lcd(c) =~= t_vars(c));
        lemma_no_lcd(s, j8, c);
    }
    assert(t_lcd(c) == f_opt_map(k_lcd(), c.last_cycle_data) + t_vars(c));
    lemma_step_opt_map(s, j8, k_lcd(), c.last_cycle_data, t_vars(c));
    let j9 = j8 + f_opt_map(k_lcd(), c.last_cycle_data).len() as int;
    if c.variables is None {
        assert(t_vars(c) =~= t_lct(c));
        lemma_no_vars(s, j9, c);
    }
    assert(t_vars(c) == f_opt_map(k_vars(), c.variables) + t_lct(c));
    lemma_step_opt_map(s, j9, k_vars(), c.variables, t_lct(c));
    let j10 = j9 + f_opt_map(k_vars(), c.variables).len() as int;
    if c.last_connection_time is None {
        assert(t_lct(c) =~= t_operator(c));
        lemma_no_lct(s, j10, c);
    }
    assert(t_lct(c) == f_lct(c.last_connection_time) + t_operator(c));
    lemma_step_lct(s, j10, c.last_connection_time, t_operator(c));
}

/// The closing brace at the end of a controller object.
pub proof fn proof_rb_char(s: Seq<char>, j14: int, c: ControllerView)
    requires
        lit_at(s, j14, t_rb(c)),
    ensures
        j14 < s.len(),
        s[j14] == '}',
{
    reveal_strlit("}");
    assert(t_rb(c) == rb());
    lemma_char_in(s, j14, rb(), 0);
}

/// The controller parser inverts the controller emitter.
#[verifier::rlimit(100)]
#[verifier::spinoff_prover]
pub proof fn lemma_p_controller_tail_ser(
    s: Seq<char>,
    j: int,
    c: ControllerView,
    cid: u32,
    dn: Option<Seq<char>>,
    ct: Seq<char>,
    ver: Seq<char>,
    model: Seq<char>,
    ip: Seq<char>,
)
    requires
        0 <= j,
        lit_at(s, j, t_geo(c)),
        crate::controller::controller_wf(c),
        cid == c.controller_id,
        dn == c.display_name,
        ct == c.controller_type,
        ver == c.version,
        model == c.model,
        ip == c.address,
    ensures
        p_controller_tail(s, j, cid, dn, ct, ver, model, ip) == Some(
            (c, j + t_geo(c).len() as int),
        ),
{
    lemma_steps_front(s, j, c);
    let j6 = j + f_geo(c.geo_location).len() as int;
    let j7 = j6 + f_op_mode(c.op_mode).len() as int;
    let j8 = j7 + f_job_mode(c.job_mode).len() as int;
    lemma_steps_maps(s, j8, c);
    let j9 = j8 + f_opt_map(k_lcd(), c.last_cycle_data).len() as int;
    let j10 = j9 + f_opt_map(k_vars(), c.variables).len() as int;
    let j11 = j10 + f_lct(c.last_connection_time).len() as int;
    // operator
    lemma_step_operator(s, j11, c);
    let j12 = j11 + f_operator(c.operator).len() as int;
    assert(lit_at(s, j12, t_jcid(c)));
    // job card id
    if c.job_card_id is None {
        assert(t_jcid(c) =~= t_mold(c));
        lemma_no_jcid(s, j12, c);
    }
    assert(t_jcid(c) == f_opt_str(k_jcid(), c.job_card_id) + t_mold(c));
    lemma_step_opt_str(s, j12, k_jcid(), c.job_card_id, t_mold(c));
    let j13 = j12 + f_opt_str(k_jcid(), c.job_card_id).len() as int;
    // mold id
    if c.mold_id is None {
        assert(t_mold(c) =~= t_rb(c));
        lemma_no_mold(s, j13, c);
    }
    assert(t_mold(c) == f_opt_str(k_mold(), c.mold_id) + t_rb(c));
    lemma_step_opt_str(s, j13, k_mold(), c.mold_id, t_rb(c));
    let j14 = j13 + f_opt_str(k_mold(), c.mold_id).len() as int;
    // the closing brace
    proof_rb_char(s, j14, c);
    assert(s[j14] == '}');
    reveal_strlit("}");
    assert(t_rb(c).len() == 1);
    assert(t_mold(c).len() == f_opt_str(k_mold(), c.mold_id).len() + t_rb(c).len());
    assert(t_jcid(c).len() == f_opt_str(k_jcid(), c.job_card_id).len() + t_mold(c).len());
    assert(t_operator(c).len() == f_operator(c.operator).len() + t_jcid(c).len());
    assert(t_lct(c).len() == f_lct(c.last_connection_time).len() + t_operator(c).len());
    assert(t_vars(c).len() == f_opt_map(k_vars(), c.variables).len() + t_lct(c).len());
    assert(t_lcd(c).len() == f_opt_map(k_lcd(), c.last_cycle_data).len() + t_vars(c).len());
    assert(t_job(c).len() == f_job_mode(c.job_mode).len() + t_lcd(c).len());
    assert(t_op(c).len() == f_op_mode(c.op_mode).len() + t_job(c).len());
    assert(t_geo(c).len() == f_geo(c.geo_location).len() + t_op(c).len());
    assert(j14 + 1 == j + t_geo(c).len());
    assert(p_controller_tail(s, j, cid, dn, ct, ver, model, ip) == Some(
        (
            ControllerView {
                controller_id: cid,
                display_name: dn,
                controller_type: ct,
                version: ver,
                model: model,
                address: ip,
                geo_location: c.geo_location,
                op_mode: c.op_mode,
                job_mode: c.job_mode,
                last_cycle_data: c.last_cycle_data,
                variables: c.variables,
                last_connection_time: c.last_connection_time,
                operator: c.operator,
                job_card_id: c.job_card_id,
                mold_id: c.mold_id,
            },
            j14 + 1,
        ),
    ));
}

/// The controller parser inverts the controller emitter.
#[verifier::rlimit(100)]
pub proof fn lemma_p_controller_ser(s: Seq<char>, i: int, c: ControllerView)
    requires
        0 <= i,
        i + ser_controller(c).len() <= s.len(),
        s.subrange(i, i + ser_controller(c).len() as int) == ser_controller(c),
        crate::controller::controller_wf(c),
    ensures
        p_controller(s, i) == Some((c, i + ser_controller(c).len() as int)),
{
    reveal(ser_controller);
    reveal(p_controller);
    reveal_strlit("{\"controllerId\":");
    reveal_strlit(",\"displayName\":");
    reveal_strlit(",\"controllerType\":");
    reveal_strlit(",\"version\":");
    reveal_strlit(",\"model\":");
    reveal_strlit(",\"IP\":");
    let sc = ser_controller(c);
    assert(lit_at(s, i, sc));
    lemma_tail_heads(c);
    let cidn = ser_nat(c.controller_id as int);
    assert(sc =~= k_obj_cid() + (cidn + t_dn(c)));
    lemma_lit_prefix(s, i, k_obj_cid(), cidn + t_dn(c));
    lemma_lit_suffix(s, i, k_obj_cid(), cidn + t_dn(c));
    let j0 = i + k_obj_cid().len() as int;
    lemma_lit_prefix(s, j0, cidn, t_dn(c));
    lemma_lit_suffix(s, j0, cidn, t_dn(c));
    let jd = j0 + cidn.len() as int;
    lemma_char_in(s, jd, t_dn(c), 0);
    assert(!is_digit(s[jd]));
    lemma_p_u32_ser(s, j0, c.controller_id);
    // display name
    if c.display_name is None {
        assert(t_dn(c) =~= t_ct(c));
        assert(t_ct(c) =~= (k_ct() + ser_str(c.controller_type)) + t_ver(c));
        lemma_lit_prefix(s, jd, k_ct() + ser_str(c.controller_type), t_ver(c));
        lemma_lit_prefix(s, jd, k_ct(), ser_str(c.controller_type));
        lemma_not_lit(s, jd, k_ct(), k_dn(), 2);
    }
    assert(t_dn(c) == f_opt_str(k_dn(), c.display_name) + t_ct(c));
    lemma_step_opt_str(s, jd, k_dn(), c.display_name, t_ct(c));
    let j1 = jd + f_opt_str(k_dn(), c.display_name).len() as int;
    // controller type
    assert(t_ct(c) =~= (k_ct() + ser_str(c.controller_type)) + t_ver(c));
    lemma_step_key_str(s, j1, k_ct(), c.controller_type, t_ver(c));
    let j2 = j1 + k_ct().len() + ser_str(c.controller_type).len() as int;
    // version
    assert(t_ver(c) =~= (k_ver() + ser_str(c.version)) + t_model(c));
    lemma_step_key_str(s, j2, k_ver(), c.version, t_model(c));
    let j3 = j2 + k_ver().len() + ser_str(c.version).len() as int;
    // model
    assert(t_model(c) =~= (k_model() + ser_str(c.model)) + t_ip(c));
    lemma_step_key_str(s, j3, k_model(), c.model, t_ip(c));
    let j4 = j3 + k_model().len() + ser_str(c.model).len() as int;
    // address
    assert(t_ip(c) =~= (k_ip() + ser_str(c.address)) + t_geo(c));
    lemma_step_key_str(s, j4, k_ip(), c.address, t_geo(c));
    let j5 = j4 + k_ip().len() + ser_str(c.address).len() as int;
    // the rest
    lemma_p_controller_tail_ser(
        s,
        j5,
        c,
        c.controller_id,
        c.display_name,
        c.controller_type,
        c.version,
        c.model,
        c.address,
    );
    assert(j5 + t_geo(c).len() == i + sc.len());
}


// ---------------------------------------------------------------------------
// Executable map codec
// ---------------------------------------------------------------------------
/// Emits the entries of a map from index `k` on, each with a leading
/// comma, and the closing brace.
pub fn emit_map_rest(out: &mut Vec<char>, m: &Vec<(String, Decimal)>, k: usize)
    requires
        k <= m@.len(),
    ensures
        final(out)@ == old(out)@ + ser_map_rest(map_view(m@).skip(k as int)) + rb(),
    decreases m@.len() - k,
{
    proof {
        reveal_strlit("}");
        reveal_strlit(",");
        reveal_strlit(":");
    }
    if k == m.len() {
        out.push('}');
        proof {
            assert(map_view(m@).skip(k as int) =~= Seq::empty());
            assert(final(out)@ =~= old(out)@ + ser_map_rest(Seq::empty()) + rb());
        }
    } else {
        out.push(',');
        let keyv = str_to_vec(m[k].0.as_str());
        push_quoted(out, &keyv);
        out.push(':');
        let valv = str_to_vec(m[k].1.as_str());
        push_seq(out, &valv);
        let ghost mid = out@;
        emit_map_rest(out, m, k + 1);
        proof {
            let mv = map_view(m@);
            assert(mv.skip(k as int).len() == m@.len() - k);
            assert(mv.skip(k as int)[0] == mv[k as int]);
            assert(mv[k as int] == (m@[k as int].0@, m@[k as int].1@));
            assert(mv.skip(k as int).drop_first() =~= mv.skip(k as int + 1));
            assert(ser_map_rest(mv.skip(k as int)) == comma() + ser_map_entry(mv.skip(k as int)[0])
                + ser_map_rest(mv.skip(k as int).drop_first()));
            assert(mid =~= old(out)@ + comma() + ser_map_entry(mv.skip(k as int)[0]));
            assert(final(out)@ =~= old(out)@ + ser_map_rest(mv.skip(k as int)) + rb());
        }
    }
}

/// Emits a whole map object.
pub fn emit_map(out: &mut Vec<char>, m: &Vec<(String, Decimal)>)
    ensures
        final(out)@ == old(out)@ + ser_map(map_view(m@)),
{
    proof {
        reveal_strlit("{");
        reveal_strlit("}");
        reveal_strlit(":");
    }
    out.push('{');
    if m.len() == 0 {
        out.push('}');
        proof {
            assert(map_view(m@).len() == 0);
            assert(final(out)@ =~= old(out)@ + ser_map(map_view(m@)));
        }
    } else {
        let keyv = str_to_vec(m[0].0.as_str());
        push_quoted(out, &keyv);
        out.push(':');
        let valv = str_to_vec(m[0].1.as_str());
        push_seq(out, &valv);
        let ghost mid = out@;
        emit_map_rest(out, m, 1);
        proof {
            let mv = map_view(m@);
            assert(mv[0] == (m@[0].0@, m@[0].1@));
            assert(mv.skip(1) =~= mv.drop_first());
            assert(mid =~= old(out)@ + lb() + ser_map_entry(mv[0]));
            assert(final(out)@ =~= old(out)@ + ser_map(mv));
        }
    }
}

/// Reads `,entry` repetitions until the closing brace.
pub fn parse_map_rest(v: &Vec<char>, i: usize, acc: &mut Vec<(String, Decimal)>) -> (r: Option<
    usize,
>)
    requires
        i <= v@.len(),
    ensures
        match r {
            Some(j) => {
                &&& p_map_rest(v@, i as int) matches Some((m, je)) && je == j as int && map_view(
                    (*final(acc))@,
                ) == map_view((*old(acc))@) + m
                &&& i < j <= v@.len()
            },
            None => p_map_rest(v@, i as int) is None,
        },
    decreases v@.len() - i,
{
    if i < v.len() && v[i] == '}' {
        proof {
            assert(map_view(acc@) =~= map_view(acc@) + Seq::empty());
        }
        return Some(i + 1);
    }
    if !(i < v.len() && v[i] == ',') {
        return None;
    }
    match parse_map_entry(v, i + 1) {
        Some(((key, value), j)) => {
            if !(i + 1 < j && j <= v.len()) {
                return None;
            }
            let ghost acc0 = acc@;
            acc.push((key, value));
            let ghost e = p_map_entry(v@, i as int + 1).unwrap().0;
            proof {
                assert(map_view(acc@) =~= map_view(acc0) + seq![e]);
            }
            match parse_map_rest(v, j, acc) {
                Some(j2) => {
                    proof {
                        let rest = p_map_rest(v@, j as int).unwrap().0;
                        assert(map_view((*final(acc))@) == map_view(acc0) + seq![e] + rest);
                        assert(map_view(acc0) + seq![e] + rest =~= map_view(acc0) + (seq![e]
                            + rest));
                    }
                    Some(j2)
                },
                None => None,
            }
        },
        None => None,
    }
}

/// Reads one map entry at `i`.
pub fn parse_map_entry(v: &Vec<char>, i: usize) -> (r: Option<((String, Decimal), usize)>)
    requires
        i <= v@.len(),
    ensures
        match r {
            Some(((key, value), j)) => p_map_entry(v@, i as int) == Some(
                ((key@, value@), j as int),
            ) && i < j <= v@.len(),
            None => p_map_entry(v@, i as int) is None,
        },
{
    let n = v.len();
    let (keyv, j1) = match parse_str(v, i) {
        Some(x) => x,
        None => {
            return None;
        },
    };
    if !(j1 < n && v[j1] == ':') {
        return None;
    }
    let (value, j2) = match parse_num(v, j1 + 1) {
        Some(x) => x,
        None => {
            return None;
        },
    };
    Some(((vec_to_string(&keyv), value), j2))
}

/// Reads a whole map object at `i`.
pub fn parse_map(v: &Vec<char>, i: usize) -> (r: Option<(Vec<(String, Decimal)>, usize)>)
    requires
        i <= v@.len(),
    ensures
        match r {
            Some((m, j)) => p_map(v@, i as int) == Some((map_view(m@), j as int)) && i < j
                <= v@.len(),
            None => p_map(v@, i as int) is None,
        },
{
    let n = v.len();
    if !(i < n && v[i] == '{') {
        return None;
    }
    if i + 1 < n && v[i + 1] == '}' {
        let empty: Vec<(String, Decimal)> = Vec::new();
        proof {
            assert(map_view(empty@) =~= Seq::empty());
        }
        return Some((empty, i + 2));
    }
    match parse_map_entry(v, i + 1) {
        Some(((key, value), j)) => {
            if !(i + 1 < j && j <= n) {
                return None;
            }
            let mut acc: Vec<(String, Decimal)> = Vec::new();
            let ghost e = p_map_entry(v@, i as int + 1).unwrap().0;
            acc.push((key, value));
            proof {
                assert(map_view(acc@) =~= Seq::empty() + seq![e]);
            }
            match parse_map_rest(v, j, &mut acc) {
                Some(j2) => {
                    proof {
                        let rest = p_map_rest(v@, j as int).unwrap().0;
                        assert(map_view(acc@) == Seq::empty() + seq![e] + rest);
                        assert(Seq::empty() + seq![e] + rest =~= seq![e] + rest);
                    }
                    Some((acc, j2))
                },
                None => None,
            }
        },
        None => None,
    }
}

// ---------------------------------------------------------------------------
// Executable mode codec
// ---------------------------------------------------------------------------
/// Emits the op field.
pub fn emit_op_mode(out: &mut Vec<char>, m: OpMode)
    ensures
        final(out)@ == old(out)@ + f_op_mode(m),
{
    let p = str_to_vec(",\"opMode\":\"");
    push_seq(out, &p);
    match m {
        OpMode::Unknown => {
            let t = str_to_vec("Unknown\"");
            push_seq(out, &t);
        },
        OpMode::Manual => {
            let t = str_to_vec("Manual\"");
            push_seq(out, &t);
        },
        OpMode::SemiAutomatic => {
            let t = str_to_vec("SemiAutomatic\"");
            push_seq(out, &t);
        },
        OpMode::Automatic => {
            let t = str_to_vec("Automatic\"");
            push_seq(out, &t);
        },
        OpMode::Others => {
            let t = str_to_vec("Others\"");
            push_seq(out, &t);
        },
        OpMode::Offline => {
            let t = str_to_vec("Offline\"");
            push_seq(out, &t);
        },
    }
    proof {
        assert(final(out)@ =~= old(out)@ + f_op_mode(m));
    }
}

/// Emits the job field.
pub fn emit_job_mode(out: &mut Vec<char>, m: JobMode)
    ensures
        final(out)@ == old(out)@ + f_job_mode(m),
{
    let p = str_to_vec(",\"jobMode\":\"");
    push_seq(out, &p);
    match m {
        JobMode::Unknown => {
            let t = str_to_vec("Unknown\"");
            push_seq(out, &t);
        },
        JobMode::ID01 => {
            let t = str_to_vec("ID01\"");
            push_seq(out, &t);
        },
        JobMode::ID02 => {
            let t = str_to_vec("ID02\"");
            push_seq(out, &t);
        },
        JobMode::ID03 => {
            let t = str_to_vec("ID03\"");
            push_seq(out, &t);
        },
        JobMode::ID04 => {
            let t = str_to_vec("ID04\"");
            push_seq(out, &t);
        },
        JobMode::ID05 => {
            let t = str_to_vec("ID05\"");
            push_seq(out, &t);
        },
        JobMode::ID06 => {
            let t = str_to_vec("ID06\"");
            push_seq(out, &t);
        },
        JobMode::ID07 => {
            let t = str_to_vec("ID07\"");
            push_seq(out, &t);
        },
        JobMode::ID08 => {
            let t = str_to_vec("ID08\"");
            push_seq(out, &t);
        },
        JobMode::ID09 => {
            let t = str_to_vec("ID09\"");
            push_seq(out, &t);
        },
        JobMode::ID10 => {
            let t = str_to_vec("ID10\"");
            push_seq(out, &t);
        },
        JobMode::ID11 => {
            let t = str_to_vec("ID11\"");
            push_seq(out, &t);
        },
        JobMode::ID12 => {
            let t = str_to_vec("ID12\"");
            push_seq(out, &t);
        },
        JobMode::ID13 => {
            let t = str_to_vec("ID13\"");
            push_seq(out, &t);
        },
        JobMode::ID14 => {
            let t = str_to_vec("ID14\"");
            push_seq(out, &t);
        },
        JobMode::ID15 => {
            let t = str_to_vec("ID15\"");
            push_seq(out, &t);
        },
        JobMode::Offline => {
            let t = str_to_vec("Offline\"");
            push_seq(out, &t);
        },
    }
    proof {
        assert(final(out)@ =~= old(out)@ + f_job_mode(m));
    }
}

/// Reads the op field.
#[verifier::rlimit(60)]
pub fn parse_op_mode(v: &Vec<char>, i: usize) -> (r: Option<(OpMode, usize)>)
    requires
        i <= v@.len(),
    ensures
        match r {
            Some((m, j)) => p_op_mode(v@, i as int) == Some((m, j as int)) && i < j
                <= v@.len(),
            None => p_op_mode(v@, i as int) is None,
        },
{
    let n = v.len();
    proof {
        reveal_strlit(",\"opMode\":\"");
    }
    let p = str_to_vec(",\"opMode\":\"");
    if !match_lit(v, i, &p) {
        return None;
    }
    let j = i + p.len();
    if match_lit(v, j, &str_to_vec("Unknown\"")) {
        Some((OpMode::Unknown, j + str_to_vec("Unknown\"").len()))
    } else if match_lit(v, j, &str_to_vec("Manual\"")) {
        Some((OpMode::Manual, j + str_to_vec("Manual\"").len()))
    } else if match_lit(v, j, &str_to_vec("SemiAutomatic\"")) {
        Some((OpMode::SemiAutomatic, j + str_to_vec("SemiAutomatic\"").len()))
    } else if match_lit(v, j, &str_to_vec("Automatic\"")) {
        Some((OpMode::Automatic, j + str_to_vec("Automatic\"").len()))
    } else if match_lit(v, j, &str_to_vec("Others\"")) {
        Some((OpMode::Others, j + str_to_vec("Others\"").len()))
    } else if match_lit(v, j, &str_to_vec("Offline\"")) {
        Some((OpMode::Offline, j + str_to_vec("Offline\"").len()))
    } else {
        None
    }
}

/// Reads the job field.
#[verifier::rlimit(60)]
pub fn parse_job_mode(v: &Vec<char>, i: usize) -> (r: Option<(JobMode, usize)>)
    requires
        i <= v@.len(),
    ensures
        match r {
            Some((m, j)) => p_job_mode(v@, i as int) == Some((m, j as int)) && i < j
                <= v@.len(),
            None => p_job_mode(v@, i as int) is None,
        },
{
    let n = v.len();
    proof {
        reveal_strlit(",\"jobMode\":\"");
    }
    let p = str_to_vec(",\"jobMode\":\"");
    if !match_lit(v, i, &p) {
        return None;
    }
    let j = i + p.len();
    if match_lit(v, j, &str_to_vec("Unknown\"")) {
        Some((JobMode::Unknown, j + str_to_vec("Unknown\"").len()))
    } else if match_lit(v, j, &str_to_vec("ID01\"")) {
        Some((JobMode::ID01, j + str_to_vec("ID01\"").len()))
    } else if match_lit(v, j, &str_to_vec("ID02\"")) {
        Some((JobMode::ID02, j + str_to_vec("ID02\"").len()))
    } else if match_lit(v, j, &str_to_vec("ID03\"")) {
        Some((JobMode::ID03, j + str_to_vec("ID03\"").len()))
    } else if match_lit(v, j, &str_to_vec("ID04\"")) {
        Some((JobMode::ID04, j + str_to_vec("ID04\"").len()))
    } else if match_lit(v, j, &str_to_vec("ID05\"")) {
        Some((JobMode::ID05, j + str_to_vec("ID05\"").len()))
    } else if match_lit(v, j, &str_to_vec("ID06\"")) {
        Some((JobMode::ID06, j + str_to_vec("ID06\"").len()))
    } else if match_lit(v, j, &str_to_vec("ID07\"")) {
        Some((JobMode::ID07, j + str_to_vec("ID07\"").len()))
    } else if match_lit(v, j, &str_to_vec("ID08\"")) {
        Some((JobMode::ID08, j + str_to_vec("ID08\"").len()))
    } else if match_lit(v, j, &str_to_vec("ID09\"")) {
        Some((JobMode::ID09, j + str_to_vec("ID09\"").len()))
    } else if match_lit(v, j, &str_to_vec("ID10\"")) {
        Some((JobMode::ID10, j + str_to_vec("ID10\"").len()))
    } else if match_lit(v, j, &str_to_vec("ID11\"")) {
        Some((JobMode::ID11, j + str_to_vec("ID11\"").len()))
    } else if match_lit(v, j, &str_to_vec("ID12\"")) {
        Some((JobMode::ID12, j + str_to_vec("ID12\"").len()))
    } else if match_lit(v, j, &str_to_vec("ID13\"")) {
        Some((JobMode::ID13, j + str_to_vec("ID13\"").len()))
    } else if match_lit(v, j, &str_to_vec("ID14\"")) {
        Some((JobMode::ID14, j + str_to_vec("ID14\"").len()))
    } else if match_lit(v, j, &str_to_vec("ID15\"")) {
        Some((JobMode::ID15, j + str_to_vec("ID15\"").len()))
    } else if match_lit(v, j, &str_to_vec("Offline\"")) {
        Some((JobMode::Offline, j + str_to_vec("Offline\"").len()))
    } else {
        None
    }
}



// ---------------------------------------------------------------------------
// Executable controller codec
// ---------------------------------------------------------------------------
/// The first half of a serialized controller, through the address.
pub open spec fn ser_controller_head(c: ControllerView) -> Seq<char> {
    k_obj_cid() + ser_nat(c.controller_id as int) + f_opt_str(k_dn(), c.display_name) + (k_ct()
        + ser_str(c.controller_type)) + (k_ver() + ser_str(c.version)) + (k_model() + ser_str(
        c.model,
    )) + (k_ip() + ser_str(c.address))
}

/// Emits the first half of a controller object.
#[verifier::rlimit(100)]
#[verifier::spinoff_prover]
pub fn emit_controller_head(out: &mut Vec<char>, c: &Controller)
    ensures
        final(out)@ == old(out)@ + ser_controller_head(c@),
{
    let k = str_to_vec("{\"controllerId\":");
    push_seq(out, &k);
    push_u32(out, c.controller_id);
    proof {
        assert(out@ =~= old(out)@ + k_obj_cid() + ser_nat(c@.controller_id as int));
    }
    let ghost g0 = old(out)@ + k_obj_cid() + ser_nat(c@.controller_id as int);
    match &c.display_name {
        Some(n) => {
            let kd = str_to_vec(",\"displayName\":");
            push_seq(out, &kd);
            let nv = str_to_vec(n.as_str());
            push_quoted(out, &nv);
        },
        None => {},
    }
    proof {
        assert(out@ =~= g0 + f_opt_str(k_dn(), c@.display_name));
    }
    let ghost g1 = g0 + f_opt_str(k_dn(), c@.display_name);
    let kc = str_to_vec(",\"controllerType\":");
    push_seq(out, &kc);
    let ctv = str_to_vec(c.controller_type.as_str());
    push_quoted(out, &ctv);
    let kv = str_to_vec(",\"version\":");
    push_seq(out, &kv);
    let vv = str_to_vec(c.version.as_str());
    push_quoted(out, &vv);
    let km = str_to_vec(",\"model\":");
    push_seq(out, &km);
    let mv = str_to_vec(c.model.as_str());
    push_quoted(out, &mv);
    let ki = str_to_vec(",\"IP\":");
    push_seq(out, &ki);
    let av = str_to_vec(c.address.as_str());
    push_quoted(out, &av);
    proof {
        assert(out@ =~= g1 + (k_ct() + ser_str(c@.controller_type)) + (k_ver() + ser_str(
            c@.version,
        )) + (k_model() + ser_str(c@.model)) + (k_ip() + ser_str(c@.address)));
    }
    proof {
        assert(out@ =~= old(out)@ + ser_controller_head(c@));
    }
}

/// The middle of a serialized controller: geo-location, modes and maps.
pub open spec fn ser_controller_mid(c: ControllerView) -> Seq<char> {
    f_geo(c.geo_location) + f_op_mode(c.op_mode) + f_job_mode(c.job_mode) + f_opt_map(
        k_lcd(),
        c.last_cycle_data,
    ) + f_opt_map(k_vars(), c.variables)
}

/// The end of a serialized controller: timestamp, operator, job and mold
/// identifiers, closing brace.
pub open spec fn ser_controller_end(c: ControllerView) -> Seq<char> {
    f_lct(c.last_connection_time) + f_operator(c.operator) + f_opt_str(k_jcid(), c.job_card_id)
        + f_opt_str(k_mold(), c.mold_id) + rb()
}

/// The three slices together make the whole object.
#[verifier::rlimit(100)]
#[verifier::spinoff_prover]
pub proof fn lemma_controller_slices(c: ControllerView)
    ensures
        t_lct(c) == ser_controller_end(c),
        t_geo(c) == ser_controller_mid(c) + t_lct(c),
        ser_controller(c) == ser_controller_head(c) + t_geo(c),
{
    reveal(ser_controller);
    assert(ser_controller_end(c) =~= t_lct(c));
    assert(ser_controller_mid(c) + t_lct(c) =~= t_geo(c));
    assert(ser_controller_head(c) + t_geo(c) =~= ser_controller(c));
}

/// Emits the middle of a controller object.
#[verifier::rlimit(100)]
#[verifier::spinoff_prover]
pub fn emit_controller_mid(out: &mut Vec<char>, c: &Controller)
    requires
        crate::controller::controller_wf(c@),
    ensures
        final(out)@ == old(out)@ + ser_controller_mid(c@),
{
    let ghost g2 = old(out)@;
    match &c.geo_location {
        Some(g) => {
            let kla = str_to_vec(",\"geoLatitude\":");
            push_seq(out, &kla);
            let la = str_to_vec(g.geo_latitude.as_str());
            push_seq(out, &la);
            let klo = str_to_vec(",\"geoLongitude\":");
            push_seq(out, &klo);
            let lo = str_to_vec(g.geo_longitude.as_str());
            push_seq(out, &lo);
        },
        None => {},
    }
    proof {
        assert(out@ =~= g2 + f_geo(c@.geo_location));
    }
    let ghost g3 = g2 + f_geo(c@.geo_location);
    emit_op_mode(out, c.op_mode);
    emit_job_mode(out, c.job_mode);
    proof {
        assert(out@ =~= g3 + f_op_mode(c@.op_mode) + f_job_mode(c@.job_mode));
    }
    let ghost g4 = g3 + f_op_mode(c@.op_mode) + f_job_mode(c@.job_mode);
    match &c.last_cycle_data {
        Some(m) => {
            let kl = str_to_vec(",\"lastCycleData\":");
            push_seq(out, &kl);
            emit_map(out, m);
        },
        None => {},
    }
    proof {
        assert(out@ =~= g4 + f_opt_map(k_lcd(), c@.last_cycle_data));
    }
    let ghost g5 = g4 + f_opt_map(k_lcd(), c@.last_cycle_data);
    match &c.variables {
        Some(m) => {
            let kl = str_to_vec(",\"variables\":");
            push_seq(out, &kl);
            emit_map(out, m);
        },
        None => {},
    }
    proof {
        assert(out@ =~= g5 + f_opt_map(k_vars(), c@.variables));
    }
    proof {
        assert(out@ =~= old(out)@ + ser_controller_mid(c@));
    }
}

/// Emits the end of a controller object.
#[verifier::rlimit(100)]
#[verifier::spinoff_prover]
pub fn emit_controller_end(out: &mut Vec<char>, c: &Controller)
    requires
        crate::controller::controller_wf(c@),
    ensures
        final(out)@ == old(out)@ + ser_controller_end(c@),
{
    let ghost g6 = old(out)@;
    match &c.last_connection_time {
        Some(t) => {
            let kl = str_to_vec(",\"lastConnectionTime\":\"");
            push_seq(out, &kl);
            push_ts(out, t);
            out.push('"');
            proof {
                reveal_strlit("\"");
                assert(quote().len() == 1);
                assert(quote()[0] == '"');
            }
        },
        None => {},
    }
    proof {
        assert(out@ =~= g6 + f_lct(c@.last_connection_time));
    }
    let ghost g7 = g6 + f_lct(c@.last_connection_time);
    match &c.operator {
        Some(o) => {
            let kl = str_to_vec(",\"operatorId\":");
            push_seq(out, &kl);
            push_u32(out, o.operator_id);
            match &o.operator_name {
                Some(n) => {
                    let kn = str_to_vec(",\"operatorName\":");
                    push_seq(out, &kn);
                    let nv = str_to_vec(n.as_str());
                    push_quoted(out, &nv);
                },
                None => {},
            }
        },
        None => {},
    }
    proof {
        assert(out@ =~= g7 + f_operator(c@.operator));
    }
    let ghost g8 = g7 + f_operator(c@.operator);
    match &c.job_card_id {
        Some(n) => {
            let kl = str_to_vec(",\"jobCardId\":");
            push_seq(out, &kl);
            let nv = str_to_vec(n.as_str());
            push_quoted(out, &nv);
        },
        None => {},
    }
    proof {
        assert(out@ =~= g8 + f_opt_str(k_jcid(), c@.job_card_id));
    }
    let ghost g9 = g8 + f_opt_str(k_jcid(), c@.job_card_id);
    match &c.mold_id {
        Some(n) => {
            let kl = str_to_vec(",\"moldId\":");
            push_seq(out, &kl);
            let nv = str_to_vec(n.as_str());
            push_quoted(out, &nv);
        },
        None => {},
    }
    out.push('}');
    proof {
        reveal_strlit("}");
        assert(out@ =~= g9 + f_opt_str(k_mold(), c@.mold_id) + rb());
        assert(out@ =~= old(out)@ + ser_controller_end(c@));
    }
}


/// Emits one controller object.
#[verifier::rlimit(100)]
#[verifier::spinoff_prover]
pub fn emit_controller(out: &mut Vec<char>, c: &Controller)
    requires
        crate::controller::controller_wf(c@),
    ensures
        final(out)@ == old(out)@ + ser_controller(c@),
{
    emit_controller_head(out, c);
    emit_controller_mid(out, c);
    emit_controller_end(out, c);
    proof {
        lemma_controller_slices(c@);
        let h = ser_controller_head(c@);
        let m = ser_controller_mid(c@);
        let e = ser_controller_end(c@);
        assert(((old(out)@ + h) + m) + e =~= old(out)@ + (h + (m + e)));
        assert(m + e == m + t_lct(c@));
        assert(h + (m + e) == h + t_geo(c@));
        assert(h + t_geo(c@) == ser_controller(c@));
    }
}

/// Reads an optional quoted-string field at `i`.
pub fn parse_opt_str(v: &Vec<char>, i: usize, key: &Vec<char>) -> (r: Option<
    (Option<String>, usize),
>)
    requires
        i <= v@.len(),
    ensures
        match r {
            Some((o, j)) => p_opt_str(v@, i as int, key@) == Some(
                (
                    match o {
                        Some(t) => Some(t@),
                        None => None,
                    },
                    j as int,
                ),
            ) && i <= j <= v@.len(),
            None => p_opt_str(v@, i as int, key@) is None,
        },
{
    let n = v.len();
    if match_lit(v, i, key) {
        match parse_str(v, i + key.len()) {
            Some((t, j)) => Some((Some(vec_to_string(&t)), j)),
            None => None,
        }
    } else {
        Some((None, i))
    }
}

/// Reads an optional map field at `i`.
pub fn parse_opt_map(v: &Vec<char>, i: usize, key: &Vec<char>) -> (r: Option<
    (Option<Vec<(String, Decimal)>>, usize),
>)
    requires
        i <= v@.len(),
    ensures
        match r {
            Some((o, j)) => p_opt_map(v@, i as int, key@) == Some(
                (
                    match o {
                        Some(m) => Some(map_view(m@)),
                        None => None,
                    },
                    j as int,
                ),
            ) && i <= j <= v@.len(),
            None => p_opt_map(v@, i as int, key@) is None,
        },
{
    let n = v.len();
    if match_lit(v, i, key) {
        match parse_map(v, i + key.len()) {
            Some((m, j)) => Some((Some(m), j)),
            None => None,
        }
    } else {
        Some((None, i))
    }
}

/// Reads the optional flattened geo-location at `i`.
pub fn parse_geo(v: &Vec<char>, i: usize) -> (r: Option<(Option<GeoLocation>, usize)>)
    requires
        i <= v@.len(),
    ensures
        match r {
            Some((o, j)) => p_geo(v@, i as int) == Some(
                (
                    match o {
                        Some(g) => Some(g@),
                        None => None,
                    },
                    j as int,
                ),
            ) && i <= j <= v@.len(),
            None => p_geo(v@, i as int) is None,
        },
{
    let n = v.len();
    let kla = str_to_vec(",\"geoLatitude\":");
    if !match_lit(v, i, &kla) {
        return Some((None, i));
    }
    let (lat, j1) = match parse_num(v, i + kla.len()) {
        Some(x) => x,
        None => {
            return None;
        },
    };
    let klo = str_to_vec(",\"geoLongitude\":");
    if !match_lit(v, j1, &klo) {
        return None;
    }
    let (lon, j2) = match parse_num(v, j1 + klo.len()) {
        Some(x) => x,
        None => {
            return None;
        },
    };
    Some((Some(GeoLocation { geo_latitude: lat, geo_longitude: lon }), j2))
}

/// Reads the optional quoted timestamp at `i`.
pub fn parse_lct(v: &Vec<char>, i: usize) -> (r: Option<(Option<Timestamp>, usize)>)
    requires
        i <= v@.len(),
    ensures
        match r {
            Some((o, j)) => p_lct(v@, i as int) == Some((o, j as int)) && i <= j <= v@.len(),
            None => p_lct(v@, i as int) is None,
        },
{
    let n = v.len();
    let kl = str_to_vec(",\"lastConnectionTime\":\"");
    if !match_lit(v, i, &kl) {
        return Some((None, i));
    }
    let (t, j) = match parse_ts(v, i + kl.len()) {
        Some(x) => x,
        None => {
            return None;
        },
    };
    if j < n && v[j] == '"' {
        Some((Some(t), j + 1))
    } else {
        None
    }
}

/// Reads the optional flattened operator at `i`.
pub fn parse_operator(v: &Vec<char>, i: usize) -> (r: Option<(Option<Operator>, usize)>)
    requires
        i <= v@.len(),
    ensures
        match r {
            Some((o, j)) => p_operator(v@, i as int) == Some(
                (
                    match o {
                        Some(op) => Some(op@),
                        None => None,
                    },
                    j as int,
                ),
            ) && i <= j <= v@.len(),
            None => p_operator(v@, i as int) is None,
        },
{
    let n = v.len();
    let kl = str_to_vec(",\"operatorId\":");
    if !match_lit(v, i, &kl) {
        return Some((None, i));
    }
    let (oid, j1) = match parse_u32(v, i + kl.len()) {
        Some(x) => x,
        None => {
            return None;
        },
    };
    let kn = str_to_vec(",\"operatorName\":");
    match parse_opt_str(v, j1, &kn) {
        Some((name, j2)) => Some((Some(Operator { operator_id: oid, operator_name: name }), j2)),
        None => None,
    }
}

/// Reads one controller object at `i`.
#[verifier::rlimit(100)]
pub fn parse_controller(v: &Vec<char>, i: usize) -> (r: Option<(Controller, usize)>)
    requires
        i <= v@.len(),
    ensures
        match r {
            Some((c, j)) => p_controller(v@, i as int) == Some((c@, j as int)) && i < j
                <= v@.len(),
            None => p_controller(v@, i as int) is None,
        },
{
    let n = v.len();
    proof {
        reveal(p_controller);
    }
    let k = str_to_vec("{\"controllerId\":");
    if !match_lit(v, i, &k) {
        return None;
    }
    let (cid, j0) = match parse_u32(v, i + k.len()) {
        Some(x) => x,
        None => {
            return None;
        },
    };
    let kd = str_to_vec(",\"displayName\":");
    let (dn, j1) = match parse_opt_str(v, j0, &kd) {
        Some(x) => x,
        None => {
            return None;
        },
    };
    let kc = str_to_vec(",\"controllerType\":");
    if !match_lit(v, j1, &kc) {
        return None;
    }
    let (ct, j2) = match parse_str(v, j1 + kc.len()) {
        Some(x) => x,
        None => {
            return None;
        },
    };
    let kv = str_to_vec(",\"version\":");
    if !match_lit(v, j2, &kv) {
        return None;
    }
    let (ver, j3) = match parse_str(v, j2 + kv.len()) {
        Some(x) => x,
        None => {
            return None;
        },
    };
    let km = str_to_vec(",\"model\":");
    if !match_lit(v, j3, &km) {
        return None;
    }
    let (model, j4) = match parse_str(v, j3 + km.len()) {
        Some(x) => x,
        None => {
            return None;
        },
    };
    let ki = str_to_vec(",\"IP\":");
    if !match_lit(v, j4, &ki) {
        return None;
    }
    let (ip, j5) = match parse_str(v, j4 + ki.len()) {
        Some(x) => x,
        None => {
            return None;
        },
    };
    let (geo, j6) = match parse_geo(v, j5) {
        Some(x) => x,
        None => {
            return None;
        },
    };
    let (om, j7) = match parse_op_mode(v, j6) {
        Some(x) => x,
        None => {
            return None;
        },
    };
    let (jm, j8) = match parse_job_mode(v, j7) {
        Some(x) => x,
        None => {
            return None;
        },
    };
    let kl = str_to_vec(",\"lastCycleData\":");
    let (lcd, j9) = match parse_opt_map(v, j8, &kl) {
        Some(x) => x,
        None => {
            return None;
        },
    };
    let kva = str_to_vec(",\"variables\":");
    let (vars, j10) = match parse_opt_map(v, j9, &kva) {
        Some(x) => x,
        None => {
            return None;
        },
    };
    let (lct, j11) = match parse_lct(v, j10) {
        Some(x) => x,
        None => {
            return None;
        },
    };
    let (op, j12) = match parse_operator(v, j11) {
        Some(x) => x,
        None => {
            return None;
        },
    };
    let kj = str_to_vec(",\"jobCardId\":");
    let (jcid, j13) = match parse_opt_str(v, j12, &kj) {
        Some(x) => x,
        None => {
            return None;
        },
    };
    let kmo = str_to_vec(",\"moldId\":");
    let (mold, j14) = match parse_opt_str(v, j13, &kmo) {
        Some(x) => x,
        None => {
            return None;
        },
    };
    if !(j14 < n && v[j14] == '}') {
        return None;
    }
    let c = Controller {
        controller_id: cid,
        display_name: dn,
        controller_type: vec_to_string(&ct),
        version: vec_to_string(&ver),
        model: vec_to_string(&model),
        address: vec_to_string(&ip),
        geo_location: geo,
        op_mode: om,
        job_mode: jm,
        last_cycle_data: lcd,
        variables: vars,
        last_connection_time: lct,
        operator: op,
        job_card_id: jcid,
        mold_id: mold,
    };
    Some((c, j14 + 1))
}



// ---------------------------------------------------------------------------
// Keyed lists and the filter array
// ---------------------------------------------------------------------------
pub open spec fn qcolon() -> Seq<char> {
    "\":"@
}

pub open spec fn lbr() -> Seq<char> {
    "["@
}

pub open spec fn rbr() -> Seq<char> {
    "]"@
}

/// One controllers-list entry: the ID as a quoted key, then the object.
pub open spec fn ser_centry(c: ControllerView) -> Seq<char> {
    quote() + ser_nat(c.controller_id as int) + qcolon() + ser_controller(c)
}

pub open spec fn ser_clist_rest(l: Seq<ControllerView>) -> Seq<char>
    decreases l.len(),
{
    if l.len() == 0 {
        Seq::empty()
    } else {
        comma() + ser_centry(l[0]) + ser_clist_rest(l.drop_first())
    }
}

/// A whole controllers-list object.
pub open spec fn ser_clist(l: Seq<ControllerView>) -> Seq<char> {
    if l.len() == 0 {
        lb() + rb()
    } else {
        lb() + ser_centry(l[0]) + ser_clist_rest(l.drop_first()) + rb()
    }
}

/// Reads one controllers-list entry; the key must equal the object's ID.
pub open spec fn p_centry(s: Seq<char>, i: int) -> Option<(ControllerView, int)> {
    if 0 <= i && i < s.len() && s[i] == '"' {
        match p_u32(s, i + 1) {
            Some((kid, j)) => {
                if lit_at(s, j, qcolon()) {
                    match p_controller(s, j + qcolon().len()) {
                        Some((c, j2)) => if c.controller_id == kid {
                            Some((c, j2))
                        } else {
                            None
                        },
                        None => None,
                    }
                } else {
                    None
                }
            },
            None => None,
        }
    } else {
        None
    }
}

pub open spec fn p_clist_rest(s: Seq<char>, i: int) -> Option<(Seq<ControllerView>, int)>
    decreases s.len() - i
    when 0 <= i <= s.len()
{
    if i < s.len() && s[i] == '}' {
        Some((Seq::empty(), i + 1))
    } else if i < s.len() && s[i] == ',' {
        match p_centry(s, i + 1) {
            Some((e, j)) => {
                if i + 1 < j && j <= s.len() {
                    match p_clist_rest(s, j) {
                        Some((rest, j2)) => Some((seq![e] + rest, j2)),
                        None => None,
                    }
                } else {
                    None
                }
            },
            None => None,
        }
    } else {
        None
    }
}

/// Reads a whole controllers-list object at `i`.
pub open spec fn p_clist(s: Seq<char>, i: int) -> Option<(Seq<ControllerView>, int)> {
    if 0 <= i && i < s.len() && s[i] == '{' {
        if i + 1 < s.len() && s[i + 1] == '}' {
            Some((Seq::empty(), i + 2))
        } else {
            match p_centry(s, i + 1) {
                Some((e, j)) => {
                    if i + 1 < j && j <= s.len() {
                        match p_clist_rest(s, j) {
                            Some((rest, j2)) => Some((seq![e] + rest, j2)),
                            None => None,
                        }
                    } else {
                        None
                    }
                },
                None => None,
            }
        }
    } else {
        None
    }
}

/// Shape of a non-empty keyed-list object, with the entry and the rest
/// kept abstract.
pub proof fn lemma_keyed_list_shape(s: Seq<char>, i: int, entry: Seq<char>, srest: Seq<char>)
    requires
        0 <= i,
        i + 1 + entry.len() + srest.len() + 1 <= s.len(),
        s.subrange(i, i + 1 + entry.len() + srest.len() + 1) == lb() + entry + srest + rb(),
    ensures
        s[i] == '{',
        s.subrange(i + 1, i + 1 + entry.len()) == entry,
        lit_at(s, i + 1, entry),
        s.subrange(i + 1 + entry.len(), i + 1 + entry.len() + srest.len()) == srest,
        lit_at(s, i + 1 + entry.len() as int, srest),
        s[i + 1 + entry.len() + srest.len()] == '}',
        entry.len() > 0 ==> s[i + 1] == entry[0],
        srest.len() > 0 ==> s[i + 1 + entry.len()] == srest[0],
{
    reveal_strlit("{");
    reveal_strlit("}");
    let t = lb() + entry + srest + rb();
    let l = t.len() as int;
    assert forall|k: int| 0 <= k < l implies #[trigger] s[i + k] == t[k] by {
        assert(s.subrange(i, i + l)[k] == s[i + k]);
    }
    assert(s[i + 0] == t[0]);
    assert(t[0] == '{');
    assert forall|k: int| 0 <= k < entry.len() implies #[trigger] s.subrange(
        i + 1,
        i + 1 + entry.len(),
    )[k] == entry[k] by {
        assert(s[i + (1 + k)] == t[1 + k]);
        assert(t[1 + k] == entry[k]);
        assert(s.subrange(i + 1, i + 1 + entry.len())[k] == s[i + (1 + k)]);
    }
    assert(s.subrange(i + 1, i + 1 + entry.len()) =~= entry);
    assert forall|k: int| 0 <= k < srest.len() implies #[trigger] s.subrange(
        i + 1 + entry.len(),
        i + 1 + entry.len() + srest.len(),
    )[k] == srest[k] by {
        assert(s[i + (1 + entry.len() + k)] == t[1 + entry.len() + k]);
        assert(t[1 + entry.len() as int + k] == srest[k]);
        assert(s.subrange(i + 1 + entry.len(), i + 1 + entry.len() + srest.len())[k] == s[i + (1
            + entry.len() + k)]);
    }
    assert(s.subrange(i + 1 + entry.len(), i + 1 + entry.len() + srest.len()) =~= srest);
    assert(s[i + (1 + entry.len() + srest.len() as int)] == t[1 + entry.len() + srest.len() as int]);
    assert(t[1 + entry.len() + srest.len() as int] == '}');
    if entry.len() > 0 {
        assert(s[i + 1] == t[1]);
        assert(t[1] == entry[0]);
    }
    if srest.len() > 0 {
        assert(s[i + (1 + entry.len() as int)] == t[1 + entry.len() as int]);
        assert(t[1 + entry.len() as int] == srest[0]);
    }
}

/// Shape of a comma-led list continuation, with the entry and the rest
/// kept abstract.
pub proof fn lemma_keyed_rest_shape(s: Seq<char>, i: int, entry: Seq<char>, srest: Seq<char>)
    requires
        0 <= i,
        i + 1 + entry.len() + srest.len() <= s.len(),
        s.subrange(i, i + 1 + entry.len() + srest.len()) == comma() + entry + srest,
    ensures
        s[i] == ',',
        s.subrange(i + 1, i + 1 + entry.len()) == entry,
        lit_at(s, i + 1, entry),
        s.subrange(i + 1 + entry.len(), i + 1 + entry.len() + srest.len()) == srest,
        lit_at(s, i + 1 + entry.len() as int, srest),
        entry.len() > 0 ==> s[i + 1] == entry[0],
        srest.len() > 0 ==> s[i + 1 + entry.len()] == srest[0],
{
    reveal_strlit(",");
    let t = comma() + entry + srest;
    let l = t.len() as int;
    assert forall|k: int| 0 <= k < l implies #[trigger] s[i + k] == t[k] by {
        assert(s.subrange(i, i + l)[k] == s[i + k]);
    }
    assert(s[i + 0] == t[0]);
    assert(t[0] == ',');
    assert forall|k: int| 0 <= k < entry.len() implies #[trigger] s.subrange(
        i + 1,
        i + 1 + entry.len(),
    )[k] == entry[k] by {
        assert(s[i + (1 + k)] == t[1 + k]);
        assert(t[1 + k] == entry[k]);
        assert(s.subrange(i + 1, i + 1 + entry.len())[k] == s[i + (1 + k)]);
    }
    assert(s.subrange(i + 1, i + 1 + entry.len()) =~= entry);
    assert forall|k: int| 0 <= k < srest.len() implies #[trigger] s.subrange(
        i + 1 + entry.len(),
        i + 1 + entry.len() + srest.len(),
    )[k] == srest[k] by {
        assert(s[i + (1 + entry.len() + k)] == t[1 + entry.len() + k]);
        assert(t[1 + entry.len() as int + k] == srest[k]);
        assert(s.subrange(i + 1 + entry.len(), i + 1 + entry.len() + srest.len())[k] == s[i + (1
            + entry.len() + k)]);
    }
    assert(s.subrange(i + 1 + entry.len(), i + 1 + entry.len() + srest.len()) =~= srest);
    if entry.len() > 0 {
        assert(s[i + 1] == t[1]);
        assert(t[1] == entry[0]);
    }
    if srest.len() > 0 {
        assert(s[i + (1 + entry.len() as int)] == t[1 + entry.len() as int]);
        assert(t[1 + entry.len() as int] == srest[0]);
    }
}

/// The controllers-list entry parser inverts the entry emitter.
#[verifier::rlimit(100)]
#[verifier::spinoff_prover]
pub proof fn lemma_p_centry_ser(s: Seq<char>, i: int, c: ControllerView)
    requires
        0 <= i,
        i + ser_centry(c).len() <= s.len(),
        s.subrange(i, i + ser_centry(c).len() as int) == ser_centry(c),
        crate::controller::controller_wf(c),
    ensures
        p_centry(s, i) == Some((c, i + ser_centry(c).len() as int)),
{
    reveal_strlit("\"");
    reveal_strlit("\":");
    let cn = ser_nat(c.controller_id as int);
    let sc = ser_controller(c);
    let se = ser_centry(c);
    assert(se =~= quote() + cn + (qcolon() + sc));
    assert(s.subrange(i, i + 1 + cn.len() + (2 + sc.len())) == quote() + cn + (qcolon() + sc));
    lemma_window(s, i, quote(), cn, qcolon() + sc);
    lemma_char_in(s, i, se, 0);
    assert(se[0] == '"');
    assert(s[i] == '"');
    let j = i + 1 + cn.len() as int;
    assert(s[j] == (qcolon() + sc)[0]);
    assert(s[j] == '"');
    assert(!is_digit(s[j]));
    lemma_p_u32_ser(s, i + 1, c.controller_id);
    assert(se =~= (quote() + cn) + qcolon() + sc);
    assert(s.subrange(i, i + (1 + cn.len()) + 2 + sc.len()) == (quote() + cn) + qcolon() + sc);
    lemma_window(s, i, quote() + cn, qcolon(), sc);
    assert(se =~= (quote() + cn + qcolon()) + sc + Seq::<char>::empty());
    assert(s.subrange(i, i + (1 + cn.len() + 2) + sc.len() + 0) == (quote() + cn + qcolon()) + sc
        + Seq::<char>::empty());
    lemma_window(s, i, quote() + cn + qcolon(), sc, Seq::<char>::empty());
    lemma_p_controller_ser(s, j + 2, c);
}

/// The controllers-list rest parser inverts its emitter.
#[verifier::rlimit(100)]
#[verifier::spinoff_prover]
pub proof fn lemma_p_clist_rest_ser(s: Seq<char>, i: int, l: Seq<ControllerView>)
    requires
        0 <= i,
        i + ser_clist_rest(l).len() < s.len(),
        s.subrange(i, i + ser_clist_rest(l).len() as int) == ser_clist_rest(l),
        s[i + ser_clist_rest(l).len()] == '}',
        forall|k: int| 0 <= k < l.len() ==> crate::controller::controller_wf(#[trigger] l[k]),
    ensures
        p_clist_rest(s, i) == Some((l, i + ser_clist_rest(l).len() + 1)),
    decreases l.len(),
{
    reveal_strlit(",");
    reveal_strlit("\"");
    reveal_strlit("}");
    let sm = ser_clist_rest(l);
    let le = sm.len() as int;
    if l.len() == 0 {
        assert(s[i] == '}');
    } else {
        let e = l[0];
        let rest = l.drop_first();
        let entry = ser_centry(e);
        let srest = ser_clist_rest(rest);
        assert(sm == comma() + entry + srest);
        assert(s.subrange(i, i + 1 + entry.len() + srest.len()) == comma() + entry + srest);
        lemma_keyed_rest_shape(s, i, entry, srest);
        assert(s[i] != '}');
        lemma_p_centry_ser(s, i + 1, e);
        let j = i + 1 + entry.len() as int;
        assert(j + srest.len() == i + le);
        assert forall|k: int| 0 <= k < rest.len() implies crate::controller::controller_wf(
            #[trigger] rest[k],
        ) by {
            assert(rest[k] == l[k + 1]);
        }
        lemma_p_clist_rest_ser(s, j, rest);
        assert(seq![e] + rest =~= l);
    }
}

/// The controllers-list parser inverts its emitter.
#[verifier::rlimit(100)]
#[verifier::spinoff_prover]
pub proof fn lemma_p_clist_ser(s: Seq<char>, i: int, l: Seq<ControllerView>)
    requires
        0 <= i,
        i + ser_clist(l).len() <= s.len(),
        s.subrange(i, i + ser_clist(l).len() as int) == ser_clist(l),
        forall|k: int| 0 <= k < l.len() ==> crate::controller::controller_wf(#[trigger] l[k]),
    ensures
        p_clist(s, i) == Some((l, i + ser_clist(l).len() as int)),
{
    reveal_strlit("{");
    reveal_strlit("}");
    reveal_strlit("\"");
    let sm = ser_clist(l);
    if l.len() == 0 {
        lemma_char_in(s, i, sm, 0);
        lemma_char_in(s, i, sm, 1);
        assert(s[i] == '{');
        assert(s[i + 1] == '}');
    } else {
        let e = l[0];
        let rest = l.drop_first();
        let entry = ser_centry(e);
        let srest = ser_clist_rest(rest);
        assert(sm == lb() + entry + srest + rb());
        assert(s.subrange(i, i + 1 + entry.len() + srest.len() + 1) == lb() + entry + srest
            + rb());
        lemma_keyed_list_shape(s, i, entry, srest);
        assert(entry[0] == '"');
        assert(s[i + 1] == '"');
        assert(s[i + 1] != '}');
        lemma_p_centry_ser(s, i + 1, e);
        let j = i + 1 + entry.len() as int;
        assert(s[j + srest.len()] == '}');
        assert forall|k: int| 0 <= k < rest.len() implies crate::controller::controller_wf(
            #[trigger] rest[k],
        ) by {
            assert(rest[k] == l[k + 1]);
        }
        lemma_p_clist_rest_ser(s, j, rest);
        assert(seq![e] + rest =~= l);
    }
}

/// One job-cards-list entry: the job-card ID as key, then the object.
pub open spec fn ser_jentry(j: JobCardView) -> Seq<char> {
    ser_str(j.job_card_id) + colon() + ser_jobcard(j)
}

pub open spec fn ser_jlist_rest(l: Seq<JobCardView>) -> Seq<char>
    decreases l.len(),
{
    if l.len() == 0 {
        Seq::empty()
    } else {
        comma() + ser_jentry(l[0]) + ser_jlist_rest(l.drop_first())
    }
}

/// A whole job-cards-list object.
pub open spec fn ser_jlist(l: Seq<JobCardView>) -> Seq<char> {
    if l.len() == 0 {
        lb() + rb()
    } else {
        lb() + ser_jentry(l[0]) + ser_jlist_rest(l.drop_first()) + rb()
    }
}

/// Reads one job-cards-list entry; the key must equal the job-card ID.
pub open spec fn p_jentry(s: Seq<char>, i: int) -> Option<(JobCardView, int)> {
    match p_str(s, i) {
        Some((key, j)) => {
            if j < s.len() && s[j] == ':' {
                match p_jobcard(s, j + 1) {
                    Some((jc, j2)) => if jc.job_card_id == key {
                        Some((jc, j2))
                    } else {
                        None
                    },
                    None => None,
                }
            } else {
                None
            }
        },
        None => None,
    }
}

pub open spec fn p_jlist_rest(s: Seq<char>, i: int) -> Option<(Seq<JobCardView>, int)>
    decreases s.len() - i
    when 0 <= i <= s.len()
{
    if i < s.len() && s[i] == '}' {
        Some((Seq::empty(), i + 1))
    } else if i < s.len() && s[i] == ',' {
        match p_jentry(s, i + 1) {
            Some((e, j)) => {
                if i + 1 < j && j <= s.len() {
                    match p_jlist_rest(s, j) {
                        Some((rest, j2)) => Some((seq![e] + rest, j2)),
                        None => None,
                    }
                } else {
                    None
                }
            },
            None => None,
        }
    } else {
        None
    }
}

/// Reads a whole job-cards-list object at `i`.
pub open spec fn p_jlist(s: Seq<char>, i: int) -> Option<(Seq<JobCardView>, int)> {
    if 0 <= i && i < s.len() && s[i] == '{' {
        if i + 1 < s.len() && s[i + 1] == '}' {
            Some((Seq::empty(), i + 2))
        } else {
            match p_jentry(s, i + 1) {
                Some((e, j)) => {
                    if i + 1 < j && j <= s.len() {
                        match p_jlist_rest(s, j) {
                            Some((rest, j2)) => Some((seq![e] + rest, j2)),
                            None => None,
                        }
                    } else {
                        None
                    }
                },
                None => None,
            }
        }
    } else {
        None
    }
}

/// The job-cards-list entry parser inverts the entry emitter.
#[verifier::rlimit(100)]
#[verifier::spinoff_prover]
pub proof fn lemma_p_jentry_ser(s: Seq<char>, i: int, j: JobCardView)
    requires
        0 <= i,
        i + ser_jentry(j).len() <= s.len(),
        s.subrange(i, i + ser_jentry(j).len() as int) == ser_jentry(j),
    ensures
        p_jentry(s, i) == Some((j, i + ser_jentry(j).len() as int)),
{
    reveal_strlit(":");
    let key = ser_str(j.job_card_id);
    let sj = ser_jobcard(j);
    let se = ser_jentry(j);
    assert(se =~= Seq::<char>::empty() + key + (colon() + sj));
    assert(s.subrange(i, i + 0 + key.len() + (1 + sj.len())) == Seq::<char>::empty() + key + (
    colon() + sj));
    lemma_window(s, i, Seq::<char>::empty(), key, colon() + sj);
    lemma_p_str_ser(s, i, j.job_card_id);
    let j1 = i + key.len() as int;
    assert(s[j1] == (colon() + sj)[0]);
    assert(s[j1] == ':');
    assert(se =~= (key + colon()) + sj + Seq::<char>::empty());
    assert(s.subrange(i, i + (key.len() + 1) + sj.len() + 0) == (key + colon()) + sj
        + Seq::<char>::empty());
    lemma_window(s, i, key + colon(), sj, Seq::<char>::empty());
    lemma_p_jobcard_ser(s, j1 + 1, j);
}

/// The job-cards-list rest parser inverts its emitter.
#[verifier::rlimit(100)]
#[verifier::spinoff_prover]
pub proof fn lemma_p_jlist_rest_ser(s: Seq<char>, i: int, l: Seq<JobCardView>)
    requires
        0 <= i,
        i + ser_jlist_rest(l).len() < s.len(),
        s.subrange(i, i + ser_jlist_rest(l).len() as int) == ser_jlist_rest(l),
        s[i + ser_jlist_rest(l).len()] == '}',
    ensures
        p_jlist_rest(s, i) == Some((l, i + ser_jlist_rest(l).len() + 1)),
    decreases l.len(),
{
    reveal_strlit(",");
    reveal_strlit("\"");
    reveal_strlit("}");
    let sm = ser_jlist_rest(l);
    let le = sm.len() as int;
    if l.len() == 0 {
        assert(s[i] == '}');
    } else {
        let e = l[0];
        let rest = l.drop_first();
        let entry = ser_jentry(e);
        let srest = ser_jlist_rest(rest);
        assert(sm == comma() + entry + srest);
        assert(s.subrange(i, i + 1 + entry.len() + srest.len()) == comma() + entry + srest);
        lemma_keyed_rest_shape(s, i, entry, srest);
        assert(s[i] != '}');
        lemma_p_jentry_ser(s, i + 1, e);
        let j = i + 1 + entry.len() as int;
        assert(j + srest.len() == i + le);

        lemma_p_jlist_rest_ser(s, j, rest);
        assert(seq![e] + rest =~= l);
    }
}

/// The job-cards-list parser inverts its emitter.
#[verifier::rlimit(100)]
#[verifier::spinoff_prover]
pub proof fn lemma_p_jlist_ser(s: Seq<char>, i: int, l: Seq<JobCardView>)
    requires
        0 <= i,
        i + ser_jlist(l).len() <= s.len(),
        s.subrange(i, i + ser_jlist(l).len() as int) == ser_jlist(l),
    ensures
        p_jlist(s, i) == Some((l, i + ser_jlist(l).len() as int)),
{
    reveal_strlit("{");
    reveal_strlit("}");
    reveal_strlit("\"");
    let sm = ser_jlist(l);
    if l.len() == 0 {
        lemma_char_in(s, i, sm, 0);
        lemma_char_in(s, i, sm, 1);
        assert(s[i] == '{');
        assert(s[i + 1] == '}');
    } else {
        let e = l[0];
        let rest = l.drop_first();
        let entry = ser_jentry(e);
        let srest = ser_jlist_rest(rest);
        assert(sm == lb() + entry + srest + rb());
        assert(s.subrange(i, i + 1 + entry.len() + srest.len() + 1) == lb() + entry + srest
            + rb());
        lemma_keyed_list_shape(s, i, entry, srest);
        assert(entry[0] == (ser_str(e.job_card_id))[0]);
        assert(s[i + 1] == '"');
        assert(s[i + 1] != '}');
        lemma_p_jentry_ser(s, i + 1, e);
        let j = i + 1 + entry.len() as int;
        assert(s[j + srest.len()] == '}');

        lemma_p_jlist_rest_ser(s, j, rest);
        assert(seq![e] + rest =~= l);
    }
}



// ---------------------------------------------------------------------------
// Executable list codec
// ---------------------------------------------------------------------------
/// The view of a controller vector.
pub open spec fn clist_view(v: Seq<Controller>) -> Seq<ControllerView> {
    v.map_values(|c: Controller| c@)
}

/// The view of a job-card vector.
pub open spec fn jlist_view(v: Seq<JobCard>) -> Seq<JobCardView> {
    v.map_values(|j: JobCard| j@)
}

/// Emits the controllers-list entries from index `k` on and the brace.
pub fn emit_clist_rest(out: &mut Vec<char>, data: &Vec<Controller>, k: usize)
    requires
        k <= data@.len(),
        forall|m: int|
            0 <= m < data@.len() ==> crate::controller::controller_wf(#[trigger] data@[m]@),
    ensures
        final(out)@ == old(out)@ + ser_clist_rest(clist_view(data@).skip(k as int)) + rb(),
    decreases data@.len() - k,
{
    proof {
        reveal_strlit("}");
        reveal_strlit(",");
        reveal_strlit("\"");
        reveal_strlit("\":");
    }
    if k == data.len() {
        out.push('}');
        proof {
            assert(clist_view(data@).skip(k as int) =~= Seq::empty());
            assert(final(out)@ =~= old(out)@ + ser_clist_rest(Seq::empty()) + rb());
        }
    } else {
        out.push(',');
        out.push('"');
        push_u32(out, data[k].controller_id);
        let qc = str_to_vec("\":");
        push_seq(out, &qc);
        emit_controller(out, &data[k]);
        let ghost mid = out@;
        emit_clist_rest(out, data, k + 1);
        proof {
            let dv = clist_view(data@);
            assert(dv.skip(k as int)[0] == dv[k as int]);
            assert(dv[k as int] == data@[k as int]@);
            assert(dv.skip(k as int).drop_first() =~= dv.skip(k as int + 1));
            assert(mid =~= old(out)@ + comma() + ser_centry(dv.skip(k as int)[0]));
            assert(final(out)@ =~= old(out)@ + ser_clist_rest(dv.skip(k as int)) + rb());
        }
    }
}

/// Emits a whole controllers-list object.
pub fn emit_clist(out: &mut Vec<char>, data: &Vec<Controller>)
    requires
        forall|m: int|
            0 <= m < data@.len() ==> crate::controller::controller_wf(#[trigger] data@[m]@),
    ensures
        final(out)@ == old(out)@ + ser_clist(clist_view(data@)),
{
    proof {
        reveal_strlit("{");
        reveal_strlit("}");
        reveal_strlit("\"");
        reveal_strlit("\":");
    }
    out.push('{');
    if data.len() == 0 {
        out.push('}');
        proof {
            assert(clist_view(data@).len() == 0);
            assert(final(out)@ =~= old(out)@ + ser_clist(clist_view(data@)));
        }
    } else {
        out.push('"');
        push_u32(out, data[0].controller_id);
        let qc = str_to_vec("\":");
        push_seq(out, &qc);
        emit_controller(out, &data[0]);
        let ghost mid = out@;
        emit_clist_rest(out, data, 1);
        proof {
            let dv = clist_view(data@);
            assert(dv[0] == data@[0]@);
            assert(dv.skip(1) =~= dv.drop_first());
            assert(mid =~= old(out)@ + lb() + ser_centry(dv[0]));
            assert(final(out)@ =~= old(out)@ + ser_clist(dv));
        }
    }
}

/// Reads one controllers-list entry at `i`.
pub fn parse_centry(v: &Vec<char>, i: usize) -> (r: Option<(Controller, usize)>)
    requires
        i <= v@.len(),
    ensures
        match r {
            Some((c, j)) => p_centry(v@, i as int) == Some((c@, j as int)) && i < j <= v@.len(),
            None => p_centry(v@, i as int) is None,
        },
{
    let n = v.len();
    if !(i < n && v[i] == '"') {
        return None;
    }
    let (kid, j) = match parse_u32(v, i + 1) {
        Some(x) => x,
        None => {
            return None;
        },
    };
    let qc = str_to_vec("\":");
    if !match_lit(v, j, &qc) {
        return None;
    }
    proof {
        reveal_strlit("\":");
    }
    let (c, j2) = match parse_controller(v, j + qc.len()) {
        Some(x) => x,
        None => {
            return None;
        },
    };
    if c.controller_id == kid {
        Some((c, j2))
    } else {
        None
    }
}

/// Reads `,entry` repetitions until the closing brace.
pub fn parse_clist_rest(v: &Vec<char>, i: usize, acc: &mut Vec<Controller>) -> (r: Option<usize>)
    requires
        i <= v@.len(),
    ensures
        match r {
            Some(j) => {
                &&& p_clist_rest(v@, i as int) matches Some((l, je)) && je == j as int
                    && clist_view((*final(acc))@) == clist_view((*old(acc))@) + l
                &&& i < j <= v@.len()
            },
            None => p_clist_rest(v@, i as int) is None,
        },
    decreases v@.len() - i,
{
    if i < v.len() && v[i] == '}' {
        proof {
            assert(clist_view(acc@) =~= clist_view(acc@) + Seq::empty());
        }
        return Some(i + 1);
    }
    if !(i < v.len() && v[i] == ',') {
        return None;
    }
    match parse_centry(v, i + 1) {
        Some((c, j)) => {
            if !(i + 1 < j && j <= v.len()) {
                return None;
            }
            let ghost acc0 = acc@;
            let ghost e = p_centry(v@, i as int + 1).unwrap().0;
            acc.push(c);
            proof {
                assert(clist_view(acc@) =~= clist_view(acc0) + seq![e]);
            }
            match parse_clist_rest(v, j, acc) {
                Some(j2) => {
                    proof {
                        let rest = p_clist_rest(v@, j as int).unwrap().0;
                        assert(clist_view((*final(acc))@) == clist_view(acc0) + seq![e] + rest);
                        assert(clist_view(acc0) + seq![e] + rest =~= clist_view(acc0) + (seq![e]
                            + rest));
                    }
                    Some(j2)
                },
                None => None,
            }
        },
        None => None,
    }
}

/// Reads a whole controllers-list object at `i`.
pub fn parse_clist(v: &Vec<char>, i: usize) -> (r: Option<(Vec<Controller>, usize)>)
    requires
        i <= v@.len(),
    ensures
        match r {
            Some((l, j)) => p_clist(v@, i as int) == Some((clist_view(l@), j as int)) && i < j
                <= v@.len(),
            None => p_clist(v@, i as int) is None,
        },
{
    let n = v.len();
    if !(i < n && v[i] == '{') {
        return None;
    }
    if i + 1 < n && v[i + 1] == '}' {
        let empty: Vec<Controller> = Vec::new();
        proof {
            assert(clist_view(empty@) =~= Seq::empty());
        }
        return Some((empty, i + 2));
    }
    match parse_centry(v, i + 1) {
        Some((c, j)) => {
            if !(i + 1 < j && j <= n) {
                return None;
            }
            let mut acc: Vec<Controller> = Vec::new();
            let ghost e = p_centry(v@, i as int + 1).unwrap().0;
            acc.push(c);
            proof {
                assert(clist_view(acc@) =~= Seq::empty() + seq![e]);
            }
            match parse_clist_rest(v, j, &mut acc) {
                Some(j2) => {
                    proof {
                        let rest = p_clist_rest(v@, j as int).unwrap().0;
                        assert(clist_view(acc@) == Seq::empty() + seq![e] + rest);
                        assert(Seq::empty() + seq![e] + rest =~= seq![e] + rest);
                    }
                    Some((acc, j2))
                },
                None => None,
            }
        },
        None => None,
    }
}

/// Emits the job-cards-list entries from index `k` on and the brace.
pub fn emit_jlist_rest(out: &mut Vec<char>, data: &Vec<JobCard>, k: usize)
    requires
        k <= data@.len(),
    ensures
        final(out)@ == old(out)@ + ser_jlist_rest(jlist_view(data@).skip(k as int)) + rb(),
    decreases data@.len() - k,
{
    proof {
        reveal_strlit("}");
        reveal_strlit(",");
        reveal_strlit(":");
    }
    if k == data.len() {
        out.push('}');
        proof {
            assert(jlist_view(data@).skip(k as int) =~= Seq::empty());
            assert(final(out)@ =~= old(out)@ + ser_jlist_rest(Seq::empty()) + rb());
        }
    } else {
        out.push(',');
        let keyv = str_to_vec(data[k].job_card_id.as_str());
        push_quoted(out, &keyv);
        out.push(':');
        emit_jobcard(out, &data[k]);
        let ghost mid = out@;
        emit_jlist_rest(out, data, k + 1);
        proof {
            let dv = jlist_view(data@);
            assert(dv.skip(k as int)[0] == dv[k as int]);
            assert(dv[k as int] == data@[k as int]@);
            assert(dv.skip(k as int).drop_first() =~= dv.skip(k as int + 1));
            assert(mid =~= old(out)@ + comma() + ser_jentry(dv.skip(k as int)[0]));
            assert(final(out)@ =~= old(out)@ + ser_jlist_rest(dv.skip(k as int)) + rb());
        }
    }
}

/// Emits a whole job-cards-list object.
pub fn emit_jlist(out: &mut Vec<char>, data: &Vec<JobCard>)
    ensures
        final(out)@ == old(out)@ + ser_jlist(jlist_view(data@)),
{
    proof {
        reveal_strlit("{");
        reveal_strlit("}");
        reveal_strlit(":");
    }
    out.push('{');
    if data.len() == 0 {
        out.push('}');
        proof {
            assert(jlist_view(data@).len() == 0);
            assert(final(out)@ =~= old(out)@ + ser_jlist(jlist_view(data@)));
        }
    } else {
        let keyv = str_to_vec(data[0].job_card_id.as_str());
        push_quoted(out, &keyv);
        out.push(':');
        emit_jobcard(out, &data[0]);
        let ghost mid = out@;
        emit_jlist_rest(out, data, 1);
        proof {
            let dv = jlist_view(data@);
            assert(dv[0] == data@[0]@);
            assert(dv.skip(1) =~= dv.drop_first());
            assert(mid =~= old(out)@ + lb() + ser_jentry(dv[0]));
            assert(final(out)@ =~= old(out)@ + ser_jlist(dv));
        }
    }
}

/// Reads one job-cards-list entry at `i`.
pub fn parse_jentry(v: &Vec<char>, i: usize) -> (r: Option<(JobCard, usize)>)
    requires
        i <= v@.len(),
    ensures
        match r {
            Some((jc, j)) => p_jentry(v@, i as int) == Some((jc@, j as int)) && i < j <= v@.len(),
            None => p_jentry(v@, i as int) is None,
        },
{
    let n = v.len();
    let (key, j) = match parse_str(v, i) {
        Some(x) => x,
        None => {
            return None;
        },
    };
    if !(j < n && v[j] == ':') {
        return None;
    }
    let (jc, j2) = match parse_jobcard(v, j + 1) {
        Some(x) => x,
        None => {
            return None;
        },
    };
    let keystr = vec_to_string(&key);
    if crate::lex::str_eq(jc.job_card_id.as_str(), keystr.as_str()) {
        Some((jc, j2))
    } else {
        None
    }
}

/// Reads `,entry` repetitions until the closing brace.
pub fn parse_jlist_rest(v: &Vec<char>, i: usize, acc: &mut Vec<JobCard>) -> (r: Option<usize>)
    requires
        i <= v@.len(),
    ensures
        match r {
            Some(j) => {
                &&& p_jlist_rest(v@, i as int) matches Some((l, je)) && je == j as int
                    && jlist_view((*final(acc))@) == jlist_view((*old(acc))@) + l
                &&& i < j <= v@.len()
            },
            None => p_jlist_rest(v@, i as int) is None,
        },
    decreases v@.len() - i,
{
    if i < v.len() && v[i] == '}' {
        proof {
            assert(jlist_view(acc@) =~= jlist_view(acc@) + Seq::empty());
        }
        return Some(i + 1);
    }
    if !(i < v.len() && v[i] == ',') {
        return None;
    }
    match parse_jentry(v, i + 1) {
        Some((jc, j)) => {
            if !(i + 1 < j && j <= v.len()) {
                return None;
            }
            let ghost acc0 = acc@;
            let ghost e = p_jentry(v@, i as int + 1).unwrap().0;
            acc.push(jc);
            proof {
                assert(jlist_view(acc@) =~= jlist_view(acc0) + seq![e]);
            }
            match parse_jlist_rest(v, j, acc) {
                Some(j2) => {
                    proof {
                        let rest = p_jlist_rest(v@, j as int).unwrap().0;
                        assert(jlist_view((*final(acc))@) == jlist_view(acc0) + seq![e] + rest);
                        assert(jlist_view(acc0) + seq![e] + rest =~= jlist_view(acc0) + (seq![e]
                            + rest));
                    }
                    Some(j2)
                },
                None => None,
            }
        },
        None => None,
    }
}

/// Reads a whole job-cards-list object at `i`.
pub fn parse_jlist(v: &Vec<char>, i: usize) -> (r: Option<(Vec<JobCard>, usize)>)
    requires
        i <= v@.len(),
    ensures
        match r {
            Some((l, j)) => p_jlist(v@, i as int) == Some((jlist_view(l@), j as int)) && i < j
                <= v@.len(),
            None => p_jlist(v@, i as int) is None,
        },
{
    let n = v.len();
    if !(i < n && v[i] == '{') {
        return None;
    }
    if i + 1 < n && v[i + 1] == '}' {
        let empty: Vec<JobCard> = Vec::new();
        proof {
            assert(jlist_view(empty@) =~= Seq::empty());
        }
        return Some((empty, i + 2));
    }
    match parse_jentry(v, i + 1) {
        Some((jc, j)) => {
            if !(i + 1 < j && j <= n) {
                return None;
            }
            let mut acc: Vec<JobCard> = Vec::new();
            let ghost e = p_jentry(v@, i as int + 1).unwrap().0;
            acc.push(jc);
            proof {
                assert(jlist_view(acc@) =~= Seq::empty() + seq![e]);
            }
            match parse_jlist_rest(v, j, &mut acc) {
                Some(j2) => {
                    proof {
                        let rest = p_jlist_rest(v@, j as int).unwrap().0;
                        assert(jlist_view(acc@) == Seq::empty() + seq![e] + rest);
                        assert(Seq::empty() + seq![e] + rest =~= seq![e] + rest);
                    }
                    Some((acc, j2))
                },
                None => None,
            }
        },
        None => None,
    }
}



// ---------------------------------------------------------------------------
// Controller snapshots as standalone JSON texts
// ---------------------------------------------------------------------------
/// Serializes one controller snapshot to its JSON object text.  A record
/// that fails its own check cannot be rendered.
pub fn controller_to_json(c: &Controller) -> (r: Result<String, crate::error::OpenProtocolError>)
    ensures
        r is Ok <==> crate::controller::controller_wf(c@),
        r matches Ok(t) ==> t@ == ser_controller(c@),
{
    match c.check() {
        Err(e) => Err(e),
        Ok(()) => {
            let mut out: Vec<char> = Vec::new();
            emit_controller(&mut out, c);
            Ok(vec_to_string(&out))
        },
    }
}

/// Parses one controller snapshot from its JSON object text, rejecting
/// trailing input and any record that fails its own check.
pub fn controller_from_json(s: &str) -> (r: Result<Controller, crate::error::OpenProtocolError>)
    ensures
        r is Ok <==> (p_controller(s@, 0) matches Some((cv, j)) && j == s@.len()
            && crate::controller::controller_wf(cv)),
        r matches Ok(c) ==> p_controller(s@, 0) == Some((c@, s@.len() as int))
            && crate::controller::controller_wf(c@),
{
    let v = str_to_vec(s);
    match parse_controller(&v, 0) {
        Some((c, j)) => {
            if j == v.len() {
                match c.check() {
                    Ok(()) => Ok(c),
                    Err(e) => Err(e),
                }
            } else {
                Err(crate::error::OpenProtocolError::InvalidMessage)
            }
        },
        None => Err(crate::error::OpenProtocolError::InvalidMessage),
    }
}


} // verus!