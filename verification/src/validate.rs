//! Stateless field validators: non-empty strings and the tri-format
//! controller address grammar (network `ip:port`, serial `COMn`, serial
//! `ttyNAME`), with the exact acceptance set stated as spec functions.

use vstd::prelude::*;

use crate::error::is_invalid_field;
use crate::error::OpenProtocolError;
use crate::lex::digit_run_end;
use crate::lex::is_digit;
use crate::lex::lemma_digit_run_end_props;
use crate::lex::parse_u32;
use crate::lex::scan_digits;
use crate::lex::str_to_vec;
use crate::lex::sub_vec;
use crate::lex::val_of;
use crate::lex::vec_to_string;

verus! {

use vstd::string::StringExecFns;

/// A word character, as in the serial device name grammar `tty\w+`.
pub open spec fn is_word_char(c: char) -> bool {
    is_digit(c) || ('a' <= c && c <= 'z') || ('A' <= c && c <= 'Z') || c == '_'
}

/// Serial device address: `tty` followed by at least one word character.
pub open spec fn is_tty_address(s: Seq<char>) -> bool {
    &&& s.len() >= 4
    &&& s[0] == 't'
    &&& s[1] == 't'
    &&& s[2] == 'y'
    &&& forall|k: int| 3 <= k < s.len() ==> is_word_char(s[k])
}

/// Serial device address: `COM` followed by at least one digit.
pub open spec fn is_com_address(s: Seq<char>) -> bool {
    &&& s.len() >= 4
    &&& s[0] == 'C'
    &&& s[1] == 'O'
    &&& s[2] == 'M'
    &&& forall|k: int| 3 <= k < s.len() ==> is_digit(s[k])
}

/// Syntactic shape of a network address: four runs of one to three digits
/// separated by dots, a colon, and a final run of one to five digits.
/// Returns the end positions of the four octet runs.
pub open spec fn ip_shape(s: Seq<char>) -> Option<(int, int, int, int)> {
    let e1 = digit_run_end(s, 0);
    if 1 <= e1 <= 3 && e1 < s.len() && s[e1] == '.' {
        let e2 = digit_run_end(s, e1 + 1);
        if 1 <= e2 - (e1 + 1) <= 3 && e2 < s.len() && s[e2] == '.' {
            let e3 = digit_run_end(s, e2 + 1);
            if 1 <= e3 - (e2 + 1) <= 3 && e3 < s.len() && s[e3] == '.' {
                let e4 = digit_run_end(s, e3 + 1);
                if 1 <= e4 - (e3 + 1) <= 3 && e4 < s.len() && s[e4] == ':' {
                    let e5 = digit_run_end(s, e4 + 1);
                    if 1 <= e5 - (e4 + 1) <= 5 && e5 == s.len() {
                        Some((e1, e2, e3, e4))
                    } else {
                        None
                    }
                } else {
                    None
                }
            } else {
                None
            }
        } else {
            None
        }
    } else {
        None
    }
}

/// The address has the syntactic shape of a network address.
pub open spec fn is_ip_syntax(s: Seq<char>) -> bool {
    ip_shape(s) is Some
}

/// All four octets are in 0..=255.
pub open spec fn ip_octets_ok(s: Seq<char>) -> bool {
    ip_shape(s) matches Some((e1, e2, e3, e4)) && val_of(s, 0, e1) <= 255 && val_of(
        s,
        e1 + 1,
        e2,
    ) <= 255 && val_of(s, e2 + 1, e3) <= 255 && val_of(s, e3 + 1, e4) <= 255
}

/// The port value of a shaped network address.
pub open spec fn ip_port_value(s: Seq<char>) -> int {
    let e4 = ip_shape(s).unwrap().3;
    val_of(s, e4 + 1, s.len() as int)
}

/// A valid network address: shaped, octets in range, and a port in
/// 1..=65535 (a zero port is forbidden).
pub open spec fn is_valid_ip_address(s: Seq<char>) -> bool {
    is_ip_syntax(s) && ip_octets_ok(s) && 1 <= ip_port_value(s) <= 65535
}

/// The tri-format address grammar, first match wins: a string shaped like a
/// network address must be a fully valid one, otherwise one of the two
/// serial forms is accepted.
pub open spec fn is_valid_address(s: Seq<char>) -> bool {
    if is_ip_syntax(s) {
        ip_octets_ok(s) && 1 <= ip_port_value(s) <= 65535
    } else {
        is_tty_address(s) || is_com_address(s)
    }
}

/// Fails with an invalid-field error when `s` is empty.
pub fn check_string_empty(s: &str, field: &str) -> (r: Result<(), OpenProtocolError>)
    ensures
        r is Ok <==> s@.len() > 0,
        r matches Err(e) ==> is_invalid_field(e, field@, s@, "cannot be empty"@),
{
    if s.is_empty() {
        Err(
            OpenProtocolError::InvalidField {
                field: String::from_str(field),
                value: String::from_str(s),
                description: String::from_str("cannot be empty"),
            },
        )
    } else {
        Ok(())
    }
}

/// Fails with an invalid-field error when the option holds an empty string.
pub fn check_optional_str_empty(o: &Option<String>, field: &str) -> (r: Result<
    (),
    OpenProtocolError,
>)
    ensures
        r is Ok <==> (o matches Some(s) ==> s@.len() > 0),
        r matches Err(e) ==> is_invalid_field(e, field@, Seq::empty(), "cannot be empty"@),
{
    match o {
        Some(s) => {
            if s.as_str().is_empty() {
                Err(
                    OpenProtocolError::InvalidField {
                        field: String::from_str(field),
                        value: String::new(),
                        description: String::from_str("cannot be empty"),
                    },
                )
            } else {
                Ok(())
            }
        },
        None => Ok(()),
    }
}

/// Validates a controller address against the tri-format grammar.
///
/// A string shaped like `d.d.d.d:d` must parse as a real IPv4 address and a
/// non-zero 16-bit port; any failure there is a hard error and the serial
/// forms are not tried.  Anything else must be a `tty` or `COM` device name.
pub fn check_address(address: &str) -> (r: Result<(), OpenProtocolError>)
    ensures
        r is Ok <==> is_valid_address(address@),
        r matches Err(e) ==> ({
            let s = address@;
            if !is_ip_syntax(s) {
                is_invalid_field(e, "ip"@, s, Seq::empty())
            } else if !ip_octets_ok(s) {
                let e4 = ip_shape(s).unwrap().3;
                is_invalid_field(
                    e,
                    "ip[address]"@,
                    s.subrange(0, e4),
                    "not a valid IPv4 address"@,
                )
            } else if ip_port_value(s) == 0 {
                let e4 = ip_shape(s).unwrap().3;
                is_invalid_field(
                    e,
                    "ip[port]"@,
                    s.subrange(e4 + 1, s.len() as int),
                    "IP port cannot be zero."@,
                )
            } else {
                let e4 = ip_shape(s).unwrap().3;
                is_invalid_field(
                    e,
                    "ip[port]"@,
                    s.subrange(e4 + 1, s.len() as int),
                    "not a valid IP port"@,
                )
            }
        }),
{
    let v = str_to_vec(address);
    match check_ip_address(&v) {
        IpCheck::NotIpShaped => {
            if check_tty(&v) || check_com(&v) {
                Ok(())
            } else {
                proof {
                    reveal_strlit("");
                    assert(""@ =~= Seq::<char>::empty());
                }
                Err(
                    OpenProtocolError::InvalidField {
                        field: String::from_str("ip"),
                        value: String::from_str(address),
                        description: String::new(),
                    },
                )
            }
        },
        IpCheck::BadOctet(e4) => Err(
            OpenProtocolError::InvalidField {
                field: String::from_str("ip[address]"),
                value: vec_to_string(&sub_vec(&v, 0, e4)),
                description: String::from_str("not a valid IPv4 address"),
            },
        ),
        IpCheck::ZeroPort(e4) => Err(
            OpenProtocolError::InvalidField {
                field: String::from_str("ip[port]"),
                value: vec_to_string(&sub_vec(&v, e4 + 1, v.len())),
                description: String::from_str("IP port cannot be zero."),
            },
        ),
        IpCheck::BadPort(e4) => Err(
            OpenProtocolError::InvalidField {
                field: String::from_str("ip[port]"),
                value: vec_to_string(&sub_vec(&v, e4 + 1, v.len())),
                description: String::from_str("not a valid IP port"),
            },
        ),
        IpCheck::Valid => Ok(()),
    }
}

/// Outcome of checking the network-address form against `v`.
enum IpCheck {
    /// The string does not have the `d.d.d.d:d` shape at all.
    NotIpShaped,
    /// Shaped, but an octet is out of range; holds the end of the quad.
    BadOctet(usize),
    /// Shaped with valid octets, but the port is zero.
    ZeroPort(usize),
    /// Shaped with valid octets, but the port is over 65535.
    BadPort(usize),
    /// A fully valid network address.
    Valid,
}

impl IpCheck {
    /// The classification `self` stands for, relative to the input `s`.
    spec fn matches_spec(self, s: Seq<char>) -> bool {
        match self {
            IpCheck::NotIpShaped => !is_ip_syntax(s),
            IpCheck::BadOctet(e4) => is_ip_syntax(s) && !ip_octets_ok(s) && e4 == ip_shape(
                s,
            ).unwrap().3,
            IpCheck::ZeroPort(e4) => is_ip_syntax(s) && ip_octets_ok(s) && ip_port_value(s) == 0
                && e4 == ip_shape(s).unwrap().3,
            IpCheck::BadPort(e4) => is_ip_syntax(s) && ip_octets_ok(s) && ip_port_value(s) > 65535
                && e4 == ip_shape(s).unwrap().3,
            IpCheck::Valid => is_valid_ip_address(s),
        }
    }
}

/// Scans one octet run starting at `i`: a run of one to three digits.
/// Returns the run end when the run is well-sized.
fn scan_octet_run(v: &Vec<char>, i: usize) -> (r: Option<usize>)
    requires
        i <= v@.len(),
    ensures
        match r {
            Some(e) => e == digit_run_end(v@, i as int) && 1 <= e - i <= 3 && e <= v@.len(),
            None => !(1 <= digit_run_end(v@, i as int) - i <= 3),
        },
{
    let e = scan_digits(v, i);
    if e - i >= 1 && e - i <= 3 {
        Some(e)
    } else {
        None
    }
}

/// Classifies `v` against the network-address form.
fn check_ip_address(v: &Vec<char>) -> (r: IpCheck)
    ensures
        r.matches_spec(v@),
{
    let s = v;
    let ghost sq = v@;
    let e1 = match scan_octet_run(s, 0) {
        Some(e) => e,
        None => {
            return IpCheck::NotIpShaped;
        },
    };
    if !(e1 < s.len() && s[e1] == '.') {
        return IpCheck::NotIpShaped;
    }
    let e2 = match scan_octet_run(s, e1 + 1) {
        Some(e) => e,
        None => {
            return IpCheck::NotIpShaped;
        },
    };
    if !(e2 < s.len() && s[e2] == '.') {
        return IpCheck::NotIpShaped;
    }
    let e3 = match scan_octet_run(s, e2 + 1) {
        Some(e) => e,
        None => {
            return IpCheck::NotIpShaped;
        },
    };
    if !(e3 < s.len() && s[e3] == '.') {
        return IpCheck::NotIpShaped;
    }
    let e4 = match scan_octet_run(s, e3 + 1) {
        Some(e) => e,
        None => {
            return IpCheck::NotIpShaped;
        },
    };
    if !(e4 < s.len() && s[e4] == ':') {
        return IpCheck::NotIpShaped;
    }
    let e5 = scan_digits(s, e4 + 1);
    if !(1 <= e5 - (e4 + 1) && e5 - (e4 + 1) <= 5 && e5 == s.len()) {
        return IpCheck::NotIpShaped;
    }
    proof {
        assert(ip_shape(sq) == Some((e1 as int, e2 as int, e3 as int, e4 as int)));
    }
    // The shape holds; now the semantic checks.
    let o1 = parse_run_value(s, 0, e1);
    let o2 = parse_run_value(s, e1 + 1, e2);
    let o3 = parse_run_value(s, e2 + 1, e3);
    let o4 = parse_run_value(s, e3 + 1, e4);
    if o1 > 255 || o2 > 255 || o3 > 255 || o4 > 255 {
        return IpCheck::BadOctet(e4);
    }
    let port = parse_run_value(s, e4 + 1, e5);
    if port == 0 {
        IpCheck::ZeroPort(e4)
    } else if port > 65535 {
        IpCheck::BadPort(e4)
    } else {
        IpCheck::Valid
    }
}

/// Value of the digit run `[i, j)`, which holds at most five digits.
fn parse_run_value(v: &Vec<char>, i: usize, j: usize) -> (r: u32)
    requires
        i <= j <= v@.len(),
        j == digit_run_end(v@, i as int),
        1 <= j - i <= 5,
    ensures
        r == val_of(v@, i as int, j as int),
{
    proof {
        lemma_digit_run_end_props(v@, i as int);
    }
    let mut acc: u32 = 0;
    let mut k = i;
    while k < j
        invariant
            i <= k <= j <= v@.len(),
            j - i <= 5,
            forall|m: int| i <= m < j ==> is_digit(v@[m]),
            acc == val_of(v@, i as int, k as int),
            acc < 100000,
        decreases j - k,
    {
        proof {
            lemma_run_value_bound(v@, i as int, k as int + 1);
        }
        let d: u32 = (v[k] as u32) - 48;
        acc = acc * 10 + d;
        k = k + 1;
    }
    acc
}

/// Powers of ten, for the run-value bound.
spec fn pow10(k: int) -> int
    decreases k
    when k >= 0
{
    if k <= 0 {
        1
    } else {
        10 * pow10(k - 1)
    }
}

/// A digit run of at most five digits has a value under 100000.
proof fn lemma_run_value_bound(s: Seq<char>, i: int, j: int)
    requires
        0 <= i <= j <= s.len(),
        j - i <= 5,
        forall|k: int| i <= k < j ==> is_digit(s[k]),
    ensures
        0 <= val_of(s, i, j) < 100000,
{
    lemma_run_value_bound_rec(s, i, j, 5);
    assert(pow10(0) == 1);
    assert(pow10(1) == 10);
    assert(pow10(2) == 100);
    assert(pow10(3) == 1000);
    assert(pow10(4) == 10000);
    assert(pow10(5) == 100000);
}

proof fn lemma_run_value_bound_rec(s: Seq<char>, i: int, j: int, b: int)
    requires
        0 <= i <= j <= s.len(),
        0 <= b,
        j - i <= b,
        forall|k: int| i <= k < j ==> is_digit(s[k]),
    ensures
        0 <= val_of(s, i, j) < pow10(b),
    decreases b,
{
    if i >= j {
        lemma_pow10_positive(b);
    } else {
        lemma_run_value_bound_rec(s, i, j - 1, b - 1);
        assert(pow10(b) == 10 * pow10(b - 1));
        assert(val_of(s, i, j) == val_of(s, i, j - 1) * 10 + dval_at(s, j - 1));
        assert(0 <= dval_at(s, j - 1) <= 9);
        assert(val_of(s, i, j - 1) * 10 + 9 < 10 * pow10(b - 1)) by (nonlinear_arith)
            requires
                val_of(s, i, j - 1) < pow10(b - 1),
                val_of(s, i, j - 1) >= 0,
        ;
    }
}

proof fn lemma_pow10_positive(b: int)
    requires
        b >= 0,
    ensures
        pow10(b) >= 1,
    decreases b,
{
    if b > 0 {
        lemma_pow10_positive(b - 1);
    }
}

/// Digit value at one position, named so the bound lemma can speak of it.
spec fn dval_at(s: Seq<char>, k: int) -> int {
    crate::lex::dval(s[k])
}

/// Tests the `tty` serial form.
fn check_tty(v: &Vec<char>) -> (r: bool)
    ensures
        r == is_tty_address(v@),
{
    if v.len() < 4 {
        return false;
    }
    if !(v[0] == 't' && v[1] == 't' && v[2] == 'y') {
        return false;
    }
    let mut k: usize = 3;
    while k < v.len()
        invariant
            3 <= k <= v@.len(),
            v@.len() >= 4,
            forall|m: int| 3 <= m < k ==> is_word_char(v@[m]),
        decreases v@.len() - k,
    {
        let c = v[k];
        let word = ('0' <= c && c <= '9') || ('a' <= c && c <= 'z') || ('A' <= c && c <= 'Z') || c
            == '_';
        if !word {
            return false;
        }
        k = k + 1;
    }
    true
}

/// Tests the `COM` serial form.
fn check_com(v: &Vec<char>) -> (r: bool)
    ensures
        r == is_com_address(v@),
{
    if v.len() < 4 {
        return false;
    }
    if !(v[0] == 'C' && v[1] == 'O' && v[2] == 'M') {
        return false;
    }
    let mut k: usize = 3;
    while k < v.len()
        invariant
            3 <= k <= v@.len(),
            v@.len() >= 4,
            forall|m: int| 3 <= m < k ==> is_digit(v@[m]),
        decreases v@.len() - k,
    {
        let c = v[k];
        if !('0' <= c && c <= '9') {
            return false;
        }
        k = k + 1;
    }
    true
}

} // verus!
