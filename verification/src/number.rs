//! Finite real numbers as validated decimal numerals.  NaN and the two
//! infinities have no numeral, so a value of this type is finite by
//! construction; the wire codec carries the numeral through verbatim.

use vstd::prelude::*;

use crate::error::is_invalid_field;
use crate::error::OpenProtocolError;
use crate::lex::digit_run_end;
use crate::lex::str_to_vec;

verus! {

use vstd::string::StringExecFns;

/// The numeral grammar: an optional minus sign, at least one digit, and an
/// optional fraction of at least one digit.
pub open spec fn is_decimal_text(s: Seq<char>) -> bool {
    let b: int = if s.len() > 0 && s[0] == '-' {
        1
    } else {
        0
    };
    let e1 = digit_run_end(s, b);
    &&& e1 > b
    &&& (e1 == s.len() || (s[e1] == '.' && e1 + 1 < s.len() && digit_run_end(s, e1 + 1)
        == s.len()))
}

/// Tests the numeral grammar on a character vector.
pub fn decimal_text_ok(v: &Vec<char>) -> (r: bool)
    ensures
        r == is_decimal_text(v@),
{
    let b: usize = if v.len() > 0 && v[0] == '-' {
        1
    } else {
        0
    };
    let e1 = crate::lex::scan_digits(v, b);
    if e1 == b {
        false
    } else if e1 == v.len() {
        true
    } else if v[e1] == '.' && e1 + 1 < v.len() {
        let e2 = crate::lex::scan_digits(v, e1 + 1);
        e2 == v.len()
    } else {
        false
    }
}

/// A finite real number, held as the decimal numeral that names it.
#[derive(Debug, PartialEq, Eq)]
pub struct Decimal {
    text: String,
}

impl Clone for Decimal {
    /// The clone holds the same numeral.
    fn clone(&self) -> (r: Self)
        ensures
            r == *self,
    {
        proof {
            use_type_invariant(self);
        }
        Decimal { text: self.text.clone() }
    }
}

impl View for Decimal {
    type V = Seq<char>;

    closed spec fn view(&self) -> Seq<char> {
        self.text@
    }
}

impl Decimal {
    /// Every held numeral satisfies the grammar.
    #[verifier::type_invariant]
    pub open spec fn wf(self) -> bool {
        is_decimal_text(self@)
    }

    /// Builds a number from its numeral, rejecting anything that is not a
    /// finite decimal numeral.
    pub fn from_text(text: String) -> (r: Result<Decimal, OpenProtocolError>)
        ensures
            r is Ok <==> is_decimal_text(text@),
            r matches Ok(d) ==> d@ == text@,
            r matches Err(e) ==> is_invalid_field(e, "number"@, text@, "not a finite number"@),
    {
        let v = str_to_vec(text.as_str());
        if decimal_text_ok(&v) {
            Ok(Decimal { text })
        } else {
            Err(
                OpenProtocolError::InvalidField {
                    field: String::from_str("number"),
                    value: text,
                    description: String::from_str("not a finite number"),
                },
            )
        }
    }

    /// Builds a number from a numeral already known to be valid.
    pub fn from_valid(text: String) -> (r: Decimal)
        requires
            is_decimal_text(text@),
        ensures
            r@ == text@,
    {
        Decimal { text }
    }

    /// The numeral.
    pub fn as_str(&self) -> (r: &str)
        ensures
            r@ == self@,
            is_decimal_text(self@),
    {
        proof {
            use_type_invariant(self);
        }
        self.text.as_str()
    }
}

// ---------------------------------------------------------------------------
// The numeral on the wire
// ---------------------------------------------------------------------------
/// Parses a numeral at `i`: an optional minus sign, a digit run, and an
/// optional fraction.  Returns the numeral text and the end position.
pub open spec fn p_num(s: Seq<char>, i: int) -> Option<(Seq<char>, int)> {
    if 0 <= i <= s.len() {
        let b: int = if i < s.len() && s[i] == '-' {
            i + 1
        } else {
            i
        };
        let e1 = digit_run_end(s, b);
        if e1 == b {
            None
        } else if e1 < s.len() && s[e1] == '.' {
            let e2 = digit_run_end(s, e1 + 1);
            if e2 == e1 + 1 {
                None
            } else {
                Some((s.subrange(i, e2), e2))
            }
        } else {
            Some((s.subrange(i, e1), e1))
        }
    } else {
        None
    }
}

/// The numeral parser reads back exactly a valid numeral placed at `i`,
/// as long as what follows cannot extend it.
pub proof fn lemma_p_num_ser(s: Seq<char>, i: int, t: Seq<char>)
    requires
        is_decimal_text(t),
        0 <= i,
        i + t.len() <= s.len(),
        s.subrange(i, i + t.len() as int) == t,
        i + t.len() == s.len() || (!crate::lex::is_digit(s[i + t.len()]) && s[i + t.len()]
            != '.'),
    ensures
        p_num(s, i) == Some((t, i + t.len() as int)),
{
    let l = t.len() as int;
    assert forall|k: int| 0 <= k < l implies s[i + k] == t[k] by {
        assert(s.subrange(i, i + l)[k] == s[i + k]);
    }
    let tb: int = if t.len() > 0 && t[0] == '-' {
        1
    } else {
        0
    };
    let te1 = digit_run_end(t, tb);
    crate::lex::lemma_digit_run_end_props(t, tb);
    let b: int = i + tb;
    if tb == 1 {
        assert(s[i + 0] == t[0]);
        assert(s[i] == '-');
    } else {
        if i < s.len() && s[i] == '-' {
            // The first character of t is a digit or t is empty; both
            // contradict a minus sign standing at i.
            assert(s[i + 0] == t[0]);
            assert(false);
        }
    }
    // The integer-part digit run of s mirrors that of t.
    assert forall|k: int| b <= k < i + te1 implies crate::lex::is_digit(s[k]) by {
        assert(s[i + (k - i)] == t[k - i]);
    }
    if te1 == t.len() {
        crate::lex::lemma_digit_run_end_of(s, b, i + te1);
        assert(digit_run_end(s, b) == i + te1);
        assert(s.subrange(i, i + te1) == t);
    } else {
        assert(t[te1] == '.');
        assert(s[i + te1] == t[te1]);
        crate::lex::lemma_digit_run_end_of(s, b, i + te1);
        let te2 = digit_run_end(t, te1 + 1);
        crate::lex::lemma_digit_run_end_props(t, te1 + 1);
        assert(te2 == t.len());
        assert forall|k: int| i + te1 + 1 <= k < i + te2 implies crate::lex::is_digit(s[k]) by {
            assert(s[i + (k - i)] == t[k - i]);
        }
        crate::lex::lemma_digit_run_end_of(s, i + te1 + 1, i + te2);
        assert(s.subrange(i, i + te2) == t);
    }
}

/// Parses a numeral at `i` into a number value.
pub fn parse_num(v: &Vec<char>, i: usize) -> (r: Option<(Decimal, usize)>)
    requires
        i <= v@.len(),
    ensures
        match r {
            Some((d, j)) => p_num(v@, i as int) == Some((d@, j as int)) && i < j <= v@.len(),
            None => p_num(v@, i as int) is None,
        },
{
    let b: usize = if i < v.len() && v[i] == '-' {
        i + 1
    } else {
        i
    };
    let e1 = crate::lex::scan_digits(v, b);
    if e1 == b {
        return None;
    }
    if e1 < v.len() && v[e1] == '.' {
        let e2 = crate::lex::scan_digits(v, e1 + 1);
        if e2 == e1 + 1 {
            None
        } else {
            let text = crate::lex::vec_to_string(&crate::lex::sub_vec(v, i, e2));
            proof {
                crate::lex::lemma_digit_run_end_props(v@, b as int);
                crate::lex::lemma_digit_run_end_props(v@, e1 as int + 1);
                assert(is_decimal_text(v@.subrange(i as int, e2 as int))) by {
                    let t = v@.subrange(i as int, e2 as int);
                    let tb: int = if t.len() > 0 && t[0] == '-' {
                        1
                    } else {
                        0
                    };
                    assert(t[0] == v@[i as int]);
                    assert(tb == b - i);
                    assert forall|k: int| tb <= k < e1 - i implies crate::lex::is_digit(t[k]) by {
                        assert(t[k] == v@[i + k]);
                    }
                    assert(!crate::lex::is_digit(t[e1 - i]));
                    crate::lex::lemma_digit_run_end_of(t, tb, e1 - i);
                    assert forall|k: int| e1 - i + 1 <= k < t.len() implies crate::lex::is_digit(
                        t[k],
                    ) by {
                        assert(t[k] == v@[i + k]);
                    }
                    crate::lex::lemma_digit_run_end_of(t, e1 - i + 1, t.len() as int);
                }
            }
            let d = Decimal::from_valid(text);
            Some((d, e2))
        }
    } else {
        let text = crate::lex::vec_to_string(&crate::lex::sub_vec(v, i, e1));
        proof {
            crate::lex::lemma_digit_run_end_props(v@, b as int);
            assert(is_decimal_text(v@.subrange(i as int, e1 as int))) by {
                let t = v@.subrange(i as int, e1 as int);
                let tb: int = if t.len() > 0 && t[0] == '-' {
                    1
                } else {
                    0
                };
                assert(t[0] == v@[i as int]);
                assert(tb == b - i);
                assert forall|k: int| tb <= k < t.len() implies crate::lex::is_digit(t[k]) by {
                    assert(t[k] == v@[i + k]);
                }
                crate::lex::lemma_digit_run_end_of(t, tb, t.len() as int);
            }
        }
        let d = Decimal::from_valid(text);
        Some((d, e1))
    }
}

} // verus!
