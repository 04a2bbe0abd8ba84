//! Character-level scanning and emitting primitives shared by the wire codec
//! and the field validators: decimal digit runs, unsigned numbers, and quoted
//! strings with escaping.  Each parsing function comes with a lemma showing
//! that it inverts the corresponding emitter.

use vstd::prelude::*;

verus! {

use vstd::string::StrSliceExecFns;

/// Relies on `String::push`: appends exactly the one character to the end
/// of the string.
#[verifier::external_body]
pub(crate) fn push_char(s: &mut String, c: char)
    ensures
        final(s)@ == old(s)@.push(c),
{
    s.push(c)
}

/// Copies a character vector into a string.
pub fn vec_to_string(v: &Vec<char>) -> (r: String)
    ensures
        r@ == v@,
{
    let mut r = String::new();
    let mut k: usize = 0;
    while k < v.len()
        invariant
            0 <= k <= v@.len(),
            r@ == v@.subrange(0, k as int),
        decreases v@.len() - k,
    {
        push_char(&mut r, v[k]);
        proof {
            assert(v@.subrange(0, k as int).push(v@[k as int]) =~= v@.subrange(0, k as int + 1));
        }
        k = k + 1;
    }
    proof {
        assert(v@.subrange(0, v@.len() as int) =~= v@);
    }
    r
}

/// Copies the characters of a string slice into a vector.
pub fn str_to_vec(s: &str) -> (r: Vec<char>)
    ensures
        r@ == s@,
{
    let n = s.unicode_len();
    let mut r: Vec<char> = Vec::new();
    let mut k: usize = 0;
    while k < n
        invariant
            0 <= k <= n,
            n == s@.len(),
            r@ == s@.subrange(0, k as int),
        decreases n - k,
    {
        r.push(s.get_char(k));
        proof {
            assert(s@.subrange(0, k as int).push(s@[k as int]) =~= s@.subrange(0, k as int + 1));
        }
        k = k + 1;
    }
    proof {
        assert(s@.subrange(0, s@.len() as int) =~= s@);
    }
    r
}

/// Character-wise equality of two string slices.
pub fn str_eq(a: &str, b: &str) -> (r: bool)
    ensures
        r == (a@ == b@),
{
    let n = a.unicode_len();
    let m = b.unicode_len();
    if n != m {
        proof {
            assert(a@ != b@);
        }
        return false;
    }
    let mut k: usize = 0;
    while k < n
        invariant
            0 <= k <= n,
            n == a@.len(),
            n == b@.len(),
            forall|i: int| 0 <= i < k ==> a@[i] == b@[i],
        decreases n - k,
    {
        if a.get_char(k) != b.get_char(k) {
            return false;
        }
        k = k + 1;
    }
    proof {
        assert(a@ =~= b@);
    }
    true
}

/// Copies the characters of `v` in `[a, b)` into a fresh vector.
pub fn sub_vec(v: &Vec<char>, a: usize, b: usize) -> (r: Vec<char>)
    requires
        a <= b <= v@.len(),
    ensures
        r@ == v@.subrange(a as int, b as int),
{
    let mut r: Vec<char> = Vec::new();
    let mut k: usize = a;
    while k < b
        invariant
            a <= k <= b <= v@.len(),
            r@ == v@.subrange(a as int, k as int),
        decreases b - k,
    {
        r.push(v[k]);
        proof {
            assert(v@.subrange(a as int, k as int).push(v@[k as int]) =~= v@.subrange(
                a as int,
                k as int + 1,
            ));
        }
        k = k + 1;
    }
    r
}

// ---------------------------------------------------------------------------
// Digits
// ---------------------------------------------------------------------------
/// A decimal digit.
pub open spec fn is_digit(c: char) -> bool {
    '0' <= c && c <= '9'
}

/// Numeric value of a digit character.
pub open spec fn dval(c: char) -> int {
    (c as int) - 48
}

/// Digit character for a value in 0..=9.
pub open spec fn dchar(d: int) -> char {
    (d + 48) as char
}

pub proof fn lemma_dchar_dval(d: int)
    requires
        0 <= d < 10,
    ensures
        is_digit(dchar(d)),
        dval(dchar(d)) == d,
{
}

/// End of the run of digits that starts at `i`: the first position at or
/// after `i` that is past the end or does not hold a digit.
pub open spec fn digit_run_end(s: Seq<char>, i: int) -> int
    decreases s.len() - i
    when 0 <= i <= s.len()
{
    if i < s.len() && is_digit(s[i]) {
        digit_run_end(s, i + 1)
    } else {
        i
    }
}

pub proof fn lemma_digit_run_end_props(s: Seq<char>, i: int)
    requires
        0 <= i <= s.len(),
    ensures
        i <= digit_run_end(s, i) <= s.len(),
        forall|k: int| i <= k < digit_run_end(s, i) ==> is_digit(s[k]),
        digit_run_end(s, i) < s.len() ==> !is_digit(s[digit_run_end(s, i)]),
    decreases s.len() - i,
{
    if i < s.len() && is_digit(s[i]) {
        lemma_digit_run_end_props(s, i + 1);
    }
}

/// A run of digits in `[i, j)` followed by a non-digit (or the end) is
/// exactly the run that the scanner finds.
pub proof fn lemma_digit_run_end_of(s: Seq<char>, i: int, j: int)
    requires
        0 <= i <= j <= s.len(),
        forall|k: int| i <= k < j ==> is_digit(s[k]),
        j == s.len() || !is_digit(s[j]),
    ensures
        digit_run_end(s, i) == j,
    decreases j - i,
{
    if i < j {
        lemma_digit_run_end_of(s, i + 1, j);
    }
}

/// Value of the digits of `s` in `[i, j)` read as a decimal number.
pub open spec fn val_of(s: Seq<char>, i: int, j: int) -> int
    decreases j - i
    when i <= j
{
    if i >= j {
        0
    } else {
        val_of(s, i, j - 1) * 10 + dval(s[j - 1])
    }
}

pub proof fn lemma_val_of_nonneg(s: Seq<char>, i: int, j: int)
    requires
        i <= j,
        forall|k: int| i <= k < j ==> is_digit(s[k]),
    ensures
        val_of(s, i, j) >= 0,
    decreases j - i,
{
    if i < j {
        lemma_val_of_nonneg(s, i, j - 1);
    }
}

/// Reading more digits never makes the value smaller.
pub proof fn lemma_val_of_mono(s: Seq<char>, i: int, k: int, j: int)
    requires
        i <= k <= j,
        forall|m: int| i <= m < j ==> is_digit(s[m]),
    ensures
        val_of(s, i, j) >= val_of(s, i, k),
    decreases j - k,
{
    if k < j {
        lemma_val_of_mono(s, i, k, j - 1);
        lemma_val_of_nonneg(s, i, j - 1);
    }
}

// ---------------------------------------------------------------------------
// Unsigned decimal numbers
// ---------------------------------------------------------------------------
/// Canonical decimal spelling of a number: no sign, no leading zero except
/// for zero itself.
pub open spec fn ser_nat(n: int) -> Seq<char>
    decreases n
    when n >= 0
{
    if n < 10 {
        seq![dchar(n)]
    } else {
        ser_nat(n / 10).push(dchar(n % 10))
    }
}

pub proof fn lemma_ser_nat_digits(n: int)
    requires
        n >= 0,
    ensures
        ser_nat(n).len() >= 1,
        forall|k: int| 0 <= k < ser_nat(n).len() ==> is_digit(#[trigger] ser_nat(n)[k]),
    decreases n,
{
    if n < 10 {
        lemma_dchar_dval(n);
    } else {
        lemma_ser_nat_digits(n / 10);
        lemma_dchar_dval(n % 10);
    }
}

/// Reading the canonical spelling back gives the number.
pub proof fn lemma_val_of_ser_nat(s: Seq<char>, i: int, n: int)
    requires
        n >= 0,
        0 <= i,
        i + ser_nat(n).len() <= s.len(),
        s.subrange(i, i + ser_nat(n).len() as int) == ser_nat(n),
    ensures
        val_of(s, i, i + ser_nat(n).len() as int) == n,
    decreases n,
{
    let l = ser_nat(n).len() as int;
    if n < 10 {
        assert(ser_nat(n) =~= seq![dchar(n)]);
        assert(l == 1);
        assert(s.subrange(i, i + 1)[0] == dchar(n));
        assert(s[i] == s.subrange(i, i + 1)[0]);
        lemma_dchar_dval(n);
        assert(val_of(s, i, i + 1) == val_of(s, i, i) * 10 + dval(s[i]));
    } else {
        let lp = ser_nat(n / 10).len() as int;
        assert(ser_nat(n) == ser_nat(n / 10).push(dchar(n % 10)));
        assert(l == lp + 1);
        assert(s.subrange(i, i + lp) =~= ser_nat(n / 10)) by {
            assert(forall|k: int|
                0 <= k < lp ==> #[trigger] s.subrange(i, i + l)[k] == ser_nat(n / 10)[k]);
            assert(forall|k: int|
                0 <= k < lp ==> #[trigger] s.subrange(i, i + lp)[k] == s[i + k]);
            assert(forall|k: int| 0 <= k < l ==> #[trigger] s.subrange(i, i + l)[k] == s[i + k]);
        }
        lemma_val_of_ser_nat(s, i, n / 10);
        assert(s[i + l - 1] == s.subrange(i, i + l)[l - 1]);
        assert(s[i + l - 1] == dchar(n % 10));
        lemma_dchar_dval(n % 10);
        assert(val_of(s, i, i + l) == val_of(s, i, i + l - 1) * 10 + dval(s[i + l - 1]));
    }
}

/// Parse an unsigned 32-bit number: a non-empty digit run with no leading
/// zero whose value fits.  Returns the value and the position after the
/// run.
pub open spec fn p_u32(s: Seq<char>, i: int) -> Option<(u32, int)> {
    let j = digit_run_end(s, i);
    if j == i {
        None
    } else if s[i] == '0' && j > i + 1 {
        None
    } else if val_of(s, i, j) > u32::MAX {
        None
    } else {
        Some((val_of(s, i, j) as u32, j))
    }
}

/// A digit run with no leading zero is the canonical spelling of its
/// value: decimal representations are unique.
pub proof fn lemma_digits_canonical(s: Seq<char>, i: int, j: int)
    requires
        0 <= i < j <= s.len(),
        forall|k: int| i <= k < j ==> is_digit(s[k]),
        s[i] == '0' ==> j == i + 1,
    ensures
        ser_nat(val_of(s, i, j)) == s.subrange(i, j),
    decreases j - i,
{
    let v = val_of(s, i, j);
    lemma_val_of_nonneg(s, i, j);
    if j == i + 1 {
        assert(v == val_of(s, i, i) * 10 + dval(s[i]));
        assert(0 <= v < 10);
        assert(dchar(v) == s[i]);
        assert(ser_nat(v) =~= s.subrange(i, j));
    } else {
        assert(dval(s[i]) >= 1);
        lemma_val_of_mono(s, i, i + 1, j - 1);
        assert(val_of(s, i, i + 1) == val_of(s, i, i) * 10 + dval(s[i]));
        assert(val_of(s, i, j - 1) >= 1);
        let d = dval(s[j - 1]);
        assert(v == val_of(s, i, j - 1) * 10 + d);
        assert(0 <= d < 10);
        assert(v >= 10) by (nonlinear_arith)
            requires
                v == val_of(s, i, j - 1) * 10 + d,
                val_of(s, i, j - 1) >= 1,
                d >= 0,
        ;
        assert(v / 10 == val_of(s, i, j - 1) && v % 10 == d) by (nonlinear_arith)
            requires
                v == val_of(s, i, j - 1) * 10 + d,
                0 <= d < 10,
        ;
        lemma_digits_canonical(s, i, j - 1);
        assert(dchar(d) == s[j - 1]);
        assert(ser_nat(v) == ser_nat(v / 10).push(dchar(v % 10)));
        assert(s.subrange(i, j - 1).push(s[j - 1]) =~= s.subrange(i, j));
    }
}

/// The number parser accepts only the canonical spelling of the value it
/// returns.
pub proof fn lemma_p_u32_sound(s: Seq<char>, i: int, n: u32, j: int)
    requires
        0 <= i <= s.len(),
        p_u32(s, i) == Some((n, j)),
    ensures
        i < j <= s.len(),
        s.subrange(i, j) == ser_nat(n as int),
{
    lemma_digit_run_end_props(s, i);
    let v = val_of(s, i, j);
    lemma_val_of_nonneg(s, i, j);
    assert(0 <= v <= u32::MAX);
    assert(n == v as u32);
    assert(n as int == v);
    lemma_digits_canonical(s, i, j);
}

/// The canonical spelling starts with a zero only for zero itself.
pub proof fn lemma_ser_nat_no_leading_zero(n: int)
    requires
        n >= 10,
    ensures
        ser_nat(n)[0] != '0',
    decreases n,
{
    if n / 10 >= 10 {
        lemma_ser_nat_no_leading_zero(n / 10);
        assert(ser_nat(n)[0] == ser_nat(n / 10)[0]);
    } else {
        assert(1 <= n / 10 < 10);
        assert(ser_nat(n / 10) == seq![dchar(n / 10)]);
        assert(ser_nat(n)[0] == dchar(n / 10));
    }
}

/// The number parser inverts the number emitter, whatever follows, as long
/// as what follows does not begin with a digit.
pub proof fn lemma_p_u32_ser(s: Seq<char>, i: int, n: u32)
    requires
        0 <= i,
        i + ser_nat(n as int).len() <= s.len(),
        s.subrange(i, i + ser_nat(n as int).len() as int) == ser_nat(n as int),
        i + ser_nat(n as int).len() == s.len() || !is_digit(s[i + ser_nat(n as int).len()]),
    ensures
        p_u32(s, i) == Some((n, i + ser_nat(n as int).len() as int)),
{
    let l = ser_nat(n as int).len() as int;
    lemma_ser_nat_digits(n as int);
    assert forall|k: int| i <= k < i + l implies is_digit(s[k]) by {
        assert(s.subrange(i, i + l)[k - i] == s[k]);
        assert(is_digit(ser_nat(n as int)[k - i]));
    }
    lemma_digit_run_end_of(s, i, i + l);
    lemma_val_of_ser_nat(s, i, n as int);
    assert(s.subrange(i, i + l)[0] == s[i]);
    assert(s[i] == ser_nat(n as int)[0]);
    if n >= 10 {
        lemma_ser_nat_no_leading_zero(n as int);
        assert(s[i] != '0');
    } else {
        assert(l == 1);
    }
}

// ---------------------------------------------------------------------------
// Quoted strings
// ---------------------------------------------------------------------------
/// Escape a single character for a quoted string: quotes and backslashes
/// get a backslash, everything else stands as itself.
pub open spec fn esc_char(c: char) -> Seq<char> {
    if c == '"' || c == '\\' {
        seq!['\\', c]
    } else {
        seq![c]
    }
}

/// Escape a whole string.
pub open spec fn esc(t: Seq<char>) -> Seq<char>
    decreases t.len(),
{
    if t.len() == 0 {
        Seq::empty()
    } else {
        esc_char(t[0]) + esc(t.drop_first())
    }
}

/// Escaping distributes over appending one character at the end.
pub proof fn lemma_esc_snoc(t: Seq<char>, c: char)
    ensures
        esc(t.push(c)) == esc(t) + esc_char(c),
    decreases t.len(),
{
    if t.len() == 0 {
        assert(t.push(c)[0] == c);
        assert(t.push(c).drop_first() =~= Seq::<char>::empty());
        assert(esc(Seq::<char>::empty()) == Seq::<char>::empty());
        assert(esc(t.push(c)) == esc_char(c) + Seq::<char>::empty());
        assert(esc(t) == Seq::<char>::empty());
        assert(esc_char(c) + Seq::<char>::empty() =~= Seq::<char>::empty() + esc_char(c));
    } else {
        assert(t.push(c).drop_first() =~= t.drop_first().push(c));
        lemma_esc_snoc(t.drop_first(), c);
        assert(t.push(c)[0] == t[0]);
        assert(esc(t.push(c)) == esc_char(t[0]) + (esc(t.drop_first()) + esc_char(c)));
        assert(esc_char(t[0]) + (esc(t.drop_first()) + esc_char(c)) =~= (esc_char(t[0]) + esc(
            t.drop_first(),
        )) + esc_char(c));
    }
}

/// A serialized string: opening quote, escaped text, closing quote.
pub open spec fn ser_str(t: Seq<char>) -> Seq<char> {
    seq!['"'] + esc(t) + seq!['"']
}

/// Parse the body of a quoted string starting just after the opening quote.
/// Returns the unescaped text and the position just after the closing quote.
pub open spec fn p_strbody(s: Seq<char>, i: int) -> Option<(Seq<char>, int)>
    decreases s.len() - i
    when 0 <= i <= s.len()
{
    if i >= s.len() {
        None
    } else if s[i] == '"' {
        Some((Seq::empty(), i + 1))
    } else if s[i] == '\\' {
        if i + 1 < s.len() && (s[i + 1] == '"' || s[i + 1] == '\\') {
            match p_strbody(s, i + 2) {
                Some((t, j)) => Some((seq![s[i + 1]] + t, j)),
                None => None,
            }
        } else {
            None
        }
    } else {
        match p_strbody(s, i + 1) {
            Some((t, j)) => Some((seq![s[i]] + t, j)),
            None => None,
        }
    }
}

pub proof fn lemma_p_strbody_bounds(s: Seq<char>, i: int)
    requires
        0 <= i <= s.len(),
    ensures
        p_strbody(s, i) matches Some(r) ==> i < r.1 <= s.len(),
    decreases s.len() - i,
{
    if i < s.len() {
        if s[i] == '"' {
        } else if s[i] == '\\' {
            if i + 1 < s.len() && (s[i + 1] == '"' || s[i + 1] == '\\') {
                lemma_p_strbody_bounds(s, i + 2);
            }
        } else {
            lemma_p_strbody_bounds(s, i + 1);
        }
    }
}

/// A quoted string: opening quote then body.
pub open spec fn p_str(s: Seq<char>, i: int) -> Option<(Seq<char>, int)> {
    if 0 <= i && i < s.len() && s[i] == '"' {
        p_strbody(s, i + 1)
    } else {
        None
    }
}

/// The string-body parser inverts the escaper.
pub proof fn lemma_p_strbody_ser(s: Seq<char>, i: int, t: Seq<char>)
    requires
        0 <= i,
        i + esc(t).len() < s.len(),
        s.subrange(i, i + esc(t).len() as int) == esc(t),
        s[i + esc(t).len()] == '"',
    ensures
        p_strbody(s, i) == Some((t, i + esc(t).len() + 1)),
    decreases t.len(),
{
    let l = esc(t).len() as int;
    if t.len() == 0 {
        assert(s[i] == '"');
    } else {
        let c = t[0];
        let rest = t.drop_first();
        let lc = esc_char(c).len() as int;
        assert(esc(t) == esc_char(c) + esc(rest));
        assert forall|k: int| 0 <= k < l implies s[i + k] == esc(t)[k] by {
            assert(s.subrange(i, i + l)[k] == s[i + k]);
        }
        assert(s.subrange(i + lc, i + l) =~= esc(rest)) by {
            assert forall|k: int|
                0 <= k < l - lc implies #[trigger] s.subrange(i + lc, i + l)[k] == esc(rest)[k] by {
                assert(s.subrange(i + lc, i + l)[k] == s[i + lc + k]);
                assert(s[i + lc + k] == esc(t)[lc + k]);
                assert(esc(t)[lc + k] == esc(rest)[k]);
            }
        }
        lemma_p_strbody_ser(s, i + lc, rest);
        if c == '"' || c == '\\' {
            assert(s[i + 0] == esc(t)[0]);
            assert(s[i + 1] == esc(t)[1]);
            assert(s[i] == '\\');
            assert(s[i + 1] == c);
            assert(p_strbody(s, i) == Some((seq![c] + rest, i + l + 1)));
            assert(seq![c] + rest =~= t);
        } else {
            assert(s[i + 0] == esc(t)[0]);
            assert(s[i] == c);
            assert(p_strbody(s, i) == Some((seq![c] + rest, i + l + 1)));
            assert(seq![c] + rest =~= t);
        }
    }
}

/// The string parser inverts the string emitter.
pub proof fn lemma_p_str_ser(s: Seq<char>, i: int, t: Seq<char>)
    requires
        0 <= i,
        i + ser_str(t).len() <= s.len(),
        s.subrange(i, i + ser_str(t).len() as int) == ser_str(t),
    ensures
        p_str(s, i) == Some((t, i + ser_str(t).len() as int)),
{
    let l = ser_str(t).len() as int;
    let le = esc(t).len() as int;
    assert(l == le + 2);
    assert forall|k: int| 0 <= k < l implies s[i + k] == ser_str(t)[k] by {
        assert(s.subrange(i, i + l)[k] == s[i + k]);
    }
    assert(s[i + 0] == ser_str(t)[0]);
    assert(ser_str(t)[0] == '"');
    assert(s[i + (l - 1)] == ser_str(t)[l - 1]);
    assert(ser_str(t)[l - 1] == '"');
    assert(s.subrange(i + 1, i + 1 + le) =~= esc(t)) by {
        assert forall|k: int|
            0 <= k < le implies #[trigger] s.subrange(i + 1, i + 1 + le)[k] == esc(t)[k] by {
            assert(s.subrange(i + 1, i + 1 + le)[k] == s[i + (1 + k)]);
            assert(s[i + (1 + k)] == ser_str(t)[1 + k]);
            assert(ser_str(t)[1 + k] == esc(t)[k]);
        }
    }
    lemma_p_strbody_ser(s, i + 1, t);
    assert(s[i] == '"');
}

/// The string-body parser accepts only the escaped form of the text it
/// returns, up to and including the closing quote.
pub proof fn lemma_p_strbody_sound(s: Seq<char>, i: int, t: Seq<char>, j: int)
    requires
        0 <= i <= s.len(),
        p_strbody(s, i) == Some((t, j)),
    ensures
        i < j <= s.len(),
        s.subrange(i, j) == esc(t).push('"'),
    decreases s.len() - i,
{
    if s[i] == '"' {
        assert(s.subrange(i, j) =~= esc(t).push('"'));
    } else if s[i] == '\\' {
        let c = s[i + 1];
        let inner = p_strbody(s, i + 2).unwrap();
        lemma_p_strbody_sound(s, i + 2, inner.0, j);
        assert(t == seq![c] + inner.0);
        assert(t[0] == c);
        assert(t.drop_first() =~= inner.0);
        assert(esc(t) == esc_char(c) + esc(inner.0));
        assert(s.subrange(i, j) =~= esc(t).push('"'));
    } else {
        let c = s[i];
        let inner = p_strbody(s, i + 1).unwrap();
        lemma_p_strbody_sound(s, i + 1, inner.0, j);
        assert(t == seq![c] + inner.0);
        assert(t[0] == c);
        assert(t.drop_first() =~= inner.0);
        assert(esc(t) == esc_char(c) + esc(inner.0));
        assert(s.subrange(i, j) =~= esc(t).push('"'));
    }
}

/// The string parser accepts only the canonical quoted form of the text it
/// returns.
pub proof fn lemma_p_str_sound(s: Seq<char>, i: int, t: Seq<char>, j: int)
    requires
        0 <= i <= s.len(),
        p_str(s, i) == Some((t, j)),
    ensures
        i < j <= s.len(),
        s.subrange(i, j) == ser_str(t),
{
    lemma_p_strbody_sound(s, i + 1, t, j);
    assert(s[i] == '"');
    let e = esc(t);
    assert(ser_str(t).len() == e.len() + 2);
    assert(s.subrange(i + 1, j) == e.push('"'));
    assert(s.subrange(i + 1, j).len() == j - i - 1);
    assert(e.push('"').len() == e.len() + 1);
    assert(j - i == e.len() + 2);
    assert forall|k: int| 0 <= k < j - i implies #[trigger] s.subrange(i, j)[k] == ser_str(t)[k]
        by {
        if k == 0 {
            assert(ser_str(t)[0] == '"');
        } else {
            assert(s.subrange(i + 1, j)[k - 1] == s[i + k]);
            assert(s[i + k] == (e.push('"'))[k - 1]);
            if k - 1 < e.len() {
                assert((e.push('"'))[k - 1] == e[k - 1]);
                assert(ser_str(t)[k] == e[k - 1]);
            } else {
                assert(k - 1 == e.len());
                assert((e.push('"'))[k - 1] == '"');
                assert(ser_str(t)[k] == '"');
            }
        }
    }
    assert(s.subrange(i, j) =~= ser_str(t));
}

// ---------------------------------------------------------------------------
// Literal matching
// ---------------------------------------------------------------------------
/// `pat` stands in `s` at position `i`.
pub open spec fn lit_at(s: Seq<char>, i: int, pat: Seq<char>) -> bool {
    0 <= i && i + pat.len() <= s.len() && s.subrange(i, i + pat.len() as int) == pat
}

// ---------------------------------------------------------------------------
// Executable scanners and emitters
// ---------------------------------------------------------------------------
/// Digit test on a character.
pub fn is_digit_char(c: char) -> (r: bool)
    ensures
        r == is_digit(c),
{
    '0' <= c && c <= '9'
}

/// First position at or after `i` that does not hold a digit.
pub fn scan_digits(s: &Vec<char>, i: usize) -> (j: usize)
    requires
        i <= s@.len(),
    ensures
        j == digit_run_end(s@, i as int),
        i <= j <= s@.len(),
{
    proof {
        lemma_digit_run_end_props(s@, i as int);
    }
    let ghost end = digit_run_end(s@, i as int);
    let mut j = i;
    loop
        invariant
            i <= j <= s@.len(),
            end == digit_run_end(s@, i as int),
            digit_run_end(s@, j as int) == end,
        decreases s@.len() - j,
    {
        if j < s.len() && is_digit_char(s[j]) {
            proof {
                lemma_digit_run_end_props(s@, j as int + 1);
                assert(digit_run_end(s@, j as int) == digit_run_end(s@, j as int + 1));
            }
            j = j + 1;
        } else {
            proof {
                assert(digit_run_end(s@, j as int) == j as int);
            }
            return j;
        }
    }
}

/// Parses an unsigned 32-bit decimal number at `i`.
pub fn parse_u32(s: &Vec<char>, i: usize) -> (r: Option<(u32, usize)>)
    requires
        i <= s@.len(),
    ensures
        match r {
            None => p_u32(s@, i as int) is None,
            Some((v, j)) => p_u32(s@, i as int) == Some((v, j as int)) && i < j <= s@.len(),
        },
{
    let j = scan_digits(s, i);
    proof {
        lemma_digit_run_end_props(s@, i as int);
    }
    if j == i {
        return None;
    }
    if s[i] == '0' && j > i + 1 {
        return None;
    }
    let mut acc: u64 = 0;
    let mut overflow = false;
    let mut k = i;
    while k < j
        invariant
            i <= k <= j <= s@.len(),
            forall|m: int| i <= m < j ==> is_digit(s@[m]),
            !overflow ==> acc == val_of(s@, i as int, k as int) && acc <= u32::MAX,
            overflow ==> val_of(s@, i as int, k as int) > u32::MAX,
        decreases j - k,
    {
        let d: u64 = (s[k] as u64) - 48;
        proof {
            assert(is_digit(s@[k as int]));
            assert(d == dval(s@[k as int]));
        }
        if overflow {
            proof {
                lemma_val_of_nonneg(s@, i as int, k as int);
                assert(val_of(s@, i as int, k as int + 1) == val_of(s@, i as int, k as int) * 10
                    + dval(s@[k as int]));
                assert(val_of(s@, i as int, k as int) * 10 >= val_of(s@, i as int, k as int))
                    by (nonlinear_arith)
                    requires
                        val_of(s@, i as int, k as int) >= 0,
                ;
            }
        } else {
            acc = acc * 10 + d;
            if acc > 0xFFFF_FFFF {
                overflow = true;
            }
        }
        k = k + 1;
    }
    if overflow {
        proof {
            lemma_val_of_mono(s@, i as int, j as int, j as int);
        }
        None
    } else {
        Some((acc as u32, j))
    }
}

/// Emits the canonical decimal spelling of `n`.
pub fn push_u32(out: &mut Vec<char>, n: u32)
    ensures
        final(out)@ == old(out)@ + ser_nat(n as int),
    decreases n,
{
    if n < 10 {
        let c: char = ((48 + n) as u8) as char;
        proof {
            assert(c == dchar(n as int));
        }
        out.push(c);
        proof {
            assert(old(out)@.push(c) =~= old(out)@ + seq![dchar(n as int)]);
        }
    } else {
        push_u32(out, n / 10);
        let d = n % 10;
        let c: char = ((48 + d) as u8) as char;
        proof {
            assert(c == dchar(d as int));
        }
        out.push(c);
        proof {
            assert((old(out)@ + ser_nat(n as int / 10)).push(c) =~= old(out)@ + ser_nat(
                n as int,
            ));
        }
    }
}

/// Matches `pat` against `s` at position `i`.
pub fn match_lit(s: &Vec<char>, i: usize, pat: &Vec<char>) -> (b: bool)
    requires
        i <= s@.len(),
    ensures
        b == lit_at(s@, i as int, pat@),
{
    let n = s.len();
    if n - i < pat.len() {
        proof {
            assert(!lit_at(s@, i as int, pat@));
        }
        return false;
    }
    let mut k: usize = 0;
    while k < pat.len()
        invariant
            0 <= k <= pat@.len(),
            i + pat@.len() <= n,
            n == s@.len(),
            forall|m: int| 0 <= m < k ==> s@[i + m] == pat@[m],
        decreases pat@.len() - k,
    {
        if s[i + k] != pat[k] {
            proof {
                assert(s@.subrange(i as int, i + pat@.len() as int)[k as int] != pat@[k as int]);
            }
            return false;
        }
        k = k + 1;
    }
    proof {
        assert(s@.subrange(i as int, i + pat@.len() as int) =~= pat@);
    }
    true
}

/// Parses the body of a quoted string after the opening quote, returning the
/// unescaped text and the position after the closing quote.
pub fn parse_strbody(s: &Vec<char>, i: usize) -> (r: Option<(Vec<char>, usize)>)
    requires
        i <= s@.len(),
    ensures
        match r {
            None => p_strbody(s@, i as int) is None,
            Some(p) => p_strbody(s@, i as int) == Some((p.0@, p.1 as int)) && i < p.1 <= s@.len(),
        },
    decreases s@.len() - i,
{
    if i >= s.len() {
        return None;
    }
    let c = s[i];
    if c == '"' {
        let empty: Vec<char> = Vec::new();
        proof {
            assert(empty@ =~= Seq::<char>::empty());
        }
        Some((empty, i + 1))
    } else if c == '\\' {
        if i + 1 < s.len() && (s[i + 1] == '"' || s[i + 1] == '\\') {
            match parse_strbody(s, i + 2) {
                Some((mut t, j)) => {
                    let e = s[i + 1];
                    t.insert(0, e);
                    proof {
                        let inner = p_strbody(s@, i + 2).unwrap().0;
                        assert(t@ =~= seq![e] + inner);
                    }
                    Some((t, j))
                },
                None => None,
            }
        } else {
            None
        }
    } else {
        match parse_strbody(s, i + 1) {
            Some((mut t, j)) => {
                t.insert(0, c);
                proof {
                    let inner = p_strbody(s@, i + 1).unwrap().0;
                    assert(t@ =~= seq![c] + inner);
                }
                Some((t, j))
            },
            None => None,
        }
    }
}

/// Parses a quoted string at `i`.
pub fn parse_str(s: &Vec<char>, i: usize) -> (r: Option<(Vec<char>, usize)>)
    requires
        i <= s@.len(),
    ensures
        match r {
            None => p_str(s@, i as int) is None,
            Some(p) => p_str(s@, i as int) == Some((p.0@, p.1 as int)) && i < p.1 <= s@.len(),
        },
{
    if i < s.len() && s[i] == '"' {
        parse_strbody(s, i + 1)
    } else {
        None
    }
}

/// Emits `t` as a quoted string with escaping.
pub fn push_quoted(out: &mut Vec<char>, t: &Vec<char>)
    ensures
        final(out)@ == old(out)@ + ser_str(t@),
{
    out.push('"');
    let mut k: usize = 0;
    while k < t.len()
        invariant
            0 <= k <= t@.len(),
            out@ == old(out)@ + seq!['"'] + esc(t@.subrange(0, k as int)),
        decreases t@.len() - k,
    {
        let c = t[k];
        let ghost pre = t@.subrange(0, k as int);
        if c == '"' || c == '\\' {
            out.push('\\');
            out.push(c);
        } else {
            out.push(c);
        }
        proof {
            lemma_esc_snoc(pre, c);
            assert(t@.subrange(0, k as int + 1) =~= pre.push(c));
            if c == '"' || c == '\\' {
                assert((old(out)@ + seq!['"'] + esc(pre)).push('\\').push(c) =~= old(out)@
                    + seq!['"'] + esc(t@.subrange(0, k as int + 1)));
            } else {
                assert((old(out)@ + seq!['"'] + esc(pre)).push(c) =~= old(out)@ + seq!['"'] + esc(
                    t@.subrange(0, k as int + 1),
                ));
            }
        }
        k = k + 1;
    }
    out.push('"');
    proof {
        assert(t@.subrange(0, t@.len() as int) =~= t@);
        assert((old(out)@ + seq!['"'] + esc(t@)).push('"') =~= old(out)@ + ser_str(t@));
    }
}

} // verus!
