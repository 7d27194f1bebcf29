//! Human size literals ("100MB", "1.5 g") and their formatting.
use vstd::prelude::*;
use vstd::arithmetic::div_mod::{lemma_div_denominator, lemma_div_is_ordered, lemma_hoist_over_denominator};
use crate::text::{
    all_digits, chars_of, concat_str, decimal, decimal_string, digit_char, digit_to_char, digit_value,
    digits_value, is_digit, push_char, string_of,
};

verus! {

pub const U64_MAX: u64 = 0xffff_ffff_ffff_ffff;

/// Unicode white space, as `char::is_whitespace` understands it.
pub open spec fn is_space(c: char) -> bool {
    ('\t' <= c && c <= '\r') || c == ' ' || c == '\u{85}' || c == '\u{a0}' || c == '\u{1680}'
        || ('\u{2000}' <= c && c <= '\u{200a}') || c == '\u{2028}' || c == '\u{2029}'
        || c == '\u{202f}' || c == '\u{205f}' || c == '\u{3000}'
}

fn is_space_char(c: char) -> (r: bool)
    ensures
        r == is_space(c),
{
    ('\t' <= c && c <= '\r') || c == ' ' || c == '\u{85}' || c == '\u{a0}' || c == '\u{1680}'
        || ('\u{2000}' <= c && c <= '\u{200a}') || c == '\u{2028}' || c == '\u{2029}'
        || c == '\u{202f}' || c == '\u{205f}' || c == '\u{3000}'
}

pub open spec fn trim_start(s: Seq<char>) -> Seq<char>
    decreases s.len(),
{
    if s.len() > 0 && is_space(s[0]) {
        trim_start(s.drop_first())
    } else {
        s
    }
}

pub open spec fn trim_end(s: Seq<char>) -> Seq<char>
    decreases s.len(),
{
    if s.len() > 0 && is_space(s.last()) {
        trim_end(s.drop_last())
    } else {
        s
    }
}

/// `s` without leading and trailing white space.
pub open spec fn trim(s: Seq<char>) -> Seq<char> {
    trim_end(trim_start(s))
}

/// The number of leading decimal digits of `s`.
pub open spec fn lead_digits(s: Seq<char>) -> nat
    decreases s.len(),
{
    if s.len() > 0 && is_digit(s[0]) {
        1 + lead_digits(s.drop_first())
    } else {
        0
    }
}

pub open spec fn pow10(n: nat) -> nat
    decreases n,
{
    if n == 0 {
        1
    } else {
        10 * pow10((n - 1) as nat)
    }
}

/// The integer digits of a trimmed size literal.
pub open spec fn int_part(t: Seq<char>) -> Seq<char> {
    t.take(lead_digits(t) as int)
}

pub open spec fn has_dot(t: Seq<char>) -> bool {
    lead_digits(t) < t.len() && t[lead_digits(t) as int] == '.'
}

/// The fraction digits (after the one `.`) of a trimmed size literal.
pub open spec fn frac_part(t: Seq<char>) -> Seq<char> {
    if has_dot(t) {
        let rest = t.skip(lead_digits(t) + 1int);
        rest.take(lead_digits(rest) as int)
    } else {
        Seq::empty()
    }
}

/// Where the numeric prefix of a trimmed size literal ends.
pub open spec fn num_end(t: Seq<char>) -> int {
    if has_dot(t) {
        lead_digits(t) + 1int + frac_part(t).len()
    } else {
        lead_digits(t) as int
    }
}

/// The unit suffix of a trimmed size literal, itself trimmed.
pub open spec fn unit_part(t: Seq<char>) -> Seq<char> {
    trim(t.skip(num_end(t)))
}

pub open spec fn letter_is(c: char, upper: char, lower: char) -> bool {
    c == upper || c == lower
}

/// The factor of a unit: B, K/KB, M/MB, G/GB, T/TB in any case, or none for bytes.
pub open spec fn unit_factor(u: Seq<char>) -> Option<nat> {
    let scale = |c: char|
        if letter_is(c, 'B', 'b') { Some(1nat) }
        else if letter_is(c, 'K', 'k') { Some(1024nat) }
        else if letter_is(c, 'M', 'm') { Some(1048576nat) }
        else if letter_is(c, 'G', 'g') { Some(1073741824nat) }
        else if letter_is(c, 'T', 't') { Some(1099511627776nat) }
        else { None::<nat> };
    if u.len() == 0 {
        Some(1)
    } else if u.len() == 1 {
        scale(u[0])
    } else if u.len() == 2 && letter_is(u[1], 'B', 'b') && !letter_is(u[0], 'B', 'b') {
        scale(u[0])
    } else {
        None
    }
}

/// What a size literal stands for.
pub enum SizeOutcome {
    Bytes(nat),
    /// the numeric prefix holds no digit
    BadNumber,
    /// the suffix is no known unit
    BadUnit,
}

/// `(whole.frac) * factor`, rounded toward zero and saturated at `u64::MAX`.
pub open spec fn scaled_size(whole: Seq<char>, frac: Seq<char>, factor: nat) -> nat {
    let d = frac.len();
    let exact = ((digits_value(whole) * pow10(d) + digits_value(frac)) * factor) / pow10(d);
    if exact > U64_MAX as nat { U64_MAX as nat } else { exact }
}

/// The meaning of the size literal `s`.
pub open spec fn size_outcome(s: Seq<char>) -> SizeOutcome {
    let t = trim(s);
    if t.len() == 0 {
        SizeOutcome::Bytes(0)
    } else if int_part(t).len() + frac_part(t).len() == 0 {
        SizeOutcome::BadNumber
    } else {
        match unit_factor(unit_part(t)) {
            None => SizeOutcome::BadUnit,
            Some(f) => SizeOutcome::Bytes(scaled_size(int_part(t), frac_part(t), f)),
        }
    }
}

/// The numeric prefix of a trimmed size literal, as written.
pub open spec fn number_text(t: Seq<char>) -> Seq<char> {
    t.take(num_end(t))
}

pub open spec fn bad_number_message(s: Seq<char>) -> Seq<char> {
    "invalid size number: "@ + number_text(trim(s))
}

pub open spec fn bad_unit_message(s: Seq<char>) -> Seq<char> {
    "unsupported size unit: "@ + unit_part(trim(s))
}

/// The message `parse_size` gives for an invalid literal `s`.
pub open spec fn size_error_message(s: Seq<char>) -> Seq<char> {
    if size_outcome(s) is BadNumber { bad_number_message(s) } else { bad_unit_message(s) }
}

/// Result of `parse_size` on `s`: the byte count, or the message that names what is wrong.
pub open spec fn parse_size_spec(s: Seq<char>, r: Result<u64, String>) -> bool {
    match size_outcome(s) {
        SizeOutcome::Bytes(n) => r == Ok::<u64, String>(n as u64),
        SizeOutcome::BadNumber => r is Err && r->Err_0@ == bad_number_message(s),
        SizeOutcome::BadUnit => r is Err && r->Err_0@ == bad_unit_message(s),
    }
}

proof fn lemma_trim_start(s: Seq<char>, lo: int)
    requires
        0 <= lo <= s.len(),
        forall|i: int| 0 <= i < lo ==> is_space(#[trigger] s[i]),
        lo == s.len() || !is_space(s[lo]),
    ensures
        trim_start(s) == s.skip(lo),
    decreases lo,
{
    if lo == 0 {
        assert(s.skip(0) =~= s);
    } else {
        let t = s.drop_first();
        assert forall|i: int| 0 <= i < lo - 1 implies is_space(#[trigger] t[i]) by {
            assert(t[i] == s[i + 1]);
        }
        lemma_trim_start(t, lo - 1);
        assert(t.skip(lo - 1) =~= s.skip(lo));
    }
}

proof fn lemma_trim_end(s: Seq<char>, hi: int)
    requires
        0 <= hi <= s.len(),
        forall|i: int| hi <= i < s.len() ==> is_space(#[trigger] s[i]),
        hi == 0 || !is_space(s[hi - 1]),
    ensures
        trim_end(s) == s.take(hi),
    decreases s.len() - hi,
{
    if hi == s.len() {
        assert(s.take(hi) =~= s);
    } else {
        let t = s.drop_last();
        assert forall|i: int| hi <= i < t.len() implies is_space(#[trigger] t[i]) by {
            assert(t[i] == s[i]);
        }
        lemma_trim_end(t, hi);
        assert(t.take(hi) =~= s.take(hi));
    }
}

/// Bounds of `trim(v[a..b])` inside `v`.
fn trim_bounds(v: &Vec<char>, a: usize, b: usize) -> (r: (usize, usize))
    requires
        a <= b <= v.len(),
    ensures
        a <= r.0 <= r.1 <= b,
        v@.subrange(r.0 as int, r.1 as int) == trim(v@.subrange(a as int, b as int)),
        r.0 < r.1 ==> !is_space(v@[r.0 as int]) && !is_space(v@[r.1 - 1]),
{
    let ghost s = v@.subrange(a as int, b as int);
    let mut lo: usize = a;
    while lo < b && is_space_char(v[lo])
        invariant
            a <= lo <= b <= v.len(),
            forall|i: int| a <= i < lo ==> is_space(#[trigger] v@[i]),
        decreases b - lo,
    {
        lo = lo + 1;
    }
    proof {
        assert forall|i: int| 0 <= i < lo - a implies is_space(#[trigger] s[i]) by {
            assert(s[i] == v@[i + a]);
        }
        lemma_trim_start(s, lo - a);
    }
    let mut hi: usize = b;
    while hi > lo && is_space_char(v[hi - 1])
        invariant
            a <= lo <= hi <= b <= v.len(),
            forall|i: int| hi <= i < b ==> is_space(#[trigger] v@[i]),
        decreases hi,
    {
        hi = hi - 1;
    }
    proof {
        let t = s.skip(lo - a);
        assert forall|i: int| hi - lo <= i < t.len() implies is_space(#[trigger] t[i]) by {
            assert(t[i] == v@[i + lo]);
        }
        if hi > lo {
            assert(t[hi - lo - 1] == v@[hi - 1]);
        }
        lemma_trim_end(t, hi - lo);
        assert(t.take(hi - lo) =~= v@.subrange(lo as int, hi as int));
    }
    (lo, hi)
}

proof fn lemma_lead_digits(s: Seq<char>, n: int)
    requires
        0 <= n <= s.len(),
        forall|i: int| 0 <= i < n ==> is_digit(#[trigger] s[i]),
        n == s.len() || !is_digit(s[n]),
    ensures
        lead_digits(s) == n,
    decreases n,
{
    if n > 0 {
        let t = s.drop_first();
        assert forall|i: int| 0 <= i < n - 1 implies is_digit(#[trigger] t[i]) by {
            assert(t[i] == s[i + 1]);
        }
        lemma_lead_digits(t, n - 1);
    }
}

/// `lead_digits(v[a..b])`.
fn count_digits(v: &Vec<char>, a: usize, b: usize) -> (n: usize)
    requires
        a <= b <= v.len(),
    ensures
        a + n <= b,
        n == lead_digits(v@.subrange(a as int, b as int)),
        all_digits(v@.subrange(a as int, a + n)),
{
    let mut i: usize = a;
    while i < b && '0' <= v[i] && v[i] <= '9'
        invariant
            a <= i <= b <= v.len(),
            forall|j: int| a <= j < i ==> is_digit(#[trigger] v@[j]),
        decreases b - i,
    {
        i = i + 1;
    }
    proof {
        let s = v@.subrange(a as int, b as int);
        assert forall|j: int| 0 <= j < i - a implies is_digit(#[trigger] s[j]) by {
            assert(s[j] == v@[j + a]);
        }
        lemma_lead_digits(s, i - a);
        let p = v@.subrange(a as int, i as int);
        assert forall|j: int| 0 <= j < p.len() implies is_digit(#[trigger] p[j]) by {
            assert(p[j] == v@[j + a]);
        }
    }
    i - a
}

/// The value of `int` saturated: `None` when it exceeds `u64::MAX`.
fn digits_to_u64(v: &Vec<char>, a: usize, b: usize) -> (r: Option<u64>)
    requires
        a <= b <= v.len(),
        all_digits(v@.subrange(a as int, b as int)),
    ensures
        match r {
            Some(n) => n == digits_value(v@.subrange(a as int, b as int)),
            None => digits_value(v@.subrange(a as int, b as int)) > U64_MAX,
        },
{
    let mut acc: u64 = 0;
    let mut big = false;
    let mut i: usize = a;
    while i < b
        invariant
            a <= i <= b <= v.len(),
            all_digits(v@.subrange(a as int, b as int)),
            !big ==> acc == digits_value(v@.subrange(a as int, i as int)),
            big ==> digits_value(v@.subrange(a as int, i as int)) > U64_MAX,
        decreases b - i,
    {
        let ghost p = v@.subrange(a as int, i as int);
        let ghost q = v@.subrange(a as int, i + 1);
        assert(q.drop_last() =~= p);
        assert(q.last() == v@[i as int]);
        assert(v@[i as int] == v@.subrange(a as int, b as int)[i - a]);
        let d = (v[i] as u32 - '0' as u32) as u64;
        assert(d == digit_value(q.last()));
        assert(digits_value(q) == digits_value(p) * 10 + d);
        if !big {
            let next: u128 = (acc as u128) * 10 + (d as u128);
            if next > U64_MAX as u128 {
                big = true;
            } else {
                acc = next as u64;
            }
        }
        i = i + 1;
    }
    if big { None } else { Some(acc) }
}

/// `floor(0.ds * f)`, computed from the last digit back.
pub open spec fn frac_scaled(ds: Seq<char>, f: nat) -> nat
    decreases ds.len(),
{
    if ds.len() == 0 {
        0
    } else {
        (digit_value(ds[0]) * f + frac_scaled(ds.drop_first(), f)) / 10
    }
}

proof fn lemma_digits_value_first(s: Seq<char>)
    requires
        s.len() >= 1,
    ensures
        digits_value(s) == digit_value(s[0]) * pow10((s.len() - 1) as nat) + digits_value(s.drop_first()),
    decreases s.len(),
{
    let d0 = digit_value(s[0]);
    if s.len() == 1 {
        assert(s.drop_last() =~= Seq::<char>::empty());
        assert(s.drop_first() =~= Seq::<char>::empty());
        assert(digits_value(s) == digits_value(s.drop_last()) * 10 + digit_value(s.last()));
        assert(pow10(0) == 1);
        assert(d0 * 1 == d0);
    } else {
        let t = s.drop_last();
        let u = s.drop_first();
        lemma_digits_value_first(t);
        assert(t.drop_first() =~= u.drop_last());
        assert(u.last() == s.last());
        assert(t[0] == s[0]);
        let k = (s.len() - 2) as nat;
        let p = pow10(k);
        assert(pow10((s.len() - 1) as nat) == 10 * p);
        let r = digits_value(t.drop_first());
        let l = digit_value(s.last());
        assert(digits_value(t) == d0 * p + r);
        assert(digits_value(s) == digits_value(t) * 10 + l);
        assert(digits_value(u) == r * 10 + l);
        assert((d0 * p + r) * 10 + l == d0 * (10 * p) + (r * 10 + l)) by (nonlinear_arith);
    }
}

proof fn lemma_pow10_positive(n: nat)
    ensures
        pow10(n) >= 1,
    decreases n,
{
    if n > 0 {
        lemma_pow10_positive((n - 1) as nat);
    }
}

proof fn lemma_nested_div(a: nat, b: nat, c: nat)
    requires
        c >= 1,
    ensures
        (a + b / c) / 10 == (a * c + b) / (c * 10),
{
    lemma_hoist_over_denominator(b as int, a as int, c);
    assert(b + a * c == a * c + b);
    lemma_div_denominator((a * c + b) as int, c as int, 10);
}

proof fn lemma_frac_scaled(ds: Seq<char>, f: nat)
    requires
        all_digits(ds),
    ensures
        frac_scaled(ds, f) == (digits_value(ds) * f) / pow10(ds.len()),
        frac_scaled(ds, f) <= f,
    decreases ds.len(),
{
    if ds.len() == 0 {
        assert(digits_value(ds) == 0);
        assert(pow10(0) == 1);
    } else {
        let rest = ds.drop_first();
        assert forall|i: int| 0 <= i < rest.len() implies is_digit(#[trigger] rest[i]) by {
            assert(rest[i] == ds[i + 1]);
        }
        assert(is_digit(ds[0]));
        lemma_frac_scaled(rest, f);
        lemma_digits_value_first(ds);
        let c = pow10(rest.len());
        lemma_pow10_positive(rest.len());
        let d0 = digit_value(ds[0]);
        let r = digits_value(rest);
        let a = d0 * f;
        let b = r * f;
        lemma_nested_div(a, b, c);
        assert(a * c + b == (d0 * c + r) * f) by (nonlinear_arith)
            requires a == d0 * f, b == r * f;
        assert(pow10(ds.len()) == 10 * c);
        assert(c * 10 == 10 * c);
        assert(d0 <= 9);
        let z = frac_scaled(rest, f);
        assert(a + z <= 10 * f) by (nonlinear_arith)
            requires a == d0 * f, d0 <= 9, z <= f;
        lemma_div_is_ordered((a + z) as int, (10 * f) as int, 10);
        assert((10 * f) / 10 == f);
    }
}

/// `floor(0.v[a..b] * f)`.
fn frac_times(v: &Vec<char>, a: usize, b: usize, f: u64) -> (z: u64)
    requires
        a <= b <= v.len(),
        all_digits(v@.subrange(a as int, b as int)),
        f <= 1099511627776,
    ensures
        z == frac_scaled(v@.subrange(a as int, b as int), f as nat),
        z <= f,
{
    let mut z: u64 = 0;
    let mut i: usize = b;
    proof {
        assert(v@.subrange(b as int, b as int) =~= Seq::<char>::empty());
    }
    while i > a
        invariant
            a <= i <= b <= v.len(),
            all_digits(v@.subrange(a as int, b as int)),
            f <= 1099511627776,
            z == frac_scaled(v@.subrange(i as int, b as int), f as nat),
            z <= f,
        decreases i,
    {
        proof {
            let s = v@.subrange(i as int, b as int);
            assert forall|j: int| 0 <= j < s.len() implies is_digit(#[trigger] s[j]) by {
                assert(s[j] == v@.subrange(a as int, b as int)[j + i - a]);
            }
            lemma_frac_scaled(s, f as nat);
        }
        i = i - 1;
        let ghost s = v@.subrange(i as int, b as int);
        assert(s.drop_first() =~= v@.subrange(i + 1, b as int));
        assert(s[0] == v@.subrange(a as int, b as int)[i - a]);
        let d = (v[i] as u32 - '0' as u32) as u64;
        assert(d <= 9);
        assert(d * f <= 9 * 1099511627776) by (nonlinear_arith)
            requires d <= 9, f <= 1099511627776;
        z = (d * f + z) / 10;
        proof {
            assert forall|j: int| 0 <= j < s.len() implies is_digit(#[trigger] s[j]) by {
                assert(s[j] == v@.subrange(a as int, b as int)[j + i - a]);
            }
            lemma_frac_scaled(s, f as nat);
        }
    }
    z
}

/// The factor of the unit `v[a..b]`.
fn unit_factor_of(v: &Vec<char>, a: usize, b: usize) -> (r: Option<u64>)
    requires
        a <= b <= v.len(),
    ensures
        match unit_factor(v@.subrange(a as int, b as int)) {
            Some(f) => r == Some(f as u64) && f <= 1099511627776,
            None => r is None,
        },
{
    let ghost u = v@.subrange(a as int, b as int);
    let n = b - a;
    if n == 0 {
        return Some(1);
    }
    if n > 2 {
        return None;
    }
    let c = v[a];
    assert(c == u[0]);
    let scale: Option<u64> = if c == 'B' || c == 'b' { Some(1) }
        else if c == 'K' || c == 'k' { Some(1024) }
        else if c == 'M' || c == 'm' { Some(1048576) }
        else if c == 'G' || c == 'g' { Some(1073741824) }
        else if c == 'T' || c == 't' { Some(1099511627776) }
        else { None };
    if n == 1 {
        scale
    } else {
        let c2 = v[a + 1];
        assert(c2 == u[1]);
        if (c2 == 'B' || c2 == 'b') && !(c == 'B' || c == 'b') {
            scale
        } else {
            None
        }
    }
}

proof fn lemma_scaled(i: nat, q: nat, ds: Seq<char>, f: nat)
    requires
        all_digits(ds),
        q == frac_scaled(ds, f),
    ensures
        ((i * pow10(ds.len()) + digits_value(ds)) * f) / pow10(ds.len()) == i * f + q,
{
    lemma_frac_scaled(ds, f);
    let c = pow10(ds.len());
    lemma_pow10_positive(ds.len());
    assert((i * c + digits_value(ds)) * f == digits_value(ds) * f + (i * f) * c) by (nonlinear_arith);
    lemma_hoist_over_denominator((digits_value(ds) * f) as int, (i * f) as int, c);
}

/// `scaled_size(v[a..m], v[fs..e], factor)`.
fn scaled_value(v: &Vec<char>, a: usize, m: usize, fs: usize, e: usize, factor: u64) -> (r: u64)
    requires
        a <= m <= v.len(),
        fs <= e <= v.len(),
        all_digits(v@.subrange(a as int, m as int)),
        all_digits(v@.subrange(fs as int, e as int)),
        1 <= factor <= 1099511627776,
    ensures
        r == scaled_size(v@.subrange(a as int, m as int), v@.subrange(fs as int, e as int), factor as nat),
{
    let ghost whole = v@.subrange(a as int, m as int);
    let ghost frac = v@.subrange(fs as int, e as int);
    let q = frac_times(v, fs, e, factor);
    proof {
        lemma_scaled(digits_value(whole), q as nat, frac, factor as nat);
    }
    match digits_to_u64(v, a, m) {
        None => {
            proof {
                let i = digits_value(whole);
                let c = factor as nat;
                assert(i * c + q >= i) by (nonlinear_arith)
                    requires c >= 1;
            }
            U64_MAX
        }
        Some(i) => {
            assert((i as u128) * (factor as u128) <= U64_MAX as u128 * 1099511627776) by (nonlinear_arith)
                requires i <= U64_MAX, factor <= 1099511627776;
            let total: u128 = (i as u128) * (factor as u128) + (q as u128);
            if total > U64_MAX as u128 {
                U64_MAX
            } else {
                total as u64
            }
        }
    }
}

/// Parses the non-empty, trimmed literal `v[lo..hi]`.
fn parse_trimmed(v: &Vec<char>, lo: usize, hi: usize) -> (r: Result<u64, String>)
    requires
        lo < hi <= v.len(),
        trim(v@.subrange(lo as int, hi as int)) == v@.subrange(lo as int, hi as int),
    ensures
        ({
            let t = v@.subrange(lo as int, hi as int);
            if int_part(t).len() + frac_part(t).len() == 0 {
                r is Err && r->Err_0@ == "invalid size number: "@ + number_text(t)
            } else {
                match unit_factor(unit_part(t)) {
                    None => r is Err && r->Err_0@ == "unsupported size unit: "@ + unit_part(t),
                    Some(f) => r == Ok::<u64, String>(scaled_size(int_part(t), frac_part(t), f) as u64),
                }
            }
        }),
{
    let ghost t = v@.subrange(lo as int, hi as int);
    let n_int = count_digits(v, lo, hi);
    assert(v@.subrange(lo as int, lo + n_int) =~= int_part(t));
    let mut n_frac: usize = 0;
    let dot = lo + n_int < hi && v[lo + n_int] == '.';
    assert(dot == has_dot(t)) by {
        if lo + n_int < hi {
            assert(v@[lo + n_int] == t[n_int as int]);
        }
    }
    if dot {
        n_frac = count_digits(v, lo + n_int + 1, hi);
        assert(v@.subrange(lo + n_int + 1, hi as int) =~= t.skip(n_int + 1));
        assert(v@.subrange(lo + n_int + 1, lo + n_int + 1 + n_frac) =~= frac_part(t));
    } else {
        assert(frac_part(t) =~= Seq::<char>::empty());
    }
    let end: usize = if dot { lo + n_int + 1 + n_frac } else { lo + n_int };
    assert(end - lo == num_end(t));
    if n_int + n_frac == 0 {
        assert(v@.subrange(lo as int, end as int) =~= number_text(t));
        let num = string_of(&slice_chars(v, lo, end));
        return Err(concat_str("invalid size number: ", num.as_str()));
    }
    let (ulo, uhi) = trim_bounds(v, end, hi);
    assert(v@.subrange(end as int, hi as int) =~= t.skip(num_end(t)));
    let factor = match unit_factor_of(v, ulo, uhi) {
        Some(f) => f,
        None => {
            let unit = string_of(&slice_chars(v, ulo, uhi));
            return Err(concat_str("unsupported size unit: ", unit.as_str()));
        }
    };
    let frac_start: usize = if dot { lo + n_int + 1 } else { end };
    assert(v@.subrange(frac_start as int, end as int) =~= frac_part(t));
    Ok(scaled_value(v, lo, lo + n_int, frac_start, end, factor))
}

/// Parses a human size literal such as `"100MB"`, `" 2.5 g"` or `"42"` into bytes.
///
/// White space around the literal and between number and unit is ignored; the unit is
/// one of B, K/KB, M/MB, G/GB, T/TB in any case, bytes when absent; an empty literal is
/// zero bytes. A fraction is multiplied out and rounded toward zero; the result
/// saturates at `u64::MAX`.
pub fn parse_size(input: &str) -> (r: Result<u64, String>)
    ensures
        parse_size_spec(input@, r),
{
    let v = chars_of(input);
    let (lo, hi) = trim_bounds(&v, 0, v.len());
    assert(v@.subrange(0, v.len() as int) =~= v@);
    if lo == hi {
        return Ok(0);
    }
    proof {
        let t = v@.subrange(lo as int, hi as int);
        assert(t[0] == v@[lo as int]);
        assert(t.last() == v@[hi - 1]);
        lemma_trim_idempotent(t);
    }
    parse_trimmed(&v, lo, hi)
}

proof fn lemma_trim_idempotent(t: Seq<char>)
    requires
        t.len() > 0,
        !is_space(t[0]),
        !is_space(t.last()),
    ensures
        trim(t) == t,
{
    lemma_trim_start(t, 0);
    assert(t.skip(0) =~= t);
    lemma_trim_end(t, t.len() as int);
    assert(t.take(t.len() as int) =~= t);
}

/// `v[a..b]` as a new vector.
fn slice_chars(v: &Vec<char>, a: usize, b: usize) -> (r: Vec<char>)
    requires
        a <= b <= v.len(),
    ensures
        r@ == v@.subrange(a as int, b as int),
{
    let mut r: Vec<char> = Vec::new();
    let mut i: usize = a;
    while i < b
        invariant
            a <= i <= b <= v.len(),
            r@ == v@.subrange(a as int, i as int),
        decreases b - i,
    {
        r.push(v[i]);
        assert(v@.subrange(a as int, i + 1) =~= v@.subrange(a as int, i as int).push(v@[i as int]));
        i = i + 1;
    }
    r
}

/// Parses a `min_size` parameter of the service; the same literal language as `parse_size`.
pub fn parse_size_for_service(input: &str) -> (r: Result<u64, String>)
    ensures
        parse_size_spec(input@, r),
{
    parse_size(input)
}

/// The value of a decimal literal for an unsigned integer: an optional `+`, then digits.
pub open spec fn unsigned_literal(s: Seq<char>) -> Option<nat> {
    let d = if s.len() > 0 && s[0] == '+' { s.drop_first() } else { s };
    if d.len() > 0 && all_digits(d) {
        Some(digits_value(d))
    } else {
        None
    }
}

pub open spec fn threads_error(s: Seq<char>) -> Seq<char> {
    "invalid value for --threads: "@ + s
}

/// Parses the value of `--threads`: a decimal count of at least one.
pub fn parse_threads(input: &str) -> (r: Result<usize, String>)
    ensures
        match unsigned_literal(input@) {
            Some(n) => if n > usize::MAX {
                r is Err && r->Err_0@ == threads_error(input@)
            } else if n == 0 {
                r is Err && r->Err_0@ == "--threads must be at least 1"@
            } else {
                r == Ok::<usize, String>(n as usize)
            },
            None => r is Err && r->Err_0@ == threads_error(input@),
        },
{
    let v = chars_of(input);
    let start: usize = if v.len() > 0 && v[0] == '+' { 1 } else { 0 };
    assert(v@.subrange(start as int, v.len() as int) =~= (if v@.len() > 0 && v@[0] == '+' { v@.drop_first() } else { v@ }));
    let n = count_digits(&v, start, v.len());
    if start == v.len() || start + n != v.len() {
        proof {
            let d = v@.subrange(start as int, v.len() as int);
            if d.len() > 0 && all_digits(d) {
                lemma_lead_digits(d, d.len() as int);
            }
        }
        return Err(concat_str("invalid value for --threads: ", input));
    }
    assert(v@.subrange(start as int, start + n) =~= v@.subrange(start as int, v.len() as int));
    match digits_to_u64(&v, start, v.len()) {
        None => Err(concat_str("invalid value for --threads: ", input)),
        Some(value) => {
            if value > usize::MAX as u64 {
                Err(concat_str("invalid value for --threads: ", input))
            } else if value == 0 {
                Err("--threads must be at least 1".to_string())
            } else {
                Ok(value as usize)
            }
        }
    }
}

pub open spec fn pow1024(k: nat) -> nat
    decreases k,
{
    if k == 0 {
        1
    } else {
        1024 * pow1024((k - 1) as nat)
    }
}

/// The largest unit among B, KB, MB, GB, TB whose factor does not exceed `b`.
pub open spec fn unit_index(b: nat) -> nat {
    if b < pow1024(1) {
        0
    } else if b < pow1024(2) {
        1
    } else if b < pow1024(3) {
        2
    } else if b < pow1024(4) {
        3
    } else {
        4
    }
}

pub open spec fn unit_name(k: nat) -> Seq<char> {
    if k == 0 {
        "B"@
    } else if k == 1 {
        "KB"@
    } else if k == 2 {
        "MB"@
    } else if k == 3 {
        "GB"@
    } else {
        "TB"@
    }
}

/// `b / f` in hundredths, rounded to nearest with ties to even.
pub open spec fn hundredths(b: nat, f: nat) -> nat {
    let q = (b * 100) / f;
    let r = (b * 100) % f;
    if 2 * r > f || (2 * r == f && q % 2 == 1) {
        q + 1
    } else {
        q
    }
}

/// `b` in its largest fitting unit: `"{b} B"` below one KB, else two decimals and the unit.
pub open spec fn format_bytes_spec(b: nat) -> Seq<char> {
    let k = unit_index(b);
    if k == 0 {
        decimal(b) + " B"@
    } else {
        let h = hundredths(b, pow1024(k));
        let cents = h % 100;
        decimal(h / 100) + seq!['.', digit_char(cents / 10), digit_char(cents % 10), ' ']
            + unit_name(k)
    }
}

/// Formats a byte count for people: `"512 B"`, `"1.50 KB"`, `"2.00 GB"`.
pub fn format_bytes(bytes: u64) -> (r: String)
    ensures
        r@ == format_bytes_spec(bytes as nat),
{
    proof {
        assert(pow1024(0) == 1);
        assert(pow1024(1) == 1024);
        assert(pow1024(2) == 1048576);
        assert(pow1024(3) == 1073741824);
        assert(pow1024(4) == 1099511627776);
    }
    let (k, f, unit): (u64, u64, &str) = if bytes < 1024 {
        (0, 1, "B")
    } else if bytes < 1048576 {
        (1, 1024, "KB")
    } else if bytes < 1073741824 {
        (2, 1048576, "MB")
    } else if bytes < 1099511627776 {
        (3, 1073741824, "GB")
    } else {
        (4, 1099511627776, "TB")
    };
    assert(k == unit_index(bytes as nat) && f == pow1024(k as nat) && unit@ == unit_name(k as nat));
    if k == 0 {
        let s = decimal_string(bytes);
        return s.concat(" B");
    }
    let scaled: u128 = (bytes as u128) * 100;
    let q: u128 = scaled / (f as u128);
    let rem: u128 = scaled % (f as u128);
    let h: u128 = if 2 * rem > f as u128 || (2 * rem == f as u128 && q % 2 == 1) { q + 1 } else { q };
    assert(h == hundredths(bytes as nat, f as nat));
    assert(q <= scaled);
    let whole = (h / 100) as u64;
    let cents = (h % 100) as u8;
    let mut s = decimal_string(whole);
    push_char(&mut s, '.');
    push_char(&mut s, digit_to_char(cents / 10));
    push_char(&mut s, digit_to_char(cents % 10));
    push_char(&mut s, ' ');
    let r = s.concat(unit);
    assert(r@ =~= format_bytes_spec(bytes as nat));
    r
}

} // verus!
