//! The built-in value functions: bandwidth normalisation, interface-name
//! synthesis and LAG-mode canonicalisation.

use vstd::prelude::*;
use crate::text::{ends_with, is_digit, is_ws, lower_seq, trimmed, upper_of};

verus! {

/// Character classes whose leading runs the parsers measure.
pub enum CharClass {
    Digit,
    DigitOrDot,
    Zero,
}

pub open spec fn in_class(k: CharClass, c: char) -> bool {
    match k {
        CharClass::Digit => is_digit(c),
        CharClass::DigitOrDot => is_digit(c) || c == '.',
        CharClass::Zero => c == '0',
    }
}

/// Length of the longest prefix of `s` whose characters are all in class `k`.
pub open spec fn run_len(s: Seq<char>, k: CharClass) -> nat
    decreases s.len(),
{
    if s.len() > 0 && in_class(k, s[0]) {
        1 + run_len(s.drop_first(), k)
    } else {
        0
    }
}

pub proof fn lemma_run_len(s: Seq<char>, k: CharClass, i: int)
    requires
        0 <= i <= s.len(),
        forall|j: int| 0 <= j < i ==> in_class(k, #[trigger] s[j]),
        i == s.len() || !in_class(k, s[i]),
    ensures
        run_len(s, k) == i,
    decreases i,
{
    if i > 0 {
        let t = s.drop_first();
        assert forall|j: int| 0 <= j < i - 1 implies in_class(k, #[trigger] t[j]) by {
            assert(t[j] == s[j + 1]);
        }
        if i - 1 < t.len() {
            assert(t[i - 1] == s[i]);
        }
        lemma_run_len(t, k, i - 1);
    }
}

pub proof fn lemma_run_len_bound(s: Seq<char>, k: CharClass)
    ensures
        run_len(s, k) <= s.len(),
        forall|j: int| 0 <= j < run_len(s, k) ==> in_class(k, #[trigger] s[j]),
        run_len(s, k) < s.len() ==> !in_class(k, s[run_len(s, k) as int]),
    decreases s.len(),
{
    if s.len() > 0 && in_class(k, s[0]) {
        let t = s.drop_first();
        lemma_run_len_bound(t, k);
        assert forall|j: int| 0 <= j < run_len(s, k) implies in_class(k, #[trigger] s[j]) by {
            if j > 0 {
                assert(s[j] == t[j - 1]);
            }
        }
        if run_len(s, k) < s.len() {
            assert(s[run_len(s, k) as int] == t[run_len(t, k) as int]);
        }
    }
}

pub fn char_in_class(k: &CharClass, c: char) -> (r: bool)
    ensures
        r == in_class(*k, c),
{
    match k {
        CharClass::Digit => '0' <= c && c <= '9',
        CharClass::DigitOrDot => ('0' <= c && c <= '9') || c == '.',
        CharClass::Zero => c == '0',
    }
}

/// The end of the run of class `k` that starts at `from`.
pub fn run_end(v: &Vec<char>, from: usize, k: &CharClass) -> (r: usize)
    requires
        from <= v@.len(),
    ensures
        r == from + run_len(v@.subrange(from as int, v@.len() as int), *k),
        r <= v@.len(),
{
    let mut i: usize = from;
    while i < v.len() && char_in_class(k, v[i])
        invariant
            from <= i <= v@.len(),
            forall|j: int| from <= j < i ==> in_class(*k, #[trigger] v@[j]),
        decreases v.len() - i,
    {
        i = i + 1;
    }
    let ghost s = v@.subrange(from as int, v@.len() as int);
    assert forall|j: int| 0 <= j < i - from implies in_class(*k, #[trigger] s[j]) by {
        assert(s[j] == v@[from + j]);
    }
    if i < v.len() {
        assert(s[i - from] == v@[i as int]);
    }
    proof {
        lemma_run_len(s, *k, i - from);
    }
    i
}

/// Numeric value of a string of decimal digits.
pub open spec fn digits_value(d: Seq<char>) -> nat
    decreases d.len(),
{
    if d.len() == 0 {
        0
    } else {
        digits_value(d.drop_last()) * 10 + ((d.last() as u32) - ('0' as u32)) as nat
    }
}

pub open spec fn all_digits(d: Seq<char>) -> bool {
    forall|i: int| 0 <= i < d.len() ==> is_digit(#[trigger] d[i])
}

/// The digits of an unsigned number as `u32::from_str` reads it: an optional
/// `+`, then at least one digit.
pub open spec fn unsigned_digits(s: Seq<char>) -> Seq<char> {
    if s.len() > 0 && s[0] == '+' {
        s.drop_first()
    } else {
        s
    }
}

/// Whether `u32::from_str` accepts `s`.
pub open spec fn is_u32_text(s: Seq<char>) -> bool {
    let d = unsigned_digits(s);
    d.len() > 0 && all_digits(d) && digits_value(d) <= u32::MAX
}

/// Decimal digits with leading zeros dropped, `0` for the zero value: the
/// form in which an integer prints.
pub open spec fn canon_digits(d: Seq<char>) -> Seq<char> {
    let z = run_len(d, CharClass::Zero);
    if z == d.len() {
        seq!['0']
    } else {
        d.subrange(z as int, d.len() as int)
    }
}

/// Whether `s` holds at least one ASCII digit and nothing else.
pub fn digits_only(v: &Vec<char>, from: usize) -> (r: bool)
    requires
        from <= v@.len(),
    ensures
        r == (from < v@.len() && all_digits(v@.subrange(from as int, v@.len() as int))),
{
    let e = run_end(v, from, &CharClass::Digit);
    let ghost s = v@.subrange(from as int, v@.len() as int);
    proof {
        lemma_run_len_bound(s, CharClass::Digit);
    }
    if e < v.len() {
        assert(!is_digit(s[e - from]));
    }
    from < v.len() && e == v.len()
}

pub proof fn lemma_digits_value_push(d: Seq<char>, c: char)
    ensures
        digits_value(d.push(c)) == digits_value(d) * 10 + ((c as u32) - ('0' as u32)) as nat,
{
    assert(d.push(c).drop_last() =~= d);
}

/// The value of the digits `v[from..to]`, where it fits in a `u32`.
pub fn digits_u32(v: &Vec<char>, from: usize, to: usize) -> (r: Option<u32>)
    requires
        from <= to <= v@.len(),
        all_digits(v@.subrange(from as int, to as int)),
    ensures
        r is Some <==> digits_value(v@.subrange(from as int, to as int)) <= u32::MAX,
        r matches Some(x) ==> x == digits_value(v@.subrange(from as int, to as int)),
{
    let ghost d = v@.subrange(from as int, to as int);
    let mut acc: u64 = 0;
    let mut i: usize = from;
    assert(v@.subrange(from as int, from as int) =~= Seq::<char>::empty());
    while i < to
        invariant
            from <= i <= to <= v@.len(),
            d == v@.subrange(from as int, to as int),
            all_digits(d),
            acc == digits_value(v@.subrange(from as int, i as int)),
            acc <= u32::MAX,
        decreases to - i,
    {
        let c = v[i];
        assert(d[i - from] == c);
        let dv = (c as u32 - '0' as u32) as u64;
        assert(v@.subrange(from as int, i + 1) =~= v@.subrange(from as int, i as int).push(c));
        proof {
            lemma_digits_value_push(v@.subrange(from as int, i as int), c);
        }
        let next = acc * 10 + dv;
        i = i + 1;
        if next > 0xffff_ffff {
            proof {
                lemma_digits_value_prefix_grows(d, i - from);
                assert(d.subrange(0, i - from) =~= v@.subrange(from as int, i as int));
            }
            return None;
        }
        acc = next;
    }
    assert(d =~= v@.subrange(from as int, i as int));
    Some(acc as u32)
}

/// A longer digit string is worth at least as much as its prefix.
pub proof fn lemma_digits_value_prefix_grows(d: Seq<char>, n: int)
    requires
        0 <= n <= d.len(),
        all_digits(d),
    ensures
        digits_value(d.subrange(0, n)) <= digits_value(d),
    decreases d.len() - n,
{
    if n < d.len() {
        lemma_digits_value_prefix_grows(d, n + 1);
        let p = d.subrange(0, n + 1);
        assert(p.drop_last() =~= d.subrange(0, n));
        assert(is_digit(d[n]));
        assert(p.last() == d[n]);
        let x = digits_value(d.subrange(0, n));
        assert(x <= x * 10) by (nonlinear_arith);
    } else {
        assert(d.subrange(0, n) =~= d);
    }
}

/// The canonical digits of `v[from..to]` as a new string.
pub fn canon_digits_string(v: &Vec<char>, from: usize, to: usize) -> (r: Vec<char>)
    requires
        from <= to <= v@.len(),
    ensures
        r@ == canon_digits(v@.subrange(from as int, to as int)),
{
    let ghost d = v@.subrange(from as int, to as int);
    let mut i: usize = from;
    while i < to && v[i] == '0'
        invariant
            from <= i <= to <= v@.len(),
            forall|j: int| from <= j < i ==> #[trigger] v@[j] == '0',
        decreases to - i,
    {
        i = i + 1;
    }
    assert forall|j: int| 0 <= j < i - from implies in_class(CharClass::Zero, #[trigger] d[j]) by {
        assert(d[j] == v@[from + j]);
    }
    if i < to {
        assert(d[i - from] == v@[i as int]);
    }
    proof {
        lemma_run_len(d, CharClass::Zero, i - from);
    }
    let mut r: Vec<char> = Vec::new();
    if i == to {
        r.push('0');
        assert(r@ =~= seq!['0']);
    } else {
        let mut j: usize = i;
        while j < to
            invariant
                from <= i <= j <= to <= v@.len(),
                r@ == v@.subrange(i as int, j as int),
            decreases to - j,
        {
            r.push(v[j]);
            j = j + 1;
            assert(r@ =~= v@.subrange(i as int, j as int));
        }
        assert(d.subrange(i - from, d.len() as int) =~= v@.subrange(i as int, to as int));
    }
    r
}

} // verus!

verus! {

pub proof fn lemma_digit_run_within(s: Seq<char>)
    ensures
        run_len(s, CharClass::Digit) <= run_len(s, CharClass::DigitOrDot),
{
    lemma_run_len_bound(s, CharClass::Digit);
    lemma_run_len_bound(s, CharClass::DigitOrDot);
    let a = run_len(s, CharClass::Digit);
    let e = run_len(s, CharClass::DigitOrDot);
    if e < a {
        assert(is_digit(s[e as int]));
    }
}

/// Whether the leading digits and dots of `c` read as a number the way
/// `f32::from_str` reads such text: at least one digit and at most one dot.
pub open spec fn lead_number_ok(c: Seq<char>) -> bool {
    let e: int = run_len(c, CharClass::DigitOrDot) as int;
    let a: int = run_len(c, CharClass::Digit) as int;
    if a == e {
        a > 0
    } else {
        let b: int = a + 1 + run_len(c.subrange(a + 1 as int, c.len() as int), CharClass::Digit) as int;
        c[a as int] == '.' && b == e && (a > 0 || b > a + 1)
    }
}

/// The digits before the decimal point of the leading number of `c`.
pub open spec fn lead_integer(c: Seq<char>) -> Seq<char> {
    c.subrange(0, run_len(c, CharClass::Digit) as int)
}

/// A bandwidth text in canonical `<integer><G|M>` form where it can be read;
/// canonical tokens come back upper-cased, anything else unchanged.
pub open spec fn speed_of(s: Seq<char>) -> Seq<char> {
    speed_from(s, upper_of(trimmed(s)))
}

/// Bandwidth normalisation of `s`, given `c`, the upper-cased trimmed text.
pub open spec fn speed_from(s: Seq<char>, c: Seq<char>) -> Seq<char> {
    if s.len() == 0 {
        s
    } else {
        if (ends_with(c, "GBPS"@) || ends_with(c, "GB"@)) && lead_number_ok(c) {
            canon_digits(lead_integer(c)).push('G')
        } else if (ends_with(c, "MBPS"@) || ends_with(c, "MB"@)) && lead_number_ok(c) {
            canon_digits(lead_integer(c)).push('M')
        } else if is_u32_text(c) {
            canon_digits(unsigned_digits(c)).push('G')
        } else if ends_with(c, "G"@) || ends_with(c, "M"@) {
            c
        } else {
            s
        }
    }
}

/// The interface-type token for a normalised bandwidth: `ge` up to 1G and for
/// anything unknown, `xe` for 10G, `et` above 10G.
pub open spec fn prefix_for(n: Seq<char>) -> Seq<char> {
    if n == "1000M"@ {
        "ge"@
    } else if n == "10000M"@ {
        "xe"@
    } else if n == "25000M"@ || n == "40000M"@ || n == "100000M"@ {
        "et"@
    } else {
        let d = lead_integer(n);
        if d.len() > 0 && digits_value(d) <= u32::MAX && ends_with(n, "G"@) {
            if digits_value(d) == 10 {
                "xe"@
            } else if digits_value(d) > 10 {
                "et"@
            } else {
                "ge"@
            }
        } else {
            "ge"@
        }
    }
}

/// Whether `s` is a port number: a `u32` once surrounding whitespace is gone.
pub open spec fn is_port_text(s: Seq<char>) -> bool {
    is_u32_text(trimmed(s))
}

/// The interface name built from a port number and a bandwidth.
pub open spec fn interface_name_of(port: Seq<char>, speed: Seq<char>) -> Seq<char> {
    prefix_for(speed_of(speed)) + "-0/0/"@ + canon_digits(unsigned_digits(trimmed(port)))
}

/// A free-text LAG answer in canonical form.
pub open spec fn lag_of(s: Seq<char>) -> Seq<char> {
    if s.len() == 0 {
        s
    } else {
        let t = lower_seq(trimmed(s));
        if t == "yes"@ || t == "y"@ || t == "true"@ || t == "1"@ || t == "lacp"@ {
            "lacp_active"@
        } else if t == "no"@ || t == "n"@ || t == "false"@ || t == "0"@ {
            "none"@
        } else if t == "lacp_active"@ || t == "static"@ || t == "none"@ {
            t
        } else {
            s
        }
    }
}

pub fn lead_number(c: &Vec<char>) -> (r: bool)
    ensures
        r == lead_number_ok(c@),
{
    assert(c@.subrange(0, c@.len() as int) =~= c@);
    let e = run_end(c, 0, &CharClass::DigitOrDot);
    let a = run_end(c, 0, &CharClass::Digit);
    proof {
        lemma_digit_run_within(c@);
    }
    if a == e {
        a > 0
    } else {
        if c[a] != '.' {
            false
        } else {
            let b = run_end(c, a + 1, &CharClass::Digit);
            b == e && (a > 0 || b > a + 1)
        }
    }
}

/// Reads `v` as `u32::from_str` does and returns its canonical digits.
pub fn u32_text_digits(v: &Vec<char>) -> (r: Option<Vec<char>>)
    ensures
        r is Some <==> is_u32_text(v@),
        r matches Some(d) ==> d@ == canon_digits(unsigned_digits(v@)),
{
    let from: usize = if v.len() > 0 && v[0] == '+' { 1 } else { 0 };
    assert(v@.subrange(from as int, v@.len() as int) =~= unsigned_digits(v@));
    if !digits_only(v, from) {
        return None;
    }
    match digits_u32(v, from, v.len()) {
        None => None,
        Some(_) => Some(canon_digits_string(v, from, v.len())),
    }
}

} // verus!

verus! {

/// A digit string followed by a unit letter reads back as itself.
pub proof fn lemma_speed_token_fixed(d: Seq<char>, unit: char)
    requires
        d.len() > 0,
        all_digits(d),
        unit == 'G' || unit == 'M',
    ensures
        speed_from(d.push(unit), d.push(unit)) == d.push(unit),
{
    let v = d.push(unit);
    assert(v[0] == d[0]);
    assert(is_digit(d[0]));
    reveal_strlit("GBPS");
    reveal_strlit("GB");
    reveal_strlit("MBPS");
    reveal_strlit("MB");
    reveal_strlit("G");
    reveal_strlit("M");
    assert(v.last() == unit);
    assert(!ends_with(v, "GBPS"@)) by {
        if ends_with(v, "GBPS"@) {
            assert(v.subrange(v.len() - 4, v.len() as int)[3] == v.last());
        }
    }
    assert(!ends_with(v, "GB"@)) by {
        if ends_with(v, "GB"@) {
            assert(v.subrange(v.len() - 2, v.len() as int)[1] == v.last());
        }
    }
    assert(!ends_with(v, "MBPS"@)) by {
        if ends_with(v, "MBPS"@) {
            assert(v.subrange(v.len() - 4, v.len() as int)[3] == v.last());
        }
    }
    assert(!ends_with(v, "MB"@)) by {
        if ends_with(v, "MB"@) {
            assert(v.subrange(v.len() - 2, v.len() as int)[1] == v.last());
        }
    }
    assert(!is_u32_text(v)) by {
        assert(unsigned_digits(v) == v);
        assert(!is_digit(v[v.len() - 1]));
    }
    if unit == 'G' {
        assert(v.subrange(v.len() - 1, v.len() as int) =~= "G"@);
    } else {
        assert(v.subrange(v.len() - 1, v.len() as int) =~= "M"@);
        assert(!ends_with(v, "G"@)) by {
            if ends_with(v, "G"@) {
                assert(v.subrange(v.len() - 1, v.len() as int)[0] == v.last());
            }
        }
    }
}

pub proof fn lemma_canon_digits_shape(d: Seq<char>)
    requires
        all_digits(d),
    ensures
        canon_digits(d).len() > 0,
        all_digits(canon_digits(d)),
{
    lemma_run_len_bound(d, CharClass::Zero);
    let z = run_len(d, CharClass::Zero);
    if z < d.len() {
        let t = d.subrange(z as int, d.len() as int);
        assert forall|i: int| 0 <= i < t.len() implies is_digit(#[trigger] t[i]) by {
            assert(t[i] == d[z + i]);
        }
    }
}

/// Normalising a bandwidth whose result is its own upper-cased, trimmed
/// form (a canonical token) gives that result back.
pub proof fn lemma_speed_idempotent(s: Seq<char>)
    requires
        upper_of(trimmed(speed_of(s))) == speed_of(s),
    ensures
        speed_of(speed_of(s)) == speed_of(s),
{
    if s.len() > 0 {
        let c = upper_of(trimmed(s));
        if (ends_with(c, "GBPS"@) || ends_with(c, "GB"@)) && lead_number_ok(c) {
            lemma_run_len_bound(c, CharClass::Digit);
            let d = lead_integer(c);
            assert forall|i: int| 0 <= i < d.len() implies is_digit(#[trigger] d[i]) by {
                assert(d[i] == c[i]);
            }
            lemma_canon_digits_shape(d);
            lemma_speed_token_fixed(canon_digits(d), 'G');
        } else if (ends_with(c, "MBPS"@) || ends_with(c, "MB"@)) && lead_number_ok(c) {
            lemma_run_len_bound(c, CharClass::Digit);
            let d = lead_integer(c);
            assert forall|i: int| 0 <= i < d.len() implies is_digit(#[trigger] d[i]) by {
                assert(d[i] == c[i]);
            }
            lemma_canon_digits_shape(d);
            lemma_speed_token_fixed(canon_digits(d), 'M');
        } else if is_u32_text(c) {
            lemma_canon_digits_shape(unsigned_digits(c));
            lemma_speed_token_fixed(canon_digits(unsigned_digits(c)), 'G');
        } else if ends_with(c, "G"@) || ends_with(c, "M"@) {
            reveal_strlit("G");
            reveal_strlit("M");
            assert(c.len() > 0);
        }
    }
}

/// Canonicalising a LAG answer twice is canonicalising it once.
pub proof fn lemma_lag_idempotent(s: Seq<char>)
    ensures
        lag_of(lag_of(s)) == lag_of(s),
{
    reveal_strlit("lacp_active");
    reveal_strlit("static");
    reveal_strlit("none");
    reveal_strlit("yes");
    reveal_strlit("y");
    reveal_strlit("true");
    reveal_strlit("1");
    reveal_strlit("lacp");
    reveal_strlit("no");
    reveal_strlit("n");
    reveal_strlit("false");
    reveal_strlit("0");
    let la = "lacp_active"@;
    let st = "static"@;
    let no = "none"@;
    crate::text::lemma_trimmed_when_ends_solid(la);
    crate::text::lemma_trimmed_when_ends_solid(st);
    crate::text::lemma_trimmed_when_ends_solid(no);
    assert(lower_seq(la) =~= la);
    assert(lower_seq(st) =~= st);
    assert(lower_seq(no) =~= no);
    assert(la != "yes"@ && la != "y"@ && la != "true"@ && la != "1"@ && la != "lacp"@);
    assert(la != "no"@ && la != "n"@ && la != "false"@ && la != "0"@);
    assert(no != "yes"@ && no != "y"@ && no != "true"@ && no != "1"@ && no != "lacp"@);
    assert(no.len() != "no"@.len());
    assert(no != "no"@ && no != "n"@ && no != "false"@ && no != "0"@);
    assert(st != "yes"@ && st != "y"@ && st != "true"@ && st != "1"@ && st != "lacp"@);
    assert(st != "no"@ && st != "n"@ && st != "false"@ && st != "0"@);
}

/// A generated interface name is no port number, so generating again leaves
/// it as it is.
pub proof fn lemma_interface_name_not_port(port: Seq<char>, speed: Seq<char>)
    requires
        is_port_text(port),
    ensures
        !is_port_text(interface_name_of(port, speed)),
{
    reveal_strlit("ge");
    reveal_strlit("xe");
    reveal_strlit("et");
    reveal_strlit("-0/0/");
    let p = prefix_for(speed_of(speed));
    let d = canon_digits(unsigned_digits(trimmed(port)));
    lemma_canon_digits_shape(unsigned_digits(trimmed(port)));
    let n = interface_name_of(port, speed);
    assert(p == "ge"@ || p == "xe"@ || p == "et"@);
    assert(n[0] == p[0]);
    assert(n.last() == d.last());
    assert(is_digit(d[d.len() - 1]));
    crate::text::lemma_trimmed_when_ends_solid(n);
    assert(unsigned_digits(n) == n);
    assert(!is_digit(n[0]));
}

} // verus!
