//! Clock-time values and the duration-token grammar.
//!
//! A duration token is `H:M:S`, optionally followed by `,ms` in the
//! subtitle context: each field is a maximal non-empty run of decimal
//! digits, read as an unsigned value. The token is rejected when a run is
//! empty, a run's value does not fit the integer width used, or the
//! minutes/seconds/milliseconds fall outside a time-of-day's range.

use vstd::prelude::*;

use crate::errors::SplitError;

verus! {

/// A time-of-day value: hours are unbounded, minutes and seconds are
/// below 60, and milliseconds — present only for tokens parsed in the
/// subtitle context — are below 1000.
#[derive(Debug, PartialEq, Eq, Clone, Copy)]
pub struct ClockTime {
    pub hours: u32,
    pub minutes: u32,
    pub seconds: u32,
    pub millis: Option<u32>,
}

impl ClockTime {
    /// The range invariant every parsed value satisfies.
    pub open spec fn valid(self) -> bool {
        &&& self.minutes < 60
        &&& self.seconds < 60
        &&& (self.millis matches Some(ms) ==> ms < 1000)
    }

    /// The value as a count of whole seconds, milliseconds discarded.
    pub open spec fn spec_total_seconds(self) -> int {
        self.hours * 3600 + self.minutes * 60 + self.seconds
    }

    /// The whole-second count, executable.
    pub fn total_seconds(&self) -> (r: u64)
        ensures
            r == self.spec_total_seconds(),
    {
        (self.hours as u64) * 3600 + (self.minutes as u64) * 60 + (self.seconds as u64)
    }
}

/// Whether `c` is a decimal digit.
pub open spec fn is_digit(c: char) -> bool {
    '0' <= c && c <= '9'
}

/// The numeric value of a decimal digit character.
pub open spec fn digit_val(c: char) -> nat
    recommends
        is_digit(c),
{
    ((c as int) - ('0' as int)) as nat
}

/// The decimal digit character for a value below ten.
pub open spec fn digit_char(d: nat) -> char
    recommends
        d < 10,
{
    if d == 0 { '0' }
    else if d == 1 { '1' }
    else if d == 2 { '2' }
    else if d == 3 { '3' }
    else if d == 4 { '4' }
    else if d == 5 { '5' }
    else if d == 6 { '6' }
    else if d == 7 { '7' }
    else if d == 8 { '8' }
    else { '9' }
}

/// The value of an all-digit character sequence, most significant first.
pub open spec fn digits_value(s: Seq<char>) -> nat
    decreases s.len(),
{
    if s.len() == 0 {
        0
    } else {
        digits_value(s.drop_last()) * 10 + digit_val(s.last())
    }
}

/// The end of the maximal digit run that starts at `from`: the first
/// position at or after `from` holding a non-digit, or the end of `s`.
pub open spec fn run_end(s: Seq<char>, from: int) -> int
    decreases s.len() - from,
    when 0 <= from <= s.len()
{
    if from >= s.len() {
        s.len() as int
    } else if !is_digit(s[from]) {
        from
    } else {
        run_end(s, from + 1)
    }
}

/// Extending an all-digit sequence by one digit multiplies its value by
/// ten and adds the new digit.
pub proof fn lemma_digits_value_step(s: Seq<char>, from: int, j: int)
    requires
        0 <= from <= j < s.len(),
    ensures
        digits_value(s.subrange(from, j + 1)) == digits_value(s.subrange(from, j)) * 10
            + digit_val(s[j]),
{
    assert(s.subrange(from, j + 1).drop_last() =~= s.subrange(from, j));
    assert(s.subrange(from, j + 1).last() == s[j]);
}

pub proof fn lemma_run_end_bounds(s: Seq<char>, from: int)
    requires
        0 <= from <= s.len(),
    ensures
        from <= run_end(s, from) <= s.len(),
        forall|i: int| from <= i < run_end(s, from) ==> is_digit(s[i]),
        run_end(s, from) < s.len() ==> !is_digit(s[run_end(s, from)]),
    decreases s.len() - from,
{
    if from < s.len() && is_digit(s[from]) {
        lemma_run_end_bounds(s, from + 1);
    }
}

/// Executable decimal-digit test.
pub fn digit_check(c: char) -> (r: bool)
    ensures
        r == is_digit(c),
{
    '0' <= c && c <= '9'
}

/// Reads the maximal digit run that starts at `from` and returns its
/// value with the position just past the run. Fails when the run is
/// empty or its value does not fit in 32 bits.
pub(crate) fn parse_field(s: &Vec<char>, from: usize) -> (r: Result<(u32, usize), SplitError>)
    requires
        from <= s@.len(),
    ensures
        match r {
            Ok(p) => {
                &&& p.1 == run_end(s@, from as int)
                &&& from < p.1 <= s@.len()
                &&& p.0 == digits_value(s@.subrange(from as int, p.1 as int))
            },
            Err(e) => {
                &&& e == SplitError::MalformedDuration
                &&& (run_end(s@, from as int) == from || digits_value(
                    s@.subrange(from as int, run_end(s@, from as int)),
                ) > u32::MAX)
            },
        },
{
    let len = s.len();
    let mut j = from;
    let mut val: u64 = 0;
    while j < len && digit_check(s[j])
        invariant
            from <= j <= len,
            len == s@.len(),
            run_end(s@, from as int) == run_end(s@, j as int),
            if digits_value(s@.subrange(from as int, j as int)) <= u32::MAX {
                val == digits_value(s@.subrange(from as int, j as int))
            } else {
                val > u32::MAX
            },
        decreases len - j,
    {
        let c = s[j];
        let d: u32 = (c as u32) - ('0' as u32);
        proof {
            assert(is_digit(s@[j as int]));
            assert(d == digit_val(s@[j as int]));
            lemma_digits_value_step(s@, from as int, j as int);
            assert(run_end(s@, j as int) == run_end(s@, j + 1));
        }
        if val <= 0xFFFF_FFFF {
            val = val * 10 + (d as u64);
        }
        j = j + 1;
    }
    proof {
        assert(run_end(s@, j as int) == j);
    }
    if j == from {
        Err(SplitError::MalformedDuration)
    } else if val > 0xFFFF_FFFF {
        Err(SplitError::MalformedDuration)
    } else {
        Ok((val as u32, j))
    }
}

/// Whether a well-formed field stands at `from`: a non-empty digit run
/// whose value fits in 32 bits.
pub open spec fn field_ok(s: Seq<char>, from: int) -> bool {
    run_end(s, from) > from && digits_value(s.subrange(from, run_end(s, from))) <= u32::MAX
}

/// The value of the digit run that starts at `from`.
pub open spec fn field_val(s: Seq<char>, from: int) -> nat {
    digits_value(s.subrange(from, run_end(s, from)))
}

/// What parsing a duration token at `from` yields: the clock time and the
/// position of the unconsumed remainder, or nothing when the token is
/// malformed. The `,ms` part is read exactly when `with_millis` holds.
pub open spec fn duration_result(s: Seq<char>, from: int, with_millis: bool) -> Option<
    (ClockTime, int),
>
    recommends
        0 <= from <= s.len(),
{
    let he = run_end(s, from);
    if !(field_ok(s, from) && he < s.len() && s[he] == ':') {
        None
    } else {
        let mfrom = he + 1;
        let me = run_end(s, mfrom);
        if !(field_ok(s, mfrom) && me < s.len() && s[me] == ':') {
            None
        } else {
            let sfrom = me + 1;
            let se = run_end(s, sfrom);
            if !field_ok(s, sfrom) {
                None
            } else if with_millis {
                if !(se < s.len() && s[se] == ',') {
                    None
                } else {
                    let lfrom = se + 1;
                    let le = run_end(s, lfrom);
                    if !field_ok(s, lfrom) {
                        None
                    } else {
                        let ct = ClockTime {
                            hours: field_val(s, from) as u32,
                            minutes: field_val(s, mfrom) as u32,
                            seconds: field_val(s, sfrom) as u32,
                            millis: Some(field_val(s, lfrom) as u32),
                        };
                        if ct.valid() {
                            Some((ct, le))
                        } else {
                            None
                        }
                    }
                }
            } else {
                let ct = ClockTime {
                    hours: field_val(s, from) as u32,
                    minutes: field_val(s, mfrom) as u32,
                    seconds: field_val(s, sfrom) as u32,
                    millis: None,
                };
                if ct.valid() {
                    Some((ct, se))
                } else {
                    None
                }
            }
        }
    }
}

/// A parsed duration token ends strictly after its start and within the
/// input.
pub proof fn lemma_duration_result_bounds(s: Seq<char>, from: int, with_millis: bool)
    requires
        0 <= from <= s.len(),
        duration_result(s, from, with_millis) is Some,
    ensures
        from < duration_result(s, from, with_millis)->Some_0.1 <= s.len(),
{
    lemma_run_end_bounds(s, from);
    let he = run_end(s, from);
    lemma_run_end_bounds(s, he + 1);
    let me = run_end(s, he + 1);
    lemma_run_end_bounds(s, me + 1);
    let se = run_end(s, me + 1);
    if with_millis {
        lemma_run_end_bounds(s, se + 1);
    }
}

/// Parses a duration token at `from` and returns the clock time with the
/// position of the unconsumed remainder; the result is exactly what the
/// grammar [`duration_result`] assigns to the input.
pub fn parse_duration(s: &Vec<char>, from: usize, with_millis: bool) -> (r: Result<
    (ClockTime, usize),
    SplitError,
>)
    requires
        from <= s@.len(),
    ensures
        match r {
            Ok(p) => {
                &&& duration_result(s@, from as int, with_millis) == Some((p.0, p.1 as int))
                &&& p.0.valid()
                &&& (p.0.millis is Some <==> with_millis)
                &&& from < p.1 <= s@.len()
            },
            Err(e) => {
                &&& e == SplitError::MalformedDuration
                &&& duration_result(s@, from as int, with_millis) is None
            },
        },
{
    let (hours, he) = match parse_field(s, from) {
        Ok(p) => p,
        Err(e) => {
            return Err(e);
        },
    };
    if he >= s.len() || s[he] != ':' {
        return Err(SplitError::MalformedDuration);
    }
    let (minutes, me) = match parse_field(s, he + 1) {
        Ok(p) => p,
        Err(e) => {
            return Err(e);
        },
    };
    if me >= s.len() || s[me] != ':' {
        return Err(SplitError::MalformedDuration);
    }
    let (seconds, se) = match parse_field(s, me + 1) {
        Ok(p) => p,
        Err(e) => {
            return Err(e);
        },
    };
    if minutes >= 60 || seconds >= 60 {
        return Err(SplitError::MalformedDuration);
    }
    if with_millis {
        if se >= s.len() || s[se] != ',' {
            return Err(SplitError::MalformedDuration);
        }
        let (millis, le) = match parse_field(s, se + 1) {
            Ok(p) => p,
            Err(e) => {
                return Err(e);
            },
        };
        if millis >= 1000 {
            return Err(SplitError::MalformedDuration);
        }
        Ok((ClockTime { hours, minutes, seconds, millis: Some(millis) }, le))
    } else {
        Ok((ClockTime { hours, minutes, seconds, millis: None }, se))
    }
}

/// `v` rendered in decimal in exactly `width` digit characters, the most
/// significant first; digits beyond `width` are cut off.
pub open spec fn dec_seq(v: nat, width: nat) -> Seq<char>
    decreases width,
{
    if width == 0 {
        Seq::empty()
    } else {
        dec_seq(v / 10, (width - 1) as nat).push(digit_char(v % 10))
    }
}

/// A non-empty all-digit sequence is exactly the fixed-width decimal
/// rendering of its own value: digit strings of a given width are in
/// one-to-one correspondence with their values.
pub proof fn lemma_dec_seq_of_digits(d: Seq<char>)
    requires
        forall|i: int| 0 <= i < d.len() ==> is_digit(#[trigger] d[i]),
    ensures
        dec_seq(digits_value(d), d.len() as nat) == d,
    decreases d.len(),
{
    if d.len() > 0 {
        let v = digits_value(d);
        let a = digits_value(d.drop_last());
        let b = digit_val(d.last());
        assert(is_digit(d.last()));
        assert(b < 10);
        assert(v == a * 10 + b);
        assert(v % 10 == b && v / 10 == a) by {
            vstd::arithmetic::div_mod::lemma_fundamental_div_mod_converse(
                v as int,
                10,
                a as int,
                b as int,
            );
        }
        assert(digit_char(b) == d.last());
        lemma_dec_seq_of_digits(d.drop_last());
        assert(dec_seq(v, d.len() as nat) == dec_seq(a, (d.len() - 1) as nat).push(
            digit_char(b),
        ));
        assert(dec_seq(v, d.len() as nat) =~= d);
    }
}

/// `v` rendered in decimal without padding: as many digits as the value
/// needs, one for zero.
pub open spec fn dec_unpadded(v: nat) -> Seq<char>
    decreases v,
{
    if v < 10 {
        seq![digit_char(v)]
    } else {
        dec_unpadded(v / 10).push(digit_char(v % 10))
    }
}

/// `v` rendered in decimal in at least two digits, zero-padded: the width
/// of a clock-time field in formatted output.
pub open spec fn dec_min2(v: nat) -> Seq<char> {
    if v < 100 {
        dec_seq(v, 2)
    } else {
        dec_unpadded(v)
    }
}

/// The decimal digit character of a value below ten, executable.
pub fn digit_char_of(d: u32) -> (r: char)
    requires
        d < 10,
    ensures
        r == digit_char(d as nat),
{
    if d == 0 { '0' }
    else if d == 1 { '1' }
    else if d == 2 { '2' }
    else if d == 3 { '3' }
    else if d == 4 { '4' }
    else if d == 5 { '5' }
    else if d == 6 { '6' }
    else if d == 7 { '7' }
    else if d == 8 { '8' }
    else { '9' }
}

/// Appends the unpadded decimal rendering of `v` to `out`.
pub fn push_decimal(out: &mut Vec<char>, v: u32)
    ensures
        final(out)@ == old(out)@ + dec_unpadded(v as nat),
    decreases v,
{
    if v < 10 {
        out.push(digit_char_of(v));
        assert(out@ =~= old(out)@ + dec_unpadded(v as nat));
    } else {
        push_decimal(out, v / 10);
        out.push(digit_char_of(v % 10));
        assert(out@ =~= old(out)@ + dec_unpadded(v as nat));
    }
}

/// Appends the two-or-more-digit decimal rendering of `v` to `out`.
pub fn push_decimal_min2(out: &mut Vec<char>, v: u32)
    ensures
        final(out)@ == old(out)@ + dec_min2(v as nat),
{
    if v < 100 {
        out.push(digit_char_of(v / 10));
        out.push(digit_char_of(v % 10));
        proof {
            let n = v as nat;
            assert(dec_seq(n, 2) == dec_seq(n / 10, 1).push(digit_char(n % 10)));
            assert(dec_seq(n / 10, 1) == dec_seq(n / 100, 0).push(digit_char((n / 10) % 10)));
            assert((n / 10) % 10 == n / 10);
        }
        assert(out@ =~= old(out)@ + dec_min2(v as nat));
    } else {
        push_decimal(out, v);
    }
}

/// A clock time formatted as three two-or-more-digit fields joined by
/// `sep`: the hours-minutes-seconds text used in output paths and in the
/// cutting service's start offset.
pub open spec fn clock_hms(ct: ClockTime, sep: char) -> Seq<char> {
    dec_min2(ct.hours as nat) + seq![sep] + dec_min2(ct.minutes as nat) + seq![sep] + dec_min2(
        ct.seconds as nat,
    )
}

/// Appends the hours-minutes-seconds text of `ct`, with fields joined by
/// `sep`, to `out`.
pub fn push_clock_hms(out: &mut Vec<char>, ct: &ClockTime, sep: char)
    ensures
        final(out)@ == old(out)@ + clock_hms(*ct, sep),
{
    push_decimal_min2(out, ct.hours);
    out.push(sep);
    push_decimal_min2(out, ct.minutes);
    out.push(sep);
    push_decimal_min2(out, ct.seconds);
    assert(out@ =~= old(out)@ + clock_hms(*ct, sep));
}

/// The text of a duration token formatted back from a clock time, with a
/// chosen digit width for each field; the `,ms` part appears exactly when
/// the value carries milliseconds.
pub open spec fn duration_token(ct: ClockTime, hw: nat, mw: nat, sw: nat, lw: nat) -> Seq<char> {
    dec_seq(ct.hours as nat, hw) + seq![':'] + dec_seq(ct.minutes as nat, mw) + seq![':']
        + dec_seq(ct.seconds as nat, sw) + (match ct.millis {
        Some(ms) => seq![','] + dec_seq(ms as nat, lw),
        None => Seq::empty(),
    })
}

/// Parsing round-trips: a duration token that parses, formatted back with
/// the field widths it was written in, reproduces its own text.
pub proof fn lemma_duration_round_trip(s: Seq<char>, from: int, with_millis: bool)
    requires
        0 <= from <= s.len(),
        duration_result(s, from, with_millis) is Some,
    ensures
        ({
            let (ct, pos) = duration_result(s, from, with_millis)->Some_0;
            let he = run_end(s, from);
            let me = run_end(s, he + 1);
            let se = run_end(s, me + 1);
            let lw = if with_millis { (pos - se - 1) as nat } else { 0 };
            s.subrange(from, pos) == duration_token(
                ct,
                (he - from) as nat,
                (me - he - 1) as nat,
                (se - me - 1) as nat,
                lw,
            )
        }),
{
    let (ct, pos) = duration_result(s, from, with_millis)->Some_0;
    let he = run_end(s, from);
    let me = run_end(s, he + 1);
    let se = run_end(s, me + 1);
    lemma_run_end_bounds(s, from);
    lemma_run_end_bounds(s, he + 1);
    lemma_run_end_bounds(s, me + 1);
    let dh = s.subrange(from, he);
    let dm = s.subrange(he + 1, me);
    let ds = s.subrange(me + 1, se);
    lemma_dec_seq_of_digits(dh);
    lemma_dec_seq_of_digits(dm);
    lemma_dec_seq_of_digits(ds);
    assert(ct.hours as nat == digits_value(dh));
    assert(ct.minutes as nat == digits_value(dm));
    assert(ct.seconds as nat == digits_value(ds));
    if with_millis {
        lemma_run_end_bounds(s, se + 1);
        let le = run_end(s, se + 1);
        let dl = s.subrange(se + 1, le);
        lemma_dec_seq_of_digits(dl);
        assert(ct.millis->Some_0 as nat == digits_value(dl));
        assert(pos == le);
        assert(s.subrange(from, pos) =~= dh + seq![':'] + dm + seq![':'] + ds + (seq![','] + dl));
    } else {
        assert(pos == se);
        assert(s.subrange(from, pos) =~= dh + seq![':'] + dm + seq![':'] + ds
            + Seq::<char>::empty());
    }
}

} // verus!
