//! Local wall-clock time of speech segments, and its rendering in the
//! records: the day as `YYYYMMDD` (the name of the day's file) and the
//! minute as `HH:MM` (the header of the minute's group).
use vstd::prelude::*;
use chrono::{Datelike, Timelike};

verus! {

/// A moment in local time, with the instant it was read from.
pub struct LocalStamp {
    /// The instant, in nanoseconds after the Unix epoch.
    pub unix_nanos: u64,
    /// Proleptic Gregorian year.
    pub year: i32,
    /// Month, 1 to 12.
    pub month: u32,
    /// Day of the month, 1 to 31.
    pub day: u32,
    /// Hour, 0 to 23.
    pub hour: u32,
    /// Minute, 0 to 59.
    pub minute: u32,
    /// Second, 0 to 59.
    pub second: u32,
}

/// The calendar fields lie in the ranges chrono documents for them, and the
/// year in the range any `u64` of nanoseconds after the epoch can reach in
/// some time zone.
pub open spec fn stamp_in_range(s: LocalStamp) -> bool {
    &&& 1969 <= s.year <= 2554
    &&& 1 <= s.month <= 12
    &&& 1 <= s.day <= 31
    &&& s.hour < 24
    &&& s.minute < 60
    &&& s.second < 60
}

/// Calls chrono's `From<SystemTime> for DateTime<Local>` on the instant
/// `unix_nanos` nanoseconds after the Unix epoch and reads the local
/// calendar fields with `Datelike::{year, month, day}` and
/// `Timelike::{hour, minute, second}`.
///
/// Which local day and time an instant falls on depends on the machine's
/// time zone, so the contract does not tie the fields to the instant. It
/// claims the ranges chrono documents (month 1–12, day 1–31, hour 0–23,
/// minute and second 0–59) and a year range: a `u64` of nanoseconds lies
/// between 1970-01-01 and 2554-07-21 UTC, and chrono's offsets are below a
/// day (`FixedOffset` rejects 86 400 s and more), so the local year lies in
/// 1969..=2554.
#[verifier::external_body]
fn local_stamp(unix_nanos: u64) -> (s: LocalStamp)
    ensures
        s.unix_nanos == unix_nanos,
        stamp_in_range(s),
{
    let t = std::time::UNIX_EPOCH + std::time::Duration::from_nanos(unix_nanos);
    let dt: chrono::DateTime<chrono::Local> = chrono::DateTime::from(t);
    LocalStamp {
        unix_nanos,
        year: dt.year(),
        month: dt.month(),
        day: dt.day(),
        hour: dt.hour(),
        minute: dt.minute(),
        second: dt.second(),
    }
}

/// Nanoseconds of audio in one sample at 16 kHz.
pub const NANOS_PER_SAMPLE: u64 = 62500;

/// The instant, in nanoseconds after the Unix epoch, at which a speech
/// segment starts: the first audio arrived at `first_nanos`, and the segment
/// starts `start_sample` samples at 16 kHz later.
pub open spec fn segment_nanos(first_nanos: u64, start_sample: i64) -> int {
    first_nanos + start_sample * 62500
}

/// The instant a speech segment starts, or None when the sample index is
/// negative or the instant does not fit in a `u64`.
pub fn segment_time_nanos(first_nanos: u64, start_sample: i64) -> (t: Option<u64>)
    ensures
        start_sample < 0 ==> t is None,
        start_sample >= 0 && segment_nanos(first_nanos, start_sample) > u64::MAX ==> t is None,
        start_sample >= 0 && segment_nanos(first_nanos, start_sample) <= u64::MAX ==> t == Some(
            segment_nanos(first_nanos, start_sample) as u64,
        ),
{
    if start_sample < 0 {
        return None;
    }
    let s = start_sample as u64;
    match s.checked_mul(NANOS_PER_SAMPLE) {
        None => None,
        Some(offset) => first_nanos.checked_add(offset),
    }
}

/// The local stamp of the start of a speech segment (see
/// `segment_time_nanos`), or None when that instant cannot be had.
pub fn segment_stamp(first_nanos: u64, start_sample: i64) -> (s: Option<LocalStamp>)
    ensures
        s is Some <==> (start_sample >= 0 && segment_nanos(first_nanos, start_sample) <= u64::MAX),
        (s matches Some(st) ==> st.unix_nanos == segment_nanos(first_nanos, start_sample)
            && stamp_in_range(st) && is_day_key(day_key(st)) && is_clock_minute(minute_key(st))),
{
    match segment_time_nanos(first_nanos, start_sample) {
        Some(t) => {
            let st = local_stamp(t);
            proof {
                lemma_keys_in_range(st);
            }
            Some(st)
        },
        None => None,
    }
}

/// The character of the decimal digit `k`.
pub open spec fn digit_char(k: nat) -> char {
    if k == 0 {
        '0'
    } else if k == 1 {
        '1'
    } else if k == 2 {
        '2'
    } else if k == 3 {
        '3'
    } else if k == 4 {
        '4'
    } else if k == 5 {
        '5'
    } else if k == 6 {
        '6'
    } else if k == 7 {
        '7'
    } else if k == 8 {
        '8'
    } else {
        '9'
    }
}

/// The decimal digits of `n`, most significant first, without leading zeros.
pub open spec fn dec_chars(n: nat) -> Seq<char>
    decreases n,
{
    if n < 10 {
        seq![digit_char(n)]
    } else {
        dec_chars(n / 10) + seq![digit_char(n % 10)]
    }
}

/// The decimal digits of `n`, left-padded with zeros to at least `width`.
pub open spec fn zero_padded(n: nat, width: nat) -> Seq<char> {
    let d = dec_chars(n);
    if d.len() < width {
        Seq::new((width - d.len()) as nat, |i: int| '0') + d
    } else {
        d
    }
}

/// A year as chrono's `%Y` writes it: zero-padded to 4 digits for years 0
/// to 9999, otherwise signed (`+` or `-`) and zero-padded to 4 digits.
pub open spec fn year_chars(y: int) -> Seq<char> {
    if 0 <= y <= 9999 {
        zero_padded(y as nat, 4)
    } else if y > 9999 {
        seq!['+'] + zero_padded(y as nat, 4)
    } else {
        seq!['-'] + zero_padded((-y) as nat, 4)
    }
}

/// The day of a stamp as `%Y%m%d`: the name of its record file, without
/// extension.
pub open spec fn day_key(s: LocalStamp) -> Seq<char> {
    year_chars(s.year as int) + zero_padded(s.month as nat, 2) + zero_padded(s.day as nat, 2)
}

/// The minute of a stamp as `%H:%M`: the header of its group.
pub open spec fn minute_key(s: LocalStamp) -> Seq<char> {
    zero_padded(s.hour as nat, 2) + seq![':'] + zero_padded(s.minute as nat, 2)
}

/// ASCII digit character.
pub open spec fn is_digit_char(c: char) -> bool {
    '0' <= c <= '9'
}

/// Eight ASCII digits.
pub open spec fn is_day_key(s: Seq<char>) -> bool {
    s.len() == 8 && forall|i: int| 0 <= i < 8 ==> is_digit_char(#[trigger] s[i])
}

/// Two digits, a colon and two digits.
pub open spec fn is_clock_minute(s: Seq<char>) -> bool {
    &&& s.len() == 5
    &&& is_digit_char(s[0])
    &&& is_digit_char(s[1])
    &&& s[2] == ':'
    &&& is_digit_char(s[3])
    &&& is_digit_char(s[4])
}

proof fn lemma_dec_chars(n: nat)
    ensures
        forall|i: int| 0 <= i < dec_chars(n).len() ==> is_digit_char(#[trigger] dec_chars(n)[i]),
        n < 10 ==> dec_chars(n).len() == 1,
        10 <= n < 100 ==> dec_chars(n).len() == 2,
        100 <= n < 1000 ==> dec_chars(n).len() == 3,
        1000 <= n < 10000 ==> dec_chars(n).len() == 4,
        dec_chars(n).len() >= 1,
    decreases n,
{
    if n >= 10 {
        lemma_dec_chars(n / 10);
        let d = dec_chars(n);
        assert forall|i: int| 0 <= i < d.len() implies is_digit_char(#[trigger] d[i]) by {
            if i < d.len() - 1 {
                assert(d[i] == dec_chars(n / 10)[i]);
            }
        }
    }
}

proof fn lemma_zero_padded(n: nat, width: nat)
    requires
        width >= 1,
        dec_chars(n).len() <= width,
    ensures
        zero_padded(n, width).len() == width,
        forall|i: int| 0 <= i < width ==> is_digit_char(#[trigger] zero_padded(n, width)[i]),
{
    lemma_dec_chars(n);
    let d = dec_chars(n);
    let z = zero_padded(n, width);
    assert forall|i: int| 0 <= i < width implies is_digit_char(#[trigger] z[i]) by {
        if d.len() < width && i >= width - d.len() {
            assert(z[i] == d[i - (width - d.len())]);
        }
    }
}

proof fn lemma_keys_in_range(s: LocalStamp)
    requires
        stamp_in_range(s),
    ensures
        is_day_key(day_key(s)),
        is_clock_minute(minute_key(s)),
{
    lemma_dec_chars(s.year as nat);
    lemma_dec_chars(s.month as nat);
    lemma_dec_chars(s.day as nat);
    lemma_dec_chars(s.hour as nat);
    lemma_dec_chars(s.minute as nat);
    lemma_zero_padded(s.year as nat, 4);
    lemma_zero_padded(s.month as nat, 2);
    lemma_zero_padded(s.day as nat, 2);
    lemma_zero_padded(s.hour as nat, 2);
    lemma_zero_padded(s.minute as nat, 2);
    let y = zero_padded(s.year as nat, 4);
    let m = zero_padded(s.month as nat, 2);
    let d = zero_padded(s.day as nat, 2);
    let k = day_key(s);
    assert(k == y + m + d);
    assert forall|i: int| 0 <= i < 8 implies is_digit_char(#[trigger] k[i]) by {
        if i < 4 {
            assert(k[i] == y[i]);
        } else if i < 6 {
            assert(k[i] == m[i - 4]);
        } else {
            assert(k[i] == d[i - 6]);
        }
    }
    let h = zero_padded(s.hour as nat, 2);
    let mi = zero_padded(s.minute as nat, 2);
    let c = minute_key(s);
    assert(c[0] == h[0] && c[1] == h[1] && c[2] == ':' && c[3] == mi[0] && c[4] == mi[1]);
}

/// The one-character text of the decimal digit `k`.
fn digit_str(k: u64) -> (s: &'static str)
    requires
        k < 10,
    ensures
        s@ == seq![digit_char(k as nat)],
{
    proof {
        reveal_strlit("0");
        reveal_strlit("1");
        reveal_strlit("2");
        reveal_strlit("3");
        reveal_strlit("4");
        reveal_strlit("5");
        reveal_strlit("6");
        reveal_strlit("7");
        reveal_strlit("8");
        reveal_strlit("9");
    }
    if k == 0 {
        "0"
    } else if k == 1 {
        "1"
    } else if k == 2 {
        "2"
    } else if k == 3 {
        "3"
    } else if k == 4 {
        "4"
    } else if k == 5 {
        "5"
    } else if k == 6 {
        "6"
    } else if k == 7 {
        "7"
    } else if k == 8 {
        "8"
    } else {
        "9"
    }
}

/// Appends the decimal digits of `n`.
fn push_decimal(s: &mut String, n: u64)
    ensures
        final(s)@ == old(s)@ + dec_chars(n as nat),
    decreases n,
{
    if n >= 10 {
        push_decimal(s, n / 10);
    }
    s.append(digit_str(n % 10));
    assert(final(s)@ =~= old(s)@ + dec_chars(n as nat));
}

proof fn lemma_dec_len(n: nat)
    ensures
        dec_chars(n).len() <= n / 10 + 1,
    decreases n,
{
    if n >= 10 {
        lemma_dec_len(n / 10);
    }
}

/// The decimal digits of `n` (as `Display` writes an unsigned integer).
pub fn decimal(n: u64) -> (t: String)
    ensures
        t@ == dec_chars(n as nat),
{
    let mut t = String::new();
    push_decimal(&mut t, n);
    assert(t@ =~= dec_chars(n as nat));
    t
}

/// Number of decimal digits of `n`.
fn digit_count(n: u64) -> (c: u64)
    ensures
        c == dec_chars(n as nat).len(),
    decreases n,
{
    if n < 10 {
        1
    } else {
        let c = digit_count(n / 10);
        proof {
            lemma_dec_len((n / 10) as nat);
        }
        c + 1
    }
}

/// Appends the decimal digits of `n`, left-padded with zeros to `width`.
fn push_padded(s: &mut String, n: u64, width: u64)
    ensures
        final(s)@ == old(s)@ + zero_padded(n as nat, width as nat),
{
    let c = digit_count(n);
    let mut i: u64 = c;
    let ghost start = s@;
    while i < width
        invariant
            c == dec_chars(n as nat).len(),
            c <= i,
            i == c || i <= width,
            s@ == start + Seq::new((i - c) as nat, |j: int| '0'),
        decreases width - i,
    {
        s.append(digit_str(0));
        assert(s@ =~= start + Seq::new((i + 1 - c) as nat, |j: int| '0'));
        i = i + 1;
    }
    push_decimal(s, n);
    if c < width {
        assert(s@ =~= start + zero_padded(n as nat, width as nat));
    } else {
        assert(Seq::new((i - c) as nat, |j: int| '0') =~= Seq::<char>::empty());
        assert(s@ =~= start + zero_padded(n as nat, width as nat));
    }
}

impl LocalStamp {
    /// The day as `%Y%m%d`, the name of the day's record file.
    pub fn day_text(&self) -> (t: String)
        ensures
            t@ == day_key(*self),
    {
        let mut t = String::new();
        let y = self.year;
        if 0 <= y && y <= 9999 {
            push_padded(&mut t, y as u64, 4);
        } else if y > 9999 {
            t.append("+");
            proof {
                reveal_strlit("+");
            }
            push_padded(&mut t, y as u64, 4);
        } else {
            t.append("-");
            proof {
                reveal_strlit("-");
            }
            let a: i64 = -(y as i64);
            push_padded(&mut t, a as u64, 4);
        }
        push_padded(&mut t, self.month as u64, 2);
        push_padded(&mut t, self.day as u64, 2);
        assert(t@ =~= day_key(*self));
        t
    }

    /// The minute as `%H:%M`, the header of the minute's group.
    pub fn minute_text(&self) -> (t: String)
        ensures
            t@ == minute_key(*self),
    {
        let mut t = String::new();
        push_padded(&mut t, self.hour as u64, 2);
        t.append(":");
        proof {
            reveal_strlit(":");
        }
        push_padded(&mut t, self.minute as u64, 2);
        assert(t@ =~= minute_key(*self));
        t
    }
}

/// The number that a sequence of decimal digit characters denotes.
pub open spec fn digits_value(s: Seq<char>) -> nat
    decreases s.len(),
{
    if s.len() == 0 {
        0
    } else {
        digits_value(s.drop_last()) * 10 + ((s.last() as int - 48) as nat)
    }
}

proof fn lemma_digit_char_code(k: nat)
    requires
        k < 10,
    ensures
        digit_char(k) as int == 48 + k,
{
}

proof fn lemma_dec_chars_value(n: nat)
    ensures
        digits_value(dec_chars(n)) == n,
    decreases n,
{
    let d = dec_chars(n);
    if n < 10 {
        lemma_digit_char_code(n);
        assert(d == seq![digit_char(n)]);
        assert(d.drop_last() =~= Seq::<char>::empty());
        assert(d.last() == digit_char(n));
        assert(digits_value(d) == digits_value(d.drop_last()) * 10 + ((d.last() as int - 48) as nat));
    } else {
        lemma_dec_chars_value(n / 10);
        lemma_digit_char_code(n % 10);
        assert(d.drop_last() =~= dec_chars(n / 10));
        assert(d.last() == digit_char(n % 10));
        assert(digits_value(d) == digits_value(d.drop_last()) * 10 + ((d.last() as int - 48) as nat));
        assert(n == (n / 10) * 10 + n % 10);
    }
}

proof fn lemma_leading_zeros_value(z: nat, d: Seq<char>)
    ensures
        digits_value(Seq::new(z, |i: int| '0') + d) == digits_value(d),
    decreases d.len() + z,
{
    let zs = Seq::new(z, |i: int| '0');
    if d.len() == 0 {
        assert(zs + d =~= zs);
        if z > 0 {
            assert(zs.drop_last() =~= Seq::new((z - 1) as nat, |i: int| '0'));
            lemma_leading_zeros_value((z - 1) as nat, d);
            assert(Seq::new((z - 1) as nat, |i: int| '0') + d =~= Seq::new(
                (z - 1) as nat,
                |i: int| '0',
            ));
        }
    } else {
        assert((zs + d).drop_last() =~= zs + d.drop_last());
        lemma_leading_zeros_value(z, d.drop_last());
    }
}

proof fn lemma_zero_padded_value(n: nat, width: nat)
    ensures
        digits_value(zero_padded(n, width)) == n,
{
    lemma_dec_chars_value(n);
    let d = dec_chars(n);
    if d.len() < width {
        lemma_leading_zeros_value((width - d.len()) as nat, d);
    }
}

/// The day key of an in-range stamp reads back as its date: its first four
/// digits are the year, the next two the month, the last two the day.
pub proof fn law_day_key_reads_back(s: LocalStamp)
    requires
        stamp_in_range(s),
    ensures
        day_key(s).len() == 8,
        digits_value(day_key(s).subrange(0, 4)) == s.year,
        digits_value(day_key(s).subrange(4, 6)) == s.month,
        digits_value(day_key(s).subrange(6, 8)) == s.day,
{
    lemma_keys_in_range(s);
    lemma_dec_chars(s.year as nat);
    lemma_dec_chars(s.month as nat);
    lemma_dec_chars(s.day as nat);
    lemma_zero_padded(s.year as nat, 4);
    lemma_zero_padded(s.month as nat, 2);
    lemma_zero_padded(s.day as nat, 2);
    let y = zero_padded(s.year as nat, 4);
    let m = zero_padded(s.month as nat, 2);
    let d = zero_padded(s.day as nat, 2);
    assert(day_key(s).subrange(0, 4) =~= y);
    assert(day_key(s).subrange(4, 6) =~= m);
    assert(day_key(s).subrange(6, 8) =~= d);
    lemma_zero_padded_value(s.year as nat, 4);
    lemma_zero_padded_value(s.month as nat, 2);
    lemma_zero_padded_value(s.day as nat, 2);
}

/// The minute key of an in-range stamp reads back as its time: two digits
/// of hour, a colon, two digits of minute.
pub proof fn law_minute_key_reads_back(s: LocalStamp)
    requires
        stamp_in_range(s),
    ensures
        minute_key(s).len() == 5,
        digits_value(minute_key(s).subrange(0, 2)) == s.hour,
        minute_key(s)[2] == ':',
        digits_value(minute_key(s).subrange(3, 5)) == s.minute,
{
    lemma_keys_in_range(s);
    lemma_dec_chars(s.hour as nat);
    lemma_dec_chars(s.minute as nat);
    lemma_zero_padded(s.hour as nat, 2);
    lemma_zero_padded(s.minute as nat, 2);
    let h = zero_padded(s.hour as nat, 2);
    let m = zero_padded(s.minute as nat, 2);
    assert(minute_key(s).subrange(0, 2) =~= h);
    assert(minute_key(s).subrange(3, 5) =~= m);
    lemma_zero_padded_value(s.hour as nat, 2);
    lemma_zero_padded_value(s.minute as nat, 2);
}

/// Any number's decimal digits read back as the number.
pub proof fn law_decimal_reads_back(n: nat)
    ensures
        digits_value(dec_chars(n)) == n,
        forall|i: int| 0 <= i < dec_chars(n).len() ==> is_digit_char(#[trigger] dec_chars(n)[i]),
        dec_chars(n).len() >= 1,
        dec_chars(n).len() > 1 ==> dec_chars(n)[0] != '0',
    decreases n,
{
    lemma_dec_chars_value(n);
    lemma_dec_chars(n);
    if n >= 10 {
        law_decimal_reads_back(n / 10);
        assert(dec_chars(n)[0] == dec_chars(n / 10)[0]);
        if n / 10 < 10 {
            assert(n / 10 >= 1);
            assert(dec_chars(n / 10) == seq![digit_char(n / 10)]);
            lemma_digit_char_code(n / 10);
            lemma_digit_char_code(0);
            assert(digit_char(n / 10) != digit_char(0));
        } else {
            lemma_dec_chars(n / 100);
            assert(dec_chars(n / 10) == dec_chars(n / 10 / 10) + seq![digit_char(n / 10 % 10)]);
            assert(dec_chars(n / 10).len() > 1);
        }
    }
}

/// A second of audio (16 000 samples) lies 10^9 nanoseconds later, and the
/// first sample starts at the first audio.
pub proof fn law_segment_time_scale(first_nanos: u64, start_sample: i64)
    requires
        start_sample <= i64::MAX - 16000,
    ensures
        segment_nanos(first_nanos, (start_sample + 16000) as i64) == segment_nanos(
            first_nanos,
            start_sample,
        ) + 1_000_000_000,
        segment_nanos(first_nanos, 0) == first_nanos,
{
}

} // verus!
