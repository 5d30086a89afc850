//! The daily transcript records.
//!
//! Each recognized sentence goes to the file of its local day,
//! `YYYYMMDD.txt`, under the records directory. Within a file, sentences are
//! grouped by minute: a line `HH:MM` opens each minute, and each sentence is
//! a line of a tab, the second, a space and the text:
//!
//! ```text
//! 14:30
//! 	15 Hello everyone, let's start the meeting.
//! ```
//!
//! `TranscriptWriter` holds the decisions; the caller owns the file handle,
//! opens the file it is told to and appends the bytes it is given.
use vstd::prelude::*;
use vstd::string::StringSliceAdditionalSpecFns;
use crate::config::str_eq;
use crate::clock::{LocalStamp, day_key, minute_key, dec_chars, decimal};

verus! {

/// Unicode `White_Space`, which std's `str::trim` removes.
pub open spec fn is_white_space(c: char) -> bool {
    let u = c as u32;
    ||| 0x9 <= u <= 0xd
    ||| u == 0x20
    ||| u == 0x85
    ||| u == 0xa0
    ||| u == 0x1680
    ||| 0x2000 <= u <= 0x200a
    ||| u == 0x2028
    ||| u == 0x2029
    ||| u == 0x202f
    ||| u == 0x205f
    ||| u == 0x3000
}

/// Number of white-space characters at the start of `s`.
pub open spec fn leading_ws(s: Seq<char>) -> nat
    decreases s.len(),
{
    if s.len() > 0 && is_white_space(s[0]) {
        1 + leading_ws(s.drop_first())
    } else {
        0
    }
}

/// Number of white-space characters at the end of `s`.
pub open spec fn trailing_ws(s: Seq<char>) -> nat
    decreases s.len(),
{
    if s.len() > 0 && is_white_space(s.last()) {
        1 + trailing_ws(s.drop_last())
    } else {
        0
    }
}

/// `s` without its leading and trailing white space.
pub open spec fn trimmed(s: Seq<char>) -> Seq<char> {
    let t = s.skip(leading_ws(s) as int);
    t.take(t.len() - trailing_ws(t))
}

proof fn lemma_leading_ws(s: Seq<char>, k: int)
    requires
        0 <= k <= s.len(),
        forall|j: int| 0 <= j < k ==> is_white_space(#[trigger] s[j]),
        k < s.len() ==> !is_white_space(s[k]),
    ensures
        leading_ws(s) == k,
    decreases k,
{
    if k > 0 {
        assert forall|j: int| 0 <= j < k - 1 implies is_white_space(
            #[trigger] s.drop_first()[j],
        ) by {
            assert(s.drop_first()[j] == s[j + 1]);
        }
        if k - 1 < s.len() - 1 {
            assert(s.drop_first()[k - 1] == s[k]);
        }
        lemma_leading_ws(s.drop_first(), k - 1);
    }
}

proof fn lemma_trailing_ws(s: Seq<char>, k: int)
    requires
        0 <= k <= s.len(),
        forall|j: int| s.len() - k <= j < s.len() ==> is_white_space(#[trigger] s[j]),
        k < s.len() ==> !is_white_space(s[s.len() - k - 1]),
    ensures
        trailing_ws(s) == k,
    decreases k,
{
    if k > 0 {
        let d = s.drop_last();
        assert forall|j: int| d.len() - (k - 1) <= j < d.len() implies is_white_space(
            #[trigger] d[j],
        ) by {
            assert(d[j] == s[j]);
        }
        if k - 1 < d.len() {
            assert(d[d.len() - (k - 1) - 1] == s[s.len() - k - 1]);
        }
        lemma_trailing_ws(d, k - 1);
    }
}

/// Whether `c` is Unicode white space.
fn white_space(c: char) -> (r: bool)
    ensures
        r == is_white_space(c),
{
    let u = c as u32;
    (0x9 <= u && u <= 0xd) || u == 0x20 || u == 0x85 || u == 0xa0 || u == 0x1680 || (0x2000 <= u
        && u <= 0x200a) || u == 0x2028 || u == 0x2029 || u == 0x202f || u == 0x205f || u == 0x3000
}

/// `s` with leading and trailing Unicode white space removed, as std's
/// `str::trim` does.
pub fn trim(s: &str) -> (r: &str)
    ensures
        r@ == trimmed(s@),
{
    let n = s.unicode_len();
    let mut a: usize = 0;
    while a < n && white_space(s.get_char(a))
        invariant
            n == s@.len(),
            a <= n,
            forall|j: int| 0 <= j < a ==> is_white_space(#[trigger] s@[j]),
        decreases n - a,
    {
        a = a + 1;
    }
    proof {
        lemma_leading_ws(s@, a as int);
    }
    let ghost t = s@.skip(a as int);
    let mut b: usize = n;
    while b > a && white_space(s.get_char(b - 1))
        invariant
            n == s@.len(),
            a <= b <= n,
            t == s@.skip(a as int),
            forall|j: int| b <= j < n ==> is_white_space(#[trigger] s@[j]),
        decreases b - a,
    {
        b = b - 1;
    }
    proof {
        let k = (n - b) as int;
        assert forall|j: int| t.len() - k <= j < t.len() implies is_white_space(#[trigger] t[j]) by {
            assert(t[j] == s@[j + a]);
        }
        if k < t.len() {
            assert(t[t.len() - k - 1] == s@[b - 1]);
        }
        lemma_trailing_ws(t, k);
        assert(t.take(t.len() - k) =~= s@.subrange(a as int, b as int));
    }
    s.substring_char(a, b)
}

/// The text of a recognition result worth recording: the result trimmed,
/// when anything remains.
pub fn transcript_text(raw: &str) -> (t: Option<&str>)
    ensures
        trimmed(raw@).len() == 0 ==> t is None,
        trimmed(raw@).len() > 0 ==> (t matches Some(s) && s@ == trimmed(raw@)),
{
    let s = trim(raw);
    if s.is_empty() {
        None
    } else {
        Some(s)
    }
}

/// Appends the bytes of `bytes` to `out`.
pub(crate) fn push_bytes(out: &mut Vec<u8>, bytes: &[u8])
    ensures
        final(out)@ == old(out)@ + bytes@,
{
    let mut v = vstd::slice::slice_to_vec(bytes);
    out.append(&mut v);
}

/// The state of the record writer.
pub struct WriterState {
    /// The day of the file last opened, if any.
    pub day: Option<Seq<char>>,
    /// The minute of the last header, if any.
    pub minute: Option<Seq<char>>,
    /// Whether a file is open for appending.
    pub file_open: bool,
}

/// Decides what goes into the daily record files.
pub struct TranscriptWriter {
    cur_day: Option<String>,
    cur_minute: Option<String>,
    file_open: bool,
}

impl View for TranscriptWriter {
    type V = WriterState;

    closed spec fn view(&self) -> WriterState {
        WriterState {
            day: match self.cur_day {
                Some(d) => Some(d@),
                None => None,
            },
            minute: match self.cur_minute {
                Some(m) => Some(m@),
                None => None,
            },
            file_open: self.file_open,
        }
    }
}

/// The name of the record file of a day.
pub open spec fn record_file_name(day: Seq<char>) -> Seq<char> {
    day + ".txt"@
}

/// Whether a sentence stamped with `day` needs another file than the one
/// last opened.
pub open spec fn needs_file(w: WriterState, day: Seq<char>) -> bool {
    w.day != Some(day)
}

/// The state once the file of `day` is open: no minute written in it yet.
pub open spec fn after_open(day: Seq<char>) -> WriterState {
    WriterState { day: Some(day), minute: None, file_open: true }
}

/// The header line of a minute.
pub open spec fn minute_header(minute: Seq<char>) -> Seq<u8> {
    vstd::utf8::encode_utf8(minute) + seq![10u8]
}

/// The line of a sentence: a tab, the second, a space, the text.
pub open spec fn entry_line(second: u32, text: Seq<char>) -> Seq<u8> {
    seq![9u8] + vstd::utf8::encode_utf8(dec_chars(second as nat)) + seq![32u8] + vstd::utf8::encode_utf8(text)
        + seq![10u8]
}

/// The bytes appended to the open file for a sentence: the minute's header
/// when the minute differs from the last one, then the sentence's line;
/// nothing when no file is open.
pub open spec fn entry_bytes(w: WriterState, minute: Seq<char>, second: u32, text: Seq<char>) -> Seq<u8> {
    if !w.file_open {
        Seq::<u8>::empty()
    } else if w.minute != Some(minute) {
        minute_header(minute) + entry_line(second, text)
    } else {
        entry_line(second, text)
    }
}

/// The state after a sentence of `minute`.
pub open spec fn after_entry(w: WriterState, minute: Seq<char>) -> WriterState {
    WriterState { day: w.day, minute: Some(minute), file_open: w.file_open }
}

impl TranscriptWriter {
    /// A writer that has opened no file yet.
    pub fn new() -> (w: TranscriptWriter)
        ensures
            w@ == (WriterState { day: None, minute: None, file_open: false }),
    {
        TranscriptWriter { cur_day: None, cur_minute: None, file_open: false }
    }

    /// First step of recording a sentence stamped `stamp`: when its day is
    /// not the day of the file last opened, the current file is to be
    /// closed and the returned file opened for appending; the writer then
    /// holds no open file until `file_opened` is called.
    pub fn file_to_open(&mut self, stamp: &LocalStamp) -> (name: Option<String>)
        ensures
            needs_file(old(self)@, day_key(*stamp)) ==> {
                &&& (name matches Some(n) && n@ == record_file_name(day_key(*stamp)))
                &&& final(self)@ == (WriterState { file_open: false, ..old(self)@ })
            },
            !needs_file(old(self)@, day_key(*stamp)) ==> name is None && final(self)@ == old(
                self,
            )@,
    {
        let day = stamp.day_text();
        let same = match &self.cur_day {
            Some(d) => str_eq(d.as_str(), day.as_str()),
            None => false,
        };
        if same {
            None
        } else {
            self.file_open = false;
            Some(day.concat(".txt"))
        }
    }

    /// The file of `stamp`'s day was opened.
    pub fn file_opened(&mut self, stamp: &LocalStamp)
        ensures
            final(self)@ == after_open(day_key(*stamp)),
    {
        self.cur_day = Some(stamp.day_text());
        self.cur_minute = None;
        self.file_open = true;
    }

    /// Second step of recording a sentence: the bytes to append to the open
    /// file for `text` stamped `stamp`.
    pub fn entry(&mut self, stamp: &LocalStamp, text: &str) -> (out: Vec<u8>)
        ensures
            out@ == entry_bytes(old(self)@, minute_key(*stamp), stamp.second, text@),
            final(self)@ == after_entry(old(self)@, minute_key(*stamp)),
    {
        let mut out: Vec<u8> = Vec::new();
        let minute = stamp.minute_text();
        let new_minute = match &self.cur_minute {
            Some(m) => !str_eq(m.as_str(), minute.as_str()),
            None => true,
        };
        if new_minute {
            if self.file_open {
                push_bytes(&mut out, minute.as_str().as_bytes());
                out.push(10u8);
            }
            self.cur_minute = Some(minute);
        }
        if self.file_open {
            out.push(9u8);
            let digits = decimal(stamp.second as u64);
            push_bytes(&mut out, digits.as_str().as_bytes());
            out.push(32u8);
            push_bytes(&mut out, text.as_bytes());
            out.push(10u8);
        }
        assert(out@ =~= entry_bytes(old(self)@, minute_key(*stamp), stamp.second, text@));
        out
    }
}

/// Within one open file, a minute's header is written only before its
/// first sentence: a second sentence of the same minute adds just its line.
pub proof fn law_header_once_per_minute(
    w: WriterState,
    minute: Seq<char>,
    s1: u32,
    t1: Seq<char>,
    s2: u32,
    t2: Seq<char>,
)
    requires
        w.file_open,
    ensures
        entry_bytes(w, minute, s1, t1) == (if w.minute == Some(minute) {
            entry_line(s1, t1)
        } else {
            minute_header(minute) + entry_line(s1, t1)
        }),
        entry_bytes(after_entry(w, minute), minute, s2, t2) == entry_line(s2, t2),
{
}

/// A newly opened day file starts with the header of the minute of its
/// first sentence, even when that minute was the last one written before.
pub proof fn law_new_file_starts_with_header(day: Seq<char>, minute: Seq<char>, second: u32, text: Seq<char>)
    ensures
        entry_bytes(after_open(day), minute, second, text) == minute_header(minute) + entry_line(
            second,
            text,
        ),
{
}

/// Sentences of the day whose file is open never ask for another file.
pub proof fn law_same_day_same_file(day: Seq<char>, minute: Seq<char>)
    ensures
        !needs_file(after_open(day), day),
        !needs_file(after_entry(after_open(day), minute), day),
{
}

/// The bytes appended for a sequence of sentences with minutes `ms`,
/// seconds `secs` and texts `ts`, recorded in order from state `w`.
pub open spec fn run_bytes(w: WriterState, ms: Seq<Seq<char>>, secs: Seq<u32>, ts: Seq<Seq<char>>) -> Seq<u8>
    decreases ms.len(),
{
    if ms.len() == 0 || secs.len() == 0 || ts.len() == 0 {
        Seq::<u8>::empty()
    } else {
        entry_bytes(w, ms[0], secs[0], ts[0]) + run_bytes(
            after_entry(w, ms[0]),
            ms.drop_first(),
            secs.drop_first(),
            ts.drop_first(),
        )
    }
}

/// Whether sentence `i` opens a new minute: its minute differs from the
/// previous sentence's, or, for the first, from the minute last written
/// (`prev`).
pub open spec fn opens_minute(prev: Option<Seq<char>>, ms: Seq<Seq<char>>, i: int) -> bool {
    if i == 0 {
        prev != Some(ms[0])
    } else {
        ms[i - 1] != ms[i]
    }
}

/// What sentence `i` adds to the file: the minute's header when it opens a
/// new minute, then its line.
pub open spec fn sentence_bytes(
    prev: Option<Seq<char>>,
    ms: Seq<Seq<char>>,
    secs: Seq<u32>,
    ts: Seq<Seq<char>>,
    i: int,
) -> Seq<u8> {
    (if opens_minute(prev, ms, i) {
        minute_header(ms[i])
    } else {
        Seq::<u8>::empty()
    }) + entry_line(secs[i], ts[i])
}

/// Over a whole sequence of sentences written to an open file, the file
/// receives, in call order, each sentence's line, preceded by its minute's
/// header exactly when the minute changes: one header per run of sentences
/// of the same minute (so one per minute when the times do not go back).
pub proof fn law_minute_groups(w: WriterState, ms: Seq<Seq<char>>, secs: Seq<u32>, ts: Seq<Seq<char>>)
    requires
        w.file_open,
        secs.len() == ms.len(),
        ts.len() == ms.len(),
    ensures
        run_bytes(w, ms, secs, ts) == Seq::new(
            ms.len(),
            |i: int| sentence_bytes(w.minute, ms, secs, ts, i),
        ).flatten(),
    decreases ms.len(),
{
    let all = Seq::new(ms.len(), |i: int| sentence_bytes(w.minute, ms, secs, ts, i));
    if ms.len() == 0 {
        assert(all.flatten() =~= Seq::<u8>::empty());
    } else {
        let w1 = after_entry(w, ms[0]);
        let (ms1, secs1, ts1) = (ms.drop_first(), secs.drop_first(), ts.drop_first());
        law_minute_groups(w1, ms1, secs1, ts1);
        let rest = Seq::new(ms1.len(), |i: int| sentence_bytes(w1.minute, ms1, secs1, ts1, i));
        assert forall|i: int| 0 <= i < rest.len() implies #[trigger] all.drop_first()[i] == rest[i] by {
            assert(ms1[i] == ms[i + 1]);
            assert(secs1[i] == secs[i + 1]);
            assert(ts1[i] == ts[i + 1]);
            if i > 0 {
                assert(ms1[i - 1] == ms[i]);
            }
        }
        assert(all.drop_first() =~= rest);
        assert(all.first() == entry_bytes(w, ms[0], secs[0], ts[0])) by {
            assert(all.first() == sentence_bytes(w.minute, ms, secs, ts, 0));
            assert(Seq::<u8>::empty() + entry_line(secs[0], ts[0]) =~= entry_line(secs[0], ts[0]));
        }
    }
}

/// The minutes of a sequence of sentences come in runs: once another
/// minute has come, an earlier one never returns (as with sentences whose
/// times do not go back).
pub open spec fn minutes_in_runs(ms: Seq<Seq<char>>) -> bool {
    forall|i: int, j: int, k: int|
        0 <= i < j < k < ms.len() && #[trigger] ms[i] == #[trigger] ms[k] ==> #[trigger] ms[j]
            == ms[i]
}

/// Whether sentence `i` is the first of its minute in the sequence.
pub open spec fn first_of_minute(ms: Seq<Seq<char>>, i: int) -> bool {
    forall|j: int| 0 <= j < i ==> #[trigger] ms[j] != ms[i]
}

/// A day file, opened anew and written with sentences whose minutes come in
/// runs, gets exactly one header per minute: before the first sentence of
/// that minute, and then each sentence's line in call order.
pub proof fn law_one_header_per_minute(
    day: Seq<char>,
    ms: Seq<Seq<char>>,
    secs: Seq<u32>,
    ts: Seq<Seq<char>>,
)
    requires
        minutes_in_runs(ms),
        secs.len() == ms.len(),
        ts.len() == ms.len(),
    ensures
        run_bytes(after_open(day), ms, secs, ts) == Seq::new(
            ms.len(),
            |i: int|
                (if first_of_minute(ms, i) {
                    minute_header(ms[i])
                } else {
                    Seq::<u8>::empty()
                }) + entry_line(secs[i], ts[i]),
        ).flatten(),
{
    law_minute_groups(after_open(day), ms, secs, ts);
    let a = Seq::new(ms.len(), |i: int| sentence_bytes(None, ms, secs, ts, i));
    let b = Seq::new(
        ms.len(),
        |i: int|
            (if first_of_minute(ms, i) {
                minute_header(ms[i])
            } else {
                Seq::<u8>::empty()
            }) + entry_line(secs[i], ts[i]),
    );
    assert forall|i: int| 0 <= i < ms.len() implies #[trigger] a[i] == b[i] by {
        if i > 0 {
            if ms[i - 1] == ms[i] {
                assert(!first_of_minute(ms, i));
            } else {
                assert forall|j: int| 0 <= j < i implies #[trigger] ms[j] != ms[i] by {
                    if ms[j] == ms[i] && j < i - 1 {
                        assert(ms[i - 1] == ms[j]);
                    }
                }
            }
        }
    }
    assert(a =~= b);
}

proof fn lemma_leading_props(s: Seq<char>)
    ensures
        leading_ws(s) <= s.len(),
        forall|j: int| 0 <= j < leading_ws(s) ==> is_white_space(#[trigger] s[j]),
        leading_ws(s) < s.len() ==> !is_white_space(s[leading_ws(s) as int]),
    decreases s.len(),
{
    if s.len() > 0 && is_white_space(s[0]) {
        let d = s.drop_first();
        lemma_leading_props(d);
        assert forall|j: int| 0 <= j < leading_ws(s) implies is_white_space(#[trigger] s[j]) by {
            if j > 0 {
                assert(s[j] == d[j - 1]);
            }
        }
        if leading_ws(s) < s.len() {
            assert(s[leading_ws(s) as int] == d[leading_ws(d) as int]);
        }
    }
}

proof fn lemma_trailing_props(s: Seq<char>)
    ensures
        trailing_ws(s) <= s.len(),
        forall|j: int| s.len() - trailing_ws(s) <= j < s.len() ==> is_white_space(#[trigger] s[j]),
        trailing_ws(s) < s.len() ==> !is_white_space(s[s.len() - trailing_ws(s) - 1]),
    decreases s.len(),
{
    if s.len() > 0 && is_white_space(s.last()) {
        let d = s.drop_last();
        lemma_trailing_props(d);
        assert forall|j: int| s.len() - trailing_ws(s) <= j < s.len() implies is_white_space(
            #[trigger] s[j],
        ) by {
            if j < s.len() - 1 {
                assert(s[j] == d[j]);
            }
        }
        if trailing_ws(s) < s.len() {
            assert(s[s.len() - trailing_ws(s) - 1] == d[d.len() - trailing_ws(d) - 1]);
        }
    }
}

/// Trimming removes white space at both ends and nothing else: the result
/// is a stretch of the text, everything before and after it is white
/// space, and it neither starts nor ends with white space.
pub proof fn law_trim_shape(s: Seq<char>)
    ensures
        exists|a: int|
            #![trigger s.subrange(a, a + trimmed(s).len())]
            0 <= a && a + trimmed(s).len() <= s.len() && s.subrange(a, a + trimmed(s).len())
                == trimmed(s) && (forall|j: int| 0 <= j < a ==> is_white_space(#[trigger] s[j]))
                && (forall|j: int|
                a + trimmed(s).len() <= j < s.len() ==> is_white_space(#[trigger] s[j])),
        trimmed(s).len() > 0 ==> !is_white_space(trimmed(s)[0]) && !is_white_space(
            trimmed(s)[trimmed(s).len() - 1],
        ),
{
    lemma_leading_props(s);
    let a = leading_ws(s) as int;
    let t = s.skip(a);
    lemma_trailing_props(t);
    let k = trailing_ws(t) as int;
    let r = trimmed(s);
    assert(r == t.take(t.len() - k));
    assert(s.subrange(a, a + r.len()) =~= r);
    assert forall|j: int| a + r.len() <= j < s.len() implies is_white_space(#[trigger] s[j]) by {
        assert(s[j] == t[j - a]);
    }
    if r.len() > 0 {
        assert(r[0] == t[0]);
        assert(t[0] == s[a]);
        assert(r[r.len() - 1] == t[t.len() - k - 1]);
    }
}

/// The line of a sentence is a tab, the decimal digits of its second, a
/// space, the text and a newline; a minute's header is the minute and a
/// newline; a day's file is named after the day with `.txt`.
pub proof fn law_record_lines(second: u32, text: Seq<char>, minute: Seq<char>, day: Seq<char>)
    ensures
        exists|d: Seq<char>|
            #![trigger crate::clock::digits_value(d)]
            crate::clock::digits_value(d) == second && d.len() >= 1 && (forall|i: int|
                0 <= i < d.len() ==> crate::clock::is_digit_char(#[trigger] d[i]))
                && entry_line(second, text) == seq![9u8] + vstd::utf8::encode_utf8(d) + seq![32u8]
                + vstd::utf8::encode_utf8(text) + seq![10u8],
        minute_header(minute) == vstd::utf8::encode_utf8(minute) + seq![10u8],
        record_file_name(day) == day + seq!['.', 't', 'x', 't'],
{
    crate::clock::law_decimal_reads_back(second as nat);
    let d = dec_chars(second as nat);
    assert(crate::clock::digits_value(d) == second);
    reveal_strlit(".txt");
    assert(".txt"@ =~= seq!['.', 't', 'x', 't']);
}

} // verus!
