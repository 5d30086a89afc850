//! Reading the host's replies: configuration values arrive as (possibly
//! quoted) text in a byte buffer, the audio state as a small JSON object
//! from which the plugin picks unsigned numbers by key.
use vstd::prelude::*;
use vstd::string::StringSliceAdditionalSpecFns;

verus! {

/// The characters that std's `String::from_utf8_lossy` makes of `bytes`.
pub uninterp spec fn lossy_utf8(bytes: Seq<u8>) -> Seq<char>;

/// Calls std's `String::from_utf8_lossy` and takes the result as an owned
/// `String`. The contract claims that the characters are a function of the
/// bytes, named `lossy_utf8`, and, as std documents, that valid UTF-8 is
/// decoded unchanged; how invalid sequences are replaced is left unsaid.
#[verifier::external_body]
pub(crate) fn decode_lossy(bytes: &[u8]) -> (s: String)
    ensures
        s@ == lossy_utf8(bytes@),
        vstd::utf8::valid_utf8(bytes@) ==> s@ == vstd::utf8::decode_utf8(bytes@),
{
    String::from_utf8_lossy(bytes).into_owned()
}

/// The text `s` without one pair of enclosing double quotes, when it has
/// them (a lone `"` has no pair).
pub open spec fn unquoted(s: Seq<char>) -> Seq<char> {
    if s.len() >= 2 && s[0] == '"' && s[s.len() - 1] == '"' {
        s.subrange(1, s.len() - 1)
    } else {
        s
    }
}

/// Strips one pair of enclosing double quotes from `s`, if it has them.
pub fn unquote(s: &str) -> (r: &str)
    ensures
        r@ == unquoted(s@),
{
    let n = s.unicode_len();
    if n >= 2 && s.get_char(0) == '"' && s.get_char(n - 1) == '"' {
        s.substring_char(1, n - 1)
    } else {
        s
    }
}

/// The configuration value carried by a reply of the host: when the call
/// succeeded and reported a non-empty size, the first `min(size, buf.len())`
/// bytes, decoded as by `from_utf8_lossy` and unquoted; otherwise empty.
pub open spec fn config_value(ok: bool, buf: Seq<u8>, size: nat) -> Seq<char> {
    if ok && size > 0 {
        let n = if size < buf.len() {
            size
        } else {
            buf.len()
        };
        unquoted(lossy_utf8(buf.take(n as int)))
    } else {
        Seq::<char>::empty()
    }
}

/// Makes the value of a configuration key out of the host's reply: `ok`
/// tells whether the call succeeded, `buf` is the reply buffer and `size`
/// the length the host reported.
pub fn cfg_value_from_reply(ok: bool, buf: &[u8], size: u32) -> (v: String)
    ensures
        v@ == config_value(ok, buf@, size as nat),
{
    if ok && size > 0 {
        let n: usize = if (size as usize) < buf.len() {
            size as usize
        } else {
            buf.len()
        };
        let text = decode_lossy(vstd::slice::slice_subrange(buf, 0, n));
        let inner = unquote(text.as_str());
        inner.to_owned()
    } else {
        String::new()
    }
}

/// ASCII digit.
pub open spec fn is_digit(b: u8) -> bool {
    48 <= b <= 57
}

/// Whether `pat` occurs in `hay` at byte position `i`.
pub open spec fn occurs_at(hay: Seq<u8>, pat: Seq<u8>, i: int) -> bool {
    0 <= i && i + pat.len() <= hay.len() && hay.subrange(i, i + pat.len()) == pat
}

/// The first position at or after `start` where `pat` occurs in `hay`.
pub open spec fn find_from(hay: Seq<u8>, pat: Seq<u8>, start: int) -> Option<int>
    decreases hay.len() + 1 - start,
{
    if start < 0 || start + pat.len() > hay.len() {
        None
    } else if occurs_at(hay, pat, start) {
        Some(start)
    } else {
        find_from(hay, pat, start + 1)
    }
}

/// Number of leading ASCII digits of `s`.
pub open spec fn digit_run(s: Seq<u8>) -> nat
    decreases s.len(),
{
    if s.len() > 0 && is_digit(s[0]) {
        1 + digit_run(s.drop_first())
    } else {
        0
    }
}

/// The number that the decimal digits `d` denote.
pub open spec fn decimal_value(d: Seq<u8>) -> nat
    decreases d.len(),
{
    if d.len() == 0 {
        0
    } else {
        decimal_value(d.drop_last()) * 10 + (d.last() - 48) as nat
    }
}

/// The bytes `"key":` that introduce the value of `key` in a JSON object.
pub open spec fn key_pattern(key: Seq<u8>) -> Seq<u8> {
    seq![34u8] + key + seq![34u8, 58u8]
}

/// The number after the first `"key":` in `json`: the run of ASCII digits
/// that follows it, read as a `u32`. None when the key does not occur, when
/// no digit follows it, or when the number does not fit in a `u32`.
pub open spec fn json_number(json: Seq<u8>, key: Seq<u8>) -> Option<u32> {
    let pat = key_pattern(key);
    match find_from(json, pat, 0) {
        None => None,
        Some(i) => {
            let rest = json.skip(i + pat.len());
            let digits = rest.take(digit_run(rest) as int);
            if digits.len() == 0 || decimal_value(digits) > u32::MAX {
                None
            } else {
                Some(decimal_value(digits) as u32)
            }
        },
    }
}

proof fn lemma_find_skips(hay: Seq<u8>, pat: Seq<u8>, start: int)
    requires
        0 <= start,
        !occurs_at(hay, pat, start),
        start + pat.len() <= hay.len(),
    ensures
        find_from(hay, pat, start) == find_from(hay, pat, start + 1),
{
}

proof fn lemma_digit_run_step(s: Seq<u8>, k: int)
    requires
        0 <= k < s.len(),
        forall|j: int| 0 <= j < k ==> is_digit(#[trigger] s[j]),
    ensures
        digit_run(s) >= k,
        is_digit(s[k]) ==> digit_run(s) >= k + 1,
        !is_digit(s[k]) ==> digit_run(s) == k,
    decreases k,
{
    if k > 0 {
        assert forall|j: int| 0 <= j < k - 1 implies is_digit(#[trigger] s.drop_first()[j]) by {
            assert(s.drop_first()[j] == s[j + 1]);
        }
        lemma_digit_run_step(s.drop_first(), k - 1);
    }
}

proof fn lemma_digit_run_all(s: Seq<u8>)
    requires
        forall|j: int| 0 <= j < s.len() ==> is_digit(#[trigger] s[j]),
    ensures
        digit_run(s) == s.len(),
    decreases s.len(),
{
    if s.len() > 0 {
        assert forall|j: int| 0 <= j < s.len() - 1 implies is_digit(#[trigger] s.drop_first()[j]) by {
            assert(s.drop_first()[j] == s[j + 1]);
        }
        lemma_digit_run_all(s.drop_first());
    }
}

/// Looks up the unsigned number stored under `key` in the JSON text `json`,
/// as the first `"key":` followed by decimal digits.
pub fn extract_json_number(json: &str, key: &str) -> (r: Option<u32>)
    ensures
        r == json_number(json.spec_bytes(), key.spec_bytes()),
{
    let hay = json.as_bytes();
    let kb = key.as_bytes();
    let mut pat: Vec<u8> = Vec::new();
    pat.push(34u8);
    let mut t: usize = 0;
    while t < kb.len()
        invariant
            t <= kb@.len(),
            pat@ == seq![34u8] + kb@.take(t as int),
        decreases kb@.len() - t,
    {
        pat.push(kb[t]);
        assert(pat@ =~= seq![34u8] + kb@.take(t + 1));
        t = t + 1;
    }
    pat.push(34u8);
    pat.push(58u8);
    assert(kb@.take(kb@.len() as int) =~= kb@);
    assert(pat@ =~= key_pattern(kb@));
    let ghost p = pat@;
    let plen = pat.len();
    if plen > hay.len() {
        return None;
    }
    // search for the first occurrence
    let mut i: usize = 0;
    let mut found = false;
    while i <= hay.len() - plen && !found
        invariant
            plen == p.len(),
            plen >= 3,
            plen <= hay@.len(),
            pat@ == p,
            i <= hay@.len() - plen + 1,
            found ==> i + plen <= hay@.len() && occurs_at(hay@, p, i as int),
            find_from(hay@, p, 0) == find_from(hay@, p, i as int),
        decreases hay@.len() + 1 - i - (if found { 1int } else { 0int }),
    {
        let mut m: usize = 0;
        let mut same = true;
        while m < plen && same
            invariant
                i + plen <= hay@.len(),
                plen == p.len(),
                plen >= 3,
                hay@.len() <= usize::MAX,
                pat@ == p,
                m <= plen,
                same ==> forall|j: int| 0 <= j < m ==> hay@[i + j] == p[j],
                !same ==> !occurs_at(hay@, p, i as int),
            decreases plen - m + (if same { 1int } else { 0int }),
        {
            if hay[i + m] != pat[m] {
                same = false;
                assert(hay@.subrange(i as int, i + plen)[m as int] != p[m as int]);
            } else {
                m = m + 1;
            }
        }
        if same {
            assert(hay@.subrange(i as int, i + plen) =~= p);
            found = true;
        } else {
            proof {
                lemma_find_skips(hay@, p, i as int);
            }
            i = i + 1;
        }
    }
    if !found {
        assert(find_from(hay@, p, i as int) == None::<int>);
        return None;
    }
    assert(find_from(hay@, p, i as int) == Some(i as int));
    // read the digits that follow
    let start = i + plen;
    let ghost rest = hay@.skip(start as int);
    let mut k: usize = start;
    let mut value: u64 = 0;
    let mut overflow = false;
    while k < hay.len() && 48u8 <= hay[k] && hay[k] <= 57u8
        invariant
            start <= k <= hay@.len(),
            rest == hay@.skip(start as int),
            forall|j: int| 0 <= j < k - start ==> is_digit(#[trigger] rest[j]),
            !overflow ==> value == decimal_value(rest.take(k - start)),
            !overflow ==> value <= u32::MAX,
            overflow ==> decimal_value(rest.take(k - start)) > u32::MAX,
        decreases hay@.len() - k,
    {
        let d = hay[k];
        let ghost before = rest.take(k - start);
        assert(rest.take(k - start + 1).drop_last() =~= before);
        assert(rest[k - start] == d);
        if !overflow {
            let next = value * 10 + (d - 48u8) as u64;
            if next > 4294967295u64 {
                overflow = true;
            } else {
                value = next;
            }
        }
        k = k + 1;
    }
    proof {
        let len = k - start;
        if k < hay@.len() {
            assert(rest[len as int] == hay@[k as int]);
            lemma_digit_run_step(rest, len as int);
        } else {
            lemma_digit_run_all(rest);
        }
        assert(digit_run(rest) == len);
    }
    if k == start || overflow {
        None
    } else {
        Some(value as u32)
    }
}

/// Unquoting removes exactly one pair of enclosing quotes and nothing else.
pub proof fn law_unquote_one_pair(inner: Seq<char>)
    ensures
        unquoted(seq!['"'] + inner + seq!['"']) == inner,
{
    let s = seq!['"'] + inner + seq!['"'];
    assert(s.subrange(1, s.len() - 1) =~= inner);
}

/// Text that does not start with a quote is left as it is.
pub proof fn law_unquote_unquoted(s: Seq<char>)
    requires
        s.len() == 0 || s[0] != '"',
    ensures
        unquoted(s) == s,
{
}

/// Text that opens with a quote but does not close with one is left as it
/// is.
pub proof fn law_unquote_unclosed(s: Seq<char>)
    requires
        s.len() > 0,
        s[s.len() - 1] != '"',
    ensures
        unquoted(s) == s,
        unquoted(seq!['"']) == seq!['"'],
{
}

/// A failed call, or an empty reply, gives an empty value; otherwise the
/// value is made of the first `size` bytes of the buffer, or of all of it
/// when the host reports more than it holds.
pub proof fn law_config_value_bytes(ok: bool, buf: Seq<u8>, size: nat)
    ensures
        !ok || size == 0 ==> config_value(ok, buf, size) == Seq::<char>::empty(),
        ok && size > 0 && size >= buf.len() ==> config_value(ok, buf, size) == unquoted(
            lossy_utf8(buf),
        ),
        ok && 0 < size < buf.len() ==> config_value(ok, buf, size) == unquoted(
            lossy_utf8(buf.take(size as int)),
        ),
{
    assert(buf.take(buf.len() as int) =~= buf);
}

/// A JSON object `{"k2":a,"key":b}`: a first member, then the member of
/// `key` whose value is `b`.
pub open spec fn two_members(k2: Seq<u8>, a: Seq<u8>, key: Seq<u8>, b: Seq<u8>) -> Seq<u8> {
    seq![123u8, 34u8] + k2 + seq![34u8, 58u8] + a + seq![44u8, 34u8] + key + seq![34u8, 58u8] + b
        + seq![125u8]
}

/// No byte of `s` is `c`.
pub open spec fn free_of(s: Seq<u8>, c: u8) -> bool {
    forall|i: int| 0 <= i < s.len() ==> #[trigger] s[i] != c
}

proof fn lemma_find_first(hay: Seq<u8>, pat: Seq<u8>, s: int, t: int)
    requires
        0 <= s <= t,
        occurs_at(hay, pat, t),
        forall|i: int| s <= i < t ==> !#[trigger] occurs_at(hay, pat, i),
    ensures
        find_from(hay, pat, s) == Some(t),
    decreases t - s,
{
    if s < t {
        lemma_find_first(hay, pat, s + 1, t);
    }
}

proof fn lemma_mismatch(hay: Seq<u8>, pat: Seq<u8>, i: int, j: int)
    requires
        0 <= j < pat.len(),
        0 <= i,
        i + j < hay.len(),
        hay[i + j] != pat[j],
    ensures
        !occurs_at(hay, pat, i),
{
    if occurs_at(hay, pat, i) {
        assert(hay.subrange(i, i + pat.len())[j] == hay[i + j]);
    }
}

/// The value of a key is read only after the full quoted key: in
/// `{"k2":a,"key":b}`, where neither key nor `a` holds a quote, `key` holds
/// no colon and the keys differ, the number read for `key` is `b` (when it
/// fits in a `u32`), even when `key` is a part of `k2`.
pub proof fn law_json_member_value(k2: Seq<u8>, a: Seq<u8>, key: Seq<u8>, b: Seq<u8>)
    requires
        free_of(k2, 34),
        free_of(a, 34),
        free_of(key, 34),
        free_of(key, 58),
        k2 != key,
        b.len() > 0,
        forall|i: int| 0 <= i < b.len() ==> is_digit(#[trigger] b[i]),
    ensures
        decimal_value(b) <= u32::MAX ==> json_number(two_members(k2, a, key, b), key) == Some(
            decimal_value(b) as u32,
        ),
        decimal_value(b) > u32::MAX ==> json_number(two_members(k2, a, key, b), key) is None,
{
    let hay = two_members(k2, a, key, b);
    let pat = key_pattern(key);
    let n2 = k2.len() as int;
    let na = a.len() as int;
    let nk = key.len() as int;
    let t = n2 + na + 5;
    // the layout of the object
    assert(hay.len() == n2 + na + nk + b.len() + 9);
    assert(hay[0] == 123u8);
    assert(hay[1] == 34u8);
    assert forall|j: int| 0 <= j < n2 implies #[trigger] hay[2 + j] == k2[j] by {}
    assert(hay[2 + n2] == 34u8);
    assert(hay[3 + n2] == 58u8);
    assert forall|j: int| 0 <= j < na implies #[trigger] hay[4 + n2 + j] == a[j] by {}
    assert(hay[4 + n2 + na] == 44u8);
    assert(hay[t] == 34u8);
    assert forall|j: int| 0 <= j < nk implies #[trigger] hay[t + 1 + j] == key[j] by {}
    assert(hay[t + 1 + nk] == 34u8);
    assert(hay[t + 2 + nk] == 58u8);
    assert forall|j: int| 0 <= j < b.len() implies #[trigger] hay[t + 3 + nk + j] == b[j] by {}
    assert(hay[t + 3 + nk + b.len()] == 125u8);
    assert(pat.len() == nk + 3);
    assert(pat[0] == 34u8);
    assert forall|j: int| 0 <= j < nk implies #[trigger] pat[1 + j] == key[j] by {}
    assert(pat[1 + nk] == 34u8);
    assert(pat[2 + nk] == 58u8);
    // the full quoted key occurs at `t`
    assert(hay.subrange(t, t + pat.len()) =~= pat) by {
        assert forall|j: int| 0 <= j < pat.len() implies hay.subrange(t, t + pat.len())[j]
            == pat[j] by {
            if 1 <= j < 1 + nk {
                assert(hay[t + 1 + (j - 1)] == key[j - 1]);
                assert(pat[1 + (j - 1)] == key[j - 1]);
            }
        }
    }
    // and nowhere before
    assert forall|i: int| 0 <= i < t implies !#[trigger] occurs_at(hay, pat, i) by {
        if i == 1 {
            if nk < n2 {
                assert(hay[2 + nk] == k2[nk]);
                lemma_mismatch(hay, pat, i, 1 + nk);
            } else if nk > n2 {
                assert(pat[1 + n2] == key[n2]);
                lemma_mismatch(hay, pat, i, 1 + n2);
            } else {
                let d = choose|j: int| 0 <= j < nk && k2[j] != key[j];
                assert(exists|j: int| 0 <= j < nk && k2[j] != key[j]) by {
                    if forall|j: int| 0 <= j < nk ==> k2[j] == key[j] {
                        assert(k2 =~= key);
                    }
                }
                assert(hay[2 + d] == k2[d]);
                assert(pat[1 + d] == key[d]);
                lemma_mismatch(hay, pat, i, 1 + d);
            }
        } else if i == 2 + n2 {
            if nk > 0 {
                assert(pat[1] == key[0]);
            }
            lemma_mismatch(hay, pat, i, 1);
        } else {
            if 2 <= i < 2 + n2 {
                assert(hay[2 + (i - 2)] == k2[i - 2]);
            } else if 4 + n2 <= i < 4 + n2 + na {
                assert(hay[4 + n2 + (i - 4 - n2)] == a[i - 4 - n2]);
            }
            lemma_mismatch(hay, pat, i, 0);
        }
    }
    lemma_find_first(hay, pat, 0, t);
    // the digits that follow
    let rest = hay.skip(t + pat.len());
    assert(rest =~= b + seq![125u8]);
    assert forall|j: int| 0 <= j < b.len() implies is_digit(#[trigger] rest[j]) by {
        assert(rest[j] == b[j]);
    }
    assert(rest[b.len() as int] == 125u8);
    lemma_digit_run_step(rest, b.len() as int);
    assert(rest.take(b.len() as int) =~= b);
}

/// When a key occurs twice, its first value is the one read:
/// `{"key":a,"key":b}` gives `a`.
pub proof fn law_json_first_value_wins(key: Seq<u8>, a: Seq<u8>, b: Seq<u8>)
    requires
        a.len() > 0,
        forall|i: int| 0 <= i < a.len() ==> is_digit(#[trigger] a[i]),
        decimal_value(a) <= u32::MAX,
    ensures
        json_number(two_members(key, a, key, b), key) == Some(decimal_value(a) as u32),
{
    let hay = two_members(key, a, key, b);
    let pat = key_pattern(key);
    let nk = key.len() as int;
    assert(hay.subrange(1, 1 + pat.len() as int) =~= pat);
    assert(!occurs_at(hay, pat, 0)) by {
        lemma_mismatch(hay, pat, 0, 0);
    }
    lemma_find_first(hay, pat, 0, 1);
    let rest = hay.skip(1 + pat.len() as int);
    assert forall|j: int| 0 <= j < a.len() implies is_digit(#[trigger] rest[j]) by {
        assert(rest[j] == a[j]);
    }
    assert(rest[a.len() as int] == 44u8);
    lemma_digit_run_step(rest, a.len() as int);
    assert(rest.take(a.len() as int) =~= a);
}

} // verus!
