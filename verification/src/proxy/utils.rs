use vstd::prelude::*;
use crate::entropy::{random_in_range, unix_time_millis};
use crate::number::{
    decimal_int, decimal_nat, i64_to_decimal, parse_digits, parse_digits_i64, push_decimal_u64,
};
use crate::text::{
    ascii_digit, chars_of, is_ascii_digit, push_char, string_of, trim, trimmed_chars,
};

verus! {

// ---------------------------------------------------------------------------
// Channel ids
// ---------------------------------------------------------------------------

/// The ASCII digits of `s`, in order.
pub open spec fn keep_digits(s: Seq<char>) -> Seq<char>
    decreases s.len(),
{
    if s.len() == 0 {
        s
    } else if is_ascii_digit(s.last()) {
        keep_digits(s.drop_last()).push(s.last())
    } else {
        keep_digits(s.drop_last())
    }
}

/// `s` without the `'/'` characters at its end.
pub open spec fn strip_trailing_slashes(s: Seq<char>) -> Seq<char>
    decreases s.len(),
{
    if s.len() > 0 && s.last() == '/' {
        strip_trailing_slashes(s.drop_last())
    } else {
        s
    }
}

/// The part of `s` after its last `'/'` (all of `s` where it has none).
pub open spec fn after_last_slash(s: Seq<char>) -> Seq<char>
    decreases s.len(),
{
    if s.len() == 0 {
        s
    } else if s.last() == '/' {
        Seq::empty()
    } else {
        after_last_slash(s.drop_last()).push(s.last())
    }
}

/// The last non-empty piece of `s` split at `'/'`, or the empty sequence where
/// every piece is empty.
pub open spec fn last_nonempty_segment(s: Seq<char>) -> Seq<char> {
    after_last_slash(strip_trailing_slashes(s))
}

/// The channel id named by `input`: a raw id, or a link whose last non-empty
/// path segment holds the id. Only ASCII digits are kept.
pub open spec fn channel_id_of(input: Seq<char>) -> Seq<char> {
    let t = trim(input);
    let seg = keep_digits(last_nonempty_segment(t));
    if t.contains('/') && seg.len() > 0 {
        seg
    } else {
        keep_digits(t)
    }
}

/// The digits of `v[from..to]`.
fn digits_in_range(v: &Vec<char>, from: usize, to: usize) -> (r: Vec<char>)
    requires
        from <= to <= v.len(),
    ensures
        r@ == keep_digits(v@.subrange(from as int, to as int)),
{
    let mut r: Vec<char> = Vec::new();
    let mut i = from;
    assert(v@.subrange(from as int, from as int) =~= Seq::<char>::empty());
    while i < to
        invariant
            from <= i <= to <= v.len(),
            r@ == keep_digits(v@.subrange(from as int, i as int)),
        decreases to - i,
    {
        assert(v@.subrange(from as int, i + 1).drop_last() =~= v@.subrange(from as int, i as int));
        if ascii_digit(v[i]) {
            r.push(v[i]);
        }
        i = i + 1;
    }
    r
}

fn has_slash(v: &Vec<char>) -> (b: bool)
    ensures
        b == v@.contains('/'),
{
    let mut i: usize = 0;
    while i < v.len()
        invariant
            i <= v.len(),
            forall|k: int| 0 <= k < i ==> v@[k] != '/',
        decreases v.len() - i,
    {
        if v[i] == '/' {
            return true;
        }
        i = i + 1;
    }
    false
}

/// The bounds of `last_nonempty_segment(v@)` in `v`.
fn last_segment_bounds(v: &Vec<char>) -> (r: (usize, usize))
    ensures
        r.0 <= r.1 <= v.len(),
        last_nonempty_segment(v@) == v@.subrange(r.0 as int, r.1 as int),
{
    let mut j: usize = v.len();
    assert(v@.take(v.len() as int) =~= v@);
    while j > 0 && v[j - 1] == '/'
        invariant
            j <= v.len(),
            strip_trailing_slashes(v@) == strip_trailing_slashes(v@.take(j as int)),
        decreases j,
    {
        assert(v@.take(j as int).drop_last() =~= v@.take(j - 1));
        j = j - 1;
    }
    assert(strip_trailing_slashes(v@) == v@.take(j as int));
    let mut i: usize = j;
    assert(v@.subrange(j as int, j as int) =~= Seq::<char>::empty());
    assert(v@.take(j as int) + v@.subrange(j as int, j as int) =~= v@.take(j as int));
    while i > 0 && v[i - 1] != '/'
        invariant
            i <= j <= v.len(),
            after_last_slash(v@.take(j as int)) == after_last_slash(v@.take(i as int))
                + v@.subrange(i as int, j as int),
        decreases i,
    {
        assert(v@.take(i as int).drop_last() =~= v@.take(i - 1));
        assert(after_last_slash(v@.take(i - 1)) + v@.subrange(i - 1, j as int) =~= after_last_slash(
            v@.take(i - 1),
        ).push(v@[i - 1]) + v@.subrange(i as int, j as int));
        i = i - 1;
    }
    assert(after_last_slash(v@.take(i as int)) =~= Seq::<char>::empty());
    assert(after_last_slash(v@.take(j as int)) =~= v@.subrange(i as int, j as int));
    (i, j)
}

/// Extracts a clean channel id from a raw channel id or a Discord channel link:
/// `"123456789012345678"` gives `"123456789012345678"`,
/// `"https://discord.com/channels/111111/222222333333444444"` gives
/// `"222222333333444444"`.
pub fn extract_channel_id(input: &str) -> (id: String)
    ensures
        id@ == channel_id_of(input@),
{
    let t = trimmed_chars(input);
    if has_slash(&t) {
        let (from, to) = last_segment_bounds(&t);
        let seg = digits_in_range(&t, from, to);
        if seg.len() > 0 {
            return string_of(&seg);
        }
    }
    let all = digits_in_range(&t, 0, t.len());
    assert(t@.subrange(0, t@.len() as int) =~= t@);
    string_of(&all)
}

// ---------------------------------------------------------------------------
// Snowflake nonces
// ---------------------------------------------------------------------------

/// The first millisecond of 2015, where Discord snowflake timestamps start.
pub const DISCORD_EPOCH_MS: u64 = 1420070400000;

/// The snowflake id built from a Unix time in milliseconds and an increment:
/// the time since the Discord epoch (0 before it) shifted left by 22 bits, worker
/// id 1 at bit 17, process id 1 at bit 12, and the increment in the low bits.
pub open spec fn snowflake_id(now_ms: u64, increment: u64) -> u64 {
    let ts: u64 = if now_ms > DISCORD_EPOCH_MS {
        (now_ms - DISCORD_EPOCH_MS) as u64
    } else {
        0
    };
    (ts << 22u64) | (1u64 << 17u64) | (1u64 << 12u64) | increment
}

/// The decimal snowflake nonce for the given time and increment.
pub fn snowflake_nonce(now_ms: u64, increment: u64) -> (s: String)
    ensures
        s@ == decimal_nat(snowflake_id(now_ms, increment) as nat),
{
    let ts = now_ms.saturating_sub(DISCORD_EPOCH_MS);
    let id: u64 = (ts << 22u64) | (1u64 << 17u64) | (1u64 << 12u64) | increment;
    let mut s = String::new();
    push_decimal_u64(&mut s, id);
    assert(s@ =~= decimal_nat(snowflake_id(now_ms, increment) as nat));
    s
}

/// Generates a Discord snowflake id string for a message nonce, from the current
/// time and a random increment below 4096.
pub fn generate_snowflake_nonce() -> (s: String)
    ensures
        exists|now_ms: u64, increment: u64|
            increment <= 4095 && s@ == decimal_nat(#[trigger] snowflake_id(now_ms, increment) as nat),
{
    let now_ms = unix_time_millis();
    let increment = random_in_range(0, 4095);
    let s = snowflake_nonce(now_ms, increment);
    assert(increment <= 4095 && s@ == decimal_nat(snowflake_id(now_ms, increment) as nat));
    s
}

// ---------------------------------------------------------------------------
// Counting messages
// ---------------------------------------------------------------------------

/// A space or an underscore, skipped before the number of a counting message.
pub open spec fn is_separator(c: char) -> bool {
    c == ' ' || c == '_'
}

/// `s` without its leading spaces and underscores.
pub open spec fn drop_separators(s: Seq<char>) -> Seq<char>
    decreases s.len(),
{
    if s.len() > 0 && is_separator(s[0]) {
        drop_separators(s.drop_first())
    } else {
        s
    }
}

/// The run of ASCII digits at the start of `s`.
pub open spec fn digit_run(s: Seq<char>) -> Seq<char>
    decreases s.len(),
{
    if s.len() > 0 && is_ascii_digit(s[0]) {
        seq![s[0]] + digit_run(s.drop_first())
    } else {
        Seq::empty()
    }
}

/// The digits that lead a message: after trimming white space and skipping
/// spaces and underscores, the run of ASCII digits that follows.
pub open spec fn leading_digits(text: Seq<char>) -> Seq<char> {
    digit_run(drop_separators(trim(text)))
}

/// The number that leads a message, where its digits fit an `i64`.
pub open spec fn leading_number(text: Seq<char>) -> Option<i64> {
    parse_digits_i64(leading_digits(text))
}

/// `'g'` or `'G'`.
pub open spec fn is_letter_g(c: char) -> bool {
    c == 'g' || c == 'G'
}

/// Whether `s` holds "gg" in any mix of cases. This is what a search for "gg"
/// in the lowercased text finds: `'G'` is the only character whose lowercase form
/// holds a `'g'`, and it lowercases to that one character.
pub open spec fn mentions_gg(s: Seq<char>) -> bool {
    exists|i: int| 0 <= i && i + 1 < s.len() && is_letter_g(#[trigger] s[i]) && is_letter_g(s[i + 1])
}

/// The reply text for count `n`: `"{n} ggs!"` where the message mentions "gg",
/// else `"{n}"`.
pub open spec fn count_reply(n: int, content: Seq<char>) -> Seq<char> {
    if mentions_gg(content) {
        decimal_int(n) + seq![' ', 'g', 'g', 's', '!']
    } else {
        decimal_int(n)
    }
}

fn contains_gg(v: &Vec<char>) -> (b: bool)
    ensures
        b == mentions_gg(v@),
{
    if v.len() < 2 {
        return false;
    }
    let mut i: usize = 0;
    while i + 1 < v.len()
        invariant
            v.len() >= 2,
            i + 1 <= v.len(),
            forall|k: int|
                0 <= k < i ==> !(is_letter_g(#[trigger] v@[k]) && is_letter_g(v@[k + 1])),
        decreases v.len() - i,
    {
        if (v[i] == 'g' || v[i] == 'G') && (v[i + 1] == 'g' || v[i + 1] == 'G') {
            return true;
        }
        i = i + 1;
    }
    false
}

/// Extracts the integer that leads a message, if there is one:
/// `"1243 nice great"` gives 1243, `"123a"` gives 123, `"hello"` gives none.
pub fn parse_leading_number(text: &str) -> (r: Option<i64>)
    ensures
        r == leading_number(text@),
{
    let t = trimmed_chars(text);
    let mut i: usize = 0;
    assert(t@.skip(0) =~= t@);
    while i < t.len() && (t[i] == ' ' || t[i] == '_')
        invariant
            i <= t.len(),
            drop_separators(t@) == drop_separators(t@.skip(i as int)),
        decreases t.len() - i,
    {
        assert(t@.skip(i as int).drop_first() =~= t@.skip(i + 1));
        i = i + 1;
    }
    let mut digits: Vec<char> = Vec::new();
    let mut j: usize = i;
    assert(t@.subrange(i as int, i as int) + t@.skip(i as int) =~= t@.skip(i as int));
    while j < t.len() && ascii_digit(t[j])
        invariant
            i <= j <= t.len(),
            digits@ == t@.subrange(i as int, j as int),
            digit_run(t@.skip(i as int)) == digits@ + digit_run(t@.skip(j as int)),
            forall|k: int| 0 <= k < digits.len() ==> is_ascii_digit(#[trigger] digits@[k]),
        decreases t.len() - j,
    {
        assert(t@.skip(j as int).drop_first() =~= t@.skip(j + 1));
        assert(digits@.push(t@[j as int]) + digit_run(t@.skip(j + 1)) =~= digits@ + (seq![
            t@[j as int],
        ] + digit_run(t@.skip(j + 1))));
        digits.push(t[j]);
        j = j + 1;
    }
    assert(digit_run(t@.skip(j as int)) =~= Seq::<char>::empty());
    assert(digits@ + Seq::<char>::empty() =~= digits@);
    parse_digits(&digits)
}

/// The reply for count `n` to a message `content`: `"{n} ggs!"` where the
/// message mentions "gg" in any case, else `"{n}"`.
pub fn format_count_response(n: i64, content: &str) -> (s: String)
    ensures
        s@ == count_reply(n as int, content@),
{
    let v = chars_of(content);
    let mut s = i64_to_decimal(n);
    if contains_gg(&v) {
        push_char(&mut s, ' ');
        push_char(&mut s, 'g');
        push_char(&mut s, 'g');
        push_char(&mut s, 's');
        push_char(&mut s, '!');
        assert(s@ =~= count_reply(n as int, content@));
    }
    s
}

/// Generates the next counting message for an incoming one: `"1243 nice"` gives
/// `"1244"`, `"1243 gg"` gives `"1244 ggs!"`, a message without a leading
/// number gives none.
pub fn generate_next_count_response(content: &str) -> (r: Option<String>)
    requires
        leading_number(content@) != Some(i64::MAX),
    ensures
        match leading_number(content@) {
            None => r is None,
            Some(n) => r is Some && r->0@ == count_reply(n + 1, content@),
        },
{
    let current = parse_leading_number(content);
    match current {
        None => None,
        Some(n) => Some(format_count_response(n + 1, content)),
    }
}


// ---------------------------------------------------------------------------
// Laws
// ---------------------------------------------------------------------------

/// Whether every character of `s` is an ASCII digit.
pub open spec fn only_digits(s: Seq<char>) -> bool {
    forall|k: int| 0 <= k < s.len() ==> is_ascii_digit(#[trigger] s[k])
}

proof fn lemma_keep_digits_only_digits(s: Seq<char>)
    ensures
        only_digits(keep_digits(s)),
    decreases s.len(),
{
    if s.len() > 0 {
        lemma_keep_digits_only_digits(s.drop_last());
    }
}

proof fn lemma_keep_digits_of_digits(s: Seq<char>)
    requires
        only_digits(s),
    ensures
        keep_digits(s) == s,
    decreases s.len(),
{
    if s.len() > 0 {
        lemma_keep_digits_of_digits(s.drop_last());
        assert(s.drop_last().push(s.last()) =~= s);
    }
}

proof fn lemma_trim_of_digits(s: Seq<char>)
    requires
        only_digits(s),
    ensures
        trim(s) == s,
        !s.contains('/'),
{
    if s.len() > 0 {
        assert(is_ascii_digit(s[0]));
        assert(is_ascii_digit(s.last()));
    }
    assert(crate::text::trim_start(s) == s);
    assert(crate::text::trim_end(s) == s);
    if s.contains('/') {
        let k = choose|k: int| 0 <= k < s.len() && s[k] == '/';
        assert(is_ascii_digit(s[k]));
    }
}

/// A channel id, once extracted, consists of ASCII digits only, and extracting
/// it again gives it back unchanged.
pub proof fn law_channel_id_is_digits_and_stable(input: Seq<char>)
    ensures
        only_digits(channel_id_of(input)),
        channel_id_of(channel_id_of(input)) == channel_id_of(input),
{
    let t = trim(input);
    lemma_keep_digits_only_digits(last_nonempty_segment(t));
    lemma_keep_digits_only_digits(t);
    let id = channel_id_of(input);
    lemma_trim_of_digits(id);
    lemma_keep_digits_of_digits(id);
}

/// The decimal representation of `n` is a non-empty string of digits whose
/// value is `n`.
pub proof fn lemma_decimal_nat_digits(n: nat)
    ensures
        decimal_nat(n).len() > 0,
        only_digits(decimal_nat(n)),
        crate::number::digits_value(decimal_nat(n)) == n,
    decreases n,
{
    if n >= 10 {
        lemma_decimal_nat_digits(n / 10);
        let s = decimal_nat(n);
        assert(s.drop_last() =~= decimal_nat(n / 10));
        assert(crate::number::digit_value(crate::number::digit_char(n % 10)) == n % 10);
        assert(s.last() == crate::number::digit_char(n % 10));
        assert(crate::number::digits_value(s) == crate::number::digits_value(s.drop_last()) * 10
            + crate::number::digit_value(s.last()));
        assert((n / 10) * 10 + n % 10 == n);
        assert forall|k: int| 0 <= k < s.len() implies is_ascii_digit(#[trigger] s[k]) by {
            if k < s.len() - 1 {
                assert(s[k] == decimal_nat(n / 10)[k]);
            }
        }
    } else {
        assert(decimal_nat(n).drop_last() =~= Seq::<char>::empty());
        assert(crate::number::digit_value(crate::number::digit_char(n)) == n);
        assert(crate::number::digits_value(Seq::<char>::empty()) == 0);
        assert(crate::number::digits_value(decimal_nat(n)) == crate::number::digits_value(
            decimal_nat(n).drop_last(),
        ) * 10 + crate::number::digit_value(decimal_nat(n).last()));
    }
}

proof fn lemma_digit_run_prefix(s: Seq<char>, t: Seq<char>)
    requires
        only_digits(s),
        t.len() == 0 || !is_ascii_digit(t[0]),
    ensures
        digit_run(s + t) == s,
    decreases s.len(),
{
    if s.len() == 0 {
        assert(s + t =~= t);
    } else {
        assert((s + t).drop_first() =~= s.drop_first() + t);
        assert(is_ascii_digit(s[0]));
        lemma_digit_run_prefix(s.drop_first(), t);
        assert(seq![s[0]] + s.drop_first() =~= s);
    }
}

/// The reply to a count, read back as a counting message, leads with that
/// count: the reply `"{m}"` or `"{m} ggs!"` parses to `m` for every
/// `0 <= m <= i64::MAX`.
pub proof fn law_reply_leads_with_count(m: int, content: Seq<char>)
    requires
        0 <= m <= i64::MAX,
    ensures
        leading_number(count_reply(m, content)) == Some(m as i64),
{
    let d = decimal_nat(m as nat);
    lemma_decimal_nat_digits(m as nat);
    assert(decimal_int(m) == d);
    let suffix: Seq<char> = if mentions_gg(content) {
        seq![' ', 'g', 'g', 's', '!']
    } else {
        Seq::empty()
    };
    let r = count_reply(m, content);
    assert(r =~= d + suffix);
    assert(is_ascii_digit(d[0]));
    assert(r[0] == d[0]);
    assert(crate::text::trim_start(r) == r);
    if suffix.len() > 0 {
        assert(r.last() == '!');
    } else {
        assert(r.last() == d.last());
        assert(is_ascii_digit(d[d.len() - 1]));
    }
    assert(crate::text::trim_end(r) == r);
    assert(drop_separators(r) == r);
    lemma_digit_run_prefix(d, suffix);
}

/// The reply that `generate_next_count_response` gives leads with the next
/// count: a message that leads with `n` gets a reply that leads with `n + 1`.
pub proof fn law_next_count_response_leads_with_next(content: Seq<char>, n: i64)
    requires
        leading_number(content) == Some(n),
        n < i64::MAX,
    ensures
        0 <= n,
        leading_number(count_reply(n + 1, content)) == Some((n + 1) as i64),
{
    law_reply_leads_with_count(n + 1, content);
}

/// A raw channel id made of digits is kept whole: `extract_channel_id` gives
/// back every digit of it, however many there are.
pub proof fn law_digit_id_is_kept_whole(d: Seq<char>)
    requires
        only_digits(d),
    ensures
        channel_id_of(d) == d,
{
    lemma_trim_of_digits(d);
    lemma_keep_digits_of_digits(d);
}

proof fn lemma_after_last_slash_of_tail(x: Seq<char>, d: Seq<char>)
    requires
        !d.contains('/'),
    ensures
        after_last_slash(x + seq!['/'] + d) == d,
    decreases d.len(),
{
    let s = x + seq!['/'] + d;
    if d.len() == 0 {
        assert(s.last() == '/');
    } else {
        assert(s.last() == d.last());
        assert(d.last() != '/') by {
            assert(d[d.len() - 1] == d.last());
        }
        assert(s.drop_last() =~= x + seq!['/'] + d.drop_last());
        assert(!d.drop_last().contains('/')) by {
            if d.drop_last().contains('/') {
                let k = choose|k: int| 0 <= k < d.drop_last().len() && d.drop_last()[k] == '/';
                assert(d[k] == '/');
            }
        }
        lemma_after_last_slash_of_tail(x, d.drop_last());
        assert(d.drop_last().push(d.last()) =~= d);
    }
}

/// A channel link keeps the whole id: for a link that ends in `'/'` and a
/// non-empty run of digits, `extract_channel_id` gives exactly those digits,
/// however many there are, whatever comes before the last `'/'` (where the link
/// does not start with white space).
pub proof fn law_link_id_is_kept_whole(prefix: Seq<char>, d: Seq<char>)
    requires
        only_digits(d),
        d.len() > 0,
        prefix.len() == 0 || !crate::text::is_white_space(prefix[0]),
    ensures
        channel_id_of(prefix + seq!['/'] + d) == d,
{
    let s = prefix + seq!['/'] + d;
    assert(s[0] == (if prefix.len() > 0 { prefix[0] } else { '/' }));
    assert(crate::text::trim_start(s) == s);
    assert(s.last() == d.last());
    assert(is_ascii_digit(d[d.len() - 1]));
    assert(crate::text::trim_end(s) == s);
    assert(s[prefix.len() as int] == '/');
    assert(s.contains('/'));
    assert(strip_trailing_slashes(s) == s);
    assert(!d.contains('/')) by {
        if d.contains('/') {
            let k = choose|k: int| 0 <= k < d.len() && d[k] == '/';
            assert(is_ascii_digit(d[k]));
        }
    }
    lemma_after_last_slash_of_tail(prefix, d);
    lemma_keep_digits_of_digits(d);
}

/// The reply ends in `" ggs!"` exactly when the message holds two adjacent
/// letters that are each `'g'` or `'G'`, wherever they stand and whatever
/// follows them; else the reply is the number alone.
pub proof fn law_gg_reply(n: int, content: Seq<char>)
    ensures
        (exists|i: int|
            0 <= i && i + 1 < content.len() && (#[trigger] content[i] == 'g' || content[i] == 'G')
                && (content[i + 1] == 'g' || content[i + 1] == 'G')) ==> count_reply(n, content)
            == decimal_int(n) + seq![' ', 'g', 'g', 's', '!'],
        !(exists|i: int|
            0 <= i && i + 1 < content.len() && (#[trigger] content[i] == 'g' || content[i] == 'G')
                && (content[i + 1] == 'g' || content[i + 1] == 'G')) ==> count_reply(n, content)
            == decimal_int(n),
{
    if exists|i: int|
        0 <= i && i + 1 < content.len() && (#[trigger] content[i] == 'g' || content[i] == 'G')
            && (content[i + 1] == 'g' || content[i + 1] == 'G') {
        let i = choose|i: int|
            0 <= i && i + 1 < content.len() && (#[trigger] content[i] == 'g' || content[i] == 'G')
                && (content[i + 1] == 'g' || content[i + 1] == 'G');
        assert(is_letter_g(content[i]) && is_letter_g(content[i + 1]));
        assert(mentions_gg(content));
    } else {
        if mentions_gg(content) {
            let i = choose|i: int|
                0 <= i && i + 1 < content.len() && is_letter_g(#[trigger] content[i]) && is_letter_g(
                    content[i + 1],
                );
            assert(content[i] == 'g' || content[i] == 'G');
        }
    }
}

/// The snowflake layout in numbers: for a time `ts` milliseconds after the
/// Discord epoch (below 2^42, the width of the time field) and an increment
/// below 4096, the id is `ts * 2^22 + 2^17 + 2^12 + increment`; before the epoch
/// the time part is 0.
pub proof fn law_snowflake_layout(now_ms: u64, increment: u64)
    requires
        increment < 4096,
    ensures
        now_ms >= DISCORD_EPOCH_MS && now_ms - DISCORD_EPOCH_MS < 0x400_0000_0000 ==> snowflake_id(
            now_ms,
            increment,
        ) == (now_ms - DISCORD_EPOCH_MS) * 0x40_0000 + 0x2_0000 + 0x1000 + increment,
        now_ms <= DISCORD_EPOCH_MS ==> snowflake_id(now_ms, increment) == 0x2_0000 + 0x1000
            + increment,
{
    if now_ms > DISCORD_EPOCH_MS && now_ms - DISCORD_EPOCH_MS < 0x400_0000_0000 {
        let ts: u64 = (now_ms - DISCORD_EPOCH_MS) as u64;
        assert(ts < 0x400_0000_0000 && increment < 4096 ==> (ts << 22u64) | (1u64 << 17u64) | (1u64
            << 12u64) | increment == ts * 0x40_0000 + 0x2_0000 + 0x1000 + increment) by (bit_vector);
    } else if now_ms <= DISCORD_EPOCH_MS {
        let ts: u64 = 0;
        assert(increment < 4096 ==> (0u64 << 22u64) | (1u64 << 17u64) | (1u64 << 12u64) | increment
            == 0x2_0000 + 0x1000 + increment) by (bit_vector);
    }
}

/// Whether every character of `s` is a space or an underscore.
pub open spec fn only_separators(s: Seq<char>) -> bool {
    forall|k: int| 0 <= k < s.len() ==> is_separator(#[trigger] s[k])
}

proof fn lemma_trim_start_separators(x: Seq<char>, y: Seq<char>) -> (j: int)
    requires
        only_separators(x),
        y.len() > 0,
        is_ascii_digit(y[0]),
    ensures
        0 <= j <= x.len(),
        crate::text::trim_start(x + y) == x.skip(j) + y,
    decreases x.len(),
{
    if x.len() == 0 {
        assert(x + y =~= y);
        assert(x.skip(0) + y =~= y);
        0
    } else if x[0] == ' ' {
        let tail = x.drop_first();
        assert(only_separators(tail)) by {
            assert forall|k: int| 0 <= k < tail.len() implies is_separator(#[trigger] tail[k]) by {
                assert(tail[k] == x[k + 1]);
            }
        }
        assert((x + y).drop_first() =~= tail + y);
        let j = lemma_trim_start_separators(tail, y);
        assert(tail.skip(j) =~= x.skip(j + 1));
        j + 1
    } else {
        assert(x[0] == '_');
        assert((x + y)[0] == '_');
        assert(x.skip(0) =~= x);
        0
    }
}

proof fn lemma_trim_end_after_digit(w: Seq<char>, r: Seq<char>) -> (j: int)
    requires
        w.len() > 0,
        is_ascii_digit(w.last()),
    ensures
        0 <= j <= r.len(),
        crate::text::trim_end(w + r) == w + r.take(j),
    decreases r.len(),
{
    if r.len() == 0 {
        assert(w + r =~= w);
        assert(w + r.take(0) =~= w);
        0
    } else if crate::text::is_white_space(r.last()) {
        assert((w + r).last() == r.last());
        assert((w + r).drop_last() =~= w + r.drop_last());
        let j = lemma_trim_end_after_digit(w, r.drop_last());
        assert(r.drop_last().take(j) =~= r.take(j));
        j
    } else {
        assert((w + r).last() == r.last());
        assert(r.take(r.len() as int) =~= r);
        r.len() as int
    }
}

proof fn lemma_drop_separators_prefix(x: Seq<char>, y: Seq<char>)
    requires
        only_separators(x),
        y.len() > 0,
        is_ascii_digit(y[0]),
    ensures
        drop_separators(x + y) == y,
    decreases x.len(),
{
    if x.len() == 0 {
        assert(x + y =~= y);
    } else {
        let tail = x.drop_first();
        assert(only_separators(tail)) by {
            assert forall|k: int| 0 <= k < tail.len() implies is_separator(#[trigger] tail[k]) by {
                assert(tail[k] == x[k + 1]);
            }
        }
        assert((x + y)[0] == x[0]);
        assert((x + y).drop_first() =~= tail + y);
        lemma_drop_separators_prefix(tail, y);
    }
}

/// The number a message leads with: for a message made of spaces and
/// underscores, then a non-empty run of ASCII digits, then anything that does
/// not start with a digit, `parse_leading_number` gives the value of all those
/// digits, and nothing where that value exceeds `i64::MAX`.
pub proof fn law_leading_number_of_message(p: Seq<char>, d: Seq<char>, r: Seq<char>)
    requires
        only_separators(p),
        only_digits(d),
        d.len() > 0,
        r.len() == 0 || !is_ascii_digit(r[0]),
    ensures
        leading_number(p + d + r) == (if crate::number::digits_value(d) <= i64::MAX {
            Some(crate::number::digits_value(d) as i64)
        } else {
            None
        }),
{
    assert(is_ascii_digit(d[0]));
    assert(p + d + r =~= p + (d + r));
    assert((d + r)[0] == d[0]);
    let j = lemma_trim_start_separators(p, d + r);
    let q = p.skip(j);
    assert(only_separators(q)) by {
        assert forall|k: int| 0 <= k < q.len() implies is_separator(#[trigger] q[k]) by {
            assert(q[k] == p[k + j]);
        }
    }
    let w = q + d;
    assert(w.last() == d.last());
    assert(is_ascii_digit(d[d.len() - 1]));
    assert(q + (d + r) =~= w + r);
    let jj = lemma_trim_end_after_digit(w, r);
    let r2 = r.take(jj);
    assert(trim(p + d + r) == w + r2);
    assert(w + r2 =~= q + (d + r2));
    assert((d + r2)[0] == d[0]);
    lemma_drop_separators_prefix(q, d + r2);
    assert(r2.len() == 0 || r2[0] == r[0]);
    lemma_digit_run_prefix(d, r2);
}
} // verus!
