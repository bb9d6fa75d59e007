use vstd::prelude::*;
use crate::models::ReactionDelayMode;
use crate::number::digits_value;
use crate::text::{
    ascii_digit, chars_of, copy_range, push_all, is_ascii_digit, push_char, same_chars, string_of, strip_char,
    strip_char_vec, trim, trim_start, trim_start_vec, trimmed_chars,
};

verus! {

// ---------------------------------------------------------------------------
// Splitting
// ---------------------------------------------------------------------------

/// The number of characters of `s` before its first `c` (all of them where it
/// has none).
pub open spec fn len_until(s: Seq<char>, c: char) -> nat
    decreases s.len(),
{
    if s.len() == 0 || s[0] == c {
        0
    } else {
        1 + len_until(s.drop_first(), c)
    }
}

pub proof fn lemma_len_until_bound(s: Seq<char>, c: char)
    ensures
        len_until(s, c) <= s.len(),
        len_until(s, c) < s.len() ==> s[len_until(s, c) as int] == c,
        forall|i: int| 0 <= i < len_until(s, c) ==> s[i] != c,
    decreases s.len(),
{
    if s.len() > 0 && s[0] != c {
        lemma_len_until_bound(s.drop_first(), c);
        assert forall|i: int| 0 <= i < len_until(s, c) implies s[i] != c by {
            if i > 0 {
                assert(s[i] == s.drop_first()[i - 1]);
            }
        }
    }
}

/// `l` without one `'\r'` at its end.
pub open spec fn strip_cr(l: Seq<char>) -> Seq<char> {
    if l.len() > 0 && l.last() == '\r' {
        l.drop_last()
    } else {
        l
    }
}

/// The lines of `s` as `str::lines` gives them: split at `'\n'`, a `'\r'` before
/// the `'\n'` dropped, and no empty last line after a final line break.
pub open spec fn lines_of(s: Seq<char>) -> Seq<Seq<char>>
    decreases s.len(),
{
    if s.len() == 0 {
        Seq::empty()
    } else {
        let k = len_until(s, '\n');
        proof {
            lemma_len_until_bound(s, '\n');
        }
        if k < s.len() {
            seq![strip_cr(s.take(k as int))] + lines_of(s.skip(k + 1int))
        } else {
            seq![s]
        }
    }
}

/// The pieces of `s` between the copies of `c` (what `str::split(c)` gives).
pub open spec fn pieces(s: Seq<char>, c: char) -> Seq<Seq<char>>
    decreases s.len(),
{
    let k = len_until(s, c);
    proof {
        lemma_len_until_bound(s, c);
    }
    if k < s.len() {
        seq![s.take(k as int)] + pieces(s.skip(k + 1int), c)
    } else {
        seq![s]
    }
}

/// The views of a list of character vectors.
pub open spec fn views(ls: Seq<Vec<char>>) -> Seq<Seq<char>> {
    ls.map_values(|l: Vec<char>| l@)
}

/// The end of the piece of `v` that starts at `from` and ends before the next `c`.
fn piece_end(v: &Vec<char>, from: usize, c: char) -> (j: usize)
    requires
        from <= v.len(),
    ensures
        from <= j <= v.len(),
        j - from == len_until(v@.skip(from as int), c),
{
    let mut j = from;
    assert(v@.skip(from as int) =~= v@.skip(j as int));
    while j < v.len() && v[j] != c
        invariant
            from <= j <= v.len(),
            len_until(v@.skip(from as int), c) == (j - from) + len_until(v@.skip(j as int), c),
        decreases v.len() - j,
    {
        assert(v@.skip(j as int).drop_first() =~= v@.skip(j + 1));
        j = j + 1;
    }
    j
}

/// `lines_of(v@)` as vectors.
pub fn lines_vec(v: &Vec<char>) -> (ls: Vec<Vec<char>>)
    ensures
        views(ls@) == lines_of(v@),
{
    let mut ls: Vec<Vec<char>> = Vec::new();
    let mut i: usize = 0;
    assert(v@.skip(0) =~= v@);
    while i < v.len()
        invariant
            i <= v.len(),
            lines_of(v@) == views(ls@) + lines_of(v@.skip(i as int)),
        decreases v.len() - i,
    {
        let j = piece_end(v, i, '\n');
        let ghost rest = v@.skip(i as int);
        let ghost before = views(ls@);
        assert(rest.take((j - i) as int) =~= v@.subrange(i as int, j as int));
        if j < v.len() {
            let mut line = copy_range(v, i, j);
            if line.len() > 0 && line[line.len() - 1] == '\r' {
                line.pop();
            }
            assert(line@ == strip_cr(v@.subrange(i as int, j as int)));
            assert(rest.skip((j - i) + 1) =~= v@.skip(j + 1));
            assert(lines_of(rest) == seq![line@] + lines_of(v@.skip(j + 1)));
            ls.push(line);
            assert(views(ls@) =~= before.push(line@));
            assert(before + lines_of(rest) =~= views(ls@) + lines_of(v@.skip(j + 1)));
            i = j + 1;
        } else {
            let line = copy_range(v, i, j);
            assert(rest =~= v@.subrange(i as int, j as int));
            assert(lines_of(rest) == seq![line@]);
            ls.push(line);
            assert(views(ls@) =~= before.push(line@));
            i = j;
            assert(lines_of(v@.skip(i as int)) =~= Seq::<Seq<char>>::empty());
            assert(before + lines_of(rest) =~= views(ls@) + lines_of(v@.skip(i as int)));
        }
    }
    assert(lines_of(v@.skip(i as int)) =~= Seq::<Seq<char>>::empty());
    ls
}


// ---------------------------------------------------------------------------
// Configuration files
// ---------------------------------------------------------------------------

/// `s` trimmed of white space and then of double quotes at both ends.
pub open spec fn unquoted(s: Seq<char>) -> Seq<char> {
    strip_char(trim(s), '"')
}

/// The value written into a configuration line: `unquoted` and then without
/// single quotes at both ends.
pub open spec fn clean_env_value(value: Seq<char>) -> Seq<char> {
    strip_char(unquoted(value), '\'')
}

/// The line `KEY="value"`.
pub open spec fn env_line(key: Seq<char>, value: Seq<char>) -> Seq<char> {
    key + seq!['=', '"'] + clean_env_value(value) + seq!['"']
}

/// Whether `line`, with leading white space dropped, starts with `KEY=`.
pub open spec fn sets_key(line: Seq<char>, key: Seq<char>) -> bool {
    key.push('=').is_prefix_of(trim_start(line))
}

/// `ls` with its first line that sets `key` replaced by `new_line`, or with
/// `new_line` added at the end where no line sets `key`.
pub open spec fn replace_key_line(ls: Seq<Seq<char>>, key: Seq<char>, new_line: Seq<char>) -> Seq<
    Seq<char>,
>
    decreases ls.len(),
{
    if ls.len() == 0 {
        seq![new_line]
    } else if sets_key(ls[0], key) {
        seq![new_line] + ls.drop_first()
    } else {
        seq![ls[0]] + replace_key_line(ls.drop_first(), key, new_line)
    }
}

/// The lines of `ls` joined by `'\n'`.
pub open spec fn join_lines(ls: Seq<Seq<char>>) -> Seq<char>
    decreases ls.len(),
{
    if ls.len() == 0 {
        Seq::empty()
    } else if ls.len() == 1 {
        ls[0]
    } else {
        join_lines(ls.drop_last()) + seq!['\n'] + ls.last()
    }
}

/// The configuration file `content` once `key` is set to `value`: the first line
/// that sets `key` is replaced by `KEY="value"` (or that line is added), and
/// the lines are written back, each ending in a line break.
pub open spec fn env_file_with(content: Seq<char>, key: Seq<char>, value: Seq<char>) -> Seq<char> {
    join_lines(replace_key_line(lines_of(content), key, env_line(key, value))) + seq!['\n']
}

/// `unquoted(s@)`: a value with white space and double quotes trimmed.
pub fn clean_quoted(s: &str) -> (r: String)
    ensures
        r@ == unquoted(s@),
{
    let t = trimmed_chars(s);
    let u = strip_char_vec(&t, '"');
    string_of(&u)
}

fn sets_key_vec(line: &Vec<char>, key_eq: &Vec<char>) -> (b: bool)
    ensures
        b == key_eq@.is_prefix_of(trim_start(line@)),
{
    let t = trim_start_vec(line);
    if key_eq.len() > t.len() {
        return false;
    }
    let mut i: usize = 0;
    while i < key_eq.len()
        invariant
            t@ == trim_start(line@),
            key_eq.len() <= t.len(),
            i <= key_eq.len(),
            forall|k: int| 0 <= k < i ==> key_eq@[k] == t@[k],
        decreases key_eq.len() - i,
    {
        if key_eq[i] != t[i] {
            assert(t@.subrange(0, key_eq@.len() as int)[i as int] == t@[i as int]);
            return false;
        }
        i = i + 1;
    }
    assert(key_eq@ =~= t@.take(key_eq.len() as int));
    true
}

proof fn lemma_replace_at(ls: Seq<Seq<char>>, key: Seq<char>, new_line: Seq<char>, p: int)
    requires
        0 <= p <= ls.len(),
        forall|q: int| 0 <= q < p ==> !sets_key(#[trigger] ls[q], key),
        p < ls.len() ==> sets_key(ls[p], key),
    ensures
        replace_key_line(ls, key, new_line) == (if p < ls.len() {
            ls.take(p).push(new_line) + ls.skip(p + 1)
        } else {
            ls.push(new_line)
        }),
    decreases ls.len(),
{
    if ls.len() == 0 {
        assert(ls.push(new_line) =~= seq![new_line]);
    } else if p == 0 {
        assert(ls.take(0).push(new_line) + ls.skip(1) =~= seq![new_line] + ls.drop_first());
    } else {
        let tail = ls.drop_first();
        assert forall|q: int| 0 <= q < p - 1 implies !sets_key(#[trigger] tail[q], key) by {
            assert(tail[q] == ls[q + 1]);
        }
        lemma_replace_at(tail, key, new_line, p - 1);
        if p < ls.len() {
            assert(seq![ls[0]] + (tail.take(p - 1).push(new_line) + tail.skip(p)) =~= ls.take(p).push(
                new_line,
            ) + ls.skip(p + 1));
        } else {
            assert(seq![ls[0]] + tail.push(new_line) =~= ls.push(new_line));
        }
    }
}

proof fn lemma_join_step(ls: Seq<Seq<char>>, i: int)
    requires
        0 <= i < ls.len(),
    ensures
        join_lines(ls.take(i + 1)) == (if i == 0 {
            ls[0]
        } else {
            join_lines(ls.take(i)) + seq!['\n'] + ls[i]
        }),
{
    assert(ls.take(i + 1).drop_last() =~= ls.take(i));
}

/// The configuration file `content` once `key` is set to `value`, ready to be
/// written back: the first line that sets `key` (after leading white space) is
/// replaced by `KEY="value"`, or that line is added at the end; the value has
/// white space, double quotes and single quotes trimmed.
pub fn env_file_with_var(content: &str, key: &str, value: &str) -> (r: String)
    ensures
        r@ == env_file_with(content@, key@, value@),
{
    let ghost key_v = key@;
    // KEY="value"
    let key_chars = chars_of(key);
    let cleaned = strip_char_vec(&chars_of(clean_quoted(value).as_str()), '\'');
    let mut new_line: Vec<char> = copy_range(&key_chars, 0, key_chars.len());
    new_line.push('=');
    new_line.push('"');
    let mut k: usize = 0;
    let ghost head = new_line@;
    while k < cleaned.len()
        invariant
            k <= cleaned.len(),
            new_line@ == head + cleaned@.take(k as int),
        decreases cleaned.len() - k,
    {
        new_line.push(cleaned[k]);
        assert(cleaned@.take(k + 1) =~= cleaned@.take(k as int).push(cleaned@[k as int]));
        k = k + 1;
    }
    new_line.push('"');
    assert(key_chars@.subrange(0, key_chars@.len() as int) =~= key_chars@);
    assert(cleaned@.take(cleaned@.len() as int) =~= cleaned@);
    assert(new_line@ =~= env_line(key@, value@));
    // KEY=
    let mut key_eq = copy_range(&key_chars, 0, key_chars.len());
    key_eq.push('=');
    assert(key_eq@ =~= key@.push('='));

    let lines = lines_vec(&chars_of(content));
    let ghost ls = views(lines@);
    let mut p: usize = 0;
    while p < lines.len() && !sets_key_vec(&lines[p], &key_eq)
        invariant
            p <= lines.len(),
            ls == views(lines@),
            key_eq@ == key@.push('='),
            forall|q: int| 0 <= q < p ==> !sets_key(#[trigger] ls[q], key@),
        decreases lines.len() - p,
    {
        p = p + 1;
    }
    proof {
        lemma_replace_at(ls, key@, new_line@, p as int);
    }
    let ghost replaced = replace_key_line(ls, key@, new_line@);
    // Join the lines, with `new_line` at position `p`.
    let mut out = String::new();
    let mut i: usize = 0;
    while i < lines.len()
        invariant
            p <= lines.len(),
            ls == views(lines@),
            replaced == (if p < lines.len() {
                ls.take(p as int).push(new_line@) + ls.skip(p + 1)
            } else {
                ls.push(new_line@)
            }),
            i <= lines.len(),
            out@ == join_lines(replaced.take(i as int)),
        decreases lines.len() - i,
    {
        let line: &Vec<char> = if i == p {
            &new_line
        } else {
            &lines[i]
        };
        assert(line@ == replaced[i as int]);
        proof {
            lemma_join_step(replaced, i as int);
        }
        if i > 0 {
            push_char(&mut out, '\n');
        }
        push_all(&mut out, line);
        i = i + 1;
    }
    if p == lines.len() {
        assert(new_line@ == replaced[i as int]);
        proof {
            lemma_join_step(replaced, i as int);
        }
        if i > 0 {
            push_char(&mut out, '\n');
        }
        push_all(&mut out, &new_line);
        assert(replaced.take(i + 1) =~= replaced);
    } else {
        assert(replaced.take(i as int) =~= replaced);
    }
    push_char(&mut out, '\n');
    out
}

// ---------------------------------------------------------------------------
// Start-up choices
// ---------------------------------------------------------------------------

/// The tokens of a comma-separated list: each piece `unquoted`, empty ones
/// dropped.
pub open spec fn token_list(raw: Seq<char>) -> Seq<Seq<char>> {
    pieces(raw, ',').map_values(|p: Seq<char>| unquoted(p)).filter(|t: Seq<char>| t.len() > 0)
}

proof fn lemma_tokens_push(c: Seq<Seq<char>>, x: Seq<char>)
    ensures
        c.push(x).map_values(|p: Seq<char>| unquoted(p)).filter(|t: Seq<char>| t.len() > 0) == c.map_values(
            |p: Seq<char>| unquoted(p),
        ).filter(|t: Seq<char>| t.len() > 0) + (if unquoted(x).len() > 0 {
            seq![unquoted(x)]
        } else {
            Seq::empty()
        }),
{
    reveal(Seq::filter);
    let m = c.push(x).map_values(|p: Seq<char>| unquoted(p));
    assert(m.drop_last() =~= c.map_values(|p: Seq<char>| unquoted(p)));
    let f = c.map_values(|p: Seq<char>| unquoted(p)).filter(|t: Seq<char>| t.len() > 0);
    if unquoted(x).len() > 0 {
        assert(f.push(unquoted(x)) =~= f + seq![unquoted(x)]);
    } else {
        assert(f =~= f + Seq::<Seq<char>>::empty());
    }
}

/// `trim(v@)` as a vector.
fn trim_vec(v: &Vec<char>) -> (r: Vec<char>)
    ensures
        r@ == trim(v@),
{
    let (from, to) = crate::text::trim_bounds(v);
    copy_range(v, from, to)
}

/// The tokens of a comma-separated list: each piece trimmed of white space and
/// double quotes, empty pieces dropped.
pub fn parse_token_list(raw: &str) -> (tokens: Vec<String>)
    ensures
        tokens@.map_values(|t: String| t@) == token_list(raw@),
{
    let v = chars_of(raw);
    let mut tokens: Vec<String> = Vec::new();
    let ghost mut consumed: Seq<Seq<char>> = Seq::empty();
    let mut i: usize = 0;
    let mut done = false;
    assert(v@.skip(0) =~= v@);
    assert(consumed + pieces(v@, ',') =~= pieces(v@, ','));
    reveal(Seq::filter);
    assert(tokens@.map_values(|t: String| t@) =~= consumed.map_values(|p: Seq<char>| unquoted(p)).filter(
        |t: Seq<char>| t.len() > 0,
    ));
    while !done
        invariant
            i <= v.len(),
            done ==> pieces(v@, ',') == consumed,
            !done ==> pieces(v@, ',') == consumed + pieces(v@.skip(i as int), ','),
            tokens@.map_values(|t: String| t@) == consumed.map_values(|p: Seq<char>| unquoted(p)).filter(
                |t: Seq<char>| t.len() > 0,
            ),
        decreases v.len() - i + (if done { 0int } else { 1int }),
    {
        let j = piece_end(&v, i, ',');
        let ghost rest = v@.skip(i as int);
        let piece = copy_range(&v, i, j);
        assert(rest.take((j - i) as int) =~= piece@);
        let cleaned = strip_char_vec(&trim_vec(&piece), '"');
        let ghost before = tokens@.map_values(|t: String| t@);
        proof {
            lemma_tokens_push(consumed, piece@);
        }
        if cleaned.len() > 0 {
            tokens.push(string_of(&cleaned));
            assert(tokens@.map_values(|t: String| t@) =~= before + seq![cleaned@]);
        } else {
            assert(tokens@.map_values(|t: String| t@) =~= before + Seq::<Seq<char>>::empty());
        }
        let ghost consumed_before = consumed;
        proof {
            consumed = consumed.push(piece@);
        }
        if j < v.len() {
            assert(rest.skip((j - i) + 1) =~= v@.skip(j + 1));
            assert(pieces(rest, ',') == seq![piece@] + pieces(v@.skip(j + 1), ','));
            assert(consumed_before + pieces(rest, ',') =~= consumed + pieces(v@.skip(j + 1), ','));
            i = j + 1;
        } else {
            assert(rest =~= piece@);
            assert(pieces(rest, ',') == seq![piece@]);
            assert(consumed_before + pieces(rest, ',') =~= consumed);
            done = true;
        }
    }
    tokens
}

/// The token-swap choice read from `input`: the number that `str::parse::<usize>`
/// reads from the trimmed input (an optional `'+'`, then decimal digits), where
/// it is 1, 2 or 3; anything else chooses 1.
pub open spec fn swap_choice(input: Seq<char>) -> usize {
    let d = unsigned_part(trim(input));
    if d.len() > 0 && all_digits(d) && 1 <= digits_value(d) <= 3 {
        digits_value(d) as usize
    } else {
        1
    }
}

/// `t` without one leading `'+'`.
pub open spec fn unsigned_part(t: Seq<char>) -> Seq<char> {
    if t.len() > 0 && t[0] == '+' {
        t.drop_first()
    } else {
        t
    }
}

/// Whether every character of `s` is an ASCII digit.
pub open spec fn all_digits(s: Seq<char>) -> bool {
    forall|k: int| 0 <= k < s.len() ==> is_ascii_digit(#[trigger] s[k])
}

/// Reads the token-swap choice (1, 2 or 3; 1 for anything else).
pub fn parse_swap_choice(input: &str) -> (n: usize)
    ensures
        n == swap_choice(input@),
        1 <= n <= 3,
{
    let t = trimmed_chars(input);
    let start: usize = if t.len() > 0 && t[0] == '+' { 1 } else { 0 };
    let d = copy_range(&t, start, t.len());
    assert(start == 1 ==> d@ =~= t@.drop_first());
    assert(start == 0 ==> d@ =~= t@);
    if d.len() == 0 {
        return 1;
    }
    let mut i: usize = 0;
    while i < d.len()
        invariant
            t@ == trim(input@),
            d@ == unsigned_part(t@),
            i <= d.len(),
            forall|k: int| 0 <= k < i ==> is_ascii_digit(#[trigger] d@[k]),
        decreases d.len() - i,
    {
        if !ascii_digit(d[i]) {
            assert(!is_ascii_digit(d@[i as int]));
            return 1;
        }
        i = i + 1;
    }
    // All digits: the value is at most 3 exactly where every digit but the last
    // is 0 and the last is 1, 2 or 3.
    let mut acc: u64 = 0;
    let mut k: usize = 0;
    while k < d.len()
        invariant
            t@ == trim(input@),
            d@ == unsigned_part(t@),
            d.len() > 0,
            k <= d.len(),
            forall|q: int| 0 <= q < d.len() ==> is_ascii_digit(#[trigger] d@[q]),
            acc == digits_value(d@.take(k as int)),
            acc <= 3,
        decreases d.len() - k,
    {
        let c = d[k];
        let digit: u64 = (c as u32 - 48) as u64;
        assert(d@.take(k + 1).drop_last() =~= d@.take(k as int));
        if acc * 10 + digit > 3 {
            proof {
                crate::number::lemma_digits_value_prefix_grows(d@, k + 1);
            }
            return 1;
        }
        acc = acc * 10 + digit;
        k = k + 1;
    }
    assert(d@.take(d.len() as int) =~= d@);
    if acc == 0 {
        return 1;
    }
    acc as usize
}

/// The reaction delay chosen by the trimmed input: `"2"` fast, `"3"` instant,
/// anything else normal.
pub open spec fn delay_choice(input: Seq<char>) -> ReactionDelayMode {
    let t = trim(input);
    if t == seq!['2'] {
        ReactionDelayMode::Fast
    } else if t == seq!['3'] {
        ReactionDelayMode::Instant
    } else {
        ReactionDelayMode::Normal
    }
}

/// Reads the reaction delay choice.
pub fn parse_delay_choice(input: &str) -> (m: ReactionDelayMode)
    ensures
        m == delay_choice(input@),
{
    let t = trimmed_chars(input);
    if t.len() == 1 && t[0] == '2' {
        assert(t@ =~= seq!['2']);
        ReactionDelayMode::Fast
    } else if t.len() == 1 && t[0] == '3' {
        assert(t@ =~= seq!['3']);
        ReactionDelayMode::Instant
    } else {
        assert(t@ != seq!['2'] && t@ != seq!['3']) by {
            if t@ == seq!['2'] || t@ == seq!['3'] {
                assert(t@.len() == 1);
            }
        }
        ReactionDelayMode::Normal
    }
}

/// The `--profile` flag.
pub open spec fn profile_flag() -> Seq<char> {
    seq!['-', '-', 'p', 'r', 'o', 'f', 'i', 'l', 'e']
}

/// The profile named by the command line `args` (program name first): the value
/// after `--profile`, or the first argument without leading dashes; without
/// arguments the `PROFILE` setting, else `"1"`.
pub open spec fn profile_of(args: Seq<Seq<char>>, env_profile: Option<String>) -> Seq<char> {
    if args.len() > 1 {
        if args[1] == profile_flag() && args.len() > 2 {
            args[2]
        } else {
            crate::text::strip_start_char(args[1], '-')
        }
    } else {
        match env_profile {
            Some(p) => p@,
            None => seq!['1'],
        }
    }
}

/// The profile to load, from the command line and the `PROFILE` setting.
pub fn profile_name(args: &Vec<String>, env_profile: Option<String>) -> (p: String)
    ensures
        p@ == profile_of(args@.map_values(|a: String| a@), env_profile),
{
    let ghost av = args@.map_values(|a: String| a@);
    if args.len() > 1 {
        let arg = chars_of(args[1].as_str());
        let mut flag: Vec<char> = Vec::new();
        flag.push('-');
        flag.push('-');
        flag.push('p');
        flag.push('r');
        flag.push('o');
        flag.push('f');
        flag.push('i');
        flag.push('l');
        flag.push('e');
        assert(flag@ =~= profile_flag());
        assert(av[1] == arg@);
        if same_chars(&arg, &flag) && args.len() > 2 {
            assert(av[2] == args@[2]@);
            return args[2].clone();
        }
        let mut i: usize = 0;
        assert(arg@.skip(0) =~= arg@);
        while i < arg.len() && arg[i] == '-'
            invariant
                i <= arg.len(),
                crate::text::strip_start_char(arg@, '-') == crate::text::strip_start_char(
                    arg@.skip(i as int),
                    '-',
                ),
            decreases arg.len() - i,
        {
            assert(arg@.skip(i as int).drop_first() =~= arg@.skip(i + 1));
            i = i + 1;
        }
        let rest = copy_range(&arg, i, arg.len());
        assert(rest@ =~= arg@.skip(i as int));
        string_of(&rest)
    } else {
        match env_profile {
            Some(e) => e,
            None => {
                let mut s = String::new();
                push_char(&mut s, '1');
                assert(s@ =~= seq!['1']);
                s
            },
        }
    }
}

/// A setting's value as read from the environment: `None` where it is missing or
/// only white space, else the value with white space and double quotes trimmed.
pub fn configured_value(val: Option<&str>) -> (r: Option<String>)
    ensures
        match val {
            None => r is None,
            Some(v) => if trim(v@).len() == 0 {
                r is None
            } else {
                r is Some && r->0@ == unquoted(v@)
            },
        },
{
    match val {
        None => None,
        Some(v) => {
            let t = trimmed_chars(v);
            if t.len() == 0 {
                None
            } else {
                Some(clean_quoted(v))
            }
        },
    }
}

// ---------------------------------------------------------------------------
// Laws
// ---------------------------------------------------------------------------

/// Whether `l` ends with a carriage return.
pub open spec fn ends_with_cr(l: Seq<char>) -> bool {
    l.len() > 0 && l.last() == '\r'
}

/// The line that a reader who takes the first line setting `key` finds.
pub open spec fn first_line_setting(ls: Seq<Seq<char>>, key: Seq<char>) -> Option<Seq<char>>
    decreases ls.len(),
{
    if ls.len() == 0 {
        None
    } else if sets_key(ls[0], key) {
        Some(ls[0])
    } else {
        first_line_setting(ls.drop_first(), key)
    }
}

/// Whether no line of `ls` holds a line break or ends with a carriage return.
pub open spec fn plain_lines(ls: Seq<Seq<char>>) -> bool {
    forall|i: int| 0 <= i < ls.len() ==> !(#[trigger] ls[i]).contains('\n') && !ends_with_cr(ls[i])
}

proof fn lemma_len_until_first(x: Seq<char>, y: Seq<char>)
    requires
        !x.contains('\n'),
    ensures
        len_until(x + seq!['\n'] + y, '\n') == x.len(),
    decreases x.len(),
{
    let s = x + seq!['\n'] + y;
    if x.len() == 0 {
        assert(s[0] == '\n');
    } else {
        assert(s[0] == x[0]);
        assert(s.drop_first() =~= x.drop_first() + seq!['\n'] + y);
        assert(!x.drop_first().contains('\n')) by {
            if x.drop_first().contains('\n') {
                let k = choose|k: int| 0 <= k < x.drop_first().len() && x.drop_first()[k] == '\n';
                assert(x[k + 1] == '\n');
            }
        }
        lemma_len_until_first(x.drop_first(), y);
    }
}

proof fn lemma_join_front(ls: Seq<Seq<char>>)
    requires
        ls.len() >= 2,
    ensures
        join_lines(ls) == ls[0] + seq!['\n'] + join_lines(ls.drop_first()),
    decreases ls.len(),
{
    let dl = ls.drop_last();
    let df = ls.drop_first();
    assert(join_lines(ls) == join_lines(dl) + seq!['\n'] + ls.last());
    if ls.len() == 2 {
        assert(dl =~= seq![ls[0]]);
        assert(df =~= seq![ls[1]]);
        assert(join_lines(dl) == ls[0]);
        assert(join_lines(df) == ls[1]);
        assert(join_lines(ls) =~= ls[0] + seq!['\n'] + join_lines(df));
    } else {
        lemma_join_front(dl);
        assert(dl.drop_first() =~= df.drop_last());
        assert(df.last() == ls.last());
        assert(dl[0] == ls[0]);
        assert(join_lines(df) == join_lines(df.drop_last()) + seq!['\n'] + df.last());
        assert(join_lines(ls) =~= ls[0] + seq!['\n'] + join_lines(df));
    }
}

proof fn lemma_lines_of_join(ls: Seq<Seq<char>>)
    requires
        ls.len() >= 1,
        plain_lines(ls),
    ensures
        lines_of(join_lines(ls) + seq!['\n']) == ls,
    decreases ls.len(),
{
    assert(!ls[0].contains('\n') && !ends_with_cr(ls[0]));
    if ls.len() == 1 {
        let s = join_lines(ls) + seq!['\n'];
        assert(s =~= ls[0] + seq!['\n'] + Seq::<char>::empty());
        lemma_len_until_first(ls[0], Seq::<char>::empty());
        assert(s.take(ls[0].len() as int) =~= ls[0]);
        assert(s.skip(ls[0].len() + 1int) =~= Seq::<char>::empty());
        assert(strip_cr(ls[0]) == ls[0]);
        assert(lines_of(s) == seq![strip_cr(s.take(ls[0].len() as int))] + lines_of(
            s.skip(ls[0].len() + 1int),
        ));
        assert(lines_of(s) =~= ls);
    } else {
        let rest = ls.drop_first();
        assert(plain_lines(rest)) by {
            assert forall|i: int| 0 <= i < rest.len() implies !(#[trigger] rest[i]).contains('\n')
                && !ends_with_cr(rest[i]) by {
                assert(rest[i] == ls[i + 1]);
            }
        }
        lemma_lines_of_join(rest);
        lemma_join_front(ls);
        let tail = join_lines(rest) + seq!['\n'];
        let s = join_lines(ls) + seq!['\n'];
        assert(s =~= ls[0] + seq!['\n'] + tail);
        lemma_len_until_first(ls[0], tail);
        assert(s.take(ls[0].len() as int) =~= ls[0]);
        assert(s.skip(ls[0].len() + 1int) =~= tail);
        assert(strip_cr(ls[0]) == ls[0]);
        assert(lines_of(s) == seq![strip_cr(s.take(ls[0].len() as int))] + lines_of(
            s.skip(ls[0].len() + 1int),
        ));
        assert(lines_of(s) =~= seq![ls[0]] + rest);
    }
}

proof fn lemma_lines_have_no_break(s: Seq<char>)
    ensures
        forall|i: int| 0 <= i < lines_of(s).len() ==> !(#[trigger] lines_of(s)[i]).contains('\n'),
    decreases s.len(),
{
    if s.len() > 0 {
        let k = len_until(s, '\n');
        lemma_len_until_bound(s, '\n');
        if k < s.len() {
            lemma_lines_have_no_break(s.skip(k + 1int));
            let first = strip_cr(s.take(k as int));
            assert(!first.contains('\n')) by {
                if first.contains('\n') {
                    let j = choose|j: int| 0 <= j < first.len() && first[j] == '\n';
                    assert(s[j] == '\n');
                }
            }
            let ls = lines_of(s);
            assert(ls =~= seq![first] + lines_of(s.skip(k + 1int)));
            assert forall|i: int| 0 <= i < ls.len() implies !(#[trigger] ls[i]).contains('\n') by {
                if i > 0 {
                    assert(ls[i] == lines_of(s.skip(k + 1int))[i - 1]);
                }
            }
        } else {
            assert(!s.contains('\n')) by {
                if s.contains('\n') {
                    let j = choose|j: int| 0 <= j < s.len() && s[j] == '\n';
                }
            }
        }
    }
}

proof fn lemma_replace_keeps_plain(ls: Seq<Seq<char>>, key: Seq<char>, new_line: Seq<char>)
    requires
        plain_lines(ls),
        !new_line.contains('\n'),
        !ends_with_cr(new_line),
    ensures
        plain_lines(replace_key_line(ls, key, new_line)),
        replace_key_line(ls, key, new_line).len() >= 1,
    decreases ls.len(),
{
    let r = replace_key_line(ls, key, new_line);
    if ls.len() > 0 {
        let tail = ls.drop_first();
        assert(plain_lines(tail)) by {
            assert forall|i: int| 0 <= i < tail.len() implies !(#[trigger] tail[i]).contains('\n')
                && !ends_with_cr(tail[i]) by {
                assert(tail[i] == ls[i + 1]);
            }
        }
        lemma_replace_keeps_plain(tail, key, new_line);
        assert forall|i: int| 0 <= i < r.len() implies !(#[trigger] r[i]).contains('\n')
            && !ends_with_cr(r[i]) by {
            if i > 0 {
                if sets_key(ls[0], key) {
                    assert(r[i] == tail[i - 1]);
                } else {
                    assert(r[i] == replace_key_line(tail, key, new_line)[i - 1]);
                }
            } else {
                assert(r[0] == new_line || r[0] == ls[0]);
            }
        }
    }
}

proof fn lemma_first_line_after_replace(ls: Seq<Seq<char>>, key: Seq<char>, new_line: Seq<char>)
    requires
        sets_key(new_line, key),
    ensures
        first_line_setting(replace_key_line(ls, key, new_line), key) == Some(new_line),
    decreases ls.len(),
{
    let r = replace_key_line(ls, key, new_line);
    if ls.len() == 0 {
        assert(r[0] == new_line);
    } else if sets_key(ls[0], key) {
        assert(r[0] == new_line);
    } else {
        lemma_first_line_after_replace(ls.drop_first(), key, new_line);
        assert(r.drop_first() =~= replace_key_line(ls.drop_first(), key, new_line));
    }
}

/// A saved setting is read back: once `key` is set to `value` in a
/// configuration file, the file's lines are the old ones with the first line
/// setting `key` replaced (or one added), and the first line that sets `key` is
/// `KEY="value"`. This holds where neither the key nor the cleaned value holds
/// a line break, the key does not start with white space, and no line of the
/// old file ends with a carriage return that its line break did not remove.
pub proof fn law_saved_setting_is_read_back(content: Seq<char>, key: Seq<char>, value: Seq<char>)
    requires
        forall|i: int| 0 <= i < lines_of(content).len() ==> !ends_with_cr(#[trigger] lines_of(content)[i]),
        !key.contains('\n'),
        !clean_env_value(value).contains('\n'),
        key.len() == 0 || !crate::text::is_white_space(key[0]),
    ensures
        lines_of(env_file_with(content, key, value)) == replace_key_line(
            lines_of(content),
            key,
            env_line(key, value),
        ),
        first_line_setting(lines_of(env_file_with(content, key, value)), key) == Some(
            env_line(key, value),
        ),
{
    let nl = env_line(key, value);
    let ls = lines_of(content);
    lemma_lines_have_no_break(content);
    assert(plain_lines(ls));
    assert(!nl.contains('\n')) by {
        if nl.contains('\n') {
            let j = choose|j: int| 0 <= j < nl.len() && nl[j] == '\n';
            let cv = clean_env_value(value);
            if j < key.len() {
                assert(nl[j] == key[j]);
            } else if j >= key.len() + 2 && j < key.len() + 2 + cv.len() {
                assert(nl[j] == cv[j - key.len() - 2]);
            }
        }
    }
    assert(nl.last() == '"');
    lemma_replace_keeps_plain(ls, key, nl);
    lemma_lines_of_join(replace_key_line(ls, key, nl));
    // `KEY="value"` sets `key`.
    assert(nl[0] == (if key.len() > 0 { key[0] } else { '=' }));
    assert(crate::text::trim_start(nl) == nl);
    assert(key.push('=') =~= nl.subrange(0, key.len() + 1int));
    lemma_first_line_after_replace(ls, key, nl);
}

/// The token-swap menu: an answer that, trimmed and without one leading `'+'`,
/// is a non-empty run of decimal digits of value 1, 2 or 3 chooses that value;
/// every other answer chooses 1.
pub proof fn law_swap_menu(input: Seq<char>)
    ensures
        ({
            let t = trim(input);
            let signed = t.len() > 0 && t[0] == '+';
            let start: int = if signed { 1 } else { 0 };
            let valid = t.len() > start && (forall|k: int| start <= k < t.len() ==> '0' <= #[trigger] t[k] <= '9')
                && 1 <= digits_value(t.subrange(start, t.len() as int)) <= 3;
            &&& valid ==> swap_choice(input) == digits_value(t.subrange(start, t.len() as int))
            &&& !valid ==> swap_choice(input) == 1
        }),
{
    let t = trim(input);
    let start: int = if t.len() > 0 && t[0] == '+' { 1 } else { 0 };
    let d = unsigned_part(t);
    assert(d =~= t.subrange(start, t.len() as int));
    assert(all_digits(d) <==> (forall|k: int| start <= k < t.len() ==> '0' <= #[trigger] t[k] <= '9'))
        by {
        if all_digits(d) {
            assert forall|k: int| start <= k < t.len() implies '0' <= #[trigger] t[k] <= '9' by {
                assert(is_ascii_digit(d[k - start]));
            }
        }
        if forall|k: int| start <= k < t.len() ==> '0' <= #[trigger] t[k] <= '9' {
            assert forall|k: int| 0 <= k < d.len() implies is_ascii_digit(#[trigger] d[k]) by {
                assert('0' <= t[k + start] <= '9');
            }
        }
    }
}

/// The delay menu: the trimmed answer `"2"` chooses fast, `"3"` instant, every
/// other answer normal.
pub proof fn law_delay_menu(input: Seq<char>)
    ensures
        trim(input).len() == 1 && trim(input)[0] == '2' ==> delay_choice(input)
            == ReactionDelayMode::Fast,
        trim(input).len() == 1 && trim(input)[0] == '3' ==> delay_choice(input)
            == ReactionDelayMode::Instant,
        !(trim(input).len() == 1 && (trim(input)[0] == '2' || trim(input)[0] == '3'))
            ==> delay_choice(input) == ReactionDelayMode::Normal,
{
    let t = trim(input);
    if t.len() == 1 {
        if t[0] == '2' {
            assert(t =~= seq!['2']);
        } else if t[0] == '3' {
            assert(t =~= seq!['3']);
        } else {
            assert(t != seq!['2'] && t != seq!['3']) by {
                if t == seq!['2'] {
                    assert(t[0] == '2');
                }
                if t == seq!['3'] {
                    assert(t[0] == '3');
                }
            }
        }
    } else {
        assert(t != seq!['2'] && t != seq!['3']) by {
            if t == seq!['2'] || t == seq!['3'] {
                assert(t.len() == 1);
            }
        }
    }
}

proof fn lemma_no_char_in_parts(s: Seq<char>, c: char)
    requires
        !s.contains(c),
    ensures
        s.len() > 0 ==> !s.drop_first().contains(c) && !s.drop_last().contains(c),
{
    if s.len() > 0 {
        if s.drop_first().contains(c) {
            let k = choose|k: int| 0 <= k < s.drop_first().len() && s.drop_first()[k] == c;
            assert(s[k + 1] == c);
        }
        if s.drop_last().contains(c) {
            let k = choose|k: int| 0 <= k < s.drop_last().len() && s.drop_last()[k] == c;
            assert(s[k] == c);
        }
    }
}

proof fn lemma_unquoted_keeps_out(s: Seq<char>, c: char)
    requires
        !s.contains(c),
    ensures
        !crate::text::trim_start(s).contains(c),
        !crate::text::trim_end(s).contains(c),
        !crate::text::strip_start_char(s, '"').contains(c),
        !crate::text::strip_end_char(s, '"').contains(c),
    decreases s.len(),
{
    lemma_no_char_in_parts(s, c);
    if s.len() > 0 {
        lemma_unquoted_keeps_out(s.drop_first(), c);
        lemma_unquoted_keeps_out(s.drop_last(), c);
    }
}

proof fn lemma_pieces_have_no_separator(s: Seq<char>, c: char)
    ensures
        forall|i: int| 0 <= i < pieces(s, c).len() ==> !(#[trigger] pieces(s, c)[i]).contains(c),
    decreases s.len(),
{
    let k = len_until(s, c);
    lemma_len_until_bound(s, c);
    let ps = pieces(s, c);
    if k < s.len() {
        lemma_pieces_have_no_separator(s.skip(k + 1int), c);
        let first = s.take(k as int);
        assert(!first.contains(c)) by {
            if first.contains(c) {
                let j = choose|j: int| 0 <= j < first.len() && first[j] == c;
                assert(s[j] == c);
            }
        }
        assert(ps =~= seq![first] + pieces(s.skip(k + 1int), c));
        assert forall|i: int| 0 <= i < ps.len() implies !(#[trigger] ps[i]).contains(c) by {
            if i > 0 {
                assert(ps[i] == pieces(s.skip(k + 1int), c)[i - 1]);
            }
        }
    } else {
        assert(!s.contains(c)) by {
            if s.contains(c) {
                let j = choose|j: int| 0 <= j < s.len() && s[j] == c;
            }
        }
        assert(ps =~= seq![s]);
    }
}

proof fn lemma_filter_members(s: Seq<Seq<char>>, pred: spec_fn(Seq<char>) -> bool)
    ensures
        forall|i: int| 0 <= i < s.filter(pred).len() ==> s.contains(#[trigger] s.filter(pred)[i]),
    decreases s.len(),
{
    reveal(Seq::filter);
    if s.len() > 0 {
        lemma_filter_members(s.drop_last(), pred);
        let f = s.filter(pred);
        let g = s.drop_last().filter(pred);
        assert forall|i: int| 0 <= i < f.len() implies s.contains(#[trigger] f[i]) by {
            if i < g.len() {
                assert(f[i] == g[i]);
                let j = choose|j: int| 0 <= j < s.drop_last().len() && s.drop_last()[j] == g[i];
                assert(s[j] == g[i]);
            } else {
                assert(f[i] == s.last());
                assert(s[s.len() - 1] == s.last());
            }
        }
    }
}

/// The tokens of a list are clean: none is empty and none holds a comma or
/// starts or ends with a double quote; and a list without commas whose value,
/// trimmed of white space and double quotes, is not empty is that one token.
pub proof fn law_token_list_is_clean(raw: Seq<char>)
    ensures
        forall|i: int|
            0 <= i < token_list(raw).len() ==> {
                let t = #[trigger] token_list(raw)[i];
                &&& t.len() > 0
                &&& !t.contains(',')
                &&& t[0] != '"'
                &&& t.last() != '"'
            },
        !raw.contains(',') && unquoted(raw).len() > 0 ==> token_list(raw) == seq![unquoted(raw)],
{
    let mapped = pieces(raw, ',').map_values(|p: Seq<char>| unquoted(p));
    let pred = |t: Seq<char>| t.len() > 0;
    lemma_pieces_have_no_separator(raw, ',');
    lemma_filter_members(mapped, pred);
    broadcast use vstd::seq_lib::group_filter_ensures;
    assert forall|i: int| 0 <= i < token_list(raw).len() implies {
        let t = #[trigger] token_list(raw)[i];
        &&& t.len() > 0
        &&& !t.contains(',')
        &&& t[0] != '"'
        &&& t.last() != '"'
    } by {
        let t = token_list(raw)[i];
        assert(pred(t));
        let j = choose|j: int| 0 <= j < mapped.len() && mapped[j] == t;
        let p = pieces(raw, ',')[j];
        assert(!p.contains(','));
        lemma_unquoted_keeps_out(p, ',');
        lemma_unquoted_keeps_out(crate::text::trim_start(p), ',');
        lemma_unquoted_keeps_out(trim(p), ',');
        lemma_unquoted_keeps_out(crate::text::strip_start_char(trim(p), '"'), ',');
        lemma_strip_quote_ends(trim(p));
    }
    if !raw.contains(',') {
        lemma_len_until_none(raw, ',');
        assert(pieces(raw, ',') =~= seq![raw]);
        reveal(Seq::filter);
        assert(mapped =~= seq![unquoted(raw)]);
        assert(mapped.drop_last() =~= Seq::<Seq<char>>::empty());
        if unquoted(raw).len() > 0 {
            assert(mapped.filter(pred) =~= seq![unquoted(raw)]);
        }
    }
}

proof fn lemma_len_until_none(s: Seq<char>, c: char)
    requires
        !s.contains(c),
    ensures
        len_until(s, c) == s.len(),
    decreases s.len(),
{
    if s.len() > 0 {
        assert(s[0] != c);
        lemma_no_char_in_parts(s, c);
        lemma_len_until_none(s.drop_first(), c);
    }
}

proof fn lemma_strip_start_quote(s: Seq<char>)
    ensures
        crate::text::strip_start_char(s, '"').len() > 0 ==> crate::text::strip_start_char(s, '"')[0]
            != '"',
    decreases s.len(),
{
    if s.len() > 0 && s[0] == '"' {
        lemma_strip_start_quote(s.drop_first());
    }
}

proof fn lemma_strip_end_quote(s: Seq<char>)
    ensures
        crate::text::strip_end_char(s, '"').len() > 0 ==> crate::text::strip_end_char(s, '"').last()
            != '"',
        crate::text::strip_end_char(s, '"').len() > 0 ==> crate::text::strip_end_char(s, '"')[0] == s[0],
    decreases s.len(),
{
    if s.len() > 0 && s.last() == '"' {
        lemma_strip_end_quote(s.drop_last());
        if crate::text::strip_end_char(s.drop_last(), '"').len() > 0 {
            assert(s.drop_last()[0] == s[0]);
        }
    }
}

proof fn lemma_strip_quote_ends(s: Seq<char>)
    ensures
        strip_char(s, '"').len() > 0 ==> strip_char(s, '"')[0] != '"' && strip_char(s, '"').last()
            != '"',
{
    let a = crate::text::strip_start_char(s, '"');
    lemma_strip_start_quote(s);
    lemma_strip_end_quote(a);
    if strip_char(s, '"').len() > 0 {
        assert(a.len() > 0);
    }
}

/// The profile: `--profile NAME` names it; a first argument that does not start
/// with `'-'` is the name itself, and a sole argument like `--7` names profile
/// `7`; without
/// arguments the `PROFILE` setting names it, else profile `"1"`.
pub proof fn law_profile_choice(args: Seq<Seq<char>>, env_profile: Option<String>, name: Seq<char>)
    ensures
        args.len() > 2 && args[1] == seq!['-', '-', 'p', 'r', 'o', 'f', 'i', 'l', 'e'] ==> profile_of(
            args,
            env_profile,
        ) == args[2],
        args.len() > 1 && (args[1].len() == 0 || args[1][0] != '-') ==> profile_of(args, env_profile)
            == args[1],
        args.len() == 2 && (name.len() == 0 || name[0] != '-') && args[1] == seq!['-', '-'] + name
            ==> profile_of(args, env_profile) == name,
        args.len() <= 1 && env_profile is None ==> profile_of(args, env_profile) == seq!['1'],
        args.len() <= 1 && env_profile is Some ==> profile_of(args, env_profile) == env_profile->0@,
{
    if args.len() == 2 {
        let a = args[1];
        if a == seq!['-', '-'] + name && (name.len() == 0 || name[0] != '-') {
            assert(a.drop_first() =~= seq!['-'] + name);
            assert(a.drop_first().drop_first() =~= name);
            assert(crate::text::strip_start_char(name, '-') == name);
            assert(crate::text::strip_start_char(a.drop_first(), '-') == name);
            assert(crate::text::strip_start_char(a, '-') == name);
        }
    }
}
} // verus!
