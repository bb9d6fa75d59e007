use vstd::prelude::*;
use vstd::hash_map::StringHashMap;
use vstd::hash_set::StringHashSet;
use crate::models::{QueuedItem, ReactionDelayMode};
use crate::proxy::utils::{count_reply, format_count_response, leading_number, parse_leading_number};
use crate::number::{decimal_nat, push_decimal_u64};
use crate::proxy::utils::lemma_decimal_nat_digits;
use crate::text::{chars_of, is_ascii_digit, push_all, push_char, trim, trim_to_string};

verus! {

broadcast use vstd::hash_map::group_hash_map_axioms;

/// The state of the proxy as the contracts see it.
#[verifier::ext_equal]
pub struct ProxyStateView {
    /// Each channel's reaction queue, first item first.
    pub queues: Map<Seq<char>, Seq<QueuedItem>>,
    pub queue_mode_enabled: bool,
    pub hardware_delay_ms: u64,
    pub reaction_delay_mode: ReactionDelayMode,
    /// User ids that belong to this account.
    pub self_user_ids: Set<Seq<char>>,
    /// User names that belong to this account.
    pub self_usernames: Set<Seq<char>>,
    /// The (channel, message id) pairs marked processed.
    pub processed: Set<(Seq<char>, Seq<char>)>,
    /// The tokens that the account rotates through.
    pub tokens: Seq<Seq<char>>,
    /// How many tokens take part in the rotation.
    pub token_swap_count: usize,
    pub current_token_index: usize,
    pub target_channel_id: Seq<char>,
    /// Length of the current run of consecutive numbers in each channel.
    pub seq_count: Map<Seq<char>, usize>,
    /// Whether a run of at least four consecutive numbers was seen.
    pub flag_seq: Map<Seq<char>, bool>,
    /// The last number this account sent in each channel.
    pub last_self_num: Map<Seq<char>, i64>,
    /// The last number seen in each channel.
    pub last_num: Map<Seq<char>, i64>,
}

/// `min(a, b)`.
pub open spec fn min_usize(a: usize, b: usize) -> usize {
    if a <= b { a } else { b }
}

/// `|n|` as a mathematical integer.
pub open spec fn abs_int(n: i64) -> int {
    if n < 0 { -(n as int) } else { n as int }
}

/// Whether the number `number` makes the token rotation move on: with two
/// active tokens at multiples of 100, with three at multiples of 50.
pub open spec fn token_swap_due(swap_count: usize, token_count: nat, number: i64) -> bool {
    let active = min_usize(swap_count, token_count as usize);
    &&& swap_count > 1
    &&& token_count > 1
    &&& ((active == 2 && abs_int(number) % 100 == 0) || (active == 3 && abs_int(number) % 50 == 0))
}

/// Whether `n` continues a count whose last number was `prev`.
pub open spec fn continues_count(prev: Option<i64>, n: i64) -> bool {
    match prev {
        Some(p) => n == p + 1,
        None => true,
    }
}

impl ProxyStateView {
    /// The state of a new proxy.
    pub open spec fn initial() -> Self {
        ProxyStateView {
            queues: Map::empty(),
            queue_mode_enabled: true,
            hardware_delay_ms: 45,
            reaction_delay_mode: ReactionDelayMode::Normal,
            self_user_ids: Set::empty(),
            self_usernames: Set::empty(),
            processed: Set::empty(),
            tokens: Seq::empty(),
            token_swap_count: 1,
            current_token_index: 0,
            target_channel_id: Seq::empty(),
            seq_count: Map::empty(),
            flag_seq: Map::empty(),
            last_self_num: Map::empty(),
            last_num: Map::empty(),
        }
    }

    /// The token in use, or `fallback` where there is none.
    pub open spec fn current_token(self, fallback: Seq<char>) -> Seq<char> {
        if self.tokens.len() == 0 || self.current_token_index >= self.tokens.len() {
            fallback
        } else {
            self.tokens[self.current_token_index as int]
        }
    }

    /// The token index after the count reached `number`.
    pub open spec fn next_token_index(self, number: i64) -> usize {
        if token_swap_due(self.token_swap_count, self.tokens.len(), number) {
            ((self.current_token_index + 1) % (min_usize(
                self.token_swap_count,
                self.tokens.len() as usize,
            ) as int)) as usize
        } else {
            self.current_token_index
        }
    }

    /// Whether the token rotation can look at `number`: `|number|` exists where a
    /// rotation is set up.
    pub open spec fn can_check_token_swap(self, number: i64) -> bool {
        (self.token_swap_count > 1 && self.tokens.len() > 1) ==> number != i64::MIN
    }

    /// The queue of `channel`, empty where it has none.
    pub open spec fn queue_of(self, channel: Seq<char>) -> Seq<QueuedItem> {
        if self.queues.contains_key(channel) {
            self.queues[channel]
        } else {
            Seq::empty()
        }
    }

    /// Every queue emptied; the channels stay known.
    pub open spec fn queues_cleared(self) -> Map<Seq<char>, Seq<QueuedItem>> {
        self.queues.map_values(|q: Seq<QueuedItem>| Seq::<QueuedItem>::empty())
    }

    /// The queue of `channel` emptied, where it has one.
    pub open spec fn queue_cleared(self, channel: Seq<char>) -> Map<Seq<char>, Seq<QueuedItem>> {
        if self.queues.contains_key(channel) {
            self.queues.insert(channel, Seq::empty())
        } else {
            self.queues
        }
    }

    /// The queue of `channel` after `item` joins it at the back.
    pub open spec fn queue_after_enqueue(self, channel: Seq<char>, item: QueuedItem) -> Seq<
        QueuedItem,
    > {
        self.queue_of(channel).push(
            if self.queue_of(channel).len() == 0 {
                QueuedItem { content: item.content, number: item.number, was_empty: true }
            } else {
                item
            },
        )
    }

    /// Whether the message `msg_id` of `channel` was marked processed.
    pub open spec fn already_processed(self, channel: Seq<char>, msg_id: Seq<char>) -> bool {
        msg_id.len() > 0 && self.processed.contains((channel, msg_id))
    }

    /// `processed` after `msg_id` is marked in `channel` (an empty id is skipped).
    pub open spec fn processed_after_mark(self, channel: Seq<char>, msg_id: Seq<char>) -> Set<
        (Seq<char>, Seq<char>),
    > {
        if msg_id.len() == 0 {
            self.processed
        } else {
            self.processed.insert((channel, msg_id))
        }
    }

    /// Whether the given author is this account.
    pub open spec fn is_self(self, author_id: Seq<char>, author_uname: Seq<char>) -> bool {
        (author_id.len() > 0 && self.self_user_ids.contains(author_id)) || (author_uname.len() > 0
            && self.self_usernames.contains(author_uname))
    }

    /// The length of the run of consecutive numbers in `channel` once `n` is seen.
    pub open spec fn run_after(self, channel: Seq<char>, n: i64) -> int {
        if continues_count(self.last_num.get(channel), n) {
            self.seq_count.get(channel).unwrap_or(0) + 1
        } else {
            1
        }
    }

    /// The fallback rule applies to an incoming `n`: it breaks a run of which four
    /// or more numbers were seen, and this account has sent a number in `channel`.
    pub open spec fn fallback_applies(self, channel: Seq<char>, n: i64) -> bool {
        &&& !continues_count(self.last_num.get(channel), n)
        &&& self.flag_seq.get(channel).unwrap_or(false)
        &&& self.last_self_num.contains_key(channel)
    }

    /// The number to reply to an incoming `n` with: the last number of this
    /// account plus 2 where the fallback rule applies, else `n + 1`.
    pub open spec fn next_count(self, channel: Seq<char>, n: i64) -> int {
        if self.fallback_applies(channel, n) {
            self.last_self_num[channel] + 2
        } else {
            n + 1
        }
    }

    /// Whether the counting rule's arithmetic on `n` stays in range.
    pub open spec fn count_fits(self, channel: Seq<char>, n: i64) -> bool {
        &&& (self.last_num.get(channel) matches Some(p) ==> p < i64::MAX)
        &&& (continues_count(self.last_num.get(channel), n) ==> self.seq_count.get(channel).unwrap_or(0)
            < usize::MAX)
        &&& self.next_count(channel, n) <= i64::MAX
    }

    /// Whether registering a sent number `n` stays in range.
    pub open spec fn sent_fits(self, channel: Seq<char>, n: i64) -> bool {
        &&& (self.last_num.get(channel) matches Some(p) ==> p < i64::MAX)
        &&& (continues_count(self.last_num.get(channel), n) ==> self.seq_count.get(channel).unwrap_or(0)
            < usize::MAX)
    }

    /// The run lengths after `n` is seen in `channel`, before the fallback rule.
    pub open spec fn seq_after(self, channel: Seq<char>, n: i64) -> Map<Seq<char>, usize> {
        self.seq_count.insert(channel, self.run_after(channel, n) as usize)
    }

    /// The run flags after `n` is seen in `channel`, before the fallback rule.
    pub open spec fn flag_after(self, channel: Seq<char>, n: i64) -> Map<Seq<char>, bool> {
        if self.run_after(channel, n) >= 4 {
            self.flag_seq.insert(channel, true)
        } else {
            self.flag_seq
        }
    }

    /// The state after an incoming count `n` in `channel` was evaluated.
    pub open spec fn after_incoming(self, channel: Seq<char>, n: i64) -> Self {
        ProxyStateView {
            seq_count: if self.fallback_applies(channel, n) {
                self.seq_count.insert(channel, 0)
            } else {
                self.seq_after(channel, n)
            },
            flag_seq: if self.fallback_applies(channel, n) {
                self.flag_seq.insert(channel, false)
            } else {
                self.flag_after(channel, n)
            },
            last_num: self.last_num.insert(channel, n),
            ..self
        }
    }

    /// The state after the user id and name of this account were recorded;
    /// empty ones are skipped.
    pub open spec fn after_self_info(self, user_id: Seq<char>, username: Seq<char>) -> Self {
        ProxyStateView {
            self_user_ids: if user_id.len() > 0 {
                self.self_user_ids.insert(user_id)
            } else {
                self.self_user_ids
            },
            self_usernames: if username.len() > 0 {
                self.self_usernames.insert(username)
            } else {
                self.self_usernames
            },
            ..self
        }
    }

    /// The state after `msg_id` was recorded as processed in `channel`.
    pub open spec fn after_mark(self, channel: Seq<char>, msg_id: Seq<char>) -> Self {
        ProxyStateView { processed: self.processed_after_mark(channel, msg_id), ..self }
    }

    /// The state after this account sent the count `n` in `channel` and the
    /// token rotation looked at it.
    pub open spec fn after_sent_and_swap(self, channel: Seq<char>, n: i64) -> Self {
        ProxyStateView {
            current_token_index: self.next_token_index(n),
            ..self.after_sent(channel, n)
        }
    }

    /// The state after this account sent the count `n` in `channel`.
    pub open spec fn after_sent(self, channel: Seq<char>, n: i64) -> Self {
        ProxyStateView {
            seq_count: self.seq_after(channel, n),
            flag_seq: self.flag_after(channel, n),
            last_self_num: self.last_self_num.insert(channel, n),
            last_num: self.last_num.insert(channel, n),
            ..self
        }
    }
}

/// The key under which a processed message is recorded: the length of the
/// channel id in decimal, `'#'`, the channel id, then the message id. The
/// length in front keeps different pairs apart.
pub open spec fn processed_key(channel: Seq<char>, msg_id: Seq<char>) -> Seq<char> {
    decimal_nat(channel.len()) + seq!['#'] + channel + msg_id
}

/// Different (channel, message id) pairs have different keys.
pub proof fn lemma_processed_key_injective(
    c1: Seq<char>,
    m1: Seq<char>,
    c2: Seq<char>,
    m2: Seq<char>,
)
    requires
        processed_key(c1, m1) == processed_key(c2, m2),
    ensures
        c1 == c2,
        m1 == m2,
{
    let d1 = decimal_nat(c1.len());
    let d2 = decimal_nat(c2.len());
    let k = processed_key(c1, m1);
    lemma_decimal_nat_digits(c1.len());
    lemma_decimal_nat_digits(c2.len());
    assert(k[d1.len() as int] == '#');
    assert(processed_key(c2, m2)[d2.len() as int] == '#');
    if d1.len() < d2.len() {
        assert(k[d1.len() as int] == d2[d1.len() as int]);
        assert(is_ascii_digit(d2[d1.len() as int]));
    } else if d2.len() < d1.len() {
        assert(k[d2.len() as int] == d1[d2.len() as int]);
        assert(is_ascii_digit(d1[d2.len() as int]));
    }
    assert(d1.len() == d2.len());
    assert(d1 =~= k.subrange(0, d1.len() as int));
    assert(d2 =~= k.subrange(0, d2.len() as int));
    assert(c1.len() == c2.len());
    let start: int = d1.len() + 1int;
    assert(c1 =~= k.subrange(start, start + c1.len()));
    assert(c2 =~= k.subrange(start, start + c2.len()));
    assert(m1 =~= k.subrange(start + c1.len(), k.len() as int));
    assert(m2 =~= k.subrange(start + c2.len(), k.len() as int));
}

/// The key of a processed message.
fn make_processed_key(channel_id: &str, msg_id: &str) -> (k: String)
    ensures
        k@ == processed_key(channel_id@, msg_id@),
{
    let cv = chars_of(channel_id);
    let mut k = String::new();
    push_decimal_u64(&mut k, cv.len() as u64);
    push_char(&mut k, '#');
    push_all(&mut k, &cv);
    push_all(&mut k, &chars_of(msg_id));
    assert(k@ =~= processed_key(channel_id@, msg_id@));
    k
}

/// The reaction queues by channel, with the list of channels that have one.
pub struct ChannelQueues {
    map: StringHashMap<Vec<QueuedItem>>,
    channels: Vec<String>,
}

impl View for ChannelQueues {
    type V = Map<Seq<char>, Seq<QueuedItem>>;

    closed spec fn view(&self) -> Map<Seq<char>, Seq<QueuedItem>> {
        self.map@.map_values(|q: Vec<QueuedItem>| q@)
    }
}

impl ChannelQueues {
    /// `channels` lists exactly the channels that have a queue.
    pub closed spec fn wf(&self) -> bool {
        &&& forall|i: int|
            0 <= i < self.channels.len() ==> self.map@.contains_key(#[trigger] self.channels@[i]@)
        &&& forall|k: Seq<char>|
            #[trigger] self.map@.contains_key(k) ==> exists|i: int|
                0 <= i < self.channels.len() && #[trigger] self.channels@[i]@ == k
    }

    pub fn new() -> (q: Self)
        ensures
            q.wf(),
            q@ == Map::<Seq<char>, Seq<QueuedItem>>::empty(),
    {
        let q = ChannelQueues { map: StringHashMap::new(), channels: Vec::new() };
        assert(q@ =~= Map::<Seq<char>, Seq<QueuedItem>>::empty());
        q
    }

    /// Whether `channel` has a queue.
    pub fn has(&self, channel: &str) -> (b: bool)
        ensures
            b == self@.contains_key(channel@),
    {
        self.map.contains_key(channel)
    }

    /// A copy of the queue of `channel`, empty where it has none.
    pub fn get(&self, channel: &str) -> (q: Vec<QueuedItem>)
        ensures
            q@ == (if self@.contains_key(channel@) {
                self@[channel@]
            } else {
                Seq::empty()
            }),
    {
        match self.map.get(channel) {
            Some(q) => copy_items(q),
            None => Vec::new(),
        }
    }

    /// Sets the queue of `channel` to `q`.
    pub fn set(&mut self, channel: &str, q: Vec<QueuedItem>)
        requires
            old(self).wf(),
        ensures
            final(self).wf(),
            final(self)@ == old(self)@.insert(channel@, q@),
    {
        let known = self.map.contains_key(channel);
        if !known {
            self.channels.push(channel.to_owned());
        }
        self.map.insert(channel.to_owned(), q);
        assert forall|k: Seq<char>| #[trigger] self.map@.contains_key(k) implies exists|i: int|
            0 <= i < self.channels.len() && #[trigger] self.channels@[i]@ == k by {
            if k == channel@ {
                if !known {
                    assert(self.channels@[self.channels.len() - 1]@ == k);
                }
            } else {
                let j = choose|j: int| 0 <= j < old(self).channels.len() && #[trigger] old(self).channels@[j]@ == k;
                assert(self.channels@[j]@ == k);
            }
        }
        assert(self@ =~= old(self)@.insert(channel@, q@));
    }

    /// Empties every queue; the channels stay known.
    pub fn clear_all(&mut self)
        requires
            old(self).wf(),
        ensures
            final(self).wf(),
            final(self)@ == old(self)@.map_values(|q: Seq<QueuedItem>| Seq::<QueuedItem>::empty()),
    {
        let ghost old_map = self.map@;
        let mut i: usize = 0;
        while i < self.channels.len()
            invariant
                self.wf(),
                i <= self.channels.len(),
                self.map@.dom() =~= old_map.dom(),
                forall|j: int|
                    0 <= j < i ==> (#[trigger] self.map@[self.channels@[j]@])@
                        == Seq::<QueuedItem>::empty(),
            decreases self.channels.len() - i,
        {
            let key = self.channels[i].clone();
            self.map.insert(key, Vec::new());
            i = i + 1;
        }
        assert forall|k: Seq<char>| #[trigger] self.map@.contains_key(k) implies self.map@[k]@
            == Seq::<QueuedItem>::empty() by {
            let j = choose|j: int| 0 <= j < self.channels.len() && #[trigger] self.channels@[j]@ == k;
            assert(self.map@[self.channels@[j]@]@ == Seq::<QueuedItem>::empty());
        }
        assert(self@ =~= old(self)@.map_values(|q: Seq<QueuedItem>| Seq::<QueuedItem>::empty()));
    }
}

/// Shared state of the proxy: reaction queues, who this account is, which
/// messages were handled, the token rotation and per-channel counting progress.
pub struct ProxyState {
    active_queue: ChannelQueues,
    queue_mode_enabled: bool,
    hardware_delay_ms: u64,
    reaction_delay_mode: ReactionDelayMode,
    self_user_ids: StringHashSet,
    self_usernames: StringHashSet,
    processed_message_ids: StringHashSet,
    available_tokens: Vec<String>,
    token_swap_count: usize,
    current_token_index: usize,
    target_channel_id: String,
    channel_seq_count: StringHashMap<usize>,
    channel_flag_seq: StringHashMap<bool>,
    channel_last_self_num: StringHashMap<i64>,
    channel_last_num: StringHashMap<i64>,
}

impl View for ProxyState {
    type V = ProxyStateView;

    closed spec fn view(&self) -> ProxyStateView {
        ProxyStateView {
            queues: self.active_queue@,
            queue_mode_enabled: self.queue_mode_enabled,
            hardware_delay_ms: self.hardware_delay_ms,
            reaction_delay_mode: self.reaction_delay_mode,
            self_user_ids: self.self_user_ids@,
            self_usernames: self.self_usernames@,
            processed: Set::new(
                |p: (Seq<char>, Seq<char>)| self.processed_message_ids@.contains(processed_key(p.0, p.1)),
            ),
            tokens: self.available_tokens@.map_values(|t: String| t@),
            token_swap_count: self.token_swap_count,
            current_token_index: self.current_token_index,
            target_channel_id: self.target_channel_id@,
            seq_count: self.channel_seq_count@,
            flag_seq: self.channel_flag_seq@,
            last_self_num: self.channel_last_self_num@,
            last_num: self.channel_last_num@,
        }
    }
}

/// A copy of `q`.
fn copy_items(q: &Vec<QueuedItem>) -> (r: Vec<QueuedItem>)
    ensures
        r@ == q@,
{
    let mut r: Vec<QueuedItem> = Vec::new();
    let mut i: usize = 0;
    while i < q.len()
        invariant
            i <= q.len(),
            r@ == q@.take(i as int),
        decreases q.len() - i,
    {
        r.push(q[i].clone());
        assert(q@.take(i + 1) =~= q@.take(i as int).push(q@[i as int]));
        i = i + 1;
    }
    assert(q@.take(q.len() as int) =~= q@);
    r
}

impl ProxyState {
    /// The state's own consistency: the queues are consistent, and the token
    /// index points into the token list (or is 0).
    pub closed spec fn wf(&self) -> bool {
        &&& self.active_queue.wf()
        &&& (self.current_token_index == 0 || self.current_token_index
            < self.available_tokens.len())
    }

    /// A new state: queue mode on, 45 ms hardware delay, normal reaction delay,
    /// one-token rotation, nothing known yet.
    pub fn new() -> (s: Self)
        ensures
            s.wf(),
            s@ == ProxyStateView::initial(),
    {
        let s = ProxyState {
            active_queue: ChannelQueues::new(),
            queue_mode_enabled: true,
            hardware_delay_ms: 45,
            reaction_delay_mode: ReactionDelayMode::Normal,
            self_user_ids: StringHashSet::new(),
            self_usernames: StringHashSet::new(),
            processed_message_ids: StringHashSet::new(),
            available_tokens: Vec::new(),
            token_swap_count: 1,
            current_token_index: 0,
            target_channel_id: String::new(),
            channel_seq_count: StringHashMap::new(),
            channel_flag_seq: StringHashMap::new(),
            channel_last_self_num: StringHashMap::new(),
            channel_last_num: StringHashMap::new(),
        };
        assert(s@.queues =~= Map::empty());
        assert(s@.processed =~= Set::empty());
        assert(s@.tokens =~= Seq::empty());
        s
    }
}


impl ProxyState {
    /// Sets the channel to count in; surrounding white space is dropped.
    pub fn set_target_channel_id(&mut self, channel_id: &str)
        requires
            old(self).wf(),
        ensures
            final(self).wf(),
            final(self)@ == (ProxyStateView { target_channel_id: trim(channel_id@), ..old(self)@ }),
    {
        self.target_channel_id = trim_to_string(channel_id);
    }

    pub fn get_target_channel_id(&self) -> (r: String)
        ensures
            r@ == self@.target_channel_id,
    {
        self.target_channel_id.clone()
    }

    /// Sets the tokens to rotate through and how many of them take part; the
    /// rotation starts again at the first token.
    pub fn set_token_rotation_config(&mut self, tokens: Vec<String>, swap_count: usize)
        requires
            old(self).wf(),
        ensures
            final(self).wf(),
            final(self)@ == (ProxyStateView {
                tokens: tokens@.map_values(|t: String| t@),
                token_swap_count: swap_count,
                current_token_index: 0,
                ..old(self)@
            }),
    {
        self.available_tokens = tokens;
        self.token_swap_count = swap_count;
        self.current_token_index = 0;
    }

    /// The token to send with: the current one of the rotation, or `fallback`
    /// where no token was configured.
    pub fn get_current_token(&self, fallback: &str) -> (r: String)
        requires
            self.wf(),
        ensures
            r@ == self@.current_token(fallback@),
    {
        if self.available_tokens.len() == 0 {
            return fallback.to_owned();
        }
        let idx = self.current_token_index;
        if idx < self.available_tokens.len() {
            self.available_tokens[idx].clone()
        } else {
            fallback.to_owned()
        }
    }

    /// Moves the token rotation on where the count reached a swap point:
    /// with two active tokens every multiple of 100, with three every multiple
    /// of 50.
    pub fn check_and_swap_token(&mut self, number: i64)
        requires
            old(self).wf(),
            old(self)@.can_check_token_swap(number),
        ensures
            final(self).wf(),
            final(self)@ == (ProxyStateView {
                current_token_index: old(self)@.next_token_index(number),
                ..old(self)@
            }),
    {
        let swap_count = self.token_swap_count;
        let total_tokens = self.available_tokens.len();
        if swap_count <= 1 || total_tokens <= 1 {
            return;
        }
        let num_abs: i64 = if number < 0 { -number } else { number };
        let active_swap_count = if swap_count <= total_tokens { swap_count } else { total_tokens };
        let should_swap = if active_swap_count == 2 {
            num_abs % 100 == 0
        } else if active_swap_count == 3 {
            num_abs % 50 == 0
        } else {
            false
        };
        if should_swap {
            self.current_token_index = (self.current_token_index + 1) % active_swap_count;
        }
    }

    /// Whether a token rotation is set up (a swap count above one and more than
    /// one token): only then does `check_and_swap_token` look at the number.
    pub fn token_swap_checks_number(&self) -> (b: bool)
        ensures
            b == (self@.token_swap_count > 1 && self@.tokens.len() > 1),
    {
        self.token_swap_count > 1 && self.available_tokens.len() > 1
    }

    /// The position of the token in use in the rotation.
    pub fn current_token_index(&self) -> (i: usize)
        ensures
            i == self@.current_token_index,
    {
        self.current_token_index
    }

    pub fn is_queue_mode_enabled(&self) -> (b: bool)
        ensures
            b == self@.queue_mode_enabled,
    {
        self.queue_mode_enabled
    }

    /// Turns queue mode on or off; turning it off empties every queue.
    pub fn set_queue_mode(&mut self, enabled: bool)
        requires
            old(self).wf(),
        ensures
            final(self).wf(),
            final(self)@ == (ProxyStateView {
                queue_mode_enabled: enabled,
                queues: if enabled {
                    old(self)@.queues
                } else {
                    old(self)@.queues_cleared()
                },
                ..old(self)@
            }),
    {
        self.queue_mode_enabled = enabled;
        if !enabled {
            self.clear_all_queues();
        }
    }

    pub fn set_hardware_delay(&mut self, delay_ms: u64)
        requires
            old(self).wf(),
        ensures
            final(self).wf(),
            final(self)@ == (ProxyStateView { hardware_delay_ms: delay_ms, ..old(self)@ }),
    {
        self.hardware_delay_ms = delay_ms;
    }

    pub fn get_hardware_delay(&self) -> (d: u64)
        ensures
            d == self@.hardware_delay_ms,
    {
        self.hardware_delay_ms
    }

    pub fn set_reaction_delay_mode(&mut self, mode: ReactionDelayMode)
        requires
            old(self).wf(),
        ensures
            final(self).wf(),
            final(self)@ == (ProxyStateView { reaction_delay_mode: mode, ..old(self)@ }),
    {
        self.reaction_delay_mode = mode;
    }

    pub fn get_reaction_delay_mode(&self) -> (m: ReactionDelayMode)
        ensures
            m == self@.reaction_delay_mode,
    {
        self.reaction_delay_mode
    }

    /// Empties every queue; the channels stay known.
    pub fn clear_all_queues(&mut self)
        requires
            old(self).wf(),
        ensures
            final(self).wf(),
            final(self)@ == (ProxyStateView { queues: old(self)@.queues_cleared(), ..old(self)@ }),
    {
        self.active_queue.clear_all();
        assert(self@.queues =~= old(self)@.queues_cleared());
    }
}

impl ProxyState {
    /// Empties the queue of `channel_id`, where it has one, and returns the
    /// (empty) queue that is left.
    pub fn clear_queue(&mut self, channel_id: &str) -> (r: Vec<QueuedItem>)
        requires
            old(self).wf(),
        ensures
            final(self).wf(),
            final(self)@ == (ProxyStateView { queues: old(self)@.queue_cleared(channel_id@), ..old(self)@ }),
            r@ == Seq::<QueuedItem>::empty(),
    {
        if self.active_queue.has(channel_id) {
            self.active_queue.set(channel_id, Vec::new());
        }
        assert(self@.queues =~= old(self)@.queue_cleared(channel_id@));
        Vec::new()
    }

    /// Adds `item` at the back of the queue of `channel_id` and returns the
    /// queue. An item that finds the queue empty is marked `was_empty`.
    pub fn enqueue_item(&mut self, channel_id: &str, item: QueuedItem) -> (r: Vec<QueuedItem>)
        requires
            old(self).wf(),
        ensures
            final(self).wf(),
            final(self)@ == (ProxyStateView {
                queues: old(self)@.queues.insert(
                    channel_id@,
                    old(self)@.queue_after_enqueue(channel_id@, item),
                ),
                ..old(self)@
            }),
            r@ == old(self)@.queue_after_enqueue(channel_id@, item),
    {
        let mut item = item;
        let mut q = self.active_queue.get(channel_id);
        if q.len() == 0 {
            item.was_empty = true;
        }
        q.push(item);
        let r = copy_items(&q);
        self.active_queue.set(channel_id, q);
        r
    }

    /// Takes the first item off the queue of `channel_id` and returns it with the
    /// rest of the queue; nothing where the queue is empty or missing.
    pub fn pop_next_item(&mut self, channel_id: &str) -> (r: Option<(QueuedItem, Vec<QueuedItem>)>)
        requires
            old(self).wf(),
        ensures
            final(self).wf(),
            old(self)@.queue_of(channel_id@).len() == 0 ==> r is None && final(self)@ == old(self)@,
            old(self)@.queue_of(channel_id@).len() > 0 ==> {
                &&& r matches Some((item, rest))
                &&& item == old(self)@.queue_of(channel_id@)[0]
                &&& rest@ == old(self)@.queue_of(channel_id@).drop_first()
                &&& final(self)@ == (ProxyStateView {
                    queues: old(self)@.queues.insert(
                        channel_id@,
                        old(self)@.queue_of(channel_id@).drop_first(),
                    ),
                    ..old(self)@
                })
            },
    {
        if !self.active_queue.has(channel_id) {
            return None;
        }
        let mut q = self.active_queue.get(channel_id);
        if q.len() == 0 {
            return None;
        }
        let item = q.remove(0);
        assert(q@ =~= old(self)@.queue_of(channel_id@).drop_first());
        let rest = copy_items(&q);
        self.active_queue.set(channel_id, q);
        Some((item, rest))
    }

    /// Records the user id and user name of this account; empty ones are skipped.
    pub fn register_self_info(&mut self, user_id: &str, username: &str)
        requires
            old(self).wf(),
        ensures
            final(self).wf(),
            final(self)@ == old(self)@.after_self_info(user_id@, username@),
    {
        if !user_id.is_empty() {
            self.self_user_ids.insert(user_id.to_owned());
        }
        if !username.is_empty() {
            self.self_usernames.insert(username.to_owned());
        }
    }

    /// Whether the author of a message is this account, by id or by name.
    pub fn is_self_author(&self, author_id: &str, author_uname: &str) -> (b: bool)
        ensures
            b == self@.is_self(author_id@, author_uname@),
    {
        if !author_id.is_empty() && self.self_user_ids.contains(author_id) {
            return true;
        }
        if !author_uname.is_empty() && self.self_usernames.contains(author_uname) {
            return true;
        }
        false
    }

    /// Whether the message `msg_id` of `channel_id` was marked processed.
    pub fn is_message_already_processed(&self, channel_id: &str, msg_id: &str) -> (b: bool)
        ensures
            b == self@.already_processed(channel_id@, msg_id@),
    {
        if msg_id.is_empty() {
            return false;
        }
        let key = make_processed_key(channel_id, msg_id);
        self.processed_message_ids.contains(key.as_str())
    }

    /// Marks `msg_id` of `channel_id` processed; an empty id is skipped.
    pub fn set_last_processed_message_id(&mut self, channel_id: &str, msg_id: &str)
        requires
            old(self).wf(),
        ensures
            final(self).wf(),
            final(self)@ == old(self)@.after_mark(channel_id@, msg_id@),
    {
        if msg_id.is_empty() {
            return;
        }
        self.record_processed(channel_id, msg_id);
    }

    fn record_processed(&mut self, channel_id: &str, msg_id: &str)
        requires
            old(self).wf(),
            msg_id@.len() > 0,
        ensures
            final(self).wf(),
            final(self)@ == old(self)@.after_mark(channel_id@, msg_id@),
    {
        let key = make_processed_key(channel_id, msg_id);
        self.processed_message_ids.insert(key);
        assert forall|p: (Seq<char>, Seq<char>)|
            self.processed_message_ids@.contains(processed_key(p.0, p.1)) <==> old(
                self,
            )@.processed.insert((channel_id@, msg_id@)).contains(p) by {
            if processed_key(p.0, p.1) == processed_key(channel_id@, msg_id@) {
                lemma_processed_key_injective(p.0, p.1, channel_id@, msg_id@);
            }
        }
        assert(self@.processed =~= old(self)@.processed_after_mark(channel_id@, msg_id@));
    }

    /// Checks whether `msg_id` was already marked processed for `channel_id` and
    /// marks it. Returns `true` where this call was the first to mark it (and for
    /// an empty id, which is never recorded), `false` where it was marked before.
    pub fn try_mark_message_processed(&mut self, channel_id: &str, msg_id: &str) -> (first: bool)
        requires
            old(self).wf(),
        ensures
            final(self).wf(),
            first == !old(self)@.already_processed(channel_id@, msg_id@),
            final(self)@ == old(self)@.after_mark(channel_id@, msg_id@),
    {
        if msg_id.is_empty() {
            return true;
        }
        if self.is_message_already_processed(channel_id, msg_id) {
            assert(self@.processed =~= old(self)@.processed_after_mark(channel_id@, msg_id@));
            return false;
        }
        self.record_processed(channel_id, msg_id);
        true
    }

    /// Whether `evaluate_next_count` can work on `content` in `channel_id` with
    /// its numbers in range.
    pub fn can_evaluate_next_count(&self, channel_id: &str, content: &str) -> (b: bool)
        ensures
            b == (leading_number(content@) matches Some(n) ==> self@.count_fits(channel_id@, n)),
    {
        match parse_leading_number(content) {
            None => true,
            Some(n) => {
                let prev = self.last_number(channel_id);
                let seq = self.run_length(channel_id);
                match prev {
                    Some(p) => {
                        if p == i64::MAX {
                            return false;
                        }
                    },
                    None => {},
                }
                let continues = match prev {
                    Some(p) => n == p + 1,
                    None => true,
                };
                if continues && seq == usize::MAX {
                    return false;
                }
                let flag = match self.channel_flag_seq.get(channel_id) {
                    Some(f) => *f,
                    None => false,
                };
                match self.channel_last_self_num.get(channel_id) {
                    Some(last_self) => {
                        if !continues && flag {
                            return *last_self <= i64::MAX - 2;
                        }
                    },
                    None => {},
                }
                n < i64::MAX
            },
        }
    }

    /// Whether `register_sent_number` can take `sent_num` in `channel_id` with its
    /// numbers in range.
    pub fn can_register_sent_number(&self, channel_id: &str, sent_num: i64) -> (b: bool)
        ensures
            b == self@.sent_fits(channel_id@, sent_num),
    {
        let prev = self.last_number(channel_id);
        let seq = self.run_length(channel_id);
        match prev {
            Some(p) => {
                if p == i64::MAX {
                    return false;
                }
                !(sent_num == p + 1 && seq == usize::MAX)
            },
            None => seq < usize::MAX,
        }
    }

    /// The last number seen in `channel_id`.
    pub fn last_number(&self, channel_id: &str) -> (r: Option<i64>)
        ensures
            r == self@.last_num.get(channel_id@),
    {
        match self.channel_last_num.get(channel_id) {
            Some(n) => Some(*n),
            None => None,
        }
    }

    /// The length of the current run of consecutive numbers in `channel_id`.
    pub fn run_length(&self, channel_id: &str) -> (r: usize)
        ensures
            r == self@.seq_count.get(channel_id@).unwrap_or(0),
    {
        match self.channel_seq_count.get(channel_id) {
            Some(n) => *n,
            None => 0,
        }
    }

    /// Evaluates the reply to an incoming counting message in `channel_id`. A
    /// message without a leading number gets none and changes nothing. Else the
    /// run of consecutive numbers is updated, and the reply is the incoming
    /// number plus 1, except where the message breaks a run of four or more and
    /// this account has sent a number here: then it is that number plus 2, and
    /// the run starts over.
    pub fn evaluate_next_count(&mut self, channel_id: &str, content: &str) -> (r: Option<String>)
        requires
            old(self).wf(),
            leading_number(content@) matches Some(n) ==> old(self)@.count_fits(channel_id@, n),
        ensures
            final(self).wf(),
            match leading_number(content@) {
                None => r is None && final(self)@ == old(self)@,
                Some(n) => {
                    &&& r matches Some(s)
                    &&& s@ == count_reply(old(self)@.next_count(channel_id@, n), content@)
                    &&& final(self)@ == old(self)@.after_incoming(channel_id@, n)
                },
            },
    {
        let incoming = parse_leading_number(content);
        let n = match incoming {
            None => return None,
            Some(n) => n,
        };
        let ghost v = self@;
        let prev = self.last_number(channel_id);
        let current_seq = self.run_length(channel_id);
        let current_flag = match self.channel_flag_seq.get(channel_id) {
            Some(f) => *f,
            None => false,
        };
        let is_sequential = match prev {
            Some(p) => n == p + 1,
            None => true,
        };
        let new_seq: usize = if is_sequential { current_seq + 1 } else { 1 };
        self.channel_seq_count.insert(channel_id.to_owned(), new_seq);
        if new_seq >= 4 {
            self.channel_flag_seq.insert(channel_id.to_owned(), true);
        }
        let fallback_self: Option<i64> = if !is_sequential && current_flag {
            match self.channel_last_self_num.get(channel_id) {
                Some(last_self) => Some(*last_self),
                None => None,
            }
        } else {
            None
        };
        let next_num: i64 = match fallback_self {
            Some(last_self) => {
                // Reset the run once the fallback rule has been applied.
                self.channel_flag_seq.insert(channel_id.to_owned(), false);
                self.channel_seq_count.insert(channel_id.to_owned(), 0);
                last_self + 2
            },
            None => n + 1,
        };
        self.channel_last_num.insert(channel_id.to_owned(), n);
        assert(self@.seq_count =~= v.after_incoming(channel_id@, n).seq_count);
        assert(self@.flag_seq =~= v.after_incoming(channel_id@, n).flag_seq);
        Some(format_count_response(next_num, content))
    }

    /// Records a number that this account sent in `channel_id`: it extends or
    /// restarts the run of consecutive numbers and becomes both the last number
    /// seen and the last number sent here.
    pub fn register_sent_number(&mut self, channel_id: &str, sent_num: i64)
        requires
            old(self).wf(),
            old(self)@.sent_fits(channel_id@, sent_num),
        ensures
            final(self).wf(),
            final(self)@ == old(self)@.after_sent(channel_id@, sent_num),
    {
        let prev = self.last_number(channel_id);
        let current_seq = self.run_length(channel_id);
        let is_sequential = match prev {
            Some(p) => sent_num == p + 1,
            None => true,
        };
        let new_seq: usize = if is_sequential { current_seq + 1 } else { 1 };
        self.channel_seq_count.insert(channel_id.to_owned(), new_seq);
        if new_seq >= 4 {
            self.channel_flag_seq.insert(channel_id.to_owned(), true);
        }
        self.channel_last_self_num.insert(channel_id.to_owned(), sent_num);
        self.channel_last_num.insert(channel_id.to_owned(), sent_num);
    }
}

// ---------------------------------------------------------------------------
// Laws
// ---------------------------------------------------------------------------

/// A message once marked processed stays processed: marking `msg_id` in
/// `channel` makes it processed there, every later mark keeps it so (a second
/// attempt to mark it therefore reports that it was marked before), and a mark
/// changes whether some other message is processed only for that one message.
pub proof fn law_marked_message_stays_processed(
    v: ProxyStateView,
    channel: Seq<char>,
    msg_id: Seq<char>,
    other_channel: Seq<char>,
    other_id: Seq<char>,
)
    requires
        msg_id.len() > 0,
    ensures
        v.after_mark(channel, msg_id).already_processed(channel, msg_id),
        v.already_processed(other_channel, other_id) ==> v.after_mark(channel, msg_id).already_processed(
            other_channel,
            other_id,
        ),
        (other_channel != channel || other_id != msg_id) ==> (v.after_mark(
            channel,
            msg_id,
        ).already_processed(other_channel, other_id) == v.already_processed(other_channel, other_id)),
        v.after_mark(channel, msg_id).after_mark(channel, msg_id) == v.after_mark(channel, msg_id),
{
    assert(v.after_mark(channel, msg_id).after_mark(channel, msg_id).processed =~= v.after_mark(
        channel,
        msg_id,
    ).processed);
}

/// An empty message id is never processed and marking it changes nothing.
pub proof fn law_empty_id_never_processed(v: ProxyStateView, channel: Seq<char>)
    ensures
        !v.already_processed(channel, Seq::empty()),
        v.after_mark(channel, Seq::empty()) == v,
{
}

/// The state after `item` joined the queue of `channel`.
pub open spec fn after_enqueue(v: ProxyStateView, channel: Seq<char>, item: QueuedItem) -> ProxyStateView {
    ProxyStateView {
        queues: v.queues.insert(channel, v.queue_after_enqueue(channel, item)),
        ..v
    }
}

/// The state after the first item of the queue of `channel` left it.
pub open spec fn after_pop(v: ProxyStateView, channel: Seq<char>) -> ProxyStateView {
    ProxyStateView { queues: v.queues.insert(channel, v.queue_of(channel).drop_first()), ..v }
}

/// Queues are first in, first out: an item that joins an empty queue is the
/// next to leave it, marked as having found the queue empty; an item that
/// joins a non-empty queue leaves the front unchanged and is last.
pub proof fn law_queue_first_in_first_out(v: ProxyStateView, channel: Seq<char>, item: QueuedItem)
    ensures
        v.queue_of(channel).len() == 0 ==> {
            let w = after_enqueue(v, channel, item);
            &&& w.queue_of(channel).len() == 1
            &&& w.queue_of(channel)[0] == (QueuedItem {
                content: item.content,
                number: item.number,
                was_empty: true,
            })
            &&& after_pop(w, channel).queue_of(channel).len() == 0
        },
        v.queue_of(channel).len() > 0 ==> {
            let w = after_enqueue(v, channel, item);
            &&& w.queue_of(channel).len() == v.queue_of(channel).len() + 1
            &&& w.queue_of(channel)[0] == v.queue_of(channel)[0]
            &&& w.queue_of(channel).last() == item
            &&& after_pop(w, channel).queue_of(channel) == after_pop(v, channel).queue_of(channel).push(item)
        },
{
    let w = after_enqueue(v, channel, item);
    if v.queue_of(channel).len() > 0 {
        assert(after_pop(w, channel).queue_of(channel) =~= after_pop(v, channel).queue_of(channel).push(item));
    }
}

/// Enqueueing touches only the queue of its channel.
pub proof fn law_enqueue_leaves_other_channels(
    v: ProxyStateView,
    channel: Seq<char>,
    other: Seq<char>,
    item: QueuedItem,
)
    requires
        other != channel,
    ensures
        after_enqueue(v, channel, item).queue_of(other) == v.queue_of(other),
{
}

/// Turning queue mode off leaves every queue empty.
pub proof fn law_queue_mode_off_empties_queues(v: ProxyStateView, channel: Seq<char>)
    ensures
        (ProxyStateView { queue_mode_enabled: false, queues: v.queues_cleared(), ..v }).queue_of(
            channel,
        ).len() == 0,
{
}

/// After a channel's queue was cleared, there is nothing to take from it.
pub proof fn law_cleared_queue_is_empty(v: ProxyStateView, channel: Seq<char>)
    ensures
        (ProxyStateView { queues: v.queue_cleared(channel), ..v }).queue_of(channel).len() == 0,
{
}

/// The token rotation stays among the active tokens: after a swap the index is
/// below the number of tokens that take part, and with two active tokens two
/// swaps come back to where they started.
pub proof fn law_token_rotation_stays_in_range(v: ProxyStateView, number: i64)
    ensures
        token_swap_due(v.token_swap_count, v.tokens.len(), number) ==> v.next_token_index(number)
            < min_usize(v.token_swap_count, v.tokens.len() as usize) <= v.tokens.len(),
        token_swap_due(v.token_swap_count, v.tokens.len(), number) && min_usize(
            v.token_swap_count,
            v.tokens.len() as usize,
        ) == 2 && v.current_token_index < 2 ==> (ProxyStateView {
            current_token_index: v.next_token_index(number),
            ..v
        }).next_token_index(number) == v.current_token_index,
{
}

/// Configuring the rotation starts it at the first token: the token in use is
/// then the first configured one (or the fallback where none was configured).
pub proof fn law_rotation_starts_at_first_token(
    v: ProxyStateView,
    tokens: Seq<Seq<char>>,
    swap_count: usize,
    fallback: Seq<char>,
)
    ensures
        (ProxyStateView { tokens, token_swap_count: swap_count, current_token_index: 0, ..v }).current_token(
            fallback,
        ) == (if tokens.len() > 0 {
            tokens[0]
        } else {
            fallback
        }),
{
}

/// In a consistent state the token in use is always a configured one, where
/// tokens were configured.
pub proof fn law_current_token_is_configured(s: &ProxyState, fallback: Seq<char>)
    requires
        s.wf(),
        s@.tokens.len() > 0,
    ensures
        s@.tokens.contains(s@.current_token(fallback)),
{
    assert(s@.tokens[s@.current_token_index as int] == s@.current_token(fallback));
}

/// Registering this account's user id and name makes its messages its own.
pub proof fn law_registered_author_is_self(
    v: ProxyStateView,
    user_id: Seq<char>,
    username: Seq<char>,
    other: Seq<char>,
)
    ensures
        user_id.len() > 0 ==> v.after_self_info(user_id, username).is_self(user_id, other),
        username.len() > 0 ==> v.after_self_info(user_id, username).is_self(other, username),
        v.is_self(user_id, username) ==> v.after_self_info(user_id, username).is_self(user_id, username),
{
}

/// Four numbers in a row set the run flag: where `n` was the last number seen
/// in `channel`, seeing `n + 1`, `n + 2`, `n + 3` and `n + 4` leaves the run
/// flag set and `n + 4` as the last number.
pub proof fn law_four_in_a_row_sets_flag(v: ProxyStateView, channel: Seq<char>, n: i64)
    requires
        v.last_num.get(channel) == Some(n),
        n <= i64::MAX - 4,
        v.seq_count.get(channel).unwrap_or(0) < usize::MAX - 4,
    ensures
        ({
            let w = v.after_incoming(channel, (n + 1) as i64).after_incoming(
                channel,
                (n + 2) as i64,
            ).after_incoming(channel, (n + 3) as i64).after_incoming(channel, (n + 4) as i64);
            &&& w.flag_seq.get(channel) == Some(true)
            &&& w.last_num.get(channel) == Some((n + 4) as i64)
        }),
{
    let w1 = v.after_incoming(channel, (n + 1) as i64);
    assert(!w1.fallback_applies(channel, (n + 2) as i64));
    let w2 = w1.after_incoming(channel, (n + 2) as i64);
    let w3 = w2.after_incoming(channel, (n + 3) as i64);
    assert(w1.seq_count.get(channel).unwrap_or(0) >= 1);
    assert(w2.seq_count.get(channel).unwrap_or(0) >= 2);
    assert(w3.seq_count.get(channel).unwrap_or(0) >= 3);
    assert(w3.run_after(channel, (n + 4) as i64) >= 4);
}

/// The fallback rule: where a number breaks a run flagged as four or more long
/// and this account has sent a number in the channel, the reply is that number
/// plus 2, and the run starts over (length 0, flag cleared).
pub proof fn law_fallback_replies_own_number_plus_two(v: ProxyStateView, channel: Seq<char>, n: i64)
    requires
        v.last_num.get(channel) is Some,
        n != v.last_num[channel] + 1,
        v.flag_seq.get(channel) == Some(true),
        v.last_self_num.contains_key(channel),
    ensures
        v.next_count(channel, n) == v.last_self_num[channel] + 2,
        v.after_incoming(channel, n).seq_count.get(channel) == Some(0usize),
        v.after_incoming(channel, n).flag_seq.get(channel) == Some(false),
        v.after_incoming(channel, n).last_num.get(channel) == Some(n),
{
}

/// Without the fallback rule the reply counts on from the incoming number.
pub proof fn law_reply_counts_on(v: ProxyStateView, channel: Seq<char>, n: i64)
    requires
        !v.fallback_applies(channel, n),
    ensures
        v.next_count(channel, n) == n + 1,
{
}

/// The token rotation moves on at count milestones and nowhere else: with two
/// active tokens (the fewer of the swap count and the number of tokens) at every
/// multiple of 100, with three at every multiple of 50 (by absolute value),
/// moving to the next of the active tokens; with a swap count or a token count of
/// at most one, or more than three active tokens, the rotation never moves.
/// (The token list of a state is a vector, so its length fits a `usize`.)
pub proof fn law_token_swap_milestones(v: ProxyStateView, number: i64)
    requires
        v.tokens.len() <= usize::MAX,
    ensures
        ({
            let active: int = if v.token_swap_count <= v.tokens.len() {
                v.token_swap_count as int
            } else {
                v.tokens.len() as int
            };
            let mag: int = if number < 0 {
                -(number as int)
            } else {
                number as int
            };
            let idx = v.current_token_index;
            &&& (v.token_swap_count <= 1 || v.tokens.len() <= 1) ==> v.next_token_index(number) == idx
            &&& (v.token_swap_count > 1 && v.tokens.len() > 1 && active == 2)
                ==> v.next_token_index(number) == (if mag % 100 == 0 {
                ((idx + 1) % 2) as usize
            } else {
                idx
            })
            &&& (v.token_swap_count > 1 && v.tokens.len() > 1 && active == 3)
                ==> v.next_token_index(number) == (if mag % 50 == 0 {
                ((idx + 1) % 3) as usize
            } else {
                idx
            })
            &&& (v.token_swap_count > 1 && v.tokens.len() > 1 && active > 3)
                ==> v.next_token_index(number) == idx
        }),
{
}

/// How an incoming count `n` in `channel` moves the counting run, and what it is
/// answered with. Let `run` be the channel's run length (0 where none) and call
/// `n` consecutive where no number was seen yet or `n` is the last one plus 1.
/// - consecutive: the run grows by one; the flag is set once the run reaches 4
///   and otherwise left as it was; the reply is `n + 1`;
/// - not consecutive, with the flag set and an own number sent here: the run
///   and the flag are reset and the reply is the own number plus 2;
/// - otherwise: the run restarts at 1, the flag is left as it was, and the reply
///   is `n + 1`.
/// In every case `n` becomes the last number seen, the own last number is kept,
/// and other channels are untouched.
pub proof fn law_incoming_count_moves_the_run(v: ProxyStateView, channel: Seq<char>, n: i64, other: Seq<char>)
    ensures
        ({
            let w = v.after_incoming(channel, n);
            let run: int = if v.seq_count.contains_key(channel) {
                v.seq_count[channel] as int
            } else {
                0
            };
            let consecutive = !v.last_num.contains_key(channel) || n == v.last_num[channel] + 1;
            let flagged = v.flag_seq.contains_key(channel) && v.flag_seq[channel];
            &&& w.last_num.get(channel) == Some(n)
            &&& w.last_self_num == v.last_self_num
            &&& consecutive ==> {
                &&& w.seq_count.get(channel) == Some((run + 1) as usize)
                &&& w.flag_seq.get(channel) == (if run + 1 >= 4 {
                    Some(true)
                } else {
                    v.flag_seq.get(channel)
                })
                &&& v.next_count(channel, n) == n + 1
            }
            &&& !consecutive && flagged && v.last_self_num.contains_key(channel) ==> {
                &&& w.seq_count.get(channel) == Some(0usize)
                &&& w.flag_seq.get(channel) == Some(false)
                &&& v.next_count(channel, n) == v.last_self_num[channel] + 2
            }
            &&& !consecutive && !(flagged && v.last_self_num.contains_key(channel)) ==> {
                &&& w.seq_count.get(channel) == Some(1usize)
                &&& w.flag_seq.get(channel) == v.flag_seq.get(channel)
                &&& v.next_count(channel, n) == n + 1
            }
            &&& other != channel ==> {
                &&& w.seq_count.get(other) == v.seq_count.get(other)
                &&& w.flag_seq.get(other) == v.flag_seq.get(other)
                &&& w.last_num.get(other) == v.last_num.get(other)
            }
        }),
{
}

/// How a count `n` sent by this account in `channel` moves the run: where `n`
/// is consecutive (no number seen yet, or the last one plus 1) the run grows by
/// one, else it restarts at 1; the flag is set once the run reaches 4 and is
/// otherwise left as it was; `n` becomes both the last number seen and the own
/// last number; other channels are untouched.
pub proof fn law_sent_count_moves_the_run(v: ProxyStateView, channel: Seq<char>, n: i64, other: Seq<char>)
    ensures
        ({
            let w = v.after_sent(channel, n);
            let run: int = if v.seq_count.contains_key(channel) {
                v.seq_count[channel] as int
            } else {
                0
            };
            let consecutive = !v.last_num.contains_key(channel) || n == v.last_num[channel] + 1;
            let new_run: int = if consecutive { run + 1 } else { 1 };
            &&& w.last_num.get(channel) == Some(n)
            &&& w.last_self_num.get(channel) == Some(n)
            &&& w.seq_count.get(channel) == Some(new_run as usize)
            &&& w.flag_seq.get(channel) == (if new_run >= 4 {
                Some(true)
            } else {
                v.flag_seq.get(channel)
            })
            &&& other != channel ==> {
                &&& w.seq_count.get(other) == v.seq_count.get(other)
                &&& w.flag_seq.get(other) == v.flag_seq.get(other)
                &&& w.last_num.get(other) == v.last_num.get(other)
                &&& w.last_self_num.get(other) == v.last_self_num.get(other)
            }
        }),
{
}

/// The token in use is the one at the rotation's index, or the fallback where
/// no token is configured (or the index points past the list).
pub proof fn law_token_in_use(v: ProxyStateView, fallback: Seq<char>)
    ensures
        v.tokens.len() > 0 && v.current_token_index < v.tokens.len() ==> v.current_token(fallback)
            == v.tokens[v.current_token_index as int],
        (v.tokens.len() == 0 || v.current_token_index >= v.tokens.len()) ==> v.current_token(fallback)
            == fallback,
{
}

/// A new proxy has queue mode on, a 45 ms hardware delay, the normal reaction
/// delay, a swap count of 1 at token index 0, no tokens, no target channel,
/// and knows no queue, message, author or count.
pub proof fn law_new_state(channel: Seq<char>, msg_id: Seq<char>, author: Seq<char>, fallback: Seq<char>)
    ensures
        ({
            let v = ProxyStateView::initial();
            &&& v.queue_mode_enabled
            &&& v.hardware_delay_ms == 45
            &&& v.reaction_delay_mode == ReactionDelayMode::Normal
            &&& v.token_swap_count == 1
            &&& v.current_token_index == 0
            &&& v.current_token(fallback) == fallback
            &&& v.target_channel_id.len() == 0
            &&& v.queue_of(channel).len() == 0
            &&& !v.already_processed(channel, msg_id)
            &&& !v.is_self(author, author)
            &&& v.last_num.get(channel) is None
            &&& v.last_self_num.get(channel) is None
            &&& v.seq_count.get(channel) is None
            &&& v.flag_seq.get(channel) is None
        }),
{
}
} // verus!
