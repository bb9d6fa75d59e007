use vstd::prelude::*;
use crate::entropy::random_in_range;
use crate::models::{QueuedItem, ReactionDelayMode};
use crate::proxy::state::{ProxyState, ProxyStateView};
use crate::proxy::utils::{leading_number, parse_leading_number};

verus! {

/// The count number that a queued item stands for: its own number where it has
/// one, else the number that leads its text.
pub open spec fn sent_number(item: QueuedItem) -> Option<i64> {
    if item.number != 0 {
        Some(item.number)
    } else {
        leading_number(item.content@)
    }
}

/// The count number that sending `item` registers, if any.
pub fn sent_number_of(item: &QueuedItem) -> (r: Option<i64>)
    ensures
        r == sent_number(*item),
{
    if item.number != 0 {
        Some(item.number)
    } else {
        parse_leading_number(item.content.as_str())
    }
}

/// The least delay in milliseconds before a reaction in mode `mode`.
pub open spec fn delay_min_ms(mode: ReactionDelayMode) -> u64 {
    match mode {
        ReactionDelayMode::Normal => 200,
        ReactionDelayMode::Fast => 0,
        ReactionDelayMode::Instant => 0,
        ReactionDelayMode::Random => 0,
    }
}

/// The greatest delay in milliseconds before a reaction in mode `mode`.
pub open spec fn delay_max_ms(mode: ReactionDelayMode) -> u64 {
    match mode {
        ReactionDelayMode::Normal => 300,
        ReactionDelayMode::Fast => 200,
        ReactionDelayMode::Instant => 0,
        ReactionDelayMode::Random => 300,
    }
}

/// A random delay before a reaction: 200 to 300 ms in normal mode, 0 to 200 ms in
/// fast mode, none in instant mode and 0 to 300 ms in random mode.
pub fn reaction_delay_ms(mode: ReactionDelayMode) -> (ms: u64)
    ensures
        delay_min_ms(mode) <= ms <= delay_max_ms(mode),
{
    match mode {
        ReactionDelayMode::Normal => random_in_range(200, 300),
        ReactionDelayMode::Fast => random_in_range(0, 200),
        ReactionDelayMode::Instant => 0,
        ReactionDelayMode::Random => random_in_range(0, 300),
    }
}

/// What the server answered about a message this account sent: its id and its
/// author, where the answer held them.
pub struct SentMessage {
    pub id: Option<String>,
    pub author_id: Option<String>,
    /// The author's user name, empty where the answer held none.
    pub author_username: String,
}

/// The state once a sent message was answered by `sent`, before the count is
/// registered: its id is marked processed and its author is recorded as this
/// account.
pub open spec fn after_answer(v: ProxyStateView, channel: Seq<char>, sent: SentMessage) -> ProxyStateView {
    let v1 = match sent.id {
        Some(id) => v.after_mark(channel, id@),
        None => v,
    };
    match sent.author_id {
        Some(a) => v1.after_self_info(a@, sent.author_username@),
        None => v1,
    }
}

/// The state after a reaction in `channel` was answered with `outcome` (`None`
/// where sending failed).
pub open spec fn after_reaction(
    v: ProxyStateView,
    channel: Seq<char>,
    sent_num: Option<i64>,
    outcome: Option<SentMessage>,
) -> ProxyStateView {
    match outcome {
        None => ProxyStateView { queues: v.queue_cleared(channel), ..v },
        Some(sent) => match sent_num {
            Some(n) => after_answer(v, channel, sent).after_sent_and_swap(channel, n),
            None => after_answer(v, channel, sent),
        },
    }
}

/// Whether finishing a reaction keeps its numbers in range.
pub open spec fn reaction_fits(
    v: ProxyStateView,
    channel: Seq<char>,
    sent_num: Option<i64>,
    succeeded: bool,
) -> bool {
    succeeded ==> (sent_num matches Some(n) ==> v.sent_fits(channel, n) && v.can_check_token_swap(n))
}

impl ProxyState {
    /// Whether `finish_reaction` can take these arguments with its numbers in
    /// range.
    pub fn can_finish_reaction(&self, channel_id: &str, sent_num: Option<i64>, succeeded: bool) -> (b: bool)
        ensures
            b == reaction_fits(self@, channel_id@, sent_num, succeeded),
    {
        if !succeeded {
            return true;
        }
        match sent_num {
            None => true,
            Some(n) => self.can_register_sent_number(channel_id, n) && !(n == i64::MIN
                && self.token_swap_checks_number()),
        }
    }

    /// Updates the state once a reaction in `channel_id` was sent or failed.
    /// Where it was answered, the message id is marked processed, its author is
    /// recorded as this account, and the count `sent_num` is registered and
    /// shown to the token rotation; the result is then nothing. Where sending
    /// failed, the channel's queue is emptied and returned, to be announced.
    pub fn finish_reaction(
        &mut self,
        channel_id: &str,
        sent_num: Option<i64>,
        outcome: Option<SentMessage>,
    ) -> (r: Option<Vec<QueuedItem>>)
        requires
            old(self).wf(),
            reaction_fits(old(self)@, channel_id@, sent_num, outcome is Some),
        ensures
            final(self).wf(),
            final(self)@ == after_reaction(old(self)@, channel_id@, sent_num, outcome),
            outcome is None <==> r is Some,
            r matches Some(q) ==> q@ == Seq::<QueuedItem>::empty(),
    {
        match outcome {
            None => {
                let cleared = self.clear_queue(channel_id);
                Some(cleared)
            },
            Some(sent) => {
                let ghost v = self@;
                match &sent.id {
                    Some(id) => {
                        self.try_mark_message_processed(channel_id, id.as_str());
                    },
                    None => {},
                }
                match &sent.author_id {
                    Some(a) => {
                        self.register_self_info(a.as_str(), sent.author_username.as_str());
                    },
                    None => {},
                }
                assert(self@ == after_answer(v, channel_id@, sent));
                match sent_num {
                    Some(n) => {
                        self.register_sent_number(channel_id, n);
                        self.check_and_swap_token(n);
                    },
                    None => {},
                }
                None
            },
        }
    }
}


// ---------------------------------------------------------------------------
// Laws
// ---------------------------------------------------------------------------

/// The reaction delays: 200 to 300 ms in normal mode, at most 200 ms in fast
/// mode, none in instant mode, at most 300 ms in random mode.
pub proof fn law_reaction_delay_ranges(mode: ReactionDelayMode, ms: u64)
    requires
        delay_min_ms(mode) <= ms <= delay_max_ms(mode),
    ensures
        mode == ReactionDelayMode::Normal ==> 200 <= ms <= 300,
        mode == ReactionDelayMode::Fast ==> ms <= 200,
        mode == ReactionDelayMode::Instant ==> ms == 0,
        mode == ReactionDelayMode::Random ==> ms <= 300,
{
}

/// The count that sending an item registers: its own number where that is not
/// 0, else the number its text leads with.
pub proof fn law_sent_number(item: QueuedItem)
    ensures
        item.number != 0 ==> sent_number(item) == Some(item.number),
        item.number == 0 ==> sent_number(item) == leading_number(item.content@),
{
}

/// After a reaction was answered: the sent message's id counts as processed in
/// the channel, its author (by id, and by name where given) counts as this
/// account, the sent count is the last number seen and the last own number,
/// and the queues stay as they were. After a failed reaction the channel's
/// queue is empty and nothing else changes.
pub proof fn law_reaction_bookkeeping(
    v: ProxyStateView,
    channel: Seq<char>,
    sent_num: Option<i64>,
    outcome: Option<SentMessage>,
)
    ensures
        outcome is None ==> {
            let w = after_reaction(v, channel, sent_num, outcome);
            &&& w.queue_of(channel).len() == 0
            &&& w.processed == v.processed
            &&& w.last_num == v.last_num
            &&& w.self_user_ids == v.self_user_ids
            &&& w.current_token_index == v.current_token_index
        },
        outcome matches Some(sent) ==> {
            let w = after_reaction(v, channel, sent_num, outcome);
            &&& w.queues == v.queues
            &&& (sent.id is Some && sent.id->0@.len() > 0 ==> w.already_processed(channel, sent.id->0@))
            &&& (sent.author_id is Some && sent.author_id->0@.len() > 0 ==> w.self_user_ids.contains(
                sent.author_id->0@,
            ))
            &&& (sent.author_id is Some && sent.author_username@.len() > 0
                ==> w.self_usernames.contains(sent.author_username@))
            &&& (sent_num is Some ==> w.last_num.get(channel) == sent_num
                && w.last_self_num.get(channel) == sent_num)
            &&& (sent_num is None ==> w.last_num == v.last_num && w.last_self_num == v.last_self_num
                && w.current_token_index == v.current_token_index)
        },
{
}
} // verus!
