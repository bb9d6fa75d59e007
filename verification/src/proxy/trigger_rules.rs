use vstd::prelude::*;
use crate::models::QueuedItem;
use crate::proxy::state::{ProxyState, ProxyStateView};
use crate::proxy::utils::{
    count_reply, generate_next_count_response, leading_number, parse_leading_number,
};

verus! {

/// The parts of a channel message that the trigger rules read. Missing fields
/// are empty (and `false`).
pub struct IncomingMessage {
    pub id: String,
    pub author_id: String,
    pub author_username: String,
    pub author_is_bot: bool,
    pub content: String,
}

/// What to do after a channel message was looked at.
pub enum TriggerAction {
    /// Nothing.
    Ignore,
    /// Fetch the channel's last message and evaluate it.
    FetchLatest,
    /// Send `item`, and announce `remaining` as the queue that is left.
    Send { item: QueuedItem, remaining: Vec<QueuedItem> },
}

/// Whether a message gets past the checks before the counting rule: it was not
/// processed already, and neither this account nor a bot wrote it.
pub open spec fn passes_checks(v: ProxyStateView, channel: Seq<char>, m: &IncomingMessage) -> bool {
    &&& !v.already_processed(channel, m.id@)
    &&& !v.is_self(m.author_id@, m.author_username@)
    &&& !m.author_is_bot
}

/// Whether the counting rule can add 1 to the message's leading number.
pub open spec fn trigger_fits(
    v: ProxyStateView,
    channel: Seq<char>,
    message: Option<&IncomingMessage>,
) -> bool {
    message matches Some(m) ==> (channel.len() > 0 && passes_checks(v, channel, m)
        ==> leading_number(m.content@) != Some(i64::MAX))
}

/// What applying the trigger rules to the message `m` of `channel` does:
/// `action` is the answer and `post` the state afterwards, starting from `v`.
pub open spec fn trigger_outcome(
    v: ProxyStateView,
    channel: Seq<char>,
    m: &IncomingMessage,
    action: TriggerAction,
    post: ProxyStateView,
) -> bool {
    let marked = v.after_mark(channel, m.id@);
    if !passes_checks(v, channel, m) {
        action is Ignore && post == v
    } else if leading_number(m.content@) is Some {
        &&& action matches TriggerAction::Send { item, remaining }
        &&& item.content@ == count_reply(leading_number(m.content@)->0 + 1, m.content@)
        &&& item.number == 0
        &&& !item.was_empty
        &&& remaining@ == Seq::<QueuedItem>::empty()
        &&& post == marked
    } else if marked.queue_of(channel).len() > 0 {
        &&& action matches TriggerAction::Send { item, remaining }
        &&& item == marked.queue_of(channel)[0]
        &&& remaining@ == marked.queue_of(channel).drop_first()
        &&& post == (ProxyStateView {
            queues: marked.queues.insert(channel, marked.queue_of(channel).drop_first()),
            ..marked
        })
    } else {
        action is Ignore && post == marked
    }
}

/// Applies the trigger rules to a message of `channel_id`, or asks for the
/// channel's last message where none is given:
/// 1. messages of this account, of bots, and ones processed already are ignored;
/// 2. the message is marked processed;
/// 3. a message that leads with a number is answered with the next number
///    (`"1243 nice"` gets `"1244"`, `"1243 gg"` gets `"1244 ggs!"`);
/// 4. else the first item of the channel's queue is sent, where there is one.
pub fn evaluate_and_trigger_queue(
    message: Option<&IncomingMessage>,
    channel_id: &str,
    state: &mut ProxyState,
) -> (action: TriggerAction)
    requires
        old(state).wf(),
        trigger_fits(old(state)@, channel_id@, message),
    ensures
        final(state).wf(),
        channel_id@.len() == 0 ==> action is Ignore && final(state)@ == old(state)@,
        channel_id@.len() > 0 && message is None ==> action is FetchLatest && final(state)@ == old(
            state,
        )@,
        message is Some && channel_id@.len() > 0 ==> trigger_outcome(
            old(state)@,
            channel_id@,
            message->0,
            action,
            final(state)@,
        ),
{
    if channel_id.is_empty() {
        return TriggerAction::Ignore;
    }
    let m = match message {
        None => return TriggerAction::FetchLatest,
        Some(m) => m,
    };
    let msg_id = m.id.as_str();
    if !msg_id.is_empty() && state.is_message_already_processed(channel_id, msg_id) {
        return TriggerAction::Ignore;
    }
    if state.is_self_author(m.author_id.as_str(), m.author_username.as_str()) || m.author_is_bot {
        return TriggerAction::Ignore;
    }
    if !msg_id.is_empty() {
        state.set_last_processed_message_id(channel_id, msg_id);
    }
    assert(state@ == old(state)@.after_mark(channel_id@, m.id@));
    match generate_next_count_response(m.content.as_str()) {
        Some(response_text) => {
            let auto_item = QueuedItem { content: response_text, number: 0, was_empty: false };
            return TriggerAction::Send { item: auto_item, remaining: Vec::new() };
        },
        None => {},
    }
    match state.pop_next_item(channel_id) {
        Some((item, remaining)) => TriggerAction::Send { item, remaining },
        None => TriggerAction::Ignore,
    }
}


/// Whether `evaluate_and_trigger_queue` can take `message` in `channel_id`
/// with its numbers in range.
pub fn can_trigger(message: Option<&IncomingMessage>, channel_id: &str, state: &ProxyState) -> (b: bool)
    ensures
        b == trigger_fits(state@, channel_id@, message),
{
    match message {
        None => true,
        Some(m) => {
            if channel_id.is_empty() {
                return true;
            }
            let msg_id = m.id.as_str();
            let passes = !state.is_message_already_processed(channel_id, msg_id)
                && !state.is_self_author(m.author_id.as_str(), m.author_username.as_str())
                && !m.author_is_bot;
            !passes || parse_leading_number(m.content.as_str()) != Some(i64::MAX)
        },
    }
}

/// The trigger rules in order. A message processed already, written by this
/// account or written by a bot is ignored and changes nothing. Any other
/// message is marked processed; where it leads with a number `n` it is answered
/// with the count reply for `n + 1` (an item of number 0, not marked
/// `was_empty`, with nothing announced as remaining), whatever the channel's
/// queue holds, and the queues stay as they were; only a message without a
/// leading number takes the first item of the channel's queue, where there is
/// one, and otherwise nothing is done.
pub proof fn law_trigger_rules_in_order(
    v: ProxyStateView,
    channel: Seq<char>,
    m: &IncomingMessage,
    action: TriggerAction,
    post: ProxyStateView,
)
    requires
        trigger_outcome(v, channel, m, action, post),
    ensures
        (v.already_processed(channel, m.id@) || v.is_self(m.author_id@, m.author_username@)
            || m.author_is_bot) ==> action is Ignore && post == v,
        !v.already_processed(channel, m.id@) && !v.is_self(m.author_id@, m.author_username@)
            && !m.author_is_bot ==> {
            &&& post.processed == v.after_mark(channel, m.id@).processed
            &&& (leading_number(m.content@) matches Some(n) ==> {
                &&& action matches TriggerAction::Send { item, remaining }
                &&& item.content@ == count_reply(n + 1, m.content@)
                &&& item.number == 0
                &&& !item.was_empty
                &&& remaining@.len() == 0
                &&& post.queues == v.queues
            })
            &&& (leading_number(m.content@) is None && v.queue_of(channel).len() > 0 ==> {
                &&& action matches TriggerAction::Send { item, remaining }
                &&& item == v.queue_of(channel)[0]
                &&& remaining@ == v.queue_of(channel).drop_first()
                &&& post.queue_of(channel) == v.queue_of(channel).drop_first()
            })
            &&& (leading_number(m.content@) is None && v.queue_of(channel).len() == 0 ==> {
                &&& action is Ignore
                &&& post.queues == v.queues
            })
        },
{
}
} // verus!
