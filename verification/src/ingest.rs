//! Reading the input of a load: where each message goes.
//!
//! The input is read line by line. A state goes into the place of the state
//! that the writers share; any other message goes to the writer of its
//! stream. [`Demultiplexer::route`] decides this message by message, and
//! [`ingest`] does it for a whole input.

use crate::error::SingerIcebergError;
use crate::json::{Json, JsonModel};
use crate::messages::{Message, MessageModel};
use crate::plugin::BaseConfig;
use crate::text::{key_position, str_eq};
use vstd::prelude::*;

verus! {

/// What the reader does with a message.
#[derive(Debug, PartialEq, Eq)]
pub enum Routing {
    /// Send the message to the writer of its stream. Where `rotate` is set,
    /// first end that writer's channel and start a new writer on a new one.
    Forward { rotate: bool, message: Message },
    /// Put this value in place of the state that the writers share.
    ReplaceState(Json),
}

/// The reader's memory: the version that each stream was last told to activate.
#[derive(Debug)]
pub struct Demultiplexer {
    versions: Vec<(String, i64)>,
}

/// The streams of `versions`.
pub open spec fn version_keys(versions: Seq<(String, i64)>) -> Seq<Seq<char>> {
    versions.map_values(|v: (String, i64)| v.0@)
}

impl Demultiplexer {
    /// The version that `stream` was last told to activate, if it was told any.
    pub closed spec fn last_seen(&self, stream: Seq<char>) -> Option<i64> {
        let at = key_position(version_keys(self.versions@), stream);
        if at < self.versions@.len() {
            Some(self.versions@[at].1)
        } else {
            None
        }
    }

    /// A reader that has seen nothing yet.
    pub fn new() -> (r: Demultiplexer)
        ensures
            forall|stream: Seq<char>| r.last_seen(stream) is None,
    {
        Demultiplexer { versions: Vec::new() }
    }

    fn find(&self, stream: &str) -> (r: Option<usize>)
        ensures
            match r {
                Some(i) => i < self.versions@.len() && i == key_position(
                    version_keys(self.versions@),
                    stream@,
                ),
                None => key_position(version_keys(self.versions@), stream@)
                    == self.versions@.len(),
            },
    {
        let ghost keys = version_keys(self.versions@);
        let mut i: usize = 0;
        assert(keys.skip(0) == keys);
        while i < self.versions.len()
            invariant
                i <= self.versions@.len(),
                keys == version_keys(self.versions@),
                key_position(keys, stream@) == i + key_position(keys.skip(i as int), stream@),
            decreases self.versions@.len() - i,
        {
            proof {
                assert(keys.skip(i as int).drop_first() == keys.skip(i + 1));
                assert(keys.skip(i as int)[0] == keys[i as int]);
            }
            if str_eq(self.versions[i].0.as_str(), stream) {
                return Some(i);
            }
            i += 1;
        }
        None
    }

    /// Notes that `stream` is told to activate `version`; says whether it was
    /// last told to activate another.
    fn activate(&mut self, stream: &str, version: i64) -> (changed: bool)
        ensures
            changed == (old(self).last_seen(stream@) is Some && old(self).last_seen(stream@)
                != Some(version)),
            final(self).last_seen(stream@) == Some(version),
            forall|other: Seq<char>|
                other != stream@ ==> final(self).last_seen(other) == old(self).last_seen(other),
    {
        let ghost before = version_keys(self.versions@);
        match self.find(stream) {
            Some(i) => {
                let changed = self.versions[i].1 != version;
                self.versions.set(i, (String::from_str(stream), version));
                proof {
                    crate::text::lemma_key_position(before, stream@);
                    assert(version_keys(self.versions@) == before);
                    assert forall|other: Seq<char>| other != stream@ implies self.last_seen(other)
                        == old(self).last_seen(other) by {
                        crate::text::lemma_key_position(before, other);
                    }
                }
                changed
            },
            None => {
                self.versions.push((String::from_str(stream), version));
                proof {
                    let after = version_keys(self.versions@);
                    assert(after == before.push(stream@));
                    lemma_position_after_push(before, stream@, stream@);
                    assert forall|other: Seq<char>| other != stream@ implies self.last_seen(other)
                        == old(self).last_seen(other) by {
                        lemma_position_after_push(before, stream@, other);
                    }
                }
                false
            },
        }
    }

    /// Decides what the reader does with a message.
    ///
    /// A state goes into the place of the shared state. Any other message
    /// goes to the writer of its stream, which the configuration must bind.
    /// A stream that is told to activate another version than it was last
    /// told gets a new writer first.
    pub fn route(&mut self, config: &BaseConfig, message: Message) -> (r: Result<
        Routing,
        SingerIcebergError,
    >)
        ensures
            match message@.stream() {
                None => r matches Ok(Routing::ReplaceState(value)) && message@
                    == (MessageModel::State { value: value@ }) && forall|stream: Seq<char>|
                    final(self).last_seen(stream) == old(self).last_seen(stream),
                Some(stream) => if config.binds(stream) {
                    &&& r matches Ok(Routing::Forward { rotate, message: forwarded })
                    &&& forwarded@ == message@
                    &&& rotate == rotates(old(self).last_seen(stream), message@)
                    &&& forall|other: Seq<char>|
                        final(self).last_seen(other) == seen_after(
                            old(self).last_seen(other),
                            other,
                            message@,
                        )
                } else {
                    r matches Err(SingerIcebergError::StreamNotFound(name)) && name@ == stream
                },
            },
    {
        match message {
            Message::State(state) => Ok(Routing::ReplaceState(state.value)),
            Message::Schema(schema) => {
                if config.stream(schema.stream.as_str()).is_none() {
                    return Err(SingerIcebergError::StreamNotFound(schema.stream));
                }
                Ok(Routing::Forward { rotate: false, message: Message::Schema(schema) })
            },
            Message::Record(record) => {
                if config.stream(record.stream.as_str()).is_none() {
                    return Err(SingerIcebergError::StreamNotFound(record.stream));
                }
                Ok(Routing::Forward { rotate: false, message: Message::Record(record) })
            },
            Message::ActivateVersion(activate) => {
                if config.stream(activate.stream.as_str()).is_none() {
                    return Err(SingerIcebergError::StreamNotFound(activate.stream));
                }
                let rotate = self.activate(activate.stream.as_str(), activate.version);
                Ok(Routing::Forward { rotate, message: Message::ActivateVersion(activate) })
            },
        }
    }
}

/// Whether a message makes the reader start a new writer for its stream:
/// it activates a version, and the stream was last told to activate another.
pub open spec fn rotates(seen: Option<i64>, message: MessageModel) -> bool {
    match message {
        MessageModel::ActivateVersion { version, .. } => seen is Some && seen != Some(version),
        _ => false,
    }
}

/// The version that the stream `stream` was last told to activate, once
/// `message` has been routed.
pub open spec fn seen_after(seen: Option<i64>, stream: Seq<char>, message: MessageModel) -> Option<
    i64,
> {
    match message {
        MessageModel::ActivateVersion { stream: activated, version } => if activated == stream {
            Some(version)
        } else {
            seen
        },
        _ => seen,
    }
}

/// What appending a key does to the position of a key: nothing where the
/// key was there; else the new key is found at the end, and any other key is
/// still not found.
proof fn lemma_position_after_push(keys: Seq<Seq<char>>, added: Seq<char>, key: Seq<char>)
    ensures
        0 <= key_position(keys, key) <= keys.len(),
        key_position(keys, key) < keys.len() ==> key_position(keys.push(added), key)
            == key_position(keys, key),
        key_position(keys, key) == keys.len() && key == added ==> key_position(
            keys.push(added),
            key,
        ) == keys.len(),
        key_position(keys, key) == keys.len() && key != added ==> key_position(
            keys.push(added),
            key,
        ) == keys.len() + 1,
    decreases keys.len(),
{
    if keys.len() == 0 {
        assert(keys.push(added).drop_first() == Seq::<Seq<char>>::empty());
        assert(key_position(Seq::<Seq<char>>::empty(), key) == 0);
        assert(keys.push(added)[0] == added);
    } else {
        assert(keys.push(added).drop_first() == keys.drop_first().push(added));
        if keys[0] != key {
            lemma_position_after_push(keys.drop_first(), added, key);
        }
    }
}

/// The messages that go to one writer, in the order of the input.
#[derive(Debug, PartialEq, Eq)]
pub struct Channel {
    pub stream: String,
    pub messages: Vec<Message>,
}

/// The mathematical value of a [`Channel`].
pub struct ChannelModel {
    pub stream: Seq<char>,
    pub messages: Seq<MessageModel>,
}

/// The value of each of `messages`.
pub open spec fn messages_model(messages: Seq<Message>) -> Seq<MessageModel> {
    messages.map_values(|m: Message| m@)
}

impl View for Channel {
    type V = ChannelModel;

    open spec fn view(&self) -> ChannelModel {
        ChannelModel { stream: self.stream@, messages: messages_model(self.messages@) }
    }
}

/// The value of each of `channels`.
pub open spec fn channels_model(channels: Seq<Channel>) -> Seq<ChannelModel> {
    channels.map_values(|c: Channel| c@)
}

/// What a load reads from its input: the channels of its writers, in the
/// order in which they were opened, and the state that the writers share.
#[derive(Debug, PartialEq, Eq)]
pub struct Ingested {
    pub channels: Vec<Channel>,
    pub state: Json,
}

/// The version that `stream` was last told to activate by `messages`, if any.
pub open spec fn last_activated(messages: Seq<MessageModel>, stream: Seq<char>) -> Option<i64>
    decreases messages.len(),
{
    if messages.len() == 0 {
        None
    } else {
        seen_after(last_activated(messages.drop_last(), stream), stream, messages.last())
    }
}

/// The state that `messages` leave: the value of the last state among
/// them, or null where there is none.
pub open spec fn state_after(messages: Seq<MessageModel>) -> JsonModel
    decreases messages.len(),
{
    if messages.len() == 0 {
        JsonModel::Null
    } else {
        match messages.last() {
            MessageModel::State { value } => value,
            _ => state_after(messages.drop_last()),
        }
    }
}

/// The channel that messages of `stream` go to: the position of the last
/// of `channels` that is of that stream, or -1 where none is.
pub open spec fn current_channel(channels: Seq<ChannelModel>, stream: Seq<char>) -> int
    decreases channels.len(),
{
    if channels.len() == 0 {
        -1
    } else if channels.last().stream == stream {
        channels.len() - 1
    } else {
        current_channel(channels.drop_last(), stream)
    }
}

/// One empty channel for each of `streams`.
pub open spec fn opened(streams: Seq<Seq<char>>) -> Seq<ChannelModel> {
    streams.map_values(|stream: Seq<char>| ChannelModel { stream, messages: Seq::empty() })
}

/// `channels` once `message` has gone to the channel of `stream`.
pub open spec fn delivered(channels: Seq<ChannelModel>, stream: Seq<char>, message: MessageModel)
    -> Seq<ChannelModel> {
    let at = current_channel(channels, stream);
    if at >= 0 {
        channels.update(
            at,
            ChannelModel { stream: channels[at].stream, messages: channels[at].messages.push(message) },
        )
    } else {
        channels
    }
}

/// The channels that `messages` fill, beginning with one empty channel for
/// each of `streams`. A message goes to the last channel of its stream; a
/// message that makes the reader start a new writer first opens a channel
/// for it. A state goes to no channel.
pub open spec fn channels_after(streams: Seq<Seq<char>>, messages: Seq<MessageModel>) -> Seq<
    ChannelModel,
>
    decreases messages.len(),
{
    if messages.len() == 0 {
        opened(streams)
    } else {
        let before = channels_after(streams, messages.drop_last());
        let message = messages.last();
        match message.stream() {
            None => before,
            Some(stream) => {
                let ready = if rotates(last_activated(messages.drop_last(), stream), message) {
                    before.push(ChannelModel { stream, messages: Seq::empty() })
                } else {
                    before
                };
                delivered(ready, stream, message)
            },
        }
    }
}

/// Why a load ends while it reads its input.
pub enum Failure {
    /// A line begins with `{` and is not the JSON text of a message.
    Unreadable,
    /// A message is of a stream that the configuration does not bind.
    Unbound(Seq<char>),
}

/// The messages that `lines` hold, in their order. The first line that
/// cannot be read, or that holds a message of a stream that the
/// configuration does not bind, is the failure of the whole.
pub open spec fn messages_of(config: &BaseConfig, lines: Seq<Seq<char>>) -> Result<
    Seq<MessageModel>,
    Failure,
>
    decreases lines.len(),
{
    if lines.len() == 0 {
        Ok(Seq::empty())
    } else {
        match messages_of(config, lines.drop_last()) {
            Err(failure) => Err(failure),
            Ok(before) => match crate::messages::line_reading(lines.last()) {
                Err(_) => Err(Failure::Unreadable),
                Ok(None) => Ok(before),
                Ok(Some(message)) => match message.stream() {
                    Some(stream) => if config.binds(stream) {
                        Ok(before.push(message))
                    } else {
                        Err(Failure::Unbound(stream))
                    },
                    None => Ok(before.push(message)),
                },
            },
        }
    }
}

/// The text of each of `lines`.
pub open spec fn lines_model(lines: Seq<String>) -> Seq<Seq<char>> {
    lines.map_values(|line: String| line@)
}

/// A failure among the first `n` lines is the failure of all of them.
proof fn lemma_failure_stays(config: &BaseConfig, lines: Seq<Seq<char>>, n: int)
    requires
        0 <= n <= lines.len(),
        messages_of(config, lines.take(n)) is Err,
    ensures
        messages_of(config, lines) == messages_of(config, lines.take(n)),
    decreases lines.len() - n,
{
    if n < lines.len() {
        assert(lines.take(n + 1).drop_last() == lines.take(n));
        lemma_failure_stays(config, lines, n + 1);
    } else {
        assert(lines.take(n) == lines);
    }
}

/// `current_channel` is in range and names a channel of the stream.
proof fn lemma_current_channel(channels: Seq<ChannelModel>, stream: Seq<char>)
    ensures
        -1 <= current_channel(channels, stream) < channels.len(),
        current_channel(channels, stream) >= 0 ==> channels[current_channel(
            channels,
            stream,
        )].stream == stream,
    decreases channels.len(),
{
    if channels.len() > 0 && channels.last().stream != stream {
        lemma_current_channel(channels.drop_last(), stream);
    }
}

/// A message that goes to a channel leaves every stream its channel.
proof fn lemma_delivered_keeps_channels(
    channels: Seq<ChannelModel>,
    stream: Seq<char>,
    message: MessageModel,
    other: Seq<char>,
)
    ensures
        current_channel(delivered(channels, stream, message), other) == current_channel(
            channels,
            other,
        ),
{
    lemma_current_channel(channels, stream);
    let at = current_channel(channels, stream);
    if at >= 0 {
        let entry = ChannelModel {
            stream: channels[at].stream,
            messages: channels[at].messages.push(message),
        };
        lemma_same_streams(channels, channels.update(at, entry), other);
    }
}

/// Channels of the same streams give every stream the same channel.
proof fn lemma_same_streams(a: Seq<ChannelModel>, b: Seq<ChannelModel>, stream: Seq<char>)
    requires
        a.len() == b.len(),
        forall|i: int| 0 <= i < a.len() ==> a[i].stream == b[i].stream,
    ensures
        current_channel(a, stream) == current_channel(b, stream),
    decreases a.len(),
{
    if a.len() > 0 {
        lemma_same_streams(a.drop_last(), b.drop_last(), stream);
    }
}

/// Every stream of `streams` has a channel among those opened for them.
proof fn lemma_opened(streams: Seq<Seq<char>>, stream: Seq<char>)
    requires
        key_position(streams, stream) < streams.len(),
    ensures
        current_channel(opened(streams), stream) >= 0,
    decreases streams.len(),
{
    crate::text::lemma_key_position(streams, stream);
    let at = key_position(streams, stream);
    lemma_has_channel(opened(streams), at, stream);
}

/// A stream with a channel somewhere has a current channel.
proof fn lemma_has_channel(channels: Seq<ChannelModel>, at: int, stream: Seq<char>)
    requires
        0 <= at < channels.len(),
        channels[at].stream == stream,
    ensures
        current_channel(channels, stream) >= at,
    decreases channels.len(),
{
    if channels.last().stream != stream {
        lemma_has_channel(channels.drop_last(), at, stream);
    }
}

/// The messages that the channels of `stream` hold, channel after channel.
pub open spec fn messages_to(channels: Seq<ChannelModel>, stream: Seq<char>) -> Seq<MessageModel>
    decreases channels.len(),
{
    if channels.len() == 0 {
        Seq::empty()
    } else if channels.last().stream == stream {
        messages_to(channels.drop_last(), stream) + channels.last().messages
    } else {
        messages_to(channels.drop_last(), stream)
    }
}

/// The messages of `stream` among `messages`, in their order.
pub open spec fn messages_for(messages: Seq<MessageModel>, stream: Seq<char>) -> Seq<MessageModel>
    decreases messages.len(),
{
    if messages.len() == 0 {
        Seq::empty()
    } else if messages.last().stream() == Some(stream) {
        messages_for(messages.drop_last(), stream).push(messages.last())
    } else {
        messages_for(messages.drop_last(), stream)
    }
}

/// Whether every message of `messages` that goes to a channel is of one of `streams`.
pub open spec fn all_bound(streams: Seq<Seq<char>>, messages: Seq<MessageModel>) -> bool {
    forall|i: int|
        0 <= i < messages.len() && (#[trigger] messages[i]).stream() is Some ==> key_position(
            streams,
            messages[i].stream()->0,
        ) < streams.len()
}

/// The writers of a stream get the messages of the stream, all of them and
/// in the order of the input: what the channels of a stream hold, channel
/// after channel, is what the input holds for the stream.
pub proof fn lemma_delivery_in_order(
    streams: Seq<Seq<char>>,
    messages: Seq<MessageModel>,
    stream: Seq<char>,
)
    requires
        all_bound(streams, messages),
    ensures
        messages_to(channels_after(streams, messages), stream) == messages_for(messages, stream),
        key_position(streams, stream) < streams.len() ==> current_channel(
            channels_after(streams, messages),
            stream,
        ) >= 0,
    decreases messages.len(),
{
    if messages.len() == 0 {
        lemma_opened_is_empty(streams, stream);
        if key_position(streams, stream) < streams.len() {
            lemma_opened(streams, stream);
        }
    } else {
        let front = messages.drop_last();
        let message = messages.last();
        let before = channels_after(streams, front);
        assert forall|i: int| 0 <= i < front.len() && (#[trigger] front[i]).stream()
            is Some implies key_position(streams, front[i].stream()->0) < streams.len() by {
            assert(front[i] == messages[i]);
        }
        lemma_delivery_in_order(streams, front, stream);
        match message.stream() {
            None => {},
            Some(target) => {
                assert(messages[messages.len() - 1] == message);
                lemma_delivery_in_order(streams, front, target);
                let fresh = ChannelModel { stream: target, messages: Seq::empty() };
                let ready = if rotates(last_activated(front, target), message) {
                    before.push(fresh)
                } else {
                    before
                };
                assert(ready.drop_last() == before || ready == before);
                assert(messages_to(ready, stream) == messages_to(before, stream)) by {
                    if ready != before {
                        assert(ready.drop_last() == before);
                        assert(messages_to(before, stream) + Seq::<MessageModel>::empty()
                            == messages_to(before, stream));
                    }
                }
                assert(current_channel(ready, target) >= 0) by {
                    if ready != before {
                        assert(ready.last().stream == target);
                    }
                }
                assert(current_channel(before, stream) >= 0 ==> current_channel(ready, stream)
                    >= 0) by {
                    if ready != before {
                        assert(ready.drop_last() == before);
                    }
                }
                lemma_delivered(ready, target, message, stream);
                lemma_delivered_keeps_channels(ready, target, message, stream);
            },
        }
    }
}

/// Channels that were only opened hold no message.
proof fn lemma_opened_is_empty(streams: Seq<Seq<char>>, stream: Seq<char>)
    ensures
        messages_to(opened(streams), stream) == Seq::<MessageModel>::empty(),
    decreases streams.len(),
{
    if streams.len() > 0 {
        assert(opened(streams).drop_last() == opened(streams.drop_last()));
        lemma_opened_is_empty(streams.drop_last(), stream);
    }
}

/// A message that goes to the channel of its stream comes last among the
/// messages of that stream, and leaves those of every other stream.
proof fn lemma_delivered(
    channels: Seq<ChannelModel>,
    target: Seq<char>,
    message: MessageModel,
    stream: Seq<char>,
)
    requires
        current_channel(channels, target) >= 0,
    ensures
        messages_to(delivered(channels, target, message), stream) == if stream == target {
            messages_to(channels, stream).push(message)
        } else {
            messages_to(channels, stream)
        },
    decreases channels.len(),
{
    lemma_current_channel(channels, target);
    let at = current_channel(channels, target);
    let after = delivered(channels, target, message);
    let front = channels.drop_last();
    if at == channels.len() - 1 {
        assert(after.drop_last() == front);
        if stream == target {
            assert(messages_to(front, stream) + channels.last().messages.push(message) == (
            messages_to(front, stream) + channels.last().messages).push(message));
        }
    } else {
        assert(after.drop_last() == delivered(front, target, message));
        assert(after.last() == channels.last());
        lemma_delivered(front, target, message, stream);
    }
}

/// Whether `message` is a message of `stream` among `messages`.
pub open spec fn in_input(messages: Seq<MessageModel>, stream: Seq<char>, message: MessageModel)
    -> bool {
    exists|k: int|
        0 <= k < messages.len() && #[trigger] messages[k] == message && message.stream() == Some(
            stream,
        )
}

/// Whether every message that `channel` holds is a message of its stream
/// among `messages`.
pub open spec fn holds_input(messages: Seq<MessageModel>, channel: ChannelModel) -> bool {
    forall|j: int|
        0 <= j < channel.messages.len() ==> in_input(
            messages,
            channel.stream,
            #[trigger] channel.messages[j],
        )
}

/// A channel holds nothing but messages of the input, and only those of
/// its own stream.
pub proof fn lemma_channels_hold_input(
    streams: Seq<Seq<char>>,
    messages: Seq<MessageModel>,
    at: int,
)
    requires
        0 <= at < channels_after(streams, messages).len(),
    ensures
        holds_input(messages, channels_after(streams, messages)[at]),
    decreases messages.len(),
{
    if messages.len() > 0 {
        let front = messages.drop_last();
        let message = messages.last();
        let before = channels_after(streams, front);
        let after = channels_after(streams, messages);
        assert forall|m: MessageModel, stream: Seq<char>|
            in_input(front, stream, m) implies in_input(messages, stream, m) by {
            let k = choose|k: int|
                0 <= k < front.len() && #[trigger] front[k] == m && m.stream() == Some(stream);
            assert(messages[k] == m);
        }
        match message.stream() {
            None => {
                lemma_channels_hold_input(streams, front, at);
            },
            Some(target) => {
                let fresh = ChannelModel { stream: target, messages: Seq::empty() };
                let ready = if rotates(last_activated(front, target), message) {
                    before.push(fresh)
                } else {
                    before
                };
                lemma_current_channel(ready, target);
                let current = current_channel(ready, target);
                assert(after == delivered(ready, target, message));
                assert(after.len() == ready.len());
                if at < before.len() {
                    lemma_channels_hold_input(streams, front, at);
                    assert(ready[at] == before[at]);
                }
                assert(holds_input(messages, ready[at]));
                if current >= 0 && at == current {
                    let held = ready[at].messages;
                    assert(after[at].messages == held.push(message));
                    assert(after[at].stream == target);
                    assert(messages[messages.len() - 1] == message);
                    assert forall|j: int| 0 <= j < after[at].messages.len() implies in_input(
                        messages,
                        after[at].stream,
                        #[trigger] after[at].messages[j],
                    ) by {
                        if j < held.len() {
                            assert(after[at].messages[j] == held[j]);
                        }
                    }
                } else {
                    assert(after[at] == ready[at]);
                }
            },
        }
    } else {
        assert(channels_after(streams, messages)[at].messages == Seq::<MessageModel>::empty());
    }
}

/// The position of the last of `channels` that is of `stream`.
fn find_channel(channels: &Vec<Channel>, stream: &str) -> (at: usize)
    requires
        current_channel(channels_model(channels@), stream@) >= 0,
    ensures
        at as int == current_channel(channels_model(channels@), stream@),
{
    let ghost model = channels_model(channels@);
    let mut i: usize = channels.len();
    assert(model.take(i as int) == model);
    while i > 0
        invariant
            i <= channels@.len(),
            model == channels_model(channels@),
            current_channel(model, stream@) == current_channel(model.take(i as int), stream@),
        decreases i,
    {
        proof {
            assert(model.take(i as int).drop_last() == model.take(i - 1));
            assert(model.take(i as int).last() == channels@[i - 1]@);
        }
        if str_eq(channels[i - 1].stream.as_str(), stream) {
            return i - 1;
        }
        i -= 1;
    }
    vstd::pervasive::unreached()
}

/// The stream of a message that goes to a channel.
fn stream_of(message: &Message) -> (r: &str)
    requires
        message@.stream() is Some,
    ensures
        message@.stream() == Some(r@),
{
    match message {
        Message::Schema(schema) => schema.stream.as_str(),
        Message::Record(record) => record.stream.as_str(),
        Message::ActivateVersion(activate) => activate.stream.as_str(),
        Message::State(_) => vstd::pervasive::unreached(),
    }
}

/// Reads the input of a load and sorts its messages into the channels of
/// the writers.
///
/// There is one channel for each configured stream at first. Lines that do
/// not begin with `{` are passed over. Every message goes to the channel of
/// its stream, in the order of the input; a stream that is told to activate
/// another version than it was last told gets a new channel, to which that
/// message and the later ones go. The last state of the input is the state
/// that the writers share.
pub fn ingest(config: &BaseConfig, lines: &Vec<String>) -> (r: Result<Ingested, SingerIcebergError>)
    ensures
        match r {
            Ok(ingested) => {
                &&& messages_of(config, lines_model(lines@)) is Ok
                &&& channels_model(ingested.channels@) == channels_after(
                    crate::plugin::stream_ids(config.streams@),
                    messages_of(config, lines_model(lines@))->Ok_0,
                )
                &&& ingested.state@ == state_after(messages_of(config, lines_model(lines@))->Ok_0)
            },
            Err(e) => match messages_of(config, lines_model(lines@)) {
                Ok(_) => false,
                Err(Failure::Unreadable) => e is Serde,
                Err(Failure::Unbound(stream)) => e matches SingerIcebergError::StreamNotFound(name)
                    && name@ == stream,
            },
        },
{
    let ghost streams = crate::plugin::stream_ids(config.streams@);
    let ghost input = lines_model(lines@);
    let mut channels: Vec<Channel> = Vec::new();
    let mut k: usize = 0;
    while k < config.streams.len()
        invariant
            k <= config.streams@.len(),
            streams == crate::plugin::stream_ids(config.streams@),
            channels_model(channels@) == opened(streams.take(k as int)),
        decreases config.streams@.len() - k,
    {
        let channel = Channel { stream: config.streams[k].0.clone(), messages: Vec::new() };
        proof {
            assert(messages_model(channel.messages@) == Seq::<MessageModel>::empty());
            assert(streams.take(k + 1) == streams.take(k as int).push(streams[k as int]));
            assert(channels_model(channels@.push(channel)) == channels_model(channels@).push(
                channel@,
            ));
            assert(opened(streams.take(k as int).push(streams[k as int])) == opened(
                streams.take(k as int),
            ).push(ChannelModel { stream: streams[k as int], messages: Seq::empty() }));
        }
        channels.push(channel);
        k += 1;
    }
    proof {
        assert(streams.take(k as int) == streams);
        assert forall|stream: Seq<char>| config.binds(stream) implies current_channel(
            channels_model(channels@),
            stream,
        ) >= 0 by {
            lemma_opened(streams, stream);
        }
    }
    let mut reader = Demultiplexer::new();
    let mut state = Json::Null;
    let ghost mut read: Seq<MessageModel> = Seq::empty();
    let mut i: usize = 0;
    while i < lines.len()
        invariant
            i <= lines@.len(),
            streams == crate::plugin::stream_ids(config.streams@),
            input == lines_model(lines@),
            messages_of(config, input.take(i as int)) == Ok::<Seq<MessageModel>, Failure>(read),
            channels_model(channels@) == channels_after(streams, read),
            state@ == state_after(read),
            forall|stream: Seq<char>| reader.last_seen(stream) == last_activated(read, stream),
            forall|stream: Seq<char>|
                config.binds(stream) ==> current_channel(channels_model(channels@), stream) >= 0,
        decreases lines@.len() - i,
    {
        proof {
            assert(input.take(i + 1).drop_last() == input.take(i as int));
            assert(input.take(i + 1).last() == lines@[i as int]@);
        }
        let message = match Message::parse_line(lines[i].as_str()) {
            Ok(Some(message)) => message,
            Ok(None) => {
                i += 1;
                continue ;
            },
            Err(e) => {
                proof {
                    lemma_failure_stays(config, input, i + 1);
                }
                return Err(e);
            },
        };
        let ghost arrived = message@;
        let ghost before = channels_model(channels@);
        proof {
            assert(read.push(arrived).drop_last() == read);
        }
        match reader.route(config, message) {
            Err(e) => {
                proof {
                    lemma_failure_stays(config, input, i + 1);
                }
                return Err(e);
            },
            Ok(Routing::ReplaceState(value)) => {
                state = value;
            },
            Ok(Routing::Forward { rotate, message }) => {
                let stream = String::from_str(stream_of(&message));
                if rotate {
                    let channel = Channel { stream: stream.clone(), messages: Vec::new() };
                    proof {
                        assert(messages_model(channel.messages@) == Seq::<MessageModel>::empty());
                        assert(channels_model(channels@.push(channel)) == before.push(channel@));
                        assert forall|other: Seq<char>|
                            config.binds(other) implies current_channel(
                            before.push(channel@),
                            other,
                        ) >= 0 by {
                            assert(before.push(channel@).drop_last() == before);
                        }
                    }
                    channels.push(channel);
                }
                let ghost ready = channels_model(channels@);
                proof {
                    lemma_current_channel(ready, stream@);
                }
                let at = find_channel(&channels, stream.as_str());
                let mut channel = channels.remove(at);
                let ghost held = channel@;
                channel.messages.push(message);
                proof {
                    assert(messages_model(channel.messages@) == held.messages.push(arrived));
                }
                let ghost filled = channel@;
                channels.insert(at, channel);
                proof {
                    assert(channels_model(channels@) == ready.update(at as int, filled));
                    assert(channels_model(channels@) == delivered(ready, stream@, arrived));
                    assert forall|other: Seq<char>|
                        config.binds(other) implies current_channel(
                        channels_model(channels@),
                        other,
                    ) >= 0 by {
                        lemma_delivered_keeps_channels(ready, stream@, arrived, other);
                    }
                }
            },
        }
        proof {
            read = read.push(arrived);
        }
        i += 1;
    }
    proof {
        assert(input.take(i as int) == input);
    }
    Ok(Ingested { channels, state })
}

} // verus!
