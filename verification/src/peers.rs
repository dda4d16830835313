//! Clients of the daemon, and what is written to them.

use std::collections::HashMap;
use vstd::prelude::*;

verus! {

/// Number of the client that comes after the one with the number `last`.
pub fn next_peer_id(last: u32) -> (id: u32)
    requires
        last < u32::MAX,
    ensures
        id == last + 1,
{
    last + 1
}

/// The connected clients: the senders of their request lines, under their numbers.
pub struct Broker<S> {
    peers: HashMap<u32, S>,
}

impl<S> View for Broker<S> {
    type V = Map<u32, S>;

    closed spec fn view(&self) -> Map<u32, S> {
        self.peers@
    }
}

impl<S> Broker<S> {
    /// Nobody is connected.
    pub fn new() -> (broker: Self)
        ensures
            broker@ == Map::<u32, S>::empty(),
    {
        Broker { peers: HashMap::new() }
    }

    /// Whether there is a client with the number `idx`.
    pub fn has_peer(&self, idx: u32) -> (r: bool)
        ensures
            r == self@.contains_key(idx),
    {
        self.peers.contains_key(&idx)
    }

    /// Takes up the client with the number `idx`, unless there already is one; tells whether it did.
    pub fn connect(&mut self, idx: u32, sender: S) -> (is_new: bool)
        ensures
            is_new == !old(self)@.contains_key(idx),
            final(self)@ == if is_new {
                old(self)@.insert(idx, sender)
            } else {
                old(self)@
            },
    {
        if self.peers.contains_key(&idx) {
            false
        } else {
            self.peers.insert(idx, sender);
            true
        }
    }

    /// The sender for the request lines of the client with the number `peer_id`.
    pub fn route(&self, peer_id: u32) -> (sender: Option<&S>)
        ensures
            sender is Some <==> self@.contains_key(peer_id),
            sender matches Some(sender) ==> *sender == self@[peer_id],
    {
        self.peers.get(&peer_id)
    }

    /// Forgets the client with the number `idx`; gives the number of those that are left.
    pub fn disconnect(&mut self, idx: u32) -> (left: usize)
        requires
            old(self)@.contains_key(idx),
        ensures
            final(self)@ == old(self)@.remove(idx),
            left == final(self)@.len(),
    {
        self.peers.remove(&idx);
        self.peers.len()
    }
}

/// A reply as it is written to a client: with a line feed behind it, unless the client is waiting
/// for nothing else.
pub open spec fn framed(reply: Seq<char>, is_shutting_down: bool) -> Seq<char> {
    if is_shutting_down {
        reply
    } else {
        reply + "\n"@
    }
}

/// A reply as it is written to a client.
pub fn frame_reply(reply: String, is_shutting_down: bool) -> (text: String)
    ensures
        text@ == framed(reply@, is_shutting_down),
{
    if is_shutting_down {
        reply
    } else {
        reply.concat("\n")
    }
}

/// A reply as it is written to a client, and whether the client is served any further.
pub fn write_step(reply: String, is_shutting_down: bool) -> (step: (String, bool))
    ensures
        step.0@ == framed(reply@, is_shutting_down),
        step.1 == !is_shutting_down,
{
    (frame_reply(reply, is_shutting_down), !is_shutting_down)
}

/// All that is written to a client for `replies`, each with whether the client is waiting for
/// nothing else: nothing follows the first such reply.
pub open spec fn written(replies: Seq<(Seq<char>, bool)>) -> Seq<char>
    decreases replies.len(),
{
    if replies.len() == 0 {
        Seq::empty()
    } else {
        let (reply, is_shutting_down) = replies[0];
        framed(reply, is_shutting_down) + if is_shutting_down {
            Seq::empty()
        } else {
            written(replies.skip(1))
        }
    }
}

/// All of `replies` as they are written, one behind the other.
pub open spec fn transcript(replies: Seq<(Seq<char>, bool)>) -> Seq<char>
    decreases replies.len(),
{
    if replies.len() == 0 {
        Seq::empty()
    } else {
        transcript(replies.drop_last()) + framed(replies.last().0, replies.last().1)
    }
}

/// A message and where it comes from.
#[derive(Debug)]
pub struct Reply {
    pub message: String,
    pub origin: String,
}

impl Reply {
    /// The message alone.
    pub fn as_oneliner(&self) -> (text: String)
        ensures
            text@ == self.message@,
    {
        self.message.clone()
    }

    /// The message on a line of its own, behind its origin.
    pub fn as_reply(&self) -> (text: String)
        ensures
            text@ == "["@ + self.origin@ + "]: "@ + self.message@ + "\n"@,
    {
        let mut text: String = "[".to_owned();
        text.append(self.origin.as_str());
        text.append("]: ");
        text.append(self.message.as_str());
        text.append("\n");
        text
    }
}

/// Clients with different numbers do not get in each other's way: taking one up, or forgetting it,
/// leaves the request lines of the others with their senders.
pub proof fn lemma_peers_are_independent<S>(peers: Map<u32, S>, idx: u32, other: u32, sender: S)
    requires
        idx != other,
    ensures
        peers.insert(idx, sender).contains_key(other) == peers.contains_key(other),
        peers.insert(idx, sender)[other] == peers[other],
        peers.remove(idx).contains_key(other) == peers.contains_key(other),
        peers.contains_key(other) ==> peers.remove(idx)[other] == peers[other],
{
}

/// Replies to a client that stays connected can be told apart: as long as none of them contains a
/// line feed, the text up to the first line feed is the first reply.
pub proof fn lemma_framed_replies(first: Seq<char>, second: Seq<char>)
    requires
        !first.contains('\n'),
        !second.contains('\n'),
    ensures
        ({
            let text = framed(first, false) + framed(second, false);
            &&& text[first.len() as int] == '\n'
            &&& forall|i: int| 0 <= i < first.len() ==> #[trigger] text[i] != '\n'
            &&& text.take(first.len() as int) == first
        }),
{
    reveal_strlit("\n");
    let text = framed(first, false) + framed(second, false);
    assert forall|i: int| 0 <= i < first.len() implies #[trigger] text[i] != '\n' by {
        assert(text[i] == first[i]);
        assert(first.contains(first[i]));
    }
    assert(text.take(first.len() as int) =~= first);
}

/// A transcript starts with the first reply.
proof fn lemma_transcript_first(replies: Seq<(Seq<char>, bool)>)
    requires
        replies.len() > 0,
    ensures
        transcript(replies) == framed(replies[0].0, replies[0].1) + transcript(replies.skip(1)),
    decreases replies.len(),
{
    let rest = replies.skip(1);
    if replies.len() == 1 {
        assert(replies.drop_last() =~= Seq::empty());
        assert(rest =~= Seq::empty());
        assert(transcript(replies) =~= framed(replies[0].0, replies[0].1) + transcript(rest));
    } else {
        lemma_transcript_first(replies.drop_last());
        assert(replies.drop_last().skip(1) =~= rest.drop_last());
        assert(transcript(replies) =~= framed(replies[0].0, replies[0].1) + transcript(rest));
    }
}

/// As long as a client waits for more, all replies are written to it.
pub proof fn lemma_all_written(replies: Seq<(Seq<char>, bool)>)
    requires
        forall|i: int| 0 <= i < replies.len() ==> !(#[trigger] replies[i]).1,
    ensures
        written(replies) == transcript(replies),
    decreases replies.len(),
{
    if replies.len() > 0 {
        lemma_transcript_first(replies);
        lemma_all_written(replies.skip(1));
    }
}

/// The first reply to a client that is waiting for nothing else is the last that is written to it:
/// it and all the replies before it are written, and nothing after it.
pub proof fn lemma_written_up_to_shutdown(replies: Seq<(Seq<char>, bool)>, last: int)
    requires
        0 <= last < replies.len(),
        replies[last].1,
        forall|i: int| 0 <= i < last ==> !(#[trigger] replies[i]).1,
    ensures
        written(replies) == transcript(replies.take(last + 1)),
    decreases replies.len(),
{
    let served = replies.take(last + 1);
    lemma_transcript_first(served);
    if last == 0 {
        assert(served.skip(1) =~= Seq::empty());
    } else {
        assert(!replies[0].1);
        let rest = replies.skip(1);
        assert forall|i: int| 0 <= i < last - 1 implies !(#[trigger] rest[i]).1 by {
            assert(rest[i] == replies[i + 1]);
        }
        lemma_written_up_to_shutdown(rest, last - 1);
        assert(served.skip(1) =~= rest.take(last));
    }
}

/// A reply to a client that waits for more is one line: the reply and a line feed. The reply to a
/// client that waits for nothing else is written as it is.
pub proof fn lemma_framing(reply: Seq<char>)
    ensures
        framed(reply, true) == reply,
        framed(reply, false) == reply.push('\n'),
{
    reveal_strlit("\n");
    assert(framed(reply, false) =~= reply.push('\n'));
}

} // verus!
