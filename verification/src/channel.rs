//! The channel on which fetched chunks are sent.

use crate::level::SyncChunk;
use tokio::sync::mpsc::UnboundedSender;
use vstd::prelude::*;

verus! {

/// `tokio::sync::mpsc::UnboundedSender`.
#[verifier::external_type_specification]
#[verifier::external_body]
#[verifier::reject_recursive_types(T)]
pub struct ExUnboundedSender<T>(tokio::sync::mpsc::UnboundedSender<T>);

/// The sending half of the channel on which fetched chunks are sent, each with the answer
/// whether it was generated anew.
pub struct ChunkSender {
    channel: UnboundedSender<(SyncChunk, bool)>,
    sent: Ghost<Seq<(SyncChunk, bool)>>,
    offered: Ghost<Seq<(SyncChunk, bool)>>,
}

impl View for ChunkSender {
    type V = Seq<(SyncChunk, bool)>;

    /// The messages that the channel has taken from this sender.
    closed spec fn view(&self) -> Seq<(SyncChunk, bool)> {
        self.sent@
    }
}

impl ChunkSender {
    /// The messages that have been handed to the channel, whether it took them or gave them
    /// back.
    pub closed spec fn offered(&self) -> Seq<(SyncChunk, bool)> {
        self.offered@
    }

    /// A sender that has handed nothing to the channel yet.
    pub fn new(channel: UnboundedSender<(SyncChunk, bool)>) -> (sender: ChunkSender)
        ensures
            sender@ == Seq::<(SyncChunk, bool)>::empty(),
            sender.offered() == Seq::<(SyncChunk, bool)>::empty(),
    {
        ChunkSender { channel, sent: Ghost(Seq::empty()), offered: Ghost(Seq::empty()) }
    }

    /// `UnboundedSender::send`: hands a message to the channel, once, and returns whether the
    /// channel took it. It does not if it is closed, which is up to the receiver, so that
    /// nothing is said of when it does. Nothing else changes what this sender has handed over.
    #[verifier::external_body]
    fn hand_over(&mut self, message: (SyncChunk, bool)) -> (is_ok: bool)
        ensures
            final(self).offered() == old(self).offered().push(message),
            final(self)@ == (if is_ok {
                old(self)@.push(message)
            } else {
                old(self)@
            }),
    {
        self.channel.send(message).is_ok()
    }

    /// Hands a chunk to the channel, once, and returns whether the channel took it. It does not
    /// if it is closed; the chunk has been handed to it all the same.
    pub fn send(&mut self, chunk: SyncChunk, is_new: bool) -> (is_ok: bool)
        ensures
            final(self).offered() == old(self).offered().push((chunk, is_new)),
            final(self)@ == if is_ok {
                old(self)@.push((chunk, is_new))
            } else {
                old(self)@
            },
    {
        self.hand_over((chunk, is_new))
    }
}

} // verus!
