//! The channel that feeds a WebSocket client, and the record of what was
//! offered on it; only an offer adds to that record.

use vstd::prelude::*;
use tokio::sync::broadcast::Sender;

verus! {

#[verifier::external_type_specification]
#[verifier::external_body]
#[verifier::reject_recursive_types(T)]
pub struct ExBroadcastSender<T>(Sender<T>);

/// The channel that feeds a client's socket, together with the record of
/// every text offered on it through this value and whether a receiver took
/// it, oldest first.
pub struct ClientChannel {
    tx: Sender<String>,
    offered: Ghost<Seq<Seq<char>>>,
    taken: Ghost<Seq<bool>>,
}

impl ClientChannel {
    /// The texts offered on the channel so far, oldest first.
    pub closed spec fn log(&self) -> Seq<Seq<char>> {
        self.offered@
    }

    /// For each offer so far, oldest first, whether some receiver was still
    /// subscribed to take it.
    pub closed spec fn outcomes(&self) -> Seq<bool> {
        self.taken@
    }

    /// The sending end of the channel.
    pub closed spec fn sender(&self) -> Sender<String> {
        self.tx
    }

    /// The channel after `text` is offered on it, with outcome `ok`.
    pub closed spec fn after_offer(&self, text: Seq<char>, ok: bool) -> ClientChannel {
        ClientChannel {
            tx: self.tx,
            offered: Ghost(self.offered@.push(text)),
            taken: Ghost(self.taken@.push(ok)),
        }
    }

    /// Offering a text adds it and its outcome to the record and keeps the
    /// channel.
    pub proof fn lemma_after_offer(&self, text: Seq<char>, ok: bool)
        ensures
            self.after_offer(text, ok).log() == self.log().push(text),
            self.after_offer(text, ok).outcomes() == self.outcomes().push(ok),
            self.after_offer(text, ok).sender() == self.sender(),
    {
    }

    /// A channel on which nothing was offered yet.
    pub fn new(tx: Sender<String>) -> (r: Self)
        ensures
            r.log() == Seq::<Seq<char>>::empty(),
            r.outcomes() == Seq::<bool>::empty(),
            r.sender() == tx,
    {
        ClientChannel { tx, offered: Ghost(Seq::empty()), taken: Ghost(Seq::empty()) }
    }

    /// `Sender::send` of tokio's broadcast channel: offers `text` to every
    /// receiver still subscribed, and answers whether there was one. The
    /// record gains `text` and that answer; the sending end stays the same.
    /// Whether a receiver listens is not stated: it depends on the receivers
    /// alive.
    #[verifier::external_body]
    pub(crate) fn offer(&mut self, text: String) -> (ok: bool)
        ensures
            *final(self) == old(self).after_offer(text@, ok),
    {
        self.tx.send(text).is_ok()
    }
}

} // verus!
