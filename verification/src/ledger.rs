use crate::errors::{ErrorCode, InstructionError};
use crate::identity::Identity;
use crate::message::{Message, MessageModel, MAX_CONTENT_LEN};
use vstd::prelude::*;

verus! {

/// Whether a record model is the one stored for the (sender, recipient) key.
pub open spec fn is_pair(m: MessageModel, sender: Seq<u8>, recipient: Seq<u8>) -> bool {
    m.sender == sender && m.recipient == recipient
}

/// The inputs that the host hands the send operation besides the payload and
/// the recipient: the signing sender, the address of the freshly created
/// token mint, the canonicalization nonce of the record's derived address,
/// and the host clock reading.
pub struct SendMessage {
    pub sender: Identity,
    pub nft_mint: Identity,
    pub bump: u8,
    pub timestamp: i64,
}

impl SendMessage {
    pub open spec fn wf(self) -> bool {
        &&& self.sender.wf()
        &&& self.nft_mint.wf()
        &&& 0 <= self.timestamp
    }
}

/// The inputs of the receive operation: the (sender, recipient) pair that
/// derives the record's address, and the signing caller who claims to be the
/// recipient.
pub struct ReceiveMessage {
    pub message_sender: Identity,
    pub message_recipient: Identity,
    pub recipient: Identity,
}

/// The program's persistent state as the host ledger keeps it: at most one
/// live message record per (sender, recipient) pair, each record stored at
/// the address derived from its own pair.
pub struct Ledger {
    records: Vec<Message>,
}

impl View for Ledger {
    type V = Seq<Message>;

    closed spec fn view(&self) -> Seq<Message> {
        self.records@
    }
}

impl Ledger {
    /// Every record is well formed and no two records share a
    /// (sender, recipient) pair — the guarantee the derived address gives.
    pub open spec fn wf(self) -> bool {
        &&& forall|i: int| 0 <= i < self@.len() ==> (#[trigger] self@[i]).wf()
        &&& forall|i: int, j: int|
            #![trigger self@[i], self@[j]]
            0 <= i < self@.len() && 0 <= j < self@.len() && i != j
                ==> !(self@[i]@.sender == self@[j]@.sender
                    && self@[i]@.recipient == self@[j]@.recipient)
    }

    /// Whether a record lives at the address derived from the pair.
    pub open spec fn has_record(self, sender: Seq<u8>, recipient: Seq<u8>) -> bool {
        exists|i: int|
            0 <= i < self@.len() && #[trigger] is_pair(self@[i]@, sender, recipient)
    }

    /// Index of the record stored for the pair (meaningful when `has_record`).
    pub open spec fn record_index(self, sender: Seq<u8>, recipient: Seq<u8>) -> int {
        choose|i: int|
            0 <= i < self@.len() && #[trigger] is_pair(self@[i]@, sender, recipient)
    }

    /// The record stored for the pair (meaningful when `has_record`).
    pub open spec fn stored(self, sender: Seq<u8>, recipient: Seq<u8>) -> MessageModel {
        self@[self.record_index(sender, recipient)]@
    }

    /// What the send operation returns: the host refuses an occupied derived
    /// address before the program body runs; the body then checks the payload,
    /// too long before empty; every other case succeeds.
    pub open spec fn send_outcome(
        pre: Ledger,
        sender: Seq<u8>,
        recipient: Seq<u8>,
        content: Seq<u8>,
    ) -> Result<(), InstructionError> {
        if pre.has_record(sender, recipient) {
            Err(InstructionError::AccountAlreadyExists)
        } else if content.len() > MAX_CONTENT_LEN {
            Err(InstructionError::Program(ErrorCode::MessageTooLong))
        } else if content.len() == 0 {
            Err(InstructionError::Program(ErrorCode::EmptyMessage))
        } else {
            Ok(())
        }
    }

    /// What the receive operation returns: the host finds no account at an
    /// unoccupied derived address; the program then admits exactly the stored
    /// recipient.
    pub open spec fn receive_outcome(
        pre: Ledger,
        message_sender: Seq<u8>,
        message_recipient: Seq<u8>,
        caller: Seq<u8>,
    ) -> Result<(), InstructionError> {
        if !pre.has_record(message_sender, message_recipient) {
            Err(InstructionError::AccountNotFound)
        } else if pre.stored(message_sender, message_recipient).recipient != caller {
            Err(InstructionError::Program(ErrorCode::UnauthorizedRecipient))
        } else {
            Ok(())
        }
    }

    /// A ledger with no records.
    pub fn new() -> (r: Ledger)
        ensures
            r.wf(),
            forall|s: Seq<u8>, t: Seq<u8>| !(#[trigger] r.has_record(s, t)),
    {
        Ledger { records: Vec::new() }
    }

    /// Linear scan for the record of a pair.
    fn find(&self, sender: &Identity, recipient: &Identity) -> (r: Option<usize>)
        ensures
            match r {
                Some(i) => i < self@.len()
                    && is_pair(self@[i as int]@, sender@, recipient@),
                None => !self.has_record(sender@, recipient@),
            },
    {
        let mut i: usize = 0;
        while i < self.records.len()
            invariant
                i <= self@.len(),
                forall|j: int| 0 <= j < i ==> !is_pair(#[trigger] self@[j]@, sender@, recipient@),
            decreases self@.len() - i,
        {
            let m = &self.records[i];
            if m.sender.eq_id(sender) && m.recipient.eq_id(recipient) {
                return Some(i);
            }
            i += 1;
        }
        None
    }

    /// Creates the message record for (sender of `ctx`, `recipient`): refused
    /// when the derived address is occupied, when the payload exceeds 500
    /// bytes, and when it is empty; otherwise the record stores the payload,
    /// both identities, the mint address, the clock reading and the bump.
    pub fn send_message(
        &mut self,
        ctx: SendMessage,
        message_content: Vec<u8>,
        recipient: Identity,
    ) -> (r: Result<(), InstructionError>)
        requires
            old(self).wf(),
            ctx.wf(),
            recipient.wf(),
        ensures
            final(self).wf(),
            r == Ledger::send_outcome(*old(self), ctx.sender@, recipient@, message_content@),
            r is Ok ==> final(self).has_record(ctx.sender@, recipient@)
                && final(self).stored(ctx.sender@, recipient@) == (MessageModel {
                    sender: ctx.sender@,
                    recipient: recipient@,
                    content: message_content@,
                    timestamp: ctx.timestamp as int,
                    nft_mint: ctx.nft_mint@,
                    bump: ctx.bump,
                }),
            forall|s: Seq<u8>, t: Seq<u8>|
                !(s == ctx.sender@ && t == recipient@)
                    ==> #[trigger] final(self).has_record(s, t) == old(self).has_record(s, t),
            forall|s: Seq<u8>, t: Seq<u8>|
                old(self).has_record(s, t) && !(s == ctx.sender@ && t == recipient@)
                    ==> #[trigger] final(self).stored(s, t) == old(self).stored(s, t),
            !(r is Ok) ==> *final(self) == *old(self),
    {
        match self.find(&ctx.sender, &recipient) {
            Some(_) => Err(InstructionError::AccountAlreadyExists),
            None => {
                if message_content.len() > MAX_CONTENT_LEN {
                    return Err(InstructionError::Program(ErrorCode::MessageTooLong));
                }
                if message_content.len() == 0 {
                    return Err(InstructionError::Program(ErrorCode::EmptyMessage));
                }
                let msg = Message {
                    sender: ctx.sender,
                    recipient,
                    content: message_content,
                    timestamp: ctx.timestamp,
                    nft_mint: ctx.nft_mint,
                    bump: ctx.bump,
                };
                let ghost pre = *self;
                let ghost gm = msg@;
                self.records.push(msg);
                proof {
                    self.lemma_after_insert(pre, gm);
                }
                Ok(())
            },
        }
    }

    /// After pushing a record for a fresh pair onto a well-formed ledger, the
    /// ledger is well formed again, the new pair is stored with exactly the
    /// pushed record, and every other pair is untouched.
    proof fn lemma_after_insert(self, pre: Ledger, m: MessageModel)
        requires
            pre.wf(),
            !pre.has_record(m.sender, m.recipient),
            self@.len() == pre@.len() + 1,
            self@ == pre@.push(self@[pre@.len() as int]),
            self@[pre@.len() as int]@ == m,
            self@[pre@.len() as int].wf(),
        ensures
            self.wf(),
            self.has_record(m.sender, m.recipient),
            self.stored(m.sender, m.recipient) == m,
            forall|s: Seq<u8>, t: Seq<u8>|
                !(s == m.sender && t == m.recipient)
                    ==> #[trigger] self.has_record(s, t) == pre.has_record(s, t),
            forall|s: Seq<u8>, t: Seq<u8>|
                pre.has_record(s, t) && !(s == m.sender && t == m.recipient)
                    ==> #[trigger] self.stored(s, t) == pre.stored(s, t),
    {
        let n = pre@.len() as int;
        assert forall|i: int| 0 <= i < self@.len() implies (#[trigger] self@[i]).wf() by {
            if i < n {
                assert(self@[i] == pre@[i]);
                assert(pre@[i].wf());
            }
        }
        assert forall|i: int, j: int|
            #![trigger self@[i], self@[j]]
            0 <= i < self@.len() && 0 <= j < self@.len() && i != j implies
            !(self@[i]@.sender == self@[j]@.sender
                && self@[i]@.recipient == self@[j]@.recipient) by {
            if i < n && j < n {
                assert(self@[i] == pre@[i]);
                assert(self@[j] == pre@[j]);
            } else if i < n && j == n {
                assert(self@[i] == pre@[i]);
                if self@[i]@.sender == m.sender && self@[i]@.recipient == m.recipient {
                    assert(is_pair(pre@[i]@, m.sender, m.recipient));
                    assert(pre.has_record(m.sender, m.recipient));
                }
            } else if i == n && j < n {
                assert(self@[j] == pre@[j]);
                if self@[j]@.sender == m.sender && self@[j]@.recipient == m.recipient {
                    assert(is_pair(pre@[j]@, m.sender, m.recipient));
                    assert(pre.has_record(m.sender, m.recipient));
                }
            }
        }
        assert(is_pair(self@[n]@, m.sender, m.recipient));
        assert(self.has_record(m.sender, m.recipient));
        self.lemma_found_index(m.sender, m.recipient, n);
        assert forall|s: Seq<u8>, t: Seq<u8>|
            !(s == m.sender && t == m.recipient) implies
            #[trigger] self.has_record(s, t) == pre.has_record(s, t) by {
            if self.has_record(s, t) {
                let i = choose|i: int|
                    0 <= i < self@.len() && #[trigger] is_pair(self@[i]@, s, t);
                assert(i != n);
                assert(self@[i] == pre@[i]);
                assert(is_pair(pre@[i]@, s, t));
                assert(pre.has_record(s, t));
            }
            if pre.has_record(s, t) {
                let i = choose|i: int|
                    0 <= i < pre@.len() && #[trigger] is_pair(pre@[i]@, s, t);
                assert(self@[i] == pre@[i]);
                assert(is_pair(self@[i]@, s, t));
                assert(self.has_record(s, t));
            }
        }
        assert forall|s: Seq<u8>, t: Seq<u8>|
            pre.has_record(s, t) && !(s == m.sender && t == m.recipient) implies
            #[trigger] self.stored(s, t) == pre.stored(s, t) by {
            let i = choose|i: int|
                0 <= i < pre@.len() && #[trigger] is_pair(pre@[i]@, s, t);
            assert(self@[i] == pre@[i]);
            assert(is_pair(self@[i]@, s, t));
            self.lemma_found_index(s, t, i);
            pre.lemma_found_index(s, t, i);
        }
    }

    /// In a well-formed ledger, a record matching a pair at index `k` is the
    /// record stored for that pair.
    proof fn lemma_found_index(self, sender: Seq<u8>, recipient: Seq<u8>, k: int)
        requires
            self.wf(),
            0 <= k < self@.len(),
            is_pair(self@[k]@, sender, recipient),
        ensures
            self.has_record(sender, recipient),
            self.record_index(sender, recipient) == k,
            self.stored(sender, recipient) == self@[k]@,
    {
        assert(self.has_record(sender, recipient));
        let i = self.record_index(sender, recipient);
        assert(0 <= i < self@.len() && is_pair(self@[i]@, sender, recipient));
        if i != k {
            assert(self@[i]@.sender == self@[k]@.sender
                && self@[i]@.recipient == self@[k]@.recipient);
            assert(false);
        }
    }

    /// Loads the record at the address derived from the pair in `ctx` and
    /// admits the caller exactly when it is the stored recipient; any other
    /// caller is refused, and a missing record is the host's account-not-found
    /// failure.
    pub fn receive_message(&self, ctx: ReceiveMessage) -> (r: Result<(), InstructionError>)
        requires
            self.wf(),
        ensures
            r == Ledger::receive_outcome(
                *self,
                ctx.message_sender@,
                ctx.message_recipient@,
                ctx.recipient@,
            ),
    {
        match self.find(&ctx.message_sender, &ctx.message_recipient) {
            None => Err(InstructionError::AccountNotFound),
            Some(i) => {
                proof {
                    self.lemma_found_index(ctx.message_sender@, ctx.message_recipient@, i as int);
                }
                let m = &self.records[i];
                if m.recipient.eq_id(&ctx.recipient) {
                    Ok(())
                } else {
                    Err(InstructionError::Program(ErrorCode::UnauthorizedRecipient))
                }
            },
        }
    }

    /// Reads the record stored for a pair, if any.
    pub fn get_record(&self, sender: &Identity, recipient: &Identity) -> (r: Option<&Message>)
        requires
            self.wf(),
        ensures
            match r {
                Some(m) => self.has_record(sender@, recipient@)
                    && m@ == self.stored(sender@, recipient@)
                    && m.wf(),
                None => !self.has_record(sender@, recipient@),
            },
    {
        match self.find(sender, recipient) {
            None => None,
            Some(i) => {
                proof {
                    self.lemma_found_index(sender@, recipient@, i as int);
                }
                Some(&self.records[i])
            },
        }
    }

    /// Number of live records.
    pub fn record_count(&self) -> (n: usize)
        ensures
            n == self@.len(),
    {
        self.records.len()
    }
}

/// Law: a pair that already holds a record admits no further send; the host
/// refuses the occupied derived address whatever the new payload is.
pub proof fn lemma_duplicate_send_fails(
    l: Ledger,
    sender: Seq<u8>,
    recipient: Seq<u8>,
    content: Seq<u8>,
)
    requires
        l.has_record(sender, recipient),
    ensures
        Ledger::send_outcome(l, sender, recipient, content)
            == Err::<(), InstructionError>(InstructionError::AccountAlreadyExists),
{
}

/// Law: on an unoccupied pair, send succeeds exactly for payloads of 1 to 500
/// bytes; an oversized payload is refused as too long and an empty one as
/// empty.
pub proof fn lemma_send_acceptance(l: Ledger, sender: Seq<u8>, recipient: Seq<u8>, content: Seq<u8>)
    requires
        !l.has_record(sender, recipient),
    ensures
        (Ledger::send_outcome(l, sender, recipient, content) is Ok)
            <==> 1 <= content.len() <= MAX_CONTENT_LEN,
        content.len() > MAX_CONTENT_LEN
            ==> Ledger::send_outcome(l, sender, recipient, content)
                == Err::<(), InstructionError>(InstructionError::Program(ErrorCode::MessageTooLong)),
        content.len() == 0
            ==> Ledger::send_outcome(l, sender, recipient, content)
                == Err::<(), InstructionError>(InstructionError::Program(ErrorCode::EmptyMessage)),
{
}

/// Law: in a well-formed ledger the record stored for a pair carries that very
/// pair as its sender and recipient fields.
pub proof fn lemma_record_keys(l: Ledger, sender: Seq<u8>, recipient: Seq<u8>)
    requires
        l.wf(),
        l.has_record(sender, recipient),
    ensures
        l.stored(sender, recipient).sender == sender,
        l.stored(sender, recipient).recipient == recipient,
{
    let i = l.record_index(sender, recipient);
    assert(0 <= i < l@.len() && is_pair(l@[i]@, sender, recipient));
}

/// Law: receive succeeds exactly when the caller is the stored recipient; in
/// particular, once a record exists for a pair, the named recipient is
/// admitted and every other caller is refused as unauthorized.
pub proof fn lemma_receive_authorization(
    l: Ledger,
    sender: Seq<u8>,
    recipient: Seq<u8>,
    caller: Seq<u8>,
)
    requires
        l.wf(),
        l.has_record(sender, recipient),
    ensures
        (Ledger::receive_outcome(l, sender, recipient, caller) is Ok) <==> caller == recipient,
        caller != recipient
            ==> Ledger::receive_outcome(l, sender, recipient, caller)
                == Err::<(), InstructionError>(
                InstructionError::Program(ErrorCode::UnauthorizedRecipient),
            ),
{
    lemma_record_keys(l, sender, recipient);
}

} // verus!
