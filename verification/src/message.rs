use crate::errors::ErrorCode;
use crate::identity::{Identity, IDENTITY_LEN};
use vstd::prelude::*;

verus! {

/// Largest accepted payload, in bytes.
pub const MAX_CONTENT_LEN: usize = 500;

/// Mathematical model of a stored message record.
pub ghost struct MessageModel {
    pub sender: Seq<u8>,
    pub recipient: Seq<u8>,
    pub content: Seq<u8>,
    pub timestamp: int,
    pub nft_mint: Seq<u8>,
    pub bump: u8,
}

impl MessageModel {
    /// Well-formedness at the model level: 32-byte identities, a payload of
    /// 1 to 500 bytes, and a clock reading that fits a non-negative 64-bit
    /// signed integer.
    pub open spec fn wf(self) -> bool {
        &&& self.sender.len() == IDENTITY_LEN
        &&& self.recipient.len() == IDENTITY_LEN
        &&& self.nft_mint.len() == IDENTITY_LEN
        &&& 1 <= self.content.len() <= MAX_CONTENT_LEN
        &&& 0 <= self.timestamp <= i64::MAX
    }
}

/// The sole persisted entity: one message record, living at the address
/// derived from its (sender, recipient) pair.
pub struct Message {
    /// Creator and signer of the message.
    pub sender: Identity,
    /// Intended reader.
    pub recipient: Identity,
    /// UTF-8 payload of 1 to 500 bytes.
    pub content: Vec<u8>,
    /// Host clock reading, in seconds, at the moment of the send.
    pub timestamp: i64,
    /// Address of the companion token mint.
    pub nft_mint: Identity,
    /// Canonicalization nonce of the record's derived address.
    pub bump: u8,
}

impl View for Message {
    type V = MessageModel;

    open spec fn view(&self) -> MessageModel {
        MessageModel {
            sender: self.sender@,
            recipient: self.recipient@,
            content: self.content@,
            timestamp: self.timestamp as int,
            nft_mint: self.nft_mint@,
            bump: self.bump,
        }
    }
}

impl Message {
    pub open spec fn wf(self) -> bool {
        &&& self.sender.wf()
        &&& self.recipient.wf()
        &&& self.nft_mint.wf()
        &&& 1 <= self.content@.len() <= MAX_CONTENT_LEN
        &&& 0 <= self.timestamp
    }
}

/// What content validation returns for a payload: the length checks of the
/// send operation, too long before empty.
pub open spec fn spec_validate_content(c: Seq<u8>) -> Result<(), ErrorCode> {
    if c.len() > MAX_CONTENT_LEN {
        Err(ErrorCode::MessageTooLong)
    } else if c.len() == 0 {
        Err(ErrorCode::EmptyMessage)
    } else {
        Ok(())
    }
}

/// Checks a payload against the content rules: at most 500 bytes, not empty.
pub fn validate_content(content: &Vec<u8>) -> (r: Result<(), ErrorCode>)
    ensures
        r == spec_validate_content(content@),
{
    if content.len() > MAX_CONTENT_LEN {
        Err(ErrorCode::MessageTooLong)
    } else if content.len() == 0 {
        Err(ErrorCode::EmptyMessage)
    } else {
        Ok(())
    }
}

} // verus!
