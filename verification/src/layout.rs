use crate::identity::{Identity, IDENTITY_LEN};
use crate::message::{Message, MessageModel, MAX_CONTENT_LEN};
use vstd::prelude::*;

verus! {

/// Size in bytes of an encoded record: tag, sender, recipient, length prefix
/// with room for the largest payload, timestamp, mint address, bump. The size
/// is the same whatever the actual payload length.
pub const RECORD_LEN: usize = 8 + 32 + 32 + (4 + 500) + 8 + 32 + 1;

/// The eight-byte tag that opens every encoded record: the ASCII bytes of
/// "message" and one zero byte.
pub open spec fn record_tag() -> Seq<u8> {
    seq![109u8, 101u8, 115u8, 115u8, 97u8, 103u8, 101u8, 0u8]
}

/// Little-endian bytes of a 32-bit value.
pub open spec fn spec_u32_le(v: u32) -> Seq<u8> {
    seq![
        (v & 0xff) as u8,
        ((v >> 8) & 0xff) as u8,
        ((v >> 16) & 0xff) as u8,
        ((v >> 24) & 0xff) as u8,
    ]
}

/// The 32-bit value read from four little-endian bytes.
pub open spec fn spec_u32_from_le(b: Seq<u8>) -> u32
    recommends
        b.len() == 4,
{
    (b[0] as u32) | ((b[1] as u32) << 8) | ((b[2] as u32) << 16) | ((b[3] as u32) << 24)
}

/// Little-endian bytes of a 64-bit value.
pub open spec fn spec_u64_le(v: u64) -> Seq<u8> {
    seq![
        (v & 0xff) as u8,
        ((v >> 8) & 0xff) as u8,
        ((v >> 16) & 0xff) as u8,
        ((v >> 24) & 0xff) as u8,
        ((v >> 32) & 0xff) as u8,
        ((v >> 40) & 0xff) as u8,
        ((v >> 48) & 0xff) as u8,
        ((v >> 56) & 0xff) as u8,
    ]
}

/// The 64-bit value read from eight little-endian bytes.
pub open spec fn spec_u64_from_le(b: Seq<u8>) -> u64
    recommends
        b.len() == 8,
{
    (b[0] as u64) | ((b[1] as u64) << 8) | ((b[2] as u64) << 16) | ((b[3] as u64) << 24)
        | ((b[4] as u64) << 32) | ((b[5] as u64) << 40) | ((b[6] as u64) << 48)
        | ((b[7] as u64) << 56)
}

/// The bytes a record is persisted as: tag, sender, recipient, the payload
/// length as four little-endian bytes, the payload, the timestamp as eight
/// little-endian bytes, the mint address, the bump, and zero padding up to
/// the fixed record size.
pub open spec fn spec_encode(m: MessageModel) -> Seq<u8> {
    record_tag() + m.sender + m.recipient + spec_u32_le(m.content.len() as u32) + m.content
        + spec_u64_le(m.timestamp as u64) + m.nft_mint + seq![m.bump]
        + Seq::new((MAX_CONTENT_LEN - m.content.len()) as nat, |i: int| 0u8)
}

/// The record read back from a persisted buffer, if the buffer is a valid
/// encoding: the fixed size, the opening tag, a payload length of 1 to 500,
/// and a timestamp that fits a non-negative 64-bit signed integer.
pub open spec fn spec_decode(b: Seq<u8>) -> Option<MessageModel> {
    if b.len() != RECORD_LEN {
        None
    } else if b.subrange(0, 8) != record_tag() {
        None
    } else {
        let n = spec_u32_from_le(b.subrange(72, 76)) as int;
        if n < 1 || n > MAX_CONTENT_LEN {
            None
        } else {
            let v = spec_u64_from_le(b.subrange(76 + n, 84 + n));
            if v > i64::MAX as u64 {
                None
            } else {
                Some(
                    MessageModel {
                        sender: b.subrange(8, 40),
                        recipient: b.subrange(40, 72),
                        content: b.subrange(76, 76 + n),
                        timestamp: v as int,
                        nft_mint: b.subrange(84 + n, 116 + n),
                        bump: b[116 + n],
                    },
                )
            }
        }
    }
}

/// Reading back the four little-endian bytes of a 32-bit value gives the
/// value.
proof fn lemma_u32_le_roundtrip(v: u32)
    ensures
        spec_u32_from_le(spec_u32_le(v)) == v,
{
    assert(((v & 0xff) as u8 as u32) | (((v >> 8) & 0xff) as u8 as u32) << 8
        | (((v >> 16) & 0xff) as u8 as u32) << 16 | (((v >> 24) & 0xff) as u8 as u32) << 24
        == v) by (bit_vector);
}

/// Reading back the eight little-endian bytes of a 64-bit value gives the
/// value.
proof fn lemma_u64_le_roundtrip(v: u64)
    ensures
        spec_u64_from_le(spec_u64_le(v)) == v,
{
    assert(((v & 0xff) as u8 as u64) | (((v >> 8) & 0xff) as u8 as u64) << 8
        | (((v >> 16) & 0xff) as u8 as u64) << 16 | (((v >> 24) & 0xff) as u8 as u64) << 24
        | (((v >> 32) & 0xff) as u8 as u64) << 32 | (((v >> 40) & 0xff) as u8 as u64) << 40
        | (((v >> 48) & 0xff) as u8 as u64) << 48 | (((v >> 56) & 0xff) as u8 as u64) << 56
        == v) by (bit_vector);
}

/// Law: decoding inverts encoding — every well-formed record read back from
/// its own persisted bytes is unchanged, the stored payload in particular.
pub proof fn lemma_encode_decode(m: MessageModel)
    requires
        m.wf(),
    ensures
        spec_decode(spec_encode(m)) == Some(m),
{
    let e = spec_encode(m);
    let n = m.content.len() as int;
    assert(e.len() == RECORD_LEN);
    assert(e.subrange(0, 8) =~= record_tag());
    assert(e.subrange(8, 40) =~= m.sender);
    assert(e.subrange(40, 72) =~= m.recipient);
    assert(e.subrange(72, 76) =~= spec_u32_le(m.content.len() as u32));
    lemma_u32_le_roundtrip(m.content.len() as u32);
    assert(spec_u32_from_le(e.subrange(72, 76)) as int == n);
    assert(e.subrange(76, 76 + n) =~= m.content);
    assert(e.subrange(76 + n, 84 + n) =~= spec_u64_le(m.timestamp as u64));
    lemma_u64_le_roundtrip(m.timestamp as u64);
    assert(spec_u64_from_le(e.subrange(76 + n, 84 + n)) == m.timestamp as u64);
    assert(m.timestamp as u64 <= i64::MAX as u64);
    assert((m.timestamp as u64) as int == m.timestamp);
    assert(e.subrange(84 + n, 116 + n) =~= m.nft_mint);
    assert(e[116 + n] == m.bump);
}

/// Appends an identity's 32 bytes.
fn push_identity(out: &mut Vec<u8>, id: &Identity)
    requires
        id.wf(),
    ensures
        final(out)@ == old(out)@ + id@,
{
    let mut i: usize = 0;
    while i < IDENTITY_LEN
        invariant
            id.wf(),
            i <= IDENTITY_LEN,
            out@ == old(out)@ + id@.subrange(0, i as int),
        decreases IDENTITY_LEN - i,
    {
        out.push(id.byte_at(i));
        proof {
            assert(out@ =~= old(out)@ + id@.subrange(0, i + 1));
        }
        i += 1;
    }
    proof {
        assert(id@.subrange(0, IDENTITY_LEN as int) =~= id@);
    }
}

/// Reads 32 bytes at an offset as an identity.
fn read_identity(b: &Vec<u8>, off: usize) -> (r: Identity)
    requires
        off + IDENTITY_LEN <= b@.len(),
    ensures
        r.wf(),
        r@ == b@.subrange(off as int, off + IDENTITY_LEN),
{
    let blen: usize = b.len();
    let mut bytes: Vec<u8> = Vec::new();
    let mut i: usize = 0;
    while i < IDENTITY_LEN
        invariant
            blen == b@.len(),
            off + IDENTITY_LEN <= blen,
            i <= IDENTITY_LEN,
            bytes@ == b@.subrange(off as int, off + i),
        decreases IDENTITY_LEN - i,
    {
        bytes.push(b[off + i]);
        proof {
            assert(bytes@ =~= b@.subrange(off as int, off + i + 1));
        }
        i += 1;
    }
    let r = Identity::from_bytes(bytes);
    match r {
        Some(id) => id,
        None => unreached(),
    }
}

/// Persists a record as its fixed-size byte layout.
pub fn encode_record(m: &Message) -> (out: Vec<u8>)
    requires
        m.wf(),
    ensures
        out@ == spec_encode(m@),
        out@.len() == RECORD_LEN,
{
    let mut out: Vec<u8> = Vec::new();
    out.push(109);
    out.push(101);
    out.push(115);
    out.push(115);
    out.push(97);
    out.push(103);
    out.push(101);
    out.push(0);
    proof {
        assert(out@ =~= record_tag());
    }
    push_identity(&mut out, &m.sender);
    push_identity(&mut out, &m.recipient);
    let n: u32 = m.content.len() as u32;
    out.push((n & 0xff) as u8);
    out.push(((n >> 8) & 0xff) as u8);
    out.push(((n >> 16) & 0xff) as u8);
    out.push(((n >> 24) & 0xff) as u8);
    let ghost head = record_tag() + m.sender@ + m.recipient@ + spec_u32_le(n);
    proof {
        assert(out@ =~= head);
    }
    let mut i: usize = 0;
    while i < m.content.len()
        invariant
            m.wf(),
            i <= m.content@.len(),
            out@ == head + m.content@.subrange(0, i as int),
        decreases m.content@.len() - i,
    {
        out.push(m.content[i]);
        proof {
            assert(out@ =~= head + m.content@.subrange(0, i + 1));
        }
        i += 1;
    }
    proof {
        assert(m.content@.subrange(0, m.content@.len() as int) =~= m.content@);
    }
    let t: u64 = m.timestamp as u64;
    out.push((t & 0xff) as u8);
    out.push(((t >> 8) & 0xff) as u8);
    out.push(((t >> 16) & 0xff) as u8);
    out.push(((t >> 24) & 0xff) as u8);
    out.push(((t >> 32) & 0xff) as u8);
    out.push(((t >> 40) & 0xff) as u8);
    out.push(((t >> 48) & 0xff) as u8);
    out.push(((t >> 56) & 0xff) as u8);
    proof {
        assert(out@ =~= head + m.content@ + spec_u64_le(t));
    }
    push_identity(&mut out, &m.nft_mint);
    out.push(m.bump);
    let ghost body = head + m.content@ + spec_u64_le(t) + m.nft_mint@ + seq![m.bump];
    proof {
        assert(out@ =~= body);
        assert(out@ =~= body + Seq::new((out@.len() - body.len()) as nat, |j: int| 0u8));
    }
    while out.len() < RECORD_LEN
        invariant
            body.len() <= out@.len() <= RECORD_LEN,
            body.len() == 117 + m.content@.len(),
            m.content@.len() <= MAX_CONTENT_LEN,
            out@ == body + Seq::new((out@.len() - body.len()) as nat, |j: int| 0u8),
        decreases RECORD_LEN - out@.len(),
    {
        out.push(0);
        proof {
            assert(out@ =~= body + Seq::new((out@.len() - body.len()) as nat, |j: int| 0u8));
        }
    }
    proof {
        assert(out@ =~= spec_encode(m@));
    }
    out
}

/// Reads a persisted buffer back as a record, refusing every buffer that is
/// not a valid encoding.
pub fn decode_record(b: &Vec<u8>) -> (r: Option<Message>)
    ensures
        match r {
            Some(m) => m.wf() && spec_decode(b@) == Some(m@),
            None => spec_decode(b@) is None,
        },
{
    if b.len() != RECORD_LEN {
        return None;
    }
    if b[0] != 109 || b[1] != 101 || b[2] != 115 || b[3] != 115 || b[4] != 97 || b[5] != 103
        || b[6] != 101 || b[7] != 0 {
        proof {
            assert(b@.subrange(0, 8)[0] == b@[0]);
            assert(b@.subrange(0, 8)[1] == b@[1]);
            assert(b@.subrange(0, 8)[2] == b@[2]);
            assert(b@.subrange(0, 8)[3] == b@[3]);
            assert(b@.subrange(0, 8)[4] == b@[4]);
            assert(b@.subrange(0, 8)[5] == b@[5]);
            assert(b@.subrange(0, 8)[6] == b@[6]);
            assert(b@.subrange(0, 8)[7] == b@[7]);
        }
        return None;
    }
    proof {
        assert(b@.subrange(0, 8) =~= record_tag());
    }
    let n32: u32 = (b[72] as u32) | ((b[73] as u32) << 8) | ((b[74] as u32) << 16)
        | ((b[75] as u32) << 24);
    proof {
        assert(b@.subrange(72, 76)[0] == b@[72]);
        assert(b@.subrange(72, 76)[1] == b@[73]);
        assert(b@.subrange(72, 76)[2] == b@[74]);
        assert(b@.subrange(72, 76)[3] == b@[75]);
    }
    assert(n32 == spec_u32_from_le(b@.subrange(72, 76)));
    if n32 < 1 || n32 > 500 {
        return None;
    }
    let n: usize = n32 as usize;
    let sender = read_identity(b, 8);
    let recipient = read_identity(b, 40);
    let mut content: Vec<u8> = Vec::new();
    let mut i: usize = 0;
    while i < n
        invariant
            n32 == n,
            1 <= n <= MAX_CONTENT_LEN,
            b@.len() == RECORD_LEN,
            i <= n,
            content@ == b@.subrange(76, 76 + i),
        decreases n - i,
    {
        content.push(b[76 + i]);
        proof {
            assert(content@ =~= b@.subrange(76, 76 + i + 1));
        }
        i += 1;
    }
    let off: usize = 76 + n;
    let v: u64 = (b[off] as u64) | ((b[off + 1] as u64) << 8) | ((b[off + 2] as u64) << 16)
        | ((b[off + 3] as u64) << 24) | ((b[off + 4] as u64) << 32) | ((b[off + 5] as u64) << 40)
        | ((b[off + 6] as u64) << 48) | ((b[off + 7] as u64) << 56);
    proof {
        assert(b@.subrange(off as int, off + 8)[0] == b@[off as int]);
        assert(b@.subrange(off as int, off + 8)[1] == b@[off + 1]);
        assert(b@.subrange(off as int, off + 8)[2] == b@[off + 2]);
        assert(b@.subrange(off as int, off + 8)[3] == b@[off + 3]);
        assert(b@.subrange(off as int, off + 8)[4] == b@[off + 4]);
        assert(b@.subrange(off as int, off + 8)[5] == b@[off + 5]);
        assert(b@.subrange(off as int, off + 8)[6] == b@[off + 6]);
        assert(b@.subrange(off as int, off + 8)[7] == b@[off + 7]);
    }
    assert(v == spec_u64_from_le(b@.subrange(off as int, off + 8)));
    if v > 0x7fff_ffff_ffff_ffff {
        return None;
    }
    let timestamp: i64 = v as i64;
    let nft_mint = read_identity(b, off + 8);
    let bump: u8 = b[off + 40];
    let m = Message { sender, recipient, content, timestamp, nft_mint, bump };
    proof {
        assert(m@.content =~= b@.subrange(76, 76 + n as int));
    }
    Some(m)
}

} // verus!
