//! How keys, counters and packet numbers of the packet ciphers hang together.

use vstd::prelude::*;

use super::srtp::{
    advanced, aes_ctr, counter_block, guessed_roc, header_len, kdf_iv, keystream, salt_number,
    srtcp_iv, srtp_iv, state_of, SrtcpKeys, SrtpSession, SsrcState,
};
use crate::crypto::aes256_enciphered;
use crate::messages::short_at;
use crate::wire::{be_bytes, be_nat, lemma_be_nat_bound, u16_of};

verus! {

/// A number in as many bytes as it was read from gives the bytes back.
proof fn lemma_bytes_of_number(s: Seq<u8>)
    ensures
        be_bytes(be_nat(s), s.len()) == s,
    decreases s.len(),
{
    if s.len() == 0 {
        assert(be_bytes(0, 0) =~= s);
    } else {
        lemma_bytes_of_number(s.drop_last());
        let (v, b) = (be_nat(s.drop_last()), s.last());
        assert((v * 256 + b) / 256 == v && (v * 256 + b) % 256 == b);
        assert(be_bytes(be_nat(s), s.len()) =~= s.drop_last().push(b));
        assert(s.drop_last().push(b) =~= s);
    }
}

/// Counter mode works block by block: block `j` of the data is combined with the
/// encipherment of the block whose number lies `j` behind that of the initial
/// counter, modulo 2 to the 128th.
pub proof fn lemma_counter_mode_by_blocks(
    key: Seq<u8>,
    iv: Seq<u8>,
    data: Seq<u8>,
    block: Seq<u8>,
    j: nat,
    i: int,
)
    requires
        block.len() == 16,
        be_nat(block) == (be_nat(iv) + j) % 0x1_0000_0000_0000_0000_0000_0000_0000_0000nat,
        0 <= i < 16,
        16 * j + i < data.len(),
    ensures
        aes_ctr(key, iv, data).len() == data.len(),
        aes_ctr(key, iv, data)[16 * j + i] == data[16 * j + i] ^ aes256_enciphered(key, block)[i],
{
    lemma_bytes_of_number(block);
    assert(counter_block(iv, j) == block);
    assert((16 * j + i) / 16 == j && (16 * j + i) % 16 == i);
}

/// The session keys of a master key blob are key streams under its first 32
/// bytes. Their counters start with the other 14 bytes and two zeros; a label in
/// the eighth byte tells the cipher key, the authentication key and the salt
/// apart, and those for feedback from those for media.
pub proof fn lemma_session_keys(blob: Seq<u8>, keys: SrtcpKeys)
    requires
        blob.len() == 46,
        keys.of_blob(blob),
    ensures
        ({
            let master = blob.subrange(0, 32);
            let start = blob.subrange(32, 46) + seq![0u8, 0u8];
            let media = SrtpSession::of_blob(blob);
            &&& media.cipher_key == keystream(master, start.update(7, start[7] ^ 0), 32)
            &&& media.auth_key == keystream(master, start.update(7, start[7] ^ 1), 20)
            &&& media.salt_int == salt_number(
                keystream(master, start.update(7, start[7] ^ 2), 14),
            )
            &&& media.states.dom().is_empty()
            &&& keys.cipher_key@ == keystream(master, start.update(7, start[7] ^ 3), 32)
            &&& keys.auth_key@ == keystream(master, start.update(7, start[7] ^ 4), 20)
            &&& keys.salt@ == keystream(master, start.update(7, start[7] ^ 5), 14)
        }),
{
    let salt = blob.subrange(32, 46);
    let start = salt + seq![0u8, 0u8];
    assert(kdf_iv(salt, 0) =~= start.update(7, start[7] ^ 0));
    assert(kdf_iv(salt, 1) =~= start.update(7, start[7] ^ 1));
    assert(kdf_iv(salt, 2) =~= start.update(7, start[7] ^ 2));
    assert(kdf_iv(salt, 3) =~= start.update(7, start[7] ^ 3));
    assert(kdf_iv(salt, 4) =~= start.update(7, start[7] ^ 4));
    assert(kdf_iv(salt, 5) =~= start.update(7, start[7] ^ 5));
    assert(SrtpSession::of_blob(blob).states.dom() =~= Set::empty());
}

/// Byte `i` of a number of `n` bytes.
#[verifier::spinoff_prover]
proof fn lemma_byte_of_number(v: u128, n: nat, i: int)
    requires
        0 <= i < n <= 16,
    ensures
        be_bytes(v as nat, n).len() == n,
        be_bytes(v as nat, n)[i] == ((v >> ((8 * (n - 1 - i)) as u128)) & 0xff) as u8,
    decreases n,
{
    assert(v / 256 == v >> 8u128 && v % 256 == v & 0xff && v >> 0u128 == v) by (bit_vector);
    let next = v >> 8u128;
    crate::wire::lemma_be_bytes(v as nat, n);
    if i < n - 1 {
        lemma_byte_of_number(next, (n - 1) as nat, i);
        let s = (8 * (n - 2 - i)) as u128;
        let t = (8 * (n - 1 - i)) as u128;
        assert((v >> 8u128) >> s == v >> t) by (bit_vector)
            requires
                s <= 112,
                t == s + 8,
        ;
    }
}

/// What is combined with the salt to give the initial counter of one media
/// packet.
pub open spec fn packet_mark(ssrc: u32, roc: u32, seq: u16) -> Seq<u8> {
    seq![
        0u8,
        0u8,
        0u8,
        0u8,
        (ssrc / 0x100_0000) as u8,
        (ssrc / 0x1_0000 % 256) as u8,
        (ssrc / 256 % 256) as u8,
        (ssrc % 256) as u8,
        (roc / 0x100_0000) as u8,
        (roc / 0x1_0000 % 256) as u8,
        (roc / 256 % 256) as u8,
        (roc % 256) as u8,
        (seq / 256) as u8,
        (seq % 256) as u8,
        0u8,
        0u8,
    ]
}

#[verifier::spinoff_prover]
proof fn lemma_mark_number(ssrc: u32, roc: u32, seq: u16, i: int)
    requires
        0 <= i < 16,
    ensures
        ({
            let index = ((roc as u128) << 16) | (seq as u128);
            let m = ((ssrc as u128) << 64) ^ (index << 16);
            ((m >> ((8 * (15 - i)) as u128)) & 0xff) as u8 == packet_mark(ssrc, roc, seq)[i]
        }),
{
    let m = ((ssrc as u128) << 64) ^ ((((roc as u128) << 16) | (seq as u128)) << 16);
    assert((m >> 120) & 0xff == 0 && (m >> 112) & 0xff == 0 && (m >> 104) & 0xff == 0 && (m >> 96)
        & 0xff == 0 && (m >> 88) & 0xff == (ssrc / 0x100_0000u32) as u128 && (m >> 80) & 0xff == (
    ssrc / 0x1_0000u32 % 256) as u128 && (m >> 72) & 0xff == (ssrc / 256u32 % 256) as u128 && (m
        >> 64) & 0xff == (ssrc % 256u32) as u128) by (bit_vector)
        requires
            m == ((ssrc as u128) << 64) ^ ((((roc as u128) << 16) | (seq as u128)) << 16),
    ;
    assert((m >> 56) & 0xff == (roc / 0x100_0000u32) as u128 && (m >> 48) & 0xff == (roc
        / 0x1_0000u32 % 256) as u128 && (m >> 40) & 0xff == (roc / 256u32 % 256) as u128 && (m
        >> 32) & 0xff == (roc % 256u32) as u128 && (m >> 24) & 0xff == (seq / 256u16) as u128 && (m
        >> 16) & 0xff == (seq % 256u16) as u128 && (m >> 8) & 0xff == 0 && (m >> 0) & 0xff == 0)
        by (bit_vector)
        requires
            m == ((ssrc as u128) << 64) ^ ((((roc as u128) << 16) | (seq as u128)) << 16),
    ;
}

/// The initial counter of a media packet is the salt, combined with the source
/// in bytes 4 to 7, how often the numbers have wrapped in bytes 8 to 11, and the
/// sequence number in bytes 12 and 13, each with its high byte first.
#[verifier::spinoff_prover]
pub proof fn lemma_media_counter(salt: Seq<u8>, ssrc: u32, roc: u32, seq: u16, i: int)
    requires
        salt.len() == 14,
        0 <= i < 16,
    ensures
        srtp_iv(salt_number(salt), ssrc, roc, seq).len() == 16,
        srtp_iv(salt_number(salt), ssrc, roc, seq)[i] == (salt + seq![0u8, 0u8])[i] ^ packet_mark(
            ssrc,
            roc,
            seq,
        )[i],
{
    let padded = salt + seq![0u8, 0u8];
    lemma_be_nat_bound(padded);
    super::srtp::lemma_pow256_16();
    let a = salt_number(salt);
    assert(a as nat == be_nat(padded));
    lemma_bytes_of_number(padded);
    lemma_byte_of_number(a, 16, i);
    let index = ((roc as u128) << 16) | (seq as u128);
    let m = ((ssrc as u128) << 64) ^ (index << 16);
    let v = a ^ ((ssrc as u128) << 64) ^ (index << 16);
    lemma_mark_number(ssrc, roc, seq, i);
    lemma_byte_of_number(v, 16, i);
    let s = (8 * (15 - i)) as u128;
    let (x, y) = (((a >> s) & 0xff) as u8, ((m >> s) & 0xff) as u8);
    let (p, q) = ((ssrc as u128) << 64, index << 16);
    assert(((v >> s) & 0xff) as u8 == x ^ y) by (bit_vector)
        requires
            v == a ^ p ^ q,
            m == p ^ q,
            x == ((a >> s) & 0xff) as u8,
            y == ((m >> s) & 0xff) as u8,
            s <= 120,
    ;
}

/// The initial counter of a feedback packet is the salt, combined with the
/// sender in bytes 4 to 7 and the number of the packet in bytes 10 to 13.
pub proof fn lemma_feedback_counter(salt: Seq<u8>, ssrc: u32, index: u32)
    requires
        salt.len() == 14,
    ensures
        ({
            let iv = srtcp_iv(salt, ssrc, index);
            &&& iv.len() == 16
            &&& forall|i: int| 0 <= i < 4 ==> #[trigger] iv[i] == salt[i]
            &&& iv[4] == salt[4] ^ (ssrc / 0x100_0000) as u8
            &&& iv[5] == salt[5] ^ (ssrc / 0x1_0000 % 256) as u8
            &&& iv[6] == salt[6] ^ (ssrc / 256 % 256) as u8
            &&& iv[7] == salt[7] ^ (ssrc % 256) as u8
            &&& iv[8] == salt[8] && iv[9] == salt[9]
            &&& iv[10] == salt[10] ^ (index / 0x100_0000) as u8
            &&& iv[11] == salt[11] ^ (index / 0x1_0000 % 256) as u8
            &&& iv[12] == salt[12] ^ (index / 256 % 256) as u8
            &&& iv[13] == salt[13] ^ (index % 256) as u8
            &&& iv[14] == 0 && iv[15] == 0
        }),
{
}

/// The number of a packet, of which only the low sixteen bits are sent, is first
/// taken to be the one nearest to the highest number seen of its source.
pub proof fn lemma_nearest_number_is_tried_first(state: SsrcState, seq: u16)
    requires
        0 < state.roc < u32::MAX,
    ensures
        ({
            let tried = guessed_roc(Some(state), seq) * 0x1_0000 + seq;
            let highest = state.roc * 0x1_0000 + state.max_seq;
            -0x8000 <= tried - highest <= 0x8000
        }),
        guessed_roc(None, seq) == 0,
{
}

/// Once a packet is accepted, the highest number of its source is the greater of
/// that before and that of the packet, and other sources keep theirs.
pub proof fn lemma_highest_number_is_kept(
    states: Map<u64, SsrcState>,
    ssrc: u32,
    roc: u32,
    seq: u16,
    other: u32,
)
    ensures
        ({
            let after = advanced(states, ssrc, roc, seq);
            &&& state_of(after, ssrc) matches Some(now) && {
                let number = now.roc * 0x1_0000 + now.max_seq;
                let came = roc * 0x1_0000 + seq;
                match state_of(states, ssrc) {
                    None => number == came,
                    Some(old) => {
                        let before = old.roc * 0x1_0000 + old.max_seq;
                        &&& number >= before
                        &&& number >= came
                        &&& number == before || number == came
                    },
                }
            }
            &&& other != ssrc ==> state_of(after, other) == state_of(states, other)
        }),
{
}

/// The header of a media packet is twelve bytes, four more for each contributing
/// source, and, where a bit says so, an extension: four bytes, and four more for
/// each of its words.
pub proof fn lemma_media_header_length(pkt: Seq<u8>, sources: int, extended: bool, body: int)
    requires
        pkt.len() >= body,
        body >= 12 + 4 * sources + (if extended {
            4int
        } else {
            0
        }),
        0 <= sources < 16,
        pkt[0] == 0x80 + (if extended {
            16int
        } else {
            0
        }) + sources,
    ensures
        !extended ==> header_len(pkt, body) == Some(12 + 4 * sources),
        extended ==> {
            let n = 12 + 4 * sources + 4 + 4 * short_at(pkt, 12 + 4 * sources + 2);
            header_len(pkt, body) == if n <= body {
                Some(n)
            } else {
                None
            }
        },
{
    assert(pkt[0] % 16 == sources);
    if extended {
        let at = 12 + 4 * sources + 2;
        assert(u16_of(pkt, at) == short_at(pkt, at));
    }
}

} // verus!
