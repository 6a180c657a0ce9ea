//! How the bytes of a handshake are cut up on arrival does not matter.

use vstd::prelude::*;

use super::handshake::{
    handshake_outcome, init_outcome, init_read, result_outcome, types_outcome,
    vencrypt_types_outcome, vencrypt_version_outcome, version_outcome,
};
use super::rekey::{message_walk, rects_walk, RekeyWalk};
use super::{Phase, ResultOf, Session};
use crate::desktop::arrival::{lemma_parts, starts_with};
use crate::desktop::Transport;
use crate::messages::RectHeader;
use crate::protocol;
use crate::vencrypt::offered;
use crate::wire::{u16_of, u32_of};

verus! {

proof fn lemma_rects(s: Seq<u8>, z: Seq<u8>, k: nat)
    requires
        starts_with(z, s),
        s.len() >= 4,
        !(rects_walk(s, k) is Short),
    ensures
        rects_walk(z, k) == rects_walk(s, k),
        rects_walk(s, k) matches RekeyWalk::At { pos, .. } ==> 4 <= pos <= s.len(),
    decreases k,
{
    if k > 0 {
        lemma_rects(s, z, (k - 1) as nat);
        lemma_parts(s, z);
        if let RekeyWalk::At { pos, found } = rects_walk(s, (k - 1) as nat) {
            assert(starts_with(z.skip(pos), s.skip(pos)));
            lemma_parts(s.skip(pos), z.skip(pos));
            assert(RectHeader::read(z.skip(pos)) == RectHeader::read(s.skip(pos)));
        }
    }
}

proof fn lemma_message(s: Seq<u8>, z: Seq<u8>)
    requires
        starts_with(z, s),
        !(message_walk(s) is Short),
    ensures
        message_walk(z) == message_walk(s),
{
    lemma_parts(s, z);
    if s[0] == protocol::SERVER_FRAMEBUFFER_UPDATE && s.len() >= 4 {
        lemma_rects(s, z, u16_of(s, 2) as nat);
    }
}

proof fn lemma_version(c: Session, s: Seq<u8>, z: Seq<u8>)
    requires
        starts_with(z, s),
        !(version_outcome(c, s) is Short),
    ensures
        version_outcome(c, z) == version_outcome(c, s),
{
    lemma_parts(s, z);
    assert(z.take(12) =~= s.take(12));
}

proof fn lemma_types(c: Session, s: Seq<u8>, z: Seq<u8>)
    requires
        starts_with(z, s),
        !(types_outcome(c, s) is Short),
    ensures
        types_outcome(c, z) == types_outcome(c, s),
{
    lemma_parts(s, z);
}

proof fn lemma_vencrypt(c: Session, s: Seq<u8>, z: Seq<u8>)
    requires
        starts_with(z, s),
    ensures
        !(vencrypt_version_outcome(c, s) is Short) ==> vencrypt_version_outcome(c, z)
            == vencrypt_version_outcome(c, s),
        !(vencrypt_types_outcome(c, s) is Short) ==> vencrypt_types_outcome(c, z)
            == vencrypt_types_outcome(c, s),
{
    lemma_parts(s, z);
    if s.len() > 0 && s.len() >= 1 + 4 * s[0] {
        assert(offered(z) =~= offered(s));
    }
}

proof fn lemma_result(c: Session, of: ResultOf, s: Seq<u8>, z: Seq<u8>)
    requires
        starts_with(z, s),
        !(result_outcome(c, of, s) is Short),
    ensures
        result_outcome(c, of, z) == result_outcome(c, of, s),
{
    lemma_parts(s, z);
}

proof fn lemma_init(c: Session, s: Seq<u8>, z: Seq<u8>)
    requires
        starts_with(z, s),
        !(init_outcome(c, s) is Short),
    ensures
        init_outcome(c, z) == init_outcome(c, s),
{
    lemma_parts(s, z);
    assert(z.subrange(4, 20) == s.subrange(4, 20));
    assert(u32_of(z, 20) == u32_of(s, 20));
    assert(u16_of(z, 0) == u16_of(s, 0) && u16_of(z, 2) == u16_of(s, 2));
    let n = u32_of(s, 20);
    if s.len() >= 24 + n {
        assert(z.subrange(24, 24 + n) == s.subrange(24, 24 + n));
        assert(init_read(c.scene, z) == init_read(c.scene, s));
    }
}

/// Once the bytes received complete a step of the handshake, more bytes
/// behind them do not change the step.
pub proof fn lemma_more_input_changes_no_step(c: Session, input: Seq<u8>, more: Seq<u8>)
    requires
        !(handshake_outcome(c, input) is Short),
    ensures
        handshake_outcome(c, input + more) == handshake_outcome(c, input),
{
    let z = input + more;
    assert(z.take(input.len() as int) =~= input);
    if c.scene.transport != Transport::Disconnected {
        match c.phase {
            Phase::Version => lemma_version(c, input, z),
            Phase::Types => lemma_types(c, input, z),
            Phase::VencryptVersion | Phase::VencryptTypes => lemma_vencrypt(c, input, z),
            Phase::Result(of) => lemma_result(c, of, input, z),
            Phase::Init => lemma_init(c, input, z),
            Phase::Rekey => lemma_message(input, z),
            _ => {},
        }
    }
}

} // verus!
