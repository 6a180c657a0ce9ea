//! What the two sides agree on before the first update.

use vstd::prelude::*;

use super::handshake::{
    banner_version, chosen_phase, deed_done, handshake_outcome, version_answer, HandshakeOutcome,
};
use super::rekey::{rect_walk, rects_walk, RekeyWalk};
use super::{ClientState, Deed, Phase, ResultOf, Session};
use crate::desktop::Transport;
use crate::error::Failure;
use crate::event::Event;
use crate::messages::{long_at, short_at};
use crate::pixel_format::PixelFormat;
use crate::text::lossy_text;
use crate::vencrypt::{offered, strongest, SubTypes, VencryptResult};
use crate::wire::{lemma_high_byte_first, u16_of, u32_of};

verus! {

/// Whether twelve bytes are the banner `RFB 003.` with three digits and a line
/// feed.
pub open spec fn is_banner(s: Seq<u8>, a: u8, b: u8, c: u8) -> bool {
    s =~= seq![0x52u8, 0x46u8, 0x42u8, 0x20u8, 0x30u8, 0x30u8, 0x33u8, 0x2eu8, a, b, c, 0x0au8]
}

proof fn lemma_banner(s: Seq<u8>, a: u8, b: u8, c: u8)
    requires
        s.len() == 12,
        48 <= a <= 57,
        48 <= b <= 57,
        48 <= c <= 57,
    ensures
        is_banner(s, a, b, c) <==> banner_version(s) == Some(
            (3int, 100 * (a - 48) + 10 * (b - 48) + (c - 48)),
        ),
{
    let t = seq![0x52u8, 0x46u8, 0x42u8, 0x20u8, 0x30u8, 0x30u8, 0x33u8, 0x2eu8, a, b, c, 0x0au8];
    if banner_version(s) == Some((3int, 100 * (a - 48) + 10 * (b - 48) + (c - 48))) {
        assert(s[4] == 48 && s[5] == 48 && s[6] == 51);
        assert(s[8] == a && s[9] == b && s[10] == c);
        assert(s =~= t);
    }
    if is_banner(s, a, b, c) {
        assert(s == t);
        assert(t[8] == a && t[9] == b && t[10] == c);
    }
}

proof fn lemma_answer(own: Seq<u8>, fast: bool)
    requires
        own.len() == 12,
    ensures
        ({
            let known = is_banner(own, 0x30, 0x30, 0x33) || is_banner(own, 0x30, 0x30, 0x37)
                || is_banner(own, 0x30, 0x30, 0x38);
            let apple = is_banner(own, 0x38, 0x38, 0x39);
            match version_answer(own, fast) {
                Err(_) => !known && !apple,
                Ok(send) => {
                    &&& known || apple
                    &&& known || fast ==> send == own
                    &&& apple && !fast ==> is_banner(send, 0x30, 0x30, 0x38)
                },
            }
        }),
{
    lemma_banner(own, 0x30, 0x30, 0x33);
    lemma_banner(own, 0x30, 0x30, 0x37);
    lemma_banner(own, 0x30, 0x30, 0x38);
    lemma_banner(own, 0x38, 0x38, 0x39);
    if let Ok(send) = version_answer(own, fast) {
        if !(is_banner(own, 0x38, 0x38, 0x39) && !fast) {
            assert(send =~= own);
        }
    }
}

/// A server that speaks version 3.3, 3.7 or 3.8 is answered with its own banner,
/// as is one of version 3.889 where high performance is wanted; elsewhere that
/// one is answered with 3.8. Then the security types are to come. Every other
/// banner is refused.
#[verifier::rlimit(30)]
#[verifier::spinoff_prover]
pub proof fn lemma_version_is_answered(c: Session, m: Seq<u8>, own: Seq<u8>)
    requires
        c.phase == Phase::Version,
        c.scene.transport != Transport::Disconnected,
        m.len() >= 12,
        own == m.subrange(0, 12),
    ensures
        ({
            let known = is_banner(own, 0x30, 0x30, 0x33) || is_banner(own, 0x30, 0x30, 0x37)
                || is_banner(own, 0x30, 0x30, 0x38);
            let fast = is_banner(own, 0x38, 0x38, 0x39);
            match handshake_outcome(c, m) {
                HandshakeOutcome::Short => false,
                HandshakeOutcome::Bad(_, session) => !known && !fast && session == c,
                HandshakeOutcome::Done { session, used, send, events, body } => {
                    &&& known || fast
                    &&& used == 12
                    &&& known || c.config.high_performance ==> send == own
                    &&& fast && !c.config.high_performance ==> is_banner(send, 0x30, 0x30, 0x38)
                    &&& session == (Session {
                        state: ClientState::HandshakeVersion,
                        phase: Phase::Types,
                        ..c
                    })
                    &&& events.len() == 0
                    &&& body is None
                },
            }
        }),
{
    assert(m.take(12) =~= own);
    lemma_answer(own, c.config.high_performance);
}

/// The list of security types is a count and the types. Where VeNCrypt, number
/// 19, is among them it is taken at once; else the choice is to be made.
#[verifier::spinoff_prover]
pub proof fn lemma_types_are_offered(c: Session, m: Seq<u8>, types: Seq<u8>)
    requires
        c.phase == Phase::Types,
        c.scene.transport != Transport::Disconnected,
        1 <= types.len() <= 255,
        m.len() >= 1 + types.len(),
        m[0] == types.len(),
        m.subrange(1, 1 + types.len() as int) == types,
    ensures
        handshake_outcome(c, m) matches HandshakeOutcome::Done { session, used, send, events, body }
            && {
            &&& used == 1 + types.len()
            &&& session.types == types
            &&& events.len() == 0
            &&& body is None
            &&& types.contains(19u8) ==> send == seq![19u8] && session.phase
                == Phase::VencryptVersion
            &&& !types.contains(19u8) ==> send.len() == 0 && session.phase == Phase::Choice
            &&& session == (Session { types: session.types, phase: session.phase, ..c })
        },
{
}

/// A server that offers no type says why, and the reason is reported.
pub proof fn lemma_refusal_is_reported(c: Session, m: Seq<u8>, reason: Seq<u8>)
    requires
        c.phase == Phase::Types,
        c.scene.transport != Transport::Disconnected,
        reason.len() <= 65536,
        m.len() >= 5 + reason.len(),
        m[0] == 0,
        long_at(m, 1) == reason.len(),
        m.subrange(5, 5 + reason.len() as int) == reason,
    ensures
        handshake_outcome(c, m) == HandshakeOutcome::Bad(
            Failure::AuthFailed(lossy_text(reason)),
            c,
        ),
{
    assert(u32_of(m, 1) == reason.len());
}

/// Only version 0.2 of VeNCrypt is spoken, and it is answered in kind.
pub proof fn lemma_vencrypt_version_is_answered(c: Session, m: Seq<u8>)
    requires
        c.phase == Phase::VencryptVersion,
        c.scene.transport != Transport::Disconnected,
        m.len() >= 2,
    ensures
        match handshake_outcome(c, m) {
            HandshakeOutcome::Short => false,
            HandshakeOutcome::Bad(_, session) => (m[0], m[1]) != (0u8, 2u8) && session == c,
            HandshakeOutcome::Done { session, used, send, .. } => {
                &&& (m[0], m[1]) == (0u8, 2u8)
                &&& used == 2
                &&& send == m.subrange(0, 2)
                &&& session == (Session { phase: Phase::VencryptTypes, ..c })
            },
        },
{
    assert(m.subrange(0, 2) =~= seq![m[0], m[1]]);
}

/// The sub-types from the strongest to the weakest.
pub open spec fn by_strength() -> Seq<VencryptResult> {
    seq![
        VencryptResult::Tls,
        VencryptResult::RsaAes256,
        VencryptResult::RsaAes,
        VencryptResult::X509,
        VencryptResult::Sasl,
        VencryptResult::AppleDh,
        VencryptResult::Plain,
        VencryptResult::VncAuth,
    ]
}

/// The number of a sub-type.
pub open spec fn number_of(numbers: SubTypes, kind: VencryptResult) -> u32 {
    match kind {
        VencryptResult::Tls => numbers.tls,
        VencryptResult::RsaAes256 => numbers.rsa_aes256,
        VencryptResult::RsaAes => numbers.rsa_aes,
        VencryptResult::X509 => numbers.x509,
        VencryptResult::Sasl => numbers.sasl,
        VencryptResult::AppleDh => numbers.apple_dh,
        VencryptResult::Plain => numbers.plain,
        VencryptResult::VncAuth => numbers.vnc_auth,
    }
}

/// Of the sub-types that are offered the strongest is selected: where one is
/// offered and none before it in the order is, it is the one.
pub proof fn lemma_strongest_is_selected(types: Seq<u32>, numbers: SubTypes, i: int)
    requires
        0 <= i < 8,
        types.contains(number_of(numbers, by_strength()[i])),
        forall|j: int|
            0 <= j < i ==> !types.contains(number_of(numbers, #[trigger] by_strength()[j])),
    ensures
        strongest(types, numbers) == Some(by_strength()[i]),
{
    let order = by_strength();
    assert(order[0] == VencryptResult::Tls && order[1] == VencryptResult::RsaAes256 && order[2]
        == VencryptResult::RsaAes && order[3] == VencryptResult::X509 && order[4]
        == VencryptResult::Sasl && order[5] == VencryptResult::AppleDh && order[6]
        == VencryptResult::Plain && order[7] == VencryptResult::VncAuth);
}

/// A security result of zero lets the client in: it sends whether it shares the
/// desktop, and the server's initialization is to come. Any other ends the
/// handshake.
#[verifier::spinoff_prover]
pub proof fn lemma_result_decides(c: Session, of: ResultOf, m: Seq<u8>)
    requires
        c.phase == Phase::Result(of),
        c.scene.transport != Transport::Disconnected,
        m.len() >= 4,
    ensures
        match handshake_outcome(c, m) {
            HandshakeOutcome::Short => false,
            HandshakeOutcome::Bad(f, session) => long_at(m, 0) != 0 && f is AuthFailed && session
                == c,
            HandshakeOutcome::Done { session, used, send, .. } => {
                &&& long_at(m, 0) == 0
                &&& used == 4
                &&& send == seq![c.shared]
                &&& session == (Session {
                    state: ClientState::HandshakeAuth,
                    phase: Phase::Init,
                    ..c
                })
            },
        },
{
    assert(u32_of(m, 0) == long_at(m, 0));
}

/// The server's initialization is taken over: width, height, the pixel format
/// with its bits, depth, flags, largest values and shifts, and the name behind
/// its length. The size and the name are reported.
#[verifier::rlimit(30)]
#[verifier::spinoff_prover]
pub proof fn lemma_initialization_is_taken(c: Session, m: Seq<u8>, name: Seq<u8>)
    requires
        c.phase == Phase::Init,
        c.scene.transport != Transport::Disconnected,
        !c.config.high_performance,
        name.len() <= 65536,
        m.len() >= 24 + name.len(),
        long_at(m, 20) == name.len(),
        m.subrange(24, 24 + name.len() as int) == name,
        short_at(m, 0) <= 16384,
        short_at(m, 2) <= 16384,
    ensures
        handshake_outcome(c, m) matches HandshakeOutcome::Done { session, used, events, .. } && {
            let f = session.scene.format;
            &&& used == 24 + name.len()
            &&& session.state == ClientState::Ready
            &&& session.phase == Phase::Done
            &&& session.scene.width == short_at(m, 0)
            &&& session.scene.height == short_at(m, 2)
            &&& session.scene.image.width == short_at(m, 0)
            &&& session.scene.image.height == short_at(m, 2)
            &&& session.scene.name == lossy_text(name)
            &&& f.bits_per_pixel == m[4] && f.depth == m[5]
            &&& f.big_endian == (m[6] != 0) && f.true_colour == (m[7] != 0)
            &&& f.red_max == short_at(m, 8) && f.green_max == short_at(m, 10) && f.blue_max
                == short_at(m, 12)
            &&& f.red_shift == m[14] && f.green_shift == m[15] && f.blue_shift == m[16]
            &&& events == seq![
                Event::GeometryChanged {
                    width: session.scene.width,
                    height: session.scene.height,
                },
                Event::NameChanged(lossy_text(name)),
            ]
        },
{
    assert(u32_of(m, 20) == name.len());
    assert(u16_of(m, 0) == short_at(m, 0) && u16_of(m, 2) == short_at(m, 2));
    let p = m.subrange(4, 20);
    assert(p[4] == m[8] && p[5] == m[9] && p[6] == m[10] && p[7] == m[11] && p[8] == m[12] && p[9]
        == m[13]);
    assert(PixelFormat::read(p).red_max == short_at(m, 8));
}

/// What follows a security type: nothing but the result behind type 1, the
/// challenge behind 2, a key of 16 bytes behind 5 and of 32 behind 129, VeNCrypt
/// behind 19, and a way of its own behind any other.
pub proof fn lemma_choice_leads_on(kind: u8)
    ensures
        kind == 1 ==> chosen_phase(kind) == Phase::Result(ResultOf::NoAuth),
        kind == 2 ==> chosen_phase(kind) == Phase::Outside(Deed::VncAuth),
        kind == 5 ==> chosen_phase(kind) == Phase::Outside(Deed::Aes(16)),
        kind == 129 ==> chosen_phase(kind) == Phase::Outside(Deed::Aes(32)),
        kind == 19 ==> chosen_phase(kind) == Phase::VencryptVersion,
        kind != 1 && kind != 2 && kind != 5 && kind != 129 && kind != 19 ==> chosen_phase(kind)
            == Phase::Outside(Deed::Custom(kind)),
{
}

/// The strongest sub-type that is offered is the one that is sent back, in four
/// bytes, and what follows is what it asks for.
pub proof fn lemma_subtype_is_chosen(c: Session, m: Seq<u8>, i: int)
    requires
        c.phase == Phase::VencryptTypes,
        c.scene.transport != Transport::Disconnected,
        m.len() >= 1,
        m[0] > 0,
        m.len() >= 1 + 4 * m[0],
        0 <= i < 8,
        offered(m).contains(number_of(c.config.subtypes, by_strength()[i])),
        forall|j: int|
            0 <= j < i ==> !offered(m).contains(
                number_of(c.config.subtypes, #[trigger] by_strength()[j]),
            ),
    ensures
        handshake_outcome(c, m) matches HandshakeOutcome::Done { session, used, send, .. } && {
            &&& used == 1 + 4 * m[0]
            &&& send.len() == 4
            &&& long_at(send, 0) == number_of(c.config.subtypes, by_strength()[i])
            &&& session == (Session { phase: session.phase, ..c })
            &&& session.phase == seq![
                Phase::Outside(Deed::Tls { x509: false }),
                Phase::Outside(Deed::Aes(32)),
                Phase::Outside(Deed::Aes(16)),
                Phase::Outside(Deed::Tls { x509: true }),
                Phase::Outside(Deed::Sasl),
                Phase::Outside(Deed::VencryptAppleDh),
                Phase::Result(ResultOf::VencryptPlain),
                Phase::Outside(Deed::VncAuth),
            ][i]
        },
{
    lemma_strongest_is_selected(offered(m), c.config.subtypes, i);
    let kind = by_strength()[i];
    lemma_high_byte_first(0, number_of(c.config.subtypes, kind));
}

/// Once TLS is under the stream its security result is to come; once it is
/// encrypted with a key, and behind every other way, the client is let in. Behind
/// Apple's ways it says so with a byte of their own, and keeps the key that was
/// agreed on for the record layer.
pub proof fn lemma_deed_leads_on(c: Session, deed: Deed, key: Option<Seq<u8>>)
    ensures
        ({
            let after = deed_done(c, deed, key);
            match deed {
                Deed::Tls { x509 } => {
                    &&& after.scene.transport == Transport::Tls
                    &&& after.phase == Phase::Result(
                        if x509 {
                            ResultOf::VencryptX509
                        } else {
                            ResultOf::VencryptTls
                        },
                    )
                    &&& after.shared == c.shared
                },
                Deed::Aes(_) => {
                    &&& after.scene.transport == Transport::Aes
                    &&& after.phase == Phase::Init
                    &&& after.shared == c.shared
                },
                Deed::Custom(kind) => {
                    &&& after.scene == c.scene
                    &&& after.phase == Phase::Init
                    &&& kind == 30 ==> after.shared == if c.config.high_performance {
                        0xc1u8
                    } else {
                        0x1cu8
                    }
                    &&& kind == 33 ==> after.shared == 0xc1
                    &&& kind != 30 && kind != 33 ==> after.shared == c.shared && after.wrap_key
                        == c.wrap_key
                    &&& kind == 30 || kind == 33 ==> match key {
                        Some(_) => after.wrap_key == key,
                        None => after.wrap_key == c.wrap_key,
                    }
                },
                _ => after == (Session {
                    state: ClientState::HandshakeAuth,
                    phase: Phase::Init,
                    ..c
                }),
            }
        }),
{
}

/// The first keys of the record layer come in an update with a rectangle of no
/// size in their own encoding: the 36 bytes behind its header are the keys. The
/// client says that it encrypts from here on, and switches.
#[verifier::spinoff_prover]
pub proof fn lemma_first_keys_are_found(c: Session, m: Seq<u8>)
    requires
        c.phase == Phase::Rekey,
        c.scene.transport != Transport::Disconnected,
        m.len() >= 52,
        m[0] == 0,
        short_at(m, 2) == 1,
        forall|i: int| 4 <= i < 12 ==> #[trigger] m[i] == 0,
        long_at(m, 12) == 0x44f,
    ensures
        handshake_outcome(c, m) matches HandshakeOutcome::Done { session, used, send, events, body }
            && {
            &&& used == 52
            &&& body == Some(m.subrange(16, 52))
            &&& send == seq![0x12u8, 0u8, 0u8, 2u8, 0u8, 1u8, 0u8, 0u8]
            &&& events.len() == 0
            &&& session == (Session { phase: Phase::Switch, ..c })
        },
{
    assert(u16_of(m, 2) == 1);
    let rest = m.skip(4);
    assert(rest[0] == m[4] && rest[1] == m[5] && rest[2] == m[6] && rest[3] == m[7]);
    assert(rest[4] == m[8] && rest[5] == m[9] && rest[6] == m[10] && rest[7] == m[11]);
    assert(u32_of(rest, 8) == 0x44f);
    reveal_with_fuel(rects_walk, 2);
    assert(rect_walk(m, 4, None) == (RekeyWalk::At { pos: 52, found: Some(m.subrange(16, 52)) }));
}

} // verus!
