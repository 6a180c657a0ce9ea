//! The handshake: versions, authentication and initialization.
//!
//! The bytes of the server go in through [`VncClient::handshake_input`]. What
//! only the caller can do (ask for a choice, run an authentication, change the
//! stream) it is told to do by an [`Order`], and reports back.

use vstd::prelude::*;

use crate::apple_record_layer::{
    build_post_encryption_toggle, build_set_display_configuration, build_set_encryption_command1,
    build_viewer_info, display_head, mode_table, viewer_info, AppleRecordLayer,
};
use crate::auth::offers;
use crate::client::rekey::{found_view, message_walk, read_rekey_message, RekeyWalk};
use crate::client::{
    encoding_numbers, key_view, numbers, ClientState, Deed, Phase, ResultOf, Session, VncClient,
};
use crate::desktop::{Scene, Transport};
use crate::error::{protocol_error, Failure, VncError};
use crate::event::{event_views, no_events, one_event, push_event, Event, VncEvent};
use crate::messages::{
    build_set_encodings, build_update_request, check_dimensions, set_encodings, size_failure,
    size_ok, update_request, Area, MAX_TEXT_LEN,
};
use crate::pixel_format::PixelFormat;
use crate::protocol;
use crate::protocol::apple;
use crate::text::{
    concat_text, decimal, decimal_text, lossy_string, lossy_text, trim_end, trimmed,
};
use crate::vencrypt::{
    check_version, negotiation, Negotiation, VencryptHandler, VencryptResult,
};
use crate::wire::{push_all, slice, to_vec, u16_at, u16_of, u32_at, u32_of};

verus! {

/// What the caller is to do next.
pub struct Order {
    /// How many bytes of the input were taken.
    pub used: usize,
    /// Bytes to send to the server.
    pub send: Vec<u8>,
    pub events: Vec<VncEvent>,
    /// The key material to start the record layer with.
    pub body: Option<Vec<u8>>,
}

/// What the front of the input means.
pub enum HandshakeOutcome {
    Short,
    /// The step fails, and this is the session that it leaves.
    Bad(Failure, Session),
    Done { session: Session, used: int, send: Seq<u8>, events: Seq<Event>, body: Option<Seq<u8>> },
}

/// Whether a result reports an outcome. A session that asks for more bytes is
/// unchanged.
pub open spec fn order_reports(
    r: Result<Option<Order>, VncError>,
    before: Session,
    after: Session,
    o: HandshakeOutcome,
) -> bool {
    match o {
        HandshakeOutcome::Short => r matches Ok(None) && after == before,
        HandshakeOutcome::Bad(f, session) => r matches Err(e) && e@ == f && after == session,
        HandshakeOutcome::Done { session, used, send, events, body } => r matches Ok(Some(order))
            && order.used == used && order.send@ == send && event_views(order.events@) == events
            && found_view(order.body) == body && after == session,
    }
}

/// A step that takes `used` bytes and sends `send`.
pub open spec fn step(session: Session, used: int, send: Seq<u8>) -> HandshakeOutcome {
    HandshakeOutcome::Done { session, used, send, events: Seq::empty(), body: None }
}

fn order(used: usize, send: Vec<u8>) -> (r: Order)
    ensures
        r.used == used,
        r.send@ == send@,
        event_views(r.events@) == Seq::<Event>::empty(),
        r.body is None,
{
    Order { used, send, events: no_events(), body: None }
}

// ---------------------------------------------------------------------------
// Version
// ---------------------------------------------------------------------------

/// Bytes of the version banner.
pub const BANNER_LEN: usize = 12;

/// The value of a decimal digit.
pub open spec fn digit(b: u8) -> Option<int> {
    if 48 <= b <= 57 {
        Some(b - 48)
    } else {
        None
    }
}

/// The number that three digits at `i` form.
pub open spec fn three_digits(s: Seq<u8>, i: int) -> Option<int> {
    match (digit(s[i]), digit(s[i + 1]), digit(s[i + 2])) {
        (Some(a), Some(b), Some(c)) => Some(100 * a + 10 * b + c),
        _ => None,
    }
}

/// The version in a banner: `RFB`, a blank, and two numbers of three digits
/// parted by a full stop, with a line feed behind them.
pub open spec fn banner_version(s: Seq<u8>) -> Option<(int, int)> {
    if s[0] == 82 && s[1] == 70 && s[2] == 66 && s[3] == 32 && s[7] == 46 && s[11] == 10 {
        match (three_digits(s, 4), three_digits(s, 8)) {
            (Some(major), Some(minor)) => Some((major, minor)),
            _ => None,
        }
    } else {
        None
    }
}

/// The banner of version 3 with three minor digits.
pub open spec fn banner(a: u8, b: u8, c: u8) -> Seq<u8> {
    seq![82u8, 70u8, 66u8, 32u8, 48u8, 48u8, 51u8, 46u8, a, b, c, 10u8]
}

/// The banner that answers the server's. A server of version 3.889 is answered
/// in kind only where high performance is wanted.
pub open spec fn version_answer(s: Seq<u8>, high_performance: bool) -> Result<Seq<u8>, Failure> {
    match banner_version(s) {
        None => Err(
            Failure::Protocol("Invalid protocol version string: "@ + trimmed(lossy_text(s))),
        ),
        Some((major, minor)) => if major == 3 && minor == 889 {
            Ok(
                if high_performance {
                    banner(56, 56, 57)
                } else {
                    banner(48, 48, 56)
                },
            )
        } else if major == 3 && minor == 8 {
            Ok(banner(48, 48, 56))
        } else if major == 3 && minor == 7 {
            Ok(banner(48, 48, 55))
        } else if major == 3 && minor == 3 {
            Ok(banner(48, 48, 51))
        } else {
            Err(Failure::UnsupportedVersion(trimmed(lossy_text(s))))
        },
    }
}

/// The server's version.
pub open spec fn version_outcome(c: Session, m: Seq<u8>) -> HandshakeOutcome {
    if m.len() < BANNER_LEN {
        HandshakeOutcome::Short
    } else {
        match version_answer(m.take(12), c.config.high_performance) {
            Err(f) => HandshakeOutcome::Bad(f, c),
            Ok(answer) => step(
                Session { state: ClientState::HandshakeVersion, phase: Phase::Types, ..c },
                12,
                answer,
            ),
        }
    }
}

/// An answered version is one of the four that the client speaks, and a banner
/// of the same kind.
pub proof fn lemma_version_is_spoken(s: Seq<u8>, high_performance: bool)
    requires
        s.len() == 12,
    ensures
        version_answer(s, high_performance) matches Ok(answer) ==> (banner_version(s) matches Some(
            v,
        ) && v.0 == 3 && (v.1 == 3 || v.1 == 7 || v.1 == 8 || v.1 == 889)) && (banner_version(answer)
            matches Some(w) && w.0 == 3 && (w.1 == banner_version(s).unwrap().1 || (w.1 == 8
            && banner_version(s).unwrap().1 == 889 && !high_performance))),
{
}

fn read_digits(s: &[u8], i: usize) -> (r: Option<u16>)
    requires
        i + 3 <= s@.len(),
    ensures
        match r {
            Some(n) => three_digits(s@, i as int) == Some(n as int),
            None => three_digits(s@, i as int) is None,
        },
{
    assert(s@.len() == s.len());
    let (a, b, c): (u8, u8, u8) = (s[i], s[i + 1], s[i + 2]);
    if a < 48 || a > 57 || b < 48 || b > 57 || c < 48 || c > 57 {
        return None;
    }
    Some(100 * (a - 48) as u16 + 10 * (b - 48) as u16 + (c - 48) as u16)
}

fn build_banner(a: u8, b: u8, c: u8) -> (r: Vec<u8>)
    ensures
        r@ == banner(a, b, c),
{
    let r: Vec<u8> = vec![82, 70, 66, 32, 48, 48, 51, 46, a, b, c, 10];
    assert(r@ =~= banner(a, b, c));
    r
}

/// Answers the server's version banner.
pub fn answer_version(s: &[u8], high_performance: bool) -> (r: Result<Vec<u8>, VncError>)
    requires
        s@.len() == BANNER_LEN,
    ensures
        match version_answer(s@, high_performance) {
            Ok(answer) => r matches Ok(v) && v@ == answer,
            Err(f) => r matches Err(e) && e@ == f,
        },
{
    let framed: bool = s[0] == 82 && s[1] == 70 && s[2] == 66 && s[3] == 32 && s[7] == 46 && s[11]
        == 10;
    let version: Option<(u16, u16)> = if framed {
        match (read_digits(s, 4), read_digits(s, 8)) {
            (Some(major), Some(minor)) => Some((major, minor)),
            _ => None,
        }
    } else {
        None
    };
    match version {
        None => Err(
            VncError::Protocol(
                concat_text(
                    "Invalid protocol version string: ",
                    trim_end(lossy_string(s).as_str()).as_str(),
                ),
            ),
        ),
        Some((major, minor)) => {
            if major == 3 && minor == 889 {
                if high_performance {
                    Ok(build_banner(56, 56, 57))
                } else {
                    Ok(build_banner(48, 48, 56))
                }
            } else if major == 3 && minor == 8 {
                Ok(build_banner(48, 48, 56))
            } else if major == 3 && minor == 7 {
                Ok(build_banner(48, 48, 55))
            } else if major == 3 && minor == 3 {
                Ok(build_banner(48, 48, 51))
            } else {
                Err(VncError::UnsupportedVersion(trim_end(lossy_string(s).as_str())))
            }
        },
    }
}

// ---------------------------------------------------------------------------
// Security types
// ---------------------------------------------------------------------------

/// Why the server refuses the connection: a text behind its length.
pub open spec fn refusal_outcome(c: Session, m: Seq<u8>) -> HandshakeOutcome {
    if m.len() < 5 {
        HandshakeOutcome::Short
    } else if u32_of(m, 1) > MAX_TEXT_LEN {
        HandshakeOutcome::Bad(
            Failure::Protocol(
                "Failure reason length exceeds limit: "@ + decimal_text(u32_of(m, 1) as nat),
            ),
            c,
        )
    } else if m.len() < 5 + u32_of(m, 1) {
        HandshakeOutcome::Short
    } else {
        HandshakeOutcome::Bad(
            Failure::AuthFailed(lossy_text(m.subrange(5, 5 + u32_of(m, 1)))),
            c,
        )
    }
}

/// The server's security types. VeNCrypt is taken wherever it is offered; else
/// the choice is left to the caller.
pub open spec fn types_outcome(c: Session, m: Seq<u8>) -> HandshakeOutcome {
    if m.len() == 0 {
        HandshakeOutcome::Short
    } else if m[0] == 0 {
        refusal_outcome(c, m)
    } else if m.len() < 1 + m[0] {
        HandshakeOutcome::Short
    } else {
        let types = m.subrange(1, 1 + m[0]);
        if types.contains(protocol::SECURITY_VENCRYPT) {
            step(
                Session { types, phase: Phase::VencryptVersion, ..c },
                1 + m[0],
                seq![protocol::SECURITY_VENCRYPT],
            )
        } else {
            step(Session { types, phase: Phase::Choice, ..c }, 1 + m[0], Seq::empty())
        }
    }
}

/// What follows the choice of a security type.
pub open spec fn chosen_phase(kind: u8) -> Phase {
    if kind == protocol::SECURITY_NONE {
        Phase::Result(ResultOf::NoAuth)
    } else if kind == protocol::SECURITY_VNC_AUTH {
        Phase::Outside(Deed::VncAuth)
    } else if kind == protocol::SECURITY_RSA_AES {
        Phase::Outside(Deed::Aes(16))
    } else if kind == protocol::SECURITY_RSA_AES256 {
        Phase::Outside(Deed::Aes(32))
    } else if kind == protocol::SECURITY_VENCRYPT {
        Phase::VencryptVersion
    } else {
        Phase::Outside(Deed::Custom(kind))
    }
}

/// What follows the choice of a VeNCrypt sub-type.
pub open spec fn subtype_phase(kind: VencryptResult) -> Phase {
    match kind {
        VencryptResult::Plain => Phase::Result(ResultOf::VencryptPlain),
        VencryptResult::VncAuth => Phase::Outside(Deed::VncAuth),
        VencryptResult::Tls => Phase::Outside(Deed::Tls { x509: false }),
        VencryptResult::X509 => Phase::Outside(Deed::Tls { x509: true }),
        VencryptResult::RsaAes => Phase::Outside(Deed::Aes(16)),
        VencryptResult::RsaAes256 => Phase::Outside(Deed::Aes(32)),
        VencryptResult::AppleDh => Phase::Outside(Deed::VencryptAppleDh),
        VencryptResult::Sasl => Phase::Outside(Deed::Sasl),
    }
}

/// The server's VeNCrypt version.
pub open spec fn vencrypt_version_outcome(c: Session, m: Seq<u8>) -> HandshakeOutcome {
    if m.len() < 2 {
        HandshakeOutcome::Short
    } else if m[0] == 0 && m[1] == 2 {
        step(Session { phase: Phase::VencryptTypes, ..c }, 2, seq![0u8, 2u8])
    } else {
        HandshakeOutcome::Bad(
            Failure::Protocol(
                "Unsupported VeNCrypt version: "@ + decimal_text(m[0] as nat) + "."@
                    + decimal_text(m[1] as nat),
            ),
            c,
        )
    }
}

/// The server's VeNCrypt sub-types.
pub open spec fn vencrypt_types_outcome(c: Session, m: Seq<u8>) -> HandshakeOutcome {
    match negotiation(m, c.config.subtypes) {
        Negotiation::Short => HandshakeOutcome::Short,
        Negotiation::Bad(f) => HandshakeOutcome::Bad(f, c),
        Negotiation::Done { kind, used } => step(
            Session { phase: subtype_phase(kind), ..c },
            used,
            crate::wire::be32(c.config.subtypes.number(kind)),
        ),
    }
}

/// What a failed security result is reported as.
pub open spec fn result_text(of: ResultOf) -> Seq<char> {
    match of {
        ResultOf::NoAuth => "Authentication failed"@,
        ResultOf::VencryptPlain => "VeNCrypt None auth failed"@,
        ResultOf::VencryptTls => "VeNCrypt TLS security result failed"@,
        ResultOf::VencryptX509 => "VeNCrypt X509 security result failed"@,
    }
}

/// The session once authentication is over: the client's initialization is sent
/// next.
pub open spec fn authenticated(c: Session) -> Session {
    Session { state: ClientState::HandshakeAuth, phase: Phase::Init, ..c }
}

/// A security result.
pub open spec fn result_outcome(c: Session, of: ResultOf, m: Seq<u8>) -> HandshakeOutcome {
    if m.len() < 4 {
        HandshakeOutcome::Short
    } else if u32_of(m, 0) != 0 {
        HandshakeOutcome::Bad(Failure::AuthFailed(result_text(of)), c)
    } else {
        step(authenticated(c), 4, seq![c.shared])
    }
}

/// Why TLS cannot be put under the stream.
pub open spec fn tls_refusal(transport: Transport, host: Seq<char>) -> Option<Failure> {
    match transport {
        Transport::Disconnected => Some(Failure::NotConnected),
        Transport::Tls => Some(Failure::Protocol("Already TLS"@)),
        Transport::Aes => Some(Failure::Protocol("Cannot upgrade AES stream to TLS"@)),
        Transport::WebSocket => Some(
            Failure::Protocol("WebSocket not supported for VeNCrypt auth"@),
        ),
        Transport::AppleHp => Some(
            Failure::Protocol("Apple HP stream cannot be upgraded to TLS"@),
        ),
        Transport::Plain => if host.len() == 0 {
            Some(Failure::Protocol("Host not set for TLS upgrade"@))
        } else {
            None
        },
    }
}

/// Why the stream cannot be encrypted with an AES key of `size` bytes.
pub open spec fn aes_refusal(transport: Transport, size: u8) -> Option<Failure> {
    match transport {
        Transport::Disconnected => Some(Failure::NotConnected),
        Transport::Tls => Some(Failure::Protocol("RSA-AES over TLS not supported"@)),
        Transport::Aes => Some(Failure::Protocol("Already AES encrypted"@)),
        Transport::WebSocket => Some(
            Failure::Protocol("WebSocket not supported for RSA-AES auth"@),
        ),
        Transport::AppleHp => Some(Failure::Protocol("Apple HP stream cannot use RSA-AES"@)),
        Transport::Plain => if size == 16 || size == 32 {
            None
        } else {
            Some(
                Failure::Protocol(
                    "Invalid AES key size for RSA-AES: "@ + decimal_text(size as nat),
                ),
            )
        },
    }
}

/// Why work of the handshake cannot be done.
pub open spec fn deed_refusal(c: Session, deed: Deed) -> Option<Failure> {
    match deed {
        Deed::Tls { x509 } => tls_refusal(c.scene.transport, c.config.host@),
        Deed::Aes(size) => aes_refusal(c.scene.transport, size),
        Deed::Sasl => if c.config.sasl_username@.len() == 0 {
            Some(Failure::AuthFailed("SASL username not configured"@))
        } else {
            None
        },
        Deed::VencryptAppleDh => Some(
            Failure::AuthFailed("VeNCrypt Apple DH sub-type not yet implemented"@),
        ),
        _ => None,
    }
}

/// The session once work of the handshake is refused or has failed. A stream that
/// was to be upgraded is gone.
pub open spec fn deed_failed(c: Session, deed: Deed) -> Session {
    match deed {
        Deed::Tls { .. } | Deed::Aes(_) => Session {
            scene: Scene { transport: Transport::Disconnected, ..c.scene },
            ..c
        },
        _ => c,
    }
}

/// The session once work of the handshake is done. `key` is what authentication
/// left for the record layer.
pub open spec fn deed_done(c: Session, deed: Deed, key: Option<Seq<u8>>) -> Session {
    let kept = match key {
        Some(k) => Some(k),
        None => c.wrap_key,
    };
    match deed {
        Deed::Tls { x509 } => Session {
            scene: Scene { transport: Transport::Tls, ..c.scene },
            phase: Phase::Result(
                if x509 {
                    ResultOf::VencryptX509
                } else {
                    ResultOf::VencryptTls
                },
            ),
            ..c
        },
        Deed::Aes(size) => authenticated(
            Session { scene: Scene { transport: Transport::Aes, ..c.scene }, ..c },
        ),
        Deed::Custom(kind) => if kind == apple::SECURITY_DH {
            authenticated(
                Session {
                    shared: if c.config.high_performance {
                        apple::CLIENT_INIT_SHARED
                    } else {
                        apple::CLIENT_INIT_SHARED_LEGACY_ARD
                    },
                    wrap_key: kept,
                    ..c
                },
            )
        } else if kind == apple::SECURITY_RSA_SRP {
            authenticated(
                Session { shared: apple::CLIENT_INIT_SHARED, wrap_key: kept, ..c },
            )
        } else {
            authenticated(c)
        },
        _ => authenticated(c),
    }
}

// ---------------------------------------------------------------------------
// Initialization
// ---------------------------------------------------------------------------

/// Bytes of the server's initialization in front of the desktop's name.
pub const INIT_LEN: usize = 24;

/// The message that starts encryption.
pub open spec fn set_encryption_start() -> Seq<u8> {
    seq![apple::SET_ENCRYPTION, 0u8, 0u8, 1u8, 0u8, 1u8, 0u8, 1u8, 0u8, 0u8, 0u8, 1u8]
}

/// The message that follows once encryption is on.
pub open spec fn encryption_toggle() -> Seq<u8> {
    seq![apple::SET_ENCRYPTION, 0u8, 0u8, 2u8, 0u8, 1u8, 0u8, 0u8]
}

/// The plaintext that precedes the record layer: viewer info, the start of
/// encryption, the virtual display if one is wanted, and the encodings.
pub open spec fn prelude(c: Session) -> Seq<u8> {
    viewer_info(Seq::empty()) + set_encryption_start() + (if c.config.apple_virtual_display {
        display_head(c.config.apple_display_dynamic, c.config.display_modes@.len()) + mode_table(
            c.config.display_modes@,
            c.config.display_modes@.len() as int,
        )
    } else {
        Seq::empty()
    }) + set_encodings(c.config.apple_hp_encodings@)
}

/// The scene once the server's initialization is read, with the image as it was.
pub open spec fn init_read(s: Scene, m: Seq<u8>) -> Scene {
    let n = u32_of(m, 20);
    Scene {
        format: PixelFormat::read(m.subrange(4, 20)),
        name: lossy_text(m.subrange(24, 24 + n)),
        width: u16_of(m, 0),
        height: u16_of(m, 2),
        ..s
    }
}

/// The scene that the server's initialization describes.
pub open spec fn init_scene(s: Scene, m: Seq<u8>) -> Scene {
    init_read(s, m).with_size(u16_of(m, 0), u16_of(m, 2))
}

/// The server's initialization.
pub open spec fn init_outcome(c: Session, m: Seq<u8>) -> HandshakeOutcome {
    if m.len() < INIT_LEN {
        HandshakeOutcome::Short
    } else {
        let n = u32_of(m, 20);
        let (w, h) = (u16_of(m, 0), u16_of(m, 2));
        if n > MAX_TEXT_LEN {
            HandshakeOutcome::Bad(
                Failure::Protocol("Desktop name length exceeds limit: "@ + decimal_text(n as nat)),
                c,
            )
        } else if m.len() < INIT_LEN + n {
            HandshakeOutcome::Short
        } else if !size_ok(w as u32, h as u32) {
            HandshakeOutcome::Bad(
                size_failure(w as u32, h as u32),
                Session { scene: init_read(c.scene, m), ..c },
            )
        } else {
            let scene = init_scene(c.scene, m);
            let events = seq![
                Event::GeometryChanged { width: w, height: h },
                Event::NameChanged(scene.name),
            ];
            if !c.config.high_performance {
                HandshakeOutcome::Done {
                    session: Session { scene, state: ClientState::Ready, phase: Phase::Done, ..c },
                    used: INIT_LEN + n,
                    send: if c.config.encodings@.len() > 0 {
                        set_encodings(encoding_numbers(c.config.encodings@))
                    } else {
                        Seq::empty()
                    },
                    events,
                    body: None,
                }
            } else if c.wrap_key is None {
                HandshakeOutcome::Bad(
                    Failure::Protocol("Apple high-performance mode requires a session wrap key"@),
                    Session { scene, ..c },
                )
            } else {
                HandshakeOutcome::Done {
                    session: Session { scene, phase: Phase::Rekey, ..c },
                    used: INIT_LEN + n,
                    send: prelude(c),
                    events,
                    body: None,
                }
            }
        }
    }
}

/// A message before the record layer starts.
pub open spec fn rekey_outcome(c: Session, m: Seq<u8>) -> HandshakeOutcome {
    match message_walk(m) {
        RekeyWalk::Short => HandshakeOutcome::Short,
        RekeyWalk::Bad(f) => HandshakeOutcome::Bad(f, c),
        RekeyWalk::At { pos, found } => match found {
            None => step(c, pos, Seq::empty()),
            Some(body) => HandshakeOutcome::Done {
                session: Session { phase: Phase::Switch, ..c },
                used: pos,
                send: encryption_toggle(),
                events: Seq::empty(),
                body: Some(body),
            },
        },
    }
}

/// Whether the handshake waits for bytes of the server.
pub open spec fn wants_input(phase: Phase) -> bool {
    match phase {
        Phase::Choice | Phase::Outside(_) | Phase::Switch | Phase::Offer | Phase::Done => false,
        _ => true,
    }
}

/// What the front of the input means to a client that is connected.
pub open spec fn phase_outcome(c: Session, m: Seq<u8>) -> HandshakeOutcome {
    match c.phase {
        Phase::Version => version_outcome(c, m),
        Phase::Types => types_outcome(c, m),
        Phase::VencryptVersion => vencrypt_version_outcome(c, m),
        Phase::VencryptTypes => vencrypt_types_outcome(c, m),
        Phase::Result(of) => result_outcome(c, of, m),
        Phase::Init => init_outcome(c, m),
        Phase::Rekey => rekey_outcome(c, m),
        _ => HandshakeOutcome::Short,
    }
}

/// What the front of the input means.
pub open spec fn handshake_outcome(c: Session, m: Seq<u8>) -> HandshakeOutcome {
    if c.scene.transport == Transport::Disconnected {
        HandshakeOutcome::Bad(Failure::NotConnected, c)
    } else {
        phase_outcome(c, m)
    }
}

impl VncClient {
    fn handshake_version(&mut self, m: &[u8]) -> (r: Result<Option<Order>, VncError>)
        requires
            old(self).wf(),
        ensures
            order_reports(r, old(self)@, final(self)@, version_outcome(old(self)@, m@)),
            final(self).wf(),
            r matches Ok(Some(o)) ==> o.used <= m@.len(),
    {
        if m.len() < BANNER_LEN {
            return Ok(None);
        }
        let banner = slice(m, 0, 12);
        assert(banner@ =~= m@.take(12));
        match answer_version(banner, self.config.high_performance) {
            Err(e) => Err(e),
            Ok(answer) => {
                self.state = ClientState::HandshakeVersion;
                self.phase = Phase::Types;
                Ok(Some(order(12, answer)))
            },
        }
    }

    fn handshake_types(&mut self, m: &[u8]) -> (r: Result<Option<Order>, VncError>)
        requires
            old(self).wf(),
        ensures
            order_reports(r, old(self)@, final(self)@, types_outcome(old(self)@, m@)),
            final(self).wf(),
            r matches Ok(Some(o)) ==> o.used <= m@.len(),
    {
        if m.len() == 0 {
            return Ok(None);
        }
        let n: usize = m[0] as usize;
        if n == 0 {
            if m.len() < 5 {
                return Ok(None);
            }
            let len: u32 = u32_at(m, 1);
            if len as usize > MAX_TEXT_LEN {
                return Err(
                    VncError::Protocol(
                        concat_text(
                            "Failure reason length exceeds limit: ",
                            decimal(len as u64).as_str(),
                        ),
                    ),
                );
            }
            let end: usize = 5 + len as usize;
            if m.len() < end {
                return Ok(None);
            }
            return Err(VncError::AuthFailed(lossy_string(slice(m, 5, end))));
        }
        if m.len() < 1 + n {
            return Ok(None);
        }
        self.server_security_types = to_vec(slice(m, 1, 1 + n));
        if offers(&self.server_security_types, protocol::SECURITY_VENCRYPT) {
            self.phase = Phase::VencryptVersion;
            let send: Vec<u8> = vec![protocol::SECURITY_VENCRYPT];
            assert(send@ =~= seq![protocol::SECURITY_VENCRYPT]);
            Ok(Some(order(1 + n, send)))
        } else {
            self.phase = Phase::Choice;
            Ok(Some(order(1 + n, Vec::new())))
        }
    }

    fn handshake_vencrypt_version(&mut self, m: &[u8]) -> (r: Result<Option<Order>, VncError>)
        requires
            old(self).wf(),
        ensures
            order_reports(r, old(self)@, final(self)@, vencrypt_version_outcome(old(self)@, m@)),
            final(self).wf(),
            r matches Ok(Some(o)) ==> o.used <= m@.len(),
    {
        if m.len() < 2 {
            return Ok(None);
        }
        match check_version(m[0], m[1]) {
            Err(e) => Err(e),
            Ok(answer) => {
                self.phase = Phase::VencryptTypes;
                Ok(Some(order(2, answer)))
            },
        }
    }

    fn handshake_vencrypt_types(&mut self, m: &[u8]) -> (r: Result<Option<Order>, VncError>)
        requires
            old(self).wf(),
        ensures
            order_reports(r, old(self)@, final(self)@, vencrypt_types_outcome(old(self)@, m@)),
            final(self).wf(),
            r matches Ok(Some(o)) ==> o.used <= m@.len(),
    {
        let handler = VencryptHandler { numbers: self.config.subtypes };
        match handler.negotiate(m) {
            Err(e) => Err(e),
            Ok(None) => Ok(None),
            Ok(Some((number, kind, used))) => {
                self.phase = match kind {
                    VencryptResult::Plain => Phase::Result(ResultOf::VencryptPlain),
                    VencryptResult::VncAuth => Phase::Outside(Deed::VncAuth),
                    VencryptResult::Tls => Phase::Outside(Deed::Tls { x509: false }),
                    VencryptResult::X509 => Phase::Outside(Deed::Tls { x509: true }),
                    VencryptResult::RsaAes => Phase::Outside(Deed::Aes(16)),
                    VencryptResult::RsaAes256 => Phase::Outside(Deed::Aes(32)),
                    VencryptResult::AppleDh => Phase::Outside(Deed::VencryptAppleDh),
                    VencryptResult::Sasl => Phase::Outside(Deed::Sasl),
                };
                Ok(Some(order(used, number)))
            },
        }
    }

    fn client_init(&self) -> (r: Vec<u8>)
        ensures
            r@ == seq![self@.shared],
    {
        let r: Vec<u8> = vec![self.client_init_shared];
        assert(r@ =~= seq![self@.shared]);
        r
    }

    fn handshake_result(&mut self, of: ResultOf, m: &[u8]) -> (r: Result<Option<Order>, VncError>)
        requires
            old(self).wf(),
        ensures
            order_reports(r, old(self)@, final(self)@, result_outcome(old(self)@, of, m@)),
            final(self).wf(),
            r matches Ok(Some(o)) ==> o.used <= m@.len(),
    {
        if m.len() < 4 {
            return Ok(None);
        }
        if u32_at(m, 0) != 0 {
            let text = match of {
                ResultOf::NoAuth => "Authentication failed",
                ResultOf::VencryptPlain => "VeNCrypt None auth failed",
                ResultOf::VencryptTls => "VeNCrypt TLS security result failed",
                ResultOf::VencryptX509 => "VeNCrypt X509 security result failed",
            };
            return Err(VncError::AuthFailed(text.to_owned()));
        }
        self.state = ClientState::HandshakeAuth;
        self.phase = Phase::Init;
        Ok(Some(order(4, self.client_init())))
    }

    fn build_prelude(&self) -> (r: Vec<u8>)
        requires
            self.wf(),
        ensures
            r@ == prelude(self@),
    {
        let empty: Vec<u8> = Vec::new();
        assert(empty@ =~= Seq::<u8>::empty());
        let mut out = build_viewer_info(&empty);
        push_all(&mut out, &build_set_encryption_command1());
        if self.config.apple_virtual_display {
            let display = build_set_display_configuration(
                self.config.apple_display_dynamic,
                &self.config.display_modes,
            );
            push_all(&mut out, &display);
        } else {
            assert(out@ + Seq::<u8>::empty() =~= out@);
        }
        push_all(&mut out, &build_set_encodings(&self.config.apple_hp_encodings));
        out
    }

    fn initialization(&mut self, m: &[u8]) -> (r: Result<Option<Order>, VncError>)
        requires
            old(self).wf(),
        ensures
            order_reports(r, old(self)@, final(self)@, init_outcome(old(self)@, m@)),
            final(self).wf(),
            r matches Ok(Some(o)) ==> o.used <= m@.len(),
    {
        if m.len() < INIT_LEN {
            return Ok(None);
        }
        let n: u32 = u32_at(m, 20);
        if n as usize > MAX_TEXT_LEN {
            return Err(
                VncError::Protocol(
                    concat_text("Desktop name length exceeds limit: ", decimal(n as u64).as_str()),
                ),
            );
        }
        let end: usize = INIT_LEN + n as usize;
        if m.len() < end {
            return Ok(None);
        }
        let width: u16 = u16_at(m, 0);
        let height: u16 = u16_at(m, 2);
        let ghost start = self@;
        self.desktop.width = width;
        self.desktop.height = height;
        self.desktop.pixel_format = PixelFormat::from_bytes(slice(m, 4, 20));
        self.desktop.name = lossy_string(slice(m, 24, end));
        assert(self@.scene == init_read(start.scene, m@));
        if let Err(e) = check_dimensions(width as u32, height as u32) {
            return Err(e);
        }
        self.desktop.resize(width, height);
        assert(self@.scene == init_scene(start.scene, m@));
        if self.config.high_performance && self.apple_wrap_key.is_none() {
            return Err(protocol_error("Apple high-performance mode requires a session wrap key"));
        }
        let told = self.desktop.name.as_str().to_owned();
        let mut events = one_event(VncEvent::GeometryChanged { width, height });
        push_event(&mut events, VncEvent::NameChanged(told));
        assert(event_views(events@) =~= seq![
            Event::GeometryChanged { width, height },
            Event::NameChanged(self@.scene.name),
        ]);
        let send = if self.config.high_performance {
            self.phase = Phase::Rekey;
            self.build_prelude()
        } else {
            self.state = ClientState::Ready;
            self.phase = Phase::Done;
            if self.config.encodings.len() > 0 {
                build_set_encodings(&numbers(&self.config.encodings))
            } else {
                Vec::new()
            }
        };
        Ok(Some(Order { used: end, send, events, body: None }))
    }

    fn read_apple_initial_rekey_body(&mut self, m: &[u8]) -> (r: Result<Option<Order>, VncError>)
        requires
            old(self).wf(),
        ensures
            order_reports(r, old(self)@, final(self)@, rekey_outcome(old(self)@, m@)),
            final(self).wf(),
            r matches Ok(Some(o)) ==> o.used <= m@.len(),
    {
        match read_rekey_message(m) {
            Err(e) => Err(e),
            Ok(None) => Ok(None),
            Ok(Some((used, found))) => match found {
                None => Ok(Some(order(used, Vec::new()))),
                Some(body) => {
                    self.phase = Phase::Switch;
                    Ok(
                        Some(
                            Order {
                                used,
                                send: build_post_encryption_toggle(),
                                events: no_events(),
                                body: Some(body),
                            },
                        ),
                    )
                },
            },
        }
    }

    /// Takes the next part of the handshake off the front of the input. `None`
    /// asks for more bytes.
    pub fn handshake_input(&mut self, m: &[u8]) -> (r: Result<Option<Order>, VncError>)
        requires
            old(self).wf(),
            wants_input(old(self)@.phase),
        ensures
            order_reports(r, old(self)@, final(self)@, handshake_outcome(old(self)@, m@)),
            final(self).wf(),
            r matches Ok(Some(o)) ==> o.used <= m@.len(),
    {
        if self.desktop.transport == Transport::Disconnected {
            return Err(VncError::NotConnected);
        }
        match self.phase {
            Phase::Version => self.handshake_version(m),
            Phase::Types => self.handshake_types(m),
            Phase::VencryptVersion => self.handshake_vencrypt_version(m),
            Phase::VencryptTypes => self.handshake_vencrypt_types(m),
            Phase::Result(of) => self.handshake_result(of, m),
            Phase::Init => self.initialization(m),
            Phase::Rekey => self.read_apple_initial_rekey_body(m),
            _ => Ok(None),
        }
    }

    /// Takes the choice of a security type, which is then to be sent.
    pub fn handshake_choice(&mut self, kind: u8) -> (r: Vec<u8>)
        requires
            old(self).wf(),
            old(self)@.phase == Phase::Choice,
        ensures
            final(self)@ == (Session { phase: chosen_phase(kind), ..old(self)@ }),
            r@ == seq![kind],
            final(self).wf(),
    {
        self.phase = if kind == protocol::SECURITY_NONE {
            Phase::Result(ResultOf::NoAuth)
        } else if kind == protocol::SECURITY_VNC_AUTH {
            Phase::Outside(Deed::VncAuth)
        } else if kind == protocol::SECURITY_RSA_AES {
            Phase::Outside(Deed::Aes(16))
        } else if kind == protocol::SECURITY_RSA_AES256 {
            Phase::Outside(Deed::Aes(32))
        } else if kind == protocol::SECURITY_VENCRYPT {
            Phase::VencryptVersion
        } else {
            Phase::Outside(Deed::Custom(kind))
        };
        let r: Vec<u8> = vec![kind];
        assert(r@ =~= seq![kind]);
        r
    }

    /// Whether work of the handshake can be done; to be asked before it is. The
    /// stream of a refused upgrade is to be dropped.
    pub fn check_deed(&mut self, deed: Deed) -> (r: Result<(), VncError>)
        requires
            old(self).wf(),
        ensures
            match deed_refusal(old(self)@, deed) {
                Some(f) => r matches Err(e) && e@ == f && final(self)@ == deed_failed(
                    old(self)@,
                    deed,
                ),
                None => r is Ok && final(self)@ == old(self)@,
            },
            final(self).wf(),
    {
        let r = self.judge_deed(deed);
        if r.is_err() {
            self.handshake_deed_failed(deed);
        }
        r
    }

    /// Records that work of the handshake has failed. The stream of an upgrade is
    /// to be dropped.
    pub fn handshake_deed_failed(&mut self, deed: Deed)
        requires
            old(self).wf(),
        ensures
            final(self)@ == deed_failed(old(self)@, deed),
            final(self).wf(),
    {
        match deed {
            Deed::Tls { .. } | Deed::Aes(_) => {
                self.desktop.transport = Transport::Disconnected;
            },
            _ => {},
        }
    }

    fn judge_deed(&self, deed: Deed) -> (r: Result<(), VncError>)
        ensures
            match deed_refusal(self@, deed) {
                Some(f) => r matches Err(e) && e@ == f,
                None => r is Ok,
            },
    {
        match deed {
            Deed::Tls { x509 } => self.upgrade_to_tls(),
            Deed::Aes(size) => self.upgrade_to_aes_ctr(size),
            Deed::Sasl => {
                if self.config.sasl_username.as_str().unicode_len() == 0 {
                    Err(VncError::AuthFailed("SASL username not configured".to_owned()))
                } else {
                    Ok(())
                }
            },
            Deed::VencryptAppleDh => Err(
                VncError::AuthFailed("VeNCrypt Apple DH sub-type not yet implemented".to_owned()),
            ),
            _ => Ok(()),
        }
    }

    fn upgrade_to_tls(&self) -> (r: Result<(), VncError>)
        ensures
            match tls_refusal(self@.scene.transport, self@.config.host@) {
                Some(f) => r matches Err(e) && e@ == f,
                None => r is Ok,
            },
    {
        match self.desktop.transport {
            Transport::Disconnected => Err(VncError::NotConnected),
            Transport::Tls => Err(protocol_error("Already TLS")),
            Transport::Aes => Err(protocol_error("Cannot upgrade AES stream to TLS")),
            Transport::WebSocket => Err(
                protocol_error("WebSocket not supported for VeNCrypt auth"),
            ),
            Transport::AppleHp => Err(protocol_error("Apple HP stream cannot be upgraded to TLS")),
            Transport::Plain => {
                if self.config.host.as_str().unicode_len() == 0 {
                    Err(protocol_error("Host not set for TLS upgrade"))
                } else {
                    Ok(())
                }
            },
        }
    }

    fn upgrade_to_aes_ctr(&self, size: u8) -> (r: Result<(), VncError>)
        ensures
            match aes_refusal(self@.scene.transport, size) {
                Some(f) => r matches Err(e) && e@ == f,
                None => r is Ok,
            },
    {
        match self.desktop.transport {
            Transport::Disconnected => Err(VncError::NotConnected),
            Transport::Tls => Err(protocol_error("RSA-AES over TLS not supported")),
            Transport::Aes => Err(protocol_error("Already AES encrypted")),
            Transport::WebSocket => Err(protocol_error("WebSocket not supported for RSA-AES auth")),
            Transport::AppleHp => Err(protocol_error("Apple HP stream cannot use RSA-AES")),
            Transport::Plain => {
                if size == 16 || size == 32 {
                    Ok(())
                } else {
                    Err(
                        VncError::Protocol(
                            concat_text(
                                "Invalid AES key size for RSA-AES: ",
                                decimal(size as u64).as_str(),
                            ),
                        ),
                    )
                }
            },
        }
    }

    /// Records that work of the handshake is done, with the key that it left for
    /// the record layer. What is returned is to be sent.
    pub fn handshake_deed_done(&mut self, key: Option<Vec<u8>>) -> (r: Vec<u8>)
        requires
            old(self).wf(),
            old(self)@.phase is Outside,
        ensures
            final(self)@ == deed_done(old(self)@, old(self)@.phase->Outside_0, key_view(key)),
            r@ == if old(self)@.phase->Outside_0 is Tls {
                Seq::empty()
            } else {
                seq![final(self)@.shared]
            },
            final(self).wf(),
    {
        if let Phase::Outside(deed) = self.phase {
            match deed {
                Deed::Tls { x509 } => {
                    self.desktop.transport = Transport::Tls;
                    self.phase = Phase::Result(
                        if x509 {
                            ResultOf::VencryptX509
                        } else {
                            ResultOf::VencryptTls
                        },
                    );
                    return Vec::new();
                },
                Deed::Aes(size) => {
                    self.desktop.transport = Transport::Aes;
                },
                Deed::Custom(kind) => {
                    if kind == apple::SECURITY_DH || kind == apple::SECURITY_RSA_SRP {
                        self.client_init_shared = if kind == apple::SECURITY_DH
                            && !self.config.high_performance {
                            apple::CLIENT_INIT_SHARED_LEGACY_ARD
                        } else {
                            apple::CLIENT_INIT_SHARED
                        };
                        if key.is_some() {
                            self.apple_wrap_key = key;
                        }
                    }
                },
                _ => {},
            }
        }
        self.state = ClientState::HandshakeAuth;
        self.phase = Phase::Init;
        self.client_init()
    }

    /// Makes the record layer that the stream is to be switched to. A plain
    /// stream whose layer cannot be made is to be dropped.
    pub fn start_record_layer(&mut self, body: &[u8]) -> (r: Result<AppleRecordLayer, VncError>)
        requires
            old(self).wf(),
            old(self)@.wrap_key is Some,
        ensures
            ({
                let c = old(self)@;
                let key = c.wrap_key.unwrap();
                if c.scene.transport == Transport::Disconnected {
                    r matches Err(e) && e@ == Failure::NotConnected
                } else if c.scene.transport != Transport::Plain {
                    r matches Err(e) && e@ == Failure::Protocol(
                        "Apple high-performance mode requires a plain TCP stream"@,
                    )
                } else if key.len() != 16 {
                    r matches Err(e) && e@ == Failure::Protocol(
                        "Apple record layer wrap key must be 16 bytes, got "@ + decimal_text(
                            key.len(),
                        ),
                    )
                } else if body@.len() != 36 {
                    r matches Err(e) && e@ == Failure::Protocol(
                        "Apple rekey body must be 36 bytes, got "@ + decimal_text(body@.len()),
                    )
                } else {
                    &&& r matches Ok(layer)
                    &&& layer.wrap_key@ == key
                    &&& (layer.content_key@, layer.enc_iv@)
                        == crate::apple_record_layer::unwrapped(key, body@)
                    &&& layer.dec_iv == layer.enc_iv
                    &&& layer.enc_seq == 0
                    &&& layer.dec_seq == 0
                }
            }),
            final(self)@ == if r is Err && old(self)@.scene.transport == Transport::Plain {
                Session {
                    scene: Scene { transport: Transport::Disconnected, ..old(self)@.scene },
                    ..old(self)@
                }
            } else {
                old(self)@
            },
            final(self).wf(),
    {
        match self.desktop.transport {
            Transport::Disconnected => Err(VncError::NotConnected),
            Transport::Plain => {
                let made = match &self.apple_wrap_key {
                    Some(key) => AppleRecordLayer::new_from_rekey(key, body),
                    None => Err(VncError::NotConnected),
                };
                if made.is_err() {
                    self.desktop.transport = Transport::Disconnected;
                }
                made
            },
            _ => Err(protocol_error("Apple high-performance mode requires a plain TCP stream")),
        }
    }

    /// Records that the stream has been switched to the record layer. What is
    /// returned is to be sent through it: the encodings, and, unless a media
    /// offer has to go first, a request for the whole desktop.
    pub fn handshake_switched(&mut self) -> (r: Vec<u8>)
        requires
            old(self).wf(),
            old(self)@.phase == Phase::Switch,
        ensures
            ({
                let c = old(self)@;
                let first = set_encodings(encoding_numbers(c.config.encodings@));
                let scene = Scene { transport: Transport::AppleHp, ..c.scene };
                if c.config.apple_media_stream_h264 {
                    r@ == first && final(self)@ == (Session { scene, phase: Phase::Offer, ..c })
                } else {
                    r@ == first + update_request(
                        false,
                        Area { x: 0, y: 0, width: scene.width, height: scene.height },
                    ) && final(self)@ == (Session {
                        scene,
                        state: ClientState::Ready,
                        phase: Phase::Done,
                        ..c
                    })
                }
            }),
            final(self).wf(),
    {
        self.desktop.transport = Transport::AppleHp;
        let mut out = build_set_encodings(&numbers(&self.config.encodings));
        if self.config.apple_media_stream_h264 {
            self.phase = Phase::Offer;
        } else {
            self.state = ClientState::Ready;
            self.phase = Phase::Done;
            let area = Area {
                x: 0,
                y: 0,
                width: self.desktop.width,
                height: self.desktop.height,
            };
            push_all(&mut out, &build_update_request(false, area));
        }
        out
    }

    /// Records that the media offer has been sent. What is returned is to be
    /// sent: a request for the whole desktop.
    pub fn handshake_offered(&mut self) -> (r: Vec<u8>)
        requires
            old(self).wf(),
            old(self)@.phase == Phase::Offer,
        ensures
            r@ == update_request(
                false,
                Area {
                    x: 0,
                    y: 0,
                    width: old(self)@.scene.width,
                    height: old(self)@.scene.height,
                },
            ),
            final(self)@ == (Session {
                state: ClientState::Ready,
                phase: Phase::Done,
                ..old(self)@
            }),
            final(self).wf(),
    {
        self.state = ClientState::Ready;
        self.phase = Phase::Done;
        let area = Area { x: 0, y: 0, width: self.desktop.width, height: self.desktop.height };
        build_update_request(false, area)
    }
}

} // verus!
