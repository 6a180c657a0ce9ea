//! A client session: its configuration, and where it stands.

pub mod agreed;
pub mod arrival;
pub mod handshake;
pub mod rekey;
pub mod send;

use vstd::prelude::*;

use crate::apple_media::MediaStreamKeys;
use crate::apple_record_layer::{apple_hp_encodings, hp_encodings, DisplayMode};
use crate::desktop::{Desktop, Scene, Transport};
use crate::encodings::{encoding_of, from_i32, Encoding};
use crate::framebuffer::{Framebuffer, Image, Transform};
use crate::messages::MAX_DIMENSION;
use crate::pixel_format::PixelFormat;
use crate::protocol::apple;
use crate::vencrypt::SubTypes;

verus! {

/// How far a client has come.
#[derive(Debug, Clone, Copy, PartialEq, Eq, Structural)]
pub enum ClientState {
    Disconnected,
    Connected,
    HandshakeVersion,
    HandshakeAuth,
    Ready,
}

/// The parties whose security result is read.
#[derive(Debug, Clone, Copy, PartialEq, Eq, Structural)]
pub enum ResultOf {
    NoAuth,
    VencryptPlain,
    VencryptTls,
    VencryptX509,
}

/// Work of the handshake that is left to the caller.
#[derive(Debug, Clone, Copy, PartialEq, Eq, Structural)]
pub enum Deed {
    /// Answer a challenge with the password.
    VncAuth,
    /// Authenticate with this security type.
    Custom(u8),
    /// Exchange an AES key of this many bytes and encrypt the stream with it.
    Aes(u8),
    /// Put TLS under the stream.
    Tls { x509: bool },
    /// Authenticate with SASL.
    Sasl,
    /// Authenticate with Apple's key exchange as a VeNCrypt sub-type.
    VencryptAppleDh,
}

/// What the handshake waits for.
#[derive(Debug, Clone, Copy, PartialEq, Eq, Structural)]
pub enum Phase {
    /// The server's version.
    Version,
    /// The server's security types.
    Types,
    /// The choice of a security type.
    Choice,
    /// The server's VeNCrypt version.
    VencryptVersion,
    /// The server's VeNCrypt sub-types.
    VencryptTypes,
    /// Work done by the caller.
    Outside(Deed),
    /// A security result.
    Result(ResultOf),
    /// The server's initialization.
    Init,
    /// The key material of the record layer.
    Rekey,
    /// The caller's switch to the record layer.
    Switch,
    /// The media offer.
    Offer,
    /// Nothing: the session is ready.
    Done,
}

/// What a client is asked for.
pub struct ClientConfig {
    pub encodings: Vec<Encoding>,
    pub host: String,
    pub sasl_username: String,
    pub sasl_password: String,
    /// Whether to negotiate Apple high-performance mode.
    pub high_performance: bool,
    pub apple_display_width: u16,
    pub apple_display_height: u16,
    pub apple_display_dynamic: bool,
    /// The scale of the virtual display, as the bits of a 32-bit float.
    pub apple_hidpi_scale: u32,
    /// The modes of the virtual display.
    pub display_modes: Vec<DisplayMode>,
    /// Whether to request a virtual display; otherwise the physical display is
    /// mirrored.
    pub apple_virtual_display: bool,
    /// Whether to offer the adaptive media stream.
    pub apple_media_stream_h264: bool,
    /// The encodings of the plaintext part of a high-performance handshake.
    pub apple_hp_encodings: Vec<i32>,
    /// The numbers of the VeNCrypt sub-types.
    pub subtypes: SubTypes,
}

impl ClientConfig {
    /// Whether every encoding has a number, and the mode table fits a message.
    pub open spec fn wf(&self) -> bool {
        &&& forall|i: int| 0 <= i < self.encodings@.len() ==> (#[trigger] self.encodings@[i]).valid()
        &&& self.display_modes@.len() <= 2000
    }
}

/// A client session.
pub struct VncClient {
    pub config: ClientConfig,
    pub desktop: Desktop,
    pub state: ClientState,
    pub phase: Phase,
    /// Value sent in the ClientInit shared byte.
    pub client_init_shared: u8,
    /// The security types that the server offered.
    pub server_security_types: Vec<u8>,
    /// The key that authentication left for the record layer.
    pub apple_wrap_key: Option<Vec<u8>>,
    /// The keys of the last media offer.
    pub apple_media_stream_keys: Option<MediaStreamKeys>,
}

/// What a [`VncClient`] holds.
pub struct Session {
    pub config: ClientConfig,
    pub scene: Scene,
    pub state: ClientState,
    pub phase: Phase,
    pub shared: u8,
    pub types: Seq<u8>,
    pub wrap_key: Option<Seq<u8>>,
    pub media_keys: Option<MediaStreamKeys>,
}

/// A key that may be missing, as bytes.
pub open spec fn key_view(key: Option<Vec<u8>>) -> Option<Seq<u8>> {
    match key {
        Some(k) => Some(k@),
        None => None,
    }
}

impl View for VncClient {
    type V = Session;

    open spec fn view(&self) -> Session {
        Session {
            config: self.config,
            scene: self.desktop@,
            state: self.state,
            phase: self.phase,
            shared: self.client_init_shared,
            types: self.server_security_types@,
            wrap_key: key_view(self.apple_wrap_key),
            media_keys: self.apple_media_stream_keys,
        }
    }
}

/// The numbers of a list of encodings.
pub open spec fn encoding_numbers(encodings: Seq<Encoding>) -> Seq<i32> {
    Seq::new(encodings.len(), |i: int| encodings[i].number())
}

/// Reads the numbers of a list of encodings.
pub fn numbers(encodings: &[Encoding]) -> (r: Vec<i32>)
    requires
        forall|i: int| 0 <= i < encodings@.len() ==> (#[trigger] encodings@[i]).valid(),
    ensures
        r@ == encoding_numbers(encodings@),
{
    let mut out: Vec<i32> = Vec::new();
    let n: usize = encodings.len();
    let mut i: usize = 0;
    while i < n
        invariant
            n == encodings@.len(),
            i <= n,
            forall|j: int| 0 <= j < encodings@.len() ==> (#[trigger] encodings@[j]).valid(),
            out@ == encoding_numbers(encodings@.take(i as int)),
        decreases n - i,
    {
        out.push(encodings[i].as_i32());
        i = i + 1;
        assert(out@ =~= encoding_numbers(encodings@.take(i as int)));
    }
    assert(encodings@.take(n as int) =~= encodings@);
    out
}

/// A list of encodings with one more, unless it is there already.
pub open spec fn with_new(list: Seq<Encoding>, e: Encoding) -> Seq<Encoding> {
    if list.contains(e) {
        list
    } else {
        list.push(e)
    }
}

/// A list of encodings with the first `n` of another, each unless it is there
/// already.
pub open spec fn with_all_new(list: Seq<Encoding>, more: Seq<Encoding>, n: nat) -> Seq<Encoding>
    decreases n,
{
    if n == 0 {
        list
    } else {
        with_new(with_all_new(list, more, (n - 1) as nat), more[n - 1])
    }
}

/// An encoding under its number.
pub open spec fn encoding_under(value: i32) -> Encoding {
    match encoding_of(value) {
        Some(e) => e,
        None => Encoding::AppleHp(value),
    }
}

/// Apple's high-performance encodings.
pub open spec fn apple_encodings() -> Seq<Encoding> {
    Seq::new(hp_encodings().len(), |i: int| encoding_under(hp_encodings()[i]))
}

/// The encodings of a high-performance session: Apple's first, then the user's,
/// none of them twice.
pub open spec fn merged(user: Seq<Encoding>) -> Seq<Encoding> {
    with_all_new(
        with_all_new(Seq::empty(), apple_encodings(), apple_encodings().len()),
        user,
        user.len(),
    )
}

proof fn lemma_with_all_new(list: Seq<Encoding>, more: Seq<Encoding>, n: nat)
    requires
        n <= more.len(),
    ensures
        list.no_duplicates() ==> with_all_new(list, more, n).no_duplicates(),
        list.len() <= with_all_new(list, more, n).len(),
        with_all_new(list, more, n).take(list.len() as int) == list,
        forall|i: int| 0 <= i < n ==> #[trigger] with_all_new(list, more, n).contains(more[i]),
        forall|e: Encoding|
            #[trigger] with_all_new(list, more, n).contains(e) ==> list.contains(e) || more.contains(
                e,
            ),
    decreases n,
{
    if n == 0 {
        assert(list.take(list.len() as int) =~= list);
    } else {
        let k = (n - 1) as nat;
        lemma_with_all_new(list, more, k);
        let before = with_all_new(list, more, k);
        let after = with_all_new(list, more, n);
        let e = more[n - 1];
        assert(more.contains(e));
        assert(after.take(list.len() as int) =~= before.take(list.len() as int));
        assert forall|i: int| 0 <= i < n implies #[trigger] after.contains(more[i]) by {
            if i < k {
                assert(before.contains(more[i]));
                let j = choose|j: int| 0 <= j < before.len() && before[j] == more[i];
                assert(after[j] == more[i]);
            } else if before.contains(e) {
            } else {
                assert(after[before.len() as int] == e);
            }
        }
        assert forall|x: Encoding| #[trigger] after.contains(x) implies list.contains(x)
            || more.contains(x) by {
            let j = choose|j: int| 0 <= j < after.len() && after[j] == x;
            if j < before.len() {
                assert(before[j] == x);
                assert(before.contains(x));
            }
        }
    }
}

/// A high-performance session lists Apple's encodings first, keeps every one of
/// the user's, lists nothing else, and lists nothing twice.
pub proof fn lemma_merged_encodings(user: Seq<Encoding>)
    ensures
        merged(user).no_duplicates(),
        merged(user).take(apple_encodings().len() as int) == apple_encodings(),
        forall|i: int| 0 <= i < user.len() ==> #[trigger] merged(user).contains(user[i]),
        forall|e: Encoding|
            #[trigger] merged(user).contains(e) ==> apple_encodings().contains(e) || user.contains(
                e,
            ),
{
    let a = apple_encodings();
    let first = with_all_new(Seq::empty(), a, a.len());
    lemma_with_all_new(Seq::empty(), a, a.len());
    lemma_apple_first(a.len());
    lemma_with_all_new(first, user, user.len());
    assert(a.take(a.len() as int) =~= a);
    assert forall|e: Encoding| #[trigger] merged(user).contains(e) implies a.contains(e)
        || user.contains(e) by {
        if first.contains(e) {
            assert(with_all_new(Seq::empty(), a, a.len()).contains(e));
        }
    }
}

proof fn lemma_apple_distinct()
    ensures
        apple_encodings().no_duplicates(),
{
    let v = hp_encodings();
    assert forall|i: int, j: int|
        0 <= i < apple_encodings().len() && 0 <= j < apple_encodings().len() && i
            != j implies apple_encodings()[i] != apple_encodings()[j] by {
        crate::encodings::lemma_as_i32_inverts_from_i32(v[i]);
        crate::encodings::lemma_as_i32_inverts_from_i32(v[j]);
        assert(encoding_under(v[i]).number() == v[i]);
        assert(encoding_under(v[j]).number() == v[j]);
        assert(v[i] != v[j]);
    }
}

proof fn lemma_apple_first(n: nat)
    requires
        n <= apple_encodings().len(),
    ensures
        with_all_new(Seq::empty(), apple_encodings(), n) == apple_encodings().take(n as int),
    decreases n,
{
    let a = apple_encodings();
    if n == 0 {
        assert(a.take(0) =~= Seq::<Encoding>::empty());
    } else {
        lemma_apple_first((n - 1) as nat);
        lemma_apple_distinct();
        let before = a.take(n - 1);
        assert(!before.contains(a[n - 1])) by {
            if before.contains(a[n - 1]) {
                let j = choose|j: int| 0 <= j < before.len() && before[j] == a[n - 1];
                assert(a[j] == a[n - 1]);
            }
        }
        assert(a.take(n as int) =~= before.push(a[n - 1]));
    }
}

fn holds(list: &[Encoding], e: Encoding) -> (r: bool)
    ensures
        r == list@.contains(e),
{
    let n: usize = list.len();
    let mut i: usize = 0;
    while i < n
        invariant
            n == list@.len(),
            i <= n,
            forall|j: int| 0 <= j < i ==> list@[j] != e,
        decreases n - i,
    {
        if list[i] == e {
            return true;
        }
        i = i + 1;
    }
    false
}

fn add_all_new(list: &mut Vec<Encoding>, more: &[Encoding])
    ensures
        final(list)@ == with_all_new(old(list)@, more@, more@.len()),
{
    let n: usize = more.len();
    let mut i: usize = 0;
    while i < n
        invariant
            n == more@.len(),
            i <= n,
            list@ == with_all_new(old(list)@, more@, i as nat),
        decreases n - i,
    {
        let e: Encoding = more[i];
        if !holds(list, e) {
            list.push(e);
        }
        i = i + 1;
    }
}

fn apple_list() -> (r: Vec<Encoding>)
    ensures
        r@ == apple_encodings(),
{
    let values = apple_hp_encodings();
    let n: usize = values.len();
    let mut out: Vec<Encoding> = Vec::new();
    let mut i: usize = 0;
    while i < n
        invariant
            n == values@.len(),
            values@ == hp_encodings(),
            i <= n,
            out@ == apple_encodings().take(i as int),
        decreases n - i,
    {
        let e: Encoding = match from_i32(values[i]) {
            Some(e) => e,
            None => Encoding::AppleHp(values[i]),
        };
        out.push(e);
        i = i + 1;
        assert(out@ =~= apple_encodings().take(i as int));
    }
    assert(out@ =~= apple_encodings());
    out
}

/// Builder for [`VncClient`].
///
/// Provides a fluent API for configuring connection parameters before
/// creating the client. All settings are optional; defaults are reasonable
/// for most use cases.
pub struct VncClientBuilder {
    pub pixel_format: Option<PixelFormat>,
    pub encodings: Vec<Encoding>,
    pub sasl_username: String,
    pub sasl_password: String,
    pub high_performance: bool,
    pub apple_display_width: u16,
    pub apple_display_height: u16,
    pub apple_display_dynamic: bool,
    pub apple_hidpi_scale: u32,
    pub apple_virtual_display: bool,
    pub apple_media_stream_h264: bool,
}

/// The bits of the scale 2.0.
pub const DEFAULT_SCALE: u32 = 0x4000_0000;

/// The encodings that a client asks for by default.
pub open spec fn default_encodings() -> Seq<Encoding> {
    seq![
        Encoding::Tight,
        Encoding::Zrle,
        Encoding::Hextile,
        Encoding::Raw,
        Encoding::CopyRect,
        Encoding::Rre,
        Encoding::Trle,
        Encoding::OpenH264,
        Encoding::DesktopSize,
        Encoding::DesktopName,
        Encoding::ExtendedDesktopSize,
        Encoding::Cursor,
        Encoding::ContinuousUpdates,
        Encoding::ExtendedClipboard,
        Encoding::Fence,
    ]
}

impl VncClientBuilder {
    /// Whether every encoding has a number.
    pub open spec fn wf(&self) -> bool {
        forall|i: int| 0 <= i < self.encodings@.len() ==> (#[trigger] self.encodings@[i]).valid()
    }

    /// A builder with the defaults.
    pub fn new() -> (r: Self)
        ensures
            r.wf(),
            r.pixel_format is None,
            r.encodings@ == default_encodings(),
            r.sasl_username@ == Seq::<char>::empty(),
            r.sasl_password@ == Seq::<char>::empty(),
            !r.high_performance,
            r.apple_display_width == 1920,
            r.apple_display_height == 1080,
            !r.apple_display_dynamic,
            r.apple_hidpi_scale == DEFAULT_SCALE,
            r.apple_virtual_display,
            !r.apple_media_stream_h264,
    {
        let encodings: Vec<Encoding> = vec![
            Encoding::Tight,
            Encoding::Zrle,
            Encoding::Hextile,
            Encoding::Raw,
            Encoding::CopyRect,
            Encoding::Rre,
            Encoding::Trle,
            Encoding::OpenH264,
            Encoding::DesktopSize,
            Encoding::DesktopName,
            Encoding::ExtendedDesktopSize,
            Encoding::Cursor,
            Encoding::ContinuousUpdates,
            Encoding::ExtendedClipboard,
            Encoding::Fence,
        ];
        assert(encodings@ =~= default_encodings());
        VncClientBuilder {
            pixel_format: None,
            encodings,
            sasl_username: String::new(),
            sasl_password: String::new(),
            high_performance: false,
            apple_display_width: 1920,
            apple_display_height: 1080,
            apple_display_dynamic: false,
            apple_hidpi_scale: DEFAULT_SCALE,
            apple_virtual_display: true,
            apple_media_stream_h264: false,
        }
    }

    /// Enable Apple high-performance mode (RFB 003.889 + RSA-SRP + encrypted record layer).
    ///
    /// When enabled, the Apple HP encodings are prepended to the current
    /// encoding list rather than replacing it, so user-supplied fallbacks are
    /// preserved.
    pub fn high_performance(self, enable: bool) -> (r: Self)
        ensures
            r == (VncClientBuilder { high_performance: enable, ..self }),
    {
        let mut b = self;
        b.high_performance = enable;
        b
    }

    /// Enable the Apple HP adaptive media stream path.
    ///
    /// Has no effect unless [`Self::high_performance`] is also enabled.
    pub fn apple_media_stream_h264(self, enable: bool) -> (r: Self)
        ensures
            r == (VncClientBuilder { apple_media_stream_h264: enable, ..self }),
    {
        let mut b = self;
        b.apple_media_stream_h264 = enable;
        b
    }

    /// Configure the Apple HP virtual display resolution.
    pub fn apple_display_size(self, width: u16, height: u16) -> (r: Self)
        ensures
            r == (VncClientBuilder {
                apple_display_width: width,
                apple_display_height: height,
                ..self
            }),
    {
        let mut b = self;
        b.apple_display_width = width;
        b.apple_display_height = height;
        b
    }

    /// Request a dynamic-resolution Apple virtual display.
    pub fn apple_display_dynamic(self, dynamic: bool) -> (r: Self)
        ensures
            r == (VncClientBuilder { apple_display_dynamic: dynamic, ..self }),
    {
        let mut b = self;
        b.apple_display_dynamic = dynamic;
        b
    }

    /// Set the Apple HP virtual display HiDPI scale, as the bits of a 32-bit
    /// float.
    pub fn apple_hidpi_scale(self, bits: u32) -> (r: Self)
        ensures
            r == (VncClientBuilder { apple_hidpi_scale: bits, ..self }),
    {
        let mut b = self;
        b.apple_hidpi_scale = bits;
        b
    }

    /// Control whether Apple HP mode requests a virtual display.
    pub fn apple_virtual_display(self, enable: bool) -> (r: Self)
        ensures
            r == (VncClientBuilder { apple_virtual_display: enable, ..self }),
    {
        let mut b = self;
        b.apple_virtual_display = enable;
        b
    }

    /// Set SASL credentials for VeNCrypt SASL authentication.
    pub fn sasl_credentials(self, username: &str, password: &str) -> (r: Self)
        ensures
            r.sasl_username@ == username@,
            r.sasl_password@ == password@,
            r == (VncClientBuilder {
                sasl_username: r.sasl_username,
                sasl_password: r.sasl_password,
                ..self
            }),
    {
        let mut b = self;
        b.sasl_username = username.to_owned();
        b.sasl_password = password.to_owned();
        b
    }

    /// Set the pixel format to start with.
    pub fn pixel_format(self, format: PixelFormat) -> (r: Self)
        ensures
            r == (VncClientBuilder { pixel_format: Some(format), ..self }),
    {
        let mut b = self;
        b.pixel_format = Some(format);
        b
    }

    /// Set the encodings to ask for, best first.
    pub fn encodings(self, encodings: Vec<Encoding>) -> (r: Self)
        ensures
            r == (VncClientBuilder { encodings, ..self }),
    {
        let mut b = self;
        b.encodings = encodings;
        b
    }

    /// Set JPEG quality level (0-9) as a pseudo-encoding.
    pub fn jpeg_quality(self, level: u8) -> (r: Self)
        ensures
            r.encodings@ == self.encodings@.push(
                Encoding::JpegQuality(
                    if level <= 9 {
                        level as i32
                    } else {
                        9
                    },
                ),
            ),
            r == (VncClientBuilder { encodings: r.encodings, ..self }),
            self.wf() ==> r.wf(),
    {
        let mut b = self;
        b.encodings.push(
            Encoding::JpegQuality(
                if level <= 9 {
                    level as i32
                } else {
                    9
                },
            ),
        );
        b
    }

    /// Makes the client. Its clock starts at `now`.
    pub fn build(self, subtypes: SubTypes, now: u64) -> (r: VncClient)
        requires
            self.wf(),
        ensures
            r.wf(),
            r@.scene == Scene::blank(
                match self.pixel_format {
                    Some(format) => format,
                    None => PixelFormat::rgba(),
                },
                now,
            ),
            r@.types == Seq::<u8>::empty(),
            r@.wrap_key is None,
            r@.media_keys is None,
            r@.state == ClientState::Disconnected,
            r@.phase == Phase::Version,
            r@.shared == if self.high_performance {
                apple::CLIENT_INIT_SHARED
            } else {
                1u8
            },
            r.config.encodings@ == if self.high_performance {
                merged(self.encodings@)
            } else {
                self.encodings@
            },
            r.config.apple_hp_encodings@ == if self.high_performance {
                encoding_numbers(merged(self.encodings@))
            } else {
                hp_encodings()
            },
            r.config.host@ == Seq::<char>::empty(),
            r.config.display_modes@ == Seq::<DisplayMode>::empty(),
            r.config.sasl_username == self.sasl_username,
            r.config.sasl_password == self.sasl_password,
            r.config.high_performance == self.high_performance,
            r.config.apple_display_width == self.apple_display_width,
            r.config.apple_display_height == self.apple_display_height,
            r.config.apple_display_dynamic == self.apple_display_dynamic,
            r.config.apple_hidpi_scale == self.apple_hidpi_scale,
            r.config.apple_virtual_display == self.apple_virtual_display,
            r.config.apple_media_stream_h264 == self.apple_media_stream_h264,
            r.config.subtypes == subtypes,
    {
        let mut client = VncClient::new(subtypes, now);
        if let Some(format) = self.pixel_format {
            client.desktop.pixel_format = format;
        }
        client.config.sasl_username = self.sasl_username;
        client.config.sasl_password = self.sasl_password;
        client.config.high_performance = self.high_performance;
        client.config.apple_display_width = self.apple_display_width;
        client.config.apple_display_height = self.apple_display_height;
        client.config.apple_display_dynamic = self.apple_display_dynamic;
        client.config.apple_hidpi_scale = self.apple_hidpi_scale;
        client.config.apple_virtual_display = self.apple_virtual_display;
        client.config.apple_media_stream_h264 = self.apple_media_stream_h264;
        if self.high_performance {
            client.client_init_shared = apple::CLIENT_INIT_SHARED;
            let mut list: Vec<Encoding> = Vec::new();
            assert(list@ =~= Seq::<Encoding>::empty());
            add_all_new(&mut list, &apple_list());
            add_all_new(&mut list, &self.encodings);
            proof {
                lemma_merged_encodings(self.encodings@);
                assert forall|i: int| 0 <= i < list@.len() implies (
                #[trigger] list@[i]).valid() by {
                    assert(merged(self.encodings@).contains(list@[i]));
                    if apple_encodings().contains(list@[i]) {
                        let j = choose|j: int|
                            0 <= j < apple_encodings().len() && apple_encodings()[j] == list@[i];
                        assert(!(encoding_under(hp_encodings()[j]) is JpegQuality));
                    } else {
                        let j = choose|j: int|
                            0 <= j < self.encodings@.len() && self.encodings@[j] == list@[i];
                        assert(self.encodings@[j].valid());
                    }
                }
            }
            client.config.apple_hp_encodings = numbers(&list);
            client.config.encodings = list;
        } else {
            client.config.encodings = self.encodings;
        }
        client
    }
}

impl VncClient {
    /// Whether the configuration and the desktop are within their limits.
    pub open spec fn wf(&self) -> bool {
        self.config.wf() && self.desktop.wf()
    }

    /// Create a new VNC client (not connected yet). Its clock starts at `now`.
    pub fn new(subtypes: SubTypes, now: u64) -> (r: Self)
        ensures
            r.wf(),
            r@.state == ClientState::Disconnected,
            r@.phase == Phase::Version,
            r@.scene == Scene::blank(PixelFormat::rgba(), now),
            r@.shared == 1,
            r@.types == Seq::<u8>::empty(),
            r@.wrap_key is None,
            r@.media_keys is None,
            r.config.encodings@ == Seq::<Encoding>::empty(),
            r.config.host@ == Seq::<char>::empty(),
            r.config.sasl_username@ == Seq::<char>::empty(),
            r.config.sasl_password@ == Seq::<char>::empty(),
            !r.config.high_performance,
            r.config.apple_display_width == 1920,
            r.config.apple_display_height == 1080,
            !r.config.apple_display_dynamic,
            r.config.apple_hidpi_scale == DEFAULT_SCALE,
            r.config.display_modes@ == Seq::<DisplayMode>::empty(),
            r.config.apple_virtual_display,
            !r.config.apple_media_stream_h264,
            r.config.apple_hp_encodings@ == hp_encodings(),
            r.config.subtypes == subtypes,
    {
        VncClient {
            config: ClientConfig {
                encodings: Vec::new(),
                host: String::new(),
                sasl_username: String::new(),
                sasl_password: String::new(),
                high_performance: false,
                apple_display_width: 1920,
                apple_display_height: 1080,
                apple_display_dynamic: false,
                apple_hidpi_scale: DEFAULT_SCALE,
                display_modes: Vec::new(),
                apple_virtual_display: true,
                apple_media_stream_h264: false,
                apple_hp_encodings: apple_hp_encodings(),
                subtypes,
            },
            desktop: Desktop::new(PixelFormat::rgba32(), now),
            state: ClientState::Disconnected,
            phase: Phase::Version,
            client_init_shared: 1,
            server_security_types: Vec::new(),
            apple_wrap_key: None,
            apple_media_stream_keys: None,
        }
    }

    /// Set the server hostname for TLS certificate verification.
    pub fn set_host(&mut self, host: &str)
        ensures
            final(self)@ == (Session {
                config: ClientConfig { host: final(self).config.host, ..old(self).config },
                ..old(self)@
            }),
            final(self).config.host@ == host@,
            old(self).wf() ==> final(self).wf(),
    {
        self.config.host = host.to_owned();
    }

    /// Set the modes of the virtual display.
    pub fn set_display_modes(&mut self, modes: Vec<DisplayMode>)
        requires
            old(self).wf(),
            modes@.len() <= 2000,
        ensures
            final(self)@ == (Session {
                config: ClientConfig { display_modes: modes, ..old(self).config },
                ..old(self)@
            }),
            final(self).wf(),
    {
        self.config.display_modes = modes;
    }

    /// Records that a connection is up; the handshake can start.
    pub fn connected(&mut self, transport: Transport)
        requires
            old(self).wf(),
        ensures
            final(self)@ == (Session {
                scene: Scene { transport, ..old(self)@.scene },
                state: ClientState::Connected,
                phase: Phase::Version,
                ..old(self)@
            }),
            final(self).wf(),
    {
        self.desktop.transport = transport;
        self.state = ClientState::Connected;
        self.phase = Phase::Version;
    }

    /// Return the security types advertised by the server during the last handshake.
    pub fn server_security_types(&self) -> (r: &[u8])
        ensures
            r@ == self@.types,
    {
        self.server_security_types.as_slice()
    }

    /// Scaled (logical-point) geometry from the latest Apple display layout, if
    /// one has been received.
    pub fn apple_scaled_size(&self) -> (r: Option<(u16, u16)>)
        ensures
            r == self@.scene.scaled_size,
    {
        self.desktop.scaled_size
    }

    /// Return the SRTP master keys of the last media offer, if any.
    pub fn apple_media_stream_keys(&self) -> (r: Option<&MediaStreamKeys>)
        ensures
            match r {
                Some(keys) => self@.media_keys == Some(*keys),
                None => self@.media_keys is None,
            },
    {
        self.apple_media_stream_keys.as_ref()
    }

    /// Get the current framebuffer.
    pub fn framebuffer(&self) -> (r: &Framebuffer)
        ensures
            r@ == self@.scene.image,
    {
        &self.desktop.framebuffer
    }

    /// Get mutable framebuffer.
    pub fn framebuffer_mut(&mut self) -> (r: &mut Framebuffer)
        ensures
            *r == old(self).desktop.framebuffer,
            final(self)@ == (Session {
                scene: Scene { image: final(r)@, ..old(self)@.scene },
                ..old(self)@
            }),
            old(self).wf() && final(r).width <= MAX_DIMENSION && final(r).height <= MAX_DIMENSION
                ==> final(self).wf(),
    {
        &mut self.desktop.framebuffer
    }

    /// Get dimensions.
    pub fn dimensions(&self) -> (r: (u16, u16))
        ensures
            r == (self@.scene.width, self@.scene.height),
    {
        (self.desktop.width, self.desktop.height)
    }

    /// Get desktop width.
    pub fn width(&self) -> (r: u16)
        ensures
            r == self@.scene.width,
    {
        self.desktop.width
    }

    /// Get desktop height.
    pub fn height(&self) -> (r: u16)
        ensures
            r == self@.scene.height,
    {
        self.desktop.height
    }

    /// Get desktop name.
    pub fn name(&self) -> (r: &str)
        ensures
            r@ == self@.scene.name,
    {
        self.desktop.name.as_str()
    }

    /// Get pixel format.
    pub fn pixel_format(&self) -> (r: &PixelFormat)
        ensures
            *r == self@.scene.format,
    {
        &self.desktop.pixel_format
    }

    /// Set framebuffer transform for rendering (rotation, flip).
    pub fn set_transform(&mut self, transform: Transform)
        requires
            old(self).wf(),
        ensures
            final(self)@ == (Session {
                scene: Scene {
                    image: Image { transform, ..old(self)@.scene.image },
                    ..old(self)@.scene
                },
                ..old(self)@
            }),
            final(self).wf(),
    {
        self.desktop.framebuffer.set_transform(transform);
    }
}

} // verus!
