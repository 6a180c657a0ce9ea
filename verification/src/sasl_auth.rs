//! SASL authentication for VeNCrypt.
//!
//! 1. The server sends the names of its mechanisms.
//! 2. The client selects one mechanism and sends its name.
//! 3. The client sends its initial payload.
//! 4. The server sends a status (0 = OK, 1 = CONTINUE, 2 = ERROR) and data.
//! 5. Repeat 4 until OK or ERROR.

use sasl::client::mechanisms::{Plain, Scram};
use sasl::client::Mechanism;
use sasl::common::scram::{Sha1, Sha256};
use sasl::common::Credentials;
use vstd::prelude::*;
use vstd::utf8::encode_utf8;

use crate::error::{Failure, VncError};
use crate::messages::long_at;
use crate::text::{concat_text, decimal, decimal_text, lossy_string, lossy_text, same_text};
use crate::wire::{
    be32, lemma_high_byte_first, lemma_holds_both, push_all, push_u32, slice, to_vec, u32_at,
    u32_of,
};

verus! {

/// Credentials for SASL.
pub struct SaslAuth {
    pub username: String,
    pub password: String,
}

/// A mechanism that the client speaks.
#[derive(Debug, Clone, Copy, PartialEq, Eq, Structural)]
pub enum SaslMechanism {
    Plain,
    ScramSha1,
    ScramSha256,
}

/// The first payload of PLAIN: two texts, each behind a zero byte.
pub open spec fn plain_payload(username: Seq<char>, password: Seq<char>) -> Seq<u8> {
    seq![0u8] + encode_utf8(username) + seq![0u8] + encode_utf8(password)
}

/// The first payload of SCRAM without channel binding: the username and a nonce.
pub open spec fn scram_first(username: Seq<char>, nonce: Seq<u8>) -> Seq<u8> {
    seq![121u8, 44u8, 44u8, 110u8, 61u8] + encode_utf8(username) + seq![44u8, 114u8, 61u8] + nonce
}

/// An exchange with a server, under way in one of sasl's mechanisms.
#[verifier::external_body]
pub struct Exchange {
    inner: Box<dyn Mechanism>,
}

/// What a mechanism was given and what it said.
pub struct Dialogue {
    pub kind: SaslMechanism,
    pub username: Seq<char>,
    pub password: Seq<char>,
    /// The first payload, once it was asked for.
    pub first: Option<Seq<u8>>,
    /// The challenge that SCRAM answered.
    pub answered: Option<Seq<u8>>,
}

/// What an exchange has come to.
pub uninterp spec fn dialogue(x: Exchange) -> Dialogue;

/// What a mechanism answers to a challenge: a payload, or the text of an error.
pub uninterp spec fn response_to(d: Dialogue, challenge: Seq<u8>) -> Result<Seq<u8>, Seq<char>>;

/// Why a mechanism does not accept the data that a server ends the exchange
/// with; `None` where it accepts them.
pub uninterp spec fn success_refusal(d: Dialogue, data: Seq<u8>) -> Option<Seq<char>>;

impl Dialogue {
    /// Nothing has been said.
    pub open spec fn fresh(
        kind: SaslMechanism,
        username: Seq<char>,
        password: Seq<char>,
    ) -> Dialogue {
        Dialogue { kind, username, password, first: None, answered: None }
    }

    /// Whether `payload` can be the first one: SCRAM draws a nonce of 44 bytes.
    pub open spec fn opens_with(self, payload: Seq<u8>) -> bool {
        match self.kind {
            SaslMechanism::Plain => payload == plain_payload(self.username, self.password),
            _ => exists|nonce: Seq<u8>|
                nonce.len() == 44 && payload == #[trigger] scram_first(self.username, nonce),
        }
    }

    /// The dialogue once a challenge is answered.
    pub open spec fn having_answered(self, challenge: Seq<u8>) -> Dialogue {
        match self.kind {
            SaslMechanism::Plain => self,
            _ => Dialogue { answered: Some(challenge), ..self },
        }
    }
}

/// What a mechanism made of data, by its bytes and its text.
pub open spec fn answer_view(r: Result<Vec<u8>, String>) -> Result<Seq<u8>, Seq<char>> {
    match r {
        Ok(payload) => Ok(payload@),
        Err(text) => Err(text@),
    }
}

/// sasl's `Plain::from_credentials`: a username and a password are enough.
#[verifier::external_body]
fn plain_exchange(username: &str, password: &str) -> (r: Result<Exchange, String>)
    ensures
        match r {
            Ok(x) => dialogue(x) == Dialogue::fresh(SaslMechanism::Plain, username@, password@),
            Err(text) => false,
        },
{
    let credentials = Credentials::default().with_username(username).with_password(password);
    match Plain::from_credentials(credentials) {
        Ok(m) => Ok(Exchange { inner: Box::new(m) }),
        Err(e) => Err(e.to_string()),
    }
}

/// sasl's `Scram::<Sha1>::from_credentials`: it fails only where the system
/// gives no random bytes for a nonce.
#[verifier::external_body]
fn scram_sha1_exchange(username: &str, password: &str) -> (r: Result<Exchange, String>)
    ensures
        match r {
            Ok(x) => dialogue(x) == Dialogue::fresh(
                SaslMechanism::ScramSha1,
                username@,
                password@,
            ),
            Err(text) => text@ == "can't generate nonce"@,
        },
{
    let credentials = Credentials::default().with_username(username).with_password(password);
    match Scram::<Sha1>::from_credentials(credentials) {
        Ok(m) => Ok(Exchange { inner: Box::new(m) }),
        Err(e) => Err(e.to_string()),
    }
}

/// sasl's `Scram::<Sha256>::from_credentials`: it fails only where the system
/// gives no random bytes for a nonce.
#[verifier::external_body]
fn scram_sha256_exchange(username: &str, password: &str) -> (r: Result<Exchange, String>)
    ensures
        match r {
            Ok(x) => dialogue(x) == Dialogue::fresh(
                SaslMechanism::ScramSha256,
                username@,
                password@,
            ),
            Err(text) => text@ == "can't generate nonce"@,
        },
{
    let credentials = Credentials::default().with_username(username).with_password(password);
    match Scram::<Sha256>::from_credentials(credentials) {
        Ok(m) => Ok(Exchange { inner: Box::new(m) }),
        Err(e) => Err(e.to_string()),
    }
}

/// sasl's `Mechanism::initial`: PLAIN gives both texts, each behind a zero byte,
/// SCRAM the username and the nonce that it drew. SCRAM starts anew with it.
#[verifier::external_body]
fn mechanism_initial(x: &mut Exchange) -> (r: Vec<u8>)
    ensures
        dialogue(*old(x)).opens_with(r@),
        dialogue(*final(x)) == (Dialogue { first: Some(r@), answered: None, ..dialogue(*old(x)) }),
{
    x.inner.initial()
}

/// sasl's `Mechanism::response`: what it gives depends on what was said before
/// and on the challenge. PLAIN has nothing to say to any challenge. A refused
/// challenge changes nothing.
#[verifier::external_body]
fn mechanism_response(x: &mut Exchange, challenge: &[u8]) -> (r: Result<Vec<u8>, String>)
    ensures
        answer_view(r) == response_to(dialogue(*old(x)), challenge@),
        dialogue(*old(x)).kind is Plain ==> (r matches Ok(payload) && payload@.len() == 0),
        dialogue(*final(x)) == match r {
            Ok(payload) => dialogue(*old(x)).having_answered(challenge@),
            Err(text) => dialogue(*old(x)),
        },
{
    x.inner.response(challenge).map_err(|e| e.to_string())
}

/// sasl's `Mechanism::success`: whether the data are accepted depends on what
/// was said before and on the data. PLAIN accepts any.
#[verifier::external_body]
fn mechanism_success(x: &mut Exchange, data: &[u8]) -> (r: Result<(), String>)
    ensures
        match success_refusal(dialogue(*old(x)), data@) {
            Some(text) => r matches Err(e) && e@ == text,
            None => r is Ok,
        },
        dialogue(*old(x)).kind is Plain ==> r is Ok,
        dialogue(*final(x)) == dialogue(*old(x)),
{
    x.inner.success(data).map_err(|e| e.to_string())
}

/// The names of the first `k` mechanisms and the position behind them, of a list
/// in which each name has its length in front.
pub open spec fn names_upto(s: Seq<u8>, k: nat) -> Option<(Seq<Seq<char>>, int)>
    decreases k,
{
    if k == 0 {
        Some((Seq::empty(), 4))
    } else {
        match names_upto(s, (k - 1) as nat) {
            None => None,
            Some((names, pos)) => if pos + 4 > s.len() || pos + 4 + u32_of(s, pos) > s.len() {
                None
            } else {
                let end = pos + 4 + u32_of(s, pos);
                Some((names.push(lossy_text(s.subrange(pos + 4, end))), end))
            },
        }
    }
}

/// The list of mechanisms at the front of the input; `None` while bytes are
/// missing.
pub open spec fn mechanism_list(s: Seq<u8>) -> Option<(Seq<Seq<char>>, int)> {
    if s.len() < 4 {
        None
    } else {
        names_upto(s, u32_of(s, 0) as nat)
    }
}

/// Names as texts.
pub open spec fn name_texts(names: Seq<String>) -> Seq<Seq<char>> {
    Seq::new(names.len(), |i: int| names[i]@)
}

proof fn lemma_names_stay_short(s: Seq<u8>, k: nat, n: nat)
    requires
        k <= n,
        names_upto(s, k) is None,
    ensures
        names_upto(s, n) is None,
    decreases n - k,
{
    if k < n {
        lemma_names_stay_short(s, k + 1, n);
    }
}

/// Reads the list of mechanisms; `None` asks for more bytes.
pub fn read_mechanisms(input: &[u8]) -> (r: Option<(Vec<String>, usize)>)
    ensures
        match r {
            Some((names, used)) => mechanism_list(input@) == Some((name_texts(names@), used as int))
                && used <= input@.len(),
            None => mechanism_list(input@) is None,
        },
{
    if input.len() < 4 {
        return None;
    }
    let n: u32 = u32_at(input, 0);
    let mut names: Vec<String> = Vec::new();
    let mut pos: usize = 4;
    let mut k: u32 = 0;
    assert(name_texts(names@) =~= Seq::<Seq<char>>::empty());
    while k < n
        invariant
            k <= n,
            4 <= pos <= input@.len(),
            n == u32_of(input@, 0),
            names_upto(input@, k as nat) == Some((name_texts(names@), pos as int)),
        decreases n - k,
    {
        assert(input@.len() == input.len());
        let left: usize = input.len() - pos;
        if left < 4 || ((left - 4) as u64) < u32_at(input, pos) as u64 {
            proof {
                lemma_names_stay_short(input@, (k + 1) as nat, n as nat);
            }
            return None;
        }
        let end: usize = pos + 4 + u32_at(input, pos) as usize;
        let ghost before = name_texts(names@);
        let name = lossy_string(slice(input, pos + 4, end));
        let ghost text = name@;
        names.push(name);
        assert(name_texts(names@) =~= before.push(text));
        pos = end;
        k = k + 1;
    }
    Some((names, pos))
}

/// The name of the mechanism to use: SCRAM-SHA-256 if it is offered, else
/// SCRAM-SHA-1, else PLAIN, else the first.
pub open spec fn selected_name(names: Seq<Seq<char>>) -> Option<Seq<char>> {
    if names.contains("SCRAM-SHA-256"@) {
        Some("SCRAM-SHA-256"@)
    } else if names.contains("SCRAM-SHA-1"@) {
        Some("SCRAM-SHA-1"@)
    } else if names.contains("PLAIN"@) {
        Some("PLAIN"@)
    } else if names.len() > 0 {
        Some(names[0])
    } else {
        None
    }
}

fn holds(names: &[String], name: &str) -> (r: bool)
    ensures
        r == name_texts(names@).contains(name@),
{
    let n: usize = names.len();
    let mut i: usize = 0;
    while i < n
        invariant
            n == names@.len(),
            i <= n,
            forall|j: int| 0 <= j < i ==> names@[j]@ != name@,
        decreases n - i,
    {
        if same_text(names[i].as_str(), name) {
            assert(name_texts(names@)[i as int] == name@);
            return true;
        }
        i = i + 1;
    }
    false
}

/// Selects the mechanism to use.
pub fn select_mechanism(names: &[String]) -> (r: Result<String, VncError>)
    ensures
        match selected_name(name_texts(names@)) {
            Some(name) => r matches Ok(s) && s@ == name,
            None => r matches Err(e) && e@ == Failure::AuthFailed(
                "No SASL mechanisms offered by server"@,
            ),
        },
{
    if holds(names, "SCRAM-SHA-256") {
        Ok("SCRAM-SHA-256".to_owned())
    } else if holds(names, "SCRAM-SHA-1") {
        Ok("SCRAM-SHA-1".to_owned())
    } else if holds(names, "PLAIN") {
        Ok("PLAIN".to_owned())
    } else if names.len() > 0 {
        assert(name_texts(names@)[0] == names@[0]@);
        Ok(names[0].as_str().to_owned())
    } else {
        Err(VncError::AuthFailed("No SASL mechanisms offered by server".to_owned()))
    }
}

/// The mechanism with the name, if the client speaks it.
pub open spec fn mechanism_named(name: Seq<char>) -> Option<SaslMechanism> {
    if name == "PLAIN"@ {
        Some(SaslMechanism::Plain)
    } else if name == "SCRAM-SHA-1"@ {
        Some(SaslMechanism::ScramSha1)
    } else if name == "SCRAM-SHA-256"@ {
        Some(SaslMechanism::ScramSha256)
    } else {
        None
    }
}

/// Finds the mechanism with the name.
pub fn find_mechanism(name: &str) -> (r: Result<SaslMechanism, VncError>)
    ensures
        match mechanism_named(name@) {
            Some(m) => r == Ok::<SaslMechanism, VncError>(m),
            None => r matches Err(e) && e@ == Failure::AuthFailed(
                "Unsupported SASL mechanism: "@ + name@,
            ),
        },
{
    if same_text(name, "PLAIN") {
        Ok(SaslMechanism::Plain)
    } else if same_text(name, "SCRAM-SHA-1") {
        Ok(SaslMechanism::ScramSha1)
    } else if same_text(name, "SCRAM-SHA-256") {
        Ok(SaslMechanism::ScramSha256)
    } else {
        Err(VncError::AuthFailed(concat_text("Unsupported SASL mechanism: ", name)))
    }
}

/// Answers the list of mechanisms at the front of the input: the name of the one
/// to use, the bytes to be sent, and how many bytes the list took. `Ok(None)`
/// asks for more bytes.
pub fn answer_mechanisms(input: &[u8]) -> (r: Result<Option<(String, Vec<u8>, usize)>, VncError>)
    ensures
        match mechanism_list(input@) {
            None => r matches Ok(None),
            Some((names, end)) => match selected_name(names) {
                Some(selected) => r matches Ok(Some((name, message, used))) && name@ == selected
                    && message@ == framed(encode_utf8(selected)) && used == end && used
                    <= input@.len(),
                None => r matches Err(e) && e@ == Failure::AuthFailed(
                    "No SASL mechanisms offered by server"@,
                ),
            },
        },
{
    match read_mechanisms(input) {
        None => Ok(None),
        Some((names, used)) => match select_mechanism(&names) {
            Err(e) => Err(e),
            Ok(name) => {
                let message = frame(name.as_str().as_bytes());
                Ok(Some((name, message, used)))
            },
        },
    }
}

/// The best mechanism that the client speaks is selected whenever the server
/// offers one of them.
pub proof fn lemma_known_mechanism_is_selected(names: Seq<Seq<char>>)
    requires
        names.contains("SCRAM-SHA-256"@) || names.contains("SCRAM-SHA-1"@) || names.contains(
            "PLAIN"@,
        ),
    ensures
        selected_name(names) matches Some(name) && mechanism_named(name) is Some && names.contains(
            name,
        ),
        names.contains("SCRAM-SHA-256"@) ==> selected_name(names) == Some("SCRAM-SHA-256"@),
{
}

/// Data with its length in front.
pub open spec fn framed(data: Seq<u8>) -> Seq<u8> {
    be32((data.len() % 0x1_0000_0000) as u32) + data
}

/// Puts the length in front of data.
pub fn frame(data: &[u8]) -> (r: Vec<u8>)
    ensures
        r@ == framed(data@),
{
    let mut out: Vec<u8> = Vec::new();
    push_u32(&mut out, (data.len() as u64 % 0x1_0000_0000) as u32);
    push_all(&mut out, data);
    assert(out@ =~= framed(data@));
    out
}

/// Reads the server's reply, a status and data behind their length; `None` asks
/// for more bytes.
pub fn read_reply(input: &[u8]) -> (r: Option<(u32, Vec<u8>, usize)>)
    ensures
        match r {
            Some((status, data, used)) => reply_at(input@) == Some((status, data@)) && used == 8
                + data@.len() && used <= input@.len(),
            None => reply_at(input@) is None,
        },
{
    assert(input@.len() == input.len());
    if input.len() < 8 {
        return None;
    }
    let n: u32 = u32_at(input, 4);
    if ((input.len() - 8) as u64) < n as u64 {
        return None;
    }
    let end: usize = 8 + n as usize;
    Some((u32_at(input, 0), to_vec(slice(input, 8, end)), end))
}

/// Whether the mechanism has to look at the data of a reply: at a challenge
/// always, at the end only where there are any.
pub open spec fn asks_mechanism(status: u32, data: Seq<u8>) -> bool {
    status == 1 || (status == 0 && data.len() > 0)
}

/// Whether the mechanism has to look at the data of a reply.
pub fn needs_mechanism(status: u32, data: &[u8]) -> (r: bool)
    ensures
        r == asks_mechanism(status, data@),
{
    status == 1 || (status == 0 && data.len() > 0)
}

/// The status and the data of the reply at the front of the input; `None` while
/// bytes are missing.
pub open spec fn reply_at(input: Seq<u8>) -> Option<(u32, Seq<u8>)> {
    if input.len() < 8 || input.len() < 8 + u32_of(input, 4) {
        None
    } else {
        Some((u32_of(input, 0), input.subrange(8, 8 + u32_of(input, 4))))
    }
}

/// What the mechanism makes of the data of a reply.
pub open spec fn mechanism_answer(d: Dialogue, status: u32, data: Seq<u8>) -> Result<
    Seq<u8>,
    Seq<char>,
> {
    if !asks_mechanism(status, data) {
        Ok(Seq::empty())
    } else if status == 0 {
        match success_refusal(d, data) {
            Some(text) => Err(text),
            None => Ok(Seq::empty()),
        }
    } else {
        response_to(d, data)
    }
}

/// What follows from a reply and from what the mechanism made of its data: what
/// is to be sent, or `None` where the exchange has ended with success.
pub open spec fn followed(
    status: u32,
    data: Seq<u8>,
    answer: Result<Seq<u8>, Seq<char>>,
) -> Result<Option<Seq<u8>>, Failure> {
    if status == 0 {
        match answer {
            Err(text) if data.len() > 0 => Err(
                Failure::AuthFailed("SASL success verify: "@ + text),
            ),
            _ => Ok(None),
        }
    } else if status == 1 {
        match answer {
            Ok(response) => Ok(Some(framed(response))),
            Err(text) => Err(Failure::AuthFailed("SASL response: "@ + text)),
        }
    } else if status == 2 {
        Err(Failure::AuthFailed("SASL authentication failed: "@ + lossy_text(data)))
    } else {
        Err(Failure::Protocol("Unknown SASL status: "@ + decimal_text(status as nat)))
    }
}

/// A message that may be missing, by its bytes.
pub open spec fn message_view(m: Option<Vec<u8>>) -> Option<Seq<u8>> {
    match m {
        Some(v) => Some(v@),
        None => None,
    }
}

/// The name in error messages.
pub open spec fn mechanism_label(m: SaslMechanism) -> Seq<char> {
    match m {
        SaslMechanism::Plain => "PLAIN"@,
        SaslMechanism::ScramSha1 => "SCRAM-SHA-1"@,
        SaslMechanism::ScramSha256 => "SCRAM-SHA-256"@,
    }
}

/// The error of a mechanism that cannot be set up.
pub fn init_failure(m: SaslMechanism, text: &str) -> (r: VncError)
    ensures
        r@ == Failure::AuthFailed("SASL "@ + mechanism_label(m) + " init: "@ + text@),
{
    let label = match m {
        SaslMechanism::Plain => "PLAIN",
        SaslMechanism::ScramSha1 => "SCRAM-SHA-1",
        SaslMechanism::ScramSha256 => "SCRAM-SHA-256",
    };
    let t = concat_text("SASL ", label);
    let t = concat_text(t.as_str(), " init: ");
    VncError::AuthFailed(concat_text(t.as_str(), text))
}

impl SaslAuth {
    /// Credentials for SASL.
    pub fn new(username: &str, password: &str) -> (r: Self)
        ensures
            r.username@ == username@,
            r.password@ == password@,
    {
        SaslAuth { username: username.to_owned(), password: password.to_owned() }
    }

    fn start(&self, kind: SaslMechanism) -> (r: Result<Exchange, VncError>)
        ensures
            match r {
                Ok(x) => dialogue(x) == Dialogue::fresh(kind, self.username@, self.password@),
                Err(e) => !(kind is Plain) && e@ == Failure::AuthFailed(
                    "SASL "@ + mechanism_label(kind) + " init: "@ + "can't generate nonce"@,
                ),
            },
    {
        let started = match kind {
            SaslMechanism::Plain => plain_exchange(&self.username, &self.password),
            SaslMechanism::ScramSha1 => scram_sha1_exchange(&self.username, &self.password),
            SaslMechanism::ScramSha256 => scram_sha256_exchange(&self.username, &self.password),
        };
        match started {
            Ok(x) => Ok(x),
            Err(text) => Err(init_failure(kind, text.as_str())),
        }
    }

    /// Starts the exchange in the mechanism with the name. What is returned
    /// along with it is to be sent.
    pub fn begin(&self, name: &str) -> (r: Result<(Exchange, Vec<u8>), VncError>)
        ensures
            match mechanism_named(name@) {
                None => r matches Err(e) && e@ == Failure::AuthFailed(
                    "Unsupported SASL mechanism: "@ + name@,
                ),
                Some(kind) => match r {
                    Ok((x, message)) => {
                        let fresh = Dialogue::fresh(kind, self.username@, self.password@);
                        exists|first: Seq<u8>|
                            {
                                &&& fresh.opens_with(first)
                                &&& message@ == #[trigger] framed(first)
                                &&& dialogue(x) == (Dialogue { first: Some(first), ..fresh })
                            }
                    },
                    Err(e) => !(kind is Plain) && e@ == Failure::AuthFailed(
                        "SASL "@ + mechanism_label(kind) + " init: "@ + "can't generate nonce"@,
                    ),
                },
            },
    {
        match find_mechanism(name) {
            Err(e) => Err(e),
            Ok(kind) => match self.start(kind) {
                Err(e) => Err(e),
                Ok(x) => {
                    let mut x = x;
                    let first = mechanism_initial(&mut x);
                    Ok((x, frame(&first)))
                },
            },
        }
    }

    /// What follows from a reply of the server: bytes to be sent, or `None` where
    /// the exchange has ended with success, and how many bytes the reply took.
    /// `Ok(None)` asks for more bytes.
    pub fn reply(&self, x: &mut Exchange, input: &[u8]) -> (r: Result<
        Option<(Option<Vec<u8>>, usize)>,
        VncError,
    >)
        ensures
            match reply_at(input@) {
                None => r matches Ok(None) && dialogue(*final(x)) == dialogue(*old(x)),
                Some((status, data)) => {
                    &&& match followed(status, data, mechanism_answer(dialogue(*old(x)), status, data)) {
                        Ok(send) => r matches Ok(Some((m, used))) && message_view(m) == send && used
                            == 8 + data.len(),
                        Err(f) => r matches Err(e) && e@ == f,
                    }
                    &&& dialogue(*final(x)) == if status == 1 && response_to(
                        dialogue(*old(x)),
                        data,
                    ) is Ok {
                        dialogue(*old(x)).having_answered(data)
                    } else {
                        dialogue(*old(x))
                    }
                },
            },
            r matches Ok(Some((m, used))) ==> used <= input@.len(),
    {
        match read_reply(input) {
            None => Ok(None),
            Some((status, data, used)) => {
                let answer: Result<Vec<u8>, String> = if !needs_mechanism(status, &data) {
                    Ok(Vec::new())
                } else if status == 0 {
                    match mechanism_success(x, &data) {
                        Ok(()) => Ok(Vec::new()),
                        Err(text) => Err(text),
                    }
                } else {
                    mechanism_response(x, &data)
                };
                match self.authenticate(status, &data, answer) {
                    Err(e) => Err(e),
                    Ok(m) => Ok(Some((m, used))),
                }
            },
        }
    }

    /// What follows from a reply of the server and from what the mechanism made
    /// of its data, if it was asked: `Some` is to be sent and the exchange goes
    /// on, `None` ends it with success.
    pub fn authenticate(&self, status: u32, data: &[u8], answer: Result<Vec<u8>, String>) -> (r:
        Result<Option<Vec<u8>>, VncError>)
        ensures
            match followed(status, data@, answer_view(answer)) {
                Ok(send) => r matches Ok(m) && message_view(m) == send,
                Err(f) => r matches Err(e) && e@ == f,
            },
    {
        if status == 0 {
            if data.len() > 0 {
                if let Err(text) = answer {
                    return Err(
                        VncError::AuthFailed(concat_text("SASL success verify: ", text.as_str())),
                    );
                }
            }
            Ok(None)
        } else if status == 1 {
            match answer {
                Ok(response) => Ok(Some(frame(&response))),
                Err(text) => Err(
                    VncError::AuthFailed(concat_text("SASL response: ", text.as_str())),
                ),
            }
        } else if status == 2 {
            Err(
                VncError::AuthFailed(
                    concat_text("SASL authentication failed: ", lossy_string(data).as_str()),
                ),
            )
        } else {
            Err(
                VncError::Protocol(
                    concat_text("Unknown SASL status: ", decimal(status as u64).as_str()),
                ),
            )
        }
    }
}

/// Names as a server lists them: each behind its length.
pub open spec fn names_written(names: Seq<Seq<u8>>) -> Seq<u8>
    decreases names.len(),
{
    if names.len() == 0 {
        Seq::empty()
    } else {
        names_written(names.drop_last()) + (be32(names.last().len() as u32) + names.last())
    }
}

#[verifier::spinoff_prover]
proof fn lemma_names_read_back(s: Seq<u8>, names: Seq<Seq<u8>>, k: nat)
    requires
        k <= names.len(),
        forall|i: int| 0 <= i < names.len() ==> (#[trigger] names[i]).len() <= 0xffff_ffff,
        crate::wire::holds(s, 4, names_written(names.take(k as int))),
    ensures
        names_upto(s, k) == Some(
            (
                Seq::new(k, |i: int| lossy_text(names[i])),
                (4 + names_written(names.take(k as int)).len()) as int,
            ),
        ),
    decreases k,
{
    if k == 0 {
        assert(Seq::new(0, |i: int| lossy_text(names[i])) =~= Seq::empty());
    } else {
        let part = names.take(k as int);
        let last = names[k - 1];
        assert(part.drop_last() =~= names.take(k - 1));
        assert(part.last() == last);
        let before = names_written(names.take(k - 1));
        let head = be32(last.len() as u32);
        lemma_holds_both(s, 4, before, head + last);
        let pos = 4 + before.len() as int;
        lemma_holds_both(s, pos, head, last);
        lemma_names_read_back(s, names, (k - 1) as nat);
        lemma_high_byte_first(0, last.len() as u32);
        assert(s[pos + 0] == head[0] && s[pos + 1] == head[1] && s[pos + 2] == head[2] && s[pos + 3]
            == head[3]);
        assert(u32_of(s, pos) == last.len());
        assert(s.subrange(pos + 4, pos + 4 + last.len()) =~= last);
        assert(Seq::new((k - 1) as nat, |i: int| lossy_text(names[i])).push(lossy_text(last))
            =~= Seq::new(k, |i: int| lossy_text(names[i])));
    }
}

/// The list of mechanisms is read as it was written: a count, and each name
/// behind its length, in their order.
pub proof fn lemma_mechanisms_read_back(s: Seq<u8>, names: Seq<Seq<u8>>)
    requires
        s.len() >= 4,
        long_at(s, 0) == names.len(),
        forall|i: int| 0 <= i < names.len() ==> (#[trigger] names[i]).len() <= 0xffff_ffff,
        crate::wire::holds(s, 4, names_written(names)),
    ensures
        mechanism_list(s) matches Some((read, used)) && used == 4 + names_written(names).len()
            && read.len() == names.len() && forall|i: int|
            0 <= i < names.len() ==> #[trigger] read[i] == lossy_text(names[i]),
{
    assert(u32_of(s, 0) == names.len());
    assert(names.take(names.len() as int) =~= names);
    lemma_names_read_back(s, names, names.len());
}

/// Of the mechanisms that are offered, SCRAM with SHA-256 comes before SCRAM
/// with SHA-1, and that before PLAIN.
pub proof fn lemma_stronger_mechanism_is_selected(names: Seq<Seq<char>>)
    ensures
        names.contains("SCRAM-SHA-256"@) ==> selected_name(names) == Some("SCRAM-SHA-256"@),
        names.contains("SCRAM-SHA-1"@) && selected_name(names) != Some("SCRAM-SHA-1"@)
            ==> names.contains("SCRAM-SHA-256"@),
        names.contains("PLAIN"@) && selected_name(names) != Some("PLAIN"@) ==> names.contains(
            "SCRAM-SHA-256"@,
        ) || names.contains("SCRAM-SHA-1"@),
        selected_name(names) matches Some(name) ==> names.contains(name),
        selected_name(names) is None <==> names.len() == 0,
{
    if names.len() > 0 {
        assert(names.contains(names[0]));
    }
    if selected_name(names) is None {
        assert(names.len() == 0);
    }
}

/// What goes out is the data behind their length, and a reply is its status and
/// the data behind their length.
pub proof fn lemma_frames_and_replies(data: Seq<u8>, input: Seq<u8>)
    requires
        data.len() <= 0xffff_ffff,
        input.len() >= 8 + data.len(),
        long_at(input, 4) == data.len(),
        input.subrange(8, 8 + data.len() as int) == data,
    ensures
        framed(data).len() == 4 + data.len(),
        long_at(framed(data), 0) == data.len(),
        framed(data).skip(4) == data,
        reply_at(input) matches Some((status, read)) && status == long_at(input, 0) && read == data,
{
    lemma_high_byte_first(0, data.len() as u32);
    let (m, k) = (framed(data), be32(data.len() as u32));
    assert(m[0] == k[0] && m[1] == k[1] && m[2] == k[2] && m[3] == k[3]);
    assert(m.skip(4) =~= data);
    assert(u32_of(input, 4) == data.len());
    assert(u32_of(input, 0) == long_at(input, 0));
}

} // verus!
