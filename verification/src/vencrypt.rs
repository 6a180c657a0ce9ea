//! VeNCrypt security type handler.
//!
//! VeNCrypt protocol flow:
//! 1. Server sends VeNCrypt version (major.minor)
//! 2. Client replies with chosen version
//! 3. Server sends supported sub-types
//! 4. Client selects a sub-type
//! 5. Perform authentication per sub-type
//! 6. Server sends security result

use vstd::prelude::*;

use crate::error::{Failure, VncError};
use crate::messages::long_at;
use crate::text::{concat_text, decimal, decimal_text};
use crate::wire::{be32, push_u32, u32_at, u32_of};

verus! {

/// What a sub-type asks for.
#[derive(Debug, Clone, Copy, PartialEq, Eq, Structural)]
pub enum VencryptResult {
    Tls,
    X509,
    /// Nothing but the security result.
    Plain,
    VncAuth,
    RsaAes,
    RsaAes256,
    AppleDh,
    Sasl,
}

/// The numbers of the sub-types on the wire.
#[derive(Debug, Clone, Copy, PartialEq, Eq, Structural)]
pub struct SubTypes {
    pub tls: u32,
    pub rsa_aes256: u32,
    pub rsa_aes: u32,
    pub x509: u32,
    pub sasl: u32,
    pub apple_dh: u32,
    pub plain: u32,
    pub vnc_auth: u32,
}

impl SubTypes {
    /// The number of a sub-type.
    pub open spec fn number(self, kind: VencryptResult) -> u32 {
        match kind {
            VencryptResult::Tls => self.tls,
            VencryptResult::RsaAes256 => self.rsa_aes256,
            VencryptResult::RsaAes => self.rsa_aes,
            VencryptResult::X509 => self.x509,
            VencryptResult::Sasl => self.sasl,
            VencryptResult::AppleDh => self.apple_dh,
            VencryptResult::Plain => self.plain,
            VencryptResult::VncAuth => self.vnc_auth,
        }
    }
}

/// How strong a sub-type is: 0 is the strongest.
pub open spec fn preference(kind: VencryptResult) -> int {
    match kind {
        VencryptResult::Tls => 0,
        VencryptResult::RsaAes256 => 1,
        VencryptResult::RsaAes => 2,
        VencryptResult::X509 => 3,
        VencryptResult::Sasl => 4,
        VencryptResult::AppleDh => 5,
        VencryptResult::Plain => 6,
        VencryptResult::VncAuth => 7,
    }
}

/// The sub-types that the server offers: a count, and four bytes each.
pub open spec fn offered(s: Seq<u8>) -> Seq<u32> {
    Seq::new(s[0] as nat, |k: int| u32_of(s, 1 + 4 * k))
}

/// The strongest sub-type that is offered.
pub open spec fn strongest(types: Seq<u32>, numbers: SubTypes) -> Option<VencryptResult> {
    if types.contains(numbers.tls) {
        Some(VencryptResult::Tls)
    } else if types.contains(numbers.rsa_aes256) {
        Some(VencryptResult::RsaAes256)
    } else if types.contains(numbers.rsa_aes) {
        Some(VencryptResult::RsaAes)
    } else if types.contains(numbers.x509) {
        Some(VencryptResult::X509)
    } else if types.contains(numbers.sasl) {
        Some(VencryptResult::Sasl)
    } else if types.contains(numbers.apple_dh) {
        Some(VencryptResult::AppleDh)
    } else if types.contains(numbers.plain) {
        Some(VencryptResult::Plain)
    } else if types.contains(numbers.vnc_auth) {
        Some(VencryptResult::VncAuth)
    } else {
        None
    }
}

/// The list of sub-types is read as it was written: a count, and four bytes
/// each, the most significant first.
pub proof fn lemma_offer_reads_back(s: Seq<u8>, i: int)
    requires
        s.len() >= 1 + 4 * s[0],
        s.len() > 0,
        0 <= i < s[0],
    ensures
        offered(s).len() == s[0],
        offered(s)[i] == long_at(s, 1 + 4 * i),
{
    assert(u32_of(s, 1 + 4 * i) == long_at(s, 1 + 4 * i));
}

/// What is selected is offered, and nothing stronger is.
pub proof fn lemma_selection_is_the_strongest(
    types: Seq<u32>,
    numbers: SubTypes,
    other: VencryptResult,
)
    ensures
        strongest(types, numbers) matches Some(kind) ==> types.contains(numbers.number(kind)),
        types.contains(numbers.number(other)) ==> (strongest(types, numbers) matches Some(kind)
            && preference(kind) <= preference(other)),
{
}

/// The negotiation of a sub-type.
pub struct VencryptHandler {
    pub numbers: SubTypes,
}

fn holds(types: &[u32], number: u32) -> (r: bool)
    ensures
        r == types@.contains(number),
{
    let n: usize = types.len();
    let mut i: usize = 0;
    while i < n
        invariant
            n == types@.len(),
            i <= n,
            forall|j: int| 0 <= j < i ==> types@[j] != number,
        decreases n - i,
    {
        if types[i] == number {
            return true;
        }
        i = i + 1;
    }
    false
}

/// Checks the version that the server speaks, and answers with the same.
pub fn check_version(major: u8, minor: u8) -> (r: Result<Vec<u8>, VncError>)
    ensures
        if major == 0 && minor == 2 {
            r matches Ok(v) && v@ == seq![0u8, 2u8]
        } else {
            r matches Err(e) && e@ == Failure::Protocol(
                "Unsupported VeNCrypt version: "@ + decimal_text(major as nat) + "."@
                    + decimal_text(minor as nat),
            )
        },
{
    if major != 0 || minor != 2 {
        let t = concat_text("Unsupported VeNCrypt version: ", decimal(major as u64).as_str());
        let t = concat_text(t.as_str(), ".");
        return Err(VncError::Protocol(concat_text(t.as_str(), decimal(minor as u64).as_str())));
    }
    let r: Vec<u8> = vec![0, 2];
    assert(r@ =~= seq![0u8, 2u8]);
    Ok(r)
}

/// What the bytes `s` say about the sub-types.
pub enum Negotiation {
    /// More bytes are needed.
    Short,
    Bad(Failure),
    /// The sub-type to use, and how many bytes the list took.
    Done { kind: VencryptResult, used: int },
}

/// What follows from the list of sub-types at the front of the input.
pub open spec fn negotiation(s: Seq<u8>, numbers: SubTypes) -> Negotiation {
    if s.len() == 0 {
        Negotiation::Short
    } else if s[0] == 0 {
        Negotiation::Bad(Failure::AuthFailed("Server rejected VeNCrypt"@))
    } else if s.len() < 1 + 4 * s[0] {
        Negotiation::Short
    } else {
        match strongest(offered(s), numbers) {
            None => Negotiation::Bad(Failure::AuthFailed("No supported VeNCrypt sub-type"@)),
            Some(kind) => Negotiation::Done { kind, used: 1 + 4 * s[0] },
        }
    }
}

impl VencryptHandler {
    /// Selects the strongest sub-type of the server's list. The number to send,
    /// what it asks for, and how many bytes the list took; `None` asks for more
    /// bytes.
    pub fn negotiate(&self, input: &[u8]) -> (r: Result<
        Option<(Vec<u8>, VencryptResult, usize)>,
        VncError,
    >)
        ensures
            match negotiation(input@, self.numbers) {
                Negotiation::Short => r == Ok::<
                    Option<(Vec<u8>, VencryptResult, usize)>,
                    VncError,
                >(None),
                Negotiation::Bad(f) => r matches Err(e) && e@ == f,
                Negotiation::Done { kind, used } => r matches Ok(Some((m, k, n))) && k == kind && n
                    == used && n <= input@.len() && m@ == be32(self.numbers.number(kind)),
            },
    {
        if input.len() == 0 {
            return Ok(None);
        }
        let n: usize = input[0] as usize;
        if n == 0 {
            return Err(VncError::AuthFailed("Server rejected VeNCrypt".to_owned()));
        }
        if input.len() < 1 + 4 * n {
            return Ok(None);
        }
        let mut types: Vec<u32> = Vec::new();
        let mut k: usize = 0;
        while k < n
            invariant
                k <= n,
                n <= 255,
                n == input@[0],
                input@.len() >= 1 + 4 * n,
                types@ == Seq::new(k as nat, |j: int| u32_of(input@, 1 + 4 * j)),
            decreases n - k,
        {
            types.push(u32_at(input, 1 + 4 * k));
            k = k + 1;
            assert(types@ =~= Seq::new(k as nat, |j: int| u32_of(input@, 1 + 4 * j)));
        }
        assert(types@ =~= offered(input@));
        let t = &self.numbers;
        let (kind, number): (VencryptResult, u32) = if holds(&types, t.tls) {
            (VencryptResult::Tls, t.tls)
        } else if holds(&types, t.rsa_aes256) {
            (VencryptResult::RsaAes256, t.rsa_aes256)
        } else if holds(&types, t.rsa_aes) {
            (VencryptResult::RsaAes, t.rsa_aes)
        } else if holds(&types, t.x509) {
            (VencryptResult::X509, t.x509)
        } else if holds(&types, t.sasl) {
            (VencryptResult::Sasl, t.sasl)
        } else if holds(&types, t.apple_dh) {
            (VencryptResult::AppleDh, t.apple_dh)
        } else if holds(&types, t.plain) {
            (VencryptResult::Plain, t.plain)
        } else if holds(&types, t.vnc_auth) {
            (VencryptResult::VncAuth, t.vnc_auth)
        } else {
            return Err(VncError::AuthFailed("No supported VeNCrypt sub-type".to_owned()));
        };
        let mut m: Vec<u8> = Vec::new();
        push_u32(&mut m, number);
        assert(m@ =~= be32(number));
        Ok(Some((m, kind, 1 + 4 * n)))
    }
}

} // verus!
