//! What client and server agree on, and how it is written.

use vstd::arithmetic::div_mod::{lemma_mul_mod_noop, lemma_sub_mod_noop};
use vstd::arithmetic::power::{lemma_pow_adds, lemma_pow_mod_noop, lemma_pow_multiplies, pow};
use vstd::prelude::*;

use super::{
    challenge_of, challenge_tail, modulus_packet, modulus_request, password_exponent, proof_fields,
    proof_packet, public_value, secret_exponent, shared_secret, ChallengeFields, SrpChallenge,
};
use crate::crypto::{pbkdf2_sha512_of, sha512_of};
use crate::error::Failure;
use crate::messages::{long_at, short_at};
use crate::wire::{
    be16, be32, be64, be_bytes, be_nat, holds, lemma_be64_round_trip, lemma_high_byte_first,
    lemma_holds_both, u16_of, zeros,
};

verus! {

/// The server's blinded public value, less the blinding, is the power that the
/// server raised the generator to.
proof fn lemma_unblinded(g: int, n: int, k: int, v: int, b: nat, sent: int)
    requires
        n > 0,
        sent == (k * v + pow(g, b)) % n,
    ensures
        (sent - k * v) % n == pow(g, b) % n,
{
    let p = pow(g, b);
    lemma_sub_mod_noop(k * v + p, k * v, n);
    lemma_sub_mod_noop(sent, k * v, n);
    vstd::arithmetic::div_mod::lemma_mod_twice(k * v + p, n);
    assert(k * v + p - k * v == p);
}

proof fn lemma_powers_agree(g: int, n: int, a: nat, b: nat, u: nat, x: nat)
    requires
        n > 0,
    ensures
        pow(pow(g, b), a + u * x) == pow(pow(g, a) * pow(pow(g, x), u), b),
{
    lemma_pow_multiplies(g, b, a + u * x);
    lemma_pow_multiplies(g, x, u);
    lemma_pow_adds(g, a, x * u);
    lemma_pow_multiplies(g, a + x * u, b);
    assert(b * (a + u * x) == (a + x * u) * b) by (nonlinear_arith);
}

/// Both sides arrive at the same secret. The server keeps the generator raised
/// to the password's exponent, and sends its own power of the generator, blinded
/// with that. What it then makes of the client's public value, raised together
/// with what it keeps, is what the client makes of the server's: the blinding
/// comes from modulus and generator, and the mixing from both public values.
#[verifier::spinoff_prover]
pub proof fn lemma_secret_agrees(
    c: &SrpChallenge,
    noise: Seq<u8>,
    password: Seq<u8>,
    b: nat,
    verifier: int,
    client: int,
)
    requires
        be_nat(c.n@) > 1,
        ({
            let n = be_nat(c.n@) as int;
            let g = be_nat(c.g@) as int;
            let k = be_nat(sha512_of(c.nb@ + be_bytes(be_nat(c.g@), 512))) as int;
            let dk = pbkdf2_sha512_of(
                password,
                c.salt@,
                (c.iterations % 0x1_0000_0000) as u32,
                128,
            );
            let x = be_nat(sha512_of(c.salt@ + sha512_of(seq![0x3au8] + dk))) % (n as nat);
            &&& verifier == pow(g, x) % n
            &&& client == pow(g, secret_exponent(c, noise)) % n
            &&& be_nat(c.b@) == (k * verifier + pow(g, b)) % n
        }),
    ensures
        ({
            let n = be_nat(c.n@) as int;
            let u = be_nat(sha512_of(public_value(c, noise) + c.bb@));
            &&& shared_secret(c, noise, password) == pow(client * pow(verifier, u), b) % n
            &&& public_value(c, noise) == be_bytes(client as nat, 512)
        }),
{
    let n = be_nat(c.n@) as int;
    let g = be_nat(c.g@) as int;
    let k = be_nat(sha512_of(c.nb@ + be_bytes(be_nat(c.g@), 512))) as int;
    let u = be_nat(sha512_of(public_value(c, noise) + c.bb@));
    let a = secret_exponent(c, noise);
    let x = password_exponent(c.salt@, c.iterations, password) % (n as nat);
    let sent = be_nat(c.b@) as int;
    lemma_unblinded(g, n, k, verifier, b, sent);
    let base = (sent - k * verifier) % n;
    let e = a + u * x;
    assert(base == pow(g, b) % n);
    lemma_pow_mod_noop(pow(g, b), e, n);
    lemma_powers_agree(g, n, a, b, u, x);
    lemma_pow_mod_noop(pow(g, x), u, n);
    let whole = pow(g, a) * pow(pow(g, x), u);
    lemma_mul_mod_noop(pow(g, a), pow(pow(g, x), u), n);
    lemma_mul_mod_noop(client, pow(verifier, u), n);
    vstd::arithmetic::div_mod::lemma_mod_twice(pow(g, a), n);
    assert((client * pow(verifier, u)) % n == whole % n);
    lemma_pow_mod_noop(whole, b, n);
    lemma_pow_mod_noop(client * pow(verifier, u), b, n);
    vstd::arithmetic::div_mod::lemma_mod_bound(pow(base, e), n);
}

/// What stands behind the generator of a challenge as a server writes it.
pub open spec fn tail_written(f: ChallengeFields) -> Seq<u8> {
    seq![f.salt.len() as u8] + (f.salt + (be16(f.bb.len() as u16) + (f.bb + (be64(f.iterations) + (
    be16(f.cap.len() as u16) + f.cap)))))
}

/// A challenge as a server writes it, behind a header of twelve bytes.
pub open spec fn challenge_written(header: Seq<u8>, f: ChallengeFields) -> Seq<u8> {
    header + (seq![0u8] + (f.nb + (be16(f.g.len() as u16) + (f.g + tail_written(f)))))
}

proof fn lemma_part(s: Seq<u8>, pos: int, part: Seq<u8>, rest: Seq<u8>)
    requires
        holds(s, pos, part + rest),
    ensures
        0 <= pos,
        pos + part.len() <= s.len(),
        s.subrange(pos, pos + part.len()) == part,
        holds(s, pos + part.len(), rest),
{
    lemma_holds_both(s, pos, part, rest);
    assert(s.subrange(pos, pos + part.len()) =~= part);
}

proof fn lemma_short(v: u16)
    ensures
        be16(v).len() == 2,
        u16_of(be16(v), 0) == v,
{
    lemma_high_byte_first(v, 0);
}

#[verifier::spinoff_prover]
proof fn lemma_tail_reads_back(s: Seq<u8>, p: int, f: ChallengeFields)
    requires
        f.salt.len() <= 255,
        f.bb.len() <= 0xffff,
        f.iterations <= 1_000_000,
        f.cap.len() <= 0xffff,
        holds(s, p, tail_written(f)),
    ensures
        challenge_tail(s, f.nb, f.g, p) == Ok::<ChallengeFields, Failure>(f),
{
    let (n, b, i, c) = (
        seq![f.salt.len() as u8],
        be16(f.bb.len() as u16),
        be64(f.iterations),
        be16(f.cap.len() as u16),
    );
    lemma_short(f.bb.len() as u16);
    lemma_short(f.cap.len() as u16);
    lemma_be64_round_trip(f.iterations);
    let r5 = c + f.cap;
    let r4 = i + r5;
    let r3 = f.bb + r4;
    let r2 = b + r3;
    let r1 = f.salt + r2;
    lemma_part(s, p, n, r1);
    let p1 = p + 1 + f.salt.len();
    lemma_part(s, p + 1, f.salt, r2);
    lemma_part(s, p1, b, r3);
    let p2 = p1 + 2 + f.bb.len();
    lemma_part(s, p1 + 2, f.bb, r4);
    lemma_part(s, p2, i, r5);
    lemma_part(s, p2 + 8, c, f.cap);
    assert(f.cap + Seq::<u8>::empty() =~= f.cap);
    lemma_part(s, p2 + 10, f.cap, Seq::empty());
    assert(n[0] == f.salt.len());
}

/// A challenge is read as it was written: the modulus, the generator, the salt,
/// the server's public value, the number of rounds and the capabilities.
#[verifier::spinoff_prover]
pub proof fn lemma_challenge_reads_back(s: Seq<u8>, header: Seq<u8>, f: ChallengeFields)
    requires
        header.len() == 12,
        f.nb.len() == 512,
        f.g.len() <= 0xffff,
        f.salt.len() <= 255,
        f.bb.len() <= 0xffff,
        f.iterations <= 1_000_000,
        f.cap.len() <= 0xffff,
        holds(s, 0, challenge_written(header, f)),
    ensures
        challenge_of(s) == Ok::<ChallengeFields, Failure>(f),
{
    let (z, g) = (seq![0u8], be16(f.g.len() as u16));
    lemma_short(f.g.len() as u16);
    let r4 = f.g + tail_written(f);
    let r3 = g + r4;
    let r2 = f.nb + r3;
    let r1 = z + r2;
    lemma_part(s, 0, header, r1);
    lemma_part(s, 12, z, r2);
    assert(s.subrange(12, 13)[0] == s[12]);
    lemma_part(s, 13, f.nb, r3);
    lemma_part(s, 525, g, r4);
    lemma_part(s, 527, f.g, tail_written(f));
    lemma_tail_reads_back(s, 527 + f.g.len() as int, f);
}

/// The request that is encrypted for the server is the length of what follows,
/// the user name behind its own length, and three zeros; the packet that carries
/// the block says `RSA1`, the kind and the size of the block, and is filled up
/// with zeros to the length in front.
#[verifier::spinoff_prover]
pub proof fn lemma_modulus_layouts(user: Seq<u8>, block: Seq<u8>)
    requires
        user.len() + 7 <= 0xffff_ffff,
        block.len() == 256,
    ensures
        ({
            let m = modulus_request(user);
            &&& m.len() == 11 + user.len()
            &&& long_at(m, 0) == m.len() - 4
            &&& long_at(m, 4) == user.len()
            &&& m.subrange(8, 8 + user.len() as int) == user
            &&& m.skip(8 + user.len() as int) == seq![0u8, 0u8, 0u8]
        }),
        ({
            let m = modulus_packet(block);
            &&& m.len() == 654
            &&& long_at(m, 0) == m.len() - 4
            &&& m.subrange(4, 10) == seq![1u8, 0u8, 0x52u8, 0x53u8, 0x41u8, 0x31u8]
            &&& short_at(m, 10) == 2
            &&& short_at(m, 12) == 256
            &&& m.subrange(14, 270) == block
            &&& m.skip(270) == zeros(384)
        }),
{
    let n = user.len() as u32;
    lemma_high_byte_first(2, (n + 7) as u32);
    lemma_high_byte_first(256, n);
    lemma_high_byte_first(0, 650);
    let m = modulus_request(user);
    let (a, b) = (be32((n + 7) as u32), be32(n));
    assert(m[0] == a[0] && m[1] == a[1] && m[2] == a[2] && m[3] == a[3]);
    assert(m[4] == b[0] && m[5] == b[1] && m[6] == b[2] && m[7] == b[3]);
    assert(m.subrange(8, 8 + user.len() as int) =~= user);
    assert(m.skip(8 + user.len() as int) =~= seq![0u8, 0u8, 0u8]);
    let m = modulus_packet(block);
    let c = be32(650);
    assert(m[0] == c[0] && m[1] == c[1] && m[2] == c[2] && m[3] == c[3]);
    assert(m.subrange(4, 10) =~= seq![1u8, 0u8, 0x52u8, 0x53u8, 0x41u8, 0x31u8]);
    assert(m[10] == be16(2)[0] && m[11] == be16(2)[1]);
    assert(m[12] == be16(256)[0] && m[13] == be16(256)[1]);
    assert(m.subrange(14, 270) =~= block);
    assert(m.skip(270) =~= zeros(384));
}

/// The packet with the proof holds, each behind its length, the client's public
/// value, the proof, the capabilities and an initial vector, and is filled up
/// with zeros.
#[verifier::spinoff_prover]
pub proof fn lemma_proof_layout(cap: Seq<u8>, ab: Seq<u8>, m1: Seq<u8>, civ: Seq<u8>)
    requires
        ab.len() == 512,
        m1.len() == 64,
        civ.len() == 16,
        cap.len() <= 464,
    ensures
        ({
            let m = proof_packet(cap, ab, m1, civ);
            let inner = 598 + cap.len() as int;
            let at: int = 597;
            &&& m.len() == 1080
            &&& long_at(m, 0) == 1076
            &&& m.subrange(4, 10) == seq![1u8, 0u8, 0x52u8, 0x53u8, 0x41u8, 0x31u8]
            &&& short_at(m, 10) == 2
            &&& short_at(m, 12) == inner + 4
            &&& long_at(m, 14) == inner
            &&& short_at(m, 18) == 512
            &&& m.subrange(20, 532) == ab
            &&& m[532] == 64
            &&& m.subrange(533, 597) == m1
            &&& short_at(m, at) == cap.len()
            &&& m.subrange(at + 2, at + 2 + cap.len()) == cap
            &&& m[at + 2 + cap.len()] == 16
            &&& m.subrange(at + 3 + cap.len(), at + 19 + cap.len()) == civ
            &&& forall|i: int| at + 19 + cap.len() <= i < 1080 ==> #[trigger] m[i] == 0
        }),
{
    let fields = proof_fields(cap, ab, m1, civ);
    let m = proof_packet(cap, ab, m1, civ);
    let n = fields.len() as u32;
    let at: int = 597;
    assert(n == 598 + cap.len());
    lemma_high_byte_first(512, 1076);
    lemma_high_byte_first((n + 4) as u16, n);
    lemma_high_byte_first(cap.len() as u16, 0);
    lemma_high_byte_first(2, 0);
    let (a, l, k) = (be32(1076), be32(n), be16((n + 4) as u16));
    assert(m[0] == a[0] && m[1] == a[1] && m[2] == a[2] && m[3] == a[3]);
    assert(m.subrange(4, 10) =~= seq![1u8, 0u8, 0x52u8, 0x53u8, 0x41u8, 0x31u8]);
    assert(m[10] == be16(2)[0] && m[11] == be16(2)[1]);
    assert(m[12] == k[0] && m[13] == k[1]);
    assert(m[14] == l[0] && m[15] == l[1] && m[16] == l[2] && m[17] == l[3]);
    assert(m[18] == be16(512)[0] && m[19] == be16(512)[1]);
    assert(m.subrange(20, 532) =~= ab);
    assert(m.subrange(533, 597) =~= m1);
    let q = be16(cap.len() as u16);
    assert(m[at] == q[0] && m[at + 1] == q[1]);
    assert(m.subrange(at + 2, at + 2 + cap.len()) =~= cap);
    assert(m.subrange(at + 3 + cap.len(), at + 19 + cap.len()) =~= civ);
}

} // verus!
