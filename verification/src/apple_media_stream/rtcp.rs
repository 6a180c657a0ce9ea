//! RTCP packets: reports, keyframe requests, loss reports and long-term
//! reference acknowledgements.

use vstd::arithmetic::power2::pow2;
use vstd::bits::lemma_u16_shr_is_div;
use vstd::prelude::*;

use crate::messages::{long_at, short_at};
use crate::wire::{
    be16, be32, lemma_high_byte_first, push_all, push_u16, push_u32, push_zeros, u16_at, u16_of,
    u32_at, u32_of, zeros,
};

verus! {

/// What is known of a server's last sender report: its SSRC, the middle 32 bits
/// of its timestamp, and the delay since then in units of 1/65536 seconds.
pub type SenderReport = (u32, u32, u32);

/// The number of entries counted in a report header.
pub open spec fn report_count(n: nat) -> u8 {
    if n < 31 {
        n as u8
    } else {
        31
    }
}

/// One reception report block.
pub open spec fn report_block(s: (u32, u32, u16), sr: Option<SenderReport>) -> Seq<u8> {
    let (lsr, dlsr) = match sr {
        Some((ssrc, ntp, delay)) => if ssrc == s.0 {
            (ntp, delay)
        } else {
            (0u32, 0u32)
        },
        None => (0u32, 0u32),
    };
    be32(s.0) + be32(0) + be32((s.1 % 0x1_0000 * 0x1_0000 + s.2) as u32) + be32(0) + be32(lsr)
        + be32(dlsr)
}

/// The report blocks of the first `n` sources.
pub open spec fn report_blocks(
    sources: Seq<(u32, u32, u16)>,
    sr: Option<SenderReport>,
    n: int,
) -> Seq<u8>
    decreases n,
{
    if n <= 0 {
        Seq::empty()
    } else {
        report_blocks(sources, sr, n - 1) + report_block(sources[n - 1], sr)
    }
}

/// A receiver report. It carries at most 31 blocks; the length field counts
/// 32-bit words, less one.
pub open spec fn receiver_report(
    sender: u32,
    sources: Seq<(u32, u32, u16)>,
    sr: Option<SenderReport>,
) -> Seq<u8> {
    seq![(0x80 + report_count(sources.len())) as u8, 201u8] + be16(
        (1 + report_count(sources.len()) * 6) as u16,
    ) + be32(sender) + report_blocks(sources, sr, report_count(sources.len()) as int)
}

proof fn lemma_blocks_len(sources: Seq<(u32, u32, u16)>, sr: Option<SenderReport>, n: int)
    requires
        0 <= n,
    ensures
        report_blocks(sources, sr, n).len() == 24 * n,
    decreases n,
{
    if n > 0 {
        lemma_blocks_len(sources, sr, n - 1);
    }
}

/// The length field of a receiver report agrees with its size, however many
/// sources there are.
pub proof fn lemma_report_length(
    sender: u32,
    sources: Seq<(u32, u32, u16)>,
    sr: Option<SenderReport>,
)
    ensures
        receiver_report(sender, sources, sr).len() == 4 * (u16_of(
            receiver_report(sender, sources, sr),
            2,
        ) + 1),
{
    let n = report_count(sources.len());
    let blocks = report_blocks(sources, sr, n as int);
    lemma_blocks_len(sources, sr, n as int);
    let head = seq![(0x80 + n) as u8, 201u8];
    let size = (1 + n * 6) as u16;
    let rest = be32(sender) + blocks;
    assert(receiver_report(sender, sources, sr) =~= head + be16(size) + rest);
    crate::wire::lemma_u16_inside(head, size, rest);
}

/// Builds a receiver report on `source_ssrcs` (SSRC, rollover counter, highest
/// sequence number).
pub fn build_rtcp_rr(
    sender_ssrc: u32,
    source_ssrcs: &[(u32, u32, u16)],
    sr_data: Option<SenderReport>,
) -> (rr: Vec<u8>)
    ensures
        rr@ == receiver_report(sender_ssrc, source_ssrcs@, sr_data),
        rr@.len() == 4 * (u16_of(rr@, 2) + 1),
{
    let count: usize = if source_ssrcs.len() < 31 {
        source_ssrcs.len()
    } else {
        31
    };
    let mut rr: Vec<u8> = vec![0x80 + count as u8, 201];
    assert(rr@ =~= seq![(0x80 + report_count(source_ssrcs@.len())) as u8, 201u8]);
    push_u16(&mut rr, 1 + (count as u16) * 6);
    push_u32(&mut rr, sender_ssrc);
    let ghost head = rr@;
    let mut i: usize = 0;
    assert(rr@ =~= head + report_blocks(source_ssrcs@, sr_data, 0));
    while i < count
        invariant
            i <= count <= source_ssrcs@.len(),
            rr@ == head + report_blocks(source_ssrcs@, sr_data, i as int),
        decreases count - i,
    {
        let (ssrc, roc, max_seq): (u32, u32, u16) = source_ssrcs[i];
        let ext_seq: u32 = roc % 0x1_0000 * 0x1_0000 + max_seq as u32;
        let (lsr, dlsr): (u32, u32) = match sr_data {
            Some((needle, ntp, delay)) => if needle == ssrc {
                (ntp, delay)
            } else {
                (0, 0)
            },
            None => (0, 0),
        };
        let mut block: Vec<u8> = Vec::new();
        push_u32(&mut block, ssrc);
        assert(block@ =~= be32(ssrc));
        push_u32(&mut block, 0);
        push_u32(&mut block, ext_seq);
        push_u32(&mut block, 0);
        push_u32(&mut block, lsr);
        push_u32(&mut block, dlsr);
        push_all(&mut rr, &block);
        assert(rr@ =~= head + report_blocks(source_ssrcs@, sr_data, i + 1));
        i = i + 1;
    }
    proof {
        lemma_report_length(sender_ssrc, source_ssrcs@, sr_data);
    }
    rr
}

/// The SSRC and middle timestamp bits of the first sender report found from
/// `pos` on in a compound packet.
pub open spec fn sender_report_from(rtcp: Seq<u8>, pos: int) -> Option<(u32, u32)>
    decreases rtcp.len() - pos,
    when 0 <= pos
{
    if pos + 4 > rtcp.len() {
        None
    } else {
        let len = (u16_of(rtcp, pos + 2) + 1) * 4;
        if pos + len > rtcp.len() {
            None
        } else if rtcp[pos + 1] == 200 && len >= 28 {
            Some(
                (
                    u32_of(rtcp, pos + 4),
                    (u16_of(rtcp, pos + 10) * 0x1_0000 + u16_of(rtcp, pos + 12)) as u32,
                ),
            )
        } else {
            sender_report_from(rtcp, pos + len)
        }
    }
}

/// Parses an RTCP compound packet and returns the sender SSRC and the middle 32
/// bits of the NTP timestamp of its first sender report.
pub fn parse_rtcp_sr(rtcp: &[u8]) -> (r: Option<(u32, u32)>)
    ensures
        r == sender_report_from(rtcp@, 0),
{
    let end: usize = rtcp.len();
    let mut pos: usize = 0;
    while end - pos >= 4
        invariant
            end == rtcp@.len(),
            pos <= end,
            sender_report_from(rtcp@, 0) == sender_report_from(rtcp@, pos as int),
        decreases end - pos,
    {
        let pt: u8 = rtcp[pos + 1];
        let len: usize = (u16_at(rtcp, pos + 2) as usize + 1) * 4;
        if len > end - pos {
            return None;
        }
        if pt == 200 && len >= 28 {
            let ssrc: u32 = u32_at(rtcp, pos + 4);
            let hi: u32 = u16_at(rtcp, pos + 10) as u32;
            let lo: u32 = u16_at(rtcp, pos + 12) as u32;
            return Some((ssrc, hi * 0x1_0000 + lo));
        }
        pos = pos + len;
    }
    None
}

/// An empty sender report with the given clock readings. The length field counts
/// 32-bit words, less one.
pub open spec fn sender_report(sender: u32, ntp_sec: u32, ntp_frac: u32, rtp_ts: u32) -> Seq<u8> {
    seq![0x80u8, 200u8] + be16(6) + be32(sender) + be32(ntp_sec) + be32(ntp_frac) + be32(rtp_ts)
        + be32(0) + be32(0)
}

proof fn lemma_word_at(pre: Seq<u8>, v: u32, post: Seq<u8>)
    ensures
        (pre + be32(v) + post).len() == pre.len() + 4 + post.len(),
        u16_of(pre + be32(v) + post, pre.len() as int) == v / 0x1_0000,
        u16_of(pre + be32(v) + post, pre.len() as int + 2) == v % 0x1_0000,
        u32_of(pre + be32(v) + post, pre.len() as int) == v,
{
    let s = pre + be32(v) + post;
    let n = pre.len() as int;
    assert(s[n] == be32(v)[0]);
    assert(s[n + 1] == be32(v)[1]);
    assert(s[n + 2] == be32(v)[2]);
    assert(s[n + 3] == be32(v)[3]);
}

proof fn lemma_sender_report_words(
    sender: u32,
    ntp_sec: u32,
    ntp_frac: u32,
    rtp_ts: u32,
    rest: Seq<u8>,
)
    ensures
        ({
            let all = sender_report(sender, ntp_sec, ntp_frac, rtp_ts) + rest;
            &&& all.len() == 28 + rest.len()
            &&& all[1] == 200
            &&& u16_of(all, 2) == 6
            &&& u32_of(all, 4) == sender
            &&& u16_of(all, 10) == ntp_sec % 0x1_0000
            &&& u16_of(all, 12) == ntp_frac / 0x1_0000
        }),
{
    let first = seq![0x80u8, 200u8];
    let all = sender_report(sender, ntp_sec, ntp_frac, rtp_ts) + rest;
    let p0 = first + be16(6);
    let p1 = p0 + be32(sender);
    let p2 = p1 + be32(ntp_sec);
    let q2 = be32(rtp_ts) + be32(0) + be32(0) + rest;
    let q1 = be32(ntp_frac) + q2;
    let q0 = be32(ntp_sec) + q1;
    assert(all =~= p2 + be32(ntp_frac) + q2);
    lemma_word_at(p2, ntp_frac, q2);
    assert(all =~= p1 + be32(ntp_sec) + q1);
    lemma_word_at(p1, ntp_sec, q1);
    assert(all =~= p0 + be32(sender) + q0);
    lemma_word_at(p0, sender, q0);
    assert(all =~= first + be16(6) + (be32(sender) + q0));
    crate::wire::lemma_u16_inside(first, 6, be32(sender) + q0);
    assert(all[1] == first[1]);
}

/// The length field of a sender report agrees with its size, and whatever
/// follows the report in a compound packet, the report is found again: its
/// sender, the low half of its seconds and the high half of its fraction.
pub proof fn lemma_sender_report_is_found(
    sender: u32,
    ntp_sec: u32,
    ntp_frac: u32,
    rtp_ts: u32,
    rest: Seq<u8>,
)
    ensures
        sender_report(sender, ntp_sec, ntp_frac, rtp_ts).len() == 28,
        sender_report(sender, ntp_sec, ntp_frac, rtp_ts).len() == 4 * (u16_of(
            sender_report(sender, ntp_sec, ntp_frac, rtp_ts),
            2,
        ) + 1),
        sender_report_from(sender_report(sender, ntp_sec, ntp_frac, rtp_ts) + rest, 0) == Some(
            (sender, ((ntp_sec % 0x1_0000) * 0x1_0000 + ntp_frac / 0x1_0000) as u32),
        ),
{
    let sr = sender_report(sender, ntp_sec, ntp_frac, rtp_ts);
    lemma_sender_report_words(sender, ntp_sec, ntp_frac, rtp_ts, rest);
    lemma_sender_report_words(sender, ntp_sec, ntp_frac, rtp_ts, Seq::empty());
    assert(sr + Seq::<u8>::empty() =~= sr);
}

/// Builds an empty sender report with the given clock readings.
pub fn build_rtcp_sr(sender_ssrc: u32, ntp_sec: u32, ntp_frac: u32, rtp_ts: u32) -> (sr: Vec<u8>)
    ensures
        sr@ == sender_report(sender_ssrc, ntp_sec, ntp_frac, rtp_ts),
        sr@.len() == 28,
        sr@.len() == 4 * (u16_of(sr@, 2) + 1),
{
    let mut sr: Vec<u8> = vec![0x80, 200];
    assert(sr@ =~= seq![0x80u8, 200u8]);
    push_u16(&mut sr, 6);
    push_u32(&mut sr, sender_ssrc);
    push_u32(&mut sr, ntp_sec);
    push_u32(&mut sr, ntp_frac);
    push_u32(&mut sr, rtp_ts);
    push_u32(&mut sr, 0);
    push_u32(&mut sr, 0);
    proof {
        lemma_sender_report_is_found(sender_ssrc, ntp_sec, ntp_frac, rtp_ts, Seq::empty());
    }
    sr
}

/// A legacy full intra-frame request.
pub open spec fn fir_legacy(target: u32) -> Seq<u8> {
    seq![0x80u8, 192u8] + be16(1) + be32(target)
}

/// Builds a legacy full intra-frame request.
pub fn build_rtcp_fir_legacy(target_ssrc: u32) -> (out: Vec<u8>)
    ensures
        out@ == fir_legacy(target_ssrc),
{
    let mut out: Vec<u8> = vec![0x80, 192];
    assert(out@ =~= seq![0x80u8, 192u8]);
    push_u16(&mut out, 1);
    push_u32(&mut out, target_ssrc);
    out
}

/// A full intra request.
pub open spec fn fir(sender: u32, target: u32, seq_nr: u8) -> Seq<u8> {
    seq![0x84u8, 206u8] + be16(4) + be32(sender) + be32(0) + be32(target) + seq![seq_nr] + zeros(3)
}

/// Builds a full intra request.
pub fn build_rtcp_fir(sender_ssrc: u32, target_ssrc: u32, seq_nr: u8) -> (out: Vec<u8>)
    ensures
        out@ == fir(sender_ssrc, target_ssrc, seq_nr),
{
    let mut out: Vec<u8> = vec![0x84, 206];
    assert(out@ =~= seq![0x84u8, 206u8]);
    push_u16(&mut out, 4);
    push_u32(&mut out, sender_ssrc);
    push_u32(&mut out, 0);
    push_u32(&mut out, target_ssrc);
    out.push(seq_nr);
    push_zeros(&mut out, 3);
    assert(out@ =~= fir(sender_ssrc, target_ssrc, seq_nr));
    out
}

/// A picture loss indication.
pub open spec fn pli(sender: u32, media: u32) -> Seq<u8> {
    seq![0x81u8, 206u8] + be16(2) + be32(sender) + be32(media)
}

/// Builds a picture loss indication.
pub fn build_rtcp_pli(sender_ssrc: u32, media_ssrc: u32) -> (out: Vec<u8>)
    ensures
        out@ == pli(sender_ssrc, media_ssrc),
{
    let mut out: Vec<u8> = vec![0x81, 206];
    assert(out@ =~= seq![0x81u8, 206u8]);
    push_u16(&mut out, 2);
    push_u32(&mut out, sender_ssrc);
    push_u32(&mut out, media_ssrc);
    out
}

/// A long-term reference acknowledgement for decoding-order number `donl`.
pub open spec fn ltrp(sender: u32, donl: u16) -> Seq<u8> {
    seq![0x80u8, 204u8] + be16(3) + be32(sender) + be32(5) + be32(donl as u32)
}

/// Builds a long-term reference acknowledgement: it echoes the decoding-order
/// number of the last cleanly decoded access unit.
pub fn build_rtcp_ltrp(sender_ssrc: u32, donl: u16) -> (out: Vec<u8>)
    ensures
        out@ == ltrp(sender_ssrc, donl),
{
    let mut out: Vec<u8> = vec![0x80, 204];
    assert(out@ =~= seq![0x80u8, 204u8]);
    push_u16(&mut out, 3);
    push_u32(&mut out, sender_ssrc);
    push_u32(&mut out, 5);
    push_u32(&mut out, donl as u32);
    out
}

// ---------------------------------------------------------------------------
// Loss reports
// ---------------------------------------------------------------------------

/// How far `b` lies ahead of `a`, counting modulo 65536.
pub open spec fn ahead(a: u16, b: u16) -> int {
    (b - a) % 0x1_0000
}

/// Whether sequence number `s` can share an entry that starts at `pid`.
pub open spec fn shares(pid: u16, s: u16) -> bool {
    1 <= ahead(pid, s) <= 16
}

/// The end of the run of numbers from `j` on that share the entry of `pid`.
pub open spec fn run_end(lost: Seq<u16>, pid: u16, j: int) -> int
    decreases lost.len() - j,
{
    if 0 <= j < lost.len() && shares(pid, lost[j]) {
        run_end(lost, pid, j + 1)
    } else {
        j
    }
}

/// The bit mask of the numbers `lost[i..j]` relative to `pid`.
pub open spec fn mask_of(lost: Seq<u16>, pid: u16, i: int, j: int) -> u16
    decreases j - i,
{
    if j <= i {
        0
    } else {
        mask_of(lost, pid, i, j - 1) | (1u16 << ((ahead(pid, lost[j - 1]) - 1) as u16))
    }
}

/// The loss entries for `lost[i..]`: the first number and a mask of those that
/// follow closely, then the rest.
pub open spec fn loss_entries(lost: Seq<u16>, i: int) -> Seq<(u16, u16)>
    decreases lost.len() - i,
    when 0 <= i
    via loss_entries_terminates
{
    if i >= lost.len() {
        Seq::empty()
    } else {
        let end = run_end(lost, lost[i], i + 1);
        seq![(lost[i], mask_of(lost, lost[i], i + 1, end))] + loss_entries(lost, end)
    }
}

proof fn lemma_run_end(lost: Seq<u16>, pid: u16, j: int)
    requires
        0 <= j <= lost.len(),
    ensures
        j <= run_end(lost, pid, j) <= lost.len(),
        forall|k: int| j <= k < run_end(lost, pid, j) ==> shares(pid, #[trigger] lost[k]),
        run_end(lost, pid, j) < lost.len() ==> !shares(pid, lost[run_end(lost, pid, j)]),
    decreases lost.len() - j,
{
    if j < lost.len() && shares(pid, lost[j]) {
        lemma_run_end(lost, pid, j + 1);
    }
}

#[via_fn]
proof fn loss_entries_terminates(lost: Seq<u16>, i: int) {
    if i < lost.len() {
        lemma_run_end(lost, lost[i], i + 1);
    }
}

/// The bytes of loss entries.
pub open spec fn entry_bytes(entries: Seq<(u16, u16)>) -> Seq<u8>
    decreases entries.len(),
{
    if entries.len() == 0 {
        Seq::empty()
    } else {
        be16(entries[0].0) + be16(entries[0].1) + entry_bytes(entries.skip(1))
    }
}

/// A loss report.
pub open spec fn nack(sender: u32, media: u32, lost: Seq<u16>) -> Seq<u8> {
    let entries = loss_entries(lost, 0);
    seq![0x81u8, 205u8] + be16(((2 + entries.len()) % 0x1_0000) as u16) + be32(sender) + be32(media)
        + entry_bytes(entries)
}

/// Builds a loss report with consecutive losses coalesced.
pub fn build_rtcp_nack(sender_ssrc: u32, media_ssrc: u32, lost_seqs: &[u16]) -> (out: Vec<u8>)
    ensures
        out@ == nack(sender_ssrc, media_ssrc, lost_seqs@),
{
    let n: usize = lost_seqs.len();
    let mut entries: Vec<u8> = Vec::new();
    let mut count: u16 = 2;
    let ghost mut done: nat = 0;
    let mut i: usize = 0;
    let ghost whole = loss_entries(lost_seqs@, 0);
    assert(entries@ + entry_bytes(whole) =~= entry_bytes(whole));
    while i < n
        invariant
            n == lost_seqs@.len(),
            i <= n,
            entries@ + entry_bytes(loss_entries(lost_seqs@, i as int)) == entry_bytes(whole),
            done + loss_entries(lost_seqs@, i as int).len() == whole.len(),
            count == (2 + done) % 0x1_0000,
        decreases n - i,
    {
        let pid: u16 = lost_seqs[i];
        let mut mask: u16 = 0;
        let mut j: usize = i + 1;
        let ghost end = run_end(lost_seqs@, pid, i + 1);
        let mut open: bool = true;
        while open && j < n
            invariant
                n == lost_seqs@.len(),
                i < j <= n,
                end == run_end(lost_seqs@, pid, i + 1),
                open ==> end == run_end(lost_seqs@, pid, j as int),
                !open ==> end == j,
                mask == mask_of(lost_seqs@, pid, i + 1, j as int),
            decreases n - j, (if open { 1int } else { 0int }),
        {
            let diff: u16 = lost_seqs[j].wrapping_sub(pid);
            assert(diff == ahead(pid, lost_seqs@[j as int]));
            if 1 <= diff && diff <= 16 {
                mask = mask | (1u16 << (diff - 1));
                j = j + 1;
            } else {
                open = false;
            }
        }
        assert(j == end);
        proof {
            let rest = loss_entries(lost_seqs@, end);
            let here = loss_entries(lost_seqs@, i as int);
            assert(here =~= seq![(pid, mask)] + rest);
            assert(here.skip(1) =~= rest);
            assert(entry_bytes(here) == be16(pid) + be16(mask) + entry_bytes(rest));
            assert(entries@ + (be16(pid) + be16(mask) + entry_bytes(rest)) =~= (entries@ + be16(pid)
                + be16(mask)) + entry_bytes(rest));
        }
        push_u16(&mut entries, pid);
        push_u16(&mut entries, mask);
        count = count.wrapping_add(1);
        proof {
            done = done + 1;
        }
        i = j;
    }
    proof {
        assert(loss_entries(lost_seqs@, n as int).len() == 0);
        assert(entries@ =~= entry_bytes(whole));
    }
    let mut out: Vec<u8> = vec![0x81, 205];
    assert(out@ =~= seq![0x81u8, 205u8]);
    push_u16(&mut out, count);
    push_u32(&mut out, sender_ssrc);
    push_u32(&mut out, media_ssrc);
    push_all(&mut out, &entries);
    out
}

/// Whether a loss entry reports sequence number `s` as lost.
pub open spec fn reports(entry: (u16, u16), s: u16) -> bool {
    s == entry.0 || (shares(entry.0, s) && (entry.1 >> ((ahead(entry.0, s) - 1) as u16)) & 1 == 1)
}

proof fn lemma_mask_bits(lost: Seq<u16>, pid: u16, i: int, j: int, s: u16)
    requires
        0 <= i <= j <= lost.len(),
        forall|k: int| i <= k < j ==> shares(pid, #[trigger] lost[k]),
        shares(pid, s),
    ensures
        (mask_of(lost, pid, i, j) >> ((ahead(pid, s) - 1) as u16)) & 1 == 1 <==> exists|k: int|
            i <= k < j && #[trigger] lost[k] == s,
    decreases j - i,
{
    let bit = (ahead(pid, s) - 1) as u16;
    if i >= j {
        assert((0u16 >> bit) & 1 == 0) by (bit_vector);
    } else {
        lemma_mask_bits(lost, pid, i, j - 1, s);
        let before = mask_of(lost, pid, i, j - 1);
        let at = (ahead(pid, lost[j - 1]) - 1) as u16;
        assert(((before | (1u16 << at)) >> bit) & 1 == 1 <==> ((before >> bit) & 1 == 1 || bit
            == at)) by (bit_vector)
            requires
                at < 16,
                bit < 16,
        ;
        assert(bit == at <==> lost[j - 1] == s);
        if exists|k: int| i <= k < j && #[trigger] lost[k] == s {
            let k = choose|k: int| i <= k < j && #[trigger] lost[k] == s;
            if k < j - 1 {
                assert(exists|k: int| i <= k < j - 1 && #[trigger] lost[k] == s);
            }
        }
    }
}

proof fn lemma_entries_report(lost: Seq<u16>, i: int, s: u16)
    requires
        0 <= i <= lost.len(),
    ensures
        (exists|e: int|
            0 <= e < loss_entries(lost, i).len() && reports(
                #[trigger] loss_entries(lost, i)[e],
                s,
            )) <==> (exists|k: int| i <= k < lost.len() && #[trigger] lost[k] == s),
    decreases lost.len() - i,
{
    if i < lost.len() {
        let pid = lost[i];
        let end = run_end(lost, pid, i + 1);
        lemma_run_end(lost, pid, i + 1);
        lemma_entries_report(lost, end, s);
        let entries = loss_entries(lost, i);
        let rest = loss_entries(lost, end);
        let first = (pid, mask_of(lost, pid, i + 1, end));
        assert(entries =~= seq![first] + rest);
        if shares(pid, s) {
            lemma_mask_bits(lost, pid, i + 1, end, s);
        }
        let in_first = exists|k: int| i <= k < end && #[trigger] lost[k] == s;
        assert(reports(first, s) <==> in_first) by {
            if reports(first, s) {
                if s == pid {
                    assert(lost[i] == s);
                }
            }
            if in_first {
                let k = choose|k: int| i <= k < end && #[trigger] lost[k] == s;
                if k > i {
                    assert(shares(pid, lost[k]));
                    assert(exists|k: int| i + 1 <= k < end && #[trigger] lost[k] == s);
                }
            }
        }
        if exists|e: int| 0 <= e < entries.len() && reports(#[trigger] entries[e], s) {
            let e = choose|e: int| 0 <= e < entries.len() && reports(#[trigger] entries[e], s);
            if e == 0 {
                let k = choose|k: int| i <= k < end && #[trigger] lost[k] == s;
                assert(i <= k < lost.len() && lost[k] == s);
            } else {
                assert(rest[e - 1] == entries[e]);
                let k = choose|k: int| end <= k < lost.len() && #[trigger] lost[k] == s;
                assert(i <= k < lost.len() && lost[k] == s);
            }
        }
        if exists|k: int| i <= k < lost.len() && #[trigger] lost[k] == s {
            let k = choose|k: int| i <= k < lost.len() && #[trigger] lost[k] == s;
            if k < end {
                assert(reports(entries[0], s));
            } else {
                assert(end <= k < lost.len() && lost[k] == s);
                let e = choose|e: int| 0 <= e < rest.len() && reports(#[trigger] rest[e], s);
                assert(entries[e + 1] == rest[e]);
            }
        }
    }
}

/// The entries of a loss report name exactly the sequence numbers that were
/// lost.
pub proof fn lemma_nack_reports_exactly_the_losses(lost: Seq<u16>, s: u16)
    ensures
        (exists|e: int|
            0 <= e < loss_entries(lost, 0).len() && reports(
                #[trigger] loss_entries(lost, 0)[e],
                s,
            )) <==> lost.contains(s),
{
    lemma_entries_report(lost, 0, s);
}

proof fn lemma_entry_bytes_len(entries: Seq<(u16, u16)>)
    ensures
        entry_bytes(entries).len() == 4 * entries.len(),
    decreases entries.len(),
{
    if entries.len() > 0 {
        lemma_entry_bytes_len(entries.skip(1));
    }
}

/// The length field of a loss report, in 32-bit words minus one, matches its
/// size, as long as it can be expressed.
pub proof fn lemma_nack_length(sender: u32, media: u32, lost: Seq<u16>)
    requires
        loss_entries(lost, 0).len() + 2 < 0x1_0000,
    ensures
        nack(sender, media, lost).len() == (u16_of(nack(sender, media, lost), 2) + 1) * 4,
{
    let entries = loss_entries(lost, 0);
    lemma_entry_bytes_len(entries);
    let pkt = nack(sender, media, lost);
    let words = (2 + entries.len()) as u16;
    assert(pkt[2] == be16(words)[0] && pkt[3] == be16(words)[1]);
}

/// Requests for a picture, and the acknowledgement of one, as they go out: the
/// kind of packet, its length in words less one, who sends it and whom it is
/// about.
#[verifier::spinoff_prover]
pub proof fn lemma_request_layouts(sender: u32, target: u32, number: u8, donl: u16)
    ensures
        ({
            let m = fir_legacy(target);
            &&& m.len() == 8
            &&& m[0] == 0x80 && m[1] == 192
            &&& short_at(m, 2) == 1
            &&& long_at(m, 4) == target
        }),
        ({
            let m = fir(sender, target, number);
            &&& m.len() == 20
            &&& m[0] == 0x84 && m[1] == 206
            &&& short_at(m, 2) == 4
            &&& long_at(m, 4) == sender
            &&& long_at(m, 8) == 0
            &&& long_at(m, 12) == target
            &&& m[16] == number
            &&& m[17] == 0 && m[18] == 0 && m[19] == 0
        }),
        ({
            let m = pli(sender, target);
            &&& m.len() == 12
            &&& m[0] == 0x81 && m[1] == 206
            &&& short_at(m, 2) == 2
            &&& long_at(m, 4) == sender
            &&& long_at(m, 8) == target
        }),
        ({
            let m = ltrp(sender, donl);
            &&& m.len() == 16
            &&& m[0] == 0x80 && m[1] == 204
            &&& short_at(m, 2) == 3
            &&& long_at(m, 4) == sender
            &&& long_at(m, 8) == 5
            &&& long_at(m, 12) == donl
        }),
{
    lemma_high_byte_first(1, target);
    lemma_high_byte_first(2, sender);
    lemma_high_byte_first(3, 0);
    lemma_high_byte_first(4, 5);
    lemma_high_byte_first(0, donl as u32);
    let (t, f, z) = (be32(target), be32(sender), be32(0));
    let m = fir_legacy(target);
    assert(m[2] == be16(1)[0] && m[3] == be16(1)[1]);
    assert(m[4] == t[0] && m[5] == t[1] && m[6] == t[2] && m[7] == t[3]);
    let m = fir(sender, target, number);
    assert(m[2] == be16(4)[0] && m[3] == be16(4)[1]);
    assert(m[4] == f[0] && m[5] == f[1] && m[6] == f[2] && m[7] == f[3]);
    assert(m[8] == z[0] && m[9] == z[1] && m[10] == z[2] && m[11] == z[3]);
    assert(m[12] == t[0] && m[13] == t[1] && m[14] == t[2] && m[15] == t[3]);
    let m = pli(sender, target);
    assert(m[2] == be16(2)[0] && m[3] == be16(2)[1]);
    assert(m[4] == f[0] && m[5] == f[1] && m[6] == f[2] && m[7] == f[3]);
    assert(m[8] == t[0] && m[9] == t[1] && m[10] == t[2] && m[11] == t[3]);
    let m = ltrp(sender, donl);
    let (k, d) = (be32(5), be32(donl as u32));
    assert(m[2] == be16(3)[0] && m[3] == be16(3)[1]);
    assert(m[4] == f[0] && m[5] == f[1] && m[6] == f[2] && m[7] == f[3]);
    assert(m[8] == k[0] && m[9] == k[1] && m[10] == k[2] && m[11] == k[3]);
    assert(m[12] == d[0] && m[13] == d[1] && m[14] == d[2] && m[15] == d[3]);
}

proof fn lemma_block_at(sources: Seq<(u32, u32, u16)>, sr: Option<SenderReport>, n: int, i: int)
    requires
        0 <= i < n,
    ensures
        report_blocks(sources, sr, n).subrange(24 * i, 24 * i + 24) == report_block(
            sources[i],
            sr,
        ),
    decreases n,
{
    lemma_blocks_len(sources, sr, n - 1);
    let before = report_blocks(sources, sr, n - 1);
    let all = report_blocks(sources, sr, n);
    if i < n - 1 {
        lemma_block_at(sources, sr, n - 1, i);
        assert(all.subrange(24 * i, 24 * i + 24) =~= before.subrange(24 * i, 24 * i + 24));
    } else {
        assert(all.subrange(24 * i, 24 * i + 24) =~= report_block(sources[i], sr));
    }
}

/// A receiver report says who sends it, and of each of the first 31 sources, in
/// their order, its number, the highest sequence number behind its cycles, and,
/// for the source of the last sender report, when that was sent and how long
/// ago it came.
#[verifier::spinoff_prover]
pub proof fn lemma_receiver_report_layout(
    sender: u32,
    sources: Seq<(u32, u32, u16)>,
    sr: Option<SenderReport>,
    i: int,
)
    requires
        0 <= i < sources.len(),
        i < 31,
    ensures
        ({
            let m = receiver_report(sender, sources, sr);
            let at = 8 + 24 * i;
            let count = if sources.len() < 31 {
                sources.len() as int
            } else {
                31
            };
            &&& m.len() == 8 + 24 * count
            &&& m[0] == 0x80 + count && m[1] == 201
            &&& long_at(m, 4) == sender
            &&& long_at(m, at) == sources[i].0
            &&& long_at(m, at + 4) == 0
            &&& short_at(m, at + 8) == sources[i].1 % 0x1_0000
            &&& short_at(m, at + 10) == sources[i].2
            &&& long_at(m, at + 12) == 0
            &&& match sr {
                Some((ssrc, ntp, delay)) if ssrc == sources[i].0 => long_at(m, at + 16) == ntp
                    && long_at(m, at + 20) == delay,
                _ => long_at(m, at + 16) == 0 && long_at(m, at + 20) == 0,
            }
        }),
{
    let count = report_count(sources.len()) as int;
    let m = receiver_report(sender, sources, sr);
    let blocks = report_blocks(sources, sr, count);
    lemma_blocks_len(sources, sr, count);
    lemma_block_at(sources, sr, count, i);
    lemma_high_byte_first(0, sender);
    let f = be32(sender);
    assert(m[4] == f[0] && m[5] == f[1] && m[6] == f[2] && m[7] == f[3]);
    let block = blocks.subrange(24 * i, 24 * i + 24);
    let at = 8 + 24 * i;
    assert forall|k: int| 0 <= k < 24 implies #[trigger] m[at + k] == block[k] by {
        assert(m[at + k] == blocks[24 * i + k]);
    }
    lemma_report_block(sources[i], sr);
    assert(m[at + 0] == block[0] && m[at + 1] == block[1] && m[at + 2] == block[2] && m[at + 3]
        == block[3]);
    assert(m[at + 4] == block[4] && m[at + 5] == block[5] && m[at + 6] == block[6] && m[at + 7]
        == block[7]);
    assert(m[at + 8] == block[8] && m[at + 9] == block[9] && m[at + 10] == block[10] && m[at + 11]
        == block[11]);
    assert(m[at + 12] == block[12] && m[at + 13] == block[13] && m[at + 14] == block[14] && m[at
        + 15] == block[15]);
    assert(m[at + 16] == block[16] && m[at + 17] == block[17] && m[at + 18] == block[18] && m[at
        + 19] == block[19]);
    assert(m[at + 20] == block[20] && m[at + 21] == block[21] && m[at + 22] == block[22] && m[at
        + 23] == block[23]);
}

#[verifier::spinoff_prover]
proof fn lemma_report_block(s: (u32, u32, u16), sr: Option<SenderReport>)
    ensures
        ({
            let b = report_block(s, sr);
            let (ntp, delay) = match sr {
                Some((ssrc, n, d)) if ssrc == s.0 => (n, d),
                _ => (0u32, 0u32),
            };
            &&& b.len() == 24
            &&& long_at(b, 0) == s.0
            &&& long_at(b, 4) == 0
            &&& short_at(b, 8) == s.1 % 0x1_0000
            &&& short_at(b, 10) == s.2
            &&& long_at(b, 12) == 0
            &&& long_at(b, 16) == ntp
            &&& long_at(b, 20) == delay
        }),
{
    let (ntp, delay) = match sr {
        Some((ssrc, n, d)) if ssrc == s.0 => (n, d),
        _ => (0u32, 0u32),
    };
    let high = (s.1 % 0x1_0000 * 0x1_0000 + s.2) as u32;
    let b = report_block(s, sr);
    let (p, z, h, n, d) = (be32(s.0), be32(0), be32(high), be32(ntp), be32(delay));
    lemma_high_byte_first(0, s.0);
    lemma_high_byte_first(0, 0);
    lemma_high_byte_first(0, high);
    lemma_high_byte_first(0, ntp);
    lemma_high_byte_first(0, delay);
    assert(b[0] == p[0] && b[1] == p[1] && b[2] == p[2] && b[3] == p[3]);
    assert(b[4] == z[0] && b[5] == z[1] && b[6] == z[2] && b[7] == z[3]);
    assert(b[8] == h[0] && b[9] == h[1] && b[10] == h[2] && b[11] == h[3]);
    assert(b[12] == z[0] && b[13] == z[1] && b[14] == z[2] && b[15] == z[3]);
    assert(b[16] == n[0] && b[17] == n[1] && b[18] == n[2] && b[19] == n[3]);
    assert(b[20] == d[0] && b[21] == d[1] && b[22] == d[2] && b[23] == d[3]);
    assert(high / 0x1_0000 == s.1 % 0x1_0000 && high % 0x1_0000 == s.2);
}

/// Whether the four bytes at `at` tell of `s`: the first two are a number, and
/// each bit of the others stands for one of the sixteen numbers that follow it,
/// the lowest for the next.
pub open spec fn tells_of(m: Seq<u8>, at: int, s: u16) -> bool {
    let d = (s - short_at(m, at)) % 0x1_0000;
    d == 0 || (1 <= d <= 16 && short_at(m, at + 2) / pow2((d - 1) as nat) as int % 2 == 1)
}

#[verifier::spinoff_prover]
proof fn lemma_entry_at(entries: Seq<(u16, u16)>, i: int)
    requires
        0 <= i < entries.len(),
    ensures
        entry_bytes(entries).len() == 4 * entries.len(),
        short_at(entry_bytes(entries), 4 * i) == entries[i].0,
        short_at(entry_bytes(entries), 4 * i + 2) == entries[i].1,
    decreases entries.len(),
{
    lemma_entry_bytes_len(entries);
    let (a, b) = (be16(entries[0].0), be16(entries[0].1));
    let rest = entry_bytes(entries.skip(1));
    let all = entry_bytes(entries);
    lemma_high_byte_first(entries[0].0, 0);
    lemma_high_byte_first(entries[0].1, 0);
    if i == 0 {
        assert(all[0] == a[0] && all[1] == a[1] && all[2] == b[0] && all[3] == b[1]);
    } else {
        lemma_entry_at(entries.skip(1), i - 1);
        let at = 4 * (i - 1);
        assert(all[4 * i] == rest[at] && all[4 * i + 1] == rest[at + 1] && all[4 * i + 2]
            == rest[at + 2] && all[4 * i + 3] == rest[at + 3]);
    }
}

proof fn lemma_entry_tells(m: Seq<u8>, at: int, entry: (u16, u16), s: u16)
    requires
        short_at(m, at) == entry.0,
        short_at(m, at + 2) == entry.1,
    ensures
        tells_of(m, at, s) <==> reports(entry, s),
{
    let d = ahead(entry.0, s);
    if 1 <= d <= 16 {
        let k = (d - 1) as u16;
        lemma_u16_shr_is_div(entry.1, k);
        let x = entry.1 >> k;
        assert(x & 1 == x % 2) by (bit_vector);
    }
}

/// A loss report says who sends it and whom it is about, and behind that tells
/// of exactly the sequence numbers that were lost.
#[verifier::spinoff_prover]
pub proof fn lemma_loss_report_layout(sender: u32, media: u32, lost: Seq<u16>, s: u16)
    ensures
        ({
            let m = nack(sender, media, lost);
            &&& m.len() >= 12
            &&& m.len() % 4 == 0
            &&& m[0] == 0x81 && m[1] == 205
            &&& long_at(m, 4) == sender
            &&& long_at(m, 8) == media
            &&& lost.contains(s) <==> exists|i: int|
                0 <= i && 12 + 4 * i < m.len() && #[trigger] tells_of(m, 12 + 4 * i, s)
        }),
{
    let m = nack(sender, media, lost);
    let entries = loss_entries(lost, 0);
    let body = entry_bytes(entries);
    lemma_entry_bytes_len(entries);
    lemma_high_byte_first(0, sender);
    lemma_high_byte_first(0, media);
    let (f, t) = (be32(sender), be32(media));
    assert(m[4] == f[0] && m[5] == f[1] && m[6] == f[2] && m[7] == f[3]);
    assert(m[8] == t[0] && m[9] == t[1] && m[10] == t[2] && m[11] == t[3]);
    assert forall|i: int| 0 <= i < entries.len() implies (#[trigger] tells_of(m, 12 + 4 * i, s)
        <==> reports(entries[i], s)) by {
        lemma_entry_at(entries, i);
        let at = 12 + 4 * i;
        assert(m[at] == body[4 * i] && m[at + 1] == body[4 * i + 1] && m[at + 2] == body[4 * i + 2]
            && m[at + 3] == body[4 * i + 3]);
        lemma_entry_tells(m, at, entries[i], s);
    }
    lemma_nack_reports_exactly_the_losses(lost, s);
    if lost.contains(s) {
        let e = choose|e: int| 0 <= e < entries.len() && reports(#[trigger] entries[e], s);
        assert(tells_of(m, 12 + 4 * e, s));
    }
}

} // verus!
