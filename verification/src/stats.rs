//! Connection statistics.

use std::collections::HashMap;
use vstd::prelude::*;

use crate::encodings::{encoding_name, name_of};

verus! {

/// What happened on the connection between two samples. Times are in
/// nanoseconds.
#[derive(Debug, Clone)]
pub struct ConnectionStats {
    /// Desktop width in pixels.
    pub width: u16,
    /// Desktop height in pixels.
    pub height: u16,
    /// Human-readable name of the most recently used frame encoding.
    pub encoding: String,
    /// Frames since the last sample.
    pub frames: u32,
    /// Bytes received since the last sample.
    pub rx_bytes: u64,
    /// Bytes sent since the last sample.
    pub tx_bytes: u64,
    /// Time since the last sample.
    pub elapsed: u64,
}

/// Tracks internal counters and produces `ConnectionStats` snapshots.
#[derive(Debug, Clone, Copy)]
pub struct ConnectionStatsTracker {
    pub last_sample: u64,
    pub frame_count: u32,
    pub last_bytes_read: u64,
    pub last_bytes_written: u64,
    pub last_encoding: i32,
}

/// `a - b`, or zero where `b` is the larger.
pub open spec fn growth(a: u64, b: u64) -> u64 {
    if a >= b {
        (a - b) as u64
    } else {
        0
    }
}

impl ConnectionStatsTracker {
    /// A tracker that starts counting at time `now`.
    pub fn new(now: u64) -> (r: Self)
        ensures
            r == (ConnectionStatsTracker {
                last_sample: now,
                frame_count: 0,
                last_bytes_read: 0,
                last_bytes_written: 0,
                last_encoding: (-1) as i32,
            }),
    {
        ConnectionStatsTracker {
            last_sample: now,
            frame_count: 0,
            last_bytes_read: 0,
            last_bytes_written: 0,
            last_encoding: -1,
        }
    }

    /// The tracker after one more frame in `encoding`. The count stays at the
    /// largest value once it is there.
    pub open spec fn after_frame(self, encoding: i32) -> ConnectionStatsTracker {
        ConnectionStatsTracker {
            frame_count: if self.frame_count < u32::MAX {
                (self.frame_count + 1) as u32
            } else {
                u32::MAX
            },
            last_encoding: encoding,
            ..self
        }
    }

    /// Record that one complete framebuffer update message has been processed.
    pub fn record_frame(&mut self, encoding: i32)
        ensures
            *final(self) == old(self).after_frame(encoding),
    {
        self.frame_count = self.frame_count.saturating_add(1);
        self.last_encoding = encoding;
    }

    /// Takes a snapshot at time `now` and starts the next period. The byte
    /// counts are those of the whole connection.
    pub fn sample(
        &mut self,
        width: u16,
        height: u16,
        now: u64,
        bytes_read: u64,
        bytes_written: u64,
    ) -> (r: ConnectionStats)
        ensures
            r.width == width,
            r.height == height,
            r.encoding@ == name_of(old(self).last_encoding),
            r.frames == old(self).frame_count,
            r.rx_bytes == growth(bytes_read, old(self).last_bytes_read),
            r.tx_bytes == growth(bytes_written, old(self).last_bytes_written),
            r.elapsed == growth(now, old(self).last_sample),
            *final(self) == (ConnectionStatsTracker {
                last_sample: now,
                frame_count: 0,
                last_bytes_read: bytes_read,
                last_bytes_written: bytes_written,
                last_encoding: old(self).last_encoding,
            }),
    {
        let r = ConnectionStats {
            width,
            height,
            encoding: encoding_name(self.last_encoding).to_owned(),
            frames: self.frame_count,
            rx_bytes: bytes_read.saturating_sub(self.last_bytes_read),
            tx_bytes: bytes_written.saturating_sub(self.last_bytes_written),
            elapsed: now.saturating_sub(self.last_sample),
        };
        self.last_sample = now;
        self.frame_count = 0;
        self.last_bytes_read = bytes_read;
        self.last_bytes_written = bytes_written;
        r
    }
}

/// How often `e` stands in `s`.
pub open spec fn occurrences(s: Seq<i32>, e: i32) -> nat
    decreases s.len(),
{
    if s.len() == 0 {
        0
    } else {
        occurrences(s.drop_last(), e) + if s.last() == e {
            1nat
        } else {
            0
        }
    }
}

/// Among the first `n` encodings, the first whose count over all of `s` is not
/// exceeded; pseudo-encodings do not take part, and -1 stands for none.
pub open spec fn leader(s: Seq<i32>, n: nat) -> i32
    decreases n,
{
    if n == 0 {
        (-1) as i32
    } else {
        let prev = leader(s, (n - 1) as nat);
        let e = s[n - 1];
        if e >= 0 && (prev < 0 || occurrences(s, e) > occurrences(s, prev)) {
            e
        } else {
            prev
        }
    }
}

/// The most common encoding of `s`, pseudo-encodings aside.
pub open spec fn most_common(s: Seq<i32>) -> i32 {
    leader(s, s.len())
}

/// No real encoding occurs more often than the most common one, which is one of
/// those that occur; it is -1 exactly when there are only pseudo-encodings.
pub proof fn lemma_most_common(s: Seq<i32>)
    ensures
        most_common(s) >= 0 ==> s.contains(most_common(s)),
        forall|i: int|
            0 <= i < s.len() && s[i] >= 0 ==> most_common(s) >= 0 && #[trigger] occurrences(s, s[i])
                <= occurrences(s, most_common(s)),
        most_common(s) >= -1,
        most_common(s) == -1 <==> (forall|i: int| 0 <= i < s.len() ==> s[i] < 0),
{
    lemma_leader(s, s.len());
}

proof fn lemma_leader(s: Seq<i32>, n: nat)
    requires
        n <= s.len(),
    ensures
        leader(s, n) >= -1,
        leader(s, n) >= 0 ==> exists|i: int| 0 <= i < n && s[i] == leader(s, n),
        forall|i: int|
            0 <= i < n && s[i] >= 0 ==> leader(s, n) >= 0 && #[trigger] occurrences(s, s[i])
                <= occurrences(s, leader(s, n)),
        leader(s, n) < 0 ==> forall|i: int| 0 <= i < n ==> s[i] < 0,
    decreases n,
{
    if n > 0 {
        lemma_leader(s, (n - 1) as nat);
        let prev = leader(s, (n - 1) as nat);
        let e = s[n - 1];
        assert(leader(s, n) == e || leader(s, n) == prev);
        if leader(s, n) == e {
            assert(s[n - 1] == leader(s, n));
        }
        assert forall|i: int| 0 <= i < n && s[i] >= 0 implies leader(s, n) >= 0
            && #[trigger] occurrences(s, s[i]) <= occurrences(s, leader(s, n)) by {
            if i < n - 1 {
                assert(occurrences(s, s[i]) <= occurrences(s, prev));
            }
        }
        assert(leader(s, n) < 0 ==> forall|i: int| 0 <= i < n ==> s[i] < 0);
    }
}

proof fn lemma_occurrences_bound(s: Seq<i32>, e: i32)
    ensures
        occurrences(s, e) <= s.len(),
    decreases s.len(),
{
    if s.len() > 0 {
        lemma_occurrences_bound(s.drop_last(), e);
    }
}

spec fn counted(counts: Map<u64, usize>, e: i32) -> nat {
    if counts.contains_key(e as u64) {
        counts[e as u64] as nat
    } else {
        0
    }
}

fn count_encodings(encodings: &[i32]) -> (counts: HashMap<u64, usize>)
    ensures
        forall|e: i32| e >= 0 ==> #[trigger] counted(counts@, e) == occurrences(encodings@, e),
{
    let mut counts: HashMap<u64, usize> = HashMap::new();
    let n: usize = encodings.len();
    let mut i: usize = 0;
    assert(encodings@.take(0) =~= Seq::<i32>::empty());
    while i < n
        invariant
            n == encodings@.len(),
            i <= n,
            forall|e: i32|
                e >= 0 ==> #[trigger] counted(counts@, e) == occurrences(
                    encodings@.take(i as int),
                    e,
                ),
        decreases n - i,
    {
        let e: i32 = encodings[i];
        let ghost before = encodings@.take(i as int);
        let ghost after = encodings@.take(i + 1);
        let ghost prior = counts@;
        proof {
            assert(after.drop_last() =~= before);
            assert(after.last() == e);
            lemma_occurrences_bound(before, e);
        }
        if e >= 0 {
            let count: usize = match counts.get(&(e as u64)) {
                Some(c) => *c,
                None => 0,
            };
            assert(count == counted(prior, e));
            counts.insert(e as u64, count + 1);
        }
        assert forall|f: i32| f >= 0 implies #[trigger] counted(counts@, f) == occurrences(
            after,
            f,
        ) by {
            assert(counted(prior, f) == occurrences(before, f));
        }
        i = i + 1;
    }
    assert(encodings@.take(n as int) =~= encodings@);
    counts
}

/// Compute the most common encoding in a framebuffer update, ignoring
/// pseudo-encodings (negative values).
pub fn most_common_encoding(encodings: &[i32]) -> (r: i32)
    ensures
        r == most_common(encodings@),
{
    let counts = count_encodings(encodings);
    let n: usize = encodings.len();
    let mut best: i32 = -1;
    let mut best_count: usize = 0;
    let mut i: usize = 0;
    while i < n
        invariant
            n == encodings@.len(),
            i <= n,
            forall|e: i32| e >= 0 ==> #[trigger] counted(counts@, e) == occurrences(encodings@, e),
            best == leader(encodings@, i as nat),
            best >= 0 ==> best_count == occurrences(encodings@, best),
        decreases n - i,
    {
        let e: i32 = encodings[i];
        if e >= 0 {
            let count: usize = match counts.get(&(e as u64)) {
                Some(c) => *c,
                None => 0,
            };
            assert(count == counted(counts@, e));
            if best < 0 || count > best_count {
                best = e;
                best_count = count;
            }
        }
        i = i + 1;
    }
    best
}

} // verus!
