//! Per-source receive state and the group of sources that make up the picture.

use std::collections::HashMap;
use vstd::prelude::*;

use crate::apple_media_stream::depacketizer::{contents, Depacketizer, DepacketizerState};
use crate::apple_media_stream::rtcp::ahead;
use crate::decoder::Codec;
use crate::maps::keys_of;
use crate::wire::push_all;

verus! {

// ---------------------------------------------------------------------------
// The tile group
// ---------------------------------------------------------------------------

/// How many tiles a picture is made of.
pub open spec fn tile_count(codec: Codec) -> nat {
    match codec {
        Codec::Hevc => 4,
        Codec::H264 => 1,
    }
}

/// `pool` holds the `n` consecutive numbers from `start` on.
pub open spec fn is_run(pool: Set<u32>, start: u32, n: nat) -> bool {
    forall|k: int|
        #![trigger pool.contains((start + k) as u32)]
        0 <= k < n ==> start + k <= u32::MAX && pool.contains((start + k) as u32)
}

/// The `n` consecutive numbers from `start` on are the longest run in `pool`,
/// and the one with the smallest numbers among the longest.
pub open spec fn is_longest(pool: Set<u32>, start: u32, n: nat) -> bool {
    &&& is_run(pool, start, n)
    &&& forall|s: u32, m: nat|
        #![trigger is_run(pool, s, m)]
        is_run(pool, s, m) && m > 0 ==> m < n || (m == n && start <= s)
}

/// The longest run in `pool`.
pub open spec fn longest_run(pool: Set<u32>) -> (u32, nat) {
    choose|r: (u32, nat)| r.1 > 0 && #[trigger] is_longest(pool, r.0, r.1)
}

proof fn lemma_longest_unique(pool: Set<u32>, start: u32, n: nat)
    requires
        n > 0,
        is_longest(pool, start, n),
    ensures
        longest_run(pool) == (start, n),
{
    let r = (start, n);
    assert(r.1 > 0 && is_longest(pool, r.0, r.1));
    let c = longest_run(pool);
    assert(c.1 > 0 && is_longest(pool, c.0, c.1));
    assert(is_run(pool, c.0, c.1));
    assert(is_run(pool, start, n));
}

/// The `n` consecutive numbers from `start` on.
pub open spec fn run_of(start: u32, n: nat) -> Seq<u32> {
    Seq::new(n, |i: int| (start + i) as u32)
}

/// The candidates that have been seen at least three times.
pub open spec fn frequent(candidates: Map<u64, u32>) -> Set<u32> {
    Set::new(|s: u32| candidates.contains_key(s as u64) && candidates[s as u64] >= 3)
}

/// The sources that make up the picture, and those that might.
pub struct GroupState {
    /// The adopted sources in ascending order; the index is the tile number.
    pub tiles: Seq<u32>,
    /// Other sources, with how often each was seen.
    pub candidates: Map<u64, u32>,
}

impl GroupState {
    /// Nothing seen yet.
    pub open spec fn fresh() -> GroupState {
        GroupState { tiles: Seq::empty(), candidates: Map::empty() }
    }

    /// How often `ssrc` has been seen, with one more sighting.
    pub open spec fn sightings(self, ssrc: u32) -> u32 {
        let key = ssrc as u64;
        if !self.candidates.contains_key(key) {
            1
        } else if self.candidates[key] == u32::MAX {
            u32::MAX
        } else {
            (self.candidates[key] + 1) as u32
        }
    }

    /// The group to change to when the sources of `pool` may form one: a
    /// complete run of consecutive numbers other than the current group.
    pub open spec fn replacement(self, codec: Codec, pool: Set<u32>) -> Option<Seq<u32>> {
        let (start, n) = longest_run(pool);
        let group = run_of(start, tile_count(codec));
        if n >= tile_count(codec) && group != self.tiles {
            Some(group)
        } else {
            None
        }
    }

    /// The state after a packet of source `ssrc`, and whether a new group was
    /// adopted. The first source becomes tile 0 at once. A group is replaced
    /// only by a complete one: while it is incomplete, by a run that may
    /// include its members; once complete, only when it has stopped producing
    /// pictures.
    pub open spec fn noted(self, codec: Codec, ssrc: u32, recent_decode: bool) -> (
        GroupState,
        bool,
    ) {
        if self.tiles.contains(ssrc) {
            (self, false)
        } else if self.tiles.len() == 0 {
            (GroupState { tiles: seq![ssrc], ..self }, false)
        } else {
            let counted = GroupState {
                candidates: self.candidates.insert(ssrc as u64, self.sightings(ssrc)),
                ..self
            };
            let known = frequent(counted.candidates);
            let group = if self.sightings(ssrc) < 3 {
                None
            } else if self.tiles.len() < tile_count(codec) {
                self.replacement(codec, self.tiles.to_set().union(known))
            } else if !recent_decode {
                self.replacement(codec, known)
            } else {
                None
            };
            match group {
                Some(tiles) => (GroupState { tiles, candidates: Map::empty() }, true),
                None => (counted, false),
            }
        }
    }
}

/// Whether `v` occurs in `list`.
pub fn occurs(list: &[u32], v: u32) -> (r: bool)
    ensures
        r == list@.contains(v),
{
    let mut i: usize = 0;
    while i < list.len()
        invariant
            i <= list@.len(),
            forall|j: int| 0 <= j < i ==> list@[j] != v,
        decreases list@.len() - i,
    {
        if list[i] == v {
            return true;
        }
        i = i + 1;
    }
    false
}

/// How many consecutive numbers from `start` on occur in `pool`.
fn run_length(pool: &[u32], start: u32) -> (n: u64)
    ensures
        is_run(pool@.to_set(), start, n as nat),
        forall|m: nat| #[trigger] is_run(pool@.to_set(), start, m) ==> m <= n,
        n <= 0x1_0000_0000,
{
    let mut n: u64 = 0;
    while start as u64 + n <= u32::MAX as u64 && occurs(pool, (start as u64 + n) as u32)
        invariant
            n <= 0x1_0000_0000 - start,
            is_run(pool@.to_set(), start, n as nat),
        decreases 0x1_0000_0000 - start - n,
    {
        n = n + 1;
    }
    assert forall|m: nat| #[trigger] is_run(pool@.to_set(), start, m) implies m <= n by {
        if m > n {
            assert(pool@.to_set().contains((start + n as int) as u32));
        }
    }
    n
}

fn find_longest_run(pool: &[u32]) -> (r: (u32, u64))
    requires
        pool@.len() > 0,
    ensures
        r.1 > 0,
        longest_run(pool@.to_set()) == (r.0, r.1 as nat),
        is_run(pool@.to_set(), r.0, r.1 as nat),
{
    let mut best: (u32, u64) = (pool[0], run_length(pool, pool[0]));
    let ghost set = pool@.to_set();
    proof {
        assert(set.contains(pool@[0]));
        assert(is_run(set, pool@[0], 1)) by {
            assert forall|k: int|
                #![trigger set.contains((pool@[0] + k) as u32)]
                0 <= k < 1 implies pool@[0] + k <= u32::MAX && set.contains(
                (pool@[0] + k) as u32,
            ) by {
                assert((pool@[0] + k) as u32 == pool@[0]);
            }
        }
    }
    let mut i: usize = 1;
    while i < pool.len()
        invariant
            1 <= i <= pool@.len(),
            set == pool@.to_set(),
            best.1 > 0,
            is_run(set, best.0, best.1 as nat),
            forall|j: int, m: nat|
                #![trigger pool@[j], is_run(set, pool@[j], m)]
                0 <= j < i && is_run(set, pool@[j], m) ==> m < best.1 || (m == best.1 && best.0
                    <= pool@[j]) || m == 0,
        decreases pool@.len() - i,
    {
        let s: u32 = pool[i];
        let n: u64 = run_length(pool, s);
        if n > best.1 || (n == best.1 && s < best.0) {
            best = (s, n);
        }
        i = i + 1;
    }
    proof {
        assert forall|s: u32, m: nat| #[trigger] is_run(set, s, m) && m > 0 implies m < best.1 || (m
            == best.1 && best.0 <= s) by {
            assert(set.contains((s + 0) as u32));
            assert((s + 0) as u32 == s);
            let j = choose|j: int| 0 <= j < pool@.len() && pool@[j] == s;
            assert(is_run(set, pool@[j], m));
        }
        lemma_longest_unique(set, best.0, best.1 as nat);
    }
    best
}

/// Source `s` is among the first `n` of `order` and was seen often enough.
spec fn listed(order: Seq<u64>, counts: Map<u64, u32>, n: int, s: u32) -> bool {
    exists|j: int| 0 <= j < n && #[trigger] order[j] == s as u64 && counts[order[j]] >= 3
}

proof fn lemma_listed_step(order: Seq<u64>, counts: Map<u64, u32>, n: int, s: u32)
    requires
        0 <= n < order.len(),
    ensures
        listed(order, counts, n + 1, s) <==> listed(order, counts, n, s) || (order[n] == s as u64
            && counts[order[n]] >= 3),
{
    if listed(order, counts, n, s) {
        let j = choose|j: int| 0 <= j < n && #[trigger] order[j] == s as u64 && counts[order[j]]
            >= 3;
        assert(0 <= j < n + 1 && order[j] == s as u64);
    }
}

proof fn lemma_contains_push(list: Seq<u32>, v: u32, s: u32)
    ensures
        list.push(v).contains(s) <==> list.contains(s) || s == v,
{
    if list.contains(s) {
        let x = choose|x: int| 0 <= x < list.len() && list[x] == s;
        assert(list.push(v)[x] == s);
    }
    assert(list.push(v)[list.len() as int] == v);
    if list.push(v).contains(s) {
        let x = choose|x: int| 0 <= x < list.push(v).len() && list.push(v)[x] == s;
        if x < list.len() {
            assert(list[x] == s);
        }
    }
}

/// The sources that make up the picture, and those that might.
pub struct TileGroup {
    tile_ssrcs: Vec<u32>,
    candidates: HashMap<u64, u32>,
}

impl View for TileGroup {
    type V = GroupState;

    closed spec fn view(&self) -> GroupState {
        GroupState { tiles: self.tile_ssrcs@, candidates: self.candidates@ }
    }
}

impl TileGroup {
    /// There are at most four tiles, and candidates are SSRCs.
    pub closed spec fn wf(&self) -> bool {
        &&& self.tile_ssrcs@.len() <= 4
        &&& forall|k: u64| #[trigger] self.candidates@.contains_key(k) ==> k <= u32::MAX
    }

    /// A group that has seen nothing yet.
    pub fn new() -> (r: TileGroup)
        ensures
            r.wf(),
            r@ == GroupState::fresh(),
    {
        TileGroup { tile_ssrcs: Vec::new(), candidates: HashMap::new() }
    }

    /// The adopted sources.
    pub fn tiles(&self) -> (r: &Vec<u32>)
        requires
            self.wf(),
        ensures
            r@ == self@.tiles,
            r@.len() <= 4,
    {
        &self.tile_ssrcs
    }

    fn frequent_candidates(&self, pool: &mut Vec<u32>)
        requires
            self.wf(),
        ensures
            final(pool)@.to_set() == old(pool)@.to_set().union(frequent(self@.candidates)),
            final(pool)@.len() >= old(pool)@.len(),
    {
        let keys = keys_of(&self.candidates);
        let n: usize = keys.len();
        let ghost start = pool@;
        let ghost order = keys@;
        let ghost map = self.candidates@;
        let mut i: usize = 0;
        while i < n
            invariant
                i <= n,
                n == order.len(),
                order == keys@,
                map == self.candidates@,
                forall|k: u64| #[trigger] order.contains(k) <==> map.contains_key(k),
                self.wf(),
                pool@.len() >= start.len(),
                forall|s: u32| #[trigger]
                    pool@.contains(s) <==> start.contains(s) || listed(order, map, i as int, s),
            decreases n - i,
        {
            assert(order.contains(order[i as int]));
            let key: u64 = keys[i];
            let count: u32 = match self.candidates.get(&key) {
                Some(c) => *c,
                None => 0,
            };
            let ghost before = pool@;
            if count >= 3 {
                pool.push(key as u32);
            }
            assert forall|s: u32| #[trigger]
                pool@.contains(s) <==> start.contains(s) || listed(order, map, i + 1, s) by {
                lemma_listed_step(order, map, i as int, s);
                lemma_contains_push(before, key as u32, s);
                assert(before.contains(s) <==> start.contains(s) || listed(
                    order,
                    map,
                    i as int,
                    s,
                ));
            }
            i = i + 1;
        }
        proof {
            let want = start.to_set().union(frequent(map));
            assert forall|s: u32| pool@.to_set().contains(s) <==> want.contains(s) by {
                assert(pool@.contains(s) <==> start.contains(s) || listed(
                    order,
                    map,
                    n as int,
                    s,
                ));
                assert(map.contains_key(s as u64) <==> order.contains(s as u64));
                if order.contains(s as u64) {
                    let j = choose|j: int| 0 <= j < order.len() && order[j] == s as u64;
                    assert(order[j] == s as u64);
                }
            }
            assert(pool@.to_set() =~= want);
        }
    }

    /// Tracks a source seen on the video socket. Returns whether a new group
    /// was adopted.
    pub fn note_ssrc(&mut self, codec: Codec, ssrc: u32, recent_decode: bool) -> (adopted: bool)
        requires
            old(self).wf(),
        ensures
            final(self).wf(),
            (final(self)@, adopted) == old(self)@.noted(codec, ssrc, recent_decode),
    {
        if occurs(&self.tile_ssrcs, ssrc) {
            return false;
        }
        if self.tile_ssrcs.len() == 0 {
            self.tile_ssrcs.push(ssrc);
            assert(self.tile_ssrcs@ =~= seq![ssrc]);
            return false;
        }
        let count: u32 = match self.candidates.get(&(ssrc as u64)) {
            Some(c) => (*c).saturating_add(1),
            None => 1,
        };
        self.candidates.insert(ssrc as u64, count);
        if count < 3 {
            return false;
        }
        let expected: usize = match codec {
            Codec::Hevc => 4,
            Codec::H264 => 1,
        };
        let mut pool: Vec<u32> = Vec::new();
        if self.tile_ssrcs.len() < expected {
            let mut i: usize = 0;
            while i < self.tile_ssrcs.len()
                invariant
                    i <= self.tile_ssrcs@.len(),
                    pool@ == self.tile_ssrcs@.take(i as int),
                decreases self.tile_ssrcs@.len() - i,
            {
                pool.push(self.tile_ssrcs[i]);
                i = i + 1;
                assert(pool@ =~= self.tile_ssrcs@.take(i as int));
            }
            assert(pool@ =~= self.tile_ssrcs@);
        } else if recent_decode {
            return false;
        }
        let ghost first = pool@;
        self.frequent_candidates(&mut pool);
        proof {
            if first.len() == 0 {
                assert(first.to_set().union(frequent(self@.candidates)) =~= frequent(
                    self@.candidates,
                ));
            }
            assert(frequent(self@.candidates).contains(ssrc));
            assert(pool@.to_set().contains(ssrc));
        }
        let (start, n) = find_longest_run(&pool);
        if n < expected as u64 {
            return false;
        }
        let mut group: Vec<u32> = Vec::new();
        let mut i: usize = 0;
        while i < expected
            invariant
                i <= expected <= 4,
                expected <= n,
                is_run(pool@.to_set(), start, n as nat),
                group@ == run_of(start, i as nat),
            decreases expected - i,
        {
            proof {
                assert(pool@.to_set().contains((start + i as int) as u32));
            }
            group.push(start + i as u32);
            i = i + 1;
            assert(group@ =~= run_of(start, i as nat));
        }
        let mut equal: bool = group.len() == self.tile_ssrcs.len();
        let mut i: usize = 0;
        while equal && i < group.len()
            invariant
                i <= group@.len(),
                equal ==> group@.len() == self.tile_ssrcs@.len(),
                equal ==> forall|j: int| 0 <= j < i ==> group@[j] == self.tile_ssrcs@[j],
                !equal ==> group@ != self.tile_ssrcs@,
            decreases group@.len() - i,
        {
            if group[i] != self.tile_ssrcs[i] {
                equal = false;
            }
            i = i + 1;
        }
        if equal {
            assert(group@ =~= self.tile_ssrcs@);
            return false;
        }
        self.tile_ssrcs = group;
        self.candidates.clear();
        true
    }
}

proof fn lemma_least_start(pool: Set<u32>, start: u32, n: nat)
    requires
        is_run(pool, start, n),
    ensures
        exists|s: u32|
            is_run(pool, s, n) && forall|o: u32| #[trigger] is_run(pool, o, n) ==> s <= o,
    decreases start,
{
    if exists|o: u32| #[trigger] is_run(pool, o, n) && o < start {
        let o = choose|o: u32| #[trigger] is_run(pool, o, n) && o < start;
        lemma_least_start(pool, o, n);
    }
}

proof fn lemma_longest_up_to(pool: Set<u32>, x: u32, most: nat)
    requires
        is_run(pool, x, 1),
        forall|s: u32, m: nat| #[trigger] is_run(pool, s, m) && m > 0 ==> m <= most,
    ensures
        exists|r: (u32, nat)| r.1 > 0 && #[trigger] is_longest(pool, r.0, r.1),
    decreases most,
{
    if exists|s: u32| #[trigger] is_run(pool, s, most) {
        let s = choose|s: u32| #[trigger] is_run(pool, s, most);
        lemma_least_start(pool, s, most);
        let least = choose|s: u32|
            is_run(pool, s, most) && forall|o: u32| #[trigger] is_run(pool, o, most) ==> s <= o;
        let r = (least, most);
        assert(r.1 > 0 && is_longest(pool, r.0, r.1));
    } else {
        assert forall|s: u32, m: nat| #[trigger] is_run(pool, s, m) && m > 0 implies m <= most
            - 1 by {}
        lemma_longest_up_to(pool, x, (most - 1) as nat);
    }
}

proof fn lemma_longest_is_a_run(pool: Set<u32>, x: u32)
    requires
        pool.contains(x),
    ensures
        is_run(pool, longest_run(pool).0, longest_run(pool).1),
{
    assert(is_run(pool, x, 1)) by {
        assert forall|k: int|
            #![trigger pool.contains((x + k) as u32)]
            0 <= k < 1 implies x + k <= u32::MAX && pool.contains((x + k) as u32) by {
            assert((x + k) as u32 == x);
        }
    }
    assert forall|s: u32, m: nat| #[trigger] is_run(pool, s, m) && m > 0 implies m
        <= 0x1_0000_0000 by {
        if m > 0x1_0000_0000 {
            let k = 0x1_0000_0000int;
            assert(pool.contains((s + k) as u32) ==> s + k <= u32::MAX);
            assert(s + k <= u32::MAX && pool.contains((s + k) as u32));
        }
    }
    lemma_longest_up_to(pool, x, 0x1_0000_0000);
    let r = longest_run(pool);
    assert(r.1 > 0 && is_longest(pool, r.0, r.1));
}

proof fn lemma_replacement_is_consecutive(group: GroupState, codec: Codec, pool: Set<u32>, x: u32)
    requires
        pool.contains(x),
    ensures
        group.replacement(codec, pool) matches Some(tiles) ==> tiles.len() == tile_count(codec)
            && consecutive(tiles) && tiles != group.tiles,
{
    lemma_longest_is_a_run(pool, x);
    let (start, n) = longest_run(pool);
    if n >= tile_count(codec) {
        let tiles = run_of(start, tile_count(codec));
        assert forall|i: int| 0 <= i < tiles.len() implies #[trigger] tiles[i] == tiles[0] + i by {
            assert(pool.contains((start + i) as u32));
            assert(tiles[i] == (start + i) as u32);
            assert(tiles[0] == (start + 0) as u32);
        }
    }
}

/// Whether the numbers ascend by one.
pub open spec fn consecutive(tiles: Seq<u32>) -> bool {
    forall|i: int| 0 <= i < tiles.len() ==> #[trigger] tiles[i] == tiles[0] + i
}

impl GroupState {
    /// Whether there is no tile, one, or one for each tile of a picture, and the
    /// sources are consecutive.
    pub open spec fn orderly(self, codec: Codec) -> bool {
        &&& self.tiles.len() <= 1 || self.tiles.len() == tile_count(codec)
        &&& consecutive(self.tiles)
    }
}

/// A group that is adopted is complete: as many consecutive sources as the
/// codec has tiles, in ascending order.
pub proof fn lemma_adopted_group_is_complete(
    group: GroupState,
    codec: Codec,
    ssrc: u32,
    recent_decode: bool,
)
    ensures
        group.noted(codec, ssrc, recent_decode).1 ==> {
            let tiles = group.noted(codec, ssrc, recent_decode).0.tiles;
            tiles.len() == tile_count(codec) && consecutive(tiles) && tiles != group.tiles
        },
{
    let counts = group.candidates.insert(ssrc as u64, group.sightings(ssrc));
    let known = frequent(counts);
    if group.sightings(ssrc) >= 3 {
        assert(known.contains(ssrc));
        lemma_replacement_is_consecutive(group, codec, known, ssrc);
        lemma_replacement_is_consecutive(
            group,
            codec,
            group.tiles.to_set().union(known),
            ssrc,
        );
    }
}

/// Noting a source keeps the group in order. The first source becomes the only
/// tile, and a group that has tiles changes to a complete one or not at all.
pub proof fn lemma_group_stays_orderly(
    group: GroupState,
    codec: Codec,
    ssrc: u32,
    recent_decode: bool,
)
    requires
        group.orderly(codec),
    ensures
        ({
            let (next, adopted) = group.noted(codec, ssrc, recent_decode);
            &&& next.orderly(codec)
            &&& next.tiles.len() > 0
            &&& group.tiles.len() == 0 ==> next.tiles == seq![ssrc]
            &&& group.tiles.len() > 0 && next.tiles != group.tiles ==> next.tiles.len()
                == tile_count(codec)
            &&& adopted <==> group.tiles.len() > 0 && next.tiles != group.tiles
        }),
{
    lemma_adopted_group_is_complete(group, codec, ssrc, recent_decode);
}

/// While a complete group keeps producing pictures, no packet of another source
/// changes it.
pub proof fn lemma_working_group_stays(group: GroupState, codec: Codec, ssrc: u32)
    requires
        group.tiles.len() >= tile_count(codec),
    ensures
        group.noted(codec, ssrc, true).0.tiles == group.tiles,
        !group.noted(codec, ssrc, true).1,
{
}

// ---------------------------------------------------------------------------
// One source
// ---------------------------------------------------------------------------

/// The limit on an access unit that is still being received.
pub const MAX_AU_BUF: usize = 8388608;

/// The receive state of one source.
pub struct StreamState {
    pub depacketizer: DepacketizerState,
    /// The access unit being received, each unit behind a start code.
    pub au: Seq<u8>,
    /// The decoding-order number of that access unit.
    pub donl: Option<u16>,
    /// The sequence number of the last packet.
    pub last_seq: Option<u16>,
}

/// NAL units as a byte stream, each behind a four-byte start code.
pub open spec fn annex_b(units: Seq<Seq<u8>>) -> Seq<u8>
    decreases units.len(),
{
    if units.len() == 0 {
        Seq::empty()
    } else {
        annex_b(units.drop_last()) + seq![0u8, 0u8, 0u8, 1u8] + units.last()
    }
}

/// What a packet brings about: sequence numbers found missing, and the access
/// unit that it completes.
pub struct Received {
    pub lost: Seq<u16>,
    pub completed: Option<(Seq<u8>, Option<u16>)>,
}

impl StreamState {
    /// Nothing received yet.
    pub open spec fn fresh(codec: Codec) -> StreamState {
        StreamState {
            depacketizer: DepacketizerState::fresh(codec),
            au: Seq::empty(),
            donl: None,
            last_seq: None,
        }
    }

    /// The sequence numbers missing before `seq`. A jump of more than 64, or a
    /// step back, is not taken for loss.
    pub open spec fn missing(self, seq: u16) -> Seq<u16> {
        match self.last_seq {
            Some(last) => if 2 <= ahead(last, seq) <= 64 {
                Seq::new(
                    (ahead(last, seq) - 1) as nat,
                    |i: int| ((last + 1 + i) % 0x1_0000) as u16,
                )
            } else {
                Seq::empty()
            },
            None => Seq::empty(),
        }
    }

    /// The state with a partial access unit dropped if `seq` does not follow
    /// directly.
    pub open spec fn without_broken_unit(self, seq: u16) -> StreamState {
        match self.last_seq {
            Some(last) => if ahead(last, seq) != 1 && self.au.len() > 0 {
                StreamState {
                    depacketizer: self.depacketizer.reset(),
                    au: Seq::empty(),
                    donl: None,
                    ..self
                }
            } else {
                self
            },
            None => self,
        }
    }

    /// The state with the units of `payload` added.
    pub open spec fn extended(self, seq: u16, payload: Seq<u8>) -> StreamState {
        let (depacketizer, units) = self.depacketizer.fed(payload);
        let au = self.au + annex_b(units);
        let donl = match depacketizer.donl() {
            Some(d) => Some(d),
            None => self.donl,
        };
        if au.len() > MAX_AU_BUF {
            StreamState { depacketizer, au: Seq::empty(), donl: None, last_seq: Some(seq) }
        } else {
            StreamState { depacketizer, au, donl, last_seq: Some(seq) }
        }
    }

    /// The state and the outcome after a packet. The packet with the marker
    /// ends the access unit.
    pub open spec fn received(self, seq: u16, marker: bool, payload: Seq<u8>) -> (
        StreamState,
        Received,
    ) {
        let lost = self.missing(seq);
        let s = self.without_broken_unit(seq).extended(seq, payload);
        if marker && s.au.len() > 0 {
            (
                StreamState { au: Seq::empty(), donl: None, ..s },
                Received { lost, completed: Some((s.au, s.donl)) },
            )
        } else {
            (s, Received { lost, completed: None })
        }
    }

    /// The state with the access unit being received dropped.
    pub open spec fn flushed(self) -> StreamState {
        StreamState { au: Seq::empty(), donl: None, ..self }
    }
}

/// The receive state of one source. Fragments of different tiles must not mix,
/// so each source has its own.
pub struct TileStream {
    depacketizer: Depacketizer,
    au_buf: Vec<u8>,
    au_donl: Option<u16>,
    last_seq: Option<u16>,
}

impl View for TileStream {
    type V = StreamState;

    closed spec fn view(&self) -> StreamState {
        StreamState {
            depacketizer: self.depacketizer@,
            au: self.au_buf@,
            donl: self.au_donl,
            last_seq: self.last_seq,
        }
    }
}

impl TileStream {
    /// A source nothing was received from.
    pub fn new(codec: Codec) -> (r: TileStream)
        ensures
            r@ == StreamState::fresh(codec),
    {
        TileStream {
            depacketizer: Depacketizer::for_codec(codec),
            au_buf: Vec::new(),
            au_donl: None,
            last_seq: None,
        }
    }

    fn check_sequence(&mut self, seq: u16) -> (lost: Vec<u16>)
        ensures
            lost@ == old(self)@.missing(seq),
            final(self)@ == old(self)@.without_broken_unit(seq),
    {
        let mut lost: Vec<u16> = Vec::new();
        if let Some(last) = self.last_seq {
            let step: u16 = seq.wrapping_sub(last);
            assert(step == ahead(last, seq));
            if step != 1 {
                if 2 <= step && step <= 64 {
                    let mut k: u16 = 1;
                    while k < step
                        invariant
                            1 <= k <= step <= 64,
                            lost@.len() == k - 1,
                            forall|j: int|
                                0 <= j < k - 1 ==> lost@[j] == ((last + 1 + j) % 0x1_0000) as u16,
                        decreases step - k,
                    {
                        lost.push(last.wrapping_add(k));
                        k = k + 1;
                    }
                }
                if self.au_buf.len() > 0 {
                    self.au_buf = Vec::new();
                    self.au_donl = None;
                    self.depacketizer.reset_stream();
                }
            }
        }
        assert(lost@ =~= old(self)@.missing(seq));
        lost
    }

    /// Takes one RTP payload. Returns the sequence numbers found missing before
    /// it, and the access unit it completes with its decoding-order number.
    pub fn receive(&mut self, seq: u16, marker: bool, payload: &[u8]) -> (r: (
        Vec<u16>,
        Option<(Vec<u8>, Option<u16>)>,
    ))
        ensures
            final(self)@ == old(self)@.received(seq, marker, payload@).0,
            r.0@ == old(self)@.received(seq, marker, payload@).1.lost,
            match old(self)@.received(seq, marker, payload@).1.completed {
                Some((au, donl)) => r.1 matches Some((v, d)) && v@ == au && d == donl,
                None => r.1 is None,
            },
    {
        let lost = self.check_sequence(seq);
        let ghost start = self@;
        self.last_seq = Some(seq);
        let units = self.depacketizer.feed(payload);
        let ghost list = contents(units@);
        let ghost before = self.au_buf@;
        let mut i: usize = 0;
        assert(list.take(0) =~= Seq::<Seq<u8>>::empty());
        assert(self.au_buf@ =~= before + annex_b(list.take(0)));
        while i < units.len()
            invariant
                i <= units@.len(),
                list == contents(units@),
                self.au_buf@ == before + annex_b(list.take(i as int)),
                self.depacketizer@ == start.depacketizer.fed(payload@).0,
                self.au_donl == start.donl,
                self.last_seq == Some(seq),
            decreases units@.len() - i,
        {
            let code: [u8; 4] = [0, 0, 0, 1];
            push_all(&mut self.au_buf, &code);
            push_all(&mut self.au_buf, &units[i]);
            proof {
                assert(code@ =~= seq![0u8, 0u8, 0u8, 1u8]);
                assert(list.take(i + 1).drop_last() =~= list.take(i as int));
                assert(list.take(i + 1).last() == units@[i as int]@);
                assert(self.au_buf@ =~= before + annex_b(list.take(i + 1)));
            }
            i = i + 1;
        }
        assert(list.take(i as int) =~= list);
        if let Some(donl) = self.depacketizer.last_donl() {
            self.au_donl = Some(donl);
        }
        // Guards against an unbounded buffer if marker packets are lost.
        if self.au_buf.len() > MAX_AU_BUF {
            self.au_buf = Vec::new();
            self.au_donl = None;
        }
        assert(self@ == start.extended(seq, payload@));
        if marker && self.au_buf.len() > 0 {
            let donl = self.au_donl;
            let mut au: Vec<u8> = Vec::new();
            std::mem::swap(&mut au, &mut self.au_buf);
            self.au_donl = None;
            (lost, Some((au, donl)))
        } else {
            (lost, None)
        }
    }

    /// Drops the access unit being received.
    pub fn flush(&mut self)
        ensures
            final(self)@ == old(self)@.flushed(),
    {
        self.au_buf = Vec::new();
        self.au_donl = None;
    }
}

/// Packets that arrive in order report no loss and keep the access unit
/// together: every unit of the second payload follows those of the first.
pub proof fn lemma_in_order_packets_accumulate(
    s: StreamState,
    seq: u16,
    first: Seq<u8>,
    second: Seq<u8>,
)
    requires
        s.au.len() == 0,
        annex_b(s.depacketizer.fed(first).1).len() + annex_b(
            s.depacketizer.fed(first).0.fed(second).1,
        ).len() <= MAX_AU_BUF,
    ensures
        ({
            let (s1, r1) = s.received(seq, false, first);
            let next = ((seq + 1) % 0x1_0000) as u16;
            let (s2, r2) = s1.received(next, false, second);
            &&& r2.lost == Seq::<u16>::empty()
            &&& s2.au == annex_b(s.depacketizer.fed(first).1) + annex_b(
                s.depacketizer.fed(first).0.fed(second).1,
            )
        }),
{
    let (s1, r1) = s.received(seq, false, first);
    let next = ((seq + 1) % 0x1_0000) as u16;
    assert(ahead(seq, next) == 1);
    assert(s.au + annex_b(s.depacketizer.fed(first).1) =~= annex_b(s.depacketizer.fed(first).1));
}

} // verus!
