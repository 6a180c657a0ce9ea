//! What has come from the server and is not read yet.

use vstd::prelude::*;

use crate::desktop::apple_rects::record_end;
use crate::wire::{push_all, slice, to_vec};

verus! {

/// The positions at which records end, once `used` bytes are taken off the
/// front of the input.
pub open spec fn ends_after(ends: Seq<usize>, used: int) -> Seq<usize>
    decreases ends.len(),
{
    if ends.len() == 0 {
        Seq::empty()
    } else {
        let rest = ends_after(ends.skip(1), used);
        if ends[0] > used {
            seq![(ends[0] - used) as usize] + rest
        } else {
            rest
        }
    }
}

/// The input of a session.
pub struct Inbox {
    input: Vec<u8>,
    ends: Vec<usize>,
}

impl Inbox {
    /// The bytes that are not read yet.
    pub closed spec fn bytes(self) -> Seq<u8> {
        self.input@
    }

    /// The positions among them at which records of the record layer end.
    pub closed spec fn record_ends(self) -> Seq<usize> {
        self.ends@
    }

    pub fn new() -> (r: Inbox)
        ensures
            r.bytes() == Seq::<u8>::empty(),
            r.record_ends() == Seq::<usize>::empty(),
    {
        Inbox { input: Vec::new(), ends: Vec::new() }
    }

    pub fn input(&self) -> (r: &[u8])
        ensures
            r@ == self.bytes(),
    {
        self.input.as_slice()
    }

    pub fn ends(&self) -> (r: &[usize])
        ensures
            r@ == self.record_ends(),
    {
        self.ends.as_slice()
    }

    /// Adds bytes of a stream.
    pub fn receive(&mut self, data: &[u8])
        ensures
            final(self).bytes() == old(self).bytes() + data@,
            final(self).record_ends() == old(self).record_ends(),
    {
        push_all(&mut self.input, data);
    }

    /// Adds a whole record.
    pub fn receive_record(&mut self, body: &[u8])
        requires
            old(self).bytes().len() + body@.len() <= usize::MAX,
        ensures
            final(self).bytes() == old(self).bytes() + body@,
            final(self).record_ends() == old(self).record_ends().push(
                (old(self).bytes().len() + body@.len()) as usize,
            ),
    {
        push_all(&mut self.input, body);
        let end: usize = self.input.len();
        self.ends.push(end);
    }

    /// Takes bytes off the front.
    pub fn consume(&mut self, used: usize)
        requires
            used <= old(self).bytes().len(),
        ensures
            final(self).bytes() == old(self).bytes().skip(used as int),
            final(self).record_ends() == ends_after(old(self).record_ends(), used as int),
    {
        let input = to_vec(slice(self.input.as_slice(), used, self.input.len()));
        assert(input@ =~= self.input@.skip(used as int));
        let n: usize = self.ends.len();
        let mut ends: Vec<usize> = Vec::new();
        let mut i: usize = 0;
        assert(self.ends@.skip(0) =~= self.ends@);
        assert(ends@ + ends_after(self.ends@, used as int) =~= ends_after(self.ends@, used as int));
        while i < n
            invariant
                n == self.ends@.len(),
                i <= n,
                self.ends@ == old(self).record_ends(),
                ends@ + ends_after(self.ends@.skip(i as int), used as int) == ends_after(
                    self.ends@,
                    used as int,
                ),
            decreases n - i,
        {
            let ghost rest = self.ends@.skip(i as int);
            assert(rest.skip(1) =~= self.ends@.skip(i + 1));
            let ghost before = ends@;
            if self.ends[i] > used {
                ends.push(self.ends[i] - used);
            }
            i = i + 1;
            assert(ends@ + ends_after(rest.skip(1), used as int) =~= before + ends_after(
                rest,
                used as int,
            ));
        }
        assert(ends@ =~= ends_after(self.ends@, used as int));
        self.input = input;
        self.ends = ends;
    }
}

proof fn lemma_behind_the_first(e: usize, rest: Seq<usize>, at: int, from: int)
    requires
        0 <= from,
    ensures
        record_end(seq![e] + rest, at, from + 1) == record_end(rest, at, from),
    decreases rest.len() - from,
{
    if from < rest.len() {
        lemma_behind_the_first(e, rest, at, from + 1);
    }
}

proof fn lemma_ends_from(ends: Seq<usize>, used: int, at: int, from: int)
    requires
        0 <= from <= ends.len(),
        0 <= used,
        0 < at,
    ensures
        match record_end(ends, used + at, from) {
            Some(end) => record_end(ends_after(ends.skip(from), used), at, 0) == Some(
                (end - used) as usize,
            ),
            None => record_end(ends_after(ends.skip(from), used), at, 0) is None,
        },
    decreases ends.len() - from,
{
    if from < ends.len() {
        lemma_ends_from(ends, used, at, from + 1);
        assert(ends.skip(from).skip(1) =~= ends.skip(from + 1));
        let rest = ends_after(ends.skip(from + 1), used);
        let e = ends[from];
        if e > used {
            lemma_behind_the_first((e - used) as usize, rest, at, 0);
        }
    }
}

/// Taking bytes off the front moves no end of a record: the one that is found
/// for a place is the one that was found for the same place before.
pub proof fn lemma_ends_stay_in_place(ends: Seq<usize>, used: int, at: int)
    requires
        0 <= used,
        0 < at,
    ensures
        match record_end(ends, used + at, 0) {
            Some(end) => record_end(ends_after(ends, used), at, 0) == Some((end - used) as usize),
            None => record_end(ends_after(ends, used), at, 0) is None,
        },
{
    assert(ends.skip(0) =~= ends);
    lemma_ends_from(ends, used, at, 0);
}

} // verus!
