//! The readers of the trajectory formats, and the scanner that cuts a file's
//! lines into frames and picks the frames a caller asked for.
use vstd::prelude::*;

pub mod read_cp2k_xyz;
pub mod read_lammps_dump;
pub mod read_xyz;

verus! {

/// Whether block `k` is one of those asked for: `start <= k < end`, every
/// `interval`-th block from `start` on.
pub open spec fn is_selected(k: int, start: int, end: int, interval: int) -> bool {
    start <= k < end && (k - start) % interval == 0
}

/// The blocks that `steps` form so far, each step a line marked whether it
/// heads a new block: the completed blocks, and the block still open. A
/// heading line closes the open block if that one holds any line.
pub open spec fn split_blocks<T>(steps: Seq<(bool, T)>) -> (Seq<Seq<T>>, Seq<T>)
    decreases steps.len(),
{
    if steps.len() == 0 {
        (seq![], seq![])
    } else {
        let (done, open) = split_blocks(steps.drop_last());
        let (head, item) = steps.last();
        if head && open.len() > 0 {
            (done.push(open), seq![item])
        } else {
            (done, open.push(item))
        }
    }
}

/// All the blocks of `steps` once the input has ended.
pub open spec fn all_blocks<T>(steps: Seq<(bool, T)>) -> Seq<Seq<T>> {
    let (done, open) = split_blocks(steps);
    if open.len() > 0 {
        done.push(open)
    } else {
        done
    }
}

/// The blocks of `blocks` that are asked for, each with its index, in order.
pub open spec fn selected_blocks<T>(blocks: Seq<Seq<T>>, start: int, end: int, interval: int) -> Seq<
    (int, Seq<T>),
>
    decreases blocks.len(),
{
    if blocks.len() == 0 {
        seq![]
    } else {
        let k = blocks.len() - 1;
        let before = selected_blocks(blocks.drop_last(), start, end, interval);
        if is_selected(k, start, end, interval) {
            before.push((k, blocks.last()))
        } else {
            before
        }
    }
}

/// The blocks completed by a prefix of the input stay the first blocks of
/// the whole input.
pub proof fn lemma_prefix_blocks<T>(steps: Seq<(bool, T)>, k: int)
    requires
        0 <= k <= steps.len(),
    ensures
        split_blocks(steps.take(k)).0.len() <= all_blocks(steps).len(),
        all_blocks(steps).take(split_blocks(steps.take(k)).0.len() as int) == split_blocks(
            steps.take(k),
        ).0,
    decreases steps.len() - k,
{
    let d = split_blocks(steps.take(k)).0;
    if k == steps.len() {
        assert(steps.take(k) =~= steps);
        let (done, open) = split_blocks(steps);
        if open.len() > 0 {
            assert(done.push(open).take(done.len() as int) =~= done);
        } else {
            assert(done.take(done.len() as int) =~= done);
        }
    } else {
        lemma_prefix_blocks(steps, k + 1);
        let d1 = split_blocks(steps.take(k + 1)).0;
        assert(steps.take(k + 1).drop_last() =~= steps.take(k));
        assert(d1 == d || d1 == d.push(split_blocks(steps.take(k)).1));
        assert(all_blocks(steps).take(d.len() as int) =~= d1.take(d.len() as int));
        assert(d1.take(d.len() as int) =~= d);
    }
}

/// Blocks at index `end` or later are never asked for.
pub proof fn lemma_selected_past_end<T>(blocks: Seq<Seq<T>>, m: int, start: int, end: int, interval: int)
    requires
        0 <= m <= blocks.len(),
        end <= m,
    ensures
        selected_blocks(blocks, start, end, interval) == selected_blocks(blocks.take(m), start, end, interval),
    decreases blocks.len() - m,
{
    if m == blocks.len() {
        assert(blocks.take(m) =~= blocks);
    } else {
        assert(blocks.drop_last().take(m) =~= blocks.take(m));
        lemma_selected_past_end(blocks.drop_last(), m, start, end, interval);
    }
}

/// Stopping early loses no block: once a prefix of the input has completed
/// `end` blocks, the blocks asked for of the whole input are those that the
/// prefix completed.
pub proof fn lemma_early_stop<T>(steps: Seq<(bool, T)>, k: int, start: int, end: int, interval: int)
    requires
        0 <= k <= steps.len(),
        split_blocks(steps.take(k)).0.len() >= end,
    ensures
        selected_blocks(all_blocks(steps), start, end, interval) == selected_blocks(
            split_blocks(steps.take(k)).0,
            start,
            end,
            interval,
        ),
{
    let d = split_blocks(steps.take(k)).0;
    lemma_prefix_blocks(steps, k);
    lemma_selected_past_end(all_blocks(steps), d.len() as int, start, end, interval);
    lemma_selected_past_end(d, d.len() as int, start, end, interval);
    assert(d.take(d.len() as int) =~= d);
}

/// The blocks of a sequence of lines in the order they come, with the frames
/// from `start` (inclusive) to `end` (exclusive), every `interval`-th, handed
/// out as soon as they are complete. A driver feeds one line at a time with
/// `push`, stops reading once `is_stopped` says so, and then calls `finish`.
pub struct BlockScanner<T> {
    current: Vec<T>,
    block_idx: usize,
    start: usize,
    end: usize,
    interval: usize,
    stopped: bool,
    consumed: Ghost<Seq<(bool, T)>>,
    emitted: Ghost<Seq<(int, Seq<T>)>>,
}

impl<T> BlockScanner<T> {
    /// The lines fed so far, each marked whether it heads a block.
    pub closed spec fn consumed(&self) -> Seq<(bool, T)> {
        self.consumed@
    }

    /// The blocks handed out so far, each with its index.
    pub closed spec fn emitted(&self) -> Seq<(int, Seq<T>)> {
        self.emitted@
    }

    pub closed spec fn start(&self) -> int {
        self.start as int
    }

    pub closed spec fn end(&self) -> int {
        self.end as int
    }

    pub closed spec fn interval(&self) -> int {
        self.interval as int
    }

    /// Whether the scanner has seen the end of the last block asked for.
    pub closed spec fn stopped(&self) -> bool {
        self.stopped
    }

    /// The index the next completed block gets.
    pub closed spec fn next_index(&self) -> int {
        self.block_idx as int
    }

    /// Whether pushing a line marked `head` completes a block whose index
    /// lies in `[start, end)`, where the step of `interval` is taken.
    pub open spec fn completes_in_window(&self, head: bool) -> bool {
        head && split_blocks(self.consumed()).1.len() > 0 && self.start() <= self.next_index()
            < self.end()
    }

    pub closed spec fn wf(&self) -> bool {
        let (done, open) = split_blocks(self.consumed@);
        &&& self.block_idx == done.len()
        &&& self.emitted@ == selected_blocks(done, self.start as int, self.end as int, self.interval as int)
        &&& self.stopped ==> done.len() >= self.end
        &&& !self.stopped ==> {
            &&& self.current@ == open
            &&& (done.len() < self.end || (done.len() == 0 && self.end == 0))
        }
    }

    /// A scanner that has seen no line, for blocks `start..end` every
    /// `interval`-th.
    pub fn new(start: usize, end: usize, interval: usize) -> (s: Self)
        ensures
            s.wf(),
            s.consumed() == Seq::<(bool, T)>::empty(),
            s.emitted() == Seq::<(int, Seq<T>)>::empty(),
            s.start() == start,
            s.end() == end,
            s.interval() == interval,
            !s.stopped(),
    {
        BlockScanner {
            current: Vec::new(),
            block_idx: 0,
            start,
            end,
            interval,
            stopped: false,
            consumed: Ghost(Seq::empty()),
            emitted: Ghost(Seq::empty()),
        }
    }

    /// Whether the last block asked for is complete, so that no line more
    /// can change what the scanner hands out.
    pub fn is_stopped(&self) -> (r: bool)
        ensures
            r == self.stopped(),
    {
        self.stopped
    }

    /// Whether pushing a line marked `head` completes a block whose index
    /// lies in `[start, end)`: then the step of `interval` is taken.
    pub fn completes_in_window_exec(&self, head: bool) -> (r: bool)
        requires
            self.wf(),
            !self.stopped(),
        ensures
            r == self.completes_in_window(head),
    {
        head && self.current.len() > 0 && self.start <= self.block_idx && self.block_idx < self.end
    }

    /// Feeds one line, marked whether it heads a new block. Hands out the
    /// block that the line completes, with its index, where that block is one
    /// asked for.
    pub fn push(&mut self, head: bool, item: T) -> (out: Option<(usize, Vec<T>)>)
        requires
            old(self).wf(),
            !old(self).stopped(),
            old(self).interval() > 0 || !old(self).completes_in_window(head),
        ensures
            final(self).wf(),
            final(self).consumed() == old(self).consumed().push((head, item)),
            final(self).start() == old(self).start(),
            final(self).end() == old(self).end(),
            final(self).interval() == old(self).interval(),
            final(self).emitted() == old(self).emitted() + match out {
                Some(b) => seq![(b.0 as int, b.1@)],
                None => Seq::<(int, Seq<T>)>::empty(),
            },
    {
        let ghost old_consumed = self.consumed@;
        let ghost (done, open) = split_blocks(old_consumed);
        let ghost new_consumed = old_consumed.push((head, item));
        proof {
            assert(new_consumed.drop_last() =~= old_consumed);
            assert(new_consumed.last() == (head, item));
            self.consumed = Ghost(new_consumed);
            if head && open.len() > 0 {
                assert(split_blocks(new_consumed) == (done.push(open), seq![item]));
                assert(done.push(open).drop_last() =~= done);
            } else {
                assert(split_blocks(new_consumed) == (done, open.push(item)));
            }
        }
        if head && self.current.len() > 0 {
            let idx = self.block_idx;
            let chosen = self.start <= idx && idx < self.end && (idx - self.start) % self.interval
                == 0;
            let mut block: Vec<T> = Vec::new();
            std::mem::swap(&mut block, &mut self.current);
            self.block_idx = idx + 1;
            let out = if chosen {
                proof {
                    self.emitted = Ghost(self.emitted@.push((idx as int, block@)));
                }
                Some((idx, block))
            } else {
                None
            };
            if self.block_idx >= self.end {
                self.stopped = true;
            } else {
                self.current.push(item);
                assert(self.current@ =~= seq![item]);
            }
            assert(self.emitted@ =~= old(self).emitted() + match out {
                Some(b) => seq![(b.0 as int, b.1@)],
                None => Seq::<(int, Seq<T>)>::empty(),
            });
            out
        } else {
            self.current.push(item);
            assert(self.emitted@ =~= old(self).emitted() + Seq::<(int, Seq<T>)>::empty());
            None
        }
    }

    /// Ends the input: hands out the last block where it is one asked for
    /// and the scanner had not stopped.
    pub fn finish(self) -> (out: Option<(usize, Vec<T>)>)
        requires
            self.wf(),
            self.interval() > 0 || self.stopped() || split_blocks(self.consumed()).1.len() == 0
                || !(self.start() <= self.next_index() < self.end()),
        ensures
            self.emitted() + match out {
                Some(b) => seq![(b.0 as int, b.1@)],
                None => Seq::<(int, Seq<T>)>::empty(),
            } == selected_blocks(all_blocks(self.consumed()), self.start(), self.end(), self.interval()),
    {
        let ghost (done, open) = split_blocks(self.consumed@);
        if !self.stopped && self.current.len() > 0 && self.start <= self.block_idx && self.block_idx
            < self.end && (self.block_idx - self.start) % self.interval == 0 {
            let out = Some((self.block_idx, self.current));
            assert(done.push(open).drop_last() =~= done);
            assert(self.emitted@ + seq![(self.block_idx as int, open)] =~= selected_blocks(all_blocks(self.consumed@), self.start as int, self.end as int, self.interval as int));
            out
        } else {
            proof {
                if open.len() > 0 {
                    assert(done.push(open).drop_last() =~= done);
                }
            }
            assert(self.emitted@ + Seq::<(int, Seq<T>)>::empty() =~= self.emitted@);
            None
        }
    }
}

} // verus!
