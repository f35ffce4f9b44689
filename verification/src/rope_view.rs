//! The rope cursor as plain values: what it shows, where its iterator
//! stands, and what a step in either direction does to both.
use crate::chunks::all_nonempty;
use crate::chunks::first_nonempty_from;
use crate::chunks::last_nonempty_before;
use crate::chunks::lemma_first_nonempty_from;
use crate::chunks::lemma_last_nonempty_before;
use crate::chunks::lemma_nonempty_chunks_before;
use crate::chunks::lemma_nonempty_chunks_from;
use crate::chunks::nonempty_chunks;
use vstd::prelude::*;

verus! {

/// Which side of the current chunk the underlying iterator stands on.
///
/// One iterator position lies between two chunks, so it can be read as "the
/// chunk behind was just handed out" or as "the chunk in front comes next".
/// The marker records which reading holds, so that a change of direction
/// neither skips a chunk nor shows one twice.
#[derive(Clone, Copy)]
pub enum Pos {
    /// The iterator stands just before the current chunk.
    ChunkStart,
    /// The iterator stands just after the current chunk.
    ChunkEnd,
}

/// What a rope cursor is, as plain values.
pub ghost struct RopeView {
    /// The bytes of each chunk of the source, in forward order.
    pub chunks: Seq<Seq<u8>>,
    /// How many chunks lie behind the underlying iterator.
    pub offset: int,
    /// The bytes of the chunk that the cursor shows.
    pub current: Seq<u8>,
    /// The side of the current chunk on which the iterator stands.
    pub pos: Pos,
}

impl RopeView {
    /// The index, among the chunks of the source, of the chunk that the
    /// cursor shows. It is the length of the source for a cursor that was
    /// made at the end of its source and shows an empty chunk there.
    pub open spec fn index(self) -> int {
        if self.pos is ChunkEnd {
            self.offset - 1
        } else {
            self.offset
        }
    }

    /// The marker tells the truth: the iterator stands within the source,
    /// next to the current chunk on the side that the marker names, and the
    /// cursor shows the chunk of the source at its index. Past the last
    /// chunk there is none, and the cursor shows an empty chunk.
    pub open spec fn wf(self) -> bool {
        &&& 0 <= self.index() <= self.chunks.len()
        &&& self.pos is ChunkEnd ==> self.index() < self.chunks.len()
        &&& self.index() < self.chunks.len() ==> self.current == self.chunks[self.index()]
        &&& self.index() == self.chunks.len() ==> self.current.len() == 0
    }

    /// A cursor newly made from an iterator that stands at `offset`: it shows
    /// the chunk in front of the iterator, having pulled it. Where the
    /// iterator had none left, nothing is pulled and the cursor shows an
    /// empty chunk in front of the iterator.
    pub open spec fn fresh(chunks: Seq<Seq<u8>>, offset: int) -> RopeView {
        if 0 <= offset < chunks.len() {
            RopeView { chunks, offset: offset + 1, current: chunks[offset], pos: Pos::ChunkEnd }
        } else {
            RopeView { chunks, offset, current: Seq::empty(), pos: Pos::ChunkStart }
        }
    }

    /// Where the search for the next chunk begins: just behind the current
    /// chunk, or at the end of the source where the cursor stands there.
    pub open spec fn forward_origin(self) -> int {
        if self.index() < self.chunks.len() {
            self.index() + 1
        } else {
            self.chunks.len() as int
        }
    }

    /// Where the search for the previous chunk begins: just before the
    /// current chunk.
    pub open spec fn backward_origin(self) -> int {
        self.index()
    }

    /// Whether a non-empty chunk lies after the current chunk.
    pub open spec fn can_advance(self) -> bool {
        first_nonempty_from(self.chunks, self.forward_origin()) < self.chunks.len()
    }

    /// The cursor after one step forward: on the next non-empty chunk, with
    /// the iterator just behind it; or, where there is none, as it was.
    pub open spec fn advanced(self) -> RopeView {
        let found = first_nonempty_from(self.chunks, self.forward_origin());
        if found < self.chunks.len() {
            RopeView {
                chunks: self.chunks,
                offset: found + 1,
                current: self.chunks[found],
                pos: Pos::ChunkEnd,
            }
        } else {
            self
        }
    }

    /// Whether a non-empty chunk lies before the current chunk.
    pub open spec fn can_backtrack(self) -> bool {
        last_nonempty_before(self.chunks, self.backward_origin()) >= 0
    }

    /// The cursor after one step backward: on the previous non-empty chunk,
    /// with the iterator just before it; or, where there is none, as it was.
    pub open spec fn backtracked(self) -> RopeView {
        let found = last_nonempty_before(self.chunks, self.backward_origin());
        if found >= 0 {
            RopeView {
                chunks: self.chunks,
                offset: found,
                current: self.chunks[found],
                pos: Pos::ChunkStart,
            }
        } else {
            self
        }
    }

    /// The chunks that the cursor shows, one after the other, as it is moved
    /// forward until a step fails.
    pub open spec fn shown_by_advancing(self) -> Seq<Seq<u8>>
        decreases self.chunks.len() - self.forward_origin(),
    {
        if self.wf() && self.can_advance() {
            proof {
                lemma_first_nonempty_from(self.chunks, self.forward_origin());
            }
            seq![self.advanced().current] + self.advanced().shown_by_advancing()
        } else {
            Seq::empty()
        }
    }

    /// The chunks that the cursor shows, one after the other, as it is moved
    /// backward until a step fails.
    pub open spec fn shown_by_backtracking(self) -> Seq<Seq<u8>>
        decreases self.backward_origin(),
    {
        if self.wf() && self.can_backtrack() {
            proof {
                lemma_last_nonempty_before(self.chunks, self.backward_origin());
            }
            seq![self.backtracked().current] + self.backtracked().shown_by_backtracking()
        } else {
            Seq::empty()
        }
    }

    /// A newly made cursor is well formed and stands at the index at which
    /// the iterator stood.
    pub proof fn lemma_fresh_is_wf(chunks: Seq<Seq<u8>>, offset: int)
        requires
            0 <= offset <= chunks.len(),
        ensures
            Self::fresh(chunks, offset).wf(),
            Self::fresh(chunks, offset).index() == offset,
            Self::fresh(chunks, offset).chunks == chunks,
    {
    }

    /// A cursor made from an iterator that stands at the start of its source
    /// cannot step back, whatever the source holds.
    pub proof fn lemma_fresh_at_start_cannot_backtrack(chunks: Seq<Seq<u8>>)
        ensures
            !Self::fresh(chunks, 0).can_backtrack(),
            Self::fresh(chunks, 0).backtracked() == Self::fresh(chunks, 0),
    {
    }

    /// A cursor made over a source without chunks shows an empty chunk and
    /// can move in neither direction.
    pub proof fn lemma_fresh_on_empty_source(chunks: Seq<Seq<u8>>)
        requires
            chunks.len() == 0,
        ensures
            Self::fresh(chunks, 0).current.len() == 0,
            !Self::fresh(chunks, 0).can_advance(),
            !Self::fresh(chunks, 0).can_backtrack(),
    {
    }

    /// A step forward succeeds exactly when some chunk after the current
    /// one is not empty, and then lands on the first such chunk.
    pub proof fn lemma_advance_finds_the_next_nonempty_chunk(self)
        requires
            self.wf(),
        ensures
            self.can_advance() <==> exists|j: int|
                self.index() < j < self.chunks.len() && (#[trigger] self.chunks[j]).len() > 0,
            self.can_advance() ==> {
                &&& self.index() < self.advanced().index() < self.chunks.len()
                &&& self.advanced().current == self.chunks[self.advanced().index()]
                &&& self.advanced().current.len() > 0
                &&& forall|j: int|
                    self.index() < j < self.advanced().index() ==> (#[trigger] self.chunks[j]).len()
                        == 0
            },
    {
        lemma_first_nonempty_from(self.chunks, self.forward_origin());
        let found = first_nonempty_from(self.chunks, self.forward_origin());
        if found < self.chunks.len() {
            assert(self.chunks[found].len() > 0);
        }
    }

    /// A step backward succeeds exactly when some chunk before the current
    /// one is not empty, and then lands on the last such chunk.
    pub proof fn lemma_backtrack_finds_the_previous_nonempty_chunk(self)
        requires
            self.wf(),
        ensures
            self.can_backtrack() <==> exists|j: int|
                0 <= j < self.index() && (#[trigger] self.chunks[j]).len() > 0,
            self.can_backtrack() ==> {
                &&& 0 <= self.backtracked().index() < self.index()
                &&& self.backtracked().current == self.chunks[self.backtracked().index()]
                &&& self.backtracked().current.len() > 0
                &&& forall|j: int|
                    self.backtracked().index() < j < self.index() ==> (
                    #[trigger] self.chunks[j]).len() == 0
            },
    {
        lemma_last_nonempty_before(self.chunks, self.backward_origin());
        let found = last_nonempty_before(self.chunks, self.backward_origin());
        if found >= 0 {
            assert(self.chunks[found].len() > 0);
        }
    }

    /// Every step, failed or not, leaves the cursor well formed over the
    /// same source.
    pub proof fn lemma_step_keeps_wf(self)
        requires
            self.wf(),
        ensures
            self.advanced().wf(),
            self.advanced().chunks == self.chunks,
            self.backtracked().wf(),
            self.backtracked().chunks == self.chunks,
    {
        lemma_first_nonempty_from(self.chunks, self.forward_origin());
        lemma_last_nonempty_before(self.chunks, self.backward_origin());
    }

    /// A step forward that fails changes nothing, so the next step forward
    /// fails too, and a step backward goes on from the same chunk.
    pub proof fn lemma_failed_advance_changes_nothing(self)
        requires
            !self.can_advance(),
        ensures
            self.advanced() == self,
            !self.advanced().can_advance(),
            self.advanced().can_backtrack() == self.can_backtrack(),
    {
    }

    /// A step backward that fails changes nothing, so the next step backward
    /// fails too, and a step forward goes on from the same chunk.
    pub proof fn lemma_failed_backtrack_changes_nothing(self)
        requires
            !self.can_backtrack(),
        ensures
            self.backtracked() == self,
            !self.backtracked().can_backtrack(),
            self.backtracked().can_advance() == self.can_advance(),
    {
    }

    /// On the last non-empty chunk of the source no step forward succeeds,
    /// whatever steps were taken before.
    pub proof fn lemma_cannot_advance_from_the_last_nonempty_chunk(self)
        requires
            self.wf(),
            forall|j: int| self.index() < j < self.chunks.len() ==> (#[trigger] self.chunks[j]).len()
                == 0,
        ensures
            !self.can_advance(),
            self.advanced() == self,
    {
        self.lemma_advance_finds_the_next_nonempty_chunk();
    }

    /// On the first non-empty chunk of the source no step backward
    /// succeeds, whatever steps were taken before.
    pub proof fn lemma_cannot_backtrack_from_the_first_nonempty_chunk(self)
        requires
            self.wf(),
            forall|j: int| 0 <= j < self.index() ==> (#[trigger] self.chunks[j]).len() == 0,
        ensures
            !self.can_backtrack(),
            self.backtracked() == self,
    {
        self.lemma_backtrack_finds_the_previous_nonempty_chunk();
    }

    /// Moved forward until a step fails, the cursor shows exactly the
    /// non-empty chunks that lie after the current one, each once and in
    /// their order.
    pub proof fn lemma_advancing_shows_the_nonempty_chunks(self)
        requires
            self.wf(),
        ensures
            self.shown_by_advancing() == nonempty_chunks(self.chunks.skip(self.forward_origin())),
        decreases self.chunks.len() - self.forward_origin(),
    {
        lemma_first_nonempty_from(self.chunks, self.forward_origin());
        lemma_nonempty_chunks_from(self.chunks, self.forward_origin());
        if self.can_advance() {
            self.lemma_step_keeps_wf();
            self.advanced().lemma_advancing_shows_the_nonempty_chunks();
        }
    }

    /// Moved backward until a step fails, the cursor shows exactly the
    /// non-empty chunks that lie before the current one, each once and from
    /// the nearest one backwards.
    pub proof fn lemma_backtracking_shows_the_nonempty_chunks(self)
        requires
            self.wf(),
        ensures
            self.shown_by_backtracking() == nonempty_chunks(
                self.chunks.take(self.backward_origin()).reverse(),
            ),
        decreases self.backward_origin(),
    {
        lemma_last_nonempty_before(self.chunks, self.backward_origin());
        lemma_nonempty_chunks_before(self.chunks, self.backward_origin());
        if self.can_backtrack() {
            self.lemma_step_keeps_wf();
            self.backtracked().lemma_backtracking_shows_the_nonempty_chunks();
        }
    }

    /// In a source without empty chunks the cursor walks chunk by chunk: a
    /// step forward goes to the chunk at the next index and fails only where
    /// there is none, a step backward goes to the chunk at the previous
    /// index and fails only on the first.
    pub proof fn lemma_step_in_dense_source(self)
        requires
            self.wf(),
            all_nonempty(self.chunks),
        ensures
            self.can_advance() <==> self.index() + 1 < self.chunks.len(),
            self.advanced().index() == if self.can_advance() {
                self.index() + 1
            } else {
                self.index()
            },
            self.can_backtrack() <==> self.index() > 0,
            self.backtracked().index() == if self.can_backtrack() {
                self.index() - 1
            } else {
                self.index()
            },
    {
        let ahead = self.index() + 1;
        if ahead < self.chunks.len() {
            assert(self.chunks[ahead].len() > 0);
        }
        let behind = self.index();
        if behind > 0 {
            assert(self.chunks[behind - 1].len() > 0);
        }
    }

    /// From a non-empty chunk, a step forward followed by a step backward
    /// brings the cursor back to the chunk it started on, whatever empty
    /// chunks lie in between.
    pub proof fn lemma_advance_then_backtrack(self)
        requires
            self.wf(),
            self.current.len() > 0,
            self.can_advance(),
        ensures
            self.advanced().can_backtrack(),
            self.advanced().backtracked().current == self.current,
            self.advanced().backtracked().index() == self.index(),
    {
        self.lemma_advance_finds_the_next_nonempty_chunk();
        self.lemma_step_keeps_wf();
        let there = self.advanced();
        lemma_last_nonempty_before(self.chunks, there.backward_origin());
        let back = last_nonempty_before(self.chunks, there.backward_origin());
        assert(self.chunks[self.index()].len() > 0);
        if back < self.index() {
            assert(self.chunks[self.index()].len() == 0);
        }
        if back > self.index() {
            assert(self.chunks[back].len() == 0);
        }
    }

    /// From a non-empty chunk, a step backward followed by a step forward
    /// brings the cursor back to the chunk it started on, whatever empty
    /// chunks lie in between.
    pub proof fn lemma_backtrack_then_advance(self)
        requires
            self.wf(),
            self.current.len() > 0,
            self.can_backtrack(),
        ensures
            self.backtracked().can_advance(),
            self.backtracked().advanced().current == self.current,
            self.backtracked().advanced().index() == self.index(),
    {
        self.lemma_backtrack_finds_the_previous_nonempty_chunk();
        self.lemma_step_keeps_wf();
        let there = self.backtracked();
        lemma_first_nonempty_from(self.chunks, there.forward_origin());
        let forth = first_nonempty_from(self.chunks, there.forward_origin());
        assert(self.chunks[self.index()].len() > 0);
        if forth > self.index() {
            assert(self.chunks[self.index()].len() == 0);
        }
        if forth < self.index() {
            assert(self.chunks[forth].len() == 0);
        }
    }

    /// From a non-empty chunk, two steps forward followed by two steps
    /// backward bring the cursor back to the chunk it started on, by way of
    /// the chunk in between.
    pub proof fn lemma_advance_twice_then_backtrack_twice(self)
        requires
            self.wf(),
            self.current.len() > 0,
            self.can_advance(),
            self.advanced().can_advance(),
        ensures
            self.advanced().advanced().can_backtrack(),
            self.advanced().advanced().backtracked().current == self.advanced().current,
            self.advanced().advanced().backtracked().index() == self.advanced().index(),
            self.advanced().advanced().backtracked().can_backtrack(),
            self.advanced().advanced().backtracked().backtracked().current == self.current,
            self.advanced().advanced().backtracked().backtracked().index() == self.index(),
    {
        self.lemma_advance_finds_the_next_nonempty_chunk();
        self.lemma_step_keeps_wf();
        self.lemma_advance_then_backtrack();
        let second = self.advanced();
        second.lemma_advance_then_backtrack();
        second.lemma_step_keeps_wf();
        second.advanced().lemma_step_keeps_wf();
        let back = second.advanced().backtracked();
        back.lemma_backtrack_finds_the_previous_nonempty_chunk();
        second.lemma_backtrack_finds_the_previous_nonempty_chunk();
        assert(back.index() == second.index());
        assert(back.backward_origin() == second.backward_origin());
    }

    /// A cursor made at the start of a source of three or more chunks, none
    /// of them empty, shows the first chunk; one step forward and one back
    /// return to it, and so do two steps forward and two back, by way of the
    /// second chunk.
    pub proof fn lemma_round_trip_from_the_start(chunks: Seq<Seq<u8>>)
        requires
            chunks.len() >= 3,
            all_nonempty(chunks),
        ensures
            ({
                let start = Self::fresh(chunks, 0);
                let second = start.advanced();
                let third = second.advanced();
                &&& start.current == chunks[0]
                &&& start.can_advance() && second.current == chunks[1]
                &&& second.can_backtrack() && second.backtracked().current == chunks[0]
                &&& second.can_advance() && third.current == chunks[2]
                &&& third.can_backtrack() && third.backtracked().current == chunks[1]
                &&& third.backtracked().can_backtrack()
                &&& third.backtracked().backtracked().current == chunks[0]
            }),
    {
        let start = Self::fresh(chunks, 0);
        Self::lemma_fresh_is_wf(chunks, 0);
        assert(chunks[0].len() > 0);
        start.lemma_step_in_dense_source();
        start.lemma_step_keeps_wf();
        start.lemma_advance_finds_the_next_nonempty_chunk();
        start.advanced().lemma_step_in_dense_source();
        start.advanced().lemma_advance_finds_the_next_nonempty_chunk();
        start.lemma_advance_twice_then_backtrack_twice();
    }
}

} // verus!
