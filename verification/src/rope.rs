//! The cursor over a rope's chunks, which can step in both directions.
use crate::chunks::first_nonempty_from;
use crate::chunks::last_nonempty_before;
use crate::chunks::lemma_no_chars_no_bytes;
use crate::cursor::Cursor;
use crate::cursor::IntoCursor;
use crate::rope_view::Pos;
use crate::rope_view::RopeView;
use ropey::iter::Chunks;
use vstd::prelude::*;
use vstd::string::StringSliceAdditionalSpecFns;

verus! {

/// `ropey::iter::Chunks`, the iterator over the chunks of a rope or of a
/// slice of one. Nothing of its inside is visible here: what this module
/// says of its `next`, `prev` and `clone` is assumed of ropey, not proved.
#[verifier::external_type_specification]
#[verifier::external_body]
pub struct ExChunks<'a>(Chunks<'a>);

/// The bytes of each chunk that lies in front of the iterator, in the order
/// in which `next` will hand them out. For an iterator that was reversed
/// this is the order from the end of the text towards its start.
pub uninterp spec fn chunks_ahead(iter: Chunks<'_>) -> Seq<Seq<u8>>;

/// The bytes of each chunk that lies behind the iterator, in the order in
/// which `next` passes them; `prev` hands them out from the last one on.
pub uninterp spec fn chunks_behind(iter: Chunks<'_>) -> Seq<Seq<u8>>;

/// `Iterator::next` of `ropey::iter::Chunks`. The iterator stands between
/// two chunks. It jumps over the chunk in front of it and returns that
/// chunk, which then lies behind it; where no chunk is in front it stays
/// where it is and returns `None`.
pub assume_specification<'a>[ Chunks::<'a>::next ](iter: &mut Chunks<'a>) -> (chunk: Option<
    &'a str,
>)
    ensures
        chunks_ahead(*old(iter)).len() > 0 ==> {
            &&& chunk is Some
            &&& chunk->0.spec_bytes() == chunks_ahead(*old(iter)).first()
            &&& chunks_ahead(*final(iter)) == chunks_ahead(*old(iter)).drop_first()
            &&& chunks_behind(*final(iter)) == chunks_behind(*old(iter)).push(
                chunks_ahead(*old(iter)).first(),
            )
        },
        chunks_ahead(*old(iter)).len() == 0 ==> {
            &&& chunk is None
            &&& chunks_ahead(*final(iter)) == chunks_ahead(*old(iter))
            &&& chunks_behind(*final(iter)) == chunks_behind(*old(iter))
        },
;

/// `ropey::iter::Chunks::prev`. The iterator stands between two chunks. It
/// jumps back over the chunk behind it and returns that chunk, which then
/// lies in front of it; where no chunk is behind it stays where it is and
/// returns `None`.
pub assume_specification<'a>[ Chunks::<'a>::prev ](iter: &mut Chunks<'a>) -> (chunk: Option<
    &'a str,
>)
    ensures
        chunks_behind(*old(iter)).len() > 0 ==> {
            &&& chunk is Some
            &&& chunk->0.spec_bytes() == chunks_behind(*old(iter)).last()
            &&& chunks_behind(*final(iter)) == chunks_behind(*old(iter)).drop_last()
            &&& chunks_ahead(*final(iter)) == seq![chunks_behind(*old(iter)).last()]
                + chunks_ahead(*old(iter))
        },
        chunks_behind(*old(iter)).len() == 0 ==> {
            &&& chunk is None
            &&& chunks_ahead(*final(iter)) == chunks_ahead(*old(iter))
            &&& chunks_behind(*final(iter)) == chunks_behind(*old(iter))
        },
;

/// `Clone::clone` of `ropey::iter::Chunks`. The copy stands at the same
/// place between the same chunks.
pub assume_specification<'a>[ <Chunks<'a> as Clone>::clone ](iter: &Chunks<'a>) -> (copy: Chunks<
    'a,
>)
    ensures
        chunks_ahead(copy) == chunks_ahead(*iter),
        chunks_behind(copy) == chunks_behind(*iter),
;

/// All the chunks that the iterator walks over, in the order of `next`.
pub open spec fn chunk_list(iter: Chunks<'_>) -> Seq<Seq<u8>> {
    chunks_behind(iter) + chunks_ahead(iter)
}

/// The number of chunks that lie behind the iterator: the index, in
/// `chunk_list`, of the chunk in front of it.
pub open spec fn chunk_offset(iter: Chunks<'_>) -> int {
    chunks_behind(iter).len() as int
}

/// Moving the first chunk in front to the end of those behind leaves the
/// list of all chunks as it was, with that chunk at the place where the two
/// parts met.
proof fn lemma_step_over(behind: Seq<Seq<u8>>, ahead: Seq<Seq<u8>>)
    requires
        ahead.len() > 0,
    ensures
        behind.push(ahead.first()) + ahead.drop_first() == behind + ahead,
        (behind + ahead)[behind.len() as int] == ahead.first(),
{
    assert(behind.push(ahead.first()) + ahead.drop_first() =~= behind + ahead);
}

/// Moving the last chunk behind to the front of those ahead leaves the list
/// of all chunks as it was, with that chunk just before the place where the
/// two parts met.
proof fn lemma_step_back_over(behind: Seq<Seq<u8>>, ahead: Seq<Seq<u8>>)
    requires
        behind.len() > 0,
    ensures
        behind.drop_last() + (seq![behind.last()] + ahead) == behind + ahead,
        (behind + ahead)[behind.len() - 1] == behind.last(),
{
    assert(behind.drop_last() + (seq![behind.last()] + ahead) =~= behind + ahead);
}

/// A cursor over the chunks of a rope. It can step forward and backward.
///
/// The iterator always stands next to the current chunk, on the side that
/// the marker names: a step that finds no chunk to move to leaves the
/// cursor exactly as it was.
pub struct RopeyCursor<'a> {
    iter: Chunks<'a>,
    current: &'a [u8],
    pos: Pos,
}

impl<'a> View for RopeyCursor<'a> {
    type V = RopeView;

    closed spec fn view(&self) -> RopeView {
        RopeView {
            chunks: chunk_list(self.iter),
            offset: chunk_offset(self.iter),
            current: self.current@,
            pos: self.pos,
        }
    }
}

impl<'a> Clone for RopeyCursor<'a> {
    /// A second cursor at the same place of the same source.
    fn clone(&self) -> (copy: Self)
        ensures
            copy@ == self@,
            copy@.wf(),
    {
        proof {
            use_type_invariant(self);
        }
        RopeyCursor { iter: self.iter.clone(), current: self.current, pos: self.pos }
    }
}

impl<'a> RopeyCursor<'a> {
    /// The marker tells the truth about where the iterator stands.
    #[verifier::type_invariant]
    spec fn marker_is_true(self) -> bool {
        self@.wf()
    }

    /// Makes a cursor from a chunk iterator. The first chunk is pulled at
    /// once and becomes the current chunk, with the iterator just behind it.
    /// An iterator that has none left gives an empty current chunk, with the
    /// iterator just before it.
    pub fn new(mut iter: Chunks<'a>) -> (cursor: Self)
        ensures
            cursor@ == RopeView::fresh(chunk_list(iter), chunk_offset(iter)),
            cursor@.wf(),
    {
        let ghost before = iter;
        proof {
            if chunks_ahead(before).len() > 0 {
                lemma_step_over(chunks_behind(before), chunks_ahead(before));
            }
        }
        match iter.next() {
            Some(first) => RopeyCursor { current: first.as_bytes(), iter, pos: Pos::ChunkEnd },
            None => {
                let current: &'a [u8] = &[];
                assert(current@ =~= Seq::empty());
                RopeyCursor { current, iter, pos: Pos::ChunkStart }
            },
        }
    }
}

impl<'a> Cursor for RopeyCursor<'a> {
    /// A rope has finitely many chunks.
    open spec fn wf(&self) -> bool {
        true
    }

    open spec fn spec_chunk(&self) -> Seq<u8> {
        self@.current
    }

    /// A rope never splits a scalar value between two chunks.
    open spec fn spec_utf8_aware(&self) -> bool {
        true
    }

    open spec fn spec_advance(&self, next: &Self, moved: bool) -> bool {
        moved == self@.can_advance() && next@ == self@.advanced()
    }

    open spec fn spec_backtrack(&self, prev: &Self, moved: bool) -> bool {
        moved == self@.can_backtrack() && prev@ == self@.backtracked()
    }

    fn chunk(&self) -> (bytes: &[u8])
        ensures
            bytes@ == self@.current,
            self@.wf(),
    {
        proof {
            use_type_invariant(self);
        }
        self.current
    }

    fn utf8_aware(&self) -> (aware: bool)
        ensures
            aware,
    {
        true
    }

    fn advance(&mut self) -> (moved: bool)
        ensures
            old(self)@.wf(),
            final(self)@.wf(),
            moved == old(self)@.can_advance(),
            final(self)@ == old(self)@.advanced(),
            !moved ==> *final(self) == *old(self),
    {
        proof {
            use_type_invariant(&*self);
        }
        // The search runs on a copy of the iterator, which takes the place of
        // the cursor's own only once a chunk to move to was found.
        let mut ahead = self.iter.clone();
        match self.pos {
            Pos::ChunkStart => {
                proof {
                    if chunks_ahead(ahead).len() > 0 {
                        lemma_step_over(chunks_behind(ahead), chunks_ahead(ahead));
                    }
                }
                let _ = ahead.next();
            },
            Pos::ChunkEnd => (),
        }
        let ghost chunks = self@.chunks;
        let ghost origin = self@.forward_origin();
        loop
            invariant
                *self == *old(self),
                self@.wf(),
                chunks == self@.chunks,
                origin == self@.forward_origin(),
                chunk_list(ahead) == chunks,
                origin <= chunk_offset(ahead) <= chunks.len(),
                first_nonempty_from(chunks, chunk_offset(ahead)) == first_nonempty_from(
                    chunks,
                    origin,
                ),
            decreases chunks.len() - chunk_offset(ahead),
        {
            proof {
                if chunks_ahead(ahead).len() > 0 {
                    lemma_step_over(chunks_behind(ahead), chunks_ahead(ahead));
                }
            }
            match ahead.next() {
                Some(next) => {
                    proof {
                        lemma_no_chars_no_bytes(next@);
                    }
                    if next.is_empty() {
                        continue ;
                    }
                    *self = RopeyCursor { iter: ahead, current: next.as_bytes(), pos: Pos::ChunkEnd };
                    return true;
                },
                None => {
                    return false;
                },
            }
        }
    }

    fn backtrack(&mut self) -> (moved: bool)
        ensures
            old(self)@.wf(),
            final(self)@.wf(),
            moved == old(self)@.can_backtrack(),
            final(self)@ == old(self)@.backtracked(),
            !moved ==> *final(self) == *old(self),
    {
        proof {
            use_type_invariant(&*self);
        }
        // The search runs on a copy of the iterator, which takes the place of
        // the cursor's own only once a chunk to move to was found.
        let mut behind = self.iter.clone();
        match self.pos {
            Pos::ChunkStart => (),
            Pos::ChunkEnd => {
                proof {
                    if chunks_behind(behind).len() > 0 {
                        lemma_step_back_over(chunks_behind(behind), chunks_ahead(behind));
                    }
                }
                let _ = behind.prev();
            },
        }
        let ghost chunks = self@.chunks;
        let ghost origin = self@.backward_origin();
        loop
            invariant
                *self == *old(self),
                self@.wf(),
                chunks == self@.chunks,
                origin == self@.backward_origin(),
                chunk_list(behind) == chunks,
                0 <= chunk_offset(behind) <= origin <= chunks.len(),
                last_nonempty_before(chunks, chunk_offset(behind)) == last_nonempty_before(
                    chunks,
                    origin,
                ),
            decreases chunk_offset(behind),
        {
            proof {
                if chunks_behind(behind).len() > 0 {
                    lemma_step_back_over(chunks_behind(behind), chunks_ahead(behind));
                }
            }
            match behind.prev() {
                Some(prev) => {
                    proof {
                        lemma_no_chars_no_bytes(prev@);
                    }
                    if prev.is_empty() {
                        continue ;
                    }
                    *self = RopeyCursor {
                        iter: behind,
                        current: prev.as_bytes(),
                        pos: Pos::ChunkStart,
                    };
                    return true;
                },
                None => {
                    return false;
                },
            }
        }
    }
}

/// A chunk iterator converts into the cursor over its chunks.
impl<'h> IntoCursor for Chunks<'h> {
    type Cursor = RopeyCursor<'h>;

    open spec fn spec_into_cursor(self, cursor: RopeyCursor<'h>) -> bool {
        cursor@ == RopeView::fresh(chunk_list(self), chunk_offset(self)) && cursor@.wf()
    }

    fn into_cursor(self) -> (cursor: RopeyCursor<'h>) {
        RopeyCursor::new(self)
    }
}

} // verus!
