//! Cursors over a forward iterator of chunks. They cannot go back.
use crate::chunks::first_nonempty_from;
use crate::chunks::lemma_first_nonempty_from;
use crate::chunks::lemma_nonempty_chunks_from;
use crate::chunks::lemma_no_chars_no_bytes;
use crate::chunks::nonempty_chunks;
use crate::cursor::Cursor;
use vstd::prelude::*;
use vstd::std_specs::iter::IteratorSpec;
use vstd::string::StringSliceAdditionalSpecFns;

verus! {

/// What a forward-only cursor is, as plain values.
pub ghost struct ForwardView {
    /// The bytes of the chunk that the cursor shows.
    pub current: Seq<u8>,
    /// The bytes of each chunk that the iterator has yet to yield, in order.
    pub upcoming: Seq<Seq<u8>>,
    /// Whether the iterator has reported its end. From then on the cursor
    /// does not ask it again.
    pub exhausted: bool,
}

impl ForwardView {
    /// A cursor newly made from an iterator that will yield `items`: it
    /// shows the first of them, having pulled it; or, where there is none,
    /// an empty chunk, having seen the iterator end.
    pub open spec fn fresh(items: Seq<Seq<u8>>) -> ForwardView {
        if items.len() > 0 {
            ForwardView { current: items[0], upcoming: items.skip(1), exhausted: false }
        } else {
            ForwardView { current: Seq::empty(), upcoming: Seq::empty(), exhausted: true }
        }
    }

    /// Whether a non-empty chunk is yet to come and the iterator has not
    /// reported its end.
    pub open spec fn can_advance(self) -> bool {
        !self.exhausted && first_nonempty_from(self.upcoming, 0) < self.upcoming.len()
    }

    /// The cursor after one step forward: on the next non-empty chunk, with
    /// everything up to it consumed; or, where the iterator ends before one
    /// is found, on the same chunk with the end on record; or, where the end
    /// was on record already, as it was.
    pub open spec fn advanced(self) -> ForwardView {
        let found = first_nonempty_from(self.upcoming, 0);
        if self.exhausted {
            self
        } else if found < self.upcoming.len() {
            ForwardView {
                current: self.upcoming[found],
                upcoming: self.upcoming.skip(found + 1),
                exhausted: false,
            }
        } else {
            ForwardView { current: self.current, upcoming: Seq::empty(), exhausted: true }
        }
    }

    /// The chunks that the cursor shows, one after the other, as it is moved
    /// forward until a step fails.
    pub open spec fn shown_by_advancing(self) -> Seq<Seq<u8>>
        decreases self.upcoming.len(),
    {
        if self.can_advance() {
            proof {
                lemma_first_nonempty_from(self.upcoming, 0);
            }
            seq![self.advanced().current] + self.advanced().shown_by_advancing()
        } else {
            Seq::empty()
        }
    }

    /// Moved forward until a step fails, a cursor whose iterator has not
    /// reported its end shows exactly the non-empty chunks that were yet to
    /// come, each once and in their order.
    pub proof fn lemma_advancing_shows_the_nonempty_chunks(self)
        requires
            !self.exhausted,
        ensures
            self.shown_by_advancing() == nonempty_chunks(self.upcoming),
        decreases self.upcoming.len(),
    {
        lemma_first_nonempty_from(self.upcoming, 0);
        lemma_nonempty_chunks_from(self.upcoming, 0);
        assert(self.upcoming.skip(0) =~= self.upcoming);
        if self.can_advance() {
            self.advanced().lemma_advancing_shows_the_nonempty_chunks();
        }
    }

    /// A successful step forward lands on a non-empty chunk.
    pub proof fn lemma_advance_lands_on_nonempty_chunk(self)
        requires
            self.can_advance(),
        ensures
            self.advanced().current.len() > 0,
    {
        lemma_first_nonempty_from(self.upcoming, 0);
    }

    /// A step forward that fails puts the end on record and keeps the
    /// chunk; every further step forward fails too and changes nothing.
    pub proof fn lemma_failed_advance_is_stable(self)
        requires
            !self.can_advance(),
        ensures
            self.advanced().exhausted,
            self.advanced().current == self.current,
            !self.advanced().can_advance(),
            self.advanced().advanced() == self.advanced(),
    {
    }
}

/// The bytes of each of a sequence of byte chunks.
pub open spec fn bytes_of(items: Seq<&[u8]>) -> Seq<Seq<u8>> {
    items.map_values(|item: &[u8]| item@)
}

/// The bytes of each of a sequence of text chunks.
pub open spec fn text_bytes_of(items: Seq<&str>) -> Seq<Seq<u8>> {
    items.map_values(|item: &str| item.spec_bytes())
}

/// A cursor over an iterator of raw byte chunks. Nothing is known of where
/// the chunks are cut, so a scalar value may be split between two of them.
pub struct Bytes<'a, I> {
    iter: I,
    current: &'a [u8],
    done: bool,
}

impl<'a, I: Iterator<Item = &'a [u8]>> Bytes<'a, I> {
    /// The iterator that the cursor pulls its chunks from.
    pub closed spec fn source(&self) -> I {
        self.iter
    }

    /// Whether the iterator has reported its end to the cursor, which then
    /// does not ask it again.
    pub closed spec fn exhausted(&self) -> bool {
        self.done
    }

    /// Makes a cursor from an iterator of chunks. The first chunk is
    /// pulled at once and becomes the current chunk; an iterator that has
    /// none gives an empty current chunk and is not asked again.
    pub fn new(mut iter: I) -> (cursor: Self)
        ensures
            iter.obeys_prophetic_iter_laws() ==> (ForwardView {
                current: cursor.spec_chunk(),
                upcoming: bytes_of(cursor.source().remaining()),
                exhausted: cursor.exhausted(),
            }) == ForwardView::fresh(bytes_of(iter.remaining())),
            iter.obeys_prophetic_iter_laws() && iter.decrease() is Some ==> cursor.wf(),
            cursor.exhausted() ==> cursor.wf() && cursor.spec_chunk().len() == 0,
    {
        let ghost items = iter.remaining();
        match iter.next() {
            Some(first) => {
                let current: &'a [u8] = first;
                proof {
                    if iter.obeys_prophetic_iter_laws() {
                        assert(current@ =~= ForwardView::fresh(bytes_of(items)).current);
                        assert(bytes_of(iter.remaining()) =~= ForwardView::fresh(
                            bytes_of(items),
                        ).upcoming);
                    }
                }
                Bytes { iter, current, done: false }
            },
            None => {
                let current: &'a [u8] = &[];
                proof {
                    assert(current@ =~= Seq::empty());
                    if iter.obeys_prophetic_iter_laws() {
                        assert(bytes_of(iter.remaining()) =~= Seq::empty());
                    }
                }
                Bytes { iter, current, done: true }
            },
        }
    }
}

impl<'a, I: Iterator<Item = &'a [u8]>> Cursor for Bytes<'a, I> {
    /// Either the iterator has reported its end, or it is one that ends:
    /// once it has yielded `None` it goes on doing so, and it comes with a
    /// measure that each pull lowers.
    open spec fn wf(&self) -> bool {
        self.exhausted() || (self.source().obeys_prophetic_iter_laws()
            && self.source().decrease() is Some)
    }

    closed spec fn spec_chunk(&self) -> Seq<u8> {
        self.current@
    }

    /// The chunks are cut at arbitrary bytes.
    open spec fn spec_utf8_aware(&self) -> bool {
        false
    }

    /// Once the end is on record a step forward fails and changes nothing;
    /// a step that fails puts the end on record and keeps the chunk.
    open spec fn spec_advance(&self, next: &Self, moved: bool) -> bool {
        &&& self.exhausted() ==> !moved && *next == *self
        &&& !moved ==> next.exhausted() && next.spec_chunk() == self.spec_chunk()
        &&& moved ==> !next.exhausted()
    }

    open spec fn spec_backtrack(&self, prev: &Self, moved: bool) -> bool {
        !moved && *prev == *self
    }

    fn chunk(&self) -> (bytes: &[u8])
        ensures
            bytes@ == self.spec_chunk(),
    {
        self.current
    }

    fn utf8_aware(&self) -> (aware: bool)
        ensures
            !aware,
    {
        false
    }

    fn advance(&mut self) -> (moved: bool)
        ensures
            ({
                let before = ForwardView {
                    current: (*old(self)).spec_chunk(),
                    upcoming: bytes_of(old(self).source().remaining()),
                    exhausted: old(self).exhausted(),
                };
                let after = ForwardView {
                    current: (*final(self)).spec_chunk(),
                    upcoming: bytes_of(final(self).source().remaining()),
                    exhausted: final(self).exhausted(),
                };
                &&& moved == before.can_advance()
                &&& after == before.advanced()
                &&& !moved ==> !after.can_advance()
            }),
            old(self).exhausted() ==> *final(self) == *old(self),
    {
        if self.done {
            return false;
        }
        let ghost items = self.iter.remaining();
        let ghost ahead = bytes_of(items);
        let ghost mut skipped: int = 0;
        loop
            invariant
                items == old(self).iter.remaining(),
                ahead == bytes_of(items),
                self.iter.obeys_prophetic_iter_laws(),
                self.iter.decrease() is Some,
                0 <= skipped <= items.len(),
                self.iter.remaining() == items.skip(skipped),
                first_nonempty_from(ahead, skipped) == first_nonempty_from(ahead, 0),
                self.current == old(self).current,
                !self.done,
                !old(self).done,
            decreases self.iter.decrease()->0,
        {
            match self.iter.next() {
                Some(next) => {
                    assert(self.iter.remaining() =~= items.skip(skipped + 1));
                    if next.is_empty() {
                        proof {
                            skipped = skipped + 1;
                        }
                        continue ;
                    }
                    self.current = next;
                    assert(bytes_of(self.iter.remaining()) =~= ahead.skip(skipped + 1));
                    return true;
                },
                None => {
                    assert(bytes_of(self.iter.remaining()) =~= Seq::empty());
                    self.done = true;
                    return false;
                },
            }
        }
    }

    fn backtrack(&mut self) -> (moved: bool)
        ensures
            !moved,
            *final(self) == *old(self),
    {
        false
    }
}

/// A cursor over an iterator of text chunks. Each chunk is valid text by
/// itself, so no scalar value is split between two of them.
pub struct Utf8Bytes<'a, I> {
    iter: I,
    current: &'a [u8],
    done: bool,
}

impl<'a, I: Iterator<Item = &'a str>> Utf8Bytes<'a, I> {
    /// The iterator that the cursor pulls its chunks from.
    pub closed spec fn source(&self) -> I {
        self.iter
    }

    /// Whether the iterator has reported its end to the cursor, which then
    /// does not ask it again.
    pub closed spec fn exhausted(&self) -> bool {
        self.done
    }

    /// Makes a cursor from an iterator of text chunks. The first chunk is
    /// pulled at once and becomes the current chunk; an iterator that has
    /// none gives an empty current chunk and is not asked again.
    pub fn new(mut iter: I) -> (cursor: Self)
        ensures
            iter.obeys_prophetic_iter_laws() ==> (ForwardView {
                current: cursor.spec_chunk(),
                upcoming: text_bytes_of(cursor.source().remaining()),
                exhausted: cursor.exhausted(),
            }) == ForwardView::fresh(text_bytes_of(iter.remaining())),
            iter.obeys_prophetic_iter_laws() && iter.decrease() is Some ==> cursor.wf(),
            cursor.exhausted() ==> cursor.wf() && cursor.spec_chunk().len() == 0,
    {
        let ghost items = iter.remaining();
        match iter.next() {
            Some(first) => {
                let current: &'a [u8] = first.as_bytes();
                proof {
                    if iter.obeys_prophetic_iter_laws() {
                        assert(current@ =~= ForwardView::fresh(text_bytes_of(items)).current);
                        assert(text_bytes_of(iter.remaining()) =~= ForwardView::fresh(
                            text_bytes_of(items),
                        ).upcoming);
                    }
                }
                Utf8Bytes { iter, current, done: false }
            },
            None => {
                let current: &'a [u8] = &[];
                proof {
                    assert(current@ =~= Seq::empty());
                    if iter.obeys_prophetic_iter_laws() {
                        assert(text_bytes_of(iter.remaining()) =~= Seq::empty());
                    }
                }
                Utf8Bytes { iter, current, done: true }
            },
        }
    }
}

impl<'a, I: Iterator<Item = &'a str>> Cursor for Utf8Bytes<'a, I> {
    /// Either the iterator has reported its end, or it is one that ends:
    /// once it has yielded `None` it goes on doing so, and it comes with a
    /// measure that each pull lowers.
    open spec fn wf(&self) -> bool {
        self.exhausted() || (self.source().obeys_prophetic_iter_laws()
            && self.source().decrease() is Some)
    }

    closed spec fn spec_chunk(&self) -> Seq<u8> {
        self.current@
    }

    /// The chunks are cut between scalar values.
    open spec fn spec_utf8_aware(&self) -> bool {
        true
    }

    /// Once the end is on record a step forward fails and changes nothing;
    /// a step that fails puts the end on record and keeps the chunk.
    open spec fn spec_advance(&self, next: &Self, moved: bool) -> bool {
        &&& self.exhausted() ==> !moved && *next == *self
        &&& !moved ==> next.exhausted() && next.spec_chunk() == self.spec_chunk()
        &&& moved ==> !next.exhausted()
    }

    open spec fn spec_backtrack(&self, prev: &Self, moved: bool) -> bool {
        !moved && *prev == *self
    }

    fn chunk(&self) -> (bytes: &[u8])
        ensures
            bytes@ == self.spec_chunk(),
    {
        self.current
    }

    fn utf8_aware(&self) -> (aware: bool)
        ensures
            aware,
    {
        true
    }

    fn advance(&mut self) -> (moved: bool)
        ensures
            ({
                let before = ForwardView {
                    current: (*old(self)).spec_chunk(),
                    upcoming: text_bytes_of(old(self).source().remaining()),
                    exhausted: old(self).exhausted(),
                };
                let after = ForwardView {
                    current: (*final(self)).spec_chunk(),
                    upcoming: text_bytes_of(final(self).source().remaining()),
                    exhausted: final(self).exhausted(),
                };
                &&& moved == before.can_advance()
                &&& after == before.advanced()
                &&& !moved ==> !after.can_advance()
            }),
            old(self).exhausted() ==> *final(self) == *old(self),
    {
        if self.done {
            return false;
        }
        let ghost items = self.iter.remaining();
        let ghost ahead = text_bytes_of(items);
        let ghost mut skipped: int = 0;
        loop
            invariant
                items == old(self).iter.remaining(),
                ahead == text_bytes_of(items),
                self.iter.obeys_prophetic_iter_laws(),
                self.iter.decrease() is Some,
                0 <= skipped <= items.len(),
                self.iter.remaining() == items.skip(skipped),
                first_nonempty_from(ahead, skipped) == first_nonempty_from(ahead, 0),
                self.current == old(self).current,
                !self.done,
                !old(self).done,
            decreases self.iter.decrease()->0,
        {
            match self.iter.next() {
                Some(next) => {
                    assert(self.iter.remaining() =~= items.skip(skipped + 1));
                    proof {
                        lemma_no_chars_no_bytes(next@);
                    }
                    if next.is_empty() {
                        proof {
                            skipped = skipped + 1;
                        }
                        continue ;
                    }
                    self.current = next.as_bytes();
                    assert(text_bytes_of(self.iter.remaining()) =~= ahead.skip(skipped + 1));
                    return true;
                },
                None => {
                    assert(text_bytes_of(self.iter.remaining()) =~= Seq::empty());
                    self.done = true;
                    return false;
                },
            }
        }
    }

    fn backtrack(&mut self) -> (moved: bool)
        ensures
            !moved,
            *final(self) == *old(self),
    {
        false
    }
}

} // verus!
