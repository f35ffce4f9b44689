//! The traversal contract and the conversion into a cursor.
use vstd::prelude::*;

verus! {

/// A position in a byte source that is read one chunk at a time.
///
/// The source is either exhausted in a direction or offers a further
/// non-empty chunk there; empty chunks are never shown to the caller after a
/// successful move.
pub trait Cursor {
    /// What a step forward needs of the source: that the search for the next
    /// non-empty chunk comes to an end.
    spec fn wf(&self) -> bool;

    /// The bytes of the chunk that the cursor currently shows.
    spec fn spec_chunk(&self) -> Seq<u8>;

    /// Whether the source never splits a Unicode scalar value between two
    /// chunks.
    spec fn spec_utf8_aware(&self) -> bool;

    /// How the cursor `next`, together with the answer `moved`, follows from
    /// this cursor by one step forward.
    spec fn spec_advance(&self, next: &Self, moved: bool) -> bool;

    /// How the cursor `prev`, together with the answer `moved`, follows from
    /// this cursor by one step backward.
    spec fn spec_backtrack(&self, prev: &Self, moved: bool) -> bool;

    /// The current chunk. Repeated calls give the same bytes until the cursor
    /// is moved.
    fn chunk(&self) -> (bytes: &[u8])
        ensures
            bytes@ == self.spec_chunk(),
    ;

    /// Whether this cursor can be used for matching in Unicode mode: it
    /// promises that no scalar value is split across a chunk boundary.
    fn utf8_aware(&self) -> (aware: bool)
        ensures
            aware == self.spec_utf8_aware(),
    ;

    /// Moves to the next non-empty chunk, skipping empty ones. Returns
    /// `false` when the source has none left in this direction, and from
    /// then on for every further step forward.
    fn advance(&mut self) -> (moved: bool)
        requires
            old(self).wf(),
        ensures
            final(self).wf(),
            old(self).spec_advance(final(self), moved),
            final(self).spec_utf8_aware() == old(self).spec_utf8_aware(),
            moved ==> final(self).spec_chunk().len() > 0,
            !moved ==> final(self).spec_chunk() == old(self).spec_chunk(),
            !moved ==> forall|next: &Self, again: bool| #[trigger]
                final(self).spec_advance(next, again) ==> !again,
    ;

    /// Moves to the previous non-empty chunk, skipping empty ones. Returns
    /// `false` when the source cannot go back any further, and from then on
    /// for every further step backward.
    fn backtrack(&mut self) -> (moved: bool)
        ensures
            old(self).wf() ==> final(self).wf(),
            old(self).spec_backtrack(final(self), moved),
            final(self).spec_utf8_aware() == old(self).spec_utf8_aware(),
            moved ==> final(self).spec_chunk().len() > 0,
            !moved ==> final(self).spec_chunk() == old(self).spec_chunk(),
            !moved ==> forall|prev: &Self, again: bool| #[trigger]
                final(self).spec_backtrack(prev, again) ==> !again,
    ;
}

/// A cursor taken by mutable reference is a cursor: every operation is
/// handed on to the cursor behind the reference, and the reference goes on
/// leading to that same cursor.
impl<C: Cursor> Cursor for &mut C {
    open spec fn wf(&self) -> bool {
        (**self).wf()
    }

    open spec fn spec_chunk(&self) -> Seq<u8> {
        (**self).spec_chunk()
    }

    open spec fn spec_utf8_aware(&self) -> bool {
        (**self).spec_utf8_aware()
    }

    open spec fn spec_advance(&self, next: &Self, moved: bool) -> bool {
        (**self).spec_advance(&**next, moved)
    }

    open spec fn spec_backtrack(&self, prev: &Self, moved: bool) -> bool {
        (**self).spec_backtrack(&**prev, moved)
    }

    fn chunk(&self) -> (bytes: &[u8]) {
        C::chunk(self)
    }

    fn utf8_aware(&self) -> (aware: bool) {
        C::utf8_aware(self)
    }

    fn advance(&mut self) -> (moved: bool)
        ensures
            (**old(self)).spec_advance(&**final(self), moved),
            *final(*final(self)) == *final(*old(self)),
    {
        C::advance(self)
    }

    fn backtrack(&mut self) -> (moved: bool)
        ensures
            (**old(self)).spec_backtrack(&**final(self), moved),
            *final(*final(self)) == *final(*old(self)),
    {
        C::backtrack(self)
    }
}

/// Conversion into a cursor.
pub trait IntoCursor {
    /// The cursor that the conversion yields.
    type Cursor: Cursor;

    /// Whether `cursor` is what this value converts into.
    spec fn spec_into_cursor(self, cursor: Self::Cursor) -> bool;

    /// Turns the value into a cursor over its contents.
    fn into_cursor(self) -> (cursor: Self::Cursor)
        ensures
            self.spec_into_cursor(cursor),
    ;
}

/// A cursor converts into itself.
impl<C: Cursor> IntoCursor for C {
    type Cursor = Self;

    open spec fn spec_into_cursor(self, cursor: Self) -> bool {
        cursor == self
    }

    fn into_cursor(self) -> (cursor: Self) {
        self
    }
}

} // verus!
