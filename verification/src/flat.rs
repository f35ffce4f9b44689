//! Cursors over a source that is already contiguous in memory: the whole
//! buffer is the one and only chunk.
use crate::cursor::Cursor;
use vstd::prelude::*;
use vstd::string::StringSliceAdditionalSpecFns;

verus! {

impl Cursor for &[u8] {
    open spec fn wf(&self) -> bool {
        true
    }

    open spec fn spec_chunk(&self) -> Seq<u8> {
        (*self)@
    }

    /// There are no chunk boundaries, so nothing can be split at one.
    open spec fn spec_utf8_aware(&self) -> bool {
        true
    }

    open spec fn spec_advance(&self, next: &Self, moved: bool) -> bool {
        !moved && *next == *self
    }

    open spec fn spec_backtrack(&self, prev: &Self, moved: bool) -> bool {
        !moved && *prev == *self
    }

    fn chunk(&self) -> (bytes: &[u8])
        ensures
            bytes@ == (*self)@,
    {
        self
    }

    fn utf8_aware(&self) -> (aware: bool)
        ensures
            aware,
    {
        true
    }

    fn advance(&mut self) -> (moved: bool)
        ensures
            !moved,
            *final(self) == *old(self),
    {
        false
    }

    fn backtrack(&mut self) -> (moved: bool)
        ensures
            !moved,
            *final(self) == *old(self),
    {
        false
    }
}

impl Cursor for &str {
    open spec fn wf(&self) -> bool {
        true
    }

    open spec fn spec_chunk(&self) -> Seq<u8> {
        (*self).spec_bytes()
    }

    /// There are no chunk boundaries, so nothing can be split at one.
    open spec fn spec_utf8_aware(&self) -> bool {
        true
    }

    open spec fn spec_advance(&self, next: &Self, moved: bool) -> bool {
        !moved && *next == *self
    }

    open spec fn spec_backtrack(&self, prev: &Self, moved: bool) -> bool {
        !moved && *prev == *self
    }

    fn chunk(&self) -> (bytes: &[u8])
        ensures
            bytes@ == (*self).spec_bytes(),
    {
        self.as_bytes()
    }

    fn utf8_aware(&self) -> (aware: bool)
        ensures
            aware,
    {
        true
    }

    fn advance(&mut self) -> (moved: bool)
        ensures
            !moved,
            *final(self) == *old(self),
    {
        false
    }

    fn backtrack(&mut self) -> (moved: bool)
        ensures
            !moved,
            *final(self) == *old(self),
    {
        false
    }
}

} // verus!
