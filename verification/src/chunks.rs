//! Sequences of chunks, and the search for the nearest non-empty one in
//! either direction.
use vstd::prelude::*;
use vstd::utf8::encode_utf8;

verus! {

/// The index of the first non-empty chunk at or after `from`, or the length
/// of `chunks` where there is none.
pub open spec fn first_nonempty_from(chunks: Seq<Seq<u8>>, from: int) -> int
    decreases chunks.len() - from,
{
    if from >= chunks.len() {
        chunks.len() as int
    } else if chunks[from].len() > 0 {
        from
    } else {
        first_nonempty_from(chunks, from + 1)
    }
}

/// The index of the last non-empty chunk before `before`, or `-1` where
/// there is none.
pub open spec fn last_nonempty_before(chunks: Seq<Seq<u8>>, before: int) -> int
    decreases before,
{
    if before <= 0 {
        -1
    } else if chunks[before - 1].len() > 0 {
        before - 1
    } else {
        last_nonempty_before(chunks, before - 1)
    }
}

/// Whether no chunk of the sequence is empty.
pub open spec fn all_nonempty(chunks: Seq<Seq<u8>>) -> bool {
    forall|i: int| 0 <= i < chunks.len() ==> (#[trigger] chunks[i]).len() > 0
}

/// The non-empty chunks among `chunks`, in the order in which they stand.
pub open spec fn nonempty_chunks(chunks: Seq<Seq<u8>>) -> Seq<Seq<u8>> {
    chunks.filter(|chunk: Seq<u8>| chunk.len() > 0)
}

/// `first_nonempty_from` stops at the first non-empty chunk: every chunk it
/// passes over is empty, and where it stops short of the end the chunk there
/// is not.
pub proof fn lemma_first_nonempty_from(chunks: Seq<Seq<u8>>, from: int)
    requires
        0 <= from <= chunks.len(),
    ensures
        from <= first_nonempty_from(chunks, from) <= chunks.len(),
        forall|j: int|
            from <= j < first_nonempty_from(chunks, from) ==> (#[trigger] chunks[j]).len() == 0,
        first_nonempty_from(chunks, from) < chunks.len() ==> chunks[first_nonempty_from(
            chunks,
            from,
        )].len() > 0,
    decreases chunks.len() - from,
{
    if from < chunks.len() && chunks[from].len() == 0 {
        lemma_first_nonempty_from(chunks, from + 1);
    }
}

/// `last_nonempty_before` stops at the last non-empty chunk: every chunk it
/// passes over is empty, and where it stops short of the start the chunk
/// there is not.
pub proof fn lemma_last_nonempty_before(chunks: Seq<Seq<u8>>, before: int)
    requires
        0 <= before <= chunks.len(),
    ensures
        -1 <= last_nonempty_before(chunks, before) < before,
        forall|j: int|
            last_nonempty_before(chunks, before) < j < before ==> (#[trigger] chunks[j]).len()
                == 0,
        last_nonempty_before(chunks, before) >= 0 ==> chunks[last_nonempty_before(
            chunks,
            before,
        )].len() > 0,
    decreases before,
{
    if before > 0 && chunks[before - 1].len() == 0 {
        lemma_last_nonempty_before(chunks, before - 1);
    }
}

/// The non-empty chunks from `from` on are the one that
/// `first_nonempty_from` finds, followed by the non-empty chunks behind it;
/// there are none where it finds none.
pub proof fn lemma_nonempty_chunks_from(chunks: Seq<Seq<u8>>, from: int)
    requires
        0 <= from <= chunks.len(),
    ensures
        nonempty_chunks(chunks.skip(from)) == if first_nonempty_from(chunks, from) < chunks.len() {
            seq![chunks[first_nonempty_from(chunks, from)]] + nonempty_chunks(
                chunks.skip(first_nonempty_from(chunks, from) + 1),
            )
        } else {
            Seq::empty()
        },
    decreases chunks.len() - from,
{
    let keep = |chunk: Seq<u8>| chunk.len() > 0;
    if from == chunks.len() {
        reveal(Seq::filter);
        assert(chunks.skip(from) =~= Seq::empty());
    } else {
        assert(chunks.skip(from) =~= seq![chunks[from]] + chunks.skip(from + 1));
        chunks.skip(from + 1).lemma_filter_prepend(chunks[from], keep);
        if chunks[from].len() == 0 {
            lemma_nonempty_chunks_from(chunks, from + 1);
        }
    }
}

/// The non-empty chunks before `before`, from the nearest one backwards, are
/// the one that `last_nonempty_before` finds, followed by the non-empty
/// chunks before it; there are none where it finds none.
pub proof fn lemma_nonempty_chunks_before(chunks: Seq<Seq<u8>>, before: int)
    requires
        0 <= before <= chunks.len(),
    ensures
        nonempty_chunks(chunks.take(before).reverse()) == if last_nonempty_before(chunks, before)
            >= 0 {
            seq![chunks[last_nonempty_before(chunks, before)]] + nonempty_chunks(
                chunks.take(last_nonempty_before(chunks, before)).reverse(),
            )
        } else {
            Seq::empty()
        },
    decreases before,
{
    let keep = |chunk: Seq<u8>| chunk.len() > 0;
    if before == 0 {
        reveal(Seq::filter);
        assert(chunks.take(before).reverse() =~= Seq::empty());
    } else {
        assert(chunks.take(before).reverse() =~= seq![chunks[before - 1]] + chunks.take(
            before - 1,
        ).reverse());
        chunks.take(before - 1).reverse().lemma_filter_prepend(chunks[before - 1], keep);
        if chunks[before - 1].len() == 0 {
            lemma_nonempty_chunks_before(chunks, before - 1);
        }
    }
}

/// A piece of text has no bytes exactly when it has no characters.
pub proof fn lemma_no_chars_no_bytes(chars: Seq<char>)
    ensures
        encode_utf8(chars).len() == 0 <==> chars.len() == 0,
{
}

} // verus!
