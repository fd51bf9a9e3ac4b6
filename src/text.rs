use vstd::prelude::*;
use vstd::std_specs::iter::IteratorSpec;

verus! {

/// Characters after which a chunk of text ends: ASCII and full-width sentence
/// terminators, the ideographic full stop, the ellipsis and the line break.
pub open spec fn is_sentence_end(c: char) -> bool {
    c == '.' || c == '!' || c == '?' || c == ';' || c == '\n' || c == '\u{3002}'
        || c == '\u{FF01}' || c == '\u{FF1F}' || c == '\u{FF1B}' || c == '\u{2026}'
}

pub fn sentence_end(c: char) -> (r: bool)
    ensures
        r == is_sentence_end(c),
{
    c == '.' || c == '!' || c == '?' || c == ';' || c == '\n' || c == '\u{3002}'
        || c == '\u{FF01}' || c == '\u{FF1F}' || c == '\u{FF1B}' || c == '\u{2026}'
}

/// The characters of each string, in order.
pub open spec fn chunk_views(v: Seq<String>) -> Seq<Seq<char>> {
    Seq::new(v.len(), |i: int| v[i]@)
}

/// `chunks` cuts `s` after every sentence terminator: joined they give `s` back,
/// none is empty, a terminator stands only at the end of a chunk, and every
/// chunk but the last ends with one.
pub open spec fn chunked(s: Seq<char>, chunks: Seq<Seq<char>>) -> bool {
    &&& chunks.flatten() == s
    &&& forall|i: int| 0 <= i < chunks.len() ==> #[trigger] chunks[i].len() > 0
    &&& forall|i: int, j: int|
        0 <= i < chunks.len() && 0 <= j < chunks[i].len() - 1 ==> !is_sentence_end(
            #[trigger] chunks[i][j],
        )
    &&& forall|i: int|
        0 <= i < chunks.len() - 1 ==> is_sentence_end(#[trigger] chunks[i].last())
}

/// The characters of the string, in order.
pub(crate) fn chars_of(s: &str) -> (r: Vec<char>)
    ensures
        r@ == s@,
{
    broadcast use vstd::string::axiom_spec_iter, vstd::string::next_postcondition;

    let mut it = s.chars();
    let mut v: Vec<char> = Vec::new();
    loop
        invariant
            v@ + IteratorSpec::remaining(&it) == s@,
            IteratorSpec::decrease(&it) is Some,
        ensures
            v@ == s@,
        decreases IteratorSpec::decrease(&it)->0,
    {
        match it.next() {
            None => {
                assert(v@ + Seq::<char>::empty() =~= v@);
                break;
            },
            Some(c) => {
                let ghost before = v@;
                v.push(c);
                assert(before + seq![c] + IteratorSpec::remaining(&it) =~= before + (seq![c]
                    + IteratorSpec::remaining(&it)));
            },
        }
    }
    v
}

/// Relies on String's FromIterator<char>: the string of these characters.
#[verifier::external_body]
pub(crate) fn string_of(v: &Vec<char>) -> (r: String)
    ensures
        r@ == v@,
{
    v.iter().collect()
}

/// Splits text into sentence chunks, each handed to the model as one prompt.
pub fn preprocess_text(text: &str) -> (r: Vec<String>)
    ensures
        chunked(text@, chunk_views(r@)),
{
    broadcast use Seq::lemma_flatten_push;

    let chars = chars_of(text);
    let mut out: Vec<String> = Vec::new();
    let mut cur: Vec<char> = Vec::new();
    let mut i: usize = 0;
    while i < chars.len()
        invariant
            i <= chars@.len(),
            chars@ == text@,
            chunk_views(out@).flatten() + cur@ == chars@.subrange(0, i as int),
            forall|k: int| 0 <= k < out@.len() ==> (#[trigger] out@[k])@.len() > 0,
            forall|k: int, j: int|
                0 <= k < out@.len() && 0 <= j < out@[k]@.len() - 1 ==> !is_sentence_end(
                    #[trigger] out@[k]@[j],
                ),
            forall|k: int| 0 <= k < out@.len() ==> is_sentence_end(#[trigger] out@[k]@.last()),
            forall|j: int| 0 <= j < cur@.len() ==> !is_sentence_end(#[trigger] cur@[j]),
        decreases chars.len() - i,
    {
        let c = chars[i];
        cur.push(c);
        assert(chars@.subrange(0, i + 1) == chars@.subrange(0, i as int).push(c));
        if sentence_end(c) {
            let s = string_of(&cur);
            let ghost prev = chunk_views(out@);
            out.push(s);
            assert(chunk_views(out@) =~= prev.push(s@));
            proof { prev.lemma_flatten_push(s@); }
            cur = Vec::new();
            assert(chunk_views(out@).flatten() + cur@ == chunk_views(out@).flatten());
        }
        i += 1;
    }
    assert(chars@.subrange(0, i as int) == chars@);
    if cur.len() > 0 {
        let s = string_of(&cur);
        let ghost prev = chunk_views(out@);
        out.push(s);
        assert(chunk_views(out@) =~= prev.push(s@));
        proof { prev.lemma_flatten_push(s@); }
    } else {
        assert(chunk_views(out@).flatten() + cur@ == chunk_views(out@).flatten());
    }
    let ghost cv = chunk_views(out@);
    assert forall|k: int| 0 <= k < cv.len() implies #[trigger] cv[k].len() > 0 by {
        assert(cv[k] == out@[k]@);
    }
    assert forall|k: int, j: int|
        0 <= k < cv.len() && 0 <= j < cv[k].len() - 1 implies !is_sentence_end(
        #[trigger] cv[k][j],
    ) by {
        assert(cv[k] == out@[k]@);
    }
    assert forall|k: int| 0 <= k < cv.len() - 1 implies is_sentence_end(#[trigger] cv[k].last()) by {
        assert(cv[k] == out@[k]@);
    }
    out
}

/// Chunking loses no text: a text with at least one character gives at least
/// one chunk, and no chunk is empty.
pub proof fn lemma_chunks_cover_text(s: Seq<char>, chunks: Seq<Seq<char>>)
    requires
        chunked(s, chunks),
        s.len() > 0,
    ensures
        chunks.len() > 0,
        forall|i: int| 0 <= i < chunks.len() ==> #[trigger] chunks[i].len() > 0,
{
    if chunks.len() == 0 {
        assert(chunks.flatten() == Seq::<char>::empty());
    }
}

} // verus!
