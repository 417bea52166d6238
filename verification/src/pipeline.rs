//! From a request to the stages of a pipeline.
//!
//! A request names its stages from left to right, set apart by the three bytes
//! space, bar, space. Each stage is a program and its arguments, set apart by
//! runs of white space.

use vstd::prelude::*;
use crate::text::{copy_range, space_width, space_width_at};

verus! {

/// What stands between two stages of a request: space, bar, space.
pub open spec fn delimiter() -> Seq<u8> {
    seq![0x20u8, 0x7Cu8, 0x20u8]
}

/// The delimiter stands in `s` at index `i`.
pub open spec fn delimiter_at(s: Seq<u8>, i: int) -> bool {
    0 <= i && i + 3 <= s.len() && s[i] == 0x20u8 && s[i + 1] == 0x7Cu8 && s[i + 2] == 0x20u8
}

/// The index of the first delimiter of `s` at or after `from`; the length of
/// `s` where there is none.
pub open spec fn next_delimiter(s: Seq<u8>, from: int) -> int
    decreases s.len() - from,
{
    if from < 0 || from + 3 > s.len() {
        s.len() as int
    } else if delimiter_at(s, from) {
        from
    } else {
        next_delimiter(s, from + 1)
    }
}

/// The pieces of `s` from `from` on, cut at each delimiter in turn, the
/// leftmost first. A delimiter at the very end leaves an empty last piece.
pub open spec fn split_from(s: Seq<u8>, from: int) -> Seq<Seq<u8>>
    decreases s.len() - from,
{
    let d = next_delimiter(s, from);
    if 0 <= from && from <= d && d + 3 <= s.len() {
        seq![s.subrange(from, d)] + split_from(s, d + 3)
    } else {
        seq![s.skip(from)]
    }
}

/// The stage texts of a request, in order.
pub open spec fn split_stages(s: Seq<u8>) -> Seq<Seq<u8>> {
    split_from(s, 0)
}

/// The index at which the word that begins at `from` ends: that of the next
/// white-space character, or the length of `s`.
pub open spec fn word_end(s: Seq<u8>, from: int) -> int
    decreases s.len() - from,
{
    if from < 0 || from >= s.len() || space_width(s, from) > 0 {
        from
    } else {
        word_end(s, from + 1)
    }
}

/// The words of `s` from `from` on: its longest runs of bytes that hold no
/// white space.
pub open spec fn words_from(s: Seq<u8>, from: int) -> Seq<Seq<u8>>
    decreases s.len() - from,
{
    if from < 0 || from >= s.len() {
        Seq::empty()
    } else if 0 < space_width(s, from) <= s.len() - from {
        words_from(s, from + space_width(s, from))
    } else {
        let e = word_end(s, from);
        if from < e && e <= s.len() {
            seq![s.subrange(from, e)] + words_from(s, e)
        } else {
            Seq::empty()
        }
    }
}

/// The words of `s`.
pub open spec fn words(s: Seq<u8>) -> Seq<Seq<u8>> {
    words_from(s, 0)
}

/// One process of a pipeline, as plain values.
pub struct StageModel {
    pub program: Seq<u8>,
    pub args: Seq<Seq<u8>>,
}

/// One process of a pipeline: the program to start and its arguments.
#[derive(Debug)]
pub struct PipelineStage {
    pub program: Vec<u8>,
    pub args: Vec<Vec<u8>>,
}

/// The byte strings that a vector of vectors holds.
pub open spec fn rows(v: Seq<Vec<u8>>) -> Seq<Seq<u8>> {
    Seq::new(v.len(), |i: int| v[i]@)
}

impl View for PipelineStage {
    type V = StageModel;

    open spec fn view(&self) -> StageModel {
        StageModel { program: self.program@, args: rows(self.args@) }
    }
}

/// The stage that a stage text stands for: its first word is the program, the
/// others are the arguments. A text without a word gives the empty program,
/// which no system can start.
pub open spec fn stage_of(text: Seq<u8>) -> StageModel {
    let w = words(text);
    if w.len() == 0 {
        StageModel { program: Seq::empty(), args: Seq::empty() }
    } else {
        StageModel { program: w[0], args: w.subrange(1, w.len() as int) }
    }
}

/// The pipeline that a request stands for.
pub open spec fn pipeline_of(request: Seq<u8>) -> Seq<StageModel> {
    Seq::new(split_stages(request).len(), |i: int| stage_of(split_stages(request)[i]))
}

/// The stages that a vector holds.
pub open spec fn stages(v: Seq<PipelineStage>) -> Seq<StageModel> {
    Seq::new(v.len(), |i: int| v[i]@)
}

/// The pieces joined again, with the delimiter between each two.
pub open spec fn join(pieces: Seq<Seq<u8>>) -> Seq<u8>
    decreases pieces.len(),
{
    if pieces.len() == 0 {
        Seq::empty()
    } else if pieces.len() == 1 {
        pieces[0]
    } else {
        pieces[0] + delimiter() + join(pieces.drop_first())
    }
}

/// The next delimiter is not before `from`, not after the end, and no
/// delimiter stands between `from` and it.
pub proof fn lemma_next_delimiter(s: Seq<u8>, from: int)
    requires
        0 <= from <= s.len(),
    ensures
        from <= next_delimiter(s, from) <= s.len(),
        next_delimiter(s, from) < s.len() ==> delimiter_at(s, next_delimiter(s, from)),
        forall|i: int| from <= i < next_delimiter(s, from) ==> !delimiter_at(s, i),
    decreases s.len() - from,
{
    if from + 3 > s.len() {
    } else if delimiter_at(s, from) {
    } else {
        lemma_next_delimiter(s, from + 1);
    }
}

/// Cutting a request always leaves at least one piece.
pub proof fn lemma_split_nonempty(s: Seq<u8>, from: int)
    ensures
        split_from(s, from).len() >= 1,
    decreases s.len() - from,
{
    let d = next_delimiter(s, from);
    if 0 <= from && from <= d && d + 3 <= s.len() {
        lemma_split_nonempty(s, d + 3);
    }
}

/// A request without a delimiter is a single stage: the request itself.
pub proof fn lemma_single_stage(s: Seq<u8>)
    requires
        forall|i: int| !delimiter_at(s, i),
    ensures
        split_stages(s) == seq![s],
        pipeline_of(s) == seq![stage_of(s)],
{
    lemma_next_delimiter(s, 0);
    assert(s.skip(0) =~= s);
    assert(pipeline_of(s) =~= seq![stage_of(s)]);
}

/// The pieces of a request, joined with the delimiter, give the request back.
pub proof fn lemma_join_split(s: Seq<u8>, from: int)
    requires
        0 <= from <= s.len(),
    ensures
        join(split_from(s, from)) == s.skip(from),
    decreases s.len() - from,
{
    let d = next_delimiter(s, from);
    lemma_next_delimiter(s, from);
    if d < s.len() {
        let rest = split_from(s, d + 3);
        let all = seq![s.subrange(from, d)] + rest;
        lemma_join_split(s, d + 3);
        lemma_split_nonempty(s, d + 3);
        assert(all.len() >= 2);
        assert(all[0] == s.subrange(from, d));
        assert(all.drop_first() =~= rest);
        assert(s.subrange(d, d + 3) =~= delimiter());
        assert(s.subrange(from, d) + s.subrange(d, d + 3) + s.subrange(d + 3, s.len() as int)
            =~= s.skip(from));
    } else {
    }
}

/// No piece of a request holds a delimiter.
pub proof fn lemma_pieces_hold_no_delimiter(s: Seq<u8>, from: int, k: int, i: int)
    requires
        0 <= from <= s.len(),
        0 <= k < split_from(s, from).len(),
    ensures
        !delimiter_at(split_from(s, from)[k], i),
    decreases s.len() - from,
{
    let d = next_delimiter(s, from);
    lemma_next_delimiter(s, from);
    if d < s.len() {
        if k == 0 {
            let p = s.subrange(from, d);
            if delimiter_at(p, i) {
                assert(delimiter_at(s, from + i));
            }
        } else {
            assert(split_from(s, from)[k] == split_from(s, d + 3)[k - 1]);
            lemma_pieces_hold_no_delimiter(s, d + 3, k - 1, i);
        }
    } else {
        let p = s.skip(from);
        if delimiter_at(p, i) {
            assert(delimiter_at(s, from + i));
        }
    }
}

/// A word is not empty and holds no white space.
pub proof fn lemma_words_are_clean(s: Seq<u8>, from: int, k: int)
    requires
        0 <= from <= s.len(),
        0 <= k < words_from(s, from).len(),
    ensures
        words_from(s, from)[k].len() > 0,
        forall|i: int| space_width(words_from(s, from)[k], i) == 0,
    decreases s.len() - from,
{
    if from >= s.len() {
    } else if space_width(s, from) > 0 {
        lemma_words_are_clean(s, from + space_width(s, from), k);
    } else {
        let e = word_end(s, from);
        lemma_word_end(s, from);
        if k == 0 {
            let word = s.subrange(from, e);
            assert forall|i: int| space_width(word, i) == 0 by {
                if space_width(word, i) > 0 {
                    assert(word[i] == s[from + i]);
                    if space_width(word, i) >= 2 {
                        assert(word[i + 1] == s[from + i + 1]);
                    }
                    if space_width(word, i) >= 3 {
                        assert(word[i + 2] == s[from + i + 2]);
                    }
                    assert(space_width(s, from + i) > 0);
                }
            }
        } else {
            assert(words_from(s, from)[k] == words_from(s, e)[k - 1]);
            lemma_words_are_clean(s, e, k - 1);
        }
    }
}

/// A word ends at the first white-space character after its start, or at the
/// end.
pub proof fn lemma_word_end(s: Seq<u8>, from: int)
    requires
        0 <= from <= s.len(),
    ensures
        from <= word_end(s, from) <= s.len(),
        word_end(s, from) < s.len() ==> space_width(s, word_end(s, from)) > 0,
        forall|i: int| from <= i < word_end(s, from) ==> space_width(s, i) == 0,
        from < s.len() && space_width(s, from) == 0 ==> word_end(s, from) > from,
    decreases s.len() - from,
{
    if from >= s.len() || space_width(s, from) > 0 {
    } else {
        lemma_word_end(s, from + 1);
    }
}

/// Cuts `s` at each delimiter, the leftmost first.
pub fn split_on_delimiter(s: &[u8]) -> (pieces: Vec<Vec<u8>>)
    ensures
        rows(pieces@) == split_stages(s@),
        pieces@.len() >= 1,
{
    let mut pieces: Vec<Vec<u8>> = Vec::new();
    let mut start: usize = 0;
    let mut i: usize = 0;
    while i < s.len() && s.len() - i >= 3
        invariant
            start <= i <= s@.len(),
            next_delimiter(s@, start as int) == next_delimiter(s@, i as int),
            rows(pieces@) + split_from(s@, start as int) == split_stages(s@),
        decreases s@.len() - i,
    {
        if s[i] == 0x20u8 && s[i + 1] == 0x7Cu8 && s[i + 2] == 0x20u8 {
            let piece = copy_range(s, start, i);
            proof {
                assert(delimiter_at(s@, i as int));
                assert(next_delimiter(s@, start as int) == i);
                assert(rows(pieces@.push(piece)) =~= rows(pieces@) + seq![piece@]);
                assert(rows(pieces@) + (seq![piece@] + split_from(s@, i + 3))
                    =~= (rows(pieces@) + seq![piece@]) + split_from(s@, i + 3));
            }
            pieces.push(piece);
            i += 3;
            start = i;
        } else {
            i += 1;
        }
    }
    let piece = copy_range(s, start, s.len());
    proof {
        assert(next_delimiter(s@, i as int) == s@.len());
        assert(piece@ =~= s@.skip(start as int));
        assert(rows(pieces@.push(piece)) =~= rows(pieces@) + seq![piece@]);
    }
    pieces.push(piece);
    pieces
}

/// Cuts `s` into its words.
pub fn split_words(s: &[u8]) -> (out: Vec<Vec<u8>>)
    ensures
        rows(out@) == words(s@),
{
    let mut out: Vec<Vec<u8>> = Vec::new();
    let mut i: usize = 0;
    while i < s.len()
        invariant
            i <= s@.len(),
            rows(out@) + words_from(s@, i as int) == words(s@),
        decreases s@.len() - i,
    {
        let w: usize = space_width_at(s, i);
        if w > 0 {
            i += w;
        } else {
            let mut e: usize = i + 1;
            while e < s.len() && space_width_at(s, e) == 0
                invariant
                    i < e <= s@.len(),
                    space_width(s@, i as int) == 0,
                    word_end(s@, i as int) == word_end(s@, e as int),
                decreases s@.len() - e,
            {
                e += 1;
            }
            let word = copy_range(s, i, e);
            proof {
                assert(word_end(s@, e as int) == e);
                assert(rows(out@.push(word)) =~= rows(out@) + seq![word@]);
                assert(rows(out@) + (seq![word@] + words_from(s@, e as int))
                    =~= (rows(out@) + seq![word@]) + words_from(s@, e as int));
            }
            out.push(word);
            i = e;
        }
    }
    proof {
        assert(rows(out@) + words_from(s@, i as int) =~= rows(out@));
    }
    out
}

/// Reads one stage text: the first word is the program, the others are its
/// arguments.
pub fn parse_stage(text: &[u8]) -> (stage: PipelineStage)
    ensures
        stage@ == stage_of(text@),
{
    let mut all = split_words(text);
    if all.len() == 0 {
        let stage = PipelineStage { program: Vec::new(), args: Vec::new() };
        proof {
            assert(rows(all@).len() == 0);
            assert(rows(stage.args@) =~= Seq::<Seq<u8>>::empty());
            assert(stage.program@ =~= Seq::<u8>::empty());
        }
        return stage;
    }
    let ghost before = all@;
    let program = all.remove(0);
    let stage = PipelineStage { program, args: all };
    proof {
        let w = words(text@);
        assert(rows(before)[0] == before[0]@);
        assert(rows(stage.args@) =~= w.subrange(1, w.len() as int)) by {
            assert forall|j: int| 0 <= j < stage.args@.len() implies rows(stage.args@)[j] == w.subrange(1, w.len() as int)[j] by {
                assert(stage.args@[j] == before[j + 1]);
                assert(rows(before)[j + 1] == before[j + 1]@);
            }
        }
    }
    stage
}

/// Reads a request, already free of the white space around it, as a pipeline:
/// one stage for each piece between delimiters, from left to right.
pub fn parse_pipeline(request: &[u8]) -> (pipeline: Vec<PipelineStage>)
    ensures
        stages(pipeline@) == pipeline_of(request@),
        pipeline@.len() >= 1,
{
    let pieces = split_on_delimiter(request);
    let mut pipeline: Vec<PipelineStage> = Vec::new();
    let mut i: usize = 0;
    while i < pieces.len()
        invariant
            i <= pieces@.len(),
            rows(pieces@) == split_stages(request@),
            pipeline@.len() == i,
            forall|j: int| 0 <= j < i ==> (#[trigger] pipeline@[j])@ == stage_of(split_stages(request@)[j]),
        decreases pieces@.len() - i,
    {
        let stage = parse_stage(pieces[i].as_slice());
        proof {
            assert(rows(pieces@)[i as int] == pieces@[i as int]@);
        }
        pipeline.push(stage);
        i += 1;
    }
    proof {
        assert(rows(pieces@).len() == pieces@.len());
        assert(stages(pipeline@) =~= pipeline_of(request@));
    }
    pipeline
}

} // verus!
