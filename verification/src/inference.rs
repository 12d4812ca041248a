//! Shapes and buffers of the inference pipeline (melspectrogram →
//! embedding → one classifier per wakeword).
//!
//! Running the ONNX models is the runtime's part; here live the buffer
//! sizes they are fed with, the bounded history buffers between the
//! stages, and the checks on model shapes and outputs.

use vstd::prelude::*;

use crate::framing::FRAME_SAMPLES;

verus! {

/// Mel bins per melspectrogram frame.
pub const MEL_BINS: usize = 32;
/// Samples per mel hop (10 ms at 16 kHz).
pub const MEL_HOP_SAMPLES: usize = 160;
/// Audio kept from the previous frame for the melspectrogram window (30 ms).
pub const MEL_OVERLAP_SAMPLES: usize = 480;
/// Raw samples the melspectrogram model sees per frame.
pub const RAW_BUFFER_SAMPLES: usize = 1760;
/// Mel frames kept (about ten seconds).
pub const MEL_BUFFER_FRAMES: usize = 970;
/// Width of one embedding.
pub const EMBEDDING_DIM: usize = 96;
/// Mel frames feeding the embedding model.
pub const EMBEDDING_WINDOW: usize = 76;
/// Embeddings feeding each classifier.
pub const CLASSIFIER_WINDOW: usize = 16;

/// The buffer sizes fit together: the overlap is three hops, a frame plus
/// the overlap fills the raw buffer, and the mel history holds at least
/// one embedding window.
pub proof fn law_constants_consistent()
    ensures
        MEL_HOP_SAMPLES * 3 == MEL_OVERLAP_SAMPLES,
        FRAME_SAMPLES + MEL_OVERLAP_SAMPLES == RAW_BUFFER_SAMPLES,
        EMBEDDING_WINDOW == 76,
        EMBEDDING_WINDOW <= MEL_BUFFER_FRAMES,
{
}

/// A model dimension matches `expected` when it is symbolic (`<= 0`, such
/// as a variable batch size) or equal to it.
pub fn dim_matches(dim: i64, expected: i64) -> (b: bool)
    ensures
        b == (dim <= 0 || dim == expected),
{
    dim <= 0 || dim == expected
}

/// A classifier takes `(N, 16, 96)` and gives `(N, 1)`.
pub open spec fn classifier_shape_ok(input: Seq<i64>, output: Seq<i64>) -> bool {
    &&& input.len() == 3
    &&& (input[1] <= 0 || input[1] == CLASSIFIER_WINDOW as i64)
    &&& (input[2] <= 0 || input[2] == EMBEDDING_DIM as i64)
    &&& output.len() == 2
    &&& (output[1] <= 0 || output[1] == 1)
}

/// Check the input and output dimensions of a classifier model.
pub fn check_classifier_shape(input: &Vec<i64>, output: &Vec<i64>) -> (b: bool)
    ensures
        b == classifier_shape_ok(input@, output@),
{
    let in_ok = input.len() == 3 && dim_matches(input[1], CLASSIFIER_WINDOW as i64)
        && dim_matches(input[2], EMBEDDING_DIM as i64);
    let out_ok = output.len() == 2 && dim_matches(output[1], 1);
    in_ok && out_ok
}

/// Mel frames in a melspectrogram output of `total` values; none when
/// `total` is not a whole number of frames.
pub fn mel_frame_count(total: usize) -> (r: Option<usize>)
    ensures
        total % MEL_BINS == 0 ==> r == Some(total / MEL_BINS),
        total % MEL_BINS != 0 ==> r is None,
{
    if total % MEL_BINS != 0 {
        None
    } else {
        Some(total / MEL_BINS)
    }
}

/// Where the embedding window starts in a mel history of `mel_len`
/// frames: the last [`EMBEDDING_WINDOW`] frames; none when there are fewer.
pub fn embedding_start(mel_len: usize) -> (r: Option<usize>)
    ensures
        mel_len >= EMBEDDING_WINDOW ==> r == Some((mel_len - EMBEDDING_WINDOW) as usize),
        mel_len < EMBEDDING_WINDOW ==> r is None,
{
    if mel_len < EMBEDDING_WINDOW {
        None
    } else {
        Some(mel_len - EMBEDDING_WINDOW)
    }
}

/// The last `cap` items of `s` (all of them when there are fewer).
pub open spec fn keep_last<T>(s: Seq<T>, cap: nat) -> Seq<T> {
    if s.len() <= cap {
        s
    } else {
        s.subrange(s.len() - cap, s.len() as int)
    }
}

/// A bounded history: holds the most recent `cap` items pushed, oldest
/// first.
#[derive(Debug)]
pub struct History<T> {
    cap: usize,
    items: Vec<T>,
}

impl<T> History<T> {
    pub closed spec fn cap_spec(&self) -> nat {
        self.cap as nat
    }

    pub closed spec fn items_spec(&self) -> Seq<T> {
        self.items@
    }

    pub closed spec fn wf(&self) -> bool {
        self.cap > 0 && self.items@.len() <= self.cap
    }

    /// An empty history of capacity `cap`.
    pub fn new(cap: usize) -> (h: Self)
        requires
            cap > 0,
        ensures
            h.wf(),
            h.cap_spec() == cap,
            h.items_spec() == Seq::<T>::empty(),
    {
        History { cap, items: Vec::new() }
    }

    /// Push `x`, dropping the oldest item when full.
    pub fn push(&mut self, x: T)
        requires
            old(self).wf(),
        ensures
            final(self).wf(),
            final(self).cap_spec() == old(self).cap_spec(),
            final(self).items_spec() == keep_last(old(self).items_spec().push(x), old(self).cap_spec()),
    {
        let ghost before = self.items@;
        if self.items.len() == self.cap {
            self.items.remove(0);
        }
        self.items.push(x);
        assert(self.items@ =~= keep_last(before.push(x), self.cap as nat));
    }

    /// Number of items held.
    pub fn len(&self) -> (n: usize)
        ensures
            n == self.items_spec().len(),
    {
        self.items.len()
    }

    /// The items, oldest first.
    pub fn items(&self) -> (v: &Vec<T>)
        ensures
            v@ == self.items_spec(),
    {
        &self.items
    }
}

/// After any pushes a history holds the last `cap` items of everything it
/// ever held, oldest first.
pub proof fn law_history_keeps_last<T>(start: Seq<T>, xs: Seq<T>, cap: nat)
    requires
        start.len() <= cap,
        cap > 0,
    ensures
        pushed_all(start, xs, cap) == keep_last(start + xs, cap),
    decreases xs.len(),
{
    if xs.len() > 0 {
        let next = keep_last(start.push(xs[0]), cap);
        law_history_keeps_last(next, xs.drop_first(), cap);
        assert(start + xs =~= start.push(xs[0]) + xs.drop_first());
        lemma_keep_last_append(start.push(xs[0]), xs.drop_first(), cap);
    } else {
        assert(start + xs =~= start);
    }
}

/// The contents after pushing each of `xs` in turn.
pub open spec fn pushed_all<T>(s: Seq<T>, xs: Seq<T>, cap: nat) -> Seq<T>
    decreases xs.len(),
{
    if xs.len() == 0 {
        s
    } else {
        pushed_all(keep_last(s.push(xs[0]), cap), xs.drop_first(), cap)
    }
}

proof fn lemma_keep_last_append<T>(s: Seq<T>, xs: Seq<T>, cap: nat)
    ensures
        keep_last(keep_last(s, cap) + xs, cap) == keep_last(s + xs, cap),
{
    let a = keep_last(s, cap) + xs;
    let b = s + xs;
    if s.len() > cap {
        assert(keep_last(a, cap) =~= keep_last(b, cap));
    }
}

} // verus!
