//! Laws of the pipeline: properties that hold of every run, proved from the
//! driver's postcondition and the transform relation alone.

use crate::pipeline::{
    all_chunks, chunk_of, chunks_of, concat_of, pipeline_post, run_fails_at, SourceItem,
};
use crate::stage::transforms_to;
use vstd::prelude::*;

verus! {

/// The transform never returns a domain error.
pub open spec fn always_succeeds<State, TErr, F>(f: F) -> bool where F: Fn(
    Vec<u8>,
    State,
) -> (State, Result<Vec<u8>, TErr>) {
    forall|c: Vec<u8>, s: State, step: (State, Result<Vec<u8>, TErr>)|
        #[trigger] call_ensures(f, (c, s), step) ==> step.1 is Ok
}

/// The transform hands every chunk through unchanged, byte for byte,
/// whatever it does to its state.
pub open spec fn identity_transform<State, TErr, F>(f: F) -> bool where F: Fn(
    Vec<u8>,
    State,
) -> (State, Result<Vec<u8>, TErr>) {
    forall|c: Vec<u8>, s: State, step: (State, Result<Vec<u8>, TErr>)|
        #[trigger] call_ensures(f, (c, s), step) ==> step.1 is Ok && step.1->Ok_0@ == c@
}

/// The transform counts its invocations into its state.
pub open spec fn increments_state<TErr, F>(f: F) -> bool where F: Fn(Vec<u8>, u64) -> (
    u64,
    Result<Vec<u8>, TErr>,
) {
    forall|c: Vec<u8>, s: u64, step: (u64, Result<Vec<u8>, TErr>)|
        #[trigger] call_ensures(f, (c, s), step) ==> step.0 == s + 1
}

/// The transform counts its invocations into its state and emits the running
/// count as a single output byte (meaningful while the count stays below
/// 256).
pub open spec fn counting_transform<TErr, F>(f: F) -> bool where F: Fn(Vec<u8>, u64) -> (
    u64,
    Result<Vec<u8>, TErr>,
) {
    increments_state(f) && forall|c: Vec<u8>, s: u64, step: (u64, Result<Vec<u8>, TErr>)|
        #[trigger] call_ensures(f, (c, s), step) ==> (s < 255 ==> step.1 is Ok
            && step.1->Ok_0@ == seq![((s + 1) as u8)])
}

/// The transform counts its invocations into its state and fails exactly on
/// its `k`-th invocation (counting from one).
pub open spec fn fails_on_kth<TErr, F>(f: F, k: int) -> bool where F: Fn(Vec<u8>, u64) -> (
    u64,
    Result<Vec<u8>, TErr>,
) {
    increments_state(f) && forall|c: Vec<u8>, s: u64, step: (u64, Result<Vec<u8>, TErr>)|
        #[trigger] call_ensures(f, (c, s), step) ==> (step.1 is Err <==> s + 1 == k)
}

/// Under an identity transform the concatenation of the outputs is the
/// concatenation of the input chunks.
pub proof fn lemma_identity_concat<State, TErr, F>(
    f: F,
    s0: State,
    chunks: Seq<Vec<u8>>,
    s1: State,
    outs: Seq<Vec<u8>>,
) where F: Fn(Vec<u8>, State) -> (State, Result<Vec<u8>, TErr>)
    requires
        identity_transform::<State, TErr, F>(f),
        transforms_to(f, s0, chunks, s1, outs),
    ensures
        concat_of(outs) == concat_of(chunks),
    decreases chunks.len(),
{
    if chunks.len() == 0 {
        assert(concat_of(outs) =~= concat_of(chunks));
    } else {
        let mid = choose|mid: State|
            #[trigger] call_ensures(f, (chunks[0], s0), (mid, Ok::<Vec<u8>, TErr>(outs[0])))
                && transforms_to(f, mid, chunks.drop_first(), s1, outs.drop_first());
        lemma_identity_concat(f, mid, chunks.drop_first(), s1, outs.drop_first());
        assert(outs[0]@ == chunks[0]@);
        assert(concat_of(outs) == outs[0]@ + concat_of(outs.drop_first()));
        assert(concat_of(chunks) == chunks[0]@ + concat_of(chunks.drop_first()));
        assert(concat_of(outs) =~= concat_of(chunks));
    }
}

/// The `i`-th invocation of a run that starts from state `s0` is a call on
/// the `i`-th chunk in state `s0 + i` that succeeds with the `i`-th output.
pub open spec fn kth_call_ok<TErr, F>(
    f: F,
    s0: u64,
    chunks: Seq<Vec<u8>>,
    outs: Seq<Vec<u8>>,
    i: int,
) -> bool where F: Fn(Vec<u8>, u64) -> (u64, Result<Vec<u8>, TErr>) {
    exists|step: (u64, Result<Vec<u8>, TErr>)|
        #[trigger] call_ensures(f, (chunks[i], ((s0 + i) as u64)), step) && step.1 == Ok::<
            Vec<u8>,
            TErr,
        >(outs[i])
}

/// Under an invocation-counting transform, a successful run of `n` chunks
/// from state `s0` ends in state `s0 + n`, and its `i`-th invocation was a
/// successful call on the `i`-th chunk in state `s0 + i`.
pub proof fn lemma_increments_run<TErr, F>(
    f: F,
    s0: u64,
    chunks: Seq<Vec<u8>>,
    s1: u64,
    outs: Seq<Vec<u8>>,
) where F: Fn(Vec<u8>, u64) -> (u64, Result<Vec<u8>, TErr>)
    requires
        increments_state(f),
        transforms_to(f, s0, chunks, s1, outs),
    ensures
        s1 == s0 + chunks.len(),
        forall|i: int| 0 <= i < chunks.len() ==> #[trigger] kth_call_ok(f, s0, chunks, outs, i),
    decreases chunks.len(),
{
    if chunks.len() > 0 {
        let mid = choose|mid: u64|
            #[trigger] call_ensures(f, (chunks[0], s0), (mid, Ok::<Vec<u8>, TErr>(outs[0])))
                && transforms_to(f, mid, chunks.drop_first(), s1, outs.drop_first());
        assert(mid == s0 + 1);
        lemma_increments_run(f, mid, chunks.drop_first(), s1, outs.drop_first());
        assert forall|i: int| 0 <= i < chunks.len() implies #[trigger] kth_call_ok(
            f,
            s0,
            chunks,
            outs,
            i,
        ) by {
            if i == 0 {
                assert(call_ensures(f, (chunks[0], ((s0 + 0) as u64)), (mid, Ok::<
                    Vec<u8>,
                    TErr,
                >(outs[0]))));
            } else {
                assert(kth_call_ok(f, mid, chunks.drop_first(), outs.drop_first(), i - 1));
                assert(chunks.drop_first()[i - 1] == chunks[i]);
                assert(outs.drop_first()[i - 1] == outs[i]);
                assert(((mid + (i - 1)) as u64) == ((s0 + i) as u64));
            }
        }
    }
}

/// Under a counting transform the outputs of a successful run are the bytes
/// `s0 + 1, s0 + 2, ...`, one byte per chunk, in order.
pub proof fn lemma_counting_concat<TErr, F>(
    f: F,
    s0: u64,
    chunks: Seq<Vec<u8>>,
    s1: u64,
    outs: Seq<Vec<u8>>,
) where F: Fn(Vec<u8>, u64) -> (u64, Result<Vec<u8>, TErr>)
    requires
        counting_transform(f),
        transforms_to(f, s0, chunks, s1, outs),
        s0 + chunks.len() <= 255,
    ensures
        concat_of(outs) == Seq::new(chunks.len(), |i: int| ((s0 + i + 1) as u8)),
    decreases chunks.len(),
{
    if chunks.len() == 0 {
        assert(concat_of(outs) =~= Seq::new(chunks.len(), |i: int| ((s0 + i + 1) as u8)));
    } else {
        let mid = choose|mid: u64|
            #[trigger] call_ensures(f, (chunks[0], s0), (mid, Ok::<Vec<u8>, TErr>(outs[0])))
                && transforms_to(f, mid, chunks.drop_first(), s1, outs.drop_first());
        assert(mid == s0 + 1);
        assert(outs[0]@ == seq![((s0 + 1) as u8)]);
        lemma_counting_concat(f, mid, chunks.drop_first(), s1, outs.drop_first());
        assert(concat_of(outs) == outs[0]@ + concat_of(outs.drop_first()));
        assert(concat_of(outs) =~= Seq::new(chunks.len(), |i: int| ((s0 + i + 1) as u8)));
    }
}

/// Order preservation: if the transform always succeeds and the source never
/// fails, the run succeeds, and the sink receives the concatenation of the
/// transformed chunks, one output per source chunk, in source order.
pub proof fn lemma_order_preservation<State, TErr, E, F, C>(
    items: Seq<SourceItem<E>>,
    s0: State,
    f: F,
    conv: C,
    sink: Seq<u8>,
    r: Result<(), E>,
) where
    F: Fn(Vec<u8>, State) -> (State, Result<Vec<u8>, TErr>),
    C: Fn(TErr) -> E,

    requires
        pipeline_post(items, s0, f, conv, sink, r),
        all_chunks(items),
        always_succeeds::<State, TErr, F>(f),
    ensures
        r is Ok,
        exists|s1: State, outs: Seq<Vec<u8>>|
            #[trigger] transforms_to(f, s0, chunks_of(items), s1, outs) && sink == concat_of(outs),
{
    if r is Err {
        let (j, sj, outs) = choose|j: int, sj: State, outs: Seq<Vec<u8>>|
            #[trigger] run_fails_at(items, s0, f, conv, sink, r->Err_0, j, sj, outs);
        assert(items[j] is Chunk);
        let step = choose|step: (State, Result<Vec<u8>, TErr>)|
            #[trigger] call_ensures(f, (chunk_of(items[j]), sj), step) && step.1 is Err;
        assert(false);
    }
}

/// Fail-fast on a source error: if the source yields `m` good chunks and
/// then fails, and the transform itself never fails, the run reports the
/// source's error and the sink received the output of exactly those `m`
/// chunks.
pub proof fn lemma_fail_fast_on_source_error<State, TErr, E, F, C>(
    items: Seq<SourceItem<E>>,
    s0: State,
    f: F,
    conv: C,
    sink: Seq<u8>,
    r: Result<(), E>,
    m: int,
) where
    F: Fn(Vec<u8>, State) -> (State, Result<Vec<u8>, TErr>),
    C: Fn(TErr) -> E,

    requires
        pipeline_post(items, s0, f, conv, sink, r),
        always_succeeds::<State, TErr, F>(f),
        0 <= m < items.len(),
        forall|i: int| 0 <= i < m ==> items[i] is Chunk,
        items[m] is Failed,
    ensures
        r is Err,
        r->Err_0 == items[m]->Failed_0,
        exists|sj: State, outs: Seq<Vec<u8>>|
            #[trigger] transforms_to(f, s0, chunks_of(items.take(m)), sj, outs) && sink
                == concat_of(outs),
{
    if r is Ok {
        assert(items[m] is Chunk);
        assert(false);
    }
    let (j, sj, outs) = choose|j: int, sj: State, outs: Seq<Vec<u8>>|
        #[trigger] run_fails_at(items, s0, f, conv, sink, r->Err_0, j, sj, outs);
    if j != m {
        if j < m {
            assert(items[j] is Chunk);
            let step = choose|step: (State, Result<Vec<u8>, TErr>)|
                #[trigger] call_ensures(f, (chunk_of(items[j]), sj), step) && step.1 is Err;
            assert(false);
        } else {
            assert(items[m] is Chunk);
            assert(false);
        }
    }
    assert(transforms_to(f, s0, chunks_of(items.take(m)), sj, outs) && sink == concat_of(outs));
}

/// Fail-fast on a transform error: for a transform that fails exactly on its
/// `k`-th invocation, a run over a source of at least `k` chunks fails, and
/// the sink received the output of exactly the first `k - 1` chunks.
pub proof fn lemma_fail_fast_on_transform_error<TErr, E, F, C>(
    items: Seq<SourceItem<E>>,
    f: F,
    conv: C,
    sink: Seq<u8>,
    r: Result<(), E>,
    k: int,
) where
    F: Fn(Vec<u8>, u64) -> (u64, Result<Vec<u8>, TErr>),
    C: Fn(TErr) -> E,

    requires
        pipeline_post(items, 0u64, f, conv, sink, r),
        all_chunks(items),
        fails_on_kth(f, k),
        1 <= k <= items.len(),
    ensures
        r is Err,
        exists|outs: Seq<Vec<u8>>|
            #[trigger] transforms_to(f, 0u64, chunks_of(items.take(k - 1)), ((k - 1) as u64), outs)
                && sink == concat_of(outs),
{
    if r is Ok {
        let (s1, outs) = choose|s1: u64, outs: Seq<Vec<u8>>|
            #[trigger] transforms_to(f, 0u64, chunks_of(items), s1, outs) && sink == concat_of(
                outs,
            );
        lemma_increments_run(f, 0u64, chunks_of(items), s1, outs);
        assert(kth_call_ok(f, 0u64, chunks_of(items), outs, k - 1));
        let step = choose|step: (u64, Result<Vec<u8>, TErr>)|
            #[trigger] call_ensures(f, (chunks_of(items)[k - 1], ((0u64 + (k - 1)) as u64)), step)
                && step.1 == Ok::<Vec<u8>, TErr>(outs[k - 1]);
        assert(step.1 is Err);
        assert(false);
    }
    let (j, sj, outs) = choose|j: int, sj: u64, outs: Seq<Vec<u8>>|
        #[trigger] run_fails_at(items, 0u64, f, conv, sink, r->Err_0, j, sj, outs);
    lemma_increments_run(f, 0u64, chunks_of(items.take(j)), sj, outs);
    assert(sj == j);
    assert(items[j] is Chunk);
    let step = choose|step: (u64, Result<Vec<u8>, TErr>)|
        #[trigger] call_ensures(f, (chunk_of(items[j]), sj), step) && step.1 is Err;
    assert(j == k - 1);
    assert(transforms_to(f, 0u64, chunks_of(items.take(k - 1)), ((k - 1) as u64), outs) && sink
        == concat_of(outs));
}

/// State threading: for a transform that counts its invocations into its
/// state and emits the running count, a source of `n` chunks yields exactly
/// the bytes `1, 2, ..., n` in the sink.
pub proof fn lemma_state_threading<TErr, E, F, C>(
    items: Seq<SourceItem<E>>,
    f: F,
    conv: C,
    sink: Seq<u8>,
    r: Result<(), E>,
) where
    F: Fn(Vec<u8>, u64) -> (u64, Result<Vec<u8>, TErr>),
    C: Fn(TErr) -> E,

    requires
        pipeline_post(items, 0u64, f, conv, sink, r),
        all_chunks(items),
        counting_transform(f),
        items.len() <= 255,
    ensures
        r is Ok,
        sink == Seq::new(items.len(), |i: int| ((i + 1) as u8)),
{
    if r is Err {
        let (j, sj, outs) = choose|j: int, sj: u64, outs: Seq<Vec<u8>>|
            #[trigger] run_fails_at(items, 0u64, f, conv, sink, r->Err_0, j, sj, outs);
        lemma_increments_run(f, 0u64, chunks_of(items.take(j)), sj, outs);
        assert(sj == j);
        assert(items[j] is Chunk);
        let step = choose|step: (u64, Result<Vec<u8>, TErr>)|
            #[trigger] call_ensures(f, (chunk_of(items[j]), sj), step) && step.1 is Err;
        assert(false);
    }
    let (s1, outs) = choose|s1: u64, outs: Seq<Vec<u8>>|
        #[trigger] transforms_to(f, 0u64, chunks_of(items), s1, outs) && sink == concat_of(outs);
    lemma_counting_concat(f, 0u64, chunks_of(items), s1, outs);
    assert(Seq::new(chunks_of(items).len(), |i: int| ((0u64 + i + 1) as u8)) =~= Seq::new(
        items.len(),
        |i: int| ((i + 1) as u8),
    ));
}

/// A source that ends immediately with zero chunks yields a successful run
/// with zero bytes written.
pub proof fn lemma_empty_input<State, TErr, E, F, C>(
    items: Seq<SourceItem<E>>,
    s0: State,
    f: F,
    conv: C,
    sink: Seq<u8>,
    r: Result<(), E>,
) where
    F: Fn(Vec<u8>, State) -> (State, Result<Vec<u8>, TErr>),
    C: Fn(TErr) -> E,

    requires
        pipeline_post(items, s0, f, conv, sink, r),
        items.len() == 0,
    ensures
        r is Ok,
        sink == Seq::<u8>::empty(),
{
    if r is Err {
        let (j, sj, outs) = choose|j: int, sj: State, outs: Seq<Vec<u8>>|
            #[trigger] run_fails_at(items, s0, f, conv, sink, r->Err_0, j, sj, outs);
        assert(false);
    }
    let (s1, outs) = choose|s1: State, outs: Seq<Vec<u8>>|
        #[trigger] transforms_to(f, s0, chunks_of(items), s1, outs) && sink == concat_of(outs);
    assert(outs.len() == 0);
    assert(concat_of(outs) == Seq::<u8>::empty());
}

/// Chunk-size independence: under a transform that hands every chunk through
/// unchanged, two sources carrying the same bytes split into chunks in any
/// two ways yield byte-identical sinks.
pub proof fn lemma_chunk_size_independence<State, TErr, E, F, C>(
    items_a: Seq<SourceItem<E>>,
    items_b: Seq<SourceItem<E>>,
    s0: State,
    f: F,
    conv: C,
    sink_a: Seq<u8>,
    sink_b: Seq<u8>,
    r_a: Result<(), E>,
    r_b: Result<(), E>,
) where
    F: Fn(Vec<u8>, State) -> (State, Result<Vec<u8>, TErr>),
    C: Fn(TErr) -> E,

    requires
        pipeline_post(items_a, s0, f, conv, sink_a, r_a),
        pipeline_post(items_b, s0, f, conv, sink_b, r_b),
        all_chunks(items_a),
        all_chunks(items_b),
        identity_transform::<State, TErr, F>(f),
        concat_of(chunks_of(items_a)) == concat_of(chunks_of(items_b)),
    ensures
        r_a is Ok,
        r_b is Ok,
        sink_a == sink_b,
{
    assert(always_succeeds::<State, TErr, F>(f));
    lemma_order_preservation(items_a, s0, f, conv, sink_a, r_a);
    lemma_order_preservation(items_b, s0, f, conv, sink_b, r_b);
    let (s1a, outs_a) = choose|s1: State, outs: Seq<Vec<u8>>|
        #[trigger] transforms_to(f, s0, chunks_of(items_a), s1, outs) && sink_a == concat_of(outs);
    let (s1b, outs_b) = choose|s1: State, outs: Seq<Vec<u8>>|
        #[trigger] transforms_to(f, s0, chunks_of(items_b), s1, outs) && sink_b == concat_of(outs);
    lemma_identity_concat(f, s0, chunks_of(items_a), s1a, outs_a);
    lemma_identity_concat(f, s0, chunks_of(items_b), s1b, outs_b);
}

} // verus!
