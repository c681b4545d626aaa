//! The pipeline driver over a recorded source: feed every source item through
//! the transform stage in order, collect the transformed bytes in an
//! in-memory sink, and stop at the first error.

use crate::stage::{lemma_transforms_to_snoc, transforms_to, Processor, StreamPoll};
use vstd::pervasive::arbitrary;
use vstd::pervasive::unreached;
use vstd::prelude::*;

verus! {

/// One item of a recorded byte source: either a chunk of bytes or the error
/// with which the source failed.
#[derive(Debug, PartialEq, Eq)]
pub enum SourceItem<E> {
    Chunk(Vec<u8>),
    Failed(E),
}

/// Whether every item of the source is a chunk (the source never fails).
pub open spec fn all_chunks<E>(items: Seq<SourceItem<E>>) -> bool {
    forall|i: int| 0 <= i < items.len() ==> items[i] is Chunk
}

/// The chunk carried by a source item (meaningful only for `Chunk` items).
pub open spec fn chunk_of<E>(item: SourceItem<E>) -> Vec<u8> {
    match item {
        SourceItem::Chunk(c) => c,
        SourceItem::Failed(_) => arbitrary(),
    }
}

/// The chunks carried by the items of a source, in order.
pub open spec fn chunks_of<E>(items: Seq<SourceItem<E>>) -> Seq<Vec<u8>> {
    items.map_values(|item: SourceItem<E>| chunk_of(item))
}

/// The concatenation of a sequence of chunks, in order.
pub open spec fn concat_of(outs: Seq<Vec<u8>>) -> Seq<u8>
    decreases outs.len(),
{
    if outs.len() == 0 {
        Seq::empty()
    } else {
        outs[0]@ + concat_of(outs.drop_first())
    }
}

/// Appending one chunk appends exactly its bytes to the concatenation.
pub proof fn lemma_concat_of_snoc(outs: Seq<Vec<u8>>, o: Vec<u8>)
    ensures
        concat_of(outs.push(o)) == concat_of(outs) + o@,
    decreases outs.len(),
{
    assert(concat_of(outs.push(o)) == outs.push(o)[0]@ + concat_of(outs.push(o).drop_first()));
    if outs.len() == 0 {
        let empty_outs = Seq::<Vec<u8>>::empty();
        assert(outs.push(o).drop_first() =~= empty_outs);
        assert(concat_of(empty_outs) == Seq::<u8>::empty());
        assert(outs =~= empty_outs);
        assert(outs.push(o)[0] == o);
        assert(concat_of(outs.push(o)) =~= concat_of(outs) + o@);
    } else {
        lemma_concat_of_snoc(outs.drop_first(), o);
        assert(outs.push(o).drop_first() =~= outs.drop_first().push(o));
        assert(outs.push(o)[0] == outs[0]);
        assert(concat_of(outs) == outs[0]@ + concat_of(outs.drop_first()));
        assert(concat_of(outs.push(o)) =~= concat_of(outs) + o@);
    }
}

/// The run stopped at item `j` with error `e`: the items before `j` are
/// chunks, the transform succeeded on all of them with outputs `outs` and
/// state `sj`, the sink holds exactly the concatenation of those outputs, and
/// item `j` is either a source error carrying `e` itself or a chunk on which
/// the transform failed with a domain error that converts to `e`.
pub open spec fn run_fails_at<State, TErr, E, F, C>(
    items: Seq<SourceItem<E>>,
    s0: State,
    f: F,
    conv: C,
    sink: Seq<u8>,
    e: E,
    j: int,
    sj: State,
    outs: Seq<Vec<u8>>,
) -> bool where
    F: Fn(Vec<u8>, State) -> (State, Result<Vec<u8>, TErr>),
    C: Fn(TErr) -> E,
 {
    &&& 0 <= j < items.len()
    &&& forall|i: int| 0 <= i < j ==> items[i] is Chunk
    &&& transforms_to(f, s0, chunks_of(items.take(j)), sj, outs)
    &&& sink == concat_of(outs)
    &&& match items[j] {
        SourceItem::Chunk(c) => exists|step: (State, Result<Vec<u8>, TErr>)|
            #[trigger] call_ensures(f, (c, sj), step) && (step.1 matches Err(te) && call_ensures(
                conv,
                (te,),
                e,
            )),
        SourceItem::Failed(e0) => e == e0,
    }
}

/// What a finished pipeline run guarantees. On success every item was a
/// chunk, the transform succeeded on each in order, and the sink holds the
/// concatenation of the transformed chunks. On failure the run stopped at
/// the first offending item, the sink holds the outputs of exactly the items
/// before it, and the error is the source's own or the converted domain
/// error of the transform.
pub open spec fn pipeline_post<State, TErr, E, F, C>(
    items: Seq<SourceItem<E>>,
    s0: State,
    f: F,
    conv: C,
    sink: Seq<u8>,
    r: Result<(), E>,
) -> bool where
    F: Fn(Vec<u8>, State) -> (State, Result<Vec<u8>, TErr>),
    C: Fn(TErr) -> E,
 {
    &&& r is Ok ==> all_chunks(items) && exists|s1: State, outs: Seq<Vec<u8>>|
        #[trigger] transforms_to(f, s0, chunks_of(items), s1, outs) && sink == concat_of(outs)
    &&& r is Err ==> exists|j: int, sj: State, outs: Seq<Vec<u8>>|
        #[trigger] run_fails_at(items, s0, f, conv, sink, r->Err_0, j, sj, outs)
}

/// A failed run whose stopping point is known satisfies the driver's
/// postcondition with that error.
proof fn lemma_pipeline_post_err<State, TErr, E, F, C>(
    items: Seq<SourceItem<E>>,
    s0: State,
    f: F,
    conv: C,
    sink: Seq<u8>,
    e: E,
    j: int,
    sj: State,
    outs: Seq<Vec<u8>>,
) where
    F: Fn(Vec<u8>, State) -> (State, Result<Vec<u8>, TErr>),
    C: Fn(TErr) -> E,

    requires
        run_fails_at(items, s0, f, conv, sink, e, j, sj, outs),
    ensures
        pipeline_post(items, s0, f, conv, sink, Err::<(), E>(e)),
{
    let r = Err::<(), E>(e);
    assert(run_fails_at(items, s0, f, conv, sink, r->Err_0, j, sj, outs));
    assert(exists|j2: int, sj2: State, outs2: Seq<Vec<u8>>|
        #[trigger] run_fails_at(items, s0, f, conv, sink, r->Err_0, j2, sj2, outs2));
    assert(pipeline_post(items, s0, f, conv, sink, r));
}

/// Run the whole pipeline over a recorded source: construct a stage over the
/// initial state, feed it every source item in order, collect the
/// transformed bytes, and stop at the first error.
pub fn run_pipeline<State, TErr, E, F, C>(
    source: Vec<SourceItem<E>>,
    initial: State,
    transform: F,
    convert: C,
) -> (r: (Vec<u8>, Result<(), E>)) where
    F: Fn(Vec<u8>, State) -> (State, Result<Vec<u8>, TErr>),
    C: Fn(TErr) -> E,

    requires
        forall|c: Vec<u8>, s: State| #[trigger] call_requires(transform, (c, s)),
        forall|te: TErr| #[trigger] call_requires(convert, (te,)),
    ensures
        pipeline_post(source@, initial, transform, convert, r.0@, r.1),
{
    let ghost items0 = source@;
    let ghost f = transform;
    let ghost conv = convert;
    let ghost s0 = initial;
    let mut proc = Processor::new(initial, transform, convert);
    let mut remaining = source;
    let mut sink: Vec<u8> = Vec::new();
    let ghost mut outs: Seq<Vec<u8>> = Seq::empty();
    let ghost mut k: int = 0;

    while remaining.len() > 0
        invariant
            items0 == source@,
            f == transform,
            conv == convert,
            s0 == initial,
            0 <= k <= items0.len(),
            remaining@ == items0.skip(k),
            forall|i: int| 0 <= i < k ==> items0[i] is Chunk,
            proc.transform_fn() == f,
            proc.convert_fn() == conv,
            !proc.finished(),
            transforms_to(f, s0, chunks_of(items0.take(k)), proc.transform_state(), outs),
            sink@ == concat_of(outs),
            forall|c: Vec<u8>, s: State| #[trigger] call_requires(f, (c, s)),
            forall|te: TErr| #[trigger] call_requires(conv, (te,)),
        decreases remaining@.len(),
    {
        let item = remaining.remove(0);
        proof {
            assert(items0.skip(k).remove(0) =~= items0.skip(k + 1));
            assert(item == items0[k]);
        }
        let ghost pre_state = proc.transform_state();
        match item {
            SourceItem::Chunk(c) => {
                let ghost c0 = c;
                let (p2, out) = proc.poll_next(StreamPoll::Chunk(c));
                proc = p2;
                match out {
                    StreamPoll::Chunk(mut o) => {
                        let ghost o0 = o;
                        proof {
                            let step = choose|step: (State, Result<Vec<u8>, TErr>)|
                                #[trigger] call_ensures(f, (c0, pre_state), step)
                                    && proc.transform_state() == step.0 && match step.1 {
                                    Ok(o2) => out == StreamPoll::<E>::Chunk(o2),
                                    Err(te) => out matches StreamPoll::Failed(ev) && call_ensures(
                                        conv,
                                        (te,),
                                        ev,
                                    ),
                                };
                            assert(step.1 == Ok::<Vec<u8>, TErr>(o0));
                            lemma_transforms_to_snoc(
                                f,
                                s0,
                                chunks_of(items0.take(k)),
                                pre_state,
                                outs,
                                c0,
                                step.0,
                                o0,
                            );
                            assert(chunks_of(items0.take(k + 1)) =~= chunks_of(
                                items0.take(k),
                            ).push(c0));
                            lemma_concat_of_snoc(outs, o0);
                        }
                        sink.append(&mut o);
                        proof {
                            outs = outs.push(o0);
                            k = k + 1;
                        }
                    },
                    StreamPoll::Failed(e) => {
                        proof {
                            let step = choose|step: (State, Result<Vec<u8>, TErr>)|
                                #[trigger] call_ensures(f, (c0, pre_state), step)
                                    && proc.transform_state() == step.0 && match step.1 {
                                    Ok(o2) => out == StreamPoll::<E>::Chunk(o2),
                                    Err(te) => out matches StreamPoll::Failed(ev) && call_ensures(
                                        conv,
                                        (te,),
                                        ev,
                                    ),
                                };
                            assert(run_fails_at(items0, s0, f, conv, sink@, e, k, pre_state, outs));
                            lemma_pipeline_post_err(
                                items0,
                                s0,
                                f,
                                conv,
                                sink@,
                                e,
                                k,
                                pre_state,
                                outs,
                            );
                            assert(pipeline_post(
                                source@,
                                initial,
                                transform,
                                convert,
                                sink@,
                                Err::<(), E>(e),
                            ));
                        }
                        return (sink, Err(e));
                    },
                    StreamPoll::NotReady => unreached(),
                    StreamPoll::Exhausted => unreached(),
                }
            },
            SourceItem::Failed(e) => {
                let (p2, out) = proc.poll_next(StreamPoll::Failed(e));
                proc = p2;
                match out {
                    StreamPoll::Failed(e2) => {
                        proof {
                            assert(run_fails_at(
                                items0,
                                s0,
                                f,
                                conv,
                                sink@,
                                e2,
                                k,
                                pre_state,
                                outs,
                            ));
                            lemma_pipeline_post_err(
                                items0,
                                s0,
                                f,
                                conv,
                                sink@,
                                e2,
                                k,
                                pre_state,
                                outs,
                            );
                            assert(pipeline_post(
                                source@,
                                initial,
                                transform,
                                convert,
                                sink@,
                                Err::<(), E>(e2),
                            ));
                        }
                        return (sink, Err(e2));
                    },
                    StreamPoll::NotReady => unreached(),
                    StreamPoll::Exhausted => unreached(),
                    StreamPoll::Chunk(_) => unreached(),
                }
            },
        }
    }
    proof {
        assert(items0.take(k) =~= items0);
    }
    let (p2, last) = proc.poll_next(StreamPoll::Exhausted);
    proof {
        assert(last is Exhausted);
        assert(transforms_to(f, s0, chunks_of(items0), p2.transform_state(), outs));
        assert(sink@ == concat_of(outs));
    }
    (sink, Ok(()))
}

} // verus!
