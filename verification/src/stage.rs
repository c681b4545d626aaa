//! The chunked transform stage: a pull-based state machine that maps one
//! upstream poll result to one downstream poll result, invoking the transform
//! function on each chunk and threading the transform state through
//! successive invocations.

use core::marker::PhantomData;
use vstd::prelude::*;

verus! {

/// One poll of a lazy sequence of byte-chunk results: the sequence is not
/// ready yet, is exhausted, yields a chunk, or yields an error.
#[derive(Debug, PartialEq, Eq)]
pub enum StreamPoll<E> {
    NotReady,
    Exhausted,
    Chunk(Vec<u8>),
    Failed(E),
}

/// The chunk-by-chunk transform relation: starting from state `s0`, the
/// transform function `f`, applied to each chunk of `chunks` in order while
/// threading the state, can succeed on every chunk, producing the outputs
/// `outs` (one per chunk, in the same order) and the final state `s1`.
pub open spec fn transforms_to<State, TErr, F>(
    f: F,
    s0: State,
    chunks: Seq<Vec<u8>>,
    s1: State,
    outs: Seq<Vec<u8>>,
) -> bool where F: Fn(Vec<u8>, State) -> (State, Result<Vec<u8>, TErr>)
    decreases chunks.len(),
{
    if chunks.len() == 0 {
        s1 == s0 && outs.len() == 0
    } else {
        outs.len() == chunks.len() && exists|mid: State|
            #[trigger] call_ensures(f, (chunks[0], s0), (mid, Ok(outs[0])))
                && transforms_to(f, mid, chunks.drop_first(), s1, outs.drop_first())
    }
}

/// Extending a successful run by one more successful invocation extends the
/// transform relation by one chunk and one output.
pub proof fn lemma_transforms_to_snoc<State, TErr, F>(
    f: F,
    s0: State,
    chunks: Seq<Vec<u8>>,
    s1: State,
    outs: Seq<Vec<u8>>,
    c: Vec<u8>,
    s2: State,
    o: Vec<u8>,
) where F: Fn(Vec<u8>, State) -> (State, Result<Vec<u8>, TErr>)
    requires
        transforms_to(f, s0, chunks, s1, outs),
        call_ensures(f, (c, s1), (s2, Ok::<Vec<u8>, TErr>(o))),
    ensures
        transforms_to(f, s0, chunks.push(c), s2, outs.push(o)),
    decreases chunks.len(),
{
    if chunks.len() == 0 {
        assert(chunks.push(c)[0] == c);
        assert(outs.push(o)[0] == o);
        assert(chunks.push(c).drop_first() =~= Seq::<Vec<u8>>::empty());
        assert(outs.push(o).drop_first() =~= Seq::<Vec<u8>>::empty());
        assert(exists|mid: State|
            #[trigger] call_ensures(f, (chunks.push(c)[0], s0), (mid, Ok::<Vec<u8>, TErr>(outs.push(o)[0])))
                && transforms_to(f, mid, chunks.push(c).drop_first(), s2, outs.push(o).drop_first())) by {
            assert(call_ensures(f, (chunks.push(c)[0], s0), (s2, Ok::<Vec<u8>, TErr>(outs.push(o)[0])))
                && transforms_to(f, s2, chunks.push(c).drop_first(), s2, outs.push(o).drop_first()));
        }
    } else {
        let mid = choose|mid: State|
            #[trigger] call_ensures(f, (chunks[0], s0), (mid, Ok::<Vec<u8>, TErr>(outs[0])))
                && transforms_to(f, mid, chunks.drop_first(), s1, outs.drop_first());
        lemma_transforms_to_snoc(f, mid, chunks.drop_first(), s1, outs.drop_first(), c, s2, o);
        assert(chunks.push(c).drop_first() =~= chunks.drop_first().push(c));
        assert(outs.push(o).drop_first() =~= outs.drop_first().push(o));
        assert(chunks.push(c)[0] == chunks[0]);
        assert(outs.push(o)[0] == outs[0]);
        assert(exists|mid2: State|
            #[trigger] call_ensures(f, (chunks.push(c)[0], s0), (mid2, Ok::<Vec<u8>, TErr>(outs.push(o)[0])))
                && transforms_to(f, mid2, chunks.push(c).drop_first(), s2, outs.push(o).drop_first())) by {
            assert(call_ensures(f, (chunks.push(c)[0], s0), (mid, Ok::<Vec<u8>, TErr>(outs.push(o)[0])))
                && transforms_to(f, mid, chunks.push(c).drop_first(), s2, outs.push(o).drop_first()));
        }
    }
}

/// The stateful transform stage. It owns the transform state (initialized at
/// construction), the transform function, and the error-conversion function,
/// and it remembers whether the upstream sequence has been exhausted.
///
/// `TErr` is the transform's domain error type; `E` is the pipeline's uniform
/// error type, which source errors already carry and into which domain errors
/// are converted by `convert`.
pub struct Processor<State, TErr, E, F, C> {
    state: State,
    finished: bool,
    transform: F,
    convert: C,
    marker: PhantomData<(TErr, E)>,
}

impl<State, TErr, E, F, C> Processor<State, TErr, E, F, C> {
    /// The transform state currently held by the stage.
    pub closed spec fn transform_state(self) -> State {
        self.state
    }

    /// Whether the stage has seen the upstream sequence end; once true, every
    /// further poll reports exhaustion.
    pub closed spec fn finished(self) -> bool {
        self.finished
    }

    /// The transform function held by the stage.
    pub closed spec fn transform_fn(self) -> F {
        self.transform
    }

    /// The error-conversion function held by the stage.
    pub closed spec fn convert_fn(self) -> C {
        self.convert
    }
}

impl<State, TErr, E, F, C> Processor<State, TErr, E, F, C> where
    F: Fn(Vec<u8>, State) -> (State, Result<Vec<u8>, TErr>),
    C: Fn(TErr) -> E,
 {
    /// Construct a stage over a fresh transform state.
    pub fn new(initial: State, transform: F, convert: C) -> (p: Self)
        ensures
            p.transform_state() == initial,
            !p.finished(),
            p.transform_fn() == transform,
            p.convert_fn() == convert,
    {
        Processor { state: initial, finished: false, transform, convert, marker: PhantomData }
    }

    /// Whether the stage has become terminal.
    pub fn is_finished(&self) -> (b: bool)
        ensures
            b == self.finished(),
    {
        self.finished
    }

    /// Answer one downstream poll, given what one upstream poll returned.
    ///
    /// A stage that has seen the upstream end reports exhaustion without
    /// consulting anything else. Otherwise: "not ready" and errors pass
    /// through unchanged without touching the state; the end of the upstream
    /// makes the stage terminal; and a chunk is handed to the transform
    /// function together with the current state, whose result becomes the
    /// new state, while the transformed chunk (or the converted domain
    /// error) is yielded downstream.
    pub fn poll_next(self, upstream: StreamPoll<E>) -> (r: (Self, StreamPoll<E>))
        requires
            forall|c: Vec<u8>, s: State| #[trigger] call_requires(self.transform_fn(), (c, s)),
            forall|te: TErr| call_requires(self.convert_fn(), (te,)),
        ensures
            r.0.transform_fn() == self.transform_fn(),
            r.0.convert_fn() == self.convert_fn(),
            self.finished() ==> r.0 == self && r.1 is Exhausted,
            !self.finished() && upstream is NotReady ==> r.0 == self && r.1 is NotReady,
            !self.finished() && upstream is Exhausted ==> r.0.finished()
                && r.0.transform_state() == self.transform_state() && r.1 is Exhausted,
            !self.finished() ==> (upstream matches StreamPoll::Failed(e) ==> r.0 == self
                && r.1 == StreamPoll::<E>::Failed(e)),
            !self.finished() ==> (upstream matches StreamPoll::Chunk(c) ==> !r.0.finished()
                && (exists|step: (State, Result<Vec<u8>, TErr>)|
                    {
                        &&& #[trigger] call_ensures(
                            self.transform_fn(),
                            (c, self.transform_state()),
                            step,
                        )
                        &&& r.0.transform_state() == step.0
                        &&& match step.1 {
                            Ok(o) => r.1 == StreamPoll::<E>::Chunk(o),
                            Err(te) => r.1 matches StreamPoll::Failed(ev) && call_ensures(
                                self.convert_fn(),
                                (te,),
                                ev,
                            ),
                        }
                    })),
    {
        if self.finished {
            (self, StreamPoll::Exhausted)
        } else {
            match upstream {
                StreamPoll::NotReady => (self, StreamPoll::NotReady),
                StreamPoll::Exhausted => {
                    let Processor { state, finished: _, transform, convert, marker } = self;
                    (
                        Processor { state, finished: true, transform, convert, marker },
                        StreamPoll::Exhausted,
                    )
                },
                StreamPoll::Failed(e) => (self, StreamPoll::Failed(e)),
                StreamPoll::Chunk(c) => {
                    let Processor { state, finished, transform, convert, marker } = self;
                    proof {
                        assert(call_requires(self.transform_fn(), (c, state)));
                    }
                    let (new_state, res) = transform(c, state);
                    let next = Processor { state: new_state, finished, transform, convert, marker };
                    match res {
                        Ok(o) => (next, StreamPoll::Chunk(o)),
                        Err(te) => {
                            proof {
                                assert(call_requires(self.convert_fn(), (te,)));
                            }
                            let ev = (next.convert)(te);
                            (next, StreamPoll::Failed(ev))
                        },
                    }
                },
            }
        }
    }
}

} // verus!
