use stream_transform::pipeline::{run_pipeline, SourceItem};
use stream_transform::stage::{Processor, StreamPoll};

fn chunk(bytes: &[u8]) -> SourceItem<u8> {
    SourceItem::Chunk(bytes.to_vec())
}

#[test]
fn order_preservation_across_chunks() {
    // An always-succeeding transform: uppercase every byte.
    let upper = |c: Vec<u8>, s: ()| -> ((), Result<Vec<u8>, u8>) {
        (s, Ok(c.iter().map(|b| b.to_ascii_uppercase()).collect()))
    };
    let conv = |e: u8| -> u8 { e };
    let source = vec![chunk(b"ab"), chunk(b"cd"), chunk(b"e")];
    let (sink, r) = run_pipeline(source, (), upper, conv);
    assert_eq!(r, Ok(()));
    assert_eq!(sink, b"ABCDE".to_vec());
}

#[test]
fn state_threading_emits_running_count() {
    // Counting transform: state is the number of invocations so far; the
    // output is the running count as one byte.
    let counting = |_c: Vec<u8>, s: u64| -> (u64, Result<Vec<u8>, u8>) {
        let n = s + 1;
        (n, Ok(vec![n as u8]))
    };
    let conv = |e: u8| -> u8 { e };
    let source = vec![chunk(b"x"), chunk(b"x"), chunk(b"x"), chunk(b"x"), chunk(b"x")];
    let (sink, r) = run_pipeline(source, 0u64, counting, conv);
    assert_eq!(r, Ok(()));
    assert_eq!(sink, vec![1u8, 2, 3, 4, 5]);
}

#[test]
fn fail_fast_on_transform_error() {
    // Fails deterministically on the third invocation; earlier chunks pass
    // through unchanged.
    let failing = |c: Vec<u8>, s: u64| -> (u64, Result<Vec<u8>, &'static str>) {
        let n = s + 1;
        if n == 3 {
            (n, Err("broken"))
        } else {
            (n, Ok(c))
        }
    };
    let conv = |_e: &'static str| -> u8 { 42 };
    let source = vec![chunk(b"a"), chunk(b"b"), chunk(b"c"), chunk(b"d")];
    let (sink, r) = run_pipeline(source, 0u64, failing, conv);
    assert_eq!(r, Err(42));
    assert_eq!(sink, b"ab".to_vec());
}

#[test]
fn fail_fast_on_source_error() {
    let ident = |c: Vec<u8>, s: ()| -> ((), Result<Vec<u8>, u8>) { (s, Ok(c)) };
    let conv = |e: u8| -> u8 { e };
    let source = vec![chunk(b"x"), chunk(b"y"), SourceItem::Failed(7u8), chunk(b"z")];
    let (sink, r) = run_pipeline(source, (), ident, conv);
    assert_eq!(r, Err(7));
    assert_eq!(sink, b"xy".to_vec());
}

#[test]
fn source_error_does_not_invoke_transform() {
    // The transform would panic if it were ever invoked.
    let never = |_c: Vec<u8>, _s: ()| -> ((), Result<Vec<u8>, u8>) {
        panic!("the transform must not run on a source error");
    };
    let conv = |e: u8| -> u8 { e };
    let source = vec![SourceItem::Failed(9u8)];
    let (sink, r) = run_pipeline(source, (), never, conv);
    assert_eq!(r, Err(9));
    assert!(sink.is_empty());
}

#[test]
fn empty_input_writes_nothing_and_never_invokes_transform() {
    let never = |_c: Vec<u8>, _s: u64| -> (u64, Result<Vec<u8>, u8>) {
        panic!("the transform must not run on an empty source");
    };
    let conv = |e: u8| -> u8 { e };
    let source: Vec<SourceItem<u8>> = Vec::new();
    let (sink, r) = run_pipeline(source, 0u64, never, conv);
    assert_eq!(r, Ok(()));
    assert!(sink.is_empty());
}

#[test]
fn chunk_size_independence_for_identity() {
    let ident = |c: Vec<u8>, s: ()| -> ((), Result<Vec<u8>, u8>) { (s, Ok(c)) };
    let conv = |e: u8| -> u8 { e };
    let payload = b"hello world";

    let whole = vec![chunk(payload)];
    let (sink_whole, r_whole) = run_pipeline(whole, (), ident, conv);

    let split: Vec<SourceItem<u8>> = payload.iter().map(|b| chunk(&[*b])).collect();
    let (sink_split, r_split) = run_pipeline(split, (), ident, conv);

    assert_eq!(r_whole, Ok(()));
    assert_eq!(r_split, Ok(()));
    assert_eq!(sink_whole, payload.to_vec());
    assert_eq!(sink_whole, sink_split);
}

#[test]
fn stage_transforms_one_chunk() {
    let double = |c: Vec<u8>, s: u32| -> (u32, Result<Vec<u8>, u8>) {
        (s + 1, Ok(c.iter().map(|b| b.wrapping_mul(2)).collect()))
    };
    let conv = |e: u8| -> u8 { e };
    let stage = Processor::new(0u32, double, conv);
    let (stage, out) = stage.poll_next(StreamPoll::Chunk(vec![1u8, 2, 3]));
    assert_eq!(out, StreamPoll::Chunk(vec![2u8, 4, 6]));
    assert!(!stage.is_finished());
}

#[test]
fn stage_passes_not_ready_and_errors_through() {
    let never = |_c: Vec<u8>, _s: ()| -> ((), Result<Vec<u8>, u8>) {
        panic!("the transform must not run without a chunk");
    };
    let conv = |e: u8| -> u8 { e };
    let stage = Processor::new((), never, conv);
    let (stage, out) = stage.poll_next(StreamPoll::NotReady);
    assert_eq!(out, StreamPoll::NotReady);
    let (stage, out) = stage.poll_next(StreamPoll::Failed(11u8));
    assert_eq!(out, StreamPoll::Failed(11));
    assert!(!stage.is_finished());
}

#[test]
fn stage_converts_transform_errors() {
    let failing = |_c: Vec<u8>, s: u8| -> (u8, Result<Vec<u8>, &'static str>) {
        (s + 1, Err("domain"))
    };
    let conv = |e: &'static str| -> String { format!("wrapped: {}", e) };
    let stage = Processor::new(0u8, failing, conv);
    let (_stage, out) = stage.poll_next(StreamPoll::Chunk(vec![0u8]));
    assert_eq!(out, StreamPoll::Failed(String::from("wrapped: domain")));
}

#[test]
fn stage_is_terminal_after_exhaustion() {
    let ident = |c: Vec<u8>, s: ()| -> ((), Result<Vec<u8>, u8>) { (s, Ok(c)) };
    let conv = |e: u8| -> u8 { e };
    let stage = Processor::new((), ident, conv);
    let (stage, out) = stage.poll_next(StreamPoll::Exhausted);
    assert_eq!(out, StreamPoll::Exhausted);
    assert!(stage.is_finished());
    // Once exhausted, every further poll reports exhaustion.
    let (stage, out) = stage.poll_next(StreamPoll::Chunk(vec![1u8]));
    assert_eq!(out, StreamPoll::Exhausted);
    let (_stage, out) = stage.poll_next(StreamPoll::Failed(1u8));
    assert_eq!(out, StreamPoll::Exhausted);
}

#[test]
fn state_survives_a_failed_invocation() {
    // The state moves forward even when an invocation fails: a stage that
    // fails on the second invocation still counts the first one.
    let failing = |_c: Vec<u8>, s: u64| -> (u64, Result<Vec<u8>, u8>) {
        let n = s + 1;
        if n == 2 {
            (n, Err(1))
        } else {
            (n, Ok(vec![n as u8]))
        }
    };
    let conv = |e: u8| -> u8 { e };
    let stage = Processor::new(0u64, failing, conv);
    let (stage, out) = stage.poll_next(StreamPoll::Chunk(vec![0u8]));
    assert_eq!(out, StreamPoll::Chunk(vec![1u8]));
    let (stage, out) = stage.poll_next(StreamPoll::Chunk(vec![0u8]));
    assert_eq!(out, StreamPoll::Failed(1));
    // The third invocation sees state 2, not 1.
    let (_stage, out) = stage.poll_next(StreamPoll::Chunk(vec![0u8]));
    assert_eq!(out, StreamPoll::Chunk(vec![3u8]));
}
