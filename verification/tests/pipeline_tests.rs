use rltk::batch::{batch_lines, LineBatcher};
use rltk::lm::mle::Counter;
use rltk::merge::{EmissionSink, ReductionSink, SinkState};
use rltk::subst::{substitutions_from_lines, substitute_line, ConfigurationError};
use rltk::work::{apply_work, clean_line, count_batch, whitelist_from_lines, WorkKind, WorkResult};
use rltk::worker::PoolProtocol;

fn strs(words: &[&str]) -> Vec<String> {
    words.iter().map(|w| w.to_string()).collect()
}

#[test]
fn batch_count_is_ceiling() {
    // Five lines at capacity two give three batches; zero lines give none.
    let lines = strs(&["l1", "l2", "l3", "l4", "l5"]);
    let batches = batch_lines(&lines, 2);
    assert_eq!(batches.len(), 3);
    assert_eq!(batches[0], strs(&["l1", "l2"]));
    assert_eq!(batches[1], strs(&["l3", "l4"]));
    assert_eq!(batches[2], strs(&["l5"]));

    let none = batch_lines(&strs(&[]), 2);
    assert_eq!(none.len(), 0);

    let exact = batch_lines(&strs(&["a", "b"]), 2);
    assert_eq!(exact.len(), 1);
}

#[test]
fn batches_reassemble_the_input() {
    let lines = strs(&["a", "b", "c", "d", "e", "f", "g"]);
    let batches = batch_lines(&lines, 3);
    let mut rebuilt: Vec<String> = Vec::new();
    for b in &batches {
        rebuilt.extend(b.iter().cloned());
    }
    assert_eq!(rebuilt, lines);
}

#[test]
fn incremental_batcher_matches() {
    let mut batcher = LineBatcher::new(2);
    let mut dispatched: Vec<Vec<String>> = Vec::new();
    for line in strs(&["x", "y", "z"]) {
        if let Some(b) = batcher.push_line(line) {
            dispatched.push(b);
        }
    }
    if let Some(b) = batcher.finish() {
        dispatched.push(b);
    }
    assert_eq!(dispatched, vec![strs(&["x", "y"]), strs(&["z"])]);
}

#[test]
fn drain_observes_every_submission() {
    // Submit six batches through the protocol model, let it run, and the
    // drain leaves every worker exited with all six results observed.
    let mut pool = PoolProtocol::new(2, 8);
    let mut accepted: usize = 0;
    for _ in 0..6 {
        if pool.submit() {
            accepted += 1;
        } else {
            pool.worker_take_job();
            if pool.submit() {
                accepted += 1;
            }
        }
    }
    assert_eq!(accepted, 6);
    pool.drain_and_join();
}

#[test]
fn full_queue_blocks_submitter() {
    // With stalled workers, only jobQueueCapacity + workerCount batches are
    // ever resident: the queue fills and submit refuses the next offer.
    let mut pool = PoolProtocol::construct(2, 4, 8);
    for _ in 0..4 {
        assert!(pool.submit());
    }
    // Queue full; the two workers pick up one job each without finishing.
    assert!(!pool.submit());
    pool.worker_take_job();
    pool.worker_take_job();
    // Two slots free again, then the queue blocks anew.
    assert!(pool.submit());
    assert!(pool.submit());
    assert!(!pool.submit());
}

#[test]
fn drain_of_untouched_pool_terminates() {
    let mut pool = PoolProtocol::new(4, 8);
    pool.drain_and_join();
}

#[test]
fn reduction_matches_single_threaded_count() {
    // Counting per batch and reducing equals counting the whole input.
    let lines = strs(&["a a b", "b c a"]);
    let whole = count_batch(&lines);
    assert_eq!(whole.get("a"), 3);
    assert_eq!(whole.get("b"), 2);
    assert_eq!(whole.get("c"), 1);

    for split in 1..=2 {
        let batches = batch_lines(&lines, split);
        let mut sink = ReductionSink::new();
        for b in &batches {
            let partial = count_batch(b);
            sink.consume(&partial);
        }
        sink.shutdown();
        let acc: Counter = sink.into_counts();
        assert_eq!(acc.get("a"), 3);
        assert_eq!(acc.get("b"), 2);
        assert_eq!(acc.get("c"), 1);
    }
}

#[test]
fn emission_scenario_keeps_batch_order() {
    // Batches of ["x","y","z"] at capacity two are [["x","y"],["z"]]; an
    // uppercasing emission work function must emit the set {X, Y, Z} with X
    // before Y, whatever order the two batches arrive in.
    let lines = strs(&["x", "y", "z"]);
    let batches = batch_lines(&lines, 2);
    assert_eq!(batches.len(), 2);
    let kind = WorkKind::UppercaseLines;
    let mut results: Vec<Vec<String>> = Vec::new();
    for b in &batches {
        match apply_work(&kind, b) {
            WorkResult::EmittedLines(out) => results.push(out),
            _ => panic!("emission work yields lines"),
        }
    }
    for order in [[0, 1], [1, 0]] {
        let mut sink = EmissionSink::new();
        for i in order {
            sink.consume(results[i].clone());
        }
        sink.shutdown();
        let out = sink.into_lines();
        let mut sorted = out.clone();
        sorted.sort();
        assert_eq!(sorted, strs(&["X", "Y", "Z"]));
        let x = out.iter().position(|s| s == "X").unwrap();
        let y = out.iter().position(|s| s == "Y").unwrap();
        assert!(x < y);
    }
}

#[test]
fn sink_state_machine_steps() {
    let s = SinkState::Waiting;
    let s = s.on_receive(false);
    assert_eq!(s, SinkState::Processing);
    let s = s.on_handled();
    assert_eq!(s, SinkState::Waiting);
    let s = s.on_receive(true);
    assert_eq!(s, SinkState::Terminated);
}

#[test]
fn clean_line_filters_graphemes() {
    let whitelist = whitelist_from_lines(&strs(&["ab", "c"]));
    assert_eq!(whitelist, strs(&["a", "b", "c"]));
    assert_eq!(clean_line("abcd cba", &whitelist), "abccba");
    assert_eq!(clean_line("", &whitelist), "");
}

#[test]
fn substitution_rewrites_graphemes() {
    let table = substitutions_from_lines(&strs(&["xy:1", "z:2"])).unwrap();
    assert_eq!(substitute_line("xyz a", &table), "112 a");
}

#[test]
fn substitution_keeps_dest_before_second_colon() {
    let table = substitutions_from_lines(&strs(&["a:b:c"])).unwrap();
    assert_eq!(substitute_line("a", &table), "b");
}

#[test]
fn malformed_substitution_line_is_rejected() {
    match substitutions_from_lines(&strs(&["ab"])) {
        Err(err) => assert_eq!(err, ConfigurationError::MissingSeparator),
        Ok(_) => panic!("a line without a colon must be rejected"),
    }
}

#[test]
fn count_splits_on_punctuation_and_whitespace() {
    let store = rltk::pipelines::count(&strs(&["a a;b", "b.c a"]));
    assert_eq!(store.get("a"), 3);
    assert_eq!(store.get("b"), 2);
    assert_eq!(store.get("c"), 1);
}

#[test]
fn counting_lowercases_words() {
    let counts = count_batch(&strs(&["Ab aB"]));
    assert_eq!(counts.get("ab"), 2);
    assert_eq!(counts.get("Ab"), 0);
}
