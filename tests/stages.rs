use srmw::{
    copies_match, prepare_buffers, CopyEvent, CopyRun, MultiWriter, Phase, SeekTo, SweepOp,
    ValidateRun, ValidationError, ValidationEvent,
};

/// Runs a whole copy of `source` through `buf_len`-byte chunks into in-memory
/// sinks (`sinks[handle]`); `fails(id, chunk)` says whether a write fails.
fn run_copy(
    writers: MultiWriter,
    source: &[u8],
    buf_len: usize,
    sinks: &mut Vec<Vec<u8>>,
    fails: &dyn Fn(usize, usize) -> bool,
) -> (Vec<CopyEvent<String>>, MultiWriter, Vec<Vec<usize>>) {
    let mut run: CopyRun = writers.copy();
    let mut events = Vec::new();
    let mut targets_per_chunk = Vec::new();
    let mut pos = 0usize;
    let mut chunk = 0usize;
    loop {
        assert_eq!(run.phase(), Phase::Ready);
        if let Some(e) = run.start_pass::<String>() {
            events.push(e);
            break;
        }
        let n = buf_len.min(source.len() - pos);
        if let Some(e) = run.source_read::<String>(Ok(n)) {
            events.push(e);
        }
        if run.phase() == Phase::Done {
            break;
        }
        let targets = run.targets();
        targets_per_chunk.push(targets.clone());
        for id in targets {
            let handle = run.writers().get(id).unwrap() as usize;
            let outcome = if fails(id, chunk) {
                Err(format!("sink {} broke", id))
            } else {
                sinks[handle].extend_from_slice(&source[pos..pos + n]);
                Ok(())
            };
            if let Some(e) = run.write_settled(id, outcome) {
                events.push(e);
            }
        }
        events.push(run.finish_chunk());
        pos += n;
        chunk += 1;
    }
    (events, run.into_writers(), targets_per_chunk)
}

/// Runs a whole validation of `source` against in-memory sinks read from the start.
fn run_validate(
    writers: MultiWriter,
    source: &[u8],
    buf_len: usize,
    sinks: &[Vec<u8>],
) -> (Vec<ValidationEvent<String>>, MultiWriter) {
    let mut bufs: Vec<Vec<u8>> = Vec::new();
    let mut run: ValidateRun = writers.validate(buf_len, &mut bufs);
    let mut cursors = vec![0usize; sinks.len()];
    let mut events = Vec::new();
    let mut pos = 0usize;
    loop {
        if let Some(e) = run.start_pass::<String>() {
            events.push(e);
            break;
        }
        let n = buf_len.min(source.len() - pos);
        run.source_read::<String>(Ok(n));
        if run.phase() == Phase::Done {
            break;
        }
        let chunk = &source[pos..pos + n];
        for (i, id) in run.targets().into_iter().enumerate() {
            let h = run.writers().get(id).unwrap() as usize;
            let data = &sinks[h];
            let outcome = if cursors[h] + n <= data.len() {
                bufs[i][..n].copy_from_slice(&data[cursors[h]..cursors[h] + n]);
                cursors[h] += n;
                Ok(())
            } else {
                Err("short read".to_string())
            };
            if let Some(e) = run.read_settled(id, outcome, &bufs[i][..n], chunk) {
                events.push(e);
            }
        }
        events.push(run.finish_chunk());
        pos += n;
    }
    (events, run.into_writers())
}

fn source_of(len: usize) -> Vec<u8> {
    (0..len).map(|i| (i * 7 % 251) as u8).collect()
}

fn registry_of(n: u64) -> MultiWriter {
    let mut w = MultiWriter::new();
    for h in 0..n {
        assert_eq!(w.insert(h), h as usize);
    }
    w
}

#[test]
fn copy_with_no_sinks_reports_no_writers_only() {
    let mut sinks = Vec::new();
    let (events, _, _) = run_copy(MultiWriter::new(), &source_of(10), 4, &mut sinks, &|_, _| false);
    assert_eq!(events, vec![CopyEvent::NoWriters]);
}

#[test]
fn copy_150_bytes_with_sink_2_failing_on_second_chunk() {
    let source = source_of(150);
    let mut sinks = vec![Vec::new(); 3];
    let (events, writers, targets) =
        run_copy(registry_of(3), &source, 64, &mut sinks, &|id, chunk| id == 2 && chunk == 1);
    assert_eq!(
        events,
        vec![
            CopyEvent::Progress(64),
            CopyEvent::Failure(2, "sink 2 broke".to_string()),
            CopyEvent::Progress(64),
            CopyEvent::Progress(22),
        ]
    );
    assert_eq!(targets, vec![vec![0, 1, 2], vec![0, 1, 2], vec![0, 1]]);
    assert_eq!(writers.ids(), vec![0, 1]);
    assert_eq!(sinks[0], source);
    assert_eq!(sinks[1], source);
    assert_eq!(sinks[2], source[..64].to_vec());
}

#[test]
fn each_chunk_ends_with_one_progress_after_its_failures() {
    let source = source_of(100);
    let mut sinks = vec![Vec::new(); 4];
    let (events, _, _) = run_copy(registry_of(4), &source, 30, &mut sinks, &|id, chunk| {
        (id == 1 && chunk == 0) || (id == 3 && chunk == 2)
    });
    assert_eq!(
        events,
        vec![
            CopyEvent::Failure(1, "sink 1 broke".to_string()),
            CopyEvent::Progress(30),
            CopyEvent::Progress(30),
            CopyEvent::Failure(3, "sink 3 broke".to_string()),
            CopyEvent::Progress(30),
            CopyEvent::Progress(10),
        ]
    );
    let progress: usize = events
        .iter()
        .map(|e| if let CopyEvent::Progress(n) = e { *n } else { 0 })
        .sum();
    assert_eq!(progress, 100);
}

#[test]
fn failed_sink_stays_queued_until_the_next_pass() {
    let mut run = registry_of(2).copy();
    assert_eq!(run.start_pass::<String>(), None);
    assert_eq!(run.source_read::<String>(Ok(5)), None);
    assert_eq!(run.targets(), vec![0, 1]);
    assert_eq!(
        run.write_settled(1, Err("full".to_string())),
        Some(CopyEvent::Failure(1, "full".to_string()))
    );
    assert_eq!(run.write_settled::<String>(0, Ok(())), None);
    assert_eq!(run.finish_chunk::<String>(), CopyEvent::Progress(5));
    // Still registered, but queued.
    assert!(run.writers().contains(1));
    assert_eq!(run.writers().queued(), vec![1]);
    assert_eq!(run.start_pass::<String>(), None);
    assert!(!run.writers().contains(1));
    assert!(run.writers().queued().is_empty());
    assert_eq!(run.source_read::<String>(Ok(3)), None);
    assert_eq!(run.targets(), vec![0]);
}

#[test]
fn all_sinks_failing_ends_with_no_writers() {
    let source = source_of(20);
    let mut sinks = vec![Vec::new(); 2];
    let (events, writers, _) = run_copy(registry_of(2), &source, 8, &mut sinks, &|_, chunk| chunk == 0);
    assert_eq!(
        events,
        vec![
            CopyEvent::Failure(0, "sink 0 broke".to_string()),
            CopyEvent::Failure(1, "sink 1 broke".to_string()),
            CopyEvent::Progress(8),
            CopyEvent::NoWriters,
        ]
    );
    assert!(writers.is_empty());
}

#[test]
fn source_failure_ends_the_copy() {
    let mut run = registry_of(1).copy();
    assert_eq!(run.start_pass::<String>(), None);
    assert_eq!(
        run.source_read(Err("disk gone".to_string())),
        Some(CopyEvent::SourceFailure("disk gone".to_string()))
    );
    assert_eq!(run.phase(), Phase::Done);
}

#[test]
fn empty_read_ends_the_copy_silently() {
    let mut run = registry_of(1).copy();
    assert_eq!(run.start_pass::<String>(), None);
    assert_eq!(run.source_read::<String>(Ok(0)), None);
    assert_eq!(run.phase(), Phase::Done);
    assert_eq!(run.into_writers().len(), 1);
}

#[test]
fn copy_seek_validate_round_trip_is_clean() {
    let source = source_of(1000);
    let mut sinks = vec![Vec::new(); 3];
    let (events, writers, _) = run_copy(registry_of(3), &source, 128, &mut sinks, &|_, _| false);
    assert!(events.iter().all(|e| matches!(e, CopyEvent::Progress(_))));
    let mut seek = writers.seek(SeekTo::Start(0));
    assert_eq!(seek.op(), SweepOp::Seek(SeekTo::Start(0)));
    for id in seek.targets() {
        assert_eq!(seek.settled::<String>(id, Ok(())), None);
    }
    assert!(seek.is_done());
    // Read back in other chunks than those written.
    let (events, writers) = run_validate(writers, &source, 300, &sinks);
    let mut total = 0;
    for e in &events {
        match e {
            ValidationEvent::Progress(n) => total += n,
            other => panic!("unexpected event {:?}", other),
        }
    }
    assert_eq!(total, 1000);
    assert_eq!(writers.len(), 3);
}

#[test]
fn validate_reports_mismatch_and_short_read() {
    let source = source_of(50);
    let mut bad = source.clone();
    bad[40] ^= 0xff;
    let sinks = vec![source.clone(), bad, source[..30].to_vec()];
    let (events, writers) = run_validate(registry_of(3), &source, 20, &sinks);
    assert_eq!(
        events,
        vec![
            ValidationEvent::Progress(20),
            ValidationEvent::Failure(2, ValidationError::Read("short read".to_string())),
            ValidationEvent::Progress(20),
            ValidationEvent::Failure(1, ValidationError::Mismatch),
            ValidationEvent::Progress(10),
        ]
    );
    // The pass that finds the source exhausted drains the queue first.
    assert_eq!(writers.ids(), vec![0]);
    assert!(writers.queued().is_empty());
}

#[test]
fn validate_with_no_sinks_reports_no_writers() {
    let mut bufs = Vec::new();
    let mut run = MultiWriter::new().validate(16, &mut bufs);
    assert_eq!(run.start_pass::<String>(), Some(ValidationEvent::NoWriters));
    assert_eq!(run.phase(), Phase::Done);
    assert!(bufs.is_empty());
}

#[test]
fn validate_source_failure() {
    let mut bufs = Vec::new();
    let mut run = registry_of(2).validate(4, &mut bufs);
    assert_eq!(run.start_pass::<u32>(), None);
    assert_eq!(run.source_read(Err(7u32)), Some(ValidationEvent::SourceFailure(7)));
    assert_eq!(run.phase(), Phase::Done);
}

#[test]
fn flush_on_healthy_sinks_reports_nothing() {
    let writers = registry_of(3);
    let mut flush = writers.flush();
    assert_eq!(flush.op(), SweepOp::Flush);
    assert_eq!(flush.targets(), vec![0, 1, 2]);
    for id in flush.targets() {
        assert_eq!(flush.settled::<String>(id, Ok(())), None);
    }
    assert!(flush.is_done());
}

#[test]
fn seek_failure_is_reported_but_keeps_the_sink() {
    let writers = registry_of(3);
    let mut seek = writers.seek(SeekTo::End(-4));
    assert_eq!(seek.settled::<String>(2, Ok(())), None);
    assert_eq!(seek.settled(0, Err("no seek".to_string())), Some((0, "no seek".to_string())));
    assert_eq!(seek.targets(), vec![1]);
    assert_eq!(seek.settled::<String>(1, Ok(())), None);
    assert!(seek.is_done());
    assert_eq!(writers.ids(), vec![0, 1, 2]);
    assert!(writers.queued().is_empty());
}

#[test]
fn identifiers_are_reused_after_removal() {
    let mut w = registry_of(3);
    assert_eq!(w.remove(1), 1);
    assert_eq!(w.len(), 2);
    assert_eq!(w.get(1), None);
    assert_eq!(w.insert(40), 1);
    assert_eq!(w.get(1), Some(40));
    assert_eq!(w.insert(41), 3);
    assert_eq!(w.ids(), vec![0, 1, 2, 3]);
    let d = MultiWriter::default();
    assert!(d.is_empty());
}

#[test]
fn removing_a_queued_sink_drops_it_from_the_queue() {
    let mut run = registry_of(3).copy();
    run.start_pass::<String>();
    run.source_read::<String>(Ok(4));
    run.write_settled(0, Err("x".to_string()));
    run.write_settled(2, Err("y".to_string()));
    run.write_settled::<String>(1, Ok(()));
    run.finish_chunk::<String>();
    let mut w = run.into_writers();
    assert_eq!(w.queued(), vec![0, 2]);
    assert_eq!(w.remove(0), 0);
    assert_eq!(w.queued(), vec![2]);
    assert_eq!(w.ids(), vec![1, 2]);
}

#[test]
fn comparison_buffers_grow_but_never_shrink() {
    let mut bufs = vec![vec![9u8; 2], vec![5u8; 10]];
    prepare_buffers(&mut bufs, 4, 3);
    assert_eq!(bufs, vec![vec![9, 9, 0, 0], vec![5u8; 10], vec![0u8; 4]]);
    prepare_buffers(&mut bufs, 1, 1);
    assert_eq!(bufs.len(), 3);
    assert_eq!(bufs[0], vec![9, 9, 0, 0]);
}

#[test]
fn copies_match_compares_bytes() {
    assert!(copies_match(b"abc", b"abc"));
    assert!(!copies_match(b"abc", b"abd"));
    assert!(!copies_match(b"ab", b"abc"));
    assert!(copies_match(b"", b""));
}
