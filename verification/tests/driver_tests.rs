use yafo::driver::{Driver, InMemoryDriver, Statistics, WindowBuffer};
use yafo::driver::statistics::Reporter;
use yafo::duplex::{DuplexState, OrderingViolation};
use yafo::pipeline::ProgressReporter;
use yafo::{Cipher, DecryptState, EncryptState, KeyInit, Pipeline};

fn pipeline_encrypt(data: &[u8], phrase: &str) -> Vec<u8> {
    let encrypt = EncryptState::with_seed_phrase(phrase);
    let mut out: Vec<u8> = vec![];
    Pipeline::new().process(data, &mut out, encrypt, None);
    out
}

#[test]
fn in_memory_driver_matches_pipeline() {
    let phrase = "driver phrase";
    let data: Vec<u8> = (0..21).map(|i| (i * 3 + 1) as u8).collect();

    let mut driver = InMemoryDriver::new(data.clone());
    let mut cipher = EncryptState::with_seed_phrase(phrase);
    driver.process(&mut cipher).unwrap();

    assert_eq!(driver.as_slice(), pipeline_encrypt(&data, phrase).as_slice());
}

#[test]
fn in_memory_driver_round_trip() {
    let phrase = "in place";
    let data = b"rewritten in place without a second copy".to_vec();

    let mut driver = InMemoryDriver::new(data.clone());
    let mut encrypt = EncryptState::with_seed_phrase(phrase);
    driver.process(&mut encrypt).unwrap();
    let encrypted = driver.into_vec();
    assert_eq!(encrypted.len(), data.len());
    assert_ne!(encrypted, data);

    let mut back = InMemoryDriver::new(encrypted);
    let mut decrypt = DecryptState::with_seed_phrase(phrase);
    back.process(&mut decrypt).unwrap();
    assert_eq!(back.into_vec(), data);
}

#[test]
fn in_memory_driver_empty_input() {
    let mut driver = InMemoryDriver::new(Vec::new());
    let mut cipher = EncryptState::with_seed_phrase("empty");
    driver.process(&mut cipher).unwrap();
    assert_eq!(driver.into_vec(), Vec::<u8>::new());
}

struct CountingReporter {
    calls: usize,
    bytes: usize,
}

impl Reporter for CountingReporter {
    fn bytes_processed(&mut self, n: usize) {
        self.calls += 1;
        self.bytes += n;
    }
}

#[test]
fn statistics_reports_each_push() {
    let phrase = "statistics";
    let data: Vec<u8> = (0..20).map(|i| i as u8).collect();

    let driver = InMemoryDriver::new(data.clone());
    let reporter = CountingReporter { calls: 0, bytes: 0 };
    let mut stats = Statistics::new(driver, reporter);
    let mut cipher = EncryptState::with_seed_phrase(phrase);
    stats.process(&mut cipher).unwrap();

    // 20 bytes take three blocks; each push reports the full chunk size.
    assert_eq!(stats.reporter().calls, 3);
    assert_eq!(stats.reporter().bytes, 24);
    assert_eq!(
        stats.into_driver().into_vec(),
        pipeline_encrypt(&data, phrase)
    );
}

struct RecordingProgress {
    rounds: std::rc::Rc<std::cell::RefCell<Vec<(usize, Option<usize>)>>>,
}

impl ProgressReporter for RecordingProgress {
    fn bytes_processed(&mut self, n: usize, total: Option<usize>) {
        self.rounds.borrow_mut().push((n, total));
    }
}

#[test]
fn pipeline_reports_progress_per_block() {
    let data: Vec<u8> = (0..13).map(|i| i as u8).collect();
    let encrypt = EncryptState::with_seed_phrase("progress");
    let mut out: Vec<u8> = vec![];
    let rounds = std::rc::Rc::new(std::cell::RefCell::new(vec![]));
    let reporter = RecordingProgress { rounds: std::rc::Rc::clone(&rounds) };
    let pipeline = Pipeline::new().with_progress_reporter(reporter);
    pipeline.process(&data, &mut out, encrypt, Some(13));
    assert_eq!(out.len(), 13);
    // One full block of 8 and one short block of 5, each round reported
    // with the bytes of that round alone and the known total.
    assert_eq!(rounds.borrow().as_slice(), &[(8, Some(13)), (5, Some(13))]);
}

#[test]
fn duplex_write_never_overtakes_read() {
    let mut state = DuplexState::new();
    state.record_read(4);

    // Writing more than was read is refused...
    assert_eq!(state.check_write(5), Err(OrderingViolation));
    // ...and nothing of the refused write is applied.
    assert_eq!(state.read_count(), 4);
    assert_eq!(state.write_count(), 0);

    // Writing exactly what was read is admitted.
    assert_eq!(state.check_write(4), Ok(()));
    state.record_write(4);
    assert_eq!(state.write_count(), 4);

    // A fresh channel admits no write at all.
    let fresh = DuplexState::new();
    assert_eq!(fresh.check_write(1), Err(OrderingViolation));
    assert_eq!(fresh.check_write(0), Ok(()));
}

#[test]
fn window_buffer_matches_pipeline() {
    let phrase = "window";
    let data: Vec<u8> = (0..10).map(|i| (200 - i) as u8).collect();

    let mut window = WindowBuffer::new(16);
    assert!(window.needs_refill());
    window.refill(&data);
    assert!(!window.needs_refill());

    let mut cipher = EncryptState::with_seed_phrase(phrase);
    let mut flushed: Option<Vec<u8>> = None;
    while !window.needs_refill() {
        let mut chunk = window.take_block();
        cipher.process_chunk(&mut chunk);
        let flush_due = window.commit_block(chunk);
        if flush_due {
            let n = window.flush_len();
            flushed = Some(window.as_bytes()[0..n].to_vec());
            window.mark_flushed();
        }
    }

    assert_eq!(flushed.unwrap(), pipeline_encrypt(&data, phrase));
}

#[test]
fn window_buffer_full_window_round_trip() {
    let phrase = "two windows";
    let data: Vec<u8> = (0..48).map(|i| (i * 7) as u8).collect();

    let mut encrypted: Vec<u8> = Vec::new();
    let mut window = WindowBuffer::new(16);
    let mut cipher = EncryptState::with_seed_phrase(phrase);
    for piece in data.chunks(16) {
        window.refill(piece);
        while !window.needs_refill() {
            let mut chunk = window.take_block();
            cipher.process_chunk(&mut chunk);
            if window.commit_block(chunk) {
                let n = window.flush_len();
                encrypted.extend_from_slice(&window.as_bytes()[0..n]);
                window.mark_flushed();
            }
        }
    }

    assert_eq!(encrypted, pipeline_encrypt(&data, phrase));
}
