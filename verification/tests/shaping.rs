use std::io::{Read, Write};
use std::time::Instant;

use redir_rust::plugin::Direction;
use redir_rust::shaping::{Jitter, RateLimiter, ShapedCopy, ShapingConfig, WaitInOut};
use redir_rust::time::Duration;

#[test]
fn wait_in_out_direction_matching() {
    assert!(WaitInOut::Both.applies_to(Direction::ClientToTarget));
    assert!(WaitInOut::Both.applies_to(Direction::TargetToClient));
    assert!(WaitInOut::In.applies_to(Direction::ClientToTarget));
    assert!(!WaitInOut::In.applies_to(Direction::TargetToClient));
    assert!(WaitInOut::Out.applies_to(Direction::TargetToClient));
    assert!(!WaitInOut::Out.applies_to(Direction::ClientToTarget));
}

#[test]
fn wait_in_out_from_str_roundtrips() {
    for v in [WaitInOut::In, WaitInOut::Out, WaitInOut::Both] {
        assert_eq!(v.as_str().parse::<WaitInOut>().unwrap(), v);
    }
    assert!("bogus".parse::<WaitInOut>().is_err());
}

#[test]
fn wait_in_out_error_quotes_the_word() {
    assert_eq!(
        "bo\"gus\n".parse::<WaitInOut>(),
        Err("invalid wait-in-out value \"bo\\\"gus\\n\" (expected in, out, or both)".to_string())
    );
    assert_eq!(WaitInOut::default(), WaitInOut::Both);
}

#[test]
fn rate_limiter_requires_no_wait_when_under_cap() {
    // 1000 bytes/sec cap == 8000 bits/sec; sending 1 byte should expect
    // ~1ms, which is less than the near-zero elapsed time in a test, so
    // *some* positive wait is expected -- but sending 0 bytes should
    // never demand a wait.
    let mut limiter = RateLimiter::new(8_000);
    assert_eq!(limiter.wait_for(0), Duration::from_nanos(0));
}

#[test]
fn rate_limiter_demands_wait_after_burst() {
    // 800 bits/sec == 100 bytes/sec. Sending 100 bytes instantly should
    // demand close to a 1 second wait to stay under the cap.
    let mut limiter = RateLimiter::new(800);
    let wait = limiter.wait_for(100);
    assert!(
        wait > Duration::from_millis(900),
        "expected ~1s wait, got {wait:?}"
    );
}

#[test]
fn rate_limiter_waits_are_exact() {
    let now = Instant::now();
    let mut limiter = RateLimiter::new(800);
    assert_eq!(
        limiter.wait_for_at(100, Duration::from_millis(250), now),
        Duration::from_millis(750)
    );
    assert_eq!(limiter.bytes_sent, 100);
    assert_eq!(
        limiter.wait_for_at(10, Duration::from_millis(2_000), now),
        Duration::from_millis(0)
    );
    // A rate that does not divide evenly is rounded up: 8 bits at 3 bits a
    // second take two thirds of a second more than two.
    let mut odd = RateLimiter::new(3);
    assert_eq!(
        odd.wait_for_at(1, Duration::from_nanos(0), now),
        Duration::from_nanos(2_666_666_667)
    );
}

#[test]
fn rate_limiter_starts_anew_after_its_window() {
    let mut limiter = RateLimiter::new(8);
    let start = limiter.window_start;
    let now = Instant::now();
    let edge = Duration::from_secs(10);
    assert_eq!(limiter.wait_for_at(15, edge, now), Duration::from_secs(5));
    assert_eq!(limiter.bytes_sent, 15);
    assert_eq!(limiter.window_start, start);
    let past = Duration::from_nanos(10_000_000_001);
    assert_eq!(
        limiter.wait_for_at(1, past, now),
        Duration::from_nanos(5_999_999_999)
    );
    assert_eq!(limiter.bytes_sent, 0);
    assert_eq!(limiter.window_start, now);
}

#[test]
fn rate_limiter_knows_its_limits() {
    assert!(!RateLimiter::new(0).has_room_for(0));
    let mut limiter = RateLimiter::new(1);
    assert!(limiter.has_room_for(1_000));
    limiter.bytes_sent = u64::MAX;
    assert!(!limiter.has_room_for(1));
    assert!(!limiter.has_room_for(0));
    limiter.bits_per_sec = 8;
    assert!(limiter.has_room_for(0));
}

#[test]
fn jitter_stays_within_bound() {
    let mut jitter = Jitter::new();
    for _ in 0..100 {
        let wait = jitter.random_wait(50);
        assert!(wait <= Duration::from_millis(50));
    }
}

#[test]
fn jitter_zero_bound_is_always_zero() {
    let mut jitter = Jitter::new();
    assert_eq!(jitter.random_wait(0), Duration::from_nanos(0));
}

#[test]
fn jitter_follows_its_seed() {
    let mut jitter = Jitter::at(Some(Duration::from_nanos(0)));
    assert_eq!(jitter.0, 1);
    // 1 ^ (1 << 13) = 0x2001, ^ (>> 7) = 0x2041, ^ (<< 17) = 0x40822041.
    let wait = jitter.random_wait(999);
    assert_eq!(jitter.0, 0x4082_2041);
    assert_eq!(wait, Duration::from_millis(0x4082_2041 % 1000));
    assert_eq!(Jitter::at(None).0, 0x9E37_79B9_7F4A_7C15);
    assert_eq!(Jitter::at(Some(Duration::from_nanos(6))).0, 7);
    assert!(Jitter::default().0 != 0);
}

fn shaped_copy_blocking<R: Read, W: Write>(
    reader: &mut R,
    writer: &mut W,
    direction: Direction,
    shaping: Option<&ShapingConfig>,
) -> std::io::Result<u64> {
    let mut copy = ShapedCopy::new(shaping, direction);
    let mut buf = vec![0u8; copy.chunk_size];
    loop {
        let n = reader.read(&mut buf)?;
        if n == 0 {
            return Ok(copy.total);
        }
        writer.write_all(&buf[..n])?;
        let waits = copy.on_chunk(n);
        assert_eq!(waits.limit, Duration::from_nanos(0));
        assert_eq!(waits.jitter, Duration::from_nanos(0));
    }
}

#[test]
fn shaped_copy_blocking_matches_plain_copy_when_inactive() {
    let data = b"hello world";
    let mut reader: &[u8] = data;
    let mut writer = Vec::new();
    let n =
        shaped_copy_blocking(&mut reader, &mut writer, Direction::ClientToTarget, None).unwrap();
    assert_eq!(n, data.len() as u64);
    assert_eq!(writer, data);
}

/// A bufsize-only config (no bandwidth cap, no jitter) must still copy
/// correctly, exercising the chunked loop instead of the plain
/// `std::io::copy` fallback -- regression test for the bug where
/// `bufsize` alone was silently ignored.
#[test]
fn shaped_copy_blocking_applies_custom_bufsize_with_no_rate_or_jitter() {
    let data = vec![0xABu8; 5000]; // several chunks at a small bufsize
    let mut reader: &[u8] = &data;
    let mut writer = Vec::new();
    let shaping = ShapingConfig {
        max_bandwidth_bps: None,
        wait_in_out: WaitInOut::Both,
        random_wait_ms: None,
        bufsize: 128,
    };
    let n = shaped_copy_blocking(
        &mut reader,
        &mut writer,
        Direction::ClientToTarget,
        Some(&shaping),
    )
    .unwrap();
    assert_eq!(n, data.len() as u64);
    assert_eq!(writer, data);
}

#[test]
fn copies_are_shaped_in_the_selected_direction_only() {
    let shaping = ShapingConfig {
        max_bandwidth_bps: Some(800),
        wait_in_out: WaitInOut::In,
        random_wait_ms: Some(5),
        bufsize: 0,
    };
    assert!(shaping.is_active());
    let mut shaped = ShapedCopy::new(Some(&shaping), Direction::ClientToTarget);
    assert_eq!(shaped.chunk_size, 1);
    let waits = shaped.on_chunk(100);
    assert!(waits.limit > Duration::from_millis(900));
    assert!(waits.jitter <= Duration::from_millis(5));
    assert_eq!(shaped.total, 100);

    let mut plain = ShapedCopy::new(Some(&shaping), Direction::TargetToClient);
    let waits = plain.on_chunk(100);
    assert_eq!(waits.limit, Duration::from_nanos(0));
    assert_eq!(waits.jitter, Duration::from_nanos(0));

    assert_eq!(
        ShapedCopy::new(None, Direction::TargetToClient).chunk_size,
        16 * 1024
    );
    let bufsize_only = ShapingConfig {
        max_bandwidth_bps: None,
        random_wait_ms: None,
        ..shaping
    };
    assert!(!bufsize_only.is_active());
    let no_rate = ShapingConfig {
        max_bandwidth_bps: Some(0),
        ..shaping
    };
    let copy = ShapedCopy::new(Some(&no_rate), Direction::ClientToTarget);
    assert!(!copy.limiter.unwrap().has_room_for(1));
    assert!(ShapedCopy::new(Some(&no_rate), Direction::TargetToClient)
        .limiter
        .is_none());
}

#[test]
fn the_largest_delay_takes_the_draw_as_it_is() {
    let mut jitter = Jitter::at(Some(Duration::from_nanos(0)));
    let wait = jitter.random_wait(u64::MAX);
    assert_eq!(jitter.0, 0x4082_2041);
    assert_eq!(wait, Duration::from_millis(0x4082_2041));
    let mut jitter = Jitter::at(Some(Duration::from_nanos(0)));
    assert_eq!(
        jitter.random_wait(u64::MAX - 1),
        Duration::from_millis(0x4082_2041)
    );
    let longest = ShapingConfig {
        max_bandwidth_bps: None,
        wait_in_out: WaitInOut::Both,
        random_wait_ms: Some(u64::MAX),
        bufsize: 1,
    };
    let mut copy = ShapedCopy::new(Some(&longest), Direction::ClientToTarget);
    let waits = copy.on_chunk(1);
    let draw = copy.jitter.unwrap().0;
    assert_eq!(waits.jitter, Duration::from_millis(draw));
}
