use egrex::daemon::{
    plan_start, plan_stop, status, stop_poll, update_listen_addr, PidLock, StartPlan, Status,
    StopPlan, StopPoll, StopResult, STOP_POLL_ATTEMPTS,
};
use egrex::display::{color, cyan, format_bytes, green, red, yellow};
use egrex::traffic::{read, TrafficCounter, TrafficSnapshot};

fn lock(pid: u32) -> PidLock {
    PidLock { pid, listen_addr: Some("127.0.0.1:1080".to_string()) }
}

#[test]
fn status_from_lock() {
    assert!(matches!(status(None, true), Status::NotStarted));
    assert!(matches!(
        status(Some(lock(7)), true),
        Status::Running { pid: 7, listen_addr: Some(a) } if a == "127.0.0.1:1080"
    ));
    assert!(matches!(
        status(Some(PidLock { pid: 8, listen_addr: None }), false),
        Status::Stale { pid: 8, listen_addr: None }
    ));
}

#[test]
fn update_listen_addr_keeps_pid() {
    assert!(update_listen_addr(None, "x:1".to_string()).is_none());
    let l = update_listen_addr(Some(lock(9)), "0.0.0.0:2".to_string()).unwrap();
    assert_eq!(l.pid, 9);
    assert_eq!(l.listen_addr, Some("0.0.0.0:2".to_string()));
}

#[test]
fn start_plans() {
    assert_eq!(plan_start(&None, false), StartPlan::Spawn);
    assert_eq!(plan_start(&Some(lock(3)), true), StartPlan::AlreadyRunning { pid: 3 });
    assert_eq!(plan_start(&Some(lock(3)), false), StartPlan::RemoveStaleThenSpawn { pid: 3 });
}

#[test]
fn stop_plans() {
    assert_eq!(plan_stop(&None, true, true), StopPlan::NotStarted);
    assert_eq!(plan_stop(&Some(lock(4)), false, true), StopPlan::RemoveStale { pid: 4 });
    assert_eq!(plan_stop(&Some(lock(4)), true, true), StopPlan::Terminate { pid: 4 });
    assert_eq!(plan_stop(&Some(lock(4)), true, false), StopPlan::RequestGraceful { pid: 4 });
}

#[test]
fn stop_polls_until_gone_or_last_attempt() {
    assert!(matches!(
        stop_poll(5, false, false, 0),
        StopPoll::Done(StopResult::Stopped { pid: 5, force: false })
    ));
    assert!(matches!(stop_poll(5, true, true, 0), StopPoll::Wait));
    assert!(matches!(stop_poll(5, true, true, STOP_POLL_ATTEMPTS - 2), StopPoll::Wait));
    assert!(matches!(stop_poll(5, true, true, STOP_POLL_ATTEMPTS - 1), StopPoll::GiveUp));
}

#[test]
fn traffic_counts_and_wraps() {
    let mut t = TrafficCounter::init();
    t.add(10, 20);
    t.add(5, 0);
    let s = t.snapshot();
    assert_eq!((s.upload_bytes, s.download_bytes), (15, 20));
    t.add(u64::MAX, 1);
    let s = t.snapshot();
    assert_eq!((s.upload_bytes, s.download_bytes), (14, 21));
}

#[test]
fn traffic_order_does_not_matter() {
    let mut a = TrafficCounter::init();
    a.add(3, 4);
    a.add(100, 200);
    let mut b = TrafficCounter::init();
    b.add(100, 200);
    b.add(3, 4);
    let (x, y) = (a.snapshot(), b.snapshot());
    assert_eq!((x.upload_bytes, x.download_bytes), (y.upload_bytes, y.download_bytes));
}

#[test]
fn read_defaults_to_zero() {
    let s = read(None);
    assert_eq!((s.upload_bytes, s.download_bytes), (0, 0));
    let s = read(Some(TrafficSnapshot { upload_bytes: 1, download_bytes: 2 }));
    assert_eq!((s.upload_bytes, s.download_bytes), (1, 2));
    let d = TrafficSnapshot::default();
    assert_eq!((d.upload_bytes, d.download_bytes), (0, 0));
}

fn reference_format_bytes(bytes: u64) -> String {
    let units = ["B", "KiB", "MiB", "GiB", "TiB"];
    let mut value = bytes as f64;
    let mut unit = units[0];
    for next_unit in units.iter().skip(1) {
        if value < 1024.0 {
            break;
        }
        value /= 1024.0;
        unit = next_unit;
    }
    if unit == "B" {
        format!("{bytes} B")
    } else {
        format!("{value:.2} {unit}")
    }
}

#[test]
fn format_bytes_examples() {
    assert_eq!(format_bytes(0), "0 B");
    assert_eq!(format_bytes(1023), "1023 B");
    assert_eq!(format_bytes(1024), "1.00 KiB");
    assert_eq!(format_bytes(1536), "1.50 KiB");
    assert_eq!(format_bytes(3 * 1024 * 1024 * 1024), "3.00 GiB");
    assert_eq!(format_bytes(1024u64.pow(4) * 5000), "5000.00 TiB");
    assert_eq!(format_bytes(u64::MAX), "16777216.00 TiB");
}

#[test]
fn format_bytes_rounds_ties_to_even() {
    // 1152 bytes are exactly 1.125 KiB, 1408 bytes exactly 1.375 KiB.
    assert_eq!(format_bytes(1152), reference_format_bytes(1152));
    assert_eq!(format_bytes(1408), reference_format_bytes(1408));
    assert_eq!(format_bytes(1048575), reference_format_bytes(1048575));
}

#[test]
fn format_bytes_agrees_with_float_formatting() {
    let mut x: u64 = 0x9e37_79b9_7f4a_7c15;
    let mut values: Vec<u64> = (0..2100).collect();
    for shift in 0..64 {
        values.push(1u64 << shift);
        values.push((1u64 << shift).wrapping_sub(1));
        values.push((1u64 << shift).wrapping_add(1));
    }
    for _ in 0..20000 {
        x ^= x << 13;
        x ^= x >> 7;
        x ^= x << 17;
        values.push(x >> (x % 64));
    }
    for v in values {
        assert_eq!(format_bytes(v), reference_format_bytes(v), "{v}");
    }
}

#[test]
fn colors() {
    assert_eq!(color("35", "x"), "\x1b[35mx\x1b[0m");
    assert_eq!(green("ok"), "\x1b[32mok\x1b[0m");
    assert_eq!(yellow("stale"), "\x1b[33mstale\x1b[0m");
    assert_eq!(red("offline"), "\x1b[31moffline\x1b[0m");
    assert_eq!(cyan("a:1"), "\x1b[36ma:1\x1b[0m");
}

#[test]
fn blank_traffic_text_means_zero() {
    let t = egrex::traffic::blank_traffic("\n  ").unwrap();
    assert_eq!((t.upload_bytes, t.download_bytes), (0, 0));
    assert!(egrex::traffic::blank_traffic("upload_bytes = 1").is_none());
}
