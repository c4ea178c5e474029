use pdfs_fuse::diagnostics::{
    diagnostics, inflight_report, parse_vm_rss, pending_ops_quickly, request_kind, start_clock,
    Inflight, InflightGuard, PoolSnapshot, PoolWorker,
};

#[test]
fn the_request_kind_comes_off_both_wire_shapes() {
    assert_eq!(request_kind("\"Status\""), "Status");
    assert_eq!(request_kind("{\"Pin\":{\"path\":\"a\"}}"), "Pin");
    assert_eq!(request_kind(" { \"Restore\" : {} } "), "Restore");
    assert_eq!(request_kind("garbage"), "unknown");
}

#[test]
fn a_guard_registers_only_while_it_lives() {
    let mut inflight = Inflight::new();
    let before = inflight.entries.len();
    {
        let guard = InflightGuard::new(&mut inflight, "OpenFile".into(), 0);
        assert_eq!(inflight.entries.len(), before + 1);
        inflight.release(guard);
    }
    assert_eq!(inflight.entries.len(), before);
}

#[test]
fn a_guard_releases_only_its_own_entry() {
    let mut inflight = Inflight::new();
    let a = InflightGuard::new(&mut inflight, "A".into(), 0);
    let _b = InflightGuard::new(&mut inflight, "B".into(), 0);
    inflight.release(a);
    assert_eq!(inflight.entries.len(), 1);
    assert_eq!(inflight.entries[0].kind, "B");
}

#[test]
fn vm_rss_is_kilobytes_and_absence_is_zero() {
    assert_eq!(
        parse_vm_rss("VmPeak:\t 100 kB\nVmRSS:\t  2048 kB\n"),
        2048 * 1024
    );
    assert_eq!(parse_vm_rss("VmPeak:\t 100 kB\n"), 0);
}

#[test]
fn an_unreadable_or_huge_rss_is_bounded() {
    assert_eq!(parse_vm_rss("VmRSS: x kB\n"), 0);
    assert_eq!(parse_vm_rss("VmRSS:\nVmRSS: 4 kB\n"), 0, "the first line counts");
    assert_eq!(parse_vm_rss("VmRSS: 18446744073709551615 kB"), u64::MAX);
    assert_eq!(parse_vm_rss(""), 0);
}

#[test]
fn the_clock_starts_once() {
    let mut started = None;
    start_clock(&mut started, 7);
    start_clock(&mut started, 9);
    assert_eq!(started, Some(7));
}

#[test]
fn a_report_lists_the_oldest_request_first() {
    let mut inflight = Inflight::new();
    let _a = InflightGuard::new(&mut inflight, "young".into(), 9_000);
    let _b = InflightGuard::new(&mut inflight, "old".into(), 1_000);
    let rows = inflight_report(Some(&inflight), 10_500);
    assert_eq!(rows[0].kind, "old");
    assert_eq!((rows[0].age_secs, rows[1].age_secs), (9, 1));
    assert!(inflight_report(None, 0).is_empty());
    let pool = PoolSnapshot {
        workers: vec![PoolWorker {
            name: "w".to_string(),
            busy: true,
            label: "l".to_string(),
            age_ms: 2_500,
        }],
        meta_queued: 1,
        transfer_queued: 2,
        meta_completed: 3,
        transfer_completed: 4,
    };
    let d = diagnostics(pool, Some(&inflight), 500, 10_500, Some("VmRSS: 1 kB"), 5, 6, Some((2, -1)));
    assert_eq!((d.uptime_secs, d.rss_bytes, d.pending_ops), (10, 1024, 2));
    assert_eq!(d.workers[0].age_secs, 2);
    assert_eq!(d.inflight.len(), 2);
    assert_eq!((d.control_handlers, d.control_handler_limit), (5, 6));
    assert_eq!(pending_ops_quickly(None), 0);
}
