use dockui::mock::{canned_line, mock_tick, sample_containers, Lcg, MockEmit};

struct Gen(u64);

impl Gen {
    fn next(&mut self) -> u64 {
        self.0 = self.0.wrapping_mul(6364136223846793005).wrapping_add(1442695040888963407);
        self.0 >> 33
    }
}

#[test]
fn mock_tick_sends_stats_event_and_logs() {
    let cs = sample_containers();
    let running: Vec<_> = cs.iter().filter(|c| c.is_running()).collect();
    let k = running.len();
    assert!(k > 0);
    let mut rng = Lcg(42);
    let out = mock_tick(4, 1_700_000_000, &mut rng, &cs);
    assert_eq!(out.len(), k + 1 + k);

    let mut g = Gen(42);
    for (i, c) in running.iter().enumerate() {
        let jitter = g.next() % 100;
        let mem_draw = g.next() % 8_000_000;
        let rx = g.next() % 900_000;
        let tx = g.next() % 300_000;
        match &out[i] {
            MockEmit::Stats { id, cpu_base, cpu_jitter, sample } => {
                assert_eq!(id, &c.id);
                assert_eq!(*cpu_jitter, jitter);
                let (base, mem_base) = if c.name.contains("db") {
                    (22, 412_000_000)
                } else if c.name.contains("api") {
                    (38, 168_000_000)
                } else if c.name.contains("grafana") {
                    (6, 234_000_000)
                } else if c.name.contains("prometheus") {
                    (11, 389_000_000)
                } else {
                    (3, 12_000_000)
                };
                assert_eq!(*cpu_base, base);
                assert_eq!(sample.mem, mem_base + mem_draw);
                assert_eq!(sample.mem_limit, 4_294_967_296);
                assert_eq!(sample.mem_centi, sample.mem * 10000 / 4_294_967_296);
                assert_eq!(sample.net_rx, 1_048_576 * 4 + rx);
                assert_eq!(sample.net_tx, 524_288 * 4 + tx);
                assert_eq!(sample.blk_read, 1_048_576 * 4);
                assert_eq!(sample.blk_write, 524_288 * 4);
                assert_eq!(sample.pids, Some(12));
                assert_eq!(sample.cpu_centi, 0);
            }
            _ => panic!("expected a stats reading"),
        }
    }
    match &out[k] {
        MockEmit::Event(e) => {
            let c = &cs[1 % cs.len()];
            assert_eq!(e.time, 1_700_000_000);
            assert_eq!(e.typ, "container");
            assert_eq!(e.action, "health_status: healthy");
            assert_eq!(e.actor_id, c.id);
            assert_eq!(e.actor_name, c.name);
            assert_eq!(e.scope, "local");
        }
        _ => panic!("expected an event"),
    }
    for (i, c) in running.iter().enumerate() {
        let msg = canned_line(g.next() % 12);
        let ms = g.next() % 999;
        match &out[k + 1 + i] {
            MockEmit::LogLine { name, line } => {
                assert_eq!(name, &c.name);
                assert_eq!(line, &format!("2026-09-20T08:04:28.{:03}Z {msg}", ms));
            }
            _ => panic!("expected a log line"),
        }
    }
    assert_eq!(rng.0, g.0);
}

#[test]
fn mock_tick_odd_second_sends_stats_only() {
    let cs = sample_containers();
    let k = cs.iter().filter(|c| c.is_running()).count();
    let mut rng = Lcg(7);
    let out = mock_tick(3, 0, &mut rng, &cs);
    assert_eq!(out.len(), k);
    assert!(out.iter().all(|e| matches!(e, MockEmit::Stats { .. })));
    // an eighth second reports a death
    let out = mock_tick(8, 0, &mut rng, &cs);
    match &out[k] {
        MockEmit::Event(e) => {
            assert_eq!(e.action, "die");
            assert_eq!(e.actor_id, cs[2 % cs.len()].id);
        }
        _ => panic!("expected an event"),
    }
}
