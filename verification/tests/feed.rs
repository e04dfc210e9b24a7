use dockui::feed::{event_from, sample_from, volume_from, EventActor, EventKind, LineBuffer, VolumeScope};

fn s(v: &str) -> String {
    v.to_string()
}

#[test]
fn line_buffer_keeps_partial_lines() {
    let mut b = LineBuffer::new();
    assert!(b.feed("ab").is_empty());
    assert_eq!(b.feed("c\nde\r\nf"), vec![s("abc\n"), s("de\r\n")]);
    assert_eq!(b.pending, "f");
    assert_eq!(b.finish(), Some(s("f")));
}

#[test]
fn line_buffer_finish_trims_carriage_returns() {
    let mut b = LineBuffer::new();
    assert!(b.feed("x\r\r").is_empty());
    assert_eq!(b.finish(), Some(s("x")));
    let mut c = LineBuffer::new();
    assert!(c.feed("\r").is_empty());
    assert_eq!(c.finish(), None);
    assert_eq!(LineBuffer::new().finish(), None);
}

#[test]
fn line_buffer_chunking_does_not_matter() {
    let mut a = LineBuffer::new();
    let mut lines = a.feed("one\ntw");
    lines.extend(a.feed("o\nthree"));
    let mut b = LineBuffer::new();
    let all = b.feed("one\ntwo\nthree");
    assert_eq!(lines, all);
    assert_eq!(a.pending, b.pending);
}

#[test]
fn event_from_picks_actor_name() {
    let actor = |name: Option<&str>, container: Option<&str>| EventActor {
        id: Some(s("0123456789abcdef")),
        name_attr: name.map(s),
        container_attr: container.map(s),
    };
    let e = event_from(Some(7), EventKind::Container, &Some(s("start")), &Some(actor(Some("web"), Some("c"))), &Some(s("local")));
    assert_eq!((e.time, e.typ.as_str(), e.action.as_str()), (7, "container", "start"));
    assert_eq!((e.actor_id.as_str(), e.actor_name.as_str(), e.scope.as_str()), ("0123456789abcdef", "web", "local"));
    let e = event_from(None, EventKind::Network, &None, &Some(actor(None, Some("c"))), &None);
    assert_eq!((e.time, e.typ.as_str(), e.action.as_str(), e.actor_name.as_str()), (0, "network", "", "c"));
    let e = event_from(None, EventKind::Unknown, &None, &Some(actor(None, None)), &None);
    assert_eq!((e.typ.as_str(), e.actor_name.as_str()), ("?", "0123456789ab"));
    let e = event_from(None, EventKind::Image, &None, &None, &None);
    assert_eq!((e.actor_id.as_str(), e.actor_name.as_str(), e.scope.as_str()), ("", "", ""));
}

#[test]
fn volume_from_scope_and_counts() {
    let v = volume_from(s("data"), s("local"), None, s("/var/lib/docker/volumes/data"), vec![], Some((-1, 3)));
    assert_eq!((v.scope.as_str(), v.size, v.ref_count), ("local", Some(0), Some(3)));
    let v = volume_from(s("g"), s("d"), Some(VolumeScope::Global), s("/m"), vec![(s("k"), s("v"))], None);
    assert_eq!((v.scope.as_str(), v.size, v.ref_count), ("global", None, None));
    assert_eq!(v.labels, vec![(s("k"), s("v"))]);
    let v = volume_from(s("u"), s("d"), Some(VolumeScope::Unset), s("/m"), vec![], Some((2048, 0)));
    assert_eq!((v.scope.as_str(), v.size), ("", Some(2048)));
}

#[test]
fn sample_from_sums_counters() {
    let nets = Some(vec![(100, 10), (50, 5)]);
    let blk = Some(vec![(s("read"), 7), (s("write"), 3), (s("sync"), 99), (s("read"), 1)]);
    let r = sample_from(1250, Some(1 << 30), Some(1 << 32), &nets, &Some((1, 1)), &blk, Some(12));
    assert_eq!(r.cpu_centi, 1250);
    assert_eq!((r.mem, r.mem_limit, r.mem_centi), (1 << 30, 1 << 32, 2500));
    assert_eq!((r.net_rx, r.net_tx, r.blk_read, r.blk_write, r.pids), (150, 15, 8, 3, Some(12)));
    // the single counter counts only where there is no per-interface list
    let r = sample_from(0, None, None, &None, &Some((9, 4)), &None, None);
    assert_eq!((r.mem, r.mem_limit, r.mem_centi, r.net_rx, r.net_tx, r.blk_read), (0, 0, 0, 9, 4, 0));
}
