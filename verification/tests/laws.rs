use dockui::actions::TextInput;
use dockui::app::lists::pick_marked;
use dockui::app::{App, Msg};
use dockui::docker::{resolve_contexts, DockerContext};
use dockui::files::{parse_tar_listing, sorts_before};
use dockui::keys::{Key, KeyCode};
use dockui::mock;
use dockui::model::{DockerEvent, StatsSample};
use dockui::ops::{parse_size, size_of_lowered, sort_ops, Op};
use dockui::text::to_ascii_lower;
use dockui::tree::{rows_kept, RowKind};
use dockui::util::{sort_containers, split_command, split_list};

fn demo_app() -> App {
    let contexts = vec![DockerContext::new("mock-local".to_string(), "mock://local".to_string(), true)];
    let mut app = App::new(true, contexts, Vec::new(), None, false, Vec::new());
    app.handle_msg(Msg::ConnMock);
    app.handle_msg(Msg::Containers(mock::sample_containers()));
    app.handle_msg(Msg::Volumes(mock::sample_volumes()));
    for c in mock::sample_containers() {
        app.handle_msg(Msg::Inspected { id: c.id.clone(), details: mock::sample_details(&c.id) });
    }
    app
}

fn filter(app: &mut App, pattern: &str) {
    app.handle_key(Key::press(KeyCode::Char('/')));
    for c in pattern.chars() {
        app.handle_key(Key::press(KeyCode::Char(c)));
    }
    app.handle_key(Key::press(KeyCode::Enter));
}

fn build_tar(entries: &[(&str, bool)]) -> Vec<u8> {
    let mut b = tar::Builder::new(Vec::new());
    for (path, dir) in entries {
        let mut h = tar::Header::new_gnu();
        if *dir {
            h.set_entry_type(tar::EntryType::Directory);
            h.set_size(0);
            h.set_mode(0o755);
            h.set_cksum();
            b.append_data(&mut h, path, std::io::empty()).unwrap();
        } else {
            h.set_size(3);
            h.set_mode(0o644);
            h.set_cksum();
            b.append_data(&mut h, path, "abc".as_bytes()).unwrap();
        }
    }
    b.into_inner().unwrap()
}

#[test]
fn filtered_tree_shows_every_node_expanded() {
    let mut app = demo_app();
    let projects: Vec<String> = app
        .tree_rows
        .iter()
        .filter(|r| matches!(r.kind, RowKind::Project(_)))
        .map(|r| r.key.clone())
        .collect();
    app.expanded.retain(|k| !projects.contains(k));
    app.rebuild_tree();
    assert!(app.tree_rows.iter().any(|r| matches!(r.kind, RowKind::Project(_)) && !r.expanded));
    filter(&mut app, "e");
    assert!(app.search_active());
    let nodes: Vec<_> = app
        .tree_rows
        .iter()
        .filter(|r| matches!(r.kind, RowKind::Section(_) | RowKind::Project(_) | RowKind::Service(..)))
        .collect();
    assert!(!nodes.is_empty());
    assert!(nodes.iter().all(|r| r.expanded));
}

#[test]
fn container_list_drops_data_of_vanished_containers() {
    let mut app = demo_app();
    let all = mock::sample_containers();
    let gone = all[0].id.clone();
    let kept = all[1].id.clone();
    for id in [&gone, &kept] {
        let sample = StatsSample { cpu_centi: 500, mem: 10, ..Default::default() };
        app.handle_msg(Msg::Stats { id: id.clone(), sample });
    }
    let rest: Vec<_> = all[1..].to_vec();
    app.handle_msg(Msg::Containers(rest.clone()));
    assert_eq!(app.containers.len(), rest.len());
    assert!(!app.stats.iter().any(|(k, _)| *k == gone));
    assert!(!app.cpu_hist.iter().any(|(k, _)| *k == gone));
    assert!(!app.mem_hist.iter().any(|(k, _)| *k == gone));
    assert!(!app.details.iter().any(|(k, _)| *k == gone));
    assert_eq!(app.stats.iter().find(|(k, _)| *k == kept).unwrap().1.cpu_centi, 500);
    assert!(app.details.iter().any(|(k, _)| *k == kept));
    assert!(!app.tree_rows.iter().any(|r| matches!(&r.kind, RowKind::Container(id) if *id == gone)));
}

#[test]
fn tar_listing_is_distinct_sorted_and_flat() {
    let data = build_tar(&[
        ("etc/", true),
        ("etc/zeta", false),
        ("etc/Alpha", false),
        ("etc/beta/", true),
        ("etc/beta/inner", false),
        ("etc/gamma/deep/file", false),
        ("etc/zeta", false),
    ]);
    let list = parse_tar_listing(&data).unwrap();
    let names: Vec<&str> = list.iter().map(|e| e.name.as_str()).collect();
    assert_eq!(names, vec!["beta", "gamma", "Alpha", "zeta"]);
    assert!(list[0].dir && list[1].dir && !list[2].dir && !list[3].dir);
    assert!(list.iter().all(|e| !e.name.contains('/')));
    assert!(list.iter().filter(|e| e.dir).all(|e| e.size == 0));
    assert!(matches!(parse_tar_listing(&[]), Ok(v) if v.is_empty()));
}

#[test]
fn listing_order_compares_lowered_names() {
    assert!(sorts_before(true, "zz", false, "aa"));
    assert!(!sorts_before(false, "aa", true, "zz"));
    assert!(sorts_before(false, "alpha", false, "beta"));
    assert!(!sorts_before(false, "beta", false, "alpha"));
    assert!(!sorts_before(false, "same", false, "same"));
}

#[test]
fn sizes_ignore_blanks_and_letter_case() {
    assert_eq!(parse_size("  12  KB  "), Some(12 * 1024));
    assert_eq!(parse_size("\t3 m\n"), Some(3 * 1024 * 1024));
    assert_eq!(parse_size(" 7 "), Some(7));
    assert_eq!(parse_size("-2g"), Some(-2 * 1024 * 1024 * 1024));
    assert_eq!(parse_size("+5 Gb"), Some(5 * 1024 * 1024 * 1024));
    assert_eq!(parse_size("9 B"), Some(9));
    assert_eq!(parse_size("1 tb"), None);
}

#[test]
fn lowered_sizes_pick_the_unit() {
    assert_eq!(size_of_lowered("12kb"), Some(12 * 1024));
    assert_eq!(size_of_lowered("12 k"), Some(12 * 1024));
    assert_eq!(size_of_lowered("4mb"), Some(4 * 1024 * 1024));
    assert_eq!(size_of_lowered("1g"), Some(1024 * 1024 * 1024));
    assert_eq!(size_of_lowered("100"), Some(100));
    assert_eq!(size_of_lowered("12KB"), None);
    assert_eq!(size_of_lowered("k"), None);
}

#[test]
fn commands_without_quotes_split_on_whitespace() {
    let line = "  ls  -la\t/tmp \n x ";
    let words: Vec<String> = line.split_whitespace().map(String::from).collect();
    assert_eq!(split_command(line), words);
    assert_eq!(split_command("a '' b"), vec!["a", "", "b"]);
}

#[test]
fn split_lists_join_back() {
    let xs = vec!["a=b".to_string(), "c d".to_string(), "e".to_string()];
    assert_eq!(split_list(&xs.join("; ")), xs);
    assert_eq!(split_list(&xs.join(";")), xs);
    let once = split_list(" x ; ;y ;  ");
    assert_eq!(once, vec!["x", "y"]);
    assert_eq!(split_list(&once.join(";")), once);
}

#[test]
fn left_undoes_right() {
    let mut t = TextInput::new("héllo".to_string());
    t.home();
    t.right();
    assert_eq!(t.cursor, 1);
    t.right();
    assert_eq!(t.cursor, 3);
    t.left();
    assert_eq!(t.cursor, 1);
    t.left();
    assert_eq!(t.cursor, 0);
}

#[test]
fn containers_sort_running_first_then_by_name() {
    let all = mock::sample_containers();
    let sorted = sort_containers(all.iter().collect());
    assert_eq!(sorted.len(), all.len());
    for c in &all {
        assert_eq!(
            sorted.iter().filter(|x| x.id == c.id).count(),
            all.iter().filter(|x| x.id == c.id).count()
        );
    }
    for w in sorted.windows(2) {
        let (a, b) = (w[0], w[1]);
        let ra = a.state == "running";
        let rb = b.state == "running";
        assert!(ra || !rb);
        if ra == rb {
            assert!(a.name <= b.name);
        }
    }
}

#[test]
fn ops_sort_by_name_and_keep_every_op() {
    let op = |d: &str| Op { description: Some(d.to_string()), ..Default::default() };
    let list = vec![
        ("zz".to_string(), op("1")),
        ("aa".to_string(), op("2")),
        ("mm".to_string(), op("3")),
        ("aa".to_string(), op("4")),
    ];
    let sorted = sort_ops(list);
    let names: Vec<&str> = sorted.iter().map(|(n, _)| n.as_str()).collect();
    assert_eq!(names, vec!["aa", "aa", "mm", "zz"]);
    let descs: Vec<&str> = sorted.iter().map(|(_, o)| o.description.as_deref().unwrap()).collect();
    assert_eq!(descs, vec!["2", "4", "3", "1"]);
}

#[test]
fn contexts_are_sorted_with_one_current() {
    let found = vec![
        ("zeta".to_string(), "unix:///z.sock".to_string()),
        ("alpha".to_string(), "tcp://10.0.0.1:2375".to_string()),
        ("mid".to_string(), "ssh://me@host".to_string()),
    ];
    let r = resolve_contexts(found, Some("mid".to_string()), None);
    let names: Vec<&str> = r.iter().map(|c| c.name.as_str()).collect();
    assert_eq!(names, vec!["alpha", "mid", "zeta"]);
    assert_eq!(r.iter().filter(|c| c.current).count(), 1);
    assert!(r[1].current);

    let stale = resolve_contexts(vec![("b".to_string(), "unix:///b".to_string())], Some("gone".to_string()), None);
    assert_eq!(stale.iter().filter(|c| c.current).count(), 1);
    assert!(stale[0].current);

    let none = resolve_contexts(Vec::new(), None, None);
    assert_eq!(none.len(), 1);
    assert_eq!(none[0].name, "default");
    assert_eq!(none[0].endpoint, "unix:///var/run/docker.sock");
    assert!(none[0].current);

    let env = resolve_contexts(Vec::new(), None, Some("tcp://1.2.3.4:2375".to_string()));
    assert!(env.iter().any(|c| c.current && c.endpoint == "tcp://1.2.3.4:2375"));
}

#[test]
fn ascii_lowering_of_one_character() {
    assert_eq!(to_ascii_lower('A'), 'a');
    assert_eq!(to_ascii_lower('Z'), 'z');
    assert_eq!(to_ascii_lower('m'), 'm');
    assert_eq!(to_ascii_lower('É'), 'É');
    assert_eq!(to_ascii_lower('1'), '1');
}

#[test]
fn current_context_is_the_selected_one() {
    let app = demo_app();
    assert_eq!(app.current_context().name, "mock-local");
}

#[test]
fn filter_keeps_marked_rows_with_their_ancestors() {
    let app = demo_app();
    let rows = &app.tree_rows;
    let target = rows.iter().position(|r| matches!(r.kind, RowKind::Container(_)) && r.depth == 3).unwrap();
    let mut hits = vec![false; rows.len()];
    hits[target] = true;
    let keep = rows_kept(rows, &hits);
    assert!(keep[target]);
    assert!(keep[0]);
    let kept: Vec<usize> = (0..rows.len()).filter(|&i| keep[i]).collect();
    assert_eq!(kept.len(), 4);
    assert!(kept.iter().all(|&i| i <= target));
}

#[test]
fn marked_items_are_picked_in_order() {
    let ev = |time: i64| DockerEvent {
        time,
        typ: "container".to_string(),
        action: "start".to_string(),
        actor_id: String::new(),
        actor_name: String::new(),
        scope: "local".to_string(),
    };
    let items = vec![ev(1), ev(2), ev(3)];
    let picked = pick_marked(&items, &vec![true, false, true]);
    let times: Vec<i64> = picked.iter().map(|e| e.time).collect();
    assert_eq!(times, vec![1, 3]);
}

#[test]
fn removing_a_demo_container_forgets_its_data() {
    let mut app = demo_app();
    let id = app.containers[0].id.clone();
    let sample = StatsSample { cpu_centi: 100, mem: 5, ..Default::default() };
    app.handle_msg(Msg::Stats { id: id.clone(), sample });
    assert!(app.stats.iter().any(|(k, _)| *k == id));
    app.tree_sel = app
        .tree_rows
        .iter()
        .position(|r| matches!(&r.kind, RowKind::Container(c) if *c == id))
        .unwrap();
    app.handle_key(Key::press(KeyCode::Char('D')));
    app.handle_key(Key::press(KeyCode::Char('y')));
    assert!(!app.containers.iter().any(|c| c.id == id));
    assert!(!app.details.iter().any(|(k, _)| *k == id));
    assert!(!app.stats.iter().any(|(k, _)| *k == id));
    assert!(!app.cpu_hist.iter().any(|(k, _)| *k == id));
    assert!(!app.mem_hist.iter().any(|(k, _)| *k == id));
}
