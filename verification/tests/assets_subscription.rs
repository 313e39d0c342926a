use backend::asset_loader::{
    file_change, toml_asset_name, watched_asset_id, AssetError, AssetFileChange,
    AssetLoader, FileEventKind, DATA_DIRECTORY,
};
use backend::numbers::parse_u64_radix;
use backend::text::{name_less, names_equal};
use backend::device_status::DeviceSubscriptionStatus;
use backend::subscription::{
    attr_ids_from_device, concrete_event_path, dump_clusters, dump_endpoints, event_paths, read_paths, ClusterListen,
    EndpointClusters, EventPath, StartupEventFilter, SubscriptionAction, SubscriptionEvent,
    STARTUP_EVENT_BLOCK_MS,
};
use backend::target_map::TargetMap;
use backend::ids::EndpointTarget;
use backend::connection_table::ConnectionTable;

fn names<T>(loader: &AssetLoader<T>) -> Vec<String> {
    loader.assets().iter().map(|(n, _)| n.clone()).collect()
}

#[test]
fn names_order_like_str() {
    for (a, b) in [("a", "b"), ("ab", "a"), ("", "a"), ("kitchen", "kitchen2"), ("Z", "a"), ("\u{e9}", "z"), ("x", "x")] {
        assert_eq!(name_less(a, b), a < b, "{a} {b}");
        assert_eq!(name_less(b, a), b < a, "{b} {a}");
        assert_eq!(names_equal(a, b), a == b, "{a} {b}");
    }
}

#[test]
fn loader_keeps_names_sorted_and_replaces() {
    let mut l: AssetLoader<u32> = AssetLoader::new();
    l.insert("kitchen".to_string(), Ok(1));
    l.insert("bath".to_string(), Err(AssetError::Parse("bad".to_string())));
    l.insert("attic".to_string(), Ok(3));
    l.insert("kitchen".to_string(), Ok(4));
    assert_eq!(names(&l), vec!["attic", "bath", "kitchen"]);
    assert_eq!(l.get_asset("kitchen"), Some(&4));
    assert_eq!(l.get_asset("bath"), None);
    assert_eq!(l.get_asset("cellar"), None);
    assert_eq!(l.get_asset_entry("attic"), Some((&"attic".to_string(), &3)));
    assert_eq!(l.assets_iter(), vec![&3, &4]);
}

#[test]
fn stored_asset_is_read_back() {
    let mut l: AssetLoader<u32> = AssetLoader::new();
    l.insert("lamp".to_string(), Err(AssetError::Io("gone".to_string())));
    assert_eq!(l.get_asset("lamp"), None);
    l.store_asset("lamp", 7);
    assert_eq!(l.get_asset("lamp"), Some(&7));
    l.store_asset("desk", 8);
    assert_eq!(names(&l), vec!["desk", "lamp"]);
    assert_eq!(l.assets_iter(), vec![&8, &7]);
    assert!(matches!(l.assets()[0].1, Ok(8)));
}

#[test]
fn asset_files() {
    assert_eq!(DATA_DIRECTORY, "data");
    assert_eq!(AssetLoader::<u32>::base_path("rooms"), "data/rooms");
    assert_eq!(AssetLoader::<u32>::asset_path("rooms", "kitchen"), "data/rooms/kitchen.toml");
    assert_eq!(AssetLoader::<u32>::asset_path("scenes", "v1.2"), "data/scenes/v1.2.toml");
    assert_eq!(AssetLoader::<u32>::asset_path("rooms", ""), "data/rooms.toml");
    assert_eq!(AssetLoader::<u32>::asset_path("rooms", "/etc/x"), "/etc/x.toml");
    assert_eq!(AssetLoader::<u32>::asset_path("rooms", "a/"), "data/rooms/a.toml");
    assert_eq!(AssetLoader::<u32>::asset_path("rooms", "a/./"), "data/rooms/a.toml");
    assert_eq!(AssetLoader::<u32>::asset_path("rooms", ".."), "data/rooms/..");
    assert_eq!(AssetLoader::<u32>::asset_path("rooms", "/"), "/");
    assert_eq!(AssetLoader::<u32>::base_path("/abs"), "/abs");
    assert_eq!(AssetLoader::<u32>::asset_path("rooms/", "k"), "data/rooms/k.toml");
}

#[test]
fn asset_paths_agree_with_path_joining() {
    let names = ["kitchen", "", "/etc/x", "a/", "a/./", "..", "/", ".", "./", "x/..", "a//b", "v1.2", ".hidden"];
    let dirs = ["rooms", "", "/abs", "d/"];
    for dir in dirs {
        for name in names {
            let mut expected = std::path::PathBuf::from("data");
            expected.push(dir);
            expected.push(name);
            let expected = expected.with_added_extension("toml");
            assert_eq!(
                AssetLoader::<u32>::asset_path(dir, name),
                expected.to_str().unwrap(),
                "{dir:?} {name:?}"
            );
        }
    }
}

#[test]
fn asset_names_of_files() {
    assert_eq!(toml_asset_name("kitchen.toml"), Some("kitchen".to_string()));
    assert_eq!(toml_asset_name("a.b.toml"), Some("a.b".to_string()));
    assert_eq!(toml_asset_name(".toml"), None);
    assert_eq!(toml_asset_name("kitchen.json"), None);
    assert_eq!(toml_asset_name("kitchen.TOML"), None);
    assert_eq!(toml_asset_name("toml"), None);
}

#[test]
fn asset_error_kinds() {
    let errors = [AssetError::Io("a".into()), AssetError::Parse("b".into()), AssetError::Serialize("c".into())];
    assert!(matches!(errors[0], AssetError::Io(_)));
    assert!(matches!(errors[1], AssetError::Parse(_)));
    assert!(matches!(errors[2], AssetError::Serialize(_)));
}

fn device() -> Vec<EndpointClusters> {
    vec![
        EndpointClusters {
            endpoint: 0,
            clusters: vec![
                ClusterListen { id: 0x28, listen_attrs: None },
                ClusterListen { id: 0x35, listen_attrs: Some(vec![1, 7]) },
            ],
        },
        EndpointClusters {
            endpoint: 1,
            clusters: vec![
                ClusterListen { id: 6, listen_attrs: Some(vec![0]) },
                ClusterListen { id: 8, listen_attrs: Some(vec![]) },
            ],
        },
    ]
}

#[test]
fn listened_clusters_and_paths() {
    let listens = attr_ids_from_device(&device());
    assert_eq!(listens, vec![(0, 0x35, vec![1, 7]), (1, 6, vec![0]), (1, 8, vec![])]);
    assert_eq!(read_paths(&listens), vec![(0, 0x35, 1), (0, 0x35, 7), (1, 6, 0)]);
    assert_eq!(event_paths(&listens), vec![(0, 0x35), (1, 6), (1, 8)]);
}

#[test]
fn event_paths_must_be_concrete() {
    assert_eq!(
        concrete_event_path(5, Some(1), Some(0x3b), Some(2)),
        Some(EventPath { device: 5, endpoint: 1, cluster: 0x3b, event: 2 })
    );
    assert_eq!(concrete_event_path(5, None, Some(0x3b), Some(2)), None);
    assert_eq!(concrete_event_path(5, Some(1), None, Some(2)), None);
    assert_eq!(concrete_event_path(5, Some(1), Some(0x3b), None), None);
}

#[test]
fn startup_events_are_held_back() {
    assert_eq!(STARTUP_EVENT_BLOCK_MS, 2000);
    let mut g = StartupEventFilter::new();
    assert!(!g.let_through(0));
    assert!(!g.let_through(1999));
    assert!(g.let_through(2000));
    assert!(g.let_through(5));
}

#[test]
fn target_map_insert_get_remove() {
    let t = |d: u64, e: u16| EndpointTarget { device: d, endpoint: e };
    let mut m: TargetMap<u8> = TargetMap::new();
    m.insert(t(1, 1), 10);
    m.insert(t(1, 2), 20);
    m.insert(t(1, 1), 11);
    assert_eq!(m.get(t(1, 1)), Some(&11));
    assert_eq!(m.get(t(1, 2)), Some(&20));
    m.remove(t(1, 1));
    assert_eq!(m.get(t(1, 1)), None);
    assert_eq!(m.get(t(2, 2)), None);
}

#[test]
fn connections_are_replaced_only_when_allowed() {
    let mut table = ConnectionTable::new();
    assert!(table.add_node(7, false));
    assert!(table.is_connected(7));
    assert!(!table.add_node(7, false));
    assert!(table.add_node(7, true));
    table.allow_timed_reconnect(7);
    assert!(table.add_node(7, false));
    assert!(!table.add_node(7, false));
    table.allow_timed_reconnect(8);
    assert!(!table.is_connected(8));
}

#[test]
fn add_nodes_counts_from_one() {
    let mut table = ConnectionTable::new();
    assert_eq!(table.add_nodes(&[1, 2, 2, 3], false), 4);
    assert_eq!(table.add_nodes(&[1, 2], false), 1);
    assert_eq!(table.add_nodes(&[1, 2], true), 3);
    assert_eq!(table.add_nodes(&[], false), 1);
}

#[test]
fn watched_file_changes() {
    assert_eq!(file_change(FileEventKind::Create), Some(AssetFileChange::Upsert));
    assert_eq!(file_change(FileEventKind::Modify), Some(AssetFileChange::Upsert));
    assert_eq!(file_change(FileEventKind::Remove), Some(AssetFileChange::Delete));
    assert_eq!(file_change(FileEventKind::Other), None);
    assert_eq!(watched_asset_id("42"), Some(42));
    assert_eq!(watched_asset_id("+7"), Some(7));
    assert_eq!(watched_asset_id("kitchen"), None);
    assert_eq!(watched_asset_id("18446744073709551616"), None);
}

#[test]
fn radix_parsing_agrees_with_std() {
    let samples = ["0", "1", "101", "zz", "ZZ", "+9", "-1", "", "+", "12a", "18446744073709551615", "18446744073709551616", "1111111111111111111111111111111111111111111111111111111111111111", "3w5e11264sgsf", "3w5e11264sgsg", "\u{e9}"];
    for radix in [2u32, 8, 10, 16, 36] {
        for s in samples {
            assert_eq!(parse_u64_radix(s, radix), u64::from_str_radix(s, radix).ok(), "{s} in base {radix}");
        }
    }
}

#[test]
fn attribute_dump_order() {
    assert_eq!(dump_endpoints(true, &[1, 2]), vec![0, 1, 2]);
    assert_eq!(dump_endpoints(false, &[1, 2]), vec![1, 2]);
    assert_eq!(dump_endpoints(false, &[]), Vec::<u16>::new());
    assert_eq!(dump_clusters(&[6, 8], &[0x1d]), vec![6, 8, 0x1d]);
}

#[test]
fn subscription_deliveries_are_decided_in_order() {
    let mut f = StartupEventFilter::new();
    let data = |elapsed_ms: u64, endpoint: Option<u16>| SubscriptionEvent::EventData {
        elapsed_ms,
        endpoint,
        cluster: Some(0x3b),
        event: Some(1),
    };
    assert!(matches!(f.step(9, SubscriptionEvent::Report), SubscriptionAction::HandleReport));
    assert!(matches!(f.step(9, data(100, Some(1))), SubscriptionAction::IgnoreStartupEvent));
    assert!(matches!(f.step(9, data(2500, None)), SubscriptionAction::SkipEventWithoutPath));
    match f.step(9, data(10, Some(1))) {
        SubscriptionAction::HandleEvent(p) => {
            assert_eq!(p, EventPath { device: 9, endpoint: 1, cluster: 0x3b, event: 1 })
        }
        _ => panic!("event should be handled"),
    }
    match f.step(9, SubscriptionEvent::Lagged { dropped: 0x1_0000_0003 }) {
        SubscriptionAction::Status(DeviceSubscriptionStatus::Lagged { dropped_events }) => {
            assert_eq!(dropped_events, 3)
        }
        _ => panic!("lag should be announced"),
    }
    match f.step(9, SubscriptionEvent::Resubscribing { cause: "timeout".to_string() }) {
        SubscriptionAction::Status(DeviceSubscriptionStatus::Resubscribing { cause }) => assert_eq!(cause, "timeout"),
        _ => panic!("resubscription should be announced"),
    }
    assert!(matches!(
        f.step(9, SubscriptionEvent::Established { subscription_id: 4 }),
        SubscriptionAction::Status(DeviceSubscriptionStatus::Established { subscription_id: 4 })
    ));
    assert!(matches!(f.step(9, SubscriptionEvent::Other), SubscriptionAction::LogOnly));
}
