use redis::InfoDict;
use redis_sweep::endpoint::{client_for, connection_url, Endpoint};
use redis_sweep::extract::{
    classify_type, file_in, key_file, partition_dir, scan_keyspace, value_to_write, write_for, KeyAction,
    KeyspaceScan,
};
use redis_sweep::info::{describe, described};
use redis_sweep::probe::{after_command, after_connect, reach_passes, reachable, responsive, Config, Handshake, Step};
use redis_sweep::targets::parse_targets;
use redis_sweep::text::{decimal, parse_u8, split_pieces};

fn ep(s: &str) -> Endpoint {
    Endpoint::new(s.to_string())
}

fn addrs(v: &[Endpoint]) -> Vec<String> {
    v.iter().map(|e| e.addr.clone()).collect()
}

const FULL_INFO: &str = "# Server\r\nredis_version:7.0.11\r\nredis_mode:standalone\r\nos:Linux 6.1 x86_64\r\narch_bits:64\r\ngcc_version:12.2.0\r\n# Clients\r\nconnected_clients:3\r\n# Replication\r\nrole:master\r\nconnected_slaves:0\r\n# Stats\r\npubsub_channels:2\r\n# Keyspace\r\ndb0:keys=1,expires=0,avg_ttl=0\r\n";

#[test]
fn targets_skip_empty_lines() {
    let t = parse_targets("127.0.0.1:6379\n\n10.0.0.2:6380\n");
    assert_eq!(t, vec!["127.0.0.1:6379".to_string(), "10.0.0.2:6380".to_string()]);
}

#[test]
fn targets_keep_duplicates() {
    let t = parse_targets("1.2.3.4:1\n1.2.3.4:1");
    assert_eq!(t.len(), 2);
}

#[test]
fn empty_target_list_gives_nothing_at_every_stage() {
    let t = parse_targets("");
    assert!(t.is_empty());
    let none: Vec<Endpoint> = Vec::new();
    assert!(reachable(&none, &[].to_vec()).is_empty());
    assert!(responsive(&none, &[].to_vec()).is_empty());
    assert!(described(&none, &Vec::new()).is_empty());
}

#[test]
fn split_keeps_empty_pieces() {
    assert_eq!(split_pieces("a,,b", ','), vec!["a".to_string(), String::new(), "b".to_string()]);
    assert_eq!(split_pieces("", ','), vec![String::new()]);
    assert_eq!(split_pieces("x,", ','), vec!["x".to_string(), String::new()]);
}

#[test]
fn u8_parsing_matches_std() {
    for s in ["0", "7", "+7", "007", "255", "256", "", "+", "-1", "1a", " 1", "999999999999"] {
        assert_eq!(parse_u8(s), s.parse::<u8>().ok(), "on {:?}", s);
    }
    assert_eq!(parse_u8("12"), Some(12));
}

#[test]
fn decimal_text() {
    assert_eq!(decimal(0), "0");
    assert_eq!(decimal(9), "9");
    assert_eq!(decimal(1234), "1234");
    assert_eq!(decimal(u64::MAX), u64::MAX.to_string());
}

#[test]
fn standard_limits() {
    let c = Config::standard();
    assert_eq!(c.probe_concurrency, 16);
    assert_eq!(c.extraction_concurrency, 4);
    assert_eq!(c.connect_timeout_ms, 10000);
}

#[test]
fn reachability_keeps_only_completed_connects() {
    assert!(reach_passes(Step::Completed));
    assert!(!reach_passes(Step::Failed));
    assert!(!reach_passes(Step::TimedOut));
    let c = vec![ep("10.0.0.1:1"), ep("10.0.0.2:2"), ep("10.0.0.3:3"), ep("10.0.0.4:4")];
    let r = reachable(&c, &vec![Step::Completed, Step::Failed, Step::TimedOut, Step::Completed]);
    assert_eq!(addrs(&r), vec!["10.0.0.1:1".to_string(), "10.0.0.4:4".to_string()]);
}

#[test]
fn hung_probe_is_dropped_and_others_survive() {
    let c = vec![ep("10.0.0.1:1"), ep("10.0.0.2:2")];
    let r = reachable(&c, &vec![Step::TimedOut, Step::Completed]);
    assert_eq!(addrs(&r), vec!["10.0.0.2:2".to_string()]);
}

#[test]
fn handshake_verdicts() {
    assert_eq!(after_connect(Step::Completed), None);
    assert_eq!(after_connect(Step::Failed), Some(Handshake::ConnectFailed));
    assert_eq!(after_connect(Step::TimedOut), Some(Handshake::ConnectTimedOut));
    assert_eq!(after_command(Step::Completed), Handshake::Passed);
    assert_eq!(after_command(Step::Failed), Handshake::CommandFailed);
    assert_eq!(after_command(Step::TimedOut), Handshake::CommandTimedOut);
}

#[test]
fn handshake_stage_keeps_passed() {
    let c = vec![ep("a:1"), ep("b:2"), ep("c:3")];
    let r = responsive(&c, &vec![Handshake::CommandTimedOut, Handshake::Passed, Handshake::ConnectFailed]);
    assert_eq!(addrs(&r), vec!["b:2".to_string()]);
}

#[test]
fn stage_output_is_subset_of_input() {
    let c = vec![ep("a:1"), ep("b:2"), ep("a:1")];
    let r = reachable(&c, &vec![Step::Completed, Step::Completed, Step::Completed]);
    assert!(r.len() <= c.len());
    for e in &r {
        assert!(c.iter().any(|x| x.addr == e.addr));
    }
}

#[test]
fn full_record() {
    let d = InfoDict::new(FULL_INFO);
    let r = describe(&ep("127.0.0.1:6379"), &d).unwrap();
    assert_eq!(r.addr.addr, "127.0.0.1:6379");
    assert_eq!(r.redis_version, "7.0.11");
    assert_eq!(r.redis_mode, "standalone");
    assert_eq!(r.arch_bits, 64);
    assert_eq!(r.gcc_version, "12.2.0");
    assert_eq!(r.os, "Linux 6.1 x86_64");
    assert_eq!(r.connected_clients, 3);
    assert_eq!(r.role, "master");
    assert_eq!(r.connected_slaves, 0);
    assert_eq!(r.pubsub_channels, 2);
    assert_eq!(r.db0, "keys=1,expires=0,avg_ttl=0");
    assert_eq!(r.db1, "");
}

#[test]
fn missing_optional_fields_default() {
    let d = InfoDict::new(
        "redis_version:3.0.0\r\narch_bits:32\r\nconnected_clients:1\r\nrole:slave\r\nconnected_slaves:0\r\npubsub_channels:0\r\n",
    );
    let r = describe(&ep("h:1"), &d).unwrap();
    assert_eq!(r.redis_mode, "unknown");
    assert_eq!(r.gcc_version, "unknown");
    assert_eq!(r.os, "unknown");
    assert_eq!(r.db0, "");
    assert_eq!(r.db1, "");
    assert_eq!(r.arch_bits, 32);
    assert_eq!(r.role, "slave");
}

#[test]
fn missing_mandatory_field_drops_record() {
    for key in ["redis_version", "arch_bits", "connected_clients", "role", "connected_slaves", "pubsub_channels"] {
        let text: String = FULL_INFO
            .split("\r\n")
            .filter(|l| !l.starts_with(&format!("{}:", key)))
            .collect::<Vec<_>>()
            .join("\r\n");
        assert!(describe(&ep("h:1"), &InfoDict::new(&text)).is_none(), "without {}", key);
    }
}

#[test]
fn unreadable_number_drops_record() {
    let text = FULL_INFO.replace("arch_bits:64", "arch_bits:sixty-four");
    assert!(describe(&ep("h:1"), &InfoDict::new(&text)).is_none());
}

#[test]
fn metadata_stage_keeps_answering_hosts() {
    let c = vec![ep("a:1"), ep("b:2"), ep("c:3")];
    let replies = vec![Some(InfoDict::new(FULL_INFO)), None, Some(InfoDict::new("role:master\r\n"))];
    let r = described(&c, &replies);
    assert_eq!(r.len(), 1);
    assert_eq!(r[0].addr.addr, "a:1");
}

#[test]
fn keyspace_empty_reply_skips() {
    assert_eq!(scan_keyspace(""), KeyspaceScan::Empty);
}

#[test]
fn keyspace_lists_partitions() {
    let s = scan_keyspace("# Keyspace\r\ndb0:keys=1,expires=0,avg_ttl=0\r\ndb12:keys=3,expires=0,avg_ttl=0\r\n");
    assert_eq!(s, KeyspaceScan::Partitions(vec![0, 12]));
    assert_eq!(scan_keyspace("# Keyspace\r\n"), KeyspaceScan::Partitions(vec![]));
}

#[test]
fn keyspace_malformed_line() {
    assert_eq!(scan_keyspace("# Keyspace\r\ndbx:keys=1\r\n"), KeyspaceScan::Malformed);
    assert_eq!(scan_keyspace("db300:keys=1\r\n"), KeyspaceScan::Malformed);
    assert_eq!(scan_keyspace("db:keys=1\r\n"), KeyspaceScan::Malformed);
}

#[test]
fn partition_directory() {
    assert_eq!(partition_dir("./output", &ep("127.0.0.1:6379"), 0), "./output/127.0.0.1:6379/0");
    assert_eq!(partition_dir("./output", &ep("10.1.1.1:7000"), 15), "./output/10.1.1.1:7000/15");
}

#[test]
fn key_files() {
    assert_eq!(file_in("d", "x"), "d/x.txt");
    assert_eq!(key_file("d", "greeting"), "d/greeting.txt");
    assert_eq!(key_file("d", "a/b:c"), "d/a_b_c.txt");
    let long = "k".repeat(100);
    assert_eq!(key_file("d", &long), format!("d/{}.txt", "k".repeat(64)));
}

#[test]
fn type_dispatch() {
    assert_eq!(classify_type(&"none".to_string()), KeyAction::Vanished);
    assert_eq!(classify_type(&"string".to_string()), KeyAction::Fetch);
    assert_eq!(classify_type(&"list".to_string()), KeyAction::Unhandled);
    assert_eq!(classify_type(&"hash".to_string()), KeyAction::Unhandled);
}

#[test]
fn value_is_written_verbatim() {
    assert_eq!(value_to_write(&vec![" hello \n".to_string()]), Some(" hello \n".to_string()));
    assert_eq!(value_to_write(&vec![]), None);
    let w = write_for("d", "greeting", &vec!["hello".to_string()]).unwrap();
    assert_eq!(w.path, "d/greeting.txt");
    assert_eq!(w.contents, "hello");
    let again = write_for("d", "greeting", &vec!["hello".to_string()]).unwrap();
    assert_eq!((again.path, again.contents), (w.path, w.contents));
    assert!(write_for("d", "greeting", &vec![]).is_none());
}

#[test]
fn urls_and_clients() {
    assert_eq!(connection_url(&ep("127.0.0.1:6379")), "redis://127.0.0.1:6379/");
    assert!(client_for(&ep("127.0.0.1:6379")).is_some());
}

#[test]
fn three_target_scenario() {
    let targets = parse_targets("127.0.0.1:1\n127.0.0.1:2\n127.0.0.1:6379\n");
    let c: Vec<Endpoint> = targets.into_iter().map(Endpoint::new).collect();
    // nothing listens on the first; the second is a plain TCP listener
    let alive = reachable(&c, &vec![Step::Failed, Step::Completed, Step::Completed]);
    assert_eq!(addrs(&alive), vec!["127.0.0.1:2".to_string(), "127.0.0.1:6379".to_string()]);
    assert_eq!(after_connect(Step::Completed), None);
    let verdicts = vec![after_command(Step::Failed), after_command(Step::Completed)];
    let open = responsive(&alive, &verdicts);
    assert_eq!(addrs(&open), vec!["127.0.0.1:6379".to_string()]);
    let records = described(&open, &vec![Some(InfoDict::new(FULL_INFO))]);
    assert_eq!(records.len(), 1);
    let scan = scan_keyspace("# Keyspace\r\ndb0:keys=1,expires=0,avg_ttl=0\r\n");
    let parts = match scan {
        KeyspaceScan::Partitions(p) => p,
        _ => panic!("no partitions"),
    };
    assert_eq!(parts, vec![0]);
    let dir = partition_dir("./output", &records[0].addr, parts[0]);
    assert_eq!(classify_type(&"string".to_string()), KeyAction::Fetch);
    let w = write_for(&dir, "greeting", &vec!["hello".to_string()]).unwrap();
    assert_eq!(w.path, "./output/127.0.0.1:6379/0/greeting.txt");
    assert_eq!(w.contents, "hello");
}

#[test]
fn keyspace_line_without_colon() {
    assert_eq!(scan_keyspace("db5\r\n"), KeyspaceScan::Partitions(vec![5]));
    assert_eq!(scan_keyspace("db01:keys=2\ndb2:keys=1"), KeyspaceScan::Partitions(vec![1, 2]));
}

#[test]
fn numbers_in_records_read_like_std() {
    let text = FULL_INFO.replace("connected_clients:3", "connected_clients:+12");
    let r = describe(&ep("h:1"), &InfoDict::new(&text)).unwrap();
    assert_eq!(r.connected_clients, 12);
    let text = FULL_INFO.replace("pubsub_channels:2", "pubsub_channels:-2");
    assert!(describe(&ep("h:1"), &InfoDict::new(&text)).is_none());
}

#[test]
fn refused_url_gives_no_client() {
    assert!(client_for(&ep("bad host:1")).is_none());
}

#[test]
fn duplicate_targets_keep_their_own_replies() {
    let c = vec![ep("a:1"), ep("a:1"), ep("a:1")];
    let second = FULL_INFO.replace("redis_version:7.0.11", "redis_version:6.2.0");
    let replies = vec![Some(InfoDict::new(&second)), None, Some(InfoDict::new(FULL_INFO))];
    let r = described(&c, &replies);
    assert_eq!(r.len(), 2);
    assert_eq!(r[0].redis_version, "6.2.0");
    assert_eq!(r[1].redis_version, "7.0.11");
}

#[test]
fn key_file_names_stay_in_their_directory() {
    let p = key_file("out/0", "../../etc/passwd");
    assert!(p.starts_with("out/0/"));
    assert!(!p["out/0/".len()..].contains('/'));
}
