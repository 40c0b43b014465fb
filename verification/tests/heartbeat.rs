use sidekiq_stats::command::{Command, Request, Value};
use sidekiq_stats::counter::Counter;
use sidekiq_stats::delivery::{Delivery, Next};
use sidekiq_stats::identity::{generate_identity, identity_with_nonce};
use sidekiq_stats::process::ProcessStats;
use sidekiq_stats::publisher::{StatsPublisher, HEARTBEAT_TTL_SECONDS};
use std::collections::{BTreeMap, BTreeSet};

/// A server that keeps its data in memory.
#[derive(Clone, Debug, Default, PartialEq)]
struct Server {
    hashes: BTreeMap<String, BTreeMap<String, String>>,
    sets: BTreeMap<String, BTreeSet<String>>,
    expiries: BTreeMap<String, i64>,
    round_trips: usize,
}

impl Server {
    fn perform(&mut self, command: &Command) -> Result<(), String> {
        match command {
            Command::HashSet { key, fields } => {
                if self.sets.contains_key(key) {
                    return Err("WRONGTYPE".to_string());
                }
                let hash = self.hashes.entry(key.clone()).or_default();
                for field in fields {
                    let value = match &field.value {
                        Value::Text(text) => text.clone(),
                        Value::Number(number) => number.to_string(),
                        Value::Seconds { millis } => (*millis as f64 / 1000.0).to_string(),
                    };
                    hash.insert(field.name.clone(), value);
                }
            }
            Command::Expire { key, seconds } => {
                if self.has(key) {
                    self.expiries.insert(key.clone(), *seconds);
                }
            }
            Command::SetAdd { set, member } => {
                if self.hashes.contains_key(set) {
                    return Err("WRONGTYPE".to_string());
                }
                self.sets.entry(set.clone()).or_default().insert(member.clone());
            }
            Command::SetRemove { set, member } => {
                if self.hashes.contains_key(set) {
                    return Err("WRONGTYPE".to_string());
                }
                if let Some(members) = self.sets.get_mut(set) {
                    members.remove(member);
                    if members.is_empty() {
                        self.sets.remove(set);
                    }
                }
            }
            Command::Unlink { key } => {
                self.hashes.remove(key);
                self.sets.remove(key);
                self.expiries.remove(key);
            }
        }
        Ok(())
    }

    fn send(&mut self, requests: Vec<Request>) -> Result<(), String> {
        let mut delivery = Delivery::new(requests);
        let mut reply = Ok(());
        loop {
            match delivery.next(reply.is_ok()) {
                Next::Send(request) => {
                    self.round_trips += 1;
                    reply = request.commands.iter().map(|command| self.perform(command)).collect();
                }
                Next::Delivered | Next::Abandoned => return reply,
            }
        }
    }

    fn has(&self, key: &str) -> bool {
        self.hashes.contains_key(key) || self.sets.contains_key(key)
    }

    fn sismember(&self, set: &str, member: &str) -> bool {
        self.sets.get(set).map_or(false, |members| members.contains(member))
    }

    fn smembers(&self, set: &str) -> Vec<String> {
        self.sets.get(set).map_or(Vec::new(), |members| members.iter().cloned().collect())
    }

    fn scard(&self, set: &str) -> usize {
        self.smembers(set).len()
    }

    fn hget(&self, key: &str, field: &str) -> String {
        self.hashes[key][field].clone()
    }
}

fn stats_of(publisher: &StatsPublisher) -> ProcessStats {
    publisher.create_process_stats(2044, 107068, "1.2.3")
}

fn publish(publisher: &StatsPublisher, server: &mut Server) -> Result<(), String> {
    server.send(publisher.publish_stats(stats_of(publisher), "{}".to_string()))
}

fn deregister(publisher: &StatsPublisher, server: &mut Server) -> Result<(), String> {
    server.send(publisher.deregister())
}

fn new_publisher() -> StatsPublisher {
    StatsPublisher::new(
        "testhost".to_string(),
        vec!["default".to_string()],
        Counter::new(0),
        1,
        107068,
    )
}

#[test]
fn deregister_removes_identity_from_processes_set() {
    let mut redis = Server::default();
    let p = new_publisher();

    publish(&p, &mut redis).unwrap();
    assert!(redis.sismember("processes", p.identity()), "should be in set after publish_stats");

    deregister(&p, &mut redis).unwrap();
    assert!(
        !redis.sismember("processes", p.identity()),
        "should be removed from set after deregister"
    );
}

#[test]
fn deregister_deletes_heartbeat_hash() {
    let mut redis = Server::default();
    let p = new_publisher();

    publish(&p, &mut redis).unwrap();
    assert!(redis.has(p.identity()), "heartbeat hash should exist");

    deregister(&p, &mut redis).unwrap();
    assert!(
        !redis.has(p.identity()),
        "heartbeat hash should be deleted after deregister"
    );
}

#[test]
fn deregister_does_not_affect_sibling_process() {
    let mut redis = Server::default();
    let p1 = new_publisher();
    let p2 = new_publisher();

    publish(&p1, &mut redis).unwrap();
    publish(&p2, &mut redis).unwrap();

    deregister(&p1, &mut redis).unwrap();

    assert!(
        redis.sismember("processes", p2.identity()),
        "sibling process must remain registered after p1 deregisters"
    );
    assert!(redis.has(p2.identity()));

    deregister(&p2, &mut redis).unwrap();
    assert!(!redis.has("processes"));
}

#[test]
fn deregister_is_idempotent() {
    let mut redis = Server::default();
    let p = new_publisher();

    publish(&p, &mut redis).unwrap();
    deregister(&p, &mut redis).unwrap();
    let once = redis.hashes.clone();
    deregister(&p, &mut redis).unwrap();
    assert_eq!(redis.hashes, once);
    assert_eq!(redis.scard("processes"), 0);
}

#[test]
fn graceful_shutdown_removes_process_from_processes_set() {
    let mut redis = Server::default();
    let p = new_publisher();

    publish(&p, &mut redis).unwrap();
    assert_eq!(
        redis.scard("processes"),
        1,
        "process should be registered in set after first heartbeat"
    );

    deregister(&p, &mut redis).unwrap();
    assert_eq!(
        redis.scard("processes"),
        0,
        "processes set must be empty after graceful shutdown"
    );
    assert_eq!((redis.hashes, redis.sets, redis.expiries), Default::default());
}

#[test]
fn early_shutdown_leaves_processes_set_empty() {
    let mut redis = Server::default();
    let p = new_publisher();

    deregister(&p, &mut redis).unwrap();

    assert_eq!(
        redis.scard("processes"),
        0,
        "processes set must be empty when cancelled before first heartbeat"
    );
}

#[test]
fn stats_publisher_writes_process_info() {
    let mut redis = Server::default();

    let queues = vec!["default".to_string(), "critical".to_string()];
    let busy = Counter::new(0);
    let publisher =
        StatsPublisher::new("test-host".to_string(), queues.clone(), busy.clone(), 4, 107068);

    let stats = stats_of(&publisher);
    assert_eq!(stats.info.hostname, "test-host");
    assert_eq!(stats.info.concurrency, 4);
    assert_eq!(stats.info.queues, queues);
    assert_eq!(stats.info.identity, publisher.identity());
    assert_eq!(stats.info.pid, 107068);
    assert_eq!(stats.info.tag, "");
    assert!(stats.info.labels.is_empty());
    assert_eq!(stats.info.version, "1.2.3");
    assert!(!stats.info.embedded);

    let info = "{\"hostname\":\"test-host\"}".to_string();
    redis.send(publisher.publish_stats(stats, info.clone())).unwrap();

    let processes = redis.smembers("processes");
    assert_eq!(processes.len(), 1, "one process should be registered");
    assert!(processes[0].starts_with("test-host:"), "identity should start with hostname");

    let identity = &processes[0];
    assert_eq!(redis.hget(identity, "info"), info);
    assert_eq!(redis.hget(identity, "concurrency"), "4");
    assert_eq!(redis.hget(identity, "busy"), "0");
    assert_eq!(redis.hget(identity, "rtt_us"), "0");
    assert_eq!(redis.hget(identity, "quiet"), "false");
    assert_eq!(redis.hget(identity, "rss"), "2044");
    assert_eq!(redis.hashes[identity].len(), 7);

    let ttl = redis.expiries[identity];
    assert!(ttl > 0 && ttl <= 30, "TTL should be set to ~30s, got {ttl}");
    assert_eq!(ttl, HEARTBEAT_TTL_SECONDS);
}

#[test]
fn stats_publisher_reflects_busy_count() {
    let mut redis = Server::default();

    let busy = Counter::new(0);
    busy.incrby(7);

    let publisher = StatsPublisher::new(
        "busy-host".to_string(),
        vec!["default".to_string()],
        busy.clone(),
        10,
        107068,
    );

    publish(&publisher, &mut redis).unwrap();

    let processes = redis.smembers("processes");
    let identity = &processes[0];
    let busy_val = redis.hget(identity, "busy");
    assert_eq!(busy_val, "7", "busy count should reflect counter value");

    busy.decrby(3);
    publish(&publisher, &mut redis).unwrap();
    assert_eq!(redis.hget(identity, "busy"), "4");
    assert_eq!(busy.value(), 4);
}

#[test]
fn heartbeats_differ_by_what_was_counted_between() {
    let busy = Counter::new(3);
    let publisher = StatsPublisher::new(
        "h".to_string(),
        vec!["b".to_string(), "a".to_string(), "b".to_string()],
        busy.clone(),
        5,
        9,
    );
    let first = publisher.create_process_stats(1, 9, "0.1");
    busy.incrby(7);
    let second = publisher.create_process_stats(2, 9, "0.1");
    assert_eq!(first.busy, 3);
    assert_eq!(second.busy, 10);
    assert_eq!(first.concurrency, second.concurrency);
    assert_eq!(first.info.identity, second.info.identity);
    assert_eq!(first.info.started_at_ms, second.info.started_at_ms);
    assert_eq!(second.info.queues, vec!["b".to_string(), "a".to_string(), "b".to_string()]);
}

#[test]
fn heartbeat_is_three_round_trips_and_withdrawal_one() {
    let mut redis = Server::default();
    let p = new_publisher();
    publish(&p, &mut redis).unwrap();
    assert_eq!(redis.round_trips, 3);
    deregister(&p, &mut redis).unwrap();
    assert_eq!(redis.round_trips, 4);
}

#[test]
fn one_withdrawal_undoes_many_heartbeats() {
    let mut redis = Server::default();
    let sibling = new_publisher();
    publish(&sibling, &mut redis).unwrap();
    let before = redis.clone();
    let p = new_publisher();
    for _ in 0..3 {
        publish(&p, &mut redis).unwrap();
    }
    deregister(&p, &mut redis).unwrap();
    assert_eq!(redis.hashes, before.hashes);
    assert_eq!(redis.sets, before.sets);
    assert_eq!(redis.expiries, before.expiries);
}

#[test]
fn broken_heartbeat_concerns_no_other_process() {
    for sent in 0..4 {
        let mut redis = Server::default();
        let sibling = new_publisher();
        publish(&sibling, &mut redis).unwrap();
        let before = redis.clone();
        let p = new_publisher();
        let mut requests = p.publish_stats(stats_of(&p), "{}".to_string());
        requests.truncate(sent);
        redis.send(requests).unwrap();
        assert!(redis.sismember("processes", sibling.identity()));
        assert_eq!(redis.hashes[sibling.identity()], before.hashes[sibling.identity()]);
        assert_eq!(redis.expiries[sibling.identity()], 30);
    }
}

#[test]
fn nothing_is_sent_after_a_failure() {
    let mut redis = Server::default();
    let p = new_publisher();
    redis.sets.entry(p.identity().to_string()).or_default().insert("other".to_string());
    let before = redis.clone();
    assert_eq!(publish(&p, &mut redis), Err("WRONGTYPE".to_string()));
    assert_eq!(redis.round_trips, 1);
    assert!(!redis.sismember("processes", p.identity()));
    assert_eq!(redis.sets, before.sets);
    assert_eq!(redis.expiries, before.expiries);
}

#[test]
fn delivery_takes_requests_in_order() {
    let p = new_publisher();
    let mut delivery = Delivery::new(p.publish_stats(stats_of(&p), String::new()));
    match delivery.next(true) {
        Next::Send(request) => assert!(matches!(request.commands[0], Command::HashSet { .. })),
        _ => panic!("nothing to send"),
    }
    match delivery.next(true) {
        Next::Send(request) => assert!(matches!(request.commands[0], Command::Expire { .. })),
        _ => panic!("nothing to send"),
    }
    match delivery.next(true) {
        Next::Send(request) => assert!(matches!(request.commands[0], Command::SetAdd { .. })),
        _ => panic!("nothing to send"),
    }
    assert!(matches!(delivery.next(true), Next::Delivered));
    assert!(matches!(delivery.next(false), Next::Abandoned));
    assert!(matches!(delivery.next(true), Next::Abandoned));
    assert!(matches!(Delivery::new(Vec::new()).next(true), Next::Delivered));
}

#[test]
fn process_is_listed_last() {
    let p = new_publisher();
    let mut requests = p.publish_stats(stats_of(&p), "{}".to_string());
    let mut redis = Server::default();
    requests.truncate(2);
    redis.send(requests).unwrap();
    assert!(!redis.sismember("processes", p.identity()));
    assert_eq!(redis.expiries[p.identity()], 30);
}

#[test]
fn heartbeat_replaces_the_one_before() {
    let p = new_publisher();
    let mut twice = Server::default();
    let first = p.process_stats_at(1, 1000, 4, 5, "1.2.3");
    let second = p.process_stats_at(2, 6000, 8, 5, "1.2.3");
    let again = p.process_stats_at(2, 6000, 8, 5, "1.2.3");
    twice.send(p.publish_stats(first, "first".to_string())).unwrap();
    twice.send(p.publish_stats(second, "second".to_string())).unwrap();
    let mut once = Server::default();
    once.send(p.publish_stats(again, "second".to_string())).unwrap();
    assert_eq!(twice.hashes, once.hashes);
    assert_eq!(twice.sets, once.sets);
    assert_eq!(twice.expiries, once.expiries);
}

#[test]
fn state_at_a_given_moment() {
    let identity = identity_with_nonce("host", 9, &[7; 12]);
    let p = StatsPublisher::with_identity(
        "host".to_string(),
        identity.clone(),
        vec!["a".to_string(), "b".to_string()],
        1658082501560,
        Counter::new(3),
        10,
    );
    let stats = p.process_stats_at(6, 1658082505123, 0, 9, "0.1");
    assert_eq!(p.identity(), identity);
    assert_eq!(stats.busy, 6);
    assert_eq!(stats.beat_ms, 1658082505123);
    assert_eq!(stats.rss, "0");
    assert_eq!(stats.concurrency, 10);
    assert_eq!(stats.info.started_at_ms, 1658082501560);
    assert_eq!(stats.info.queues, vec!["a".to_string(), "b".to_string()]);

    let mut redis = Server::default();
    redis.send(p.publish_stats(stats, String::new())).unwrap();
    assert_eq!(redis.hget(&identity, "beat"), "1658082505.123");
}

#[test]
fn state_now_carries_the_time() {
    let before = chrono::Utc::now().timestamp_millis();
    let p = new_publisher();
    let stats = stats_of(&p);
    let after = chrono::Utc::now().timestamp_millis();
    assert!(before <= stats.info.started_at_ms && stats.info.started_at_ms <= after);
    assert!(before <= stats.beat_ms && stats.beat_ms <= after);
}

#[test]
fn identity_joins_host_pid_and_nonce() {
    let nonce = [0x00, 0x01, 0x0f, 0x10, 0x9a, 0xab, 0xf0, 0xff, 0x50, 0x75, 0x43, 0x1a];
    assert_eq!(
        identity_with_nonce("DESKTOP-UMSV21A", 107068, &nonce),
        "DESKTOP-UMSV21A:107068:00010f109aabf0ff5075431a"
    );
    assert_eq!(identity_with_nonce("", 0, &[0; 12]), ":0:000000000000000000000000");
}

#[test]
fn drawn_identities_have_the_right_shape_and_differ() {
    let first = generate_identity("a:b", 42);
    let second = generate_identity("a:b", 42);
    assert_ne!(first, second);
    assert!(first.starts_with("a:b:42:"));
    let nonce = &first["a:b:42:".len()..];
    assert_eq!(nonce.len(), 24);
    assert!(nonce.chars().all(|c| c.is_ascii_digit() || ('a' <= c && c <= 'f')));
}

#[test]
fn identities_tell_processes_apart() {
    let nonce = [1u8; 12];
    assert_ne!(identity_with_nonce("a", 12, &nonce), identity_with_nonce("a:1", 2, &nonce));
    assert_ne!(identity_with_nonce("a", 1, &nonce), identity_with_nonce("a", 11, &nonce));
    assert_ne!(identity_with_nonce("a", 1, &[2; 12]), identity_with_nonce("a", 1, &nonce));
}
