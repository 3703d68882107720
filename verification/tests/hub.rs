//! The hub: tokens, policies, pages, nodes and budgets.

use eshield::common::IpKey;
use eshield::hub::api::AppState;
use eshield::hub::auth::parse_node_tokens;
use eshield::hub::auth::strip_bearer;
use eshield::hub::auth::HubAuth;
use eshield::hub::auth::NodeIdentity;
use eshield::hub::feed::feed_policies;
use eshield::hub::feed::parse_feed;
use eshield::hub::feed::FeedConfig;
use eshield::hub::limiter::RateLimiter;
use eshield::hub::models::NodeHeartbeat;
use eshield::hub::models::NodePolicy;
use eshield::hub::models::PolicyDelete;
use eshield::hub::models::PolicyPush;
use eshield::hub::models::RuleBundle;
use eshield::hub::models::SharedPolicy;
use eshield::hub::registry::NodeRegistry;
use eshield::hub::row_key::composite_key;
use eshield::hub::row_key::place_of_octets;
use eshield::hub::store::RowKey;
use eshield::hub::store::Store;

fn auth() -> HubAuth {
    let mut node_tokens = Vec::new();
    node_tokens.push(("node-a".to_string(), "token-a".to_string()));
    HubAuth::new("master".to_string(), node_tokens)
}

#[test]
fn master_token_returns_legacy_identity() {
    assert_eq!(auth().authenticate(Some("Bearer master")), Some(None));
}

#[test]
fn node_token_returns_node_identity() {
    assert_eq!(
        auth().authenticate(Some("Bearer token-a")),
        Some(Some("node-a".to_string()))
    );
}

#[test]
fn invalid_token_rejected() {
    assert_eq!(auth().authenticate(Some("Bearer nope")), None);
    assert_eq!(auth().authenticate(None), None);
}

#[test]
fn a_node_has_the_last_token_it_was_given() {
    let pair = |a: &str, b: &str| (a.to_string(), b.to_string());
    let auth = HubAuth::new(
        "master".to_string(),
        vec![pair("a", "old"), pair("b", "tb"), pair("a", "new")],
    );
    assert_eq!(auth.node_tokens, vec![pair("b", "tb"), pair("a", "new")]);
    assert_eq!(auth.authenticate(Some("Bearer old")), None);
    assert_eq!(auth.authenticate(Some("Bearer new")), Some(Some("a".to_string())));
}

#[test]
fn a_header_may_leave_the_scheme_out() {
    assert_eq!(strip_bearer("Bearer abc"), "abc");
    assert_eq!(strip_bearer("abc"), "abc");
}

#[test]
fn a_token_file_names_nodes_and_their_tokens() {
    let list = parse_node_tokens("# nodes\nnode-a:ta\n\n node-b : tb \nbroken\n:x\n");
    assert_eq!(
        list,
        vec![
            ("node-a".to_string(), "ta".to_string()),
            ("node-b".to_string(), "tb".to_string()),
        ]
    );
}

fn policy(ip: IpKey, reason: u8, hit_count: u32, trust_score: u32, ttl_s: u64) -> NodePolicy {
    NodePolicy { ip, reason, hit_count, trust_score, blocked_until_ns: 0, ttl_s }
}

#[test]
fn merge_combines_policies() {
    let mut store = Store::new();
    let ip = IpKey::from_ipv4([192, 168, 1, 1]);

    let node1 = vec![NodePolicy {
        ip,
        reason: 1,
        hit_count: 10,
        trust_score: 500,
        blocked_until_ns: 0,
        ttl_s: 60,
    }];
    let node2 = vec![NodePolicy {
        ip,
        reason: 2,
        hit_count: 20,
        trust_score: 300,
        blocked_until_ns: 0,
        ttl_s: 120,
    }];

    assert_eq!(store.merge("node1", &node1, 1_000), 1);
    assert_eq!(store.merge("node2", &node2, 2_000), 1);

    let (policies, _cursor) = store.query_since(0, 10);
    assert_eq!(policies.len(), 1);
    let p = &policies[0];
    assert_eq!(p.hit_count, 20);
    assert_eq!(p.trust_score, 300);
    assert!(p.source_nodes.contains(&"node1".to_string()));
    assert!(p.source_nodes.contains(&"node2".to_string()));
    assert_eq!(p.ttl_s, 120);
    assert_eq!(p.first_seen_ns, 1_000);
    assert_eq!(p.last_seen_ns, 2_000);
}

#[test]
fn query_since_and_count() {
    let mut store = Store::new();
    let ip_a = IpKey::from_ipv4([10, 0, 0, 1]);
    let ip_b = IpKey::from_ipv4([10, 0, 0, 2]);

    store.merge(
        "node-a",
        &vec![
            NodePolicy {
                ip: ip_a,
                reason: 1,
                hit_count: 1,
                trust_score: 100,
                blocked_until_ns: 0,
                ttl_s: 10,
            },
            NodePolicy {
                ip: ip_b,
                reason: 2,
                hit_count: 1,
                trust_score: 200,
                blocked_until_ns: 0,
                ttl_s: 10,
            },
        ],
        1_000,
    );

    assert_eq!(store.count(), 2);

    let (policies, cursor) = store.query_since(0, 1);
    // Both were reported at one time: a page never parts them.
    assert_eq!(policies.len(), 2);
    assert!(cursor >= policies[0].last_seen_ns);

    let (all, _cursor) = store.query_since(0, 100);
    assert_eq!(all.len(), 2);
}

fn insert_policy_raw(store: &mut Store, ip: IpKey, last_seen_ns: u64, ttl_s: u64) {
    store.restore(SharedPolicy {
        ip,
        reason: 1,
        hit_count: 1,
        trust_score: 100,
        first_seen_ns: last_seen_ns,
        last_seen_ns,
        source_nodes: vec!["test".to_string()],
        ttl_s,
    });
}

#[test]
fn query_since_paginates_without_losing_same_timestamp_group() {
    let mut store = Store::new();
    insert_policy_raw(&mut store, IpKey::from_ipv4([10, 0, 0, 1]), 10, 3600);
    insert_policy_raw(&mut store, IpKey::from_ipv4([10, 0, 0, 2]), 20, 3600);
    insert_policy_raw(&mut store, IpKey::from_ipv4([10, 0, 0, 3]), 20, 3600);
    insert_policy_raw(&mut store, IpKey::from_ipv4([10, 0, 0, 4]), 20, 3600);
    insert_policy_raw(&mut store, IpKey::from_ipv4([10, 0, 0, 5]), 30, 3600);

    let (first, cursor) = store.query_since(0, 2);
    // One of time 10, and with the page full the three of time 20 still come together.
    assert_eq!(
        first.len(),
        4,
        "same-timestamp group must be returned together"
    );
    assert_eq!(cursor, 20);

    let (second, cursor2) = store.query_since(cursor, 2);
    assert_eq!(second.len(), 1);
    assert_eq!(cursor2, 30);
}

#[test]
fn prune_removes_expired_policies_and_tombstones() {
    let mut store = Store::new();
    let now = 10_000_000_000_000u64;
    insert_policy_raw(&mut store, IpKey::from_ipv4([10, 0, 0, 1]), now - 2_000_000_000, 1);
    insert_policy_raw(&mut store, IpKey::from_ipv4([10, 0, 0, 2]), now, 0);
    store.put_mark(RowKey {
        at_ns: now - 100_000_000_000,
        ip: IpKey::from_ipv4([10, 0, 0, 9]),
    });

    let (policies, tombstones) = store.prune(now, 60_000_000_000);
    assert_eq!(policies, 1);
    assert_eq!(tombstones, 1);
    assert_eq!(store.count(), 1);
}

#[test]
fn a_deleted_policy_leaves_a_mark() {
    let mut store = Store::new();
    let ip = IpKey::from_ipv4([10, 0, 0, 1]);
    store.merge("n", &vec![policy(ip, 1, 1, 1, 60)], 100);
    assert!(store.delete_policy(&ip, 200));
    assert_eq!(store.count(), 0);
    assert!(!store.delete_policy(&ip, 201));
    let (marks, cursor) = store.query_tombstones_since(0, 10);
    assert_eq!(marks, vec![ip, ip]);
    assert_eq!(cursor, 201);
    assert_eq!(store.query_tombstones_since(cursor, 10).0.len(), 0);
}

#[test]
fn a_report_twice_is_a_report_once() {
    let mut store = Store::new();
    let ip = IpKey::from_ipv4([10, 0, 0, 1]);
    let list = vec![policy(ip, 1, 5, 50, 60)];
    store.merge("n", &list, 100);
    store.merge("n", &list, 100);
    let (rows, _) = store.query_since(0, 10);
    assert_eq!(rows.len(), 1);
    assert_eq!(rows[0].hit_count, 5);
    assert_eq!(rows[0].source_nodes, vec!["n".to_string()]);
}

#[test]
fn rules_are_kept_as_they_were_set() {
    let mut store = Store::new();
    assert!(store.get_rules().is_none());
    store.set_rules(RuleBundle {
        port_acl: Vec::new(),
        l7_patterns: Vec::new(),
        protection_projects: Vec::new(),
        updated_at_ns: 7,
    });
    assert_eq!(store.get_rules().as_ref().unwrap().updated_at_ns, 7);
}

#[test]
fn octets_of_a_row_keep_the_order() {
    let a = IpKey::from_ipv4([10, 0, 0, 1]);
    let b = IpKey::from_ipv4([10, 0, 0, 2]);
    let low = composite_key(1, &b);
    let high = composite_key(0x0100, &a);
    assert!(low < high);
    assert!(composite_key(1, &a) < low);
    let place = place_of_octets(&high);
    assert_eq!(place.at_ns, 0x0100);
    assert_eq!(place.ip, a);
    assert_eq!(&low[..9], &[0, 0, 0, 0, 0, 0, 0, 1, 4]);
}

#[test]
fn a_node_is_online_until_its_time_is_up() {
    let mut nodes = NodeRegistry::new();
    nodes.heartbeat("a".to_string(), 1_000);
    nodes.heartbeat("b".to_string(), 5_000);
    let mut list = nodes.list(6_000, 2_000);
    list.sort_by(|x, y| x.name.cmp(&y.name));
    assert_eq!(list.len(), 2);
    assert!(!list[0].online);
    assert!(list[1].online);
    nodes.prune(6_000, 2_000);
    assert_eq!(nodes.list(6_000, 2_000).len(), 1);
    assert_eq!(NodeRegistry::default().list(1, 1).len(), 0);
}

#[test]
fn reports_in_any_order_give_one_policy() {
    let ip = IpKey::from_ipv4([192, 0, 2, 9]);
    let reports = [
        ("n1", policy(ip, 1, 5, 40, 60)),
        ("n2", policy(ip, 2, 9, 70, 0)),
        ("n1", policy(ip, 3, 7, 20, 300)),
    ];
    for order in [[0, 1, 2], [2, 1, 0], [1, 0, 2], [2, 0, 1]] {
        let mut store = Store::new();
        for (at, i) in order.iter().enumerate() {
            let (node, p) = reports[*i];
            assert_eq!(store.merge(node, &vec![p], 10 + at as u64), 1);
        }
        assert_eq!(store.count(), 1);
        let (page, _) = store.query_since(0, 10);
        let p = &page[0];
        assert_eq!((p.hit_count, p.trust_score, p.ttl_s), (9, 20, 0));
        let mut nodes = p.source_nodes.clone();
        nodes.sort();
        assert_eq!(nodes, vec!["n1".to_string(), "n2".to_string()]);
    }
    let mut store = Store::new();
    store.merge("n1", &vec![reports[0].1, reports[2].1], 5);
    let (page, _) = store.query_since(0, 10);
    assert_eq!((page.len(), page[0].hit_count, page[0].ttl_s), (1, 7, 300));
}

#[test]
fn deletions_come_in_seamless_pages() {
    let ip = |i: u8| IpKey::from_ipv4([192, 0, 2, i]);
    let mut store = Store::new();
    for (i, at) in [(1, 10), (2, 20), (3, 20), (4, 30)] {
        store.merge("n", &vec![policy(ip(i), 1, 1, 1, 0)], 5);
        assert!(store.delete_policy(&ip(i), at));
    }
    let (first, cursor) = store.query_tombstones_since(0, 2);
    assert_eq!((first, cursor), (vec![ip(1), ip(2), ip(3)], 20));
    let (second, cursor) = store.query_tombstones_since(20, 2);
    assert_eq!((second, cursor), (vec![ip(4)], 30));
    assert_eq!(store.query_tombstones_since(30, 2), (vec![], 30));
}

#[test]
fn a_budget_is_spent_and_refills() {
    let mut limiter = RateLimiter::new(1, 2);
    assert!(limiter.check("n", 0));
    assert!(limiter.check("n", 0));
    assert!(!limiter.check("n", 0));
    assert!(limiter.check("m", 0));
    assert!(limiter.check("n", 1_000_000_000));
    assert!(!limiter.check("n", 1_000_000_000));
}

fn hub() -> AppState {
    AppState {
        store: Store::new(),
        registry: NodeRegistry::new(),
        rate_limiter: RateLimiter::new(10, 20),
        node_timeout_ns: 1_000,
    }
}

#[test]
fn a_node_cannot_speak_for_another() {
    let mut hub = hub();
    let who = NodeIdentity(Some("node-a".to_string()));
    assert_eq!(who.effective_name("node-b"), "node-a");
    assert_eq!(NodeIdentity(None).effective_name("node-b"), "node-b");
    let push = PolicyPush {
        node_name: "node-b".to_string(),
        policies: vec![policy(IpKey::from_ipv4([10, 0, 0, 1]), 1, 1, 1, 60)],
    };
    assert_eq!(hub.push_policies(&who, &push, 10), Some(1));
    let page = hub.pull_policies(0, None);
    assert_eq!(page.policies[0].source_nodes, vec!["node-a".to_string()]);
    assert_eq!(page.cursor, "10");
}

#[test]
fn requests_change_what_the_hub_shows() {
    let mut hub = hub();
    let who = NodeIdentity(None);
    let ip = IpKey::from_ipv4([10, 0, 0, 1]);
    let push = PolicyPush { node_name: "n".to_string(), policies: vec![policy(ip, 1, 1, 1, 60)] };
    hub.push_policies(&who, &push, 10);
    hub.heartbeat(&who, &NodeHeartbeat { node_name: "n".to_string(), stats: None }, 10);
    let shown = hub.stats(20);
    assert_eq!((shown.policy_count, shown.node_count, shown.online_node_count), (1, 1, 1));
    let delete = PolicyDelete { node_name: "n".to_string(), ips: vec![ip, ip] };
    assert_eq!(hub.delete_policies(&who, &delete, 30), Some(1));
    let deleted = hub.deleted_policies(0, None);
    assert_eq!(deleted.ips, vec![ip]);
    assert_eq!(deleted.cursor, "30");
    assert_eq!(hub.stats(20_000).online_node_count, 0);
}

#[test]
fn a_node_that_asks_too_often_is_put_off() {
    let mut hub = hub();
    let who = NodeIdentity(None);
    let push = PolicyPush { node_name: "n".to_string(), policies: Vec::new() };
    for _ in 0..20 {
        assert_eq!(hub.push_policies(&who, &push, 0), Some(0));
    }
    assert_eq!(hub.push_policies(&who, &push, 0), None);
}

#[test]
fn a_list_of_the_hub_becomes_policies() {
    let config = FeedConfig {
        name: "list".to_string(),
        url: "http://list".to_string(),
        interval_s: 60,
        action: "drop".to_string(),
        ttl_s: 30,
    };
    let keys = parse_feed("# list\n10.0.0.1\nnot an address\n").unwrap();
    assert_eq!(keys.len(), 1);
    let list = feed_policies(&config, &keys);
    assert_eq!((list[0].reason, list[0].hit_count, list[0].ttl_s), (11, 1, 30));
    let other = FeedConfig { action: "allow".to_string(), ..config };
    assert_eq!(feed_policies(&other, &keys).len(), 0);
}
