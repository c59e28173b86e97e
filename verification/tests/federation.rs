use cognets_broker::config::AppConfig;
use cognets_broker::federation::{
    incoming_membership_is_newer, merge_peer_documents, merge_strings, mutation_is_newer, normalize_peer_endpoint,
    round_start, same_local_peer, should_skip_peer_sync, status_rank, sync_round_step, PeerDocument, PeerStatus,
    RoundAction,
};
use cognets_broker::error::BrokerError;
use cognets_broker::json::Json;
use cognets_broker::links::{build_target_url, sanitize_pseudonym_component, source_identity_alias};

fn peer(status: PeerStatus, incarnation: u64, updated_at: &str) -> PeerDocument {
    PeerDocument {
        tenant: "tenant-a".to_string(),
        peer_id: "peer-a".to_string(),
        endpoint: "http://peer-a:1026/ngsi-ld/v1".to_string(),
        aliases: vec!["peer-a".to_string()],
        capabilities: vec!["swim".to_string()],
        neighbors: Vec::new(),
        status,
        incarnation,
        updated_at: updated_at.to_string(),
        last_synced_at: None,
        last_synced_at_nanos: None,
        last_mutation_cursor_nanos: None,
    }
}

#[test]
fn higher_incarnation_wins_membership_merge() {
    let merged = merge_peer_documents(
        peer(PeerStatus::Alive, 1, "2024-01-01T00:00:00Z"),
        peer(PeerStatus::Suspect, 2, "2024-01-02T00:00:00Z"),
    );
    assert_eq!(merged.status, PeerStatus::Suspect);
    assert_eq!(merged.incarnation, 2);
}

#[test]
fn dead_wins_over_alive_at_same_incarnation() {
    let merged = merge_peer_documents(
        peer(PeerStatus::Alive, 3, "2024-01-01T00:00:00Z"),
        peer(PeerStatus::Dead, 3, "2024-01-02T00:00:00Z"),
    );
    assert_eq!(merged.status, PeerStatus::Dead);
    assert_eq!(merged.incarnation, 3);
}

#[test]
fn normalizes_peer_endpoint_to_ngsi_base_path() {
    assert_eq!(normalize_peer_endpoint("http://peer-b:1026"), "http://peer-b:1026/ngsi-ld/v1");
    assert_eq!(normalize_peer_endpoint("http://peer-b:1026/ngsi-ld/v1"), "http://peer-b:1026/ngsi-ld/v1");
}

#[test]
fn endpoint_normalization_trims_trailing_slashes_and_is_idempotent() {
    let once = normalize_peer_endpoint("http://peer-b:1026///");
    assert_eq!(once, "http://peer-b:1026/ngsi-ld/v1");
    assert_eq!(normalize_peer_endpoint(&once), once);
}

#[test]
fn older_membership_keeps_existing_state_but_merges_lists() {
    let mut existing = peer(PeerStatus::Suspect, 5, "2024-01-01T00:00:00Z");
    existing.aliases = vec!["a".to_string(), "b".to_string()];
    let mut incoming = peer(PeerStatus::Alive, 4, "2024-01-03T00:00:00Z");
    incoming.aliases = vec!["b".to_string(), "c".to_string()];
    assert!(!incoming_membership_is_newer(&existing, &incoming));
    let merged = merge_peer_documents(existing, incoming);
    assert_eq!(merged.status, PeerStatus::Suspect);
    assert_eq!(merged.incarnation, 5);
    assert_eq!(merged.aliases, vec!["a".to_string(), "b".to_string(), "c".to_string()]);
}

#[test]
fn merge_strings_keeps_order_and_drops_repeats() {
    let merged = merge_strings(vec!["x".to_string(), "y".to_string()], vec!["y".to_string(), "z".to_string(), "x".to_string()]);
    assert_eq!(merged, vec!["x".to_string(), "y".to_string(), "z".to_string()]);
    assert!(status_rank(PeerStatus::Dead) > status_rank(PeerStatus::Suspect));
    assert!(status_rank(PeerStatus::Suspect) > status_rank(PeerStatus::Alive));
}

#[test]
fn mutation_versions_compare_by_instant() {
    let current = Json::Str("2024-01-01T00:00:01Z".to_string());
    assert!(mutation_is_newer(Some(&current), "2024-01-01T00:00:02Z"));
    assert!(mutation_is_newer(Some(&current), "2024-01-01T00:00:01Z"));
    assert!(!mutation_is_newer(Some(&current), "2024-01-01T00:00:00Z"));
    assert!(mutation_is_newer(None, "2024-01-01T00:00:00Z"));
    assert!(mutation_is_newer(Some(&current), "not a time"));
}

#[test]
fn local_peer_is_recognised_and_skipped() {
    let config = AppConfig::for_tests();
    let mut local = peer(PeerStatus::Alive, 1, "2024-01-01T00:00:00Z");
    local.peer_id = config.broker_id.clone();
    assert!(same_local_peer(&local, &config));
    assert!(should_skip_peer_sync(&config, &local));
    let mut dead = peer(PeerStatus::Dead, 1, "2024-01-01T00:00:00Z");
    dead.peer_id = "remote".to_string();
    dead.endpoint = "http://remote:1026/ngsi-ld/v1".to_string();
    assert!(!should_skip_peer_sync(&config, &dead));
}

#[test]
fn builds_url_from_root_endpoint() {
    let url = build_target_url("http://broker.example:1026", "/ngsi-ld/v1/entities", Some("limit=10")).unwrap();
    assert_eq!(url, "http://broker.example:1026/ngsi-ld/v1/entities?limit=10");
}

#[test]
fn avoids_duplicate_base_path_when_endpoint_already_contains_ngsi_base() {
    let url = build_target_url("http://broker.example:1026/ngsi-ld/v1", "/ngsi-ld/v1/entities", None).unwrap();
    assert_eq!(url, "http://broker.example:1026/ngsi-ld/v1/entities");
}

#[test]
fn preserves_custom_prefix_before_ngsi_base_path() {
    let url = build_target_url(
        "http://broker.example:1026/custom/ngsi-ld/v1",
        "/ngsi-ld/v1/entities/urn:ngsi-ld:Vehicle:1",
        None,
    )
    .unwrap();
    assert_eq!(url, "http://broker.example:1026/custom/ngsi-ld/v1/entities/urn:ngsi-ld:Vehicle:1");
}

#[test]
fn builds_root_internal_url_from_ngsi_base_endpoint() {
    let url = build_target_url("http://broker.example:1026/ngsi-ld/v1", "/internal/swim", None).unwrap();
    assert_eq!(url, "http://broker.example:1026/internal/swim");
}

#[test]
fn preserves_custom_prefix_for_root_internal_url() {
    let url = build_target_url("http://broker.example:1026/custom/ngsi-ld/v1", "/internal/swim", Some("limit=200")).unwrap();
    assert_eq!(url, "http://broker.example:1026/custom/internal/swim?limit=200");
}

#[test]
fn invalid_endpoint_is_a_queue_error() {
    assert!(build_target_url("not a url", "/ngsi-ld/v1/entities", None).is_err());
}

#[test]
fn pseudonyms_keep_safe_characters_only() {
    assert_eq!(sanitize_pseudonym_component("Broker A/1"), "Broker_A_1");
    assert_eq!(sanitize_pseudonym_component(""), "default");
    assert_eq!(source_identity_alias("test-broker", "tenant-a"), "test-broker-tenant-a");
}

fn named_peer(id: &str) -> PeerDocument {
    let mut p = peer(PeerStatus::Suspect, 1, "2024-01-01T00:00:00Z");
    p.peer_id = id.to_string();
    p.endpoint = format!("http://{id}:1026/ngsi-ld/v1");
    p.aliases = vec![id.to_string()];
    p
}

#[test]
fn sync_round_skips_the_local_broker_and_survives_a_failing_peer() {
    let config = AppConfig::for_tests();
    let mut local = named_peer("x");
    local.peer_id = config.broker_id.clone();
    let peers = vec![local, named_peer("b"), named_peer("c")];
    assert_eq!(round_start(&peers, &config), RoundAction::Pull(1));

    let (peers, action) = sync_round_step(peers, 1, Err(BrokerError::Internal("down".to_string())), "2024-02-01T00:00:00Z", &config);
    assert_eq!(action, RoundAction::Pull(2));
    assert_eq!(peers[1].status, PeerStatus::Suspect);
    assert_eq!(peers[1].last_mutation_cursor_nanos, None);

    let (peers, action) = sync_round_step(peers, 2, Ok(vec![30, 10]), "2024-02-01T00:00:00Z", &config);
    assert_eq!(action, RoundAction::Done);
    assert_eq!(peers[2].status, PeerStatus::Alive);
    assert_eq!(peers[2].last_mutation_cursor_nanos, Some(30));
    assert_eq!(peers[2].last_synced_at.as_deref(), Some("2024-02-01T00:00:00Z"));
    assert_eq!(peers[1].status, PeerStatus::Suspect);

    let (peers, _) = sync_round_step(peers, 2, Ok(Vec::new()), "2024-02-02T00:00:00Z", &config);
    assert_eq!(peers[2].last_mutation_cursor_nanos, Some(30));
}
