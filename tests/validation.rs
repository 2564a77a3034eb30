use shadow_backend::apollo::ApolloValidator;
use shadow_backend::config::{
    CacheConfig, DatabaseConfig, RateLimitConfig, ServerConfig, ShadowConfig, SolanaConfig,
    StorageConfig,
};
use shadow_backend::text::contains_text;
use std::time::Duration;

fn err(r: Result<(), String>) -> String {
    r.unwrap_err()
}

#[test]
fn shadow_names() {
    assert_eq!(ApolloValidator::validate_domain("alice.shadow"), Ok(()));
    assert_eq!(ApolloValidator::validate_domain("a-b-1.shadow"), Ok(()));
    assert_eq!(err(ApolloValidator::validate_domain(".shadow")), "Domain name cannot be empty");
    let long = format!("{}.shadow", "a".repeat(64));
    assert_eq!(err(ApolloValidator::validate_domain(&long)), "Domain name too long (max 63 characters)");
    let just_fits = format!("{}.shadow", "a".repeat(63));
    assert_eq!(ApolloValidator::validate_domain(&just_fits), Ok(()));
    assert_eq!(
        err(ApolloValidator::validate_domain("a_b.shadow")),
        "Domain name can only contain alphanumeric characters and hyphens"
    );
    assert_eq!(
        err(ApolloValidator::validate_domain("-ab.shadow")),
        "Domain name cannot start or end with a hyphen"
    );
    assert_eq!(
        err(ApolloValidator::validate_domain("ab-.shadow")),
        "Domain name cannot start or end with a hyphen"
    );
    // alphanumeric is meant in the Unicode sense
    assert_eq!(ApolloValidator::validate_domain("café.shadow"), Ok(()));
}

#[test]
fn shadow_label_length_counts_bytes() {
    // 32 two-byte letters make 64 bytes
    let name = format!("{}.shadow", "é".repeat(32));
    assert_eq!(err(ApolloValidator::validate_domain(&name)), "Domain name too long (max 63 characters)");
}

#[test]
fn custom_domains() {
    assert_eq!(ApolloValidator::validate_domain("example.com"), Ok(()));
    assert_eq!(ApolloValidator::validate_domain("a.b.c"), Ok(()));
    assert_eq!(err(ApolloValidator::validate_domain("")), "Domain cannot be empty");
    assert_eq!(err(ApolloValidator::validate_domain("localhost")), "Domain must have at least a TLD");
    assert_eq!(err(ApolloValidator::validate_domain("a..b")), "Domain parts cannot be empty");
    assert_eq!(err(ApolloValidator::validate_domain(".com")), "Domain parts cannot be empty");
    assert_eq!(err(ApolloValidator::validate_domain("com.")), "Domain parts cannot be empty");
    let long_part = format!("{}.com", "x".repeat(64));
    assert_eq!(err(ApolloValidator::validate_domain(&long_part)), "Domain part too long (max 63 characters)");
    // the first bad part decides the message
    let both = format!("{}..com", "x".repeat(64));
    assert_eq!(err(ApolloValidator::validate_domain(&both)), "Domain part too long (max 63 characters)");
    let both = format!("a..{}", "x".repeat(64));
    assert_eq!(err(ApolloValidator::validate_domain(&both)), "Domain parts cannot be empty");
    let too_long = format!("{}.com", ["x".repeat(60), "y".repeat(60), "z".repeat(60), "w".repeat(60), "v".repeat(10)].join("."));
    assert!(too_long.len() > 253);
    assert_eq!(err(ApolloValidator::validate_domain(&too_long)), "Domain too long (max 253 characters)");
}

#[test]
fn ipfs_identifiers() {
    assert_eq!(ApolloValidator::validate_ipfs_cid(""), Ok(()));
    assert_eq!(ApolloValidator::validate_ipfs_cid("QmYwAPJzv5CZsnA"), Ok(()));
    assert_eq!(ApolloValidator::validate_ipfs_cid("ipfs://QmYwAPJzv5CZsnA"), Ok(()));
    assert_eq!(err(ApolloValidator::validate_ipfs_cid("ipfs://")), "IPFS CID cannot be empty");
    assert_eq!(err(ApolloValidator::validate_ipfs_cid("ipfs://short")), "Invalid IPFS CID length");
    assert_eq!(err(ApolloValidator::validate_ipfs_cid("short")), "Invalid IPFS CID length");
    assert_eq!(err(ApolloValidator::validate_ipfs_cid(&"q".repeat(101))), "Invalid IPFS CID length");
    assert_eq!(ApolloValidator::validate_ipfs_cid(&"q".repeat(100)), Ok(()));
    assert_eq!(ApolloValidator::validate_ipfs_cid(&"q".repeat(10)), Ok(()));
}

#[test]
fn arweave_identifiers() {
    assert_eq!(ApolloValidator::validate_arweave_tx(""), Ok(()));
    let id = "a".repeat(43);
    assert_eq!(ApolloValidator::validate_arweave_tx(&id), Ok(()));
    assert_eq!(ApolloValidator::validate_arweave_tx(&format!("arweave://{}", id)), Ok(()));
    assert_eq!(err(ApolloValidator::validate_arweave_tx("arweave://")), "Arweave transaction ID cannot be empty");
    assert_eq!(err(ApolloValidator::validate_arweave_tx(&"a".repeat(19))), "Invalid Arweave transaction ID length");
    assert_eq!(ApolloValidator::validate_arweave_tx(&"a".repeat(20)), Ok(()));
}

#[test]
fn sanitizing() {
    assert_eq!(ApolloValidator::sanitize_string("a\u{0}b\tc\nd\re\u{7f}f\u{85}g", 100), Ok("ab\tc\nd\refg".to_string()));
    assert_eq!(ApolloValidator::sanitize_string("plain", 5), Ok("plain".to_string()));
    assert_eq!(
        ApolloValidator::sanitize_string("toolong", 5),
        Err("String too long (max 5 characters)".to_string())
    );
    assert_eq!(
        ApolloValidator::sanitize_string(&"x".repeat(1001), 1000),
        Err("String too long (max 1000 characters)".to_string())
    );
    assert_eq!(ApolloValidator::sanitize_string("", 0), Ok(String::new()));
}

#[test]
fn search_queries() {
    assert_eq!(ApolloValidator::validate_search_query("alice"), Ok(()));
    assert_eq!(err(ApolloValidator::validate_search_query("")), "Search query cannot be empty");
    assert_eq!(ApolloValidator::validate_search_query(&"q".repeat(200)), Ok(()));
    assert_eq!(
        err(ApolloValidator::validate_search_query(&"q".repeat(201))),
        "Search query too long (max 200 characters)"
    );
}

#[test]
fn page_limits() {
    assert_eq!(ApolloValidator::validate_limit(None), Ok(10));
    assert_eq!(ApolloValidator::validate_limit(Some(1)), Ok(1));
    assert_eq!(ApolloValidator::validate_limit(Some(100)), Ok(100));
    assert_eq!(ApolloValidator::validate_limit(Some(0)), Err("Limit must be at least 1".to_string()));
    assert_eq!(ApolloValidator::validate_limit(Some(101)), Err("Limit cannot exceed 100".to_string()));
}

#[test]
fn wallet_keys() {
    assert!(ApolloValidator::validate_pubkey("11111111111111111111111111111111").is_ok());
    let e = ApolloValidator::validate_pubkey("not-a-key").unwrap_err();
    assert_eq!(e, "Invalid Solana pubkey: Invalid Base58 string");
    let e = ApolloValidator::validate_pubkey(&"1".repeat(45)).unwrap_err();
    assert_eq!(e, "Invalid Solana pubkey: String is the wrong size");
}

#[test]
fn substring_search() {
    assert!(contains_text("alice.shadow", "ice"));
    assert!(contains_text("abc", ""));
    assert!(!contains_text("ab", "abc"));
    assert!(!contains_text("alice", "bob"));
}

fn sample_config(ttl: u64, timeout: u64) -> ShadowConfig {
    ShadowConfig {
        database: DatabaseConfig {
            url: "mongodb://localhost:27017".to_string(),
            database_name: "shadow".to_string(),
            max_pool_size: None,
            min_pool_size: None,
        },
        solana: SolanaConfig {
            rpc_url: "https://api.devnet.solana.com".to_string(),
            ws_url: "wss://api.devnet.solana.com".to_string(),
            commitment: "confirmed".to_string(),
            timeout_seconds: timeout,
        },
        storage: StorageConfig {
            pinata_api_key: None,
            pinata_secret_key: None,
            bundlr_node_url: None,
            bundlr_currency: Some("solana".to_string()),
        },
        cache: CacheConfig { max_size_mb: 512, default_ttl_seconds: ttl, cleanup_interval_seconds: 300 },
        rate_limit: RateLimitConfig { requests_per_minute: 60, burst_size: None, enabled: true },
        server: ServerConfig { host: "0.0.0.0".to_string(), port: 8080, workers: None, keep_alive: None, client_timeout: None },
    }
}

#[test]
fn config_durations() {
    let cfg = sample_config(3600, 30);
    assert_eq!(cfg.get_cache_ttl(), Duration::from_secs(3600));
    assert_eq!(cfg.get_solana_timeout(), Duration::from_secs(30));
}
