use shadow_backend::olympus::{
    apply_register, apply_transfer, apply_verify, is_search_hit, matches_folded, Domain,
    DomainError, OlympusCA,
};

#[test]
fn register_verify_reregister_scenario() {
    let mut ca = OlympusCA::new();
    assert_eq!(ca.register_domain_at("x.shadow", "W1", "ProgA", 1_000), Ok(()));
    let d = ca.get_domain("x.shadow").unwrap();
    assert!(!d.verified);
    assert_eq!(d.owner_pubkey, "W1");
    assert_eq!(d.program_address, "ProgA");
    assert_eq!(d.created_at, 1_000);
    assert_eq!(ca.verify_domain_at("x.shadow", 2_000), Ok(()));
    assert!(ca.get_domain("x.shadow").unwrap().verified);
    assert_eq!(ca.register_domain_at("x.shadow", "W1", "ProgB", 3_000), Ok(()));
    let d = ca.get_domain("x.shadow").unwrap();
    assert!(!d.verified);
    assert_eq!(d.program_address, "ProgB");
    assert_eq!(d.created_at, 1_000);
    assert_eq!(d.updated_at, 3_000);
}

#[test]
fn register_then_verify_is_verified() {
    let mut ca = OlympusCA::new();
    ca.register_domain("alice.shadow", "W1", "ProgA").unwrap();
    ca.verify_domain("alice.shadow").unwrap();
    let d = ca.get_domain("alice.shadow").unwrap();
    assert!(d.verified);
    assert_eq!(d.owner_pubkey, "W1");
}

#[test]
fn transfer_clears_verification() {
    let mut ca = OlympusCA::new();
    ca.register_domain_at("alice.shadow", "W1", "ProgA", 10).unwrap();
    ca.verify_domain_at("alice.shadow", 20).unwrap();
    assert_eq!(ca.transfer_domain_at("alice.shadow", "W2", 30), Ok(()));
    let d = ca.get_domain("alice.shadow").unwrap();
    assert!(!d.verified);
    assert_eq!(d.owner_pubkey, "W2");
    assert_eq!(d.program_address, "ProgA");
}

#[test]
fn transfer_with_live_clock() {
    let mut ca = OlympusCA::new();
    ca.register_domain("a.shadow", "W1", "ProgA").unwrap();
    assert_eq!(ca.transfer_domain("a.shadow", "W2"), Ok(()));
    assert_eq!(ca.get_domain("a.shadow").unwrap().owner_pubkey, "W2");
}

#[test]
fn missing_domain_is_not_found() {
    let mut ca = OlympusCA::new();
    assert_eq!(ca.verify_domain_at("nobody.shadow", 1), Err(DomainError::NotFound));
    assert_eq!(ca.transfer_domain_at("nobody.shadow", "W", 1), Err(DomainError::NotFound));
    assert!(ca.get_domain("nobody.shadow").is_none());
}

#[test]
fn empty_name_is_refused() {
    let mut ca = OlympusCA::new();
    assert_eq!(ca.register_domain_at("", "W", "P", 1), Err(DomainError::EmptyDomain));
    assert!(ca.get_domain("").is_none());
}

#[test]
fn update_time_never_moves_back() {
    let mut ca = OlympusCA::new();
    ca.register_domain_at("t.shadow", "W", "P", 500).unwrap();
    ca.verify_domain_at("t.shadow", 100).unwrap();
    assert_eq!(ca.get_domain("t.shadow").unwrap().updated_at, 500);
}

#[test]
fn names_are_case_sensitive() {
    let mut ca = OlympusCA::new();
    ca.register_domain_at("Bob.shadow", "W", "P", 1).unwrap();
    assert!(ca.get_domain("bob.shadow").is_none());
}

#[test]
fn lookup_by_program_takes_first_registered() {
    let mut ca = OlympusCA::new();
    ca.register_domain_at("a.shadow", "W", "ProgZ", 1).unwrap();
    ca.register_domain_at("b.shadow", "W", "ProgZ", 2).unwrap();
    assert_eq!(ca.get_domain_by_program("ProgZ").unwrap().domain, "a.shadow");
    assert!(ca.get_domain_by_program("ProgNone").is_none());
}

#[test]
fn list_by_owner_keeps_registration_order() {
    let mut ca = OlympusCA::new();
    ca.register_domain_at("a.shadow", "W1", "P", 1).unwrap();
    ca.register_domain_at("b.shadow", "W2", "P", 2).unwrap();
    ca.register_domain_at("c.shadow", "W1", "P", 3).unwrap();
    let names: Vec<String> = ca.list_owner_domains("W1").into_iter().map(|d| d.domain).collect();
    assert_eq!(names, vec!["a.shadow".to_string(), "c.shadow".to_string()]);
    assert!(ca.list_owner_domains("W3").is_empty());
}

#[test]
fn search_skips_unverified_records() {
    let mut ca = OlympusCA::new();
    ca.register_domain_at("alice.shadow", "W1", "ProgA", 1).unwrap();
    ca.register_domain_at("alicia.shadow", "W2", "ProgB", 2).unwrap();
    ca.verify_domain_at("alicia.shadow", 3).unwrap();
    let found = ca.search_domains("alice", 10);
    assert!(found.is_empty());
    let found = ca.search_domains("ali", 10);
    assert_eq!(found.len(), 1);
    assert_eq!(found[0].domain, "alicia.shadow");
}

#[test]
fn search_is_case_blind_newest_first_and_limited() {
    let mut ca = OlympusCA::new();
    for (i, name) in ["One.shadow", "two.shadow", "THREE.shadow", "four.shadow"].iter().enumerate() {
        ca.register_domain_at(name, "W", "Prog", (i as i64 + 1) * 10).unwrap();
        ca.verify_domain_at(name, 100).unwrap();
    }
    let found = ca.search_domains("SHADOW", 3);
    let names: Vec<&str> = found.iter().map(|d| d.domain.as_str()).collect();
    assert_eq!(names, vec!["four.shadow", "THREE.shadow", "two.shadow"]);
    let by_program = ca.search_domains("prog", 10);
    assert_eq!(by_program.len(), 4);
    assert!(ca.search_domains("zzz", 10).is_empty());
}

#[test]
fn folded_matching_looks_at_name_and_program() {
    assert!(matches_folded("ali", "alice.shadow", "proga"));
    assert!(matches_folded("proga", "alice.shadow", "proga"));
    assert!(!matches_folded("bob", "alice.shadow", "proga"));
    assert!(matches_folded("", "", ""));
}

#[test]
fn search_hit_folds_case() {
    let d = Domain {
        domain: "MiXeD.shadow".to_string(),
        owner_pubkey: "W".to_string(),
        program_address: "P".to_string(),
        verified: true,
        created_at: 0,
        updated_at: 0,
        expires_at: None,
    };
    assert!(is_search_hit(&d, "mixed"));
    assert!(is_search_hit(&d, "MIXED"));
    let unverified = Domain { verified: false, ..d };
    assert!(!is_search_hit(&unverified, "mixed"));
}

#[test]
fn transitions_as_pure_functions() {
    let d = apply_register(None, "n.shadow", "W1", "ProgA", 5);
    assert!(!d.verified);
    assert_eq!(d.created_at, 5);
    let d = apply_verify(d, 7);
    assert!(d.verified);
    assert_eq!(d.updated_at, 7);
    let d = apply_transfer(d, "W2", 9);
    assert!(!d.verified);
    assert_eq!(d.owner_pubkey, "W2");
    let d = apply_register(Some(d), "n.shadow", "W2", "ProgC", 11);
    assert_eq!(d.created_at, 5);
    assert_eq!(d.program_address, "ProgC");
}

#[test]
fn live_clock_stamps_milliseconds_since_the_epoch() {
    let mut ca = OlympusCA::new();
    ca.register_domain("clock.shadow", "W", "ProgA").unwrap();
    let d = ca.get_domain("clock.shadow").unwrap();
    // later than September 2020, in milliseconds
    assert!(d.created_at > 1_600_000_000_000);
    assert_eq!(d.created_at, d.updated_at);
}
