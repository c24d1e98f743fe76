use agentcreds_core::accountability::OwnershipRecord;
use agentcreds_core::error::AgentCredsError;
use sha2::Digest;

fn rec(members: Vec<&str>) -> OwnershipRecord {
    OwnershipRecord::new(
        "team:payments",
        7,
        members.into_iter().map(String::from).collect(),
        "0123456789abcdef0123",
    )
    .unwrap()
}

#[test]
fn commitment_is_order_independent() {
    assert_eq!(
        rec(vec!["alice", "bob"]).commitment(),
        rec(vec!["bob", "alice"]).commitment()
    );
}

#[test]
fn commitment_changes_with_membership() {
    assert_ne!(
        rec(vec!["alice", "bob"]).commitment(),
        rec(vec!["alice", "carol"]).commitment()
    );
    assert_ne!(
        rec(vec!["alice"]).commitment(),
        rec(vec!["alice", "bob"]).commitment()
    );
}

#[test]
fn commitment_changes_with_version_and_party() {
    let base = rec(vec!["alice"]);
    let later = OwnershipRecord::new(
        "team:payments",
        8,
        vec!["alice".into()],
        "0123456789abcdef0123",
    )
    .unwrap();
    assert_ne!(base.commitment(), later.commitment(), "version is unbound");

    let other = OwnershipRecord::new(
        "team:other",
        7,
        vec!["alice".into()],
        "0123456789abcdef0123",
    )
    .unwrap();
    assert_ne!(base.commitment(), other.commitment(), "party is unbound");
}

#[test]
fn the_salt_binds_the_commitment() {
    let a = rec(vec!["alice"]);
    let b = OwnershipRecord::new(
        "team:payments",
        7,
        vec!["alice".into()],
        "fedcba9876543210fedc",
    )
    .unwrap();
    assert_ne!(a.commitment(), b.commitment());
}

#[test]
fn a_short_salt_is_refused() {
    assert!(OwnershipRecord::new("team:x", 1, vec![], "tooshort").is_err());
    assert!(OwnershipRecord::new("team:x", 1, vec![], "0123456789abcde").is_err());
    assert!(OwnershipRecord::new("team:x", 1, vec![], "0123456789abcdef").is_ok());
}

#[test]
fn an_unnamed_party_is_refused() {
    assert!(OwnershipRecord::new("  ", 1, vec![], "0123456789abcdef0123").is_err());
    assert_eq!(
        OwnershipRecord::new("", 1, vec![], "0123456789abcdef0123")
            .unwrap_err()
            .to_string(),
        "value out of bounds for field 'party_id': an ownership record must name a party"
    );
}

#[test]
fn matches_accepts_its_own_commitment_and_rejects_a_different_record() {
    let r = rec(vec!["alice", "bob"]);
    let c = r.commitment();
    assert!(r.matches(&c));
    assert!(r.matches(&c.to_uppercase()), "hex case must not matter");
    assert!(!rec(vec!["alice"]).matches(&c));
}

#[test]
fn duplicate_members_do_not_change_the_commitment() {
    assert_eq!(
        rec(vec!["alice", "bob"]).commitment(),
        rec(vec!["alice", "bob", "alice"]).commitment()
    );
}

#[test]
fn the_accessors_expose_the_normalized_record() {
    let r = OwnershipRecord::new(
        "team:payments",
        7,
        vec![
            "carol@acme.example".into(),
            "alice@acme.example".into(),
            "alice@acme.example".into(),
        ],
        "0123456789abcdef0123",
    )
    .unwrap();

    assert_eq!(r.party_id(), "team:payments");
    assert_eq!(r.version(), 7);
    assert_eq!(
        r.members().as_slice(),
        ["alice@acme.example", "carol@acme.example"],
        "members are sorted and de-duplicated, which is what makes the commitment independent \
         of the order the store returned them in"
    );
    // The accessor view and the committed view agree.
    assert!(r.matches(&r.commitment()));
}

#[test]
fn the_commitment_is_the_hash_of_the_length_prefixed_record() {
    let r = OwnershipRecord::new("p", 2, vec!["b".into(), "a".into()], "0123456789abcdef").unwrap();
    let mut h = sha2::Sha256::new();
    h.update(b"agentcreds-ownership-commitment-v1");
    h.update(1u64.to_le_bytes());
    h.update(b"p");
    h.update(2u64.to_le_bytes());
    h.update(16u64.to_le_bytes());
    h.update(b"0123456789abcdef");
    h.update(2u64.to_le_bytes());
    h.update(1u64.to_le_bytes());
    h.update(b"a");
    h.update(1u64.to_le_bytes());
    h.update(b"b");
    assert_eq!(r.commitment(), hex::encode(h.finalize()));
}

#[test]
fn the_salt_is_counted_in_characters() {
    let short = "\u{e9}".repeat(8); // 16 bytes of UTF-8
    assert!(matches!(
        OwnershipRecord::new("team:x", 1, vec![], &short),
        Err(AgentCredsError::OutOfBounds { field: "salt", .. })
    ));
    assert!(OwnershipRecord::new("team:x", 1, vec![], &"\u{e9}".repeat(16)).is_ok());
}
