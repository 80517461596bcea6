use xion_blockchain::errors::ContractError;
use xion_blockchain::oracle::EntitlementOracle;
use xion_blockchain::post_minter::{
    determine_post_type, getBatchPostingLimits, validateMetadata, BatchPostData, InteractionType,
    PostMinter, PostType,
};
use xion_blockchain::tribe_controller::{JoinType, TribeController};

fn s(x: &str) -> String {
    x.to_string()
}

/// A public community, its directory, and a content store whose owner is a
/// bystander so ordinary callers are not rate-exempt.
fn setup() -> (TribeController, PostMinter, EntitlementOracle, u64) {
    let oracle = EntitlementOracle::new();
    let mut tc = TribeController::new(s("alice"));
    let t = tc
        .createTribe(&s("alice"), s("general"), s("{}"), vec![], JoinType::PUBLIC, 0, vec![])
        .unwrap();
    tc.joinTribe(&oracle, &s("bob"), t).unwrap();
    tc.joinTribe(&oracle, &s("carol"), t).unwrap();
    let pm = PostMinter::new(s("deployer"), s("collectibles"));
    (tc, pm, oracle, t)
}

#[test]
fn test_post_cooldown_window() {
    let (tc, mut pm, _oracle, t) = setup();

    // First plain-text post gets id 0.
    let id = pm
        .createPost(&tc, &s("bob"), t, s("hello"), false, None, 0, 1000)
        .unwrap();
    assert_eq!(id, 0);

    // An immediate repeat of the same (caller, type) fails.
    assert_eq!(
        pm.createPost(&tc, &s("bob"), t, s("hello"), false, None, 0, 1000),
        Err(ContractError::InvalidState)
    );
    assert_eq!(pm.getRemainingCooldown(&s("bob"), PostType::TEXT, 1010).cooldown, 50);
    // Still inside the default 60 second window for plain text.
    assert_eq!(
        pm.createPost(&tc, &s("bob"), t, s("hello"), false, None, 0, 1059),
        Err(ContractError::InvalidState)
    );
    // Once the window passed it succeeds, and the stamp moves to the new time.
    assert_eq!(pm.getRemainingCooldown(&s("bob"), PostType::TEXT, 1060).cooldown, 0);
    let id2 = pm
        .createPost(&tc, &s("bob"), t, s("hello"), false, None, 0, 1060)
        .unwrap();
    assert_eq!(id2, 1);
    assert_eq!(
        pm.createPost(&tc, &s("bob"), t, s("hello"), false, None, 0, 1119),
        Err(ContractError::InvalidState)
    );

    // A different caller and a different type are unaffected.
    pm.createPost(&tc, &s("carol"), t, s("hi"), false, None, 0, 1000).unwrap();
    pm.createPost(&tc, &s("bob"), t, s("x\"type\":\"EVENT\"x"), false, None, 0, 1061)
        .unwrap();
}

#[test]
fn test_non_member_cannot_post() {
    let (tc, mut pm, _oracle, t) = setup();
    assert_eq!(
        pm.createPost(&tc, &s("stranger"), t, s("hi"), false, None, 0, 1),
        Err(ContractError::Unauthorized)
    );
}

#[test]
fn test_rate_exempt_owner_skips_cooldown() {
    let mut tc = TribeController::new(s("deployer"));
    let t = tc
        .createTribe(&s("deployer"), s("g"), s("{}"), vec![], JoinType::PUBLIC, 0, vec![])
        .unwrap();
    let mut pm = PostMinter::new(s("deployer"), s("collectibles"));
    pm.createPost(&tc, &s("deployer"), t, s("a"), false, None, 0, 5).unwrap();
    pm.createPost(&tc, &s("deployer"), t, s("b"), false, None, 0, 5).unwrap();
}

#[test]
fn test_set_post_type_cooldown() {
    let (tc, mut pm, _oracle, t) = setup();
    assert_eq!(
        pm.setPostTypeCooldown(&s("bob"), PostType::TEXT, 0),
        Err(ContractError::Unauthorized)
    );
    pm.setPostTypeCooldown(&s("deployer"), PostType::TEXT, 0).unwrap();
    assert_eq!(pm.getPostTypeCooldown(PostType::TEXT).cooldown, 0);
    pm.createPost(&tc, &s("bob"), t, s("a"), false, None, 0, 7).unwrap();
    pm.createPost(&tc, &s("bob"), t, s("b"), false, None, 0, 7).unwrap();
}

#[test]
fn test_report_threshold_soft_delete() {
    let (tc, mut pm, oracle, t) = setup();
    let id = pm
        .createPost(&tc, &s("bob"), t, s("spam"), false, None, 0, 1)
        .unwrap();

    for (k, reporter) in ["r1", "r2", "r3", "r4"].iter().enumerate() {
        pm.reportPost(&s(reporter), id).unwrap();
        assert_eq!(
            pm.getInteractionCount(id, InteractionType::REPORT).count,
            (k + 1) as u64
        );
        // Not deleted before the threshold.
        assert!(pm.canViewPost(&tc, &oracle, id, &s("bob")));
    }

    // The same reporter cannot report twice.
    assert_eq!(pm.reportPost(&s("r1"), id), Err(ContractError::AlreadyExists));
    assert_eq!(pm.getInteractionCount(id, InteractionType::REPORT).count, 4);

    // The fifth distinct reporter crosses the threshold: deleted exactly now.
    pm.reportPost(&s("r5"), id).unwrap();
    assert_eq!(pm.getInteractionCount(id, InteractionType::REPORT).count, 5);
    assert!(!pm.canViewPost(&tc, &oracle, id, &s("bob")));

    // A deleted post takes no further reports.
    assert_eq!(pm.reportPost(&s("r6"), id), Err(ContractError::InvalidState));
    assert_eq!(pm.getInteractionCount(id, InteractionType::REPORT).count, 5);
}

#[test]
fn test_delete_post_is_creator_only_and_sticky() {
    let (tc, mut pm, oracle, t) = setup();
    let id = pm.createPost(&tc, &s("bob"), t, s("mine"), false, None, 0, 1).unwrap();
    assert_eq!(pm.deletePost(&s("carol"), id), Err(ContractError::Unauthorized));
    pm.deletePost(&s("bob"), id).unwrap();
    assert_eq!(pm.deletePost(&s("bob"), id), Err(ContractError::InvalidState));
    assert!(!pm.canViewPost(&tc, &oracle, id, &s("bob")));
}

#[test]
fn test_gated_visibility_follows_oracle_balance() {
    let (tc, mut pm, mut oracle, t) = setup();
    let id = pm
        .createPost(&tc, &s("bob"), t, s("gated"), true, Some(s("nft")), 7, 1)
        .unwrap();

    // The creator always sees their own post.
    assert!(pm.canViewPost(&tc, &oracle, id, &s("bob")));
    // A member without balance is denied while the balance is zero.
    assert!(!pm.canViewPost(&tc, &oracle, id, &s("carol")));
    assert!(!pm.canViewPost(&tc, &oracle, id, &s("carol")));
    // Once the balance becomes nonzero the same check allows.
    oracle.set_erc1155_balance(s("nft"), s("carol"), 7, 1);
    assert!(pm.canViewPost(&tc, &oracle, id, &s("carol")));
    // The visibility check changed no local state: a zero balance denies again.
    oracle.set_erc1155_balance(s("nft"), s("carol"), 7, 0);
    assert!(!pm.canViewPost(&tc, &oracle, id, &s("carol")));
    // An erroring oracle is folded to a deny.
    oracle.set_erc1155_balance(s("nft"), s("carol"), 7, 3);
    oracle.set_failing(s("nft"));
    assert!(!pm.canViewPost(&tc, &oracle, id, &s("carol")));
    // A non-member stays denied even for ungated content of others.
    assert!(!pm.canViewPost(&tc, &oracle, id, &s("stranger")));
}

#[test]
fn test_authorized_viewer_override() {
    let (tc, mut pm, oracle, t) = setup();
    let id = pm
        .createPost(&tc, &s("bob"), t, s("gated"), true, Some(s("nft")), 7, 1)
        .unwrap();
    assert_eq!(
        pm.authorizeViewer(&s("carol"), id, s("stranger")),
        Err(ContractError::Unauthorized)
    );
    pm.authorizeViewer(&s("bob"), id, s("stranger")).unwrap();
    // The override works regardless of membership and entitlement.
    assert!(pm.canViewPost(&tc, &oracle, id, &s("stranger")));
}

#[test]
fn test_interactions_are_at_most_once() {
    let (tc, mut pm, oracle, t) = setup();
    let id = pm.createPost(&tc, &s("bob"), t, s("post"), false, None, 0, 1).unwrap();

    // Self-interaction is rejected.
    assert_eq!(
        pm.interactWithPost(&tc, &oracle, &s("bob"), id, InteractionType::LIKE),
        Err(ContractError::InvalidState)
    );
    // Report and reply kinds do not go through this operation.
    assert_eq!(
        pm.interactWithPost(&tc, &oracle, &s("carol"), id, InteractionType::REPORT),
        Err(ContractError::ValidationError)
    );
    pm.interactWithPost(&tc, &oracle, &s("carol"), id, InteractionType::LIKE).unwrap();
    assert_eq!(pm.getInteractionCount(id, InteractionType::LIKE).count, 1);
    assert_eq!(
        pm.interactWithPost(&tc, &oracle, &s("carol"), id, InteractionType::LIKE),
        Err(ContractError::AlreadyExists)
    );
    assert_eq!(pm.getInteractionCount(id, InteractionType::LIKE).count, 1);
    // A different kind by the same caller is a fresh interaction.
    pm.interactWithPost(&tc, &oracle, &s("carol"), id, InteractionType::SHARE).unwrap();
    assert_eq!(pm.getInteractionCount(id, InteractionType::SHARE).count, 1);
    // Outsiders without visibility cannot interact.
    assert_eq!(
        pm.interactWithPost(&tc, &oracle, &s("stranger"), id, InteractionType::LIKE),
        Err(ContractError::Unauthorized)
    );
}

#[test]
fn test_replies_and_listing() {
    let (tc, mut pm, _oracle, t) = setup();
    // Post id 0 doubles as the root sentinel in parent ids, so reply listings
    // are only meaningful for later posts.
    pm.createPost(&tc, &s("alice"), t, s("first"), false, None, 0, 1).unwrap();
    let root = pm.createPost(&tc, &s("bob"), t, s("root"), false, None, 0, 1).unwrap();
    let r1 = pm
        .createReply(&tc, &s("carol"), root, s("re one"), false, None, 0, 10)
        .unwrap();
    assert_eq!(pm.getInteractionCount(root, InteractionType::REPLY).count, 1);
    // Replies use the plain-text cooldown.
    assert_eq!(
        pm.createReply(&tc, &s("carol"), root, s("again"), false, None, 0, 11),
        Err(ContractError::InvalidState)
    );
    let r2 = pm
        .createReply(&tc, &s("carol"), root, s("re two"), false, None, 0, 70)
        .unwrap();
    assert_eq!(pm.getPostReplies(root).replies, vec![r1, r2]);
    // A deleted reply is excluded from the listing, the counter stays.
    pm.deletePost(&s("carol"), r1).unwrap();
    assert_eq!(pm.getPostReplies(root).replies, vec![r2]);
    assert_eq!(pm.getInteractionCount(root, InteractionType::REPLY).count, 2);
    // Replying under a missing or deleted parent fails.
    assert_eq!(
        pm.createReply(&tc, &s("bob"), 99, s("x"), false, None, 0, 80),
        Err(ContractError::NotFound)
    );
    pm.deletePost(&s("bob"), root).unwrap();
    assert_eq!(
        pm.createReply(&tc, &s("carol"), root, s("x"), false, None, 0, 200),
        Err(ContractError::InvalidState)
    );
}

#[test]
fn test_encrypted_post() {
    let (tc, mut pm, _oracle, t) = setup();
    assert_eq!(
        pm.createEncryptedPost(&tc, &s("bob"), t, s(""), s("keyhash"), s("signer"), 1),
        Err(ContractError::ValidationError)
    );
    assert_eq!(
        pm.createEncryptedPost(&tc, &s("bob"), t, s("secret"), s(""), s("signer"), 1),
        Err(ContractError::ValidationError)
    );
    let id = pm
        .createEncryptedPost(&tc, &s("bob"), t, s("secret"), s("keyhash"), s("signer"), 1)
        .unwrap();
    let g = pm.query_get_post(id).unwrap();
    assert!(g.is_encrypted);
    assert!(!g.is_gated);
    assert_eq!(g.access_signer, Some(s("signer")));
    // The stub access check allows whenever a signer is configured.
    assert_eq!(pm.verifyPostAccess(id, &s("anyone"), &vec![1, 2, 3]), Ok(true));
}

#[test]
fn test_signature_gated_post() {
    let (tc, mut pm, mut oracle, t) = setup();
    // The reference must name the configured collectible contract.
    assert_eq!(
        pm.createSignatureGatedPost(
            &tc, &oracle, &s("bob"), t, s("body"), s("kh"), s("sg"), s("other"), 9, 1
        ),
        Err(ContractError::ValidationError)
    );
    // An unanswerable collectible query is a hard failure.
    assert_eq!(
        pm.createSignatureGatedPost(
            &tc, &oracle, &s("bob"), t, s("body"), s("kh"), s("sg"), s("collectibles"), 9, 1
        ),
        Err(ContractError::ExternalQueryFailure)
    );
    oracle.set_collectible(s("collectibles"), 9, false);
    assert_eq!(
        pm.createSignatureGatedPost(
            &tc, &oracle, &s("bob"), t, s("body"), s("kh"), s("sg"), s("collectibles"), 9, 1
        ),
        Err(ContractError::InvalidState)
    );
    oracle.set_collectible(s("collectibles"), 9, true);
    let id = pm
        .createSignatureGatedPost(
            &tc, &oracle, &s("bob"), t, s("body"), s("kh"), s("sg"), s("collectibles"), 9, 1,
        )
        .unwrap();
    let g = pm.query_get_post(id).unwrap();
    assert!(g.is_gated);
    assert!(g.is_encrypted);
    assert_eq!(g.collectible_contract, Some(s("collectibles")));
}

#[test]
fn test_plain_post_has_no_signature_gate() {
    let (tc, mut pm, _oracle, t) = setup();
    let id = pm.createPost(&tc, &s("bob"), t, s("plain"), false, None, 0, 1).unwrap();
    assert_eq!(
        pm.verifyPostAccess(id, &s("anyone"), &vec![]),
        Err(ContractError::InvalidState)
    );
    assert_eq!(
        pm.verifyPostAccess(42, &s("anyone"), &vec![]),
        Err(ContractError::NotFound)
    );
}

#[test]
fn test_set_tribe_encryption_key_gate() {
    let (tc, mut pm, _oracle, t) = setup();
    assert_eq!(
        pm.setTribeEncryptionKey(&tc, &s("bob"), t, s("k")),
        Err(ContractError::Unauthorized)
    );
    pm.setTribeEncryptionKey(&tc, &s("alice"), t, s("k")).unwrap();
    assert_eq!(
        pm.setTribeEncryptionKey(&tc, &s("alice"), 99, s("k")),
        Err(ContractError::NotFound)
    );
}

#[test]
fn test_update_post() {
    let (tc, mut pm, _oracle, t) = setup();
    let id = pm.createPost(&tc, &s("bob"), t, s("original"), false, None, 0, 1).unwrap();
    assert_eq!(
        pm.updatePost(&s("carol"), id, s("updated body")),
        Err(ContractError::Unauthorized)
    );
    // Too short for the structural rules.
    assert_eq!(
        pm.updatePost(&s("bob"), id, s("short")),
        Err(ContractError::ValidationError)
    );
    pm.updatePost(&s("bob"), id, s("updated body")).unwrap();
    assert_eq!(pm.query_get_post(id).unwrap().metadata, s("updated body"));
}

#[test]
fn test_metadata_rules_and_type_derivation() {
    assert_eq!(determine_post_type("hello"), PostType::TEXT);
    assert_eq!(determine_post_type("{\"type\":\"EVENT\"}"), PostType::EVENT);
    assert_eq!(determine_post_type("{\"type\":\"RICH_MEDIA\"}"), PostType::RICH_MEDIA);
    assert_eq!(determine_post_type("{\"type\":\"PROJECT\"}"), PostType::PROJECT_UPDATE);
    assert_eq!(
        determine_post_type("{\"type\":\"PROJECT_UPDATE\"}"),
        PostType::PROJECT_UPDATE
    );
    assert_eq!(determine_post_type("{\"type\":\"POLL\"}"), PostType::POLL);
    assert_eq!(
        determine_post_type("{\"type\":\"COMMUNITY_UPDATE\"}"),
        PostType::COMMUNITY_UPDATE
    );
    assert_eq!(determine_post_type("{\"type\":\"ENCRYPTED\"}"), PostType::ENCRYPTED);

    // Length bounds are 10 to 5000 bytes.
    assert!(!validateMetadata("123456789", &PostType::TEXT));
    assert!(validateMetadata("1234567890", &PostType::TEXT));
    assert!(!validateMetadata(&"x".repeat(5001), &PostType::TEXT));
    assert!(validateMetadata(&"x".repeat(5000), &PostType::TEXT));
    // Typed payloads need their marker.
    assert!(!validateMetadata("1234567890", &PostType::EVENT));
    assert!(validateMetadata("{\"type\":\"EVENT\"}", &PostType::EVENT));
}

#[test]
fn test_batch_posting() {
    let (tc, mut pm, _oracle, t) = setup();
    let limits = getBatchPostingLimits();
    assert_eq!(limits.max_batch_size, 5);
    assert_eq!(limits.batch_cooldown, 300);

    let item = |md: &str, pt: PostType| BatchPostData {
        metadata: s(md),
        is_gated: false,
        collectible_contract: None,
        collectible_id: 0,
        post_type: pt,
    };

    // Over the cap.
    let six: Vec<BatchPostData> = (0..6).map(|_| item("1234567890", PostType::TEXT)).collect();
    assert_eq!(
        pm.createBatchPosts(&tc, &s("bob"), t, six, 1),
        Err(ContractError::ValidationError)
    );
    // Two items of the same type hit the type's own cooldown inside the batch.
    let dup = vec![item("1234567890", PostType::TEXT), item("0987654321", PostType::TEXT)];
    assert_eq!(
        pm.createBatchPosts(&tc, &s("bob"), t, dup, 1),
        Err(ContractError::InvalidState)
    );
    // A failing batch committed nothing.
    assert!(pm.query_get_post(0).is_err());
    // Structural validation is per item.
    let bad = vec![item("short", PostType::TEXT)];
    assert_eq!(
        pm.createBatchPosts(&tc, &s("bob"), t, bad, 1),
        Err(ContractError::ValidationError)
    );
    // A mixed batch passes and creates sequential ids.
    let good = vec![
        item("1234567890", PostType::TEXT),
        item("{\"type\":\"EVENT\"} details", PostType::EVENT),
    ];
    pm.createBatchPosts(&tc, &s("bob"), t, good, 1).unwrap();
    assert_eq!(pm.query_get_post(0).unwrap().metadata, s("1234567890"));
    assert_eq!(pm.query_get_post(1).unwrap().metadata, s("{\"type\":\"EVENT\"} details"));
    // The batch stamped the plain-text window.
    assert_eq!(
        pm.createPost(&tc, &s("bob"), t, s("more text"), false, None, 0, 30),
        Err(ContractError::InvalidState)
    );
}

#[test]
fn test_post_listings() {
    let (mut tc, mut pm, oracle, t) = setup();
    let t2 = tc
        .createTribe(&s("alice"), s("second"), s("{}"), vec![], JoinType::PUBLIC, 0, vec![])
        .unwrap();
    tc.joinTribe(&oracle, &s("bob"), t2).unwrap();

    let p0 = pm.createPost(&tc, &s("bob"), t, s("one"), false, None, 0, 1).unwrap();
    let p1 = pm.createPost(&tc, &s("carol"), t, s("two"), false, None, 0, 1).unwrap();
    let p2 = pm.createPost(&tc, &s("bob"), t2, s("three"), false, None, 0, 100).unwrap();

    let by_tribe = pm.getPostsByTribe(t, 0, 10);
    assert_eq!(by_tribe.posts, vec![p0, p1]);
    assert_eq!(by_tribe.total, 2);
    // Windowing.
    let windowed = pm.getPostsByTribe(t, 1, 10);
    assert_eq!(windowed.posts, vec![p1]);
    assert_eq!(windowed.total, 2);

    let by_user = pm.getPostsByUser(&s("bob"), 0, 10);
    assert_eq!(by_user.posts, vec![p0, p2]);
    assert_eq!(by_user.total, 2);

    let both = pm.getPostsByTribeAndUser(t, &s("bob"), 0, 10);
    assert_eq!(both.posts, vec![p0]);
    assert_eq!(both.total, 1);

    // carol is only a member of the first community.
    let feed = pm.getFeedForUser(&tc, &s("carol"), 0, 10);
    assert_eq!(feed.posts, vec![p0, p1]);
    assert_eq!(feed.total, 2);

    // Deleted posts leave every listing.
    pm.deletePost(&s("bob"), p0).unwrap();
    assert_eq!(pm.getPostsByTribe(t, 0, 10).posts, vec![p1]);
}

#[test]
fn test_pause_gate() {
    let (_tc, mut pm, _oracle, _t) = setup();
    assert_eq!(pm.pause(&s("bob")), Err(ContractError::Unauthorized));
    pm.pause(&s("deployer")).unwrap();
    pm.unpause(&s("deployer")).unwrap();
}
