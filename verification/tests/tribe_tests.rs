use xion_blockchain::errors::ContractError;
use xion_blockchain::oracle::EntitlementOracle;
use xion_blockchain::role_manager::{RoleManager, MODERATOR_ROLE};
use xion_blockchain::tribe_controller::{
    JoinType, MemberStatus, NFTRequirement, NFTType, TribeController,
};

fn s(x: &str) -> String {
    x.to_string()
}

fn public_tribe(tc: &mut TribeController, admin: &str) -> u64 {
    tc.createTribe(
        &s(admin),
        s("general"),
        s("{}"),
        vec![],
        JoinType::PUBLIC,
        0,
        vec![],
    )
    .unwrap()
}

#[test]
fn test_create_tribe_whitelist_gate() {
    let mut tc = TribeController::new(s("alice"));
    assert!(tc.is_whitelisted(&s("alice")));
    assert!(!tc.is_whitelisted(&s("bob")));
    let err = tc.createTribe(
        &s("bob"),
        s("t"),
        s("{}"),
        vec![],
        JoinType::PUBLIC,
        0,
        vec![],
    );
    assert_eq!(err, Err(ContractError::Unauthorized));
    let id = public_tribe(&mut tc, "alice");
    assert_eq!(id, 0);
    assert_eq!(tc.getMemberCount(0).count, 1);
    assert_eq!(tc.getMemberStatus(0, &s("alice")).status, MemberStatus::ACTIVE);
    assert_eq!(tc.getTribeAdmin(0).unwrap().admin, s("alice"));
}

#[test]
fn test_entitlement_policy_needs_requirements() {
    let mut tc = TribeController::new(s("alice"));
    let err = tc.createTribe(
        &s("alice"),
        s("gated"),
        s("{}"),
        vec![],
        JoinType::NFT_GATED,
        0,
        vec![],
    );
    assert_eq!(err, Err(ContractError::ValidationError));
}

#[test]
fn test_private_join_refused_then_request_and_approve() {
    let rm = RoleManager::new(s("alice"));
    let oracle = EntitlementOracle::new();
    let mut tc = TribeController::new(s("alice"));
    let t = tc
        .createTribe(&s("alice"), s("club"), s("{}"), vec![], JoinType::PRIVATE, 0, vec![])
        .unwrap();

    // Direct joins always fail under the PRIVATE policy.
    assert_eq!(
        tc.joinTribe(&oracle, &s("bob"), t),
        Err(ContractError::InvalidState)
    );

    let before = tc.getMemberCount(t).count;
    tc.requestToJoinTribe(&s("bob"), t).unwrap();
    assert_eq!(tc.getMemberStatus(t, &s("bob")).status, MemberStatus::PENDING);
    assert_eq!(tc.getMemberCount(t).count, before);

    tc.approveMember(&rm, &s("alice"), t, &s("bob")).unwrap();
    assert_eq!(tc.getMemberStatus(t, &s("bob")).status, MemberStatus::ACTIVE);
    assert_eq!(tc.getMemberCount(t).count, before + 1);
}

#[test]
fn test_request_rejection_reasons_are_distinct() {
    let rm = RoleManager::new(s("alice"));
    let mut tc = TribeController::new(s("alice"));
    let t = tc
        .createTribe(&s("alice"), s("club"), s("{}"), vec![], JoinType::PRIVATE, 0, vec![])
        .unwrap();

    tc.requestToJoinTribe(&s("bob"), t).unwrap();
    // Re-request while pending.
    assert_eq!(
        tc.requestToJoinTribe(&s("bob"), t),
        Err(ContractError::AlreadyExists)
    );
    // Rejection falls back to NONE, and a re-request reports the rejection.
    tc.rejectMember(&rm, &s("alice"), t, &s("bob")).unwrap();
    assert_eq!(tc.getMemberStatus(t, &s("bob")).status, MemberStatus::NONE);
    assert_eq!(
        tc.requestToJoinTribe(&s("bob"), t),
        Err(ContractError::InvalidState)
    );
    // A banned principal's request is an authorization failure.
    tc.requestToJoinTribe(&s("carol"), t).unwrap();
    tc.banMember(&rm, &s("alice"), t, &s("carol")).unwrap();
    assert_eq!(
        tc.requestToJoinTribe(&s("carol"), t),
        Err(ContractError::Unauthorized)
    );
}

#[test]
fn test_banned_never_reaches_active() {
    let rm = RoleManager::new(s("alice"));
    let oracle = EntitlementOracle::new();
    let mut tc = TribeController::new(s("alice"));
    let t = public_tribe(&mut tc, "alice");
    tc.joinTribe(&oracle, &s("dave"), t).unwrap();
    let count_active = tc.getMemberCount(t).count;
    tc.banMember(&rm, &s("alice"), t, &s("dave")).unwrap();
    assert_eq!(tc.getMemberStatus(t, &s("dave")).status, MemberStatus::BANNED);
    // An ACTIVE member's departure lowers the counter.
    assert_eq!(tc.getMemberCount(t).count, count_active - 1);

    assert_eq!(
        tc.joinTribe(&oracle, &s("dave"), t),
        Err(ContractError::Unauthorized)
    );
    assert_eq!(
        tc.joinTribeWithCode(&s("dave"), t, &b"XYZ".to_vec(), 10),
        Err(ContractError::Unauthorized)
    );
    assert_eq!(
        tc.approveMember(&rm, &s("alice"), t, &s("dave")),
        Err(ContractError::InvalidState)
    );
    // Banning twice is reported as already done.
    assert_eq!(
        tc.banMember(&rm, &s("alice"), t, &s("dave")),
        Err(ContractError::AlreadyExists)
    );
    assert_eq!(tc.getMemberStatus(t, &s("dave")).status, MemberStatus::BANNED);
}

#[test]
fn test_moderator_capability_escalation() {
    let mut rm = RoleManager::new(s("root"));
    rm.grantRole(&s("root"), s("mod"), s(MODERATOR_ROLE)).unwrap();
    let mut tc = TribeController::new(s("alice"));
    let t = tc
        .createTribe(&s("alice"), s("club"), s("{}"), vec![], JoinType::PRIVATE, 0, vec![])
        .unwrap();
    tc.requestToJoinTribe(&s("bob"), t).unwrap();
    // Not the community admin, but the moderator capability lets them approve.
    tc.approveMember(&rm, &s("mod"), t, &s("bob")).unwrap();
    assert_eq!(tc.getMemberStatus(t, &s("bob")).status, MemberStatus::ACTIVE);
    assert!(tc.is_tribe_admin_check(&rm, t, &s("mod")).unwrap());
    assert!(!tc.is_tribe_admin_check(&rm, t, &s("bob")).unwrap());
}

#[test]
fn test_invite_code_lifecycle() {
    let rm = RoleManager::new(s("alice"));
    let mut tc = TribeController::new(s("alice"));
    let t = tc
        .createTribe(&s("alice"), s("vip"), s("{}"), vec![], JoinType::INVITE_CODE, 0, vec![])
        .unwrap();

    // Only the admin may issue codes.
    assert_eq!(
        tc.createInviteCode(&rm, &s("bob"), t, &s("XYZ"), 1, 1000),
        Err(ContractError::Unauthorized)
    );
    tc.createInviteCode(&rm, &s("alice"), t, &s("XYZ"), 1, 1000).unwrap();
    let status = tc.getInviteCodeStatus(t, &s("XYZ")).unwrap();
    assert!(status.valid);
    assert_eq!(status.remaining_uses, 1);

    // The matching code admits the caller; unknown codes do not.
    assert_eq!(
        tc.joinTribeWithCode(&s("eve"), t, &b"ABC".to_vec(), 10),
        Err(ContractError::NotFound)
    );
    tc.joinTribeWithCode(&s("carol"), t, &b"XYZ".to_vec(), 10).unwrap();
    assert_eq!(tc.getMemberStatus(t, &s("carol")).status, MemberStatus::ACTIVE);
    assert_eq!(tc.getMemberCount(t).count, 2);

    // The single use is consumed.
    assert_eq!(
        tc.joinTribeWithCode(&s("dave"), t, &b"XYZ".to_vec(), 10),
        Err(ContractError::InvalidState)
    );
    assert!(!tc.getInviteCodeStatus(t, &s("XYZ")).unwrap().valid);
}

#[test]
fn test_invite_code_expiry_and_revocation() {
    let rm = RoleManager::new(s("alice"));
    let mut tc = TribeController::new(s("alice"));
    let t = tc
        .createTribe(&s("alice"), s("vip"), s("{}"), vec![], JoinType::INVITE_CODE, 0, vec![])
        .unwrap();
    tc.createInviteCode(&rm, &s("alice"), t, &s("CODE"), 10, 50).unwrap();
    assert_eq!(
        tc.joinTribeWithCode(&s("late"), t, &b"CODE".to_vec(), 50),
        Err(ContractError::InvalidState)
    );
    tc.joinTribeWithCode(&s("early"), t, &b"CODE".to_vec(), 49).unwrap();

    tc.revokeInviteCode(&rm, &s("alice"), t, &s("CODE")).unwrap();
    assert_eq!(
        tc.joinTribeWithCode(&s("next"), t, &b"CODE".to_vec(), 10),
        Err(ContractError::NotFound)
    );
    assert!(!tc.getInviteCodeStatus(t, &s("CODE")).unwrap().valid);
}

#[test]
fn test_public_join_rejects_duplicates() {
    let oracle = EntitlementOracle::new();
    let mut tc = TribeController::new(s("alice"));
    let t = public_tribe(&mut tc, "alice");
    tc.joinTribe(&oracle, &s("bob"), t).unwrap();
    assert_eq!(
        tc.joinTribe(&oracle, &s("bob"), t),
        Err(ContractError::AlreadyExists)
    );
    assert_eq!(
        tc.joinTribe(&oracle, &s("bob"), 99),
        Err(ContractError::NotFound)
    );
}

#[test]
fn test_erc721_gated_join_fails_closed() {
    let mut oracle = EntitlementOracle::new();
    let mut tc = TribeController::new(s("alice"));
    let req = NFTRequirement {
        nft_contract: Some(s("nftc")),
        nft_type: NFTType::ERC721,
        is_mandatory: true,
        min_amount: 1,
        token_ids: vec![],
    };
    let t = tc
        .createTribe(&s("alice"), s("gated"), s("{}"), vec![], JoinType::NFT_GATED, 0, vec![req])
        .unwrap();

    // No balance: requirement not met.
    assert_eq!(
        tc.joinTribe(&oracle, &s("bob"), t),
        Err(ContractError::Unauthorized)
    );
    // Sufficient balance admits.
    oracle.set_erc721_balance(s("nftc"), s("bob"), 1);
    tc.joinTribe(&oracle, &s("bob"), t).unwrap();

    // An erroring oracle is folded to a deny, even with a recorded balance.
    oracle.set_erc721_balance(s("nftc"), s("carol"), 5);
    oracle.set_failing(s("nftc"));
    assert_eq!(
        tc.joinTribe(&oracle, &s("carol"), t),
        Err(ContractError::Unauthorized)
    );
}

#[test]
fn test_erc721_token_ownership_and_any_nft() {
    let mut oracle = EntitlementOracle::new();
    let mut tc = TribeController::new(s("alice"));
    let own_req = NFTRequirement {
        nft_contract: Some(s("deeds")),
        nft_type: NFTType::ERC721,
        is_mandatory: true,
        min_amount: 1,
        token_ids: vec![7],
    };
    let alt_req = NFTRequirement {
        nft_contract: Some(s("tokens")),
        nft_type: NFTType::ERC1155,
        is_mandatory: false,
        min_amount: 2,
        token_ids: vec![3],
    };
    let t = tc
        .createTribe(
            &s("alice"),
            s("any"),
            s("{}"),
            vec![],
            JoinType::ANY_NFT,
            0,
            vec![own_req, alt_req],
        )
        .unwrap();

    // Neither requirement met.
    assert_eq!(
        tc.joinTribe(&oracle, &s("bob"), t),
        Err(ContractError::Unauthorized)
    );
    // The deed is owned by someone else: still refused.
    oracle.set_erc721_balance(s("deeds"), s("bob"), 1);
    oracle.set_erc721_owner(s("deeds"), 7, s("whale"));
    assert_eq!(
        tc.joinTribe(&oracle, &s("bob"), t),
        Err(ContractError::Unauthorized)
    );
    // The alternative per-token balance admits under ANY_NFT.
    oracle.set_erc1155_balance(s("tokens"), s("bob"), 3, 2);
    tc.joinTribe(&oracle, &s("bob"), t).unwrap();
}

#[test]
fn test_merge_workflow() {
    let rm = RoleManager::new(s("alice"));
    let mut tc = TribeController::new(s("alice"));
    let src = public_tribe(&mut tc, "alice");
    let dst = public_tribe(&mut tc, "alice");

    let id = tc.requestMerge(&rm, &s("alice"), src, dst, 100).unwrap();
    assert_eq!(id, 0);
    let req = tc.getMergeRequest(id).unwrap().request;
    assert_eq!(req.source_tribe_id, src);
    assert_eq!(req.target_tribe_id, dst);
    assert_eq!(req.request_time, 100);
    assert!(!req.approved);

    // Execution needs the approval first.
    assert_eq!(
        tc.executeMerge(&rm, &s("alice"), id),
        Err(ContractError::InvalidState)
    );
    tc.approveMerge(&rm, &s("alice"), id).unwrap();
    tc.executeMerge(&rm, &s("alice"), id).unwrap();

    assert!(!tc.getTribeDetails(src).unwrap().is_active);
    assert!(tc.getTribeDetails(dst).unwrap().is_active);
    // The request record is gone.
    assert!(matches!(tc.getMergeRequest(id), Err(ContractError::NotFound)));
    assert_eq!(
        tc.cancelMerge(&rm, &s("alice"), id),
        Err(ContractError::NotFound)
    );

    // The deactivated source no longer admits members.
    let oracle = EntitlementOracle::new();
    assert_eq!(
        tc.joinTribe(&oracle, &s("bob"), src),
        Err(ContractError::InvalidState)
    );
}

#[test]
fn test_cancel_merge() {
    let rm = RoleManager::new(s("alice"));
    let mut tc = TribeController::new(s("alice"));
    let src = public_tribe(&mut tc, "alice");
    let dst = public_tribe(&mut tc, "alice");
    let id = tc.requestMerge(&rm, &s("alice"), src, dst, 5).unwrap();
    tc.cancelMerge(&rm, &s("alice"), id).unwrap();
    assert!(matches!(tc.getMergeRequest(id), Err(ContractError::NotFound)));
    assert!(tc.getTribeDetails(src).unwrap().is_active);
}

#[test]
fn test_update_tribe_and_config() {
    let rm = RoleManager::new(s("alice"));
    let mut tc = TribeController::new(s("alice"));
    let t = public_tribe(&mut tc, "alice");
    assert_eq!(
        tc.updateTribe(&rm, &s("bob"), t, s("new"), vec![s("x")]),
        Err(ContractError::Unauthorized)
    );
    tc.updateTribe(&rm, &s("alice"), t, s("new-metadata"), vec![s("x"), s("y")])
        .unwrap();
    let details = tc.getTribeDetails(t).unwrap();
    assert_eq!(details.metadata, s("new-metadata"));
    assert_eq!(details.whitelist, vec![s("x"), s("y")]);
    assert!(tc.isAddressWhitelisted(t, &s("x")).unwrap().result);
    assert!(!tc.isAddressWhitelisted(t, &s("z")).unwrap().result);

    tc.updateTribeConfig(&rm, &s("alice"), t, JoinType::PRIVATE, 42, vec![]).unwrap();
    let cfg = tc.getTribeConfigView(t).unwrap().config;
    assert_eq!(cfg.join_type, JoinType::PRIVATE);
    assert_eq!(cfg.entry_fee, 42);
    assert!(cfg.can_merge);
}

#[test]
fn test_user_tribes_listing() {
    let oracle = EntitlementOracle::new();
    let mut tc = TribeController::new(s("alice"));
    let a = public_tribe(&mut tc, "alice");
    let b = public_tribe(&mut tc, "alice");
    let c = public_tribe(&mut tc, "alice");
    tc.joinTribe(&oracle, &s("bob"), a).unwrap();
    tc.joinTribe(&oracle, &s("bob"), c).unwrap();
    assert_eq!(tc.getUserTribes(&s("bob")).tribe_ids, vec![a, c]);
    assert_eq!(tc.getUserTribes(&s("alice")).tribe_ids, vec![a, b, c]);
    assert!(tc.is_tribe_member(a, &s("bob")));
    assert!(!tc.is_tribe_member(b, &s("bob")));
    assert!(tc.is_tribe_member_with_status(b, &s("bob"), MemberStatus::NONE));
}

#[test]
fn test_ban_pending_member_keeps_count() {
    let rm = RoleManager::new(s("alice"));
    let mut tc = TribeController::new(s("alice"));
    let t = tc
        .createTribe(&s("alice"), s("club"), s("{}"), vec![], JoinType::PRIVATE, 0, vec![])
        .unwrap();
    tc.requestToJoinTribe(&s("bob"), t).unwrap();
    let before = tc.getMemberCount(t).count;
    tc.banMember(&rm, &s("alice"), t, &s("bob")).unwrap();
    // A PENDING member never counted as ACTIVE.
    assert_eq!(tc.getMemberCount(t).count, before);
    // A ban lands from any prior state: a principal without any record is in
    // the default NONE state and becomes BANNED outright.
    tc.banMember(&rm, &s("alice"), t, &s("ghost")).unwrap();
    assert_eq!(tc.getMemberStatus(t, &s("ghost")).status, MemberStatus::BANNED);
    assert_eq!(tc.getMemberCount(t).count, before);
}

#[test]
fn test_unknown_community_queries() {
    let tc = TribeController::new(s("alice"));
    assert_eq!(tc.getMemberCount(42).count, 0);
    assert_eq!(tc.getMemberStatus(42, &s("bob")).status, MemberStatus::NONE);
    assert!(matches!(tc.getTribeAdmin(42), Err(ContractError::NotFound)));
    assert!(matches!(tc.getTribeDetails(42), Err(ContractError::NotFound)));
    assert!(matches!(
        tc.getInviteCodeStatus(42, &s("X")),
        Err(ContractError::NotFound)
    ));
}

#[test]
fn test_multi_nft_checks_only_mandatory() {
    let mut oracle = EntitlementOracle::new();
    let mut tc = TribeController::new(s("alice"));
    let must = NFTRequirement {
        nft_contract: Some(s("must")),
        nft_type: NFTType::ERC1155,
        is_mandatory: true,
        min_amount: 1,
        token_ids: vec![1],
    };
    let optional = NFTRequirement {
        nft_contract: Some(s("extra")),
        nft_type: NFTType::ERC1155,
        is_mandatory: false,
        min_amount: 1,
        token_ids: vec![1],
    };
    let t = tc
        .createTribe(
            &s("alice"),
            s("multi"),
            s("{}"),
            vec![],
            JoinType::MULTI_NFT,
            0,
            vec![must, optional],
        )
        .unwrap();
    // Only the mandatory requirement must hold.
    oracle.set_erc1155_balance(s("must"), s("bob"), 1, 1);
    tc.joinTribe(&oracle, &s("bob"), t).unwrap();
    // Without the mandatory one the optional one does not help.
    oracle.set_erc1155_balance(s("extra"), s("carol"), 1, 1);
    assert_eq!(
        tc.joinTribe(&oracle, &s("carol"), t),
        Err(ContractError::Unauthorized)
    );
}
