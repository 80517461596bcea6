use xion_blockchain::errors::ContractError;
use xion_blockchain::role_manager::{RoleManager, ARTIST_ROLE, DEFAULT_ADMIN_ROLE, FAN_ROLE};

fn s(x: &str) -> String {
    x.to_string()
}

#[test]
fn test_deployer_is_admin() {
    let rm = RoleManager::new(s("creator"));
    assert!(rm.has_role(&s("creator"), &s(DEFAULT_ADMIN_ROLE)));
    assert!(!rm.has_role(&s("creator"), &s(ARTIST_ROLE)));
    assert!(!rm.has_role(&s("someone"), &s(DEFAULT_ADMIN_ROLE)));
}

#[test]
fn test_grant_and_revoke_role() {
    let mut rm = RoleManager::new(s("admin"));
    rm.grantRole(&s("admin"), s("user"), s(ARTIST_ROLE)).unwrap();
    assert!(rm.has_role(&s("user"), &s(ARTIST_ROLE)));

    // Revoking always clears the grant, whatever the prior state was.
    rm.revokeRole(&s("admin"), &s("user"), &s(ARTIST_ROLE)).unwrap();
    assert!(!rm.has_role(&s("user"), &s(ARTIST_ROLE)));

    // Revoking an absent grant is a no-op success, and the grant stays absent.
    rm.revokeRole(&s("admin"), &s("user"), &s(ARTIST_ROLE)).unwrap();
    assert!(!rm.has_role(&s("user"), &s(ARTIST_ROLE)));
}

#[test]
fn test_grant_requires_admin() {
    let mut rm = RoleManager::new(s("admin"));
    let err = rm.grantRole(&s("mallory"), s("mallory"), s(ARTIST_ROLE));
    assert_eq!(err, Err(ContractError::Unauthorized));
    assert!(!rm.has_role(&s("mallory"), &s(ARTIST_ROLE)));
}

#[test]
fn test_renounce_role() {
    let mut rm = RoleManager::new(s("admin"));
    rm.grantRole(&s("admin"), s("user"), s(FAN_ROLE)).unwrap();
    rm.renounceRole(&s("user"), &s(FAN_ROLE));
    assert!(!rm.has_role(&s("user"), &s(FAN_ROLE)));
}

#[test]
fn test_fan_assigner_flow() {
    let mut rm = RoleManager::new(s("admin"));
    assert_eq!(
        rm.assignFanRole(&s("helper"), s("user")),
        Err(ContractError::Unauthorized)
    );
    rm.authorizeFanAssigner(&s("admin"), s("helper")).unwrap();
    rm.assignFanRole(&s("helper"), s("user")).unwrap();
    assert!(rm.has_role(&s("user"), &s(FAN_ROLE)));
}

#[test]
fn test_pause_and_unpause() {
    let mut rm = RoleManager::new(s("admin"));
    assert_eq!(rm.pause(&s("user")), Err(ContractError::Unauthorized));
    assert!(!rm.is_paused());
    rm.pause(&s("admin")).unwrap();
    assert!(rm.is_paused());
    rm.unpause(&s("admin")).unwrap();
    assert!(!rm.is_paused());
}

#[test]
fn test_any_and_all_roles() {
    let mut rm = RoleManager::new(s("admin"));
    rm.grantRole(&s("admin"), s("user"), s(ARTIST_ROLE)).unwrap();
    let both = vec![s(ARTIST_ROLE), s(FAN_ROLE)];
    assert!(rm.has_any_role(&s("user"), &both).result);
    assert!(!rm.has_all_roles(&s("user"), &both).result);
    rm.grantRole(&s("admin"), s("user"), s(FAN_ROLE)).unwrap();
    assert!(rm.has_all_roles(&s("user"), &both).result);
}

#[test]
fn test_get_user_roles() {
    let mut rm = RoleManager::new(s("admin"));
    rm.grantRole(&s("admin"), s("user"), s(ARTIST_ROLE)).unwrap();
    rm.grantRole(&s("admin"), s("user"), s(FAN_ROLE)).unwrap();
    let roles = rm.get_user_roles(&s("user")).roles;
    assert_eq!(roles.len(), 2);
    assert!(roles.contains(&s(ARTIST_ROLE)));
    assert!(roles.contains(&s(FAN_ROLE)));
    let admin_roles = rm.get_user_roles(&s("admin")).roles;
    assert_eq!(admin_roles, vec![s(DEFAULT_ADMIN_ROLE)]);
}

#[test]
fn test_empty_role_lists() {
    let rm = RoleManager::new(s("admin"));
    let none: Vec<String> = vec![];
    assert!(!rm.has_any_role(&s("admin"), &none).result);
    assert!(rm.has_all_roles(&s("admin"), &none).result);
}
