use xion_blockchain::create_contract_version;
use xion_blockchain::errors::ContractError;

#[test]
pub fn simple_test() {
    println!("Running simple test...");
    assert_eq!(2 + 2, 4);
    println!("Simple test passed!");
}

#[test]
fn test_contract_version_label() {
    assert_eq!(create_contract_version("tribes", "0.1.0"), "tribes/0.1.0");
    assert_eq!(create_contract_version("", ""), "/");
}

#[test]
fn test_error_reasons() {
    assert_eq!(ContractError::Unauthorized.reason(), "unauthorized");
    assert_eq!(ContractError::NotFound.reason(), "not found");
    assert_eq!(ContractError::InvalidState.reason(), "invalid state");
    assert_eq!(ContractError::AlreadyExists.reason(), "already exists");
    assert_eq!(ContractError::ValidationError.reason(), "validation error");
    assert_eq!(
        ContractError::ExternalQueryFailure.reason(),
        "external query failure"
    );
}
