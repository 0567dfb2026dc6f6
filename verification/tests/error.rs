use todo_store::error::{permit, Call, StoreError};

#[test]
fn construction_needs_fresh_state() {
    assert_eq!(permit(Call::Construct, false), Ok(()));
    assert_eq!(permit(Call::Construct, true), Err(StoreError::AlreadyInitialized));
}

#[test]
fn operations_need_a_constructed_store() {
    assert_eq!(permit(Call::Operate, true), Ok(()));
    assert_eq!(permit(Call::Operate, false), Err(StoreError::NotInitialized));
}

#[test]
fn each_error_has_its_message() {
    assert_eq!(
        StoreError::NotInitialized.message(),
        "The contract should be initialized before usage"
    );
    assert_eq!(StoreError::AlreadyInitialized.message(), "Already initialized");
    assert_eq!(StoreError::TimeSourceFailure.message(), "The time source gave no value");
}
