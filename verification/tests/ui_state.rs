//! The collapsed groups.
use prtop::types::{PrRole, RoleSet};
use prtop::ui_state::{distinct_roles, unreadable_state, UiStateStore};

#[test]
fn missing_state_defaults_to_all_expanded() {
    let store = UiStateStore::load_from(None).unwrap();
    assert!(store.collapsed_roles().is_empty());
}

#[test]
fn collapsed_roles_survive_store_reconstruction() {
    let mut store = UiStateStore::load_from(None).unwrap();
    let collapsed = RoleSet::of(&vec![PrRole::ReviewRequested, PrRole::Mentioned]);
    let saved = store.save(&collapsed);
    assert_eq!(store.collapsed_roles(), &collapsed);

    let reloaded = UiStateStore::load_from(Some(&saved)).unwrap();
    assert_eq!(reloaded.collapsed_roles(), &collapsed);
}

#[test]
fn roles_are_saved_in_the_order_of_the_groups() {
    let mut store = UiStateStore::load_from(None).unwrap();
    let collapsed = RoleSet::of(&vec![PrRole::Mentioned, PrRole::Author]);
    assert_eq!(store.save(&collapsed), vec![PrRole::Author, PrRole::Mentioned]);
}

#[test]
fn duplicate_role_is_invalid() {
    let roles = vec![PrRole::Author, PrRole::Mentioned, PrRole::Author];
    assert_eq!(
        distinct_roles(&roles).unwrap_err(),
        "collapsed_roles contains a duplicate role"
    );
    assert!(UiStateStore::load_from(Some(&roles)).is_err());
}

#[test]
fn corrupt_state_error_includes_path() {
    let error = unreadable_state("/tmp/ui-state.json", "expected value");
    assert_eq!(
        error.to_string(),
        "Config error: Failed to parse /tmp/ui-state.json: expected value"
    );
}
