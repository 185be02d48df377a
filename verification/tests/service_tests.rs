use profiles::error::ProfileError;
use profiles::item::{AttrValue, Item};
use profiles::models::{CreateProfileRequest, PutProfileRequest};
use profiles::service::{
    create_profile, delete_all_profiles, delete_profile, get_profile, update_profile,
    validate_visibility,
};
use profiles::store::Table;

fn create_req(user_id: &str, bio: &str, visibility: &str) -> CreateProfileRequest {
    CreateProfileRequest {
        user_id: user_id.to_string(),
        bio: bio.to_string(),
        visibility: visibility.to_string(),
    }
}

fn put_req(bio: &str, visibility: &str) -> PutProfileRequest {
    PutProfileRequest {
        bio: bio.to_string(),
        visibility: visibility.to_string(),
    }
}

fn body_value(body: &[(String, String)], key: &str) -> Option<String> {
    body.iter()
        .find(|(k, _)| k == key)
        .map(|(_, v)| v.clone())
}

#[test]
fn validate_visibility_accepts_the_three_values() {
    assert!(validate_visibility("public"));
    assert!(validate_visibility("friends"));
    assert!(validate_visibility("private"));
}

#[test]
fn validate_visibility_rejects_everything_else() {
    assert!(!validate_visibility(""));
    assert!(!validate_visibility("Public"));
    assert!(!validate_visibility("FRIENDS"));
    assert!(!validate_visibility("is_private"));
    assert!(!validate_visibility("bogus"));
    assert!(!validate_visibility(" public"));
    assert!(!validate_visibility("public "));
}

#[test]
fn create_with_invalid_visibility_touches_nothing() {
    let mut table = Table::new();
    let r = create_profile(&mut table, &create_req("u1", "hi", "bogus"));
    match r {
        Err(ProfileError::Validation(msg)) => {
            assert_eq!(
                msg,
                "Invalid visibility: bogus. This should be public, friends, or private."
            );
            assert_eq!(ProfileError::Validation(msg).status_code(), 400);
        }
        _ => panic!("expected a validation error"),
    }
    assert_eq!(table.items.len(), 0);
}

#[test]
fn create_then_get_round_trip() {
    let mut table = Table::new();
    let id = create_profile(&mut table, &create_req("u1", "hi", "public")).unwrap();
    assert_eq!(id.len(), 36);
    let body = get_profile(&table, "u1", &id).unwrap();
    assert_eq!(body_value(&body, "user_id").as_deref(), Some("u1"));
    assert_eq!(body_value(&body, "profile_id").as_deref(), Some(id.as_str()));
    assert_eq!(body_value(&body, "bio").as_deref(), Some("hi"));
    assert_eq!(body_value(&body, "visibility").as_deref(), Some("public"));
    assert_eq!(body.len(), 4);
}

#[test]
fn generated_profile_ids_differ() {
    let mut table = Table::new();
    let a = create_profile(&mut table, &create_req("u1", "x", "public")).unwrap();
    let b = create_profile(&mut table, &create_req("u1", "x", "public")).unwrap();
    assert_ne!(a, b);
    assert_eq!(table.items.len(), 2);
}

#[test]
fn get_missing_key_is_not_found() {
    let table = Table::new();
    match get_profile(&table, "u1", "p1") {
        Err(e) => {
            assert!(matches!(e, ProfileError::NotFound));
            assert_eq!(e.status_code(), 404);
        }
        Ok(_) => panic!("expected not found"),
    }
}

#[test]
fn update_missing_key_is_not_found_and_mutates_nothing() {
    let mut table = Table::new();
    let id = create_profile(&mut table, &create_req("u1", "hi", "public")).unwrap();
    let r = update_profile(&mut table, "u1", "other", &put_req("new", "private"));
    assert!(matches!(r, Err(ProfileError::NotFound)));
    let body = get_profile(&table, "u1", &id).unwrap();
    assert_eq!(body_value(&body, "bio").as_deref(), Some("hi"));
    assert_eq!(body_value(&body, "visibility").as_deref(), Some("public"));
}

#[test]
fn update_changes_exactly_bio_and_visibility() {
    let mut table = Table::new();
    let id = create_profile(&mut table, &create_req("u1", "hi", "public")).unwrap();
    update_profile(&mut table, "u1", &id, &put_req("new bio", "friends")).unwrap();
    let body = get_profile(&table, "u1", &id).unwrap();
    assert_eq!(body_value(&body, "user_id").as_deref(), Some("u1"));
    assert_eq!(body_value(&body, "profile_id").as_deref(), Some(id.as_str()));
    assert_eq!(body_value(&body, "bio").as_deref(), Some("new bio"));
    assert_eq!(body_value(&body, "visibility").as_deref(), Some("friends"));
    assert_eq!(body.len(), 4);
}

#[test]
fn update_with_invalid_visibility_is_rejected() {
    let mut table = Table::new();
    let id = create_profile(&mut table, &create_req("u1", "hi", "public")).unwrap();
    let r = update_profile(&mut table, "u1", &id, &put_req("x", "Friends"));
    match r {
        Err(ProfileError::Validation(msg)) => {
            assert_eq!(
                msg,
                "Invalid visibility: Friends. This should be public, friends, or private."
            );
        }
        _ => panic!("expected a validation error"),
    }
    let body = get_profile(&table, "u1", &id).unwrap();
    assert_eq!(body_value(&body, "bio").as_deref(), Some("hi"));
    assert_eq!(body_value(&body, "visibility").as_deref(), Some("public"));
}

#[test]
fn delete_is_idempotent() {
    let mut table = Table::new();
    let id = create_profile(&mut table, &create_req("u1", "hi", "public")).unwrap();
    assert!(delete_profile(&mut table, "u1", &id).is_ok());
    assert!(matches!(
        get_profile(&table, "u1", &id),
        Err(ProfileError::NotFound)
    ));
    assert!(delete_profile(&mut table, "u1", &id).is_ok());
    assert!(matches!(
        get_profile(&table, "u1", &id),
        Err(ProfileError::NotFound)
    ));
}

#[test]
fn delete_all_empties_one_partition_only() {
    let mut table = Table::new();
    let a = create_profile(&mut table, &create_req("u1", "a", "public")).unwrap();
    let b = create_profile(&mut table, &create_req("u1", "b", "friends")).unwrap();
    let c = create_profile(&mut table, &create_req("u1", "c", "private")).unwrap();
    let d = create_profile(&mut table, &create_req("u2", "d", "public")).unwrap();
    assert!(delete_all_profiles(&mut table, "u1").is_ok());
    for id in [&a, &b, &c] {
        assert!(matches!(
            get_profile(&table, "u1", id),
            Err(ProfileError::NotFound)
        ));
    }
    let body = get_profile(&table, "u2", &d).unwrap();
    assert_eq!(body_value(&body, "bio").as_deref(), Some("d"));
    assert!(table.query_keys("u1").is_empty());
    assert_eq!(table.query_keys("u2").len(), 1);
}

#[test]
fn delete_all_on_empty_partition_succeeds() {
    let mut table = Table::new();
    assert!(delete_all_profiles(&mut table, "nobody").is_ok());
    assert_eq!(table.items.len(), 0);
}

#[test]
fn get_drops_non_string_attributes() {
    let mut table = Table::new();
    let mut item = Item::new();
    item.set_attr("user_id", AttrValue::Str("u1".to_string()));
    item.set_attr("profile_id", AttrValue::Str("p1".to_string()));
    item.set_attr("bio", AttrValue::Str("legacy".to_string()));
    item.set_attr("is_private", AttrValue::Boolean(true));
    item.set_attr("extras", AttrValue::Other);
    table.put_item(item);
    let body = get_profile(&table, "u1", "p1").unwrap();
    assert_eq!(body_value(&body, "bio").as_deref(), Some("legacy"));
    assert_eq!(body_value(&body, "is_private"), None);
    assert_eq!(body_value(&body, "extras"), None);
    assert_eq!(body.len(), 3);
}

#[test]
fn put_overwrites_by_key() {
    let mut table = Table::new();
    let mut first = Item::new();
    first.set_attr("user_id", AttrValue::Str("u1".to_string()));
    first.set_attr("profile_id", AttrValue::Str("p1".to_string()));
    first.set_attr("bio", AttrValue::Str("old".to_string()));
    table.put_item(first);
    let mut second = Item::new();
    second.set_attr("user_id", AttrValue::Str("u1".to_string()));
    second.set_attr("profile_id", AttrValue::Str("p1".to_string()));
    second.set_attr("bio", AttrValue::Str("new".to_string()));
    table.put_item(second);
    assert_eq!(table.items.len(), 1);
    let body = get_profile(&table, "u1", "p1").unwrap();
    assert_eq!(body_value(&body, "bio").as_deref(), Some("new"));
}

#[test]
fn status_codes_follow_the_routing_table() {
    assert_eq!(
        ProfileError::Validation("m".to_string()).status_code(),
        400
    );
    assert_eq!(ProfileError::NotFound.status_code(), 404);
    assert_eq!(ProfileError::Store("boom".to_string()).status_code(), 500);
}

#[test]
fn full_lifecycle_scenario() {
    let mut table = Table::new();
    let id = create_profile(&mut table, &create_req("u1", "hi", "public")).unwrap();
    let body = get_profile(&table, "u1", &id).unwrap();
    assert_eq!(body_value(&body, "bio").as_deref(), Some("hi"));
    assert_eq!(body_value(&body, "visibility").as_deref(), Some("public"));

    let bad = update_profile(&mut table, "u1", &id, &put_req("hi", "bogus"));
    assert_eq!(bad.unwrap_err().status_code(), 400);
    let body = get_profile(&table, "u1", &id).unwrap();
    assert_eq!(body_value(&body, "visibility").as_deref(), Some("public"));

    update_profile(&mut table, "u1", &id, &put_req("hi", "private")).unwrap();
    let body = get_profile(&table, "u1", &id).unwrap();
    assert_eq!(body_value(&body, "visibility").as_deref(), Some("private"));

    delete_profile(&mut table, "u1", &id).unwrap();
    let gone = get_profile(&table, "u1", &id);
    assert_eq!(gone.unwrap_err().status_code(), 404);
}
