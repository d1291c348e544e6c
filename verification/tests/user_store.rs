use server::CreateUserRequest;
use server::UpdateUserRequest;
use server::User;
use server::UserService;

fn create_req(username: &str, email: &str) -> CreateUserRequest {
    CreateUserRequest { username: username.to_string(), email: email.to_string() }
}

#[test]
fn user_create_assigns_sequential_ids() {
    let mut s = UserService::new();
    let names = ["ann", "bob", "cid", "dee"];
    let mut ids: Vec<u32> = Vec::new();
    for n in names.iter() {
        let u = s.create_user(create_req(n, "a@b.c")).unwrap();
        ids.push(u.id);
    }
    assert_eq!(ids, vec![1, 2, 3, 4]);
    assert_eq!(s.get_all_users().unwrap().len(), 4);
}

#[test]
fn user_duplicate_username_rejected_and_store_unchanged() {
    let mut s = UserService::new();
    s.create_user(create_req("taken", "a@b.c")).unwrap();
    let second = s.create_user(create_req("taken", "d@e.f"));
    assert_eq!(second.unwrap_err(), "Username already exists");
    assert_eq!(s.get_all_users().unwrap().len(), 1);
}

#[test]
fn user_same_username_creates_exactly_one_succeeds() {
    let mut s = UserService::new();
    let outcomes: Vec<Result<User, String>> = (0..3)
        .map(|i| s.create_user(create_req("shared", &format!("m{i}@x.y"))))
        .collect();
    let ok_count = outcomes.iter().filter(|r| r.is_ok()).count();
    assert_eq!(ok_count, 1);
    assert!(outcomes[0].is_ok());
    assert_eq!(s.get_all_users().unwrap().len(), 1);
}

#[test]
fn user_update_missing_id_returns_none_and_changes_nothing() {
    let mut s = UserService::new();
    s.create_user(create_req("kept", "k@x.y")).unwrap();
    let r = s.update_user(9, UpdateUserRequest {
        username: Some("other".to_string()),
        email: None,
    });
    assert!(matches!(r, Ok(None)));
    let all = s.get_all_users().unwrap();
    assert_eq!(all.len(), 1);
    assert_eq!(all[0].username, "kept");
    assert_eq!(all[0].email, "k@x.y");
}

#[test]
fn user_update_keeps_unset_fields_byte_identical() {
    let mut s = UserService::new();
    let created = s
        .create_user_at(create_req("ann", "ann@x.y"), "2024-01-01T00:00:00+00:00".to_string())
        .unwrap();
    let updated = s
        .update_user(created.id, UpdateUserRequest { username: None, email: Some("new@x.y".to_string()) })
        .unwrap()
        .unwrap();
    assert_eq!(updated.id, created.id);
    assert_eq!(updated.username, "ann");
    assert_eq!(updated.email, "new@x.y");
    assert_eq!(updated.created_at, "2024-01-01T00:00:00+00:00");
}

#[test]
fn user_update_username_conflict_rejected() {
    let mut s = UserService::new();
    let first = s.create_user(create_req("first", "f@x.y")).unwrap();
    let second = s.create_user(create_req("second", "s@x.y")).unwrap();
    let r = s.update_user(second.id, UpdateUserRequest {
        username: Some("first".to_string()),
        email: None,
    });
    assert_eq!(r.unwrap_err(), "Username already exists");
    let still = s.get_user_by_id(second.id).unwrap().unwrap();
    assert_eq!(still.username, "second");
    // Re-using its own username is not a conflict.
    let own = s
        .update_user(first.id, UpdateUserRequest {
            username: Some("first".to_string()),
            email: Some("f2@x.y".to_string()),
        })
        .unwrap()
        .unwrap();
    assert_eq!(own.username, "first");
    assert_eq!(own.email, "f2@x.y");
}

#[test]
fn user_delete_twice_reports_false_and_size_stable() {
    let mut s = UserService::new();
    let u = s.create_user(create_req("gone", "g@x.y")).unwrap();
    assert_eq!(s.delete_user(u.id).unwrap(), true);
    assert_eq!(s.get_all_users().unwrap().len(), 0);
    assert_eq!(s.delete_user(u.id).unwrap(), false);
    assert_eq!(s.get_all_users().unwrap().len(), 0);
}

#[test]
fn user_deleted_id_is_never_reused() {
    let mut s = UserService::new();
    let a = s.create_user(create_req("a", "a@x.y")).unwrap();
    assert_eq!(a.id, 1);
    assert!(s.delete_user(a.id).unwrap());
    let b = s.create_user(create_req("b", "b@x.y")).unwrap();
    assert_eq!(b.id, 2);
}

#[test]
fn get_by_id_and_username() {
    let mut s = UserService::new();
    let u = s.create_user(create_req("findme", "f@x.y")).unwrap();
    let by_id = s.get_user_by_id(u.id).unwrap().unwrap();
    assert_eq!(by_id.username, "findme");
    let by_name = s.get_user_by_username("findme").unwrap().unwrap();
    assert_eq!(by_name.id, u.id);
    assert_eq!(by_name.email, "f@x.y");
    assert!(matches!(s.get_user_by_id(77), Ok(None)));
    assert!(matches!(s.get_user_by_username("nobody"), Ok(None)));
}

#[test]
fn user_new_sets_fields() {
    let u = User::new(3, "n".to_string(), "n@x.y".to_string(), "2024-03-04T05:06:07+00:00".to_string());
    assert_eq!(u.id, 3);
    assert_eq!(u.username, "n");
    assert_eq!(u.email, "n@x.y");
    assert_eq!(u.created_at, "2024-03-04T05:06:07+00:00");
}

#[test]
fn created_at_survives_every_update() {
    let mut s = UserService::new();
    let created = s.create_user(create_req("ann", "a@x.y")).unwrap();
    let after_one = s
        .update_user(created.id, UpdateUserRequest { username: Some("anna".to_string()), email: None })
        .unwrap()
        .unwrap();
    let after_two = s
        .update_user(created.id, UpdateUserRequest { username: None, email: Some("z@x.y".to_string()) })
        .unwrap()
        .unwrap();
    assert_eq!(after_one.created_at, created.created_at);
    assert_eq!(after_two.created_at, created.created_at);
    assert_eq!(after_two.username, "anna");
    assert_eq!(after_two.email, "z@x.y");
}

#[test]
fn user_default_store_is_empty() {
    let s = UserService::default();
    assert_eq!(s.get_all_users().unwrap().len(), 0);
}
