use server::Card;
use server::CardService;
use server::CardStatus;
use server::CreateCardRequest;
use server::UpdateCardRequest;

fn create_req(title: &str, content: &str, status: Option<CardStatus>) -> CreateCardRequest {
    CreateCardRequest { title: title.to_string(), content: content.to_string(), status }
}

fn no_change() -> UpdateCardRequest {
    UpdateCardRequest { title: None, content: None, status: None }
}

#[test]
fn create_assigns_sequential_ids() {
    let mut s = CardService::new();
    let titles = ["a", "b", "c", "d", "e"];
    let mut ids: Vec<u32> = Vec::new();
    for t in titles.iter() {
        let c = s.create_card(create_req(t, "body", None)).unwrap();
        ids.push(c.id);
    }
    assert_eq!(ids, vec![1, 2, 3, 4, 5]);
    let all = s.get_all_cards().unwrap();
    assert_eq!(all.len(), 5);
}

#[test]
fn duplicate_title_rejected_and_store_unchanged() {
    let mut s = CardService::new();
    s.create_card(create_req("unique", "x", None)).unwrap();
    assert_eq!(s.get_all_cards().unwrap().len(), 1);
    let second = s.create_card(create_req("unique", "y", None));
    assert_eq!(second.unwrap_err(), "Card title already exists");
    assert_eq!(s.get_all_cards().unwrap().len(), 1);
    let third = s.create_card(create_req("unique", "z", None));
    assert_eq!(third.unwrap_err(), "Card title already exists");
    assert_eq!(s.get_all_cards().unwrap().len(), 1);
}

#[test]
fn same_title_creates_exactly_one_succeeds() {
    let mut s = CardService::new();
    let outcomes: Vec<Result<Card, String>> = (0..4)
        .map(|i| s.create_card(create_req("shared", &format!("body {i}"), None)))
        .collect();
    let ok_count = outcomes.iter().filter(|r| r.is_ok()).count();
    assert_eq!(ok_count, 1);
    assert!(outcomes[0].is_ok());
    assert_eq!(s.get_all_cards().unwrap().len(), 1);
}

#[test]
fn update_missing_id_returns_none_and_changes_nothing() {
    let mut s = CardService::new();
    s.create_card(create_req("kept", "x", None)).unwrap();
    let r = s.update_card(42, UpdateCardRequest {
        title: Some("other".to_string()),
        content: None,
        status: None,
    });
    assert!(matches!(r, Ok(None)));
    let all = s.get_all_cards().unwrap();
    assert_eq!(all.len(), 1);
    assert_eq!(all[0].title, "kept");
    assert_eq!(all[0].content, "x");
}

#[test]
fn update_keeps_unset_fields_byte_identical() {
    let mut s = CardService::new();
    let created = s
        .create_card_at(create_req("title", "content", None), "2024-01-01T00:00:00+00:00".to_string())
        .unwrap();
    let updated = s
        .update_card_at(created.id, UpdateCardRequest {
            title: None,
            content: None,
            status: Some(CardStatus::InProgress),
        }, "2024-01-02T00:00:00+00:00".to_string())
        .unwrap()
        .unwrap();
    assert_eq!(updated.id, created.id);
    assert_eq!(updated.title, created.title);
    assert_eq!(updated.content, created.content);
    assert_eq!(updated.created_at, created.created_at);
    assert_eq!(updated.status, CardStatus::InProgress);
    assert!(updated.updated_at > created.updated_at);
}

#[test]
fn clocked_update_refreshes_updated_at() {
    let mut s = CardService::new();
    let created = s.create_card(create_req("t", "c", None)).unwrap();
    assert_eq!(created.created_at, created.updated_at);
    let updated = s
        .update_card(created.id, UpdateCardRequest {
            title: None,
            content: None,
            status: Some(CardStatus::Done),
        })
        .unwrap()
        .unwrap();
    assert_eq!(updated.created_at, created.created_at);
    assert!(updated.updated_at > created.updated_at);
}

#[test]
fn update_title_conflict_rejected() {
    let mut s = CardService::new();
    let first = s.create_card(create_req("first", "x", None)).unwrap();
    let second = s.create_card(create_req("second", "y", None)).unwrap();
    let r = s.update_card(second.id, UpdateCardRequest {
        title: Some("first".to_string()),
        content: None,
        status: None,
    });
    assert_eq!(r.unwrap_err(), "Card title already exists");
    let still = s.get_card_by_id(second.id).unwrap().unwrap();
    assert_eq!(still.title, "second");
    // Re-using its own title is not a conflict.
    let own = s.update_card(first.id, UpdateCardRequest {
        title: Some("first".to_string()),
        content: Some("x2".to_string()),
        status: None,
    });
    let own = own.unwrap().unwrap();
    assert_eq!(own.title, "first");
    assert_eq!(own.content, "x2");
}

#[test]
fn delete_twice_reports_false_and_size_stable() {
    let mut s = CardService::new();
    let c = s.create_card(create_req("gone", "x", None)).unwrap();
    assert_eq!(s.delete_card(c.id).unwrap(), true);
    assert_eq!(s.get_all_cards().unwrap().len(), 0);
    assert_eq!(s.delete_card(c.id).unwrap(), false);
    assert_eq!(s.get_all_cards().unwrap().len(), 0);
    assert_eq!(s.delete_card(c.id).unwrap(), false);
    assert_eq!(s.get_all_cards().unwrap().len(), 0);
}

#[test]
fn deleted_id_is_never_reused() {
    let mut s = CardService::new();
    let a = s.create_card(create_req("a", "x", None)).unwrap();
    assert_eq!(a.id, 1);
    assert!(s.delete_card(a.id).unwrap());
    let b = s.create_card(create_req("b", "y", None)).unwrap();
    assert_eq!(b.id, 2);
}

#[test]
fn get_by_id_returns_copy_or_none() {
    let mut s = CardService::new();
    let c = s.create_card(create_req("here", "x", Some(CardStatus::Done))).unwrap();
    let got = s.get_card_by_id(c.id).unwrap().unwrap();
    assert_eq!(got.id, c.id);
    assert_eq!(got.title, "here");
    assert_eq!(got.content, "x");
    assert_eq!(got.status, CardStatus::Done);
    assert!(matches!(s.get_card_by_id(999), Ok(None)));
}

#[test]
fn filter_by_status_returns_matching_cards() {
    let mut s = CardService::new();
    s.create_card(create_req("one", "x", None)).unwrap();
    s.create_card(create_req("two", "y", Some(CardStatus::InProgress))).unwrap();
    s.create_card(create_req("three", "z", Some(CardStatus::Done))).unwrap();
    s.create_card(create_req("four", "w", Some(CardStatus::InProgress))).unwrap();
    let todo = s.get_cards_by_status(CardStatus::Todo).unwrap();
    assert_eq!(todo.len(), 1);
    assert_eq!(todo[0].title, "one");
    let in_progress = s.get_cards_by_status(CardStatus::InProgress).unwrap();
    assert_eq!(in_progress.len(), 2);
    assert_eq!(in_progress[0].title, "two");
    assert_eq!(in_progress[1].title, "four");
    let done = s.get_cards_by_status(CardStatus::Done).unwrap();
    assert_eq!(done.len(), 1);
    assert_eq!(done[0].title, "three");
}

#[test]
fn status_defaults_to_todo() {
    let mut s = CardService::new();
    let c = s.create_card(create_req("plain", "x", None)).unwrap();
    assert_eq!(c.status, CardStatus::Todo);
    assert_eq!(CardStatus::default(), CardStatus::Todo);
}

#[test]
fn card_new_and_update_set_fields() {
    let c = Card::new(7, "t".to_string(), "c".to_string(), None, "2024-03-04T05:06:07+00:00".to_string());
    assert_eq!(c.id, 7);
    assert_eq!(c.status, CardStatus::Todo);
    assert_eq!(c.created_at, "2024-03-04T05:06:07+00:00");
    assert_eq!(c.created_at, c.updated_at);
    let mut c2 = c;
    c2.update(UpdateCardRequest {
        title: Some("t2".to_string()),
        content: None,
        status: Some(CardStatus::Done),
    }, "2024-03-05T00:00:00+00:00".to_string());
    assert_eq!(c2.id, 7);
    assert_eq!(c2.title, "t2");
    assert_eq!(c2.content, "c");
    assert_eq!(c2.status, CardStatus::Done);
    assert_eq!(c2.created_at, "2024-03-04T05:06:07+00:00");
    assert_eq!(c2.updated_at, "2024-03-05T00:00:00+00:00");
}

#[test]
fn full_card_lifecycle() {
    let mut s = CardService::new();
    let created = s.create_card(create_req("A", "x", None)).unwrap();
    assert_eq!(created.id, 1);
    assert_eq!(created.status, CardStatus::Todo);
    assert_eq!(created.created_at, created.updated_at);
    let dup = s.create_card(create_req("A", "y", None));
    assert_eq!(dup.unwrap_err(), "Card title already exists");
    let updated = s
        .update_card(1, UpdateCardRequest { title: None, content: None, status: Some(CardStatus::Done) })
        .unwrap()
        .unwrap();
    assert_eq!(updated.id, 1);
    assert_eq!(updated.title, "A");
    assert_eq!(updated.content, "x");
    assert_eq!(updated.status, CardStatus::Done);
    assert!(updated.updated_at > updated.created_at);
    assert_eq!(s.delete_card(1).unwrap(), true);
    assert_eq!(s.delete_card(1).unwrap(), false);
    assert!(matches!(s.get_card_by_id(1), Ok(None)));
}

#[test]
fn update_with_empty_request_keeps_record() {
    let mut s = CardService::new();
    let created = s
        .create_card_at(create_req("t", "c", Some(CardStatus::InProgress)), "2024-06-01T00:00:00+00:00".to_string())
        .unwrap();
    let updated = s
        .update_card_at(created.id, no_change(), "2024-06-02T00:00:00+00:00".to_string())
        .unwrap()
        .unwrap();
    assert_eq!(updated.title, created.title);
    assert_eq!(updated.content, created.content);
    assert_eq!(updated.status, created.status);
    assert_eq!(updated.created_at, created.created_at);
    assert_eq!(updated.updated_at, "2024-06-02T00:00:00+00:00");
}

#[test]
fn default_store_is_empty() {
    let s = CardService::default();
    assert_eq!(s.get_all_cards().unwrap().len(), 0);
}
