use cardvault::error::{Rule, StoreError};
use cardvault::models::{
    CardFormAddressInput, CardFormEmailInput, CardFormPhoneInput, CardInput,
};
use cardvault::store::{
    create_all, create_card, delete_card, delete_card_photo, get_card, has_card, is_empty,
    photo_url, update_card, update_card_photo, Store,
};

fn phone(label: &str, number: &str) -> CardFormPhoneInput {
    CardFormPhoneInput { label: label.to_string(), number: number.to_string() }
}

fn email(label: &str, address: &str) -> CardFormEmailInput {
    CardFormEmailInput { label: label.to_string(), address: address.to_string() }
}

fn office(street: &str) -> CardFormAddressInput {
    CardFormAddressInput {
        label: "office".to_string(),
        street: street.to_string(),
        city: "Singapore".to_string(),
        country: "Singapore".to_string(),
        postal: "018982".to_string(),
    }
}

fn tags(names: &[&str]) -> Vec<String> {
    names.iter().map(|n| n.to_string()).collect()
}

fn full_input() -> CardInput {
    CardInput {
        name: "Ada Lovelace".to_string(),
        title: "Analyst".to_string(),
        company: "Engines Ltd".to_string(),
        website: "https://engines.example".to_string(),
        notes: "first contact".to_string(),
        phones: vec![phone("mobile", "+44 1"), phone("work", "+44 2")],
        emails: vec![email("work", "ada@engines.example")],
        addresses: vec![office("1 Marina Boulevard")],
        tags: tags(&["math", "client", "math", "  ", "", "Client"]),
    }
}

fn named(name: &str) -> CardInput {
    CardInput { name: name.to_string(), ..CardInput::default() }
}

#[test]
fn new_store_is_empty() {
    let store = Store::new();
    assert!(is_empty(&store));
    assert!(!has_card(&store, 1));
    assert!(get_card(&store, 1).is_none());
    assert_eq!(store.counters(), (1, 1, 1, 1));
}

#[test]
fn create_then_get_matches_the_input() {
    let mut store = Store::new();
    let input = full_input();
    let id = create_card(&mut store, &input, 1000).unwrap();
    assert_eq!(id, 1);
    assert!(!is_empty(&store));
    let card = get_card(&store, id).unwrap();
    assert_eq!(card.id, 1);
    assert_eq!(card.name, "Ada Lovelace");
    assert_eq!(card.title, "Analyst");
    assert_eq!(card.company, "Engines Ltd");
    assert_eq!(card.website, "https://engines.example");
    assert_eq!(card.notes, "first contact");
    assert_eq!(card.photo_url, "");
    assert_eq!(card.created_at, 1000);
    assert_eq!(card.updated_at, 1000);
    assert_eq!(card.phones.len(), 2);
    assert_eq!((card.phones[0].id, card.phones[0].label.as_str(), card.phones[0].number.as_str()), (1, "mobile", "+44 1"));
    assert_eq!((card.phones[1].id, card.phones[1].label.as_str(), card.phones[1].number.as_str()), (2, "work", "+44 2"));
    assert_eq!(card.emails.len(), 1);
    assert_eq!(card.emails[0].id, 1);
    assert_eq!(card.emails[0].label, "work");
    assert_eq!(card.emails[0].address, "ada@engines.example");
    assert_eq!(card.addresses.len(), 1);
    assert_eq!(card.addresses[0].id, 1);
    assert_eq!(card.addresses[0].label, "office");
    assert_eq!(card.addresses[0].street, "1 Marina Boulevard");
    assert_eq!(card.addresses[0].city, "Singapore");
    assert_eq!(card.addresses[0].country, "Singapore");
    assert_eq!(card.addresses[0].postal, "018982");
}

#[test]
fn duplicate_tags_collapse_and_come_sorted() {
    let mut store = Store::new();
    let id = create_card(&mut store, &full_input(), 1).unwrap();
    let card = get_card(&store, id).unwrap();
    assert_eq!(card.tags, vec!["Client".to_string(), "client".to_string(), "math".to_string()]);
}

#[test]
fn tags_that_differ_in_white_space_are_distinct() {
    let mut store = Store::new();
    let mut input = named("Ada");
    input.tags = tags(&["vip", " vip", "vip "]);
    let id = create_card(&mut store, &input, 1).unwrap();
    let card = get_card(&store, id).unwrap();
    assert_eq!(card.tags, vec![" vip".to_string(), "vip".to_string(), "vip ".to_string()]);
}

#[test]
fn create_without_name_is_a_validation_error() {
    let mut store = Store::new();
    let r = create_card(&mut store, &CardInput::default(), 1);
    assert_eq!(r, Err(StoreError::Validation(Rule::NameRequired)));
    assert!(is_empty(&store));
    assert_eq!(store.counters(), (1, 1, 1, 1));
}

#[test]
fn create_with_blank_name_is_a_validation_error() {
    let mut store = Store::new();
    let mut input = full_input();
    input.name = " \t\u{a0}\u{3000}\n".to_string();
    let r = create_card(&mut store, &input, 1);
    assert_eq!(r, Err(StoreError::Validation(Rule::NameRequired)));
    assert!(is_empty(&store));
    assert!(store.vocabulary().is_empty());
}

#[test]
fn ids_count_up_and_are_not_used_again() {
    let mut store = Store::new();
    let a = create_card(&mut store, &full_input(), 1).unwrap();
    let b = create_card(&mut store, &full_input(), 2).unwrap();
    assert_eq!((a, b), (1, 2));
    assert_eq!(delete_card(&mut store, b), Some(String::new()));
    let c = create_card(&mut store, &full_input(), 3).unwrap();
    assert_eq!(c, 3);
    let card = get_card(&store, c).unwrap();
    assert_eq!(card.phones.iter().map(|p| p.id).collect::<Vec<_>>(), vec![5, 6]);
    assert_eq!(card.emails[0].id, 3);
    assert_eq!(card.addresses[0].id, 3);
    assert_eq!(store.counters(), (4, 7, 4, 4));
}

#[test]
fn update_replaces_children_and_tag_links() {
    let mut store = Store::new();
    let id = create_card(&mut store, &full_input(), 10).unwrap();
    update_card_photo(&mut store, id, "uploads/card_1_5.png", 11).unwrap();
    let before = get_card(&store, id).unwrap();
    let input = CardInput {
        name: "Ada King".to_string(),
        title: String::new(),
        company: "Lovelace & Co".to_string(),
        website: String::new(),
        notes: "renamed".to_string(),
        phones: vec![phone("home", "+44 3")],
        emails: vec![email("home", "ada@home.example"), email("work", "ada@work.example")],
        addresses: vec![],
        tags: tags(&["poetry"]),
    };
    assert_eq!(update_card(&mut store, id, &input, 20), Ok(()));
    let after = get_card(&store, id).unwrap();
    assert_eq!(after.id, id);
    assert_eq!(after.name, "Ada King");
    assert_eq!(after.title, "");
    assert_eq!(after.company, "Lovelace & Co");
    assert_eq!(after.website, "");
    assert_eq!(after.notes, "renamed");
    assert_eq!(after.photo_url, "/uploads/card_1_5.png");
    assert_eq!(after.created_at, 10);
    assert_eq!(after.updated_at, 20);
    assert_eq!(after.phones.len(), 1);
    assert_eq!(after.phones[0].label, "home");
    assert_eq!(after.phones[0].number, "+44 3");
    assert_eq!(after.emails.len(), 2);
    assert_eq!(after.emails[1].address, "ada@work.example");
    assert!(after.addresses.is_empty());
    assert_eq!(after.tags, vec!["poetry".to_string()]);
    for p in &after.phones {
        assert!(before.phones.iter().all(|old| old.id != p.id));
    }
    for e in &after.emails {
        assert!(before.emails.iter().all(|old| old.id != e.id));
    }
    assert_eq!(after.phones[0].id, 3);
    assert_eq!(after.emails.iter().map(|e| e.id).collect::<Vec<_>>(), vec![2, 3]);
}

#[test]
fn update_of_a_missing_card_is_not_found() {
    let mut store = Store::new();
    create_card(&mut store, &named("Ada"), 1).unwrap();
    assert_eq!(update_card(&mut store, 2, &named("Bob"), 2), Err(StoreError::NotFound));
    assert_eq!(update_card(&mut store, 2, &CardInput::default(), 2), Err(StoreError::NotFound));
    assert_eq!(get_card(&store, 1).unwrap().name, "Ada");
    assert_eq!(get_card(&store, 1).unwrap().updated_at, 1);
}

#[test]
fn update_with_blank_name_changes_nothing() {
    let mut store = Store::new();
    let id = create_card(&mut store, &full_input(), 1).unwrap();
    let mut input = named("   ");
    input.tags = tags(&["new"]);
    assert_eq!(
        update_card(&mut store, id, &input, 2),
        Err(StoreError::Validation(Rule::NameRequired))
    );
    let card = get_card(&store, id).unwrap();
    assert_eq!(card.name, "Ada Lovelace");
    assert_eq!(card.updated_at, 1);
    assert_eq!(card.phones.len(), 2);
    assert_eq!(store.vocabulary().len(), 3);
}

#[test]
fn delete_then_get_finds_nothing_and_second_delete_too() {
    let mut store = Store::new();
    let id = create_card(&mut store, &full_input(), 1).unwrap();
    let other = create_card(&mut store, &named("Bob"), 2).unwrap();
    assert_eq!(delete_card(&mut store, id), Some(String::new()));
    assert!(get_card(&store, id).is_none());
    assert!(!has_card(&store, id));
    assert_eq!(delete_card(&mut store, id), None);
    assert_eq!(get_card(&store, other).unwrap().name, "Bob");
}

#[test]
fn delete_hands_back_the_photo_path() {
    let mut store = Store::new();
    let id = create_card(&mut store, &named("Ada"), 1).unwrap();
    update_card_photo(&mut store, id, "uploads/card_1_9.jpg", 2).unwrap();
    assert_eq!(delete_card(&mut store, id), Some("uploads/card_1_9.jpg".to_string()));
    assert!(is_empty(&store));
}

#[test]
fn photo_path_is_recorded_and_cleared() {
    let mut store = Store::new();
    let id = create_card(&mut store, &named("Ada"), 1).unwrap();
    assert_eq!(update_card_photo(&mut store, id, "uploads/card_1_9.webp", 5), Ok(()));
    let card = get_card(&store, id).unwrap();
    assert_eq!(card.photo_url, "/uploads/card_1_9.webp");
    assert_eq!(card.updated_at, 5);
    assert_eq!(card.created_at, 1);
    assert_eq!(delete_card_photo(&mut store, id, 6), Some("uploads/card_1_9.webp".to_string()));
    let card = get_card(&store, id).unwrap();
    assert_eq!(card.photo_url, "");
    assert_eq!(card.updated_at, 6);
    assert_eq!(delete_card_photo(&mut store, id, 7), Some(String::new()));
    assert_eq!(get_card(&store, id).unwrap().updated_at, 7);
}

#[test]
fn photo_of_a_missing_card_is_not_found() {
    let mut store = Store::new();
    assert_eq!(update_card_photo(&mut store, 1, "uploads/x.png", 1), Err(StoreError::NotFound));
    assert_eq!(delete_card_photo(&mut store, 1, 1), None);
}

#[test]
fn photo_url_puts_a_slash_before_the_path() {
    assert_eq!(photo_url(""), "");
    assert_eq!(photo_url("uploads/a.png"), "/uploads/a.png");
}

#[test]
fn create_all_stops_at_the_first_refused_input() {
    let mut store = Store::new();
    let inputs = vec![named("Ada"), named("Bob"), named(""), named("Cy")];
    assert_eq!(
        create_all(&mut store, &inputs, 1),
        Err(StoreError::Validation(Rule::NameRequired))
    );
    assert!(has_card(&store, 1));
    assert!(has_card(&store, 2));
    assert!(!has_card(&store, 3));
    let mut store = Store::new();
    assert_eq!(create_all(&mut store, &inputs[..2].to_vec(), 1), Ok(()));
    assert_eq!(store.counters().0, 3);
}

#[test]
fn create_fails_when_the_ids_have_run_out() {
    let mut store = Store::restore(Vec::new(), Vec::new(), i64::MAX, 1, 1, 1).unwrap();
    assert_eq!(create_card(&mut store, &named("Ada"), 1), Err(StoreError::Storage));
    let mut store = Store::restore(Vec::new(), Vec::new(), 1, i64::MAX - 1, 1, 1).unwrap();
    assert_eq!(create_card(&mut store, &full_input(), 1), Err(StoreError::Storage));
    assert!(is_empty(&store));
    assert!(store.vocabulary().is_empty());
    let mut one = named("Ada");
    one.phones = vec![phone("mobile", "1")];
    assert_eq!(create_card(&mut store, &one, 1), Ok(1));
    assert_eq!(store.counters(), (2, i64::MAX, 1, 1));
}
