use cardvault::handlers::find_cards;
use cardvault::models::{Card, CardFormEmailInput, CardInput, SearchParams};
use cardvault::seed::{seed_cards, seed_data};
use cardvault::store::{
    create_card, delete_card, list_cards, list_tags, update_card, update_card_photo, Store,
};

fn input(name: &str, company: &str, emails: &[&str], tags: &[&str]) -> CardInput {
    CardInput {
        name: name.to_string(),
        company: company.to_string(),
        emails: emails
            .iter()
            .map(|a| CardFormEmailInput { label: "work".to_string(), address: a.to_string() })
            .collect(),
        tags: tags.iter().map(|t| t.to_string()).collect(),
        ..CardInput::default()
    }
}

fn ids(cards: &[Card]) -> Vec<i64> {
    cards.iter().map(|c| c.id).collect()
}

fn names(cards: &[Card]) -> Vec<&str> {
    cards.iter().map(|c| c.name.as_str()).collect()
}

fn counts(store: &Store) -> Vec<(String, i64)> {
    list_tags(store).into_iter().map(|t| (t.name, t.count)).collect()
}

fn seeded() -> Store {
    let mut store = Store::new();
    seed_data(&mut store, 100).unwrap();
    store
}

fn sample() -> Store {
    let mut store = Store::new();
    create_card(&mut store, &input("Ann Grabowski", "Acme", &[], &["investor"]), 10).unwrap();
    create_card(&mut store, &input("Bob", "GRAB Holdings", &["bob@fintech.example"], &["investor", "fintech"]), 20).unwrap();
    create_card(&mut store, &input("Cy", "Fintech Labs", &["cy@labs.example", "cy@Grab.example"], &["partner"]), 30).unwrap();
    create_card(&mut store, &input("Di", "Quiet", &["di@quiet.example"], &["Investor"]), 40).unwrap();
    store
}

#[test]
fn list_without_filters_shows_every_card_newest_first() {
    let store = sample();
    let cards = list_cards(&store, None, None);
    assert_eq!(ids(&cards), vec![4, 3, 2, 1]);
    assert_eq!(cards[2].emails[0].address, "bob@fintech.example");
    assert_eq!(cards[2].tags, vec!["fintech".to_string(), "investor".to_string()]);
}

#[test]
fn list_of_an_empty_store_is_empty() {
    let store = Store::new();
    assert!(list_cards(&store, None, None).is_empty());
    assert!(list_cards(&store, Some("a"), Some("b")).is_empty());
    assert!(list_tags(&store).is_empty());
}

#[test]
fn list_by_text_looks_at_name_company_and_emails() {
    let store = sample();
    assert_eq!(ids(&list_cards(&store, Some("grab"), None)), vec![3, 2, 1]);
    assert_eq!(ids(&list_cards(&store, Some("GRAB"), None)), vec![3, 2, 1]);
    assert_eq!(ids(&list_cards(&store, Some("fintech"), None)), vec![3, 2]);
    assert_eq!(ids(&list_cards(&store, Some("quiet.ex"), None)), vec![4]);
    assert!(list_cards(&store, Some("nowhere"), None).is_empty());
}

#[test]
fn list_by_text_does_not_look_at_tags_or_notes() {
    let mut store = Store::new();
    let mut card = input("Ann", "Acme", &[], &["zebra"]);
    card.notes = "likes zebras".to_string();
    card.title = "Zebra keeper".to_string();
    create_card(&mut store, &card, 1).unwrap();
    assert!(list_cards(&store, Some("zebra"), None).is_empty());
}

#[test]
fn list_with_the_empty_text_shows_every_card() {
    let store = sample();
    assert_eq!(ids(&list_cards(&store, Some(""), None)), vec![4, 3, 2, 1]);
    assert_eq!(ids(&list_cards(&store, Some(""), Some("investor"))), vec![2, 1]);
}

#[test]
fn list_by_tag_is_exact_and_case_sensitive() {
    let store = sample();
    assert_eq!(ids(&list_cards(&store, None, Some("investor"))), vec![2, 1]);
    assert_eq!(ids(&list_cards(&store, None, Some("Investor"))), vec![4]);
    assert!(list_cards(&store, None, Some("invest")).is_empty());
    assert!(list_cards(&store, None, Some("")).is_empty());
}

#[test]
fn list_by_text_and_tag_takes_what_both_select() {
    let store = sample();
    assert_eq!(ids(&list_cards(&store, Some("fintech"), Some("investor"))), vec![2]);
    assert_eq!(ids(&list_cards(&store, Some("grab"), Some("investor"))), vec![2, 1]);
    assert!(list_cards(&store, Some("quiet"), Some("investor")).is_empty());
}

#[test]
fn a_card_with_several_matching_emails_is_listed_once() {
    let mut store = Store::new();
    create_card(&mut store, &input("Grab", "Grab", &["a@grab.example", "b@grab.example"], &[]), 1).unwrap();
    assert_eq!(ids(&list_cards(&store, Some("grab"), None)), vec![1]);
}

#[test]
fn order_follows_the_last_change_then_the_id() {
    let mut store = sample();
    update_card_photo(&mut store, 1, "uploads/card_1_1.png", 50).unwrap();
    assert_eq!(ids(&list_cards(&store, None, None)), vec![1, 4, 3, 2]);
    update_card(&mut store, 3, &input("Cy", "Fintech Labs", &[], &[]), 50).unwrap();
    assert_eq!(ids(&list_cards(&store, None, None)), vec![3, 1, 4, 2]);
    let mut same = Store::new();
    for name in ["a", "b", "c"] {
        create_card(&mut same, &input(name, "", &[], &[]), 7).unwrap();
    }
    assert_eq!(ids(&list_cards(&same, None, None)), vec![3, 2, 1]);
}

#[test]
fn find_cards_takes_the_parameters_of_a_search() {
    let store = sample();
    let params = SearchParams { q: Some("grab".to_string()), tag: Some("investor".to_string()) };
    assert_eq!(ids(&find_cards(&store, &params)), vec![2, 1]);
    assert_eq!(ids(&find_cards(&store, &SearchParams::default())), vec![4, 3, 2, 1]);
}

#[test]
fn tag_counts_give_the_linked_cards_in_alphabetical_order() {
    let store = sample();
    assert_eq!(
        counts(&store),
        vec![
            ("Investor".to_string(), 1),
            ("fintech".to_string(), 1),
            ("investor".to_string(), 2),
            ("partner".to_string(), 1),
        ]
    );
}

#[test]
fn a_tag_without_cards_stays_with_count_zero() {
    let mut store = sample();
    update_card(&mut store, 2, &input("Bob", "GRAB Holdings", &[], &[]), 50).unwrap();
    delete_card(&mut store, 3);
    assert_eq!(
        counts(&store),
        vec![
            ("Investor".to_string(), 1),
            ("fintech".to_string(), 0),
            ("investor".to_string(), 1),
            ("partner".to_string(), 0),
        ]
    );
    delete_card(&mut store, 1);
    delete_card(&mut store, 4);
    delete_card(&mut store, 2);
    assert_eq!(counts(&store).iter().map(|c| c.1).collect::<Vec<_>>(), vec![0, 0, 0, 0]);
}

#[test]
fn a_card_counts_once_for_a_tag_named_twice() {
    let mut store = Store::new();
    create_card(&mut store, &input("Ann", "", &[], &["vip", "vip", " ", "vip"]), 1).unwrap();
    assert_eq!(counts(&store), vec![("vip".to_string(), 1)]);
}

#[test]
fn seed_data_makes_the_ten_sample_contacts() {
    let store = seeded();
    let cards = list_cards(&store, None, None);
    assert_eq!(ids(&cards), vec![10, 9, 8, 7, 6, 5, 4, 3, 2, 1]);
    assert_eq!(cards[9].name, "Tan Wei Ming");
    assert_eq!(cards[9].company, "DBS Group Holdings");
    assert_eq!(cards[9].notes, "Met at Singapore Fintech Festival 2025");
    assert_eq!(cards[9].phones[1].number, "+65 6878 8888");
    assert_eq!(cards[9].addresses[0].postal, "018982");
    assert_eq!(
        cards[9].tags,
        vec!["client".to_string(), "fintech".to_string(), "investor".to_string()]
    );
    assert_eq!(cards[0].name, "Anika Sharma");
    assert_eq!(cards[0].emails[0].address, "anika.sharma@agoda.com");
    assert!(cards[6].addresses.is_empty());
    assert_eq!(store.counters(), (11, 15, 15, 8));
    assert_eq!(seed_cards().len(), 10);
}

#[test]
fn seed_data_searches_as_expected() {
    let store = seeded();
    assert_eq!(names(&list_cards(&store, Some("grab"), None)), vec!["Priya Krishnamurthy"]);
    assert_eq!(
        names(&list_cards(&store, None, Some("investor"))),
        vec!["Kevin Tan Kiat Seng", "Ahmad Fauzi bin Rashid", "Tan Wei Ming"]
    );
    assert!(list_cards(&store, Some("fintech"), Some("investor")).is_empty());
    assert_eq!(
        names(&list_cards(&store, Some("sea"), Some("colleague"))),
        vec!["James Wong Wei Jian", "Li Mei Chen"]
    );
    assert_eq!(
        counts(&store),
        vec![
            ("client".to_string(), 3),
            ("colleague".to_string(), 4),
            ("fintech".to_string(), 5),
            ("government".to_string(), 2),
            ("investor".to_string(), 3),
            ("partner".to_string(), 3),
            ("vendor".to_string(), 2),
        ]
    );
}

#[test]
fn tag_counts_add_up_to_the_number_of_links() {
    for store in [sample(), seeded(), Store::new()] {
        let links: usize = list_cards(&store, None, None).iter().map(|c| c.tags.len()).sum();
        let counted: i64 = list_tags(&store).iter().map(|t| t.count).sum();
        assert_eq!(counted, links as i64);
    }
    assert_eq!(list_tags(&seeded()).iter().map(|t| t.count).sum::<i64>(), 22);
}
