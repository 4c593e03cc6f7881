use cardvault::error::{Rule, StoreError};
use cardvault::handlers::{health, is_photo_field, parse_card_input, MultipartFields};
use cardvault::models::{CardFormAddressInput, CardFormEmailInput, CardFormPhoneInput};
use cardvault::store::{create_card, get_card, CardRow, Store};
use cardvault::text::{chars_of, contains_ignore_case, fold, is_blank, is_space_char, text_less};

fn chars(s: &str) -> Vec<char> {
    s.chars().collect()
}

fn form(parts: &[(&str, &str)]) -> MultipartFields {
    let mut fields = MultipartFields::new();
    for (name, value) in parts {
        fields.put_text(name.to_string(), value.to_string());
    }
    fields
}

#[test]
fn chars_of_gives_the_characters() {
    assert_eq!(chars_of(""), Vec::<char>::new());
    assert_eq!(chars_of("a\u{e9}\u{1f600}z"), vec!['a', '\u{e9}', '\u{1f600}', 'z']);
}

#[test]
fn white_space_is_what_trim_removes() {
    for code in 0u32..0x3100 {
        if let Some(c) = char::from_u32(code) {
            assert_eq!(is_space_char(c), c.is_whitespace(), "U+{:04X}", code);
        }
    }
    assert!(!is_space_char('\u{200b}'));
    assert!(!is_space_char('\u{feff}'));
}

#[test]
fn blank_strings_hold_only_white_space() {
    assert!(is_blank(""));
    assert!(is_blank("   "));
    assert!(is_blank("\t\r\n\u{b}\u{c}"));
    assert!(is_blank("\u{85}\u{a0}\u{1680}\u{2003}\u{2028}\u{2029}\u{202f}\u{205f}\u{3000}"));
    assert!(!is_blank(" a "));
    assert!(!is_blank("\u{200b}"));
    assert!(!is_blank("_"));
}

#[test]
fn folding_touches_only_ascii_capitals() {
    assert_eq!(fold('A'), 'a');
    assert_eq!(fold('Z'), 'z');
    assert_eq!(fold('m'), 'm');
    assert_eq!(fold('@'), '@');
    assert_eq!(fold('['), '[');
    assert_eq!(fold('5'), '5');
    assert_eq!(fold('\u{c9}'), '\u{c9}');
}

#[test]
fn search_ignores_ascii_case() {
    assert!(contains_ignore_case(&chars("Grab Holdings"), &chars("grab")));
    assert!(contains_ignore_case(&chars("priya.k@grab.com"), &chars("K@GRAB")));
    assert!(contains_ignore_case(&chars("abc"), &chars("")));
    assert!(contains_ignore_case(&chars(""), &chars("")));
    assert!(contains_ignore_case(&chars("abc"), &chars("abc")));
    assert!(contains_ignore_case(&chars("xxabc"), &chars("ABC")));
    assert!(!contains_ignore_case(&chars("abc"), &chars("abcd")));
    assert!(!contains_ignore_case(&chars(""), &chars("a")));
    assert!(!contains_ignore_case(&chars("grab"), &chars("garb")));
    assert!(!contains_ignore_case(&chars("\u{c9}cole"), &chars("\u{e9}cole")));
    assert!(contains_ignore_case(&chars("a%b_c"), &chars("%b_")));
    assert!(!contains_ignore_case(&chars("abc"), &chars("a_c")));
}

#[test]
fn alphabetical_order_goes_by_code_points() {
    assert!(text_less(&chars("a"), &chars("b")));
    assert!(text_less(&chars(""), &chars("a")));
    assert!(text_less(&chars("ab"), &chars("abc")));
    assert!(text_less(&chars("Z"), &chars("a")));
    assert!(text_less(&chars("abc"), &chars("abd")));
    assert!(text_less(&chars("z"), &chars("\u{e9}")));
    assert!(!text_less(&chars("a"), &chars("a")));
    assert!(!text_less(&chars(""), &chars("")));
    assert!(!text_less(&chars("b"), &chars("a")));
    assert!(!text_less(&chars("abc"), &chars("ab")));
}

#[test]
fn errors_map_to_status_codes() {
    assert_eq!(StoreError::Validation(Rule::NameRequired).status_code(), 400);
    assert_eq!(StoreError::Validation(Rule::PhotoType).status_code(), 400);
    assert_eq!(StoreError::Validation(Rule::PhotoSize).status_code(), 400);
    assert_eq!(StoreError::Validation(Rule::PhotoMissing).status_code(), 400);
    assert_eq!(StoreError::Validation(Rule::FileName).status_code(), 400);
    assert_eq!(StoreError::NotFound.status_code(), 404);
    assert_eq!(StoreError::Storage.status_code(), 500);
}

#[test]
fn the_photo_part_is_named_photo_and_has_a_file_name() {
    assert!(is_photo_field("photo", &Some("a.png".to_string())));
    assert!(is_photo_field("photo", &Some(String::new())));
    assert!(!is_photo_field("photo", &None));
    assert!(!is_photo_field("Photo", &Some("a.png".to_string())));
    assert!(!is_photo_field("photos", &Some("a.png".to_string())));
    assert!(!is_photo_field("name", &Some("a.png".to_string())));
}

#[test]
fn the_last_part_of_a_name_wins() {
    let fields = form(&[("name", "Ada"), ("title", "x"), ("name", "Bob")]);
    assert_eq!(fields.get("name"), Some("Bob".to_string()));
    assert_eq!(fields.get("title"), Some("x".to_string()));
    assert_eq!(fields.get("company"), None);
    assert_eq!(fields.get_or_empty("company"), "");
    assert_eq!(fields.get_or_empty("title"), "x");
    assert_eq!(MultipartFields::new().get("name"), None);
}

#[test]
fn a_photo_is_kept_up_to_the_limit() {
    let mut fields = MultipartFields::new();
    assert_eq!(fields.put_photo("a.png".to_string(), vec![1, 2, 3]), Ok(()));
    assert_eq!(fields.photo, Some(("a.png".to_string(), vec![1, 2, 3])));
    let big = vec![0u8; 5 * 1024 * 1024 + 1];
    assert_eq!(
        fields.put_photo("b.png".to_string(), big),
        Err(StoreError::Validation(Rule::PhotoSize))
    );
    assert_eq!(fields.photo, Some(("a.png".to_string(), vec![1, 2, 3])));
    let exact = vec![0u8; 5 * 1024 * 1024];
    assert_eq!(fields.put_photo("c.png".to_string(), exact), Ok(()));
    assert_eq!(fields.photo.as_ref().unwrap().0, "c.png");
}

#[test]
fn a_form_with_a_name_makes_an_input() {
    let fields = form(&[("name", "Ada"), ("company", "Engines"), ("notes", "n")]);
    let phones = vec![CardFormPhoneInput { label: "m".to_string(), number: "1".to_string() }];
    let emails = vec![CardFormEmailInput { label: "w".to_string(), address: "a@b".to_string() }];
    let addresses = vec![CardFormAddressInput {
        label: "o".to_string(),
        street: "s".to_string(),
        city: "c".to_string(),
        country: "k".to_string(),
        postal: "p".to_string(),
    }];
    let tags = vec!["x".to_string()];
    let input = parse_card_input(&fields, phones, emails, addresses, tags).unwrap();
    assert_eq!(input.name, "Ada");
    assert_eq!(input.title, "");
    assert_eq!(input.company, "Engines");
    assert_eq!(input.website, "");
    assert_eq!(input.notes, "n");
    assert_eq!(input.phones[0].number, "1");
    assert_eq!(input.emails[0].address, "a@b");
    assert_eq!(input.addresses[0].postal, "p");
    assert_eq!(input.tags, vec!["x".to_string()]);
}

#[test]
fn a_form_without_a_name_is_refused() {
    let none = parse_card_input(&form(&[("title", "x")]), vec![], vec![], vec![], vec![]);
    assert_eq!(none.err(), Some(StoreError::Validation(Rule::NameRequired)));
    let blank = parse_card_input(&form(&[("name", "  \t")]), vec![], vec![], vec![], vec![]);
    assert_eq!(blank.err(), Some(StoreError::Validation(Rule::NameRequired)));
    let empty = parse_card_input(&MultipartFields::new(), vec![], vec![], vec![], vec![]);
    assert_eq!(empty.err(), Some(StoreError::Validation(Rule::NameRequired)));
    let late = parse_card_input(&form(&[("name", "Ada"), ("name", "")]), vec![], vec![], vec![], vec![]);
    assert_eq!(late.err(), Some(StoreError::Validation(Rule::NameRequired)));
}

#[test]
fn a_name_keeps_the_white_space_around_it() {
    let input = parse_card_input(&form(&[("name", " Ada ")]), vec![], vec![], vec![], vec![]).unwrap();
    assert_eq!(input.name, " Ada ");
}

#[test]
fn health_reports_the_store() {
    let up = health(true);
    assert_eq!((up.status.as_str(), up.db.as_str()), ("ok", "ok"));
    let down = health(false);
    assert_eq!((down.status.as_str(), down.db.as_str()), ("ok", "error"));
}

fn row(id: i64, tags: &[&str]) -> CardRow {
    CardRow {
        id,
        name: format!("card {}", id),
        title: String::new(),
        company: String::new(),
        website: String::new(),
        notes: String::new(),
        photo_path: String::new(),
        phones: vec![],
        emails: vec![],
        addresses: vec![],
        tags: tags.iter().map(|t| t.to_string()).collect(),
        created_at: 1,
        updated_at: 2,
    }
}

fn words(w: &[&str]) -> Vec<String> {
    w.iter().map(|t| t.to_string()).collect()
}

#[test]
fn a_store_is_restored_from_its_parts() {
    let mut store = Store::new();
    let input = cardvault::seed::seed_cards();
    for card in &input {
        create_card(&mut store, card, 3).unwrap();
    }
    let rows: Vec<CardRow> = store.rows().clone();
    let (c, p, e, a) = store.counters();
    let copy = Store::restore(rows, store.vocabulary().clone(), c, p, e, a).unwrap();
    assert_eq!(copy.counters(), store.counters());
    assert_eq!(copy.vocabulary(), store.vocabulary());
    for id in 1..=10 {
        let x = get_card(&store, id).unwrap();
        let y = get_card(&copy, id).unwrap();
        assert_eq!(x.name, y.name);
        assert_eq!(x.tags, y.tags);
        assert_eq!(x.phones.len(), y.phones.len());
    }
}

#[test]
fn parts_that_make_no_store_are_refused() {
    assert!(Store::restore(vec![], vec![], 1, 1, 1, 1).is_some());
    assert!(Store::restore(vec![], vec![], 0, 1, 1, 1).is_none());
    assert!(Store::restore(vec![], vec![], 1, 1, 1, 0).is_none());
    assert!(Store::restore(vec![], words(&["a", "b"]), 1, 1, 1, 1).is_some());
    assert!(Store::restore(vec![], words(&["b", "a"]), 1, 1, 1, 1).is_none());
    assert!(Store::restore(vec![], words(&["a", "a"]), 1, 1, 1, 1).is_none());
    assert!(Store::restore(vec![], words(&[" "]), 1, 1, 1, 1).is_none());
    assert!(Store::restore(vec![row(1, &[]), row(2, &["a"])], words(&["a"]), 3, 1, 1, 1).is_some());
    assert!(Store::restore(vec![row(2, &[]), row(1, &[])], vec![], 3, 1, 1, 1).is_none());
    assert!(Store::restore(vec![row(1, &[]), row(1, &[])], vec![], 3, 1, 1, 1).is_none());
    assert!(Store::restore(vec![row(0, &[])], vec![], 3, 1, 1, 1).is_none());
    assert!(Store::restore(vec![row(3, &[])], vec![], 3, 1, 1, 1).is_none());
    assert!(Store::restore(vec![row(1, &["b"])], words(&["a"]), 3, 1, 1, 1).is_none());
    assert!(Store::restore(vec![row(1, &["b", "a"])], words(&["a", "b"]), 3, 1, 1, 1).is_none());
    let mut with_phone = row(1, &[]);
    with_phone.phones.push(cardvault::models::Phone { id: 5, label: String::new(), number: String::new() });
    assert!(Store::restore(vec![with_phone], vec![], 3, 5, 1, 1).is_none());
    let mut with_phone = row(1, &[]);
    with_phone.phones.push(cardvault::models::Phone { id: 5, label: String::new(), number: String::new() });
    assert!(Store::restore(vec![with_phone], vec![], 3, 6, 1, 1).is_some());
}

#[test]
fn errors_are_told_in_words() {
    assert_eq!(StoreError::Validation(Rule::NameRequired).message(), "name is required");
    assert_eq!(
        StoreError::Validation(Rule::PhotoType).message(),
        "only jpg, png, webp photos are allowed"
    );
    assert_eq!(StoreError::Validation(Rule::PhotoSize).message(), "photo exceeds 5MB limit");
    assert_eq!(StoreError::Validation(Rule::PhotoMissing).message(), "no photo field provided");
    assert_eq!(StoreError::Validation(Rule::FileName).message(), "invalid filename");
    assert_eq!(StoreError::NotFound.message(), "card not found");
    assert_eq!(StoreError::Storage.message(), "storage failure");
}

#[test]
fn an_upload_must_bring_a_photo() {
    let empty = form(&[("name", "Ada")]);
    assert_eq!(empty.require_photo().err(), Some(StoreError::Validation(Rule::PhotoMissing)));
    let mut fields = MultipartFields::new();
    fields.put_photo("a.png".to_string(), vec![9]).unwrap();
    assert_eq!(fields.require_photo(), Ok(("a.png".to_string(), vec![9])));
}
