use cardvault::error::{Rule, StoreError};
use cardvault::models::CardInput;
use cardvault::photo::{
    check_photo_size, delete_photo, file_to_remove, is_flat_name, join_path, photo_file_name,
    photo_path, serve_uploads, stored_extension, upload_photo, MAX_PHOTO_BYTES,
};
use cardvault::store::{create_card, get_card, update_card_photo, Store};

fn store_with_one_card() -> Store {
    let mut store = Store::new();
    let input = CardInput { name: "Ada".to_string(), ..CardInput::default() };
    create_card(&mut store, &input, 1).unwrap();
    store
}

#[test]
fn the_limit_is_five_mebibytes() {
    assert_eq!(MAX_PHOTO_BYTES, 5 * 1024 * 1024);
    assert_eq!(check_photo_size(0), Ok(()));
    assert_eq!(check_photo_size(5 * 1024 * 1024), Ok(()));
    assert_eq!(check_photo_size(5 * 1024 * 1024 + 1), Err(StoreError::Validation(Rule::PhotoSize)));
    assert_eq!(check_photo_size(6 * 1024 * 1024), Err(StoreError::Validation(Rule::PhotoSize)));
}

#[test]
fn four_extensions_are_taken_in_any_case() {
    assert_eq!(stored_extension("pic.png"), Some("png"));
    assert_eq!(stored_extension("pic.PNG"), Some("png"));
    assert_eq!(stored_extension("pic.jpg"), Some("jpg"));
    assert_eq!(stored_extension("pic.JpEg"), Some("jpeg"));
    assert_eq!(stored_extension("pic.webp"), Some("webp"));
    assert_eq!(stored_extension("holiday.2024.final.WEBP"), Some("webp"));
    assert_eq!(stored_extension("album/pic.jpg"), Some("jpg"));
    assert_eq!(stored_extension("..png"), Some("png"));
}

#[test]
fn other_names_are_not_taken() {
    assert_eq!(stored_extension("virus.exe"), None);
    assert_eq!(stored_extension("pic.gif"), None);
    assert_eq!(stored_extension("pic.png.exe"), None);
    assert_eq!(stored_extension("png"), None);
    assert_eq!(stored_extension(""), None);
    assert_eq!(stored_extension("pic."), None);
    assert_eq!(stored_extension(".png"), None);
    assert_eq!(stored_extension("album/.png"), None);
    assert_eq!(stored_extension("album.png/pic"), None);
    assert_eq!(stored_extension("pic.pngx"), None);
    assert_eq!(stored_extension("pic.pn"), None);
    assert_eq!(stored_extension("pic. png"), None);
}

#[test]
fn stored_names_hold_id_time_and_extension() {
    assert_eq!(photo_file_name(7, 1700000000000, "png"), "card_7_1700000000000.png");
    assert_eq!(photo_file_name(0, 0, "jpg"), "card_0_0.jpg");
    assert_eq!(photo_file_name(-12, 9, "webp"), "card_-12_9.webp");
    assert_eq!(photo_file_name(10, 100, "jpeg"), "card_10_100.jpeg");
    assert_eq!(
        photo_file_name(i64::MAX, u128::MAX, "png"),
        format!("card_{}_{}.png", i64::MAX, u128::MAX)
    );
    assert_eq!(photo_file_name(i64::MIN, 1, "png"), format!("card_{}_1.png", i64::MIN));
    assert_eq!(photo_path("card_7_1.png"), "uploads/card_7_1.png");
}

#[test]
fn the_file_of_a_photo_path_is_what_follows_uploads() {
    assert_eq!(file_to_remove(""), None);
    assert_eq!(file_to_remove("uploads/card_1_2.png"), Some("card_1_2.png".to_string()));
    assert_eq!(file_to_remove("uploads/uploads/x.png"), Some("x.png".to_string()));
    assert_eq!(file_to_remove("uploads/"), Some(String::new()));
    assert_eq!(file_to_remove("other/x.png"), Some("other/x.png".to_string()));
    assert_eq!(file_to_remove("x/uploads/y.png"), Some("x/uploads/y.png".to_string()));
    assert_eq!(file_to_remove("uploads"), Some("uploads".to_string()));
    assert_eq!(file_to_remove("uploads/\u{e9}t\u{e9}.png"), Some("\u{e9}t\u{e9}.png".to_string()));
}

#[test]
fn only_flat_names_are_served() {
    assert!(is_flat_name("card_1_2.png"));
    assert!(is_flat_name("a.b.c"));
    assert!(is_flat_name(""));
    assert!(is_flat_name("."));
    assert!(!is_flat_name(".."));
    assert!(!is_flat_name("../etc/passwd"));
    assert!(!is_flat_name("a/b.png"));
    assert!(!is_flat_name("/b.png"));
    assert!(!is_flat_name("a..png"));
    assert!(!is_flat_name("pic.png.."));
}

#[test]
fn paths_are_joined_with_one_slash() {
    assert_eq!(join_path("uploads", "a.png"), "uploads/a.png");
    assert_eq!(join_path("uploads/", "a.png"), "uploads/a.png");
    assert_eq!(join_path("", "a.png"), "a.png");
    assert_eq!(join_path("/var/data", ""), "/var/data/");
}

#[test]
fn served_files_get_their_media_type() {
    let file = serve_uploads("uploads", "card_1_2.png").unwrap();
    assert_eq!(file.path, "uploads/card_1_2.png");
    assert_eq!(file.content_type, "image/png");
    assert_eq!(serve_uploads("uploads", "a.JPG").unwrap().content_type, "image/jpeg");
    assert_eq!(serve_uploads("uploads", "a.webp").unwrap().content_type, "image/webp");
    assert_eq!(serve_uploads("up.png", "noextension").unwrap().content_type, "application/octet-stream");
    assert_eq!(serve_uploads("uploads", "a.unknownext").unwrap().content_type, "application/octet-stream");
}

#[test]
fn names_with_a_slash_or_two_dots_are_not_served() {
    assert_eq!(
        serve_uploads("uploads", "../secret.png").err(),
        Some(StoreError::Validation(Rule::FileName))
    );
    assert_eq!(
        serve_uploads("uploads", "a/b.png").err(),
        Some(StoreError::Validation(Rule::FileName))
    );
}

#[test]
fn upload_then_get_shows_the_url_and_delete_hands_the_file_back() {
    let mut store = store_with_one_card();
    let upload = upload_photo(&mut store, 1, "pic.png", 1024, 1700000000000, 5).unwrap();
    assert_eq!(upload.stale_file, None);
    assert_eq!(upload.file_name, "card_1_1700000000000.png");
    assert_eq!(upload.path, "uploads/card_1_1700000000000.png");
    assert_eq!(get_card(&store, 1).unwrap().photo_url, "");
    update_card_photo(&mut store, 1, &upload.path, 6).unwrap();
    assert_eq!(get_card(&store, 1).unwrap().photo_url, "/uploads/card_1_1700000000000.png");
    assert_eq!(delete_photo(&mut store, 1, 7), Ok(Some("card_1_1700000000000.png".to_string())));
    let card = get_card(&store, 1).unwrap();
    assert_eq!(card.photo_url, "");
    assert_eq!(card.updated_at, 7);
    assert_eq!(delete_photo(&mut store, 1, 8), Ok(None));
}

#[test]
fn a_second_upload_names_the_first_file_as_stale() {
    let mut store = store_with_one_card();
    let first = upload_photo(&mut store, 1, "a.JPG", 10, 111, 2).unwrap();
    update_card_photo(&mut store, 1, &first.path, 2).unwrap();
    let second = upload_photo(&mut store, 1, "b.webp", 10, 222, 3).unwrap();
    assert_eq!(second.stale_file, Some("card_1_111.jpg".to_string()));
    assert_eq!(second.file_name, "card_1_222.webp");
    assert_eq!(get_card(&store, 1).unwrap().photo_url, "");
    assert_eq!(get_card(&store, 1).unwrap().updated_at, 3);
}

#[test]
fn refused_uploads_leave_the_store_alone() {
    let mut store = store_with_one_card();
    update_card_photo(&mut store, 1, "uploads/card_1_1.png", 2).unwrap();
    assert_eq!(
        upload_photo(&mut store, 1, "virus.exe", 10, 5, 9).err(),
        Some(StoreError::Validation(Rule::PhotoType))
    );
    assert_eq!(
        upload_photo(&mut store, 1, "pic.png", 6 * 1024 * 1024, 5, 9).err(),
        Some(StoreError::Validation(Rule::PhotoSize))
    );
    assert_eq!(
        upload_photo(&mut store, 1, "virus.exe", 6 * 1024 * 1024, 5, 9).err(),
        Some(StoreError::Validation(Rule::PhotoSize))
    );
    assert_eq!(upload_photo(&mut store, 2, "pic.png", 10, 5, 9).err(), Some(StoreError::NotFound));
    assert_eq!(upload_photo(&mut store, 2, "virus.exe", usize::MAX, 5, 9).err(), Some(StoreError::NotFound));
    let card = get_card(&store, 1).unwrap();
    assert_eq!(card.photo_url, "/uploads/card_1_1.png");
    assert_eq!(card.updated_at, 2);
    assert_eq!(delete_photo(&mut store, 2, 9), Err(StoreError::NotFound));
}

#[test]
fn slashes_and_lone_dots_at_the_end_do_not_count() {
    assert_eq!(stored_extension("pic.png/"), Some("png"));
    assert_eq!(stored_extension("pic.png/."), Some("png"));
    assert_eq!(stored_extension("pic.png//"), Some("png"));
    assert_eq!(stored_extension("pic.png/./"), Some("png"));
    assert_eq!(stored_extension("pic.png/././/."), Some("png"));
    assert_eq!(stored_extension("album/pic.JPG/"), Some("jpg"));
    assert_eq!(stored_extension("./pic.webp"), Some("webp"));
    assert_eq!(stored_extension("pic.png/.."), None);
    assert_eq!(stored_extension("pic.png/../"), None);
    assert_eq!(stored_extension("pic.png/x"), None);
    assert_eq!(stored_extension("pic.png/.x"), None);
    assert_eq!(stored_extension("pic.png./"), None);
    assert_eq!(stored_extension(".png/"), None);
    assert_eq!(stored_extension("album/.png/."), None);
}

#[test]
fn paths_that_name_no_file_have_no_extension() {
    for name in ["", ".", "..", "/", "//", "/.", "./", "./.", "a/..", "../..", "...", "a..", "/.."] {
        assert_eq!(stored_extension(name), None, "{:?}", name);
    }
}

#[test]
fn the_extension_is_found_as_the_standard_library_finds_it() {
    let names = [
        "pic.png", "pic.PNG", "pic.png/", "pic.png/.", "pic.png/..", "pic.png//", "pic.png/./",
        "..png", ".png", "a/.png", "a.b/c", "foo.", "x/..jpg", "a/b.jpeg", "a.jpg/b.webp",
        "", ".", "..", "/", "/.", "./", "a/..", "...", "a..", "..jpg/", "x.webp/././", "a/./b.png",
        "jpg", "a.jpg.", "a/.jpg/..png", "/.jpg", "//a.png", ".a.png", "a.png/../", "webp/.",
    ];
    for name in names {
        let std_ext = std::path::Path::new(name)
            .extension()
            .and_then(|e| e.to_str())
            .map(|e| e.to_lowercase())
            .unwrap_or_default();
        let expected = match std_ext.as_str() {
            "jpg" => Some("jpg"),
            "jpeg" => Some("jpeg"),
            "png" => Some("png"),
            "webp" => Some("webp"),
            _ => None,
        };
        assert_eq!(stored_extension(name), expected, "{:?}", name);
    }
}

#[test]
fn a_photo_named_with_a_slash_at_the_end_is_taken() {
    let mut store = store_with_one_card();
    let upload = upload_photo(&mut store, 1, "pic.png/", 10, 42, 2).unwrap();
    assert_eq!(upload.file_name, "card_1_42.png");
    assert_eq!(upload.path, "uploads/card_1_42.png");
    let upload = upload_photo(&mut store, 1, "pic.JPEG/.", 10, 43, 3).unwrap();
    assert_eq!(upload.file_name, "card_1_43.jpeg");
    assert_eq!(
        upload_photo(&mut store, 1, "pic.png/..", 10, 44, 4).err(),
        Some(StoreError::Validation(Rule::PhotoType))
    );
}

fn standard_extension(name: &str) -> Option<&'static str> {
    let ext = std::path::Path::new(name)
        .extension()
        .and_then(|e| e.to_str())
        .map(|e| e.to_lowercase())
        .unwrap_or_default();
    match ext.as_str() {
        "jpg" => Some("jpg"),
        "jpeg" => Some("jpeg"),
        "png" => Some("png"),
        "webp" => Some("webp"),
        _ => None,
    }
}

#[test]
fn the_extension_agrees_on_every_short_path() {
    let letters = ['.', '/', 'j', 'P', 'g'];
    let mut names = vec![String::new()];
    let mut from = 0;
    for _ in 0..7 {
        let until = names.len();
        for i in from..until {
            for c in letters {
                let mut longer = names[i].clone();
                longer.push(c);
                names.push(longer);
            }
        }
        from = until;
    }
    assert_eq!(names.len(), 97656);
    let mut taken = 0;
    for name in &names {
        let expected = standard_extension(name);
        assert_eq!(stored_extension(name), expected, "{:?}", name);
        if expected.is_some() {
            taken += 1;
        }
    }
    assert!(taken > 0);
}

#[test]
fn joining_stays_below_the_directory() {
    assert_eq!(join_path("uploads", "/etc/passwd"), "uploads//etc/passwd");
    assert_eq!(join_path("uploads/", "/x.png"), "uploads//x.png");
    assert_eq!(join_path("", "/x.png"), "/x.png");
    for dir in ["uploads", "uploads/", "/var/data", "a/b/", "", "."] {
        for name in ["a.png", "", "card_1_2.jpg", "x/y.png", "..", "."] {
            let joined = std::path::Path::new(dir).join(name);
            assert_eq!(join_path(dir, name), joined.to_str().unwrap(), "{:?} {:?}", dir, name);
        }
    }
}
