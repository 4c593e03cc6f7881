//! The rules for photo files: which uploads are taken, how the stored file
//! is named, which file a card's photo path stands for, and which file
//! names may be served.

use vstd::prelude::*;
use crate::error::{Rule, StoreError};
use crate::models::Text;
use crate::store::{delete_card_photo, has_card, with_photo, Store, StoreView};
use crate::text::{chars_of, fold, fold_char};

verus! {

/// The largest photo that is taken: five mebibytes.
pub const MAX_PHOTO_BYTES: usize = 5242880;

/// The ten digits.
pub open spec fn digit(d: nat) -> char {
    seq!['0', '1', '2', '3', '4', '5', '6', '7', '8', '9'][d as int]
}

/// The number `n` written in decimal, without leading zeros.
pub open spec fn decimal(n: nat) -> Text
    decreases n,
{
    if n < 10 {
        seq![digit(n)]
    } else {
        decimal(n / 10).push(digit(n % 10))
    }
}

/// The integer `n` written in decimal, with a minus sign where it is
/// negative.
pub open spec fn signed_decimal(n: int) -> Text {
    if n < 0 {
        seq!['-'] + decimal((-n) as nat)
    } else {
        decimal(n as nat)
    }
}

/// The digit `d` as a string.
fn digit_str(d: u8) -> (r: &'static str)
    requires
        d < 10,
    ensures
        r@ == seq![digit(d as nat)],
{
    proof {
        reveal_strlit("0");
        reveal_strlit("1");
        reveal_strlit("2");
        reveal_strlit("3");
        reveal_strlit("4");
        reveal_strlit("5");
        reveal_strlit("6");
        reveal_strlit("7");
        reveal_strlit("8");
        reveal_strlit("9");
    }
    let r = match d {
        0 => "0",
        1 => "1",
        2 => "2",
        3 => "3",
        4 => "4",
        5 => "5",
        6 => "6",
        7 => "7",
        8 => "8",
        _ => "9",
    };
    assert(r@ =~= seq![digit(d as nat)]);
    r
}

/// Writes `n` in decimal at the end of `out`.
fn append_decimal(out: &mut String, n: u128)
    ensures
        final(out)@ == old(out)@ + decimal(n as nat),
    decreases n,
{
    if n >= 10 {
        append_decimal(out, n / 10);
    }
    out.append(digit_str((n % 10) as u8));
    assert(out@ =~= old(out)@ + decimal(n as nat));
}

/// Writes `n` in decimal at the end of `out`, with its sign.
fn append_signed_decimal(out: &mut String, n: i64)
    ensures
        final(out)@ == old(out)@ + signed_decimal(n as int),
{
    if n < 0 {
        proof {
            reveal_strlit("-");
        }
        out.append("-");
        append_decimal(out, (-(n as i128)) as u128);
        assert(out@ =~= old(out)@ + signed_decimal(n as int));
    } else {
        append_decimal(out, n as u128);
    }
}

/// The path `name` without what does not count at its end: every slash
/// that ends it, and every dot that stands alone behind a slash. So
/// `pic.png/`, `pic.png//` and `pic.png/./` all name the file `pic.png`.
pub open spec fn trimmed_name(name: Text) -> Text
    decreases name.len(),
{
    if name.len() >= 1 && name.last() == '/' {
        trimmed_name(name.drop_last())
    } else if name.len() >= 2 && name.last() == '.' && name[name.len() - 2] == '/' {
        trimmed_name(name.take(name.len() - 2))
    } else {
        name
    }
}

/// Whether the path `name` ends in two dots that stand alone, of which the
/// second is at `d`: it names the directory above, not a file.
pub open spec fn ends_in_parent(name: Text, d: int) -> bool {
    &&& d == name.len() - 1
    &&& d >= 1
    &&& name[d - 1] == '.'
    &&& (d == 1 || name[d - 2] == '/')
}

/// Whether the dot at `d` starts the extension of the file that the path
/// `name` ends in: it is the last dot, no slash follows it, a character of
/// the file's own name stands before it, and the path does not end in the
/// directory above.
pub open spec fn is_extension_dot(name: Text, d: int) -> bool {
    &&& 0 < d < name.len()
    &&& name[d] == '.'
    &&& name[d - 1] != '/'
    &&& forall|k: int| d < k < name.len() ==> name[k] != '.' && name[k] != '/'
    &&& !ends_in_parent(name, d)
}

/// The extension of the file that the path `name` ends in: what follows
/// the last dot of the file's name. Slashes at the end of the path, and
/// dots that stand alone behind a slash there, do not count. A file name
/// without a dot has no extension, nor has one whose only dot is its first
/// character, nor has a path that ends in two dots standing alone.
pub open spec fn extension_of(name: Text) -> Option<Text> {
    let file = trimmed_name(name);
    if exists|d: int| is_extension_dot(file, d) {
        Some(file.skip((choose|d: int| is_extension_dot(file, d)) + 1))
    } else {
        None
    }
}

/// `t` with its ASCII letters in lower case.
pub open spec fn fold_text(t: Text) -> Text {
    t.map_values(|c: char| fold_char(c))
}

/// Whether `ext` is one of the four extensions that a photo may have.
pub open spec fn allowed_extension(ext: Text) -> bool {
    ||| ext == seq!['j', 'p', 'g']
    ||| ext == seq!['j', 'p', 'e', 'g']
    ||| ext == seq!['p', 'n', 'g']
    ||| ext == seq!['w', 'e', 'b', 'p']
}

/// The extension under which a photo named `name` is stored: its own
/// extension in lower case, where that is jpg, jpeg, png or webp. A photo
/// of any other name is not taken.
pub open spec fn photo_extension(name: Text) -> Option<Text> {
    match extension_of(name) {
        Some(ext) => if allowed_extension(fold_text(ext)) {
            Some(fold_text(ext))
        } else {
            None
        },
        None => None,
    }
}

/// Tests whether what follows `from` in `v` is `word`, but for ASCII case.
fn tail_is(v: &Vec<char>, from: usize, word: &str) -> (r: bool)
    requires
        from <= v.len(),
    ensures
        r == (fold_text(v@.skip(from as int)) == word@),
{
    let w = chars_of(word);
    if v.len() - from != w.len() {
        return false;
    }
    let mut i: usize = 0;
    while i < w.len()
        invariant
            i <= w.len(),
            from <= v.len(),
            v.len() - from == w.len(),
            w@ == word@,
            forall|k: int| 0 <= k < i ==> fold_text(v@.skip(from as int))[k] == #[trigger] w@[k],
        decreases w.len() - i,
    {
        if fold(v[from + i]) != w[i] {
            assert(fold_text(v@.skip(from as int))[i as int] != w@[i as int]);
            return false;
        }
        i += 1;
    }
    assert(fold_text(v@.skip(from as int)) =~= w@);
    true
}

/// Takes from the end of a path what does not count there.
fn trim_name(v: &mut Vec<char>)
    ensures
        final(v)@ == trimmed_name(old(v)@),
{
    let mut end: usize = v.len();
    let mut stop: bool = false;
    assert(v@.take(end as int) =~= v@);
    while !stop
        invariant
            end <= v.len(),
            v@ == old(v)@,
            trimmed_name(v@) == trimmed_name(v@.take(end as int)),
            stop ==> trimmed_name(v@.take(end as int)) == v@.take(end as int),
        decreases end + (if stop { 0int } else { 1int }),
    {
        if end >= 1 && v[end - 1] == '/' {
            assert(v@.take(end as int).drop_last() =~= v@.take(end - 1));
            end -= 1;
        } else if end >= 2 && v[end - 1] == '.' && v[end - 2] == '/' {
            assert(v@.take(end as int).take(end - 2) =~= v@.take(end - 2));
            end -= 2;
        } else {
            stop = true;
        }
    }
    v.truncate(end);
    assert(v@ =~= old(v)@.take(end as int));
}

/// The place of the dot that starts the extension of `v`, if it has one.
fn extension_dot(v: &Vec<char>) -> (r: Option<usize>)
    ensures
        match r {
            Some(d) => is_extension_dot(v@, d as int),
            None => forall|d: int| !is_extension_dot(v@, d),
        },
{
    let mut i: usize = v.len();
    while i > 0
        invariant
            i <= v.len(),
            forall|k: int| i <= k < v.len() ==> v@[k] != '.' && v@[k] != '/',
        decreases i,
    {
        let c = v[i - 1];
        if c == '.' {
            if i - 1 > 0 && v[i - 2] != '/' {
                let parent = i == v.len() && v[i - 2] == '.' && (i == 2 || v[i - 3] == '/');
                assert(parent == ends_in_parent(v@, i - 1));
                if !parent {
                    return Some(i - 1);
                }
            }
            assert forall|d: int| !is_extension_dot(v@, d) by {
                if is_extension_dot(v@, d) {
                    if d < i - 1 {
                        assert(v@[i - 1] == '.');
                    }
                }
            }
            return None;
        }
        if c == '/' {
            assert forall|d: int| !is_extension_dot(v@, d) by {
                if is_extension_dot(v@, d) {
                    if d < i - 1 {
                        assert(v@[i - 1] == '/');
                    }
                }
            }
            return None;
        }
        i -= 1;
    }
    None
}

/// The extension under which a photo named `name` is stored, or `None`
/// where a photo of that name is not taken.
pub fn stored_extension(name: &str) -> (r: Option<&'static str>)
    ensures
        match r {
            Some(ext) => photo_extension(name@) == Some(ext@),
            None => photo_extension(name@) is None,
        },
{
    let mut v = chars_of(name);
    trim_name(&mut v);
    let d = match extension_dot(&v) {
        Some(d) => d,
        None => {
            return None;
        },
    };
    assert(d < v.len());
    proof {
        let c = choose|c: int| is_extension_dot(v@, c);
        assert(is_extension_dot(v@, c));
        if c < d {
            assert(v@[d as int] == '.');
        }
        if d < c {
            assert(v@[c] == '.');
        }
        assert(c == d);
        reveal_strlit("jpg");
        reveal_strlit("jpeg");
        reveal_strlit("png");
        reveal_strlit("webp");
        assert("jpg"@ =~= seq!['j', 'p', 'g']);
        assert("jpeg"@ =~= seq!['j', 'p', 'e', 'g']);
        assert("png"@ =~= seq!['p', 'n', 'g']);
        assert("webp"@ =~= seq!['w', 'e', 'b', 'p']);
    }
    if tail_is(&v, d + 1, "jpg") {
        Some("jpg")
    } else if tail_is(&v, d + 1, "jpeg") {
        Some("jpeg")
    } else if tail_is(&v, d + 1, "png") {
        Some("png")
    } else if tail_is(&v, d + 1, "webp") {
        Some("webp")
    } else {
        None
    }
}

/// The name under which the photo of the card `card_id` is stored: the
/// word card, the id, the time of the upload in milliseconds and the
/// extension, as in `card_7_1700000000000.png`.
pub open spec fn stored_name(card_id: int, millis: nat, ext: Text) -> Text {
    seq!['c', 'a', 'r', 'd', '_'] + signed_decimal(card_id) + seq!['_'] + decimal(millis) + seq![
        '.',
    ] + ext
}

/// The path that the store records for a stored photo: the file's name
/// below `uploads/`.
pub open spec fn stored_path(file_name: Text) -> Text {
    seq!['u', 'p', 'l', 'o', 'a', 'd', 's', '/'] + file_name
}

/// The name under which a photo is stored.
pub fn photo_file_name(card_id: i64, millis: u128, ext: &str) -> (name: String)
    ensures
        name@ == stored_name(card_id as int, millis as nat, ext@),
{
    proof {
        reveal_strlit("card_");
        reveal_strlit("_");
        reveal_strlit(".");
    }
    let mut name = String::from_str("card_");
    assert(name@ =~= seq!['c', 'a', 'r', 'd', '_']);
    append_signed_decimal(&mut name, card_id);
    name.append("_");
    append_decimal(&mut name, millis);
    name.append(".");
    name.append(ext);
    assert(name@ =~= stored_name(card_id as int, millis as nat, ext@));
    name
}

/// The path that the store records for the stored photo `file_name`.
pub fn photo_path(file_name: &str) -> (path: String)
    ensures
        path@ == stored_path(file_name@),
{
    proof {
        reveal_strlit("uploads/");
    }
    let mut path = String::from_str("uploads/");
    path.append(file_name);
    assert(path@ =~= stored_path(file_name@));
    path
}

/// Tests the size of an upload against the limit.
pub fn check_photo_size(len: usize) -> (r: Result<(), StoreError>)
    ensures
        match r {
            Ok(_) => len <= MAX_PHOTO_BYTES,
            Err(e) => len > MAX_PHOTO_BYTES && e == StoreError::Validation(Rule::PhotoSize),
        },
{
    if len > MAX_PHOTO_BYTES {
        Err(StoreError::Validation(Rule::PhotoSize))
    } else {
        Ok(())
    }
}

/// Whether `path` begins with `uploads/`.
pub open spec fn has_uploads_prefix(path: Text) -> bool {
    path.len() >= 8 && path.take(8) == seq!['u', 'p', 'l', 'o', 'a', 'd', 's', '/']
}

/// The name of the file that the photo path `path` stands for: the path
/// without `uploads/` at its start, however often it stands there.
pub open spec fn file_of(path: Text) -> Text
    decreases path.len(),
{
    if has_uploads_prefix(path) {
        file_of(path.skip(8))
    } else {
        path
    }
}

/// The file to remove when a card gives up the photo path `path`: none
/// where the path is empty.
pub open spec fn stale_file(path: Text) -> Option<Text> {
    if path.len() == 0 {
        None
    } else {
        Some(file_of(path))
    }
}

/// The characters of an optional string.
pub open spec fn file_view(file: Option<String>) -> Option<Text> {
    match file {
        Some(name) => Some(name@),
        None => None,
    }
}

/// Tests whether `uploads/` stands in `v` at `from`.
fn prefix_at(v: &Vec<char>, from: usize) -> (r: bool)
    requires
        from <= v.len(),
    ensures
        r == has_uploads_prefix(v@.skip(from as int)),
{
    if v.len() - from < 8 {
        return false;
    }
    let r = v[from] == 'u' && v[from + 1] == 'p' && v[from + 2] == 'l' && v[from + 3] == 'o' && v[from
        + 4] == 'a' && v[from + 5] == 'd' && v[from + 6] == 's' && v[from + 7] == '/';
    proof {
        let t = v@.skip(from as int).take(8);
        let w = seq!['u', 'p', 'l', 'o', 'a', 'd', 's', '/'];
        if r {
            assert(t =~= w);
        } else {
            assert(t[0] == v@[from as int] && t[1] == v@[from + 1] && t[2] == v@[from + 2] && t[3]
                == v@[from + 3] && t[4] == v@[from + 4] && t[5] == v@[from + 5] && t[6] == v@[from
                + 6] && t[7] == v@[from + 7]);
            assert(w[0] == 'u' && w[1] == 'p' && w[2] == 'l' && w[3] == 'o' && w[4] == 'a' && w[5]
                == 'd' && w[6] == 's' && w[7] == '/');
        }
    }
    r
}

/// The file to remove when a card gives up the photo path `path`.
pub fn file_to_remove(path: &str) -> (file: Option<String>)
    ensures
        file_view(file) == stale_file(path@),
{
    let v = chars_of(path);
    if v.len() == 0 {
        return None;
    }
    let mut from: usize = 0;
    assert(v@.skip(0) =~= v@);
    while prefix_at(&v, from)
        invariant
            from <= v.len(),
            v@ == path@,
            file_of(v@) == file_of(v@.skip(from as int)),
        decreases v.len() - from,
    {
        assert(v@.skip(from as int).skip(8) =~= v@.skip(from + 8));
        from += 8;
    }
    let rest = path.substring_char(from, v.len());
    assert(path@.subrange(from as int, v.len() as int) =~= v@.skip(from as int));
    Some(String::from_str(rest))
}

/// Whether `name` is the name of a file directly below the serving root:
/// it holds no slash and no two dots in a row.
pub open spec fn flat_name(name: Text) -> bool {
    &&& forall|i: int| 0 <= i < name.len() ==> name[i] != '/'
    &&& forall|i: int|
        0 <= i < name.len() - 1 ==> !(#[trigger] name[i] == '.' && name[i + 1] == '.')
}

/// Tests whether `name` is the name of a file directly below the serving
/// root.
pub fn is_flat_name(name: &str) -> (r: bool)
    ensures
        r == flat_name(name@),
{
    let v = chars_of(name);
    let mut i: usize = 0;
    while i < v.len()
        invariant
            i <= v.len(),
            v@ == name@,
            forall|k: int| 0 <= k < i ==> v@[k] != '/',
            forall|k: int|
                0 <= k < i && k < v.len() - 1 ==> !(#[trigger] v@[k] == '.' && v@[k + 1] == '.'),
        decreases v.len() - i,
    {
        if v[i] == '/' {
            return false;
        }
        if v[i] == '.' && i + 1 < v.len() && v[i + 1] == '.' {
            return false;
        }
        i += 1;
    }
    true
}

/// The path of the file `name` in the directory `dir`: the two with one
/// slash between them, which is left out where `dir` is empty or ends in a
/// slash already. The path always begins with `dir`: a name that begins
/// with a slash does not take the place of the directory, it is put
/// behind it like any other.
pub open spec fn joined(dir: Text, name: Text) -> Text {
    if dir.len() == 0 || dir.last() == '/' {
        dir + name
    } else {
        dir + seq!['/'] + name
    }
}

/// The path of the file `name` in the directory `dir`. It lies below
/// `dir` whatever `name` is.
pub fn join_path(dir: &str, name: &str) -> (path: String)
    ensures
        path@ == joined(dir@, name@),
        path@.len() >= dir@.len(),
        path@.take(dir@.len() as int) == dir@,
{
    let d = chars_of(dir);
    let mut path = String::from_str(dir);
    if d.len() > 0 && d[d.len() - 1] != '/' {
        proof {
            reveal_strlit("/");
        }
        path.append("/");
    }
    path.append(name);
    assert(path@ =~= joined(dir@, name@));
    assert(path@.take(dir@.len() as int) =~= dir@);
    path
}

/// The media type that the crate `mime_guess` gives to the path `path`,
/// by the table of the version that the program is built with.
pub uninterp spec fn guessed_media_type(path: Seq<char>) -> Seq<char>;

/// Calls `mime_guess::from_path(path).first_or_octet_stream()` and writes
/// the media type out as a string.
///
/// Nothing is proved of this function. The crate looks the type up in a
/// fixed table by the path's extension, without touching the disk, and
/// falls back to `application/octet-stream`; so the result depends on the
/// path alone. The contract gives it a name and claims nothing else.
#[verifier::external_body]
fn guess_media_type(path: &str) -> (media_type: String)
    ensures
        media_type@ == guessed_media_type(path@),
{
    mime_guess::from_path(path).first_or_octet_stream().to_string()
}

/// A file of the uploads directory that may be served.
#[derive(Debug, Clone)]
pub struct ServedFile {
    /// Where the file lies.
    pub path: String,
    /// The media type to announce.
    pub content_type: String,
}

/// Decides how the file `filename` of the directory `uploads_dir` is
/// served: from which path and under which media type. A name that holds
/// a slash or two dots in a row is refused.
pub fn serve_uploads(uploads_dir: &str, filename: &str) -> (r: Result<ServedFile, StoreError>)
    ensures
        match r {
            Ok(file) => {
                &&& flat_name(filename@)
                &&& file.path@ == joined(uploads_dir@, filename@)
                &&& file.content_type@ == guessed_media_type(file.path@)
            },
            Err(e) => !flat_name(filename@) && e == StoreError::Validation(Rule::FileName),
        },
{
    if !is_flat_name(filename) {
        return Err(StoreError::Validation(Rule::FileName));
    }
    let path = join_path(uploads_dir, filename);
    let content_type = guess_media_type(path.as_str());
    Ok(ServedFile { path, content_type })
}

/// What is to be done to take a photo in: the file to remove, the name of
/// the file to write, and the path to record once it is written.
#[derive(Debug, Clone)]
pub struct PhotoUpload {
    /// The file of the photo that the card had, if it had one.
    pub stale_file: Option<String>,
    /// The name under which the new photo is stored.
    pub file_name: String,
    /// The path to record with `update_card_photo` after the write.
    pub path: String,
}

/// Whether the upload of a photo named `filename` of `size` bytes for the
/// card `id` is taken, or else why not.
pub open spec fn upload_verdict(v: StoreView, id: i64, filename: Text, size: usize) -> Option<
    StoreError,
> {
    if !v.cards.contains_key(id) {
        Some(StoreError::NotFound)
    } else if size > MAX_PHOTO_BYTES {
        Some(StoreError::Validation(Rule::PhotoSize))
    } else if photo_extension(filename) is None {
        Some(StoreError::Validation(Rule::PhotoType))
    } else {
        None
    }
}

/// Takes in the upload of a photo for the card `id`: the photo is named
/// `filename` and holds `size` bytes, and the upload happens at the time
/// `now`, which is `millis` in milliseconds.
///
/// The upload is refused, and the store left as it was, where there is no
/// such card, where the photo holds more than five mebibytes, or where its
/// name does not end in jpg, jpeg, png or webp. Otherwise the card's photo
/// path is cleared, and the result says which file to remove, under which
/// name to write the new one, and which path to record after the write.
pub fn upload_photo(
    store: &mut Store,
    id: i64,
    filename: &str,
    size: usize,
    millis: u128,
    now: u64,
) -> (r: Result<PhotoUpload, StoreError>)
    requires
        old(store).wf(),
    ensures
        final(store).wf(),
        match r {
            Ok(upload) => {
                &&& upload_verdict(old(store)@, id, filename@, size) is None
                &&& file_view(upload.stale_file) == stale_file(old(store)@.cards[id].photo_path)
                &&& upload.file_name@ == stored_name(
                    id as int,
                    millis as nat,
                    photo_extension(filename@)->0,
                )
                &&& upload.path@ == stored_path(upload.file_name@)
                &&& final(store)@ == with_photo(old(store)@, id, Seq::<char>::empty(), now)
            },
            Err(e) => {
                &&& upload_verdict(old(store)@, id, filename@, size) == Some(e)
                &&& final(store)@ == old(store)@
            },
        },
{
    if !has_card(store, id) {
        return Err(StoreError::NotFound);
    }
    if size > MAX_PHOTO_BYTES {
        return Err(StoreError::Validation(Rule::PhotoSize));
    }
    let ext = match stored_extension(filename) {
        Some(ext) => ext,
        None => {
            return Err(StoreError::Validation(Rule::PhotoType));
        },
    };
    let old_path = match delete_card_photo(store, id, now) {
        Some(path) => path,
        None => String::new(),
    };
    let file_name = photo_file_name(id, millis, ext);
    let path = photo_path(file_name.as_str());
    Ok(PhotoUpload { stale_file: file_to_remove(old_path.as_str()), file_name, path })
}

/// Clears the photo of the card `id` at the time `now` and returns the
/// file to remove, if the card had a photo. Fails with `NotFound`, and
/// changes nothing, where the store holds no such card.
pub fn delete_photo(store: &mut Store, id: i64, now: u64) -> (r: Result<Option<String>, StoreError>)
    requires
        old(store).wf(),
    ensures
        final(store).wf(),
        match r {
            Ok(file) => {
                &&& old(store)@.cards.contains_key(id)
                &&& file_view(file) == stale_file(old(store)@.cards[id].photo_path)
                &&& final(store)@ == with_photo(old(store)@, id, Seq::<char>::empty(), now)
            },
            Err(e) => {
                &&& !old(store)@.cards.contains_key(id)
                &&& e == StoreError::NotFound
                &&& final(store)@ == old(store)@
            },
        },
{
    match delete_card_photo(store, id, now) {
        Some(path) => Ok(file_to_remove(path.as_str())),
        None => Err(StoreError::NotFound),
    }
}

/// Whether `c` is one of the ten digits.
pub open spec fn is_digit(c: char) -> bool {
    '0' <= c && c <= '9'
}

/// A number written in decimal is one digit or more, and nothing but
/// digits.
pub proof fn lemma_decimal_digits(n: nat)
    ensures
        decimal(n).len() >= 1,
        n >= 10 ==> decimal(n).len() >= 2,
        forall|i: int| 0 <= i < decimal(n).len() ==> is_digit(#[trigger] decimal(n)[i]),
    decreases n,
{
    if n >= 10 {
        lemma_decimal_digits(n / 10);
    }
}

/// Two numbers that are written alike are the same number.
pub proof fn lemma_decimal_injective(a: nat, b: nat)
    requires
        decimal(a) == decimal(b),
    ensures
        a == b,
    decreases a,
{
    lemma_decimal_digits(a);
    lemma_decimal_digits(b);
    if a < 10 {
        assert(decimal(a).len() == 1);
        assert(b < 10);
        assert(decimal(a)[0] == digit(a) && decimal(b)[0] == digit(b));
    } else {
        assert(b >= 10);
        assert(decimal(a).drop_last() =~= decimal(a / 10));
        assert(decimal(b).drop_last() =~= decimal(b / 10));
        assert(decimal(a).last() == digit(a % 10));
        assert(decimal(b).last() == digit(b % 10));
        lemma_decimal_injective(a / 10, b / 10);
    }
}

/// Two integers that are written alike are the same integer.
pub proof fn lemma_signed_decimal_injective(a: int, b: int)
    requires
        signed_decimal(a) == signed_decimal(b),
    ensures
        a == b,
{
    let x = signed_decimal(a);
    let y = signed_decimal(b);
    if a < 0 {
        lemma_decimal_digits((-a) as nat);
        assert(x[0] == '-');
        if b < 0 {
            assert(x.drop_first() =~= decimal((-a) as nat));
            assert(y.drop_first() =~= decimal((-b) as nat));
            lemma_decimal_injective((-a) as nat, (-b) as nat);
        } else {
            lemma_decimal_digits(b as nat);
            assert(is_digit(y[0]));
        }
    } else {
        lemma_decimal_digits(a as nat);
        assert(is_digit(x[0]));
        if b < 0 {
            assert(y[0] == '-');
        } else {
            lemma_decimal_injective(a as nat, b as nat);
        }
    }
}

/// Two texts that are put together from a part without the mark `mark`,
/// the mark, and a rest, and that are equal, have equal parts and equal
/// rests.
pub proof fn lemma_split_at_mark(x: Text, p: Text, y: Text, q: Text, mark: char)
    requires
        x + seq![mark] + p == y + seq![mark] + q,
        forall|i: int| 0 <= i < x.len() ==> x[i] != mark,
        forall|i: int| 0 <= i < y.len() ==> y[i] != mark,
    ensures
        x == y,
        p == q,
{
    let l = x + seq![mark] + p;
    let r = y + seq![mark] + q;
    if x.len() < y.len() {
        assert(l[x.len() as int] == mark);
        assert(r[x.len() as int] == y[x.len() as int]);
    }
    if y.len() < x.len() {
        assert(r[y.len() as int] == mark);
        assert(l[y.len() as int] == x[y.len() as int]);
    }
    assert(x.len() == y.len());
    assert(l.len() == x.len() + 1 + p.len());
    assert(r.len() == y.len() + 1 + q.len());
    assert(p.len() == q.len());
    assert(x =~= y) by {
        assert forall|i: int| 0 <= i < x.len() implies x[i] == y[i] by {
            assert(l[i] == x[i] && r[i] == y[i]);
        }
    }
    assert(p =~= q) by {
        assert forall|i: int| 0 <= i < p.len() implies p[i] == q[i] by {
            let at = x.len() + 1 + i;
            assert(l[at] == p[i]);
            assert(r[at] == q[i]);
        }
    }
}

/// Two stored photos have the same name only where they belong to the
/// same card, were taken in at the same millisecond and have the same
/// extension: no upload overwrites the file of another card.
pub proof fn law_stored_names_are_distinct(
    card_a: int,
    millis_a: nat,
    ext_a: Text,
    card_b: int,
    millis_b: nat,
    ext_b: Text,
)
    requires
        stored_name(card_a, millis_a, ext_a) == stored_name(card_b, millis_b, ext_b),
    ensures
        card_a == card_b,
        millis_a == millis_b,
        ext_a == ext_b,
{
    let word = seq!['c', 'a', 'r', 'd', '_'];
    let ida = signed_decimal(card_a);
    let idb = signed_decimal(card_b);
    let ta = decimal(millis_a) + seq!['.'] + ext_a;
    let tb = decimal(millis_b) + seq!['.'] + ext_b;
    let na = stored_name(card_a, millis_a, ext_a);
    let nb = stored_name(card_b, millis_b, ext_b);
    assert(na =~= word + (ida + seq!['_'] + ta));
    assert(nb =~= word + (idb + seq!['_'] + tb));
    assert(ida + seq!['_'] + ta =~= na.skip(5));
    assert(idb + seq!['_'] + tb =~= nb.skip(5));
    assert forall|i: int| 0 <= i < ida.len() implies ida[i] != '_' by {
        if card_a < 0 {
            lemma_decimal_digits((-card_a) as nat);
            if i > 0 {
                assert(ida[i] == decimal((-card_a) as nat)[i - 1]);
                assert(is_digit(ida[i]));
            }
        } else {
            lemma_decimal_digits(card_a as nat);
            assert(is_digit(ida[i]));
        }
    }
    assert forall|i: int| 0 <= i < idb.len() implies idb[i] != '_' by {
        if card_b < 0 {
            lemma_decimal_digits((-card_b) as nat);
            if i > 0 {
                assert(idb[i] == decimal((-card_b) as nat)[i - 1]);
                assert(is_digit(idb[i]));
            }
        } else {
            lemma_decimal_digits(card_b as nat);
            assert(is_digit(idb[i]));
        }
    }
    lemma_split_at_mark(ida, ta, idb, tb, '_');
    lemma_signed_decimal_injective(card_a, card_b);
    lemma_decimal_digits(millis_a);
    lemma_decimal_digits(millis_b);
    assert forall|i: int| 0 <= i < decimal(millis_a).len() implies decimal(millis_a)[i] != '.' by {
        assert(is_digit(decimal(millis_a)[i]));
    }
    assert forall|i: int| 0 <= i < decimal(millis_b).len() implies decimal(millis_b)[i] != '.' by {
        assert(is_digit(decimal(millis_b)[i]));
    }
    lemma_split_at_mark(decimal(millis_a), ext_a, decimal(millis_b), ext_b, '.');
    lemma_decimal_injective(millis_a, millis_b);
}

} // verus!
