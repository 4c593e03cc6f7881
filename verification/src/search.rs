//! Which cards a listing selects, and the order in which it shows them.

use vstd::prelude::*;
use crate::models::{texts, CardView, Text};
use crate::store::{hydrates, CardRecord, CardRow, StoreView};
use crate::text::{chars_of, contains_folded, contains_ignore_case};

verus! {

/// Whether the text `q` is found in a card: in its name, in its company or
/// in one of its email addresses, as a substring, without regard to ASCII
/// case.
pub open spec fn text_hit(rec: CardRecord, q: Text) -> bool {
    ||| contains_folded(rec.name, q)
    ||| contains_folded(rec.company, q)
    ||| exists|i: int|
        0 <= i < rec.emails.len() && contains_folded(#[trigger] rec.emails[i].address, q)
}

/// Whether a listing with the text `q` and the tag `tag` selects a card:
/// the text, where one is given, must be found in it, and the card must be
/// linked to the tag, where one is given, under exactly that name.
pub open spec fn selected(rec: CardRecord, q: Option<Text>, tag: Option<Text>) -> bool {
    &&& q matches Some(text) ==> text_hit(rec, text)
    &&& tag matches Some(name) ==> rec.tags.contains(name)
}

/// Whether a listing shows `a` before `b`: the card changed last comes
/// first, and of two changed at the same time the one with the larger id.
pub open spec fn comes_before(a: CardView, b: CardView) -> bool {
    a.updated_at > b.updated_at || (a.updated_at == b.updated_at && a.id > b.id)
}

/// Whether each card of `cards` comes before all that follow it.
pub open spec fn ordered(cards: Seq<CardView>) -> bool {
    forall|i: int, j: int|
        0 <= i < j < cards.len() ==> comes_before(#[trigger] cards[i], #[trigger] cards[j])
}

/// Whether `cards` is the listing of the store `v` for the text `q` and
/// the tag `tag`: it shows every card that the two select, each once and
/// in full, and no other, the card changed last first.
pub open spec fn is_listing(
    v: StoreView,
    q: Option<Text>,
    tag: Option<Text>,
    cards: Seq<CardView>,
) -> bool {
    &&& forall|k: int|
        0 <= k < cards.len() ==> {
            let id = (#[trigger] cards[k]).id;
            &&& v.cards.contains_key(id)
            &&& hydrates(cards[k], id, v.cards[id])
            &&& selected(v.cards[id], q, tag)
        }
    &&& forall|id: i64|
        #![trigger v.cards.contains_key(id)]
        v.cards.contains_key(id) && selected(v.cards[id], q, tag) ==> exists|k: int|
            0 <= k < cards.len() && (#[trigger] cards[k]).id == id
    &&& ordered(cards)
}

/// The characters of an optional needle.
pub open spec fn needle_view(q: Option<Vec<char>>) -> Option<Text> {
    match q {
        Some(v) => Some(v@),
        None => None,
    }
}

/// The characters of an optional string.
pub open spec fn string_view(s: Option<String>) -> Option<Text> {
    match s {
        Some(v) => Some(v@),
        None => None,
    }
}

/// The characters of an optional string slice.
pub open spec fn str_view(s: Option<&str>) -> Option<Text> {
    match s {
        Some(v) => Some(v@),
        None => None,
    }
}

/// Tests whether the text `q` is found in a row.
fn row_hit(row: &CardRow, q: &Vec<char>) -> (r: bool)
    ensures
        r == text_hit(row@, q@),
{
    let name = chars_of(row.name.as_str());
    if contains_ignore_case(&name, q) {
        return true;
    }
    let company = chars_of(row.company.as_str());
    if contains_ignore_case(&company, q) {
        return true;
    }
    let mut i: usize = 0;
    while i < row.emails.len()
        invariant
            i <= row.emails.len(),
            forall|k: int| 0 <= k < i ==> !contains_folded(#[trigger] row@.emails[k].address, q@),
        decreases row.emails.len() - i,
    {
        let address = chars_of(row.emails[i].address.as_str());
        assert(row@.emails[i as int].address == address@);
        if contains_ignore_case(&address, q) {
            return true;
        }
        i += 1;
    }
    false
}

/// Tests whether a row is linked to the tag `name`.
pub fn row_tagged(row: &CardRow, name: &String) -> (r: bool)
    ensures
        r == row@.tags.contains(name@),
{
    let mut i: usize = 0;
    while i < row.tags.len()
        invariant
            i <= row.tags.len(),
            forall|k: int| 0 <= k < i ==> (#[trigger] texts(row.tags@)[k]) != name@,
        decreases row.tags.len() - i,
    {
        if row.tags[i] == *name {
            assert(texts(row.tags@)[i as int] == name@);
            return true;
        }
        i += 1;
    }
    false
}

/// Tests whether a listing with the text `q` and the tag `tag` selects a
/// row.
pub fn row_matches(row: &CardRow, q: &Option<Vec<char>>, tag: &Option<String>) -> (r: bool)
    ensures
        r == selected(row@, needle_view(*q), string_view(*tag)),
{
    let hit = match q {
        Some(text) => row_hit(row, text),
        None => true,
    };
    let tagged = match tag {
        Some(name) => row_tagged(row, name),
        None => true,
    };
    hit && tagged
}

} // verus!
