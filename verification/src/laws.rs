//! What holds of the store's operations taken together.

use vstd::prelude::*;
use crate::models::{
    address_ids, email_ids, phone_ids, report_names, CardInputView, CardView, TagCountView, Text,
};
use crate::search::{comes_before, is_listing, ordered};
use crate::store::{
    ascending, created, deleted, has_child_room, has_room, hydrates, is_tag_report,
    lemma_record_from_ok, lemma_record_ok_grows, linked_cards, lists_sorted, photo_url_of,
    record_ok, updated, with_children_of, with_photo, CardRecord, StoreView,
};
use crate::text::{blank, lemma_text_lt_irreflexive, lemma_text_lt_transitive, text_lt};

verus! {

/// Whether the phones, emails and postal addresses of `card` are those of
/// `input`, in the order submitted, whatever their ids.
pub open spec fn children_match(card: CardView, input: CardInputView) -> bool {
    &&& card.phones.len() == input.phones.len()
    &&& forall|i: int|
        0 <= i < card.phones.len() ==> (#[trigger] card.phones[i]).label == input.phones[i].label
            && card.phones[i].number == input.phones[i].number
    &&& card.emails.len() == input.emails.len()
    &&& forall|i: int|
        0 <= i < card.emails.len() ==> (#[trigger] card.emails[i]).label == input.emails[i].label
            && card.emails[i].address == input.emails[i].address
    &&& card.addresses.len() == input.addresses.len()
    &&& forall|i: int|
        0 <= i < card.addresses.len() ==> {
            &&& (#[trigger] card.addresses[i]).label == input.addresses[i].label
            &&& card.addresses[i].street == input.addresses[i].street
            &&& card.addresses[i].city == input.addresses[i].city
            &&& card.addresses[i].country == input.addresses[i].country
            &&& card.addresses[i].postal == input.addresses[i].postal
        }
}

/// Whether the tags of `card` are the names of `input` that are not
/// blank, each once, in alphabetical order.
pub open spec fn tags_match(card: CardView, input: CardInputView) -> bool {
    &&& ascending(card.tags)
    &&& card.tags.no_duplicates()
    &&& forall|t: Text| #[trigger] card.tags.contains(t) <==> input.tags.contains(t) && !blank(t)
}

/// A list in strictly ascending order holds nothing twice.
pub proof fn lemma_ascending_no_duplicates(list: Seq<Text>)
    requires
        ascending(list),
    ensures
        list.no_duplicates(),
{
    assert forall|i: int, j: int|
        0 <= i < list.len() && 0 <= j < list.len() && i != j implies list[i] != list[j] by {
        lemma_text_lt_irreflexive(list[i]);
        if i < j {
            assert(text_lt(list[i], list[j]));
        } else {
            assert(text_lt(list[j], list[i]));
        }
    }
}

/// A card that was made and is then read shows the name, title, company,
/// website and notes that were submitted, the phones, emails and postal
/// addresses that were submitted, in their order, no photo, and as its tags
/// the submitted names that are not blank, each once, in alphabetical
/// order.
pub proof fn law_create_then_get(v: StoreView, input: CardInputView, now: u64, card: CardView)
    requires
        v.inv(),
        !blank(input.name),
        has_room(v, input),
        hydrates(card, v.next_card_id as i64, created(v, input, now).cards[v.next_card_id as i64]),
    ensures
        created(v, input, now).cards.contains_key(v.next_card_id as i64),
        !v.cards.contains_key(v.next_card_id as i64),
        card.name == input.name,
        card.title == input.title,
        card.company == input.company,
        card.website == input.website,
        card.notes == input.notes,
        card.photo_url.len() == 0,
        card.created_at == now,
        card.updated_at == now,
        children_match(card, input),
        tags_match(card, input),
{
    lemma_ascending_no_duplicates(card.tags);
}

/// A card that was replaced and is then read shows what was submitted and
/// nothing from before: its phones, emails and postal addresses are the
/// submitted ones, under ids that no phone, email or postal address of any
/// card had before, and its tags are the submitted names that are not
/// blank, whatever the card was linked to before. It keeps its photo and
/// the time it was made.
pub proof fn law_update_then_get(
    v: StoreView,
    id: i64,
    input: CardInputView,
    now: u64,
    card: CardView,
)
    requires
        v.inv(),
        v.cards.contains_key(id),
        !blank(input.name),
        has_child_room(v, input),
        hydrates(card, id, updated(v, id, input, now).cards[id]),
    ensures
        card.name == input.name,
        card.title == input.title,
        card.company == input.company,
        card.website == input.website,
        card.notes == input.notes,
        card.photo_url == photo_url_of(v.cards[id].photo_path),
        card.created_at == v.cards[id].created_at,
        card.updated_at == now,
        children_match(card, input),
        tags_match(card, input),
        forall|other: i64, i: int, j: int|
            v.cards.contains_key(other) && 0 <= i < card.phones.len() && 0 <= j
                < v.cards[other].phones.len() ==> (#[trigger] card.phones[i]).id
                != (#[trigger] v.cards[other].phones[j]).id,
        forall|other: i64, i: int, j: int|
            v.cards.contains_key(other) && 0 <= i < card.emails.len() && 0 <= j
                < v.cards[other].emails.len() ==> (#[trigger] card.emails[i]).id
                != (#[trigger] v.cards[other].emails[j]).id,
        forall|other: i64, i: int, j: int|
            v.cards.contains_key(other) && 0 <= i < card.addresses.len() && 0 <= j
                < v.cards[other].addresses.len() ==> (#[trigger] card.addresses[i]).id
                != (#[trigger] v.cards[other].addresses[j]).id,
{
    lemma_ascending_no_duplicates(card.tags);
    assert forall|other: i64, i: int, j: int|
        v.cards.contains_key(other) && 0 <= i < card.phones.len() && 0 <= j
            < v.cards[other].phones.len() implies (#[trigger] card.phones[i]).id
        != (#[trigger] v.cards[other].phones[j]).id by {
        let ids = phone_ids(v.cards[other].phones);
        assert(record_ok(v.cards[other], v));
        assert(ids[j] < v.next_phone_id);
    }
    assert forall|other: i64, i: int, j: int|
        v.cards.contains_key(other) && 0 <= i < card.emails.len() && 0 <= j
            < v.cards[other].emails.len() implies (#[trigger] card.emails[i]).id
        != (#[trigger] v.cards[other].emails[j]).id by {
        let ids = email_ids(v.cards[other].emails);
        assert(record_ok(v.cards[other], v));
        assert(ids[j] < v.next_email_id);
    }
    assert forall|other: i64, i: int, j: int|
        v.cards.contains_key(other) && 0 <= i < card.addresses.len() && 0 <= j
            < v.cards[other].addresses.len() implies (#[trigger] card.addresses[i]).id
        != (#[trigger] v.cards[other].addresses[j]).id by {
        let ids = address_ids(v.cards[other].addresses);
        assert(record_ok(v.cards[other], v));
        assert(ids[j] < v.next_address_id);
    }
}

/// A card that was deleted is gone: reading it finds nothing, deleting it
/// once more finds nothing and changes nothing, and every other card is as
/// it was.
pub proof fn law_delete_then_absent(v: StoreView, id: i64)
    ensures
        !deleted(v, id).cards.contains_key(id),
        deleted(deleted(v, id), id) == deleted(v, id),
        forall|other: i64|
            other != id ==> (deleted(v, id).cards.contains_key(other) <==> v.cards.contains_key(
                other,
            )),
        forall|other: i64|
            other != id && v.cards.contains_key(other) ==> deleted(v, id).cards[other]
                == v.cards[other],
{
    assert(deleted(v, id).cards.remove(id) =~= deleted(v, id).cards);
}

/// No operation takes a tag out of the vocabulary, whether or not a card
/// is still linked to it.
pub proof fn law_tags_are_kept(
    v: StoreView,
    id: i64,
    input: CardInputView,
    path: Text,
    now: u64,
    tag: Text,
)
    requires
        v.tags.contains(tag),
    ensures
        created(v, input, now).tags.contains(tag),
        updated(v, id, input, now).tags.contains(tag),
        deleted(v, id).tags.contains(tag),
        with_photo(v, id, path, now).tags.contains(tag),
{
}

/// The tag report shows a tag of the vocabulary that no card is linked to,
/// with the count zero.
pub proof fn law_unlinked_tag_counts_zero(v: StoreView, tag: Text, report: Seq<TagCountView>)
    requires
        v.tags.contains(tag),
        forall|id: i64| v.cards.contains_key(id) ==> !(#[trigger] v.cards[id]).tags.contains(tag),
        is_tag_report(v, report),
    ensures
        exists|k: int|
            0 <= k < report.len() && (#[trigger] report[k]).name == tag && report[k].count == 0,
{
    let names = report_names(report);
    assert(names.contains(tag));
    let k = choose|k: int| 0 <= k < names.len() && names[k] == tag;
    assert(report[k].name == tag);
    assert(linked_cards(v.cards, tag) =~= Set::<i64>::empty());
}

/// A photo path that was recorded shows in the card as a slash and the
/// path; clearing the photo hands that path back and leaves the card
/// without a photo.
pub proof fn law_photo_round_trip(
    v: StoreView,
    id: i64,
    path: Text,
    now: u64,
    later: u64,
    card: CardView,
    cleared: CardView,
)
    requires
        v.cards.contains_key(id),
        path.len() > 0,
        hydrates(card, id, with_photo(v, id, path, now).cards[id]),
        hydrates(
            cleared,
            id,
            with_photo(with_photo(v, id, path, now), id, Seq::<char>::empty(), later).cards[id],
        ),
    ensures
        card.photo_url == seq!['/'] + path,
        with_photo(v, id, path, now).cards[id].photo_path == path,
        cleared.photo_url.len() == 0,
{
}

/// Every operation keeps the store's invariant: ids stay positive and
/// below the counters, the ids within a collection ascend, every linked
/// tag is in the vocabulary, and no tag is blank.
pub proof fn law_invariant_is_kept(
    v: StoreView,
    id: i64,
    input: CardInputView,
    path: Text,
    now: u64,
)
    requires
        v.inv(),
    ensures
        has_room(v, input) ==> created(v, input, now).inv(),
        v.cards.contains_key(id) && has_child_room(v, input) ==> updated(v, id, input, now).inv(),
        deleted(v, id).inv(),
        v.cards.contains_key(id) ==> with_photo(v, id, path, now).inv(),
{
    if has_room(v, input) {
        let w = created(v, input, now);
        lemma_record_from_ok(v, input, Seq::<char>::empty(), now, now);
        assert forall|k: i64| #[trigger] w.cards.contains_key(k) implies 1 <= k < w.next_card_id
            && record_ok(w.cards[k], w) by {
            if k != v.next_card_id as i64 {
                lemma_record_ok_grows(v.cards[k], v, with_children_of(v, input));
            }
        }
    }
    if v.cards.contains_key(id) && has_child_room(v, input) {
        let w = updated(v, id, input, now);
        lemma_record_from_ok(v, input, v.cards[id].photo_path, v.cards[id].created_at, now);
        assert forall|k: i64| #[trigger] w.cards.contains_key(k) implies 1 <= k < w.next_card_id
            && record_ok(w.cards[k], w) by {
            if k != id {
                lemma_record_ok_grows(v.cards[k], v, with_children_of(v, input));
            }
        }
    }
    {
        let w = deleted(v, id);
        assert forall|k: i64| #[trigger] w.cards.contains_key(k) implies 1 <= k < w.next_card_id
            && record_ok(w.cards[k], w) by {
            lemma_record_ok_grows(v.cards[k], v, w);
        }
    }
    if v.cards.contains_key(id) {
        let w = with_photo(v, id, path, now);
        assert forall|k: i64| #[trigger] w.cards.contains_key(k) implies 1 <= k < w.next_card_id
            && record_ok(w.cards[k], w) by {
            assert(record_ok(v.cards[id], v));
            if k != id {
                lemma_record_ok_grows(v.cards[k], v, w);
            }
        }
    }
}

/// Whether each member of `s` stands before all that follow it, in the
/// order `lt`.
pub open spec fn sorted_by<A>(s: Seq<A>, lt: spec_fn(A, A) -> bool) -> bool {
    forall|i: int, j: int| 0 <= i < j < s.len() ==> lt(#[trigger] s[i], #[trigger] s[j])
}

/// Two lists that hold the same members and stand in the same strict
/// order are the same list.
pub proof fn lemma_sorted_unique<A>(a: Seq<A>, b: Seq<A>, lt: spec_fn(A, A) -> bool)
    requires
        forall|x: A| !#[trigger] lt(x, x),
        forall|x: A, y: A, z: A| #[trigger] lt(x, y) && #[trigger] lt(y, z) ==> lt(x, z),
        sorted_by(a, lt),
        sorted_by(b, lt),
        forall|x: A| a.contains(x) <==> b.contains(x),
    ensures
        a == b,
    decreases a.len(),
{
    if a.len() == 0 {
        if b.len() > 0 {
            assert(b[0] == b[0] && b.contains(b[0]));
        }
        assert(a =~= b);
    } else {
        assert(a.contains(a[0]));
        let k = choose|k: int| 0 <= k < b.len() && b[k] == a[0];
        assert(b.contains(b[0]));
        let j = choose|j: int| 0 <= j < a.len() && a[j] == b[0];
        if k > 0 && j > 0 {
            assert(lt(b[0], b[k]));
            assert(lt(a[0], a[j]));
            assert(lt(a[0], a[0]));
        }
        assert(a[0] == b[0]);
        let ra = a.drop_first();
        let rb = b.drop_first();
        assert forall|x: A| ra.contains(x) <==> rb.contains(x) by {
            if ra.contains(x) {
                let i = choose|i: int| 0 <= i < ra.len() && ra[i] == x;
                assert(a[i + 1] == x);
                assert(lt(a[0], a[i + 1]));
                assert(a.contains(x));
                let m = choose|m: int| 0 <= m < b.len() && b[m] == x;
                assert(m > 0);
                assert(rb[m - 1] == x);
            }
            if rb.contains(x) {
                let i = choose|i: int| 0 <= i < rb.len() && rb[i] == x;
                assert(b[i + 1] == x);
                assert(lt(b[0], b[i + 1]));
                assert(b.contains(x));
                let m = choose|m: int| 0 <= m < a.len() && a[m] == x;
                assert(m > 0);
                assert(ra[m - 1] == x);
            }
        }
        assert(sorted_by(ra, lt)) by {
            assert forall|i: int, j: int| 0 <= i < j < ra.len() implies lt(
                #[trigger] ra[i],
                #[trigger] ra[j],
            ) by {
                assert(lt(a[i + 1], a[j + 1]));
            }
        }
        assert(sorted_by(rb, lt)) by {
            assert forall|i: int, j: int| 0 <= i < j < rb.len() implies lt(
                #[trigger] rb[i],
                #[trigger] rb[j],
            ) by {
                assert(lt(b[i + 1], b[j + 1]));
            }
        }
        lemma_sorted_unique(ra, rb, lt);
        assert(a =~= seq![a[0]] + ra);
        assert(b =~= seq![b[0]] + rb);
    }
}

/// A set has one listing in alphabetical order and no other.
pub proof fn lemma_sorted_listing_unique(a: Seq<Text>, b: Seq<Text>, set: Set<Text>)
    requires
        lists_sorted(a, set),
        lists_sorted(b, set),
    ensures
        a == b,
{
    let lt = |x: Text, y: Text| text_lt(x, y);
    assert forall|x: Text| !#[trigger] lt(x, x) by {
        lemma_text_lt_irreflexive(x);
    }
    assert forall|x: Text, y: Text, z: Text| #[trigger] lt(x, y) && #[trigger] lt(y, z) implies lt(
        x,
        z,
    ) by {
        lemma_text_lt_transitive(x, y, z);
    }
    assert(sorted_by(a, lt));
    assert(sorted_by(b, lt));
    lemma_sorted_unique(a, b, lt);
}

/// A record shows as one card and no other: what `get_card` returns is
/// fixed by what the store holds.
pub proof fn law_hydration_is_unique(a: CardView, b: CardView, id: i64, rec: CardRecord)
    requires
        hydrates(a, id, rec),
        hydrates(b, id, rec),
    ensures
        a == b,
{
    lemma_sorted_listing_unique(a.tags, b.tags, rec.tags);
}

/// A store has one listing for a text and a tag and no other: what
/// `list_cards` returns is fixed by what the store holds.
pub proof fn law_listing_is_unique(
    v: StoreView,
    q: Option<Text>,
    tag: Option<Text>,
    a: Seq<CardView>,
    b: Seq<CardView>,
)
    requires
        is_listing(v, q, tag, a),
        is_listing(v, q, tag, b),
    ensures
        a == b,
{
    let lt = |x: CardView, y: CardView| comes_before(x, y);
    assert(sorted_by(a, lt)) by {
        assert(ordered(a));
    }
    assert(sorted_by(b, lt)) by {
        assert(ordered(b));
    }
    assert forall|x: CardView| a.contains(x) <==> b.contains(x) by {
        if a.contains(x) {
            let k = choose|k: int| 0 <= k < a.len() && a[k] == x;
            assert(v.cards.contains_key(a[k].id));
            let m = choose|m: int| 0 <= m < b.len() && (#[trigger] b[m]).id == x.id;
            law_hydration_is_unique(x, b[m], x.id, v.cards[x.id]);
        }
        if b.contains(x) {
            let k = choose|k: int| 0 <= k < b.len() && b[k] == x;
            assert(v.cards.contains_key(b[k].id));
            let m = choose|m: int| 0 <= m < a.len() && (#[trigger] a[m]).id == x.id;
            law_hydration_is_unique(x, a[m], x.id, v.cards[x.id]);
        }
    }
    lemma_sorted_unique(a, b, lt);
}

/// A store has one tag report and no other: what `list_tags` returns is
/// fixed by what the store holds.
pub proof fn law_tag_report_is_unique(v: StoreView, a: Seq<TagCountView>, b: Seq<TagCountView>)
    requires
        is_tag_report(v, a),
        is_tag_report(v, b),
    ensures
        a == b,
{
    lemma_sorted_listing_unique(report_names(a), report_names(b), v.tags);
    assert(a.len() == report_names(a).len() && b.len() == report_names(b).len());
    assert forall|k: int| 0 <= k < a.len() implies a[k] == b[k] by {
        assert(a[k].name == report_names(a)[k]);
        assert(b[k].name == report_names(b)[k]);
    }
    assert(a =~= b);
}

/// No operation lets a counter fall, and every id in use lies below its
/// counter: an id that was handed out is not handed out again, not even
/// after its card was deleted.
pub proof fn law_ids_are_not_used_again(
    v: StoreView,
    id: i64,
    input: CardInputView,
    path: Text,
    now: u64,
)
    requires
        v.inv(),
    ensures
        !v.cards.contains_key(v.next_card_id as i64),
        created(v, input, now).next_card_id == v.next_card_id + 1,
        updated(v, id, input, now).next_card_id == v.next_card_id,
        deleted(v, id).next_card_id == v.next_card_id,
        with_photo(v, id, path, now).next_card_id == v.next_card_id,
        created(v, input, now).next_phone_id >= v.next_phone_id,
        created(v, input, now).next_email_id >= v.next_email_id,
        created(v, input, now).next_address_id >= v.next_address_id,
        updated(v, id, input, now).next_phone_id >= v.next_phone_id,
        updated(v, id, input, now).next_email_id >= v.next_email_id,
        updated(v, id, input, now).next_address_id >= v.next_address_id,
{
}

} // verus!
