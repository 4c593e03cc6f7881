//! The card store: every card with its phones, emails, postal addresses and
//! tag links, and the vocabulary of tags that the cards share.

use vstd::prelude::*;
use crate::error::{Rule, StoreError};
use crate::models::{
    address_ids, address_input_views, address_views, card_input_views, card_views, email_ids,
    email_input_views, email_views, phone_ids,
    phone_input_views, report_names, tag_count_views, TagCountView,
    phone_views, texts, Address, AddressInputView, AddressView, Card, CardFormAddressInput,
    CardFormEmailInput, CardFormPhoneInput, CardInput, CardInputView, CardView, Email,
    EmailInputView, EmailView, Phone, PhoneInputView, PhoneView, TagCount, Text,
};
use crate::search::{
    comes_before, is_listing, needle_view, ordered, row_matches, row_tagged, selected, str_view,
    string_view,
};
use crate::text::{
    blank, chars_of, is_blank, lemma_text_lt_total, lemma_text_lt_transitive, text_less, text_lt,
};

verus! {

/// What the store holds of one card. The card's id is not part of it: it
/// is the key under which the store holds the record.
pub struct CardRecord {
    pub name: Text,
    pub title: Text,
    pub company: Text,
    pub website: Text,
    pub notes: Text,
    /// The path of the photo file below the serving root; empty for none.
    pub photo_path: Text,
    pub phones: Seq<PhoneView>,
    pub emails: Seq<EmailView>,
    pub addresses: Seq<AddressView>,
    /// The names of the tags that the card is linked to.
    pub tags: Set<Text>,
    pub created_at: u64,
    pub updated_at: u64,
}

/// The store as a mathematical value.
pub struct StoreView {
    /// The cards by id.
    pub cards: Map<i64, CardRecord>,
    /// The vocabulary: every tag name ever linked to a card.
    pub tags: Set<Text>,
    /// The id that the next card gets.
    pub next_card_id: int,
    /// The id that the next phone gets.
    pub next_phone_id: int,
    /// The id that the next email gets.
    pub next_email_id: int,
    /// The id that the next postal address gets.
    pub next_address_id: int,
}

/// One card as the store keeps it.
#[derive(Debug, Clone)]
pub struct CardRow {
    pub id: i64,
    pub name: String,
    pub title: String,
    pub company: String,
    pub website: String,
    pub notes: String,
    pub photo_path: String,
    pub phones: Vec<Phone>,
    pub emails: Vec<Email>,
    pub addresses: Vec<Address>,
    pub tags: Vec<String>,
    pub created_at: u64,
    pub updated_at: u64,
}

/// The card store.
#[derive(Debug, Clone)]
pub struct Store {
    rows: Vec<CardRow>,
    tags: Vec<String>,
    next_card_id: i64,
    next_phone_id: i64,
    next_email_id: i64,
    next_address_id: i64,
}

/// Whether `s` is in strictly ascending alphabetical order.
pub open spec fn ascending(s: Seq<Text>) -> bool {
    forall|i: int, j: int| 0 <= i < j < s.len() ==> text_lt(#[trigger] s[i], #[trigger] s[j])
}

/// Whether `list` holds exactly the members of `set`, each once, in
/// alphabetical order.
pub open spec fn lists_sorted(list: Seq<Text>, set: Set<Text>) -> bool {
    &&& ascending(list)
    &&& forall|t: Text| list.contains(t) <==> set.contains(t)
}

/// The URL under which a photo is served: a slash and the path, or the
/// empty string where there is no photo.
pub open spec fn photo_url_of(path: Text) -> Text {
    if path.len() == 0 {
        path
    } else {
        seq!['/'] + path
    }
}

/// Whether `card` shows the record `rec` of the card `id` in full.
pub open spec fn hydrates(card: CardView, id: i64, rec: CardRecord) -> bool {
    &&& card.id == id
    &&& card.name == rec.name
    &&& card.title == rec.title
    &&& card.company == rec.company
    &&& card.website == rec.website
    &&& card.notes == rec.notes
    &&& card.photo_url == photo_url_of(rec.photo_path)
    &&& card.phones == rec.phones
    &&& card.emails == rec.emails
    &&& card.addresses == rec.addresses
    &&& lists_sorted(card.tags, rec.tags)
    &&& card.created_at == rec.created_at
    &&& card.updated_at == rec.updated_at
}

impl View for CardRow {
    type V = CardRecord;

    open spec fn view(&self) -> CardRecord {
        CardRecord {
            name: self.name@,
            title: self.title@,
            company: self.company@,
            website: self.website@,
            notes: self.notes@,
            photo_path: self.photo_path@,
            phones: phone_views(self.phones@),
            emails: email_views(self.emails@),
            addresses: address_views(self.addresses@),
            tags: texts(self.tags@).to_set(),
            created_at: self.created_at,
            updated_at: self.updated_at,
        }
    }
}

/// Whether some row of `rows` has the id `id`.
pub open spec fn has_row(rows: Seq<CardRow>, id: i64) -> bool {
    exists|i: int| 0 <= i < rows.len() && #[trigger] rows[i].id == id
}

/// The place of the row with the id `id`.
pub open spec fn row_index(rows: Seq<CardRow>, id: i64) -> int {
    choose|i: int| 0 <= i < rows.len() && #[trigger] rows[i].id == id
}

/// The rows as a map from id to record.
pub open spec fn cards_of(rows: Seq<CardRow>) -> Map<i64, CardRecord> {
    Map::new(|id: i64| has_row(rows, id), |id: i64| rows[row_index(rows, id)]@)
}

/// Whether the rows stand in strictly ascending order of id.
pub open spec fn ids_ascending(rows: Seq<CardRow>) -> bool {
    forall|i: int, j: int| 0 <= i < j < rows.len() ==> #[trigger] rows[i].id < #[trigger] rows[j].id
}

/// In rows ordered by id, the record of an id is that of its row.
pub proof fn lemma_cards_lookup(rows: Seq<CardRow>, i: int)
    requires
        ids_ascending(rows),
        0 <= i < rows.len(),
    ensures
        cards_of(rows).contains_key(rows[i].id),
        cards_of(rows)[rows[i].id] == rows[i]@,
        row_index(rows, rows[i].id) == i,
{
    let id = rows[i].id;
    assert(has_row(rows, id));
    let j = row_index(rows, id);
    assert(0 <= j < rows.len() && rows[j].id == id);
    if j < i {
        assert(rows[j].id < rows[i].id);
    }
    if i < j {
        assert(rows[i].id < rows[j].id);
    }
}

/// Whether the ids of `s` are strictly ascending and lie from 1 up to,
/// not including, `next`.
pub open spec fn child_ids_ok(s: Seq<i64>, next: int) -> bool {
    &&& forall|i: int| 0 <= i < s.len() ==> 1 <= #[trigger] s[i] < next
    &&& forall|i: int, j: int| 0 <= i < j < s.len() ==> #[trigger] s[i] < #[trigger] s[j]
}

/// Whether a record fits a store with the given vocabulary and counters.
pub open spec fn record_ok(rec: CardRecord, v: StoreView) -> bool {
    &&& child_ids_ok(phone_ids(rec.phones), v.next_phone_id)
    &&& child_ids_ok(email_ids(rec.emails), v.next_email_id)
    &&& child_ids_ok(address_ids(rec.addresses), v.next_address_id)
    &&& rec.tags.finite()
    &&& rec.tags.subset_of(v.tags)
}

impl StoreView {
    /// What holds of every store: ids are positive and below the counters,
    /// the ids within a collection ascend, every linked tag is in the
    /// vocabulary, and no tag is blank.
    pub open spec fn inv(self) -> bool {
        &&& 1 <= self.next_card_id <= i64::MAX
        &&& 1 <= self.next_phone_id <= i64::MAX
        &&& 1 <= self.next_email_id <= i64::MAX
        &&& 1 <= self.next_address_id <= i64::MAX
        &&& self.cards.dom().finite()
        &&& self.tags.finite()
        &&& forall|t: Text| self.tags.contains(t) ==> !blank(t)
        &&& forall|id: i64| #[trigger]
            self.cards.contains_key(id) ==> 1 <= id < self.next_card_id && record_ok(
                self.cards[id],
                self,
            )
    }

    /// The store with no card and no tag.
    pub open spec fn empty() -> StoreView {
        StoreView {
            cards: Map::empty(),
            tags: Set::empty(),
            next_card_id: 1,
            next_phone_id: 1,
            next_email_id: 1,
            next_address_id: 1,
        }
    }
}

impl View for Store {
    type V = StoreView;

    closed spec fn view(&self) -> StoreView {
        StoreView {
            cards: cards_of(self.rows@),
            tags: texts(self.tags@).to_set(),
            next_card_id: self.next_card_id as int,
            next_phone_id: self.next_phone_id as int,
            next_email_id: self.next_email_id as int,
            next_address_id: self.next_address_id as int,
        }
    }
}

impl Store {
    /// Whether the store is well formed: the rows stand in order of id, the
    /// tag lists and the vocabulary in alphabetical order, and the view
    /// meets its invariant.
    pub closed spec fn wf(&self) -> bool {
        &&& ids_ascending(self.rows@)
        &&& ascending(texts(self.tags@))
        &&& forall|i: int|
            0 <= i < self.rows.len() ==> ascending(texts(#[trigger] self.rows[i].tags@))
        &&& self@.inv()
    }

    /// A well-formed store meets the invariant of its view.
    pub proof fn lemma_wf_inv(&self)
        requires
            self.wf(),
        ensures
            self@.inv(),
    {
    }

    /// A store with no card and no tag.
    pub fn new() -> (store: Store)
        ensures
            store.wf(),
            store@ == StoreView::empty(),
    {
        let store = Store {
            rows: Vec::new(),
            tags: Vec::new(),
            next_card_id: 1,
            next_phone_id: 1,
            next_email_id: 1,
            next_address_id: 1,
        };
        proof {
            assert(store@.cards =~= Map::<i64, CardRecord>::empty());
            assert(store@.tags =~= Set::<Text>::empty());
            assert(texts(store.tags@) =~= Seq::<Text>::empty());
        }
        store
    }

    /// The place of the row of the card `id`, if there is one.
    fn find(&self, id: i64) -> (r: Option<usize>)
        requires
            self.wf(),
        ensures
            match r {
                Some(i) => i < self.rows.len() && self.rows[i as int].id == id
                    && self@.cards.contains_key(id) && self@.cards[id] == self.rows[i as int]@,
                None => !self@.cards.contains_key(id),
            },
    {
        let mut i: usize = 0;
        while i < self.rows.len()
            invariant
                self.wf(),
                i <= self.rows.len(),
                forall|j: int| 0 <= j < i ==> self.rows[j].id != id,
            decreases self.rows.len() - i,
        {
            if self.rows[i].id == id {
                proof {
                    lemma_cards_lookup(self.rows@, i as int);
                }
                return Some(i);
            }
            i += 1;
        }
        None
    }
}

/// A copy of a list of strings.
fn copy_texts(src: &Vec<String>) -> (r: Vec<String>)
    ensures
        r@ == src@,
{
    let mut r: Vec<String> = Vec::new();
    let mut i: usize = 0;
    while i < src.len()
        invariant
            i <= src.len(),
            r@ == src@.take(i as int),
        decreases src.len() - i,
    {
        r.push(src[i].clone());
        assert(r@ =~= src@.take(i + 1));
        i += 1;
    }
    assert(src@.take(src.len() as int) =~= src@);
    r
}

/// A copy of a list of phones.
fn copy_phones(src: &Vec<Phone>) -> (r: Vec<Phone>)
    ensures
        r@ == src@,
{
    let mut r: Vec<Phone> = Vec::new();
    let mut i: usize = 0;
    while i < src.len()
        invariant
            i <= src.len(),
            r@ == src@.take(i as int),
        decreases src.len() - i,
    {
        let p = &src[i];
        r.push(Phone { id: p.id, label: p.label.clone(), number: p.number.clone() });
        assert(r@ =~= src@.take(i + 1));
        i += 1;
    }
    assert(src@.take(src.len() as int) =~= src@);
    r
}

/// A copy of a list of emails.
fn copy_emails(src: &Vec<Email>) -> (r: Vec<Email>)
    ensures
        r@ == src@,
{
    let mut r: Vec<Email> = Vec::new();
    let mut i: usize = 0;
    while i < src.len()
        invariant
            i <= src.len(),
            r@ == src@.take(i as int),
        decreases src.len() - i,
    {
        let e = &src[i];
        r.push(Email { id: e.id, label: e.label.clone(), address: e.address.clone() });
        assert(r@ =~= src@.take(i + 1));
        i += 1;
    }
    assert(src@.take(src.len() as int) =~= src@);
    r
}

/// A copy of a list of postal addresses.
fn copy_addresses(src: &Vec<Address>) -> (r: Vec<Address>)
    ensures
        r@ == src@,
{
    let mut r: Vec<Address> = Vec::new();
    let mut i: usize = 0;
    while i < src.len()
        invariant
            i <= src.len(),
            r@ == src@.take(i as int),
        decreases src.len() - i,
    {
        let a = &src[i];
        r.push(
            Address {
                id: a.id,
                label: a.label.clone(),
                street: a.street.clone(),
                city: a.city.clone(),
                country: a.country.clone(),
                postal: a.postal.clone(),
            },
        );
        assert(r@ =~= src@.take(i + 1));
        i += 1;
    }
    assert(src@.take(src.len() as int) =~= src@);
    r
}

/// The URL under which the photo at `path` is served.
pub fn photo_url(path: &str) -> (url: String)
    ensures
        url@ == photo_url_of(path@),
{
    if path.is_empty() {
        String::new()
    } else {
        proof {
            reveal_strlit("/");
        }
        let mut url = String::from_str("/");
        url.append(path);
        assert(url@ =~= seq!['/'] + path@);
        url
    }
}

/// The card of a row with all that belongs to it.
fn hydrate(row: &CardRow) -> (card: Card)
    requires
        ascending(texts(row.tags@)),
    ensures
        hydrates(card@, row.id, row@),
{
    let card = Card {
        id: row.id,
        name: row.name.clone(),
        title: row.title.clone(),
        company: row.company.clone(),
        website: row.website.clone(),
        notes: row.notes.clone(),
        photo_url: photo_url(row.photo_path.as_str()),
        phones: copy_phones(&row.phones),
        emails: copy_emails(&row.emails),
        addresses: copy_addresses(&row.addresses),
        tags: copy_texts(&row.tags),
        created_at: row.created_at,
        updated_at: row.updated_at,
    };
    card
}

/// Whether the store holds the card `id`.
pub fn has_card(store: &Store, id: i64) -> (r: bool)
    requires
        store.wf(),
    ensures
        r == store@.cards.contains_key(id),
{
    store.find(id).is_some()
}

/// The card `id` with its phones, emails and postal addresses in order of
/// their ids and its tags in alphabetical order, or `None` where the store
/// holds no such card.
pub fn get_card(store: &Store, id: i64) -> (r: Option<Card>)
    requires
        store.wf(),
    ensures
        match r {
            Some(card) => store@.cards.contains_key(id) && hydrates(card@, id, store@.cards[id]),
            None => !store@.cards.contains_key(id),
        },
{
    match store.find(id) {
        Some(i) => Some(hydrate(&store.rows[i])),
        None => None,
    }
}

/// The names among `names` that are not blank: the tags that a card with
/// these names is linked to.
pub open spec fn tag_set(names: Seq<Text>) -> Set<Text> {
    Set::new(|t: Text| names.contains(t) && !blank(t))
}

/// Putting a string into its place in an ordered list keeps the order and
/// adds just that string.
proof fn lemma_insert_sorted(o: Seq<Text>, at: int, x: Text)
    requires
        ascending(o),
        0 <= at <= o.len(),
        forall|j: int| 0 <= j < at ==> text_lt(#[trigger] o[j], x),
        at < o.len() ==> text_lt(x, o[at]),
    ensures
        ascending(o.insert(at, x)),
        forall|t: Text|
            #![trigger o.insert(at, x).contains(t)]
            #![trigger o.contains(t)]
            o.insert(at, x).contains(t) <==> (o.contains(t) || t == x),
        o.insert(at, x).contains(x),
{
    let n = o.insert(at, x);
    assert forall|a: int, b: int| 0 <= a < b < n.len() implies text_lt(
        #[trigger] n[a],
        #[trigger] n[b],
    ) by {
        if b < at {
            assert(n[a] == o[a] && n[b] == o[b]);
        } else if b == at {
            assert(n[a] == o[a]);
        } else if a < at {
            assert(n[a] == o[a] && n[b] == o[b - 1]);
            if at < b - 1 {
                assert(text_lt(o[at], o[b - 1]));
            }
            lemma_text_lt_transitive(o[a], x, o[at]);
            if at < b - 1 {
                lemma_text_lt_transitive(o[a], o[at], o[b - 1]);
            }
        } else if a == at {
            assert(n[b] == o[b - 1]);
            if at < b - 1 {
                assert(text_lt(o[at], o[b - 1]));
                lemma_text_lt_transitive(x, o[at], o[b - 1]);
            }
        } else {
            assert(n[a] == o[a - 1] && n[b] == o[b - 1]);
        }
    }
    assert(n[at] == x);
    assert forall|t: Text|
        #![trigger n.contains(t)]
        #![trigger o.contains(t)]
        n.contains(t) <==> (o.contains(t) || t == x) by {
        if n.contains(t) {
            let k = choose|k: int| 0 <= k < n.len() && n[k] == t;
            if k < at {
                assert(o[k] == t);
            } else if k > at {
                assert(o[k - 1] == t);
            }
        }
        if o.contains(t) {
            let k = choose|k: int| 0 <= k < o.len() && o[k] == t;
            if k < at {
                assert(n[k] == t);
            } else {
                assert(n[k + 1] == t);
            }
        }
        if t == x {
            assert(n[at] == t);
        }
    }
}

/// Puts `name` into the ordered list `list` unless it is there already.
fn insert_text(list: &mut Vec<String>, name: &str)
    requires
        ascending(texts(old(list)@)),
    ensures
        ascending(texts(final(list)@)),
        forall|t: Text|
            #![trigger texts(final(list)@).contains(t)]
            #![trigger texts(old(list)@).contains(t)]
            texts(final(list)@).contains(t) <==> (texts(old(list)@).contains(t) || t == name@),
        texts(final(list)@).contains(name@),
{
    let key = chars_of(name);
    let ghost o = texts(list@);
    let mut at: usize = 0;
    let mut found: bool = false;
    let mut stop: bool = false;
    while at < list.len() && !stop
        invariant
            at <= list.len(),
            list@ == old(list)@,
            o == texts(list@),
            key@ == name@,
            forall|j: int| 0 <= j < at ==> text_lt(#[trigger] o[j], key@),
            !stop ==> !found,
            stop ==> at < list.len(),
            stop && found ==> o[at as int] == key@,
            stop && !found ==> text_lt(key@, o[at as int]),
        decreases list.len() - at + (if stop { 0int } else { 1int }),
    {
        let cur = chars_of(list[at].as_str());
        assert(cur@ == o[at as int]);
        if text_less(&cur, &key) {
            at += 1;
        } else {
            found = !text_less(&key, &cur);
            stop = true;
            proof {
                lemma_text_lt_total(cur@, key@);
            }
        }
    }
    if found {
        assert(o[at as int] == name@);
        assert(o.contains(name@));
    } else {
        proof {
            lemma_insert_sorted(o, at as int, name@);
        }
        list.insert(at, String::from_str(name));
        assert(texts(list@) =~= o.insert(at as int, name@));
    }
}

/// Adds every name of `names` that is not blank to the vocabulary and
/// returns these names as an ordered list without repetition: the tag
/// links of a card with these names.
fn upsert_tags_and_link(vocabulary: &mut Vec<String>, names: &Vec<String>) -> (links: Vec<String>)
    requires
        ascending(texts(old(vocabulary)@)),
    ensures
        ascending(texts(final(vocabulary)@)),
        texts(final(vocabulary)@).to_set() == texts(old(vocabulary)@).to_set() + tag_set(
            texts(names@),
        ),
        ascending(texts(links@)),
        texts(links@).to_set() == tag_set(texts(names@)),
{
    let mut links: Vec<String> = Vec::new();
    let ghost all = texts(names@);
    let ghost before = texts(vocabulary@);
    let mut i: usize = 0;
    while i < names.len()
        invariant
            i <= names.len(),
            all == texts(names@),
            before == texts(old(vocabulary)@),
            ascending(texts(vocabulary@)),
            ascending(texts(links@)),
            forall|t: Text|
                #![trigger texts(links@).contains(t)]
                #![trigger all.take(i as int).contains(t)]
                texts(links@).contains(t) <==> (all.take(i as int).contains(t) && !blank(t)),
            forall|t: Text|
                #![trigger texts(vocabulary@).contains(t)]
                #![trigger before.contains(t)]
                #![trigger all.take(i as int).contains(t)]
                texts(vocabulary@).contains(t) <==> (before.contains(t) || (all.take(
                    i as int,
                ).contains(t) && !blank(t))),
        decreases names.len() - i,
    {
        let name = names[i].as_str();
        assert(all.take(i + 1) =~= all.take(i as int).push(name@));
        assert forall|t: Text|
            #![trigger all.take(i + 1).contains(t)]
            #![trigger all.take(i as int).contains(t)]
            all.take(i + 1).contains(t) <==> (all.take(i as int).contains(t) || t == name@) by {
            let longer = all.take(i + 1);
            let shorter = all.take(i as int);
            if longer.contains(t) {
                let k = choose|k: int| 0 <= k < longer.len() && longer[k] == t;
                if k < i {
                    assert(shorter[k] == t);
                }
            }
            if shorter.contains(t) {
                let k = choose|k: int| 0 <= k < shorter.len() && shorter[k] == t;
                assert(longer[k] == t);
            }
            if t == name@ {
                assert(longer[i as int] == t);
            }
        }
        if !is_blank(name) {
            insert_text(vocabulary, name);
            insert_text(&mut links, name);
        }
        i += 1;
    }
    proof {
        assert(all.take(names.len() as int) =~= all);
        assert forall|t: Text| texts(links@).to_set().contains(t) <==> tag_set(all).contains(
            t,
        ) by {
            assert(texts(links@).to_set().contains(t) <==> texts(links@).contains(t));
        }
        assert forall|t: Text|
            texts(vocabulary@).to_set().contains(t) <==> (before.to_set() + tag_set(all)).contains(
                t,
            ) by {
            assert(texts(vocabulary@).to_set().contains(t) <==> texts(vocabulary@).contains(t));
            assert(before.to_set().contains(t) <==> before.contains(t));
        }
        assert(texts(links@).to_set() =~= tag_set(all));
        assert(texts(vocabulary@).to_set() =~= before.to_set() + tag_set(all));
    }
    links
}

/// A row with a larger id than all others, put at the end, adds its
/// record to the map.
proof fn lemma_cards_push(rows: Seq<CardRow>, row: CardRow)
    requires
        ids_ascending(rows),
        forall|i: int| 0 <= i < rows.len() ==> (#[trigger] rows[i]).id < row.id,
    ensures
        ids_ascending(rows.push(row)),
        cards_of(rows.push(row)) == cards_of(rows).insert(row.id, row@),
{
    let n = rows.push(row);
    let m = cards_of(rows).insert(row.id, row@);
    assert(ids_ascending(n)) by {
        assert forall|i: int, j: int| 0 <= i < j < n.len() implies #[trigger] n[i].id
            < #[trigger] n[j].id by {
            if j < rows.len() {
                assert(n[i] == rows[i] && n[j] == rows[j]);
            } else {
                assert(n[i] == rows[i]);
            }
        }
    }
    assert forall|id: i64| cards_of(n).contains_key(id) <==> m.contains_key(id) by {
        if has_row(n, id) {
            let k = choose|k: int| 0 <= k < n.len() && #[trigger] n[k].id == id;
            if k < rows.len() {
                assert(rows[k].id == id);
            }
        }
        if has_row(rows, id) {
            let k = choose|k: int| 0 <= k < rows.len() && #[trigger] rows[k].id == id;
            assert(n[k].id == id);
        }
        if id == row.id {
            assert(n[rows.len() as int].id == id);
        }
    }
    assert forall|id: i64| cards_of(n).contains_key(id) implies cards_of(n)[id] == m[id] by {
        let k = row_index(n, id);
        lemma_cards_lookup(n, k);
        if k < rows.len() {
            assert(n[k] == rows[k]);
            lemma_cards_lookup(rows, k);
        }
    }
    assert(cards_of(n) =~= m);
}

/// A row put in the place of the row with the same id replaces its record
/// in the map.
proof fn lemma_cards_update(rows: Seq<CardRow>, at: int, row: CardRow)
    requires
        ids_ascending(rows),
        0 <= at < rows.len(),
        rows[at].id == row.id,
    ensures
        ids_ascending(rows.update(at, row)),
        cards_of(rows.update(at, row)) == cards_of(rows).insert(row.id, row@),
{
    let n = rows.update(at, row);
    let m = cards_of(rows).insert(row.id, row@);
    assert(ids_ascending(n)) by {
        assert forall|i: int, j: int| 0 <= i < j < n.len() implies #[trigger] n[i].id
            < #[trigger] n[j].id by {
            assert(n[i].id == rows[i].id && n[j].id == rows[j].id);
        }
    }
    assert forall|id: i64| cards_of(n).contains_key(id) <==> m.contains_key(id) by {
        if has_row(n, id) {
            let k = choose|k: int| 0 <= k < n.len() && #[trigger] n[k].id == id;
            assert(rows[k].id == id);
        }
        if has_row(rows, id) {
            let k = choose|k: int| 0 <= k < rows.len() && #[trigger] rows[k].id == id;
            assert(n[k].id == id);
        }
        if id == row.id {
            assert(n[at].id == id);
        }
    }
    assert forall|id: i64| cards_of(n).contains_key(id) implies cards_of(n)[id] == m[id] by {
        let k = row_index(n, id);
        lemma_cards_lookup(n, k);
        if k != at {
            assert(n[k] == rows[k]);
            lemma_cards_lookup(rows, k);
            lemma_cards_lookup(rows, at);
        }
    }
    assert(cards_of(n) =~= m);
}

/// Taking a row out takes its record out of the map.
proof fn lemma_cards_remove(rows: Seq<CardRow>, at: int)
    requires
        ids_ascending(rows),
        0 <= at < rows.len(),
    ensures
        ids_ascending(rows.remove(at)),
        cards_of(rows.remove(at)) == cards_of(rows).remove(rows[at].id),
{
    let n = rows.remove(at);
    let m = cards_of(rows).remove(rows[at].id);
    assert forall|k: int| 0 <= k < n.len() implies #[trigger] n[k] == rows[if k < at {
        k
    } else {
        k + 1
    }] by {}
    assert(ids_ascending(n)) by {
        assert forall|i: int, j: int| 0 <= i < j < n.len() implies #[trigger] n[i].id
            < #[trigger] n[j].id by {
            let oi = if i < at { i } else { i + 1 };
            let oj = if j < at { j } else { j + 1 };
            assert(n[i] == rows[oi] && n[j] == rows[oj]);
        }
    }
    assert forall|id: i64| cards_of(n).contains_key(id) <==> m.contains_key(id) by {
        if has_row(n, id) {
            let k = choose|k: int| 0 <= k < n.len() && #[trigger] n[k].id == id;
            let ok = if k < at { k } else { k + 1 };
            assert(rows[ok].id == id);
            if ok < at {
                assert(rows[ok].id < rows[at].id);
            } else {
                assert(rows[at].id < rows[ok].id);
            }
        }
        if has_row(rows, id) && id != rows[at].id {
            let k = choose|k: int| 0 <= k < rows.len() && #[trigger] rows[k].id == id;
            if k < at {
                assert(n[k].id == id);
            } else {
                assert(n[k - 1].id == id);
            }
        }
    }
    assert forall|id: i64| cards_of(n).contains_key(id) implies cards_of(n)[id] == m[id] by {
        let k = row_index(n, id);
        lemma_cards_lookup(n, k);
        let ok = if k < at { k } else { k + 1 };
        assert(n[k] == rows[ok]);
        lemma_cards_lookup(rows, ok);
    }
    assert(cards_of(n) =~= m);
}

/// The phones that a card gets from `inputs`: in the order submitted, with
/// ids counted up from `first`.
pub open spec fn new_phones(inputs: Seq<PhoneInputView>, first: int) -> Seq<PhoneView> {
    Seq::new(
        inputs.len(),
        |i: int|
            PhoneView { id: (first + i) as i64, label: inputs[i].label, number: inputs[i].number },
    )
}

/// The emails that a card gets from `inputs`: in the order submitted, with
/// ids counted up from `first`.
pub open spec fn new_emails(inputs: Seq<EmailInputView>, first: int) -> Seq<EmailView> {
    Seq::new(
        inputs.len(),
        |i: int|
            EmailView {
                id: (first + i) as i64,
                label: inputs[i].label,
                address: inputs[i].address,
            },
    )
}

/// The postal addresses that a card gets from `inputs`: in the order
/// submitted, with ids counted up from `first`.
pub open spec fn new_addresses(inputs: Seq<AddressInputView>, first: int) -> Seq<AddressView> {
    Seq::new(
        inputs.len(),
        |i: int|
            AddressView {
                id: (first + i) as i64,
                label: inputs[i].label,
                street: inputs[i].street,
                city: inputs[i].city,
                country: inputs[i].country,
                postal: inputs[i].postal,
            },
    )
}

/// Whether the store has the ids left that `input` needs: one for the
/// phones, emails and postal addresses each.
pub open spec fn has_child_room(v: StoreView, input: CardInputView) -> bool {
    &&& v.next_phone_id + input.phones.len() <= i64::MAX
    &&& v.next_email_id + input.emails.len() <= i64::MAX
    &&& v.next_address_id + input.addresses.len() <= i64::MAX
}

/// Whether the store has the ids left for a new card made from `input`.
pub open spec fn has_room(v: StoreView, input: CardInputView) -> bool {
    &&& v.next_card_id + 1 <= i64::MAX
    &&& has_child_room(v, input)
}

/// The record that `input` makes of a card, given the store it goes into,
/// the photo it keeps and its two times.
pub open spec fn record_from(
    v: StoreView,
    input: CardInputView,
    photo_path: Text,
    created_at: u64,
    updated_at: u64,
) -> CardRecord {
    CardRecord {
        name: input.name,
        title: input.title,
        company: input.company,
        website: input.website,
        notes: input.notes,
        photo_path,
        phones: new_phones(input.phones, v.next_phone_id),
        emails: new_emails(input.emails, v.next_email_id),
        addresses: new_addresses(input.addresses, v.next_address_id),
        tags: tag_set(input.tags),
        created_at,
        updated_at,
    }
}

/// The store with the vocabulary grown by the tags of `input` and the
/// counters moved past the ids that its children take.
pub open spec fn with_children_of(v: StoreView, input: CardInputView) -> StoreView {
    StoreView {
        cards: v.cards,
        tags: v.tags + tag_set(input.tags),
        next_card_id: v.next_card_id,
        next_phone_id: v.next_phone_id + input.phones.len(),
        next_email_id: v.next_email_id + input.emails.len(),
        next_address_id: v.next_address_id + input.addresses.len(),
    }
}

/// The store after a card was made from `input` at the time `now`: the
/// card has the next id, no photo, and `now` as both of its times.
pub open spec fn created(v: StoreView, input: CardInputView, now: u64) -> StoreView {
    StoreView {
        cards: v.cards.insert(
            v.next_card_id as i64,
            record_from(v, input, Seq::<char>::empty(), now, now),
        ),
        next_card_id: v.next_card_id + 1,
        ..with_children_of(v, input)
    }
}

/// A record that fits a store fits every store with larger counters and a
/// larger vocabulary.
pub proof fn lemma_record_ok_grows(rec: CardRecord, v: StoreView, w: StoreView)
    requires
        record_ok(rec, v),
        v.next_phone_id <= w.next_phone_id,
        v.next_email_id <= w.next_email_id,
        v.next_address_id <= w.next_address_id,
        v.tags.subset_of(w.tags),
    ensures
        record_ok(rec, w),
{
}

/// The record made from an input fits the store that has taken it in.
pub proof fn lemma_record_from_ok(
    v: StoreView,
    input: CardInputView,
    photo_path: Text,
    created_at: u64,
    updated_at: u64,
)
    requires
        v.inv(),
        has_child_room(v, input),
    ensures
        record_ok(
            record_from(v, input, photo_path, created_at, updated_at),
            with_children_of(v, input),
        ),
        tag_set(input.tags).finite(),
{
    vstd::seq_lib::seq_to_set_is_finite(input.tags);
    assert(tag_set(input.tags).subset_of(input.tags.to_set()));
    vstd::set_lib::lemma_len_subset(tag_set(input.tags), input.tags.to_set());
}

/// Whether `n` more ids can be handed out from `next` on.
fn fits(next: i64, n: usize) -> (r: bool)
    requires
        1 <= next,
    ensures
        r == (next + n <= i64::MAX),
{
    (n as u64) <= ((i64::MAX - next) as u64)
}

/// The phones of a card, made from what was submitted.
fn build_phones(inputs: &Vec<CardFormPhoneInput>, first: i64) -> (r: Vec<Phone>)
    requires
        1 <= first,
        first + inputs.len() <= i64::MAX,
    ensures
        phone_views(r@) == new_phones(phone_input_views(inputs@), first as int),
{
    let mut r: Vec<Phone> = Vec::new();
    let mut i: usize = 0;
    while i < inputs.len()
        invariant
            i <= inputs.len(),
            first + inputs.len() <= i64::MAX,
            1 <= first,
            r.len() == i,
            forall|k: int|
                0 <= k < i ==> (#[trigger] r[k])@ == new_phones(
                    phone_input_views(inputs@),
                    first as int,
                )[k],
        decreases inputs.len() - i,
    {
        let p = &inputs[i];
        r.push(Phone { id: first + (i as i64), label: p.label.clone(), number: p.number.clone() });
        i += 1;
    }
    assert(phone_views(r@) =~= new_phones(phone_input_views(inputs@), first as int));
    r
}

/// The emails of a card, made from what was submitted.
fn build_emails(inputs: &Vec<CardFormEmailInput>, first: i64) -> (r: Vec<Email>)
    requires
        1 <= first,
        first + inputs.len() <= i64::MAX,
    ensures
        email_views(r@) == new_emails(email_input_views(inputs@), first as int),
{
    let mut r: Vec<Email> = Vec::new();
    let mut i: usize = 0;
    while i < inputs.len()
        invariant
            i <= inputs.len(),
            first + inputs.len() <= i64::MAX,
            1 <= first,
            r.len() == i,
            forall|k: int|
                0 <= k < i ==> (#[trigger] r[k])@ == new_emails(
                    email_input_views(inputs@),
                    first as int,
                )[k],
        decreases inputs.len() - i,
    {
        let e = &inputs[i];
        r.push(
            Email { id: first + (i as i64), label: e.label.clone(), address: e.address.clone() },
        );
        i += 1;
    }
    assert(email_views(r@) =~= new_emails(email_input_views(inputs@), first as int));
    r
}

/// The postal addresses of a card, made from what was submitted.
fn build_addresses(inputs: &Vec<CardFormAddressInput>, first: i64) -> (r: Vec<Address>)
    requires
        1 <= first,
        first + inputs.len() <= i64::MAX,
    ensures
        address_views(r@) == new_addresses(address_input_views(inputs@), first as int),
{
    let mut r: Vec<Address> = Vec::new();
    let mut i: usize = 0;
    while i < inputs.len()
        invariant
            i <= inputs.len(),
            first + inputs.len() <= i64::MAX,
            1 <= first,
            r.len() == i,
            forall|k: int|
                0 <= k < i ==> (#[trigger] r[k])@ == new_addresses(
                    address_input_views(inputs@),
                    first as int,
                )[k],
        decreases inputs.len() - i,
    {
        let a = &inputs[i];
        r.push(
            Address {
                id: first + (i as i64),
                label: a.label.clone(),
                street: a.street.clone(),
                city: a.city.clone(),
                country: a.country.clone(),
                postal: a.postal.clone(),
            },
        );
        i += 1;
    }
    assert(address_views(r@) =~= new_addresses(address_input_views(inputs@), first as int));
    r
}

/// Makes a card from `input` at the time `now` and returns its id.
///
/// A blank name is refused, and so is an input for which the ids have run
/// out; either way the store stays as it was. Otherwise the card gets the
/// next id, its phones, emails and postal addresses get the next ids of
/// their kind in the order submitted, and it is linked to every tag among
/// `input.tags` that is not blank, each of which joins the vocabulary.
pub fn create_card(store: &mut Store, input: &CardInput, now: u64) -> (r: Result<i64, StoreError>)
    requires
        old(store).wf(),
    ensures
        final(store).wf(),
        match r {
            Ok(id) => {
                &&& !blank(input@.name)
                &&& has_room(old(store)@, input@)
                &&& id == old(store)@.next_card_id
                &&& final(store)@ == created(old(store)@, input@, now)
            },
            Err(e) => {
                &&& final(store)@ == old(store)@
                &&& if blank(input@.name) {
                    e == StoreError::Validation(Rule::NameRequired)
                } else {
                    !has_room(old(store)@, input@) && e == StoreError::Storage
                }
            },
        },
{
    if is_blank(input.name.as_str()) {
        return Err(StoreError::Validation(Rule::NameRequired));
    }
    if store.next_card_id == i64::MAX || !fits(store.next_phone_id, input.phones.len()) || !fits(
        store.next_email_id,
        input.emails.len(),
    ) || !fits(store.next_address_id, input.addresses.len()) {
        return Err(StoreError::Storage);
    }
    let ghost before = store@;
    let ghost old_rows = store.rows@;
    let id = store.next_card_id;
    let links = upsert_tags_and_link(&mut store.tags, &input.tags);
    let row = CardRow {
        id,
        name: input.name.clone(),
        title: input.title.clone(),
        company: input.company.clone(),
        website: input.website.clone(),
        notes: input.notes.clone(),
        photo_path: String::new(),
        phones: build_phones(&input.phones, store.next_phone_id),
        emails: build_emails(&input.emails, store.next_email_id),
        addresses: build_addresses(&input.addresses, store.next_address_id),
        tags: links,
        created_at: now,
        updated_at: now,
    };
    proof {
        assert(row@ == record_from(before, input@, Seq::<char>::empty(), now, now));
        assert forall|i: int| 0 <= i < old_rows.len() implies (#[trigger] old_rows[i]).id
            < row.id by {
            lemma_cards_lookup(old_rows, i);
        }
        lemma_cards_push(old_rows, row);
        lemma_record_from_ok(before, input@, Seq::<char>::empty(), now, now);
    }
    store.rows.push(row);
    store.next_card_id = id + 1;
    store.next_phone_id = store.next_phone_id + (input.phones.len() as i64);
    store.next_email_id = store.next_email_id + (input.emails.len() as i64);
    store.next_address_id = store.next_address_id + (input.addresses.len() as i64);
    proof {
        let after = store@;
        assert(after.tags == before.tags + tag_set(input@.tags));
        assert(after == created(before, input@, now));
        vstd::seq_lib::seq_to_set_is_finite(texts(store.tags@));
        assert forall|k: i64| #[trigger] after.cards.contains_key(k) implies 1 <= k
            < after.next_card_id && record_ok(after.cards[k], after) by {
            if k != id {
                lemma_record_ok_grows(before.cards[k], before, with_children_of(before, input@));
            }
        }
        assert forall|i: int| 0 <= i < store.rows.len() implies ascending(
            texts(#[trigger] store.rows[i].tags@),
        ) by {
            if i < old_rows.len() {
                assert(store.rows[i] == old_rows[i]);
            }
        }
    }
    Ok(id)
}

/// The store after the card `id` was replaced by what `input` holds at
/// the time `now`: the card keeps its id, its photo and the time it was
/// made; its phones, emails and postal addresses are new ones with new
/// ids, and its tag links are those of `input` and no others.
pub open spec fn updated(v: StoreView, id: i64, input: CardInputView, now: u64) -> StoreView {
    StoreView {
        cards: v.cards.insert(
            id,
            record_from(v, input, v.cards[id].photo_path, v.cards[id].created_at, now),
        ),
        ..with_children_of(v, input)
    }
}

/// The store without the card `id`. The vocabulary and the counters stay.
pub open spec fn deleted(v: StoreView, id: i64) -> StoreView {
    StoreView { cards: v.cards.remove(id), ..v }
}

/// The store after the card `id` got the photo path `path` at the time
/// `now`.
pub open spec fn with_photo(v: StoreView, id: i64, path: Text, now: u64) -> StoreView {
    StoreView {
        cards: v.cards.insert(
            id,
            CardRecord { photo_path: path, updated_at: now, ..v.cards[id] },
        ),
        ..v
    }
}

/// Whether the store holds no card.
pub fn is_empty(store: &Store) -> (r: bool)
    requires
        store.wf(),
    ensures
        r <==> forall|id: i64| !store@.cards.contains_key(id),
{
    if store.rows.len() == 0 {
        true
    } else {
        proof {
            lemma_cards_lookup(store.rows@, 0);
        }
        false
    }
}

/// Replaces the card `id` by what `input` holds, at the time `now`.
///
/// Fails with `NotFound` where the store holds no such card, else with a
/// validation error where the name is blank, else with a storage error
/// where the ids have run out; then the store stays as it was.
pub fn update_card(store: &mut Store, id: i64, input: &CardInput, now: u64) -> (r: Result<
    (),
    StoreError,
>)
    requires
        old(store).wf(),
    ensures
        final(store).wf(),
        match r {
            Ok(_) => {
                &&& old(store)@.cards.contains_key(id)
                &&& !blank(input@.name)
                &&& has_child_room(old(store)@, input@)
                &&& final(store)@ == updated(old(store)@, id, input@, now)
            },
            Err(e) => {
                &&& final(store)@ == old(store)@
                &&& if !old(store)@.cards.contains_key(id) {
                    e == StoreError::NotFound
                } else if blank(input@.name) {
                    e == StoreError::Validation(Rule::NameRequired)
                } else {
                    !has_child_room(old(store)@, input@) && e == StoreError::Storage
                }
            },
        },
{
    let at = match store.find(id) {
        Some(at) => at,
        None => {
            return Err(StoreError::NotFound);
        },
    };
    if is_blank(input.name.as_str()) {
        return Err(StoreError::Validation(Rule::NameRequired));
    }
    if !fits(store.next_phone_id, input.phones.len()) || !fits(
        store.next_email_id,
        input.emails.len(),
    ) || !fits(store.next_address_id, input.addresses.len()) {
        return Err(StoreError::Storage);
    }
    let ghost before = store@;
    let ghost old_rows = store.rows@;
    let links = upsert_tags_and_link(&mut store.tags, &input.tags);
    let row = CardRow {
        id,
        name: input.name.clone(),
        title: input.title.clone(),
        company: input.company.clone(),
        website: input.website.clone(),
        notes: input.notes.clone(),
        photo_path: store.rows[at].photo_path.clone(),
        phones: build_phones(&input.phones, store.next_phone_id),
        emails: build_emails(&input.emails, store.next_email_id),
        addresses: build_addresses(&input.addresses, store.next_address_id),
        tags: links,
        created_at: store.rows[at].created_at,
        updated_at: now,
    };
    proof {
        assert(row@ == record_from(
            before,
            input@,
            before.cards[id].photo_path,
            before.cards[id].created_at,
            now,
        ));
        lemma_cards_update(old_rows, at as int, row);
        lemma_record_from_ok(
            before,
            input@,
            before.cards[id].photo_path,
            before.cards[id].created_at,
            now,
        );
    }
    store.rows.set(at, row);
    store.next_phone_id = store.next_phone_id + (input.phones.len() as i64);
    store.next_email_id = store.next_email_id + (input.emails.len() as i64);
    store.next_address_id = store.next_address_id + (input.addresses.len() as i64);
    proof {
        let after = store@;
        assert(after.tags == before.tags + tag_set(input@.tags));
        assert(after == updated(before, id, input@, now));
        vstd::seq_lib::seq_to_set_is_finite(texts(store.tags@));
        assert forall|k: i64| #[trigger] after.cards.contains_key(k) implies 1 <= k
            < after.next_card_id && record_ok(after.cards[k], after) by {
            if k != id {
                lemma_record_ok_grows(before.cards[k], before, with_children_of(before, input@));
            }
        }
        assert forall|i: int| 0 <= i < store.rows.len() implies ascending(
            texts(#[trigger] store.rows[i].tags@),
        ) by {
            if i != at {
                assert(store.rows[i] == old_rows[i]);
            }
        }
    }
    Ok(())
}

/// Takes the card `id` out of the store, with its phones, emails, postal
/// addresses and tag links, and returns the path of its photo (empty where
/// it had none), for the caller to remove the file. Returns `None`, and
/// changes nothing, where the store holds no such card.
pub fn delete_card(store: &mut Store, id: i64) -> (r: Option<String>)
    requires
        old(store).wf(),
    ensures
        final(store).wf(),
        match r {
            Some(path) => {
                &&& old(store)@.cards.contains_key(id)
                &&& path@ == old(store)@.cards[id].photo_path
                &&& final(store)@ == deleted(old(store)@, id)
            },
            None => !old(store)@.cards.contains_key(id) && final(store)@ == old(store)@,
        },
{
    let at = match store.find(id) {
        Some(at) => at,
        None => {
            return None;
        },
    };
    let ghost before = store@;
    let ghost old_rows = store.rows@;
    proof {
        lemma_cards_remove(old_rows, at as int);
    }
    let row = store.rows.remove(at);
    proof {
        let after = store@;
        assert(after == deleted(before, id));
        assert forall|i: int| 0 <= i < store.rows.len() implies ascending(
            texts(#[trigger] store.rows[i].tags@),
        ) by {
            let oi = if i < at { i } else { i + 1 };
            assert(store.rows[i] == old_rows[oi]);
        }
    }
    Some(row.photo_path)
}

impl Store {
    /// Gives the row at `at` the photo path `path` and the time `now`.
    fn set_photo(&mut self, at: usize, path: String, now: u64)
        requires
            old(self).wf(),
            at < old(self).rows.len(),
        ensures
            final(self).wf(),
            final(self)@ == with_photo(old(self)@, old(self).rows[at as int].id, path@, now),
    {
        let ghost before = self@;
        let ghost old_rows = self.rows@;
        let ghost id = old_rows[at as int].id;
        proof {
            lemma_cards_lookup(old_rows, at as int);
        }
        let mut row = self.rows.remove(at);
        row.photo_path = path;
        row.updated_at = now;
        proof {
            assert(row@ == CardRecord { photo_path: path@, updated_at: now, ..before.cards[id] });
            lemma_cards_update(old_rows, at as int, row);
        }
        self.rows.insert(at, row);
        proof {
            assert(self.rows@ =~= old_rows.update(at as int, row));
            let after = self@;
            assert(after == with_photo(before, id, path@, now));
            assert forall|k: i64| #[trigger] after.cards.contains_key(k) implies 1 <= k
                < after.next_card_id && record_ok(after.cards[k], after) by {
                if k != id {
                    lemma_record_ok_grows(before.cards[k], before, after);
                } else {
                    assert(record_ok(before.cards[id], before));
                }
            }
            assert forall|i: int| 0 <= i < self.rows.len() implies ascending(
                texts(#[trigger] self.rows[i].tags@),
            ) by {
                assert(self.rows[i].tags == old_rows[i].tags);
            }
        }
    }
}

/// Records `path` as the photo of the card `id`, at the time `now`. The
/// file must have been written before. Fails with `NotFound`, and changes
/// nothing, where the store holds no such card.
pub fn update_card_photo(store: &mut Store, id: i64, path: &str, now: u64) -> (r: Result<
    (),
    StoreError,
>)
    requires
        old(store).wf(),
    ensures
        final(store).wf(),
        match r {
            Ok(_) => {
                &&& old(store)@.cards.contains_key(id)
                &&& final(store)@ == with_photo(old(store)@, id, path@, now)
            },
            Err(e) => {
                &&& !old(store)@.cards.contains_key(id)
                &&& e == StoreError::NotFound
                &&& final(store)@ == old(store)@
            },
        },
{
    match store.find(id) {
        Some(at) => {
            store.set_photo(at, String::from_str(path), now);
            Ok(())
        },
        None => Err(StoreError::NotFound),
    }
}

/// Clears the photo of the card `id`, at the time `now`, and returns the
/// path that it had (empty where it had none), for the caller to remove
/// the file. Returns `None`, and changes nothing, where the store holds no
/// such card.
pub fn delete_card_photo(store: &mut Store, id: i64, now: u64) -> (r: Option<String>)
    requires
        old(store).wf(),
    ensures
        final(store).wf(),
        match r {
            Some(path) => {
                &&& old(store)@.cards.contains_key(id)
                &&& path@ == old(store)@.cards[id].photo_path
                &&& final(store)@ == with_photo(old(store)@, id, Seq::<char>::empty(), now)
            },
            None => !old(store)@.cards.contains_key(id) && final(store)@ == old(store)@,
        },
{
    match store.find(id) {
        Some(at) => {
            let path = store.rows[at].photo_path.clone();
            store.set_photo(at, String::new(), now);
            Some(path)
        },
        None => None,
    }
}

/// A card put into its place in an ordered listing keeps the order.
proof fn lemma_insert_ordered(o: Seq<CardView>, at: int, x: CardView)
    requires
        ordered(o),
        0 <= at <= o.len(),
        forall|j: int| 0 <= j < at ==> comes_before(#[trigger] o[j], x),
        at < o.len() ==> comes_before(x, o[at]),
    ensures
        ordered(o.insert(at, x)),
{
    let n = o.insert(at, x);
    assert forall|a: int, b: int| 0 <= a < b < n.len() implies comes_before(
        #[trigger] n[a],
        #[trigger] n[b],
    ) by {
        if b < at {
            assert(n[a] == o[a] && n[b] == o[b]);
        } else if b == at {
            assert(n[a] == o[a]);
        } else if a < at {
            assert(n[a] == o[a] && n[b] == o[b - 1]);
            if at < b - 1 {
                assert(comes_before(o[at], o[b - 1]));
            }
        } else if a == at {
            assert(n[b] == o[b - 1]);
            if at < b - 1 {
                assert(comes_before(o[at], o[b - 1]));
            }
        } else {
            assert(n[a] == o[a - 1] && n[b] == o[b - 1]);
        }
    }
}

/// The cards that the text `q` and the tag `tag` select, each with all
/// that belongs to it, the card changed last first.
///
/// A text selects the cards in whose name, company or email addresses it
/// is found as a substring, without regard to ASCII case; a tag selects
/// the cards linked to it under exactly that name; the two together select
/// the cards that both select; neither selects every card.
pub fn list_cards(store: &Store, q: Option<&str>, tag: Option<&str>) -> (cards: Vec<Card>)
    requires
        store.wf(),
    ensures
        is_listing(store@, str_view(q), str_view(tag), card_views(cards@)),
{
    let needle: Option<Vec<char>> = match q {
        Some(text) => Some(chars_of(text)),
        None => None,
    };
    let wanted: Option<String> = match tag {
        Some(name) => Some(String::from_str(name)),
        None => None,
    };
    let ghost v = store@;
    let ghost qv = str_view(q);
    let ghost tv = str_view(tag);
    let mut cards: Vec<Card> = Vec::new();
    let mut i: usize = 0;
    while i < store.rows.len()
        invariant
            store.wf(),
            v == store@,
            i <= store.rows.len(),
            needle_view(needle) == qv,
            string_view(wanted) == tv,
            ordered(card_views(cards@)),
            forall|k: int|
                0 <= k < cards.len() ==> {
                    let id = (#[trigger] card_views(cards@)[k]).id;
                    &&& v.cards.contains_key(id)
                    &&& hydrates(card_views(cards@)[k], id, v.cards[id])
                    &&& selected(v.cards[id], qv, tv)
                    &&& i < store.rows.len() ==> id < store.rows[i as int].id
                },
            forall|j: int|
                0 <= j < i && selected((#[trigger] store.rows[j])@, qv, tv) ==> exists|k: int|
                    0 <= k < cards.len() && (#[trigger] card_views(cards@)[k]).id
                        == store.rows[j].id,
        decreases store.rows.len() - i,
    {
        let row = &store.rows[i];
        proof {
            lemma_cards_lookup(store.rows@, i as int);
            if i + 1 < store.rows.len() {
                assert(store.rows[i as int].id < store.rows[i + 1].id);
            }
        }
        if row_matches(row, &needle, &wanted) {
            let card = hydrate(row);
            let ghost o = card_views(cards@);
            let mut at: usize = 0;
            while at < cards.len() && (cards[at].updated_at > card.updated_at || (
            cards[at].updated_at == card.updated_at && cards[at].id > card.id))
                invariant
                    at <= cards.len(),
                    o == card_views(cards@),
                    forall|j: int| 0 <= j < at ==> comes_before(#[trigger] o[j], card@),
                decreases cards.len() - at,
            {
                assert(o[at as int] == cards[at as int]@);
                at += 1;
            }
            proof {
                if at < cards.len() {
                    assert(o[at as int] == cards[at as int]@);
                    assert(o[at as int].id < card.id);
                }
                lemma_insert_ordered(o, at as int, card@);
            }
            cards.insert(at, card);
            proof {
                let n = card_views(cards@);
                assert(n =~= o.insert(at as int, card@));
                assert forall|j: int|
                    0 <= j < i + 1 && selected(
                        (#[trigger] store.rows[j])@,
                        qv,
                        tv,
                    ) implies exists|k: int|
                    0 <= k < cards.len() && (#[trigger] card_views(cards@)[k]).id
                        == store.rows[j].id by {
                    if j < i {
                        let k = choose|k: int|
                            0 <= k < o.len() && (#[trigger] o[k]).id == store.rows[j].id;
                        if k < at {
                            assert(n[k].id == store.rows[j].id);
                        } else {
                            assert(n[k + 1].id == store.rows[j].id);
                        }
                    } else {
                        assert(n[at as int].id == store.rows[j].id);
                    }
                }
                assert forall|k: int| 0 <= k < cards.len() implies {
                    let id = (#[trigger] card_views(cards@)[k]).id;
                    &&& v.cards.contains_key(id)
                    &&& hydrates(card_views(cards@)[k], id, v.cards[id])
                    &&& selected(v.cards[id], qv, tv)
                    &&& i + 1 < store.rows.len() ==> id < store.rows[i + 1].id
                } by {
                    if k < at {
                        assert(n[k] == o[k]);
                    } else if k > at {
                        assert(n[k] == o[k - 1]);
                    }
                }
            }
        }
        i += 1;
    }
    proof {
        assert forall|id: i64|
            #![trigger v.cards.contains_key(id)]
            v.cards.contains_key(id) && selected(v.cards[id], qv, tv) implies exists|k: int|
            0 <= k < cards.len() && (#[trigger] card_views(cards@)[k]).id == id by {
            let j = row_index(store.rows@, id);
            lemma_cards_lookup(store.rows@, j);
        }
    }
    cards
}

/// The ids of the cards that are linked to the tag `tag`.
pub open spec fn linked_cards(cards: Map<i64, CardRecord>, tag: Text) -> Set<i64> {
    Set::new(|id: i64| cards.contains_key(id) && cards[id].tags.contains(tag))
}

/// Whether `report` is the tag report of the store `v`: it names every
/// tag of the vocabulary, each once and in alphabetical order, with the
/// number of cards linked to it, which may be zero.
pub open spec fn is_tag_report(v: StoreView, report: Seq<TagCountView>) -> bool {
    &&& lists_sorted(report_names(report), v.tags)
    &&& forall|k: int|
        0 <= k < report.len() ==> (#[trigger] report[k]).count == linked_cards(
            v.cards,
            report[k].name,
        ).len()
}

/// The number of rows that are linked to the tag `tag`.
pub open spec fn count_tagged(rows: Seq<CardRow>, tag: Text) -> nat
    decreases rows.len(),
{
    if rows.len() == 0 {
        0
    } else {
        count_tagged(rows.drop_last(), tag) + if rows.last()@.tags.contains(tag) {
            1nat
        } else {
            0nat
        }
    }
}

/// Counting the rows linked to a tag counts the cards linked to it.
proof fn lemma_count_tagged(rows: Seq<CardRow>, tag: Text)
    requires
        ids_ascending(rows),
    ensures
        linked_cards(cards_of(rows), tag).finite(),
        linked_cards(cards_of(rows), tag).len() == count_tagged(rows, tag),
        count_tagged(rows, tag) <= rows.len(),
    decreases rows.len(),
{
    if rows.len() == 0 {
        assert(linked_cards(cards_of(rows), tag) =~= Set::<i64>::empty());
    } else {
        let r = rows.drop_last();
        let last = rows.last();
        assert forall|i: int, j: int| 0 <= i < j < r.len() implies #[trigger] r[i].id
            < #[trigger] r[j].id by {
            assert(r[i] == rows[i] && r[j] == rows[j]);
        }
        lemma_count_tagged(r, tag);
        assert(rows =~= r.push(last));
        assert forall|i: int| 0 <= i < r.len() implies (#[trigger] r[i]).id < last.id by {
            assert(r[i] == rows[i]);
        }
        lemma_cards_push(r, last);
        let s0 = linked_cards(cards_of(r), tag);
        let s1 = linked_cards(cards_of(rows), tag);
        assert(!cards_of(r).contains_key(last.id)) by {
            if has_row(r, last.id) {
                let k = choose|k: int| 0 <= k < r.len() && #[trigger] r[k].id == last.id;
                assert(r[k].id < last.id);
            }
        }
        if last@.tags.contains(tag) {
            assert(s1 =~= s0.insert(last.id));
        } else {
            assert(s1 =~= s0);
        }
    }
}

/// In rows ordered by id, of which the first is at least 1, the id of a
/// row is larger than the number of rows before it.
proof fn lemma_id_bound(rows: Seq<CardRow>, i: int)
    requires
        ids_ascending(rows),
        0 <= i < rows.len(),
        rows[0].id >= 1,
    ensures
        rows[i].id >= i + 1,
    decreases i,
{
    if i > 0 {
        lemma_id_bound(rows, i - 1);
        assert(rows[i - 1].id < rows[i].id);
    }
}

/// Every tag of the vocabulary, in alphabetical order, with the number of
/// cards linked to it. A tag that no card is linked to is shown with the
/// count zero.
pub fn list_tags(store: &Store) -> (report: Vec<TagCount>)
    requires
        store.wf(),
    ensures
        is_tag_report(store@, tag_count_views(report@)),
{
    let ghost v = store@;
    let ghost names = texts(store.tags@);
    let mut report: Vec<TagCount> = Vec::new();
    proof {
        if store.rows.len() > 0 {
            lemma_cards_lookup(store.rows@, 0);
            lemma_id_bound(store.rows@, store.rows.len() - 1);
        }
    }
    let mut i: usize = 0;
    while i < store.tags.len()
        invariant
            store.wf(),
            v == store@,
            names == texts(store.tags@),
            store.rows.len() <= i64::MAX,
            i <= store.tags.len(),
            report.len() == i,
            report_names(tag_count_views(report@)) == names.take(i as int),
            forall|k: int|
                0 <= k < i ==> (#[trigger] tag_count_views(report@)[k]).count == linked_cards(
                    v.cards,
                    tag_count_views(report@)[k].name,
                ).len(),
        decreases store.tags.len() - i,
    {
        let name = &store.tags[i];
        let mut count: i64 = 0;
        let mut j: usize = 0;
        while j < store.rows.len()
            invariant
                j <= store.rows.len(),
                store.rows.len() <= i64::MAX,
                count == count_tagged(store.rows@.take(j as int), name@),
                0 <= count <= j,
            decreases store.rows.len() - j,
        {
            assert(store.rows@.take(j + 1).drop_last() =~= store.rows@.take(j as int));
            if row_tagged(&store.rows[j], name) {
                count += 1;
            }
            j += 1;
        }
        proof {
            assert(store.rows@.take(store.rows.len() as int) =~= store.rows@);
            lemma_count_tagged(store.rows@, name@);
        }
        let ghost before = tag_count_views(report@);
        report.push(TagCount { name: name.clone(), count });
        proof {
            let after = tag_count_views(report@);
            assert(after =~= before.push(TagCountView { name: name@, count }));
            assert(report_names(after) =~= names.take(i + 1));
            assert forall|k: int| 0 <= k < i + 1 implies (#[trigger] after[k]).count
                == linked_cards(v.cards, after[k].name).len() by {
                if k < i {
                    assert(after[k] == before[k]);
                }
            }
        }
        i += 1;
    }
    proof {
        assert(names.take(store.tags.len() as int) =~= names);
        assert forall|a: int, b: int| 0 <= a < b < names.len() implies text_lt(
            #[trigger] names[a],
            #[trigger] names[b],
        ) by {}
    }
    report
}

/// Why a card cannot be made from `input`, if it cannot: its name is
/// blank, or the ids have run out.
pub open spec fn creation_error(v: StoreView, input: CardInputView) -> Option<StoreError> {
    if blank(input.name) {
        Some(StoreError::Validation(Rule::NameRequired))
    } else if !has_room(v, input) {
        Some(StoreError::Storage)
    } else {
        None
    }
}

/// The store after a card was made from each of `inputs`, in their order.
pub open spec fn created_all(v: StoreView, inputs: Seq<CardInputView>, now: u64) -> StoreView
    decreases inputs.len(),
{
    if inputs.len() == 0 {
        v
    } else {
        created(created_all(v, inputs.drop_last(), now), inputs.last(), now)
    }
}

/// Makes a card from each of `inputs`, in their order, at the time `now`.
/// Stops at the first input from which no card can be made: the cards made
/// until then stay.
pub fn create_all(store: &mut Store, inputs: &Vec<CardInput>, now: u64) -> (r: Result<
    (),
    StoreError,
>)
    requires
        old(store).wf(),
    ensures
        final(store).wf(),
        match r {
            Ok(_) => final(store)@ == created_all(old(store)@, card_input_views(inputs@), now),
            Err(e) => exists|k: int|
                {
                    &&& 0 <= k < inputs.len()
                    &&& final(store)@ == created_all(
                        old(store)@,
                        #[trigger] card_input_views(inputs@).take(k),
                        now,
                    )
                    &&& creation_error(final(store)@, card_input_views(inputs@)[k]) == Some(e)
                },
        },
{
    let ghost all = card_input_views(inputs@);
    let mut i: usize = 0;
    while i < inputs.len()
        invariant
            store.wf(),
            i <= inputs.len(),
            all == card_input_views(inputs@),
            store@ == created_all(old(store)@, all.take(i as int), now),
        decreases inputs.len() - i,
    {
        let ghost before = store@;
        match create_card(store, &inputs[i], now) {
            Ok(_) => {
                assert(all.take(i + 1).drop_last() =~= all.take(i as int));
                assert(all.take(i + 1).last() == inputs[i as int]@);
            },
            Err(e) => {
                assert(creation_error(before, all[i as int]) == Some(e));
                return Err(e);
            },
        }
        i += 1;
    }
    assert(all.take(inputs.len() as int) =~= all);
    Ok(())
}

/// Whether a row fits a store with the vocabulary `tags` and the given
/// counters: its ids are positive and below the counters, the ids within a
/// collection ascend, and its tags stand in alphabetical order and belong
/// to the vocabulary.
pub open spec fn row_ok(
    row: CardRow,
    tags: Seq<String>,
    next_card_id: i64,
    next_phone_id: i64,
    next_email_id: i64,
    next_address_id: i64,
) -> bool {
    &&& 1 <= row.id < next_card_id
    &&& child_ids_ok(phone_ids(phone_views(row.phones@)), next_phone_id as int)
    &&& child_ids_ok(email_ids(email_views(row.emails@)), next_email_id as int)
    &&& child_ids_ok(address_ids(address_views(row.addresses@)), next_address_id as int)
    &&& ascending(texts(row.tags@))
    &&& forall|k: int|
        0 <= k < row.tags.len() ==> texts(tags).contains(#[trigger] texts(row.tags@)[k])
}

/// Whether rows, a vocabulary and four counters make up a store: the
/// counters are positive, the vocabulary stands in alphabetical order and
/// holds no blank name, the rows stand in order of id, and every row fits.
pub open spec fn parts_ok(
    rows: Seq<CardRow>,
    tags: Seq<String>,
    next_card_id: i64,
    next_phone_id: i64,
    next_email_id: i64,
    next_address_id: i64,
) -> bool {
    &&& 1 <= next_card_id
    &&& 1 <= next_phone_id
    &&& 1 <= next_email_id
    &&& 1 <= next_address_id
    &&& ascending(texts(tags))
    &&& forall|i: int| 0 <= i < tags.len() ==> !blank(#[trigger] texts(tags)[i])
    &&& ids_ascending(rows)
    &&& forall|i: int|
        0 <= i < rows.len() ==> row_ok(
            #[trigger] rows[i],
            tags,
            next_card_id,
            next_phone_id,
            next_email_id,
            next_address_id,
        )
}

/// Tests whether the ids of `ids` ascend and lie from 1 up to, not
/// including, `next`.
fn ids_ok(ids: &Vec<i64>, next: i64) -> (r: bool)
    ensures
        r == child_ids_ok(ids@, next as int),
{
    let mut i: usize = 0;
    while i < ids.len()
        invariant
            i <= ids.len(),
            child_ids_ok(ids@.take(i as int), next as int),
        decreases ids.len() - i,
    {
        let id = ids[i];
        if id < 1 || id >= next {
            return false;
        }
        if i > 0 && ids[i - 1] >= id {
            return false;
        }
        proof {
            let longer = ids@.take(i + 1);
            let shorter = ids@.take(i as int);
            assert forall|a: int, b: int| 0 <= a < b < longer.len() implies #[trigger] longer[a]
                < #[trigger] longer[b] by {
                if b < i {
                    assert(shorter[a] < shorter[b]);
                } else if a < i - 1 {
                    assert(shorter[a] < shorter[i - 1]);
                }
            }
        }
        i += 1;
    }
    assert(ids@.take(ids.len() as int) =~= ids@);
    true
}

/// The ids of a list of phones.
fn ids_of_phones(v: &Vec<Phone>) -> (ids: Vec<i64>)
    ensures
        ids@ == phone_ids(phone_views(v@)),
{
    let mut ids: Vec<i64> = Vec::new();
    let mut i: usize = 0;
    while i < v.len()
        invariant
            i <= v.len(),
            ids@ == phone_ids(phone_views(v@)).take(i as int),
        decreases v.len() - i,
    {
        ids.push(v[i].id);
        assert(ids@ =~= phone_ids(phone_views(v@)).take(i + 1));
        i += 1;
    }
    assert(ids@ =~= phone_ids(phone_views(v@)));
    ids
}

/// The ids of a list of emails.
fn ids_of_emails(v: &Vec<Email>) -> (ids: Vec<i64>)
    ensures
        ids@ == email_ids(email_views(v@)),
{
    let mut ids: Vec<i64> = Vec::new();
    let mut i: usize = 0;
    while i < v.len()
        invariant
            i <= v.len(),
            ids@ == email_ids(email_views(v@)).take(i as int),
        decreases v.len() - i,
    {
        ids.push(v[i].id);
        assert(ids@ =~= email_ids(email_views(v@)).take(i + 1));
        i += 1;
    }
    assert(ids@ =~= email_ids(email_views(v@)));
    ids
}

/// The ids of a list of postal addresses.
fn ids_of_addresses(v: &Vec<Address>) -> (ids: Vec<i64>)
    ensures
        ids@ == address_ids(address_views(v@)),
{
    let mut ids: Vec<i64> = Vec::new();
    let mut i: usize = 0;
    while i < v.len()
        invariant
            i <= v.len(),
            ids@ == address_ids(address_views(v@)).take(i as int),
        decreases v.len() - i,
    {
        ids.push(v[i].id);
        assert(ids@ =~= address_ids(address_views(v@)).take(i + 1));
        i += 1;
    }
    assert(ids@ =~= address_ids(address_views(v@)));
    ids
}

/// Tests whether a list of strings stands in strictly ascending
/// alphabetical order.
fn texts_ascending(v: &Vec<String>) -> (r: bool)
    ensures
        r == ascending(texts(v@)),
{
    let ghost all = texts(v@);
    let mut i: usize = 1;
    while i < v.len()
        invariant
            1 <= i,
            all == texts(v@),
            v.len() >= 1 ==> i <= v.len(),
            i <= v.len() ==> ascending(all.take(i as int)),
        decreases v.len() - i,
    {
        let a = chars_of(v[i - 1].as_str());
        let b = chars_of(v[i].as_str());
        assert(a@ == all[i - 1] && b@ == all[i as int]);
        if !text_less(&a, &b) {
            return false;
        }
        proof {
            let longer = all.take(i + 1);
            let shorter = all.take(i as int);
            assert forall|x: int, y: int| 0 <= x < y < longer.len() implies text_lt(
                #[trigger] longer[x],
                #[trigger] longer[y],
            ) by {
                if y < i {
                    assert(text_lt(shorter[x], shorter[y]));
                } else if x < i - 1 {
                    assert(text_lt(shorter[x], shorter[i - 1]));
                    lemma_text_lt_transitive(all[x], all[i - 1], all[i as int]);
                }
            }
        }
        i += 1;
    }
    proof {
        if v.len() == 0 {
            assert(ascending(all));
        } else {
            assert(all.take(v.len() as int) =~= all);
        }
    }
    true
}

/// Tests whether a list of strings holds no blank one.
fn none_blank(v: &Vec<String>) -> (r: bool)
    ensures
        r == forall|i: int| 0 <= i < v.len() ==> !blank(#[trigger] texts(v@)[i]),
{
    let mut i: usize = 0;
    while i < v.len()
        invariant
            i <= v.len(),
            forall|k: int| 0 <= k < i ==> !blank(#[trigger] texts(v@)[k]),
        decreases v.len() - i,
    {
        if is_blank(v[i].as_str()) {
            assert(blank(texts(v@)[i as int]));
            return false;
        }
        i += 1;
    }
    true
}

/// Tests whether a list of strings holds the string `t`.
fn holds_text(v: &Vec<String>, t: &String) -> (r: bool)
    ensures
        r == texts(v@).contains(t@),
{
    let mut i: usize = 0;
    while i < v.len()
        invariant
            i <= v.len(),
            forall|k: int| 0 <= k < i ==> (#[trigger] texts(v@)[k]) != t@,
        decreases v.len() - i,
    {
        if v[i] == *t {
            assert(texts(v@)[i as int] == t@);
            return true;
        }
        i += 1;
    }
    false
}

/// Tests whether a row fits a store with the vocabulary `tags` and the
/// given counters.
fn row_fits(
    row: &CardRow,
    tags: &Vec<String>,
    next_card_id: i64,
    next_phone_id: i64,
    next_email_id: i64,
    next_address_id: i64,
) -> (r: bool)
    ensures
        r == row_ok(*row, tags@, next_card_id, next_phone_id, next_email_id, next_address_id),
{
    if row.id < 1 || row.id >= next_card_id {
        return false;
    }
    if !ids_ok(&ids_of_phones(&row.phones), next_phone_id) {
        return false;
    }
    if !ids_ok(&ids_of_emails(&row.emails), next_email_id) {
        return false;
    }
    if !ids_ok(&ids_of_addresses(&row.addresses), next_address_id) {
        return false;
    }
    if !texts_ascending(&row.tags) {
        return false;
    }
    let mut k: usize = 0;
    while k < row.tags.len()
        invariant
            k <= row.tags.len(),
            forall|j: int| 0 <= j < k ==> texts(tags@).contains(#[trigger] texts(row.tags@)[j]),
        decreases row.tags.len() - k,
    {
        if !holds_text(tags, &row.tags[k]) {
            assert(!texts(tags@).contains(texts(row.tags@)[k as int]));
            return false;
        }
        k += 1;
    }
    true
}

/// Rows, a vocabulary and counters that make up a store meet the
/// invariant of the store's view.
proof fn lemma_parts_inv(
    rows: Seq<CardRow>,
    tags: Seq<String>,
    next_card_id: i64,
    next_phone_id: i64,
    next_email_id: i64,
    next_address_id: i64,
)
    requires
        parts_ok(rows, tags, next_card_id, next_phone_id, next_email_id, next_address_id),
    ensures
        (StoreView {
            cards: cards_of(rows),
            tags: texts(tags).to_set(),
            next_card_id: next_card_id as int,
            next_phone_id: next_phone_id as int,
            next_email_id: next_email_id as int,
            next_address_id: next_address_id as int,
        }).inv(),
{
    let v = StoreView {
        cards: cards_of(rows),
        tags: texts(tags).to_set(),
        next_card_id: next_card_id as int,
        next_phone_id: next_phone_id as int,
        next_email_id: next_email_id as int,
        next_address_id: next_address_id as int,
    };
    vstd::seq_lib::seq_to_set_is_finite(texts(tags));
    let ids = rows.map_values(|r: CardRow| r.id);
    vstd::seq_lib::seq_to_set_is_finite(ids);
    assert(v.cards.dom() =~= ids.to_set()) by {
        assert forall|id: i64| v.cards.dom().contains(id) <==> ids.to_set().contains(id) by {
            if has_row(rows, id) {
                let k = choose|k: int| 0 <= k < rows.len() && #[trigger] rows[k].id == id;
                assert(ids[k] == id);
            }
            if ids.contains(id) {
                let k = choose|k: int| 0 <= k < ids.len() && ids[k] == id;
                assert(rows[k].id == id);
            }
        }
    }
    assert forall|t: Text| v.tags.contains(t) implies !blank(t) by {
        let k = choose|k: int| 0 <= k < texts(tags).len() && texts(tags)[k] == t;
        assert(!blank(texts(tags)[k]));
    }
    assert forall|id: i64| #[trigger] v.cards.contains_key(id) implies 1 <= id < v.next_card_id
        && record_ok(v.cards[id], v) by {
        let k = row_index(rows, id);
        lemma_cards_lookup(rows, k);
        let row = rows[k];
        assert(row_ok(row, tags, next_card_id, next_phone_id, next_email_id, next_address_id));
        vstd::seq_lib::seq_to_set_is_finite(texts(row.tags@));
        assert forall|t: Text| row@.tags.contains(t) implies v.tags.contains(t) by {
            let j = choose|j: int| 0 <= j < texts(row.tags@).len() && texts(row.tags@)[j] == t;
            assert(texts(tags).contains(texts(row.tags@)[j]));
        }
    }
}

impl Store {
    /// Puts a store together from its rows, its vocabulary and its four
    /// counters, as they were kept elsewhere. Returns `None` where they do
    /// not make up a store.
    pub fn restore(
        rows: Vec<CardRow>,
        tags: Vec<String>,
        next_card_id: i64,
        next_phone_id: i64,
        next_email_id: i64,
        next_address_id: i64,
    ) -> (r: Option<Store>)
        ensures
            r is Some <==> parts_ok(
                rows@,
                tags@,
                next_card_id,
                next_phone_id,
                next_email_id,
                next_address_id,
            ),
            r matches Some(store) ==> {
                &&& store.wf()
                &&& store@.cards == cards_of(rows@)
                &&& store@.tags == texts(tags@).to_set()
                &&& store@.next_card_id == next_card_id
                &&& store@.next_phone_id == next_phone_id
                &&& store@.next_email_id == next_email_id
                &&& store@.next_address_id == next_address_id
            },
    {
        if next_card_id < 1 || next_phone_id < 1 || next_email_id < 1 || next_address_id < 1 {
            return None;
        }
        if !texts_ascending(&tags) || !none_blank(&tags) {
            return None;
        }
        let mut i: usize = 0;
        while i < rows.len()
            invariant
                i <= rows.len(),
                ids_ascending(rows@.take(i as int)),
                forall|k: int|
                    0 <= k < i ==> row_ok(
                        #[trigger] rows[k],
                        tags@,
                        next_card_id,
                        next_phone_id,
                        next_email_id,
                        next_address_id,
                    ),
            decreases rows.len() - i,
        {
            if !row_fits(
                &rows[i],
                &tags,
                next_card_id,
                next_phone_id,
                next_email_id,
                next_address_id,
            ) {
                return None;
            }
            if i > 0 && rows[i - 1].id >= rows[i].id {
                return None;
            }
            proof {
                let longer = rows@.take(i + 1);
                let shorter = rows@.take(i as int);
                assert forall|a: int, b: int|
                    0 <= a < b < longer.len() implies #[trigger] longer[a].id
                    < #[trigger] longer[b].id by {
                    if b < i {
                        assert(shorter[a].id < shorter[b].id);
                    } else if a < i - 1 {
                        assert(shorter[a].id < shorter[i - 1].id);
                    }
                }
            }
            i += 1;
        }
        proof {
            assert(rows@.take(rows.len() as int) =~= rows@);
            lemma_parts_inv(
                rows@,
                tags@,
                next_card_id,
                next_phone_id,
                next_email_id,
                next_address_id,
            );
        }
        Some(Store { rows, tags, next_card_id, next_phone_id, next_email_id, next_address_id })
    }

    /// The rows of the store, in order of id.
    pub fn rows(&self) -> (rows: &Vec<CardRow>)
        requires
            self.wf(),
        ensures
            ids_ascending(rows@),
            cards_of(rows@) == self@.cards,
    {
        &self.rows
    }

    /// The vocabulary, in alphabetical order.
    pub fn vocabulary(&self) -> (tags: &Vec<String>)
        requires
            self.wf(),
        ensures
            lists_sorted(texts(tags@), self@.tags),
    {
        &self.tags
    }

    /// The ids that the next card, phone, email and postal address get.
    pub fn counters(&self) -> (next: (i64, i64, i64, i64))
        ensures
            next.0 == self@.next_card_id,
            next.1 == self@.next_phone_id,
            next.2 == self@.next_email_id,
            next.3 == self@.next_address_id,
    {
        (self.next_card_id, self.next_phone_id, self.next_email_id, self.next_address_id)
    }
}

} // verus!
