//! The data that goes into and comes out of the store, with the
//! mathematical view of each type.

use vstd::prelude::*;

verus! {

/// A phone number of a card, as the store holds it.
#[derive(Debug, Clone)]
pub struct Phone {
    pub id: i64,
    pub label: String,
    pub number: String,
}

/// An email address of a card, as the store holds it.
#[derive(Debug, Clone)]
pub struct Email {
    pub id: i64,
    pub label: String,
    pub address: String,
}

/// A postal address of a card, as the store holds it.
#[derive(Debug, Clone)]
pub struct Address {
    pub id: i64,
    pub label: String,
    pub street: String,
    pub city: String,
    pub country: String,
    pub postal: String,
}

/// A card with everything that belongs to it, as `get_card` and
/// `list_cards` hand it out.
#[derive(Debug, Clone)]
pub struct Card {
    pub id: i64,
    pub name: String,
    pub title: String,
    pub company: String,
    pub website: String,
    pub notes: String,
    pub photo_url: String,
    pub phones: Vec<Phone>,
    pub emails: Vec<Email>,
    pub addresses: Vec<Address>,
    pub tags: Vec<String>,
    pub created_at: u64,
    pub updated_at: u64,
}

/// A tag of the vocabulary with the number of cards linked to it.
#[derive(Debug, Clone)]
pub struct TagCount {
    pub name: String,
    pub count: i64,
}

/// The answer of the health probe.
#[derive(Debug, Clone)]
pub struct HealthResponse {
    pub status: String,
    pub db: String,
}

/// A phone number as a caller submits it.
#[derive(Debug, Clone, Default)]
pub struct CardFormPhoneInput {
    pub label: String,
    pub number: String,
}

/// An email address as a caller submits it.
#[derive(Debug, Clone, Default)]
pub struct CardFormEmailInput {
    pub label: String,
    pub address: String,
}

/// A postal address as a caller submits it.
#[derive(Debug, Clone, Default)]
pub struct CardFormAddressInput {
    pub label: String,
    pub street: String,
    pub city: String,
    pub country: String,
    pub postal: String,
}

/// Everything a caller submits to create a card or to replace one.
#[derive(Debug, Clone, Default)]
pub struct CardInput {
    pub name: String,
    pub title: String,
    pub company: String,
    pub website: String,
    pub notes: String,
    pub phones: Vec<CardFormPhoneInput>,
    pub emails: Vec<CardFormEmailInput>,
    pub addresses: Vec<CardFormAddressInput>,
    pub tags: Vec<String>,
}

/// The two optional filters of a listing: a text to search for and a tag.
#[derive(Debug, Clone, Default)]
pub struct SearchParams {
    pub q: Option<String>,
    pub tag: Option<String>,
}

/// A string as a sequence of characters.
pub type Text = Seq<char>;

/// The strings of `v` as sequences of characters.
pub open spec fn texts(v: Seq<String>) -> Seq<Text> {
    v.map_values(|s: String| s@)
}

/// The views of a list of cards.
pub open spec fn card_views(v: Seq<Card>) -> Seq<CardView> {
    v.map_values(|c: Card| c@)
}

/// The views of a list of tags with their counts.
pub open spec fn tag_count_views(v: Seq<TagCount>) -> Seq<TagCountView> {
    v.map_values(|t: TagCount| t@)
}

/// The names of a list of tags with their counts.
pub open spec fn report_names(report: Seq<TagCountView>) -> Seq<Text> {
    report.map_values(|t: TagCountView| t.name)
}

/// The views of a list of submitted cards.
pub open spec fn card_input_views(v: Seq<CardInput>) -> Seq<CardInputView> {
    v.map_values(|c: CardInput| c@)
}

/// The views of a list of phones.
pub open spec fn phone_views(v: Seq<Phone>) -> Seq<PhoneView> {
    v.map_values(|p: Phone| p@)
}

/// The views of a list of emails.
pub open spec fn email_views(v: Seq<Email>) -> Seq<EmailView> {
    v.map_values(|e: Email| e@)
}

/// The views of a list of postal addresses.
pub open spec fn address_views(v: Seq<Address>) -> Seq<AddressView> {
    v.map_values(|a: Address| a@)
}

/// The ids of a list of phones.
pub open spec fn phone_ids(v: Seq<PhoneView>) -> Seq<i64> {
    v.map_values(|p: PhoneView| p.id)
}

/// The ids of a list of emails.
pub open spec fn email_ids(v: Seq<EmailView>) -> Seq<i64> {
    v.map_values(|e: EmailView| e.id)
}

/// The ids of a list of postal addresses.
pub open spec fn address_ids(v: Seq<AddressView>) -> Seq<i64> {
    v.map_values(|a: AddressView| a.id)
}

/// The views of a list of submitted phones.
pub open spec fn phone_input_views(v: Seq<CardFormPhoneInput>) -> Seq<PhoneInputView> {
    v.map_values(|p: CardFormPhoneInput| p@)
}

/// The views of a list of submitted emails.
pub open spec fn email_input_views(v: Seq<CardFormEmailInput>) -> Seq<EmailInputView> {
    v.map_values(|e: CardFormEmailInput| e@)
}

/// The views of a list of submitted postal addresses.
pub open spec fn address_input_views(v: Seq<CardFormAddressInput>) -> Seq<AddressInputView> {
    v.map_values(|a: CardFormAddressInput| a@)
}

/// A phone as a mathematical value.
pub struct PhoneView {
    pub id: i64,
    pub label: Text,
    pub number: Text,
}

/// An email as a mathematical value.
pub struct EmailView {
    pub id: i64,
    pub label: Text,
    pub address: Text,
}

/// A postal address as a mathematical value.
pub struct AddressView {
    pub id: i64,
    pub label: Text,
    pub street: Text,
    pub city: Text,
    pub country: Text,
    pub postal: Text,
}

/// A card as a mathematical value.
pub struct CardView {
    pub id: i64,
    pub name: Text,
    pub title: Text,
    pub company: Text,
    pub website: Text,
    pub notes: Text,
    pub photo_url: Text,
    pub phones: Seq<PhoneView>,
    pub emails: Seq<EmailView>,
    pub addresses: Seq<AddressView>,
    pub tags: Seq<Text>,
    pub created_at: u64,
    pub updated_at: u64,
}

/// A tag with its count as a mathematical value.
pub struct TagCountView {
    pub name: Text,
    pub count: i64,
}

/// A submitted phone as a mathematical value.
pub struct PhoneInputView {
    pub label: Text,
    pub number: Text,
}

/// A submitted email as a mathematical value.
pub struct EmailInputView {
    pub label: Text,
    pub address: Text,
}

/// A submitted postal address as a mathematical value.
pub struct AddressInputView {
    pub label: Text,
    pub street: Text,
    pub city: Text,
    pub country: Text,
    pub postal: Text,
}

/// A submitted card as a mathematical value.
pub struct CardInputView {
    pub name: Text,
    pub title: Text,
    pub company: Text,
    pub website: Text,
    pub notes: Text,
    pub phones: Seq<PhoneInputView>,
    pub emails: Seq<EmailInputView>,
    pub addresses: Seq<AddressInputView>,
    pub tags: Seq<Text>,
}

impl View for Phone {
    type V = PhoneView;

    open spec fn view(&self) -> PhoneView {
        PhoneView { id: self.id, label: self.label@, number: self.number@ }
    }
}

impl View for Email {
    type V = EmailView;

    open spec fn view(&self) -> EmailView {
        EmailView { id: self.id, label: self.label@, address: self.address@ }
    }
}

impl View for Address {
    type V = AddressView;

    open spec fn view(&self) -> AddressView {
        AddressView {
            id: self.id,
            label: self.label@,
            street: self.street@,
            city: self.city@,
            country: self.country@,
            postal: self.postal@,
        }
    }
}

impl View for Card {
    type V = CardView;

    open spec fn view(&self) -> CardView {
        CardView {
            id: self.id,
            name: self.name@,
            title: self.title@,
            company: self.company@,
            website: self.website@,
            notes: self.notes@,
            photo_url: self.photo_url@,
            phones: phone_views(self.phones@),
            emails: email_views(self.emails@),
            addresses: address_views(self.addresses@),
            tags: texts(self.tags@),
            created_at: self.created_at,
            updated_at: self.updated_at,
        }
    }
}

impl View for TagCount {
    type V = TagCountView;

    open spec fn view(&self) -> TagCountView {
        TagCountView { name: self.name@, count: self.count }
    }
}

impl View for CardFormPhoneInput {
    type V = PhoneInputView;

    open spec fn view(&self) -> PhoneInputView {
        PhoneInputView { label: self.label@, number: self.number@ }
    }
}

impl View for CardFormEmailInput {
    type V = EmailInputView;

    open spec fn view(&self) -> EmailInputView {
        EmailInputView { label: self.label@, address: self.address@ }
    }
}

impl View for CardFormAddressInput {
    type V = AddressInputView;

    open spec fn view(&self) -> AddressInputView {
        AddressInputView {
            label: self.label@,
            street: self.street@,
            city: self.city@,
            country: self.country@,
            postal: self.postal@,
        }
    }
}

impl View for CardInput {
    type V = CardInputView;

    open spec fn view(&self) -> CardInputView {
        CardInputView {
            name: self.name@,
            title: self.title@,
            company: self.company@,
            website: self.website@,
            notes: self.notes@,
            phones: phone_input_views(self.phones@),
            emails: email_input_views(self.emails@),
            addresses: address_input_views(self.addresses@),
            tags: texts(self.tags@),
        }
    }
}

} // verus!
