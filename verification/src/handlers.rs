//! What a request handler decides before and after it turns to the store:
//! which parts of a form it keeps, whether a form makes a card, and what
//! it answers.

use vstd::prelude::*;
use crate::error::{Rule, StoreError};
use crate::models::{
    card_views, Card, CardFormAddressInput, CardFormEmailInput, CardFormPhoneInput, CardInput,
    HealthResponse, SearchParams, Text,
};
use crate::photo::MAX_PHOTO_BYTES;
use crate::search::{is_listing, string_view};
use crate::store::{list_cards, Store};
use crate::text::{blank, is_blank};

verus! {

/// A text part of a form.
#[derive(Debug, Clone)]
pub struct TextField {
    pub name: String,
    pub value: String,
}

/// The parts of a form that a handler keeps: the text parts in the order
/// in which they came, and the photo with its file name.
#[derive(Debug, Clone)]
pub struct MultipartFields {
    pub text: Vec<TextField>,
    pub photo: Option<(String, Vec<u8>)>,
}

/// The value of the text part `name`: that of the last part of this name,
/// if there is one.
pub open spec fn field_value(fields: Seq<TextField>, name: Text) -> Option<Text>
    decreases fields.len(),
{
    if fields.len() == 0 {
        None
    } else if fields.last().name@ == name {
        Some(fields.last().value@)
    } else {
        field_value(fields.drop_last(), name)
    }
}

/// The value of the text part `name`, or the empty string where the form
/// has no such part.
pub open spec fn field_or_empty(fields: Seq<TextField>, name: Text) -> Text {
    match field_value(fields, name) {
        Some(value) => value,
        None => Seq::empty(),
    }
}

/// Whether a part of a form is its photo: it is named `photo` and comes
/// with a file name.
pub open spec fn photo_part(name: Text, filename: Option<Text>) -> bool {
    name == "photo"@ && filename is Some
}

/// Tests whether a part of a form is its photo.
pub fn is_photo_field(name: &str, filename: &Option<String>) -> (r: bool)
    ensures
        r == photo_part(name@, string_view(*filename)),
{
    let word = String::from_str("photo");
    let given = String::from_str(name);
    given == word && filename.is_some()
}

impl MultipartFields {
    /// A form without parts.
    pub fn new() -> (fields: MultipartFields)
        ensures
            fields.text@.len() == 0,
            fields.photo is None,
    {
        MultipartFields { text: Vec::new(), photo: None }
    }

    /// Keeps a text part. A part of a name that came before gives way to
    /// it.
    pub fn put_text(&mut self, name: String, value: String)
        ensures
            final(self).text@ == old(self).text@.push(TextField { name, value }),
            final(self).photo == old(self).photo,
            field_value(final(self).text@, name@) == Some(value@),
            forall|other: Text|
                other != name@ ==> field_value(final(self).text@, other) == field_value(
                    old(self).text@,
                    other,
                ),
    {
        self.text.push(TextField { name, value });
        assert(self.text@.drop_last() =~= old(self).text@);
    }

    /// Keeps the photo, unless it holds more than five mebibytes: then the
    /// form stays as it was.
    pub fn put_photo(&mut self, filename: String, data: Vec<u8>) -> (r: Result<(), StoreError>)
        ensures
            final(self).text == old(self).text,
            match r {
                Ok(_) => data@.len() <= MAX_PHOTO_BYTES && final(self).photo == Some(
                    (filename, data),
                ),
                Err(e) => {
                    &&& data@.len() > MAX_PHOTO_BYTES
                    &&& e == StoreError::Validation(Rule::PhotoSize)
                    &&& final(self).photo == old(self).photo
                },
            },
    {
        if data.len() > MAX_PHOTO_BYTES {
            return Err(StoreError::Validation(Rule::PhotoSize));
        }
        self.photo = Some((filename, data));
        Ok(())
    }

    /// The value of the text part `name`, if the form has one.
    pub fn get(&self, name: &str) -> (r: Option<String>)
        ensures
            string_view(r) == field_value(self.text@, name@),
    {
        let key = String::from_str(name);
        let mut i: usize = self.text.len();
        assert(self.text@.take(i as int) =~= self.text@);
        while i > 0
            invariant
                i <= self.text.len(),
                key@ == name@,
                field_value(self.text@, name@) == field_value(self.text@.take(i as int), name@),
            decreases i,
        {
            let field = &self.text[i - 1];
            assert(self.text@.take(i as int).last() == self.text@[i - 1]);
            assert(self.text@.take(i as int).drop_last() =~= self.text@.take(i - 1));
            if field.name == key {
                return Some(field.value.clone());
            }
            i -= 1;
        }
        None
    }

    /// The photo of a form that must bring one, with its file name.
    pub fn require_photo(self) -> (r: Result<(String, Vec<u8>), StoreError>)
        ensures
            match r {
                Ok(photo) => self.photo == Some(photo),
                Err(e) => self.photo is None && e == StoreError::Validation(Rule::PhotoMissing),
            },
    {
        match self.photo {
            Some(photo) => Ok(photo),
            None => Err(StoreError::Validation(Rule::PhotoMissing)),
        }
    }

    /// The value of the text part `name`, or the empty string.
    pub fn get_or_empty(&self, name: &str) -> (r: String)
        ensures
            r@ == field_or_empty(self.text@, name@),
    {
        match self.get(name) {
            Some(value) => value,
            None => String::new(),
        }
    }
}

/// Makes the input for a card from a form and from the phones, emails,
/// postal addresses and tags that were read from it. The form must have a
/// part `name` that is not blank; the parts `title`, `company`, `website`
/// and `notes` count as empty where they are missing.
pub fn parse_card_input(
    fields: &MultipartFields,
    phones: Vec<CardFormPhoneInput>,
    emails: Vec<CardFormEmailInput>,
    addresses: Vec<CardFormAddressInput>,
    tags: Vec<String>,
) -> (r: Result<CardInput, StoreError>)
    ensures
        match r {
            Ok(input) => {
                &&& field_value(fields.text@, "name"@) == Some(input.name@)
                &&& !blank(input.name@)
                &&& input.title@ == field_or_empty(fields.text@, "title"@)
                &&& input.company@ == field_or_empty(fields.text@, "company"@)
                &&& input.website@ == field_or_empty(fields.text@, "website"@)
                &&& input.notes@ == field_or_empty(fields.text@, "notes"@)
                &&& input.phones == phones
                &&& input.emails == emails
                &&& input.addresses == addresses
                &&& input.tags == tags
            },
            Err(e) => {
                &&& e == StoreError::Validation(Rule::NameRequired)
                &&& match field_value(fields.text@, "name"@) {
                    Some(name) => blank(name),
                    None => true,
                }
            },
        },
{
    let name = match fields.get("name") {
        Some(name) => name,
        None => {
            return Err(StoreError::Validation(Rule::NameRequired));
        },
    };
    if is_blank(name.as_str()) {
        return Err(StoreError::Validation(Rule::NameRequired));
    }
    Ok(
        CardInput {
            name,
            title: fields.get_or_empty("title"),
            company: fields.get_or_empty("company"),
            website: fields.get_or_empty("website"),
            notes: fields.get_or_empty("notes"),
            phones,
            emails,
            addresses,
            tags,
        },
    )
}

/// The cards that the parameters of a search select, the card changed
/// last first.
pub fn find_cards(store: &Store, params: &SearchParams) -> (cards: Vec<Card>)
    requires
        store.wf(),
    ensures
        is_listing(store@, string_view(params.q), string_view(params.tag), card_views(cards@)),
{
    let q: Option<&str> = match &params.q {
        Some(text) => Some(text.as_str()),
        None => None,
    };
    let tag: Option<&str> = match &params.tag {
        Some(name) => Some(name.as_str()),
        None => None,
    };
    list_cards(store, q, tag)
}

/// The answer of the health probe: the service is up, and the store
/// answers or does not.
pub fn health(db_ok: bool) -> (r: HealthResponse)
    ensures
        r.status@ == "ok"@,
        r.db@ == if db_ok {
            "ok"@
        } else {
            "error"@
        },
{
    HealthResponse {
        status: String::from_str("ok"),
        db: if db_ok {
            String::from_str("ok")
        } else {
            String::from_str("error")
        },
    }
}

} // verus!
