//! The sample contacts with which an empty store can be filled.

use vstd::prelude::*;
use crate::error::StoreError;
use crate::models::{
    card_input_views, AddressInputView, CardFormAddressInput, CardFormEmailInput,
    CardFormPhoneInput, CardInput, CardInputView, EmailInputView, PhoneInputView,
};
use crate::store::{create_all, created_all, creation_error, Store};
use crate::text::{blank, is_space};

verus! {

/// A phone with its label.
pub open spec fn phone_of(label: Seq<char>, number: Seq<char>) -> PhoneInputView {
    PhoneInputView { label, number }
}

/// An email with its label.
pub open spec fn email_of(label: Seq<char>, address: Seq<char>) -> EmailInputView {
    EmailInputView { label, address }
}

/// A postal address with its label.
pub open spec fn address_of(
    label: Seq<char>,
    street: Seq<char>,
    city: Seq<char>,
    country: Seq<char>,
    postal: Seq<char>,
) -> AddressInputView {
    AddressInputView { label, street, city, country, postal }
}

/// A phone with its label.
fn phone(label: &str, number: &str) -> (r: CardFormPhoneInput)
    ensures
        r@ == phone_of(label@, number@),
{
    CardFormPhoneInput { label: String::from_str(label), number: String::from_str(number) }
}

/// An email with its label.
fn email(label: &str, address: &str) -> (r: CardFormEmailInput)
    ensures
        r@ == email_of(label@, address@),
{
    CardFormEmailInput { label: String::from_str(label), address: String::from_str(address) }
}

/// A postal address with its label.
fn address(label: &str, street: &str, city: &str, country: &str, postal: &str) -> (r:
    CardFormAddressInput)
    ensures
        r@ == address_of(label@, street@, city@, country@, postal@),
{
    CardFormAddressInput {
        label: String::from_str(label),
        street: String::from_str(street),
        city: String::from_str(city),
        country: String::from_str(country),
        postal: String::from_str(postal),
    }
}

/// The sample contact Tan Wei Ming.
pub open spec fn tan_wei_ming() -> CardInputView {
    CardInputView {
        name: "Tan Wei Ming"@,
        title: "CEO"@,
        company: "DBS Group Holdings"@,
        website: "https://www.dbs.com"@,
        notes: "Met at Singapore Fintech Festival 2025"@,
        phones: seq![
            phone_of("mobile"@, "+65 9123 4567"@),
            phone_of("work"@, "+65 6878 8888"@),
        ],
        emails: seq![
            email_of("work"@, "weiming.tan@dbs.com"@),
            email_of("personal"@, "wm.tan@gmail.com"@),
        ],
        addresses: seq![
            address_of(
                "office"@,
                "12 Marina Boulevard DBS Asia Hub 2"@,
                "Singapore"@,
                "Singapore"@,
                "018982"@,
            ),
        ],
        tags: seq![
            "fintech"@,
            "client"@,
            "investor"@,
        ],
    }
}

/// The sample contact Tan Wei Ming.
fn tan_wei_ming_input() -> (r: CardInput)
    ensures
        r@ == tan_wei_ming(),
        !blank(r@.name),
{
    let mut phones: Vec<CardFormPhoneInput> = Vec::new();
    phones.push(phone("mobile", "+65 9123 4567"));
    phones.push(phone("work", "+65 6878 8888"));
    let mut emails: Vec<CardFormEmailInput> = Vec::new();
    emails.push(email("work", "weiming.tan@dbs.com"));
    emails.push(email("personal", "wm.tan@gmail.com"));
    let mut addresses: Vec<CardFormAddressInput> = Vec::new();
    addresses.push(
        address(
            "office",
            "12 Marina Boulevard DBS Asia Hub 2",
            "Singapore",
            "Singapore",
            "018982",
        ),
    );
    let mut tags: Vec<String> = Vec::new();
    tags.push(String::from_str("fintech"));
    tags.push(String::from_str("client"));
    tags.push(String::from_str("investor"));
    let r = CardInput {
        name: String::from_str("Tan Wei Ming"),
        title: String::from_str("CEO"),
        company: String::from_str("DBS Group Holdings"),
        website: String::from_str("https://www.dbs.com"),
        notes: String::from_str("Met at Singapore Fintech Festival 2025"),
        phones,
        emails,
        addresses,
        tags,
    };
    proof {
        assert(r@.phones =~= tan_wei_ming().phones);
        assert(r@.emails =~= tan_wei_ming().emails);
        assert(r@.addresses =~= tan_wei_ming().addresses);
        assert(r@.tags =~= tan_wei_ming().tags);
        reveal_strlit("Tan Wei Ming");
        assert(!is_space("Tan Wei Ming"@[0]));
    }
    r
}

/// The sample contact Priya Krishnamurthy.
pub open spec fn priya_krishnamurthy() -> CardInputView {
    CardInputView {
        name: "Priya Krishnamurthy"@,
        title: "VP Engineering"@,
        company: "Grab Holdings"@,
        website: "https://www.grab.com"@,
        notes: ""@,
        phones: seq![
            phone_of("mobile"@, "+65 8234 5678"@),
        ],
        emails: seq![
            email_of("work"@, "priya.k@grab.com"@),
        ],
        addresses: seq![
            address_of(
                "office"@,
                "3 Media Close One-North"@,
                "Singapore"@,
                "Singapore"@,
                "138498"@,
            ),
        ],
        tags: seq![
            "fintech"@,
            "partner"@,
            "colleague"@,
        ],
    }
}

/// The sample contact Priya Krishnamurthy.
fn priya_krishnamurthy_input() -> (r: CardInput)
    ensures
        r@ == priya_krishnamurthy(),
        !blank(r@.name),
{
    let mut phones: Vec<CardFormPhoneInput> = Vec::new();
    phones.push(phone("mobile", "+65 8234 5678"));
    let mut emails: Vec<CardFormEmailInput> = Vec::new();
    emails.push(email("work", "priya.k@grab.com"));
    let mut addresses: Vec<CardFormAddressInput> = Vec::new();
    addresses.push(
        address(
            "office",
            "3 Media Close One-North",
            "Singapore",
            "Singapore",
            "138498",
        ),
    );
    let mut tags: Vec<String> = Vec::new();
    tags.push(String::from_str("fintech"));
    tags.push(String::from_str("partner"));
    tags.push(String::from_str("colleague"));
    let r = CardInput {
        name: String::from_str("Priya Krishnamurthy"),
        title: String::from_str("VP Engineering"),
        company: String::from_str("Grab Holdings"),
        website: String::from_str("https://www.grab.com"),
        notes: String::from_str(""),
        phones,
        emails,
        addresses,
        tags,
    };
    proof {
        assert(r@.phones =~= priya_krishnamurthy().phones);
        assert(r@.emails =~= priya_krishnamurthy().emails);
        assert(r@.addresses =~= priya_krishnamurthy().addresses);
        assert(r@.tags =~= priya_krishnamurthy().tags);
        reveal_strlit("Priya Krishnamurthy");
        assert(!is_space("Priya Krishnamurthy"@[0]));
    }
    r
}

/// The sample contact Ahmad Fauzi bin Rashid.
pub open spec fn ahmad_fauzi() -> CardInputView {
    CardInputView {
        name: "Ahmad Fauzi bin Rashid"@,
        title: "Director of Investments"@,
        company: "Temasek Holdings"@,
        website: "https://www.temasek.com.sg"@,
        notes: ""@,
        phones: seq![
            phone_of("mobile"@, "+65 9345 6789"@),
            phone_of("work"@, "+65 6308 2222"@),
        ],
        emails: seq![
            email_of("work"@, "ahmad.fauzi@temasek.com.sg"@),
        ],
        addresses: seq![
            address_of(
                "office"@,
                "60B Orchard Road Tower 2"@,
                "Singapore"@,
                "Singapore"@,
                "238891"@,
            ),
        ],
        tags: seq![
            "government"@,
            "investor"@,
        ],
    }
}

/// The sample contact Ahmad Fauzi bin Rashid.
fn ahmad_fauzi_input() -> (r: CardInput)
    ensures
        r@ == ahmad_fauzi(),
        !blank(r@.name),
{
    let mut phones: Vec<CardFormPhoneInput> = Vec::new();
    phones.push(phone("mobile", "+65 9345 6789"));
    phones.push(phone("work", "+65 6308 2222"));
    let mut emails: Vec<CardFormEmailInput> = Vec::new();
    emails.push(email("work", "ahmad.fauzi@temasek.com.sg"));
    let mut addresses: Vec<CardFormAddressInput> = Vec::new();
    addresses.push(
        address(
            "office",
            "60B Orchard Road Tower 2",
            "Singapore",
            "Singapore",
            "238891",
        ),
    );
    let mut tags: Vec<String> = Vec::new();
    tags.push(String::from_str("government"));
    tags.push(String::from_str("investor"));
    let r = CardInput {
        name: String::from_str("Ahmad Fauzi bin Rashid"),
        title: String::from_str("Director of Investments"),
        company: String::from_str("Temasek Holdings"),
        website: String::from_str("https://www.temasek.com.sg"),
        notes: String::from_str(""),
        phones,
        emails,
        addresses,
        tags,
    };
    proof {
        assert(r@.phones =~= ahmad_fauzi().phones);
        assert(r@.emails =~= ahmad_fauzi().emails);
        assert(r@.addresses =~= ahmad_fauzi().addresses);
        assert(r@.tags =~= ahmad_fauzi().tags);
        reveal_strlit("Ahmad Fauzi bin Rashid");
        assert(!is_space("Ahmad Fauzi bin Rashid"@[0]));
    }
    r
}

/// The sample contact Li Mei Chen.
pub open spec fn li_mei_chen() -> CardInputView {
    CardInputView {
        name: "Li Mei Chen"@,
        title: "CTO"@,
        company: "Sea Limited"@,
        website: "https://www.sea.com"@,
        notes: ""@,
        phones: seq![
            phone_of("mobile"@, "+65 8456 7890"@),
        ],
        emails: seq![
            email_of("work"@, "meichen@sea.com"@),
            email_of("personal"@, "limeichen@hotmail.com"@),
        ],
        addresses: seq![],
        tags: seq![
            "fintech"@,
            "colleague"@,
        ],
    }
}

/// The sample contact Li Mei Chen.
fn li_mei_chen_input() -> (r: CardInput)
    ensures
        r@ == li_mei_chen(),
        !blank(r@.name),
{
    let mut phones: Vec<CardFormPhoneInput> = Vec::new();
    phones.push(phone("mobile", "+65 8456 7890"));
    let mut emails: Vec<CardFormEmailInput> = Vec::new();
    emails.push(email("work", "meichen@sea.com"));
    emails.push(email("personal", "limeichen@hotmail.com"));
    let mut addresses: Vec<CardFormAddressInput> = Vec::new();
    let mut tags: Vec<String> = Vec::new();
    tags.push(String::from_str("fintech"));
    tags.push(String::from_str("colleague"));
    let r = CardInput {
        name: String::from_str("Li Mei Chen"),
        title: String::from_str("CTO"),
        company: String::from_str("Sea Limited"),
        website: String::from_str("https://www.sea.com"),
        notes: String::from_str(""),
        phones,
        emails,
        addresses,
        tags,
    };
    proof {
        assert(r@.phones =~= li_mei_chen().phones);
        assert(r@.emails =~= li_mei_chen().emails);
        assert(r@.addresses =~= li_mei_chen().addresses);
        assert(r@.tags =~= li_mei_chen().tags);
        reveal_strlit("Li Mei Chen");
        assert(!is_space("Li Mei Chen"@[0]));
    }
    r
}

/// The sample contact Rajesh Kumar s/o Subramaniam.
pub open spec fn rajesh_kumar() -> CardInputView {
    CardInputView {
        name: "Rajesh Kumar s/o Subramaniam"@,
        title: "Principal Consultant"@,
        company: "McKinsey & Company"@,
        website: "https://www.mckinsey.com"@,
        notes: ""@,
        phones: seq![
            phone_of("mobile"@, "+60 12-345 6789"@),
            phone_of("work"@, "+60 3-2302 1000"@),
        ],
        emails: seq![
            email_of("work"@, "rajesh.kumar@mckinsey.com"@),
        ],
        addresses: seq![
            address_of(
                "office"@,
                "Level 34 Menara Citibank 165 Jalan Ampang"@,
                "Kuala Lumpur"@,
                "Malaysia"@,
                "50450"@,
            ),
        ],
        tags: seq![
            "partner"@,
            "vendor"@,
        ],
    }
}

/// The sample contact Rajesh Kumar s/o Subramaniam.
fn rajesh_kumar_input() -> (r: CardInput)
    ensures
        r@ == rajesh_kumar(),
        !blank(r@.name),
{
    let mut phones: Vec<CardFormPhoneInput> = Vec::new();
    phones.push(phone("mobile", "+60 12-345 6789"));
    phones.push(phone("work", "+60 3-2302 1000"));
    let mut emails: Vec<CardFormEmailInput> = Vec::new();
    emails.push(email("work", "rajesh.kumar@mckinsey.com"));
    let mut addresses: Vec<CardFormAddressInput> = Vec::new();
    addresses.push(
        address(
            "office",
            "Level 34 Menara Citibank 165 Jalan Ampang",
            "Kuala Lumpur",
            "Malaysia",
            "50450",
        ),
    );
    let mut tags: Vec<String> = Vec::new();
    tags.push(String::from_str("partner"));
    tags.push(String::from_str("vendor"));
    let r = CardInput {
        name: String::from_str("Rajesh Kumar s/o Subramaniam"),
        title: String::from_str("Principal Consultant"),
        company: String::from_str("McKinsey & Company"),
        website: String::from_str("https://www.mckinsey.com"),
        notes: String::from_str(""),
        phones,
        emails,
        addresses,
        tags,
    };
    proof {
        assert(r@.phones =~= rajesh_kumar().phones);
        assert(r@.emails =~= rajesh_kumar().emails);
        assert(r@.addresses =~= rajesh_kumar().addresses);
        assert(r@.tags =~= rajesh_kumar().tags);
        reveal_strlit("Rajesh Kumar s/o Subramaniam");
        assert(!is_space("Rajesh Kumar s/o Subramaniam"@[0]));
    }
    r
}

/// The sample contact Siti Nurbaya Haji Mohamad.
pub open spec fn siti_nurbaya() -> CardInputView {
    CardInputView {
        name: "Siti Nurbaya Haji Mohamad"@,
        title: "Senior Director"@,
        company: "GovTech Singapore"@,
        website: "https://www.tech.gov.sg"@,
        notes: ""@,
        phones: seq![
            phone_of("mobile"@, "+65 9567 8901"@),
        ],
        emails: seq![
            email_of("work"@, "siti_nurbaya@tech.gov.sg"@),
        ],
        addresses: seq![],
        tags: seq![
            "government"@,
            "client"@,
        ],
    }
}

/// The sample contact Siti Nurbaya Haji Mohamad.
fn siti_nurbaya_input() -> (r: CardInput)
    ensures
        r@ == siti_nurbaya(),
        !blank(r@.name),
{
    let mut phones: Vec<CardFormPhoneInput> = Vec::new();
    phones.push(phone("mobile", "+65 9567 8901"));
    let mut emails: Vec<CardFormEmailInput> = Vec::new();
    emails.push(email("work", "siti_nurbaya@tech.gov.sg"));
    let mut addresses: Vec<CardFormAddressInput> = Vec::new();
    let mut tags: Vec<String> = Vec::new();
    tags.push(String::from_str("government"));
    tags.push(String::from_str("client"));
    let r = CardInput {
        name: String::from_str("Siti Nurbaya Haji Mohamad"),
        title: String::from_str("Senior Director"),
        company: String::from_str("GovTech Singapore"),
        website: String::from_str("https://www.tech.gov.sg"),
        notes: String::from_str(""),
        phones,
        emails,
        addresses,
        tags,
    };
    proof {
        assert(r@.phones =~= siti_nurbaya().phones);
        assert(r@.emails =~= siti_nurbaya().emails);
        assert(r@.addresses =~= siti_nurbaya().addresses);
        assert(r@.tags =~= siti_nurbaya().tags);
        reveal_strlit("Siti Nurbaya Haji Mohamad");
        assert(!is_space("Siti Nurbaya Haji Mohamad"@[0]));
    }
    r
}

/// The sample contact Kevin Tan Kiat Seng.
pub open spec fn kevin_tan() -> CardInputView {
    CardInputView {
        name: "Kevin Tan Kiat Seng"@,
        title: "Founder & CEO"@,
        company: "PaySG Technologies"@,
        website: "https://paysg.io"@,
        notes: ""@,
        phones: seq![
            phone_of("mobile"@, "+65 9678 9012"@),
        ],
        emails: seq![
            email_of("work"@, "kevin@paysg.io"@),
            email_of("personal"@, "kevintks@gmail.com"@),
        ],
        addresses: seq![
            address_of(
                "office"@,
                "71 Ayer Rajah Crescent JTC LaunchPad"@,
                "Singapore"@,
                "Singapore"@,
                "139952"@,
            ),
        ],
        tags: seq![
            "fintech"@,
            "investor"@,
            "client"@,
        ],
    }
}

/// The sample contact Kevin Tan Kiat Seng.
fn kevin_tan_input() -> (r: CardInput)
    ensures
        r@ == kevin_tan(),
        !blank(r@.name),
{
    let mut phones: Vec<CardFormPhoneInput> = Vec::new();
    phones.push(phone("mobile", "+65 9678 9012"));
    let mut emails: Vec<CardFormEmailInput> = Vec::new();
    emails.push(email("work", "kevin@paysg.io"));
    emails.push(email("personal", "kevintks@gmail.com"));
    let mut addresses: Vec<CardFormAddressInput> = Vec::new();
    addresses.push(
        address(
            "office",
            "71 Ayer Rajah Crescent JTC LaunchPad",
            "Singapore",
            "Singapore",
            "139952",
        ),
    );
    let mut tags: Vec<String> = Vec::new();
    tags.push(String::from_str("fintech"));
    tags.push(String::from_str("investor"));
    tags.push(String::from_str("client"));
    let r = CardInput {
        name: String::from_str("Kevin Tan Kiat Seng"),
        title: String::from_str("Founder & CEO"),
        company: String::from_str("PaySG Technologies"),
        website: String::from_str("https://paysg.io"),
        notes: String::from_str(""),
        phones,
        emails,
        addresses,
        tags,
    };
    proof {
        assert(r@.phones =~= kevin_tan().phones);
        assert(r@.emails =~= kevin_tan().emails);
        assert(r@.addresses =~= kevin_tan().addresses);
        assert(r@.tags =~= kevin_tan().tags);
        reveal_strlit("Kevin Tan Kiat Seng");
        assert(!is_space("Kevin Tan Kiat Seng"@[0]));
    }
    r
}

/// The sample contact Siti Rahimah Binti Abdullah.
pub open spec fn siti_rahimah() -> CardInputView {
    CardInputView {
        name: "Siti Rahimah Binti Abdullah"@,
        title: "Regional Director"@,
        company: "Prudential plc"@,
        website: "https://www.prudential.co.id"@,
        notes: ""@,
        phones: seq![
            phone_of("mobile"@, "+62 812-3456-7890"@),
            phone_of("work"@, "+62 21-5799-8400"@),
        ],
        emails: seq![
            email_of("work"@, "siti.rahimah@prudential.co.id"@),
        ],
        addresses: seq![
            address_of(
                "office"@,
                "Prudential Tower 7 Jalan Jenderal Sudirman"@,
                "Jakarta"@,
                "Indonesia"@,
                "10220"@,
            ),
        ],
        tags: seq![
            "fintech"@,
            "partner"@,
        ],
    }
}

/// The sample contact Siti Rahimah Binti Abdullah.
fn siti_rahimah_input() -> (r: CardInput)
    ensures
        r@ == siti_rahimah(),
        !blank(r@.name),
{
    let mut phones: Vec<CardFormPhoneInput> = Vec::new();
    phones.push(phone("mobile", "+62 812-3456-7890"));
    phones.push(phone("work", "+62 21-5799-8400"));
    let mut emails: Vec<CardFormEmailInput> = Vec::new();
    emails.push(email("work", "siti.rahimah@prudential.co.id"));
    let mut addresses: Vec<CardFormAddressInput> = Vec::new();
    addresses.push(
        address(
            "office",
            "Prudential Tower 7 Jalan Jenderal Sudirman",
            "Jakarta",
            "Indonesia",
            "10220",
        ),
    );
    let mut tags: Vec<String> = Vec::new();
    tags.push(String::from_str("fintech"));
    tags.push(String::from_str("partner"));
    let r = CardInput {
        name: String::from_str("Siti Rahimah Binti Abdullah"),
        title: String::from_str("Regional Director"),
        company: String::from_str("Prudential plc"),
        website: String::from_str("https://www.prudential.co.id"),
        notes: String::from_str(""),
        phones,
        emails,
        addresses,
        tags,
    };
    proof {
        assert(r@.phones =~= siti_rahimah().phones);
        assert(r@.emails =~= siti_rahimah().emails);
        assert(r@.addresses =~= siti_rahimah().addresses);
        assert(r@.tags =~= siti_rahimah().tags);
        reveal_strlit("Siti Rahimah Binti Abdullah");
        assert(!is_space("Siti Rahimah Binti Abdullah"@[0]));
    }
    r
}

/// The sample contact James Wong Wei Jian.
pub open spec fn james_wong() -> CardInputView {
    CardInputView {
        name: "James Wong Wei Jian"@,
        title: "Head of Engineering"@,
        company: "Shopee / Sea Group"@,
        website: "https://shopee.sg"@,
        notes: ""@,
        phones: seq![
            phone_of("mobile"@, "+65 9789 0123"@),
        ],
        emails: seq![
            email_of("work"@, "jameswong@shopee.com"@),
            email_of("personal"@, "james.wongwj@gmail.com"@),
        ],
        addresses: seq![],
        tags: seq![
            "colleague"@,
        ],
    }
}

/// The sample contact James Wong Wei Jian.
fn james_wong_input() -> (r: CardInput)
    ensures
        r@ == james_wong(),
        !blank(r@.name),
{
    let mut phones: Vec<CardFormPhoneInput> = Vec::new();
    phones.push(phone("mobile", "+65 9789 0123"));
    let mut emails: Vec<CardFormEmailInput> = Vec::new();
    emails.push(email("work", "jameswong@shopee.com"));
    emails.push(email("personal", "james.wongwj@gmail.com"));
    let mut addresses: Vec<CardFormAddressInput> = Vec::new();
    let mut tags: Vec<String> = Vec::new();
    tags.push(String::from_str("colleague"));
    let r = CardInput {
        name: String::from_str("James Wong Wei Jian"),
        title: String::from_str("Head of Engineering"),
        company: String::from_str("Shopee / Sea Group"),
        website: String::from_str("https://shopee.sg"),
        notes: String::from_str(""),
        phones,
        emails,
        addresses,
        tags,
    };
    proof {
        assert(r@.phones =~= james_wong().phones);
        assert(r@.emails =~= james_wong().emails);
        assert(r@.addresses =~= james_wong().addresses);
        assert(r@.tags =~= james_wong().tags);
        reveal_strlit("James Wong Wei Jian");
        assert(!is_space("James Wong Wei Jian"@[0]));
    }
    r
}

/// The sample contact Anika Sharma.
pub open spec fn anika_sharma() -> CardInputView {
    CardInputView {
        name: "Anika Sharma"@,
        title: "Senior Product Manager"@,
        company: "Agoda Company"@,
        website: "https://www.agoda.com"@,
        notes: ""@,
        phones: seq![
            phone_of("mobile"@, "+66 89-123-4567"@),
        ],
        emails: seq![
            email_of("work"@, "anika.sharma@agoda.com"@),
        ],
        addresses: seq![
            address_of(
                "office"@,
                "30th Floor The Offices at CentralWorld Ratchadamri Road"@,
                "Bangkok"@,
                "Thailand"@,
                "10330"@,
            ),
        ],
        tags: seq![
            "colleague"@,
            "vendor"@,
        ],
    }
}

/// The sample contact Anika Sharma.
fn anika_sharma_input() -> (r: CardInput)
    ensures
        r@ == anika_sharma(),
        !blank(r@.name),
{
    let mut phones: Vec<CardFormPhoneInput> = Vec::new();
    phones.push(phone("mobile", "+66 89-123-4567"));
    let mut emails: Vec<CardFormEmailInput> = Vec::new();
    emails.push(email("work", "anika.sharma@agoda.com"));
    let mut addresses: Vec<CardFormAddressInput> = Vec::new();
    addresses.push(
        address(
            "office",
            "30th Floor The Offices at CentralWorld Ratchadamri Road",
            "Bangkok",
            "Thailand",
            "10330",
        ),
    );
    let mut tags: Vec<String> = Vec::new();
    tags.push(String::from_str("colleague"));
    tags.push(String::from_str("vendor"));
    let r = CardInput {
        name: String::from_str("Anika Sharma"),
        title: String::from_str("Senior Product Manager"),
        company: String::from_str("Agoda Company"),
        website: String::from_str("https://www.agoda.com"),
        notes: String::from_str(""),
        phones,
        emails,
        addresses,
        tags,
    };
    proof {
        assert(r@.phones =~= anika_sharma().phones);
        assert(r@.emails =~= anika_sharma().emails);
        assert(r@.addresses =~= anika_sharma().addresses);
        assert(r@.tags =~= anika_sharma().tags);
        reveal_strlit("Anika Sharma");
        assert(!is_space("Anika Sharma"@[0]));
    }
    r
}

/// The ten sample contacts, in the order in which they are made.
pub open spec fn seed_inputs() -> Seq<CardInputView> {
    seq![
        tan_wei_ming(),
        priya_krishnamurthy(),
        ahmad_fauzi(),
        li_mei_chen(),
        rajesh_kumar(),
        siti_nurbaya(),
        kevin_tan(),
        siti_rahimah(),
        james_wong(),
        anika_sharma(),
    ]
}

/// The ten sample contacts, in the order in which they are made.
pub fn seed_cards() -> (cards: Vec<CardInput>)
    ensures
        card_input_views(cards@) == seed_inputs(),
        forall|k: int| 0 <= k < cards.len() ==> !blank(#[trigger] card_input_views(cards@)[k].name),
{
    let mut cards: Vec<CardInput> = Vec::new();
    cards.push(tan_wei_ming_input());
    cards.push(priya_krishnamurthy_input());
    cards.push(ahmad_fauzi_input());
    cards.push(li_mei_chen_input());
    cards.push(rajesh_kumar_input());
    cards.push(siti_nurbaya_input());
    cards.push(kevin_tan_input());
    cards.push(siti_rahimah_input());
    cards.push(james_wong_input());
    cards.push(anika_sharma_input());
    assert(card_input_views(cards@) =~= seed_inputs());
    cards
}

/// Fills the store with the ten sample contacts, made in their order at
/// the time `now`. Fails only where the ids run out: the contacts made
/// until then stay.
pub fn seed_data(store: &mut Store, now: u64) -> (r: Result<(), StoreError>)
    requires
        old(store).wf(),
    ensures
        final(store).wf(),
        match r {
            Ok(_) => final(store)@ == created_all(old(store)@, seed_inputs(), now),
            Err(e) => e == StoreError::Storage && exists|k: int|
                {
                    &&& 0 <= k < seed_inputs().len()
                    &&& final(store)@ == created_all(
                        old(store)@,
                        #[trigger] seed_inputs().take(k),
                        now,
                    )
                    &&& creation_error(final(store)@, seed_inputs()[k]) == Some(e)
                },
        },
{
    let cards = seed_cards();
    create_all(store, &cards, now)
}

} // verus!
