//! Validation of the signup form's fields.
//!
//! Each check returns `Ok` or a [`FormError`] naming the offending field,
//! with the exact message the site shows.

use vstd::prelude::*;
use vstd::string::StrSliceExecFns;
use vstd::string::StringExecFns;

use crate::media::is_digit;
use crate::strutil::str_eq;

verus! {

/// A rejected form field: which field, and the message shown to the user.
#[derive(Clone, Debug)]
pub struct FormError {
    pub field: Option<String>,
    pub message: String,
}

#[verifier::ext_equal]
pub ghost struct FormErrorView {
    pub field: Option<Seq<char>>,
    pub message: Seq<char>,
}

impl View for FormError {
    type V = FormErrorView;

    open spec fn view(&self) -> FormErrorView {
        FormErrorView {
            field: match self.field {
                Some(f) => Some(f@),
                None => None,
            },
            message: self.message@,
        }
    }
}

/// A member's gender, as the database stores it.
#[derive(Clone, Copy, Debug, PartialEq, Eq, Structural)]
pub enum Gender {
    Male,
    Female,
}

impl Gender {
    /// The one-letter form used in the database and in mails.
    pub fn as_letter(&self) -> (r: String)
        ensures
            *self == Gender::Male ==> r@ == "m"@,
            *self == Gender::Female ==> r@ == "w"@,
    {
        match self {
            Gender::Male => "m".to_owned(),
            Gender::Female => "w".to_owned(),
        }
    }
}

/// The spellings accepted for male.
pub open spec fn is_male_spelling(s: Seq<char>) -> bool {
    ||| s == "m"@
    ||| s == "M"@
    ||| s == "männlich"@
    ||| s == "Männlich"@
    ||| s == "maennlich"@
    ||| s == "Maennlich"@
    ||| s == "male"@
    ||| s == "Male"@
}

/// The spellings accepted for female.
pub open spec fn is_female_spelling(s: Seq<char>) -> bool {
    ||| s == "w"@
    ||| s == "W"@
    ||| s == "weiblich"@
    ||| s == "Weiblich"@
    ||| s == "female"@
    ||| s == "Female"@
}

/// Parses a gender field. Every other spelling is rejected, naming the
/// field `geschlecht`.
pub fn try_parse_gender(s: &str) -> (r: Result<Gender, FormError>)
    ensures
        r == Ok::<Gender, FormError>(Gender::Male) <==> is_male_spelling(s@),
        r == Ok::<Gender, FormError>(Gender::Female) <==> (is_female_spelling(s@)
            && !is_male_spelling(s@)),
        r is Err ==> (r->Err_0)@.field == Some("geschlecht"@) && (r->Err_0)@.message == s@
            + " ist kein bekanntes Geschlecht."@,
{
    if str_eq(s, "m") || str_eq(s, "M") || str_eq(s, "männlich") || str_eq(s, "Männlich")
        || str_eq(s, "maennlich") || str_eq(s, "Maennlich") || str_eq(s, "male") || str_eq(
        s,
        "Male",
    ) {
        Ok(Gender::Male)
    } else if str_eq(s, "w") || str_eq(s, "W") || str_eq(s, "weiblich") || str_eq(s, "Weiblich")
        || str_eq(s, "female") || str_eq(s, "Female") {
        Ok(Gender::Female)
    } else {
        Err(
            FormError {
                field: Some("geschlecht".to_owned()),
                message: String::from_str(s).concat(" ist kein bekanntes Geschlecht."),
            },
        )
    }
}

/// Whether `char::is_numeric` holds of a character; for characters beyond
/// ASCII the library does not restate the Unicode tables.
pub uninterp spec fn char_is_numeric(c: char) -> bool;

/// Relies on `char::is_numeric`: true exactly for the characters in the
/// Unicode number categories, which within ASCII are the digits `0`–`9`.
#[verifier::external_body]
fn is_numeric_char(c: char) -> (r: bool)
    ensures
        r == char_is_numeric(c),
        (c as u32) < 128 ==> (r <==> is_digit(c)),
{
    c.is_numeric()
}

/// Every character of `s` counts as numeric.
pub open spec fn all_numeric(s: Seq<char>) -> bool {
    forall|i: int| 0 <= i < s.len() ==> char_is_numeric(#[trigger] s[i])
}

fn check_all_numeric(text: &str) -> (r: bool)
    ensures
        r == all_numeric(text@),
{
    let n = text.unicode_len();
    let mut i: usize = 0;
    while i < n
        invariant
            0 <= i <= n == text@.len(),
            forall|j: int| 0 <= j < i ==> char_is_numeric(#[trigger] text@[j]),
        decreases n - i,
    {
        if !is_numeric_char(text.get_char(i)) {
            return false;
        }
        i = i + 1;
    }
    true
}

/// Checks a postal code: digits only, and exactly five of them for
/// Germany. The field named in the error is `plz`.
pub fn check_plz(text: &str, country: &str) -> (r: Result<(), FormError>)
    ensures
        r is Ok <==> (all_numeric(text@) && (country@ == "Deutschland"@ ==> text@.len() == 5)),
        r is Err ==> (r->Err_0)@.field == Some("plz"@),
        !all_numeric(text@) ==> (r matches Err(e) && e@.message == "Ungültige Postleitzahl ("@
            + text@ + "), darf nur Zahlen enthalten"@),
        all_numeric(text@) && country@ == "Deutschland"@ && text@.len() != 5 ==> (r matches Err(
        e) && e@.message == "Ungültige Postleitzahl ("@ + text@ + "), muss 5 Stellen haben"@),
{
    if !check_all_numeric(text) {
        return Err(
            FormError {
                field: Some("plz".to_owned()),
                message: String::from_str("Ungültige Postleitzahl (").concat(text).concat(
                    "), darf nur Zahlen enthalten",
                ),
            },
        );
    }
    if str_eq(country, "Deutschland") && text.unicode_len() != 5 {
        return Err(
            FormError {
                field: Some("plz".to_owned()),
                message: String::from_str("Ungültige Postleitzahl (").concat(text).concat(
                    "), muss 5 Stellen haben",
                ),
            },
        );
    }
    Ok(())
}

/// Checks the health-insurance field: one of the three known words.
pub fn check_krankenversicherung(text: &str) -> (r: Result<(), FormError>)
    ensures
        r is Ok <==> (text@ == "gesetzlich"@ || text@ == "privat"@ || text@ == "anderes"@),
        r is Err ==> (r->Err_0)@.field == Some("krankenversicherung"@) && (r->Err_0)@.message
            == "Ungültige Krankenversicherung ("@ + text@
            + "), muss entweder gesetzlich, privat oder anderes sein"@,
{
    if str_eq(text, "gesetzlich") || str_eq(text, "privat") || str_eq(text, "anderes") {
        Ok(())
    } else {
        Err(
            FormError {
                field: Some("krankenversicherung".to_owned()),
                message: String::from_str("Ungültige Krankenversicherung (").concat(text).concat(
                    "), muss entweder gesetzlich, privat oder anderes sein",
                ),
            },
        )
    }
}

pub open spec fn contains_char(s: Seq<char>, c: char) -> bool {
    exists|i: int| 0 <= i < s.len() && s[i] == c
}

/// Exactly one occurrence of `c` in `s`.
pub open spec fn exactly_one(s: Seq<char>, c: char) -> bool {
    exists|i: int|
        0 <= i < s.len() && s[i] == c && forall|j: int| 0 <= j < s.len() && j != i ==> s[j] != c
}

fn find_char(s: &str, c: char) -> (r: Option<usize>)
    ensures
        match r {
            Some(p) => p < s@.len() && s@[p as int] == c && forall|j: int|
                0 <= j < p ==> s@[j] != c,
            None => !contains_char(s@, c),
        },
{
    let n = s.unicode_len();
    let mut i: usize = 0;
    while i < n
        invariant
            0 <= i <= n == s@.len(),
            forall|j: int| 0 <= j < i ==> s@[j] != c,
        decreases n - i,
    {
        if s.get_char(i) == c {
            return Some(i);
        }
        i = i + 1;
    }
    None
}

/// Whether `c` occurs in `s` after position `p`.
fn find_char_after(s: &str, c: char, p: usize) -> (r: bool)
    requires
        p < s@.len(),
    ensures
        r == exists|j: int| p < j < s@.len() && s@[j] == c,
{
    let n = s.unicode_len();
    let mut i: usize = p + 1;
    while i < n
        invariant
            p < i <= n == s@.len(),
            forall|j: int| p < j < i ==> s@[j] != c,
        decreases n - i,
    {
        if s.get_char(i) == c {
            proof {
                assert(p < i < s@.len() && s@[i as int] == c);
            }
            return true;
        }
        i = i + 1;
    }
    false
}

/// Checks a mail-address field: exactly one `@` and no spaces. The error
/// names the caller's field.
pub fn check_email(text: &str, field: &str) -> (r: Result<(), FormError>)
    ensures
        r is Ok <==> (exactly_one(text@, '@') && !contains_char(text@, ' ')),
        r is Err ==> (r->Err_0)@.field == Some(field@),
        !contains_char(text@, '@') ==> (r matches Err(e) && e@.message
            == "Ungültige E-Mail-Adresse ("@ + text@ + "), muss ein @ enthalten"@),
        contains_char(text@, '@') && !exactly_one(text@, '@') ==> (r matches Err(e) && e@.message
            == "Ungültige E-Mail-Adresse ("@ + text@
            + "), bitten nur eine einzelne E-Mail-Adresse angeben"@),
        exactly_one(text@, '@') && contains_char(text@, ' ') ==> (r matches Err(e) && e@.message
            == "Ungültige E-Mail-Adresse ("@ + text@ + "), darf keine Leerzeichen enthalten"@),
{
    let p = match find_char(text, '@') {
        None => {
            return Err(mail_error(field, text, "), muss ein @ enthalten"));
        }
        Some(p) => p,
    };
    if find_char_after(text, '@', p) {
        proof {
            let k = choose|k: int| p < k < text@.len() && text@[k] == '@';
            lemma_two_ats(text@, p as int, k);
        }
        return Err(mail_error(field, text, "), bitten nur eine einzelne E-Mail-Adresse angeben"));
    }
    proof {
        assert forall|j: int| 0 <= j < text@.len() && j != p implies text@[j] != '@' by {
            if j > p {
                assert(!(p < j < text@.len() && text@[j] == '@'));
            }
        }
        assert(0 <= p < text@.len() && text@[p as int] == '@' && forall|j: int|
            0 <= j < text@.len() && j != p ==> text@[j] != '@');
        assert(exactly_one(text@, '@'));
    }
    if find_char(text, ' ').is_some() {
        return Err(mail_error(field, text, "), darf keine Leerzeichen enthalten"));
    }
    Ok(())
}

fn mail_error(field: &str, text: &str, why: &str) -> (r: FormError)
    ensures
        r@.field == Some(field@),
        r@.message == "Ungültige E-Mail-Adresse ("@ + text@ + why@,
{
    FormError {
        field: Some(field.to_owned()),
        message: String::from_str("Ungültige E-Mail-Adresse (").concat(text).concat(why),
    }
}

/// Two distinct positions holding `@` rule a single address out.
proof fn lemma_two_ats(s: Seq<char>, p: int, k: int)
    requires
        0 <= p < s.len(),
        s[p] == '@',
        p < k < s.len(),
        s[k] == '@',
    ensures
        contains_char(s, '@'),
        !exactly_one(s, '@'),
{
    assert(contains_char(s, '@')) by {
        assert(0 <= p < s.len() && s[p] == '@');
    }
    assert forall|i: int|
        !(0 <= i < s.len() && s[i] == '@' && (forall|j: int|
            0 <= j < s.len() && j != i ==> s[j] != '@')) by {
        if 0 <= i < s.len() && s[i] == '@' {
            if i == k {
                assert(s[p] == '@' && p != i);
            } else {
                assert(s[k] == '@' && k != i);
            }
        }
    }
}

/// Checks a house number: at least one ASCII digit somewhere. The field
/// named in the error is `hausnummer`.
pub fn check_house_number(text: &str) -> (r: Result<(), FormError>)
    ensures
        r is Ok <==> exists|i: int| 0 <= i < text@.len() && is_digit(#[trigger] text@[i]),
        r is Err ==> (r->Err_0)@.field == Some("hausnummer"@) && (r->Err_0)@.message
            == "Ungültige Hausnummer ("@ + text@ + "), muss mindestens eine Ziffer enthalten"@,
{
    let n = text.unicode_len();
    let mut i: usize = 0;
    while i < n
        invariant
            0 <= i <= n == text@.len(),
            forall|j: int| 0 <= j < i ==> !is_digit(#[trigger] text@[j]),
        decreases n - i,
    {
        let c = text.get_char(i);
        if c as u32 >= 48 && c as u32 <= 57 {
            proof {
                assert(is_digit(text@[i as int]));
            }
            return Ok(());
        }
        i = i + 1;
    }
    Err(
        FormError {
            field: Some("hausnummer".to_owned()),
            message: String::from_str("Ungültige Hausnummer (").concat(text).concat(
                "), muss mindestens eine Ziffer enthalten",
            ),
        },
    )
}

/// What `str::trim` returns for a string.
pub uninterp spec fn trim_of(s: Seq<char>) -> Seq<char>;

/// Relies on `str::trim`: the string without leading and trailing
/// whitespace; an empty string stays empty.
#[verifier::external_body]
fn trimmed<'a>(s: &'a str) -> (r: &'a str)
    ensures
        r@ == trim_of(s@),
        s@.len() == 0 ==> r@.len() == 0,
{
    s.trim()
}

/// What `str::to_lowercase` returns for a string.
pub uninterp spec fn lower_of(s: Seq<char>) -> Seq<char>;

/// Relies on `str::to_lowercase`: the Unicode lower-case form, a function
/// of the characters alone; an empty string stays empty.
#[verifier::external_body]
fn lowercase(s: &str) -> (r: String)
    ensures
        r@ == lower_of(s@),
        s@.len() == 0 ==> r@.len() == 0,
{
    s.to_lowercase()
}

/// The free-text answers that stand for "nothing to report".
pub open spec fn is_empty_marker(s: Seq<char>) -> bool {
    ||| s == "-"@
    ||| s == "nein"@
    ||| s == "kein"@
    ||| s == "keine"@
    ||| s == "keins"@
    ||| s == "nichts"@
    ||| s == "nb"@
}

/// Normalises a free-text field: an answer that only says "none" (in any
/// casing, with surrounding whitespace) becomes the empty string; every
/// other text is kept as written.
pub fn cleanup_freetext(text: String) -> (r: String)
    ensures
        is_empty_marker(lower_of(trim_of(text@))) ==> r@ == Seq::<char>::empty(),
        !is_empty_marker(lower_of(trim_of(text@))) ==> r@ == text@,
{
    let lower = lowercase(trimmed(text.as_str()));
    let l = lower.as_str();
    if str_eq(l, "-") || str_eq(l, "nein") || str_eq(l, "kein") || str_eq(l, "keine") || str_eq(
        l,
        "keins",
    ) || str_eq(l, "nichts") || str_eq(l, "nb") {
        String::new()
    } else {
        text
    }
}

} // verus!
