//! The form validators and the date parsing, on concrete values.

use zeltlager_website::config::default_bind_address;
use zeltlager_website::dates::{parse_date_with_year, try_parse_date, years_old, Date};
use zeltlager_website::forms::{
    check_email, check_house_number, check_krankenversicherung, check_plz, cleanup_freetext,
    try_parse_gender, Gender,
};

#[test]
fn parse_date() {
    for d in &[
        ("02.01.2000", Date::from_calendar_date(2000, 1, 2)),
        ("2000-01-02", Date::from_calendar_date(2000, 1, 2)),
        ("02.01.01", Date::from_calendar_date(2001, 1, 2)),
        ("02.01.95", Date::from_calendar_date(1995, 1, 2)),
        ("2.1.2000", Date::from_calendar_date(2000, 1, 2)),
        ("2000-1-2", Date::from_calendar_date(2000, 1, 2)),
    ] {
        println!("Parse: {}", d.0);
        let res = try_parse_date(d.0, "").unwrap();
        assert_eq!(d.1.unwrap(), res);
    }
}

#[test]
fn parse_date_rejects() {
    assert!(try_parse_date("", "geburtsdatum").is_err());
    assert!(try_parse_date("01022000", "geburtsdatum").is_err());
    assert!(try_parse_date("31.02.2000", "geburtsdatum").is_err());
    assert!(try_parse_date("1.2", "geburtsdatum").is_err());
    assert!(try_parse_date("a.b.c", "geburtsdatum").is_err());
    assert!(try_parse_date("1.2.3.4", "geburtsdatum").is_err());
    let e = try_parse_date("kein datum", "geburtsdatum").unwrap_err();
    assert_eq!(e.field.as_deref(), Some("geburtsdatum"));
    assert_eq!(
        e.message,
        "Bitte geben Sie das Datum (kein datum) im Format TT.MM.JJJJ an."
    );
}

#[test]
fn parse_date_century_fixup() {
    // Against a fixed current year the century of a two-digit year is
    // exact: at most the current year's remainder it lands in the current
    // century, above it in the one before.
    let d = parse_date_with_year("02.01.01", "", 2026).unwrap();
    assert_eq!(d, Date { year: 2001, month: 1, day: 2 });
    let d = parse_date_with_year("15.06.26", "", 2026).unwrap();
    assert_eq!(d, Date { year: 2026, month: 6, day: 15 });
    let d = parse_date_with_year("15.06.30", "", 2026).unwrap();
    assert_eq!(d, Date { year: 1930, month: 6, day: 15 });
    // A leap day that only exists in one century parses there and is
    // rejected where the fixed-up year is no leap year.
    let d = parse_date_with_year("29.02.04", "", 2026).unwrap();
    assert_eq!(d, Date { year: 2004, month: 2, day: 29 });
    // Year 1900 itself is no leap year: raw 29.02.1900 is already invalid.
    assert!(parse_date_with_year("29.02.1900", "", 2026).is_err());
}

#[test]
fn calendar_validity() {
    assert!(Date::from_calendar_date(2000, 2, 29).is_some());
    assert!(Date::from_calendar_date(1900, 2, 29).is_none());
    assert!(Date::from_calendar_date(2004, 2, 29).is_some());
    assert!(Date::from_calendar_date(2001, 2, 29).is_none());
    assert!(Date::from_calendar_date(2000, 4, 31).is_none());
    assert!(Date::from_calendar_date(2000, 12, 31).is_some());
    assert!(Date::from_calendar_date(2000, 0, 1).is_none());
    assert!(Date::from_calendar_date(2000, 13, 1).is_none());
    assert!(Date::from_calendar_date(-1, 1, 1).is_none());
    assert!(Date::from_calendar_date(10000, 1, 1).is_none());
}

#[test]
fn age_at_camp_start() {
    let camp = Date { year: 2010, month: 8, day: 1 };
    // The odd argument order follows the signup rules: the camp's start is
    // the second argument.
    assert_eq!(years_old(Date { year: 2000, month: 8, day: 1 }, &camp), 10);
    assert_eq!(years_old(Date { year: 2000, month: 8, day: 2 }, &camp), 9);
    assert_eq!(years_old(Date { year: 2000, month: 9, day: 1 }, &camp), 9);
    assert_eq!(years_old(Date { year: 2000, month: 7, day: 31 }, &camp), 10);
}

#[test]
fn gender_spellings() {
    assert_eq!(try_parse_gender("m").unwrap(), Gender::Male);
    assert_eq!(try_parse_gender("Maennlich").unwrap(), Gender::Male);
    assert_eq!(try_parse_gender("männlich").unwrap(), Gender::Male);
    assert_eq!(try_parse_gender("w").unwrap(), Gender::Female);
    assert_eq!(try_parse_gender("Female").unwrap(), Gender::Female);
    let e = try_parse_gender("x").unwrap_err();
    assert_eq!(e.field.as_deref(), Some("geschlecht"));
    assert_eq!(e.message, "x ist kein bekanntes Geschlecht.");
    assert_eq!(Gender::Male.as_letter(), "m");
    assert_eq!(Gender::Female.as_letter(), "w");
}

#[test]
fn postal_codes() {
    assert!(check_plz("80331", "Deutschland").is_ok());
    assert!(check_plz("1010", "Österreich").is_ok());
    let e = check_plz("8033a", "Deutschland").unwrap_err();
    assert_eq!(e.field.as_deref(), Some("plz"));
    assert_eq!(
        e.message,
        "Ungültige Postleitzahl (8033a), darf nur Zahlen enthalten"
    );
    let e = check_plz("8033", "Deutschland").unwrap_err();
    assert_eq!(e.message, "Ungültige Postleitzahl (8033), muss 5 Stellen haben");
}

#[test]
fn health_insurance_words() {
    assert!(check_krankenversicherung("gesetzlich").is_ok());
    assert!(check_krankenversicherung("privat").is_ok());
    assert!(check_krankenversicherung("anderes").is_ok());
    let e = check_krankenversicherung("keine").unwrap_err();
    assert_eq!(e.field.as_deref(), Some("krankenversicherung"));
    assert_eq!(
        e.message,
        "Ungültige Krankenversicherung (keine), muss entweder gesetzlich, privat oder anderes sein"
    );
}

#[test]
fn mail_addresses() {
    assert!(check_email("x@abc.de", "eltern_mail").is_ok());
    assert!(check_email("my.long-mail_address@even-longer-domain.ending", "mail").is_ok());
    let e = check_email("nothing", "eltern_mail").unwrap_err();
    assert_eq!(e.field.as_deref(), Some("eltern_mail"));
    assert_eq!(e.message, "Ungültige E-Mail-Adresse (nothing), muss ein @ enthalten");
    let e = check_email("a@b@c", "mail").unwrap_err();
    assert_eq!(
        e.message,
        "Ungültige E-Mail-Adresse (a@b@c), bitten nur eine einzelne E-Mail-Adresse angeben"
    );
    let e = check_email("a b@c", "mail").unwrap_err();
    assert_eq!(
        e.message,
        "Ungültige E-Mail-Adresse (a b@c), darf keine Leerzeichen enthalten"
    );
}

#[test]
fn house_numbers() {
    assert!(check_house_number("12a").is_ok());
    assert!(check_house_number("Haus 7").is_ok());
    let e = check_house_number("ohne").unwrap_err();
    assert_eq!(e.field.as_deref(), Some("hausnummer"));
    assert_eq!(
        e.message,
        "Ungültige Hausnummer (ohne), muss mindestens eine Ziffer enthalten"
    );
}

#[test]
fn freetext_markers() {
    assert_eq!(cleanup_freetext("-".to_string()), "");
    assert_eq!(cleanup_freetext(" Nein ".to_string()), "");
    assert_eq!(cleanup_freetext("KEINE".to_string()), "");
    assert_eq!(cleanup_freetext("nb".to_string()), "");
    assert_eq!(cleanup_freetext("Erdnüsse".to_string()), "Erdnüsse");
    assert_eq!(cleanup_freetext(" Heuschnupfen ".to_string()), " Heuschnupfen ");
    assert_eq!(cleanup_freetext("".to_string()), "");
}

#[test]
fn bind_address_default() {
    assert_eq!(default_bind_address(), "127.0.0.1:8080");
}
