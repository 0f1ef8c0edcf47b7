//! The template form helpers, on concrete field values.

use zeltlager_website::form::{escape_html_attribute, Form, FormValues};

fn sample() -> FormValues {
    FormValues {
        entries: vec![
            ("geschlecht".to_string(), "m".to_string()),
            ("ort".to_string(), "München".to_string()),
            ("kommentar".to_string(), "sagt \"hi\" & <gruss>".to_string()),
            ("ort".to_string(), "Berlin".to_string()),
        ],
    }
}

#[test]
fn form_bool_active() {
    let f = sample();
    assert_eq!(f.bool_active("geschlecht", "m"), " active");
    assert_eq!(f.bool_active("geschlecht", "w"), "");
    assert_eq!(f.bool_active("fehlt", "m"), "");
    // On a duplicated name the first value wins.
    assert_eq!(f.bool_active("ort", "München"), " active");
    assert_eq!(f.bool_active("ort", "Berlin"), "");
}

#[test]
fn form_bool_checked() {
    let f = sample();
    assert_eq!(f.bool_checked("geschlecht", "m"), " checked=\"\"");
    assert_eq!(f.bool_checked("geschlecht", "w"), "");
    assert_eq!(f.bool_checked("fehlt", "x"), "");
}

#[test]
fn form_opt_val() {
    let f = sample();
    assert_eq!(f.opt_val("ort"), " value=\"München\"");
    assert_eq!(f.opt_val("fehlt"), "");
    assert_eq!(
        f.opt_val("kommentar"),
        " value=\"sagt &quot;hi&quot; &amp; &lt;gruss&gt;\""
    );
}

#[test]
fn attribute_escaping() {
    assert_eq!(escape_html_attribute(""), "");
    assert_eq!(escape_html_attribute("plain"), "plain");
    assert_eq!(escape_html_attribute("a'b"), "a&#39;b");
    assert_eq!(escape_html_attribute("<&>\"'"), "&lt;&amp;&gt;&quot;&#39;");
}
