//! The form interface the site's templates render against.
//!
//! A form is a lookup of submitted field values; the helpers turn one field
//! into the exact attribute fragment the template needs. [`FormValues`]
//! holds the submitted fields as plain pairs and is the implementation the
//! handlers and the tests use; the site's typed forms implement the trait
//! the same way.

use vstd::prelude::*;
use vstd::string::StrSliceExecFns;
use vstd::string::StringExecFns;

use crate::strutil::{push_char, str_eq};

verus! {

/// What one character of an attribute value becomes in a double-quoted
/// HTML attribute.
pub open spec fn escape_attr_char(c: char) -> Seq<char> {
    if c == '&' {
        "&amp;"@
    } else if c == '<' {
        "&lt;"@
    } else if c == '>' {
        "&gt;"@
    } else if c == '"' {
        "&quot;"@
    } else if c == '\'' {
        "&#39;"@
    } else {
        seq![c]
    }
}

/// The attribute-safe form of a string.
pub open spec fn spec_escape_attr(s: Seq<char>) -> Seq<char>
    decreases s.len(),
{
    if s.len() == 0 {
        Seq::<char>::empty()
    } else {
        spec_escape_attr(s.drop_last()) + escape_attr_char(s.last())
    }
}

/// Escapes a value for use inside a double-quoted HTML attribute.
pub fn escape_html_attribute(s: &str) -> (r: String)
    ensures
        r@ == spec_escape_attr(s@),
{
    let n = s.unicode_len();
    let mut r = String::new();
    let mut i: usize = 0;
    while i < n
        invariant
            0 <= i <= n == s@.len(),
            r@ == spec_escape_attr(s@.take(i as int)),
        decreases n - i,
    {
        let c = s.get_char(i);
        let ghost old_r = r@;
        proof {
            assert(s@.take(i + 1).drop_last() =~= s@.take(i as int));
            assert(s@.take(i + 1).last() == s@[i as int]);
        }
        if c == '&' {
            r.append("&amp;");
        } else if c == '<' {
            r.append("&lt;");
        } else if c == '>' {
            r.append("&gt;");
        } else if c == '"' {
            r.append("&quot;");
        } else if c == '\'' {
            r.append("&#39;");
        } else {
            push_char(&mut r, c);
            proof {
                assert(r@ =~= old_r + seq![c]);
            }
        }
        i = i + 1;
    }
    proof {
        assert(s@.take(n as int) =~= s@);
    }
    r
}

/// A submitted form, seen as a lookup of its field values.
pub trait Form {
    /// The value submitted under `name`, if the form holds one.
    spec fn spec_value(&self, name: Seq<char>) -> Option<Seq<char>>;

    /// Looks the field `name` up.
    fn get_value(&self, name: &str) -> (r: Option<String>)
        ensures
            match r {
                Some(v) => self.spec_value(name@) == Some(v@),
                None => self.spec_value(name@) is None,
            },
    ;

    /// If this value exists and is the given value, return ` active`.
    fn bool_active(&self, name: &str, value: &str) -> (r: String)
        ensures
            r@ == if self.spec_value(name@) == Some(value@) {
                " active"@
            } else {
                Seq::<char>::empty()
            },
    {
        match self.get_value(name) {
            Some(v) => {
                if str_eq(v.as_str(), value) {
                    " active".to_owned()
                } else {
                    String::new()
                }
            }
            None => String::new(),
        }
    }

    /// If this value exists and is the given value, return ` checked=""`.
    fn bool_checked(&self, name: &str, value: &str) -> (r: String)
        ensures
            r@ == if self.spec_value(name@) == Some(value@) {
                " checked=\"\""@
            } else {
                Seq::<char>::empty()
            },
    {
        match self.get_value(name) {
            Some(v) => {
                if str_eq(v.as_str(), value) {
                    " checked=\"\"".to_owned()
                } else {
                    String::new()
                }
            }
            None => String::new(),
        }
    }

    /// If this value exists, return ` value="<value>"` with the value
    /// escaped, else return an empty string.
    fn opt_val(&self, name: &str) -> (r: String)
        ensures
            r@ == match self.spec_value(name@) {
                Some(v) => " value=\""@ + spec_escape_attr(v) + "\""@,
                None => Seq::<char>::empty(),
            },
    {
        match self.get_value(name) {
            Some(v) => String::from_str(" value=\"").concat(
                escape_html_attribute(v.as_str()).as_str(),
            ).concat("\""),
            None => String::new(),
        }
    }
}

/// The first value stored under `name`, scanning from the front.
pub open spec fn first_value(s: Seq<(String, String)>, name: Seq<char>) -> Option<Seq<char>>
    decreases s.len(),
{
    if s.len() == 0 {
        None
    } else if s[0].0@ == name {
        Some(s[0].1@)
    } else {
        first_value(s.drop_first(), name)
    }
}

/// Submitted form data as plain name–value pairs, in submission order; on a
/// duplicated name the first value wins.
#[derive(Debug)]
pub struct FormValues {
    pub entries: Vec<(String, String)>,
}

impl Form for FormValues {
    open spec fn spec_value(&self, name: Seq<char>) -> Option<Seq<char>> {
        first_value(self.entries@, name)
    }

    fn get_value(&self, name: &str) -> (r: Option<String>) {
        let n = self.entries.len();
        let mut i: usize = 0;
        proof {
            assert(self.entries@.skip(0) =~= self.entries@);
        }
        while i < n
            invariant
                0 <= i <= n == self.entries@.len(),
                first_value(self.entries@, name@) == first_value(
                    self.entries@.skip(i as int),
                    name@,
                ),
            decreases n - i,
        {
            proof {
                assert(self.entries@.skip(i as int)[0] == self.entries@[i as int]);
                assert(self.entries@.skip(i as int).drop_first() =~= self.entries@.skip(i + 1));
            }
            if str_eq(self.entries[i].0.as_str(), name) {
                return Some(self.entries[i].1.clone());
            }
            i = i + 1;
        }
        proof {
            assert(self.entries@.skip(n as int) =~= Seq::<(String, String)>::empty());
        }
        None
    }
}

} // verus!
