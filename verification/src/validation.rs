//! Registration input rules: name and password lengths, password strength,
//! email shape.
use crate::errors::{ValidationDetail, ValidationError};
use crate::text::is_digit;
use vstd::prelude::*;

verus! {

/// Whether a string is a valid email address under the HTML5 rules the
/// validator crate implements.
pub uninterp spec fn is_valid_email(s: Seq<char>) -> bool;

/// Relies on validator's ValidateEmail for str: the HTML5 email check, a
/// pure function of the string.  An empty string is never valid.
#[verifier::external_body]
fn email_shape_ok(s: &str) -> (r: bool)
    ensures
        r == is_valid_email(s@),
        s@.len() == 0 ==> !r,
{
    validator::ValidateEmail::validate_email(&s)
}

/// Whether a character counts as uppercase (the Unicode property).
pub uninterp spec fn is_uppercase_char(c: char) -> bool;

/// Whether a character counts as lowercase (the Unicode property).
pub uninterp spec fn is_lowercase_char(c: char) -> bool;

/// Relies on char::is_uppercase of std: the Unicode uppercase property.
pub assume_specification[ char::is_uppercase ](c: char) -> (r: bool)
    ensures
        r == is_uppercase_char(c),
;

/// Relies on char::is_lowercase of std: the Unicode lowercase property.
pub assume_specification[ char::is_lowercase ](c: char) -> (r: bool)
    ensures
        r == is_lowercase_char(c),
;

/// The punctuation a strong password must draw from.
pub open spec fn is_special_char(c: char) -> bool {
    c == '!' || c == '@' || c == '#' || c == '$' || c == '%' || c == '^' || c == '&' || c == '*'
        || c == '(' || c == ')' || c == '_' || c == '+' || c == '-' || c == '=' || c == '[' || c
        == ']' || c == '{' || c == '}' || c == '|' || c == ';' || c == ':' || c == ',' || c == '.'
        || c == '<' || c == '>' || c == '?'
}

/// Whether a character is one of the accepted special characters.
pub fn special(c: char) -> (r: bool)
    ensures
        r == is_special_char(c),
{
    match c {
        '!' | '@' | '#' | '$' | '%' | '^' | '&' | '*' | '(' | ')' | '_' | '+' | '-' | '='
            | '[' | ']' | '{' | '}' | '|' | ';' | ':' | ',' | '.' | '<' | '>' | '?' => true,
        _ => false,
    }
}

/// A strong password holds an uppercase letter, a lowercase letter, a
/// decimal digit, and a special character.
pub open spec fn password_strong(s: Seq<char>) -> bool {
    &&& exists|i: int| 0 <= i < s.len() && is_uppercase_char(#[trigger] s[i])
    &&& exists|i: int| 0 <= i < s.len() && is_lowercase_char(#[trigger] s[i])
    &&& exists|i: int| 0 <= i < s.len() && is_digit(#[trigger] s[i])
    &&& exists|i: int| 0 <= i < s.len() && is_special_char(#[trigger] s[i])
}

/// The strength rule on its own, as the registration form applies it.
pub fn validate_password_strength(password: &str) -> (r: bool)
    ensures
        r == password_strong(password@),
{
    let n = password.unicode_len();
    let mut has_upper = false;
    let mut has_lower = false;
    let mut has_digit = false;
    let mut has_special = false;
    let mut i: usize = 0;
    while i < n
        invariant
            i <= n,
            n == password@.len(),
            has_upper == exists|j: int| 0 <= j < i && is_uppercase_char(#[trigger] password@[j]),
            has_lower == exists|j: int| 0 <= j < i && is_lowercase_char(#[trigger] password@[j]),
            has_digit == exists|j: int| 0 <= j < i && is_digit(#[trigger] password@[j]),
            has_special == exists|j: int| 0 <= j < i && is_special_char(#[trigger] password@[j]),
        decreases n - i,
    {
        let c = password.get_char(i);
        if c.is_uppercase() {
            has_upper = true;
        }
        if c.is_lowercase() {
            has_lower = true;
        }
        if crate::text::digit(c) {
            has_digit = true;
        }
        if special(c) {
            has_special = true;
        }
        i = i + 1;
    }
    has_upper && has_lower && has_digit && has_special
}

/// The name rule: between 3 and 48 characters.
pub open spec fn name_ok(s: Seq<char>) -> bool {
    3 <= s.len() <= 48
}

/// The password length rule: between 8 and 128 characters.
pub open spec fn password_len_ok(s: Seq<char>) -> bool {
    8 <= s.len() <= 128
}

/// The password rules: length and strength.
pub open spec fn password_ok(s: Seq<char>) -> bool {
    password_len_ok(s) && password_strong(s)
}

/// The email rules: a valid address of at most 254 characters.
pub open spec fn email_ok(s: Seq<char>) -> bool {
    is_valid_email(s) && s.len() <= 254
}

/// All three registration rules at once.
pub open spec fn registration_ok(name: Seq<char>, password: Seq<char>, email: Seq<char>) -> bool {
    name_ok(name) && password_ok(password) && email_ok(email)
}

/// Checks a registration payload, collecting one detail entry per failing
/// field, in field order: the name's length rule, then the password's
/// length and strength rules, then the email's shape and length rules.
pub fn format_validation_errors(name: &str, password: &str, email: &str) -> (r: Result<
    (),
    ValidationError,
>)
    ensures
        r is Ok <==> registration_ok(name@, password@, email@),
        r matches Err(e) ==> ({
            let pidx: int = if name_ok(name@) { 0 } else { 1 };
            let eidx: int = pidx + if password_ok(password@) { 0int } else { 1 };
            &&& e.error@ == "Validation failed"@
            &&& e.details@.len() == (if name_ok(name@) { 0int } else { 1 }) + (if password_ok(password@) { 0int } else { 1 }) + (if email_ok(email@) { 0int } else { 1 })
            &&& !name_ok(name@) ==> e.details@[0].field@ == "name"@
                && e.details@[0].messages@.len() == 1 && e.details@[0].messages@[0]@
                == "Name must be between 3 and 48 characters"@
            &&& !password_ok(password@) ==> e.details@[pidx].field@ == "password"@
            &&& !password_len_ok(password@) ==> e.details@[pidx].messages@[0]@
                == "Password must be between 8 and 128 characters"@
            &&& password_len_ok(password@) && !password_strong(password@)
                ==> e.details@[pidx].messages@.len() == 1 && e.details@[pidx].messages@[0]@
                == "Password must contain at least one uppercase letter, one lowercase letter, one digit, and one special character"@
            &&& !password_len_ok(password@) && !password_strong(password@)
                ==> e.details@[pidx].messages@.len() == 2 && e.details@[pidx].messages@[1]@
                == "Password must contain at least one uppercase letter, one lowercase letter, one digit, and one special character"@
            &&& !password_len_ok(password@) && password_strong(password@)
                ==> e.details@[pidx].messages@.len() == 1
            &&& !email_ok(email@) ==> e.details@[eidx].field@ == "email"@
            &&& !is_valid_email(email@) ==> e.details@[eidx].messages@[0]@
                == "Invalid email format"@
            &&& is_valid_email(email@) && email@.len() > 254 ==> e.details@[eidx].messages@.len()
                == 1 && e.details@[eidx].messages@[0]@ == "Email is too long"@
            &&& !is_valid_email(email@) && email@.len() > 254 ==> e.details@[eidx].messages@.len()
                == 2 && e.details@[eidx].messages@[1]@ == "Email is too long"@
            &&& !is_valid_email(email@) && email@.len() <= 254 ==> e.details@[eidx].messages@.len()
                == 1
        }),
{
    let mut details: Vec<ValidationDetail> = Vec::new();
    let name_len = name.unicode_len();
    if name_len < 3 || name_len > 48 {
        let mut messages: Vec<String> = Vec::new();
        messages.push(String::from_str("Name must be between 3 and 48 characters"));
        details.push(ValidationDetail { field: String::from_str("name"), messages });
    }
    let password_len = password.unicode_len();
    let strong = validate_password_strength(password);
    if password_len < 8 || password_len > 128 || !strong {
        let mut messages: Vec<String> = Vec::new();
        if password_len < 8 || password_len > 128 {
            messages.push(String::from_str("Password must be between 8 and 128 characters"));
        }
        if !strong {
            messages.push(
                String::from_str(
                    "Password must contain at least one uppercase letter, one lowercase letter, one digit, and one special character",
                ),
            );
        }
        details.push(ValidationDetail { field: String::from_str("password"), messages });
    }
    let email_len = email.unicode_len();
    let shape = email_shape_ok(email);
    if !shape || email_len > 254 {
        let mut messages: Vec<String> = Vec::new();
        if !shape {
            messages.push(String::from_str("Invalid email format"));
        }
        if email_len > 254 {
            messages.push(String::from_str("Email is too long"));
        }
        details.push(ValidationDetail { field: String::from_str("email"), messages });
    }
    if details.len() == 0 {
        Ok(())
    } else {
        proof {
            reveal_strlit("Validation failed");
        }
        Err(ValidationError { error: String::from_str("Validation failed"), details })
    }
}

} // verus!
