//! Validation of boundary input: email addresses, `YYYY-MM-DD` dates, and
//! passwords.  Each rule is a [`Validator`]: it says in spec which strings it
//! accepts and what value it hands back, and the executable check is proved
//! to follow that.

use crate::date::{spec_date_of_seq, spec_is_date_seq, Date};
use vstd::prelude::*;
use vstd::string::StrSliceExecFns;

verus! {

/// A failed validation, carrying a human-readable message.
#[derive(Debug)]
pub struct ValidationError {
    details: String,
}

impl ValidationError {
    /// The message, as a spec-level view of the private field.
    pub closed spec fn spec_details(self) -> Seq<char> {
        self.details@
    }

    /// Build a validation error from its message.
    pub fn new(msg: &str) -> (r: ValidationError)
        ensures
            r.spec_details() == msg@,
    {
        ValidationError { details: msg.to_owned() }
    }

    /// The message, for display at the boundary.
    pub fn message(&self) -> (r: &str)
        ensures
            r@ == self.spec_details(),
    {
        self.details.as_str()
    }
}

/// A validation rule over boundary strings.  `spec_valid` names the strings
/// the rule accepts, `spec_value` the value parsed from an accepted string,
/// and `validate` is bound to both.
pub trait Validator<T> {
    /// The strings this rule accepts.
    spec fn spec_valid(&self, s: Seq<char>) -> bool;

    /// The value parsed from an accepted string.
    spec fn spec_value(&self, s: Seq<char>) -> T;

    /// Check the input against the rule and hand back the parsed value.
    fn validate(&self, input: &str) -> (r: Result<T, ValidationError>)
        ensures
            r is Ok <==> self.spec_valid(input@),
            r matches Ok(v) ==> v == self.spec_value(input@),
    ;
}

/// Characters admitted around an email's separators: anything but `@` and
/// whitespace.
pub open spec fn spec_email_char(c: char) -> bool {
    c != '@' && c != ' ' && c != '\t' && c != '\n' && c != '\r'
}

/// The string splits as `A@B.C` at `@`-position `a`: `A`, `B` and `C` are
/// nonempty and free of `@` and whitespace (`B` and `C` may hold more dots).
pub open spec fn spec_email_split(s: Seq<char>, a: int) -> bool {
    &&& 1 <= a < s.len()
    &&& s[a] == '@'
    &&& forall|k: int| 0 <= k < s.len() && k != a ==> spec_email_char(#[trigger] s[k])
    &&& exists|j: int| a + 2 <= j && j + 1 < s.len() && (#[trigger] s[j]) == '.'
}

/// The shape of an acceptable email address: some split `A@B.C` works.
pub open spec fn spec_is_email(s: Seq<char>) -> bool {
    exists|a: int| spec_email_split(s, a)
}

/// Accepts strings of the shape `A@B.C`: one `@` with nonempty pieces
/// around it, a `.` properly inside the part after the `@`, and neither
/// whitespace nor a second `@` anywhere.
pub struct EmailValidator;

impl Validator<()> for EmailValidator {
    open spec fn spec_valid(&self, s: Seq<char>) -> bool {
        spec_is_email(s)
    }

    open spec fn spec_value(&self, s: Seq<char>) -> () {
        ()
    }

    fn validate(&self, input: &str) -> (r: Result<(), ValidationError>) {
        let n = input.unicode_len();
        if n < 5 {
            proof {
                if spec_is_email(input@) {
                    let a = choose|a: int| spec_email_split(input@, a);
                    let j = choose|j: int|
                        a + 2 <= j && j + 1 < input@.len() && (#[trigger] input@[j]) == '.';
                }
            }
            return Err(ValidationError::new("Invalid email address"));
        }
        // One pass over the characters: find the single `@`, reject a second
        // one and any whitespace.
        let mut found_at: bool = false;
        let mut at_pos: usize = 0;
        let mut k: usize = 0;
        while k < n
            invariant
                n == input@.len(),
                k <= n,
                found_at ==> at_pos < k && input@[at_pos as int] == '@',
                forall|p: int|
                    0 <= p < k && !(found_at && p == at_pos as int) ==> spec_email_char(
                        #[trigger] input@[p],
                    ),
            decreases n - k,
        {
            let c = input.get_char(k);
            if c == '@' {
                if found_at {
                    proof {
                        if spec_is_email(input@) {
                            let a = choose|a: int| spec_email_split(input@, a);
                            if a != at_pos as int {
                                assert(spec_email_char(input@[at_pos as int]));
                            } else {
                                assert(spec_email_char(input@[k as int]));
                            }
                        }
                    }
                    return Err(ValidationError::new("Invalid email address"));
                }
                found_at = true;
                at_pos = k;
            } else if c == ' ' || c == '\t' || c == '\n' || c == '\r' {
                proof {
                    if spec_is_email(input@) {
                        let a = choose|a: int| spec_email_split(input@, a);
                        assert(spec_email_char(input@[k as int]));
                    }
                }
                return Err(ValidationError::new("Invalid email address"));
            }
            k = k + 1;
        }
        if !found_at {
            proof {
                if spec_is_email(input@) {
                    let a = choose|a: int| spec_email_split(input@, a);
                    assert(spec_email_char(input@[a]));
                }
            }
            return Err(ValidationError::new("Invalid email address"));
        }
        if at_pos == 0 {
            proof {
                if spec_is_email(input@) {
                    let a = choose|a: int| spec_email_split(input@, a);
                    assert(spec_email_char(input@[a]));
                }
            }
            return Err(ValidationError::new("Invalid email address"));
        }
        if at_pos >= n - 3 {
            // No room after the `@` for a nonempty `B`, a dot, and a
            // nonempty `C`.
            proof {
                if spec_is_email(input@) {
                    let a = choose|a: int| spec_email_split(input@, a);
                    if a != at_pos as int {
                        assert(spec_email_char(input@[a]));
                    }
                    let j = choose|j: int|
                        a + 2 <= j && j + 1 < input@.len() && (#[trigger] input@[j]) == '.';
                }
            }
            return Err(ValidationError::new("Invalid email address"));
        }
        // Second pass: look for a dot strictly between `@` and the end.
        let mut j: usize = at_pos + 2;
        while j < n - 1
            invariant
                n == input@.len(),
                5 <= n,
                j <= n,
                found_at,
                at_pos as int + 2 <= j,
                input@[at_pos as int] == '@',
                1 <= at_pos < n,
                forall|p: int|
                    0 <= p < n && p != at_pos as int ==> spec_email_char(#[trigger] input@[p]),
                forall|p: int| at_pos as int + 2 <= p < j ==> input@[p] != '.',
            decreases n - j,
        {
            if input.get_char(j) == '.' {
                proof {
                    assert(spec_email_split(input@, at_pos as int));
                }
                return Ok(());
            }
            j = j + 1;
        }
        proof {
            if spec_is_email(input@) {
                let a = choose|a: int| spec_email_split(input@, a);
                if a != at_pos as int {
                    assert(spec_email_char(input@[a]));
                }
                let w = choose|w: int|
                    a + 2 <= w && w + 1 < input@.len() && (#[trigger] input@[w]) == '.';
            }
        }
        Err(ValidationError::new("Invalid email address"))
    }
}

/// Accepts exactly the `YYYY-MM-DD` renderings of actual calendar days and
/// hands back the numbers as `(year, day, month)`.
pub struct DateValidator;

impl Validator<(i32, i32, i32)> for DateValidator {
    open spec fn spec_valid(&self, s: Seq<char>) -> bool {
        spec_is_date_seq(s)
    }

    open spec fn spec_value(&self, s: Seq<char>) -> (i32, i32, i32) {
        let d = spec_date_of_seq(s);
        (d.year as i32, d.day as i32, d.month as i32)
    }

    fn validate(&self, input: &str) -> (r: Result<(i32, i32, i32), ValidationError>) {
        match Date::parse(input) {
            Some(d) => Ok((d.year as i32, d.day as i32, d.month as i32)),
            None => Err(ValidationError::new("Invalid date format, expected YYYY-MM-DD")),
        }
    }
}

/// Accepts any string of at least five characters.
pub struct PasswordValidator;

impl Validator<()> for PasswordValidator {
    open spec fn spec_valid(&self, s: Seq<char>) -> bool {
        s.len() >= 5
    }

    open spec fn spec_value(&self, s: Seq<char>) -> () {
        ()
    }

    fn validate(&self, input: &str) -> (r: Result<(), ValidationError>) {
        if input.unicode_len() >= 5 {
            Ok(())
        } else {
            Err(ValidationError::new("Password must be at least 5 characters long"))
        }
    }
}

} // verus!
