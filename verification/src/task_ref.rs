//! References to tasks as a user types them.

use vstd::prelude::*;
use vstd::std_specs::convert::FromSpecImpl;
use crate::ident::{hyphenated_form, hyphenated_text, hyphenated_value, parse_uuid, Uuid};
use crate::text::{
    all_hex_digits, chars_of, decimal, decimal_text, hex_digit, is_hex_digit, parse_u64,
    parsed_u64, quote, quoted,
};

verus! {

/// A reference to a task: the first six characters of the simple form of
/// its identifier, its whole identifier, or its number in a listing.
#[derive(Debug, PartialEq, Eq, Hash)]
pub enum TaskRef {
    ShortUUID(String),
    FullUUID(Uuid),
    Numerical(u64),
}

pub type TaskRefs = Vec<TaskRef>;

/// A reference as the contracts speak of it.
pub ghost enum TaskRefView {
    ShortUUID(Seq<char>),
    FullUUID(Uuid),
    Numerical(u64),
}

impl View for TaskRef {
    type V = TaskRefView;

    open spec fn view(&self) -> TaskRefView {
        match self {
            TaskRef::ShortUUID(prefix) => TaskRefView::ShortUUID(prefix@),
            TaskRef::FullUUID(id) => TaskRefView::FullUUID(*id),
            TaskRef::Numerical(n) => TaskRefView::Numerical(*n),
        }
    }
}

impl Clone for TaskRef {
    fn clone(&self) -> (copy: Self)
        ensures
            copy@ == self@,
    {
        match self {
            TaskRef::ShortUUID(prefix) => TaskRef::ShortUUID(prefix.clone()),
            TaskRef::FullUUID(id) => TaskRef::FullUUID(*id),
            TaskRef::Numerical(n) => TaskRef::Numerical(*n),
        }
    }
}

/// A text that is no reference to a task; it holds the text.
#[derive(Debug, PartialEq, Eq)]
pub struct TaskRefError(pub String);

/// Whether a text is exactly six hexadecimal digits, in either case.
pub open spec fn is_short_hex(text: Seq<char>) -> bool {
    text.len() == 6 && all_hex_digits(text)
}

/// The reference that a text stands for, given the identifier that the
/// text as a whole was read as, if any. A whole identifier wins over six
/// hexadecimal digits, and these win over a number.
pub open spec fn spec_classify(text: Seq<char>, full: Option<Uuid>) -> Option<TaskRefView> {
    match full {
        Some(id) => Some(TaskRefView::FullUUID(id)),
        None => if is_short_hex(text) {
            Some(TaskRefView::ShortUUID(text))
        } else {
            match parsed_u64(text) {
                Some(n) => Some(TaskRefView::Numerical(n)),
                None => None,
            }
        },
    }
}

/// The reference that a text stands for: the identifier that it writes in
/// hyphenated form, or else the six hexadecimal digits that it is, or else
/// the number that it writes in decimal. A text that is none of these
/// stands for no reference.
pub open spec fn spec_from_str(text: Seq<char>) -> Option<TaskRefView> {
    spec_classify(text, hyphenated_value(text))
}

/// Whether `text` is exactly six hexadecimal digits.
pub fn short_hex(text: &str) -> (short: bool)
    ensures
        short == is_short_hex(text@),
{
    let chars = chars_of(text);
    if chars.len() != 6 {
        return false;
    }
    let mut i: usize = 0;
    while i < chars.len()
        invariant
            i <= chars@.len(),
            chars@ == text@,
            forall|j: int| 0 <= j < i ==> is_hex_digit(#[trigger] chars@[j]),
        decreases chars@.len() - i,
    {
        if !hex_digit(chars[i]) {
            return false;
        }
        i += 1;
    }
    true
}

impl TaskRef {
    /// The reference that `text` stands for, where `full` is the identifier
    /// that the text as a whole was read as, if it was read as one.
    pub fn classify(text: &str, full: Option<Uuid>) -> (found: Result<TaskRef, TaskRefError>)
        ensures
            match found {
                Ok(reference) => spec_classify(text@, full) == Some(reference@),
                Err(error) => spec_classify(text@, full) is None && error.0@ == text@,
            },
    {
        match full {
            Some(id) => Ok(TaskRef::FullUUID(id)),
            None => {
                if short_hex(text) {
                    Ok(TaskRef::ShortUUID(text.to_owned()))
                } else {
                    match parse_u64(text) {
                        Some(n) => Ok(TaskRef::Numerical(n)),
                        None => Err(TaskRefError(text.to_owned())),
                    }
                }
            },
        }
    }

    /// The reference that `text` stands for. Only the hyphenated form is
    /// read as a whole identifier, and a text of six hexadecimal digits is
    /// always the beginning of an identifier, also where it could be read
    /// as a number.
    pub fn from_str(text: &str) -> (found: Result<TaskRef, TaskRefError>)
        ensures
            match found {
                Ok(reference) => spec_from_str(text@) == Some(reference@),
                Err(error) => spec_from_str(text@) is None && error.0@ == text@,
            },
            is_short_hex(text@) ==> found is Ok && found->Ok_0@ == TaskRefView::ShortUUID(text@),
    {
        let full = if text.unicode_len() == 36 {
            parse_uuid(text)
        } else {
            None
        };
        TaskRef::classify(text, full)
    }

    /// The reference as a user would type it.
    pub open spec fn spec_to_string(self) -> Seq<char> {
        match self {
            TaskRef::ShortUUID(prefix) => prefix@,
            TaskRef::FullUUID(id) => hyphenated_form(id),
            TaskRef::Numerical(n) => decimal(n as int),
        }
    }

    /// The reference as a user would type it: the six digits, the
    /// hyphenated form of the identifier, or the number in decimal.
    pub fn to_string(&self) -> (text: String)
        ensures
            text@ == self.spec_to_string(),
    {
        match self {
            TaskRef::ShortUUID(prefix) => prefix.clone(),
            TaskRef::FullUUID(id) => hyphenated_text(*id),
            TaskRef::Numerical(n) => decimal_text(*n as i128),
        }
    }
}

impl From<Uuid> for TaskRef {
    fn from(id: Uuid) -> (reference: Self) {
        TaskRef::FullUUID(id)
    }
}

impl FromSpecImpl<Uuid> for TaskRef {
    open spec fn obeys_from_spec() -> bool {
        true
    }

    open spec fn from_spec(id: Uuid) -> Self {
        TaskRef::FullUUID(id)
    }
}

impl TaskRefError {
    /// What is told to the user: that the reference is unknown, and the
    /// text that was given.
    pub fn to_string(&self) -> (text: String)
        ensures
            text@ == "Unknown task reference "@ + quoted(self.0@),
    {
        let mut text = "Unknown task reference ".to_owned();
        let given = quote(self.0.as_str());
        text.append(given.as_str());
        text
    }
}

} // verus!
