//! Typed-form support: size limits shared across fields, the duplicate
//! field policy, and the content-type checks of the text and JSON field
//! readers.

use vstd::prelude::*;

use crate::error::{MultipartError, PayloadError};
use crate::headers::eq_ci;
use crate::bytes::lit;
use crate::media::MediaType;

verus! {

/// What a field collector does when a second field arrives under a
/// name it has already filled.
pub enum DuplicateField {
    /// Additional fields are not processed.
    Ignore,
    /// An error will be raised.
    Deny,
    /// All fields will be processed; the last one replaces the rest.
    Replace,
}

/// The remaining budgets for a form and for the current field.
pub struct Limits {
    pub total_limit_remaining: usize,
    pub memory_limit_remaining: usize,
    pub field_limit_remaining: Option<usize>,
}

impl Limits {
    /// Fresh budgets for one form.
    pub fn new(total_limit: usize, memory_limit: usize) -> (r: Limits)
        ensures
            r.total_limit_remaining == total_limit,
            r.memory_limit_remaining == memory_limit,
            r.field_limit_remaining is None,
    {
        Limits {
            total_limit_remaining: total_limit,
            memory_limit_remaining: memory_limit,
            field_limit_remaining: None,
        }
    }

    /// Charge `bytes` against the budgets: always against the total,
    /// against the memory budget when the chunk is kept in memory, and
    /// against the per-field budget when one is set.  An exhausted
    /// budget fails with an overflow payload error; budgets checked
    /// before the exhausted one stay charged.
    pub fn try_consume_limits(&mut self, bytes: usize, in_memory: bool) -> (r: Result<
        (),
        MultipartError,
    >)
        ensures
            ({
                let total_ok = bytes <= old(self).total_limit_remaining;
                let mem_ok = !in_memory || bytes <= old(self).memory_limit_remaining;
                let field_ok = match old(self).field_limit_remaining {
                    Some(f) => bytes <= f,
                    None => true,
                };
                if !total_ok {
                    r == Err::<(), _>(MultipartError::Payload(PayloadError::Overflow)) && *final(self) == *old(self)
                } else if !mem_ok {
                    r == Err::<(), _>(MultipartError::Payload(PayloadError::Overflow)) && final(self).total_limit_remaining == old(self).total_limit_remaining - bytes && final(self).memory_limit_remaining == old(self).memory_limit_remaining && final(self).field_limit_remaining == old(self).field_limit_remaining
                } else if !field_ok {
                    r == Err::<(), _>(MultipartError::Payload(PayloadError::Overflow)) && final(self).total_limit_remaining == old(self).total_limit_remaining - bytes && final(self).memory_limit_remaining == (if in_memory {
                        (old(self).memory_limit_remaining - bytes) as usize
                    } else {
                        old(self).memory_limit_remaining
                    }) && final(self).field_limit_remaining == old(self).field_limit_remaining
                } else {
                    r == Ok::<_, MultipartError>(()) && final(self).total_limit_remaining == old(self).total_limit_remaining - bytes && final(self).memory_limit_remaining == (
                    if in_memory {
                        (old(self).memory_limit_remaining - bytes) as usize
                    } else {
                        old(self).memory_limit_remaining
                    }) && final(self).field_limit_remaining == (
                    match old(self).field_limit_remaining {
                        Some(f) => Some((f - bytes) as usize),
                        None => None::<usize>,
                    })
                }
            }),
    {
        self.total_limit_remaining = match self.total_limit_remaining.checked_sub(bytes) {
            Some(v) => v,
            None => {
                return Err(MultipartError::Payload(PayloadError::Overflow));
            },
        };
        if in_memory {
            self.memory_limit_remaining = match self.memory_limit_remaining.checked_sub(bytes) {
                Some(v) => v,
                None => {
                    return Err(MultipartError::Payload(PayloadError::Overflow));
                },
            };
        }
        if let Some(field_limit) = self.field_limit_remaining {
            self.field_limit_remaining = match field_limit.checked_sub(bytes) {
                Some(v) => Some(v),
                None => {
                    return Err(MultipartError::Payload(PayloadError::Overflow));
                },
            };
        }
        Ok(())
    }
}

/// Whether a field's media type is acceptable to the plain-text field
/// reader: `text/plain` by subtype or suffix, or no `Content-Type` at
/// all, since `text/plain` is the default for form fields.
pub fn text_content_type_valid(content_type: Option<&MediaType>) -> (r: bool)
    ensures
        r == match content_type {
            Some(m) => eq_ci(m@.subtype, lit("plain"@)) || (m@.suffix matches Some(s) && eq_ci(
                s,
                lit("plain"@),
            )),
            None => true,
        },
{
    match content_type {
        Some(m) => {
            if crate::headers::eq_bytes_ci(m.subtype.as_slice(), "plain".as_bytes()) {
                true
            } else {
                match &m.suffix {
                    Some(s) => crate::headers::eq_bytes_ci(s.as_slice(), "plain".as_bytes()),
                    None => false,
                }
            }
        },
        None => true,
    }
}

/// Whether a field's media type is acceptable to the JSON field
/// reader: a JSON subtype or suffix; a missing `Content-Type` is not
/// accepted.
pub fn json_content_type_valid(content_type: Option<&MediaType>) -> (r: bool)
    ensures
        r == match content_type {
            Some(m) => eq_ci(m@.subtype, lit("json"@)) || (m@.suffix matches Some(s) && eq_ci(
                s,
                lit("json"@),
            )),
            None => false,
        },
{
    match content_type {
        Some(m) => {
            if crate::headers::eq_bytes_ci(m.subtype.as_slice(), "json".as_bytes()) {
                true
            } else {
                match &m.suffix {
                    Some(s) => crate::headers::eq_bytes_ci(s.as_slice(), "json".as_bytes()),
                    None => false,
                }
            }
        },
        None => false,
    }
}

} // verus!

verus! {

/// What a collector does with an arriving field value.
pub enum FieldAction {
    /// Drop the arriving value.
    Skip,
    /// Refuse it: the name was already filled and duplicates are
    /// denied.
    Reject,
    /// Store it (replacing any earlier value).
    Store,
}

/// Decide what to do with a field arriving under `name`-like state:
/// a fresh name is always stored; a repeated one follows the
/// duplicate-field policy.
pub fn duplicate_action(policy: &DuplicateField, already_present: bool) -> (r: FieldAction)
    ensures
        !already_present ==> r is Store,
        already_present ==> match policy {
            DuplicateField::Ignore => r is Skip,
            DuplicateField::Deny => r is Reject,
            DuplicateField::Replace => r is Store,
        },
{
    if !already_present {
        FieldAction::Store
    } else {
        match policy {
            DuplicateField::Ignore => FieldAction::Skip,
            DuplicateField::Deny => FieldAction::Reject,
            DuplicateField::Replace => FieldAction::Store,
        }
    }
}

} // verus!
