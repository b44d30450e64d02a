//! Per-field form validation for the edit buffer: stateless rules that
//! run on every change and never block a commit.

use vstd::prelude::*;

verus! {

/// Validation outcome of one form field.
pub struct FormFieldState {
    pub is_valid: bool,
    pub validation_message: String,
}

impl FormFieldState {
    /// A field starts out valid, with no message.
    pub fn new() -> (r: Self)
        ensures
            r.is_valid,
            r.validation_message@ == Seq::<char>::empty(),
    {
        FormFieldState { is_valid: true, validation_message: String::new() }
    }
}

impl Clone for FormFieldState {
    fn clone(&self) -> (r: Self)
        ensures
            r.is_valid == self.is_valid,
            r.validation_message@ == self.validation_message@,
    {
        FormFieldState {
            is_valid: self.is_valid,
            validation_message: self.validation_message.clone(),
        }
    }
}

/// Validation state of the whole project form.
pub struct ProjectFormState {
    pub name_field: FormFieldState,
    pub description_field: FormFieldState,
}

impl ProjectFormState {
    /// Both fields start out valid.
    pub fn new() -> (r: Self)
        ensures
            r.name_field.is_valid,
            r.name_field.validation_message@ == Seq::<char>::empty(),
            r.description_field.is_valid,
            r.description_field.validation_message@ == Seq::<char>::empty(),
    {
        ProjectFormState {
            name_field: FormFieldState::new(),
            description_field: FormFieldState::new(),
        }
    }
}

/// The one rule on the name field: it must not be empty.
pub fn validate_name(name: &str) -> (r: FormFieldState)
    ensures
        r.is_valid == (name@.len() > 0),
        name@.len() == 0 ==> r.validation_message@ == "Name is required"@,
        name@.len() > 0 ==> r.validation_message@ == Seq::<char>::empty(),
{
    if name.unicode_len() == 0 {
        FormFieldState { is_valid: false, validation_message: "Name is required".to_owned() }
    } else {
        FormFieldState { is_valid: true, validation_message: String::new() }
    }
}

} // verus!
