//! What the prompts accept.
use vstd::prelude::*;
use crate::text::{chars_of, contains_ws, is_ws, trim, trim_chars};

verus! {

/// Why an answer to a prompt is refused.
#[derive(PartialEq, Eq, Structural, Clone, Copy, Debug)]
pub enum InputError {
    /// "Subject cannot be empty"
    EmptySubject,
    /// "Branch name cannot be empty"
    EmptyBranchName,
    /// "Branch name cannot contain spaces"
    SpaceInBranchName,
    /// "Template name cannot be empty"
    EmptyTemplateName,
}

impl InputError {
    /// The message shown for the refusal.
    pub fn message(&self) -> (r: String)
        ensures
            r@ == match *self {
                InputError::EmptySubject => "Subject cannot be empty"@,
                InputError::EmptyBranchName => "Branch name cannot be empty"@,
                InputError::SpaceInBranchName => "Branch name cannot contain spaces"@,
                InputError::EmptyTemplateName => "Template name cannot be empty"@,
            },
    {
        match self {
            InputError::EmptySubject => String::from_str("Subject cannot be empty"),
            InputError::EmptyBranchName => String::from_str("Branch name cannot be empty"),
            InputError::SpaceInBranchName => String::from_str("Branch name cannot contain spaces"),
            InputError::EmptyTemplateName => String::from_str("Template name cannot be empty"),
        }
    }
}

/// A commit subject is refused when it is blank.
pub fn validate_subject(input: &str) -> (r: Result<(), InputError>)
    ensures
        r == if trim(input@).len() == 0 {
            Err::<(), InputError>(InputError::EmptySubject)
        } else {
            Ok(())
        },
{
    let t = trim_chars(chars_of(input).as_slice());
    if t.len() == 0 {
        Err(InputError::EmptySubject)
    } else {
        Ok(())
    }
}

/// A branch name is refused when it is blank or holds whitespace.
pub fn validate_branch_name(input: &str) -> (r: Result<(), InputError>)
    ensures
        r == if trim(input@).len() == 0 {
            Err::<(), InputError>(InputError::EmptyBranchName)
        } else if exists|k: int| 0 <= k < input@.len() && is_ws(#[trigger] input@[k]) {
            Err(InputError::SpaceInBranchName)
        } else {
            Ok(())
        },
{
    let cs = chars_of(input);
    let t = trim_chars(cs.as_slice());
    if t.len() == 0 {
        Err(InputError::EmptyBranchName)
    } else if contains_ws(cs.as_slice()) {
        Err(InputError::SpaceInBranchName)
    } else {
        Ok(())
    }
}

/// A template name is refused when it is blank.
pub fn validate_template_name(name: &str) -> (r: Result<(), InputError>)
    ensures
        r == if trim(name@).len() == 0 {
            Err::<(), InputError>(InputError::EmptyTemplateName)
        } else {
            Ok(())
        },
{
    let t = trim_chars(chars_of(name).as_slice());
    if t.len() == 0 {
        Err(InputError::EmptyTemplateName)
    } else {
        Ok(())
    }
}

} // verus!
