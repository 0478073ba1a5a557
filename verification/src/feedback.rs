//! User-facing feedback state: at most one of an error message or a
//! status message.

use vstd::prelude::*;

verus! {

/// A one-shot feedback message for the user: either an error or a status
/// note, never both.
#[derive(Debug, PartialEq)]
pub struct Feedback {
    error: Option<String>,
    status: Option<String>,
}

impl Feedback {
    /// The error message held, if any.
    pub closed spec fn spec_error(&self) -> Option<Seq<char>> {
        self.error.deep_view()
    }

    /// The status message held, if any.
    pub closed spec fn spec_status(&self) -> Option<Seq<char>> {
        self.status.deep_view()
    }

    /// Feedback carrying an error message and no status.
    pub fn error(message: String) -> (r: Self)
        ensures
            r.spec_error() == Some(message@),
            r.spec_status() is None,
    {
        Feedback { error: Some(message), status: None }
    }

    /// Feedback carrying a status message and no error.
    pub fn status(message: String) -> (r: Self)
        ensures
            r.spec_status() == Some(message@),
            r.spec_error() is None,
    {
        Feedback { error: None, status: Some(message) }
    }

    pub fn error_text(&self) -> (r: Option<&str>)
        ensures
            match r {
                Some(s) => self.spec_error() == Some(s@),
                None => self.spec_error() is None,
            },
    {
        match &self.error {
            Some(s) => Some(s.as_str()),
            None => None,
        }
    }

    pub fn status_text(&self) -> (r: Option<&str>)
        ensures
            match r {
                Some(s) => self.spec_status() == Some(s@),
                None => self.spec_status() is None,
            },
    {
        match &self.status {
            Some(s) => Some(s.as_str()),
            None => None,
        }
    }
}

impl Default for Feedback {
    /// Empty feedback: no error, no status.
    fn default() -> (r: Self)
        ensures
            r.spec_error() is None,
            r.spec_status() is None,
    {
        Feedback { error: None, status: None }
    }
}

impl Clone for Feedback {
    fn clone(&self) -> (r: Self)
        ensures
            r.spec_error() == self.spec_error(),
            r.spec_status() == self.spec_status(),
    {
        let error: Option<String> = match &self.error {
            Some(s) => Some(s.clone()),
            None => None,
        };
        let status: Option<String> = match &self.status {
            Some(s) => Some(s.clone()),
            None => None,
        };
        Feedback { error, status }
    }
}

} // verus!
