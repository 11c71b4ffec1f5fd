//! Structured diagnostics shared by the change engine.

use vstd::prelude::*;

verus! {

/// The broad class of a diagnostic.
#[derive(Clone, Copy, Debug, PartialEq, Eq, Structural)]
pub enum DiagnosticClass {
    Source,
    Semantic,
    Resource,
    Corrupt,
    Infrastructure,
}

/// One diagnostic: a class, a stable machine-readable code and a human message.
#[derive(Clone, Debug)]
pub struct Diagnostic {
    pub class: DiagnosticClass,
    pub code: String,
    pub message: String,
}

impl Diagnostic {
    pub fn new(class: DiagnosticClass, code: &str, message: String) -> (r: Diagnostic)
        ensures
            r.class == class,
            r.code@ == code@,
            r.message == message,
    {
        Diagnostic { class, code: code.to_owned(), message }
    }

    /// Whether this diagnostic carries exactly the given code.
    pub fn has_code(&self, code: &str) -> (r: bool)
        ensures
            r == (self.code@ == code@),
    {
        self.code == code.to_owned()
    }
}

/// Whether two texts are the same.
pub fn same_text(a: &str, b: &str) -> (r: bool)
    ensures
        r == (a@ == b@),
{
    a.to_owned() == b.to_owned()
}

/// Text of a message that names no value.
pub fn static_message(text: &str) -> (r: String)
    ensures
        r@ == text@,
{
    text.to_owned()
}

} // verus!
