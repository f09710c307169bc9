use vstd::prelude::*;
use core::ops::Range;
use super::spec::SemaErrorV;

verus! {

/// A semantic error: a message, the main location with its label, and further
/// labelled locations.
#[derive(Debug)]
pub struct SemaError {
    pub message: String,
    pub primary: (Range<usize>, String),
    pub secondary: Vec<(Range<usize>, String)>,
}

pub open spec fn notes_view(v: Seq<(Range<usize>, String)>) -> Seq<(Range<usize>, Seq<char>)> {
    v.map_values(|p: (Range<usize>, String)| (p.0, p.1@))
}

impl View for SemaError {
    type V = SemaErrorV;

    open spec fn view(&self) -> SemaErrorV {
        SemaErrorV {
            message: self.message@,
            primary: (self.primary.0, self.primary.1@),
            secondary: notes_view(self.secondary@),
        }
    }
}

pub open spec fn errors_view(v: Seq<SemaError>) -> Seq<SemaErrorV> {
    v.map_values(|e: SemaError| e@)
}

impl SemaError {
    /// An error with its message and main location.
    pub fn new(message: String, span: Range<usize>, label: &str) -> (e: Self)
        ensures
            e@ == super::spec::err0(message@, span, label@),
    {
        let e = SemaError { message, primary: (span, String::from_str(label)), secondary: Vec::new() };
        assert(notes_view(e.secondary@) =~= seq![]);
        e
    }

    /// The same error with one more labelled location.
    pub fn with_note(self, span: Range<usize>, label: &str) -> (e: Self)
        ensures
            e@ == (SemaErrorV { secondary: self@.secondary.push((span, label@)), ..self@ }),
    {
        let mut s = self;
        let ghost old_notes = s.secondary@;
        s.secondary.push((span, String::from_str(label)));
        assert(notes_view(s.secondary@) =~= notes_view(old_notes).push((span, label@)));
        s
    }
}

/// Appends one error.
pub(crate) fn push_error(errors: &mut Vec<SemaError>, e: SemaError)
    ensures
        errors_view(final(errors)@) == errors_view(old(errors)@).push(e@),
{
    let ghost ev = e@;
    errors.push(e);
    assert(errors_view(errors@) =~= errors_view(old(errors)@).push(ev));
}

/// `prefix`, the text of `name`, then `suffix`.
pub(crate) fn message_with_name(prefix: &str, name: &String, suffix: &str) -> (m: String)
    ensures
        m@ == prefix@ + name@ + suffix@,
{
    let mut m = String::from_str(prefix);
    m.append(name.as_str());
    m.append(suffix);
    m
}

/// `prefix`, the character `c`, then `suffix`.
pub(crate) fn message_with_char(prefix: &str, c: char, suffix: &str) -> (m: String)
    ensures
        m@ == prefix@ + seq![c] + suffix@,
{
    let mut m = String::from_str(prefix);
    m.push(c);
    m.append(suffix);
    m
}

} // verus!
