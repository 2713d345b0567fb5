//! Candidates shown to the user, and the outcome of selecting one.
use vstd::prelude::*;

verus! {

/// A displayable, selectable result: title, icon name (empty for none) and
/// a description that is free text or a tagged action payload.
#[derive(Debug, Hash)]
pub struct SimpleMatch {
    pub title: String,
    pub icon: String,
    pub description: String,
}

/// A candidate as three character sequences: title, icon, description.
pub type MatchView = (Seq<char>, Seq<char>, Seq<char>);

impl View for SimpleMatch {
    type V = MatchView;

    open spec fn view(&self) -> MatchView {
        (self.title@, self.icon@, self.description@)
    }
}

impl SimpleMatch {
    pub fn new(title: &str, icon: &str, description: &str) -> (r: SimpleMatch)
        ensures
            r@ == (title@, icon@, description@),
    {
        SimpleMatch {
            title: title.to_string(),
            icon: icon.to_string(),
            description: description.to_string(),
        }
    }

    /// A candidate with the same three fields.
    pub fn duplicate(&self) -> (r: SimpleMatch)
        ensures
            r@ == self@,
    {
        SimpleMatch {
            title: self.title.clone(),
            icon: self.icon.clone(),
            description: self.description.clone(),
        }
    }
}

impl Clone for SimpleMatch {
    fn clone(&self) -> (r: SimpleMatch)
        ensures
            r@ == self@,
    {
        self.duplicate()
    }
}

impl PartialEq for SimpleMatch {
    fn eq(&self, other: &SimpleMatch) -> (r: bool)
        ensures
            r == (self@ == other@),
    {
        self.title == other.title && self.icon == other.icon && self.description == other.description
    }
}

impl Eq for SimpleMatch {
}

impl vstd::std_specs::cmp::PartialEqSpecImpl for SimpleMatch {
    open spec fn obeys_eq_spec() -> bool {
        true
    }

    open spec fn eq_spec(&self, other: &SimpleMatch) -> bool {
        self@ == other@
    }
}

/// What selecting a candidate leads to.
#[derive(Debug, PartialEq, Eq)]
pub enum HandleResult {
    /// End the interaction.
    Close,
    /// Re-run the query; `true` would also clear the input.
    Refresh(bool),
    /// Hand these bytes back to the caller as a copy payload.
    Copy(Vec<u8>),
}

} // verus!
