//! Leaf matchers: they produce candidates without delegating further.
use vstd::prelude::*;
use crate::candidate::{MatchView, SimpleMatch};
use crate::text::{join_spaced, joined, replace, replaced, views};

verus! {

/// Produces nothing; selecting through it asks for a refresh.
pub struct NoopMatcher;

/// Always produces one fixed candidate.
pub struct DisplayHandler {
    pub title: String,
    pub icon: String,
    pub description: String,
}

/// Produces one candidate holding the standard output of a shell command.
pub struct CommandDisplayHandler {
    pub command: String,
}

/// Produces one candidate from a template: `{}` in the title or the
/// description stands for the remaining tokens joined with spaces.
pub struct WildcardHandler {
    pub title: String,
    pub icon: String,
    pub description: String,
}

/// The placeholder marker of a wildcard template.
pub open spec fn placeholder() -> Seq<char> {
    seq!['{', '}']
}

/// The text that ends a command display's error description before the error itself.
pub open spec fn failure_prefix() -> Seq<char> {
    "Failed to execute command: "@
}

impl DisplayHandler {
    pub fn new(title: &str, icon: &str, description: &str) -> (r: DisplayHandler)
        ensures
            r.title@ == title@,
            r.icon@ == icon@,
            r.description@ == description@,
    {
        DisplayHandler {
            title: title.to_string(),
            icon: icon.to_string(),
            description: description.to_string(),
        }
    }

    /// The fixed candidate.
    pub open spec fn candidate(&self) -> MatchView {
        (self.title@, self.icon@, self.description@)
    }

    pub fn get_matches(&self) -> (r: Vec<SimpleMatch>)
        ensures
            r@.len() == 1,
            r@[0]@ == self.candidate(),
    {
        let mut v: Vec<SimpleMatch> = Vec::new();
        v.push(SimpleMatch::new(self.title.as_str(), self.icon.as_str(), self.description.as_str()));
        v
    }
}

impl CommandDisplayHandler {
    pub fn new(command: &str) -> (r: CommandDisplayHandler)
        ensures
            r.command@ == command@,
    {
        CommandDisplayHandler { command: command.to_string() }
    }

    /// The candidate for a run whose standard output was `out`.
    pub open spec fn output_candidate(&self, out: Seq<char>) -> MatchView {
        (self.command@, Seq::empty(), out)
    }

    /// The candidate for a command that could not be run, with error text `err`.
    pub open spec fn failure_candidate(err: Seq<char>) -> MatchView {
        ("error"@, "dialog-error"@, failure_prefix() + err)
    }

    /// The one candidate for what running the command gave: its standard
    /// output, or the text of the error that kept it from running.
    pub fn matches_for(&self, run: Result<String, String>) -> (r: Vec<SimpleMatch>)
        ensures
            r@.len() == 1,
            match run {
                Ok(out) => r@[0]@ == self.output_candidate(out@),
                Err(err) => r@[0]@ == Self::failure_candidate(err@),
            },
    {
        let mut v: Vec<SimpleMatch> = Vec::new();
        match run {
            Ok(out) => {
                let empty = String::new();
                v.push(SimpleMatch::new(self.command.as_str(), empty.as_str(), out.as_str()));
            },
            Err(err) => {
                let description = String::from_str("Failed to execute command: ").concat(err.as_str());
                v.push(SimpleMatch::new("error", "dialog-error", description.as_str()));
            },
        }
        v
    }
}

impl WildcardHandler {
    pub fn new(title: &str, icon: &str, description: &str) -> (r: WildcardHandler)
        ensures
            r.title@ == title@,
            r.icon@ == icon@,
            r.description@ == description@,
    {
        WildcardHandler {
            title: title.to_string(),
            icon: icon.to_string(),
            description: description.to_string(),
        }
    }

    /// The candidate for tokens `tokens`.
    pub open spec fn candidate(&self, tokens: Seq<Seq<char>>) -> MatchView {
        let text = joined(tokens);
        (
            replaced(self.title@, placeholder(), text),
            self.icon@,
            replaced(self.description@, placeholder(), text),
        )
    }

    /// The one candidate built from `input[start..]`.
    pub fn matches_from(&self, input: &Vec<&str>, start: usize) -> (r: Vec<SimpleMatch>)
        requires
            start <= input.len(),
        ensures
            r@.len() == 1,
            r@[0]@ == self.candidate(views(input@.subrange(start as int, input.len() as int))),
    {
        let text = join_spaced(input, start, input.len());
        let marker = "{}";
        proof {
            reveal_strlit("{}");
            assert(marker@ == placeholder());
        }
        let title = replace(self.title.as_str(), marker, text.as_str());
        let description = replace(self.description.as_str(), marker, text.as_str());
        let mut v: Vec<SimpleMatch> = Vec::new();
        v.push(SimpleMatch::new(title.as_str(), self.icon.as_str(), description.as_str()));
        v
    }

    pub fn get_matches(&self, input: Vec<&str>) -> (r: Vec<SimpleMatch>)
        ensures
            r@.len() == 1,
            r@[0]@ == self.candidate(views(input@)),
    {
        let r = self.matches_from(&input, 0);
        assert(input@.subrange(0, input@.len() as int) =~= input@);
        r
    }
}

} // verus!
