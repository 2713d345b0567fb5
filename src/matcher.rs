//! The matcher tree: a closed set of matcher variants, the recursive
//! traversal that produces candidates, and the interpretation of a selected
//! candidate's payload.
use vstd::prelude::*;
use crate::candidate::{HandleResult, MatchView, SimpleMatch};
use crate::handlers::{CommandDisplayHandler, DisplayHandler, NoopMatcher, WildcardHandler};
use crate::text::{contains, lower_of, lowercase, occurs_in, starts_with, views};
use crate::watson::{clock_reading, project_part, strings, ProjectMatcher};

verus! {

/// The result cap of a tree that was given none.
pub const DEFAULT_MAX_RESULTS: usize = 1000;

/// A matcher: produces candidates for the remaining tokens and handles the
/// selection of a candidate.
pub enum Matcher {
    Noop(NoopMatcher),
    Display(DisplayHandler),
    CommandDisplay(CommandDisplayHandler),
    Wildcard(WildcardHandler),
    Static(StaticMatcher),
    Project(ProjectMatcher),
}

/// A tree node: labelled children in insertion order and a cap on the
/// candidates of a pass that found no exact match.
pub struct StaticMatcher {
    pub children: Vec<(SimpleMatch, Matcher)>,
    pub max_results: usize,
}

/// What a query produced: candidates, or a shell command whose output (or
/// failure) gives the one candidate of the answer (see
/// `CommandDisplayHandler::matches_for`).
pub enum Produced {
    Matches(Vec<SimpleMatch>),
    RunCommand(String),
}

/// The mathematical form of `Produced`.
pub enum ProducedView {
    Matches(Seq<MatchView>),
    RunCommand(Seq<char>),
}

impl View for Produced {
    type V = ProducedView;

    open spec fn view(&self) -> ProducedView {
        match self {
            Produced::Matches(v) => ProducedView::Matches(v@.map_values(|m: SimpleMatch| m@)),
            Produced::RunCommand(c) => ProducedView::RunCommand(c@),
        }
    }
}

/// The labels of `children` as candidates, in order.
pub open spec fn labels(children: Seq<(SimpleMatch, Matcher)>) -> Seq<MatchView> {
    children.map_values(|c: (SimpleMatch, Matcher)| c.0@)
}

/// Case-insensitive equality of a label title and a token.
pub open spec fn same_word(title: Seq<char>, token: Seq<char>) -> bool {
    lower_of(title) == lower_of(token)
}

/// Case-insensitive containment of a token in a label title.
pub open spec fn holds_word(title: Seq<char>, token: Seq<char>) -> bool {
    occurs_in(lower_of(token), lower_of(title))
}

/// The index of the first child whose label equals `head` case-insensitively.
pub open spec fn first_exact(children: Seq<(SimpleMatch, Matcher)>, head: Seq<char>) -> Option<int>
    decreases children.len(),
{
    if children.len() == 0 {
        None
    } else {
        match first_exact(children.drop_last(), head) {
            Some(i) => Some(i),
            None => if same_word(children.last().0.title@, head) {
                Some(children.len() - 1)
            } else {
                None
            },
        }
    }
}

/// The labels, in order, of the children whose title contains `head`
/// case-insensitively.
pub open spec fn containing(children: Seq<(SimpleMatch, Matcher)>, head: Seq<char>) -> Seq<MatchView>
    decreases children.len(),
{
    if children.len() == 0 {
        Seq::empty()
    } else {
        let earlier = containing(children.drop_last(), head);
        if holds_word(children.last().0.title@, head) {
            earlier.push(children.last().0@)
        } else {
            earlier
        }
    }
}

/// Every child of `s` has a label with a non-empty title.
pub open spec fn titled(s: &StaticMatcher) -> bool {
    forall|i: int| 0 <= i < s.children@.len() ==> (#[trigger] s.children@[i].0.title@).len() > 0
}

/// At most the first `cap` elements of `s`.
pub open spec fn capped<A>(s: Seq<A>, cap: nat) -> Seq<A> {
    if s.len() <= cap {
        s
    } else {
        s.take(cap as int)
    }
}

/// The first token, or the empty sequence.
pub open spec fn head_of(tokens: Seq<Seq<char>>) -> Seq<char> {
    if tokens.len() == 0 {
        Seq::empty()
    } else {
        tokens[0]
    }
}

/// The tokens after the first.
pub open spec fn rest_of(tokens: Seq<Seq<char>>) -> Seq<Seq<char>> {
    if tokens.len() == 0 {
        tokens
    } else {
        tokens.drop_first()
    }
}

/// The candidates of the pass that found no exact match: matching labels,
/// cut to the cap.
pub open spec fn prefix_pass(s: &StaticMatcher, head: Seq<char>) -> Seq<MatchView> {
    capped(containing(s.children@, head), s.max_results as nat)
}

/// What `m` produces for `tokens`, where `time` is what the clock gives a
/// project matcher for a start time in the past.
pub open spec fn produce(m: &Matcher, tokens: Seq<Seq<char>>, time: Seq<char>) -> ProducedView
    decreases m,
{
    match m {
        Matcher::Noop(_) => ProducedView::Matches(Seq::empty()),
        Matcher::Display(d) => ProducedView::Matches(seq![d.candidate()]),
        Matcher::CommandDisplay(c) => ProducedView::RunCommand(c.command@),
        Matcher::Wildcard(w) => ProducedView::Matches(seq![w.candidate(tokens)]),
        Matcher::Static(s) => {
            let head = head_of(tokens);
            match first_exact(s.children@, head) {
                Some(i) => if 0 <= i < s.children@.len() {
                    let below = produce(&s.children@[i].1, rest_of(tokens), time);
                    match below {
                        ProducedView::Matches(found) => if found.len() == 0 {
                            ProducedView::Matches(seq![s.children@[i].0@])
                        } else {
                            below
                        },
                        _ => below,
                    }
                } else {
                    ProducedView::Matches(Seq::empty())
                },
                None => ProducedView::Matches(prefix_pass(s, head)),
            }
        },
        Matcher::Project(p) => ProducedView::Matches(project_part(p, tokens, time)),
    }
}

/// The index that `first_exact` gives is that of a child.
pub proof fn lemma_first_exact_in_range(s: Seq<(SimpleMatch, Matcher)>, head: Seq<char>)
    ensures
        first_exact(s, head) matches Some(i) ==> 0 <= i < s.len() && same_word(s[i].0.title@, head),
    decreases s.len(),
{
    if s.len() > 0 {
        lemma_first_exact_in_range(s.drop_last(), head);
    }
}

/// A token that lowercases to nothing is contained in every label.
proof fn lemma_containing_all(c: Seq<(SimpleMatch, Matcher)>, head: Seq<char>)
    requires
        lower_of(head).len() == 0,
    ensures
        containing(c, head) == labels(c),
    decreases c.len(),
{
    if c.len() > 0 {
        lemma_containing_all(c.drop_last(), head);
        let t = lower_of(c.last().0.title@);
        let pat = lower_of(head);
        assert(t.subrange(0, 0 + pat.len() as int) =~= pat);
        assert(occurs_in(pat, t));
        assert(holds_word(c.last().0.title@, head));
        assert(labels(c) =~= labels(c.drop_last()).push(c.last().0@));
    }
}

/// The titles of `children`, lowercased.
pub open spec fn lowered_titles(children: Seq<(SimpleMatch, Matcher)>) -> Seq<Seq<char>> {
    children.map_values(|c: (SimpleMatch, Matcher)| lower_of(c.0.title@))
}

/// The first index at which `titles` holds `head`.
pub open spec fn first_equal(titles: Seq<Seq<char>>, head: Seq<char>) -> Option<int>
    decreases titles.len(),
{
    if titles.len() == 0 {
        None
    } else {
        match first_equal(titles.drop_last(), head) {
            Some(i) => Some(i),
            None => if titles.last() == head {
                Some(titles.len() - 1)
            } else {
                None
            },
        }
    }
}

/// The elements of `labels`, in order, whose title in `titles` (at the same
/// index) contains `head`.
pub open spec fn kept_labels(labels: Seq<MatchView>, titles: Seq<Seq<char>>, head: Seq<char>) -> Seq<MatchView>
    decreases labels.len(),
{
    if labels.len() == 0 {
        Seq::empty()
    } else {
        let earlier = kept_labels(labels.drop_last(), titles.drop_last(), head);
        if occurs_in(head, titles.last()) {
            earlier.push(labels.last())
        } else {
            earlier
        }
    }
}

/// The exact-match search is the search for the lowercased head among the
/// lowercased titles.
proof fn lemma_first_exact_lowered(c: Seq<(SimpleMatch, Matcher)>, head: Seq<char>)
    ensures
        first_exact(c, head) == first_equal(lowered_titles(c), lower_of(head)),
    decreases c.len(),
{
    if c.len() > 0 {
        lemma_first_exact_lowered(c.drop_last(), head);
        assert(lowered_titles(c.drop_last()) =~= lowered_titles(c).drop_last());
    }
}

/// The containment pass keeps the labels whose lowercased title holds the
/// lowercased head.
proof fn lemma_containing_lowered(c: Seq<(SimpleMatch, Matcher)>, head: Seq<char>)
    ensures
        containing(c, head) == kept_labels(labels(c), lowered_titles(c), lower_of(head)),
    decreases c.len(),
{
    if c.len() > 0 {
        lemma_containing_lowered(c.drop_last(), head);
        assert(lowered_titles(c.drop_last()) =~= lowered_titles(c).drop_last());
        assert(labels(c.drop_last()) =~= labels(c).drop_last());
    }
}

proof fn lemma_first_equal_extends(ts: Seq<Seq<char>>, k: int, head: Seq<char>)
    requires
        0 <= k <= ts.len(),
        first_equal(ts.subrange(0, k), head) is Some,
    ensures
        first_equal(ts, head) == first_equal(ts.subrange(0, k), head),
    decreases ts.len() - k,
{
    if k == ts.len() {
        assert(ts.subrange(0, k) =~= ts);
    } else {
        assert(ts.subrange(0, k + 1).drop_last() =~= ts.subrange(0, k));
        lemma_first_equal_extends(ts, k + 1, head);
    }
}

/// The first index at which `titles` holds `head`; the titles and the head
/// are compared as given (the tree passes them lowercased).
pub fn first_equal_index(titles: &Vec<String>, head: &str) -> (r: Option<usize>)
    ensures
        r matches Some(i) ==> first_equal(strings(titles@), head@) == Some(i as int),
        r is None ==> first_equal(strings(titles@), head@) is None,
{
    let h = head.to_string();
    let mut i: usize = 0;
    while i < titles.len()
        invariant
            i <= titles@.len(),
            h@ == head@,
            first_equal(strings(titles@).subrange(0, i as int), head@) is None,
        decreases titles.len() - i,
    {
        assert(strings(titles@).subrange(0, i + 1).drop_last() =~= strings(titles@).subrange(0, i as int));
        assert(strings(titles@).subrange(0, i + 1).last() == titles@[i as int]@);
        if titles[i] == h {
            proof {
                lemma_first_equal_extends(strings(titles@), i + 1, head@);
            }
            return Some(i);
        }
        i = i + 1;
    }
    assert(strings(titles@).subrange(0, i as int) =~= strings(titles@));
    None
}

/// The labels whose title (at the same index of `titles`) contains `head`, in
/// order, cut to `cap`; titles and head are compared as given (the tree
/// passes them lowercased).
pub fn keep_containing(labels: &Vec<SimpleMatch>, titles: &Vec<String>, head: &str, cap: usize) -> (r: Vec<SimpleMatch>)
    requires
        labels@.len() == titles@.len(),
    ensures
        r@.map_values(|m: SimpleMatch| m@) == capped(
            kept_labels(labels@.map_values(|m: SimpleMatch| m@), strings(titles@), head@),
            cap as nat,
        ),
{
    let ghost ls = labels@.map_values(|m: SimpleMatch| m@);
    let ghost ts = strings(titles@);
    let mut kept: Vec<SimpleMatch> = Vec::new();
    let mut i: usize = 0;
    let n = titles.len();
    while i < n
        invariant
            n == titles@.len(),
            ls.len() == n,
            i <= n,
            labels@.len() == n,
            ls == labels@.map_values(|m: SimpleMatch| m@),
            ts == strings(titles@),
            kept@.map_values(|m: SimpleMatch| m@) == kept_labels(ls.subrange(0, i as int), ts.subrange(0, i as int), head@),
        decreases n - i,
    {
        assert(ls.subrange(0, i + 1).drop_last() =~= ls.subrange(0, i as int));
        assert(ts.subrange(0, i + 1).drop_last() =~= ts.subrange(0, i as int));
        assert(ts.subrange(0, i + 1).last() == titles@[i as int]@);
        assert(ls.subrange(0, i + 1).last() == ls[i as int]);
        let label = labels[i].duplicate();
        assert(label@ == ls[i as int]);
        if contains(titles[i].as_str(), head) {
            let ghost before = kept@;
            kept.push(label);
            assert(kept@.map_values(|m: SimpleMatch| m@) =~= before.map_values(|m: SimpleMatch| m@).push(label@));
        }
        i = i + 1;
    }
    assert(ls.subrange(0, n as int) =~= ls);
    assert(ts.subrange(0, n as int) =~= ts);
    let ghost full = kept@;
    kept.truncate(cap);
    assert(kept@.map_values(|m: SimpleMatch| m@) =~= capped(full.map_values(|m: SimpleMatch| m@), cap as nat));
    kept
}

impl StaticMatcher {
    /// The titles of the children, lowercased.
    fn lowered(&self) -> (r: Vec<String>)
        ensures
            strings(r@) == lowered_titles(self.children@),
            forall|i: int| 0 <= i < r@.len() ==> (#[trigger] r@[i]@).len() >= self.children@[i].0.title@.len(),
    {
        let mut out: Vec<String> = Vec::new();
        let mut i: usize = 0;
        while i < self.children.len()
            invariant
                i <= self.children@.len(),
                strings(out@) == lowered_titles(self.children@.subrange(0, i as int)),
                forall|k: int| 0 <= k < out@.len() ==> (#[trigger] out@[k]@).len() >= self.children@[k].0.title@.len(),
            decreases self.children.len() - i,
        {
            let t = lowercase(self.children[i].0.title.as_str());
            let ghost before = out@;
            out.push(t);
            assert(strings(out@) =~= strings(before).push(t@));
            assert(lowered_titles(self.children@.subrange(0, i + 1)) =~= lowered_titles(self.children@.subrange(0, i as int)).push(t@));
            i = i + 1;
        }
        assert(self.children@.subrange(0, i as int) =~= self.children@);
        out
    }

    /// The index of the first child whose title equals `head` once both are
    /// lowercased; `head_lower` is `head` lowercased.
    fn find_exact(&self, head: &str, head_lower: &String) -> (r: Option<usize>)
        requires
            head_lower@ == lower_of(head@),
            head@.len() == 0 ==> head_lower@.len() == 0,
        ensures
            head@.len() == 0 && titled(self) ==> r is None,
            r matches Some(i) ==> first_exact(self.children@, head@) == Some(i as int),
            r is None ==> first_exact(self.children@, head@) is None,
    {
        let titles = self.lowered();
        let r = first_equal_index(&titles, head_lower.as_str());
        proof {
            lemma_first_exact_lowered(self.children@, head@);
            if head@.len() == 0 && titled(self) {
                assert forall|k: int| 0 <= k < self.children@.len() implies !same_word(#[trigger] self.children@[k].0.title@, head@) by {
                    assert(titles@[k]@.len() >= self.children@[k].0.title@.len());
                    assert(strings(titles@)[k] == titles@[k]@);
                }
                lemma_first_exact_none(self.children@, head@);
            }
        }
        r
    }

    /// The labels of the children whose title contains `head` once both are
    /// lowercased, cut to the cap.
    fn labels_containing(&self, head: &str, head_lower: &String) -> (r: Vec<SimpleMatch>)
        requires
            head_lower@ == lower_of(head@),
            head@.len() == 0 ==> head_lower@.len() == 0,
        ensures
            r@.map_values(|m: SimpleMatch| m@) == prefix_pass(self, head@),
            head@.len() == 0 ==> r@.map_values(|m: SimpleMatch| m@) == capped(labels(self.children@), self.max_results as nat),
    {
        proof {
            if head@.len() == 0 {
                lemma_containing_all(self.children@, head@);
            }
            lemma_containing_lowered(self.children@, head@);
        }
        let titles = self.lowered();
        let mut ls: Vec<SimpleMatch> = Vec::new();
        let mut i: usize = 0;
        while i < self.children.len()
            invariant
                i <= self.children@.len(),
                ls@.map_values(|m: SimpleMatch| m@) == labels(self.children@.subrange(0, i as int)),
            decreases self.children.len() - i,
        {
            let label = self.children[i].0.duplicate();
            let ghost before = ls@;
            ls.push(label);
            assert(ls@.map_values(|m: SimpleMatch| m@) =~= before.map_values(|m: SimpleMatch| m@).push(label@));
            assert(labels(self.children@.subrange(0, i + 1)) =~= labels(self.children@.subrange(0, i as int)).push(label@));
            i = i + 1;
        }
        assert(self.children@.subrange(0, i as int) =~= self.children@);
        keep_containing(&ls, &titles, head_lower.as_str(), self.max_results)
    }
}

impl Matcher {
    /// What this matcher produces for `input[start..]`, for some reading of
    /// the clock.
    pub fn matches_from(&self, input: &Vec<&str>, start: usize) -> (r: Produced)
        requires
            start <= input.len(),
        ensures
            exists|time: Seq<char>| clock_reading(time)
                && r@ == #[trigger] produce(self, views(input@.subrange(start as int, input.len() as int)), time),
            start == input.len() ==> (self matches Matcher::Static(s) ==> (titled(&s) ==> r@ == ProducedView::Matches(
                capped(labels(s.children@), s.max_results as nat)))),
        decreases self,
    {
        let ghost tokens = views(input@.subrange(start as int, input.len() as int));
        let ghost any_time = seq!['0', '0', ':', '0', '0'];
        match self {
            Matcher::Noop(_) => {
                let v: Vec<SimpleMatch> = Vec::new();
                assert(v@.map_values(|m: SimpleMatch| m@) =~= Seq::<MatchView>::empty());
                assert(Produced::Matches(v)@ == produce(self, tokens, any_time));
                Produced::Matches(v)
            },
            Matcher::Display(d) => {
                let v = d.get_matches();
                assert(v@.map_values(|m: SimpleMatch| m@) =~= seq![d.candidate()]);
                assert(Produced::Matches(v)@ == produce(self, tokens, any_time));
                Produced::Matches(v)
            },
            Matcher::CommandDisplay(c) => {
                let r = Produced::RunCommand(c.command.clone());
                assert(r@ == produce(self, tokens, any_time));
                r
            },
            Matcher::Wildcard(w) => {
                let v = w.matches_from(input, start);
                assert(v@.map_values(|m: SimpleMatch| m@) =~= seq![w.candidate(tokens)]);
                assert(Produced::Matches(v)@ == produce(self, tokens, any_time));
                Produced::Matches(v)
            },
            Matcher::Static(s) => {
                let head: &str = if start < input.len() {
                    input[start]
                } else {
                    ""
                };
                proof {
                    reveal_strlit("");
                    assert(head@ == head_of(tokens));
                    if start < input.len() {
                        assert(input@.subrange(start + 1, input.len() as int) =~= input@.subrange(start as int, input.len() as int).drop_first());
                        assert(views(input@.subrange(start + 1, input.len() as int)) =~= rest_of(tokens));
                    } else {
                        assert(views(input@.subrange(start as int, input.len() as int)) =~= rest_of(tokens));
                    }
                }
                let next: usize = if start < input.len() { start + 1 } else { start };
                let head_lower = lowercase(head);
                match s.find_exact(head, &head_lower) {
                    Some(i) => {
                        proof {
                            lemma_first_exact_in_range(s.children@, head@);
                        }
                        let below = s.children[i].1.matches_from(input, next);
                        let ghost time = choose|time: Seq<char>| clock_reading(time)
                            && below@ == #[trigger] produce(&s.children@[i as int].1, rest_of(tokens), time);
                        let r = match below {
                            Produced::Matches(found) => {
                                if found.len() == 0 {
                                    let mut v: Vec<SimpleMatch> = Vec::new();
                                    v.push(s.children[i].0.duplicate());
                                    assert(v@.map_values(|m: SimpleMatch| m@) =~= seq![s.children@[i as int].0@]);
                                    Produced::Matches(v)
                                } else {
                                    Produced::Matches(found)
                                }
                            },
                            Produced::RunCommand(c) => Produced::RunCommand(c),
                        };
                        assert(r@ == produce(self, tokens, time));
                        r
                    },
                    None => {
                        let r = Produced::Matches(s.labels_containing(head, &head_lower));
                        assert(r@ == produce(self, tokens, any_time));
                        r
                    },
                }
            },
            Matcher::Project(p) => {
                let v = p.matches_from(input, start);
                let ghost time = choose|time: Seq<char>| clock_reading(time)
                    && crate::watson::match_views(v@) == #[trigger] project_part(p, tokens, time);
                assert(v@.map_values(|m: SimpleMatch| m@) =~= crate::watson::match_views(v@));
                assert(Produced::Matches(v)@ == produce(self, tokens, time));
                Produced::Matches(v)
            },
        }
    }

    /// What this matcher produces for the tokens `input`, for some reading
    /// of the clock.
    pub fn get_matches(&self, input: Vec<&str>) -> (r: Produced)
        ensures
            exists|time: Seq<char>| clock_reading(time) && r@ == #[trigger] produce(self, views(input@), time),
            input@.len() == 0 ==> (self matches Matcher::Static(s) ==> (titled(&s) ==> r@ == ProducedView::Matches(
                capped(labels(s.children@), s.max_results as nat)))),
    {
        let r = self.matches_from(&input, 0);
        assert(input@.subrange(0, input@.len() as int) =~= input@);
        r
    }
}

/// What selecting a candidate asks for: an outcome, or a shell command to
/// run whose launch decides the outcome (see `run_outcome`).
pub enum Selection {
    Done(HandleResult),
    RunShell(String),
}

/// The mathematical form of `Selection`.
pub enum Action {
    Close,
    Refresh(bool),
    Copy(Seq<u8>),
    Run(Seq<char>),
}

impl View for Selection {
    type V = Action;

    open spec fn view(&self) -> Action {
        match self {
            Selection::Done(HandleResult::Close) => Action::Close,
            Selection::Done(HandleResult::Refresh(clear)) => Action::Refresh(*clear),
            Selection::Done(HandleResult::Copy(b)) => Action::Copy(b@),
            Selection::RunShell(c) => Action::Run(c@),
        }
    }
}

/// The tag of a payload that runs a shell command.
pub open spec fn exec_tag() -> Seq<char> {
    seq!['e', 'x', 'e', 'c', '|']
}

/// The tag of a payload that is copied.
pub open spec fn copy_tag() -> Seq<char> {
    seq!['c', 'o', 'p', 'y', '|']
}

/// What a tree does with a selected candidate whose description is `d`.
pub open spec fn payload_action(d: Seq<char>) -> Action {
    if exec_tag().is_prefix_of(d) {
        Action::Run(d.subrange(5, d.len() as int))
    } else if copy_tag().is_prefix_of(d) {
        Action::Copy(vstd::utf8::encode_utf8(d.subrange(5, d.len() as int)))
    } else {
        Action::Refresh(false)
    }
}

/// What `m` does with the selection of a candidate with description `d`.
pub open spec fn handle_spec(m: &Matcher, d: Seq<char>) -> Action {
    match m {
        Matcher::Noop(_) | Matcher::Project(_) => Action::Refresh(false),
        Matcher::Static(_) => payload_action(d),
        _ => Action::Close,
    }
}

/// The outcome of a shell command from a payload: close once it was
/// launched, whatever its exit status; refresh without clearing otherwise.
pub fn run_outcome(launched: bool) -> (r: HandleResult)
    ensures
        launched ==> r == HandleResult::Close,
        !launched ==> r == HandleResult::Refresh(false),
{
    if launched {
        HandleResult::Close
    } else {
        HandleResult::Refresh(false)
    }
}

impl Matcher {
    /// What this matcher does with the selection of `selection`.
    pub fn handle(&self, selection: SimpleMatch) -> (r: Selection)
        ensures
            r@ == handle_spec(self, selection.description@),
    {
        match self {
            Matcher::Noop(_) | Matcher::Project(_) => Selection::Done(HandleResult::Refresh(false)),
            Matcher::Static(_) => dispatch_payload(selection.description.as_str()),
            _ => Selection::Done(HandleResult::Close),
        }
    }
}

/// Interprets a description: `exec|` runs the rest, `copy|` hands the rest
/// back as bytes, anything else asks for a refresh.
pub fn dispatch_payload(description: &str) -> (r: Selection)
    ensures
        r@ == payload_action(description@),
{
    let exec = "exec|";
    let copy = "copy|";
    proof {
        reveal_strlit("exec|");
        reveal_strlit("copy|");
        assert(exec@ =~= exec_tag());
        assert(copy@ =~= copy_tag());
    }
    if starts_with(description, exec) {
        let n = description.unicode_len();
        let command = description.substring_char(5, n);
        Selection::RunShell(command.to_string())
    } else if starts_with(description, copy) {
        let n = description.unicode_len();
        let rest = description.substring_char(5, n);
        Selection::Done(HandleResult::Copy(rest.as_bytes_vec()))
    } else {
        Selection::Done(HandleResult::Refresh(false))
    }
}

impl StaticMatcher {
    /// A tree with no children and the default cap.
    pub fn new() -> (r: StaticMatcher)
        ensures
            r.children@.len() == 0,
            r.max_results == DEFAULT_MAX_RESULTS,
    {
        StaticMatcher { children: Vec::new(), max_results: DEFAULT_MAX_RESULTS }
    }

    /// The tree with one more child, after the others.
    pub fn with_child(self, key: SimpleMatch, matcher: Matcher) -> (r: StaticMatcher)
        ensures
            r.children@ == self.children@.push((key, matcher)),
            r.max_results == self.max_results,
    {
        let mut s = self;
        s.children.push((key, matcher));
        s
    }

    /// The tree with the cap set to `max`.
    pub fn with_max_results(self, max: usize) -> (r: StaticMatcher)
        ensures
            r.children@ == self.children@,
            r.max_results == max,
    {
        let mut s = self;
        s.max_results = max;
        s
    }
}

/// With no child before `i` matching `head`, and child `i` matching it,
/// child `i` is the first exact match.
proof fn lemma_first_exact_is(s: Seq<(SimpleMatch, Matcher)>, i: int, head: Seq<char>)
    requires
        0 <= i < s.len(),
        same_word(s[i].0.title@, head),
        forall|k: int| 0 <= k < i ==> !same_word(#[trigger] s[k].0.title@, head),
    ensures
        first_exact(s, head) == Some(i),
    decreases s.len(),
{
    if i == s.len() - 1 {
        lemma_first_exact_none(s.drop_last(), head);
    } else {
        lemma_first_exact_is(s.drop_last(), i, head);
    }
}

/// With no child matching `head`, there is no exact match.
proof fn lemma_first_exact_none(s: Seq<(SimpleMatch, Matcher)>, head: Seq<char>)
    requires
        forall|k: int| 0 <= k < s.len() ==> !same_word(#[trigger] s[k].0.title@, head),
    ensures
        first_exact(s, head) is None,
    decreases s.len(),
{
    if s.len() > 0 {
        lemma_first_exact_none(s.drop_last(), head);
    }
}

/// Children with the same titles have the same first exact match.
proof fn lemma_first_exact_titles(s: Seq<(SimpleMatch, Matcher)>, t: Seq<(SimpleMatch, Matcher)>, head: Seq<char>)
    requires
        s.len() == t.len(),
        forall|k: int| 0 <= k < s.len() ==> #[trigger] s[k].0.title@ == t[k].0.title@,
    ensures
        first_exact(s, head) == first_exact(t, head),
    decreases s.len(),
{
    if s.len() > 0 {
        lemma_first_exact_titles(s.drop_last(), t.drop_last(), head);
    }
}

/// When no label equals the first token, the tree answers with at most
/// `max_results` candidates.
pub proof fn lemma_prefix_pass_capped(s: StaticMatcher, tokens: Seq<Seq<char>>, time: Seq<char>)
    requires
        first_exact(s.children@, head_of(tokens)) is None,
    ensures
        produce(&Matcher::Static(s), tokens, time) matches ProducedView::Matches(r) && r.len() <= s.max_results,
{
}

/// When the first token equals the label of child `i`, and of no earlier
/// child, and child `i` produces nothing for the remaining tokens, the tree
/// answers with exactly the label of child `i`.
pub proof fn lemma_exact_empty_child(s: StaticMatcher, tokens: Seq<Seq<char>>, time: Seq<char>, i: int)
    requires
        tokens.len() > 0,
        0 <= i < s.children@.len(),
        same_word(s.children@[i].0.title@, tokens[0]),
        forall|k: int| 0 <= k < i ==> !same_word(#[trigger] s.children@[k].0.title@, tokens[0]),
        produce(&s.children@[i].1, tokens.drop_first(), time) == ProducedView::Matches(Seq::empty()),
    ensures
        produce(&Matcher::Static(s), tokens, time) == ProducedView::Matches(seq![s.children@[i].0@]),
{
    lemma_first_exact_is(s.children@, i, tokens[0]);
}

/// Of two children whose labels both equal the first token, the earlier one
/// decides: the tree answers the same whatever matcher the later child
/// holds. `t` is `s` with only the matcher of child `j` changed.
pub proof fn lemma_first_match_wins(s: StaticMatcher, t: StaticMatcher, tokens: Seq<Seq<char>>, time: Seq<char>, i: int, j: int)
    requires
        0 <= i < j < s.children@.len(),
        same_word(s.children@[i].0.title@, head_of(tokens)),
        same_word(s.children@[j].0.title@, head_of(tokens)),
        t.max_results == s.max_results,
        t.children@.len() == s.children@.len(),
        t.children@[j].0 == s.children@[j].0,
        forall|k: int| 0 <= k < s.children@.len() && k != j ==> #[trigger] t.children@[k] == s.children@[k],
    ensures
        produce(&Matcher::Static(t), tokens, time) == produce(&Matcher::Static(s), tokens, time),
{
    let head = head_of(tokens);
    assert forall|k: int| 0 <= k < s.children@.len() implies #[trigger] s.children@[k].0.title@ == t.children@[k].0.title@ by {
        if k != j {
            assert(t.children@[k] == s.children@[k]);
        }
    }
    lemma_first_exact_titles(s.children@, t.children@, head);
    lemma_first_exact_in_range(s.children@, head);
    let first = choose|f: int| 0 <= f <= i && same_word(s.children@[f].0.title@, head)
        && forall|k: int| 0 <= k < f ==> !same_word(#[trigger] s.children@[k].0.title@, head);
    assert(exists|f: int| 0 <= f <= i && same_word(s.children@[f].0.title@, head)
        && forall|k: int| 0 <= k < f ==> !same_word(#[trigger] s.children@[k].0.title@, head)) by {
        lemma_least_match(s.children@, i, head);
    }
    lemma_first_exact_is(s.children@, first, head);
    assert(t.children@[first] == s.children@[first]);
}

/// Some child up to `i` is the least one whose label matches `head`.
proof fn lemma_least_match(s: Seq<(SimpleMatch, Matcher)>, i: int, head: Seq<char>)
    requires
        0 <= i < s.len(),
        same_word(s[i].0.title@, head),
    ensures
        exists|f: int| 0 <= f <= i && same_word(s[f].0.title@, head)
            && forall|k: int| 0 <= k < f ==> !same_word(#[trigger] s[k].0.title@, head),
    decreases i,
{
    if exists|k: int| 0 <= k < i && same_word(#[trigger] s[k].0.title@, head) {
        let k = choose|k: int| 0 <= k < i && same_word(#[trigger] s[k].0.title@, head);
        lemma_least_match(s, k, head);
    } else {
        assert(forall|k: int| 0 <= k < i ==> !same_word(#[trigger] s[k].0.title@, head));
    }
}

/// When the first token equals no label, the tokens after it change nothing.
pub proof fn lemma_prefix_pass_ignores_rest(s: StaticMatcher, head: Seq<char>, more: Seq<Seq<char>>, time: Seq<char>)
    requires
        first_exact(s.children@, head) is None,
    ensures
        produce(&Matcher::Static(s), seq![head] + more, time) == produce(&Matcher::Static(s), seq![head], time),
{
    assert(head_of(seq![head] + more) == head);
    assert(head_of(seq![head]) == head);
}

} // verus!
