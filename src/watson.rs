//! Matchers of the time-tracking plugin: starting a project, adding tags to
//! it, and starting it some minutes in the past.
use vstd::prelude::*;
use crate::candidate::{MatchView, SimpleMatch};
use crate::text::{contains, find, find_from, is_white, joined, lower_of, lowercase, occurs_in, starts_with, trim, trim_text, views, white};

verus! {

/// The largest count of minutes that relative times are read up to: that of
/// `i64::MAX`, past which chrono represents no offset.
pub const MINUTES_LIMIT: u64 = 9_223_372_036_854_775_807;

/// A project with the tags it was once started with.
#[derive(Debug)]
pub struct ProjectTagCombo {
    pub project: String,
    pub tags: Vec<String>,
}

impl ProjectTagCombo {
    pub fn new(project: String, tags: Vec<String>) -> (r: ProjectTagCombo)
        ensures
            r.project == project,
            r.tags == tags,
    {
        ProjectTagCombo { project, tags }
    }
}

/// Suggests projects to start, and tags or a start time once a project is named.
pub struct ProjectMatcher {
    pub known_projects: Vec<String>,
    pub known_tags: Vec<String>,
    pub combinations: Vec<ProjectTagCombo>,
}

/// Suggests tags for a project.
pub struct TagMatcher {
    pub project: String,
    pub known_tags: Vec<String>,
}

/// Suggests starting a project a given time ago.
pub struct TimeMatcher {
    pub project: String,
}

/// Start of every start command.
pub open spec fn start_command() -> Seq<char> {
    "exec|watson start "@
}

/// The value of a decimal digit character.
pub open spec fn digit_value(c: char) -> int {
    c as int - '0' as int
}

pub open spec fn is_digit(c: char) -> bool {
    '0' <= c <= '9'
}

/// Reading a relative time such as `1h30m` left to right: minutes counted so
/// far, and the value of the digits not yet closed by `h` or `m`. Other
/// characters are skipped.
pub open spec fn offset_scan(s: Seq<char>) -> (int, int)
    decreases s.len(),
{
    if s.len() == 0 {
        (0, 0)
    } else {
        let (total, run) = offset_scan(s.drop_last());
        let c = s.last();
        if is_digit(c) {
            (total, run * 10 + digit_value(c))
        } else if c == 'h' {
            (total + run * 60, 0)
        } else if c == 'm' {
            (total + run, 0)
        } else {
            (total, run)
        }
    }
}

/// The minutes that a relative time stands for, once lowercased.
pub open spec fn offset_minutes(s: Seq<char>) -> int {
    offset_scan(lower_of(s)).0
}

/// A wall-clock time written `HH:MM`: hour from 00 to 23, minute from 00 to 59.
pub open spec fn clock_shaped(t: Seq<char>) -> bool {
    &&& t.len() == 5
    &&& is_digit(t[0]) && is_digit(t[1]) && t[2] == ':' && is_digit(t[3]) && is_digit(t[4])
    &&& digit_value(t[0]) * 10 + digit_value(t[1]) < 24
    &&& digit_value(t[3]) * 10 + digit_value(t[4]) < 60
}

/// What the clock gave for a start time in the past: `HH:MM`, or nothing when
/// chrono cannot represent that time.
pub open spec fn clock_reading(t: Seq<char>) -> bool {
    t.len() == 0 || clock_shaped(t)
}

/// Relies on `chrono::TimeDelta::try_minutes`, `chrono::Local::now`,
/// `DateTime::checked_sub_signed` and `format("%H:%M")`: the local time
/// `minutes` ago as two-digit hour and minute, or none when the offset or the
/// resulting time is out of chrono's range.
#[verifier::external_body]
fn time_before(minutes: u64) -> (r: Option<String>)
    requires
        minutes <= MINUTES_LIMIT,
    ensures
        r matches Some(t) ==> clock_shaped(t@),
{
    let delta = chrono::TimeDelta::try_minutes(minutes as i64)?;
    let target = chrono::Local::now().checked_sub_signed(delta)?;
    Some(target.format("%H:%M").to_string())
}

/// The minutes of an already lowercased relative time such as `1h30m`, or
/// `MINUTES_LIMIT` when they come to more.
pub fn minutes_of_lowered(lower: &str) -> (r: u64)
    ensures
        offset_scan(lower@).0 <= MINUTES_LIMIT ==> r == offset_scan(lower@).0,
        offset_scan(lower@).0 > MINUTES_LIMIT ==> r == MINUTES_LIMIT,
{
    let cap: u128 = MINUTES_LIMIT as u128;
    let n = lower.unicode_len();
    let mut total: u128 = 0;
    let mut run: u128 = 0;
    let mut i: usize = 0;
    while i < n
        invariant
            n == lower@.len(),
            i <= n,
            cap == MINUTES_LIMIT,
            offset_scan(lower@.subrange(0, i as int)).0 >= 0,
            offset_scan(lower@.subrange(0, i as int)).1 >= 0,
            total as int == if offset_scan(lower@.subrange(0, i as int)).0 < cap { offset_scan(lower@.subrange(0, i as int)).0 } else { cap as int },
            run as int == if offset_scan(lower@.subrange(0, i as int)).1 < cap { offset_scan(lower@.subrange(0, i as int)).1 } else { cap as int },
        decreases n - i,
    {
        let c = lower.get_char(i);
        let ghost prev = offset_scan(lower@.subrange(0, i as int));
        proof {
            assert(lower@.subrange(0, i + 1).drop_last() =~= lower@.subrange(0, i as int));
            assert(lower@.subrange(0, i + 1).last() == c);
        }
        if '0' <= c && c <= '9' {
            let d = (c as u32 - '0' as u32) as u128;
            assert(run * 10 + d <= cap * 10 + 9) by (nonlinear_arith)
                requires run <= cap, d <= 9;
            let next = run * 10 + d;
            run = if next < cap { next } else { cap };
            assert(prev.1 >= cap ==> prev.1 * 10 + digit_value(c) >= cap) by (nonlinear_arith)
                requires digit_value(c) >= 0, cap > 0;
        } else if c == 'h' {
            assert(total + run * 60 <= cap * 61) by (nonlinear_arith)
                requires run <= cap, total <= cap;
            let next = total + run * 60;
            total = if next < cap { next } else { cap };
            run = 0;
            assert(prev.1 >= cap ==> prev.0 + prev.1 * 60 >= cap) by (nonlinear_arith)
                requires prev.0 >= 0, cap > 0;
        } else if c == 'm' {
            let next = total + run;
            total = if next < cap { next } else { cap };
            run = 0;
        }
        i = i + 1;
    }
    assert(lower@.subrange(0, n as int) =~= lower@);
    total as u64
}

/// The minutes of a relative time such as `1h30m`, read once lowercased, or
/// `MINUTES_LIMIT` when they come to more.
pub fn relative_minutes(relative: &str) -> (r: u64)
    ensures
        offset_minutes(relative@) <= MINUTES_LIMIT ==> r == offset_minutes(relative@),
        offset_minutes(relative@) > MINUTES_LIMIT ==> r == MINUTES_LIMIT,
{
    let lower = lowercase(relative);
    minutes_of_lowered(lower.as_str())
}

/// The local time `relative` (such as `1h30m`) ago, as `HH:MM`; none when
/// the relative time comes to no minutes, or when chrono cannot represent
/// that time.
pub fn parse_relative_time(relative: &str) -> (r: Option<String>)
    ensures
        offset_minutes(relative@) == 0 ==> r is None,
        r matches Some(t) ==> clock_shaped(t@),
{
    let minutes = relative_minutes(relative);
    if minutes == 0 {
        None
    } else {
        time_before(minutes)
    }
}

/// The character views of a sequence of strings.
pub open spec fn strings(v: Seq<String>) -> Seq<Seq<char>> {
    v.map_values(|t: String| t@)
}

/// Tags written as `+tag ` one after the other.
pub open spec fn tags_text(tags: Seq<Seq<char>>) -> Seq<char>
    decreases tags.len(),
{
    if tags.len() == 0 {
        Seq::empty()
    } else {
        tags_text(tags.drop_last()) + "+"@ + tags.last() + " "@
    }
}

/// The candidate that starts `name` with no tags.
pub open spec fn plain_start(name: Seq<char>) -> MatchView {
    (name + " "@, Seq::empty(), start_command() + name)
}

/// The candidate that starts `project` with `tags`.
pub open spec fn combo_start(project: Seq<char>, tags: Seq<Seq<char>>) -> MatchView {
    (project + " "@ + tags_text(tags), Seq::empty(), start_command() + project + " "@ + tags_text(tags))
}

/// Start candidates of the known projects that contain `text`.
pub open spec fn projects_like(projects: Seq<Seq<char>>, text: Seq<char>) -> Seq<MatchView>
    decreases projects.len(),
{
    if projects.len() == 0 {
        Seq::empty()
    } else {
        let earlier = projects_like(projects.drop_last(), text);
        if occurs_in(text, projects.last()) {
            earlier.push(plain_start(projects.last()))
        } else {
            earlier
        }
    }
}

/// Start candidates of the known combinations whose project contains `text`.
pub open spec fn combos_like(combos: Seq<ProjectTagCombo>, text: Seq<char>) -> Seq<MatchView>
    decreases combos.len(),
{
    if combos.len() == 0 {
        Seq::empty()
    } else {
        let earlier = combos_like(combos.drop_last(), text);
        let c = combos.last();
        if occurs_in(text, c.project@) {
            earlier.push(combo_start(c.project@, strings(c.tags@)))
        } else {
            earlier
        }
    }
}

/// The last token, or the empty sequence.
pub open spec fn last_of(tokens: Seq<Seq<char>>) -> Seq<char> {
    if tokens.len() == 0 {
        Seq::empty()
    } else {
        tokens.last()
    }
}

/// The tokens before the last.
pub open spec fn before_last(tokens: Seq<Seq<char>>) -> Seq<Seq<char>> {
    if tokens.len() == 0 {
        tokens
    } else {
        tokens.drop_last()
    }
}

/// Reading `s` left to right for its whitespace-separated words joined with
/// single spaces: the text so far, and whether whitespace has come since its
/// last word.
pub open spec fn squeeze_scan(s: Seq<char>) -> (Seq<char>, bool)
    decreases s.len(),
{
    if s.len() == 0 {
        (Seq::empty(), false)
    } else {
        let (o, pending) = squeeze_scan(s.drop_last());
        let c = s.last();
        if is_white(c) {
            (o, o.len() > 0)
        } else if pending {
            (o + seq![' ', c], false)
        } else {
            (o.push(c), false)
        }
    }
}

/// The words of `s` (split at any whitespace) joined with single spaces.
pub open spec fn words_joined(s: Seq<char>) -> Seq<char> {
    squeeze_scan(s).0
}

/// The words of `project`, `text` and `last`, joined with single spaces.
pub open spec fn phrase(project: Seq<char>, text: Seq<char>, last: Seq<char>) -> Seq<char> {
    words_joined(project + " "@ + text + " "@ + last)
}

/// Candidates for known tags that contain `current`; `text` is the words
/// between the project and the last token.
pub open spec fn tags_like(project: Seq<char>, text: Seq<char>, current: Seq<char>, tags: Seq<Seq<char>>) -> Seq<MatchView>
    decreases tags.len(),
{
    if tags.len() == 0 {
        Seq::empty()
    } else {
        let earlier = tags_like(project, text, current, tags.drop_last());
        let tag = "+"@ + tags.last();
        if occurs_in(current, tag) {
            earlier.push((phrase(project, text, tag), Seq::empty(), words_joined(start_command() + project + " "@ + text + " "@ + tag)))
        } else {
            earlier
        }
    }
}

/// What a tag matcher for `project` produces: nothing unless the last token
/// starts with `+`; then a candidate for that tag, and one for each known
/// tag that contains it. Titles are re-split at whitespace.
pub open spec fn tag_part(project: Seq<char>, known_tags: Seq<Seq<char>>, tokens: Seq<Seq<char>>) -> Seq<MatchView> {
    let current = last_of(tokens);
    let text = trim(joined(before_last(tokens)));
    if !"+"@.is_prefix_of(current) {
        Seq::empty()
    } else {
        seq![(phrase(project, text, current), Seq::empty(), start_command() + project + " "@ + current)]
            + tags_like(project, text, current, known_tags)
    }
}

/// `s` without its leading dashes.
pub open spec fn strip_dashes(s: Seq<char>) -> Seq<char>
    decreases s.len(),
{
    if s.len() > 0 && s[0] == '-' {
        strip_dashes(s.drop_first())
    } else {
        s
    }
}

/// What a time matcher for `project` produces when the clock gives `time`
/// for the offset: nothing unless the last token is `-` and a relative time
/// of at least one minute (dashes stripped, then trimmed), and the clock gave
/// a time; then one candidate starting the project at that time.
pub open spec fn time_part(project: Seq<char>, tokens: Seq<Seq<char>>, time: Seq<char>) -> Seq<MatchView> {
    let current = last_of(tokens);
    let text = joined(before_last(tokens));
    let minutes = offset_minutes(trim(strip_dashes(current)));
    if !"-"@.is_prefix_of(current) || minutes == 0 || time.len() == 0 {
        Seq::empty()
    } else {
        seq![(
            project + " "@ + text + " "@ + current,
            Seq::empty(),
            start_command() + project + " "@ + text + " --at "@ + time,
        )]
    }
}

/// What a project matcher produces for `tokens` when the clock gives `time`.
pub open spec fn project_part(p: &ProjectMatcher, tokens: Seq<Seq<char>>, time: Seq<char>) -> Seq<MatchView> {
    if tokens.len() >= 2 {
        tag_part(tokens[0], strings(p.known_tags@), tokens.drop_first()) + time_part(tokens[0], tokens.drop_first(), time)
    } else {
        let text = if tokens.len() == 0 { Seq::empty() } else { tokens[0] };
        seq![plain_start(text)] + projects_like(strings(p.known_projects@), text) + combos_like(p.combinations@, text)
    }
}

/// The views of a vector of candidates.
pub open spec fn match_views(v: Seq<SimpleMatch>) -> Seq<MatchView> {
    v.map_values(|m: SimpleMatch| m@)
}

/// The whitespace-separated words of `s` joined with single spaces.
pub fn squeeze(s: &str) -> (r: String)
    ensures
        r@ == words_joined(s@),
{
    proof {
        reveal_strlit(" ");
    }
    let n = s.unicode_len();
    let mut out = String::new();
    let mut pending = false;
    let mut i: usize = 0;
    while i < n
        invariant
            n == s@.len(),
            i <= n,
            (out@, pending) == squeeze_scan(s@.subrange(0, i as int)),
        decreases n - i,
    {
        let ghost prefix = s@.subrange(0, i + 1);
        let ghost before = squeeze_scan(s@.subrange(0, i as int));
        assert(prefix.drop_last() =~= s@.subrange(0, i as int));
        let c = s.get_char(i);
        if white(c) {
            pending = out.unicode_len() > 0;
        } else {
            let was_pending = pending;
            if pending {
                out.append(" ");
                proof {
                    reveal_strlit(" ");
                }
                assert(" "@ =~= seq![' ']);
                assert(out@ =~= before.0 + seq![' ']);
            }
            out.append(s.substring_char(i, i + 1));
            pending = false;
            assert(s@.subrange(i as int, i + 1) =~= seq![c]);
            if was_pending {
                assert(before.0 + seq![' '] + seq![c] =~= before.0 + seq![' ', c]);
            } else {
                assert(out@ =~= before.0.push(c));
            }
        }
        i = i + 1;
    }
    assert(s@.subrange(0, n as int) =~= s@);
    out
}

/// `project`, `text` and `last` with single spaces between them, then re-split
/// at whitespace and joined with single spaces.
fn phrase_of(project: &str, text: &str, last: &str) -> (r: String)
    ensures
        r@ == phrase(project@, text@, last@),
{
    proof {
        reveal_strlit(" ");
    }
    let all = String::from_str(project).concat(" ").concat(text).concat(" ").concat(last);
    squeeze(all.as_str())
}

/// `s` without its leading dashes.
fn without_dashes(s: &str) -> (r: String)
    ensures
        r@ == strip_dashes(s@),
{
    let n = s.unicode_len();
    let mut i: usize = 0;
    assert(s@.subrange(0, n as int) =~= s@);
    while i < n && s.get_char(i) == '-'
        invariant
            n == s@.len(),
            i <= n,
            strip_dashes(s@.subrange(i as int, n as int)) == strip_dashes(s@),
        decreases n - i,
    {
        assert(s@.subrange(i as int, n as int).drop_first() =~= s@.subrange(i + 1, n as int));
        i = i + 1;
    }
    s.substring_char(i, n).to_string()
}

/// Tags written as `+tag ` one after the other.
fn tags_string(tags: &Vec<String>) -> (r: String)
    ensures
        r@ == tags_text(strings(tags@)),
{
    let mut out = String::new();
    let mut k: usize = 0;
    while k < tags.len()
        invariant
            k <= tags.len(),
            out@ == tags_text(strings(tags@.subrange(0, k as int))),
        decreases tags.len() - k,
    {
        assert(strings(tags@.subrange(0, k + 1)).drop_last() =~= strings(tags@.subrange(0, k as int)));
        out.append("+");
        out.append(tags[k].as_str());
        out.append(" ");
        k = k + 1;
    }
    assert(tags@.subrange(0, tags@.len() as int) =~= tags@);
    out
}

/// The candidates of a tag matcher for `project` on `input[start..]`.
fn tag_matches(project: &str, known_tags: &Vec<String>, input: &Vec<&str>, start: usize) -> (r: Vec<SimpleMatch>)
    requires
        start <= input.len(),
    ensures
        match_views(r@) == tag_part(project@, strings(known_tags@), views(input@.subrange(start as int, input.len() as int))),
{
    let ghost tokens = views(input@.subrange(start as int, input.len() as int));
    let len = input.len();
    let current: &str = if start < len { input[len - 1] } else { "" };
    let word_end: usize = if start < len { len - 1 } else { start };
    proof {
        reveal_strlit("");
        assert(current@ == last_of(tokens));
        assert(views(input@.subrange(start as int, word_end as int)) =~= before_last(tokens));
    }
    let mut out: Vec<SimpleMatch> = Vec::new();
    if !starts_with(current, "+") {
        assert(match_views(out@) =~= Seq::<MatchView>::empty());
        return out;
    }
    let no_icon = String::new();
    let text = trim_text(crate::text::join_spaced(input, start, word_end).as_str());
    let title = phrase_of(project, text.as_str(), current);
    let command = String::from_str("exec|watson start ").concat(project).concat(" ").concat(current);
    out.push(SimpleMatch::new(title.as_str(), no_icon.as_str(), command.as_str()));
    let ghost first = seq![(phrase(project@, text@, current@), Seq::<char>::empty(), start_command() + project@ + " "@ + current@)];
    assert(match_views(out@) =~= first + tags_like(project@, text@, current@, strings(known_tags@.subrange(0, 0))));
    let mut k: usize = 0;
    while k < known_tags.len()
        invariant
            k <= known_tags.len(),
            no_icon@ == Seq::<char>::empty(),
            match_views(out@) == first + tags_like(project@, text@, current@, strings(known_tags@.subrange(0, k as int))),
        decreases known_tags.len() - k,
    {
        assert(strings(known_tags@.subrange(0, k + 1)).drop_last() =~= strings(known_tags@.subrange(0, k as int)));
        let tag = String::from_str("+").concat(known_tags[k].as_str());
        if contains(tag.as_str(), current) {
            let p = phrase_of(project, text.as_str(), tag.as_str());
            let command_words = String::from_str("exec|watson start ").concat(project).concat(" ").concat(text.as_str())
                .concat(" ").concat(tag.as_str());
            let c = squeeze(command_words.as_str());
            let ghost before = out@;
            out.push(SimpleMatch::new(p.as_str(), no_icon.as_str(), c.as_str()));
            assert(match_views(out@) =~= match_views(before).push(match_views(out@).last()));
        }
        k = k + 1;
    }
    assert(known_tags@.subrange(0, known_tags@.len() as int) =~= known_tags@);
    out
}

/// The candidates of a time matcher for `project` on `input[start..]` when
/// the clock gives `time` for the offset.
fn time_matches_at(project: &str, input: &Vec<&str>, start: usize, time: &str) -> (r: Vec<SimpleMatch>)
    requires
        start <= input.len(),
    ensures
        match_views(r@) == time_part(project@, views(input@.subrange(start as int, input.len() as int)), time@),
{
    let ghost tokens = views(input@.subrange(start as int, input.len() as int));
    let len = input.len();
    let current: &str = if start < len { input[len - 1] } else { "" };
    let word_end: usize = if start < len { len - 1 } else { start };
    proof {
        reveal_strlit("");
        assert(current@ == last_of(tokens));
        assert(views(input@.subrange(start as int, word_end as int)) =~= before_last(tokens));
    }
    let mut out: Vec<SimpleMatch> = Vec::new();
    if !starts_with(current, "-") {
        assert(match_views(out@) =~= time_part(project@, tokens, time@));
        return out;
    }
    let stripped = trim_text(without_dashes(current).as_str());
    let minutes = relative_minutes(stripped.as_str());
    if minutes == 0 || time.unicode_len() == 0 {
        assert(match_views(out@) =~= time_part(project@, tokens, time@));
        return out;
    }
    let text = crate::text::join_spaced(input, start, word_end);
    let title = String::from_str(project).concat(" ").concat(text.as_str()).concat(" ").concat(current);
    let command = String::from_str("exec|watson start ").concat(project).concat(" ").concat(text.as_str())
        .concat(" --at ").concat(time);
    let no_icon = String::new();
    out.push(SimpleMatch::new(title.as_str(), no_icon.as_str(), command.as_str()));
    assert(match_views(out@) =~= time_part(project@, tokens, time@));
    out
}

/// The candidates of a time matcher for `project` on `input[start..]`, for
/// some reading of the clock.
fn time_matches(project: &str, input: &Vec<&str>, start: usize) -> (r: Vec<SimpleMatch>)
    requires
        start <= input.len(),
    ensures
        exists|time: Seq<char>| clock_reading(time)
            && match_views(r@) == #[trigger] time_part(project@, views(input@.subrange(start as int, input.len() as int)), time),
{
    let ghost tokens = views(input@.subrange(start as int, input.len() as int));
    let len = input.len();
    let current: &str = if start < len { input[len - 1] } else { "" };
    let minutes = relative_minutes(trim_text(without_dashes(current).as_str()).as_str());
    let time = if minutes == 0 {
        String::new()
    } else {
        match time_before(minutes) {
            Some(t) => t,
            None => String::new(),
        }
    };
    time_matches_at(project, input, start, time.as_str())
}

impl TagMatcher {
    pub fn get_matches(&self, input: Vec<&str>) -> (r: Vec<SimpleMatch>)
        ensures
            match_views(r@) == tag_part(self.project@, strings(self.known_tags@), views(input@)),
    {
        let r = tag_matches(self.project.as_str(), &self.known_tags, &input, 0);
        assert(input@.subrange(0, input@.len() as int) =~= input@);
        r
    }
}

impl TimeMatcher {
    /// The candidates for `input` when the clock gives `time` for the offset.
    pub fn matches_at(&self, input: Vec<&str>, time: &str) -> (r: Vec<SimpleMatch>)
        ensures
            match_views(r@) == time_part(self.project@, views(input@), time@),
    {
        let r = time_matches_at(self.project.as_str(), &input, 0, time);
        assert(input@.subrange(0, input@.len() as int) =~= input@);
        r
    }

    /// The candidates for `input`, for some reading of the clock.
    pub fn get_matches(&self, input: Vec<&str>) -> (r: Vec<SimpleMatch>)
        ensures
            exists|time: Seq<char>| clock_reading(time)
                && match_views(r@) == #[trigger] time_part(self.project@, views(input@), time),
    {
        let r = time_matches(self.project.as_str(), &input, 0);
        assert(input@.subrange(0, input@.len() as int) =~= input@);
        r
    }
}

impl ProjectMatcher {
    pub fn new(known_projects: Vec<String>, known_tags: Vec<String>, combinations: Vec<ProjectTagCombo>) -> (r: ProjectMatcher)
        ensures
            r.known_projects == known_projects,
            r.known_tags == known_tags,
            r.combinations == combinations,
    {
        ProjectMatcher { known_projects, known_tags, combinations }
    }

    /// The candidates for `input[start..]`, for some reading of the clock.
    pub fn matches_from(&self, input: &Vec<&str>, start: usize) -> (r: Vec<SimpleMatch>)
        requires
            start <= input.len(),
        ensures
            exists|time: Seq<char>| clock_reading(time)
                && match_views(r@) == #[trigger] project_part(self, views(input@.subrange(start as int, input.len() as int)), time),
    {
        let ghost tokens = views(input@.subrange(start as int, input.len() as int));
        let len = input.len();
        if len - start >= 2 {
            let project = input[start];
            proof {
                assert(views(input@.subrange(start + 1, len as int)) =~= tokens.drop_first());
            }
            let mut out = tag_matches(project, &self.known_tags, input, start + 1);
            let mut times = time_matches(project, input, start + 1);
            let ghost tags_part = out@;
            let ghost time_part_v = times@;
            out.append(&mut times);
            let ghost time = choose|time: Seq<char>| clock_reading(time)
                && match_views(time_part_v) == #[trigger] time_part(project@, tokens.drop_first(), time);
            assert(match_views(out@) =~= match_views(tags_part) + match_views(time_part_v));
            assert(match_views(out@) == project_part(self, tokens, time));
            return out;
        }
        let text: &str = if start < len { input[start] } else { "" };
        proof {
            reveal_strlit("");
            reveal_strlit(" ");
        }
        let no_icon = String::new();
        let mut out: Vec<SimpleMatch> = Vec::new();
        let title = String::from_str(text).concat(" ");
        let command = String::from_str("exec|watson start ").concat(text);
        out.push(SimpleMatch::new(title.as_str(), no_icon.as_str(), command.as_str()));
        let ghost first = seq![plain_start(text@)];
        assert(match_views(out@) =~= first + projects_like(strings(self.known_projects@.subrange(0, 0)), text@));
        let mut k: usize = 0;
        while k < self.known_projects.len()
            invariant
                k <= self.known_projects.len(),
                no_icon@ == Seq::<char>::empty(),
                match_views(out@) == first + projects_like(strings(self.known_projects@.subrange(0, k as int)), text@),
            decreases self.known_projects.len() - k,
        {
            assert(strings(self.known_projects@.subrange(0, k + 1)).drop_last() =~= strings(self.known_projects@.subrange(0, k as int)));
            let project = self.known_projects[k].as_str();
            if contains(project, text) {
                let t = String::from_str(project).concat(" ");
                let c = String::from_str("exec|watson start ").concat(project);
                let ghost before = out@;
                out.push(SimpleMatch::new(t.as_str(), no_icon.as_str(), c.as_str()));
                assert(match_views(out@) =~= match_views(before).push(plain_start(project@)));
            }
            k = k + 1;
        }
        assert(self.known_projects@.subrange(0, self.known_projects@.len() as int) =~= self.known_projects@);
        let ghost second = match_views(out@);
        assert(match_views(out@) =~= second + combos_like(self.combinations@.subrange(0, 0), text@));
        let mut k: usize = 0;
        while k < self.combinations.len()
            invariant
                k <= self.combinations.len(),
                no_icon@ == Seq::<char>::empty(),
                match_views(out@) == second + combos_like(self.combinations@.subrange(0, k as int), text@),
            decreases self.combinations.len() - k,
        {
            assert(self.combinations@.subrange(0, k + 1).drop_last() =~= self.combinations@.subrange(0, k as int));
            let combo = &self.combinations[k];
            if contains(combo.project.as_str(), text) {
                let tags = tags_string(&combo.tags);
                let t = combo.project.clone().concat(" ").concat(tags.as_str());
                let c = String::from_str("exec|watson start ").concat(combo.project.as_str()).concat(" ").concat(tags.as_str());
                let ghost before = out@;
                out.push(SimpleMatch::new(t.as_str(), no_icon.as_str(), c.as_str()));
                assert(match_views(out@) =~= match_views(before).push(combo_start(combo.project@, strings(combo.tags@))));
            }
            k = k + 1;
        }
        assert(self.combinations@.subrange(0, self.combinations@.len() as int) =~= self.combinations@);
        let ghost any_time = seq!['0', '0', ':', '0', '0'];
        assert(tokens.len() < 2);
        assert(text@ == (if tokens.len() == 0 { Seq::<char>::empty() } else { tokens[0] }));
        assert(match_views(out@) == project_part(self, tokens, any_time));
        out
    }

    pub fn get_matches(&self, input: Vec<&str>) -> (r: Vec<SimpleMatch>)
        ensures
            exists|time: Seq<char>| clock_reading(time)
                && match_views(r@) == #[trigger] project_part(self, views(input@), time),
    {
        let r = self.matches_from(&input, 0);
        assert(input@.subrange(0, input@.len() as int) =~= input@);
        r
    }
}

/// `x` alone when it is not empty; nothing otherwise.
pub open spec fn keep(x: Seq<char>) -> Seq<Seq<char>> {
    if x.len() > 0 {
        seq![x]
    } else {
        Seq::empty()
    }
}

/// The pieces of `s` between occurrences of `sep`, trimmed, without the
/// empty ones.
pub open spec fn items(s: Seq<char>, sep: Seq<char>) -> Seq<Seq<char>>
    decreases s.len(),
{
    match find_from(s, sep, 0) {
        Some(c) => if sep.len() > 0 && 0 <= c && c + sep.len() <= s.len() {
            keep(trim(s.subrange(0, c))) + items(s.subrange(c + sep.len(), s.len() as int), sep)
        } else {
            Seq::empty()
        },
        None => keep(trim(s)),
    }
}

/// The pieces of `s` between occurrences of `sep`, trimmed, without the
/// empty ones: the tags of a comma-separated list, or the lines of a listing.
pub fn items_of(s: &str, sep: &str) -> (r: Vec<String>)
    requires
        sep@.len() > 0,
    ensures
        strings(r@) == items(s@, sep@),
{
    let n = s.unicode_len();
    let m = sep.unicode_len();
    let mut out: Vec<String> = Vec::new();
    let mut start: usize = 0;
    assert(s@.subrange(0, n as int) =~= s@);
    loop
        invariant
            n == s@.len(),
            m == sep@.len(),
            m > 0,
            start <= n,
            strings(out@) + items(s@.subrange(start as int, n as int), sep@) == items(s@, sep@),
        decreases n - start,
    {
        let rest = s.substring_char(start, n);
        let ghost before = out@;
        match find(rest, sep) {
            Some(c) => {
                let piece = trim_text(rest.substring_char(0, c));
                if piece.unicode_len() > 0 {
                    out.push(piece);
                }
                proof {
                    assert(rest@.subrange(c + m, rest@.len() as int) =~= s@.subrange(start + c + m, n as int));
                    assert(strings(out@) =~= strings(before) + keep(piece@));
                }
                start = start + c + m;
            },
            None => {
                let piece = trim_text(rest);
                if piece.unicode_len() > 0 {
                    out.push(piece);
                }
                assert(strings(out@) =~= strings(before) + keep(piece@));
                assert(items(s@.subrange(start as int, n as int), sep@) == keep(piece@));
                return out;
            },
        }
    }
}

/// What `watson status` says about the running project: its name, its
/// tags and how long ago it started; none when no project runs or the text
/// is not understood.
pub open spec fn status_of(out: Seq<char>) -> Option<(Seq<char>, Seq<Seq<char>>, Seq<char>)> {
    let o = trim(out);
    if occurs_in("No project started"@, o) || o.len() == 0 {
        None
    } else {
        match find_from(o, "Project "@, 0) {
            None => None,
            Some(ps) => {
                let ap = o.subrange(ps + 8, o.len() as int);
                let named: Option<(Seq<char>, Seq<Seq<char>>)> = match find_from(ap, " ["@, 0) {
                    Some(b) => Some((ap.subrange(0, b), match (find_from(ap, "["@, 0), find_from(ap, "]"@, 0)) {
                        (Some(ts), Some(te)) => if ts + 1 <= te {
                            items(ap.subrange(ts + 1, te), ","@)
                        } else {
                            Seq::empty()
                        },
                        _ => Seq::empty(),
                    })),
                    None => match find_from(ap, " started"@, 0) {
                        Some(sp) => Some((ap.subrange(0, sp), Seq::empty())),
                        None => None,
                    },
                };
                match named {
                    None => None,
                    Some((project, tags)) => match find_from(o, "started "@, 0) {
                        None => None,
                        Some(st) => {
                            let after = o.subrange(st + 8, o.len() as int);
                            let elapsed = match find_from(after, " ("@, 0) {
                                Some(pp) => after.subrange(0, pp),
                                None => Seq::empty(),
                            };
                            Some((project, tags, elapsed))
                        },
                    },
                }
            },
        }
    }
}

/// Reads the output of `watson status`, such as `Project anyrun [coding]
/// started 3 hours ago (2025.11.06 17:00:00-0500)`.
pub fn parse_status(out: &str) -> (r: Option<(String, Vec<String>, String)>)
    ensures
        r matches Some((p, t, e)) ==> status_of(out@) == Some((p@, strings(t@), e@)),
        r is None ==> status_of(out@) is None,
{
    proof {
        reveal_strlit("Project ");
        reveal_strlit(" [");
        reveal_strlit("[");
        reveal_strlit("]");
        reveal_strlit(",");
        reveal_strlit(" started");
        reveal_strlit("started ");
        reveal_strlit(" (");
    }
    let line = trim_text(out);
    let o = line.as_str();
    if contains(o, "No project started") || o.unicode_len() == 0 {
        return None;
    }
    let ps = match find(o, "Project ") {
        Some(ps) => ps,
        None => return None,
    };
    let n = o.unicode_len();
    let ap = o.substring_char(ps + 8, n);
    let an = ap.unicode_len();
    let project: String;
    let mut tags: Vec<String> = Vec::new();
    match find(ap, " [") {
        Some(b) => {
            project = ap.substring_char(0, b).to_string();
            match (find(ap, "["), find(ap, "]")) {
                (Some(ts), Some(te)) => {
                    if ts + 1 <= te {
                        tags = items_of(ap.substring_char(ts + 1, te), ",");
                    }
                },
                _ => {},
            }
        },
        None => match find(ap, " started") {
            Some(sp) => {
                project = ap.substring_char(0, sp).to_string();
            },
            None => return None,
        },
    }
    let st = match find(o, "started ") {
        Some(st) => st,
        None => return None,
    };
    let after = o.substring_char(st + 8, n);
    let elapsed = match find(after, " (") {
        Some(pp) => after.substring_char(0, pp).to_string(),
        None => String::new(),
    };
    Some((project, tags, elapsed))
}

/// A project and its tags as character sequences.
pub open spec fn combo_view(c: ProjectTagCombo) -> (Seq<char>, Seq<Seq<char>>) {
    (c.project@, strings(c.tags@))
}

/// The largest number of combinations kept from the history.
pub const MAX_COMBINATIONS: usize = 50;

/// The distinct combinations of `frames`, the most recent (last) first, up
/// to `MAX_COMBINATIONS` of them.
pub open spec fn recent_unique(frames: Seq<(Seq<char>, Seq<Seq<char>>)>) -> Seq<(Seq<char>, Seq<Seq<char>>)>
    decreases frames.len(),
{
    if frames.len() == 0 {
        Seq::empty()
    } else {
        let later = recent_unique(frames.drop_first());
        if later.len() >= MAX_COMBINATIONS || later.contains(frames[0]) {
            later
        } else {
            later.push(frames[0])
        }
    }
}

/// The two lists of tags are equal.
fn same_tags(a: &Vec<String>, b: &Vec<String>) -> (r: bool)
    ensures
        r == (strings(a@) == strings(b@)),
{
    if a.len() != b.len() {
        assert(strings(a@).len() != strings(b@).len());
        return false;
    }
    let mut i: usize = 0;
    while i < a.len()
        invariant
            a@.len() == b@.len(),
            i <= a@.len(),
            forall|k: int| 0 <= k < i ==> #[trigger] a@[k]@ == b@[k]@,
        decreases a.len() - i,
    {
        if a[i] != b[i] {
            assert(strings(a@)[i as int] != strings(b@)[i as int]);
            return false;
        }
        i = i + 1;
    }
    assert(strings(a@) =~= strings(b@));
    true
}

/// The combinations of a history of frames, oldest first: each distinct one
/// once, the most recent first, at most `MAX_COMBINATIONS`.
pub fn recent_combinations(frames: Vec<ProjectTagCombo>) -> (r: Vec<ProjectTagCombo>)
    ensures
        r@.map_values(|c: ProjectTagCombo| combo_view(c)) == recent_unique(frames@.map_values(|c: ProjectTagCombo| combo_view(c))),
{
    let ghost all = frames@.map_values(|c: ProjectTagCombo| combo_view(c));
    let mut rest = frames;
    let mut out: Vec<ProjectTagCombo> = Vec::new();
    assert(all.subrange(all.len() as int, all.len() as int) =~= Seq::<(Seq<char>, Seq<Seq<char>>)>::empty());
    while rest.len() > 0
        invariant
            rest@.len() <= all.len(),
            forall|k: int| 0 <= k < rest@.len() ==> combo_view(#[trigger] rest@[k]) == all[k],
            out@.map_values(|c: ProjectTagCombo| combo_view(c)) == recent_unique(all.subrange(rest@.len() as int, all.len() as int)),
        decreases rest.len(),
    {
        let ghost later = all.subrange(rest@.len() as int, all.len() as int);
        let ghost now = all.subrange(rest@.len() - 1, all.len() as int);
        let ghost outs = out@.map_values(|c: ProjectTagCombo| combo_view(c));
        assert(now.drop_first() =~= later);
        let frame = rest.pop().unwrap();
        assert(now[0] == combo_view(frame));
        if out.len() < MAX_COMBINATIONS {
            let mut seen = false;
            let mut k: usize = 0;
            while k < out.len()
                invariant
                    k <= out@.len(),
                    outs == out@.map_values(|c: ProjectTagCombo| combo_view(c)),
                    seen == (exists|j: int| 0 <= j < k && outs[j] == combo_view(frame)),
                decreases out.len() - k,
            {
                if out[k].project == frame.project && same_tags(&out[k].tags, &frame.tags) {
                    seen = true;
                }
                assert(outs[k as int] == combo_view(out@[k as int]));
                k = k + 1;
            }
            assert(seen == outs.contains(combo_view(frame)));
            if !seen {
                out.push(frame);
                assert(out@.map_values(|c: ProjectTagCombo| combo_view(c)) =~= outs.push(now[0]));
            }
        }
    }
    assert(all.subrange(0, all.len() as int) =~= all);
    out
}

/// `a` comes before `b` in code-point order, the order of `String`'s `Ord`
/// (UTF-8 bytes compare as their code points do).
pub open spec fn text_lt(a: Seq<char>, b: Seq<char>) -> bool
    decreases a.len(),
{
    if a.len() == 0 {
        b.len() > 0
    } else if b.len() == 0 {
        false
    } else if a[0] != b[0] {
        a[0] < b[0]
    } else {
        text_lt(a.drop_first(), b.drop_first())
    }
}

proof fn lemma_text_lt_trans(a: Seq<char>, b: Seq<char>, c: Seq<char>)
    requires
        text_lt(a, b),
        text_lt(b, c),
    ensures
        text_lt(a, c),
    decreases a.len(),
{
    if a.len() > 0 && b.len() > 0 && c.len() > 0 && a[0] == b[0] && b[0] == c[0] {
        lemma_text_lt_trans(a.drop_first(), b.drop_first(), c.drop_first());
    }
}

proof fn lemma_text_lt_total(a: Seq<char>, b: Seq<char>)
    ensures
        a == b || text_lt(a, b) || text_lt(b, a),
        !(text_lt(a, b) && text_lt(b, a)),
        !text_lt(a, a),
    decreases a.len(),
{
    if a.len() > 0 {
        lemma_text_lt_total(a.drop_first(), a.drop_first());
    }
    if a.len() > 0 && b.len() > 0 && a[0] == b[0] {
        lemma_text_lt_total(a.drop_first(), b.drop_first());
        if a.drop_first() == b.drop_first() {
            assert(a =~= seq![a[0]] + a.drop_first());
            assert(b =~= seq![b[0]] + b.drop_first());
        }
    } else if a.len() == 0 && b.len() == 0 {
        assert(a =~= b);
    }
}

/// Whether `a` comes before `b` in code-point order.
fn text_less(a: &str, b: &str) -> (r: bool)
    ensures
        r == text_lt(a@, b@),
{
    let n = a.unicode_len();
    let m = b.unicode_len();
    let mut i: usize = 0;
    assert(a@.subrange(0, n as int) =~= a@);
    assert(b@.subrange(0, m as int) =~= b@);
    while i < n && i < m && a.get_char(i) == b.get_char(i)
        invariant
            n == a@.len(),
            m == b@.len(),
            i <= n && i <= m,
            text_lt(a@.subrange(i as int, n as int), b@.subrange(i as int, m as int)) == text_lt(a@, b@),
        decreases n - i,
    {
        assert(a@.subrange(i as int, n as int).drop_first() =~= a@.subrange(i + 1, n as int));
        assert(b@.subrange(i as int, m as int).drop_first() =~= b@.subrange(i + 1, m as int));
        i = i + 1;
    }
    if i == n {
        i < m
    } else if i == m {
        false
    } else {
        a.get_char(i) < b.get_char(i)
    }
}

/// Some element of `v` is the text `x`.
pub open spec fn holds_text(v: Seq<String>, x: Seq<char>) -> bool {
    exists|i: int| 0 <= i < v.len() && #[trigger] v[i]@ == x
}

/// One of the first `k` combinations is for project `x`.
pub open spec fn names_project(combos: Seq<ProjectTagCombo>, k: int, x: Seq<char>) -> bool {
    exists|c: int| 0 <= c < k && #[trigger] combos[c].project@ == x
}

/// The projects of the combinations, each once, in code-point order.
pub fn known_projects(combos: &Vec<ProjectTagCombo>) -> (r: Vec<String>)
    ensures
        forall|i: int, j: int| 0 <= i < j < r@.len() ==> text_lt(#[trigger] r@[i]@, #[trigger] r@[j]@),
        forall|x: Seq<char>| #[trigger] holds_text(r@, x) <==> names_project(combos@, combos@.len() as int, x),
{
    let mut out: Vec<String> = Vec::new();
    let mut k: usize = 0;
    while k < combos.len()
        invariant
            k <= combos@.len(),
            forall|i: int, j: int| 0 <= i < j < out@.len() ==> text_lt(#[trigger] out@[i]@, #[trigger] out@[j]@),
            forall|x: Seq<char>| #[trigger] holds_text(out@, x) <==> names_project(combos@, k as int, x),
        decreases combos.len() - k,
    {
        let p = &combos[k].project;
        let mut j: usize = 0;
        while j < out.len() && text_less(out[j].as_str(), p.as_str())
            invariant
                j <= out@.len(),
                forall|i: int| 0 <= i < j ==> text_lt(#[trigger] out@[i]@, p@),
            decreases out.len() - j,
        {
            j = j + 1;
        }
        let ghost old_out = out@;
        if j < out.len() && out[j] == *p {
            assert forall|x: Seq<char>| #[trigger] holds_text(out@, x) <==> names_project(combos@, k + 1, x) by {
                if exists|c: int| 0 <= c < k + 1 && #[trigger] combos@[c].project@ == x {
                    let c = choose|c: int| 0 <= c < k + 1 && #[trigger] combos@[c].project@ == x;
                    if c == k {
                        assert(out@[j as int]@ == x);
                    }
                }
                if exists|i: int| 0 <= i < out@.len() && #[trigger] out@[i]@ == x {
                    assert(holds_text(old_out, x));
                    let c = choose|c: int| 0 <= c < k && #[trigger] combos@[c].project@ == x;
                    assert(0 <= c < k + 1 && combos@[c].project@ == x);
                }
            }
        } else {
            proof {
                if j < old_out.len() {
                    lemma_text_lt_total(old_out[j as int]@, p@);
                }
            }
            out.insert(j, p.clone());
            assert forall|a: int, b: int| 0 <= a < b < out@.len() implies text_lt(#[trigger] out@[a]@, #[trigger] out@[b]@) by {
                if b == j as int {
                    assert(out@[a] == old_out[a]);
                } else if a == j as int {
                    assert(out@[b] == old_out[b - 1]);
                    if b - 1 > j as int {
                        lemma_text_lt_trans(p@, old_out[j as int]@, old_out[b - 1]@);
                    }
                } else if a < j as int && b > j as int {
                    assert(out@[a] == old_out[a]);
                    assert(out@[b] == old_out[b - 1]);
                    assert(text_lt(old_out[a]@, p@));
                    if j < old_out.len() {
                        lemma_text_lt_trans(old_out[a]@, p@, old_out[j as int]@);
                        if b - 1 > j as int {
                            lemma_text_lt_trans(old_out[a]@, old_out[j as int]@, old_out[b - 1]@);
                        }
                    }
                } else if b < j as int {
                    assert(out@[a] == old_out[a] && out@[b] == old_out[b]);
                } else {
                    assert(out@[a] == old_out[a - 1] && out@[b] == old_out[b - 1]);
                }
            }
            assert forall|x: Seq<char>| #[trigger] holds_text(out@, x) <==> names_project(combos@, k + 1, x) by {
                if exists|i: int| 0 <= i < out@.len() && #[trigger] out@[i]@ == x {
                    let i = choose|i: int| 0 <= i < out@.len() && #[trigger] out@[i]@ == x;
                    if i == j as int {
                        assert(combos@[k as int].project@ == x);
                    } else if i < j as int {
                        assert(old_out[i]@ == x);
                        assert(holds_text(old_out, x));
                        let c = choose|c: int| 0 <= c < k && #[trigger] combos@[c].project@ == x;
                        assert(0 <= c < k + 1 && combos@[c].project@ == x);
                    } else {
                        assert(old_out[i - 1]@ == x);
                        assert(holds_text(old_out, x));
                        let c = choose|c: int| 0 <= c < k && #[trigger] combos@[c].project@ == x;
                        assert(0 <= c < k + 1 && combos@[c].project@ == x);
                    }
                }
                if exists|c: int| 0 <= c < k + 1 && #[trigger] combos@[c].project@ == x {
                    let c = choose|c: int| 0 <= c < k + 1 && #[trigger] combos@[c].project@ == x;
                    if c == k {
                        assert(out@[j as int]@ == x);
                    } else {
                        assert(names_project(combos@, k as int, x));
                        assert(holds_text(old_out, x));
                        let i = choose|i: int| 0 <= i < old_out.len() && #[trigger] old_out[i]@ == x;
                        if i < j as int {
                            assert(out@[i] == old_out[i]);
                            assert(out@[i]@ == x);
                        } else {
                            assert(out@[i + 1] == old_out[i]);
                            assert(out@[i + 1]@ == x);
                        }
                    }
                }
            }
        }
        k = k + 1;
    }
    out
}

} // verus!
