//! The to-do file's line format: `- [ ] title (created at: YYYY-MM-DD,
//! completed at: None)`, with `x` in the box and a date once completed.
use vstd::prelude::*;
use crate::text::{find, find_from, is_white, trim, trim_text};
use chrono::Datelike;

verus! {

/// A calendar date within chrono's range of years.
#[derive(Clone, Copy, Debug, PartialEq, Eq, Structural)]
pub struct Date {
    pub year: i32,
    pub month: u32,
    pub day: u32,
}

pub open spec fn is_leap(y: int) -> bool {
    (y % 4 == 0 && y % 100 != 0) || y % 400 == 0
}

pub open spec fn days_in_month(y: int, m: int) -> int {
    if m == 2 {
        if is_leap(y) { 29 } else { 28 }
    } else if m == 4 || m == 6 || m == 9 || m == 11 {
        30
    } else {
        31
    }
}

impl Date {
    /// A real date of the proleptic Gregorian calendar in chrono's range of
    /// years, -262143 to 262142.
    pub open spec fn wf(&self) -> bool {
        -262143 <= self.year <= 262142 && 1 <= self.month <= 12 && 1 <= self.day <= days_in_month(
            self.year as int,
            self.month as int,
        )
    }
}

/// A decimal digit character.
pub open spec fn digit(n: int) -> char {
    seq!['0', '1', '2', '3', '4', '5', '6', '7', '8', '9'][n]
}

/// The decimal digits of `n`.
pub open spec fn decimal(n: nat) -> Seq<char>
    decreases n,
{
    if n < 10 {
        seq![digit(n as int)]
    } else {
        decimal(n / 10).push(digit((n % 10) as int))
    }
}

/// A year outside 0 to 9999: its sign, then its digits, at least four.
pub open spec fn signed_year(y: int) -> Seq<char> {
    if y > 9999 {
        seq!['+'] + decimal(y as nat)
    } else {
        let digits = decimal((-y) as nat);
        seq!['-'] + if digits.len() >= 4 {
            digits
        } else {
            Seq::new((4 - digits.len()) as nat, |i: int| '0') + digits
        }
    }
}

/// `YYYY-MM-DD`, each part zero-padded; a year outside 0 to 9999 is written
/// with its sign.
pub open spec fn date_text(d: Date) -> Seq<char> {
    let y = d.year as int;
    if !(0 <= y <= 9999) {
        signed_year(y) + seq!['-', digit(d.month as int / 10), digit(d.month as int % 10), '-',
            digit(d.day as int / 10), digit(d.day as int % 10)]
    } else {
    seq![digit(y / 1000), digit((y / 100) % 10), digit((y / 10) % 10), digit(y % 10), '-',
        digit(d.month as int / 10), digit(d.month as int % 10), '-',
        digit(d.day as int / 10), digit(d.day as int % 10)]
    }
}

/// The year has four digits, as a date of the `DDDD-DD-DD` shape has.
pub open spec fn four_digit(d: Date) -> bool {
    0 <= d.year <= 9999
}

/// Relies on `Display` of `chrono::NaiveDate`: a year from 0 to 9999 in four
/// digits, another with its sign and at least four digits (`{:+05}`), then
/// month and day in two, joined by dashes.
#[verifier::external_body]
pub(crate) fn date_string(d: Date) -> (r: String)
    requires
        d.wf(),
    ensures
        r@ == date_text(d),
{
    match chrono::NaiveDate::from_ymd_opt(d.year, d.month, d.day) {
        Some(n) => n.to_string(),
        None => String::new(),
    }
}

pub open spec fn is_digit(c: char) -> bool {
    '0' <= c <= '9'
}

pub open spec fn digit_value(c: char) -> int {
    c as int - '0' as int
}

/// The shape `DDDD-DD-DD`.
pub open spec fn date_shaped(s: Seq<char>) -> bool {
    &&& s.len() == 10
    &&& s[4] == '-' && s[7] == '-'
    &&& forall|i: int| 0 <= i < 10 && i != 4 && i != 7 ==> is_digit(#[trigger] s[i])
}

/// The date written in `s` as `YYYY-MM-DD`, if it is a real date.
pub open spec fn date_of_text(s: Seq<char>) -> Option<Date> {
    if date_shaped(s) {
        let d = Date {
            year: (digit_value(s[0]) * 1000 + digit_value(s[1]) * 100 + digit_value(s[2]) * 10 + digit_value(s[3])) as i32,
            month: (digit_value(s[5]) * 10 + digit_value(s[6])) as u32,
            day: (digit_value(s[8]) * 10 + digit_value(s[9])) as u32,
        };
        if d.wf() {
            Some(d)
        } else {
            None
        }
    } else {
        None
    }
}

/// What `chrono::NaiveDate::parse_from_str(s, "%Y-%m-%d")` gives, as year,
/// month and day.
pub uninterp spec fn parsed_ymd(s: Seq<char>) -> Option<(i32, u32, u32)>;

/// Relies on `chrono::NaiveDate::parse_from_str` with `%Y-%m-%d`: what it
/// gives is a real calendar date, and on a text of the shape `DDDD-DD-DD`
/// it gives exactly the date that the digits write, when that date exists.
#[verifier::external_body]
fn parse_ymd(s: &str) -> (r: Option<(i32, u32, u32)>)
    ensures
        r == parsed_ymd(s@),
        r matches Some((y, m, d)) ==> -262143 <= y <= 262142 && 1 <= m <= 12 && 1 <= d <= days_in_month(y as int, m as int),
        date_shaped(s@) ==> (r matches Some((y, m, d)) ==> date_of_text(s@) == Some(Date { year: y, month: m, day: d })),
        date_shaped(s@) && r is None ==> date_of_text(s@) is None,
{
    match chrono::NaiveDate::parse_from_str(s, "%Y-%m-%d") {
        Ok(n) => Some((n.year(), n.month(), n.day())),
        Err(_) => None,
    }
}

/// The date that `s` holds: on the shape `DDDD-DD-DD` the date its digits
/// write; otherwise what chrono reads in it.
pub open spec fn date_in(s: Seq<char>) -> Option<Date> {
    if date_shaped(s) {
        date_of_text(s)
    } else {
        match parsed_ymd(s) {
            Some((y, m, d)) => Some(Date { year: y, month: m, day: d }),
            None => None,
        }
    }
}

/// The date written in `s` (`%Y-%m-%d`), if it is a real date.
pub fn parse_date(s: &str) -> (r: Option<Date>)
    ensures
        r == date_in(s@),
        r matches Some(d) ==> d.wf(),
{
    match parse_ymd(s) {
        Some((year, month, day)) => Some(Date { year, month, day }),
        None => None,
    }
}

/// The digit characters stand for their values.
proof fn lemma_digit(n: int)
    requires
        0 <= n < 10,
    ensures
        is_digit(digit(n)),
        digit_value(digit(n)) == n,
{
    if n == 0 {} else if n == 1 {} else if n == 2 {} else if n == 3 {} else if n == 4 {}
    else if n == 5 {} else if n == 6 {} else if n == 7 {} else if n == 8 {} else {}
}

/// Parsing the text of a date with a four-digit year gives the date back.
pub proof fn lemma_date_round_trip(d: Date)
    requires
        d.wf(),
        four_digit(d),
    ensures
        date_of_text(date_text(d)) == Some(d),
{
    let y = d.year as int;
    let m = d.month as int;
    let dd = d.day as int;
    lemma_digit(y / 1000);
    lemma_digit((y / 100) % 10);
    lemma_digit((y / 10) % 10);
    lemma_digit(y % 10);
    lemma_digit(m / 10);
    lemma_digit(m % 10);
    lemma_digit(dd / 10);
    lemma_digit(dd % 10);
    let s = date_text(d);
    assert(y == (y / 1000) * 1000 + ((y / 100) % 10) * 100 + ((y / 10) % 10) * 10 + y % 10) by (nonlinear_arith)
        requires 0 <= y <= 9999;
    assert(m == (m / 10) * 10 + m % 10) by (nonlinear_arith)
        requires 0 <= m;
    assert(dd == (dd / 10) * 10 + dd % 10) by (nonlinear_arith)
        requires 0 <= dd;
    assert(date_shaped(s));
}

/// One entry of the to-do list.
#[derive(Clone, Debug)]
pub struct Todo {
    pub title: String,
    pub created_at: Date,
    pub completed_at: Option<Date>,
}

/// A to-do entry as title, creation date and completion date.
pub type TodoView = (Seq<char>, Date, Option<Date>);

impl View for Todo {
    type V = TodoView;

    open spec fn view(&self) -> TodoView {
        (self.title@, self.created_at, self.completed_at)
    }
}

impl PartialEq for Todo {
    fn eq(&self, other: &Todo) -> (r: bool)
        ensures
            r == (self@ == other@),
    {
        let same_completion = match (self.completed_at, other.completed_at) {
            (None, None) => true,
            (Some(a), Some(b)) => a == b,
            _ => false,
        };
        self.title == other.title && self.created_at == other.created_at && same_completion
    }
}

impl Eq for Todo {
}

impl vstd::std_specs::cmp::PartialEqSpecImpl for Todo {
    open spec fn obeys_eq_spec() -> bool {
        true
    }

    open spec fn eq_spec(&self, other: &Todo) -> bool {
        self@ == other@
    }
}

/// Both dates of the entry have four-digit years.
pub open spec fn four_digit_dates(t: TodoView) -> bool {
    four_digit(t.1) && (t.2 matches Some(d) ==> four_digit(d))
}

/// Both dates of the entry are real dates in chrono's range.
pub open spec fn dates_wf(t: TodoView) -> bool {
    t.1.wf() && (t.2 matches Some(d) ==> d.wf())
}

pub open spec fn box_open() -> Seq<char> {
    seq!['-', ' ', '[']
}

pub open spec fn box_close() -> Seq<char> {
    seq![']', ' ']
}

pub open spec fn created_sep() -> Seq<char> {
    seq![' ', '(', 'c', 'r', 'e', 'a', 't', 'e', 'd', ' ', 'a', 't', ':', ' ']
}

pub open spec fn completed_sep() -> Seq<char> {
    seq![',', ' ', 'c', 'o', 'm', 'p', 'l', 'e', 't', 'e', 'd', ' ', 'a', 't', ':', ' ']
}

pub open spec fn none_text() -> Seq<char> {
    seq!['N', 'o', 'n', 'e']
}

/// The line of an entry.
pub open spec fn format_line(t: TodoView) -> Seq<char> {
    box_open() + (if t.2 is Some { seq!['x'] } else { seq![' '] }) + box_close() + t.0 + created_sep()
        + date_text(t.1) + completed_sep() + (match t.2 {
        Some(d) => date_text(d),
        None => none_text(),
    }) + seq![')']
}

/// The entry that a line holds: after trimming, it starts with `- [`; the
/// title runs from the first `] ` to the first ` (created at: `; the dates
/// follow, split at `, completed at: `, and the last character is dropped.
pub open spec fn parse_line(line: Seq<char>) -> Option<TodoView> {
    let t = trim(line);
    if !box_open().is_prefix_of(t) {
        None
    } else {
        match (find_from(t, box_close(), 0), find_from(t, created_sep(), 0)) {
            (Some(a), Some(p)) => if a + 2 > p || p + 14 > t.len() - 1 {
                None
            } else {
                let title = trim(t.subrange(a + 2, p));
                let times = t.subrange(p + 14, t.len() - 1);
                match find_from(times, completed_sep(), 0) {
                    None => None,
                    Some(q) => {
                        let created_text = trim(times.subrange(0, q));
                        let after = times.subrange(q + 16, times.len() as int);
                        let completed_text = trim(
                            match find_from(after, completed_sep(), 0) {
                                Some(q2) => after.subrange(0, q2),
                                None => after,
                            },
                        );
                        match date_in(created_text) {
                            None => None,
                            Some(c) => if completed_text == none_text() {
                                Some((title, c, None))
                            } else {
                                match date_in(completed_text) {
                                    Some(d) => Some((title, c, Some(d))),
                                    None => None,
                                }
                            },
                        }
                    },
                }
            },
            _ => None,
        }
    }
}

impl Todo {
    /// The entry written on `s`, if `s` is a well-formed line.
    pub fn from_str(s: &str) -> (r: Option<Todo>)
        ensures
            r matches Some(t) ==> parse_line(s@) == Some(t@) && dates_wf(t@),
            r is None ==> parse_line(s@) is None,
    {
        let open = "- [";
        let close = "] ";
        let created = " (created at: ";
        let completed = ", completed at: ";
        let none = "None";
        proof {
            reveal_strlit("- [");
            reveal_strlit("] ");
            reveal_strlit(" (created at: ");
            reveal_strlit(", completed at: ");
            reveal_strlit("None");
            assert(open@ =~= box_open());
            assert(close@ =~= box_close());
            assert(created@ =~= created_sep());
            assert(completed@ =~= completed_sep());
            assert(none@ =~= none_text());
        }
        let line = trim_text(s);
        let t = line.as_str();
        if !crate::text::starts_with(t, open) {
            return None;
        }
        let a = match find(t, close) {
            Some(a) => a,
            None => return None,
        };
        let p = match find(t, created) {
            Some(p) => p,
            None => return None,
        };
        let n = t.unicode_len();
        if a + 2 > p || p + 14 > n - 1 {
            return None;
        }
        let title = trim_text(t.substring_char(a + 2, p));
        let times = t.substring_char(p + 14, n - 1);
        let q = match find(times, completed) {
            Some(q) => q,
            None => return None,
        };
        let created_text = trim_text(times.substring_char(0, q));
        let m = times.unicode_len();
        let after = times.substring_char(q + 16, m);
        let completed_raw = match find(after, completed) {
            Some(q2) => after.substring_char(0, q2),
            None => after,
        };
        let completed_text = trim_text(completed_raw);
        let created_at = match parse_date(created_text.as_str()) {
            Some(c) => c,
            None => return None,
        };
        if completed_text == String::from_str(none) {
            return Some(Todo { title, created_at, completed_at: None });
        }
        match parse_date(completed_text.as_str()) {
            Some(d) => Some(Todo { title, created_at, completed_at: Some(d) }),
            None => None,
        }
    }

    /// The line of this entry.
    pub fn to_string(&self) -> (r: String)
        requires
            dates_wf(self@),
        ensures
            r@ == format_line(self@),
    {
        proof {
            reveal_strlit("- [");
            reveal_strlit("x");
            reveal_strlit(" ");
            reveal_strlit("] ");
            reveal_strlit(" (created at: ");
            reveal_strlit(", completed at: ");
            reveal_strlit("None");
            reveal_strlit(")");
        }
        let status = if self.completed_at.is_some() { "x" } else { " " };
        let completed = match self.completed_at {
            Some(d) => date_string(d),
            None => String::from_str("None"),
        };
        let r = String::from_str("- [").concat(status).concat("] ").concat(self.title.as_str())
            .concat(" (created at: ").concat(date_string(self.created_at).as_str())
            .concat(", completed at: ").concat(completed.as_str()).concat(")");
        assert(r@ =~= format_line(self@));
        r
    }
}

/// `pat` occurs at `k` and nowhere from `i` up to `k`: the search from `i`
/// finds `k`.
proof fn lemma_find_first(s: Seq<char>, pat: Seq<char>, i: int, k: int)
    requires
        0 <= i <= k,
        k + pat.len() <= s.len(),
        s.subrange(k, k + pat.len()) == pat,
        forall|j: int| i <= j < k ==> #[trigger] s.subrange(j, j + pat.len()) != pat,
    ensures
        find_from(s, pat, i) == Some(k),
    decreases k - i,
{
    if i < k {
        lemma_find_first(s, pat, i + 1, k);
    }
}

/// A text whose first and last characters are not whitespace is its own trim.
proof fn lemma_trim_same(s: Seq<char>)
    requires
        s.len() > 0,
        !is_white(s[0]),
        !is_white(s.last()),
    ensures
        trim(s) == s,
{
}

/// The text of the dates part of a line: creation date, separator, and
/// completion date or `None`.
pub open spec fn dates_part(t: TodoView) -> Seq<char> {
    date_text(t.1) + completed_sep() + (match t.2 {
        Some(d) => date_text(d),
        None => none_text(),
    })
}

/// The first `] ` of a text that starts with `- [`, one character other
/// than `]`, and `] ` is at position 4.
proof fn lemma_close_first(s: Seq<char>)
    requires
        s.len() >= 6,
        s[0] == '-' && s[1] == ' ' && s[2] == '[' && s[3] != ']' && s[4] == ']' && s[5] == ' ',
    ensures
        find_from(s, box_close(), 0) == Some(4int),
{
    assert(s.subrange(4, 6) =~= box_close());
    assert forall|j: int| 0 <= j < 4 implies #[trigger] s.subrange(j, j + 2) != box_close() by {
        assert(s.subrange(j, j + 2)[0] == s[j]);
    }
    lemma_find_first(s, box_close(), 0, 4);
}

/// No run of ` (created at: ` starts before `p` in a text that has no `(`
/// at positions 1 to `p`.
proof fn lemma_sep_absent(s: Seq<char>, p: int)
    requires
        p + 14 <= s.len(),
        forall|i: int| 1 <= i <= p ==> #[trigger] s[i] != '(',
    ensures
        forall|j: int| 0 <= j < p ==> #[trigger] s.subrange(j, j + 14) != created_sep(),
{
    assert forall|j: int| 0 <= j < p implies #[trigger] s.subrange(j, j + 14) != created_sep() by {
        assert(s.subrange(j, j + 14)[1] == s[j + 1]);
        assert(created_sep()[1] == '(');
    }
}

/// In `a`, then ` (created at: `, then anything, the separator is first
/// found right after `a` when `a` holds no `(` past its first character.
proof fn lemma_sep_first(a: Seq<char>, rest: Seq<char>)
    requires
        forall|i: int| 1 <= i < a.len() ==> #[trigger] a[i] != '(',
    ensures
        find_from(a + created_sep() + rest, created_sep(), 0) == Some(a.len() as int),
{
    let line = a + created_sep() + rest;
    let p = a.len() as int;
    assert(line.subrange(p, p + 14) =~= created_sep());
    assert forall|i: int| 1 <= i <= p implies #[trigger] line[i] != '(' by {
        if i < p {
            assert(line[i] == a[i]);
        } else {
            assert(line[i] == ' ');
        }
    }
    lemma_sep_absent(line, p);
    lemma_find_first(line, created_sep(), 0, p);
}

/// The positions that parsing finds in the line of an entry.
proof fn lemma_line_positions(t: TodoView)
    requires
        forall|i: int| 0 <= i < t.0.len() ==> #[trigger] t.0[i] != '(',
    ensures
        ({
            let line = format_line(t);
            let p = 6 + t.0.len() as int;
            &&& line.len() == p + 14 + dates_part(t).len() + 1
            &&& trim(line) == line
            &&& box_open().is_prefix_of(line)
            &&& find_from(line, box_close(), 0) == Some(4int)
            &&& find_from(line, created_sep(), 0) == Some(p)
            &&& line.subrange(6, p) == t.0
            &&& line.subrange(p + 14, line.len() - 1) == dates_part(t)
        }),
{
    let title = t.0;
    let status = if t.2 is Some { seq!['x'] } else { seq![' '] };
    let head = box_open() + status + box_close() + title;
    let rest = dates_part(t) + seq![')'];
    let line = format_line(t);
    assert(line =~= head + created_sep() + rest);
    assert(head.len() == 6 + title.len());
    assert forall|i: int| 1 <= i < head.len() implies #[trigger] head[i] != '(' by {
        if i >= 6 {
            assert(head[i] == title[i - 6]);
        }
    }
    lemma_sep_first(head, rest);
    assert(line[0] == '-' && line[1] == ' ' && line[2] == '[' && line[3] != ']' && line[4] == ']' && line[5] == ' ');
    lemma_close_first(line);
    let len = line.len() as int;
    assert(line[len - 1] == ')');
    lemma_trim_same(line);
    assert(line.subrange(0, 3) =~= box_open());
    let p = head.len() as int;
    assert(line.subrange(6, p) =~= title);
    assert(line.subrange(p + 14, len - 1) =~= dates_part(t));
}

/// The dates part of an entry's line splits back into its two dates.
proof fn lemma_dates_positions(t: TodoView)
    requires
        dates_wf(t),
        four_digit_dates(t),
    ensures
        ({
            let times = dates_part(t);
            let tail = match t.2 {
                Some(d) => date_text(d),
                None => none_text(),
            };
            &&& find_from(times, completed_sep(), 0) == Some(10int)
            &&& trim(times.subrange(0, 10)) == date_text(t.1)
            &&& times.subrange(26, times.len() as int) == tail
            &&& find_from(tail, completed_sep(), 0) is None
            &&& trim(tail) == tail
            &&& date_in(date_text(t.1)) == Some(t.1)
            &&& (t.2 matches Some(d) ==> tail != none_text() && date_in(tail) == Some(d))
        }),
{
    let created = date_text(t.1);
    let tail = match t.2 {
        Some(d) => date_text(d),
        None => none_text(),
    };
    let times = dates_part(t);
    lemma_date_round_trip(t.1);
    assert(date_shaped(created));
    if let Some(d) = t.2 {
        lemma_date_round_trip(d);
        assert(date_shaped(date_text(d)));
        assert(tail[0] != 'N');
        assert(tail != none_text());
        assert(!is_white(tail[0]));
        assert(!is_white(tail.last()));
    }
    assert(times.subrange(10, 26) =~= completed_sep());
    assert forall|j: int| 0 <= j < 10 implies #[trigger] times.subrange(j, j + 16) != completed_sep() by {
        assert(times.subrange(j, j + 16)[0] == created[j]);
    }
    lemma_find_first(times, completed_sep(), 0, 10);
    assert(times.subrange(0, 10) =~= created);
    assert(!is_white(created[0]));
    assert(!is_white(created.last()));
    lemma_trim_same(created);
    assert(times.subrange(26, times.len() as int) =~= tail);
    lemma_trim_same(tail);
}

/// Writing an entry as a line and parsing the line gives the entry back,
/// for an entry whose dates are real four-digit-year dates and whose title
/// holds no `(` and no whitespace at either end.
pub proof fn lemma_todo_round_trip(t: TodoView)
    requires
        dates_wf(t),
        four_digit_dates(t),
        trim(t.0) == t.0,
        forall|i: int| 0 <= i < t.0.len() ==> #[trigger] t.0[i] != '(',
    ensures
        parse_line(format_line(t)) == Some(t),
{
    lemma_line_positions(t);
    lemma_dates_positions(t);
}

} // verus!
