//! Text operations used by the matchers, stated over character sequences.
use vstd::prelude::*;

verus! {

/// What `str::to_lowercase` gives for a character sequence.
pub uninterp spec fn lower_of(s: Seq<char>) -> Seq<char>;

/// `pat` occurs in `s` as a contiguous run of characters.
pub open spec fn occurs_in(pat: Seq<char>, s: Seq<char>) -> bool {
    exists|i: int| 0 <= i && i + pat.len() <= s.len() && #[trigger] s.subrange(i, i + pat.len()) == pat
}

/// `s` with each occurrence of the non-empty pattern `from`, found left to
/// right without overlap, replaced by `to`.
pub open spec fn replaced(s: Seq<char>, from: Seq<char>, to: Seq<char>) -> Seq<char>
    decreases s.len(),
{
    match find_from(s, from, 0) {
        Some(i) => if from.len() > 0 && 0 <= i && i + from.len() <= s.len() {
            s.subrange(0, i) + to + replaced(s.subrange(i + from.len(), s.len() as int), from, to)
        } else {
            s
        },
        None => s,
    }
}

/// Relies on `str::to_lowercase`: the result depends on the characters alone;
/// each character becomes one to three characters, so the empty string stays
/// empty and no string gets shorter.
#[verifier::external_body]
pub(crate) fn lowercase(s: &str) -> (r: String)
    ensures
        r@ == lower_of(s@),
        s@.len() == 0 ==> r@.len() == 0,
        r@.len() >= s@.len(),
{
    s.to_lowercase()
}

/// Whether `pat` occurs in `s`.
pub fn contains(s: &str, pat: &str) -> (r: bool)
    ensures
        r == occurs_in(pat@, s@),
{
    let r = find(s, pat);
    proof {
        lemma_find_from(s@, pat@, 0);
        if let Some(k) = r {
            assert(s@.subrange(k as int, k + pat@.len()) == pat@);
        }
    }
    r.is_some()
}

/// Whether `s` starts with `pat`.
pub fn starts_with(s: &str, pat: &str) -> (r: bool)
    ensures
        r == pat@.is_prefix_of(s@),
{
    let n = s.unicode_len();
    let m = pat.unicode_len();
    if m > n {
        return false;
    }
    let mut k: usize = 0;
    while k < m
        invariant
            n == s@.len(),
            m == pat@.len(),
            m <= n,
            k <= m,
            pat@.subrange(0, k as int) == s@.subrange(0, k as int),
        decreases m - k,
    {
        if s.get_char(k) != pat.get_char(k) {
            assert(s@.subrange(0, m as int)[k as int] != pat@[k as int]);
            return false;
        }
        assert(pat@.subrange(0, k + 1) =~= pat@.subrange(0, k as int).push(pat@[k as int]));
        assert(s@.subrange(0, k + 1) =~= s@.subrange(0, k as int).push(s@[k as int]));
        k = k + 1;
    }
    assert(pat@.subrange(0, m as int) =~= pat@);
    true
}

/// Relies on `str::replace` with a non-empty `&str` pattern: each match, found
/// left to right without overlap, replaced by `to`.
#[verifier::external_body]
pub(crate) fn replace(s: &str, from: &str, to: &str) -> (r: String)
    requires
        from@.len() > 0,
    ensures
        r@ == replaced(s@, from@, to@),
{
    s.replace(from, to)
}

/// Tokens joined with a single space between neighbours.
pub open spec fn joined(tokens: Seq<Seq<char>>) -> Seq<char>
    decreases tokens.len(),
{
    if tokens.len() == 0 {
        Seq::empty()
    } else if tokens.len() == 1 {
        tokens[0]
    } else {
        joined(tokens.drop_last()) + seq![' '] + tokens.last()
    }
}

/// The character views of a sequence of string slices.
pub open spec fn views<'a>(tokens: Seq<&'a str>) -> Seq<Seq<char>> {
    tokens.map_values(|t: &'a str| t@)
}

/// Joins `tokens[start..end]` with single spaces.
pub fn join_spaced(tokens: &Vec<&str>, start: usize, end: usize) -> (r: String)
    requires
        start <= end <= tokens.len(),
    ensures
        r@ == joined(views(tokens@.subrange(start as int, end as int))),
{
    let mut out = String::new();
    let mut i: usize = start;
    while i < end
        invariant
            start <= i <= end <= tokens.len(),
            out@ == joined(views(tokens@.subrange(start as int, i as int))),
        decreases end - i,
    {
        let ghost before = views(tokens@.subrange(start as int, i as int));
        if i > start {
            out.append(" ");
        }
        out.append(tokens[i]);
        proof {
            let after = views(tokens@.subrange(start as int, i + 1));
            assert(after.drop_last() =~= before);
            assert(after.last() == tokens@[i as int]@);
            reveal_strlit(" ");
        }
        i = i + 1;
    }
    out
}

/// The characters that `char::is_whitespace` accepts: those of Unicode's
/// `White_Space` property.
pub open spec fn is_white(c: char) -> bool {
    ||| '\u{9}' <= c <= '\u{d}'
    ||| c == ' ' || c == '\u{85}' || c == '\u{a0}' || c == '\u{1680}'
    ||| '\u{2000}' <= c <= '\u{200a}'
    ||| c == '\u{2028}' || c == '\u{2029}' || c == '\u{202f}' || c == '\u{205f}' || c == '\u{3000}'
}

/// Whether `c` is whitespace (Unicode `White_Space`, as `char::is_whitespace`).
pub fn white(c: char) -> (r: bool)
    ensures
        r == is_white(c),
{
    ('\u{9}' <= c && c <= '\u{d}') || c == ' ' || c == '\u{85}' || c == '\u{a0}' || c == '\u{1680}'
        || ('\u{2000}' <= c && c <= '\u{200a}') || c == '\u{2028}' || c == '\u{2029}' || c == '\u{202f}'
        || c == '\u{205f}' || c == '\u{3000}'
}

/// `s` without leading whitespace.
pub open spec fn trim_front(s: Seq<char>) -> Seq<char>
    decreases s.len(),
{
    if s.len() > 0 && is_white(s[0]) {
        trim_front(s.drop_first())
    } else {
        s
    }
}

/// `s` without trailing whitespace.
pub open spec fn trim_back(s: Seq<char>) -> Seq<char>
    decreases s.len(),
{
    if s.len() > 0 && is_white(s.last()) {
        trim_back(s.drop_last())
    } else {
        s
    }
}

/// `s` without whitespace at either end.
pub open spec fn trim(s: Seq<char>) -> Seq<char> {
    trim_back(trim_front(s))
}

/// `s` without whitespace at either end.
pub fn trim_text(s: &str) -> (r: String)
    ensures
        r@ == trim(s@),
{
    let n = s.unicode_len();
    let mut f: usize = 0;
    assert(s@.subrange(0, n as int) =~= s@);
    while f < n && white(s.get_char(f))
        invariant
            n == s@.len(),
            f <= n,
            trim_front(s@.subrange(f as int, n as int)) == trim_front(s@),
        decreases n - f,
    {
        assert(s@.subrange(f as int, n as int).drop_first() =~= s@.subrange(f + 1, n as int));
        f = f + 1;
    }
    let mut b: usize = n;
    while b > f && white(s.get_char(b - 1))
        invariant
            n == s@.len(),
            f <= b <= n,
            trim_front(s@) == s@.subrange(f as int, n as int),
            trim_back(s@.subrange(f as int, b as int)) == trim(s@),
        decreases b - f,
    {
        assert(s@.subrange(f as int, b as int).drop_last() =~= s@.subrange(f as int, b - 1));
        b = b - 1;
    }
    s.substring_char(f, b).to_string()
}

/// The first position from `i` on at which `pat` occurs in `s`.
pub open spec fn find_from(s: Seq<char>, pat: Seq<char>, i: int) -> Option<int>
    decreases s.len() + 1 - i,
{
    if i < 0 || i + pat.len() > s.len() {
        None
    } else if s.subrange(i, i + pat.len()) == pat {
        Some(i)
    } else {
        find_from(s, pat, i + 1)
    }
}

/// The first position at which `pat` occurs in `s`.
pub fn find(s: &str, pat: &str) -> (r: Option<usize>)
    ensures
        r matches Some(i) ==> find_from(s@, pat@, 0) == Some(i as int) && i + pat@.len() <= s@.len(),
        r is None ==> find_from(s@, pat@, 0) is None,
{
    let n = s.unicode_len();
    let m = pat.unicode_len();
    if m > n {
        return None;
    }
    let mut i: usize = 0;
    while i <= n - m
        invariant
            n == s@.len(),
            m == pat@.len(),
            m <= n,
            i <= n - m + 1,
            find_from(s@, pat@, i as int) == find_from(s@, pat@, 0),
        decreases n - i,
    {
        let mut k: usize = 0;
        while k < m && s.get_char(i + k) == pat.get_char(k)
            invariant
                n == s@.len(),
                m == pat@.len(),
                i + m <= n,
                k <= m,
                s@.subrange(i as int, i + k) == pat@.subrange(0, k as int),
            decreases m - k,
        {
            assert(s@.subrange(i as int, i + k + 1) =~= s@.subrange(i as int, i + k).push(s@[i + k]));
            assert(pat@.subrange(0, k + 1) =~= pat@.subrange(0, k as int).push(pat@[k as int]));
            k = k + 1;
        }
        if k == m {
            assert(pat@.subrange(0, m as int) =~= pat@);
            return Some(i);
        }
        assert(s@.subrange(i as int, i + m)[k as int] != pat@[k as int]);
        i = i + 1;
    }
    None
}

/// What the search from `i` finds is an occurrence, and it finds none
/// exactly when `pat` occurs nowhere from `i` on.
proof fn lemma_find_from(s: Seq<char>, pat: Seq<char>, i: int)
    requires
        0 <= i,
    ensures
        find_from(s, pat, i) matches Some(k) ==> i <= k && k + pat.len() <= s.len() && s.subrange(k, k + pat.len()) == pat,
        find_from(s, pat, i) is None ==> forall|j: int| i <= j && j + pat.len() <= s.len() ==> #[trigger] s.subrange(j, j + pat.len()) != pat,
    decreases s.len() + 1 - i,
{
    if i + pat.len() <= s.len() && s.subrange(i, i + pat.len()) != pat {
        lemma_find_from(s, pat, i + 1);
    }
}

/// The whitespace that `str::split_ascii_whitespace` splits at.
pub open spec fn is_ascii_space(c: char) -> bool {
    c == ' ' || c == '\t' || c == '\n' || c == '\u{c}' || c == '\r'
}

/// Reading `s` left to right for its words between ASCII whitespace: the
/// words finished so far, and the word being read.
pub open spec fn word_scan(s: Seq<char>) -> (Seq<Seq<char>>, Seq<char>)
    decreases s.len(),
{
    if s.len() == 0 {
        (Seq::empty(), Seq::empty())
    } else {
        let (words, current) = word_scan(s.drop_last());
        if is_ascii_space(s.last()) {
            if current.len() > 0 {
                (words.push(current), Seq::empty())
            } else {
                (words, Seq::empty())
            }
        } else {
            (words, current.push(s.last()))
        }
    }
}

/// The words of `s` between ASCII whitespace.
pub open spec fn ascii_words(s: Seq<char>) -> Seq<Seq<char>> {
    let (words, current) = word_scan(s);
    if current.len() > 0 {
        words.push(current)
    } else {
        words
    }
}

/// `s` without every leading copy of the non-empty `p`.
pub open spec fn strip_all(s: Seq<char>, p: Seq<char>) -> Seq<char>
    decreases s.len(),
{
    if p.len() > 0 && p.is_prefix_of(s) {
        strip_all(s.subrange(p.len() as int, s.len() as int), p)
    } else {
        s
    }
}

/// The tokens of a launcher input meant for the plugin with `prefix`: the
/// input trimmed and lowercased must start with the prefix; every leading
/// copy of it is dropped and the rest split at ASCII whitespace.
pub open spec fn query_words(input: Seq<char>, prefix: Seq<char>) -> Option<Seq<Seq<char>>> {
    let t = lower_of(trim(input));
    if prefix.is_prefix_of(t) {
        Some(ascii_words(strip_all(t, prefix)))
    } else {
        None
    }
}

fn ascii_space(c: char) -> (r: bool)
    ensures
        r == is_ascii_space(c),
{
    c == ' ' || c == '\t' || c == '\n' || c == '\u{c}' || c == '\r'
}

/// The words of `s` between ASCII whitespace.
pub fn split_words(s: &str) -> (r: Vec<String>)
    ensures
        r@.map_values(|w: String| w@) == ascii_words(s@),
{
    let n = s.unicode_len();
    let mut words: Vec<String> = Vec::new();
    let mut start: usize = 0;
    let mut i: usize = 0;
    while i < n
        invariant
            n == s@.len(),
            start <= i <= n,
            (words@.map_values(|w: String| w@), s@.subrange(start as int, i as int)) == word_scan(s@.subrange(0, i as int)),
        decreases n - i,
    {
        assert(s@.subrange(0, i + 1).drop_last() =~= s@.subrange(0, i as int));
        assert(s@.subrange(0, i + 1).last() == s@[i as int]);
        if ascii_space(s.get_char(i)) {
            if start < i {
                let w = s.substring_char(start, i).to_string();
                let ghost before = words@;
                words.push(w);
                assert(words@.map_values(|w: String| w@) =~= before.map_values(|w: String| w@).push(w@));
            }
            start = i + 1;
            assert(s@.subrange(start as int, i + 1) =~= Seq::<char>::empty());
        } else {
            assert(s@.subrange(start as int, i + 1) =~= s@.subrange(start as int, i as int).push(s@[i as int]));
        }
        i = i + 1;
    }
    assert(s@.subrange(0, n as int) =~= s@);
    if start < n {
        let w = s.substring_char(start, n).to_string();
        let ghost before = words@;
        words.push(w);
        assert(words@.map_values(|w: String| w@) =~= before.map_values(|w: String| w@).push(w@));
    }
    words
}

/// The tokens of a launcher input meant for the plugin with `prefix`, or
/// none when the input is for another plugin.
pub fn query_tokens(input: &str, prefix: &str) -> (r: Option<Vec<String>>)
    ensures
        r matches Some(ws) ==> query_words(input@, prefix@) == Some(ws@.map_values(|w: String| w@)),
        r is None ==> query_words(input@, prefix@) is None,
{
    let t = lowercase(trim_text(input).as_str());
    if !starts_with(t.as_str(), prefix) {
        return None;
    }
    let n = t.unicode_len();
    let m = prefix.unicode_len();
    let mut i: usize = 0;
    assert(t@.subrange(0, n as int) =~= t@);
    while m > 0 && n - i >= m && starts_with(t.substring_char(i, n), prefix)
        invariant
            n == t@.len(),
            m == prefix@.len(),
            i <= n,
            strip_all(t@.subrange(i as int, n as int), prefix@) == strip_all(t@, prefix@),
        decreases n - i,
    {
        assert(t@.subrange(i as int, n as int).subrange(m as int, n - i) =~= t@.subrange(i + m, n as int));
        i = i + m;
    }
    proof {
        let rest = t@.subrange(i as int, n as int);
        if m > 0 && prefix@.is_prefix_of(rest) {
            assert(prefix@.len() <= rest.len());
        }
    }
    Some(split_words(t.substring_char(i, n)))
}

} // verus!
