//! The tag grammar: classifying the text found between `[` and `]` into one
//! of the recognized tag kinds.
//!
//! A bracket body is matched, in fixed order, against the `user` pattern and
//! then the `article` pattern. A pattern is a kind word, optional whitespace,
//! a colon, and a run of one or more digits, and may match anywhere within
//! the body; the leftmost match wins and its digit run is the identifier.

use vstd::prelude::*;

use crate::digits::dec_rep;
use crate::digits::digits_value;
use crate::digits::is_digit;
use crate::digits::is_digit_char;
use crate::digits::lemma_dec_rep_digits;
use crate::digits::lemma_dec_rep_value;
use crate::digits::lemma_digits_value_prefix;
use vstd::string::StrSliceExecFns;
use vstd::string::StringExecFns;

verus! {

/// Relies on std's `String::push`: appends the character to the string.
pub assume_specification[ String::push ](s: &mut String, c: char)
    ensures
        final(s)@ == old(s)@.push(c),
;

/// A classified reference carrying a numeric identifier.
#[derive(Debug, PartialEq, Eq)]
pub enum Tag {
    User(usize),
    Article(usize),
}

/// Why a bracket body failed to become a [`Tag`].
#[derive(Debug, PartialEq, Eq)]
pub enum TagParseErr {
    /// Reserved: a pattern engine reported a match without any captures.
    NoCaptures,
    /// Reserved: the identifier capture was absent from a matching pattern.
    CaptureNotFound,
    /// The captured digit run does not fit the identifier width.
    CaptureParseErr,
    /// No recognized pattern matched; carries the body, re-wrapped in brackets.
    UnknownTag(String),
}

/// Whether `c` counts as whitespace between the kind word and the colon.
pub open spec fn is_space_char(c: char) -> bool {
    c == ' ' || c == '\t' || c == '\n' || c == '\r' || c == '\x0b' || c == '\x0c'
}

/// The end of the whitespace run starting at `i`: the first index at or
/// after `i` holding a non-whitespace character, or the end of `s`.
pub open spec fn space_run_end(s: Seq<char>, i: int) -> int
    decreases s.len() - i,
{
    if i < s.len() && is_space_char(s[i]) {
        space_run_end(s, i + 1)
    } else {
        i
    }
}

/// The end of the digit run starting at `i`.
pub open spec fn digit_run_end(s: Seq<char>, i: int) -> int
    decreases s.len() - i,
{
    if i < s.len() && is_digit_char(s[i]) {
        digit_run_end(s, i + 1)
    } else {
        i
    }
}

/// Whether a pattern tail — optional whitespace, a colon, then at least one
/// digit — starts at index `p` of `s`.
pub open spec fn match_tail(s: Seq<char>, p: int) -> bool {
    let j = space_run_end(s, p);
    &&& j < s.len()
    &&& s[j] == ':'
    &&& j + 1 < s.len()
    &&& is_digit_char(s[j + 1])
}

/// The digit run captured by a pattern whose tail starts at `p`.
pub open spec fn captured_at(s: Seq<char>, p: int) -> Seq<char> {
    let j = space_run_end(s, p);
    s.subrange(j + 1, digit_run_end(s, j + 1))
}

/// Whether the pattern for kind word `kw` matches at position `i` of `s`.
pub open spec fn kind_match_at(s: Seq<char>, kw: Seq<char>, i: int) -> bool {
    &&& 0 <= i
    &&& i + kw.len() <= s.len()
    &&& s.subrange(i, i + kw.len()) == kw
    &&& match_tail(s, i + kw.len())
}

/// The first position at or after `i` where the pattern for `kw` matches.
pub open spec fn first_match_from(s: Seq<char>, kw: Seq<char>, i: int) -> Option<int>
    decreases s.len() - i,
{
    if i >= s.len() {
        None
    } else if kind_match_at(s, kw, i) {
        Some(i)
    } else {
        first_match_from(s, kw, i + 1)
    }
}

/// The leftmost match of the pattern for `kw` anywhere within `s`.
pub open spec fn first_match(s: Seq<char>, kw: Seq<char>) -> Option<int> {
    first_match_from(s, kw, 0)
}

/// The digit run captured by the leftmost match of the pattern for `kw`,
/// if the pattern matches at all.
pub open spec fn capture_digits(s: Seq<char>, kw: Seq<char>) -> Option<Seq<char>> {
    match first_match(s, kw) {
        Some(i) => Some(captured_at(s, i + kw.len())),
        None => None,
    }
}

/// The `user` kind word.
pub open spec fn user_kw() -> Seq<char> {
    seq!['u', 's', 'e', 'r']
}

/// The `article` kind word.
pub open spec fn article_kw() -> Seq<char> {
    seq!['a', 'r', 't', 'i', 'c', 'l', 'e']
}

/// The grammar's verdict on a bracket body: `r` is exactly what classifying
/// `body` yields. The `user` pattern is tried first; if it matches, the
/// `article` pattern is never consulted. A captured identifier too wide for
/// the identifier type is an error, never clamped. When nothing matches, the
/// error carries the body re-wrapped in brackets.
pub open spec fn classifies(body: Seq<char>, r: Result<Tag, TagParseErr>) -> bool {
    match capture_digits(body, user_kw()) {
        Some(ds) => match r {
            Ok(t) => digits_value(ds) <= usize::MAX as int && t == Tag::User(digits_value(ds) as usize),
            Err(e) => digits_value(ds) > usize::MAX as int && e == TagParseErr::CaptureParseErr,
        },
        None => match capture_digits(body, article_kw()) {
            Some(ds) => match r {
                Ok(t) => digits_value(ds) <= usize::MAX as int && t == Tag::Article(
                    digits_value(ds) as usize,
                ),
                Err(e) => digits_value(ds) > usize::MAX as int && e == TagParseErr::CaptureParseErr,
            },
            None => match r {
                Ok(_) => false,
                Err(e) => match e {
                    TagParseErr::UnknownTag(t) => t@ == seq!['['] + body + seq![']'],
                    _ => false,
                },
            },
        },
    }
}

/// Collects the characters of `s` into a vector.
fn to_chars(s: &str) -> (v: Vec<char>)
    ensures
        v@ == s@,
        v@.len() <= usize::MAX,
{
    let n = s.unicode_len();
    let mut v: Vec<char> = Vec::new();
    let mut i: usize = 0;
    while i < n
        invariant
            i <= n,
            n == s@.len(),
            v@ == s@.subrange(0, i as int),
        decreases n - i,
    {
        v.push(s.get_char(i));
        assert(v@ =~= s@.subrange(0, i + 1));
        i = i + 1;
    }
    assert(v@ =~= s@);
    v
}

/// Whether `c` counts as whitespace between the kind word and the colon.
fn is_space(c: char) -> (b: bool)
    ensures
        b == is_space_char(c),
{
    c == ' ' || c == '\t' || c == '\n' || c == '\r' || c == '\x0b' || c == '\x0c'
}

/// Walks past the whitespace run starting at `i`.
fn space_end(v: &Vec<char>, i: usize) -> (j: usize)
    requires
        i <= v@.len(),
    ensures
        j == space_run_end(v@, i as int),
        i <= j <= v@.len(),
{
    let mut j = i;
    while j < v.len() && is_space(v[j])
        invariant
            i <= j <= v@.len(),
            space_run_end(v@, i as int) == space_run_end(v@, j as int),
        decreases v@.len() - j,
    {
        j = j + 1;
    }
    j
}

/// Walks past the digit run starting at `i`.
fn digit_end(v: &Vec<char>, i: usize) -> (j: usize)
    requires
        i <= v@.len(),
    ensures
        j == digit_run_end(v@, i as int),
        i <= j <= v@.len(),
        forall|k: int| i <= k < j ==> is_digit_char(#[trigger] v@[k]),
{
    let mut j = i;
    while j < v.len() && is_digit(v[j])
        invariant
            i <= j <= v@.len(),
            digit_run_end(v@, i as int) == digit_run_end(v@, j as int),
            forall|k: int| i <= k < j ==> is_digit_char(#[trigger] v@[k]),
        decreases v@.len() - j,
    {
        j = j + 1;
    }
    j
}

/// Whether the pattern for `kw` matches at position `i` of `v`.
fn match_at(v: &Vec<char>, kw: &Vec<char>, i: usize) -> (b: bool)
    requires
        i <= v@.len(),
    ensures
        b == kind_match_at(v@, kw@, i as int),
{
    let n = v.len();
    if n - i < kw.len() {
        return false;
    }
    let mut k: usize = 0;
    while k < kw.len()
        invariant
            n == v@.len(),
            k <= kw@.len(),
            i + kw@.len() <= v@.len(),
            forall|m: int| 0 <= m < k ==> v@[i + m] == kw@[m],
        decreases kw@.len() - k,
    {
        if v[i + k] != kw[k] {
            assert(v@.subrange(i as int, i + kw@.len())[k as int] != kw@[k as int]);
            return false;
        }
        k = k + 1;
    }
    assert(v@.subrange(i as int, i + kw@.len()) =~= kw@);
    let p = i + kw.len();
    let j = space_end(v, p);
    if j >= v.len() {
        return false;
    }
    if v[j] != ':' {
        return false;
    }
    if j + 1 >= v.len() {
        return false;
    }
    is_digit(v[j + 1])
}

/// Finds the leftmost match of the pattern for `kw` within `v`.
fn find_first(v: &Vec<char>, kw: &Vec<char>) -> (r: Option<usize>)
    ensures
        match r {
            Some(i) => first_match(v@, kw@) == Some(i as int),
            None => first_match(v@, kw@) is None,
        },
{
    let mut i: usize = 0;
    while i < v.len()
        invariant
            i <= v@.len(),
            first_match(v@, kw@) == first_match_from(v@, kw@, i as int),
        decreases v@.len() - i,
    {
        if match_at(v, kw, i) {
            return Some(i);
        }
        i = i + 1;
    }
    None
}

/// Reads the identifier captured by a pattern whose tail starts at `p`, or
/// reports that it does not fit the identifier width.
fn extract_id(v: &Vec<char>, p: usize) -> (r: Option<usize>)
    requires
        p <= v@.len(),
        match_tail(v@, p as int),
    ensures
        match r {
            Some(n) => n == digits_value(captured_at(v@, p as int)),
            None => digits_value(captured_at(v@, p as int)) > usize::MAX as int,
        },
{
    let n = v.len();
    let j = space_end(v, p);
    assert(j < n);
    let e = digit_end(v, j + 1);
    let ghost ds = v@.subrange(j + 1, e as int);
    let mut acc: usize = 0;
    let mut k = j + 1;
    while k < e
        invariant
            j + 1 <= k <= e <= v@.len(),
            ds == v@.subrange(j + 1, e as int),
            ds == captured_at(v@, p as int),
            forall|m: int| j + 1 <= m < e ==> is_digit_char(#[trigger] v@[m]),
            acc as int == digits_value(v@.subrange(j + 1, k as int)),
        decreases e - k,
    {
        let ghost pre = v@.subrange(j + 1, k as int);
        let d = (v[k] as u32 - 48) as usize;
        assert(d as int == crate::digits::digit_val(v@[k as int]));
        let next = match acc.checked_mul(10) {
            Some(x) => x.checked_add(d),
            None => None,
        };
        assert(v@.subrange(j + 1, k + 1).drop_last() =~= pre);
        match next {
            Some(x) => {
                acc = x;
            },
            None => {
                proof {
                    assert(digits_value(v@.subrange(j + 1, k + 1)) > usize::MAX as int);
                    assert(forall|m: int|
                        0 <= m < ds.len() ==> is_digit_char(#[trigger] ds[m]));
                    lemma_digits_value_prefix(ds, k + 1 - (j + 1));
                    assert(ds.subrange(0, k + 1 - (j + 1)) =~= v@.subrange(j + 1, k + 1));
                }
                return None;
            },
        }
        k = k + 1;
    }
    assert(v@.subrange(j + 1, k as int) =~= ds);
    Some(acc)
}

impl Tag {
    /// Classifies a bracket body: the `user` pattern first, then `article`;
    /// the leftmost match's digit run becomes the identifier. The result is
    /// exactly what [`classifies`] states for this body.
    pub fn from_str(s: &str) -> (r: Result<Tag, TagParseErr>)
        ensures
            classifies(s@, r),
    {
        let v = to_chars(s);
        let user: Vec<char> = vec!['u', 's', 'e', 'r'];
        let article: Vec<char> = vec!['a', 'r', 't', 'i', 'c', 'l', 'e'];
        proof {
            assert(user@ =~= user_kw());
            assert(article@ =~= article_kw());
        }
        if let Some(i) = find_first(&v, &user) {
            proof {
                lemma_first_match_from_found(v@, user@, 0);
            }
            match extract_id(&v, i + user.len()) {
                Some(n) => Ok(Tag::User(n)),
                None => Err(TagParseErr::CaptureParseErr),
            }
        } else if let Some(i) = find_first(&v, &article) {
            proof {
                lemma_first_match_from_found(v@, article@, 0);
            }
            match extract_id(&v, i + article.len()) {
                Some(n) => Ok(Tag::Article(n)),
                None => Err(TagParseErr::CaptureParseErr),
            }
        } else {
            let mut t = String::new();
            t.push('[');
            t.append(s);
            t.push(']');
            proof {
                assert(t@ =~= seq!['['] + s@ + seq![']']);
            }
            Err(TagParseErr::UnknownTag(t))
        }
    }
}

/// Pins down the end of a digit run: if everything from `i` up to `j` is a
/// digit, and `j` is the end of the input or holds a non-digit, the run ends
/// at `j`.
pub proof fn lemma_digit_run_end_eq(s: Seq<char>, i: int, j: int)
    requires
        0 <= i <= j <= s.len(),
        forall|k: int| i <= k < j ==> is_digit_char(#[trigger] s[k]),
        j == s.len() || !is_digit_char(s[j]),
    ensures
        digit_run_end(s, i) == j,
    decreases j - i,
{
    if i < j {
        lemma_digit_run_end_eq(s, i + 1, j);
    }
}

/// A pattern that matches at no position has no leftmost match.
pub proof fn lemma_first_match_none(s: Seq<char>, kw: Seq<char>, i: int)
    requires
        forall|j: int| i <= j ==> !kind_match_at(s, kw, j),
    ensures
        first_match_from(s, kw, i) is None,
    decreases s.len() - i,
{
    if i < s.len() {
        lemma_first_match_none(s, kw, i + 1);
    }
}

/// The bracket body that writes an identifier in the plainest way: the kind
/// word, a colon, and the decimal rendering of the identifier.
pub open spec fn kind_body(kw: Seq<char>, n: nat) -> Seq<char> {
    kw + seq![':'] + dec_rep(n)
}

/// The pattern for `kw` matches the body `kw + ":" + <decimal n>` at its
/// start and captures exactly the decimal digits of `n`.
proof fn lemma_capture_kind_body(kw: Seq<char>, n: nat)
    requires
        kw.len() >= 1,
    ensures
        capture_digits(kind_body(kw, n), kw) == Some(dec_rep(n)),
        digits_value(dec_rep(n)) == n,
{
    let ds = dec_rep(n);
    let body = kind_body(kw, n);
    let p = kw.len() as int;
    lemma_dec_rep_digits(n);
    lemma_dec_rep_value(n);
    assert(body.len() == kw.len() + 1 + ds.len());
    assert(body.subrange(0, p) =~= kw);
    assert(body[p] == ':');
    assert(!is_space_char(':'));
    assert(space_run_end(body, p) == p);
    assert(body[p + 1] == ds[0]);
    assert(is_digit_char(body[p + 1]));
    assert(match_tail(body, p));
    assert(kind_match_at(body, kw, 0));
    assert(first_match_from(body, kw, 0) == Some(0int));
    assert(forall|k: int| p + 1 <= k < body.len() ==> body[k] == ds[k - p - 1]);
    assert(forall|k: int| p + 1 <= k < body.len() ==> is_digit_char(#[trigger] body[k]));
    lemma_digit_run_end_eq(body, p + 1, body.len() as int);
    assert(captured_at(body, p) =~= ds);
}

/// Every representable identifier round-trips through the grammar: the body
/// `user:<decimal n>` classifies as exactly `User(n)`.
pub proof fn lemma_classify_user(n: usize)
    ensures
        classifies(kind_body(user_kw(), n as nat), Ok(Tag::User(n))),
{
    lemma_capture_kind_body(user_kw(), n as nat);
}

/// Every representable identifier round-trips through the grammar: the body
/// `article:<decimal n>` classifies as exactly `Article(n)`.
pub proof fn lemma_classify_article(n: usize)
    ensures
        classifies(kind_body(article_kw(), n as nat), Ok(Tag::Article(n))),
{
    let body = kind_body(article_kw(), n as nat);
    lemma_capture_kind_body(article_kw(), n as nat);
    lemma_dec_rep_digits(n as nat);
    assert forall|j: int| !kind_match_at(body, user_kw(), j) by {
        if kind_match_at(body, user_kw(), j) {
            assert(body.subrange(j, j + 4)[0] == user_kw()[0]);
            assert(body[j] == 'u');
            if j >= 8 {
                assert(body[j] == dec_rep(n as nat)[j - 8]);
                assert(is_digit_char('u'));
                assert('u' as u32 == 117);
            }
        }
    }
    lemma_first_match_none(body, user_kw(), 0);
}

/// A found leftmost match is a match, and lies where the search began or
/// later.
pub proof fn lemma_first_match_from_found(s: Seq<char>, kw: Seq<char>, i: int)
    ensures
        first_match_from(s, kw, i) matches Some(m) ==> i <= m <= s.len() && kind_match_at(
            s,
            kw,
            m,
        ),
    decreases s.len() - i,
{
    if i < s.len() && !kind_match_at(s, kw, i) {
        lemma_first_match_from_found(s, kw, i + 1);
    }
}

} // verus!
