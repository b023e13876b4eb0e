//! The token producer: a pull-based cursor over the input text.

use vstd::prelude::*;

use crate::digits::dec_rep;
use crate::digits::is_digit_char;
use crate::digits::lemma_dec_rep_digits;
use crate::grammar::article_kw;
use crate::grammar::classifies;
use crate::grammar::kind_body;
use crate::grammar::lemma_classify_article;
use crate::grammar::lemma_classify_user;
use crate::grammar::user_kw;
use crate::grammar::Tag;
use crate::grammar::TagParseErr;
use crate::position::Position;
use vstd::string::StrSliceExecFns;

verus! {

/// The unit produced by lexing: a non-empty literal text run, or a tag.
#[derive(Debug, PartialEq, Eq)]
pub enum Token {
    Text(String),
    Tag(Tag),
}

/// A failure scoped to a single malformed tag: the grammar's error together
/// with the position at which the offending `[` began.
#[derive(Debug, PartialEq, Eq)]
pub enum TokenizeErr {
    TagErr(Position, TagParseErr),
}

/// The number of newline characters among the first `i` characters of `s`.
pub open spec fn newlines_up_to(s: Seq<char>, i: int) -> int
    decreases i,
{
    if i <= 0 {
        0
    } else {
        newlines_up_to(s, i - 1) + if s[i - 1] == '\n' {
            1int
        } else {
            0int
        }
    }
}

/// The line counter after consuming the first `i` characters of `s`: one more
/// than the newlines consumed, stopping at the widest representable line.
pub open spec fn line_of(s: Seq<char>, i: int) -> int {
    if 1 + newlines_up_to(s, i) >= u16::MAX as int {
        u16::MAX as int
    } else {
        1 + newlines_up_to(s, i)
    }
}

/// The first index at or after `i` where `stop` occurs in `s`, or the end of
/// `s` if it never does.
pub open spec fn scan_to(s: Seq<char>, i: int, stop: char) -> int
    decreases s.len() - i,
{
    if i >= s.len() {
        s.len() as int
    } else if s[i] == stop {
        i
    } else {
        scan_to(s, i + 1, stop)
    }
}

/// A pull-based lexer over a borrowed text: a cursor plus the line counter.
pub struct TokenIter<'a> {
    text: &'a str,
    at: usize,
    pos: Position,
}

impl<'a> TokenIter<'a> {
    /// The input text being lexed.
    pub closed spec fn input(&self) -> Seq<char> {
        self.text@
    }

    /// How many characters have been consumed so far.
    pub closed spec fn cursor(&self) -> int {
        self.at as int
    }

    /// The current position: the lines consumed so far.
    pub closed spec fn position(&self) -> Position {
        self.pos
    }

    /// A lexer is well formed when its cursor lies within the input and its
    /// line counter equals one plus the newlines consumed so far.
    pub open spec fn wf(&self) -> bool {
        &&& 0 <= self.cursor() <= self.input().len()
        &&& self.position()@ == line_of(self.input(), self.cursor())
    }

    /// Builds a lexer over `s`, with nothing consumed and the line at 1.
    pub fn new(s: &'a str) -> (r: Self)
        ensures
            r.wf(),
            r.input() == s@,
            r.cursor() == 0,
            r.position()@ == 1,
    {
        TokenIter { text: s, at: 0, pos: Position::new(1) }
    }

    /// Produces the next item: a token, an error scoped to one malformed tag,
    /// or `None` once the input is exhausted. Exactly what is produced and how
    /// far the cursor moves is stated by [`step_spec`]; the cursor never moves
    /// back, the line counter never decreases, and at the end of the input the
    /// lexer stays unchanged, so the end signal repeats forever.
    pub fn next(&mut self) -> (r: Option<Result<Token, TokenizeErr>>)
        requires
            old(self).wf(),
        ensures
            final(self).wf(),
            final(self).input() == old(self).input(),
            old(self).cursor() <= final(self).cursor(),
            old(self).position()@ <= final(self).position()@,
            old(self).cursor() == old(self).input().len() ==> *final(self) == *old(self),
            step_spec(
                old(self).input(),
                old(self).cursor(),
                old(self).position(),
                final(self).cursor(),
                r,
            ),
    {
        let text = self.text;
        let ghost s = text@;
        let n = text.unicode_len();
        let start = self.at;
        if start >= n {
            return None;
        }
        let c = text.get_char(start);
        let mut pos = self.pos;
        proof {
            lemma_line_of_step(s, start as int);
        }
        if c == '\n' {
            pos = pos.advance();
        }
        if c == '[' {
            let snapshot = pos;
            let mut k = start + 1;
            while k < n && text.get_char(k) != ']'
                invariant
                    start + 1 <= k <= n,
                    n == s.len(),
                    s == text@,
                    pos@ == line_of(s, k as int),
                    scan_to(s, start + 1, ']') == scan_to(s, k as int, ']'),
                decreases n - k,
            {
                if text.get_char(k) == '\n' {
                    proof {
                        lemma_line_of_step(s, k as int);
                    }
                    pos = pos.advance();
                } else {
                    proof {
                        lemma_line_of_step(s, k as int);
                    }
                }
                k = k + 1;
            }
            let close = k;
            let body = text.substring_char(start + 1, close);
            let newat = if close < n {
                close + 1
            } else {
                close
            };
            proof {
                if close < s.len() {
                    lemma_line_of_step(s, close as int);
                }
                lemma_line_monotonic(s, start as int, newat as int);
            }
            self.at = newat;
            self.pos = pos;
            match Tag::from_str(body) {
                Ok(tag) => Some(Ok(Token::Tag(tag))),
                Err(e) => Some(Err(TokenizeErr::TagErr(snapshot, e))),
            }
        } else {
            let mut k = start + 1;
            while k < n && text.get_char(k) != '['
                invariant
                    start + 1 <= k <= n,
                    n == s.len(),
                    s == text@,
                    pos@ == line_of(s, k as int),
                    scan_to(s, start + 1, '[') == scan_to(s, k as int, '['),
                decreases n - k,
            {
                if text.get_char(k) == '\n' {
                    proof {
                        lemma_line_of_step(s, k as int);
                    }
                    pos = pos.advance();
                } else {
                    proof {
                        lemma_line_of_step(s, k as int);
                    }
                }
                k = k + 1;
            }
            let run = text.substring_char(start, k).to_owned();
            proof {
                lemma_line_monotonic(s, start as int, k as int);
            }
            self.at = k;
            self.pos = pos;
            Some(Ok(Token::Text(run)))
        }
    }
}

/// What one call to [`TokenIter::next`] does. Given the input `s`, the cursor
/// `i` and the position `p` before the call, relates the cursor `at2` after
/// the call to the item `r` produced:
/// - at the end of the input, the cursor stays and the end signal is yielded;
/// - on `[`, everything up to but not including the next `]` (or the input's
///   end) becomes the bracket body, the `]` itself is skipped, and the body's
///   classification is yielded — an error is paired with the position at
///   which the `[` began;
/// - otherwise a maximal non-empty text run, up to but not including the next
///   `[`, is yielded.
pub open spec fn step_spec(
    s: Seq<char>,
    i: int,
    p: Position,
    at2: int,
    r: Option<Result<Token, TokenizeErr>>,
) -> bool {
    if i == s.len() {
        &&& at2 == i
        &&& r is None
    } else if s[i] == '[' {
        let close = scan_to(s, i + 1, ']');
        let body = s.subrange(i + 1, close);
        &&& at2 == if close < s.len() {
            close + 1
        } else {
            close
        }
        &&& match r {
            Some(item) => match item {
                Ok(tok) => tok matches Token::Tag(t) && classifies(body, Ok(t)),
                Err(te) => te matches TokenizeErr::TagErr(q, e) && q == p && classifies(
                    body,
                    Err(e),
                ),
            },
            None => false,
        }
    } else {
        let end = scan_to(s, i + 1, '[');
        &&& at2 == end
        &&& match r {
            Some(item) => match item {
                Ok(tok) => tok matches Token::Text(t) && t@ == s.subrange(i, end) && t@.len()
                    >= 1,
                _ => false,
            },
            None => false,
        }
    }
}

/// Consuming one character advances the line counter by one exactly when that
/// character is a newline and the counter has room, and otherwise leaves it
/// unchanged.
pub proof fn lemma_line_of_step(s: Seq<char>, i: int)
    requires
        0 <= i < s.len(),
    ensures
        line_of(s, i + 1) == if s[i] == '\n' && line_of(s, i) < u16::MAX as int {
            line_of(s, i) + 1
        } else {
            line_of(s, i)
        },
{
    assert(newlines_up_to(s, i + 1) == newlines_up_to(s, i) + if s[i] == '\n' {
        1int
    } else {
        0int
    });
}

/// Line counting is monotonic: consuming more characters never decreases the
/// newline count, nor the line counter.
pub proof fn lemma_line_monotonic(s: Seq<char>, i: int, j: int)
    requires
        i <= j,
    ensures
        newlines_up_to(s, i) <= newlines_up_to(s, j),
        line_of(s, i) <= line_of(s, j),
    decreases j - i,
{
    if i < j {
        lemma_line_monotonic(s, i, j - 1);
    }
}

/// Pins down `scan_to`: if `stop` occurs nowhere before `j`, and `j` is the
/// end of the input or holds `stop`, then the scan ends at `j`.
pub proof fn lemma_scan_to_eq(s: Seq<char>, i: int, j: int, stop: char)
    requires
        0 <= i <= j <= s.len(),
        forall|k: int| i <= k < j ==> s[k] != stop,
        j == s.len() || s[j] == stop,
    ensures
        scan_to(s, i, stop) == j,
    decreases j - i,
{
    if i < j {
        lemma_scan_to_eq(s, i + 1, j, stop);
    }
}

/// The whole input for a lone tag of kind word `kw` with identifier `n`:
/// `[<kw>:<decimal n>]`.
pub open spec fn lone_tag_input(kw: Seq<char>, n: nat) -> Seq<char> {
    seq!['['] + kind_body(kw, n) + seq![']']
}

/// How a lone well-formed tag lexes: the input opens with `[`, the scan for
/// the closing bracket reaches exactly the final character, and the body in
/// between is the given kind body. Per [`step_spec`], the first call to
/// `next` therefore consumes the whole input and yields the body's
/// classification, and every later call yields the end signal.
proof fn lemma_lex_lone_tag(kw: Seq<char>, n: nat)
    requires
        kw.len() >= 1,
        forall|k: int| 0 <= k < kw.len() ==> kw[k] != ']',
    ensures
        lone_tag_input(kw, n)[0] == '[',
        scan_to(lone_tag_input(kw, n), 1, ']') == lone_tag_input(kw, n).len() - 1,
        lone_tag_input(kw, n).subrange(1, lone_tag_input(kw, n).len() - 1) == kind_body(kw, n),
{
    let body = kind_body(kw, n);
    let s = lone_tag_input(kw, n);
    lemma_dec_rep_digits(n);
    assert(s.subrange(1, s.len() - 1) =~= body);
    assert(']' as u32 == 93);
    assert forall|k: int| 1 <= k < s.len() - 1 implies s[k] != ']' by {
        assert(s[k] == body[k - 1]);
        if k - 1 >= kw.len() + 1 {
            assert(body[k - 1] == dec_rep(n)[k - 1 - kw.len() - 1]);
            assert(is_digit_char(body[k - 1]));
        }
    }
    lemma_scan_to_eq(s, 1, s.len() - 1, ']');
}

/// Lexing `"[user:N]"` alone yields exactly one item, the tag `User(N)`, for
/// every identifier `N` the identifier width can hold: the first call to
/// `next` consumes the whole input and yields `Token::Tag(Tag::User(n))`, and
/// every later call yields the end signal.
pub proof fn lemma_lex_user_tag(n: usize)
    ensures
        ({
            let s = lone_tag_input(user_kw(), n as nat);
            &&& s[0] == '['
            &&& scan_to(s, 1, ']') == s.len() - 1
            &&& s.subrange(1, s.len() - 1) == kind_body(user_kw(), n as nat)
            &&& classifies(s.subrange(1, s.len() - 1), Ok(Tag::User(n)))
        }),
{
    lemma_lex_lone_tag(user_kw(), n as nat);
    lemma_classify_user(n);
}

/// Lexing `"[article:N]"` alone yields exactly one item, the tag
/// `Article(N)`, for every identifier `N` the identifier width can hold.
pub proof fn lemma_lex_article_tag(n: usize)
    ensures
        ({
            let s = lone_tag_input(article_kw(), n as nat);
            &&& s[0] == '['
            &&& scan_to(s, 1, ']') == s.len() - 1
            &&& s.subrange(1, s.len() - 1) == kind_body(article_kw(), n as nat)
            &&& classifies(s.subrange(1, s.len() - 1), Ok(Tag::Article(n)))
        }),
{
    lemma_lex_lone_tag(article_kw(), n as nat);
    lemma_classify_article(n);
}

} // verus!
