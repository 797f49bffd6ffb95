//! The recognition patterns: what each pattern matches at the start of the
//! unconsumed input, how long the whole match is, and which part of it
//! becomes the lexeme. Every pattern is anchored: it matches a prefix of the
//! remaining input or not at all.

use vstd::prelude::*;
use vstd::slice::slice_index_get;
use vstd::slice::slice_subrange;

verus! {

/// Space.
pub const B_SPACE: u8 = 32;

/// Horizontal tab.
pub const B_TAB: u8 = 9;

/// Line feed.
pub const B_NEWLINE: u8 = 10;

/// Carriage return.
pub const B_RETURN: u8 = 13;

/// `/`
pub const B_SLASH: u8 = 47;

/// `*`
pub const B_STAR: u8 = 42;

/// `'`
pub const B_APOSTROPHE: u8 = 39;

/// `"`
pub const B_QUOTE: u8 = 34;

pub open spec fn is_space(b: u8) -> bool {
    b == B_SPACE || b == B_TAB || b == B_NEWLINE || b == B_RETURN
}

pub open spec fn is_digit(b: u8) -> bool {
    48 <= b && b <= 57
}

pub open spec fn is_ident_start(b: u8) -> bool {
    (65 <= b && b <= 90)  // A-Z
    || (97 <= b && b <= 122)  // a-z
    || b == 95  // _
}

pub open spec fn is_ident_byte(b: u8) -> bool {
    is_ident_start(b) || is_digit(b)
}

pub open spec fn space_pred() -> spec_fn(u8) -> bool {
    |b: u8| is_space(b)
}

pub open spec fn digit_pred() -> spec_fn(u8) -> bool {
    |b: u8| is_digit(b)
}

pub open spec fn ident_pred() -> spec_fn(u8) -> bool {
    |b: u8| is_ident_byte(b)
}

/// Bytes a line comment runs over: everything up to the end of the line.
pub open spec fn line_pred() -> spec_fn(u8) -> bool {
    |b: u8| b != B_NEWLINE
}

/// Bytes the body of a quoted string runs over: everything but the closing quote.
pub open spec fn text_pred() -> spec_fn(u8) -> bool {
    |b: u8| b != B_QUOTE
}

/// Length of the longest prefix of `s` whose bytes all satisfy `f`.
pub open spec fn run_len(s: Seq<u8>, f: spec_fn(u8) -> bool) -> nat
    decreases s.len(),
{
    if s.len() == 0 || !f(s[0]) {
        0
    } else {
        1 + run_len(s.drop_first(), f)
    }
}

pub proof fn lemma_run_len(s: Seq<u8>, f: spec_fn(u8) -> bool)
    ensures
        run_len(s, f) <= s.len(),
        forall|j: int| 0 <= j < run_len(s, f) ==> f(s[j]),
        run_len(s, f) < s.len() ==> !f(s[run_len(s, f) as int]),
    decreases s.len(),
{
    if s.len() == 0 || !f(s[0]) {
    } else {
        lemma_run_len(s.drop_first(), f);
        assert forall|j: int| 0 <= j < run_len(s, f) implies f(s[j]) by {
            if j > 0 {
                assert(s.drop_first()[j - 1] == s[j]);
            }
        }
        if run_len(s, f) < s.len() {
            assert(s.drop_first()[run_len(s, f) - 1] == s[run_len(s, f) as int]);
        }
    }
}

/// `run_len` is the one cut point: everything before it satisfies `f`, and
/// either it is the end of `s` or the byte there fails `f`.
pub proof fn lemma_run_len_is(s: Seq<u8>, f: spec_fn(u8) -> bool, n: nat)
    requires
        n <= s.len(),
        forall|j: int| 0 <= j < n ==> f(s[j]),
        n < s.len() ==> !f(s[n as int]),
    ensures
        run_len(s, f) == n,
    decreases s.len(),
{
    if n == 0 {
        if s.len() > 0 && f(s[0]) {
            assert(false);
        }
    } else {
        assert(f(s[0]));
        assert forall|j: int| 0 <= j < n - 1 implies f(s.drop_first()[j]) by {
            assert(s.drop_first()[j] == s[j + 1]);
        }
        if n - 1 < s.drop_first().len() {
            assert(s.drop_first()[n - 1] == s[n as int]);
        }
        lemma_run_len_is(s.drop_first(), f, (n - 1) as nat);
    }
}

/// The position of the first `*/` at or after `i` in `s`, if any.
pub open spec fn close_from(s: Seq<u8>, i: nat) -> Option<nat>
    decreases s.len() - i,
    when i <= s.len()
{
    if i + 2 > s.len() {
        None
    } else if s[i as int] == B_STAR && s[i as int + 1] == B_SLASH {
        Some(i)
    } else {
        close_from(s, i + 1)
    }
}

pub proof fn lemma_close_from(s: Seq<u8>, i: nat)
    requires
        i <= s.len(),
    ensures
        match close_from(s, i) {
            Some(k) => i <= k && k + 2 <= s.len() && s[k as int] == B_STAR && s[k as int + 1]
                == B_SLASH,
            None => true,
        },
    decreases s.len() - i,
{
    if i + 2 > s.len() {
    } else if s[i as int] == B_STAR && s[i as int + 1] == B_SLASH {
    } else {
        lemma_close_from(s, i + 1);
    }
}

pub proof fn lemma_close_from_is(s: Seq<u8>, i: nat, k: nat)
    requires
        i <= k,
        k + 2 <= s.len(),
        s[k as int] == B_STAR && s[k as int + 1] == B_SLASH,
        forall|j: int| i <= j < k ==> !(#[trigger] s[j] == B_STAR && s[j + 1] == B_SLASH),
    ensures
        close_from(s, i) == Some(k),
    decreases k - i,
{
    if i < k {
        lemma_close_from_is(s, i + 1, k);
    }
}

pub proof fn lemma_close_from_none(s: Seq<u8>, i: nat)
    requires
        i <= s.len(),
        forall|j: int| i <= j && j + 2 <= s.len() ==> !(#[trigger] s[j] == B_STAR && s[j + 1] == B_SLASH),
    ensures
        close_from(s, i) is None,
    decreases s.len() - i,
{
    if i + 2 <= s.len() {
        lemma_close_from_none(s, i + 1);
    }
}

/// A recognition pattern, anchored at the start of the unconsumed input.
#[derive(Clone, Copy, Debug, PartialEq, Eq, Structural)]
pub enum Pattern {
    /// One or more whitespace bytes.
    Whitespace,
    /// `//` and the rest of the line, the line break excluded.
    LineComment,
    /// `/*` up to and including the first `*/`.
    BlockComment,
    /// One or more decimal digits.
    IntLit,
    /// An apostrophe, one byte other than an apostrophe, and an apostrophe.
    CharLit,
    /// A quote, any bytes other than a quote, and a closing quote.
    TextLit,
    /// An identifier-start byte followed by identifier bytes.
    Ident,
    KwBreak,
    KwContinue,
    KwElif,
    KwElse,
    KwFun,
    KwIf,
    KwReturn,
    KwWhile,
    TyChar,
    TyInt,
    TyStr,
    /// One fixed byte.
    Sym1(u8),
    /// Two fixed bytes.
    Sym2(u8, u8),
}

/// The spelled-out bytes of a fixed word pattern.
pub open spec fn word_text(p: Pattern) -> Seq<u8> {
    match p {
        Pattern::KwBreak => seq![98u8, 114u8, 101u8, 97u8, 107u8],  // break
        Pattern::KwContinue => seq![99u8, 111u8, 110u8, 116u8, 105u8, 110u8, 117u8, 101u8],  // continue
        Pattern::KwElif => seq![101u8, 108u8, 105u8, 102u8],  // elif
        Pattern::KwElse => seq![101u8, 108u8, 115u8, 101u8],  // else
        Pattern::KwFun => seq![102u8, 117u8, 110u8],  // fun
        Pattern::KwIf => seq![105u8, 102u8],  // if
        Pattern::KwReturn => seq![114u8, 101u8, 116u8, 117u8, 114u8, 110u8],  // return
        Pattern::KwWhile => seq![119u8, 104u8, 105u8, 108u8, 101u8],  // while
        Pattern::TyChar => seq![99u8, 104u8, 97u8, 114u8],  // char
        Pattern::TyInt => seq![105u8, 110u8, 116u8],  // int
        Pattern::TyStr => seq![115u8, 116u8, 114u8],  // str
        _ => seq![],
    }
}

/// A fixed word matches when it is a prefix of `s` and the input either ends
/// with it or goes on with a byte that cannot continue an identifier — so a
/// keyword never swallows the head of a longer name.
pub open spec fn word_matches(t: Seq<u8>, s: Seq<u8>) -> bool {
    &&& t.len() <= s.len()
    &&& s.take(t.len() as int) == t
    &&& (s.len() == t.len() || !is_ident_byte(s[t.len() as int]))
}

/// The length of the whole span `p` consumes at the start of `s`, or `None`
/// when `p` does not match there.
pub open spec fn pat_match_len(p: Pattern, s: Seq<u8>) -> Option<nat> {
    match p {
        Pattern::Whitespace => if s.len() > 0 && is_space(s[0]) {
            Some(run_len(s, space_pred()))
        } else {
            None
        },
        Pattern::LineComment => if s.len() >= 2 && s[0] == B_SLASH && s[1] == B_SLASH {
            Some((2 + run_len(s.skip(2), line_pred())) as nat)
        } else {
            None
        },
        Pattern::BlockComment => if s.len() >= 2 && s[0] == B_SLASH && s[1] == B_STAR {
            match close_from(s, 2) {
                Some(k) => Some((k + 2) as nat),
                None => None,
            }
        } else {
            None
        },
        Pattern::IntLit => if s.len() > 0 && is_digit(s[0]) {
            Some(run_len(s, digit_pred()))
        } else {
            None
        },
        Pattern::CharLit => if s.len() >= 3 && s[0] == B_APOSTROPHE && s[1] != B_APOSTROPHE && s[2]
            == B_APOSTROPHE {
            Some(3nat)
        } else {
            None
        },
        Pattern::TextLit => if s.len() >= 1 && s[0] == B_QUOTE && 1 + run_len(
            s.skip(1),
            text_pred(),
        ) < s.len() {
            Some((2 + run_len(s.skip(1), text_pred())) as nat)
        } else {
            None
        },
        Pattern::Ident => if s.len() > 0 && is_ident_start(s[0]) {
            Some((1 + run_len(s.skip(1), ident_pred())) as nat)
        } else {
            None
        },
        Pattern::Sym1(a) => if s.len() >= 1 && s[0] == a {
            Some(1nat)
        } else {
            None
        },
        Pattern::Sym2(a, b) => if s.len() >= 2 && s[0] == a && s[1] == b {
            Some(2nat)
        } else {
            None
        },
        _ => if word_matches(word_text(p), s) {
            Some(word_text(p).len())
        } else {
            None
        },
    }
}

/// The lexeme a match of `p` yields: the inner bytes for the quoted literals
/// (their delimiters stripped), the whole matched span for everything else.
pub open spec fn pat_lexeme(p: Pattern, s: Seq<u8>) -> Seq<u8>
    recommends
        pat_match_len(p, s) is Some,
{
    let n = pat_match_len(p, s)->Some_0;
    match p {
        Pattern::CharLit => s.subrange(1, 2),
        Pattern::TextLit => s.subrange(1, n as int - 1),
        _ => s.take(n as int),
    }
}

/// Every match consumes at least one byte and never more than the input that
/// is left.
pub proof fn lemma_match_len_bounds(p: Pattern, s: Seq<u8>)
    ensures
        pat_match_len(p, s) is Some ==> 1 <= pat_match_len(p, s)->Some_0 <= s.len(),
{
    if pat_match_len(p, s) is Some {
        match p {
            Pattern::Whitespace => {
                lemma_run_len(s, space_pred());
            },
            Pattern::LineComment => {
                lemma_run_len(s.skip(2), line_pred());
            },
            Pattern::BlockComment => {
                lemma_close_from(s, 2);
            },
            Pattern::IntLit => {
                lemma_run_len(s, digit_pred());
            },
            Pattern::Ident => {
                lemma_run_len(s.skip(1), ident_pred());
            },
            _ => {},
        }
    }
}

/// The byte classes an executable run scan can follow.
#[derive(Clone, Copy, Debug, PartialEq, Eq, Structural)]
pub enum RunKind {
    Space,
    Digit,
    IdentByte,
    NotNewline,
    NotQuote,
}

/// The predicate a [`RunKind`] stands for.
pub open spec fn run_pred(k: RunKind) -> spec_fn(u8) -> bool {
    match k {
        RunKind::Space => space_pred(),
        RunKind::Digit => digit_pred(),
        RunKind::IdentByte => ident_pred(),
        RunKind::NotNewline => line_pred(),
        RunKind::NotQuote => text_pred(),
    }
}

fn byte_in_run(k: RunKind, b: u8) -> (r: bool)
    ensures
        r == run_pred(k)(b),
{
    match k {
        RunKind::Space => b == B_SPACE || b == B_TAB || b == B_NEWLINE || b == B_RETURN,
        RunKind::Digit => 48 <= b && b <= 57,
        RunKind::IdentByte => (65 <= b && b <= 90) || (97 <= b && b <= 122) || b == 95 || (48 <= b
            && b <= 57),
        RunKind::NotNewline => b != B_NEWLINE,
        RunKind::NotQuote => b != B_QUOTE,
    }
}

/// Scans forward from `from` while the bytes stay in the class `k`, and
/// returns the first position past that run.
fn scan_run(code: &[u8], from: usize, k: RunKind) -> (end: usize)
    requires
        from <= code@.len(),
    ensures
        from <= end <= code@.len(),
        end - from == run_len(code@.skip(from as int), run_pred(k)),
{
    let mut end: usize = from;
    while end < code.len() && byte_in_run(k, *slice_index_get(code, end))
        invariant
            from <= end <= code@.len(),
            forall|j: int| from <= j < end ==> #[trigger] run_pred(k)(code@[j]),
        decreases code@.len() - end,
    {
        end = end + 1;
    }
    proof {
        let s = code@.skip(from as int);
        assert forall|j: int| 0 <= j < end - from implies #[trigger] run_pred(k)(s[j]) by {
            assert(s[j] == code@[from + j]);
        }
        if end < code@.len() {
            assert(s[end - from] == code@[end as int]);
        }
        lemma_run_len_is(s, run_pred(k), (end - from) as nat);
    }
    end
}

/// Looks for the first `*/` at or after `from`, scanning absolute positions
/// of `code`; the result is stated against the suffix that starts at `pos`.
fn find_close(code: &[u8], pos: usize, from: usize) -> (r: Option<usize>)
    requires
        pos <= from <= code@.len(),
    ensures
        match close_from(code@.skip(pos as int), (from - pos) as nat) {
            Some(k) => r == Some((pos + k) as usize),
            None => r is None,
        },
{
    let ghost s = code@.skip(pos as int);
    let mut j: usize = from;
    loop
        invariant
            pos <= from <= j <= code@.len(),
            s == code@.skip(pos as int),
            forall|m: int| from - pos <= m < j - pos ==> !(#[trigger] s[m] == B_STAR && s[m + 1]
                == B_SLASH),
        ensures
            (j + 2 <= code@.len() && code@[j as int] == B_STAR && code@[j as int + 1] == B_SLASH
                && forall|m: int| from - pos <= m < j - pos ==> !(#[trigger] s[m] == B_STAR && s[m
                + 1] == B_SLASH)) || (j + 2 > code@.len() && forall|m: int| from - pos <= m && m + 2
                <= s.len() ==> !(#[trigger] s[m] == B_STAR && s[m + 1] == B_SLASH)),
        decreases code@.len() - j,
    {
        if code.len() - j < 2 {
            proof {
                assert forall|m: int| from - pos <= m && m + 2 <= s.len() implies !(#[trigger] s[m]
                    == B_STAR && s[m + 1] == B_SLASH) by {
                    assert(m < j - pos);
                }
            }
            break ;
        }
        if *slice_index_get(code, j) == B_STAR && *slice_index_get(code, j + 1) == B_SLASH {
            break ;
        }
        proof {
            assert(s[j - pos] == code@[j as int]);
            assert(s[j - pos + 1] == code@[j as int + 1]);
        }
        j = j + 1;
    }
    if code.len() - j < 2 {
        proof {
            lemma_close_from_none(s, (from - pos) as nat);
        }
        None
    } else {
        proof {
            assert(s[j - pos] == code@[j as int]);
            assert(s[j - pos + 1] == code@[j as int + 1]);
            lemma_close_from_is(s, (from - pos) as nat, (j - pos) as nat);
        }
        Some(j)
    }
}

fn is_space_b(b: u8) -> (r: bool)
    ensures
        r == is_space(b),
{
    b == B_SPACE || b == B_TAB || b == B_NEWLINE || b == B_RETURN
}

fn is_digit_b(b: u8) -> (r: bool)
    ensures
        r == is_digit(b),
{
    48 <= b && b <= 57
}

fn is_ident_start_b(b: u8) -> (r: bool)
    ensures
        r == is_ident_start(b),
{
    (65 <= b && b <= 90) || (97 <= b && b <= 122) || b == 95
}

fn is_ident_byte_b(b: u8) -> (r: bool)
    ensures
        r == is_ident_byte(b),
{
    is_ident_start_b(b) || is_digit_b(b)
}

/// The spelled-out bytes of a fixed word pattern, as a value.
fn word_bytes(p: &Pattern) -> (v: Vec<u8>)
    ensures
        v@ == word_text(*p),
{
    let v: Vec<u8> = match *p {
        Pattern::KwBreak => vec![98u8, 114u8, 101u8, 97u8, 107u8],
        Pattern::KwContinue => vec![99u8, 111u8, 110u8, 116u8, 105u8, 110u8, 117u8, 101u8],
        Pattern::KwElif => vec![101u8, 108u8, 105u8, 102u8],
        Pattern::KwElse => vec![101u8, 108u8, 115u8, 101u8],
        Pattern::KwFun => vec![102u8, 117u8, 110u8],
        Pattern::KwIf => vec![105u8, 102u8],
        Pattern::KwReturn => vec![114u8, 101u8, 116u8, 117u8, 114u8, 110u8],
        Pattern::KwWhile => vec![119u8, 104u8, 105u8, 108u8, 101u8],
        Pattern::TyChar => vec![99u8, 104u8, 97u8, 114u8],
        Pattern::TyInt => vec![105u8, 110u8, 116u8],
        Pattern::TyStr => vec![115u8, 116u8, 114u8],
        _ => vec![],
    };
    proof {
        assert(v@ =~= word_text(*p));
    }
    v
}

/// Whether the word `t` matches the suffix of `code` that starts at `pos`.
fn match_word(t: &Vec<u8>, code: &[u8], pos: usize) -> (r: bool)
    requires
        pos <= code@.len(),
    ensures
        r == word_matches(t@, code@.skip(pos as int)),
{
    let ghost s = code@.skip(pos as int);
    if code.len() - pos < t.len() {
        return false;
    }
    let mut i: usize = 0;
    while i < t.len()
        invariant
            0 <= i <= t@.len(),
            pos + t@.len() <= code@.len(),
            code@.len() <= usize::MAX,
            s == code@.skip(pos as int),
            forall|j: int| 0 <= j < i ==> #[trigger] s[j] == t@[j],
        decreases t@.len() - i,
    {
        if *slice_index_get(code, pos + i) != t[i] {
            proof {
                assert(s[i as int] == code@[pos + i]);
            }
            return false;
        }
        proof {
            assert(s[i as int] == code@[pos + i]);
        }
        i = i + 1;
    }
    proof {
        assert(s.take(t@.len() as int) =~= t@);
    }
    if pos + t.len() == code.len() {
        true
    } else {
        proof {
            assert(s[t@.len() as int] == code@[pos + t@.len()]);
        }
        !is_ident_byte_b(*slice_index_get(code, pos + t.len()))
    }
}

/// Tries pattern `p` against the suffix of `code` that starts at `pos`. On a
/// match, hands back the absolute position just past the consumed span and
/// the lexeme as a slice of the source.
pub fn try_match<'a>(p: &Pattern, code: &'a [u8], pos: usize) -> (r: Option<(usize, &'a [u8])>)
    requires
        pos <= code@.len(),
    ensures
        match pat_match_len(*p, code@.skip(pos as int)) {
            Some(n) => {
                &&& r is Some
                &&& r->Some_0.0 == pos + n
                &&& r->Some_0.1@ == pat_lexeme(*p, code@.skip(pos as int))
            },
            None => r is None,
        },
{
    let ghost s = code@.skip(pos as int);
    proof {
        assert(s.len() == code@.len() - pos);
        assert forall|j: int| 0 <= j < s.len() implies #[trigger] s[j] == code@[pos + j] by {}
    }
    match *p {
        Pattern::Whitespace => {
            if pos < code.len() && is_space_b(*slice_index_get(code, pos)) {
                let end: usize = scan_run(code, pos, RunKind::Space);
                proof {
                    assert(s.take(end - pos) =~= code@.subrange(pos as int, end as int));
                }
                Some((end, slice_subrange(code, pos, end)))
            } else {
                None
            }
        },
        Pattern::LineComment => {
            if code.len() - pos >= 2 && *slice_index_get(code, pos) == B_SLASH && *slice_index_get(
                code,
                pos + 1,
            ) == B_SLASH {
                let end: usize = scan_run(code, pos + 2, RunKind::NotNewline);
                proof {
                    assert(s.skip(2) =~= code@.skip(pos as int + 2));
                    assert(s.take(end - pos) =~= code@.subrange(pos as int, end as int));
                }
                Some((end, slice_subrange(code, pos, end)))
            } else {
                None
            }
        },
        Pattern::BlockComment => {
            if code.len() - pos >= 2 && *slice_index_get(code, pos) == B_SLASH && *slice_index_get(
                code,
                pos + 1,
            ) == B_STAR {
                match find_close(code, pos, pos + 2) {
                    Some(k) => {
                        proof {
                            lemma_close_from(s, 2);
                        }
                        let end: usize = k + 2;
                        proof {
                            assert(s.take(end - pos) =~= code@.subrange(pos as int, end as int));
                        }
                        Some((end, slice_subrange(code, pos, end)))
                    },
                    None => None,
                }
            } else {
                None
            }
        },
        Pattern::IntLit => {
            if pos < code.len() && is_digit_b(*slice_index_get(code, pos)) {
                let end: usize = scan_run(code, pos, RunKind::Digit);
                proof {
                    assert(s.take(end - pos) =~= code@.subrange(pos as int, end as int));
                }
                Some((end, slice_subrange(code, pos, end)))
            } else {
                None
            }
        },
        Pattern::CharLit => {
            if code.len() - pos >= 3 && *slice_index_get(code, pos) == B_APOSTROPHE
                && *slice_index_get(code, pos + 1) != B_APOSTROPHE && *slice_index_get(
                code,
                pos + 2,
            ) == B_APOSTROPHE {
                proof {
                    assert(s.subrange(1, 2) =~= code@.subrange(pos as int + 1, pos as int + 2));
                }
                Some(((pos + 3), slice_subrange(code, pos + 1, pos + 2)))
            } else {
                None
            }
        },
        Pattern::TextLit => {
            if pos < code.len() && *slice_index_get(code, pos) == B_QUOTE {
                let body_end: usize = scan_run(code, pos + 1, RunKind::NotQuote);
                proof {
                    assert(s.skip(1) =~= code@.skip(pos as int + 1));
                }
                if body_end < code.len() {
                    proof {
                        assert(s.subrange(1, body_end - pos) =~= code@.subrange(
                            pos as int + 1,
                            body_end as int,
                        ));
                    }
                    Some(((body_end + 1), slice_subrange(code, pos + 1, body_end)))
                } else {
                    None
                }
            } else {
                None
            }
        },
        Pattern::Ident => {
            if pos < code.len() && is_ident_start_b(*slice_index_get(code, pos)) {
                let end: usize = scan_run(code, pos + 1, RunKind::IdentByte);
                proof {
                    assert(s.skip(1) =~= code@.skip(pos as int + 1));
                    assert(s.take(end - pos) =~= code@.subrange(pos as int, end as int));
                }
                Some((end, slice_subrange(code, pos, end)))
            } else {
                None
            }
        },
        Pattern::Sym1(a) => {
            if pos < code.len() && *slice_index_get(code, pos) == a {
                proof {
                    assert(s.take(1) =~= code@.subrange(pos as int, pos as int + 1));
                }
                Some(((pos + 1), slice_subrange(code, pos, pos + 1)))
            } else {
                None
            }
        },
        Pattern::Sym2(a, b) => {
            if code.len() - pos >= 2 && *slice_index_get(code, pos) == a && *slice_index_get(
                code,
                pos + 1,
            ) == b {
                proof {
                    assert(s.take(2) =~= code@.subrange(pos as int, pos as int + 2));
                }
                Some(((pos + 2), slice_subrange(code, pos, pos + 2)))
            } else {
                None
            }
        },
        _ => {
            let t = word_bytes(p);
            if match_word(&t, code, pos) {
                let total: usize = code.len();
                proof {
                    assert(pos + t@.len() <= total);
                }
                let end: usize = pos + t.len();
                proof {
                    assert(s.take(t@.len() as int) =~= code@.subrange(pos as int, end as int));
                }
                Some((end, slice_subrange(code, pos, end)))
            } else {
                None
            }
        },
    }
}

} // verus!
