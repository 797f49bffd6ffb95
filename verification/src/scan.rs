//! The scanning engine and the token sequence builder. A `Tokenizer` holds
//! the input and one advancing cursor; each call of `get_next_token` walks
//! the pattern table in declared order against the unconsumed suffix, commits
//! the first entry that matches, skips discarded spans, and emits a token,
//! the end of input, or the first unrecognized position. A `Parser` drives
//! the tokenizer to exhaustion and collects the whole sequence.

use vstd::prelude::*;
use vstd::slice::slice_subrange;

use crate::pattern::B_APOSTROPHE;
use crate::pattern::B_QUOTE;
use crate::pattern::Pattern;
use crate::pattern::lemma_match_len_bounds;
use crate::pattern::lemma_run_len;
use crate::pattern::run_len;
use crate::pattern::text_pred;
use crate::pattern::pat_lexeme;
use crate::pattern::pat_match_len;
use crate::pattern::try_match;
use crate::table::Entry;
use crate::table::table_model;
use crate::table::token_table;
use crate::token::LexError;
use crate::token::LiteralKind;
use crate::token::PREVIEW_MAX;
use crate::token::SpecToken;
use crate::token::Token;
use crate::token::TokenType;

verus! {

/// The index of the first table entry that matches the suffix `s`, looking
/// from entry `i` on.
pub open spec fn first_match_from(s: Seq<u8>, i: nat) -> Option<nat>
    decreases table_model().len() - i,
    when i <= table_model().len()
{
    if i >= table_model().len() {
        None
    } else if pat_match_len(table_model()[i as int].pattern, s) is Some {
        Some(i)
    } else {
        first_match_from(s, i + 1)
    }
}

/// The index of the first table entry that matches the suffix `s`: the one
/// entry the engine commits to there.
pub open spec fn first_match_idx(s: Seq<u8>) -> Option<nat> {
    first_match_from(s, 0)
}

pub proof fn lemma_first_match_from_valid(s: Seq<u8>, i: nat)
    requires
        i <= table_model().len(),
    ensures
        match first_match_from(s, i) {
            Some(k) => i <= k < table_model().len() && pat_match_len(
                table_model()[k as int].pattern,
                s,
            ) is Some,
            None => true,
        },
    decreases table_model().len() - i,
{
    if i < table_model().len() && !(pat_match_len(table_model()[i as int].pattern, s) is Some) {
        lemma_first_match_from_valid(s, i + 1);
    }
}

pub proof fn lemma_first_match_from_is(s: Seq<u8>, i: nat, k: nat)
    requires
        i <= k < table_model().len(),
        pat_match_len(table_model()[k as int].pattern, s) is Some,
        forall|j: int| i <= j < k ==> !(pat_match_len(
            #[trigger] table_model()[j].pattern,
            s,
        ) is Some),
    ensures
        first_match_from(s, i) == Some(k),
    decreases k - i,
{
    if i < k {
        lemma_first_match_from_is(s, i + 1, k);
    }
}

pub proof fn lemma_first_match_from_none(s: Seq<u8>, i: nat)
    requires
        i <= table_model().len(),
        forall|j: int| i <= j < table_model().len() ==> !(pat_match_len(
            #[trigger] table_model()[j].pattern,
            s,
        ) is Some),
    ensures
        first_match_from(s, i) is None,
    decreases table_model().len() - i,
{
    if i < table_model().len() {
        lemma_first_match_from_none(s, i + 1);
    }
}

/// What one call of the scanning engine does at cursor `c`: reach the end of
/// the input, fail at an unrecognized position, or emit a token and leave the
/// cursor just past its span.
pub ghost enum ScanStep {
    End,
    Fail(nat),
    Emit(SpecToken, nat),
}

/// The scanning engine, mathematically: at cursor `c`, commit the first table
/// entry that matches the unconsumed suffix, skip it and go on when it is
/// discarded, emit its category and lexeme otherwise; fail at `c` when no
/// entry matches, end when no input is left. Each match consumes at least one
/// byte, so the skipping always terminates.
pub open spec fn next_real(code: Seq<u8>, c: nat) -> ScanStep
    decreases code.len() - c,
    when c <= code.len()
    via next_real_dec
{
    if c >= code.len() {
        ScanStep::End
    } else {
        let s = code.skip(c as int);
        match first_match_idx(s) {
            None => ScanStep::Fail(c),
            Some(i) => {
                let e = table_model()[i as int];
                let n = pat_match_len(e.pattern, s)->Some_0;
                if e.category is Discard {
                    next_real(code, c + n)
                } else {
                    ScanStep::Emit(
                        SpecToken { category: e.category, lexeme: pat_lexeme(e.pattern, s) },
                        c + n,
                    )
                }
            },
        }
    }
}

#[via_fn]
proof fn next_real_dec(code: Seq<u8>, c: nat) {
    if c < code.len() {
        let s = code.skip(c as int);
        match first_match_idx(s) {
            Some(i) => {
                lemma_first_match_from_valid(s, 0);
                lemma_match_len_bounds(table_model()[i as int].pattern, s);
            },
            None => {},
        }
    }
}

/// Progress: a successful match strictly advances the cursor and stays within
/// the input, and a failure names a position inside the input at or past the
/// cursor. Together with the termination of [`next_real`] itself this is why
/// repeated calls can only end in the end of input or in exactly one failure,
/// never in an infinite loop on discarded spans.
pub proof fn lemma_next_real_progress(code: Seq<u8>, c: nat)
    requires
        c <= code.len(),
    ensures
        match next_real(code, c) {
            ScanStep::End => true,
            ScanStep::Fail(p) => c <= p < code.len(),
            ScanStep::Emit(t, c2) => c < c2 <= code.len(),
        },
    decreases code.len() - c,
{
    if c < code.len() {
        let s = code.skip(c as int);
        match first_match_idx(s) {
            Some(i) => {
                lemma_first_match_from_valid(s, 0);
                lemma_match_len_bounds(table_model()[i as int].pattern, s);
                let n = pat_match_len(table_model()[i as int].pattern, s)->Some_0;
                if table_model()[i as int].category is Discard {
                    lemma_next_real_progress(code, c + n);
                }
            },
            None => {},
        }
    }
}

/// A failure is final: the cursor rests at the failing position, and a scan
/// taken up from there fails at that same position again. Repeated engine
/// calls therefore end in at most one distinct failure.
pub proof fn lemma_failure_is_stable(code: Seq<u8>, c: nat)
    requires
        c <= code.len(),
    ensures
        match next_real(code, c) {
            ScanStep::Fail(p) => next_real(code, p) == ScanStep::Fail(p),
            _ => true,
        },
    decreases code.len() - c,
{
    if c < code.len() {
        let s = code.skip(c as int);
        match first_match_idx(s) {
            Some(i) => {
                lemma_first_match_from_valid(s, 0);
                lemma_match_len_bounds(table_model()[i as int].pattern, s);
                let n = pat_match_len(table_model()[i as int].pattern, s)->Some_0;
                if table_model()[i as int].category is Discard {
                    lemma_failure_is_stable(code, c + n);
                }
            },
            None => {},
        }
    }
}

/// No discarded span ever reaches the caller: whitespace and comments are
/// consumed, not emitted.
pub proof fn lemma_next_real_no_discard(code: Seq<u8>, c: nat)
    requires
        c <= code.len(),
    ensures
        match next_real(code, c) {
            ScanStep::Emit(t, c2) => t.category != TokenType::Discard,
            _ => true,
        },
    decreases code.len() - c,
{
    if c < code.len() {
        let s = code.skip(c as int);
        match first_match_idx(s) {
            Some(i) => {
                lemma_first_match_from_valid(s, 0);
                lemma_match_len_bounds(table_model()[i as int].pattern, s);
                let n = pat_match_len(table_model()[i as int].pattern, s)->Some_0;
                if table_model()[i as int].category is Discard {
                    lemma_next_real_no_discard(code, c + n);
                }
            },
            None => {},
        }
    }
}

/// Delimiter stripping: an emitted character literal consists of exactly one
/// byte, and an emitted text literal of the bytes between its quotes, none of
/// them a quote — in both cases the delimiters stand in the source just
/// around the lexeme and never inside it.
#[verifier::rlimit(60)]
pub proof fn lemma_delimiter_stripping(code: Seq<u8>, c: nat)
    requires
        c <= code.len(),
    ensures
        match next_real(code, c) {
            ScanStep::Emit(t, c2) => {
                &&& (t.category == TokenType::Literal(LiteralKind::Character) ==> {
                    &&& t.lexeme.len() == 1
                    &&& c2 >= 3
                    &&& t.lexeme == code.subrange(c2 - 2, c2 - 1)
                    &&& code[c2 - 3] == B_APOSTROPHE
                    &&& code[c2 - 1] == B_APOSTROPHE
                    &&& t.lexeme[0] != B_APOSTROPHE
                })
                &&& (t.category == TokenType::Literal(LiteralKind::Text) ==> {
                    &&& c2 >= t.lexeme.len() + 2
                    &&& t.lexeme == code.subrange(c2 - 1 - t.lexeme.len(), c2 - 1)
                    &&& code[c2 - 2 - t.lexeme.len()] == B_QUOTE
                    &&& code[c2 - 1] == B_QUOTE
                    &&& forall|j: int| 0 <= j < t.lexeme.len() ==> (#[trigger] t.lexeme[j])
                        != B_QUOTE
                })
            },
            _ => true,
        },
    decreases code.len() - c,
{
    if c < code.len() {
        let s = code.skip(c as int);
        match first_match_idx(s) {
            Some(i) => {
                lemma_first_match_from_valid(s, 0);
                lemma_match_len_bounds(table_model()[i as int].pattern, s);
                let e = table_model()[i as int];
                let n = pat_match_len(e.pattern, s)->Some_0;
                if e.category is Discard {
                    lemma_delimiter_stripping(code, c + n);
                } else {
                    assert(forall|k: int|
                        0 <= k < table_model().len() && (#[trigger] table_model()[k]).category
                            == TokenType::Literal(LiteralKind::Character)
                            ==> table_model()[k].pattern == Pattern::CharLit);
                    assert(forall|k: int|
                        0 <= k < table_model().len() && (#[trigger] table_model()[k]).category
                            == TokenType::Literal(LiteralKind::Text) ==> table_model()[k].pattern
                            == Pattern::TextLit);
                    assert(forall|j: int| 0 <= j < s.len() ==> #[trigger] s[j] == code[c + j]);
                    if e.category == TokenType::Literal(LiteralKind::Character) {
                        assert(pat_lexeme(e.pattern, s) =~= code.subrange(
                            c + 1 as int,
                            c + 2 as int,
                        ));
                    }
                    if e.category == TokenType::Literal(LiteralKind::Text) {
                        let body = run_len(s.skip(1), text_pred());
                        lemma_run_len(s.skip(1), text_pred());
                        assert(forall|j: int|
                            0 <= j < s.skip(1).len() ==> #[trigger] s.skip(1)[j] == s[1 + j]);
                        assert(s[n - 1] == B_QUOTE);
                        assert(pat_lexeme(e.pattern, s) =~= code.subrange(
                            c + 1 as int,
                            c + n - 1 as int,
                        ));
                        assert(forall|j: int|
                            0 <= j < body ==> (#[trigger] pat_lexeme(e.pattern, s)[j]) != B_QUOTE);
                    }
                }
            },
            None => {},
        }
    }
}

/// The whole tokenization, mathematically: the ordered token sequence that
/// scanning from cursor `c` produces, or the first unrecognized position.
/// Failure is atomic — a failed scan yields a position and no tokens at all.
pub open spec fn lex_from(code: Seq<u8>, c: nat) -> Result<Seq<SpecToken>, nat>
    decreases code.len() - c,
    when c <= code.len()
    via lex_from_dec
{
    match next_real(code, c) {
        ScanStep::End => Ok(Seq::empty()),
        ScanStep::Fail(p) => Err(p),
        ScanStep::Emit(t, c2) => match lex_from(code, c2) {
            Ok(rest) => Ok(seq![t] + rest),
            Err(p) => Err(p),
        },
    }
}

#[via_fn]
proof fn lex_from_dec(code: Seq<u8>, c: nat) {
    if c <= code.len() {
        lemma_next_real_progress(code, c);
    }
}

/// Every token of a successful tokenization has a real category: the discard
/// kind never appears in the output sequence.
pub proof fn lemma_lex_no_discard(code: Seq<u8>, c: nat)
    requires
        c <= code.len(),
    ensures
        match lex_from(code, c) {
            Ok(ts) => forall|i: int|
                0 <= i < ts.len() ==> (#[trigger] ts[i].category) != TokenType::Discard,
            Err(p) => c <= p < code.len(),
        },
    decreases code.len() - c,
{
    lemma_next_real_progress(code, c);
    lemma_next_real_no_discard(code, c);
    match next_real(code, c) {
        ScanStep::Emit(t, c2) => {
            lemma_lex_no_discard(code, c2);
        },
        _ => {},
    }
}

/// The bounded preview of the input a failure report carries: the bytes from
/// the failing position on, cut off after [`PREVIEW_MAX`] of them.
pub open spec fn preview_of(code: Seq<u8>, p: nat) -> Seq<u8> {
    if p + PREVIEW_MAX <= code.len() {
        code.subrange(p as int, p as int + PREVIEW_MAX)
    } else {
        code.subrange(p as int, code.len() as int)
    }
}

/// Scan state: the full input text, borrowed for the scan's lifetime, the
/// constructed pattern table, and one cursor that only ever moves forward.
pub struct Tokenizer<'a> {
    pub code: &'a [u8],
    pub table: Vec<Entry>,
    pub cursor: usize,
}

/// What one engine call hands back: a classified token, the end of the input,
/// or the first unrecognized position.
pub enum NextToken<'a> {
    Token(Token<'a>),
    EndOfInput,
    Failure(LexError<'a>),
}

impl<'a> Tokenizer<'a> {
    /// The scan state invariant: the cursor stays inside the input and the
    /// held table is the declared one.
    pub open spec fn wf(&self) -> bool {
        &&& self.cursor <= self.code@.len()
        &&& self.table@ == table_model()
    }

    /// A fresh scan over `code`, with the cursor at the start.
    pub fn init(code: &'a [u8]) -> (t: Tokenizer<'a>)
        ensures
            t.wf(),
            t.code@ == code@,
            t.cursor == 0,
    {
        Tokenizer { code, table: token_table(), cursor: 0 }
    }

    /// Whether unconsumed input is left in front of the cursor.
    pub fn has_more_tokens(&self) -> (r: bool)
        ensures
            r == (self.cursor < self.code@.len()),
    {
        self.cursor < self.code.len()
    }

    /// Finds the first table entry that matches the suffix of `code` starting
    /// at `pos`, and with it the end of its span and its lexeme.
    fn find_first(table: &Vec<Entry>, code: &'a [u8], pos: usize) -> (r: Option<
        (usize, usize, &'a [u8]),
    >)
        requires
            table@ == table_model(),
            pos <= code@.len(),
        ensures
            match first_match_idx(code@.skip(pos as int)) {
                None => r is None,
                Some(i) => {
                    &&& r is Some
                    &&& r->Some_0.0 == i
                    &&& r->Some_0.1 == pos + pat_match_len(
                        table_model()[i as int].pattern,
                        code@.skip(pos as int),
                    )->Some_0
                    &&& r->Some_0.2@ == pat_lexeme(
                        table_model()[i as int].pattern,
                        code@.skip(pos as int),
                    )
                },
            },
    {
        let ghost s = code@.skip(pos as int);
        let mut i: usize = 0;
        while i < table.len()
            invariant
                0 <= i <= table@.len(),
                table@ == table_model(),
                pos <= code@.len(),
                s == code@.skip(pos as int),
                forall|j: int| 0 <= j < i ==> !(pat_match_len(
                    #[trigger] table_model()[j].pattern,
                    s,
                ) is Some),
            decreases table@.len() - i,
        {
            match try_match(&table[i].pattern, code, pos) {
                Some((end, lexeme)) => {
                    proof {
                        lemma_first_match_from_is(s, 0, i as nat);
                    }
                    return Some((i, end, lexeme));
                },
                None => {},
            }
            i = i + 1;
        }
        proof {
            lemma_first_match_from_none(s, 0);
        }
        None
    }

    /// One engine step. Walks the table in declared order against the
    /// unconsumed suffix, consumes the first matching span, keeps consuming
    /// through discarded spans, and returns the next real token — or the end
    /// of the input, or a failure naming the first unrecognized position,
    /// where the cursor then rests.
    pub fn get_next_token(&mut self) -> (r: NextToken<'a>)
        requires
            old(self).wf(),
        ensures
            final(self).wf(),
            final(self).code == old(self).code,
            final(self).table@ == old(self).table@,
            old(self).cursor <= final(self).cursor,
            match next_real(old(self).code@, old(self).cursor as nat) {
                ScanStep::End => r is EndOfInput && final(self).cursor == old(self).code@.len(),
                ScanStep::Fail(p) => {
                    &&& r is Failure
                    &&& r->Failure_0.position == p
                    &&& r->Failure_0.preview@ == preview_of(old(self).code@, p)
                    &&& final(self).cursor == p
                },
                ScanStep::Emit(t, c2) => {
                    &&& r is Token
                    &&& r->Token_0@ == t
                    &&& final(self).cursor == c2
                },
            },
    {
        loop
            invariant
                self.wf(),
                self.code == old(self).code,
                self.table@ == old(self).table@,
                old(self).cursor <= self.cursor,
                next_real(self.code@, old(self).cursor as nat) == next_real(
                    self.code@,
                    self.cursor as nat,
                ),
            decreases self.code@.len() - self.cursor,
        {
            if self.cursor >= self.code.len() {
                return NextToken::EndOfInput;
            }
            let ghost s = self.code@.skip(self.cursor as int);
            match Self::find_first(&self.table, self.code, self.cursor) {
                None => {
                    let rest: usize = self.code.len() - self.cursor;
                    let hi: usize = if rest <= PREVIEW_MAX {
                        self.code.len()
                    } else {
                        self.cursor + PREVIEW_MAX
                    };
                    let preview = slice_subrange(self.code, self.cursor, hi);
                    return NextToken::Failure(
                        LexError { position: self.cursor, preview },
                    );
                },
                Some((idx, end, lexeme)) => {
                    proof {
                        lemma_first_match_from_valid(s, 0);
                        lemma_match_len_bounds(table_model()[idx as int].pattern, s);
                    }
                    let category = self.table[idx].category;
                    self.cursor = end;
                    if category != TokenType::Discard {
                        return NextToken::Token(Token { category, lexeme });
                    }
                },
            }
        }
    }
}

/// The token sequence builder: drives a [`Tokenizer`] to exhaustion and
/// collects every real token in source order, or stops at the first failure
/// and returns it alone.
pub struct Parser<'a> {
    pub tokenizer: Tokenizer<'a>,
}

impl<'a> Parser<'a> {
    /// A builder over a fresh scan of `code`.
    pub fn init(code: &'a [u8]) -> (p: Parser<'a>)
        ensures
            p.tokenizer.wf(),
            p.tokenizer.code@ == code@,
            p.tokenizer.cursor == 0,
    {
        Parser { tokenizer: Tokenizer::init(code) }
    }

    /// The whole tokenization from the current cursor on: either every
    /// remaining token, in source order, or the first failure and no tokens
    /// at all.
    pub fn parse(&mut self) -> (r: Result<Vec<Token<'a>>, LexError<'a>>)
        requires
            old(self).tokenizer.wf(),
        ensures
            final(self).tokenizer.wf(),
            final(self).tokenizer.code == old(self).tokenizer.code,
            match lex_from(old(self).tokenizer.code@, old(self).tokenizer.cursor as nat) {
                Ok(ts) => {
                    &&& r is Ok
                    &&& r->Ok_0@.len() == ts.len()
                    &&& forall|i: int| 0 <= i < ts.len() ==> (#[trigger] r->Ok_0@[i])@ == ts[i]
                    &&& final(self).tokenizer.cursor == old(self).tokenizer.code@.len()
                },
                Err(p) => {
                    &&& r is Err
                    &&& r->Err_0.position == p
                    &&& r->Err_0.preview@ == preview_of(old(self).tokenizer.code@, p)
                    &&& final(self).tokenizer.cursor == p
                },
            },
    {
        let ghost code = self.tokenizer.code@;
        let ghost c0: nat = self.tokenizer.cursor as nat;
        let mut tokens: Vec<Token<'a>> = Vec::new();
        proof {
            match lex_from(code, c0) {
                Ok(rest) => {
                    assert(tokens@.map_values(|t: Token<'a>| t@) + rest =~= rest);
                },
                Err(_) => {},
            }
        }
        loop
            invariant
                self.tokenizer.wf(),
                self.tokenizer.code == old(self).tokenizer.code,
                code == self.tokenizer.code@,
                c0 == old(self).tokenizer.cursor as nat,
                lex_from(code, c0) == match lex_from(code, self.tokenizer.cursor as nat) {
                    Ok(rest) => Ok::<Seq<SpecToken>, nat>(
                        tokens@.map_values(|t: Token<'a>| t@) + rest,
                    ),
                    Err(p) => Err::<Seq<SpecToken>, nat>(p),
                },
            decreases code.len() - self.tokenizer.cursor,
        {
            let ghost c_here = self.tokenizer.cursor as nat;
            proof {
                lemma_next_real_progress(code, c_here);
            }
            match self.tokenizer.get_next_token() {
                NextToken::EndOfInput => {
                    proof {
                        assert(lex_from(code, c_here) == Ok::<Seq<SpecToken>, nat>(Seq::empty()));
                        assert(tokens@.map_values(|t: Token<'a>| t@) + Seq::<
                            SpecToken,
                        >::empty() =~= tokens@.map_values(|t: Token<'a>| t@));
                    }
                    return Ok(tokens);
                },
                NextToken::Failure(e) => {
                    return Err(e);
                },
                NextToken::Token(tok) => {
                    let ghost step = next_real(code, c_here);
                    let ghost prev = tokens@;
                    tokens.push(tok);
                    proof {
                        let t = step->Emit_0;
                        let c2 = step->Emit_1;
                        let prefix = prev.map_values(|x: Token<'a>| x@);
                        assert(tokens@.map_values(|x: Token<'a>| x@) =~= prefix + seq![t]);
                        match lex_from(code, c2) {
                            Ok(rest) => {
                                assert(prefix + (seq![t] + rest) =~= (prefix + seq![t]) + rest);
                            },
                            Err(_) => {},
                        }
                    }
                },
            }
        }
    }
}

} // verus!
