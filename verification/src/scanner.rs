//! The scanner: one line of text to one token sequence, or a lexical error.

use vstd::prelude::*;
use vstd::string::StrSliceExecFns;

use crate::token::Token;
use crate::token::TokenModel;

verus! {

/// An unrecognized character stopped scanning; the whole line is abandoned.
#[derive(Debug, Clone, Copy, PartialEq, Eq, Structural)]
pub struct LexicalError {
    pub ch: char,
}

/// ASCII whitespace as the scanner skips it: space, tab, line feed,
/// form feed, carriage return.
pub open spec fn spec_is_whitespace(c: char) -> bool {
    c == ' ' || c == '\t' || c == '\n' || c == '\x0C' || c == '\r'
}

/// An ASCII decimal digit.
pub open spec fn spec_is_digit(c: char) -> bool {
    48 <= c as u32 && c as u32 <= 57
}

/// An ASCII letter.
pub open spec fn spec_is_alpha(c: char) -> bool {
    (65 <= c as u32 && c as u32 <= 90) || (97 <= c as u32 && c as u32 <= 122)
}

pub fn is_whitespace_char(c: char) -> (r: bool)
    ensures
        r == spec_is_whitespace(c),
{
    c == ' ' || c == '\t' || c == '\n' || c == '\x0C' || c == '\r'
}

pub fn is_digit_char(c: char) -> (r: bool)
    ensures
        r == spec_is_digit(c),
{
    let u = c as u32;
    48 <= u && u <= 57
}

pub fn is_alpha_char(c: char) -> (r: bool)
    ensures
        r == spec_is_alpha(c),
{
    let u = c as u32;
    (65 <= u && u <= 90) || (97 <= u && u <= 122)
}

/// Length of the maximal run of digits at the front of `s`.
pub open spec fn spec_digit_run(s: Seq<char>) -> nat
    decreases s.len(),
{
    if s.len() > 0 && spec_is_digit(s[0]) {
        1 + spec_digit_run(s.drop_first())
    } else {
        0
    }
}

/// Length of the maximal run of letters at the front of `s`.
pub open spec fn spec_alpha_run(s: Seq<char>) -> nat
    decreases s.len(),
{
    if s.len() > 0 && spec_is_alpha(s[0]) {
        1 + spec_alpha_run(s.drop_first())
    } else {
        0
    }
}

pub proof fn lemma_digit_run_bounds(s: Seq<char>)
    ensures
        spec_digit_run(s) <= s.len(),
        s.len() > 0 && spec_is_digit(s[0]) ==> spec_digit_run(s) >= 1,
    decreases s.len(),
{
    if s.len() > 0 && spec_is_digit(s[0]) {
        lemma_digit_run_bounds(s.drop_first());
    }
}

pub proof fn lemma_alpha_run_bounds(s: Seq<char>)
    ensures
        spec_alpha_run(s) <= s.len(),
        s.len() > 0 && spec_is_alpha(s[0]) ==> spec_alpha_run(s) >= 1,
    decreases s.len(),
{
    if s.len() > 0 && spec_is_alpha(s[0]) {
        lemma_alpha_run_bounds(s.drop_first());
    }
}

/// Puts token `t` in front of a scan outcome; an error passes through,
/// since a lexical failure abandons the whole line.
pub open spec fn spec_prepend(t: TokenModel, r: Result<Seq<TokenModel>, char>) -> Result<
    Seq<TokenModel>,
    char,
> {
    match r {
        Ok(ts) => Ok(seq![t] + ts),
        Err(c) => Err(c),
    }
}

/// The scan of a character sequence: skip whitespace, classify the next
/// character, take the maximal run for numbers and identifiers, and end a
/// well-formed line with exactly one `Eof`.  An unrecognized character fails
/// the whole line and names that character.
pub open spec fn spec_scan(s: Seq<char>) -> Result<Seq<TokenModel>, char>
    decreases s.len(),
    via spec_scan_decreases
{
    if s.len() == 0 {
        Ok(seq![TokenModel::Eof])
    } else if spec_is_whitespace(s[0]) {
        spec_scan(s.drop_first())
    } else if s[0] == '+' {
        spec_prepend(TokenModel::Plus, spec_scan(s.drop_first()))
    } else if s[0] == '*' {
        spec_prepend(TokenModel::Star, spec_scan(s.drop_first()))
    } else if s[0] == '(' {
        spec_prepend(TokenModel::Bopen, spec_scan(s.drop_first()))
    } else if s[0] == ')' {
        spec_prepend(TokenModel::Bclose, spec_scan(s.drop_first()))
    } else if spec_is_digit(s[0]) {
        let n = spec_digit_run(s) as int;
        spec_prepend(TokenModel::Number(s.take(n)), spec_scan(s.skip(n)))
    } else if spec_is_alpha(s[0]) {
        let n = spec_alpha_run(s) as int;
        spec_prepend(TokenModel::Identifier(s.take(n)), spec_scan(s.skip(n)))
    } else {
        Err(s[0])
    }
}

#[via_fn]
proof fn spec_scan_decreases(s: Seq<char>) {
    if s.len() > 0 {
        if spec_is_digit(s[0]) {
            lemma_digit_run_bounds(s);
        }
        if spec_is_alpha(s[0]) {
            lemma_alpha_run_bounds(s);
        }
    }
}

proof fn lemma_digit_run_prefix(s: Seq<char>)
    ensures
        forall|k: int| 0 <= k < spec_digit_run(s) ==> spec_is_digit(#[trigger] s[k]),
    decreases s.len(),
{
    if s.len() > 0 && spec_is_digit(s[0]) {
        lemma_digit_run_bounds(s);
        lemma_digit_run_prefix(s.drop_first());
        assert forall|k: int| 0 <= k < spec_digit_run(s) implies spec_is_digit(
            #[trigger] s[k],
        ) by {
            if k > 0 {
                assert(s.drop_first()[k - 1] == s[k]);
            }
        }
    }
}

proof fn lemma_alpha_run_prefix(s: Seq<char>)
    ensures
        forall|k: int| 0 <= k < spec_alpha_run(s) ==> spec_is_alpha(#[trigger] s[k]),
    decreases s.len(),
{
    if s.len() > 0 && spec_is_alpha(s[0]) {
        lemma_alpha_run_bounds(s);
        lemma_alpha_run_prefix(s.drop_first());
        assert forall|k: int| 0 <= k < spec_alpha_run(s) implies spec_is_alpha(
            #[trigger] s[k],
        ) by {
            if k > 0 {
                assert(s.drop_first()[k - 1] == s[k]);
            }
        }
    }
}

/// A lexeme of one character class only: identifiers hold letters, numbers
/// hold digits, each at least one character long.
pub open spec fn spec_lexeme_unmixed(t: TokenModel) -> bool {
    match t {
        TokenModel::Identifier(s) => s.len() >= 1 && forall|k: int|
            0 <= k < s.len() ==> spec_is_alpha(#[trigger] s[k]),
        TokenModel::Number(s) => s.len() >= 1 && forall|k: int|
            0 <= k < s.len() ==> spec_is_digit(#[trigger] s[k]),
        _ => true,
    }
}

/// Letters and digits never merge into one lexeme: every identifier token a
/// scan produces holds letters only, every number token digits only, and
/// neither is empty.
pub proof fn lemma_lexemes_unmixed(s: Seq<char>)
    ensures
        match spec_scan(s) {
            Ok(ts) => forall|i: int| 0 <= i < ts.len() ==> spec_lexeme_unmixed(#[trigger] ts[i]),
            Err(_) => true,
        },
    decreases s.len(),
{
    if s.len() == 0 {
    } else if spec_is_whitespace(s[0]) {
        lemma_lexemes_unmixed(s.drop_first());
    } else if s[0] == '+' || s[0] == '*' || s[0] == '(' || s[0] == ')' {
        lemma_lexemes_unmixed(s.drop_first());
    } else if spec_is_digit(s[0]) {
        lemma_digit_run_bounds(s);
        lemma_digit_run_prefix(s);
        lemma_lexemes_unmixed(s.skip(spec_digit_run(s) as int));
        assert(spec_lexeme_unmixed(TokenModel::Number(s.take(spec_digit_run(s) as int))));
    } else if spec_is_alpha(s[0]) {
        lemma_alpha_run_bounds(s);
        lemma_alpha_run_prefix(s);
        lemma_lexemes_unmixed(s.skip(spec_alpha_run(s) as int));
        assert(spec_lexeme_unmixed(TokenModel::Identifier(s.take(spec_alpha_run(s) as int))));
    } else {
    }
}

/// A well-formed token sequence: `Eof` stands exactly at the end, once.
pub open spec fn spec_wf_tokens(ts: Seq<TokenModel>) -> bool {
    &&& ts.len() >= 1
    &&& ts[ts.len() - 1] is Eof
    &&& forall|i: int| 0 <= i < ts.len() - 1 ==> !(#[trigger] ts[i] is Eof)
}

/// Every successful scan ends with `Eof`, and `Eof` occurs exactly once,
/// as the final token.
pub proof fn lemma_scan_ends_with_eof(s: Seq<char>)
    ensures
        match spec_scan(s) {
            Ok(ts) => spec_wf_tokens(ts),
            Err(_) => true,
        },
    decreases s.len(),
{
    if s.len() == 0 {
    } else if spec_is_whitespace(s[0]) {
        lemma_scan_ends_with_eof(s.drop_first());
    } else if s[0] == '+' || s[0] == '*' || s[0] == '(' || s[0] == ')' {
        lemma_scan_ends_with_eof(s.drop_first());
    } else if spec_is_digit(s[0]) {
        lemma_digit_run_bounds(s);
        lemma_scan_ends_with_eof(s.skip(spec_digit_run(s) as int));
    } else if spec_is_alpha(s[0]) {
        lemma_alpha_run_bounds(s);
        lemma_scan_ends_with_eof(s.skip(spec_alpha_run(s) as int));
    } else {
    }
}

/// The token models of an executable token sequence.
pub open spec fn spec_tokens(ts: Seq<Token>) -> Seq<TokenModel> {
    ts.map_values(|t: Token| t@)
}

/// Puts an already scanned prefix in front of the scan outcome of the rest.
pub open spec fn spec_scanned(p: Seq<TokenModel>, r: Result<Seq<TokenModel>, char>) -> Result<
    Seq<TokenModel>,
    char,
> {
    match r {
        Ok(ts) => Ok(p + ts),
        Err(c) => Err(c),
    }
}

proof fn lemma_scanned_step(p: Seq<TokenModel>, t: TokenModel, r: Result<Seq<TokenModel>, char>)
    ensures
        spec_scanned(p.push(t), r) == spec_scanned(p, spec_prepend(t, r)),
{
    match r {
        Ok(ts) => {
            assert(p.push(t) + ts =~= p + (seq![t] + ts));
        }
        Err(_) => {}
    }
}

/// Scanning ignores a whitespace prefix.
proof fn lemma_scan_ws_prefix(s: Seq<char>, j: int)
    requires
        0 <= j <= s.len(),
        forall|k: int| 0 <= k < j ==> spec_is_whitespace(#[trigger] s[k]),
    ensures
        spec_scan(s) == spec_scan(s.skip(j)),
    decreases j,
{
    if j == 0 {
        assert(s.skip(0) =~= s);
    } else {
        lemma_scan_ws_prefix(s.drop_first(), j - 1);
        assert(s.drop_first().skip(j - 1) =~= s.skip(j));
    }
}

/// The digit run of a sequence whose first `j` characters are digits and
/// whose character `j`, if any, is none, is exactly `j`.
proof fn lemma_digit_run_exact(s: Seq<char>, j: int)
    requires
        0 <= j <= s.len(),
        forall|k: int| 0 <= k < j ==> spec_is_digit(#[trigger] s[k]),
        j == s.len() || !spec_is_digit(s[j]),
    ensures
        spec_digit_run(s) == j,
    decreases j,
{
    if j == 0 {
    } else {
        lemma_digit_run_exact(s.drop_first(), j - 1);
    }
}

proof fn lemma_alpha_run_exact(s: Seq<char>, j: int)
    requires
        0 <= j <= s.len(),
        forall|k: int| 0 <= k < j ==> spec_is_alpha(#[trigger] s[k]),
        j == s.len() || !spec_is_alpha(s[j]),
    ensures
        spec_alpha_run(s) == j,
    decreases j,
{
    if j == 0 {
    } else {
        lemma_alpha_run_exact(s.drop_first(), j - 1);
    }
}

/// A cursor over the characters of one input line.
pub struct Scanner<'a> {
    pub line: &'a str,
    pub current: usize,
}

impl<'a> Scanner<'a> {
    /// The cursor never stands past the end of the line.
    pub open spec fn wf(&self) -> bool {
        self.current <= self.line@.len()
    }

    /// The characters not yet consumed.
    pub open spec fn remaining(&self) -> Seq<char> {
        self.line@.skip(self.current as int)
    }

    pub fn new(input: &'a str) -> (r: Scanner<'a>)
        ensures
            r.line@ == input@,
            r.current == 0,
            r.wf(),
            r.remaining() == input@,
    {
        let r = Scanner { line: input, current: 0 };
        proof {
            assert(r.remaining() =~= input@);
        }
        r
    }

    /// The next unconsumed character, if any, without consuming it.
    pub fn peek(&self) -> (r: Option<char>)
        requires
            self.wf(),
        ensures
            r == if self.current < self.line@.len() {
                Some(self.line@[self.current as int])
            } else {
                None::<char>
            },
    {
        if self.current < self.line.unicode_len() {
            Some(self.line.get_char(self.current))
        } else {
            None
        }
    }

    /// Consumes and returns the next character, if any.
    pub fn advance(&mut self) -> (r: Option<char>)
        requires
            old(self).wf(),
        ensures
            final(self).line == old(self).line,
            final(self).wf(),
            old(self).current < old(self).line@.len() ==> r == Some(
                old(self).line@[old(self).current as int],
            ) && final(self).current == old(self).current + 1,
            old(self).current >= old(self).line@.len() ==> r == None::<char> && final(self).current
                == old(self).current,
    {
        if self.current < self.line.unicode_len() {
            let c = self.line.get_char(self.current);
            self.current = self.current + 1;
            Some(c)
        } else {
            None
        }
    }

    /// Consumes the maximal whitespace run at the cursor.
    pub fn skip_whitespace(&mut self)
        requires
            old(self).wf(),
        ensures
            final(self).line == old(self).line,
            final(self).wf(),
            old(self).current <= final(self).current,
            forall|k: int|
                old(self).current <= k < final(self).current ==> spec_is_whitespace(
                    #[trigger] old(self).line@[k],
                ),
            final(self).current == old(self).line@.len() || !spec_is_whitespace(
                old(self).line@[final(self).current as int],
            ),
    {
        loop
            invariant
                self.wf(),
                self.line == old(self).line,
                old(self).current <= self.current,
                forall|k: int|
                    old(self).current <= k < self.current ==> spec_is_whitespace(
                        #[trigger] self.line@[k],
                    ),
            ensures
                self.current == self.line@.len() || !spec_is_whitespace(
                    self.line@[self.current as int],
                ),
            decreases self.line@.len() - self.current,
        {
            let more = match self.peek() {
                Some(c) => is_whitespace_char(c),
                None => false,
            };
            if !more {
                break ;
            }
            self.advance();
        }
    }

    /// Scans one token at the cursor.  `Ok(Token::Eof)` means the line is
    /// exhausted; any other `Ok` token stands first in the scan of the
    /// consumed suffix; `Err` reports the unrecognized character.
    fn scan_token(&mut self) -> (r: Result<Token, LexicalError>)
        requires
            old(self).wf(),
        ensures
            final(self).line == old(self).line,
            final(self).wf(),
            old(self).current <= final(self).current,
            match r {
                Ok(t) => if t@ is Eof {
                    &&& spec_scan(old(self).remaining()) == Ok::<Seq<TokenModel>, char>(
                        seq![TokenModel::Eof],
                    )
                    &&& final(self).current == old(self).line@.len()
                } else {
                    &&& spec_scan(old(self).remaining()) == spec_prepend(
                        t@,
                        spec_scan(final(self).remaining()),
                    )
                    &&& old(self).current < final(self).current
                },
                Err(e) => spec_scan(old(self).remaining()) == Err::<Seq<TokenModel>, char>(e.ch),
            },
    {
        let ghost entry = *self;
        self.skip_whitespace();
        proof {
            let j = self.current - entry.current;
            assert forall|k: int| 0 <= k < j implies spec_is_whitespace(
                #[trigger] entry.remaining()[k],
            ) by {
                assert(entry.remaining()[k] == entry.line@[entry.current + k]);
            }
            lemma_scan_ws_prefix(entry.remaining(), j);
            assert(entry.remaining().skip(j) =~= self.remaining());
        }
        let ghost at_token = *self;
        let c = match self.advance() {
            Some(c) => c,
            None => {
                proof {
                    assert(at_token.remaining() =~= Seq::<char>::empty());
                }
                return Ok(Token::Eof);
            }
        };
        proof {
            assert(at_token.remaining()[0] == c);
            assert(at_token.remaining().drop_first() =~= self.remaining());
        }
        if c == '+' {
            Ok(Token::Plus)
        } else if c == '*' {
            Ok(Token::Star)
        } else if c == '(' {
            Ok(Token::Bopen)
        } else if c == ')' {
            Ok(Token::Bclose)
        } else if is_digit_char(c) {
            let start = self.current - 1;
            self.take_digit_run(start);
            let lexeme = self.line.substring_char(start, self.current).to_owned();
            proof {
                let rem = at_token.remaining();
                let n = self.current - start;
                assert forall|k: int| 0 <= k < n implies spec_is_digit(#[trigger] rem[k]) by {
                    assert(rem[k] == self.line@[start + k]);
                }
                lemma_digit_run_exact(rem, n);
                assert(rem.take(n) =~= self.line@.subrange(start as int, self.current as int));
                assert(rem.skip(n) =~= self.remaining());
            }
            Ok(Token::Number(lexeme))
        } else if is_alpha_char(c) {
            let start = self.current - 1;
            self.take_alpha_run(start);
            let lexeme = self.line.substring_char(start, self.current).to_owned();
            proof {
                let rem = at_token.remaining();
                let n = self.current - start;
                assert forall|k: int| 0 <= k < n implies spec_is_alpha(#[trigger] rem[k]) by {
                    assert(rem[k] == self.line@[start + k]);
                }
                lemma_alpha_run_exact(rem, n);
                assert(rem.take(n) =~= self.line@.subrange(start as int, self.current as int));
                assert(rem.skip(n) =~= self.remaining());
            }
            Ok(Token::Identifier(lexeme))
        } else {
            Err(LexicalError { ch: c })
        }
    }

    /// Consumes the digits that immediately follow a digit already consumed
    /// at position `start`.
    fn take_digit_run(&mut self, start: usize)
        requires
            old(self).wf(),
            start < old(self).current,
            forall|k: int|
                start <= k < old(self).current ==> spec_is_digit(#[trigger] old(self).line@[k]),
        ensures
            final(self).line == old(self).line,
            final(self).wf(),
            old(self).current <= final(self).current,
            forall|k: int|
                start <= k < final(self).current ==> spec_is_digit(#[trigger] final(self).line@[k]),
            final(self).current == final(self).line@.len() || !spec_is_digit(
                final(self).line@[final(self).current as int],
            ),
    {
        loop
            invariant
                self.wf(),
                self.line == old(self).line,
                start < self.current,
                old(self).current <= self.current,
                forall|k: int|
                    start <= k < self.current ==> spec_is_digit(#[trigger] self.line@[k]),
            ensures
                self.current == self.line@.len() || !spec_is_digit(
                    self.line@[self.current as int],
                ),
            decreases self.line@.len() - self.current,
        {
            let more = match self.peek() {
                Some(c) => is_digit_char(c),
                None => false,
            };
            if !more {
                break ;
            }
            self.advance();
        }
    }

    /// Consumes the letters that immediately follow a letter already consumed
    /// at position `start`.
    fn take_alpha_run(&mut self, start: usize)
        requires
            old(self).wf(),
            start < old(self).current,
            forall|k: int|
                start <= k < old(self).current ==> spec_is_alpha(#[trigger] old(self).line@[k]),
        ensures
            final(self).line == old(self).line,
            final(self).wf(),
            old(self).current <= final(self).current,
            forall|k: int|
                start <= k < final(self).current ==> spec_is_alpha(#[trigger] final(self).line@[k]),
            final(self).current == final(self).line@.len() || !spec_is_alpha(
                final(self).line@[final(self).current as int],
            ),
    {
        loop
            invariant
                self.wf(),
                self.line == old(self).line,
                start < self.current,
                old(self).current <= self.current,
                forall|k: int|
                    start <= k < self.current ==> spec_is_alpha(#[trigger] self.line@[k]),
            ensures
                self.current == self.line@.len() || !spec_is_alpha(
                    self.line@[self.current as int],
                ),
            decreases self.line@.len() - self.current,
        {
            let more = match self.peek() {
                Some(c) => is_alpha_char(c),
                None => false,
            };
            if !more {
                break ;
            }
            self.advance();
        }
    }

    /// Scans the whole line.  On success the returned tokens are exactly the
    /// scan of the unconsumed characters, ending with one `Eof`; on failure
    /// the error names the first unrecognized character.
    pub fn scan_all(&mut self) -> (r: Result<Vec<Token>, LexicalError>)
        requires
            old(self).wf(),
        ensures
            final(self).line == old(self).line,
            final(self).wf(),
            match r {
                Ok(v) => spec_scan(old(self).remaining()) == Ok::<Seq<TokenModel>, char>(
                    spec_tokens(v@),
                ),
                Err(e) => spec_scan(old(self).remaining()) == Err::<Seq<TokenModel>, char>(e.ch),
            },
    {
        let mut tokens: Vec<Token> = Vec::new();
        proof {
            assert(spec_tokens(tokens@) =~= Seq::<TokenModel>::empty());
            assert(spec_tokens(tokens@) + spec_scan(self.remaining())->Ok_0 =~= spec_scan(
                self.remaining(),
            )->Ok_0);
        }
        loop
            invariant
                self.wf(),
                self.line == old(self).line,
                spec_scanned(spec_tokens(tokens@), spec_scan(self.remaining())) == spec_scan(
                    old(self).remaining(),
                ),
            decreases self.line@.len() - self.current,
        {
            let ghost before = *self;
            let ghost prefix = spec_tokens(tokens@);
            match self.scan_token() {
                Ok(t) => {
                    let is_eof = matches!(t, Token::Eof);
                    proof {
                        assert(spec_tokens(tokens@.push(t)) =~= spec_tokens(tokens@).push(t@));
                    }
                    tokens.push(t);
                    if is_eof {
                        proof {
                            assert(prefix + seq![TokenModel::Eof] =~= spec_tokens(tokens@));
                        }
                        return Ok(tokens);
                    }
                    proof {
                        lemma_scanned_step(prefix, tokens@[tokens@.len() - 1]@, spec_scan(
                            self.remaining(),
                        ));
                    }
                }
                Err(e) => {
                    return Err(e);
                }
            }
        }
    }
}

} // verus!
