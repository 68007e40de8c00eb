//! The scanner: a cursor over a character buffer that hands out one token
//! per call until the input is exhausted.

use vstd::prelude::*;
use vstd::string::{StrSliceExecFns, StringExecFns};
use crate::token::{keyword_token, Token, TokenModel};

verus! {

// ---------------------------------------------------------------------------
// Character classes
// ---------------------------------------------------------------------------
/// Whitespace separates tokens and is never emitted: space, tab, and the
/// line-break characters (newlines may already be stripped at construction).
pub open spec fn is_whitespace_char(c: char) -> bool {
    c == ' ' || c == '\t' || c == '\n' || c == '\r'
}

/// What `char::is_alphabetic` returns: whether the character has the
/// Unicode `Alphabetic` property, a function of the character alone.
pub uninterp spec fn char_alphabetic(c: char) -> bool;

/// Relies on `char::is_alphabetic` of std: whether the character has the
/// Unicode `Alphabetic` property, decided by the character alone.
pub assume_specification[ char::is_alphabetic ](c: char) -> (r: bool)
    ensures
        r == char_alphabetic(c),
;

/// Characters an identifier may consist of: alphabetic characters and
/// underscores, with no digits permitted anywhere in an identifier.
pub open spec fn is_identifier_char(c: char) -> bool {
    char_alphabetic(c) || c == '_'
}

/// Characters an integer literal may consist of: ASCII digits only.
pub open spec fn is_digit_char(c: char) -> bool {
    48 <= c as u32 && c as u32 <= 57
}

/// The fixed single-character operator and delimiter set.
pub open spec fn is_symbol_char(c: char) -> bool {
    c == '=' || c == ';' || c == '(' || c == ')' || c == ',' || c == '+' || c == '-' || c == '!'
        || c == '*' || c == '/' || c == '<' || c == '>' || c == '{' || c == '}'
}

/// The tag each single-character operator or delimiter maps to.
pub open spec fn symbol_token(c: char) -> TokenModel {
    if c == '=' {
        TokenModel::Assign
    } else if c == ';' {
        TokenModel::Semicolon
    } else if c == '(' {
        TokenModel::LParen
    } else if c == ')' {
        TokenModel::RParen
    } else if c == ',' {
        TokenModel::Comma
    } else if c == '+' {
        TokenModel::Plus
    } else if c == '-' {
        TokenModel::Minus
    } else if c == '!' {
        TokenModel::Bang
    } else if c == '*' {
        TokenModel::Asterisk
    } else if c == '/' {
        TokenModel::Slash
    } else if c == '<' {
        TokenModel::LessThan
    } else if c == '>' {
        TokenModel::GreaterThan
    } else if c == '{' {
        TokenModel::LBrace
    } else {
        TokenModel::RBrace
    }
}

// ---------------------------------------------------------------------------
// The scanned language, as functions on character sequences
// ---------------------------------------------------------------------------
/// Whether a character may stand in the run being accumulated: a digit run
/// when `digits` is set, an identifier run otherwise.
pub open spec fn run_char(digits: bool, c: char) -> bool {
    if digits {
        is_digit_char(c)
    } else {
        is_identifier_char(c)
    }
}

/// The maximal prefix of `s` whose characters all may stand in the run:
/// accumulation is greedy and stops at the first other character without
/// consuming it.
pub open spec fn take_run(digits: bool, s: Seq<char>) -> Seq<char>
    decreases s.len(),
{
    if s.len() == 0 || !run_char(digits, s[0]) {
        Seq::empty()
    } else {
        seq![s[0]] + take_run(digits, s.skip(1))
    }
}

/// The maximal ASCII-digit prefix of `s`: the text of an integer literal
/// that starts at the head of `s`.
pub open spec fn take_digits(s: Seq<char>) -> Seq<char> {
    take_run(true, s)
}

/// The maximal identifier-character prefix of `s`: the text of an
/// identifier lexeme that starts at the head of `s`.
pub open spec fn take_identifier(s: Seq<char>) -> Seq<char> {
    take_run(false, s)
}

/// `s` without its leading run of whitespace.
pub open spec fn skip_ws(s: Seq<char>) -> Seq<char>
    decreases s.len(),
{
    if s.len() == 0 || !is_whitespace_char(s[0]) {
        s
    } else {
        skip_ws(s.skip(1))
    }
}

/// `s` with every newline character removed, as construction does.
pub open spec fn strip_newlines(s: Seq<char>) -> Seq<char>
    decreases s.len(),
{
    if s.len() == 0 {
        Seq::empty()
    } else if s[0] == '\n' {
        strip_newlines(s.skip(1))
    } else {
        seq![s[0]] + strip_newlines(s.skip(1))
    }
}

/// The token that starts at the head of `s`, for nonempty `s` that does not
/// start with whitespace.  The two-character operators `==` and `!=` are
/// checked before the single-character fallback for `=` and `!`; digit and
/// identifier runs are maximal; any unrecognized character is `Illegal`.
pub open spec fn first_token(s: Seq<char>) -> TokenModel {
    if s.len() == 0 {
        TokenModel::Illegal
    } else if s[0] == '=' && s.len() >= 2 && s[1] == '=' {
        TokenModel::Equal
    } else if s[0] == '!' && s.len() >= 2 && s[1] == '=' {
        TokenModel::NotEqual
    } else if is_symbol_char(s[0]) {
        symbol_token(s[0])
    } else if is_digit_char(s[0]) {
        TokenModel::IntegerLiteral(take_digits(s))
    } else if is_identifier_char(s[0]) {
        keyword_token(take_identifier(s))
    } else {
        TokenModel::Illegal
    }
}

/// How many characters the token at the head of `s` consumes.
pub open spec fn first_token_len(s: Seq<char>) -> nat {
    if s.len() == 0 {
        1
    } else if (s[0] == '=' && s.len() >= 2 && s[1] == '=') || (s[0] == '!' && s.len() >= 2 && s[1]
        == '=') {
        2
    } else if is_symbol_char(s[0]) {
        1
    } else if is_digit_char(s[0]) {
        take_digits(s).len()
    } else if is_identifier_char(s[0]) {
        take_identifier(s).len()
    } else {
        1
    }
}

/// The whole token stream of `s`: skip whitespace, emit the first token,
/// and continue after it, until only whitespace (or nothing) is left.
pub open spec fn scan(s: Seq<char>) -> Seq<TokenModel>
    decreases s.len(),
    via scan_decreases
{
    let t = skip_ws(s);
    if t.len() == 0 {
        Seq::empty()
    } else {
        seq![first_token(t)] + scan(t.skip(first_token_len(t) as int))
    }
}

#[via_fn]
proof fn scan_decreases(s: Seq<char>) {
    lemma_skip_ws_shape(s);
    let t = skip_ws(s);
    if t.len() != 0 {
        lemma_take_run_maximal(true, t);
        lemma_take_run_maximal(false, t);
        assert(1 <= first_token_len(t) <= t.len());
    }
}

// ---------------------------------------------------------------------------
// Facts about the spec functions
// ---------------------------------------------------------------------------
/// Skipping whitespace yields a suffix no longer than the input whose head,
/// if any, is not whitespace.
pub proof fn lemma_skip_ws_shape(s: Seq<char>)
    ensures
        skip_ws(s).len() <= s.len(),
        skip_ws(s).len() > 0 ==> !is_whitespace_char(skip_ws(s)[0]),
    decreases s.len(),
{
    if s.len() == 0 || !is_whitespace_char(s[0]) {
    } else {
        lemma_skip_ws_shape(s.skip(1));
    }
}

/// Runs are maximal: `take_run` is the prefix of `s` up to the first
/// character that may not stand in the run, every character before that
/// point may, and a run that may start is never empty.
pub proof fn lemma_take_run_maximal(digits: bool, s: Seq<char>)
    ensures
        take_run(digits, s).len() <= s.len(),
        take_run(digits, s) == s.take(take_run(digits, s).len() as int),
        take_run(digits, s).len() < s.len() ==> !run_char(
            digits,
            s[take_run(digits, s).len() as int],
        ),
        forall|k: int| 0 <= k < take_run(digits, s).len() ==> run_char(digits, s[k]),
        s.len() > 0 && run_char(digits, s[0]) ==> take_run(digits, s).len() >= 1,
    decreases s.len(),
{
    if s.len() == 0 || !run_char(digits, s[0]) {
        assert(take_run(digits, s) =~= s.take(0));
    } else {
        lemma_take_run_maximal(digits, s.skip(1));
        let rest = take_run(digits, s.skip(1));
        assert(seq![s[0]] + rest =~= s.take(rest.len() + 1int));
        assert forall|k: int| 0 <= k < take_run(digits, s).len() implies run_char(
            digits,
            s[k],
        ) by {
            if k > 0 {
                assert(s[k] == s.skip(1)[k - 1]);
            }
        }
    }
}

// ---------------------------------------------------------------------------
// The scanner
// ---------------------------------------------------------------------------
/// The scanner: it owns the source buffer and a cursor consisting of
/// `position` (the index one past the character under the cursor), `ch`
/// (the character under the cursor, if any) and `next_ch` (the one
/// character of lookahead after it).
pub struct Lexer {
    pub input: String,
    pub position: usize,
    pub ch: Option<char>,
    pub next_ch: Option<char>,
}

impl Lexer {
    /// The source buffer, as the character sequence the cursor indexes.
    pub open spec fn buffer(self) -> Seq<char> {
        self.input@
    }

    /// The cursor invariant: while a character is under the cursor it is
    /// `buffer()[position - 1]` and the lookahead is the character after
    /// it; once the cursor has passed the end the scanner is in the one
    /// terminal state, from which nothing is ever read again.
    pub open spec fn wf(self) -> bool {
        match self.ch {
            Some(c) => {
                &&& 1 <= self.position <= self.buffer().len()
                &&& self.buffer()[self.position - 1] == c
                &&& self.next_ch == (if self.position < self.buffer().len() {
                    Some(self.buffer()[self.position as int])
                } else {
                    None::<char>
                })
            },
            None => {
                &&& self.buffer().len() == 0
                &&& self.position == 0
                &&& self.next_ch is None
            },
        }
    }

    /// The characters not yet consumed: the character under the cursor and
    /// everything after it.
    pub open spec fn remaining(self) -> Seq<char> {
        if self.ch is Some {
            self.buffer().skip(self.position - 1)
        } else {
            Seq::empty()
        }
    }

    /// Builds a scanner over the full source text, with every newline
    /// stripped, positioned on the first character.
    pub fn new(input: &str) -> (lexer: Lexer)
        ensures
            lexer.wf(),
            lexer.remaining() == strip_newlines(input@),
    {
        let n = input.unicode_len();
        let mut stripped = String::new();
        let mut i: usize = 0;
        while i < n
            invariant
                i <= n,
                n == input@.len(),
                stripped@ == strip_newlines(input@.take(i as int)),
            decreases n - i,
        {
            let c = input.get_char(i);
            proof {
                lemma_strip_newlines_concat(input@.take(i as int), seq![input@[i as int]]);
                lemma_strip_newlines_single(input@[i as int]);
                assert(input@.take(i + 1int) =~= input@.take(i as int) + seq![input@[i as int]]);
                assert(stripped@ + Seq::<char>::empty() =~= stripped@);
            }
            if c != '\n' {
                let piece = input.substring_char(i, i + 1);
                proof {
                    assert(piece@ =~= seq![input@[i as int]]);
                }
                stripped.append(piece);
            }
            i = i + 1;
        }
        proof {
            assert(input@.take(n as int) =~= input@);
        }
        let mut lexer = Lexer { input: stripped, position: 0, ch: None, next_ch: None };
        lexer.read_char();
        proof {
            if lexer.ch is Some {
                assert(lexer.remaining() =~= lexer.buffer());
            }
        }
        lexer
    }

    /// Advances the cursor by one character.  Past the end of the buffer it
    /// resets the scanner to the terminal state (dropping the buffer) and
    /// stays there: every later read still finds nothing.
    pub fn read_char(&mut self)
        ensures
            old(self).position < old(self).buffer().len() ==> {
                &&& final(self).buffer() == old(self).buffer()
                &&& final(self).position == old(self).position + 1
                &&& final(self).ch == Some(old(self).buffer()[old(self).position as int])
                &&& final(self).next_ch == (if old(self).position + 1 < old(self).buffer().len() {
                    Some(old(self).buffer()[old(self).position + 1])
                } else {
                    None::<char>
                })
            },
            old(self).position >= old(self).buffer().len() ==> {
                &&& final(self).buffer().len() == 0
                &&& final(self).position == 0
                &&& final(self).ch is None
                &&& final(self).next_ch is None
            },
            old(self).wf() ==> final(self).wf(),
            old(self).wf() && old(self).ch is Some ==> final(self).remaining() == old(
                self,
            ).remaining().skip(1),
    {
        let n = self.input.as_str().unicode_len();
        if self.position < n {
            let c = self.input.as_str().get_char(self.position);
            self.ch = Some(c);
            self.position = self.position + 1;
            if self.position < n {
                self.next_ch = Some(self.input.as_str().get_char(self.position));
            } else {
                self.next_ch = None;
            }
        } else {
            self.input = String::new();
            self.position = 0;
            self.ch = None;
            self.next_ch = None;
        }
        proof {
            if old(self).wf() && old(self).ch is Some {
                assert(self.remaining() =~= old(self).remaining().skip(1));
            }
        }
    }
}

impl Lexer {
    /// Whether `ch` may stand anywhere in an identifier: alphabetic or an
    /// underscore; digits are not permitted inside identifiers.
    pub fn is_char_valid_identifier(ch: char) -> (r: bool)
        ensures
            r == is_identifier_char(ch),
    {
        ch.is_alphabetic() || ch == '_'
    }

    /// Whether `ch` may stand in an integer literal: an ASCII digit.
    pub fn is_char_valid_integer(ch: char) -> (r: bool)
        ensures
            r == is_digit_char(ch),
    {
        let u = ch as u32;
        48 <= u && u <= 57
    }

    /// Advances the cursor past the run of whitespace under it, if any.
    /// Whitespace is never emitted as a token.
    pub fn skip_whitespace(&mut self)
        requires
            old(self).wf(),
        ensures
            final(self).wf(),
            final(self).remaining() == skip_ws(old(self).remaining()),
    {
        loop
            invariant
                self.wf(),
                skip_ws(self.remaining()) == skip_ws(old(self).remaining()),
            ensures
                self.wf(),
                self.remaining() == skip_ws(old(self).remaining()),
            decreases self.remaining().len(),
        {
            match self.ch {
                Some(c) => {
                    if !is_whitespace_exec(c) {
                        proof {
                            assert(self.remaining()[0] == c);
                        }
                        break ;
                    }
                },
                None => {
                    break ;
                },
            }
            proof {
                assert(self.remaining()[0] == self.ch->0);
            }
            self.read_char();
        }
    }
}

impl Lexer {
    /// Accumulates the maximal run under the cursor — digits when `digits`
    /// is set, identifier characters otherwise — and leaves the cursor on
    /// the first character after the run without consuming it.
    fn read_run(&mut self, digits: bool) -> (res: String)
        requires
            old(self).wf(),
        ensures
            final(self).wf(),
            res@ == take_run(digits, old(self).remaining()),
            final(self).remaining() == old(self).remaining().skip(res@.len() as int),
    {
        proof {
            lemma_take_run_maximal(digits, old(self).remaining());
        }
        match self.ch {
            None => {
                proof {
                    assert(old(self).remaining().skip(0) =~= old(self).remaining());
                }
                return String::new();
            },
            Some(_) => {},
        }
        let ghost inp0 = self.buffer();
        let ghost rem0 = self.remaining();
        let start = self.position - 1;
        let n = self.input.as_str().unicode_len();
        let mut end = start;
        proof {
            assert(rem0 =~= inp0.skip(start as int));
        }
        loop
            invariant
                self == old(self),
                self.wf(),
                self.ch is Some,
                inp0 == self.buffer(),
                start == self.position - 1,
                start <= end <= n,
                n == inp0.len(),
                forall|k: int| start <= k < end ==> run_char(digits, inp0[k]),
            ensures
                start <= end <= n,
                forall|k: int| start <= k < end ==> run_char(digits, inp0[k]),
                end == n || !run_char(digits, inp0[end as int]),
            decreases n - end,
        {
            if end == n {
                break ;
            }
            let c = self.input.as_str().get_char(end);
            let ok = if digits {
                Lexer::is_char_valid_integer(c)
            } else {
                Lexer::is_char_valid_identifier(c)
            };
            if !ok {
                break ;
            }
            end = end + 1;
        }
        let sub = self.input.as_str().substring_char(start, end);
        let res = sub.to_owned();
        proof {
            let j = end - start;
            assert(res@ =~= rem0.take(j as int));
            assert forall|k: int| 0 <= k < j implies run_char(digits, rem0[k]) by {
                assert(rem0[k] == inp0[start + k]);
            }
            if j < rem0.len() {
                assert(rem0[j as int] == inp0[end as int]);
            }
            let r = take_run(digits, rem0);
            if r.len() < j {
                assert(run_char(digits, rem0[r.len() as int]));
            }
            if j < r.len() {
                assert(run_char(digits, rem0[j as int]));
            }
            assert(r.len() == j);
            assert(res@ == r);
        }
        let mut k = start;
        while k < end
            invariant
                start <= k <= end <= n,
                n == inp0.len(),
                rem0 == inp0.skip(start as int),
                self.wf(),
                k < end ==> self.buffer() == inp0 && self.position == k + 1,
                self.remaining() == rem0.skip(k - start),
            decreases end - k,
        {
            proof {
                assert(rem0.skip(k - start).len() == rem0.len() - (k - start));
            }
            self.read_char();
            proof {
                assert(rem0.skip(k - start).skip(1) =~= rem0.skip(k + 1 - start));
            }
            k = k + 1;
        }
        proof {
            assert(self.remaining() == rem0.skip(res@.len() as int));
        }
        res
    }

    /// Accumulates the maximal identifier run under the cursor: alphabetic
    /// characters and underscores, stopping at the first other character
    /// without consuming it.
    pub fn read_identifier(&mut self) -> (res: String)
        requires
            old(self).wf(),
        ensures
            final(self).wf(),
            res@ == take_identifier(old(self).remaining()),
            final(self).remaining() == old(self).remaining().skip(res@.len() as int),
    {
        self.read_run(false)
    }

    /// Accumulates the maximal run of ASCII digits under the cursor,
    /// stopping at the first non-digit without consuming it.
    pub fn read_number(&mut self) -> (res: String)
        requires
            old(self).wf(),
        ensures
            final(self).wf(),
            res@ == take_digits(old(self).remaining()),
            final(self).remaining() == old(self).remaining().skip(res@.len() as int),
    {
        self.read_run(true)
    }
}

impl Lexer {
    /// Hands out the next token: skips whitespace, classifies the lexeme
    /// under the cursor, consumes exactly its characters, and returns its
    /// token — or `None` once the input is exhausted, and on every call
    /// after that.
    ///
    /// The token stream this produces is `scan` of the unconsumed input:
    /// the returned token is the head of `scan(remaining)` and the scanner
    /// is left holding exactly its tail.
    pub fn next_token(&mut self) -> (res: Option<Token>)
        requires
            old(self).wf(),
        ensures
            final(self).wf(),
            ({
                let rem = skip_ws(old(self).remaining());
                match res {
                    None => rem.len() == 0 && final(self).remaining().len() == 0,
                    Some(tok) => {
                        &&& rem.len() > 0
                        &&& tok@ == first_token(rem)
                        &&& final(self).remaining() == rem.skip(first_token_len(rem) as int)
                    },
                }
            }),
            scan(old(self).remaining()) == (match res {
                None => Seq::<TokenModel>::empty(),
                Some(tok) => seq![tok@] + scan(final(self).remaining()),
            }),
            old(self).remaining().len() == 0 ==> res is None && final(self).remaining().len() == 0,
    {
        self.skip_whitespace();
        let ghost rem = skip_ws(old(self).remaining());
        let c = match self.ch {
            None => {
                return None;
            },
            Some(c) => c,
        };
        proof {
            assert(rem[0] == c);
            assert(rem.len() >= 2 ==> rem[1] == self.next_ch->0 && self.next_ch is Some);
            assert(rem.len() < 2 ==> self.next_ch is None);
        }
        let next_is_eq = match self.next_ch {
            Some(nc) => nc == '=',
            None => false,
        };
        let tok: Token;
        if c == '=' && next_is_eq {
            self.read_char();
            tok = Token::Equal;
        } else if c == '!' && next_is_eq {
            self.read_char();
            tok = Token::NotEqual;
        } else if c == '=' {
            tok = Token::Assign;
        } else if c == ';' {
            tok = Token::Semicolon;
        } else if c == '(' {
            tok = Token::LParen;
        } else if c == ')' {
            tok = Token::RParen;
        } else if c == ',' {
            tok = Token::Comma;
        } else if c == '+' {
            tok = Token::Plus;
        } else if c == '-' {
            tok = Token::Minus;
        } else if c == '!' {
            tok = Token::Bang;
        } else if c == '*' {
            tok = Token::Asterisk;
        } else if c == '/' {
            tok = Token::Slash;
        } else if c == '<' {
            tok = Token::LessThan;
        } else if c == '>' {
            tok = Token::GreaterThan;
        } else if c == '{' {
            tok = Token::LBrace;
        } else if c == '}' {
            tok = Token::RBrace;
        } else if Lexer::is_char_valid_integer(c) {
            let text = self.read_number();
            proof {
                lemma_take_run_maximal(true, rem);
            }
            return Some(Token::IntegerLiteral(text));
        } else if Lexer::is_char_valid_identifier(c) {
            let text = self.read_identifier();
            proof {
                lemma_take_run_maximal(false, rem);
            }
            return Some(Token::lookup_ident(text.as_str()));
        } else {
            tok = Token::Illegal;
        }
        self.read_char();
        proof {
            if first_token_len(rem) == 2 {
                assert(rem.skip(1).skip(1) =~= rem.skip(2));
            }
        }
        Some(tok)
    }
}

/// Every character of `s` is one of the fixed single-character operators
/// and delimiters.
pub open spec fn all_symbol_chars(s: Seq<char>) -> bool {
    forall|i: int| 0 <= i < s.len() ==> is_symbol_char(s[i])
}

/// No position of `s` starts one of the two-character operators `==` or
/// `!=`.
pub open spec fn no_compound_operator(s: Seq<char>) -> bool {
    forall|i: int|
        #![trigger s[i], s[i + 1]]
        0 <= i && i + 1 < s.len() ==> !(s[i + 1] == '=' && (s[i] == '=' || s[i] == '!'))
}

/// On input consisting solely of the fixed single-character symbol set —
/// with no position starting `==` or `!=`, which the two-character lookahead
/// folds into one token instead — the token stream is the symbol-to-tag
/// mapping applied positionally, in order.
pub proof fn lemma_symbol_stream_positional(s: Seq<char>)
    requires
        all_symbol_chars(s),
        no_compound_operator(s),
    ensures
        scan(s).len() == s.len(),
        forall|i: int| 0 <= i < s.len() ==> scan(s)[i] == symbol_token(s[i]),
    decreases s.len(),
{
    if s.len() == 0 {
    } else {
        assert(is_symbol_char(s[0]));
        assert(!is_whitespace_char(s[0]));
        assert(skip_ws(s) == s);
        assert(s.len() >= 2 ==> !(s[1] == '=' && (s[0] == '=' || s[0] == '!')));
        assert(first_token(s) == symbol_token(s[0]));
        assert(first_token_len(s) == 1);
        assert forall|i: int| 0 <= i < s.skip(1).len() implies is_symbol_char(s.skip(1)[i]) by {
            assert(s.skip(1)[i] == s[i + 1]);
        }
        assert forall|i: int|
            #![trigger s.skip(1)[i], s.skip(1)[i + 1]]
            0 <= i && i + 1 < s.skip(1).len() implies !(s.skip(1)[i + 1] == '=' && (s.skip(1)[i]
            == '=' || s.skip(1)[i] == '!')) by {
            assert(s.skip(1)[i] == s[i + 1]);
            assert(s.skip(1)[i + 1] == s[i + 2]);
        }
        lemma_symbol_stream_positional(s.skip(1));
        assert(scan(s) == seq![symbol_token(s[0])] + scan(s.skip(1)));
        assert forall|i: int| 0 <= i < s.len() implies scan(s)[i] == symbol_token(s[i]) by {
            if i > 0 {
                assert(scan(s.skip(1))[i - 1] == symbol_token(s.skip(1)[i - 1]));
                assert(s.skip(1)[i - 1] == s[i]);
            }
        }
    }
}

/// Skipping leading whitespace is never observable in the token stream:
/// scanning a sequence and scanning it with its leading whitespace removed
/// produce the same tokens.
pub proof fn lemma_scan_ignores_leading_whitespace(s: Seq<char>)
    ensures
        scan(s) == scan(skip_ws(s)),
{
    lemma_skip_ws_shape(s);
    let t = skip_ws(s);
    if t.len() == 0 {
        assert(skip_ws(t) == t);
    } else {
        assert(!is_whitespace_char(t[0]));
        assert(skip_ws(t) == t);
    }
}

/// A token that starts with a digit is the maximal digit run: its text is
/// the longest all-digit prefix, scanning resumes exactly at the first
/// non-digit, and no character is dropped or duplicated.
pub proof fn lemma_digit_run_first(s: Seq<char>)
    requires
        s.len() > 0,
        is_digit_char(s[0]),
    ensures
        first_token(s) == TokenModel::IntegerLiteral(take_digits(s)),
        first_token_len(s) == take_digits(s).len(),
        1 <= take_digits(s).len() <= s.len(),
        take_digits(s) == s.take(take_digits(s).len() as int),
        take_digits(s).len() < s.len() ==> !is_digit_char(s[take_digits(s).len() as int]),
{
    assert(!is_symbol_char(s[0]));
    lemma_take_run_maximal(true, s);
}

/// Whether `c` is whitespace: space, tab, or a line-break character.
fn is_whitespace_exec(c: char) -> (r: bool)
    ensures
        r == is_whitespace_char(c),
{
    c == ' ' || c == '\t' || c == '\n' || c == '\r'
}

/// Stripping newlines removes a newline and keeps any other character.
pub proof fn lemma_strip_newlines_single(c: char)
    ensures
        strip_newlines(seq![c]) == if c == '\n' {
            Seq::<char>::empty()
        } else {
            seq![c]
        },
{
    assert(seq![c].skip(1) =~= Seq::<char>::empty());
    assert(strip_newlines(Seq::<char>::empty()) =~= Seq::<char>::empty());
    if c != '\n' {
        assert(seq![c] + Seq::<char>::empty() =~= seq![c]);
    }
}

/// Stripping newlines distributes over concatenation.
pub proof fn lemma_strip_newlines_concat(a: Seq<char>, b: Seq<char>)
    ensures
        strip_newlines(a + b) == strip_newlines(a) + strip_newlines(b),
    decreases a.len(),
{
    if a.len() == 0 {
        assert(a + b =~= b);
        assert(strip_newlines(a) + strip_newlines(b) =~= strip_newlines(b));
    } else {
        lemma_strip_newlines_concat(a.skip(1), b);
        assert((a + b).skip(1) =~= a.skip(1) + b);
        assert((a + b)[0] == a[0]);
        if a[0] == '\n' {
        } else {
            assert(seq![a[0]] + (strip_newlines(a.skip(1)) + strip_newlines(b)) =~= (seq![a[0]]
                + strip_newlines(a.skip(1))) + strip_newlines(b));
        }
    }
}

} // verus!
