//! Lexical scanner: raw text to a sequence of tokens.
//!
//! The scanner walks the input left to right, skips whitespace, and at every
//! other position takes the longest match among: a numeric literal (digits
//! with an optional decimal point and further digits), a parenthesis, a
//! comma, an external-call name (a letter, then letters or digits,
//! immediately followed by `(`, which is consumed with the name), or a
//! single-character operator.  A position where none of these matches makes
//! the whole line a lexical error.

use vstd::prelude::*;
use vstd::string::StrSliceExecFns;
use vstd::string::StringExecFns;

verus! {

// ----------------------------------------------------------------------
// Character classes
// ----------------------------------------------------------------------

pub open spec fn spec_is_digit(c: char) -> bool {
    '0' <= c && c <= '9'
}

/// Decimal digit.
#[verifier::when_used_as_spec(spec_is_digit)]
pub fn is_digit(c: char) -> (b: bool)
    ensures
        b == spec_is_digit(c),
{
    '0' <= c && c <= '9'
}

pub open spec fn spec_is_alpha(c: char) -> bool {
    ('a' <= c && c <= 'z') || ('A' <= c && c <= 'Z')
}

/// ASCII letter, the first character of an external-call name.
#[verifier::when_used_as_spec(spec_is_alpha)]
pub fn is_alpha(c: char) -> (b: bool)
    ensures
        b == spec_is_alpha(c),
{
    ('a' <= c && c <= 'z') || ('A' <= c && c <= 'Z')
}

pub open spec fn spec_is_alnum(c: char) -> bool {
    spec_is_alpha(c) || spec_is_digit(c)
}

/// Letter or digit, the later characters of an external-call name.
#[verifier::when_used_as_spec(spec_is_alnum)]
pub fn is_alnum(c: char) -> (b: bool)
    ensures
        b == spec_is_alnum(c),
{
    is_alpha(c) || is_digit(c)
}

pub open spec fn spec_is_space(c: char) -> bool {
    c == ' ' || c == '\t' || c == '\r' || c == '\n'
}

/// Whitespace, skipped silently between tokens.
#[verifier::when_used_as_spec(spec_is_space)]
pub fn is_space(c: char) -> (b: bool)
    ensures
        b == spec_is_space(c),
{
    c == ' ' || c == '\t' || c == '\r' || c == '\n'
}

pub open spec fn spec_is_operator(c: char) -> bool {
    c == '+' || c == '-' || c == '*' || c == '/' || c == '^'
}

/// One of the five operator characters.
#[verifier::when_used_as_spec(spec_is_operator)]
pub fn is_operator(c: char) -> (b: bool)
    ensures
        b == spec_is_operator(c),
{
    c == '+' || c == '-' || c == '*' || c == '/' || c == '^'
}

// ----------------------------------------------------------------------
// Tokens and their mathematical model
// ----------------------------------------------------------------------

/// One lexical unit.  A numeric literal keeps its digit text; the external
/// token keeps the call name without the `(` that the scanner consumed with
/// it.
#[derive(Debug, PartialEq)]
pub enum Token {
    LeftPar,
    RightPar,
    Number(String),
    Operator(char),
    Comma,
    External(String),
}

/// The model of a [`Token`], with character sequences for the text fields.
pub enum TokenModel {
    LeftPar,
    RightPar,
    Number { text: Seq<char> },
    Operator { op: char },
    Comma,
    External { name: Seq<char> },
}

impl DeepView for Token {
    type V = TokenModel;

    open spec fn deep_view(&self) -> TokenModel {
        match self {
            Token::LeftPar => TokenModel::LeftPar,
            Token::RightPar => TokenModel::RightPar,
            Token::Number(s) => TokenModel::Number { text: s@ },
            Token::Operator(c) => TokenModel::Operator { op: *c },
            Token::Comma => TokenModel::Comma,
            Token::External(s) => TokenModel::External { name: s@ },
        }
    }
}

/// A numeric literal: one or more digits, optionally followed by a decimal
/// point and further digits.
pub open spec fn valid_number_text(s: Seq<char>) -> bool {
    &&& s.len() > 0
    &&& spec_is_digit(s[0])
    &&& {
        let d = digit_run(s);
        ||| d == s.len()
        ||| (d < s.len() && s[d as int] == '.' && forall|k: int|
            d < k < s.len() ==> spec_is_digit(#[trigger] s[k]))
    }
}

/// An external-call name: a letter, then letters or digits.
pub open spec fn valid_name_text(s: Seq<char>) -> bool {
    &&& s.len() > 0
    &&& spec_is_alpha(s[0])
    &&& forall|k: int| 0 < k < s.len() ==> spec_is_alnum(#[trigger] s[k])
}

/// A token the scanner could have produced.
pub open spec fn token_wf(t: TokenModel) -> bool {
    match t {
        TokenModel::Number { text } => valid_number_text(text),
        TokenModel::Operator { op } => spec_is_operator(op),
        TokenModel::External { name } => valid_name_text(name),
        _ => true,
    }
}

/// Lexical failure: `pos` is the index (in characters) of the first input
/// position that no token pattern matches.
#[derive(Debug, PartialEq, Eq, Structural)]
pub struct LexError {
    pub pos: usize,
}

// ----------------------------------------------------------------------
// The scan, as a specification
// ----------------------------------------------------------------------

/// Length of the run of digits at the front of `s`.
pub open spec fn digit_run(s: Seq<char>) -> nat
    decreases s.len(),
{
    if s.len() > 0 && spec_is_digit(s[0]) {
        1 + digit_run(s.skip(1))
    } else {
        0
    }
}

/// Length of the run of letters and digits at the front of `s`.
pub open spec fn alnum_run(s: Seq<char>) -> nat
    decreases s.len(),
{
    if s.len() > 0 && spec_is_alnum(s[0]) {
        1 + alnum_run(s.skip(1))
    } else {
        0
    }
}

/// Length of the numeric literal at the front of `s` (zero when `s` does not
/// start with a digit): the digit run, plus a decimal point and a second
/// digit run when the point directly follows the first run.
pub open spec fn number_run(s: Seq<char>) -> nat {
    let d = digit_run(s);
    if d < s.len() && s[d as int] == '.' {
        (d + 1 + digit_run(s.skip(d as int + 1))) as nat
    } else {
        d
    }
}

/// The longest token at the front of `s` together with the count of
/// characters it consumes, or `None` when no pattern matches.  The consumed
/// count of an external token includes the `(` after the name.
pub open spec fn scan_token(s: Seq<char>) -> Option<(TokenModel, nat)> {
    if s.len() == 0 {
        None
    } else if spec_is_digit(s[0]) {
        let n = number_run(s);
        Some((TokenModel::Number { text: s.take(n as int) }, n))
    } else if s[0] == '(' {
        Some((TokenModel::LeftPar, 1))
    } else if s[0] == ')' {
        Some((TokenModel::RightPar, 1))
    } else if s[0] == ',' {
        Some((TokenModel::Comma, 1))
    } else if spec_is_operator(s[0]) {
        Some((TokenModel::Operator { op: s[0] }, 1))
    } else if spec_is_alpha(s[0]) {
        let n = alnum_run(s);
        if n < s.len() && s[n as int] == '(' {
            Some((TokenModel::External { name: s.take(n as int) }, (n + 1) as nat))
        } else {
            None
        }
    } else {
        None
    }
}

/// The whole scan: the token sequence of `s`, or the index of the first
/// position where no pattern matches.
pub open spec fn spec_tokenize(s: Seq<char>) -> Result<Seq<TokenModel>, nat>
    decreases s.len(),
{
    if s.len() == 0 {
        Ok(Seq::empty())
    } else if spec_is_space(s[0]) {
        match spec_tokenize(s.skip(1)) {
            Ok(ts) => Ok(ts),
            Err(p) => Err((p + 1) as nat),
        }
    } else {
        match scan_token(s) {
            Some((t, n)) => if 1 <= n <= s.len() {
                match spec_tokenize(s.skip(n as int)) {
                    Ok(ts) => Ok(seq![t] + ts),
                    Err(p) => Err((p + n) as nat),
                }
            } else {
                // unreachable: a matched token consumes at least one and at
                // most all of the remaining characters
                Err(0nat)
            },
            None => Err(0nat),
        }
    }
}

// ----------------------------------------------------------------------
// The scan, executable
// ----------------------------------------------------------------------

/// First index at or after `start` that does not hold a digit.
fn scan_digits(input: &str, start: usize) -> (j: usize)
    requires
        start as int <= input@.len(),
    ensures
        start <= j,
        j as int <= input@.len(),
        j - start == digit_run(input@.skip(start as int)),
{
    let n = input.unicode_len();
    let mut i: usize = start;
    while i < n && is_digit(input.get_char(i))
        invariant
            start <= i,
            i as int <= input@.len(),
            n == input@.len(),
            digit_run(input@.skip(start as int)) == (i - start) + digit_run(input@.skip(i as int)),
        decreases n - i,
    {
        proof {
            assert(input@.skip(i as int)[0] == input@[i as int]);
            assert(input@.skip(i as int).skip(1) =~= input@.skip(i as int + 1));
        }
        i = i + 1;
    }
    proof {
        assert(digit_run(input@.skip(i as int)) == 0);
    }
    i
}

/// First index at or after `start` that does not hold a letter or digit.
fn scan_alnums(input: &str, start: usize) -> (j: usize)
    requires
        start as int <= input@.len(),
    ensures
        start <= j,
        j as int <= input@.len(),
        j - start == alnum_run(input@.skip(start as int)),
{
    let n = input.unicode_len();
    let mut i: usize = start;
    while i < n && is_alnum(input.get_char(i))
        invariant
            start <= i,
            i as int <= input@.len(),
            n == input@.len(),
            alnum_run(input@.skip(start as int)) == (i - start) + alnum_run(input@.skip(i as int)),
        decreases n - i,
    {
        proof {
            assert(input@.skip(i as int)[0] == input@[i as int]);
            assert(input@.skip(i as int).skip(1) =~= input@.skip(i as int + 1));
        }
        i = i + 1;
    }
    proof {
        assert(alnum_run(input@.skip(i as int)) == 0);
    }
    i
}

/// The longest token at position `i`, with the index just after it.
fn scan_token_at(input: &str, i: usize) -> (r: Option<(Token, usize)>)
    requires
        (i as int) < input@.len(),
        !spec_is_space(input@[i as int]),
    ensures
        match r {
            Some((t, j)) => i < j && j as int <= input@.len() && scan_token(
                input@.skip(i as int),
            ) == Some::<(TokenModel, nat)>((t.deep_view(), (j - i) as nat)),
            None => scan_token(input@.skip(i as int)) is None,
        },
{
    let ghost s = input@.skip(i as int);
    proof {
        assert(s[0] == input@[i as int]);
    }
    let n = input.unicode_len();
    let c = input.get_char(i);
    if is_digit(c) {
        let j = scan_digits(input, i);
        proof {
            assert(digit_run(s) >= 1);
            assert(j > i);
        }
        let end: usize;
        if j < n && input.get_char(j) == '.' {
            let k = scan_digits(input, j + 1);
            proof {
                assert(s.skip((j - i) as int + 1) =~= input@.skip(j as int + 1));
                assert(number_run(s) == (j - i) + 1 + digit_run(input@.skip(j as int + 1)));
            }
            end = k;
        } else {
            proof {
                assert(number_run(s) == digit_run(s));
            }
            end = j;
        }
        let text = input.substring_char(i, end);
        proof {
            assert(s.take((end - i) as int) =~= input@.subrange(i as int, end as int));
        }
        Some((Token::Number(String::from_str(text)), end))
    } else if c == '(' {
        Some((Token::LeftPar, i + 1))
    } else if c == ')' {
        Some((Token::RightPar, i + 1))
    } else if c == ',' {
        Some((Token::Comma, i + 1))
    } else if is_operator(c) {
        Some((Token::Operator(c), i + 1))
    } else if is_alpha(c) {
        let j = scan_alnums(input, i);
        proof {
            assert(alnum_run(s) >= 1);
            assert(j > i);
        }
        if j < n && input.get_char(j) == '(' {
            let text = input.substring_char(i, j);
            proof {
                assert(s.take((j - i) as int) =~= input@.subrange(i as int, j as int));
            }
            Some((Token::External(String::from_str(text)), j + 1))
        } else {
            None
        }
    } else {
        None
    }
}

/// Prefixing a scanned tail with already-scanned tokens: the tokens go in
/// front, an error position moves by the characters already consumed.
pub open spec fn scan_prepend(
    pre: Seq<TokenModel>,
    r: Result<Seq<TokenModel>, nat>,
    off: nat,
) -> Result<Seq<TokenModel>, nat> {
    match r {
        Ok(ts) => Ok(pre + ts),
        Err(p) => Err((p + off) as nat),
    }
}

/// Scan a whole line.  Returns the token sequence exactly when
/// [`spec_tokenize`] does, and otherwise the position it fails at.
pub fn tokenize(input: &str) -> (r: Result<Vec<Token>, LexError>)
    ensures
        match r {
            Ok(toks) => spec_tokenize(input@) == Ok::<Seq<TokenModel>, nat>(toks.deep_view()),
            Err(e) => spec_tokenize(input@) == Err::<Seq<TokenModel>, nat>(e.pos as nat),
        },
{
    let n = input.unicode_len();
    let mut toks: Vec<Token> = Vec::new();
    let mut i: usize = 0;
    proof {
        assert(input@.skip(0) =~= input@);
        assert(toks.deep_view() =~= Seq::<TokenModel>::empty());
    }
    while i < n
        invariant
            i as int <= input@.len(),
            n == input@.len(),
            spec_tokenize(input@) == scan_prepend(
                toks.deep_view(),
                spec_tokenize(input@.skip(i as int)),
                i as nat,
            ),
        decreases n - i,
    {
        let ghost s = input@.skip(i as int);
        let ghost pre = toks.deep_view();
        proof {
            assert(s[0] == input@[i as int]);
        }
        let c = input.get_char(i);
        if is_space(c) {
            proof {
                assert(s.skip(1) =~= input@.skip(i as int + 1));
            }
            i = i + 1;
        } else {
            match scan_token_at(input, i) {
                Some((t, j)) => {
                    proof {
                        assert(s.skip((j - i) as int) =~= input@.skip(j as int));
                    }
                    toks.push(t);
                    proof {
                        assert(toks.deep_view() =~= pre + seq![t.deep_view()]);
                        assert forall|rest: Seq<TokenModel>|
                            pre + (seq![t.deep_view()] + rest) == (pre + seq![t.deep_view()])
                                + rest by {
                            assert(pre + (seq![t.deep_view()] + rest) =~= (pre + seq![
                                t.deep_view(),
                            ]) + rest);
                        }
                    }
                    i = j;
                },
                None => {
                    proof {
                        assert(spec_tokenize(s) == Err::<Seq<TokenModel>, nat>(0nat));
                    }
                    return Err(LexError { pos: i });
                },
            }
        }
    }
    proof {
        assert(input@.skip(i as int) =~= Seq::<char>::empty());
        assert(spec_tokenize(input@.skip(i as int)) == Ok::<Seq<TokenModel>, nat>(
            Seq::<TokenModel>::empty(),
        ));
        assert(toks.deep_view() + Seq::<TokenModel>::empty() =~= toks.deep_view());
    }
    Ok(toks)
}

} // verus!

verus! {

// ----------------------------------------------------------------------
// Rendering tokens back to text
// ----------------------------------------------------------------------

/// The text of one token.  A number or external token renders as the text
/// it carries (an external call's `(` is not restored); punctuation and
/// operators render as their single character.
pub open spec fn token_text(t: TokenModel) -> Seq<char> {
    match t {
        TokenModel::Number { text } => text,
        TokenModel::LeftPar => seq!['('],
        TokenModel::RightPar => seq![')'],
        TokenModel::Comma => seq![','],
        TokenModel::Operator { op } => seq![op],
        TokenModel::External { name } => name,
    }
}

/// The text of a token sequence: the tokens' texts joined by single spaces.
pub open spec fn spec_render(ts: Seq<TokenModel>) -> Seq<char> {
    if ts.len() == 0 {
        Seq::empty()
    } else {
        token_text(ts[0]) + spec_render_rest(ts.skip(1))
    }
}

/// The text of every token of `ts`, each preceded by one space.
pub open spec fn spec_render_rest(ts: Seq<TokenModel>) -> Seq<char>
    decreases ts.len(),
{
    if ts.len() == 0 {
        Seq::empty()
    } else {
        seq![' '] + token_text(ts[0]) + spec_render_rest(ts.skip(1))
    }
}

/// Relies on String::push: appends exactly the one character.
#[verifier::external_body]
fn push_char(s: &mut String, c: char)
    ensures
        final(s)@ == old(s)@.push(c),
{
    s.push(c);
}

impl Token {
    /// The text of this token, as [`token_text`] gives it.
    pub fn to_text(&self) -> (r: String)
        ensures
            r@ == token_text(self.deep_view()),
    {
        match self {
            Token::Number(s) => s.clone(),
            Token::External(s) => s.clone(),
            Token::LeftPar => {
                let mut s = String::new();
                push_char(&mut s, '(');
                proof {
                    assert(s@ =~= seq!['(']);
                }
                s
            },
            Token::RightPar => {
                let mut s = String::new();
                push_char(&mut s, ')');
                proof {
                    assert(s@ =~= seq![')']);
                }
                s
            },
            Token::Comma => {
                let mut s = String::new();
                push_char(&mut s, ',');
                proof {
                    assert(s@ =~= seq![',']);
                }
                s
            },
            Token::Operator(c) => {
                let mut s = String::new();
                push_char(&mut s, *c);
                proof {
                    assert(s@ =~= seq![*c]);
                }
                s
            },
        }
    }
}

/// Render a token sequence as one line: the tokens' texts joined by single
/// spaces.
#[verifier::loop_isolation(false)]
pub fn render_tokens(tokens: &Vec<Token>) -> (r: String)
    ensures
        r@ == spec_render(tokens.deep_view()),
{
    let ghost full = tokens.deep_view();
    let n = tokens.len();
    let mut out = String::new();
    let mut i: usize = 0;
    proof {
        assert(out@ =~= Seq::<char>::empty());
        assert(full.skip(0) =~= full);
    }
    while i < n
        invariant
            i <= n,
            n == tokens@.len(),
            i == 0 ==> out@ =~= Seq::<char>::empty(),
            i > 0 ==> spec_render(full) == out@ + spec_render_rest(full.skip(i as int)),
        decreases n - i,
    {
        let ghost prev = out@;
        if i > 0 {
            push_char(&mut out, ' ');
        }
        let piece = tokens[i].to_text();
        out.append(piece.as_str());
        proof {
            assert(full.skip(i as int)[0] == full[i as int]);
            assert(full.skip(i as int).skip(1) =~= full.skip(i as int + 1));
            if i == 0 {
                assert(out@ =~= token_text(full[0]));
                assert(spec_render(full) == token_text(full[0]) + spec_render_rest(full.skip(1)));
            } else {
                assert(out@ =~= prev + seq![' '] + token_text(full[i as int]));
                assert(out@ + spec_render_rest(full.skip(i as int + 1)) =~= prev
                    + spec_render_rest(full.skip(i as int)));
            }
        }
        i = i + 1;
    }
    proof {
        assert(full.skip(i as int) =~= Seq::<TokenModel>::empty());
        if i > 0 {
            assert(out@ =~= out@ + spec_render_rest(full.skip(i as int)));
        }
    }
    out
}

} // verus!
