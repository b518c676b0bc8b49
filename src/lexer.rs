use vstd::prelude::*;
use vstd::slice::slice_subrange;
use vstd::string::*;

use crate::errors::{MakerError, MakerErrorType};

verus! {

use vstd::std_specs::iter::IteratorSpec;

/// The kinds of token the lexer produces.
#[derive(Debug, Clone, Copy, PartialEq, Eq, Structural)]
pub enum TokenType {
    Identifier,
    Number,
    String,
    Dot,
    Comma,
    Assign,
    OpenBrace,
    CloseBrace,
    OpenCurly,
    CloseCurly,
    Var,
    Do,
    End,
    If,
    Else,
    Equals,
    EOF,
}

/// One token: its text, its kind and where it was found.
#[derive(Debug, Clone)]
pub struct Token {
    pub value: String,
    pub token_type: TokenType,
    pub location: Location,
}

/// Where a token or node stands in the source text.
#[derive(Debug, Clone)]
pub struct Location {
    pub start: usize,
    pub end: usize,
    pub line: usize,
    pub context: String,
}

impl Location {
    /// The location used for errors that have no place in the source.
    pub fn no_location() -> (r: Location)
        ensures
            r.start == 0 && r.end == 0 && r.line == 0,
            r.context@ == "<unknown>"@,
            r@ == crate::errors::unknown_loc(),
    {
        proof {
            reveal_strlit("<unknown>");
        }
        Location { start: 0, end: 0, line: 0, context: "<unknown>".to_owned() }
    }
}

/// A token as a mathematical value, without its context label.
pub struct TokenSpec {
    pub text: Seq<char>,
    pub kind: TokenType,
    pub start: nat,
    pub end: nat,
    pub line: nat,
}

/// Why and where tokenization stopped.
pub struct LexFailure {
    pub message: Seq<char>,
    pub col: nat,
    pub line: nat,
}

pub type LexOutcome = Result<Seq<TokenSpec>, LexFailure>;

impl Token {
    pub open spec fn model(&self) -> TokenSpec {
        TokenSpec {
            text: self.value@,
            kind: self.token_type,
            start: self.location.start as nat,
            end: self.location.end as nat,
            line: self.location.line as nat,
        }
    }
}

/// Whether `char::is_alphabetic` holds of `c` (Unicode's Alphabetic property).
pub uninterp spec fn alphabetic(c: char) -> bool;

/// Whether `char::is_alphanumeric` holds of `c` (Unicode's Alphabetic or Numeric property).
pub uninterp spec fn alphanumeric(c: char) -> bool;

pub open spec fn is_blank(c: char) -> bool {
    c == ' ' || c == '\t' || c == '\r'
}

pub open spec fn is_digit(c: char) -> bool {
    '0' <= c && c <= '9'
}

/// The token kind of a one-character symbol.
pub open spec fn symbol_kind(c: char) -> Option<TokenType> {
    if c == '(' {
        Some(TokenType::OpenBrace)
    } else if c == ')' {
        Some(TokenType::CloseBrace)
    } else if c == '{' {
        Some(TokenType::OpenCurly)
    } else if c == '}' {
        Some(TokenType::CloseCurly)
    } else if c == '.' {
        Some(TokenType::Dot)
    } else if c == ',' {
        Some(TokenType::Comma)
    } else if c == '=' {
        Some(TokenType::Assign)
    } else {
        None
    }
}

/// The kind of a word: a reserved word's own kind, else `Identifier`.
pub open spec fn word_kind(text: Seq<char>) -> TokenType {
    if text == seq!['v', 'a', 'r'] {
        TokenType::Var
    } else if text == seq!['d', 'o'] {
        TokenType::Do
    } else if text == seq!['e', 'n', 'd'] {
        TokenType::End
    } else if text == seq!['i', 'f'] {
        TokenType::If
    } else if text == seq!['e', 'l', 's', 'e'] {
        TokenType::Else
    } else {
        TokenType::Identifier
    }
}

/// `prefix` followed by the tokens of `rest`, or the failure of `rest`.
pub open spec fn then(prefix: Seq<TokenSpec>, rest: LexOutcome) -> LexOutcome {
    match rest {
        Ok(tokens) => Ok(prefix + tokens),
        Err(f) => Err(f),
    }
}

pub open spec fn token(text: Seq<char>, kind: TokenType, start: nat, end: nat, line: nat) -> TokenSpec {
    TokenSpec { text, kind, start, end, line }
}

/// Tokenization of `s` from index `i`, at column `col` of line `line`.
/// `alpha[k]` and `alnum[k]` tell whether `s[k]` is alphabetic or alphanumeric.
pub open spec fn scan(
    s: Seq<char>,
    alpha: Seq<bool>,
    alnum: Seq<bool>,
    i: nat,
    col: nat,
    line: nat,
) -> LexOutcome
    decreases s.len() - i, 0nat,
{
    if i >= s.len() {
        Ok(seq![token(Seq::empty(), TokenType::EOF, col, col, line)])
    } else {
        let c = s[i as int];
        if is_blank(c) {
            scan(s, alpha, alnum, i + 1, col + 1, line)
        } else if c == '\n' {
            scan(s, alpha, alnum, i + 1, 0, line + 1)
        } else if alpha[i as int] || c == '_' {
            scan_word(s, alpha, alnum, i, i + 1, col, line)
        } else if is_digit(c) {
            scan_number(s, alpha, alnum, i, i + 1, col, line)
        } else if c == '"' {
            scan_string(s, alpha, alnum, i, i + 1, col, line)
        } else if c == '=' && i + 1 < s.len() && s[i + 1 as int] == '=' {
            then(
                seq![token(seq!['=', '='], TokenType::Equals, col, col + 2, line)],
                scan(s, alpha, alnum, i + 2, col + 2, line),
            )
        } else {
            match symbol_kind(c) {
                Some(kind) => then(
                    seq![token(seq![c], kind, col, col + 1, line)],
                    scan(s, alpha, alnum, i + 1, col + 1, line),
                ),
                None => Err(
                    LexFailure { message: "Unexpected character: "@ + seq![c], col, line },
                ),
            }
        }
    }
}

/// The rest of a word that began at `start`; `j` is the next character to look at.
pub open spec fn scan_word(
    s: Seq<char>,
    alpha: Seq<bool>,
    alnum: Seq<bool>,
    start: nat,
    j: nat,
    col: nat,
    line: nat,
) -> LexOutcome
    decreases s.len() - j, 1nat,
{
    if j < s.len() && (alnum[j as int] || s[j as int] == '_') {
        scan_word(s, alpha, alnum, start, j + 1, col, line)
    } else {
        let text = s.subrange(start as int, j as int);
        let end = col + (j - start) as nat;
        then(
            seq![token(text, word_kind(text), col, end, line)],
            scan(s, alpha, alnum, j, end, line),
        )
    }
}

/// The rest of a run of digits that began at `start`.
pub open spec fn scan_number(
    s: Seq<char>,
    alpha: Seq<bool>,
    alnum: Seq<bool>,
    start: nat,
    j: nat,
    col: nat,
    line: nat,
) -> LexOutcome
    decreases s.len() - j, 1nat,
{
    if j < s.len() && is_digit(s[j as int]) {
        scan_number(s, alpha, alnum, start, j + 1, col, line)
    } else {
        let end = col + (j - start) as nat;
        then(
            seq![token(s.subrange(start as int, j as int), TokenType::Number, col, end, line)],
            scan(s, alpha, alnum, j, end, line),
        )
    }
}

/// The rest of a string literal whose opening quote stands at `start`.
pub open spec fn scan_string(
    s: Seq<char>,
    alpha: Seq<bool>,
    alnum: Seq<bool>,
    start: nat,
    j: nat,
    col: nat,
    line: nat,
) -> LexOutcome
    decreases s.len() - j, 1nat,
{
    if j >= s.len() {
        Err(LexFailure { message: "Expected end of string"@, col, line })
    } else if s[j as int] == '"' {
        let end = col + (j + 1 - start) as nat;
        then(
            seq![token(s.subrange(start + 1 as int, j as int), TokenType::String, col, end, line)],
            scan(s, alpha, alnum, j + 1, end, line),
        )
    } else {
        scan_string(s, alpha, alnum, start, j + 1, col, line)
    }
}

/// The alphabetic flags of each character of `s`.
pub open spec fn alpha_flags(s: Seq<char>) -> Seq<bool> {
    Seq::new(s.len(), |k: int| alphabetic(s[k]))
}

/// The alphanumeric flags of each character of `s`.
pub open spec fn alnum_flags(s: Seq<char>) -> Seq<bool> {
    Seq::new(s.len(), |k: int| alphanumeric(s[k]))
}

/// Whether the lexer's result `r` is the outcome `o`, every location labelled `context`.
pub open spec fn lexed_as(r: Result<Vec<Token>, MakerError>, o: LexOutcome, context: Seq<char>) -> bool {
    match (r, o) {
        (Ok(tokens), Ok(specs)) => {
            &&& tokens@.map_values(|t: Token| t.model()) == specs
            &&& forall|k: int| 0 <= k < tokens@.len() ==> (#[trigger] tokens@[k]).location.context@ == context
        },
        (Err(e), Err(f)) => {
            &&& e.message@ == f.message
            &&& e.error_type == MakerErrorType::LexerError
            &&& e.source is None
            &&& e.location matches Some(loc) && loc.start == f.col && loc.end == f.col
                && loc.line == f.line && loc.context@ == context
        },
        _ => false,
    }
}

proof fn lemma_then_then(p: Seq<TokenSpec>, q: Seq<TokenSpec>, r: LexOutcome)
    ensures
        then(p, then(q, r)) == then(p + q, r),
{
    if let Ok(t) = r {
        assert((p + q) + t =~= p + (q + t));
    }
}

/// Whether token `t` is spelled in `s`: its text is a run of characters of `s`,
/// and the run of a string literal stands between two quotes.
pub open spec fn spelled_in(s: Seq<char>, t: TokenSpec) -> bool {
    t.kind == TokenType::EOF || exists|j: int|
        #![trigger s.subrange(j, j + t.text.len())]
        0 <= j && j + t.text.len() <= s.len() && s.subrange(j, j + t.text.len()) == t.text && (
        t.kind == TokenType::String ==> 1 <= j && j + t.text.len() < s.len() && s[j - 1] == '"'
            && s[j + t.text.len()] == '"')
}

/// Whether every token of a successful tokenization is spelled in `s`.
pub open spec fn all_spelled(s: Seq<char>, r: LexOutcome) -> bool {
    match r {
        Ok(ts) => forall|k: int| 0 <= k < ts.len() ==> spelled_in(s, #[trigger] ts[k]),
        Err(_) => true,
    }
}

proof fn lemma_then_spelled(s: Seq<char>, t: TokenSpec, r: LexOutcome)
    requires
        spelled_in(s, t),
        all_spelled(s, r),
    ensures
        all_spelled(s, then(seq![t], r)),
{
    if let Ok(ts) = r {
        let all = seq![t] + ts;
        assert forall|k: int| 0 <= k < all.len() implies spelled_in(s, #[trigger] all[k]) by {
            if k > 0 {
                assert(all[k] == ts[k - 1]);
            }
        }
    }
}

proof fn lemma_scan_spelled(s: Seq<char>, alpha: Seq<bool>, alnum: Seq<bool>, i: nat, col: nat, line: nat)
    ensures
        all_spelled(s, scan(s, alpha, alnum, i, col, line)),
    decreases s.len() - i, 0nat,
{
    if i < s.len() {
        let c = s[i as int];
        if is_blank(c) {
            lemma_scan_spelled(s, alpha, alnum, i + 1, col + 1, line);
        } else if c == '\n' {
            lemma_scan_spelled(s, alpha, alnum, i + 1, 0, line + 1);
        } else if alpha[i as int] || c == '_' {
            lemma_word_spelled(s, alpha, alnum, i, i + 1, col, line);
        } else if is_digit(c) {
            lemma_number_spelled(s, alpha, alnum, i, i + 1, col, line);
        } else if c == '"' {
            lemma_string_spelled(s, alpha, alnum, i, i + 1, col, line);
        } else if c == '=' && i + 1 < s.len() && s[i + 1 as int] == '=' {
            let t = token(seq!['=', '='], TokenType::Equals, col, col + 2, line);
            assert(s.subrange(i as int, i + 2 as int) =~= t.text);
            lemma_scan_spelled(s, alpha, alnum, i + 2, col + 2, line);
            lemma_then_spelled(s, t, scan(s, alpha, alnum, i + 2, col + 2, line));
        } else if let Some(kind) = symbol_kind(c) {
            let t = token(seq![c], kind, col, col + 1, line);
            assert(s.subrange(i as int, i + 1 as int) =~= t.text);
            lemma_scan_spelled(s, alpha, alnum, i + 1, col + 1, line);
            lemma_then_spelled(s, t, scan(s, alpha, alnum, i + 1, col + 1, line));
        }
    }
}

proof fn lemma_word_spelled(
    s: Seq<char>,
    alpha: Seq<bool>,
    alnum: Seq<bool>,
    start: nat,
    j: nat,
    col: nat,
    line: nat,
)
    requires
        start <= j <= s.len(),
    ensures
        all_spelled(s, scan_word(s, alpha, alnum, start, j, col, line)),
    decreases s.len() - j, 1nat,
{
    if j < s.len() && (alnum[j as int] || s[j as int] == '_') {
        lemma_word_spelled(s, alpha, alnum, start, j + 1, col, line);
    } else {
        let text = s.subrange(start as int, j as int);
        let end = col + (j - start) as nat;
        let t = token(text, word_kind(text), col, end, line);
        assert(s.subrange(start as int, start + t.text.len() as int) == t.text);
        lemma_scan_spelled(s, alpha, alnum, j, end, line);
        lemma_then_spelled(s, t, scan(s, alpha, alnum, j, end, line));
    }
}

proof fn lemma_number_spelled(
    s: Seq<char>,
    alpha: Seq<bool>,
    alnum: Seq<bool>,
    start: nat,
    j: nat,
    col: nat,
    line: nat,
)
    requires
        start <= j <= s.len(),
    ensures
        all_spelled(s, scan_number(s, alpha, alnum, start, j, col, line)),
    decreases s.len() - j, 1nat,
{
    if j < s.len() && is_digit(s[j as int]) {
        lemma_number_spelled(s, alpha, alnum, start, j + 1, col, line);
    } else {
        let end = col + (j - start) as nat;
        let t = token(s.subrange(start as int, j as int), TokenType::Number, col, end, line);
        assert(s.subrange(start as int, start + t.text.len() as int) == t.text);
        lemma_scan_spelled(s, alpha, alnum, j, end, line);
        lemma_then_spelled(s, t, scan(s, alpha, alnum, j, end, line));
    }
}

proof fn lemma_string_spelled(
    s: Seq<char>,
    alpha: Seq<bool>,
    alnum: Seq<bool>,
    start: nat,
    j: nat,
    col: nat,
    line: nat,
)
    requires
        start < j <= s.len(),
        s[start as int] == '"',
    ensures
        all_spelled(s, scan_string(s, alpha, alnum, start, j, col, line)),
    decreases s.len() - j, 1nat,
{
    if j < s.len() {
        if s[j as int] == '"' {
            let end = col + (j + 1 - start) as nat;
            let t = token(s.subrange(start + 1 as int, j as int), TokenType::String, col, end, line);
            let w = start + 1 as int;
            assert(s.subrange(w, w + t.text.len() as int) == t.text);
            lemma_scan_spelled(s, alpha, alnum, j + 1, end, line);
            lemma_then_spelled(s, t, scan(s, alpha, alnum, j + 1, end, line));
        } else {
            lemma_string_spelled(s, alpha, alnum, start, j + 1, col, line);
        }
    }
}

/// Every token that tokenization yields, but the closing `EOF`, is spelled in the
/// source exactly: identifiers, keywords, numbers and symbols as a run of its
/// characters, and a string literal as the run between its two quotes.
pub proof fn lexed_tokens_are_spelled(s: Seq<char>, alpha: Seq<bool>, alnum: Seq<bool>)
    ensures
        all_spelled(s, scan(s, alpha, alnum, 0, 0, 0)),
{
    lemma_scan_spelled(s, alpha, alnum, 0, 0, 0);
}

/// A character that tokenization keeps: no blank, line break or quote.
pub open spec fn is_plain(c: char) -> bool {
    !is_blank(c) && c != '\n' && c != '"'
}

/// The source from index `i` with blanks, line breaks and the quotes that open and
/// close string literals taken out; `in_string` tells whether `i` stands inside a
/// string literal.
pub open spec fn stripped(s: Seq<char>, i: nat, in_string: bool) -> Seq<char>
    decreases s.len() - i,
{
    if i >= s.len() {
        Seq::empty()
    } else {
        let c = s[i as int];
        if in_string {
            if c == '"' {
                stripped(s, i + 1, false)
            } else {
                seq![c] + stripped(s, i + 1, true)
            }
        } else if !is_plain(c) {
            stripped(s, i + 1, c == '"')
        } else {
            seq![c] + stripped(s, i + 1, false)
        }
    }
}

/// The texts of tokens joined in order.
pub open spec fn joined(ts: Seq<TokenSpec>) -> Seq<char>
    decreases ts.len(),
{
    if ts.len() == 0 {
        Seq::empty()
    } else {
        ts[0].text + joined(ts.drop_first())
    }
}

/// Whether character classes never count a blank, a line break or a quote as part
/// of a word, as Unicode's Alphabetic and Numeric sets do not.
pub open spec fn classes_plain(s: Seq<char>, alpha: Seq<bool>, alnum: Seq<bool>) -> bool {
    forall|k: int| 0 <= k < s.len() && (alpha[k] || alnum[k]) ==> is_plain(#[trigger] s[k])
}

/// Whether the tokenization `r`, if it succeeded, joins to `text`.
pub open spec fn joins_to(r: LexOutcome, text: Seq<char>) -> bool {
    r matches Ok(ts) ==> joined(ts) == text
}

proof fn lemma_joined_then(t: TokenSpec, r: LexOutcome, rest: Seq<char>)
    requires
        joins_to(r, rest),
    ensures
        joins_to(then(seq![t], r), t.text + rest),
{
    if let Ok(ts) = r {
        assert((seq![t] + ts).drop_first() =~= ts);
        assert((seq![t] + ts)[0] == t);
    }
}

proof fn lemma_stripped_plain(s: Seq<char>, a: nat, b: nat)
    requires
        a <= b <= s.len(),
        forall|k: int| a <= k < b ==> is_plain(#[trigger] s[k]),
    ensures
        stripped(s, a, false) == s.subrange(a as int, b as int) + stripped(s, b, false),
    decreases b - a,
{
    if a < b {
        lemma_stripped_plain(s, a + 1, b);
        assert(s.subrange(a as int, b as int) =~= seq![s[a as int]] + s.subrange(a + 1 as int, b as int));
    } else {
        assert(s.subrange(a as int, b as int) =~= Seq::<char>::empty());
    }
}

proof fn lemma_stripped_string(s: Seq<char>, a: nat, b: nat)
    requires
        a <= b <= s.len(),
        forall|k: int| a <= k < b ==> #[trigger] s[k] != '"',
    ensures
        stripped(s, a, true) == s.subrange(a as int, b as int) + stripped(s, b, true),
    decreases b - a,
{
    if a < b {
        lemma_stripped_string(s, a + 1, b);
        assert(s.subrange(a as int, b as int) =~= seq![s[a as int]] + s.subrange(a + 1 as int, b as int));
    } else {
        assert(s.subrange(a as int, b as int) =~= Seq::<char>::empty());
    }
}

proof fn lemma_scan_joined(s: Seq<char>, alpha: Seq<bool>, alnum: Seq<bool>, i: nat, col: nat, line: nat)
    requires
        classes_plain(s, alpha, alnum),
    ensures
        joins_to(scan(s, alpha, alnum, i, col, line), stripped(s, i, false)),
    decreases s.len() - i, 0nat,
{
    if i >= s.len() {
        let eof = token(Seq::empty(), TokenType::EOF, col, col, line);
        assert(seq![eof].drop_first() =~= Seq::<TokenSpec>::empty());
        assert(joined(Seq::<TokenSpec>::empty()) == Seq::<char>::empty());
        assert(seq![eof][0] == eof);
        assert(joined(seq![eof]) =~= Seq::<char>::empty());
    } else {
        let c = s[i as int];
        if is_blank(c) {
            lemma_scan_joined(s, alpha, alnum, i + 1, col + 1, line);
        } else if c == '\n' {
            lemma_scan_joined(s, alpha, alnum, i + 1, 0, line + 1);
        } else if alpha[i as int] || c == '_' {
            lemma_word_joined(s, alpha, alnum, i, i + 1, col, line);
        } else if is_digit(c) {
            lemma_number_joined(s, alpha, alnum, i, i + 1, col, line);
        } else if c == '"' {
            lemma_string_joined(s, alpha, alnum, i, i + 1, col, line);
        } else if c == '=' && i + 1 < s.len() && s[i + 1 as int] == '=' {
            let t = token(seq!['=', '='], TokenType::Equals, col, col + 2, line);
            lemma_scan_joined(s, alpha, alnum, i + 2, col + 2, line);
            lemma_joined_then(t, scan(s, alpha, alnum, i + 2, col + 2, line), stripped(s, i + 2, false));
            lemma_stripped_plain(s, i, i + 2);
            assert(s.subrange(i as int, i + 2 as int) =~= seq!['=', '=']);
        } else if let Some(kind) = symbol_kind(c) {
            let t = token(seq![c], kind, col, col + 1, line);
            lemma_scan_joined(s, alpha, alnum, i + 1, col + 1, line);
            lemma_joined_then(t, scan(s, alpha, alnum, i + 1, col + 1, line), stripped(s, i + 1, false));
        }
    }
}

proof fn lemma_word_joined(
    s: Seq<char>,
    alpha: Seq<bool>,
    alnum: Seq<bool>,
    start: nat,
    j: nat,
    col: nat,
    line: nat,
)
    requires
        classes_plain(s, alpha, alnum),
        start < j <= s.len(),
        forall|k: int| start <= k < j ==> is_plain(#[trigger] s[k]),
    ensures
        joins_to(scan_word(s, alpha, alnum, start, j, col, line), stripped(s, start, false)),
    decreases s.len() - j, 1nat,
{
    if j < s.len() && (alnum[j as int] || s[j as int] == '_') {
        assert(is_plain(s[j as int]));
        lemma_word_joined(s, alpha, alnum, start, j + 1, col, line);
    } else {
        let text = s.subrange(start as int, j as int);
        let end = col + (j - start) as nat;
        let t = token(text, word_kind(text), col, end, line);
        lemma_scan_joined(s, alpha, alnum, j, end, line);
        lemma_joined_then(t, scan(s, alpha, alnum, j, end, line), stripped(s, j, false));
        lemma_stripped_plain(s, start, j);
    }
}

proof fn lemma_number_joined(
    s: Seq<char>,
    alpha: Seq<bool>,
    alnum: Seq<bool>,
    start: nat,
    j: nat,
    col: nat,
    line: nat,
)
    requires
        classes_plain(s, alpha, alnum),
        start < j <= s.len(),
        forall|k: int| start <= k < j ==> is_plain(#[trigger] s[k]),
    ensures
        joins_to(scan_number(s, alpha, alnum, start, j, col, line), stripped(s, start, false)),
    decreases s.len() - j, 1nat,
{
    if j < s.len() && is_digit(s[j as int]) {
        lemma_number_joined(s, alpha, alnum, start, j + 1, col, line);
    } else {
        let end = col + (j - start) as nat;
        let t = token(s.subrange(start as int, j as int), TokenType::Number, col, end, line);
        lemma_scan_joined(s, alpha, alnum, j, end, line);
        lemma_joined_then(t, scan(s, alpha, alnum, j, end, line), stripped(s, j, false));
        lemma_stripped_plain(s, start, j);
    }
}

proof fn lemma_string_joined(
    s: Seq<char>,
    alpha: Seq<bool>,
    alnum: Seq<bool>,
    start: nat,
    j: nat,
    col: nat,
    line: nat,
)
    requires
        classes_plain(s, alpha, alnum),
        start < j <= s.len(),
        s[start as int] == '"',
        forall|k: int| start < k < j ==> #[trigger] s[k] != '"',
    ensures
        joins_to(scan_string(s, alpha, alnum, start, j, col, line), stripped(s, start, false)),
    decreases s.len() - j, 1nat,
{
    if j < s.len() {
        if s[j as int] == '"' {
            let end = col + (j + 1 - start) as nat;
            let t = token(s.subrange(start + 1 as int, j as int), TokenType::String, col, end, line);
            lemma_scan_joined(s, alpha, alnum, j + 1, end, line);
            lemma_joined_then(t, scan(s, alpha, alnum, j + 1, end, line), stripped(s, j + 1, false));
            lemma_stripped_string(s, start + 1, j);
        } else {
            lemma_string_joined(s, alpha, alnum, start, j + 1, col, line);
        }
    }
}

/// The texts of the tokens, joined in order, give back the source without its
/// blanks, line breaks and string quotes: identifiers, numbers, symbols and string
/// bodies come out exactly and in source order. This holds for character classes
/// that never count a blank, a line break or a quote as part of a word.
pub proof fn lexed_texts_rebuild_source(s: Seq<char>, alpha: Seq<bool>, alnum: Seq<bool>)
    requires
        classes_plain(s, alpha, alnum),
    ensures
        joins_to(scan(s, alpha, alnum, 0, 0, 0), stripped(s, 0, false)),
{
    lemma_scan_joined(s, alpha, alnum, 0, 0, 0);
}

/// Relies on `char::is_alphabetic`.
#[verifier::external_body]
fn is_alphabetic(c: char) -> (r: bool)
    ensures
        r == alphabetic(c),
{
    c.is_alphabetic()
}

/// Relies on `char::is_alphanumeric`.
#[verifier::external_body]
fn is_alphanumeric(c: char) -> (r: bool)
    ensures
        r == alphanumeric(c),
{
    c.is_alphanumeric()
}

/// The characters of `s` in order.
pub(crate) fn chars_of(s: &str) -> (r: Vec<char>)
    ensures
        r@ == s@,
{
    broadcast use vstd::string::axiom_spec_iter, vstd::string::next_postcondition;

    let mut it = s.chars();
    let mut r: Vec<char> = Vec::new();
    loop
        invariant
            it.obeys_prophetic_iter_laws(),
            it.decrease() is Some,
            r@ + it.remaining() == s@,
        ensures
            r@ == s@,
        decreases it.decrease()->0,
    {
        match it.next() {
            Some(c) => {
                let ghost rest = it.remaining();
                r.push(c);
                assert(r@ + rest =~= s@);
            },
            None => {
                assert(r@ =~= s@);
                break;
            },
        }
    }
    r
}

/// Relies on `String`'s `FromIterator<&char>`: the string of the given characters.
#[verifier::external_body]
pub(crate) fn string_of(chars: &[char]) -> (r: String)
    ensures
        r@ == chars@,
{
    chars.iter().collect()
}

fn keyword_or_identifier(s: &Vec<char>, start: usize, end: usize) -> (r: TokenType)
    requires
        start <= end <= s@.len(),
    ensures
        r == word_kind(s@.subrange(start as int, end as int)),
{
    let ghost w = s@.subrange(start as int, end as int);
    let n = end - start;
    if n == 3 && s[start] == 'v' && s[start + 1] == 'a' && s[start + 2] == 'r' {
        assert(w =~= seq!['v', 'a', 'r']);
        TokenType::Var
    } else if n == 2 && s[start] == 'd' && s[start + 1] == 'o' {
        assert(w =~= seq!['d', 'o']);
        TokenType::Do
    } else if n == 3 && s[start] == 'e' && s[start + 1] == 'n' && s[start + 2] == 'd' {
        assert(w =~= seq!['e', 'n', 'd']);
        TokenType::End
    } else if n == 2 && s[start] == 'i' && s[start + 1] == 'f' {
        assert(w =~= seq!['i', 'f']);
        TokenType::If
    } else if n == 4 && s[start] == 'e' && s[start + 1] == 'l' && s[start + 2] == 's' && s[start
        + 3] == 'e' {
        assert(w =~= seq!['e', 'l', 's', 'e']);
        TokenType::Else
    } else {
        assert(w.len() == n);
        assert(n == 3 ==> w[0] == s@[start as int] && w[1] == s@[start + 1] && w[2] == s@[start + 2]);
        assert(n == 2 ==> w[0] == s@[start as int] && w[1] == s@[start + 1]);
        assert(n == 4 ==> w[0] == s@[start as int] && w[1] == s@[start + 1] && w[2] == s@[start + 2] && w[3] == s@[start + 3]);
        TokenType::Identifier
    }
}

fn symbol_type(c: char) -> (r: Option<TokenType>)
    ensures
        r == symbol_kind(c),
{
    match c {
        '(' => Some(TokenType::OpenBrace),
        ')' => Some(TokenType::CloseBrace),
        '{' => Some(TokenType::OpenCurly),
        '}' => Some(TokenType::CloseCurly),
        '.' => Some(TokenType::Dot),
        ',' => Some(TokenType::Comma),
        '=' => Some(TokenType::Assign),
        _ => None,
    }
}

fn make_token(
    s: &Vec<char>,
    from: usize,
    to: usize,
    kind: TokenType,
    start: usize,
    end: usize,
    line: usize,
    context: &String,
) -> (t: Token)
    requires
        from <= to <= s@.len(),
    ensures
        t.model() == token(s@.subrange(from as int, to as int), kind, start as nat, end as nat, line as nat),
        t.location.context@ == context@,
{
    let value = string_of(slice_subrange(s.as_slice(), from, to));
    Token { value, token_type: kind, location: Location { start, end, line, context: context.clone() } }
}

fn lex_error(message: String, col: usize, line: usize, context: &String) -> (e: MakerError)
    ensures
        e.message == message,
        e.error_type == MakerErrorType::LexerError,
        e.source is None,
        e.location matches Some(loc) && loc.start == col && loc.end == col && loc.line == line
            && loc.context@ == context@,
{
    MakerError::lang(
        message,
        Location { start: col, end: col, line, context: context.clone() },
        MakerErrorType::LexerError,
    )
}

/// Tokenizes `s`, given for each character whether it is alphabetic (`alpha`) and
/// whether it is alphanumeric (`alnum`).
pub fn lex_chars(s: &Vec<char>, alpha: &Vec<bool>, alnum: &Vec<bool>, context: String) -> (r: Result<
    Vec<Token>,
    MakerError,
>)
    requires
        alpha@.len() == s@.len(),
        alnum@.len() == s@.len(),
    ensures
        lexed_as(r, scan(s@, alpha@, alnum@, 0, 0, 0), context@),
{
    let ghost whole = scan(s@, alpha@, alnum@, 0, 0, 0);
    let n = s.len();
    let mut tokens: Vec<Token> = Vec::new();
    let mut i: usize = 0;
    let mut col: usize = 0;
    let mut line: usize = 0;
    while i < n
        invariant
            n == s@.len(),
            alpha@.len() == n,
            alnum@.len() == n,
            i <= n,
            col <= i,
            line <= i,
            whole == scan(s@, alpha@, alnum@, 0, 0, 0),
            whole == then(
                tokens@.map_values(|t: Token| t.model()),
                scan(s@, alpha@, alnum@, i as nat, col as nat, line as nat),
            ),
            forall|k: int| 0 <= k < tokens@.len() ==> (#[trigger] tokens@[k]).location.context@ == context@,
        decreases n - i,
    {
        let ghost before = tokens@.map_values(|t: Token| t.model());
        let c = s[i];
        if c == ' ' || c == '\t' || c == '\r' {
            i = i + 1;
            col = col + 1;
            continue;
        }
        if c == '\n' {
            i = i + 1;
            col = 0;
            line = line + 1;
            continue;
        }
        let start = i;
        let t: Token;
        if alpha[i] || c == '_' {
            i = i + 1;
            while i < n && (alnum[i] || s[i] == '_')
                invariant
                    n == s@.len(),
                    alpha@.len() == n,
                    alnum@.len() == n,
                    start < i <= n,
                    col <= start,
                    whole == then(
                        before,
                        scan_word(s@, alpha@, alnum@, start as nat, i as nat, col as nat, line as nat),
                    ),
                decreases n - i,
            {
                i = i + 1;
            }
            let kind = keyword_or_identifier(s, start, i);
            t = make_token(s, start, i, kind, col, col + (i - start), line, &context);
        } else if '0' <= c && c <= '9' {
            i = i + 1;
            while i < n && '0' <= s[i] && s[i] <= '9'
                invariant
                    n == s@.len(),
                    alpha@.len() == n,
                    alnum@.len() == n,
                    start < i <= n,
                    col <= start,
                    whole == then(
                        before,
                        scan_number(s@, alpha@, alnum@, start as nat, i as nat, col as nat, line as nat),
                    ),
                decreases n - i,
            {
                i = i + 1;
            }
            t = make_token(s, start, i, TokenType::Number, col, col + (i - start), line, &context);
        } else if c == '"' {
            i = i + 1;
            while i < n && s[i] != '"'
                invariant
                    n == s@.len(),
                    alpha@.len() == n,
                    alnum@.len() == n,
                    start < i <= n,
                    col <= start,
                    whole == then(
                        before,
                        scan_string(s@, alpha@, alnum@, start as nat, i as nat, col as nat, line as nat),
                    ),
                decreases n - i,
            {
                i = i + 1;
            }
            if i >= n {
                proof {
                    reveal_strlit("Expected end of string");
                }
                return Err(lex_error("Expected end of string".to_owned(), col, line, &context));
            }
            i = i + 1;
            t = make_token(s, start + 1, i - 1, TokenType::String, col, col + (i - start), line, &context);
        } else if c == '=' && i + 1 < n && s[i + 1] == '=' {
            i = i + 2;
            t = make_token(s, start, i, TokenType::Equals, col, col + 2, line, &context);
            assert(s@.subrange(start as int, i as int) =~= seq!['=', '=']);
        } else {
            match symbol_type(c) {
                Some(kind) => {
                    i = i + 1;
                    t = make_token(s, start, i, kind, col, col + 1, line, &context);
                    assert(s@.subrange(start as int, i as int) =~= seq![c]);
                },
                None => {
                    let shown = string_of(slice_subrange(s.as_slice(), start, start + 1));
                    assert(s@.subrange(start as int, start + 1) =~= seq![c]);
                    proof {
                        reveal_strlit("Unexpected character: ");
                    }
                    let message = "Unexpected character: ".to_owned().concat(shown.as_str());
                    return Err(lex_error(message, col, line, &context));
                },
            }
        }
        let ghost tm = t.model();
        tokens.push(t);
        col = col + (i - start);
        proof {
            assert(tokens@.map_values(|t: Token| t.model()) =~= before + seq![tm]);
            lemma_then_then(before, seq![tm], scan(s@, alpha@, alnum@, i as nat, col as nat, line as nat));
        }
    }
    let eof = Token {
        value: String::new(),
        token_type: TokenType::EOF,
        location: Location { start: col, end: col, line, context },
    };
    let ghost before = tokens@.map_values(|t: Token| t.model());
    let ghost em = eof.model();
    tokens.push(eof);
    proof {
        assert(em == token(Seq::empty(), TokenType::EOF, col as nat, col as nat, line as nat));
        assert(tokens@.map_values(|t: Token| t.model()) =~= before + seq![em]);
    }
    Ok(tokens)
}

/// Tokenizes `contents`, labelling every location with `context`.
pub fn lex(contents: String, context: String) -> (r: Result<Vec<Token>, MakerError>)
    ensures
        lexed_as(
            r,
            scan(contents@, alpha_flags(contents@), alnum_flags(contents@), 0, 0, 0),
            context@,
        ),
{
    let chars = chars_of(contents.as_str());
    let mut alpha: Vec<bool> = Vec::new();
    let mut alnum: Vec<bool> = Vec::new();
    let mut k: usize = 0;
    while k < chars.len()
        invariant
            chars@ == contents@,
            k <= chars@.len(),
            alpha@ == alpha_flags(contents@).subrange(0, k as int),
            alnum@ == alnum_flags(contents@).subrange(0, k as int),
        decreases chars@.len() - k,
    {
        alpha.push(is_alphabetic(chars[k]));
        alnum.push(is_alphanumeric(chars[k]));
        k = k + 1;
        assert(alpha@ =~= alpha_flags(contents@).subrange(0, k as int));
        assert(alnum@ =~= alnum_flags(contents@).subrange(0, k as int));
    }
    assert(alpha@ =~= alpha_flags(contents@));
    assert(alnum@ =~= alnum_flags(contents@));
    lex_chars(&chars, &alpha, &alnum, context)
}

} // verus!
