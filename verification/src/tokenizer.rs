//! The tokenizer: converts a character string into an ordered sequence of
//! classified tokens, merging digit/dot runs into numbers and space runs
//! into one space token per run.

use vstd::prelude::*;

use crate::error::{result_view, Error, ErrorV};

verus! {

/// The classification of a token.
#[derive(Clone, Copy, Debug, PartialEq, Eq, Structural)]
pub enum Kind {
    Bracket,
    Operator,
    Number,
    Digit,
    Dot,
    Space,
}

/// An atomic lexical symbol: an operator glyph, a bracket glyph, a digit,
/// the dot, or the space. The declaration order is the rank order that
/// `key_rank` mirrors.
#[derive(Clone, Copy, Debug, PartialEq, Eq, PartialOrd, Structural)]
pub enum Key {
    RoundOpen,
    RoundClose,
    BoxOpen,
    BoxClose,
    CurlyOpen,
    CurlyClose,
    Multiplication,
    Division,
    Addition,
    Subtraction,
    Zero,
    One,
    Two,
    Three,
    Four,
    Five,
    Six,
    Seven,
    Eight,
    Nine,
    Dot,
    Space,
}

/// The classification of a single key.
pub open spec fn key_kind(k: Key) -> Kind {
    match k {
        Key::RoundOpen | Key::RoundClose | Key::BoxOpen | Key::BoxClose | Key::CurlyOpen
            | Key::CurlyClose => Kind::Bracket,
        Key::Multiplication | Key::Division | Key::Addition | Key::Subtraction => Kind::Operator,
        Key::Zero | Key::One | Key::Two | Key::Three | Key::Four | Key::Five | Key::Six
            | Key::Seven | Key::Eight | Key::Nine => Kind::Digit,
        Key::Dot => Kind::Dot,
        Key::Space => Kind::Space,
    }
}

/// The key that a character denotes, if any.
pub open spec fn char_key(c: char) -> Option<Key> {
    if c == '(' {
        Some(Key::RoundOpen)
    } else if c == ')' {
        Some(Key::RoundClose)
    } else if c == '[' {
        Some(Key::BoxOpen)
    } else if c == ']' {
        Some(Key::BoxClose)
    } else if c == '{' {
        Some(Key::CurlyOpen)
    } else if c == '}' {
        Some(Key::CurlyClose)
    } else if c == '*' {
        Some(Key::Multiplication)
    } else if c == '/' {
        Some(Key::Division)
    } else if c == '+' {
        Some(Key::Addition)
    } else if c == '-' {
        Some(Key::Subtraction)
    } else if c == '0' {
        Some(Key::Zero)
    } else if c == '1' {
        Some(Key::One)
    } else if c == '2' {
        Some(Key::Two)
    } else if c == '3' {
        Some(Key::Three)
    } else if c == '4' {
        Some(Key::Four)
    } else if c == '5' {
        Some(Key::Five)
    } else if c == '6' {
        Some(Key::Six)
    } else if c == '7' {
        Some(Key::Seven)
    } else if c == '8' {
        Some(Key::Eight)
    } else if c == '9' {
        Some(Key::Nine)
    } else if c == '.' {
        Some(Key::Dot)
    } else if c == ' ' {
        Some(Key::Space)
    } else {
        None
    }
}

/// The character that a key denotes. Inverse of `char_key`.
pub open spec fn key_char(k: Key) -> char {
    match k {
        Key::RoundOpen => '(',
        Key::RoundClose => ')',
        Key::BoxOpen => '[',
        Key::BoxClose => ']',
        Key::CurlyOpen => '{',
        Key::CurlyClose => '}',
        Key::Multiplication => '*',
        Key::Division => '/',
        Key::Addition => '+',
        Key::Subtraction => '-',
        Key::Zero => '0',
        Key::One => '1',
        Key::Two => '2',
        Key::Three => '3',
        Key::Four => '4',
        Key::Five => '5',
        Key::Six => '6',
        Key::Seven => '7',
        Key::Eight => '8',
        Key::Nine => '9',
        Key::Dot => '.',
        Key::Space => ' ',
    }
}

/// The fixed rank of a key, in declaration order. Used only for
/// same-tier tie-breaking in `spec_precede`.
pub open spec fn key_rank(k: Key) -> int {
    match k {
        Key::RoundOpen => 0,
        Key::RoundClose => 1,
        Key::BoxOpen => 2,
        Key::BoxClose => 3,
        Key::CurlyOpen => 4,
        Key::CurlyClose => 5,
        Key::Multiplication => 6,
        Key::Division => 7,
        Key::Addition => 8,
        Key::Subtraction => 9,
        Key::Zero => 10,
        Key::One => 11,
        Key::Two => 12,
        Key::Three => 13,
        Key::Four => 14,
        Key::Five => 15,
        Key::Six => 16,
        Key::Seven => 17,
        Key::Eight => 18,
        Key::Nine => 19,
        Key::Dot => 20,
        Key::Space => 21,
    }
}

/// Whether `key_a` strictly outranks `key_b`. The pairs `*`/`/` and
/// `+`/`-` are mutually equal-precedence; elsewhere the rank decides.
pub open spec fn spec_precede(key_a: Key, key_b: Key) -> bool {
    match (key_a, key_b) {
        (Key::Multiplication, Key::Division) => false,
        (Key::Division, Key::Multiplication) => false,
        (Key::Addition, Key::Subtraction) => false,
        (Key::Subtraction, Key::Addition) => false,
        _ => key_rank(key_a) < key_rank(key_b),
    }
}

impl Key {
    /// The key denoted by a character that denotes one.
    pub fn into_key(char_value: char) -> (r: Key)
        requires
            char_key(char_value) is Some,
        ensures
            char_key(char_value) == Some(r),
    {
        match char_value {
            '(' => Key::RoundOpen,
            ')' => Key::RoundClose,
            '[' => Key::BoxOpen,
            ']' => Key::BoxClose,
            '{' => Key::CurlyOpen,
            '}' => Key::CurlyClose,
            '*' => Key::Multiplication,
            '/' => Key::Division,
            '+' => Key::Addition,
            '-' => Key::Subtraction,
            '0' => Key::Zero,
            '1' => Key::One,
            '2' => Key::Two,
            '3' => Key::Three,
            '4' => Key::Four,
            '5' => Key::Five,
            '6' => Key::Six,
            '7' => Key::Seven,
            '8' => Key::Eight,
            '9' => Key::Nine,
            '.' => Key::Dot,
            _ => Key::Space,
        }
    }

    /// The classification of this key.
    pub fn kind(&self) -> (r: Kind)
        ensures
            r == key_kind(*self),
    {
        match *self {
            Key::BoxOpen | Key::BoxClose | Key::CurlyOpen | Key::CurlyClose | Key::RoundOpen
                | Key::RoundClose => Kind::Bracket,
            Key::Addition | Key::Subtraction | Key::Multiplication | Key::Division =>
                Kind::Operator,
            Key::Zero | Key::One | Key::Two | Key::Three | Key::Four | Key::Five | Key::Six
                | Key::Seven | Key::Eight | Key::Nine => Kind::Digit,
            Key::Dot => Kind::Dot,
            Key::Space => Kind::Space,
        }
    }

    /// Whether `key_a` strictly outranks `key_b`; see `spec_precede`.
    pub fn precede(key_a: &Key, key_b: &Key) -> (r: bool)
        ensures
            r == spec_precede(*key_a, *key_b),
    {
        match (key_a, key_b) {
            (Key::Multiplication, Key::Division) => false,
            (Key::Division, Key::Multiplication) => false,
            (Key::Addition, Key::Subtraction) => false,
            (Key::Subtraction, Key::Addition) => false,
            _ => Self::rank(key_a) < Self::rank(key_b),
        }
    }

    /// The fixed rank of this key; see `key_rank`.
    fn rank(key: &Key) -> (r: u32)
        ensures
            r as int == key_rank(*key),
    {
        match key {
            Key::RoundOpen => 0,
            Key::RoundClose => 1,
            Key::BoxOpen => 2,
            Key::BoxClose => 3,
            Key::CurlyOpen => 4,
            Key::CurlyClose => 5,
            Key::Multiplication => 6,
            Key::Division => 7,
            Key::Addition => 8,
            Key::Subtraction => 9,
            Key::Zero => 10,
            Key::One => 11,
            Key::Two => 12,
            Key::Three => 13,
            Key::Four => 14,
            Key::Five => 15,
            Key::Six => 16,
            Key::Seven => 17,
            Key::Eight => 18,
            Key::Nine => 19,
            Key::Dot => 20,
            Key::Space => 21,
        }
    }

    /// The character that this key denotes.
    pub fn to_char(&self) -> (r: char)
        ensures
            r == key_char(*self),
    {
        match self {
            Key::RoundOpen => '(',
            Key::RoundClose => ')',
            Key::BoxOpen => '[',
            Key::BoxClose => ']',
            Key::CurlyOpen => '{',
            Key::CurlyClose => '}',
            Key::Multiplication => '*',
            Key::Division => '/',
            Key::Addition => '+',
            Key::Subtraction => '-',
            Key::Zero => '0',
            Key::One => '1',
            Key::Two => '2',
            Key::Three => '3',
            Key::Four => '4',
            Key::Five => '5',
            Key::Six => '6',
            Key::Seven => '7',
            Key::Eight => '8',
            Key::Nine => '9',
            Key::Dot => '.',
            Key::Space => ' ',
        }
    }

    /// The one-character string that this key denotes.
    pub fn to_string(&self) -> (r: String)
        ensures
            r@ == seq![key_char(*self)],
    {
        let lit: &str = match self {
            Key::RoundOpen => "(",
            Key::RoundClose => ")",
            Key::BoxOpen => "[",
            Key::BoxClose => "]",
            Key::CurlyOpen => "{",
            Key::CurlyClose => "}",
            Key::Multiplication => "*",
            Key::Division => "/",
            Key::Addition => "+",
            Key::Subtraction => "-",
            Key::Zero => "0",
            Key::One => "1",
            Key::Two => "2",
            Key::Three => "3",
            Key::Four => "4",
            Key::Five => "5",
            Key::Six => "6",
            Key::Seven => "7",
            Key::Eight => "8",
            Key::Nine => "9",
            Key::Dot => ".",
            Key::Space => " ",
        };
        proof {
            reveal_strlit("(");
            reveal_strlit(")");
            reveal_strlit("[");
            reveal_strlit("]");
            reveal_strlit("{");
            reveal_strlit("}");
            reveal_strlit("*");
            reveal_strlit("/");
            reveal_strlit("+");
            reveal_strlit("-");
            reveal_strlit("0");
            reveal_strlit("1");
            reveal_strlit("2");
            reveal_strlit("3");
            reveal_strlit("4");
            reveal_strlit("5");
            reveal_strlit("6");
            reveal_strlit("7");
            reveal_strlit("8");
            reveal_strlit("9");
            reveal_strlit(".");
            reveal_strlit(" ");
        }
        let r = lit.to_owned();
        proof {
            assert(r@ =~= seq![key_char(*self)]);
        }
        r
    }
}

impl Kind {
    /// The keys classified under this kind, in declaration order.
    pub fn keys(&self) -> (r: Vec<Key>)
        ensures
            r@ == kind_keys(*self),
    {
        let r: Vec<Key> = match *self {
            Kind::Bracket => vec![
                Key::RoundOpen,
                Key::RoundClose,
                Key::BoxOpen,
                Key::BoxClose,
                Key::CurlyOpen,
                Key::CurlyClose,
            ],
            Kind::Operator => vec![
                Key::Addition,
                Key::Subtraction,
                Key::Multiplication,
                Key::Division,
            ],
            Kind::Number => vec![
                Key::Dot,
                Key::Zero,
                Key::One,
                Key::Two,
                Key::Three,
                Key::Four,
                Key::Five,
                Key::Six,
                Key::Seven,
                Key::Eight,
                Key::Nine,
            ],
            Kind::Digit => vec![
                Key::Zero,
                Key::One,
                Key::Two,
                Key::Three,
                Key::Four,
                Key::Five,
                Key::Six,
                Key::Seven,
                Key::Eight,
                Key::Nine,
            ],
            Kind::Dot => vec![Key::Dot],
            Kind::Space => vec![Key::Space],
        };
        proof {
            assert(r@ =~= kind_keys(*self));
        }
        r
    }
}

/// A classified, possibly multi-key lexical unit: a single operator,
/// bracket, digit, dot or space, or a merged number or space run.
#[derive(Debug, Clone, PartialEq)]
pub struct Token {
    pub kind: Kind,
    pub keys: Vec<Key>,
}

/// The mathematical shape of a `Token`.
pub struct TokenV {
    pub kind: Kind,
    pub keys: Seq<Key>,
}

impl View for Token {
    type V = TokenV;

    open spec fn view(&self) -> TokenV {
        TokenV { kind: self.kind, keys: self.keys@ }
    }
}

impl DeepView for Token {
    type V = TokenV;

    open spec fn deep_view(&self) -> TokenV {
        self.view()
    }
}

/// The number of dot keys in a key sequence.
pub open spec fn dot_count(ks: Seq<Key>) -> int
    decreases ks.len(),
{
    if ks.len() == 0 {
        0
    } else {
        dot_count(ks.drop_last()) + if ks.last() == Key::Dot {
            1int
        } else {
            0int
        }
    }
}

/// The key-sequence invariant of a Number token: non-empty, made of
/// digits and at most one dot, and neither starting nor ending with
/// the dot.
pub open spec fn valid_number_keys(ks: Seq<Key>) -> bool {
    &&& ks.len() > 0
    &&& (forall|i: int|
        0 <= i < ks.len() ==> key_kind(#[trigger] ks[i]) == Kind::Digit || ks[i] == Key::Dot)
    &&& ks[0] != Key::Dot
    &&& ks[ks.len() - 1] != Key::Dot
    &&& dot_count(ks) <= 1
}

/// The structural invariant of a token: single-key tokens carry a key of
/// their own kind; a Number carries a valid numeral; a Space carries a
/// non-empty run of space keys.
pub open spec fn token_wf(t: TokenV) -> bool {
    match t.kind {
        Kind::Number => valid_number_keys(t.keys),
        Kind::Space => t.keys.len() > 0 && (forall|i: int|
            0 <= i < t.keys.len() ==> #[trigger] t.keys[i] == Key::Space),
        _ => t.keys.len() == 1 && key_kind(t.keys[0]) == t.kind,
    }
}

/// Every token of the sequence satisfies the token invariant.
pub open spec fn tokens_wf(ts: Seq<TokenV>) -> bool {
    forall|i: int| 0 <= i < ts.len() ==> token_wf(#[trigger] ts[i])
}

impl Token {
    /// A single-key token of the given kind.
    pub fn new(kind: Kind, key: Key) -> (r: Token)
        requires
            key_kind(key) == kind,
        ensures
            r@ == (TokenV { kind, keys: seq![key] }),
    {
        let r = Token { kind, keys: vec![key] };
        proof {
            assert(r@.keys =~= seq![key]);
        }
        r
    }

    /// A single-key bracket token.
    pub fn new_bracket(key: Key) -> (r: Token)
        requires
            key_kind(key) == Kind::Bracket,
        ensures
            r@ == (TokenV { kind: Kind::Bracket, keys: seq![key] }),
    {
        Self::new(Kind::Bracket, key)
    }

    /// A number token carrying a valid digit/dot key sequence.
    pub fn new_number(keys: Vec<Key>) -> (r: Token)
        requires
            valid_number_keys(keys@),
        ensures
            r@ == (TokenV { kind: Kind::Number, keys: keys@ }),
    {
        Token { kind: Kind::Number, keys }
    }

    /// A single-key operator token.
    pub fn new_operator(key: Key) -> (r: Token)
        requires
            key_kind(key) == Kind::Operator,
        ensures
            r@ == (TokenV { kind: Kind::Operator, keys: seq![key] }),
    {
        Self::new(Kind::Operator, key)
    }

    /// A space token carrying a non-empty run of space keys.
    pub fn new_space(keys: Vec<Key>) -> (r: Token)
        requires
            keys@.len() > 0,
            forall|i: int| 0 <= i < keys@.len() ==> #[trigger] keys@[i] == Key::Space,
        ensures
            r@ == (TokenV { kind: Kind::Space, keys: keys@ }),
    {
        Token { kind: Kind::Space, keys }
    }

    /// The characters of this token's keys, in order.
    pub fn to_string(&self) -> (r: String)
        ensures
            r@ == token_chars(self@),
    {
        let mut acc = String::new();
        let n = self.keys.len();
        let mut i: usize = 0;
        while i < n
            invariant
                n == self.keys.len(),
                i <= n,
                acc@ == self@.keys.take(i as int).map_values(|k: Key| key_char(k)),
            decreases n - i,
        {
            let piece = self.keys[i].to_string();
            acc.append(piece.as_str());
            proof {
                assert(self@.keys.take(i + 1) =~= self@.keys.take(i as int).push(self@.keys[i as int]));
                assert(acc@ =~= self@.keys.take(i + 1).map_values(|k: Key| key_char(k)));
            }
            i = i + 1;
        }
        proof {
            assert(self@.keys.take(n as int) =~= self@.keys);
        }
        acc
    }
}

/// The characters of a token's keys, in order.
pub open spec fn token_chars(t: TokenV) -> Seq<char> {
    t.keys.map_values(|k: Key| key_char(k))
}

/// Whether every character of the sequence denotes a key.
pub open spec fn all_keys(s: Seq<char>) -> bool {
    forall|i: int| 0 <= i < s.len() ==> char_key(#[trigger] s[i]) is Some
}

/// The key denoted by a character, when it denotes one.
pub open spec fn char_key_value(c: char) -> Key {
    match char_key(c) {
        Some(k) => k,
        None => Key::Space,
    }
}

/// The single-key token of a key.
pub open spec fn key_token(k: Key) -> TokenV {
    TokenV { kind: key_kind(k), keys: seq![k] }
}

/// The token sequence of a scan: one single-key token per character.
/// Meaningful when `all_keys` holds of the sequence.
pub open spec fn scan_tokens(s: Seq<char>) -> Seq<TokenV> {
    s.map_values(|c: char| key_token(char_key_value(c)))
}

/// The position of the first character that denotes no key (the length
/// of the sequence when every character denotes one).
pub open spec fn first_undefined(s: Seq<char>) -> int
    decreases s.len(),
{
    if s.len() == 0 {
        0
    } else if char_key(s[0]) is None {
        0
    } else {
        1 + first_undefined(s.drop_first())
    }
}

/// The detail carried by an `UndefinedSymbol` error: a fixed prefix
/// followed by the unmatched remainder of the input.
pub open spec fn undefined_symbol_message(rest: Seq<char>) -> Seq<char> {
    "Error: Undefined symbol start "@ + rest
}

/// The result of the scan stage: one single-key token per character, or
/// `UndefinedSymbol` at the first character that denotes no key.
pub open spec fn spec_scan(s: Seq<char>) -> Result<Seq<TokenV>, ErrorV> {
    if all_keys(s) {
        Ok(scan_tokens(s))
    } else {
        Err(ErrorV::UndefinedSymbol(undefined_symbol_message(s.skip(first_undefined(s)))))
    }
}

proof fn lemma_first_undefined_at(s: Seq<char>, k: int)
    requires
        0 <= k <= s.len(),
        forall|j: int| 0 <= j < k ==> char_key(#[trigger] s[j]) is Some,
        k < s.len() ==> char_key(s[k]) is None,
    ensures
        first_undefined(s) == if k < s.len() { k } else { s.len() as int },
    decreases k,
{
    if k > 0 {
        assert(char_key(s[0]) is Some);
        lemma_first_undefined_at(s.drop_first(), k - 1);
        assert(forall|j: int| 0 <= j < k - 1 ==> char_key(#[trigger] s.drop_first()[j]) is Some);
    }
}

/// Whether the pair handed to a single-character matcher is consistent:
/// the character denotes a key of exactly the given kind.
pub open spec fn matcher_pair(kind: Kind, c: char) -> bool {
    char_key(c) is Some && key_kind(char_key_value(c)) == kind
}

/// Matches one fixed character at the given position, emitting its
/// single-key token.
pub fn tokenize_char(kind: Kind, char_value: char, formula: &String, current: usize) -> (r: Option<
    Token,
>)
    requires
        matcher_pair(kind, char_value),
    ensures
        r matches Some(t) ==> current < formula@.len() && formula@[current as int] == char_value
            && t@ == key_token(char_key_value(char_value)),
        r is None ==> !(current < formula@.len() && formula@[current as int] == char_value),
{
    if current < formula.as_str().unicode_len() {
        let value = formula.as_str().get_char(current);
        if value == char_value {
            let r = Token { kind, keys: vec![Key::into_key(char_value)] };
            proof {
                assert(r@.keys =~= key_token(char_key_value(char_value)).keys);
            }
            Some(r)
        } else {
            None
        }
    } else {
        None
    }
}

/// Matches one fixed bracket glyph at the given position.
pub fn tokenize_bracket(formula: &String, current: usize, bracket: Key, char_value: char) -> (r:
    Option<Token>)
    requires
        key_kind(bracket) == Kind::Bracket,
        char_key(char_value) == Some(bracket),
    ensures
        r matches Some(t) ==> current < formula@.len() && formula@[current as int] == char_value
            && t@ == key_token(bracket),
        r is None ==> !(current < formula@.len() && formula@[current as int] == char_value),
{
    match bracket.kind() {
        Kind::Bracket => tokenize_char(Kind::Bracket, char_value, formula, current),
        _ => None,
    }
}

/// Matches `+` at the given position.
pub fn tokenize_addition(formula: &String, current: usize) -> (r: Option<Token>)
    ensures
        r matches Some(t) ==> current < formula@.len() && formula@[current as int] == '+' && t@
            == key_token(Key::Addition),
        r is None ==> !(current < formula@.len() && formula@[current as int] == '+'),
{
    tokenize_char(Kind::Operator, '+', formula, current)
}

/// Matches `/` at the given position.
pub fn tokenize_division(formula: &String, current: usize) -> (r: Option<Token>)
    ensures
        r matches Some(t) ==> current < formula@.len() && formula@[current as int] == '/' && t@
            == key_token(Key::Division),
        r is None ==> !(current < formula@.len() && formula@[current as int] == '/'),
{
    tokenize_char(Kind::Operator, '/', formula, current)
}

/// Matches `*` at the given position.
pub fn tokenize_multiplication(formula: &String, current: usize) -> (r: Option<Token>)
    ensures
        r matches Some(t) ==> current < formula@.len() && formula@[current as int] == '*' && t@
            == key_token(Key::Multiplication),
        r is None ==> !(current < formula@.len() && formula@[current as int] == '*'),
{
    tokenize_char(Kind::Operator, '*', formula, current)
}

/// Matches `-` at the given position.
pub fn tokenize_subtration(formula: &String, current: usize) -> (r: Option<Token>)
    ensures
        r matches Some(t) ==> current < formula@.len() && formula@[current as int] == '-' && t@
            == key_token(Key::Subtraction),
        r is None ==> !(current < formula@.len() && formula@[current as int] == '-'),
{
    tokenize_char(Kind::Operator, '-', formula, current)
}

/// Matches `[` at the given position.
pub fn tokenize_box_bracket_open(formula: &String, current: usize) -> (r: Option<Token>)
    ensures
        r matches Some(t) ==> current < formula@.len() && formula@[current as int] == '[' && t@
            == key_token(Key::BoxOpen),
        r is None ==> !(current < formula@.len() && formula@[current as int] == '['),
{
    tokenize_bracket(formula, current, Key::BoxOpen, '[')
}

/// Matches `]` at the given position.
pub fn tokenize_box_bracket_close(formula: &String, current: usize) -> (r: Option<Token>)
    ensures
        r matches Some(t) ==> current < formula@.len() && formula@[current as int] == ']' && t@
            == key_token(Key::BoxClose),
        r is None ==> !(current < formula@.len() && formula@[current as int] == ']'),
{
    tokenize_bracket(formula, current, Key::BoxClose, ']')
}

/// Matches `{` at the given position.
pub fn tokenize_curly_bracket_open(formula: &String, current: usize) -> (r: Option<Token>)
    ensures
        r matches Some(t) ==> current < formula@.len() && formula@[current as int] == '{' && t@
            == key_token(Key::CurlyOpen),
        r is None ==> !(current < formula@.len() && formula@[current as int] == '{'),
{
    tokenize_bracket(formula, current, Key::CurlyOpen, '{')
}

/// Matches `}` at the given position.
pub fn tokenize_curly_bracket_close(formula: &String, current: usize) -> (r: Option<Token>)
    ensures
        r matches Some(t) ==> current < formula@.len() && formula@[current as int] == '}' && t@
            == key_token(Key::CurlyClose),
        r is None ==> !(current < formula@.len() && formula@[current as int] == '}'),
{
    tokenize_bracket(formula, current, Key::CurlyClose, '}')
}

/// Matches `(` at the given position.
pub fn tokenize_round_bracket_open(formula: &String, current: usize) -> (r: Option<Token>)
    ensures
        r matches Some(t) ==> current < formula@.len() && formula@[current as int] == '(' && t@
            == key_token(Key::RoundOpen),
        r is None ==> !(current < formula@.len() && formula@[current as int] == '('),
{
    tokenize_bracket(formula, current, Key::RoundOpen, '(')
}

/// Matches `)` at the given position.
pub fn tokenize_round_bracket_close(formula: &String, current: usize) -> (r: Option<Token>)
    ensures
        r matches Some(t) ==> current < formula@.len() && formula@[current as int] == ')' && t@
            == key_token(Key::RoundClose),
        r is None ==> !(current < formula@.len() && formula@[current as int] == ')'),
{
    tokenize_bracket(formula, current, Key::RoundClose, ')')
}

/// Matches the space at the given position.
pub fn tokenize_space(formula: &String, current: usize) -> (r: Option<Token>)
    ensures
        r matches Some(t) ==> current < formula@.len() && formula@[current as int] == ' ' && t@
            == key_token(Key::Space),
        r is None ==> !(current < formula@.len() && formula@[current as int] == ' '),
{
    tokenize_char(Kind::Space, ' ', formula, current)
}

/// Matches the dot at the given position.
pub fn tokenize_dot(formula: &String, current: usize) -> (r: Option<Token>)
    ensures
        r matches Some(t) ==> current < formula@.len() && formula@[current as int] == '.' && t@
            == key_token(Key::Dot),
        r is None ==> !(current < formula@.len() && formula@[current as int] == '.'),
{
    tokenize_char(Kind::Dot, '.', formula, current)
}

/// Matches any decimal digit at the given position.
pub fn tokenize_decimal_digit(formula: &String, current: usize) -> (r: Option<Token>)
    ensures
        r matches Some(t) ==> current < formula@.len() && key_kind(
            char_key_value(formula@[current as int]),
        ) == Kind::Digit && char_key(formula@[current as int]) is Some && t@ == key_token(
            char_key_value(formula@[current as int]),
        ),
        r is None ==> !(current < formula@.len() && char_key(formula@[current as int]) is Some
            && key_kind(char_key_value(formula@[current as int])) == Kind::Digit),
{
    let digits: [char; 10] = ['0', '1', '2', '3', '4', '5', '6', '7', '8', '9'];
    let mut i: usize = 0;
    while i < 10
        invariant
            i <= 10,
            digits@ =~= seq!['0', '1', '2', '3', '4', '5', '6', '7', '8', '9'],
            forall|j: int|
                0 <= j < i ==> !(current < formula@.len() && formula@[current as int]
                    == #[trigger] digits@[j]),
        decreases 10 - i,
    {
        let digit = digits[i];
        proof {
            assert(matcher_pair(Kind::Digit, digits@[i as int]));
        }
        if let Some(t) = tokenize_char(Kind::Digit, digit, formula, current) {
            return Some(t);
        }
        i = i + 1;
    }
    proof {
        if current < formula@.len() && char_key(formula@[current as int]) is Some && key_kind(
            char_key_value(formula@[current as int]),
        ) == Kind::Digit {
            let c = formula@[current as int];
            assert(exists|j: int| 0 <= j < 10 && digits@[j] == c);
        }
    }
    None
}

/// Scans the input left to right from the given position, appending one
/// single-key token per character to the given token list, and failing
/// with `UndefinedSymbol` at the first character that denotes no key.
pub fn run_tokenize(formula: String, tokens: Vec<Token>, current: usize) -> (r: Result<
    Vec<Token>,
    Error,
>)
    requires
        current <= formula@.len(),
    ensures
        ({
            let rest = formula@.skip(current as int);
            match spec_scan(rest) {
                Ok(ts) => r matches Ok(v) && v.deep_view() == tokens.deep_view() + ts,
                Err(e) => r matches Err(err) && err@ == e,
            }
        }),
{
    let ghost rest = formula@.skip(current as int);
    let n = formula.as_str().unicode_len();
    let mut out = tokens;
    let mut i = current;
    while i < n
        invariant
            current <= i <= n,
            n == formula@.len(),
            rest == formula@.skip(current as int),
            forall|j: int|
                current <= j < i ==> char_key(#[trigger] formula@[j]) is Some,
            out.deep_view() == tokens.deep_view() + scan_tokens(
                formula@.subrange(current as int, i as int),
            ),
        decreases n - i,
    {
        let token = {
            if let Some(t) = tokenize_addition(&formula, i) {
                Some(t)
            } else if let Some(t) = tokenize_box_bracket_close(&formula, i) {
                Some(t)
            } else if let Some(t) = tokenize_box_bracket_open(&formula, i) {
                Some(t)
            } else if let Some(t) = tokenize_curly_bracket_close(&formula, i) {
                Some(t)
            } else if let Some(t) = tokenize_curly_bracket_open(&formula, i) {
                Some(t)
            } else if let Some(t) = tokenize_decimal_digit(&formula, i) {
                Some(t)
            } else if let Some(t) = tokenize_division(&formula, i) {
                Some(t)
            } else if let Some(t) = tokenize_dot(&formula, i) {
                Some(t)
            } else if let Some(t) = tokenize_multiplication(&formula, i) {
                Some(t)
            } else if let Some(t) = tokenize_round_bracket_close(&formula, i) {
                Some(t)
            } else if let Some(t) = tokenize_round_bracket_open(&formula, i) {
                Some(t)
            } else if let Some(t) = tokenize_space(&formula, i) {
                Some(t)
            } else if let Some(t) = tokenize_subtration(&formula, i) {
                Some(t)
            } else {
                None
            }
        };
        match token {
            Some(t) => {
                proof {
                    let c = formula@[i as int];
                    assert(char_key(c) is Some && t@ == key_token(char_key_value(c)));
                }
                let ghost out0 = out.deep_view();
                out.push(t);
                proof {
                    let c = formula@[i as int];
                    assert(out.deep_view() =~= out0.push(t@));
                    assert(formula@.subrange(current as int, i + 1) =~= formula@.subrange(
                        current as int,
                        i as int,
                    ).push(c));
                    assert(scan_tokens(formula@.subrange(current as int, i + 1)) =~= scan_tokens(
                        formula@.subrange(current as int, i as int),
                    ).push(key_token(char_key_value(c))));
                    assert(out.deep_view() =~= tokens.deep_view() + scan_tokens(
                        formula@.subrange(current as int, i + 1),
                    ));
                }
                i = i + 1;
            },
            None => {
                proof {
                    let c = formula@[i as int];
                    assert(char_key(c) is None);
                    lemma_first_undefined_at(rest, i - current);
                    assert(rest.skip(i - current) =~= formula@.subrange(i as int, n as int));
                }
                let mut message = "Error: Undefined symbol start ".to_owned();
                let remainder = formula.as_str().substring_char(i, n);
                message.append(remainder);
                return Err(Error::UndefinedSymbol(message));
            },
        }
    }
    proof {
        assert(formula@.subrange(current as int, n as int) =~= rest);
        lemma_first_undefined_at(rest, rest.len() as int);
    }
    Ok(out)
}

/// Whether a token belongs to a digit/dot run.
pub open spec fn numeric_token(t: TokenV) -> bool {
    t.kind == Kind::Digit || t.kind == Kind::Dot
}

/// Whether a token belongs to a space run.
pub open spec fn space_token(t: TokenV) -> bool {
    t.kind == Kind::Space
}

/// The length of the maximal prefix of tokens satisfying `p`.
pub open spec fn run_len(ts: Seq<TokenV>, p: spec_fn(TokenV) -> bool) -> nat
    decreases ts.len(),
{
    if ts.len() == 0 || !p(ts[0]) {
        0
    } else {
        1 + run_len(ts.drop_first(), p)
    }
}

/// The length of the maximal digit/dot prefix.
pub open spec fn num_run_len(ts: Seq<TokenV>) -> nat {
    run_len(ts, |t: TokenV| numeric_token(t))
}

/// The length of the maximal space prefix.
pub open spec fn space_run_len(ts: Seq<TokenV>) -> nat {
    run_len(ts, |t: TokenV| space_token(t))
}

/// The keys of a token sequence, concatenated in order.
pub open spec fn runs_keys(ts: Seq<TokenV>) -> Seq<Key>
    decreases ts.len(),
{
    if ts.len() == 0 {
        Seq::empty()
    } else {
        runs_keys(ts.drop_last()) + ts.last().keys
    }
}

proof fn lemma_run_len_le(ts: Seq<TokenV>, p: spec_fn(TokenV) -> bool)
    ensures
        run_len(ts, p) <= ts.len(),
    decreases ts.len(),
{
    if ts.len() > 0 && p(ts[0]) {
        lemma_run_len_le(ts.drop_first(), p);
    }
}

proof fn lemma_run_len_is(ts: Seq<TokenV>, p: spec_fn(TokenV) -> bool, k: int)
    requires
        0 <= k <= ts.len(),
        forall|j: int| 0 <= j < k ==> p(#[trigger] ts[j]),
        k < ts.len() ==> !p(ts[k]),
    ensures
        run_len(ts, p) == k,
    decreases k,
{
    if k > 0 {
        lemma_run_len_is(ts.drop_first(), p, k - 1);
    }
}

proof fn lemma_runs_keys_push(ts: Seq<TokenV>, t: TokenV)
    ensures
        runs_keys(ts.push(t)) == runs_keys(ts) + t.keys,
{
    assert(ts.push(t).drop_last() =~= ts);
    assert(ts.push(t).last() == t);
}

/// The result of the digit/dot merge pass: every maximal run of digit and
/// dot tokens becomes one Number token carrying the run's keys, provided
/// the run is a valid numeral; other tokens are kept unchanged, in order.
pub open spec fn spec_merge_numbers(ts: Seq<TokenV>) -> Result<Seq<TokenV>, ErrorV>
    decreases ts.len(),
    via spec_merge_numbers_decreases
{
    if ts.len() == 0 {
        Ok(Seq::empty())
    } else if numeric_token(ts[0]) {
        let k = num_run_len(ts) as int;
        let ks = runs_keys(ts.take(k));
        if valid_number_keys(ks) {
            match spec_merge_numbers(ts.skip(k)) {
                Ok(rest) => Ok(seq![TokenV { kind: Kind::Number, keys: ks }] + rest),
                Err(e) => Err(e),
            }
        } else {
            Err(ErrorV::InvalidNumberLiteral)
        }
    } else {
        match spec_merge_numbers(ts.drop_first()) {
            Ok(rest) => Ok(seq![ts[0]] + rest),
            Err(e) => Err(e),
        }
    }
}

#[via_fn]
proof fn spec_merge_numbers_decreases(ts: Seq<TokenV>) {
    if ts.len() > 0 && numeric_token(ts[0]) {
        lemma_run_len_le(ts, |t: TokenV| numeric_token(t));
    }
}

/// The result of the space merge pass: every maximal run of space tokens
/// becomes one Space token carrying the run's keys; other tokens are kept
/// unchanged, in order.
pub open spec fn spec_join_spaces(ts: Seq<TokenV>) -> Seq<TokenV>
    decreases ts.len(),
    via spec_join_spaces_decreases
{
    if ts.len() == 0 {
        Seq::empty()
    } else if space_token(ts[0]) {
        let k = space_run_len(ts) as int;
        seq![TokenV { kind: Kind::Space, keys: runs_keys(ts.take(k)) }] + spec_join_spaces(
            ts.skip(k),
        )
    } else {
        seq![ts[0]] + spec_join_spaces(ts.drop_first())
    }
}

#[via_fn]
proof fn spec_join_spaces_decreases(ts: Seq<TokenV>) {
    if ts.len() > 0 && space_token(ts[0]) {
        lemma_run_len_le(ts, |t: TokenV| space_token(t));
    }
}

fn clone_keys(keys: &Vec<Key>) -> (r: Vec<Key>)
    ensures
        r@ == keys@,
{
    let mut r: Vec<Key> = Vec::new();
    let mut i: usize = 0;
    while i < keys.len()
        invariant
            i <= keys.len(),
            r@ == keys@.take(i as int),
        decreases keys.len() - i,
    {
        r.push(keys[i]);
        proof {
            assert(keys@.take(i + 1) =~= keys@.take(i as int).push(keys@[i as int]));
        }
        i = i + 1;
    }
    proof {
        assert(keys@.take(keys@.len() as int) =~= keys@);
    }
    r
}

/// Whether a key sequence is a valid numeral; see `valid_number_keys`.
fn check_number_keys(keys: &Vec<Key>) -> (r: bool)
    ensures
        r == valid_number_keys(keys@),
{
    let n = keys.len();
    if n == 0 {
        return false;
    }
    if keys[0] == Key::Dot || keys[n - 1] == Key::Dot {
        return false;
    }
    let mut dots: usize = 0;
    let mut i: usize = 0;
    proof {
        assert(keys@.take(0) =~= Seq::<Key>::empty());
    }
    while i < n
        invariant
            i <= n,
            n == keys@.len(),
            dots <= i,
            dots as int == dot_count(keys@.take(i as int)),
            forall|j: int|
                0 <= j < i ==> key_kind(#[trigger] keys@[j]) == Kind::Digit || keys@[j]
                    == Key::Dot,
        decreases n - i,
    {
        let kind = keys[i].kind();
        if !(kind == Kind::Digit || kind == Kind::Dot) {
            return false;
        }
        if keys[i] == Key::Dot {
            dots = dots + 1;
        }
        proof {
            assert(keys@.take(i + 1).drop_last() =~= keys@.take(i as int));
            assert(keys@.take(i + 1).last() == keys@[i as int]);
        }
        i = i + 1;
    }
    proof {
        assert(keys@.take(n as int) =~= keys@);
    }
    dots <= 1
}

/// Merges every maximal run of digit and dot tokens into one Number
/// token, failing with `InvalidNumberLiteral` when a run starts or ends
/// with a dot or holds two dots; see `spec_merge_numbers`.
pub fn digits_into_number(tokens: Vec<Token>) -> (r: Result<Vec<Token>, Error>)
    ensures
        result_view(r) == spec_merge_numbers(tokens.deep_view()),
{
    let ghost ts = tokens.deep_view();
    let mut out: Vec<Token> = Vec::new();
    let mut i: usize = 0;
    proof {
        assert(ts.skip(0) =~= ts);
        if let Ok(rest) = spec_merge_numbers(ts) {
            assert(out.deep_view() + rest =~= rest);
        }
    }
    while i < tokens.len()
        invariant
            i <= tokens.len(),
            ts == tokens.deep_view(),
            match spec_merge_numbers(ts.skip(i as int)) {
                Ok(rest) => spec_merge_numbers(ts) == Ok::<Seq<TokenV>, ErrorV>(
                    out.deep_view() + rest,
                ),
                Err(e) => spec_merge_numbers(ts) == Err::<Seq<TokenV>, ErrorV>(e),
            },
        decreases tokens.len() - i,
    {
        let ghost suffix = ts.skip(i as int);
        let t_kind = tokens[i].kind;
        if t_kind == Kind::Digit || t_kind == Kind::Dot {
            let mut ks: Vec<Key> = Vec::new();
            let mut j = i;
            while j < tokens.len() && (tokens[j].kind == Kind::Digit || tokens[j].kind
                == Kind::Dot)
                invariant
                    i <= j <= tokens.len(),
                    ts == tokens.deep_view(),
                    forall|m: int| i <= m < j ==> numeric_token(#[trigger] ts[m]),
                    ks@ == runs_keys(ts.subrange(i as int, j as int)),
                decreases tokens.len() - j,
            {
                let mut kk = clone_keys(&tokens[j].keys);
                ks.append(&mut kk);
                proof {
                    assert(ts.subrange(i as int, j + 1) =~= ts.subrange(i as int, j as int).push(
                        ts[j as int],
                    ));
                    lemma_runs_keys_push(ts.subrange(i as int, j as int), ts[j as int]);
                }
                j = j + 1;
            }
            proof {
                lemma_run_len_is(suffix, |t: TokenV| numeric_token(t), j - i);
                assert(suffix.take(j - i) =~= ts.subrange(i as int, j as int));
            }
            if !check_number_keys(&ks) {
                return Err(Error::InvalidNumberLiteral);
            }
            let merged = Token::new_number(ks);
            let ghost out0 = out.deep_view();
            out.push(merged);
            proof {
                assert(out.deep_view() =~= out0.push(merged@));
                assert(suffix.skip(j - i) =~= ts.skip(j as int));
                if let Ok(rest) = spec_merge_numbers(ts.skip(j as int)) {
                    assert(out.deep_view() + rest =~= out0 + (seq![merged@] + rest));
                }
            }
            i = j;
        } else {
            let kept = Token { kind: t_kind, keys: clone_keys(&tokens[i].keys) };
            let ghost out0 = out.deep_view();
            out.push(kept);
            proof {
                assert(kept@ == ts[i as int]);
                assert(out.deep_view() =~= out0.push(ts[i as int]));
                assert(suffix.drop_first() =~= ts.skip(i + 1));
                if let Ok(rest) = spec_merge_numbers(ts.skip(i + 1)) {
                    assert(out.deep_view() + rest =~= out0 + (seq![ts[i as int]] + rest));
                }
            }
            i = i + 1;
        }
    }
    proof {
        assert(ts.skip(tokens@.len() as int) =~= Seq::<TokenV>::empty());
        if let Ok(rest) = spec_merge_numbers(ts.skip(tokens@.len() as int)) {
            assert(out.deep_view() + rest =~= out.deep_view());
        }
    }
    Ok(out)
}

/// Merges every maximal run of space tokens into one Space token holding
/// the run's keys; see `spec_join_spaces`.
pub fn join_spaces(tokens: Vec<Token>) -> (r: Vec<Token>)
    ensures
        r.deep_view() == spec_join_spaces(tokens.deep_view()),
{
    let ghost ts = tokens.deep_view();
    let mut out: Vec<Token> = Vec::new();
    let mut i: usize = 0;
    proof {
        assert(ts.skip(0) =~= ts);
        assert(out.deep_view() + spec_join_spaces(ts) =~= spec_join_spaces(ts));
    }
    while i < tokens.len()
        invariant
            i <= tokens.len(),
            ts == tokens.deep_view(),
            spec_join_spaces(ts) == out.deep_view() + spec_join_spaces(ts.skip(i as int)),
        decreases tokens.len() - i,
    {
        let ghost suffix = ts.skip(i as int);
        let t_kind = tokens[i].kind;
        if t_kind == Kind::Space {
            let mut ks: Vec<Key> = Vec::new();
            let mut j = i;
            while j < tokens.len() && tokens[j].kind == Kind::Space
                invariant
                    i <= j <= tokens.len(),
                    ts == tokens.deep_view(),
                    forall|m: int| i <= m < j ==> space_token(#[trigger] ts[m]),
                    ks@ == runs_keys(ts.subrange(i as int, j as int)),
                decreases tokens.len() - j,
            {
                let mut kk = clone_keys(&tokens[j].keys);
                ks.append(&mut kk);
                proof {
                    assert(ts.subrange(i as int, j + 1) =~= ts.subrange(i as int, j as int).push(
                        ts[j as int],
                    ));
                    lemma_runs_keys_push(ts.subrange(i as int, j as int), ts[j as int]);
                }
                j = j + 1;
            }
            proof {
                lemma_run_len_is(suffix, |t: TokenV| space_token(t), j - i);
                assert(suffix.take(j - i) =~= ts.subrange(i as int, j as int));
            }
            let merged = Token { kind: Kind::Space, keys: ks };
            let ghost out0 = out.deep_view();
            out.push(merged);
            proof {
                assert(out.deep_view() =~= out0.push(merged@));
                assert(suffix.skip(j - i) =~= ts.skip(j as int));
                assert(out.deep_view() + spec_join_spaces(ts.skip(j as int)) =~= out0 + (seq![
                    merged@,
                ] + spec_join_spaces(ts.skip(j as int))));
            }
            i = j;
        } else {
            let kept = Token { kind: t_kind, keys: clone_keys(&tokens[i].keys) };
            let ghost out0 = out.deep_view();
            out.push(kept);
            proof {
                assert(kept@ == ts[i as int]);
                assert(out.deep_view() =~= out0.push(ts[i as int]));
                assert(suffix.drop_first() =~= ts.skip(i + 1));
                assert(out.deep_view() + spec_join_spaces(ts.skip(i + 1)) =~= out0 + (seq![
                    ts[i as int],
                ] + spec_join_spaces(ts.skip(i + 1))));
            }
            i = i + 1;
        }
    }
    proof {
        assert(ts.skip(tokens@.len() as int) =~= Seq::<TokenV>::empty());
        assert(out.deep_view() + spec_join_spaces(ts.skip(tokens@.len() as int)) =~= out.deep_view());
    }
    out
}

/// The result of the whole tokenizer: scan, then digit/dot merge, then
/// space merge.
pub open spec fn spec_tokenize(s: Seq<char>) -> Result<Seq<TokenV>, ErrorV> {
    match spec_scan(s) {
        Err(e) => Err(e),
        Ok(ts) => match spec_merge_numbers(ts) {
            Err(e) => Err(e),
            Ok(merged) => Ok(spec_join_spaces(merged)),
        },
    }
}

/// Converts a formula into its token sequence; see `spec_tokenize`.
pub fn tokenize(formula: String) -> (r: Result<Vec<Token>, Error>)
    ensures
        result_view(r) == spec_tokenize(formula@),
{
    let ghost s = formula@;
    let tokens: Vec<Token> = Vec::new();
    let current: usize = 0;
    proof {
        assert(s.skip(0) =~= s);
    }
    match run_tokenize(formula, tokens, current) {
        Err(e) => Err(e),
        Ok(scanned) => {
            proof {
                if let Ok(ts) = spec_scan(s) {
                    assert(scanned.deep_view() =~= ts);
                }
            }
            match digits_into_number(scanned) {
                Err(e) => Err(e),
                Ok(merged) => Ok(join_spaces(merged)),
            }
        },
    }
}

proof fn lemma_key_token_wf(k: Key)
    ensures
        token_wf(key_token(k)),
{
    assert(key_token(k).keys[0] == k);
}

proof fn lemma_run_len_prefix(ts: Seq<TokenV>, p: spec_fn(TokenV) -> bool)
    ensures
        forall|j: int| 0 <= j < run_len(ts, p) ==> p(#[trigger] ts[j]),
    decreases ts.len(),
{
    if ts.len() > 0 && p(ts[0]) {
        lemma_run_len_prefix(ts.drop_first(), p);
        lemma_run_len_le(ts.drop_first(), p);
        assert forall|j: int| 0 <= j < run_len(ts, p) implies p(#[trigger] ts[j]) by {
            if j > 0 {
                assert(ts.drop_first()[j - 1] == ts[j]);
            }
        }
    }
}

proof fn lemma_runs_keys_space(run: Seq<TokenV>)
    requires
        run.len() > 0,
        forall|i: int| 0 <= i < run.len() ==> (#[trigger] run[i]).kind == Kind::Space,
        forall|i: int| 0 <= i < run.len() ==> token_wf(#[trigger] run[i]),
    ensures
        runs_keys(run).len() > 0,
        forall|j: int| 0 <= j < runs_keys(run).len() ==> #[trigger] runs_keys(run)[j]
            == Key::Space,
    decreases run.len(),
{
    if run.len() == 1 {
        assert(run.drop_last() =~= Seq::<TokenV>::empty());
        assert(token_wf(run.last()));
    } else {
        lemma_runs_keys_space(run.drop_last());
        assert(token_wf(run.last()));
    }
}

/// Every token that the digit/dot merge produces satisfies the token
/// invariant, provided the input tokens did.
pub proof fn lemma_merge_numbers_wf(ts: Seq<TokenV>)
    requires
        tokens_wf(ts),
    ensures
        spec_merge_numbers(ts) matches Ok(out) ==> tokens_wf(out),
    decreases ts.len(),
{
    if ts.len() == 0 {
    } else if numeric_token(ts[0]) {
        lemma_run_len_le(ts, |t: TokenV| numeric_token(t));
        let k = num_run_len(ts) as int;
        let ks = runs_keys(ts.take(k));
        if valid_number_keys(ks) {
            assert(tokens_wf(ts.skip(k))) by {
                assert forall|i: int| 0 <= i < ts.skip(k).len() implies token_wf(
                    #[trigger] ts.skip(k)[i],
                ) by {
                    assert(ts.skip(k)[i] == ts[k + i]);
                }
            }
            lemma_merge_numbers_wf(ts.skip(k));
            if let Ok(rest) = spec_merge_numbers(ts.skip(k)) {
                let merged = TokenV { kind: Kind::Number, keys: ks };
                assert(token_wf(merged));
                assert forall|i: int| 0 <= i < (seq![merged] + rest).len() implies token_wf(
                    #[trigger] (seq![merged] + rest)[i],
                ) by {
                    if i > 0 {
                        assert((seq![merged] + rest)[i] == rest[i - 1]);
                    }
                }
            }
        }
    } else {
        assert(tokens_wf(ts.drop_first())) by {
            assert forall|i: int| 0 <= i < ts.drop_first().len() implies token_wf(
                #[trigger] ts.drop_first()[i],
            ) by {
                assert(ts.drop_first()[i] == ts[i + 1]);
            }
        }
        lemma_merge_numbers_wf(ts.drop_first());
        if let Ok(rest) = spec_merge_numbers(ts.drop_first()) {
            assert forall|i: int| 0 <= i < (seq![ts[0]] + rest).len() implies token_wf(
                #[trigger] (seq![ts[0]] + rest)[i],
            ) by {
                if i > 0 {
                    assert((seq![ts[0]] + rest)[i] == rest[i - 1]);
                }
            }
        }
    }
}

/// Every token that the space merge produces satisfies the token
/// invariant, provided the input tokens did.
pub proof fn lemma_join_spaces_wf(ts: Seq<TokenV>)
    requires
        tokens_wf(ts),
    ensures
        tokens_wf(spec_join_spaces(ts)),
    decreases ts.len(),
{
    if ts.len() == 0 {
    } else if space_token(ts[0]) {
        lemma_run_len_le(ts, |t: TokenV| space_token(t));
        lemma_run_len_prefix(ts, |t: TokenV| space_token(t));
        let k = space_run_len(ts) as int;
        let run = ts.take(k);
        assert forall|i: int| 0 <= i < run.len() implies (#[trigger] run[i]).kind == Kind::Space
            && token_wf(run[i]) by {
            assert(run[i] == ts[i]);
        }
        lemma_runs_keys_space(run);
        let merged = TokenV { kind: Kind::Space, keys: runs_keys(run) };
        assert(token_wf(merged));
        assert(tokens_wf(ts.skip(k))) by {
            assert forall|i: int| 0 <= i < ts.skip(k).len() implies token_wf(
                #[trigger] ts.skip(k)[i],
            ) by {
                assert(ts.skip(k)[i] == ts[k + i]);
            }
        }
        lemma_join_spaces_wf(ts.skip(k));
        let rest = spec_join_spaces(ts.skip(k));
        assert forall|i: int| 0 <= i < (seq![merged] + rest).len() implies token_wf(
            #[trigger] (seq![merged] + rest)[i],
        ) by {
            if i > 0 {
                assert((seq![merged] + rest)[i] == rest[i - 1]);
            }
        }
    } else {
        assert(tokens_wf(ts.drop_first())) by {
            assert forall|i: int| 0 <= i < ts.drop_first().len() implies token_wf(
                #[trigger] ts.drop_first()[i],
            ) by {
                assert(ts.drop_first()[i] == ts[i + 1]);
            }
        }
        lemma_join_spaces_wf(ts.drop_first());
        let rest = spec_join_spaces(ts.drop_first());
        assert forall|i: int| 0 <= i < (seq![ts[0]] + rest).len() implies token_wf(
            #[trigger] (seq![ts[0]] + rest)[i],
        ) by {
            if i > 0 {
                assert((seq![ts[0]] + rest)[i] == rest[i - 1]);
            }
        }
    }
}

/// Every token that the tokenizer returns satisfies the token
/// invariant.
pub proof fn lemma_tokenize_wf(s: Seq<char>)
    ensures
        spec_tokenize(s) matches Ok(out) ==> tokens_wf(out),
{
    if all_keys(s) {
        assert forall|i: int| 0 <= i < scan_tokens(s).len() implies token_wf(
            #[trigger] scan_tokens(s)[i],
        ) by {
            lemma_key_token_wf(char_key_value(s[i]));
        }
        lemma_merge_numbers_wf(scan_tokens(s));
        if let Ok(merged) = spec_merge_numbers(scan_tokens(s)) {
            lemma_join_spaces_wf(merged);
        }
    }
}

proof fn lemma_join_spaces_first(ts: Seq<TokenV>)
    requires
        ts.len() > 0,
    ensures
        spec_join_spaces(ts).len() > 0,
        space_token(ts[0]) ==> spec_join_spaces(ts)[0].kind == Kind::Space,
        !space_token(ts[0]) ==> spec_join_spaces(ts)[0] == ts[0],
{
    if space_token(ts[0]) {
        lemma_run_len_le(ts, |t: TokenV| space_token(t));
    }
}

/// Each run of spaces collapses into one token: the space merge leaves
/// no two adjacent Space tokens.
#[verifier::rlimit(50)]
pub proof fn lemma_join_spaces_no_adjacent(ts: Seq<TokenV>)
    ensures
        forall|i: int|
            0 <= i && i + 1 < spec_join_spaces(ts).len() ==> !((#[trigger] spec_join_spaces(
                ts,
            )[i]).kind == Kind::Space && spec_join_spaces(ts)[i + 1].kind == Kind::Space),
    decreases ts.len(),
{
    if ts.len() == 0 {
    } else if space_token(ts[0]) {
        lemma_run_len_le(ts, |t: TokenV| space_token(t));
        lemma_run_len_is_max(ts);
        let k = space_run_len(ts) as int;
        let rest = ts.skip(k);
        lemma_join_spaces_no_adjacent(rest);
        let out = spec_join_spaces(ts);
        let merged = TokenV { kind: Kind::Space, keys: runs_keys(ts.take(k)) };
        assert(out == seq![merged] + spec_join_spaces(rest));
        assert forall|i: int|
            0 <= i && i + 1 < out.len() implies !((#[trigger] out[i]).kind == Kind::Space && out[i
            + 1].kind == Kind::Space) by {
            if i == 0 {
                if rest.len() > 0 {
                    lemma_join_spaces_first(rest);
                    assert(!space_token(rest[0]));
                    assert(out[1] == spec_join_spaces(rest)[0]);
                }
            } else {
                assert(out[i] == spec_join_spaces(rest)[i - 1]);
                assert(out[i + 1] == spec_join_spaces(rest)[i]);
            }
        }
    } else {
        let rest = ts.drop_first();
        lemma_join_spaces_no_adjacent(rest);
        let out = spec_join_spaces(ts);
        assert(out == seq![ts[0]] + spec_join_spaces(rest));
        assert forall|i: int|
            0 <= i && i + 1 < out.len() implies !((#[trigger] out[i]).kind == Kind::Space && out[i
            + 1].kind == Kind::Space) by {
            if i > 0 {
                assert(out[i] == spec_join_spaces(rest)[i - 1]);
                assert(out[i + 1] == spec_join_spaces(rest)[i]);
            }
        }
    }
}

proof fn lemma_run_len_is_max(ts: Seq<TokenV>)
    requires
        ts.len() > 0,
        space_token(ts[0]),
    ensures
        space_run_len(ts) <= ts.len(),
        space_run_len(ts) < ts.len() ==> !space_token(ts[space_run_len(ts) as int]),
    decreases ts.len(),
{
    lemma_run_len_le(ts, |t: TokenV| space_token(t));
    assert(space_run_len(ts) == 1 + space_run_len(ts.drop_first()));
    if ts.len() > 1 && space_token(ts.drop_first()[0]) {
        lemma_run_len_is_max(ts.drop_first());
        let k = space_run_len(ts) as int;
        if k < ts.len() {
            assert(ts.drop_first()[k - 1] == ts[k]);
        }
    } else {
        assert(space_run_len(ts.drop_first()) == 0);
        if ts.len() > 1 {
            assert(ts.drop_first()[0] == ts[1]);
        }
    }
}

proof fn lemma_runs_keys_concat(a: Seq<TokenV>, b: Seq<TokenV>)
    ensures
        runs_keys(a + b) == runs_keys(a) + runs_keys(b),
    decreases b.len(),
{
    if b.len() == 0 {
        assert(a + b =~= a);
        assert(runs_keys(a) + runs_keys(b) =~= runs_keys(a));
    } else {
        assert((a + b).drop_last() =~= a + b.drop_last());
        lemma_runs_keys_concat(a, b.drop_last());
        assert((a + b).last() == b.last());
        assert(runs_keys(a) + runs_keys(b.drop_last()) + b.last().keys =~= runs_keys(a) + (
        runs_keys(b.drop_last()) + b.last().keys));
    }
}

/// The space merge keeps every key: the keys of the merged sequence,
/// concatenated in order, are exactly the keys of the input.
pub proof fn lemma_join_spaces_keys(ts: Seq<TokenV>)
    ensures
        runs_keys(spec_join_spaces(ts)) == runs_keys(ts),
    decreases ts.len(),
{
    if ts.len() == 0 {
    } else if space_token(ts[0]) {
        lemma_run_len_le(ts, |t: TokenV| space_token(t));
        let k = space_run_len(ts) as int;
        let merged = TokenV { kind: Kind::Space, keys: runs_keys(ts.take(k)) };
        lemma_join_spaces_keys(ts.skip(k));
        lemma_runs_keys_concat(seq![merged], spec_join_spaces(ts.skip(k)));
        assert(runs_keys(seq![merged]) =~= merged.keys) by {
            assert(seq![merged].len() == 1);
            assert(seq![merged].last() == merged);
            assert(seq![merged].drop_last() =~= Seq::<TokenV>::empty());
            assert(runs_keys(Seq::<TokenV>::empty()) =~= Seq::<Key>::empty());
        }
        lemma_runs_keys_concat(ts.take(k), ts.skip(k));
        assert(ts.take(k) + ts.skip(k) =~= ts);
    } else {
        lemma_join_spaces_keys(ts.drop_first());
        lemma_runs_keys_concat(seq![ts[0]], spec_join_spaces(ts.drop_first()));
        assert(runs_keys(seq![ts[0]]) =~= ts[0].keys) by {
            assert(seq![ts[0]].len() == 1);
            assert(seq![ts[0]].last() == ts[0]);
            assert(seq![ts[0]].drop_last() =~= Seq::<TokenV>::empty());
            assert(runs_keys(Seq::<TokenV>::empty()) =~= Seq::<Key>::empty());
        }
        lemma_runs_keys_concat(seq![ts[0]], ts.drop_first());
        assert(seq![ts[0]] + ts.drop_first() =~= ts);
    }
}

/// The keys classified under a kind, in declaration order.
pub open spec fn kind_keys(kind: Kind) -> Seq<Key> {
    match kind {
        Kind::Bracket => seq![
            Key::RoundOpen,
            Key::RoundClose,
            Key::BoxOpen,
            Key::BoxClose,
            Key::CurlyOpen,
            Key::CurlyClose,
        ],
        Kind::Operator => seq![Key::Addition, Key::Subtraction, Key::Multiplication, Key::Division],
        Kind::Number => seq![
            Key::Dot,
            Key::Zero,
            Key::One,
            Key::Two,
            Key::Three,
            Key::Four,
            Key::Five,
            Key::Six,
            Key::Seven,
            Key::Eight,
            Key::Nine,
        ],
        Kind::Digit => seq![
            Key::Zero,
            Key::One,
            Key::Two,
            Key::Three,
            Key::Four,
            Key::Five,
            Key::Six,
            Key::Seven,
            Key::Eight,
            Key::Nine,
        ],
        Kind::Dot => seq![Key::Dot],
        Kind::Space => seq![Key::Space],
    }
}

} // verus!
