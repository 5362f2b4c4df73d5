use vstd::prelude::*;
use vstd::slice::slice_subrange;
use crate::text::{chars_of, string_of};

verus! {

/// What a literal token denotes, in mathematical terms.
pub enum LiteralView {
    Str(Seq<char>),
    Int(int),
    Float(Seq<char>),
    Bool(bool),
}

/// What a token denotes, in mathematical terms.
pub enum TokenView {
    Let,
    Extern,
    Assign,
    Ident(Seq<char>),
    Pipe,
    Literal(LiteralView),
    Indent,
    Comment,
}

/// A literal value. A float literal keeps the text it was written as
/// (for instance `0.1234` or `-1e3`); turning that text into a number is
/// left to the consumer.
#[derive(Debug, PartialEq, Clone)]
pub enum Literal {
    String(String),
    Int(i64),
    Float(String),
    Bool(bool),
}

impl View for Literal {
    type V = LiteralView;

    open spec fn view(&self) -> LiteralView {
        match self {
            Literal::String(s) => LiteralView::Str(s@),
            Literal::Int(n) => LiteralView::Int(*n as int),
            Literal::Float(s) => LiteralView::Float(s@),
            Literal::Bool(b) => LiteralView::Bool(*b),
        }
    }
}

#[derive(Debug, PartialEq, Clone)]
pub enum Token {
    /// let
    Let,
    /// extern
    Extern,
    /// =
    Assign,
    /// any identifier
    Ident(String),
    /// |>
    Pipe,
    /// A literal value
    Literal(Literal),
    /// 4 spaces
    Indent,
    Comment,
}

impl View for Token {
    type V = TokenView;

    open spec fn view(&self) -> TokenView {
        match self {
            Token::Let => TokenView::Let,
            Token::Extern => TokenView::Extern,
            Token::Assign => TokenView::Assign,
            Token::Ident(s) => TokenView::Ident(s@),
            Token::Pipe => TokenView::Pipe,
            Token::Literal(l) => TokenView::Literal(l@),
            Token::Indent => TokenView::Indent,
            Token::Comment => TokenView::Comment,
        }
    }
}

// ---------------------------------------------------------------------------
// Character classes

pub open spec fn is_space(c: char) -> bool {
    c == ' ' || c == '\t' || c == '\r' || c == '\n'
}

pub open spec fn is_digit(c: char) -> bool {
    '0' <= c <= '9'
}

pub open spec fn is_alnum(c: char) -> bool {
    is_digit(c) || ('a' <= c <= 'z') || ('A' <= c <= 'Z')
}

pub open spec fn digit_value(c: char) -> int {
    (c as u32) as int - 48
}

// ---------------------------------------------------------------------------
// Scanning helpers over a character sequence and a position

/// The first position at or after `i` that does not hold whitespace.
pub open spec fn skip_spaces(s: Seq<char>, i: int) -> int
    decreases s.len() - i,
{
    if 0 <= i < s.len() && is_space(s[i]) {
        skip_spaces(s, i + 1)
    } else {
        i
    }
}

/// The end of the run of decimal digits that starts at `i`.
pub open spec fn end_of_digits(s: Seq<char>, i: int) -> int
    decreases s.len() - i,
{
    if 0 <= i < s.len() && is_digit(s[i]) {
        end_of_digits(s, i + 1)
    } else {
        i
    }
}

/// The end of the run of ASCII letters and digits that starts at `i`.
pub open spec fn end_of_alnum(s: Seq<char>, i: int) -> int
    decreases s.len() - i,
{
    if 0 <= i < s.len() && is_alnum(s[i]) {
        end_of_alnum(s, i + 1)
    } else {
        i
    }
}

/// The first position at or after `i` holding a carriage return or a line
/// feed, or the end of the text.
pub open spec fn end_of_line(s: Seq<char>, i: int) -> int
    decreases s.len() - i,
{
    if 0 <= i < s.len() && s[i] != '\r' && s[i] != '\n' {
        end_of_line(s, i + 1)
    } else {
        i
    }
}

/// `w` occurs in `s` at position `i`.
pub open spec fn has_at(s: Seq<char>, i: int, w: Seq<char>) -> bool {
    0 <= i && i + w.len() <= s.len() && s.subrange(i, i + w.len()) == w
}

/// `c` is the lower-case letter `l` or its upper-case form.
pub open spec fn same_letter(c: char, l: char) -> bool {
    c == l || (c as u32) + 32 == (l as u32)
}

/// The lower-case word `w` occurs at `i`, ignoring ASCII case.
pub open spec fn has_at_caseless(s: Seq<char>, i: int, w: Seq<char>) -> bool {
    &&& 0 <= i
    &&& i + w.len() <= s.len()
    &&& forall|k: int| 0 <= k < w.len() ==> same_letter(#[trigger] s[i + k], w[k])
}

proof fn lemma_skip_spaces(s: Seq<char>, i: int)
    requires
        0 <= i <= s.len(),
    ensures
        i <= skip_spaces(s, i) <= s.len(),
        skip_spaces(s, skip_spaces(s, i)) == skip_spaces(s, i),
        forall|k: int| i <= k < skip_spaces(s, i) ==> is_space(s[k]),
    decreases s.len() - i,
{
    if i < s.len() && is_space(s[i]) {
        lemma_skip_spaces(s, i + 1);
    }
}

proof fn lemma_end_of_digits(s: Seq<char>, i: int)
    requires
        0 <= i <= s.len(),
    ensures
        i <= end_of_digits(s, i) <= s.len(),
        forall|k: int| i <= k < end_of_digits(s, i) ==> is_digit(s[k]),
    decreases s.len() - i,
{
    if i < s.len() && is_digit(s[i]) {
        lemma_end_of_digits(s, i + 1);
    }
}

fn char_is_space(c: char) -> (r: bool)
    ensures
        r == is_space(c),
{
    c == ' ' || c == '\t' || c == '\r' || c == '\n'
}

fn char_is_digit(c: char) -> (r: bool)
    ensures
        r == is_digit(c),
{
    '0' <= c && c <= '9'
}

fn char_is_alnum(c: char) -> (r: bool)
    ensures
        r == is_alnum(c),
{
    ('0' <= c && c <= '9') || ('a' <= c && c <= 'z') || ('A' <= c && c <= 'Z')
}

fn scan_spaces(s: &Vec<char>, i: usize) -> (r: usize)
    requires
        i <= s@.len(),
    ensures
        r == skip_spaces(s@, i as int),
        i <= r <= s@.len(),
{
    let mut j = i;
    while j < s.len() && char_is_space(s[j])
        invariant
            i <= j <= s@.len(),
            skip_spaces(s@, j as int) == skip_spaces(s@, i as int),
        decreases s@.len() - j,
    {
        j = j + 1;
    }
    j
}

fn scan_digits(s: &Vec<char>, i: usize) -> (r: usize)
    requires
        i <= s@.len(),
    ensures
        r == end_of_digits(s@, i as int),
        i <= r <= s@.len(),
{
    let mut j = i;
    while j < s.len() && char_is_digit(s[j])
        invariant
            i <= j <= s@.len(),
            end_of_digits(s@, j as int) == end_of_digits(s@, i as int),
        decreases s@.len() - j,
    {
        j = j + 1;
    }
    j
}

fn scan_alnum(s: &Vec<char>, i: usize) -> (r: usize)
    requires
        i <= s@.len(),
    ensures
        r == end_of_alnum(s@, i as int),
        i <= r <= s@.len(),
{
    let mut j = i;
    while j < s.len() && char_is_alnum(s[j])
        invariant
            i <= j <= s@.len(),
            end_of_alnum(s@, j as int) == end_of_alnum(s@, i as int),
        decreases s@.len() - j,
    {
        j = j + 1;
    }
    j
}

fn scan_line(s: &Vec<char>, i: usize) -> (r: usize)
    requires
        i <= s@.len(),
    ensures
        r == end_of_line(s@, i as int),
        i <= r <= s@.len(),
{
    let mut j = i;
    while j < s.len() && s[j] != '\r' && s[j] != '\n'
        invariant
            i <= j <= s@.len(),
            end_of_line(s@, j as int) == end_of_line(s@, i as int),
        decreases s@.len() - j,
    {
        j = j + 1;
    }
    j
}

fn word_at(s: &Vec<char>, i: usize, w: &[char]) -> (r: bool)
    requires
        i <= s@.len(),
    ensures
        r == has_at(s@, i as int, w@),
        r ==> i + w@.len() <= s.len(),
{
    if w.len() > s.len() - i {
        return false;
    }
    let mut k: usize = 0;
    while k < w.len()
        invariant
            k <= w@.len(),
            i + w@.len() <= s@.len() <= usize::MAX,
            forall|m: int| 0 <= m < k ==> s@[i + m] == w@[m],
        decreases w@.len() - k,
    {
        if s[i + k] != w[k] {
            assert(s@.subrange(i as int, i + w@.len())[k as int] != w@[k as int]);
            return false;
        }
        k = k + 1;
    }
    assert(s@.subrange(i as int, i + w@.len()) =~= w@);
    true
}

fn word_at_caseless(s: &Vec<char>, i: usize, w: &[char]) -> (r: bool)
    requires
        i <= s@.len(),
        forall|k: int| 0 <= k < w@.len() ==> 'a' <= #[trigger] w@[k] <= 'z',
    ensures
        r == has_at_caseless(s@, i as int, w@),
{
    if w.len() > s.len() - i {
        return false;
    }
    let mut k: usize = 0;
    while k < w.len()
        invariant
            k <= w@.len(),
            i + w@.len() <= s@.len() <= usize::MAX,
            forall|k: int| 0 <= k < w@.len() ==> 'a' <= #[trigger] w@[k] <= 'z',
            forall|m: int| 0 <= m < k ==> same_letter(#[trigger] s@[i + m], w@[m]),
        decreases w@.len() - k,
    {
        let c = s[i + k];
        let l = w[k];
        if !(c == l || (c as u32) == (l as u32) - 32) {
            return false;
        }
        k = k + 1;
    }
    true
}


// ---------------------------------------------------------------------------
// Literals

/// The position after an optional leading `+` or `-`.
pub open spec fn after_sign(s: Seq<char>, i: int) -> int {
    if 0 <= i < s.len() && (s[i] == '+' || s[i] == '-') {
        i + 1
    } else {
        i
    }
}

/// The number written by a run of decimal digits.
pub open spec fn digits_value(d: Seq<char>) -> int
    decreases d.len(),
{
    if d.len() == 0 {
        0
    } else {
        digits_value(d.drop_last()) * 10 + digit_value(d.last())
    }
}

/// An integer literal with value `v` ending at `e` is kept only if `v` fits
/// in 64 bits and the literal is not the start of a float.
pub open spec fn int_accept(s: Seq<char>, v: int, e: int) -> Option<(int, int)> {
    if i64::MIN <= v <= i64::MAX && !(e < s.len() && (s[e] == '.' || s[e] == 'e' || s[e]
        == 'E')) {
        Some((v, e))
    } else {
        None
    }
}

/// An integer literal at `i`: its value and where it ends. It is an
/// optional sign and a run of digits that does not start with `0`, or a
/// lone unsigned `0`.
pub open spec fn int_scan(s: Seq<char>, i: int) -> Option<(int, int)> {
    let j = after_sign(s, i);
    if 0 <= j < s.len() && '1' <= s[j] <= '9' {
        let e = end_of_digits(s, j + 1);
        let m = digits_value(s.subrange(j, e));
        int_accept(s, if j > i && s[i] == '-' { -m } else { m }, e)
    } else if 0 <= i < s.len() && s[i] == '0' {
        int_accept(s, 0, i + 1)
    } else {
        None
    }
}

/// Outcome of looking for a float at some position.
pub enum FloatScan {
    /// a float ends here
    Found(int),
    /// no float starts here
    Absent,
    /// an exponent marker is not followed by digits: lexing cannot go on
    Broken,
}

/// The end of the digits-and-point part of a float: `12`, `12.`, `12.5`
/// or `.5`, after an optional sign.
pub open spec fn mantissa_end(s: Seq<char>, i: int) -> Option<int> {
    let j = after_sign(s, i);
    if 0 <= j < s.len() && is_digit(s[j]) {
        let d = end_of_digits(s, j);
        if d < s.len() && s[d] == '.' {
            Some(end_of_digits(s, d + 1))
        } else {
            Some(d)
        }
    } else if 0 <= j && j + 1 < s.len() && s[j] == '.' && is_digit(s[j + 1]) {
        Some(end_of_digits(s, j + 1))
    } else {
        None
    }
}

pub open spec fn nan_word() -> Seq<char> {
    seq!['n', 'a', 'n']
}

pub open spec fn infinity_word() -> Seq<char> {
    seq!['i', 'n', 'f', 'i', 'n', 'i', 't', 'y']
}

pub open spec fn inf_word() -> Seq<char> {
    seq!['i', 'n', 'f']
}

/// A float at `i`: a mantissa with an optional exponent, or, ignoring
/// case, `nan`, or `infinity` / `inf` after an optional sign.
pub open spec fn float_scan(s: Seq<char>, i: int) -> FloatScan {
    match mantissa_end(s, i) {
        Some(k) => if k < s.len() && (s[k] == 'e' || s[k] == 'E') {
            let m = after_sign(s, k + 1);
            if m < s.len() && is_digit(s[m]) {
                FloatScan::Found(end_of_digits(s, m))
            } else {
                FloatScan::Broken
            }
        } else {
            FloatScan::Found(k)
        },
        None => if has_at_caseless(s, i, nan_word()) {
            FloatScan::Found(i + 3)
        } else if has_at_caseless(s, after_sign(s, i), infinity_word()) {
            FloatScan::Found(after_sign(s, i) + 8)
        } else if has_at_caseless(s, after_sign(s, i), inf_word()) {
            FloatScan::Found(after_sign(s, i) + 3)
        } else {
            FloatScan::Absent
        },
    }
}

/// A string literal at `i`: letters and digits between double quotes; the
/// position after the closing quote.
pub open spec fn string_scan(s: Seq<char>, i: int) -> Option<int> {
    if 0 <= i < s.len() && s[i] == '"' {
        let a = end_of_alnum(s, i + 1);
        if a > i + 1 && a < s.len() && s[a] == '"' {
            Some(a + 1)
        } else {
            None
        }
    } else {
        None
    }
}

pub open spec fn true_word() -> Seq<char> {
    seq!['t', 'r', 'u', 'e']
}

pub open spec fn false_word() -> Seq<char> {
    seq!['f', 'a', 'l', 's', 'e']
}

/// Outcome of one lexing step at some position.
pub enum Step {
    /// a token, and the position after it
    Took(TokenView, int),
    /// nothing matches here
    Missed,
    /// a malformed float stops lexing here
    Halted,
}

/// A literal at `i`, the alternatives tried in order: boolean, integer,
/// float, string.
pub open spec fn literal_step(s: Seq<char>, i: int) -> Step {
    if has_at(s, i, true_word()) {
        Step::Took(TokenView::Literal(LiteralView::Bool(true)), i + 4)
    } else if has_at(s, i, false_word()) {
        Step::Took(TokenView::Literal(LiteralView::Bool(false)), i + 5)
    } else if let Some((v, e)) = int_scan(s, i) {
        Step::Took(TokenView::Literal(LiteralView::Int(v)), e)
    } else {
        match float_scan(s, i) {
            FloatScan::Found(e) => Step::Took(
                TokenView::Literal(LiteralView::Float(s.subrange(i, e))),
                e,
            ),
            FloatScan::Broken => Step::Halted,
            FloatScan::Absent => match string_scan(s, i) {
                Some(e) => Step::Took(
                    TokenView::Literal(LiteralView::Str(s.subrange(i + 1, e - 1))),
                    e,
                ),
                None => Step::Missed,
            },
        }
    }
}

proof fn lemma_digits_value_step(s: Seq<char>, j: int, k: int)
    requires
        0 <= j <= k < s.len(),
    ensures
        digits_value(s.subrange(j, k + 1)) == digits_value(s.subrange(j, k)) * 10 + digit_value(
            s[k],
        ),
{
    assert(s.subrange(j, k + 1).drop_last() =~= s.subrange(j, k));
}

proof fn lemma_digits_value_grows(s: Seq<char>, j: int, k: int, e: int)
    requires
        0 <= j <= k <= e <= s.len(),
        forall|m: int| j <= m < e ==> is_digit(s[m]),
    ensures
        digits_value(s.subrange(j, e)) >= digits_value(s.subrange(j, k)),
        digits_value(s.subrange(j, k)) >= 0,
    decreases e - k,
{
    if k < e {
        lemma_digits_value_grows(s, j, k + 1, e);
        lemma_digits_value_step(s, j, k);
    } else {
        lemma_digits_value_nonneg(s, j, k);
    }
}

proof fn lemma_digits_value_nonneg(s: Seq<char>, j: int, k: int)
    requires
        0 <= j <= k <= s.len(),
        forall|m: int| j <= m < k ==> is_digit(s[m]),
    ensures
        digits_value(s.subrange(j, k)) >= 0,
    decreases k - j,
{
    if j < k {
        lemma_digits_value_nonneg(s, j, k - 1);
        lemma_digits_value_step(s, j, k - 1);
    }
}

fn scan_int(s: &Vec<char>, i: usize) -> (r: Option<(i64, usize)>)
    requires
        i <= s@.len(),
    ensures
        match int_scan(s@, i as int) {
            Some((v, e)) => r matches Some((w, f)) && w as int == v && f as int == e && i < f <= s@.len(),
            None => r is None,
        },
{
    let n = s.len();
    let j = if i < n && (s[i] == '+' || s[i] == '-') {
        i + 1
    } else {
        i
    };
    let neg = j > i && s[i] == '-';
    if j < n && '1' <= s[j] && s[j] <= '9' {
        let e = scan_digits(s, j + 1);
        proof {
            lemma_end_of_digits(s@, j + 1);
        }
        let mut mag: u64 = 0;
        let mut k = j;
        while k < e
            invariant
                j <= k <= e <= s@.len(),
                forall|m: int| j + 1 <= m < e ==> is_digit(s@[m]),
                '1' <= s@[j as int] <= '9',
                mag as int == digits_value(s@.subrange(j as int, k as int)),
                mag <= 9223372036854775808u64,
                after_sign(s@, i as int) == j,
                e == end_of_digits(s@, j + 1),
                n == s@.len(),
            decreases e - k,
        {
            let d = (s[k] as u32 - 48) as u64;
            proof {
                lemma_digits_value_step(s@, j as int, k as int);
            }
            if mag > 922337203685477580u64 || (mag == 922337203685477580u64 && d > 8) {
                proof {
                    assert forall|m: int| j <= m < e implies is_digit(s@[m]) by {
                        if m > j {
                            assert(is_digit(s@[m]));
                        }
                    }
                    lemma_digits_value_grows(s@, j as int, k as int + 1, e as int);
                    assert(mag * 10 + d > 9223372036854775808) by (nonlinear_arith)
                        requires
                            mag > 922337203685477580 || (mag == 922337203685477580 && d > 8),
                    ;
                }
                return None;
            }
            mag = mag * 10 + d;
            k = k + 1;
        }
        let v: i64;
        if neg {
            if mag == 9223372036854775808u64 {
                v = i64::MIN;
            } else {
                v = -(mag as i64);
            }
        } else {
            if mag > 9223372036854775807u64 {
                return None;
            }
            v = mag as i64;
        }
        if e < n && (s[e] == '.' || s[e] == 'e' || s[e] == 'E') {
            return None;
        }
        Some((v, e))
    } else if i < n && s[i] == '0' {
        if i + 1 < n && (s[i + 1] == '.' || s[i + 1] == 'e' || s[i + 1] == 'E') {
            return None;
        }
        Some((0, i + 1))
    } else {
        None
    }
}

/// Exec counterpart of `FloatScan`.
enum FloatEnd {
    Found(usize),
    Absent,
    Broken,
}

fn scan_mantissa(s: &Vec<char>, i: usize) -> (r: Option<usize>)
    requires
        i <= s@.len(),
    ensures
        r is Some <==> mantissa_end(s@, i as int) is Some,
        r is Some ==> r->0 as int == mantissa_end(s@, i as int)->0 && i < r->0 <= s@.len(),
{
    let n = s.len();
    let j = if i < n && (s[i] == '+' || s[i] == '-') {
        i + 1
    } else {
        i
    };
    if j < n && char_is_digit(s[j]) {
        let d = scan_digits(s, j);
        proof {
            lemma_end_of_digits(s@, j as int);
            lemma_end_of_digits(s@, j + 1);
        }
        if d < n && s[d] == '.' {
            Some(scan_digits(s, d + 1))
        } else {
            Some(d)
        }
    } else if j < n && j + 1 < n && s[j] == '.' && char_is_digit(s[j + 1]) {
        Some(scan_digits(s, j + 1))
    } else {
        None
    }
}

fn scan_float(s: &Vec<char>, i: usize) -> (r: FloatEnd)
    requires
        i <= s@.len(),
    ensures
        match float_scan(s@, i as int) {
            FloatScan::Found(e) => r matches FloatEnd::Found(f) && f as int == e && i < f <= s@.len(),
            FloatScan::Absent => r is Absent,
            FloatScan::Broken => r is Broken,
        },
{
    let n = s.len();
    match scan_mantissa(s, i) {
        Some(k) => {
            if k < n && (s[k] == 'e' || s[k] == 'E') {
                let m = if k + 1 < n && (s[k + 1] == '+' || s[k + 1] == '-') {
                    k + 2
                } else {
                    k + 1
                };
                if m < n && char_is_digit(s[m]) {
                    let f = scan_digits(s, m);
                    FloatEnd::Found(f)
                } else {
                    FloatEnd::Broken
                }
            } else {
                FloatEnd::Found(k)
            }
        },
        None => {
            let j = if i < n && (s[i] == '+' || s[i] == '-') {
                i + 1
            } else {
                i
            };
            let nan = ['n', 'a', 'n'];
            let infinity = ['i', 'n', 'f', 'i', 'n', 'i', 't', 'y'];
            let inf = ['i', 'n', 'f'];
            proof {
                assert(nan@ == nan_word());
                assert(infinity@ == infinity_word());
                assert(inf@ == inf_word());
            }
            if word_at_caseless(s, i, &nan) {
                FloatEnd::Found(i + 3)
            } else if word_at_caseless(s, j, &infinity) {
                FloatEnd::Found(j + 8)
            } else if word_at_caseless(s, j, &inf) {
                FloatEnd::Found(j + 3)
            } else {
                FloatEnd::Absent
            }
        },
    }
}

fn scan_string(s: &Vec<char>, i: usize) -> (r: Option<usize>)
    requires
        i <= s@.len(),
    ensures
        match string_scan(s@, i as int) {
            Some(e) => r matches Some(f) && f as int == e && i + 2 < f <= s@.len(),
            None => r is None,
        },
{
    let n = s.len();
    if i < n && s[i] == '"' {
        let a = scan_alnum(s, i + 1);
        if a > i + 1 && a < n && s[a] == '"' {
            Some(a + 1)
        } else {
            None
        }
    } else {
        None
    }
}


// ---------------------------------------------------------------------------
// Tokens and programs

pub open spec fn let_word() -> Seq<char> {
    seq!['l', 'e', 't']
}

pub open spec fn extern_word() -> Seq<char> {
    seq!['e', 'x', 't', 'e', 'r', 'n']
}

pub open spec fn pipe_word() -> Seq<char> {
    seq!['|', '>']
}

pub open spec fn indent_word() -> Seq<char> {
    seq![' ', ' ', ' ', ' ']
}

pub open spec fn comment_word() -> Seq<char> {
    seq!['/', '/']
}

/// `w` at `i`, followed by at least one whitespace character; the position
/// after that whitespace.
pub open spec fn keyword_end(s: Seq<char>, i: int, w: Seq<char>) -> Option<int> {
    if has_at(s, i, w) && i + w.len() < s.len() && is_space(s[i + w.len()]) {
        Some(skip_spaces(s, i + w.len()))
    } else {
        None
    }
}

/// `//` at `i` and the rest of the line, up to (not including) the line
/// ending. A carriage return that is not followed by a line feed does not
/// end a comment: it makes the comment fail.
pub open spec fn comment_end(s: Seq<char>, i: int) -> Option<int> {
    if has_at(s, i, comment_word()) {
        let e = end_of_line(s, i + 2);
        if e < s.len() && s[e] == '\r' && !(e + 1 < s.len() && s[e + 1] == '\n') {
            None
        } else {
            Some(e)
        }
    } else {
        None
    }
}

/// One lexing step at `i`. The alternatives are tried in this order:
/// comment, indent, `let`, `extern`, `|>`, literal, `=`, identifier.
/// Keywords and the pipe must be followed by whitespace.
pub open spec fn token_step(s: Seq<char>, i: int) -> Step {
    if let Some(e) = comment_end(s, i) {
        Step::Took(TokenView::Comment, e)
    } else if has_at(s, i, indent_word()) {
        Step::Took(TokenView::Indent, i + 4)
    } else if let Some(e) = keyword_end(s, i, let_word()) {
        Step::Took(TokenView::Let, e)
    } else if let Some(e) = keyword_end(s, i, extern_word()) {
        Step::Took(TokenView::Extern, e)
    } else if let Some(e) = keyword_end(s, i, pipe_word()) {
        Step::Took(TokenView::Pipe, e)
    } else {
        match literal_step(s, i) {
            Step::Took(t, e) => Step::Took(t, skip_spaces(s, e)),
            Step::Halted => Step::Halted,
            Step::Missed => if 0 <= i < s.len() && s[i] == '=' {
                Step::Took(TokenView::Assign, i + 1)
            } else if end_of_alnum(s, i) > i {
                Step::Took(
                    TokenView::Ident(s.subrange(i, end_of_alnum(s, i))),
                    skip_spaces(s, end_of_alnum(s, i)),
                )
            } else {
                Step::Missed
            },
        }
    }
}

/// The tokens read from position `i` on: one step after another, each
/// followed by any whitespace, until no alternative matches.
pub open spec fn lex_from(s: Seq<char>, i: int) -> Seq<TokenView>
    decreases s.len() - i,
{
    match token_step(s, i) {
        Step::Took(t, e) => {
            let n = skip_spaces(s, e);
            if i < n <= s.len() {
                seq![t] + lex_from(s, n)
            } else {
                seq![t]
            }
        },
        _ => seq![],
    }
}

/// The tokens of a whole text: leading whitespace is dropped first.
pub open spec fn lex_program(s: Seq<char>) -> Seq<TokenView> {
    lex_from(s, skip_spaces(s, 0))
}

/// Where lexing that starts at `i` stops: the first position, after the
/// tokens read from `i` on, at which no alternative matches.
pub open spec fn lex_stop_from(s: Seq<char>, i: int) -> int
    decreases s.len() - i,
{
    match token_step(s, i) {
        Step::Took(t, e) => {
            let n = skip_spaces(s, e);
            if i < n <= s.len() {
                lex_stop_from(s, n)
            } else {
                n
            }
        },
        _ => i,
    }
}

/// Where lexing a whole text stops.
pub open spec fn lex_stop(s: Seq<char>) -> int {
    lex_stop_from(s, skip_spaces(s, 0))
}

/// Exec counterpart of `Step`.
enum Scanned {
    Took(Token, usize),
    Missed,
    Halted,
}

impl View for Scanned {
    type V = Step;

    closed spec fn view(&self) -> Step {
        match self {
            Scanned::Took(t, e) => Step::Took(t@, *e as int),
            Scanned::Missed => Step::Missed,
            Scanned::Halted => Step::Halted,
        }
    }
}

fn text_between(s: &Vec<char>, a: usize, b: usize) -> (r: String)
    requires
        a <= b <= s@.len(),
    ensures
        r@ == s@.subrange(a as int, b as int),
{
    let part = slice_subrange(s.as_slice(), a, b);
    string_of(part)
}

fn scan_literal(s: &Vec<char>, i: usize) -> (r: Scanned)
    requires
        i <= s@.len(),
    ensures
        r@ == literal_step(s@, i as int),
        r matches Scanned::Took(_, e) ==> i < e <= s@.len(),
{
    let t = ['t', 'r', 'u', 'e'];
    let f = ['f', 'a', 'l', 's', 'e'];
    proof {
        assert(t@ == true_word());
        assert(f@ == false_word());
        assert(t@.len() == 4);
        assert(f@.len() == 5);
    }
    if word_at(s, i, &t) {
        return Scanned::Took(Token::Literal(Literal::Bool(true)), i + 4);
    }
    if word_at(s, i, &f) {
        return Scanned::Took(Token::Literal(Literal::Bool(false)), i + 5);
    }
    if let Some((v, e)) = scan_int(s, i) {
        return Scanned::Took(Token::Literal(Literal::Int(v)), e);
    }
    match scan_float(s, i) {
        FloatEnd::Found(e) => Scanned::Took(Token::Literal(Literal::Float(text_between(s, i, e))), e),
        FloatEnd::Broken => Scanned::Halted,
        FloatEnd::Absent => match scan_string(s, i) {
            Some(e) => Scanned::Took(
                Token::Literal(Literal::String(text_between(s, i + 1, e - 1))),
                e,
            ),
            None => Scanned::Missed,
        },
    }
}

fn scan_keyword(s: &Vec<char>, i: usize, w: &[char]) -> (r: Option<usize>)
    requires
        i <= s@.len(),
        w@.len() > 0,
    ensures
        match keyword_end(s@, i as int, w@) {
            Some(e) => r matches Some(f) && f as int == e && i < f <= s@.len(),
            None => r is None,
        },
{
    if word_at(s, i, w) && w.len() < s.len() - i && char_is_space(s[i + w.len()]) {
        Some(scan_spaces(s, i + w.len()))
    } else {
        None
    }
}

fn scan_comment(s: &Vec<char>, i: usize) -> (r: Option<usize>)
    requires
        i <= s@.len(),
    ensures
        match comment_end(s@, i as int) {
            Some(e) => r matches Some(f) && f as int == e && i < f <= s@.len(),
            None => r is None,
        },
{
    let w = ['/', '/'];
    proof {
        assert(w@ == comment_word());
        assert(w@.len() == 2);
    }
    if word_at(s, i, &w) {
        let e = scan_line(s, i + 2);
        if e < s.len() && s[e] == '\r' && !(e + 1 < s.len() && s[e + 1] == '\n') {
            None
        } else {
            Some(e)
        }
    } else {
        None
    }
}

fn scan_token(s: &Vec<char>, i: usize) -> (r: Scanned)
    requires
        i <= s@.len(),
    ensures
        r@ == token_step(s@, i as int),
        r matches Scanned::Took(_, e) ==> i < e <= s@.len(),
{
    let indent = [' ', ' ', ' ', ' '];
    let let_w = ['l', 'e', 't'];
    let extern_w = ['e', 'x', 't', 'e', 'r', 'n'];
    let pipe_w = ['|', '>'];
    proof {
        assert(indent@ == indent_word());
        assert(let_w@ == let_word());
        assert(extern_w@ == extern_word());
        assert(pipe_w@ == pipe_word());
        assert(indent@.len() == 4);
    }
    if let Some(e) = scan_comment(s, i) {
        return Scanned::Took(Token::Comment, e);
    }
    if word_at(s, i, &indent) {
        return Scanned::Took(Token::Indent, i + 4);
    }
    if let Some(e) = scan_keyword(s, i, &let_w) {
        return Scanned::Took(Token::Let, e);
    }
    if let Some(e) = scan_keyword(s, i, &extern_w) {
        return Scanned::Took(Token::Extern, e);
    }
    if let Some(e) = scan_keyword(s, i, &pipe_w) {
        return Scanned::Took(Token::Pipe, e);
    }
    match scan_literal(s, i) {
        Scanned::Took(t, e) => Scanned::Took(t, scan_spaces(s, e)),
        Scanned::Halted => Scanned::Halted,
        Scanned::Missed => {
            if i < s.len() && s[i] == '=' {
                Scanned::Took(Token::Assign, i + 1)
            } else {
                let a = scan_alnum(s, i);
                if a > i {
                    Scanned::Took(Token::Ident(text_between(s, i, a)), scan_spaces(s, a))
                } else {
                    Scanned::Missed
                }
            }
        },
    }
}

#[derive(Debug)]
pub struct Program {
    pub tokens: Vec<Token>,
    /// How many characters of the text were read: lexing stopped there.
    pub end: usize,
}

impl Program {
    pub open spec fn token_views(&self) -> Seq<TokenView> {
        self.tokens@.map_values(|t: Token| t@)
    }
}

/// Splits a script into tokens. Leading whitespace is dropped; then tokens
/// are read one after another, each with the whitespace after it, until no
/// alternative matches. `end` tells where that happened: unless it is the
/// length of the text, the text from there on could not be read, and the
/// caller should treat it as a syntax problem. What could not be read is
/// left out of the tokens: a result that
/// stops early means the text does not lex to its end.
pub fn full_program(input: &str) -> (r: Program)
    ensures
        r.token_views() == lex_program(input@),
        r.end as int == lex_stop(input@),
        r.end <= input@.len(),
        r.end == input@.len() || !(token_step(input@, r.end as int) is Took),
{
    let s = chars_of(input);
    let mut tokens: Vec<Token> = Vec::new();
    let mut i = scan_spaces(&s, 0);
    proof {
        lemma_skip_spaces(s@, 0);
    }
    loop
        invariant
            i <= s@.len(),
            tokens@.map_values(|t: Token| t@) + lex_from(s@, i as int) == lex_program(s@),
            lex_stop_from(s@, i as int) == lex_stop(s@),
        ensures
            tokens@.map_values(|t: Token| t@) == lex_program(s@),
            i as int == lex_stop(s@),
            i == s@.len() || !(token_step(s@, i as int) is Took),
        decreases s@.len() - i,
    {
        match scan_token(&s, i) {
            Scanned::Took(t, e) => {
                let n = scan_spaces(&s, e);
                proof {
                    assert(lex_from(s@, i as int) == seq![t@] + lex_from(s@, n as int));
                    assert(lex_stop_from(s@, i as int) == lex_stop_from(s@, n as int));
                }
                let ghost before = tokens@;
                tokens.push(t);
                proof {
                    assert(tokens@.map_values(|t: Token| t@) =~= before.map_values(|t: Token| t@)
                        + seq![t@]);
                    assert(tokens@.map_values(|t: Token| t@) + lex_from(s@, n as int)
                        =~= before.map_values(|t: Token| t@) + lex_from(s@, i as int));
                }
                i = n;
            },
            _ => {
                assert(tokens@.map_values(|t: Token| t@) + lex_from(s@, i as int)
                    =~= tokens@.map_values(|t: Token| t@));
                break ;
            },
        }
    }
    Program { tokens, end: i }
}

impl Program {
    /// The part of `input` that lexing did not read.
    pub fn rest<'a>(&self, input: &'a str) -> (r: &'a str)
        requires
            self.end <= input@.len(),
        ensures
            r@ == input@.subrange(self.end as int, input@.len() as int),
    {
        input.substring_char(self.end, input.unicode_len())
    }
}


/// Reads one literal at the start of `input`: a boolean, an integer, a
/// float or a string, tried in that order. Gives the token and the number
/// of characters it took.
pub fn literal(input: &str) -> (r: Option<(Token, usize)>)
    ensures
        match literal_step(input@, 0) {
            Step::Took(t, e) => r matches Some((u, f)) && u@ == t && f as int == e,
            _ => r is None,
        },
{
    let s = chars_of(input);
    match scan_literal(&s, 0) {
        Scanned::Took(t, e) => Some((t, e)),
        _ => None,
    }
}

} // verus!
