//! SQL-like query language: a lexer for the subset of SQL the engine
//! accepts (SELECT, INSERT, UPDATE, DELETE with WHERE, JOIN, GROUP BY,
//! ORDER BY, LIMIT and SKIP), and its parser.

use vstd::prelude::*;
use vstd::string::StrSliceExecFns;

use crate::chars::{
    alphabetic, alphanumeric, ascii_digit, is_alphabetic, is_alphanumeric, is_ascii_digit, is_whitespace,
    to_uppercase, uppercase_of, whitespace,
};
use crate::codec::{concat_str, str_eq};
use crate::query::filter::{lemma_op_names, op_named, FilterOp};
use crate::text::{decimal_nat, decimal_u64};
use crate::error::{OvnError, OvnResult};
use crate::format::obe::value::{
    bytes_lt, key_bytes, lemma_lower_bound, lower_bound, map_insert, FieldMap,
};

verus! {

// ── Tokens ────────────────────────────────────────────────────────────────

/// A literal of SQL text: a quoted string, an integer, or a number with a
/// decimal point, kept as its text (its value is a floating-point number).
#[derive(Debug, PartialEq)]
pub enum SqlLiteral {
    Text(String),
    Integer(i64),
    Decimal(String),
}

/// A token of SQL text. Keywords are upper-cased; identifiers keep their
/// spelling.
#[derive(Debug, PartialEq)]
pub enum SqlToken {
    Keyword(String),
    Identifier(String),
    Literal(SqlLiteral),
    Operator(String),
    Punctuation(char),
    Star,
}

/// A literal as plain values.
pub enum LiteralView {
    Text(Seq<char>),
    Integer(i64),
    Decimal(Seq<char>),
}

/// A token as plain values.
pub enum TokenView {
    Keyword(Seq<char>),
    Identifier(Seq<char>),
    Literal(LiteralView),
    Operator(Seq<char>),
    Punctuation(char),
    Star,
}

pub open spec fn literal_view(l: SqlLiteral) -> LiteralView {
    match l {
        SqlLiteral::Text(s) => LiteralView::Text(s@),
        SqlLiteral::Integer(i) => LiteralView::Integer(i),
        SqlLiteral::Decimal(s) => LiteralView::Decimal(s@),
    }
}

pub open spec fn token_view(t: SqlToken) -> TokenView {
    match t {
        SqlToken::Keyword(s) => TokenView::Keyword(s@),
        SqlToken::Identifier(s) => TokenView::Identifier(s@),
        SqlToken::Literal(l) => TokenView::Literal(literal_view(l)),
        SqlToken::Operator(s) => TokenView::Operator(s@),
        SqlToken::Punctuation(c) => TokenView::Punctuation(c),
        SqlToken::Star => TokenView::Star,
    }
}

pub open spec fn tokens_view(s: Seq<SqlToken>) -> Seq<TokenView> {
    s.map_values(|t: SqlToken| token_view(t))
}

// ── Lexical grammar ───────────────────────────────────────────────────────

/// Length of the run at the start of `s` of chars other than `quote`.
pub open spec fn run_until(s: Seq<char>, quote: char) -> nat
    decreases s.len(),
{
    if s.len() == 0 || s[0] == quote {
        0
    } else {
        1 + run_until(s.drop_first(), quote)
    }
}

/// Length of the run at the start of `s` of ASCII digits and `.`.
pub open spec fn number_run(s: Seq<char>) -> nat
    decreases s.len(),
{
    if s.len() == 0 || !(ascii_digit(s[0]) || s[0] == '.') {
        0
    } else {
        1 + number_run(s.drop_first())
    }
}

/// Length of the run at the start of `s` of alphanumeric chars and `_`.
pub open spec fn word_run(s: Seq<char>) -> nat
    decreases s.len(),
{
    if s.len() == 0 || !(alphanumeric(s[0]) || s[0] == '_') {
        0
    } else {
        1 + word_run(s.drop_first())
    }
}

/// The runs are no longer than the text; a number run starting at a digit
/// or `.` has at least one char.
pub proof fn lemma_runs(s: Seq<char>, q: char)
    ensures
        run_until(s, q) <= s.len(),
        number_run(s) <= s.len(),
        word_run(s) <= s.len(),
        s.len() > 0 && (ascii_digit(s[0]) || s[0] == '.') ==> number_run(s) >= 1,
    decreases s.len(),
{
    if s.len() > 0 {
        lemma_runs(s.drop_first(), q);
    }
}

/// How many times `c` occurs in `s`.
pub open spec fn count_char(s: Seq<char>, c: char) -> nat
    decreases s.len(),
{
    if s.len() == 0 {
        0
    } else {
        count_char(s.drop_last(), c) + if s.last() == c {
            1nat
        } else {
            0nat
        }
    }
}

/// Whether `s` holds an ASCII digit.
pub open spec fn has_digit(s: Seq<char>) -> bool
    decreases s.len(),
{
    s.len() > 0 && (ascii_digit(s.last()) || has_digit(s.drop_last()))
}

/// The value of a run of ASCII digits.
pub open spec fn digits_value(s: Seq<char>) -> int
    decreases s.len(),
{
    if s.len() == 0 {
        0
    } else {
        digits_value(s.drop_last()) * 10 + (s.last() as int - 48)
    }
}

/// The literal a number's text stands for, if it is one: with a `.`, a
/// decimal when it has exactly one `.` and some digit (as `f64` parsing
/// accepts); without, an integer when it has digits and fits in `i64`.
pub open spec fn number_token(num: Seq<char>) -> Seq<TokenView> {
    if count_char(num, '.') > 0 {
        if count_char(num, '.') == 1 && has_digit(num) {
            seq![TokenView::Literal(LiteralView::Decimal(num))]
        } else {
            Seq::empty()
        }
    } else {
        let neg = num.len() > 0 && num[0] == '-';
        let digits = if neg {
            num.drop_first()
        } else {
            num
        };
        let v = if neg {
            -digits_value(digits)
        } else {
            digits_value(digits)
        };
        if digits.len() > 0 && i64::MIN <= v <= i64::MAX {
            seq![TokenView::Literal(LiteralView::Integer(v as i64))]
        } else {
            Seq::empty()
        }
    }
}

/// The words that are keywords (compared after upper-casing).
pub open spec fn sql_keyword(u: Seq<char>) -> bool {
    ||| u == "SELECT"@
    ||| u == "FROM"@
    ||| u == "WHERE"@
    ||| u == "ORDER"@
    ||| u == "BY"@
    ||| u == "LIMIT"@
    ||| u == "SKIP"@
    ||| u == "INSERT"@
    ||| u == "INTO"@
    ||| u == "VALUES"@
    ||| u == "UPDATE"@
    ||| u == "SET"@
    ||| u == "DELETE"@
    ||| u == "GROUP"@
    ||| u == "JOIN"@
    ||| u == "ON"@
    ||| u == "AND"@
    ||| u == "OR"@
    ||| u == "NOT"@
    ||| u == "IN"@
    ||| u == "IS"@
    ||| u == "NULL"@
    ||| u == "ASC"@
    ||| u == "DESC"@
    ||| u == "AS"@
}

/// A word is a keyword, upper-cased, or an identifier as written.
pub open spec fn word_token(w: Seq<char>) -> TokenView {
    if sql_keyword(uppercase_of(w)) {
        TokenView::Keyword(uppercase_of(w))
    } else {
        TokenView::Identifier(w)
    }
}

/// The tokens of SQL text. Whitespace separates tokens; `*`, `,`, `(` and
/// `)` stand alone; `=`, `>`, `<` and `!` are operators, with a following
/// `=` joined to them; a quote starts a string that runs to the same quote
/// (or the end); an ASCII digit or `-` starts a number (digits and `.`); a
/// letter or `_` starts a word; any other char is skipped.
pub open spec fn lex(s: Seq<char>) -> Seq<TokenView>
    decreases s.len(),
{
    if s.len() == 0 {
        Seq::empty()
    } else {
        let c = s[0];
        let rest = s.drop_first();
        proof {
            lemma_runs(rest, c);
            lemma_runs(s, c);
        }
        if whitespace(c) {
            lex(rest)
        } else if c == '*' {
            seq![TokenView::Star] + lex(rest)
        } else if c == ',' || c == '(' || c == ')' {
            seq![TokenView::Punctuation(c)] + lex(rest)
        } else if c == '=' || c == '>' || c == '<' || c == '!' {
            if rest.len() > 0 && rest[0] == '=' {
                seq![TokenView::Operator(seq![c, '='])] + lex(rest.drop_first())
            } else {
                seq![TokenView::Operator(seq![c])] + lex(rest)
            }
        } else if c == '\'' || c == '"' {
            let n = run_until(rest, c);
            seq![TokenView::Literal(LiteralView::Text(rest.take(n as int)))] + if n < rest.len() {
                lex(rest.skip(n + 1int))
            } else {
                lex(rest.skip(n as int))
            }
        } else if c == '-' {
            let n: int = 1 + number_run(rest) as int;
            number_token(s.take(n)) + lex(s.skip(n))
        } else if ascii_digit(c) {
            let n = number_run(s);
            number_token(s.take(n as int)) + lex(s.skip(n as int))
        } else if alphabetic(c) || c == '_' {
            let n: int = 1 + word_run(rest) as int;
            seq![word_token(s.take(n))] + lex(s.skip(n))
        } else {
            lex(rest)
        }
    }
}

// ── Lexer ─────────────────────────────────────────────────────────────────

/// The chars of a number run are ASCII digits or `.`.
proof fn lemma_number_run_chars(s: Seq<char>)
    ensures
        forall|k: int| 0 <= k < number_run(s) ==> ascii_digit(#[trigger] s[k]) || s[k] == '.',
    decreases s.len(),
{
    lemma_runs(s, '.');
    if s.len() > 0 && (ascii_digit(s[0]) || s[0] == '.') {
        lemma_number_run_chars(s.drop_first());
        assert forall|k: int| 0 <= k < number_run(s) implies ascii_digit(#[trigger] s[k]) || s[k] == '.' by {
            if k > 0 {
                assert(s[k] == s.drop_first()[k - 1]);
            }
        }
    }
}

/// The digit values of a run of digits are never negative.
proof fn lemma_digits_nonneg(s: Seq<char>)
    requires
        forall|k: int| 0 <= k < s.len() ==> ascii_digit(#[trigger] s[k]),
    ensures
        digits_value(s) >= 0,
    decreases s.len(),
{
    if s.len() > 0 {
        lemma_digits_nonneg(s.drop_last());
    }
}

fn scan_until(s: &str, from: usize, quote: char) -> (j: usize)
    requires
        from <= s@.len(),
    ensures
        j == from + run_until(s@.skip(from as int), quote),
        j <= s@.len(),
{
    let n = s.unicode_len();
    let mut j = from;
    while j < n && s.get_char(j) != quote
        invariant
            from <= j <= n,
            n == s@.len(),
            run_until(s@.skip(from as int), quote) == (j - from) + run_until(s@.skip(j as int), quote),
        decreases n - j,
    {
        assert(s@.skip(j as int).drop_first() =~= s@.skip(j + 1));
        j = j + 1;
    }
    if j < n {
        assert(s@.skip(j as int)[0] == quote);
    } else {
        assert(s@.skip(j as int).len() == 0);
    }
    j
}

fn scan_number(s: &str, from: usize) -> (j: usize)
    requires
        from <= s@.len(),
    ensures
        j == from + number_run(s@.skip(from as int)),
        j <= s@.len(),
{
    let n = s.unicode_len();
    let mut j = from;
    while j < n && (is_ascii_digit(s.get_char(j)) || s.get_char(j) == '.')
        invariant
            from <= j <= n,
            n == s@.len(),
            number_run(s@.skip(from as int)) == (j - from) + number_run(s@.skip(j as int)),
        decreases n - j,
    {
        assert(s@.skip(j as int).drop_first() =~= s@.skip(j + 1));
        j = j + 1;
    }
    if j < n {
        assert(s@.skip(j as int)[0] == s@[j as int]);
    } else {
        assert(s@.skip(j as int).len() == 0);
    }
    j
}

fn scan_word(s: &str, from: usize) -> (j: usize)
    requires
        from <= s@.len(),
    ensures
        j == from + word_run(s@.skip(from as int)),
        j <= s@.len(),
{
    let n = s.unicode_len();
    let mut j = from;
    while j < n && (is_alphanumeric(s.get_char(j)) || s.get_char(j) == '_')
        invariant
            from <= j <= n,
            n == s@.len(),
            word_run(s@.skip(from as int)) == (j - from) + word_run(s@.skip(j as int)),
        decreases n - j,
    {
        assert(s@.skip(j as int).drop_first() =~= s@.skip(j + 1));
        j = j + 1;
    }
    if j < n {
        assert(s@.skip(j as int)[0] == s@[j as int]);
    } else {
        assert(s@.skip(j as int).len() == 0);
    }
    j
}

/// The literal of a number's text (an optional `-`, then digits and `.`).
fn number_literal(num: &str) -> (r: Option<SqlLiteral>)
    requires
        forall|k: int|
            0 <= k < num@.len() && !(k == 0 && num@[0] == '-') ==> ascii_digit(#[trigger] num@[k]) || num@[k]
                == '.',
    ensures
        match r {
            Some(l) => number_token(num@) == seq![TokenView::Literal(literal_view(l))],
            None => number_token(num@) == Seq::<TokenView>::empty(),
        },
{
    let ghost t = num@;
    let n = num.unicode_len();
    let mut dots: usize = 0;
    let mut digit = false;
    let mut i: usize = 0;
    assert(t.take(0) =~= Seq::<char>::empty());
    while i < n
        invariant
            t == num@,
            n == t.len(),
            i <= n,
            dots == count_char(t.take(i as int), '.'),
            dots <= i,
            digit == has_digit(t.take(i as int)),
        decreases n - i,
    {
        let c = num.get_char(i);
        assert(t.take(i + 1).drop_last() =~= t.take(i as int));
        assert(t.take(i + 1).last() == c);
        if c == '.' {
            dots = dots + 1;
        }
        if is_ascii_digit(c) {
            digit = true;
        }
        i = i + 1;
    }
    assert(t.take(n as int) =~= t);
    if dots > 0 {
        if dots == 1 && digit {
            Some(SqlLiteral::Decimal(num.to_string()))
        } else {
            None
        }
    } else {
        let neg = n > 0 && num.get_char(0) == '-';
        let start: usize = if neg { 1 } else { 0 };
        let ghost digits = if neg { t.drop_first() } else { t };
        assert(digits =~= t.skip(start as int));
        proof {
            assert forall|k: int| 0 <= k < digits.len() implies ascii_digit(#[trigger] digits[k]) by {
                assert(digits[k] == t[k + start]);
                if count_char(t, '.') == 0 && t[k + start] == '.' {
                    lemma_count_positive(t, k + start, '.');
                }
            }
        }
        let cap: u128 = 9223372036854775809;
        let mut acc: u128 = 0;
        let mut k: usize = start;
        assert(digits.take(0) =~= Seq::<char>::empty());
        while k < n
            invariant
                t == num@,
                start <= k <= n,
                n == t.len(),
                digits =~= t.skip(start as int),
                forall|m: int| 0 <= m < digits.len() ==> ascii_digit(#[trigger] digits[m]),
                cap == 9223372036854775809,
                acc <= cap,
                acc == if digits_value(digits.take(k - start)) < cap {
                    digits_value(digits.take(k - start))
                } else {
                    cap as int
                },
            decreases n - k,
        {
            let c = num.get_char(k);
            let ghost pre = digits.take(k - start);
            let ghost post = digits.take(k + 1 - start);
            proof {
                assert(post.drop_last() =~= pre);
                assert(post.last() == c);
                assert(c == digits[k - start]);
                assert(ascii_digit(c));
                assert forall|m: int| 0 <= m < pre.len() implies ascii_digit(#[trigger] pre[m]) by {
                    assert(pre[m] == digits[m]);
                }
                lemma_digits_nonneg(pre);
            }
            let d = (c as u32 - 48) as u128;
            let next = acc * 10 + d;
            acc = if next < cap { next } else { cap };
            k = k + 1;
        }
        assert(digits.take(n - start) =~= digits);
        if n > start && ((neg && acc <= 9223372036854775808) || (!neg && acc <= 9223372036854775807)) {
            let v: i64 = if neg {
                if acc == 9223372036854775808 {
                    i64::MIN
                } else {
                    -(acc as i64)
                }
            } else {
                acc as i64
            };
            Some(SqlLiteral::Integer(v))
        } else {
            None
        }
    }
}

/// A char that occurs makes the count positive.
proof fn lemma_count_positive(s: Seq<char>, i: int, c: char)
    requires
        0 <= i < s.len(),
        s[i] == c,
    ensures
        count_char(s, c) > 0,
    decreases s.len(),
{
    if i < s.len() - 1 {
        lemma_count_positive(s.drop_last(), i, c);
    }
}

/// Whether an upper-cased word is a keyword.
fn is_keyword(u: &str) -> (b: bool)
    ensures
        b == sql_keyword(u@),
{
    str_eq(u, "SELECT") || str_eq(u, "FROM") || str_eq(u, "WHERE") || str_eq(u, "ORDER") || str_eq(u, "BY")
        || str_eq(u, "LIMIT") || str_eq(u, "SKIP") || str_eq(u, "INSERT") || str_eq(u, "INTO") || str_eq(
        u,
        "VALUES",
    ) || str_eq(u, "UPDATE") || str_eq(u, "SET") || str_eq(u, "DELETE") || str_eq(u, "GROUP") || str_eq(
        u,
        "JOIN",
    ) || str_eq(u, "ON") || str_eq(u, "AND") || str_eq(u, "OR") || str_eq(u, "NOT") || str_eq(u, "IN")
        || str_eq(u, "IS") || str_eq(u, "NULL") || str_eq(u, "ASC") || str_eq(u, "DESC") || str_eq(u, "AS")
}

fn word_token_of(w: &str) -> (t: SqlToken)
    ensures
        token_view(t) == word_token(w@),
{
    let u = to_uppercase(w);
    if is_keyword(u.as_str()) {
        SqlToken::Keyword(u)
    } else {
        SqlToken::Identifier(w.to_string())
    }
}

/// The text of the operator `c`, followed by `=` when `eq`.
fn operator_text(c: char, eq: bool) -> (s: String)
    requires
        c == '=' || c == '>' || c == '<' || c == '!',
    ensures
        s@ == if eq {
            seq![c, '=']
        } else {
            seq![c]
        },
{
    proof {
        reveal_strlit("=");
        reveal_strlit("==");
        reveal_strlit(">");
        reveal_strlit(">=");
        reveal_strlit("<");
        reveal_strlit("<=");
        reveal_strlit("!");
        reveal_strlit("!=");
    }
    let t = if c == '=' {
        if eq { "==" } else { "=" }
    } else if c == '>' {
        if eq { ">=" } else { ">" }
    } else if c == '<' {
        if eq { "<=" } else { "<" }
    } else {
        if eq { "!=" } else { "!" }
    };
    let r = t.to_string();
    assert(r@ =~= if eq { seq![c, '='] } else { seq![c] });
    r
}

/// Split SQL text into tokens (see `lex`).
fn lex_text(input: &str) -> (r: Vec<SqlToken>)
    ensures
        tokens_view(r@) == lex(input@),
{
    let ghost s = input@;
    let n = input.unicode_len();
    let mut out: Vec<SqlToken> = Vec::new();
    let mut i: usize = 0;
    assert(s.skip(0) =~= s);
    assert(tokens_view(out@) + lex(s) =~= lex(s));
    while i < n
        invariant
            s == input@,
            n == s.len(),
            i <= n,
            tokens_view(out@) + lex(s.skip(i as int)) == lex(s),
        decreases n - i,
    {
        let c = input.get_char(i);
        let ghost t = s.skip(i as int);
        let ghost rest = t.drop_first();
        let ghost pre = tokens_view(out@);
        proof {
            assert(t[0] == c);
            assert(rest =~= s.skip(i + 1));
            lemma_runs(rest, c);
            lemma_runs(t, c);
        }
        if is_whitespace(c) {
            i = i + 1;
        } else if c == '*' {
            out.push(SqlToken::Star);
            assert(tokens_view(out@) =~= pre.push(TokenView::Star));
            i = i + 1;
        } else if c == ',' || c == '(' || c == ')' {
            out.push(SqlToken::Punctuation(c));
            assert(tokens_view(out@) =~= pre.push(TokenView::Punctuation(c)));
            i = i + 1;
        } else if c == '=' || c == '>' || c == '<' || c == '!' {
            if i + 1 < n && input.get_char(i + 1) == '=' {
                let op = operator_text(c, true);
                out.push(SqlToken::Operator(op));
                assert(tokens_view(out@) =~= pre.push(TokenView::Operator(seq![c, '='])));
                assert(rest.drop_first() =~= s.skip(i + 2));
                i = i + 2;
            } else {
                let op = operator_text(c, false);
                out.push(SqlToken::Operator(op));
                assert(tokens_view(out@) =~= pre.push(TokenView::Operator(seq![c])));
                i = i + 1;
            }
        } else if c == '\'' || c == '"' {
            let j = scan_until(input, i + 1, c);
            let text = input.substring_char(i + 1, j).to_string();
            let ghost m = run_until(rest, c);
            assert(text@ =~= rest.take(m as int));
            out.push(SqlToken::Literal(SqlLiteral::Text(text)));
            assert(tokens_view(out@) =~= pre.push(TokenView::Literal(LiteralView::Text(rest.take(m as int)))));
            if j < n {
                assert(rest.skip(m + 1int) =~= s.skip(j + 1));
                i = j + 1;
            } else {
                assert(rest.skip(m as int) =~= s.skip(j as int));
                i = j;
            }
        } else if c == '-' || is_ascii_digit(c) {
            let from: usize = if c == '-' { i + 1 } else { i };
            let j = scan_number(input, from);
            let num = input.substring_char(i, j);
            proof {
                let len: int = (j - i) as int;
                if c == '-' {
                    assert(len == 1 + number_run(rest));
                } else {
                    assert(s.skip(from as int) =~= t);
                    assert(len == number_run(t));
                }
                assert(num@ =~= t.take(len));
                assert(t.skip(len) =~= s.skip(j as int));
                lemma_number_run_chars(s.skip(from as int));
                assert forall|k: int|
                    0 <= k < num@.len() && !(k == 0 && num@[0] == '-') implies ascii_digit(#[trigger] num@[k])
                        || num@[k] == '.' by {
                    if c == '-' {
                        if k > 0 {
                            assert(num@[k] == s.skip(from as int)[k - 1]);
                        }
                    } else {
                        assert(num@[k] == s.skip(from as int)[k]);
                    }
                }
            }
            match number_literal(num) {
                Some(l) => {
                    let ghost lv = literal_view(l);
                    out.push(SqlToken::Literal(l));
                    assert(tokens_view(out@) =~= pre + seq![TokenView::Literal(lv)]);
                },
                None => {
                    assert(tokens_view(out@) =~= pre + Seq::<TokenView>::empty());
                },
            }
            i = j;
        } else if is_alphabetic(c) || c == '_' {
            let j = scan_word(input, i + 1);
            let w = input.substring_char(i, j);
            let tok = word_token_of(w);
            proof {
                let len: int = (j - i) as int;
                assert(w@ =~= t.take(len));
                assert(t.skip(len) =~= s.skip(j as int));
            }
            let ghost tv = token_view(tok);
            out.push(tok);
            assert(tokens_view(out@) =~= pre.push(tv));
            i = j;
        } else {
            i = i + 1;
        }
    }
    assert(s.skip(n as int) =~= Seq::<char>::empty());
    assert(tokens_view(out@) + Seq::<TokenView>::empty() =~= tokens_view(out@));
    out
}

// ── Values built by the parser ────────────────────────────────────────────

/// A JSON value built from a query: filters, inserted documents and `SET`
/// lists. Objects are maps ordered by key.
#[derive(Debug, PartialEq)]
pub enum SqlValue {
    Null,
    Literal(SqlLiteral),
    Object(FieldMap<SqlValue>),
    Array(Vec<SqlValue>),
}

/// A value as plain values; an object as its entries in key order.
pub enum SqlValueView {
    Null,
    Literal(LiteralView),
    Object(Seq<(Seq<char>, SqlValueView)>),
    Array(Seq<SqlValueView>),
}

pub open spec fn sql_value_view(v: SqlValue) -> SqlValueView
    decreases v,
{
    match v {
        SqlValue::Null => SqlValueView::Null,
        SqlValue::Literal(l) => SqlValueView::Literal(literal_view(l)),
        SqlValue::Object(m) => SqlValueView::Object(sql_entries_view(m.entries@)),
        SqlValue::Array(a) => SqlValueView::Array(sql_items_view(a@)),
    }
}

pub open spec fn sql_entries_view(s: Seq<(String, SqlValue)>) -> Seq<(Seq<char>, SqlValueView)>
    decreases s,
{
    if s.len() == 0 {
        Seq::empty()
    } else {
        sql_entries_view(s.drop_last()).push((s.last().0@, sql_value_view(s.last().1)))
    }
}

pub open spec fn sql_items_view(s: Seq<SqlValue>) -> Seq<SqlValueView>
    decreases s,
{
    if s.len() == 0 {
        Seq::empty()
    } else {
        sql_items_view(s.drop_last()).push(sql_value_view(s.last()))
    }
}

proof fn lemma_sql_entries_view(s: Seq<(String, SqlValue)>)
    ensures
        sql_entries_view(s).len() == s.len(),
        forall|i: int|
            0 <= i < s.len() ==> #[trigger] sql_entries_view(s)[i] == (s[i].0@, sql_value_view(s[i].1)),
    decreases s.len(),
{
    if s.len() > 0 {
        lemma_sql_entries_view(s.drop_last());
    }
}

/// Index of the first entry whose key is not below `k`, from `i`.
pub open spec fn keyed_lower_bound<V>(s: Seq<(Seq<char>, V)>, k: Seq<u8>, i: nat) -> nat
    decreases s.len() - i,
{
    if i >= s.len() || !bytes_lt(key_bytes(s[i as int].0), k) {
        i
    } else {
        keyed_lower_bound(s, k, i + 1)
    }
}

/// Ordered-map insertion on entries keyed by text: an entry with the same
/// key has its value replaced, otherwise the pair goes before the first
/// larger key.
pub open spec fn keyed_insert<V>(s: Seq<(Seq<char>, V)>, k: Seq<char>, v: V) -> Seq<(Seq<char>, V)> {
    let j = keyed_lower_bound(s, key_bytes(k), 0);
    if j < s.len() && key_bytes(s[j as int].0) == key_bytes(k) {
        s.update(j as int, (s[j as int].0, v))
    } else {
        s.insert(j as int, (k, v))
    }
}

/// Insert `entries` into `s` one after the other.
pub open spec fn keyed_insert_all<V>(s: Seq<(Seq<char>, V)>, entries: Seq<(Seq<char>, V)>) -> Seq<(Seq<char>, V)>
    decreases entries.len(),
{
    if entries.len() == 0 {
        s
    } else {
        keyed_insert_all(keyed_insert(s, entries[0].0, entries[0].1), entries.drop_first())
    }
}

/// The object that merges `l` and `r`: the entries of `l`, then those of
/// `r`, inserted into an empty map.
pub open spec fn merged(l: Seq<(Seq<char>, SqlValueView)>, r: Seq<(Seq<char>, SqlValueView)>) -> Seq<
    (Seq<char>, SqlValueView),
> {
    keyed_insert_all(keyed_insert_all(Seq::empty(), l), r)
}

proof fn lemma_keyed_lower_bound(s: Seq<(String, SqlValue)>, k: Seq<u8>, i: nat)
    requires
        i <= s.len(),
    ensures
        lower_bound(s, k, i) == keyed_lower_bound(sql_entries_view(s), k, i),
    decreases s.len() - i,
{
    lemma_sql_entries_view(s);
    if i < s.len() {
        assert(sql_entries_view(s)[i as int].0 == s[i as int].0@);
        lemma_keyed_lower_bound(s, k, i + 1);
    }
}

/// The view of a map after an insertion is the keyed insertion.
proof fn lemma_insert_view(s: Seq<(String, SqlValue)>, key: String, value: SqlValue)
    ensures
        sql_entries_view(map_insert(s, key, value)) == keyed_insert(sql_entries_view(s), key@, sql_value_view(value)),
{
    let k = key_bytes(key@);
    let m = sql_entries_view(s);
    lemma_sql_entries_view(s);
    lemma_keyed_lower_bound(s, k, 0);
    let j = lower_bound(s, k, 0);
    lemma_lower_bound(s, k, 0);
    let t = map_insert(s, key, value);
    lemma_sql_entries_view(t);
    if j < s.len() && key_bytes(s[j as int].0@) == k {
        assert(sql_entries_view(t) =~= m.update(j as int, (m[j as int].0, sql_value_view(value))));
    } else {
        assert(sql_entries_view(t) =~= m.insert(j as int, (key@, sql_value_view(value))));
    }
}

/// Insert the entries of `src`, in order, into `m`.
fn insert_all(m: &mut FieldMap<SqlValue>, src: FieldMap<SqlValue>)
    ensures
        sql_entries_view(final(m).entries@) == keyed_insert_all(
            sql_entries_view(old(m).entries@),
            sql_entries_view(src.entries@),
        ),
{
    let ghost goal = keyed_insert_all(sql_entries_view(m.entries@), sql_entries_view(src.entries@));
    let mut rest = src.entries;
    while rest.len() > 0
        invariant
            keyed_insert_all(sql_entries_view(m.entries@), sql_entries_view(rest@)) == goal,
        decreases rest.len(),
    {
        let ghost before = rest@;
        let (k, v) = rest.remove(0);
        proof {
            lemma_sql_entries_view(before);
            lemma_sql_entries_view(rest@);
            assert(sql_entries_view(rest@) =~= sql_entries_view(before).drop_first());
            lemma_insert_view(m.entries@, k, v);
        }
        m.insert(k, v);
    }
    proof {
        assert(sql_entries_view(rest@) =~= Seq::empty());
    }
}

/// The object holding the entries of `l`, then those of `r`.
fn merge_objects(l: FieldMap<SqlValue>, r: FieldMap<SqlValue>) -> (m: FieldMap<SqlValue>)
    ensures
        sql_entries_view(m.entries@) == merged(sql_entries_view(l.entries@), sql_entries_view(r.entries@)),
{
    let mut m: FieldMap<SqlValue> = FieldMap::new();
    assert(sql_entries_view(m.entries@) =~= Seq::empty());
    insert_all(&mut m, l);
    insert_all(&mut m, r);
    m
}

// ── Condition grammar ─────────────────────────────────────────────────────

/// The token at `p` is the keyword `kw`.
pub open spec fn kw_at(t: Seq<TokenView>, p: int, kw: Seq<char>) -> bool {
    0 <= p < t.len() && t[p] == TokenView::Keyword(kw)
}

/// The token at `p` is the punctuation `c`.
pub open spec fn punct_at(t: Seq<TokenView>, p: int, c: char) -> bool {
    0 <= p < t.len() && t[p] == TokenView::Punctuation(c)
}

/// The name of the identifier at `p`, if there is one.
pub open spec fn ident_at(t: Seq<TokenView>, p: int) -> Option<Seq<char>> {
    if 0 <= p < t.len() {
        match t[p] {
            TokenView::Identifier(n) => Some(n),
            _ => None,
        }
    } else {
        None
    }
}

/// The operator at `p`, if there is one.
pub open spec fn op_at(t: Seq<TokenView>, p: int) -> Option<Seq<char>> {
    if 0 <= p < t.len() {
        match t[p] {
            TokenView::Operator(o) => Some(o),
            _ => None,
        }
    } else {
        None
    }
}

/// The literal at `p`, if there is one.
pub open spec fn lit_at(t: Seq<TokenView>, p: int) -> Option<LiteralView> {
    if 0 <= p < t.len() {
        match t[p] {
            TokenView::Literal(l) => Some(l),
            _ => None,
        }
    } else {
        None
    }
}

/// The MQL operator of a SQL comparison; an unknown one is `$eq`.
pub open spec fn mql_op(op: Seq<char>) -> Seq<char> {
    if op == "="@ {
        "$eq"@
    } else if op == "!="@ {
        "$ne"@
    } else if op == ">"@ {
        "$gt"@
    } else if op == ">="@ {
        "$gte"@
    } else if op == "<"@ {
        "$lt"@
    } else if op == "<="@ {
        "$lte"@
    } else {
        "$eq"@
    }
}

/// The six SQL comparisons.
pub open spec fn sql_comparison(op: Seq<char>) -> bool {
    op == "="@ || op == "!="@ || op == ">"@ || op == ">="@ || op == "<"@ || op == "<="@
}

/// Each SQL comparison has its own MQL operator: `=` is `$eq`, `!=` is
/// `$ne`, `>` is `$gt`, `>=` is `$gte`, `<` is `$lt` and `<=` is `$lte`.
pub proof fn lemma_mql_op_names()
    ensures
        mql_op("="@) == "$eq"@,
        mql_op("!="@) == "$ne"@,
        mql_op(">"@) == "$gt"@,
        mql_op(">="@) == "$gte"@,
        mql_op("<"@) == "$lt"@,
        mql_op("<="@) == "$lte"@,
{
    reveal_strlit("=");
    reveal_strlit("!=");
    reveal_strlit(">");
    reveal_strlit(">=");
    reveal_strlit("<");
    reveal_strlit("<=");
    reveal_strlit("$eq");
    reveal_strlit("$ne");
    reveal_strlit("$gt");
    reveal_strlit("$gte");
    reveal_strlit("$lt");
    reveal_strlit("$lte");
    assert("!="@ != "="@) by { assert("!="@.len() != "="@.len()); }
    assert(">"@ != "="@) by { assert(">"@[0] != "="@[0]); }
    assert(">"@ != "!="@) by { assert(">"@.len() != "!="@.len()); }
    assert(">="@ != "="@) by { assert(">="@.len() != "="@.len()); }
    assert(">="@ != "!="@) by { assert(">="@[0] != "!="@[0]); }
    assert(">="@ != ">"@) by { assert(">="@.len() != ">"@.len()); }
    assert("<"@ != "="@) by { assert("<"@[0] != "="@[0]); }
    assert("<"@ != "!="@) by { assert("<"@.len() != "!="@.len()); }
    assert("<"@ != ">"@) by { assert("<"@[0] != ">"@[0]); }
    assert("<"@ != ">="@) by { assert("<"@.len() != ">="@.len()); }
    assert("<="@ != "="@) by { assert("<="@.len() != "="@.len()); }
    assert("<="@ != "!="@) by { assert("<="@[0] != "!="@[0]); }
    assert("<="@ != ">"@) by { assert("<="@.len() != ">"@.len()); }
    assert("<="@ != ">="@) by { assert("<="@[0] != ">="@[0]); }
    assert("<="@ != "<"@) by { assert("<="@.len() != "<"@.len()); }
}

/// Any other operator token becomes an equality.
pub proof fn lemma_mql_op_default(op: Seq<char>)
    requires
        !sql_comparison(op),
    ensures
        mql_op(op) == "$eq"@,
{
}

/// Distinct SQL comparisons give distinct MQL operators.
pub proof fn lemma_mql_op_distinct(a: Seq<char>, b: Seq<char>)
    requires
        sql_comparison(a),
        sql_comparison(b),
        a != b,
    ensures
        mql_op(a) != mql_op(b),
{
    reveal_strlit("=");
    reveal_strlit("!=");
    reveal_strlit(">");
    reveal_strlit(">=");
    reveal_strlit("<");
    reveal_strlit("<=");
    reveal_strlit("$eq");
    reveal_strlit("$ne");
    reveal_strlit("$gt");
    reveal_strlit("$gte");
    reveal_strlit("$lt");
    reveal_strlit("$lte");
    assert("!="@ != "="@) by { assert("!="@.len() != "="@.len()); }
    assert(">"@ != "="@) by { assert(">"@[0] != "="@[0]); }
    assert(">"@ != "!="@) by { assert(">"@.len() != "!="@.len()); }
    assert(">="@ != "="@) by { assert(">="@.len() != "="@.len()); }
    assert(">="@ != "!="@) by { assert(">="@[0] != "!="@[0]); }
    assert(">="@ != ">"@) by { assert(">="@.len() != ">"@.len()); }
    assert("<"@ != "="@) by { assert("<"@[0] != "="@[0]); }
    assert("<"@ != "!="@) by { assert("<"@.len() != "!="@.len()); }
    assert("<"@ != ">"@) by { assert("<"@[0] != ">"@[0]); }
    assert("<"@ != ">="@) by { assert("<"@.len() != ">="@.len()); }
    assert("<="@ != "="@) by { assert("<="@.len() != "="@.len()); }
    assert("<="@ != "!="@) by { assert("<="@[0] != "!="@[0]); }
    assert("<="@ != ">"@) by { assert("<="@.len() != ">"@.len()); }
    assert("<="@ != ">="@) by { assert("<="@[0] != ">="@[0]); }
    assert("<="@ != "<"@) by { assert("<="@.len() != "<"@.len()); }
    assert("$ne"@ != "$eq"@) by { assert("$ne"@[1] != "$eq"@[1]); }
    assert("$gt"@ != "$eq"@) by { assert("$gt"@[1] != "$eq"@[1]); }
    assert("$gt"@ != "$ne"@) by { assert("$gt"@[1] != "$ne"@[1]); }
    assert("$gte"@ != "$eq"@) by { assert("$gte"@.len() != "$eq"@.len()); }
    assert("$gte"@ != "$ne"@) by { assert("$gte"@.len() != "$ne"@.len()); }
    assert("$gte"@ != "$gt"@) by { assert("$gte"@.len() != "$gt"@.len()); }
    assert("$lt"@ != "$eq"@) by { assert("$lt"@[1] != "$eq"@[1]); }
    assert("$lt"@ != "$ne"@) by { assert("$lt"@[1] != "$ne"@[1]); }
    assert("$lt"@ != "$gt"@) by { assert("$lt"@[1] != "$gt"@[1]); }
    assert("$lt"@ != "$gte"@) by { assert("$lt"@.len() != "$gte"@.len()); }
    assert("$lte"@ != "$eq"@) by { assert("$lte"@.len() != "$eq"@.len()); }
    assert("$lte"@ != "$ne"@) by { assert("$lte"@.len() != "$ne"@.len()); }
    assert("$lte"@ != "$gt"@) by { assert("$lte"@.len() != "$gt"@.len()); }
    assert("$lte"@ != "$gte"@) by { assert("$lte"@[1] != "$gte"@[1]); }
    assert("$lte"@ != "$lt"@) by { assert("$lte"@.len() != "$lt"@.len()); }
}

/// The filter parser reads the operator a SQL comparison becomes back as
/// the same comparison: `>=` as `Gte`, `<=` as `Lte`, and so on.
pub proof fn lemma_mql_op_parses()
    ensures
        op_named(mql_op("="@)) == Some(FilterOp::Eq),
        op_named(mql_op("!="@)) == Some(FilterOp::Ne),
        op_named(mql_op(">"@)) == Some(FilterOp::Gt),
        op_named(mql_op(">="@)) == Some(FilterOp::Gte),
        op_named(mql_op("<"@)) == Some(FilterOp::Lt),
        op_named(mql_op("<="@)) == Some(FilterOp::Lte),
{
    lemma_mql_op_names();
    lemma_op_names();
}

/// What a condition parse gives: the entries of the filter object and how
/// many tokens it read, or the position and message of a syntax error.
pub type CondResult = Result<(Seq<(Seq<char>, SqlValueView)>, nat), (int, Seq<char>)>;

/// A condition atom at `p`: a parenthesised condition, `field IS NULL`
/// (giving `{field: null}`), or `field op literal` (giving
/// `{field: {mql_op: literal}}`).
pub open spec fn atom_spec(t: Seq<TokenView>, p: int) -> CondResult
    decreases t.len() - p, 0nat,
{
    if punct_at(t, p, '(') {
        match or_spec(t, p + 1) {
            Err(e) => Err(e),
            Ok((v, n)) => if punct_at(t, p + 1 + n, ')') {
                Ok((v, n + 2))
            } else {
                Err((p + 1 + n, "Expected ')'"@))
            },
        }
    } else {
        match ident_at(t, p) {
            None => Err((p, "Expected condition"@)),
            Some(f) => if kw_at(t, p + 1, "IS"@) && kw_at(t, p + 2, "NULL"@) {
                Ok((seq![(f, SqlValueView::Null)], 3))
            } else {
                let r = if kw_at(t, p + 1, "IS"@) {
                    p + 2
                } else {
                    p + 1
                };
                match op_at(t, r) {
                    None => Err((r, "Expected condition"@)),
                    Some(op) => match lit_at(t, r + 1) {
                        None => Err((r + 1, "Expected condition"@)),
                        Some(l) => Ok(
                            (
                                seq![(f, SqlValueView::Object(seq![(mql_op(op), SqlValueView::Literal(l))]))],
                                (r + 2 - p) as nat,
                            ),
                        ),
                    },
                }
            },
        }
    }
}

/// Conditions joined by `AND`, right-nested: the objects are merged, the
/// right one's keys winning.
pub open spec fn and_spec(t: Seq<TokenView>, p: int) -> CondResult
    decreases t.len() - p, 1nat,
{
    match atom_spec(t, p) {
        Err(e) => Err(e),
        Ok((l, n)) => if kw_at(t, p + n, "AND"@) {
            match and_spec(t, p + n + 1) {
                Err(e) => Err(e),
                Ok((r, m)) => Ok((merged(l, r), n + 1 + m)),
            }
        } else {
            Ok((l, n))
        },
    }
}

/// Conditions joined by `OR`, right-nested: `{"$or": [left, right]}`.
pub open spec fn or_spec(t: Seq<TokenView>, p: int) -> CondResult
    decreases t.len() - p, 2nat,
{
    match and_spec(t, p) {
        Err(e) => Err(e),
        Ok((l, n)) => if kw_at(t, p + n, "OR"@) {
            match or_spec(t, p + n + 1) {
                Err(e) => Err(e),
                Ok((r, m)) => Ok(
                    (
                        seq![
                            ("$or"@, SqlValueView::Array(seq![SqlValueView::Object(l), SqlValueView::Object(r)])),
                        ],
                        n + 1 + m,
                    ),
                ),
            }
        } else {
            Ok((l, n))
        },
    }
}

// ── Statement grammar ─────────────────────────────────────────────────────

/// The message of a missing keyword or operator: `Expected 'x'`.
pub open spec fn expected_msg(x: Seq<char>) -> Seq<char> {
    "Expected '"@ + x + "'"@
}

/// What a parse that may fail gives: a value and the next position, or the
/// position and message of a syntax error.
pub type StepResult<T> = Result<(T, int), (int, Seq<char>)>;

/// The select list: `*`, or identifiers separated by commas.
pub open spec fn fields_spec(t: Seq<TokenView>, p: int) -> (Seq<Seq<char>>, int)
    decreases t.len() - p,
{
    if 0 <= p < t.len() && t[p] == TokenView::Star {
        (seq!["*"@], p + 1)
    } else {
        match ident_at(t, p) {
            None => (Seq::empty(), p),
            Some(n) => if punct_at(t, p + 1, ',') {
                let (rest, q) = fields_spec(t, p + 2);
                (seq![n] + rest, q)
            } else {
                (seq![n], p + 1)
            },
        }
    }
}

/// A join as plain values: collection, alias, local and foreign field.
pub type JoinView = (Seq<char>, Seq<char>, Seq<char>, Seq<char>);

/// `JOIN coll [AS alias] ON local = foreign`, repeated.
pub open spec fn joins_spec(t: Seq<TokenView>, p: int) -> StepResult<Seq<JoinView>>
    decreases t.len() - p,
{
    if !kw_at(t, p, "JOIN"@) {
        Ok((Seq::empty(), p))
    } else {
        let a = p + 1;
        match ident_at(t, a) {
            None => Err((a, "Expected collection after JOIN"@)),
            Some(c) => {
                let b = a + 1;
                let (alias, d) = if kw_at(t, b, "AS"@) {
                    match ident_at(t, b + 1) {
                        Some(n) => (n, b + 2),
                        None => (c, b + 1),
                    }
                } else {
                    (c, b)
                };
                if !kw_at(t, d, "ON"@) {
                    Err((d, expected_msg("ON"@)))
                } else {
                    match ident_at(t, d + 1) {
                        None => Err((d + 1, "Expected field reference"@)),
                        Some(lf) => if op_at(t, d + 2) == Some("="@) {
                            match ident_at(t, d + 3) {
                                None => Err((d + 3, "Expected field reference"@)),
                                Some(ff) => match joins_spec(t, d + 4) {
                                    Err(e) => Err(e),
                                    Ok((rest, q)) => Ok((seq![(c, alias, lf, ff)] + rest, q)),
                                },
                            }
                        } else {
                            Err((d + 2, expected_msg("="@)))
                        },
                    }
                }
            },
        }
    }
}

/// An optional `WHERE` condition.
pub open spec fn where_spec(t: Seq<TokenView>, p: int) -> StepResult<Option<SqlValueView>> {
    if kw_at(t, p, "WHERE"@) {
        match or_spec(t, p + 1) {
            Err(e) => Err(e),
            Ok((v, n)) => Ok((Some(SqlValueView::Object(v)), p + 1 + n)),
        }
    } else {
        Ok((None, p))
    }
}

/// Identifiers, each optional, separated by commas (`GROUP BY`).
pub open spec fn name_list(t: Seq<TokenView>, p: int) -> (Seq<Seq<char>>, int)
    decreases t.len() - p,
{
    let (items, a) = match ident_at(t, p) {
        Some(n) => (seq![n], p + 1),
        None => (Seq::empty(), p),
    };
    if punct_at(t, a, ',') {
        let (rest, q) = name_list(t, a + 1);
        (items + rest, q)
    } else {
        (items, a)
    }
}

/// Sort keys, each optional and followed by an optional `DESC` (-1) or
/// `ASC` (1, the default), separated by commas (`ORDER BY`).
pub open spec fn sort_list(t: Seq<TokenView>, p: int) -> (Seq<(Seq<char>, i32)>, int)
    decreases t.len() - p,
{
    let (items, a) = match ident_at(t, p) {
        Some(n) => if kw_at(t, p + 1, "DESC"@) {
            (seq![(n, -1i32)], p + 2)
        } else if kw_at(t, p + 1, "ASC"@) {
            (seq![(n, 1i32)], p + 2)
        } else {
            (seq![(n, 1i32)], p + 1)
        },
        None => (Seq::empty(), p),
    };
    if punct_at(t, a, ',') {
        let (rest, q) = sort_list(t, a + 1);
        (items + rest, q)
    } else {
        (items, a)
    }
}

/// An optional `GROUP BY` list; an empty list is none.
pub open spec fn group_spec(t: Seq<TokenView>, p: int) -> StepResult<Option<Seq<Seq<char>>>> {
    if kw_at(t, p, "GROUP"@) {
        if !kw_at(t, p + 1, "BY"@) {
            Err((p + 1, expected_msg("BY"@)))
        } else {
            let (l, q) = name_list(t, p + 2);
            Ok((if l.len() == 0 { None } else { Some(l) }, q))
        }
    } else {
        Ok((None, p))
    }
}

/// An optional `ORDER BY` list; an empty list is none.
pub open spec fn order_spec(t: Seq<TokenView>, p: int) -> StepResult<Option<Seq<(Seq<char>, i32)>>> {
    if kw_at(t, p, "ORDER"@) {
        if !kw_at(t, p + 1, "BY"@) {
            Err((p + 1, expected_msg("BY"@)))
        } else {
            let (l, q) = sort_list(t, p + 2);
            Ok((if l.len() == 0 { None } else { Some(l) }, q))
        }
    } else {
        Ok((None, p))
    }
}

/// A literal read as a count: a non-negative integer.
pub open spec fn literal_count(l: LiteralView) -> Option<usize> {
    match l {
        LiteralView::Integer(i) => if i >= 0 {
            Some(i as usize)
        } else {
            None
        },
        _ => None,
    }
}

/// An optional `kw literal` clause (`LIMIT`, `SKIP`).
pub open spec fn count_clause(t: Seq<TokenView>, p: int, kw: Seq<char>) -> (Option<usize>, int) {
    if kw_at(t, p, kw) {
        match lit_at(t, p + 1) {
            Some(l) => (literal_count(l), p + 2),
            None => (None, p + 1),
        }
    } else {
        (None, p)
    }
}

/// A query as plain values.
pub struct QueryView {
    pub kind: Seq<char>,
    pub collection: Option<Seq<char>>,
    pub fields: Seq<Seq<char>>,
    pub filter: Option<SqlValueView>,
    pub sort: Option<Seq<(Seq<char>, i32)>>,
    pub limit: Option<usize>,
    pub skip: Option<usize>,
    pub group_by: Option<Seq<Seq<char>>>,
    pub joins: Seq<JoinView>,
    pub insert_values: Option<Seq<SqlValueView>>,
    pub update_set: Option<SqlValueView>,
}

/// An optional collection name.
pub open spec fn coll_spec(t: Seq<TokenView>, p: int) -> (Option<Seq<char>>, int) {
    match ident_at(t, p) {
        Some(n) => (Some(n), p + 1),
        None => (None, p),
    }
}

/// `SELECT list FROM [coll] joins [WHERE cond] [GROUP BY ..] [ORDER BY ..]
/// [LIMIT n] [SKIP n]`, with `p` at `SELECT`.
pub open spec fn select_spec(t: Seq<TokenView>, p: int) -> Result<QueryView, (int, Seq<char>)> {
    let (fields, a) = fields_spec(t, p + 1);
    if !kw_at(t, a, "FROM"@) {
        Err((a, expected_msg("FROM"@)))
    } else {
        let (collection, c) = coll_spec(t, a + 1);
        match joins_spec(t, c) {
            Err(e) => Err(e),
            Ok((joins, d)) => match where_spec(t, d) {
                Err(e) => Err(e),
                Ok((filter, e1)) => match group_spec(t, e1) {
                    Err(e) => Err(e),
                    Ok((group_by, f)) => match order_spec(t, f) {
                        Err(e) => Err(e),
                        Ok((sort, g)) => {
                            let (limit, h) = count_clause(t, g, "LIMIT"@);
                            let (skip, _) = count_clause(t, h, "SKIP"@);
                            Ok(
                                QueryView {
                                    kind: "select"@,
                                    collection,
                                    fields,
                                    filter,
                                    sort,
                                    limit,
                                    skip,
                                    group_by,
                                    joins,
                                    insert_values: None,
                                    update_set: None,
                                },
                            )
                        },
                    },
                },
            },
        }
    }
}

/// The key of the `idx`-th inserted value: the `idx`-th listed field, or
/// `field_<idx>` past the list.
pub open spec fn insert_key(fields: Seq<Seq<char>>, idx: nat) -> Seq<char> {
    if idx < fields.len() {
        fields[idx as int]
    } else {
        "field_"@ + decimal_nat(idx)
    }
}

/// The literals of a `VALUES` tuple, each optional, separated by commas,
/// inserted into `doc` under their keys from the `idx`-th on.
pub open spec fn tuple_spec(
    t: Seq<TokenView>,
    p: int,
    fields: Seq<Seq<char>>,
    idx: nat,
    doc: Seq<(Seq<char>, SqlValueView)>,
) -> (Seq<(Seq<char>, SqlValueView)>, int)
    decreases t.len() - p,
{
    let (doc2, idx2, a) = match lit_at(t, p) {
        Some(l) => (keyed_insert(doc, insert_key(fields, idx), SqlValueView::Literal(l)), idx + 1, p + 1),
        None => (doc, idx, p),
    };
    if punct_at(t, a, ',') {
        tuple_spec(t, a + 1, fields, idx2, doc2)
    } else {
        (doc2, a)
    }
}

/// `INSERT INTO [coll] [(fields)] VALUES [(literals)]`, with `p` at
/// `INSERT`.
pub open spec fn insert_spec(t: Seq<TokenView>, p: int) -> Result<QueryView, (int, Seq<char>)> {
    if !kw_at(t, p + 1, "INTO"@) {
        Err((p + 1, expected_msg("INTO"@)))
    } else {
        let (collection, a) = coll_spec(t, p + 2);
        let fl: StepResult<Seq<Seq<char>>> = if punct_at(t, a, '(') {
            let (l, b) = name_list(t, a + 1);
            if punct_at(t, b, ')') {
                Ok((l, b + 1))
            } else {
                Err((b, "Expected ')'"@))
            }
        } else {
            Ok((Seq::empty(), a))
        };
        match fl {
            Err(e) => Err(e),
            Ok((field_list, c)) => if !kw_at(t, c, "VALUES"@) {
                Err((c, expected_msg("VALUES"@)))
            } else {
                let vals: Result<Seq<SqlValueView>, (int, Seq<char>)> = if punct_at(t, c + 1, '(') {
                    let (doc, d) = tuple_spec(t, c + 2, field_list, 0, Seq::empty());
                    if punct_at(t, d, ')') {
                        Ok(seq![SqlValueView::Object(doc)])
                    } else {
                        Err((d, "Expected ')'"@))
                    }
                } else {
                    Ok(Seq::empty())
                };
                match vals {
                    Err(e) => Err(e),
                    Ok(values) => Ok(
                        QueryView {
                            kind: "insert"@,
                            collection,
                            fields: Seq::empty(),
                            filter: None,
                            sort: None,
                            limit: None,
                            skip: None,
                            group_by: None,
                            joins: Seq::empty(),
                            insert_values: Some(values),
                            update_set: None,
                        },
                    ),
                }
            },
        }
    }
}

/// `field = literal` pairs, each optional, separated by commas, inserted
/// into `set`.
pub open spec fn set_spec(t: Seq<TokenView>, p: int, set: Seq<(Seq<char>, SqlValueView)>) -> StepResult<
    Seq<(Seq<char>, SqlValueView)>,
>
    decreases t.len() - p,
{
    let step: StepResult<Seq<(Seq<char>, SqlValueView)>> = match ident_at(t, p) {
        Some(f) => if op_at(t, p + 1) == Some("="@) {
            match lit_at(t, p + 2) {
                Some(l) => Ok((keyed_insert(set, f, SqlValueView::Literal(l)), p + 3)),
                None => Ok((set, p + 2)),
            }
        } else {
            Err((p + 1, expected_msg("="@)))
        },
        None => Ok((set, p)),
    };
    match step {
        Err(e) => Err(e),
        Ok((set2, a)) => if punct_at(t, a, ',') {
            set_spec(t, a + 1, set2)
        } else {
            Ok((set2, a))
        },
    }
}

/// `UPDATE [coll] SET pairs [WHERE cond]`, with `p` at `UPDATE`.
pub open spec fn update_spec(t: Seq<TokenView>, p: int) -> Result<QueryView, (int, Seq<char>)> {
    let (collection, a) = coll_spec(t, p + 1);
    if !kw_at(t, a, "SET"@) {
        Err((a, expected_msg("SET"@)))
    } else {
        match set_spec(t, a + 1, Seq::empty()) {
            Err(e) => Err(e),
            Ok((set, b)) => match where_spec(t, b) {
                Err(e) => Err(e),
                Ok((filter, _)) => Ok(
                    QueryView {
                        kind: "update"@,
                        collection,
                        fields: Seq::empty(),
                        filter,
                        sort: None,
                        limit: None,
                        skip: None,
                        group_by: None,
                        joins: Seq::empty(),
                        insert_values: None,
                        update_set: Some(SqlValueView::Object(set)),
                    },
                ),
            },
        }
    }
}

/// `DELETE FROM [coll] [WHERE cond]`, with `p` at `DELETE`.
pub open spec fn delete_spec(t: Seq<TokenView>, p: int) -> Result<QueryView, (int, Seq<char>)> {
    if !kw_at(t, p + 1, "FROM"@) {
        Err((p + 1, expected_msg("FROM"@)))
    } else {
        let (collection, a) = coll_spec(t, p + 2);
        match where_spec(t, a) {
            Err(e) => Err(e),
            Ok((filter, _)) => Ok(
                QueryView {
                    kind: "delete"@,
                    collection,
                    fields: Seq::empty(),
                    filter,
                    sort: None,
                    limit: None,
                    skip: None,
                    group_by: None,
                    joins: Seq::empty(),
                    insert_values: None,
                    update_set: None,
                },
            ),
        }
    }
}

/// A statement: chosen by its first keyword.
pub open spec fn statement_spec(t: Seq<TokenView>, p: int) -> Result<QueryView, (int, Seq<char>)> {
    if kw_at(t, p, "SELECT"@) {
        select_spec(t, p)
    } else if kw_at(t, p, "INSERT"@) {
        insert_spec(t, p)
    } else if kw_at(t, p, "UPDATE"@) {
        update_spec(t, p)
    } else if kw_at(t, p, "DELETE"@) {
        delete_spec(t, p)
    } else {
        Err((p, "Expected SELECT, INSERT, UPDATE, or DELETE"@))
    }
}

// ── Parser ────────────────────────────────────────────────────────────────

/// What a condition parse returned, against what the grammar gives when it
/// started at `p0` and ended at `p1`.
pub open spec fn cond_result(s: CondResult, r: OvnResult<SqlValue>, p0: int, p1: int) -> bool {
    match s {
        Ok((v, n)) => r matches Ok(x) && sql_value_view(x) == SqlValueView::Object(v) && p1 == p0 + n,
        Err((ep, msg)) => r matches Err(OvnError::QuerySyntaxError { position, message }) && position == ep
            && message@ == msg,
    }
}

/// A copy of a literal.
fn copy_literal(l: &SqlLiteral) -> (r: SqlLiteral)
    ensures
        literal_view(r) == literal_view(*l),
{
    match l {
        SqlLiteral::Text(s) => SqlLiteral::Text(s.clone()),
        SqlLiteral::Integer(i) => SqlLiteral::Integer(*i),
        SqlLiteral::Decimal(s) => SqlLiteral::Decimal(s.clone()),
    }
}

/// The MQL name of a SQL comparison operator.
fn mql_op_of(op: &str) -> (r: &'static str)
    ensures
        r@ == mql_op(op@),
{
    if str_eq(op, "=") {
        "$eq"
    } else if str_eq(op, "!=") {
        "$ne"
    } else if str_eq(op, ">") {
        "$gt"
    } else if str_eq(op, ">=") {
        "$gte"
    } else if str_eq(op, "<") {
        "$lt"
    } else if str_eq(op, "<=") {
        "$lte"
    } else {
        "$eq"
    }
}

/// The object with the single entry `(key, value)`.
fn single(key: String, value: SqlValue) -> (r: SqlValue)
    ensures
        sql_value_view(r) == SqlValueView::Object(seq![(key@, sql_value_view(value))]),
{
    let mut m: FieldMap<SqlValue> = FieldMap::new();
    proof {
        lemma_insert_view(m.entries@, key, value);
        assert(sql_entries_view(m.entries@) =~= Seq::empty());
        assert(keyed_insert(Seq::<(Seq<char>, SqlValueView)>::empty(), key@, sql_value_view(value)) =~= seq![
            (key@, sql_value_view(value)),
        ]);
    }
    m.insert(key, value);
    SqlValue::Object(m)
}

/// A recursive-descent parser over the tokens of SQL text.
pub struct SqlParser {
    tokens: Vec<SqlToken>,
    pos: usize,
}

impl SqlParser {
    /// The tokens, as plain values.
    pub closed spec fn toks(&self) -> Seq<TokenView> {
        tokens_view(self.tokens@)
    }

    /// The position of the next token.
    pub closed spec fn at(&self) -> int {
        self.pos as int
    }

    /// A parser at the start of the tokens of `input`.
    pub fn new(input: &str) -> (r: Self)
        ensures
            r.toks() == lex(input@),
            r.at() == 0,
    {
        SqlParser { tokens: lex_text(input), pos: 0 }
    }

    /// Split SQL text into tokens (see `lex`).
    pub fn tokenize(input: &str) -> (r: Vec<SqlToken>)
        ensures
            tokens_view(r@) == lex(input@),
    {
        lex_text(input)
    }

    fn peek_keyword(&self, kw: &str) -> (b: bool)
        ensures
            b == kw_at(self.toks(), self.pos as int, kw@),
    {
        if self.pos < self.tokens.len() {
            match &self.tokens[self.pos] {
                SqlToken::Keyword(k) => str_eq(k.as_str(), kw),
                _ => false,
            }
        } else {
            false
        }
    }

    fn peek_punct(&self, c: char) -> (b: bool)
        ensures
            b == punct_at(self.toks(), self.pos as int, c),
    {
        if self.pos < self.tokens.len() {
            match &self.tokens[self.pos] {
                SqlToken::Punctuation(d) => *d == c,
                _ => false,
            }
        } else {
            false
        }
    }

    fn peek_identifier(&self) -> (r: Option<String>)
        ensures
            match ident_at(self.toks(), self.pos as int) {
                Some(n) => r matches Some(x) && x@ == n,
                None => r is None,
            },
    {
        if self.pos < self.tokens.len() {
            match &self.tokens[self.pos] {
                SqlToken::Identifier(n) => Some(n.clone()),
                _ => None,
            }
        } else {
            None
        }
    }

    fn peek_operator(&self) -> (r: Option<String>)
        ensures
            match op_at(self.toks(), self.pos as int) {
                Some(o) => r matches Some(x) && x@ == o,
                None => r is None,
            },
    {
        if self.pos < self.tokens.len() {
            match &self.tokens[self.pos] {
                SqlToken::Operator(o) => Some(o.clone()),
                _ => None,
            }
        } else {
            None
        }
    }

    fn peek_literal(&self) -> (r: Option<SqlLiteral>)
        ensures
            match lit_at(self.toks(), self.pos as int) {
                Some(l) => r matches Some(x) && literal_view(x) == l,
                None => r is None,
            },
    {
        if self.pos < self.tokens.len() {
            match &self.tokens[self.pos] {
                SqlToken::Literal(l) => Some(copy_literal(l)),
                _ => None,
            }
        } else {
            None
        }
    }

    /// Step past the next token.
    fn advance(&mut self)
        requires
            old(self).pos < old(self).tokens@.len(),
        ensures
            final(self).tokens == old(self).tokens,
            final(self).pos == old(self).pos + 1,
    {
        if self.pos < self.tokens.len() {
            self.pos = self.pos + 1;
        }
    }

    fn syntax_error(&self, msg: &str) -> (e: OvnError)
        ensures
            e matches OvnError::QuerySyntaxError { position, message } && position == self.pos && message@ == msg@,
    {
        OvnError::QuerySyntaxError { position: self.pos, message: msg.to_string() }
    }

    fn parse_atom(&mut self) -> (r: OvnResult<SqlValue>)
        requires
            old(self).pos <= old(self).tokens@.len(),
        ensures
            final(self).tokens == old(self).tokens,
            final(self).pos <= final(self).tokens@.len(),
            cond_result(atom_spec(old(self).toks(), old(self).pos as int), r, old(self).pos as int, final(self).pos as int),
        decreases old(self).tokens@.len() - old(self).pos, 0nat,
    {
        let ghost p = self.pos as int;
        let ghost t = self.toks();
        if self.peek_punct('(') {
            self.advance();
            let inner = self.parse_or_condition();
            match inner {
                Err(e) => Err(e),
                Ok(v) => {
                    if self.peek_punct(')') {
                        self.advance();
                        Ok(v)
                    } else {
                        Err(self.syntax_error("Expected ')'"))
                    }
                },
            }
        } else {
            match self.peek_identifier() {
                None => Err(self.syntax_error("Expected condition")),
                Some(f) => {
                    self.advance();
                    if self.peek_keyword("IS") {
                        self.advance();
                        if self.peek_keyword("NULL") {
                            self.advance();
                            return Ok(single(f, SqlValue::Null));
                        }
                    }
                    match self.peek_operator() {
                        None => Err(self.syntax_error("Expected condition")),
                        Some(op) => {
                            self.advance();
                            match self.peek_literal() {
                                None => Err(self.syntax_error("Expected condition")),
                                Some(l) => {
                                    self.advance();
                                    let name = mql_op_of(op.as_str()).to_string();
                                    let inner = single(name, SqlValue::Literal(l));
                                    Ok(single(f, inner))
                                },
                            }
                        },
                    }
                },
            }
        }
    }

    fn parse_and_condition(&mut self) -> (r: OvnResult<SqlValue>)
        requires
            old(self).pos <= old(self).tokens@.len(),
        ensures
            final(self).tokens == old(self).tokens,
            final(self).pos <= final(self).tokens@.len(),
            cond_result(and_spec(old(self).toks(), old(self).pos as int), r, old(self).pos as int, final(self).pos as int),
        decreases old(self).tokens@.len() - old(self).pos, 1nat,
    {
        let left = self.parse_atom();
        match left {
            Err(e) => Err(e),
            Ok(l) => {
                if self.peek_keyword("AND") {
                    self.advance();
                    let right = self.parse_and_condition();
                    match right {
                        Err(e) => Err(e),
                        Ok(r) => match (l, r) {
                            (SqlValue::Object(lm), SqlValue::Object(rm)) => Ok(SqlValue::Object(merge_objects(lm, rm))),
                            (_, _) => {
                                assert(false);
                                Err(self.syntax_error("Expected condition"))
                            },
                        },
                    }
                } else {
                    Ok(l)
                }
            },
        }
    }

    fn parse_or_condition(&mut self) -> (r: OvnResult<SqlValue>)
        requires
            old(self).pos <= old(self).tokens@.len(),
        ensures
            final(self).tokens == old(self).tokens,
            final(self).pos <= final(self).tokens@.len(),
            cond_result(or_spec(old(self).toks(), old(self).pos as int), r, old(self).pos as int, final(self).pos as int),
        decreases old(self).tokens@.len() - old(self).pos, 2nat,
    {
        let left = self.parse_and_condition();
        match left {
            Err(e) => Err(e),
            Ok(l) => {
                if self.peek_keyword("OR") {
                    self.advance();
                    let right = self.parse_or_condition();
                    match right {
                        Err(e) => Err(e),
                        Ok(r) => {
                            let mut items: Vec<SqlValue> = Vec::new();
                            let ghost lg = l;
                            let ghost rg = r;
                            items.push(l);
                            items.push(r);
                            proof {
                                let two = seq![lg, rg];
                                assert(items@ =~= two);
                                assert(two.drop_last() =~= seq![lg]);
                                assert(seq![lg].drop_last() =~= Seq::<SqlValue>::empty());
                                assert(sql_items_view(Seq::<SqlValue>::empty()) =~= Seq::empty());
                                assert(sql_items_view(seq![lg]) =~= seq![sql_value_view(lg)]);
                                assert(two.last() == rg);
                                assert(sql_items_view(two) =~= seq![sql_value_view(lg), sql_value_view(rg)]);
                            }
                            Ok(single("$or".to_string(), SqlValue::Array(items)))
                        },
                    }
                } else {
                    Ok(l)
                }
            },
        }
    }
}

} // verus!

verus! {

/// A `JOIN` of a SQL query: `collection` (as `alias`) joined where
/// `local_field` equals the joined collection's `foreign_field`.
#[derive(Debug, Clone)]
pub struct SqlJoin {
    pub collection: String,
    pub alias: String,
    pub local_field: String,
    pub foreign_field: String,
}

/// A parsed SQL-like query.
#[derive(Debug)]
pub struct SqlQuery {
    pub query_type: String,
    pub collection: Option<String>,
    pub fields: Vec<String>,
    pub filter: Option<SqlValue>,
    pub sort: Option<Vec<(String, i32)>>,
    pub limit: Option<usize>,
    pub skip: Option<usize>,
    pub group_by: Option<Vec<String>>,
    pub joins: Vec<SqlJoin>,
    pub insert_values: Option<Vec<SqlValue>>,
    pub update_set: Option<SqlValue>,
}

pub open spec fn join_view(j: SqlJoin) -> JoinView {
    (j.collection@, j.alias@, j.local_field@, j.foreign_field@)
}

pub open spec fn joins_view(v: Seq<SqlJoin>) -> Seq<JoinView> {
    v.map_values(|j: SqlJoin| join_view(j))
}

pub open spec fn sort_view(v: Seq<(String, i32)>) -> Seq<(Seq<char>, i32)> {
    v.map_values(|e: (String, i32)| (e.0@, e.1))
}

pub open spec fn opt_string_view(o: Option<String>) -> Option<Seq<char>> {
    match o {
        Some(s) => Some(s@),
        None => None,
    }
}

pub open spec fn opt_value_view(o: Option<SqlValue>) -> Option<SqlValueView> {
    match o {
        Some(v) => Some(sql_value_view(v)),
        None => None,
    }
}

/// A query as plain values.
pub open spec fn query_view(q: SqlQuery) -> QueryView {
    QueryView {
        kind: q.query_type@,
        collection: opt_string_view(q.collection),
        fields: strings_view(q.fields@),
        filter: opt_value_view(q.filter),
        sort: match q.sort {
            Some(v) => Some(sort_view(v@)),
            None => None,
        },
        limit: q.limit,
        skip: q.skip,
        group_by: match q.group_by {
            Some(v) => Some(strings_view(v@)),
            None => None,
        },
        joins: joins_view(q.joins@),
        insert_values: match q.insert_values {
            Some(v) => Some(sql_items_view(v@)),
            None => None,
        },
        update_set: opt_value_view(q.update_set),
    }
}

/// The views of a list of strings.
pub open spec fn strings_view(v: Seq<String>) -> Seq<Seq<char>> {
    v.map_values(|s: String| s@)
}

/// `e` is the syntax error at `at` with message `msg`.
pub open spec fn error_at(e: OvnError, at: int, msg: Seq<char>) -> bool {
    e matches OvnError::QuerySyntaxError { position, message } && position == at && message@ == msg
}

/// What a fallible step returned, against what the grammar gives.
pub open spec fn step_matches<T, V>(s: StepResult<V>, r: Result<T, OvnError>, v: spec_fn(T) -> V, end: int) -> bool {
    match s {
        Ok((x, q)) => r matches Ok(y) && v(y) == x && end == q,
        Err((at, msg)) => r matches Err(e) && error_at(e, at, msg),
    }
}

fn expected(x: &str) -> (s: String)
    ensures
        s@ == expected_msg(x@),
{
    concat_str(concat_str("Expected '".to_string(), x), "'")
}

impl SqlParser {
    fn expect_keyword(&mut self, kw: &str) -> (r: OvnResult<()>)
        requires
            old(self).pos <= old(self).tokens@.len(),
        ensures
            final(self).tokens == old(self).tokens,
            final(self).pos <= final(self).tokens@.len(),
            kw_at(old(self).toks(), old(self).pos as int, kw@) ==> (r is Ok && final(self).pos == old(self).pos + 1),
            !kw_at(old(self).toks(), old(self).pos as int, kw@) ==> (r matches Err(e) && error_at(
                e,
                old(self).pos as int,
                expected_msg(kw@),
            )),
    {
        if self.peek_keyword(kw) {
            self.advance();
            Ok(())
        } else {
            Err(OvnError::QuerySyntaxError { position: self.pos, message: expected(kw) })
        }
    }

    /// A comma at the current position, stepped past.
    fn take_comma(&mut self) -> (b: bool)
        requires
            old(self).pos <= old(self).tokens@.len(),
        ensures
            final(self).tokens == old(self).tokens,
            b == punct_at(old(self).toks(), old(self).pos as int, ','),
            final(self).pos == old(self).pos + if b { 1int } else { 0int },
    {
        if self.peek_punct(',') {
            self.advance();
            true
        } else {
            false
        }
    }

    fn parse_fields(&mut self) -> (r: Vec<String>)
        requires
            old(self).pos <= old(self).tokens@.len(),
        ensures
            final(self).tokens == old(self).tokens,
            final(self).pos <= final(self).tokens@.len(),
            (strings_view(r@), final(self).pos as int) == fields_spec(old(self).toks(), old(self).pos as int),
        decreases old(self).tokens@.len() - old(self).pos,
    {
        let is_star = self.pos < self.tokens.len() && match &self.tokens[self.pos] {
            SqlToken::Star => true,
            _ => false,
        };
        if is_star {
            self.advance();
            let mut out: Vec<String> = Vec::new();
            out.push("*".to_string());
            assert(strings_view(out@) =~= seq!["*"@]);
            return out;
        }
        match self.peek_identifier() {
            None => {
                let out: Vec<String> = Vec::new();
                assert(strings_view(out@) =~= Seq::empty());
                out
            },
            Some(n) => {
                self.advance();
                let ghost nv = n@;
                if self.take_comma() {
                    let mut rest = self.parse_fields();
                    let ghost rv = strings_view(rest@);
                    rest.insert(0, n);
                    assert(strings_view(rest@) =~= seq![nv] + rv);
                    rest
                } else {
                    let mut out: Vec<String> = Vec::new();
                    out.push(n);
                    assert(strings_view(out@) =~= seq![nv]);
                    out
                }
            },
        }
    }

    fn parse_field_ref(&mut self) -> (r: OvnResult<String>)
        requires
            old(self).pos <= old(self).tokens@.len(),
        ensures
            final(self).tokens == old(self).tokens,
            final(self).pos <= final(self).tokens@.len(),
            match ident_at(old(self).toks(), old(self).pos as int) {
                Some(n) => r matches Ok(x) && x@ == n && final(self).pos == old(self).pos + 1,
                None => r matches Err(e) && error_at(e, old(self).pos as int, "Expected field reference"@),
            },
    {
        match self.peek_identifier() {
            Some(n) => {
                self.advance();
                Ok(n)
            },
            None => Err(self.syntax_error("Expected field reference")),
        }
    }

    fn expect_equals(&mut self) -> (r: OvnResult<()>)
        requires
            old(self).pos <= old(self).tokens@.len(),
        ensures
            final(self).tokens == old(self).tokens,
            final(self).pos <= final(self).tokens@.len(),
            op_at(old(self).toks(), old(self).pos as int) == Some("="@) ==> (r is Ok && final(self).pos == old(
                self,
            ).pos + 1),
            op_at(old(self).toks(), old(self).pos as int) != Some("="@) ==> (r matches Err(e) && error_at(
                e,
                old(self).pos as int,
                expected_msg("="@),
            )),
    {
        match self.peek_operator() {
            Some(o) => {
                if str_eq(o.as_str(), "=") {
                    self.advance();
                    return Ok(());
                }
            },
            None => {},
        }
        Err(OvnError::QuerySyntaxError { position: self.pos, message: expected("=") })
    }

    fn parse_joins(&mut self) -> (r: OvnResult<Vec<SqlJoin>>)
        requires
            old(self).pos <= old(self).tokens@.len(),
        ensures
            final(self).tokens == old(self).tokens,
            final(self).pos <= final(self).tokens@.len(),
            step_matches(
                joins_spec(old(self).toks(), old(self).pos as int),
                r,
                |v: Vec<SqlJoin>| joins_view(v@),
                final(self).pos as int,
            ),
        decreases old(self).tokens@.len() - old(self).pos,
    {
        if !self.peek_keyword("JOIN") {
            let out: Vec<SqlJoin> = Vec::new();
            assert(joins_view(out@) =~= Seq::empty());
            return Ok(out);
        }
        self.advance();
        let coll = match self.peek_identifier() {
            Some(n) => n,
            None => return Err(self.syntax_error("Expected collection after JOIN")),
        };
        self.advance();
        let alias = if self.peek_keyword("AS") {
            self.advance();
            match self.peek_identifier() {
                Some(n) => {
                    self.advance();
                    n
                },
                None => coll.clone(),
            }
        } else {
            coll.clone()
        };
        match self.expect_keyword("ON") {
            Err(e) => return Err(e),
            Ok(()) => {},
        }
        let local_field = match self.parse_field_ref() {
            Err(e) => return Err(e),
            Ok(f) => f,
        };
        match self.expect_equals() {
            Err(e) => return Err(e),
            Ok(()) => {},
        }
        let foreign_field = match self.parse_field_ref() {
            Err(e) => return Err(e),
            Ok(f) => f,
        };
        match self.parse_joins() {
            Err(e) => Err(e),
            Ok(rest) => {
                let mut rest = rest;
                let j = SqlJoin { collection: coll, alias, local_field, foreign_field };
                let ghost jv = join_view(j);
                let ghost rv = joins_view(rest@);
                rest.insert(0, j);
                assert(joins_view(rest@) =~= seq![jv] + rv);
                Ok(rest)
            },
        }
    }

    fn parse_where(&mut self) -> (r: OvnResult<Option<SqlValue>>)
        requires
            old(self).pos <= old(self).tokens@.len(),
        ensures
            final(self).tokens == old(self).tokens,
            final(self).pos <= final(self).tokens@.len(),
            step_matches(
                where_spec(old(self).toks(), old(self).pos as int),
                r,
                |v: Option<SqlValue>| opt_value_view(v),
                final(self).pos as int,
            ),
    {
        if self.peek_keyword("WHERE") {
            self.advance();
            match self.parse_or_condition() {
                Err(e) => Err(e),
                Ok(v) => Ok(Some(v)),
            }
        } else {
            Ok(None)
        }
    }

    fn parse_name_list(&mut self) -> (r: Vec<String>)
        requires
            old(self).pos <= old(self).tokens@.len(),
        ensures
            final(self).tokens == old(self).tokens,
            final(self).pos <= final(self).tokens@.len(),
            (strings_view(r@), final(self).pos as int) == name_list(old(self).toks(), old(self).pos as int),
        decreases old(self).tokens@.len() - old(self).pos,
    {
        let mut items: Vec<String> = Vec::new();
        match self.peek_identifier() {
            Some(n) => {
                items.push(n);
                self.advance();
            },
            None => {},
        }
        let ghost iv = strings_view(items@);
        if self.take_comma() {
            let mut rest = self.parse_name_list();
            let ghost rv = strings_view(rest@);
            items.append(&mut rest);
            assert(strings_view(items@) =~= iv + rv);
        }
        items
    }

    fn parse_sort_list(&mut self) -> (r: Vec<(String, i32)>)
        requires
            old(self).pos <= old(self).tokens@.len(),
        ensures
            final(self).tokens == old(self).tokens,
            final(self).pos <= final(self).tokens@.len(),
            (sort_view(r@), final(self).pos as int) == sort_list(old(self).toks(), old(self).pos as int),
        decreases old(self).tokens@.len() - old(self).pos,
    {
        let mut items: Vec<(String, i32)> = Vec::new();
        match self.peek_identifier() {
            Some(n) => {
                self.advance();
                let dir: i32 = if self.peek_keyword("DESC") {
                    self.advance();
                    -1
                } else {
                    if self.peek_keyword("ASC") {
                        self.advance();
                    }
                    1
                };
                items.push((n, dir));
            },
            None => {},
        }
        let ghost iv = sort_view(items@);
        if self.take_comma() {
            let mut rest = self.parse_sort_list();
            let ghost rv = sort_view(rest@);
            items.append(&mut rest);
            assert(sort_view(items@) =~= iv + rv);
        }
        items
    }

    fn parse_count(&mut self, kw: &str) -> (r: Option<usize>)
        requires
            old(self).pos <= old(self).tokens@.len(),
        ensures
            final(self).tokens == old(self).tokens,
            final(self).pos <= final(self).tokens@.len(),
            (r, final(self).pos as int) == count_clause(old(self).toks(), old(self).pos as int, kw@),
    {
        if self.peek_keyword(kw) {
            self.advance();
            match self.peek_literal() {
                Some(l) => {
                    self.advance();
                    match l {
                        SqlLiteral::Integer(i) => if i >= 0 {
                            Some(i as usize)
                        } else {
                            None
                        },
                        _ => None,
                    }
                },
                None => None,
            }
        } else {
            None
        }
    }

    fn parse_select(&mut self) -> (r: OvnResult<SqlQuery>)
        requires
            old(self).pos < old(self).tokens@.len(),
            kw_at(old(self).toks(), old(self).pos as int, "SELECT"@),
        ensures
            match select_spec(old(self).toks(), old(self).pos as int) {
                Ok(q) => r matches Ok(x) && query_view(x) == q,
                Err((at, msg)) => r matches Err(e) && error_at(e, at, msg),
            },
    {
        self.advance();
        let fields = self.parse_fields();
        match self.expect_keyword("FROM") {
            Err(e) => return Err(e),
            Ok(()) => {},
        }
        let collection = self.peek_identifier();
        if collection.is_some() {
            self.advance();
        }
        let joins = match self.parse_joins() {
            Err(e) => return Err(e),
            Ok(j) => j,
        };
        let filter = match self.parse_where() {
            Err(e) => return Err(e),
            Ok(f) => f,
        };
        let mut group_by: Option<Vec<String>> = None;
        if self.peek_keyword("GROUP") {
            self.advance();
            match self.expect_keyword("BY") {
                Err(e) => return Err(e),
                Ok(()) => {},
            }
            let l = self.parse_name_list();
            if l.len() > 0 {
                group_by = Some(l);
            }
        }
        let mut sort: Option<Vec<(String, i32)>> = None;
        if self.peek_keyword("ORDER") {
            self.advance();
            match self.expect_keyword("BY") {
                Err(e) => return Err(e),
                Ok(()) => {},
            }
            let l = self.parse_sort_list();
            if l.len() > 0 {
                sort = Some(l);
            }
        }
        let limit = self.parse_count("LIMIT");
        let skip = self.parse_count("SKIP");
        let q = SqlQuery {
            query_type: "select".to_string(),
            collection,
            fields,
            filter,
            sort,
            limit,
            skip,
            group_by,
            joins,
            insert_values: None,
            update_set: None,
        };
        Ok(q)
    }

    fn parse_tuple(&mut self, field_list: &Vec<String>, idx: usize, doc: FieldMap<SqlValue>) -> (r: FieldMap<SqlValue>)
        requires
            old(self).pos <= old(self).tokens@.len(),
            idx <= old(self).pos,
        ensures
            final(self).tokens == old(self).tokens,
            final(self).pos <= final(self).tokens@.len(),
            (sql_entries_view(r.entries@), final(self).pos as int) == tuple_spec(
                old(self).toks(),
                old(self).pos as int,
                strings_view(field_list@),
                idx as nat,
                sql_entries_view(doc.entries@),
            ),
        decreases old(self).tokens@.len() - old(self).pos,
    {
        let mut doc = doc;
        let mut idx = idx;
        match self.peek_literal() {
            Some(l) => {
                self.advance();
                let key = if idx < field_list.len() {
                    field_list[idx].clone()
                } else {
                    concat_str("field_".to_string(), decimal_u64(idx as u64).as_str())
                };
                proof {
                    assert(key@ == insert_key(strings_view(field_list@), idx as nat));
                    lemma_insert_view(doc.entries@, key, SqlValue::Literal(l));
                }
                doc.insert(key, SqlValue::Literal(l));
                idx = idx + 1;
            },
            None => {},
        }
        if self.take_comma() {
            self.parse_tuple(field_list, idx, doc)
        } else {
            doc
        }
    }

    fn expect_close_paren(&mut self) -> (r: OvnResult<()>)
        requires
            old(self).pos <= old(self).tokens@.len(),
        ensures
            final(self).tokens == old(self).tokens,
            final(self).pos <= final(self).tokens@.len(),
            punct_at(old(self).toks(), old(self).pos as int, ')') ==> (r is Ok && final(self).pos == old(self).pos
                + 1),
            !punct_at(old(self).toks(), old(self).pos as int, ')') ==> (r matches Err(e) && error_at(
                e,
                old(self).pos as int,
                "Expected ')'"@,
            )),
    {
        if self.peek_punct(')') {
            self.advance();
            Ok(())
        } else {
            Err(self.syntax_error("Expected ')'"))
        }
    }

    fn parse_insert(&mut self) -> (r: OvnResult<SqlQuery>)
        requires
            old(self).pos < old(self).tokens@.len(),
            kw_at(old(self).toks(), old(self).pos as int, "INSERT"@),
        ensures
            match insert_spec(old(self).toks(), old(self).pos as int) {
                Ok(q) => r matches Ok(x) && query_view(x) == q,
                Err((at, msg)) => r matches Err(e) && error_at(e, at, msg),
            },
    {
        self.advance();
        match self.expect_keyword("INTO") {
            Err(e) => return Err(e),
            Ok(()) => {},
        }
        let collection = self.peek_identifier();
        if collection.is_some() {
            self.advance();
        }
        let mut field_list: Vec<String> = Vec::new();
        assert(strings_view(field_list@) =~= Seq::empty());
        if self.peek_punct('(') {
            self.advance();
            field_list = self.parse_name_list();
            match self.expect_close_paren() {
                Err(e) => return Err(e),
                Ok(()) => {},
            }
        }
        match self.expect_keyword("VALUES") {
            Err(e) => return Err(e),
            Ok(()) => {},
        }
        let mut values: Vec<SqlValue> = Vec::new();
        assert(sql_items_view(values@) =~= Seq::empty());
        if self.peek_punct('(') {
            self.advance();
            let empty: FieldMap<SqlValue> = FieldMap::new();
            assert(sql_entries_view(empty.entries@) =~= Seq::empty());
            let doc = self.parse_tuple(&field_list, 0, empty);
            match self.expect_close_paren() {
                Err(e) => return Err(e),
                Ok(()) => {},
            }
            let ghost dv = sql_value_view(SqlValue::Object(doc));
            values.push(SqlValue::Object(doc));
            proof {
                assert(values@.drop_last() =~= Seq::<SqlValue>::empty());
                assert(sql_items_view(values@) =~= seq![dv]);
            }
        }
        let no_fields: Vec<String> = Vec::new();
        let no_joins: Vec<SqlJoin> = Vec::new();
        assert(strings_view(no_fields@) =~= Seq::empty());
        assert(joins_view(no_joins@) =~= Seq::empty());
        Ok(
            SqlQuery {
                query_type: "insert".to_string(),
                collection,
                fields: no_fields,
                filter: None,
                sort: None,
                limit: None,
                skip: None,
                group_by: None,
                joins: no_joins,
                insert_values: Some(values),
                update_set: None,
            },
        )
    }

    fn parse_set(&mut self, set: FieldMap<SqlValue>) -> (r: OvnResult<FieldMap<SqlValue>>)
        requires
            old(self).pos <= old(self).tokens@.len(),
        ensures
            final(self).tokens == old(self).tokens,
            final(self).pos <= final(self).tokens@.len(),
            step_matches(
                set_spec(old(self).toks(), old(self).pos as int, sql_entries_view(set.entries@)),
                r,
                |m: FieldMap<SqlValue>| sql_entries_view(m.entries@),
                final(self).pos as int,
            ),
        decreases old(self).tokens@.len() - old(self).pos,
    {
        let mut set = set;
        match self.peek_identifier() {
            Some(f) => {
                self.advance();
                match self.expect_equals() {
                    Err(e) => return Err(e),
                    Ok(()) => {},
                }
                match self.peek_literal() {
                    Some(l) => {
                        self.advance();
                        proof {
                            lemma_insert_view(set.entries@, f, SqlValue::Literal(l));
                        }
                        set.insert(f, SqlValue::Literal(l));
                    },
                    None => {},
                }
            },
            None => {},
        }
        if self.take_comma() {
            self.parse_set(set)
        } else {
            Ok(set)
        }
    }

    fn parse_update(&mut self) -> (r: OvnResult<SqlQuery>)
        requires
            old(self).pos < old(self).tokens@.len(),
            kw_at(old(self).toks(), old(self).pos as int, "UPDATE"@),
        ensures
            match update_spec(old(self).toks(), old(self).pos as int) {
                Ok(q) => r matches Ok(x) && query_view(x) == q,
                Err((at, msg)) => r matches Err(e) && error_at(e, at, msg),
            },
    {
        self.advance();
        let collection = self.peek_identifier();
        if collection.is_some() {
            self.advance();
        }
        match self.expect_keyword("SET") {
            Err(e) => return Err(e),
            Ok(()) => {},
        }
        let empty: FieldMap<SqlValue> = FieldMap::new();
        assert(sql_entries_view(empty.entries@) =~= Seq::empty());
        let set = match self.parse_set(empty) {
            Err(e) => return Err(e),
            Ok(m) => m,
        };
        let filter = match self.parse_where() {
            Err(e) => return Err(e),
            Ok(f) => f,
        };
        let no_fields: Vec<String> = Vec::new();
        let no_joins: Vec<SqlJoin> = Vec::new();
        assert(strings_view(no_fields@) =~= Seq::empty());
        assert(joins_view(no_joins@) =~= Seq::empty());
        Ok(
            SqlQuery {
                query_type: "update".to_string(),
                collection,
                fields: no_fields,
                filter,
                sort: None,
                limit: None,
                skip: None,
                group_by: None,
                joins: no_joins,
                insert_values: None,
                update_set: Some(SqlValue::Object(set)),
            },
        )
    }

    fn parse_delete(&mut self) -> (r: OvnResult<SqlQuery>)
        requires
            old(self).pos < old(self).tokens@.len(),
            kw_at(old(self).toks(), old(self).pos as int, "DELETE"@),
        ensures
            match delete_spec(old(self).toks(), old(self).pos as int) {
                Ok(q) => r matches Ok(x) && query_view(x) == q,
                Err((at, msg)) => r matches Err(e) && error_at(e, at, msg),
            },
    {
        self.advance();
        match self.expect_keyword("FROM") {
            Err(e) => return Err(e),
            Ok(()) => {},
        }
        let collection = self.peek_identifier();
        if collection.is_some() {
            self.advance();
        }
        let filter = match self.parse_where() {
            Err(e) => return Err(e),
            Ok(f) => f,
        };
        let no_fields: Vec<String> = Vec::new();
        let no_joins: Vec<SqlJoin> = Vec::new();
        assert(strings_view(no_fields@) =~= Seq::empty());
        assert(joins_view(no_joins@) =~= Seq::empty());
        Ok(
            SqlQuery {
                query_type: "delete".to_string(),
                collection,
                fields: no_fields,
                filter,
                sort: None,
                limit: None,
                skip: None,
                group_by: None,
                joins: no_joins,
                insert_values: None,
                update_set: None,
            },
        )
    }

    /// Parse one statement, chosen by its first keyword: `SELECT`,
    /// `INSERT`, `UPDATE` or `DELETE`; anything else is a syntax error.
    pub fn parse(&mut self) -> (r: OvnResult<SqlQuery>)
        requires
            0 <= old(self).at() <= old(self).toks().len(),
        ensures
            match statement_spec(old(self).toks(), old(self).at()) {
                Ok(q) => r matches Ok(x) && query_view(x) == q,
                Err((at, msg)) => r matches Err(e) && error_at(e, at, msg),
            },
    {
        if self.peek_keyword("SELECT") {
            self.parse_select()
        } else if self.peek_keyword("INSERT") {
            self.parse_insert()
        } else if self.peek_keyword("UPDATE") {
            self.parse_update()
        } else if self.peek_keyword("DELETE") {
            self.parse_delete()
        } else {
            Err(self.syntax_error("Expected SELECT, INSERT, UPDATE, or DELETE"))
        }
    }
}

/// Parse a SQL-like query: the statement that the text's tokens spell.
pub fn parse_sql_query(sql: &str) -> (r: OvnResult<SqlQuery>)
    ensures
        match statement_spec(lex(sql@), 0) {
            Ok(q) => r matches Ok(x) && query_view(x) == q,
            Err((at, msg)) => r matches Err(e) && error_at(e, at, msg),
        },
{
    let mut parser = SqlParser::new(sql);
    parser.parse()
}

} // verus!
