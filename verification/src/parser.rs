//! A recursive-descent parser for the source language, one parsing function
//! per precedence level.  Each executable parsing function is pinned to a
//! spec-level parsing function over `Seq<char>`, so the whole parse of a
//! program is a mathematical function of the source text.
//!
//! Token rules: whitespace (space, tab, carriage return, newline) is allowed
//! around every token; identifiers are ASCII `[A-Za-z_][A-Za-z0-9_]*` and the
//! words `fn`, `if` and `else` are reserved; an integer literal is `0` or a
//! nonzero digit followed by digits, and must fit in a signed 64-bit integer.

use vstd::prelude::*;
use vstd::string::StrSliceExecFns;

use crate::ast::{Block, BlockV, Code, CodeV, Expr, ExprV, Fn, FnV};

verus! {

/// The token class a failed parse was looking for, reported in a
/// `SyntaxError`.
#[derive(Debug, Clone, Copy, PartialEq, Eq, Structural)]
pub enum Expected {
    /// A digit, an identifier, `-`, or an opening parenthesis.
    AtomStart,
    /// An identifier that is not a reserved word.
    Ident,
    /// The given punctuation character.
    Symbol(char),
    /// The keyword `fn` opening a function definition (or the end of input).
    FnKeyword,
    /// The keyword `else` between the branches of a conditional.
    ElseKeyword,
    /// An integer literal small enough for a signed 64-bit integer.
    NumberInRange,
    /// The end of the input.
    EndOfInput,
}

/// Ghost model of a syntax error.
pub struct SynV {
    pub pos: int,
    pub expected: Expected,
}

/// A parse failure: the position (in characters) where the parse failed and
/// the token class it was looking for.  No partial tree is ever returned.
#[derive(Debug, Clone, Copy, PartialEq, Eq)]
pub struct SyntaxError {
    pub pos: usize,
    pub expected: Expected,
}

impl SyntaxError {
    pub open spec fn view(self) -> SynV {
        SynV { pos: self.pos as int, expected: self.expected }
    }
}

pub open spec fn is_space(c: char) -> bool {
    c == ' ' || c == '\t' || c == '\n' || c == '\r'
}

pub open spec fn is_digit(c: char) -> bool {
    '0' <= c && c <= '9'
}

pub open spec fn is_ident_start(c: char) -> bool {
    ('a' <= c && c <= 'z') || ('A' <= c && c <= 'Z') || c == '_'
}

pub open spec fn is_ident_cont(c: char) -> bool {
    is_ident_start(c) || is_digit(c)
}

/// Index of the first character at or after `i` that is not whitespace.
pub open spec fn sp_skip(s: Seq<char>, i: int) -> int
    decreases s.len() - i,
{
    if 0 <= i < s.len() && is_space(s[i]) {
        sp_skip(s, i + 1)
    } else {
        i
    }
}

/// Index just after the run of identifier characters starting at `i`.
pub open spec fn sp_ident_end(s: Seq<char>, i: int) -> int
    decreases s.len() - i,
{
    if 0 <= i < s.len() && is_ident_cont(s[i]) {
        sp_ident_end(s, i + 1)
    } else {
        i
    }
}

pub proof fn lemma_ident_end(s: Seq<char>, i: int)
    requires
        0 <= i <= s.len(),
    ensures
        i <= sp_ident_end(s, i) <= s.len(),
    decreases s.len() - i,
{
    if i < s.len() && is_ident_cont(s[i]) {
        lemma_ident_end(s, i + 1);
    }
}

/// Numeric value of a character, clamped to 0 for non-digits so that digit
/// runs always fold to a nonnegative value.
pub open spec fn digit_val(c: char) -> int {
    if is_digit(c) {
        c as int - 48
    } else {
        0
    }
}

/// Index just after the integer literal starting at `i`: a single `0`, or the
/// whole digit run when it starts with a nonzero digit.
pub open spec fn sp_num_end(s: Seq<char>, i: int) -> int {
    if 0 <= i < s.len() && s[i] == '0' {
        i + 1
    } else {
        sp_digits_end(s, i)
    }
}

/// Index just after the run of digits starting at `i`.
pub open spec fn sp_digits_end(s: Seq<char>, i: int) -> int
    decreases s.len() - i,
{
    if 0 <= i < s.len() && is_digit(s[i]) {
        sp_digits_end(s, i + 1)
    } else {
        i
    }
}

pub proof fn lemma_digits_end(s: Seq<char>, i: int)
    requires
        0 <= i <= s.len(),
    ensures
        i <= sp_digits_end(s, i) <= s.len(),
    decreases s.len() - i,
{
    if i < s.len() && is_digit(s[i]) {
        lemma_digits_end(s, i + 1);
    }
}

/// Decimal value of the digit run `s[j .. e)`.
pub open spec fn sp_num_val(s: Seq<char>, j: int, e: int) -> int
    decreases e - j,
{
    if j < e {
        sp_num_val(s, j, e - 1) * 10 + digit_val(s[e - 1])
    } else {
        0
    }
}

/// Digit-run values are nonnegative and grow with the run.
pub proof fn lemma_num_val_mono(s: Seq<char>, j: int, e1: int, e2: int)
    requires
        e1 <= e2,
    ensures
        0 <= sp_num_val(s, j, e1) <= sp_num_val(s, j, e2),
    decreases e2 - j,
{
    if j < e2 {
        if e1 < e2 {
            lemma_num_val_mono(s, j, e1, e2 - 1);
        } else {
            lemma_num_val_mono(s, j, e1 - 1, e2 - 1);
        }
    }
}

/// The identifier run starting at `i` is exactly the keyword `if`.
pub open spec fn sp_kw_if(s: Seq<char>, i: int) -> bool {
    &&& i + 2 <= s.len()
    &&& sp_ident_end(s, i) == i + 2
    &&& s[i] == 'i'
    &&& s[i + 1] == 'f'
}

/// The identifier run starting at `i` is exactly the keyword `fn`.
pub open spec fn sp_kw_fn(s: Seq<char>, i: int) -> bool {
    &&& i + 2 <= s.len()
    &&& sp_ident_end(s, i) == i + 2
    &&& s[i] == 'f'
    &&& s[i + 1] == 'n'
}

/// The identifier run starting at `i` is exactly the keyword `else`.
pub open spec fn sp_kw_else(s: Seq<char>, i: int) -> bool {
    &&& i + 4 <= s.len()
    &&& sp_ident_end(s, i) == i + 4
    &&& s[i] == 'e'
    &&& s[i + 1] == 'l'
    &&& s[i + 2] == 's'
    &&& s[i + 3] == 'e'
}

/// The identifier run `s[j .. e)` is one of the reserved words.
pub open spec fn sp_is_keyword(s: Seq<char>, j: int) -> bool {
    sp_kw_if(s, j) || sp_kw_fn(s, j) || sp_kw_else(s, j)
}

// The spec-level parser.  One function per precedence level, folding
// left-associative operator chains through `..._rest` functions.  Termination
// is by the pair (characters left, precedence rank); the index comparisons
// guarding each recursive call bound every intermediate position, which makes
// the measure evident — on inputs reachable from the executable parser the
// guards always pass.

/// Parses an atom: integer literal, variable, call, or parenthesized
/// expression.
pub open spec fn sp_atom(s: Seq<char>, i: int) -> Result<(ExprV, int), SynV>
    decreases s.len() - i, 0int,
{
    let j = sp_skip(s, i);
    if !(0 <= i <= s.len()) || j < i || j > s.len() {
        Err(SynV { pos: i, expected: Expected::AtomStart })
    } else if j < s.len() && is_digit(s[j]) {
        let e = sp_num_end(s, j);
        if e <= j || e > s.len() {
            Err(SynV { pos: j, expected: Expected::AtomStart })
        } else if sp_num_val(s, j, e) > i64::MAX as int {
            Err(SynV { pos: j, expected: Expected::NumberInRange })
        } else {
            Ok((ExprV::Num(sp_num_val(s, j, e)), e))
        }
    } else if j < s.len() && is_ident_start(s[j]) {
        if sp_is_keyword(s, j) {
            Err(SynV { pos: j, expected: Expected::AtomStart })
        } else {
            let e = sp_ident_end(s, j);
            if e <= j || e > s.len() {
                Err(SynV { pos: j, expected: Expected::AtomStart })
            } else {
                let k = sp_skip(s, e);
                if k < e || k > s.len() {
                    Err(SynV { pos: j, expected: Expected::AtomStart })
                } else if k < s.len() && s[k] == '(' {
                    match sp_args(s, k + 1, Seq::empty()) {
                        Ok((args, m)) => Ok((ExprV::Call(s.subrange(j, e), args), m)),
                        Err(x) => Err(x),
                    }
                } else {
                    Ok((ExprV::Var(s.subrange(j, e)), e))
                }
            }
        }
    } else if j < s.len() && s[j] == '(' {
        match sp_expr(s, j + 1) {
            Ok((e1, k)) => {
                if k < j + 1 || k > s.len() {
                    Err(SynV { pos: j, expected: Expected::AtomStart })
                } else {
                    let m = sp_skip(s, k);
                    if m < s.len() && s[m] == ')' {
                        Ok((e1, m + 1))
                    } else {
                        Err(SynV { pos: m, expected: Expected::Symbol(')') })
                    }
                }
            },
            Err(x) => Err(x),
        }
    } else {
        Err(SynV { pos: j, expected: Expected::AtomStart })
    }
}

/// Parses the comma-separated argument list of a call, after the opening
/// parenthesis; the list may be empty and may end with a trailing comma.
pub open spec fn sp_args(s: Seq<char>, i: int, acc: Seq<ExprV>) -> Result<(Seq<ExprV>, int), SynV>
    decreases s.len() - i, 6int,
{
    let j = sp_skip(s, i);
    if !(0 <= i <= s.len()) || j < i || j > s.len() {
        Err(SynV { pos: i, expected: Expected::AtomStart })
    } else if acc.len() == 0 && j < s.len() && s[j] == ')' {
        Ok((acc, j + 1))
    } else {
        match sp_expr(s, i) {
            Ok((e1, k)) => {
                if k < i || k > s.len() {
                    Err(SynV { pos: i, expected: Expected::AtomStart })
                } else {
                    let m = sp_skip(s, k);
                    if m < k || m > s.len() {
                        Err(SynV { pos: i, expected: Expected::AtomStart })
                    } else if m < s.len() && s[m] == ',' {
                        let m2 = sp_skip(s, m + 1);
                        if m2 < s.len() && s[m2] == ')' {
                            Ok((acc.push(e1), m2 + 1))
                        } else {
                            sp_args(s, m + 1, acc.push(e1))
                        }
                    } else if m < s.len() && s[m] == ')' {
                        Ok((acc.push(e1), m + 1))
                    } else {
                        Err(SynV { pos: m, expected: Expected::Symbol(')') })
                    }
                }
            },
            Err(x) => Err(x),
        }
    }
}

/// Parses a unary expression: any number of prefix `-`, folding to the
/// right, before an atom.
pub open spec fn sp_unary(s: Seq<char>, i: int) -> Result<(ExprV, int), SynV>
    decreases s.len() - i, 1int,
{
    let j = sp_skip(s, i);
    if !(0 <= i <= s.len()) || j < i || j > s.len() {
        Err(SynV { pos: i, expected: Expected::AtomStart })
    } else if j < s.len() && s[j] == '-' {
        match sp_unary(s, j + 1) {
            Ok((e1, k)) => Ok((ExprV::Neg(Box::new(e1)), k)),
            Err(x) => Err(x),
        }
    } else {
        sp_atom(s, i)
    }
}

/// Parses a product: `*` and `/`, left-associative over unary expressions.
pub open spec fn sp_prod(s: Seq<char>, i: int) -> Result<(ExprV, int), SynV>
    decreases s.len() - i, 2int,
{
    if !(0 <= i <= s.len()) {
        Err(SynV { pos: i, expected: Expected::AtomStart })
    } else {
        match sp_unary(s, i) {
            Ok((e1, k)) => {
                if k < i || k > s.len() {
                    Err(SynV { pos: i, expected: Expected::AtomStart })
                } else {
                    sp_prod_rest(s, k, e1)
                }
            },
            Err(x) => Err(x),
        }
    }
}

/// Folds further `* unary` / `/ unary` steps onto `acc`.
pub open spec fn sp_prod_rest(s: Seq<char>, i: int, acc: ExprV) -> Result<(ExprV, int), SynV>
    decreases s.len() - i, 1int,
{
    let m = sp_skip(s, i);
    if !(0 <= i <= s.len()) || m < i || m > s.len() {
        Err(SynV { pos: i, expected: Expected::AtomStart })
    } else if m < s.len() && (s[m] == '*' || s[m] == '/') {
        match sp_unary(s, m + 1) {
            Ok((e2, k)) => {
                if k < m + 1 || k > s.len() {
                    Err(SynV { pos: i, expected: Expected::AtomStart })
                } else if s[m] == '*' {
                    sp_prod_rest(s, k, ExprV::Mul(Box::new(acc), Box::new(e2)))
                } else {
                    sp_prod_rest(s, k, ExprV::Div(Box::new(acc), Box::new(e2)))
                }
            },
            Err(x) => Err(x),
        }
    } else {
        Ok((acc, i))
    }
}

/// Parses a sum: `+` and `-`, left-associative over products.
pub open spec fn sp_sum(s: Seq<char>, i: int) -> Result<(ExprV, int), SynV>
    decreases s.len() - i, 3int,
{
    if !(0 <= i <= s.len()) {
        Err(SynV { pos: i, expected: Expected::AtomStart })
    } else {
        match sp_prod(s, i) {
            Ok((e1, k)) => {
                if k < i || k > s.len() {
                    Err(SynV { pos: i, expected: Expected::AtomStart })
                } else {
                    sp_sum_rest(s, k, e1)
                }
            },
            Err(x) => Err(x),
        }
    }
}

/// Folds further `+ product` / `- product` steps onto `acc`.
pub open spec fn sp_sum_rest(s: Seq<char>, i: int, acc: ExprV) -> Result<(ExprV, int), SynV>
    decreases s.len() - i, 1int,
{
    let m = sp_skip(s, i);
    if !(0 <= i <= s.len()) || m < i || m > s.len() {
        Err(SynV { pos: i, expected: Expected::AtomStart })
    } else if m < s.len() && (s[m] == '+' || s[m] == '-') {
        match sp_prod(s, m + 1) {
            Ok((e2, k)) => {
                if k < m + 1 || k > s.len() {
                    Err(SynV { pos: i, expected: Expected::AtomStart })
                } else if s[m] == '+' {
                    sp_sum_rest(s, k, ExprV::Add(Box::new(acc), Box::new(e2)))
                } else {
                    sp_sum_rest(s, k, ExprV::Sub(Box::new(acc), Box::new(e2)))
                }
            },
            Err(x) => Err(x),
        }
    } else {
        Ok((acc, i))
    }
}

/// Parses a comparison: `>` and `<`, left-associative over sums.
pub open spec fn sp_cmp(s: Seq<char>, i: int) -> Result<(ExprV, int), SynV>
    decreases s.len() - i, 4int,
{
    if !(0 <= i <= s.len()) {
        Err(SynV { pos: i, expected: Expected::AtomStart })
    } else {
        match sp_sum(s, i) {
            Ok((e1, k)) => {
                if k < i || k > s.len() {
                    Err(SynV { pos: i, expected: Expected::AtomStart })
                } else {
                    sp_cmp_rest(s, k, e1)
                }
            },
            Err(x) => Err(x),
        }
    }
}

/// Folds further `> sum` / `< sum` steps onto `acc`.
pub open spec fn sp_cmp_rest(s: Seq<char>, i: int, acc: ExprV) -> Result<(ExprV, int), SynV>
    decreases s.len() - i, 1int,
{
    let m = sp_skip(s, i);
    if !(0 <= i <= s.len()) || m < i || m > s.len() {
        Err(SynV { pos: i, expected: Expected::AtomStart })
    } else if m < s.len() && (s[m] == '>' || s[m] == '<') {
        match sp_sum(s, m + 1) {
            Ok((e2, k)) => {
                if k < m + 1 || k > s.len() {
                    Err(SynV { pos: i, expected: Expected::AtomStart })
                } else if s[m] == '>' {
                    sp_cmp_rest(s, k, ExprV::Bigger(Box::new(acc), Box::new(e2)))
                } else {
                    sp_cmp_rest(s, k, ExprV::Smaller(Box::new(acc), Box::new(e2)))
                }
            },
            Err(x) => Err(x),
        }
    } else {
        Ok((acc, i))
    }
}

/// Parses a full expression: a conditional, or a comparison.
pub open spec fn sp_expr(s: Seq<char>, i: int) -> Result<(ExprV, int), SynV>
    decreases s.len() - i, 5int,
{
    let j = sp_skip(s, i);
    if !(0 <= i <= s.len()) || j < i || j > s.len() {
        Err(SynV { pos: i, expected: Expected::AtomStart })
    } else if sp_kw_if(s, j) {
        match sp_expr(s, j + 2) {
            Ok((c, k)) => {
                if k < j + 2 || k > s.len() {
                    Err(SynV { pos: i, expected: Expected::AtomStart })
                } else {
                    let m = sp_skip(s, k);
                    if !(k <= m <= s.len()) {
                        Err(SynV { pos: i, expected: Expected::AtomStart })
                    } else if m < s.len() && s[m] == '{' {
                        match sp_expr(s, m + 1) {
                            Ok((t, k2)) => {
                                if k2 < m + 1 || k2 > s.len() {
                                    Err(SynV { pos: i, expected: Expected::AtomStart })
                                } else {
                                    let m2 = sp_skip(s, k2);
                                    if !(k2 <= m2 <= s.len()) {
                                        Err(SynV { pos: i, expected: Expected::AtomStart })
                                    } else if m2 < s.len() && s[m2] == '}' {
                                        sp_expr_else(s, i, c, t, m2 + 1)
                                    } else {
                                        Err(SynV { pos: m2, expected: Expected::Symbol('}') })
                                    }
                                }
                            },
                            Err(x) => Err(x),
                        }
                    } else {
                        Err(SynV { pos: m, expected: Expected::Symbol('{') })
                    }
                }
            },
            Err(x) => Err(x),
        }
    } else {
        sp_cmp(s, i)
    }
}

/// Parses the `else { expr }` tail of a conditional, from `i2` just after the
/// closing brace of the then-branch.
pub open spec fn sp_expr_else(s: Seq<char>, i: int, c: ExprV, t: ExprV, i2: int) -> Result<
    (ExprV, int),
    SynV,
>
    decreases s.len() - i2, 6int,
{
    let m3 = sp_skip(s, i2);
    if !(0 <= i2 <= s.len()) || m3 < i2 || m3 > s.len() {
        Err(SynV { pos: i2, expected: Expected::ElseKeyword })
    } else if sp_kw_else(s, m3) {
        let m4 = sp_skip(s, m3 + 4);
        if !(m3 + 4 <= m4 <= s.len()) {
            Err(SynV { pos: i2, expected: Expected::ElseKeyword })
        } else if m4 < s.len() && s[m4] == '{' {
            match sp_expr(s, m4 + 1) {
                Ok((f, k3)) => {
                    if k3 < m4 + 1 || k3 > s.len() {
                        Err(SynV { pos: i2, expected: Expected::ElseKeyword })
                    } else {
                        let m5 = sp_skip(s, k3);
                        if m5 < s.len() && s[m5] == '}' {
                            Ok(
                                (
                                    ExprV::If(Box::new(c), Box::new(t), Box::new(f)),
                                    m5 + 1,
                                ),
                            )
                        } else {
                            Err(SynV { pos: m5, expected: Expected::Symbol('}') })
                        }
                    }
                },
                Err(x) => Err(x),
            }
        } else {
            Err(SynV { pos: m4, expected: Expected::Symbol('{') })
        }
    } else {
        Err(SynV { pos: m3, expected: Expected::ElseKeyword })
    }
}

/// Parses the parameter list of a function definition, after the opening
/// parenthesis: a comma-separated list of identifiers, possibly empty.
pub open spec fn sp_params(s: Seq<char>, i: int, acc: Seq<Seq<char>>) -> Result<
    (Seq<Seq<char>>, int),
    SynV,
>
    decreases s.len() - i,
{
    let j = sp_skip(s, i);
    if !(0 <= i <= s.len()) || j < i || j > s.len() {
        Err(SynV { pos: i, expected: Expected::Ident })
    } else if acc.len() == 0 && j < s.len() && s[j] == ')' {
        Ok((acc, j + 1))
    } else if j < s.len() && is_ident_start(s[j]) && !sp_is_keyword(s, j) {
        let e = sp_ident_end(s, j);
        if e <= j || e > s.len() {
            Err(SynV { pos: j, expected: Expected::Ident })
        } else {
            let m = sp_skip(s, e);
            if m < e || m > s.len() {
                Err(SynV { pos: j, expected: Expected::Ident })
            } else if m < s.len() && s[m] == ',' {
                sp_params(s, m + 1, acc.push(s.subrange(j, e)))
            } else if m < s.len() && s[m] == ')' {
                Ok((acc.push(s.subrange(j, e)), m + 1))
            } else {
                Err(SynV { pos: m, expected: Expected::Symbol(')') })
            }
        }
    } else {
        Err(SynV { pos: j, expected: Expected::Ident })
    }
}

/// Parses one function definition:
/// `fn <name> ( <params> ) { <expr> }`.
pub open spec fn sp_fn(s: Seq<char>, i: int) -> Result<(FnV, int), SynV>
    decreases s.len() - i, 7int,
{
    let j = sp_skip(s, i);
    if !(0 <= i <= s.len()) || j < i || j > s.len() {
        Err(SynV { pos: i, expected: Expected::FnKeyword })
    } else if !sp_kw_fn(s, j) {
        Err(SynV { pos: j, expected: Expected::FnKeyword })
    } else {
        let m = sp_skip(s, j + 2);
        if !(j + 2 <= m <= s.len()) {
            Err(SynV { pos: i, expected: Expected::FnKeyword })
        } else if m < s.len() && is_ident_start(s[m]) && !sp_is_keyword(s, m) {
            let e = sp_ident_end(s, m);
            if e <= m || e > s.len() {
                Err(SynV { pos: m, expected: Expected::Ident })
            } else {
                let q = sp_skip(s, e);
                if !(e <= q <= s.len()) {
                    Err(SynV { pos: m, expected: Expected::Ident })
                } else if q < s.len() && s[q] == '(' {
                    match sp_params(s, q + 1, Seq::empty()) {
                        Ok((ps, k)) => {
                            if k < q + 1 || k > s.len() {
                                Err(SynV { pos: q, expected: Expected::Ident })
                            } else {
                                let b = sp_skip(s, k);
                                if !(k <= b <= s.len()) {
                                    Err(SynV { pos: q, expected: Expected::Ident })
                                } else if b < s.len() && s[b] == '{' {
                                    match sp_expr(s, b + 1) {
                                        Ok((ret, k2)) => {
                                            if k2 < b + 1 || k2 > s.len() {
                                                Err(SynV { pos: b, expected: Expected::Ident })
                                            } else {
                                                let c = sp_skip(s, k2);
                                                if c < s.len() && s[c] == '}' {
                                                    Ok(
                                                        (
                                                            FnV {
                                                                name: s.subrange(m, e),
                                                                args: ps,
                                                                body: BlockV {
                                                                    lets: Seq::empty(),
                                                                    ret,
                                                                },
                                                            },
                                                            c + 1,
                                                        ),
                                                    )
                                                } else {
                                                    Err(
                                                        SynV {
                                                            pos: c,
                                                            expected: Expected::Symbol('}'),
                                                        },
                                                    )
                                                }
                                            }
                                        },
                                        Err(x) => Err(x),
                                    }
                                } else {
                                    Err(SynV { pos: b, expected: Expected::Symbol('{') })
                                }
                            }
                        },
                        Err(x) => Err(x),
                    }
                } else {
                    Err(SynV { pos: q, expected: Expected::Symbol('(') })
                }
            }
        } else {
            Err(SynV { pos: m, expected: Expected::Ident })
        }
    }
}

/// Parses the remaining function definitions of a program.
pub open spec fn sp_code_rest(s: Seq<char>, i: int, acc: Seq<FnV>) -> Result<Seq<FnV>, SynV>
    decreases s.len() - i, 8int,
{
    let j = sp_skip(s, i);
    if !(0 <= i <= s.len()) || j < i || j > s.len() {
        Err(SynV { pos: i, expected: Expected::FnKeyword })
    } else if j >= s.len() {
        Ok(acc)
    } else {
        match sp_fn(s, i) {
            Ok((f, k)) => {
                if k <= i || k > s.len() {
                    Err(SynV { pos: i, expected: Expected::FnKeyword })
                } else {
                    sp_code_rest(s, k, acc.push(f))
                }
            },
            Err(x) => Err(x),
        }
    }
}

/// The parse of a whole program: zero or more function definitions followed
/// by the end of the input.  This function is the meaning of `code_parser`.
pub open spec fn sp_code(s: Seq<char>) -> Result<CodeV, SynV> {
    match sp_code_rest(s, 0, Seq::empty()) {
        Ok(fs) => Ok(CodeV { functions: fs }),
        Err(x) => Err(x),
    }
}

/// The parse of a whole string as one expression.  This function is the
/// meaning of `expr_parser`.
pub open spec fn sp_expr_all(s: Seq<char>) -> Result<ExprV, SynV> {
    match sp_expr(s, 0) {
        Ok((e, k)) => {
            let m = sp_skip(s, k);
            if !(0 <= k <= s.len()) || m >= s.len() {
                Ok(e)
            } else {
                Err(SynV { pos: m, expected: Expected::EndOfInput })
            }
        },
        Err(x) => Err(x),
    }
}

/// Executable whitespace skip, pinned to `sp_skip`.
fn skip_ws(s: &Vec<char>, i: usize) -> (r: usize)
    requires
        i <= s.len(),
    ensures
        r as int == sp_skip(s@, i as int),
        i <= r <= s.len(),
    decreases s.len() - i,
{
    if i < s.len() {
        let c = s[i];
        if c == ' ' || c == '\t' || c == '\n' || c == '\r' {
            return skip_ws(s, i + 1);
        }
    }
    i
}

/// Executable identifier-run scan, pinned to `sp_ident_end`.
fn ident_end(s: &Vec<char>, i: usize) -> (r: usize)
    requires
        i <= s.len(),
    ensures
        r as int == sp_ident_end(s@, i as int),
        i <= r <= s.len(),
    decreases s.len() - i,
{
    if i < s.len() {
        let c = s[i];
        if ('a' <= c && c <= 'z') || ('A' <= c && c <= 'Z') || c == '_' || ('0' <= c && c <= '9')
        {
            return ident_end(s, i + 1);
        }
    }
    i
}

/// Executable digit-run scan, pinned to `sp_digits_end`.
fn digits_end(s: &Vec<char>, i: usize) -> (r: usize)
    requires
        i <= s.len(),
    ensures
        r as int == sp_digits_end(s@, i as int),
        i <= r <= s.len(),
        forall|t: int| i <= t < r ==> is_digit(s@[t]),
    decreases s.len() - i,
{
    if i < s.len() {
        let c = s[i];
        if '0' <= c && c <= '9' {
            return digits_end(s, i + 1);
        }
    }
    i
}

/// Whether the identifier run `s[j .. e)` is one of the reserved words
/// `fn`, `if`, `else`.
fn is_keyword(s: &Vec<char>, j: usize, e: usize) -> (r: bool)
    requires
        j <= e <= s.len(),
        e as int == sp_ident_end(s@, j as int),
    ensures
        r == sp_is_keyword(s@, j as int),
{
    let n = e - j;
    if n == 2 {
        let c0 = s[j];
        let c1 = s[j + 1];
        (c0 == 'i' && c1 == 'f') || (c0 == 'f' && c1 == 'n')
    } else if n == 4 {
        s[j] == 'e' && s[j + 1] == 'l' && s[j + 2] == 's' && s[j + 3] == 'e'
    } else {
        false
    }
}

/// Relies on std's `String::push`: pushing the characters of `s[from .. to)`
/// in order builds a string holding exactly that character sequence.
#[verifier::external_body]
fn string_from_range(s: &Vec<char>, from: usize, to: usize) -> (r: String)
    requires
        from <= to <= s.len(),
    ensures
        r@ == s@.subrange(from as int, to as int),
{
    let mut r = String::new();
    let mut k = from;
    while k < to {
        r.push(s[k]);
        k += 1;
    }
    r
}

/// The characters of a string slice, in order.
fn chars_of(src: &str) -> (v: Vec<char>)
    ensures
        v@ == src@,
{
    let n = src.unicode_len();
    let mut v: Vec<char> = Vec::new();
    let mut i: usize = 0;
    while i < n
        invariant
            i <= n,
            n == src@.len(),
            v@ == src@.subrange(0, i as int),
        decreases n - i,
    {
        let c = src.get_char(i);
        v.push(c);
        i += 1;
        proof {
            assert(v@ =~= src@.subrange(0, i as int));
        }
    }
    proof {
        assert(v@ =~= src@);
    }
    v
}

/// The executable result of a parsing step agrees with the spec-level one.
pub open spec fn step_ok(
    r: Result<(Expr, usize), SyntaxError>,
    sp: Result<(ExprV, int), SynV>,
) -> bool {
    match r {
        Ok(p) => sp == Ok::<(ExprV, int), SynV>((p.0.view(), p.1 as int)),
        Err(er) => sp == Err::<(ExprV, int), SynV>(er@),
    }
}

/// Parses the integer literal starting at the digit `s[j]`, rejecting values
/// beyond the signed 64-bit range.
fn parse_num(s: &Vec<char>, j: usize) -> (r: Result<(Expr, usize), SyntaxError>)
    requires
        j < s.len(),
        is_digit(s@[j as int]),
    ensures
        (j as int) < sp_num_end(s@, j as int) <= s@.len(),
        match r {
            Ok(p) => {
                &&& sp_num_val(s@, j as int, sp_num_end(s@, j as int)) <= i64::MAX as int
                &&& p.0.view() == ExprV::Num(sp_num_val(s@, j as int, sp_num_end(s@, j as int)))
                &&& p.1 as int == sp_num_end(s@, j as int)
                &&& j < p.1 <= s.len()
            },
            Err(er) => {
                &&& sp_num_val(s@, j as int, sp_num_end(s@, j as int)) > i64::MAX as int
                &&& er@ == (SynV { pos: j as int, expected: Expected::NumberInRange })
            },
        },
{
    let e = if s[j] == '0' {
        j + 1
    } else {
        digits_end(s, j)
    };
    proof {
        assert(e as int == sp_num_end(s@, j as int));
        assert(forall|t: int| j <= t < e ==> is_digit(s@[t]));
        if s@[j as int] != '0' {
            assert(sp_digits_end(s@, j as int) == sp_digits_end(s@, j as int + 1));
            lemma_digits_end(s@, j as int + 1);
        }
        assert(j < e);
    }
    let ghost ge = e as int;
    let mut acc: i64 = 0;
    let mut k = j;
    while k < e
        invariant
            j < e,
            j <= k <= e <= s.len(),
            ge == e as int,
            ge == sp_num_end(s@, j as int),
            0 <= acc,
            acc as int == sp_num_val(s@, j as int, k as int),
            forall|t: int| j <= t < e ==> is_digit(s@[t]),
        decreases e - k,
    {
        let d: i64 = (s[k] as u32 as i64) - 48;
        proof {
            assert(is_digit(s@[k as int]));
            assert(d == digit_val(s@[k as int]));
        }
        let acc10 = match acc.checked_mul(10) {
            Some(v) => v,
            None => {
                proof {
                    assert(sp_num_val(s@, j as int, k as int + 1) == acc as int * 10 + digit_val(
                        s@[k as int],
                    ));
                    assert(sp_num_val(s@, j as int, k as int + 1) > i64::MAX as int);
                    lemma_num_val_mono(s@, j as int, k as int + 1, ge);
                }
                return Err(SyntaxError { pos: j, expected: Expected::NumberInRange });
            },
        };
        acc = match acc10.checked_add(d) {
            Some(v) => v,
            None => {
                proof {
                    assert(sp_num_val(s@, j as int, k as int + 1) == acc as int * 10 + digit_val(
                        s@[k as int],
                    ));
                    assert(sp_num_val(s@, j as int, k as int + 1) > i64::MAX as int);
                    lemma_num_val_mono(s@, j as int, k as int + 1, ge);
                }
                return Err(SyntaxError { pos: j, expected: Expected::NumberInRange });
            },
        };
        k += 1;
    }
    Ok((Expr::Num(acc), e))
}

/// Parses an atom, pinned to `sp_atom`.
#[verifier::rlimit(100)]
fn parse_atom(s: &Vec<char>, i: usize) -> (r: Result<(Expr, usize), SyntaxError>)
    requires
        i <= s.len(),
    ensures
        step_ok(r, sp_atom(s@, i as int)),
        r matches Ok(p) ==> i <= p.1 <= s.len(),
    decreases s.len() - i, 1int,
{
    let j = skip_ws(s, i);
    if j < s.len() && '0' <= s[j] && s[j] <= '9' {
        parse_num(s, j)
    } else if j < s.len() && (('a' <= s[j] && s[j] <= 'z') || ('A' <= s[j] && s[j] <= 'Z') || s[j]
        == '_') {
        parse_atom_ident(s, i, j)
    } else if j < s.len() && s[j] == '(' {
        parse_atom_paren(s, i, j)
    } else {
        Err(SyntaxError { pos: j, expected: Expected::AtomStart })
    }
}

/// Parses an atom that starts with an identifier character: a variable, or a
/// call when a parenthesis follows.
#[verifier::rlimit(100)]
fn parse_atom_ident(s: &Vec<char>, i: usize, j: usize) -> (r: Result<(Expr, usize), SyntaxError>)
    requires
        i <= j < s.len(),
        j as int == sp_skip(s@, i as int),
        is_ident_start(s@[j as int]),
    ensures
        step_ok(r, sp_atom(s@, i as int)),
        r matches Ok(p) ==> i <= p.1 <= s.len(),
    decreases s.len() - i, 0int,
{
    let e = ident_end(s, j);
    proof {
        assert(sp_ident_end(s@, j as int) == sp_ident_end(s@, j as int + 1));
        lemma_ident_end(s@, j as int + 1);
        assert(j < e);
    }
    if is_keyword(s, j, e) {
        Err(SyntaxError { pos: j, expected: Expected::AtomStart })
    } else {
        let k = skip_ws(s, e);
        if k < s.len() && s[k] == '(' {
            let name = string_from_range(s, j, e);
            match parse_args(s, k + 1, Vec::new()) {
                Ok((args, m)) => {
                    proof {
                        assert(Expr::view_seq(Seq::<Expr>::empty()) == Seq::<ExprV>::empty());
                    }
                    Ok((Expr::Call(name, args), m))
                },
                Err(x) => Err(x),
            }
        } else {
            let name = string_from_range(s, j, e);
            Ok((Expr::Var(name), e))
        }
    }
}

/// Parses a parenthesized atom: `( expr )`.
#[verifier::rlimit(100)]
fn parse_atom_paren(s: &Vec<char>, i: usize, j: usize) -> (r: Result<(Expr, usize), SyntaxError>)
    requires
        i <= j < s.len(),
        j as int == sp_skip(s@, i as int),
        s@[j as int] == '(',
        !is_digit(s@[j as int]),
        !is_ident_start(s@[j as int]),
    ensures
        step_ok(r, sp_atom(s@, i as int)),
        r matches Ok(p) ==> i <= p.1 <= s.len(),
    decreases s.len() - i, 0int,
{
    match parse_expr(s, j + 1) {
        Ok((e1, k)) => {
            let m = skip_ws(s, k);
            if m < s.len() && s[m] == ')' {
                Ok((e1, m + 1))
            } else {
                Err(SyntaxError { pos: m, expected: Expected::Symbol(')') })
            }
        },
        Err(x) => Err(x),
    }
}

/// Parses a call's argument list, pinned to `sp_args`.
fn parse_args(s: &Vec<char>, i: usize, acc: Vec<Expr>) -> (r: Result<
    (Vec<Expr>, usize),
    SyntaxError,
>)
    requires
        i <= s.len(),
    ensures
        match r {
            Ok(p) => sp_args(s@, i as int, Expr::view_seq(acc@)) == Ok::<_, SynV>(
                (Expr::view_seq(p.0@), p.1 as int),
            ) && i <= p.1 <= s.len(),
            Err(er) => sp_args(s@, i as int, Expr::view_seq(acc@)) == Err::<
                (Seq<ExprV>, int),
                _,
            >(er@),
        },
    decreases s.len() - i, 7int,
{
    let j = skip_ws(s, i);
    if acc.len() == 0 && j < s.len() && s[j] == ')' {
        proof {
            assert(Expr::view_seq(acc@).len() == 0) by {
                Expr::lemma_view_seq(acc@);
            }
        }
        Ok((acc, j + 1))
    } else {
        proof {
            assert(Expr::view_seq(acc@).len() == acc@.len()) by {
                Expr::lemma_view_seq(acc@);
            }
        }
        match parse_expr(s, i) {
            Ok((e1, k)) => {
                let m = skip_ws(s, k);
                if m < s.len() && s[m] == ',' {
                    let m2 = skip_ws(s, m + 1);
                    let mut acc2 = acc;
                    proof {
                        Expr::lemma_view_seq_push(acc2@, e1);
                    }
                    acc2.push(e1);
                    if m2 < s.len() && s[m2] == ')' {
                        Ok((acc2, m2 + 1))
                    } else {
                        parse_args(s, m + 1, acc2)
                    }
                } else if m < s.len() && s[m] == ')' {
                    let mut acc2 = acc;
                    proof {
                        Expr::lemma_view_seq_push(acc2@, e1);
                    }
                    acc2.push(e1);
                    Ok((acc2, m + 1))
                } else {
                    Err(SyntaxError { pos: m, expected: Expected::Symbol(')') })
                }
            },
            Err(x) => Err(x),
        }
    }
}

/// Parses a unary expression, pinned to `sp_unary`.
fn parse_unary(s: &Vec<char>, i: usize) -> (r: Result<(Expr, usize), SyntaxError>)
    requires
        i <= s.len(),
    ensures
        step_ok(r, sp_unary(s@, i as int)),
        r matches Ok(p) ==> i <= p.1 <= s.len(),
    decreases s.len() - i, 2int,
{
    let j = skip_ws(s, i);
    if j < s.len() && s[j] == '-' {
        match parse_unary(s, j + 1) {
            Ok((e1, k)) => Ok((Expr::Neg(Box::new(e1)), k)),
            Err(x) => Err(x),
        }
    } else {
        parse_atom(s, i)
    }
}

/// Parses a product, pinned to `sp_prod`.
fn parse_prod(s: &Vec<char>, i: usize) -> (r: Result<(Expr, usize), SyntaxError>)
    requires
        i <= s.len(),
    ensures
        step_ok(r, sp_prod(s@, i as int)),
        r matches Ok(p) ==> i <= p.1 <= s.len(),
    decreases s.len() - i, 3int,
{
    match parse_unary(s, i) {
        Ok((e1, k)) => parse_prod_rest(s, k, e1),
        Err(x) => Err(x),
    }
}

/// Folds further `*` / `/` steps, pinned to `sp_prod_rest`.
fn parse_prod_rest(s: &Vec<char>, i: usize, acc: Expr) -> (r: Result<(Expr, usize), SyntaxError>)
    requires
        i <= s.len(),
    ensures
        step_ok(r, sp_prod_rest(s@, i as int, acc.view())),
        r matches Ok(p) ==> i <= p.1 <= s.len(),
    decreases s.len() - i, 2int,
{
    let m = skip_ws(s, i);
    if m < s.len() && (s[m] == '*' || s[m] == '/') {
        let star = s[m] == '*';
        match parse_unary(s, m + 1) {
            Ok((e2, k)) => {
                if star {
                    parse_prod_rest(s, k, Expr::Mul(Box::new(acc), Box::new(e2)))
                } else {
                    parse_prod_rest(s, k, Expr::Div(Box::new(acc), Box::new(e2)))
                }
            },
            Err(x) => Err(x),
        }
    } else {
        Ok((acc, i))
    }
}

/// Parses a sum, pinned to `sp_sum`.
fn parse_sum(s: &Vec<char>, i: usize) -> (r: Result<(Expr, usize), SyntaxError>)
    requires
        i <= s.len(),
    ensures
        step_ok(r, sp_sum(s@, i as int)),
        r matches Ok(p) ==> i <= p.1 <= s.len(),
    decreases s.len() - i, 4int,
{
    match parse_prod(s, i) {
        Ok((e1, k)) => parse_sum_rest(s, k, e1),
        Err(x) => Err(x),
    }
}

/// Folds further `+` / `-` steps, pinned to `sp_sum_rest`.
fn parse_sum_rest(s: &Vec<char>, i: usize, acc: Expr) -> (r: Result<(Expr, usize), SyntaxError>)
    requires
        i <= s.len(),
    ensures
        step_ok(r, sp_sum_rest(s@, i as int, acc.view())),
        r matches Ok(p) ==> i <= p.1 <= s.len(),
    decreases s.len() - i, 2int,
{
    let m = skip_ws(s, i);
    if m < s.len() && (s[m] == '+' || s[m] == '-') {
        let plus = s[m] == '+';
        match parse_prod(s, m + 1) {
            Ok((e2, k)) => {
                if plus {
                    parse_sum_rest(s, k, Expr::Add(Box::new(acc), Box::new(e2)))
                } else {
                    parse_sum_rest(s, k, Expr::Sub(Box::new(acc), Box::new(e2)))
                }
            },
            Err(x) => Err(x),
        }
    } else {
        Ok((acc, i))
    }
}

/// Parses a comparison, pinned to `sp_cmp`.
fn parse_cmp(s: &Vec<char>, i: usize) -> (r: Result<(Expr, usize), SyntaxError>)
    requires
        i <= s.len(),
    ensures
        step_ok(r, sp_cmp(s@, i as int)),
        r matches Ok(p) ==> i <= p.1 <= s.len(),
    decreases s.len() - i, 5int,
{
    match parse_sum(s, i) {
        Ok((e1, k)) => parse_cmp_rest(s, k, e1),
        Err(x) => Err(x),
    }
}

/// Folds further `>` / `<` steps, pinned to `sp_cmp_rest`.
fn parse_cmp_rest(s: &Vec<char>, i: usize, acc: Expr) -> (r: Result<(Expr, usize), SyntaxError>)
    requires
        i <= s.len(),
    ensures
        step_ok(r, sp_cmp_rest(s@, i as int, acc.view())),
        r matches Ok(p) ==> i <= p.1 <= s.len(),
    decreases s.len() - i, 2int,
{
    let m = skip_ws(s, i);
    if m < s.len() && (s[m] == '>' || s[m] == '<') {
        let big = s[m] == '>';
        match parse_sum(s, m + 1) {
            Ok((e2, k)) => {
                if big {
                    parse_cmp_rest(s, k, Expr::Bigger(Box::new(acc), Box::new(e2)))
                } else {
                    parse_cmp_rest(s, k, Expr::Smaller(Box::new(acc), Box::new(e2)))
                }
            },
            Err(x) => Err(x),
        }
    } else {
        Ok((acc, i))
    }
}

/// Parses a full expression, pinned to `sp_expr`.
fn parse_expr(s: &Vec<char>, i: usize) -> (r: Result<(Expr, usize), SyntaxError>)
    requires
        i <= s.len(),
    ensures
        step_ok(r, sp_expr(s@, i as int)),
        r matches Ok(p) ==> i <= p.1 <= s.len(),
    decreases s.len() - i, 6int,
{
    let j = skip_ws(s, i);
    let kw_if = s.len() - j >= 2 && s[j] == 'i' && s[j + 1] == 'f' && ident_end(s, j) == j + 2;
    if kw_if {
        match parse_expr(s, j + 2) {
            Ok((c, k)) => {
                let m = skip_ws(s, k);
                if m < s.len() && s[m] == '{' {
                    match parse_expr(s, m + 1) {
                        Ok((t, k2)) => {
                            let m2 = skip_ws(s, k2);
                            if m2 < s.len() && s[m2] == '}' {
                                parse_expr_else(s, i, c, t, m2 + 1)
                            } else {
                                Err(SyntaxError { pos: m2, expected: Expected::Symbol('}') })
                            }
                        },
                        Err(x) => Err(x),
                    }
                } else {
                    Err(SyntaxError { pos: m, expected: Expected::Symbol('{') })
                }
            },
            Err(x) => Err(x),
        }
    } else {
        parse_cmp(s, i)
    }
}

/// Parses the `else { expr }` tail of a conditional, pinned to
/// `sp_expr_else`.
fn parse_expr_else(s: &Vec<char>, i: usize, c: Expr, t: Expr, i2: usize) -> (r: Result<
    (Expr, usize),
    SyntaxError,
>)
    requires
        i <= s.len(),
        i2 <= s.len(),
    ensures
        match r {
            Ok(p) => sp_expr_else(s@, i as int, c.view(), t.view(), i2 as int) == Ok::<_, SynV>(
                (p.0.view(), p.1 as int),
            ) && i2 <= p.1 <= s.len(),
            Err(er) => sp_expr_else(s@, i as int, c.view(), t.view(), i2 as int) == Err::<
                (ExprV, int),
                _,
            >(er@),
        },
    decreases s.len() - i2, 7int,
{
    let m3 = skip_ws(s, i2);
    let kw_else = s.len() - m3 >= 4 && s[m3] == 'e' && s[m3 + 1] == 'l' && s[m3 + 2] == 's' && s[m3
        + 3] == 'e' && ident_end(s, m3) == m3 + 4;
    if kw_else {
        let m4 = skip_ws(s, m3 + 4);
        if m4 < s.len() && s[m4] == '{' {
            match parse_expr(s, m4 + 1) {
                Ok((f, k3)) => {
                    let m5 = skip_ws(s, k3);
                    if m5 < s.len() && s[m5] == '}' {
                        Ok((Expr::If(Box::new(c), Box::new(t), Box::new(f)), m5 + 1))
                    } else {
                        Err(SyntaxError { pos: m5, expected: Expected::Symbol('}') })
                    }
                },
                Err(x) => Err(x),
            }
        } else {
            Err(SyntaxError { pos: m4, expected: Expected::Symbol('{') })
        }
    } else {
        Err(SyntaxError { pos: m3, expected: Expected::ElseKeyword })
    }
}

/// Parses a function's parameter list, pinned to `sp_params`.
fn parse_params(s: &Vec<char>, i: usize, acc: Vec<String>) -> (r: Result<
    (Vec<String>, usize),
    SyntaxError,
>)
    requires
        i <= s.len(),
    ensures
        match r {
            Ok(p) => crate::ast::strs_view(acc@).len() == acc@.len() && sp_params(
                s@,
                i as int,
                crate::ast::strs_view(acc@),
            ) == Ok::<_, SynV>((crate::ast::strs_view(p.0@), p.1 as int)) && i <= p.1 <= s.len(),
            Err(er) => sp_params(s@, i as int, crate::ast::strs_view(acc@)) == Err::<
                (Seq<Seq<char>>, int),
                _,
            >(er@),
        },
    decreases s.len() - i,
{
    let j = skip_ws(s, i);
    if acc.len() == 0 && j < s.len() && s[j] == ')' {
        Ok((acc, j + 1))
    } else if j < s.len() && (('a' <= s[j] && s[j] <= 'z') || ('A' <= s[j] && s[j] <= 'Z') || s[j]
        == '_') {
        let e = ident_end(s, j);
        proof {
            assert(sp_ident_end(s@, j as int) == sp_ident_end(s@, j as int + 1));
            lemma_ident_end(s@, j as int + 1);
            assert(j < e);
        }
        if is_keyword(s, j, e) {
            Err(SyntaxError { pos: j, expected: Expected::Ident })
        } else {
            let m = skip_ws(s, e);
            let name = string_from_range(s, j, e);
            if m < s.len() && s[m] == ',' {
                let mut acc2 = acc;
                proof {
                    crate::ast::lemma_strs_view_push(acc2@, name);
                }
                acc2.push(name);
                parse_params(s, m + 1, acc2)
            } else if m < s.len() && s[m] == ')' {
                let mut acc2 = acc;
                proof {
                    crate::ast::lemma_strs_view_push(acc2@, name);
                }
                acc2.push(name);
                Ok((acc2, m + 1))
            } else {
                Err(SyntaxError { pos: m, expected: Expected::Symbol(')') })
            }
        }
    } else {
        Err(SyntaxError { pos: j, expected: Expected::Ident })
    }
}

/// Parses one function definition, pinned to `sp_fn`.
#[verifier::rlimit(100)]
fn parse_fn(s: &Vec<char>, i: usize) -> (r: Result<(Fn, usize), SyntaxError>)
    requires
        i <= s.len(),
    ensures
        match r {
            Ok(p) => sp_fn(s@, i as int) == Ok::<_, SynV>((p.0.view(), p.1 as int)) && i < p.1
                <= s.len(),
            Err(er) => sp_fn(s@, i as int) == Err::<(FnV, int), _>(er@),
        },
    decreases s.len() - i, 8int,
{
    let j = skip_ws(s, i);
    let kwfn = s.len() - j >= 2 && s[j] == 'f' && s[j + 1] == 'n' && ident_end(s, j) == j + 2;
    if !kwfn {
        return Err(SyntaxError { pos: j, expected: Expected::FnKeyword });
    }
    let m = skip_ws(s, j + 2);
    if m < s.len() && (('a' <= s[m] && s[m] <= 'z') || ('A' <= s[m] && s[m] <= 'Z') || s[m] == '_')
    {
        let e = ident_end(s, m);
        proof {
            assert(sp_ident_end(s@, m as int) == sp_ident_end(s@, m as int + 1));
            lemma_ident_end(s@, m as int + 1);
            assert(m < e);
        }
        if is_keyword(s, m, e) {
            return Err(SyntaxError { pos: m, expected: Expected::Ident });
        }
        let q = skip_ws(s, e);
        if q < s.len() && s[q] == '(' {
            proof {
                assert(crate::ast::strs_view(Seq::<String>::empty()) =~= Seq::<
                    Seq<char>,
                >::empty());
            }
            match parse_params(s, q + 1, Vec::new()) {
                Ok((ps, k)) => {
                    let b = skip_ws(s, k);
                    if b < s.len() && s[b] == '{' {
                        match parse_expr(s, b + 1) {
                            Ok((ret, k2)) => {
                                let c = skip_ws(s, k2);
                                if c < s.len() && s[c] == '}' {
                                    let name = string_from_range(s, m, e);
                                    let f = Fn {
                                        name,
                                        args: ps,
                                        body: Block { lets: Vec::new(), ret },
                                    };
                                    proof {
                                        assert(f.body.view().lets =~= Seq::<
                                            crate::ast::LetV,
                                        >::empty());
                                    }
                                    Ok((f, c + 1))
                                } else {
                                    Err(SyntaxError { pos: c, expected: Expected::Symbol('}') })
                                }
                            },
                            Err(x) => Err(x),
                        }
                    } else {
                        Err(SyntaxError { pos: b, expected: Expected::Symbol('{') })
                    }
                },
                Err(x) => Err(x),
            }
        } else {
            Err(SyntaxError { pos: q, expected: Expected::Symbol('(') })
        }
    } else {
        Err(SyntaxError { pos: m, expected: Expected::Ident })
    }
}

/// Parses the remaining function definitions, pinned to `sp_code_rest`.
fn parse_code_rest(s: &Vec<char>, i: usize, acc: Vec<Fn>) -> (r: Result<Vec<Fn>, SyntaxError>)
    requires
        i <= s.len(),
    ensures
        match r {
            Ok(v) => sp_code_rest(s@, i as int, crate::ast::fns_view(acc@)) == Ok::<_, SynV>(
                crate::ast::fns_view(v@),
            ),
            Err(er) => sp_code_rest(s@, i as int, crate::ast::fns_view(acc@)) == Err::<
                Seq<FnV>,
                _,
            >(er@),
        },
    decreases s.len() - i, 9int,
{
    let j = skip_ws(s, i);
    if j >= s.len() {
        return Ok(acc);
    }
    match parse_fn(s, i) {
        Ok((f, k)) => {
            let mut acc2 = acc;
            proof {
                crate::ast::lemma_fns_view_push(acc2@, f);
            }
            acc2.push(f);
            parse_code_rest(s, k, acc2)
        },
        Err(x) => Err(x),
    }
}

/// Parses a whole program: zero or more function definitions, then the end
/// of the input.  The result is exactly `sp_code` of the source text.
pub fn code_parser(src: &str) -> (r: Result<Code, SyntaxError>)
    ensures
        match r {
            Ok(c) => sp_code(src@) == Ok::<CodeV, SynV>(c.view()),
            Err(er) => sp_code(src@) == Err::<CodeV, SynV>(er@),
        },
{
    let s = chars_of(src);
    proof {
        assert(crate::ast::fns_view(Seq::<Fn>::empty()) =~= Seq::<FnV>::empty());
    }
    match parse_code_rest(&s, 0, Vec::new()) {
        Ok(fs) => Ok(Code { functions: fs }),
        Err(x) => Err(x),
    }
}

/// Parses a whole string as a single expression.  The result is exactly
/// `sp_expr_all` of the source text.
pub fn expr_parser(src: &str) -> (r: Result<Expr, SyntaxError>)
    ensures
        match r {
            Ok(e) => sp_expr_all(src@) == Ok::<ExprV, SynV>(e.view()),
            Err(er) => sp_expr_all(src@) == Err::<ExprV, SynV>(er@),
        },
{
    let s = chars_of(src);
    match parse_expr(&s, 0) {
        Ok((e, k)) => {
            let m = skip_ws(&s, k);
            if m >= s.len() {
                Ok(e)
            } else {
                Err(SyntaxError { pos: m, expected: Expected::EndOfInput })
            }
        },
        Err(x) => Err(x),
    }
}

/// Determinism of parsing: the parse result is a mathematical function of
/// the source text, so parsing identical text twice yields structurally
/// equal results.  Together with the contracts of `code_parser` and
/// `expr_parser`, whose results equal `sp_code` and `sp_expr_all` of their
/// input, any two runs on equal text return equal values.
pub proof fn lemma_parse_deterministic(s1: Seq<char>, s2: Seq<char>)
    requires
        s1 == s2,
    ensures
        sp_code(s1) == sp_code(s2),
        sp_expr_all(s1) == sp_expr_all(s2),
{
}

} // verus!
