//! Arithmetic rate expressions: the evaluated AST ([`Expr`]) over dense
//! species indices, and the parsed AST ([`PExpr`]) over names, with the
//! text parser and printer.

use vstd::prelude::*;
use crate::ieee::{
    real_add, real_sub, real_mul, real_div, real_of_int, add_bits, sub_bits, mul_bits, div_bits,
    of_int_bits, POS_ZERO,
};
use crate::numeric::{exp_spec, pow_spec, exp_bits, pow_bits};

verus! {

/// An arithmetic expression over species counts: constants (as binary64
/// bit patterns), reads of a species by dense index, and the usual
/// operators.
#[derive(Debug, PartialEq)]
pub enum Expr {
    Constant(u64),
    Concentration(usize),
    Add(Box<Expr>, Box<Expr>),
    Sub(Box<Expr>, Box<Expr>),
    Mul(Box<Expr>, Box<Expr>),
    Div(Box<Expr>, Box<Expr>),
    Pow(Box<Expr>, Box<Expr>),
    Exp(Box<Expr>),
}

/// Every species read is below `n`.
pub open spec fn expr_wf(e: Expr, n: nat) -> bool
    decreases e,
{
    match e {
        Expr::Constant(_) => true,
        Expr::Concentration(i) => i < n,
        Expr::Add(a, b) => expr_wf(*a, n) && expr_wf(*b, n),
        Expr::Sub(a, b) => expr_wf(*a, n) && expr_wf(*b, n),
        Expr::Mul(a, b) => expr_wf(*a, n) && expr_wf(*b, n),
        Expr::Div(a, b) => expr_wf(*a, n) && expr_wf(*b, n),
        Expr::Pow(a, b) => expr_wf(*a, n) && expr_wf(*b, n),
        Expr::Exp(a) => expr_wf(*a, n),
    }
}

/// The value of an expression on a species vector, as binary64 bits.
/// A read out of range (ruled out by `expr_wf`) counts as zero.
pub open spec fn eval_spec(e: Expr, s: Seq<isize>) -> u64
    decreases e,
{
    match e {
        Expr::Constant(c) => c,
        Expr::Concentration(i) => if i < s.len() {
            real_of_int(s[i as int] as int)
        } else {
            POS_ZERO
        },
        Expr::Add(a, b) => real_add(eval_spec(*a, s), eval_spec(*b, s)),
        Expr::Sub(a, b) => real_sub(eval_spec(*a, s), eval_spec(*b, s)),
        Expr::Mul(a, b) => real_mul(eval_spec(*a, s), eval_spec(*b, s)),
        Expr::Div(a, b) => real_div(eval_spec(*a, s), eval_spec(*b, s)),
        Expr::Pow(a, b) => pow_spec(eval_spec(*a, s), eval_spec(*b, s)),
        Expr::Exp(a) => exp_spec(eval_spec(*a, s)),
    }
}

impl Clone for Expr {
    /// A deep structural copy.
    fn clone(&self) -> (r: Self)
        ensures
            r == *self,
        decreases *self,
    {
        match self {
            Expr::Constant(c) => Expr::Constant(*c),
            Expr::Concentration(i) => Expr::Concentration(*i),
            Expr::Add(a, b) => Expr::Add(Box::new((**a).clone()), Box::new((**b).clone())),
            Expr::Sub(a, b) => Expr::Sub(Box::new((**a).clone()), Box::new((**b).clone())),
            Expr::Mul(a, b) => Expr::Mul(Box::new((**a).clone()), Box::new((**b).clone())),
            Expr::Div(a, b) => Expr::Div(Box::new((**a).clone()), Box::new((**b).clone())),
            Expr::Pow(a, b) => Expr::Pow(Box::new((**a).clone()), Box::new((**b).clone())),
            Expr::Exp(a) => Expr::Exp(Box::new((**a).clone())),
        }
    }
}

impl Expr {
    /// Evaluate against a species vector by recursive descent.
    pub fn eval(&self, species: &Vec<isize>) -> (r: u64)
        requires
            expr_wf(*self, species@.len() as nat),
        ensures
            r == eval_spec(*self, species@),
        decreases *self,
    {
        match self {
            Expr::Constant(c) => *c,
            Expr::Concentration(i) => of_int_bits(species[*i] as i128),
            Expr::Add(a, b) => add_bits(a.eval(species), b.eval(species)),
            Expr::Sub(a, b) => sub_bits(a.eval(species), b.eval(species)),
            Expr::Mul(a, b) => mul_bits(a.eval(species), b.eval(species)),
            Expr::Div(a, b) => div_bits(a.eval(species), b.eval(species)),
            Expr::Pow(a, b) => pow_bits(a.eval(species), b.eval(species)),
            Expr::Exp(a) => exp_bits(a.eval(species)),
        }
    }
}


// ---------------------------------------------------------------------
// The parsed AST and its text parser.
// ---------------------------------------------------------------------

/// A parse error: the rate expression text was not understood.
#[derive(Clone, Debug, PartialEq)]
pub struct RateParseError;

/// A parsed rate expression: like [`Expr`], but with named variables,
/// produced by the text parser before name resolution.
#[derive(Debug, PartialEq)]
pub enum PExpr {
    Constant(u64),
    Variable(String),
    Add(Box<PExpr>, Box<PExpr>),
    Sub(Box<PExpr>, Box<PExpr>),
    Mul(Box<PExpr>, Box<PExpr>),
    Div(Box<PExpr>, Box<PExpr>),
    Pow(Box<PExpr>, Box<PExpr>),
    Exp(Box<PExpr>),
}

impl Clone for PExpr {
    /// A deep structural copy.
    fn clone(&self) -> (r: Self)
        ensures
            r == *self,
        decreases *self,
    {
        match self {
            PExpr::Constant(c) => PExpr::Constant(*c),
            PExpr::Variable(x) => PExpr::Variable(x.clone()),
            PExpr::Add(a, b) => PExpr::Add(Box::new((**a).clone()), Box::new((**b).clone())),
            PExpr::Sub(a, b) => PExpr::Sub(Box::new((**a).clone()), Box::new((**b).clone())),
            PExpr::Mul(a, b) => PExpr::Mul(Box::new((**a).clone()), Box::new((**b).clone())),
            PExpr::Div(a, b) => PExpr::Div(Box::new((**a).clone()), Box::new((**b).clone())),
            PExpr::Pow(a, b) => PExpr::Pow(Box::new((**a).clone()), Box::new((**b).clone())),
            PExpr::Exp(a) => PExpr::Exp(Box::new((**a).clone())),
        }
    }
}

/// The mathematical shadow of a parsed expression: variable names as
/// character sequences.
pub enum PExprV {
    Constant(u64),
    Variable(Seq<char>),
    Add(Box<PExprV>, Box<PExprV>),
    Sub(Box<PExprV>, Box<PExprV>),
    Mul(Box<PExprV>, Box<PExprV>),
    Div(Box<PExprV>, Box<PExprV>),
    Pow(Box<PExprV>, Box<PExprV>),
    Exp(Box<PExprV>),
}

impl View for PExpr {
    type V = PExprV;

    open spec fn view(&self) -> PExprV
        decreases self,
    {
        match self {
            PExpr::Constant(c) => PExprV::Constant(*c),
            PExpr::Variable(x) => PExprV::Variable(x@),
            PExpr::Add(a, b) => PExprV::Add(Box::new((**a)@), Box::new((**b)@)),
            PExpr::Sub(a, b) => PExprV::Sub(Box::new((**a)@), Box::new((**b)@)),
            PExpr::Mul(a, b) => PExprV::Mul(Box::new((**a)@), Box::new((**b)@)),
            PExpr::Div(a, b) => PExprV::Div(Box::new((**a)@), Box::new((**b)@)),
            PExpr::Pow(a, b) => PExprV::Pow(Box::new((**a)@), Box::new((**b)@)),
            PExpr::Exp(a) => PExprV::Exp(Box::new((**a)@)),
        }
    }
}

// --- Character classes, shared by the parser's spec and its code. ---

/// An ASCII letter or underscore: starts an identifier.
pub open spec fn is_ident_start(c: char) -> bool {
    (97 <= c as u32 && c as u32 <= 122) || (65 <= c as u32 && c as u32 <= 90) || c == '_'
}

/// An ASCII letter, digit or underscore: continues an identifier.
pub open spec fn is_ident_char(c: char) -> bool {
    is_ident_start(c) || is_digit(c)
}

/// An ASCII decimal digit.
pub open spec fn is_digit(c: char) -> bool {
    48 <= c as u32 && c as u32 <= 57
}

/// A space or tab: the whitespace tolerated around operators.
pub open spec fn is_space(c: char) -> bool {
    c == ' ' || c == '\t'
}

/// The ASCII code folded to lower case.
pub open spec fn lower32(c: char) -> u32 {
    if 65 <= c as u32 && c as u32 <= 90 {
        (c as u32 + 32) as u32
    } else {
        c as u32
    }
}

fn is_ident_start_exec(c: char) -> (r: bool)
    ensures
        r == is_ident_start(c),
{
    (97 <= c as u32 && c as u32 <= 122) || (65 <= c as u32 && c as u32 <= 90) || c == '_'
}

fn is_ident_char_exec(c: char) -> (r: bool)
    ensures
        r == is_ident_char(c),
{
    is_ident_start_exec(c) || is_digit_exec(c)
}

fn is_digit_exec(c: char) -> (r: bool)
    ensures
        r == is_digit(c),
{
    48 <= c as u32 && c as u32 <= 57
}

// --- Position scanners. ---

/// The first position at or after `i` that is not a space or tab.
pub open spec fn spec_skip_sp(s: Seq<char>, i: int) -> int
    decreases s.len() - i,
{
    if 0 <= i < s.len() && is_space(s[i]) {
        spec_skip_sp(s, i + 1)
    } else {
        i
    }
}

/// The first position at or after `i` that does not continue an
/// identifier.
pub open spec fn spec_ident_end(s: Seq<char>, i: int) -> int
    decreases s.len() - i,
{
    if 0 <= i < s.len() && is_ident_char(s[i]) {
        spec_ident_end(s, i + 1)
    } else {
        i
    }
}

/// The first position at or after `i` that is not a digit.
pub open spec fn spec_digits_end(s: Seq<char>, i: int) -> int
    decreases s.len() - i,
{
    if 0 <= i < s.len() && is_digit(s[i]) {
        spec_digits_end(s, i + 1)
    } else {
        i
    }
}

/// The word at `i` matches `pat` (lower-case ASCII), ignoring case.
pub open spec fn spec_ci_at(s: Seq<char>, i: int, pat: Seq<char>) -> bool {
    &&& 0 <= i
    &&& i + pat.len() <= s.len()
    &&& forall|k: int| 0 <= k < pat.len() ==> lower32(s[i + k]) == #[trigger] (pat[k] as u32)
}

fn skip_sp(s: &str, i: usize) -> (r: usize)
    requires
        i <= s@.len(),
    ensures
        r as int == spec_skip_sp(s@, i as int),
        i <= r <= s@.len(),
    decreases s@.len() - i,
{
    if i < s.unicode_len() {
        let c = s.get_char(i);
        if c == ' ' || c == '\t' {
            return skip_sp(s, i + 1);
        }
    }
    i
}

fn ident_end(s: &str, i: usize) -> (r: usize)
    requires
        i <= s@.len(),
    ensures
        r as int == spec_ident_end(s@, i as int),
        i <= r <= s@.len(),
    decreases s@.len() - i,
{
    if i < s.unicode_len() {
        let c = s.get_char(i);
        if is_ident_char_exec(c) {
            return ident_end(s, i + 1);
        }
    }
    i
}

fn digits_end(s: &str, i: usize) -> (r: usize)
    requires
        i <= s@.len(),
    ensures
        r as int == spec_digits_end(s@, i as int),
        i <= r <= s@.len(),
    decreases s@.len() - i,
{
    if i < s.unicode_len() {
        let c = s.get_char(i);
        if is_digit_exec(c) {
            return digits_end(s, i + 1);
        }
    }
    i
}

fn ci_at(s: &str, i: usize, pat: &str) -> (r: bool)
    requires
        i <= s@.len(),
    ensures
        r == spec_ci_at(s@, i as int, pat@),
    decreases pat@.len(),
{
    let n = pat.unicode_len();
    let slen = s.unicode_len();
    if n > slen - i {
        proof {
            assert(!spec_ci_at(s@, i as int, pat@));
        }
        return false;
    }
    let mut k: usize = 0;
    while k < n
        invariant
            k <= n,
            n == pat@.len(),
            slen == s@.len(),
            i + n <= slen,
            forall|t: int| 0 <= t < k ==> lower32(s@[i + t]) == #[trigger] (pat@[t] as u32),
        decreases n - k,
    {
        let c = s.get_char(i + k);
        let lc: u32 = if 65 <= c as u32 && c as u32 <= 90 {
            c as u32 + 32
        } else {
            c as u32
        };
        let p = pat.get_char(k);
        if lc != p as u32 {
            return false;
        }
        k += 1;
    }
    true
}


/// Apply a sign to a bit pattern (exact IEEE negation).
pub open spec fn spec_signed(neg: bool, v: u64) -> u64 {
    if neg {
        v ^ crate::ieee::SIGN_MASK
    } else {
        v
    }
}

/// A numeric literal at `i`: optional sign, then `inf`/`infinity`/`nan`
/// (any case), or digits with an optional fraction and exponent.  The
/// value is the correctly rounded binary64 of the token.
pub open spec fn spec_constant(s: Seq<char>, i: int) -> Option<(u64, int)> {
    if !(0 <= i < s.len()) {
        None
    } else {
        let neg = s[i] == '-';
        let i1 = if s[i] == '-' || s[i] == '+' {
            i + 1
        } else {
            i
        };
        if spec_ci_at(s, i1, "infinity"@) {
            Some((spec_signed(neg, crate::ieee::POS_INF), i1 + 8))
        } else if spec_ci_at(s, i1, "inf"@) {
            Some((spec_signed(neg, crate::ieee::POS_INF), i1 + 3))
        } else if spec_ci_at(s, i1, "nan"@) {
            Some((spec_signed(neg, crate::ieee::QNAN), i1 + 3))
        } else {
            let int_end = spec_digits_end(s, i1);
            let has_int = int_end > i1;
            let dotted = int_end < s.len() && s[int_end] == '.';
            let frac_end = if dotted {
                spec_digits_end(s, int_end + 1)
            } else {
                int_end
            };
            let has_frac = dotted && frac_end > int_end + 1;
            let mant_end = if dotted {
                frac_end
            } else {
                int_end
            };
            if !has_int && !has_frac {
                None
            } else {
                let exp_ok = !(dotted && !has_frac);
                let num_end = if exp_ok && mant_end < s.len() && (s[mant_end] == 'e' || s[mant_end]
                    == 'E') {
                    let j = if mant_end + 1 < s.len() && (s[mant_end + 1] == '+' || s[mant_end + 1]
                        == '-') {
                        mant_end + 2
                    } else {
                        mant_end + 1
                    };
                    let d_end = spec_digits_end(s, j);
                    if d_end > j {
                        d_end
                    } else {
                        mant_end
                    }
                } else {
                    mant_end
                };
                match crate::ieee::f64_of_decimal(s.subrange(i1, num_end)) {
                    Some(v) => Some((spec_signed(neg, v), num_end)),
                    None => None,
                }
            }
        }
    }
}

/// An identifier at `i`: a letter or underscore, then letters, digits
/// and underscores.
pub open spec fn spec_variable(s: Seq<char>, i: int) -> Option<(Seq<char>, int)> {
    if 0 <= i < s.len() && is_ident_start(s[i]) {
        let end = spec_ident_end(s, i + 1);
        Some((s.subrange(i, end), end))
    } else {
        None
    }
}

/// An atom: `exp(...)`, an identifier, a numeric literal, or a
/// parenthesized expression — in that order, so identifiers shadow the
/// special floating-point words.
pub open spec fn spec_atom(s: Seq<char>, i: int) -> Option<(PExprV, int)>
    decreases s.len() - i, 3int,
{
    if !(0 <= i <= s.len()) {
        None
    } else if i + 3 <= s.len() && s[i] == 'e' && s[i + 1] == 'x' && s[i + 2] == 'p'
        && spec_parens(s, i + 3) is Some {
        let pe = spec_parens(s, i + 3).unwrap();
        Some((PExprV::Exp(Box::new(pe.0)), pe.1))
    } else if spec_variable(s, i) is Some {
        let v = spec_variable(s, i).unwrap();
        Some((PExprV::Variable(v.0), v.1))
    } else if spec_constant(s, i) is Some {
        let c = spec_constant(s, i).unwrap();
        Some((PExprV::Constant(c.0), c.1))
    } else {
        spec_parens(s, i)
    }
}

/// A parenthesized expression: `(`, spaces, an expression, spaces, `)`.
pub open spec fn spec_parens(s: Seq<char>, i: int) -> Option<(PExprV, int)>
    decreases s.len() - i, 2int,
{
    if 0 <= i < s.len() && s[i] == '(' {
        let k = spec_skip_sp(s, i + 1);
        if i + 1 <= k <= s.len() {
            match spec_expr(s, k) {
                Some((e, j)) => {
                    let k2 = spec_skip_sp(s, j);
                    if 0 <= k2 < s.len() && s[k2] == ')' {
                        Some((e, k2 + 1))
                    } else {
                        None
                    }
                },
                None => None,
            }
        } else {
            None
        }
    } else {
        None
    }
}

/// A factor: an atom, possibly raised to one further atom (`^` does not
/// chain).
pub open spec fn spec_factor(s: Seq<char>, i: int) -> Option<(PExprV, int)>
    decreases s.len() - i, 4int,
{
    if !(0 <= i <= s.len()) {
        None
    } else {
        match spec_atom(s, i) {
            Some((a, j)) => {
                if i < j <= s.len() {
                    let k = spec_skip_sp(s, j);
                    if j <= k < s.len() && s[k] == '^' {
                        let m = spec_skip_sp(s, k + 1);
                        if k + 1 <= m <= s.len() {
                            match spec_atom(s, m) {
                                Some((b, j2)) => Some(
                                    (PExprV::Pow(Box::new(a), Box::new(b)), j2),
                                ),
                                None => Some((a, j)),
                            }
                        } else {
                            Some((a, j))
                        }
                    } else {
                        Some((a, j))
                    }
                } else {
                    Some((a, j))
                }
            },
            None => None,
        }
    }
}

/// The product/quotient chain continuing an already parsed factor.
pub open spec fn spec_term_chain(s: Seq<char>, acc: PExprV, i: int) -> (PExprV, int)
    decreases s.len() - i, 0int,
{
    if !(0 <= i <= s.len()) {
        (acc, i)
    } else {
        let k = spec_skip_sp(s, i);
        if i <= k < s.len() && (s[k] == '*' || s[k] == '/') {
            let m = spec_skip_sp(s, k + 1);
            if k + 1 <= m <= s.len() {
                match spec_factor(s, m) {
                    Some((b, j2)) => {
                        let node = if s[k] == '*' {
                            PExprV::Mul(Box::new(acc), Box::new(b))
                        } else {
                            PExprV::Div(Box::new(acc), Box::new(b))
                        };
                        if i < j2 <= s.len() {
                            spec_term_chain(s, node, j2)
                        } else {
                            (node, j2)
                        }
                    },
                    None => (acc, i),
                }
            } else {
                (acc, i)
            }
        } else {
            (acc, i)
        }
    }
}

/// A term: a factor followed by a `*`/`/` chain, folded to the left.
pub open spec fn spec_term(s: Seq<char>, i: int) -> Option<(PExprV, int)>
    decreases s.len() - i, 5int,
{
    if !(0 <= i <= s.len()) {
        None
    } else {
        match spec_factor(s, i) {
            Some((a, j)) => {
                if i < j <= s.len() {
                    Some(spec_term_chain(s, a, j))
                } else {
                    Some((a, j))
                }
            },
            None => None,
        }
    }
}

/// The sum/difference chain continuing an already parsed term.
pub open spec fn spec_expr_chain(s: Seq<char>, acc: PExprV, i: int) -> (PExprV, int)
    decreases s.len() - i, 1int,
{
    if !(0 <= i <= s.len()) {
        (acc, i)
    } else {
        let k = spec_skip_sp(s, i);
        if i <= k < s.len() && (s[k] == '+' || s[k] == '-') {
            let m = spec_skip_sp(s, k + 1);
            if k + 1 <= m <= s.len() {
                match spec_term(s, m) {
                    Some((b, j2)) => {
                        let node = if s[k] == '+' {
                            PExprV::Add(Box::new(acc), Box::new(b))
                        } else {
                            PExprV::Sub(Box::new(acc), Box::new(b))
                        };
                        if i < j2 <= s.len() {
                            spec_expr_chain(s, node, j2)
                        } else {
                            (node, j2)
                        }
                    },
                    None => (acc, i),
                }
            } else {
                (acc, i)
            }
        } else {
            (acc, i)
        }
    }
}

/// An expression: a term followed by a `+`/`-` chain, folded to the
/// left.
pub open spec fn spec_expr(s: Seq<char>, i: int) -> Option<(PExprV, int)>
    decreases s.len() - i, 6int,
{
    if !(0 <= i <= s.len()) {
        None
    } else {
        match spec_term(s, i) {
            Some((a, j)) => {
                if i < j <= s.len() {
                    Some(spec_expr_chain(s, a, j))
                } else {
                    Some((a, j))
                }
            },
            None => None,
        }
    }
}

/// The whole text as one expression; trailing text is a parse error.
pub open spec fn spec_parse(s: Seq<char>) -> Option<PExprV> {
    match spec_expr(s, 0) {
        Some((e, j)) => if j == s.len() {
            Some(e)
        } else {
            None
        },
        None => None,
    }
}


fn signed_exec(neg: bool, v: u64) -> (r: u64)
    ensures
        r == spec_signed(neg, v),
{
    if neg {
        v ^ crate::ieee::SIGN_MASK
    } else {
        v
    }
}

fn constant(s: &str, i: usize) -> (r: Option<(u64, usize)>)
    requires
        i <= s@.len(),
    ensures
        ({
            let sp = spec_constant(s@, i as int);
            match r {
                Some(p) => sp is Some && p.0 == sp.unwrap().0 && p.1 as int == sp.unwrap().1,
                None => sp is None,
            }
        }),
        r matches Some(p) ==> i < p.1 <= s@.len(),
{
    let slen = s.unicode_len();
    if i >= slen {
        return None;
    }
    let c0 = s.get_char(i);
    let neg = c0 == '-';
    let i1 = if c0 == '-' || c0 == '+' {
        i + 1
    } else {
        i
    };
    proof {
        reveal_strlit("infinity");
        reveal_strlit("inf");
        reveal_strlit("nan");
    }
    if ci_at(s, i1, "infinity") {
        return Some((signed_exec(neg, crate::ieee::POS_INF), i1 + 8));
    }
    if ci_at(s, i1, "inf") {
        return Some((signed_exec(neg, crate::ieee::POS_INF), i1 + 3));
    }
    if ci_at(s, i1, "nan") {
        return Some((signed_exec(neg, crate::ieee::QNAN), i1 + 3));
    }
    let int_end = digits_end(s, i1);
    let has_int = int_end > i1;
    let dotted = int_end < slen && s.get_char(int_end) == '.';
    let frac_end = if dotted {
        digits_end(s, int_end + 1)
    } else {
        int_end
    };
    let has_frac = dotted && frac_end > int_end + 1;
    let mant_end = if dotted {
        frac_end
    } else {
        int_end
    };
    if !has_int && !has_frac {
        return None;
    }
    let exp_ok = !(dotted && !has_frac);
    let mut num_end = mant_end;
    if exp_ok && mant_end < slen {
        let ce = s.get_char(mant_end);
        if ce == 'e' || ce == 'E' {
            let j = if mant_end + 1 < slen {
                let cs = s.get_char(mant_end + 1);
                if cs == '+' || cs == '-' {
                    mant_end + 2
                } else {
                    mant_end + 1
                }
            } else {
                mant_end + 1
            };
            let d_end = digits_end(s, j);
            if d_end > j {
                num_end = d_end;
            }
        }
    }
    let tok = s.substring_char(i1, num_end);
    match crate::ieee::parse_decimal(tok) {
        Some(v) => Some((signed_exec(neg, v), num_end)),
        None => None,
    }
}

fn atom(s: &str, i: usize) -> (r: Option<(PExpr, usize)>)
    requires
        i <= s@.len(),
    ensures
        ({
            let sp = spec_atom(s@, i as int);
            match r {
                Some(p) => sp is Some && p.0@ == sp.unwrap().0 && p.1 as int == sp.unwrap().1,
                None => sp is None,
            }
        }),
        r matches Some(p) ==> i < p.1 <= s@.len(),
    decreases s@.len() - i, 3int,
{
    let slen = s.unicode_len();
    if slen >= 3 && i <= slen - 3 && s.get_char(i) == 'e' && s.get_char(i + 1) == 'x'
        && s.get_char(i + 2) == 'p' {
        match parentheses(s, i + 3) {
            Some((e, j)) => {
                return Some((PExpr::Exp(Box::new(e)), j));
            },
            None => {},
        }
    }
    if i < slen && is_ident_start_exec(s.get_char(i)) {
        let end = ident_end(s, i + 1);
        let name = s.substring_char(i, end).to_owned();
        return Some((PExpr::Variable(name), end));
    }
    match constant(s, i) {
        Some((v, j)) => {
            return Some((PExpr::Constant(v), j));
        },
        None => {},
    }
    parentheses(s, i)
}

fn parentheses(s: &str, i: usize) -> (r: Option<(PExpr, usize)>)
    requires
        i <= s@.len(),
    ensures
        ({
            let sp = spec_parens(s@, i as int);
            match r {
                Some(p) => sp is Some && p.0@ == sp.unwrap().0 && p.1 as int == sp.unwrap().1,
                None => sp is None,
            }
        }),
        r matches Some(p) ==> i < p.1 <= s@.len(),
    decreases s@.len() - i, 2int,
{
    let slen = s.unicode_len();
    if i < slen && s.get_char(i) == '(' {
        let k = skip_sp(s, i + 1);
        match expr(s, k) {
            Some((e, j)) => {
                let k2 = skip_sp(s, j);
                if k2 < slen && s.get_char(k2) == ')' {
                    Some((e, k2 + 1))
                } else {
                    None
                }
            },
            None => None,
        }
    } else {
        None
    }
}

fn factor(s: &str, i: usize) -> (r: Option<(PExpr, usize)>)
    requires
        i <= s@.len(),
    ensures
        ({
            let sp = spec_factor(s@, i as int);
            match r {
                Some(p) => sp is Some && p.0@ == sp.unwrap().0 && p.1 as int == sp.unwrap().1,
                None => sp is None,
            }
        }),
        r matches Some(p) ==> i < p.1 <= s@.len(),
    decreases s@.len() - i, 4int,
{
    let slen = s.unicode_len();
    match atom(s, i) {
        Some((a, j)) => {
            let k = skip_sp(s, j);
            if k < slen && s.get_char(k) == '^' {
                let m = skip_sp(s, k + 1);
                match atom(s, m) {
                    Some((b, j2)) => Some((PExpr::Pow(Box::new(a), Box::new(b)), j2)),
                    None => Some((a, j)),
                }
            } else {
                Some((a, j))
            }
        },
        None => None,
    }
}

fn term_chain(s: &str, acc: PExpr, i: usize) -> (r: (PExpr, usize))
    requires
        i <= s@.len(),
    ensures
        ({
            let sp = spec_term_chain(s@, acc@, i as int);
            r.0@ == sp.0 && r.1 as int == sp.1
        }),
        i <= r.1 <= s@.len(),
    decreases s@.len() - i, 0int,
{
    let slen = s.unicode_len();
    let k = skip_sp(s, i);
    if k < slen {
        let c = s.get_char(k);
        if c == '*' || c == '/' {
            let m = skip_sp(s, k + 1);
            match factor(s, m) {
                Some((b, j2)) => {
                    let node = if c == '*' {
                        PExpr::Mul(Box::new(acc), Box::new(b))
                    } else {
                        PExpr::Div(Box::new(acc), Box::new(b))
                    };
                    return term_chain(s, node, j2);
                },
                None => {
                    return (acc, i);
                },
            }
        }
    }
    (acc, i)
}

fn term(s: &str, i: usize) -> (r: Option<(PExpr, usize)>)
    requires
        i <= s@.len(),
    ensures
        ({
            let sp = spec_term(s@, i as int);
            match r {
                Some(p) => sp is Some && p.0@ == sp.unwrap().0 && p.1 as int == sp.unwrap().1,
                None => sp is None,
            }
        }),
        r matches Some(p) ==> i < p.1 <= s@.len(),
    decreases s@.len() - i, 5int,
{
    match factor(s, i) {
        Some((a, j)) => Some(term_chain(s, a, j)),
        None => None,
    }
}

fn expr_chain(s: &str, acc: PExpr, i: usize) -> (r: (PExpr, usize))
    requires
        i <= s@.len(),
    ensures
        ({
            let sp = spec_expr_chain(s@, acc@, i as int);
            r.0@ == sp.0 && r.1 as int == sp.1
        }),
        i <= r.1 <= s@.len(),
    decreases s@.len() - i, 1int,
{
    let slen = s.unicode_len();
    let k = skip_sp(s, i);
    if k < slen {
        let c = s.get_char(k);
        if c == '+' || c == '-' {
            let m = skip_sp(s, k + 1);
            match term(s, m) {
                Some((b, j2)) => {
                    let node = if c == '+' {
                        PExpr::Add(Box::new(acc), Box::new(b))
                    } else {
                        PExpr::Sub(Box::new(acc), Box::new(b))
                    };
                    return expr_chain(s, node, j2);
                },
                None => {
                    return (acc, i);
                },
            }
        }
    }
    (acc, i)
}

fn expr(s: &str, i: usize) -> (r: Option<(PExpr, usize)>)
    requires
        i <= s@.len(),
    ensures
        ({
            let sp = spec_expr(s@, i as int);
            match r {
                Some(p) => sp is Some && p.0@ == sp.unwrap().0 && p.1 as int == sp.unwrap().1,
                None => sp is None,
            }
        }),
        r matches Some(p) ==> i < p.1 <= s@.len(),
    decreases s@.len() - i, 6int,
{
    match term(s, i) {
        Some((a, j)) => Some(expr_chain(s, a, j)),
        None => None,
    }
}

impl PExpr {
    /// Parse a rate expression; the whole text must be consumed, and
    /// the result is exactly what the grammar (`spec_parse`) says.
    pub fn parse_text(s: &str) -> (r: Result<PExpr, RateParseError>)
        ensures
            r matches Ok(e) ==> spec_parse(s@) == Some(e@),
            r is Err ==> spec_parse(s@) is None,
    {
        match expr(s, 0) {
            Some((e, j)) => {
                if j == s.unicode_len() {
                    Ok(e)
                } else {
                    Err(RateParseError)
                }
            },
            None => Err(RateParseError),
        }
    }
}

impl core::str::FromStr for PExpr {
    type Err = RateParseError;

    fn from_str(s: &str) -> Result<PExpr, RateParseError> {
        PExpr::parse_text(s)
    }
}


// ---------------------------------------------------------------------
// Printing.
// ---------------------------------------------------------------------

/// The text stands for the bits: the special values by their names,
/// a finite value as an optional sign and a plain decimal token that
/// parses back to exactly these bits.
pub open spec fn num_text_rel(bits: u64, t: Seq<char>) -> bool {
    if crate::ieee::is_nan(bits) {
        t == "NaN"@
    } else if crate::ieee::is_inf(bits) && !crate::ieee::sign_of(bits) {
        t == "inf"@
    } else if crate::ieee::is_inf(bits) {
        t == "-inf"@
    } else if crate::ieee::sign_of(bits) {
        t.len() > 1 && t[0] == '-' && num_shape(t.subrange(1, t.len() as int))
            && crate::ieee::f64_of_decimal(t.subrange(1, t.len() as int)) == Some(
            crate::ieee::mag_of(bits),
        )
    } else {
        num_shape(t) && crate::ieee::f64_of_decimal(t) == Some(bits)
    }
}

/// The shortest decimal text of a binary64 value: special values by
/// name, finite values as the fewest significant digits that parse back
/// to exactly the same bits, laid out positionally (no exponent).
/// `None` only if no rendering up to 17 digits round-trips, which does
/// not happen for binary64.
pub fn to_text_num(bits: u64) -> (r: Option<String>)
    ensures
        r matches Some(t) ==> num_text_rel(bits, t@),
{
    if crate::ieee::is_nan_bits(bits) {
        return Some(String::from_str("NaN"));
    }
    if crate::ieee::is_inf_bits(bits) {
        if !crate::ieee::sign_bits(bits) {
            return Some(String::from_str("inf"));
        } else {
            return Some(String::from_str("-inf"));
        }
    }
    let neg = crate::ieee::sign_bits(bits);
    let mag = bits & crate::ieee::MAG_MASK;
    proof {
        assert((bits & 0x7FFF_FFFF_FFFF_FFFFu64) & 0x7FFF_FFFF_FFFF_FFFFu64 == (bits
            & 0x7FFF_FFFF_FFFF_FFFFu64)) by (bit_vector);
        assert((bits & 0x8000_0000_0000_0000u64 != 0x8000_0000_0000_0000u64) ==> (bits
            & 0x7FFF_FFFF_FFFF_FFFFu64 == bits)) by (bit_vector);
    }
    let mut p: usize = 1;
    while p <= 17
        invariant
            1 <= p <= 18,
            mag == crate::ieee::mag_of(bits),
            neg == crate::ieee::sign_of(bits),
            !crate::ieee::is_nan(bits),
            !crate::ieee::is_inf(bits),
            !neg ==> mag == bits,
        decreases 18 - p,
    {
        let sci = crate::ieee::format_sci(mag, p);
        match render_positional(&sci) {
            Some(u) => {
                if check_num_shape(u.as_str()) {
                    match crate::ieee::parse_decimal(u.as_str()) {
                        Some(v) => {
                            if v == mag {
                                if neg {
                                    let mut out = String::from_str("-");
                                    out.append(u.as_str());
                                    proof {
                                        reveal_strlit("-");
                                        assert(out@.subrange(1, out@.len() as int) =~= u@);
                                    }
                                    return Some(out);
                                } else {
                                    return Some(u);
                                }
                            }
                        },
                        None => {},
                    }
                }
            },
            None => {},
        }
        p += 1;
    }
    None
}

/// Turn one of the software formatter's scientific texts
/// (`D.FFF E+XX`) into a positional decimal with the same value and
/// digits, in the style of the standard display: trailing zero digits
/// dropped, no exponent, a leading `0.` for small values.  `None` when
/// the text does not have the expected shape.
fn render_positional(sci: &str) -> (r: Option<String>)
    ensures
        r matches Some(t) ==> t@.len() >= 1,
{
    let n = sci.unicode_len();
    if n < 1 || n > 1000 {
        return None;
    }
    let mut digits: Vec<char> = Vec::new();
    let c0 = sci.get_char(0);
    if !is_digit_exec(c0) {
        return None;
    }
    digits.push(c0);
    let mut i: usize = 1;
    let mut frac_len: usize = 0;
    if i < n && sci.get_char(i) == '.' {
        i += 1;
        while i < n && is_digit_exec(sci.get_char(i))
            invariant
                2 <= i,
                i <= n,
                n == sci@.len(),
                n <= 1000,
                frac_len < i,
                digits@.len() == frac_len + 1,
            decreases n - i,
        {
            digits.push(sci.get_char(i));
            frac_len += 1;
            i += 1;
        }
    }
    if i >= n || (sci.get_char(i) != 'E' && sci.get_char(i) != 'e') {
        return None;
    }
    i += 1;
    if i >= n {
        return None;
    }
    let esign = sci.get_char(i);
    let eneg = esign == '-';
    if esign == '+' || esign == '-' {
        i += 1;
    }
    if i >= n {
        return None;
    }
    let mut e10: i64 = 0;
    while i < n
        invariant
            i <= n,
            n == sci@.len(),
            0 <= e10 <= 99999,
        decreases n - i,
    {
        let c = sci.get_char(i);
        if !is_digit_exec(c) {
            return None;
        }
        if e10 < 10000 {
            e10 = e10 * 10 + ((c as u32) as i64 - 48);
        } else {
            return None;
        }
        i += 1;
    }
    if eneg {
        e10 = -e10;
    }
    // value = digits * 10^(e10 - frac_len)
    let mut q: i64 = e10 - (frac_len as i64);
    // drop trailing zero digits
    while digits.len() > 1 && digits[digits.len() - 1] == '0'
        invariant
            digits@.len() >= 1,
            digits@.len() <= 1001,
            -102000 <= q <= 202000,
        decreases digits@.len(),
    {
        if q >= 202000 {
            return None;
        }
        let _ = digits.pop();
        q = q + 1;
    }
    let ndig = digits.len();
    let mut out = String::new();
    if q >= 0 {
        // all digits, then q zeros
        let mut t: usize = 0;
        while t < ndig
            invariant
                t <= ndig,
                ndig == digits@.len(),
                out@.len() == t,
            decreases ndig - t,
        {
            push_char(&mut out, digits[t]);
            t += 1;
        }
        if q > 2000 {
            return None;
        }
        let mut z: i64 = 0;
        while z < q
            invariant
                0 <= z,
                q <= 2000,
                out@.len() >= ndig,
            decreases q - z,
        {
            push_char(&mut out, '0');
            z += 1;
        }
        proof {
            assert(out@.len() >= 1);
        }
    } else {
        let whole: i64 = (ndig as i64) + q;
        if whole > 0 {
            let wh = whole as usize;
            let mut t: usize = 0;
            while t < ndig
                invariant
                    t <= ndig,
                    ndig == digits@.len(),
                    out@.len() >= t,
                decreases ndig - t,
            {
                if t == wh {
                    push_char(&mut out, '.');
                }
                push_char(&mut out, digits[t]);
                t += 1;
            }
            proof {
                assert(ndig >= 1);
                assert(out@.len() >= 1);
            }
        } else {
            push_char(&mut out, '0');
            push_char(&mut out, '.');
            if whole < -2000 {
                return None;
            }
            let mut z: i64 = whole;
            while z < 0
                invariant
                    z >= -2000,
                    out@.len() >= 2,
                decreases 0 - z + 1,
            {
                push_char(&mut out, '0');
                z += 1;
            }
            let mut t: usize = 0;
            while t < ndig
                invariant
                    t <= ndig,
                    ndig == digits@.len(),
                    out@.len() >= 2,
                decreases ndig - t,
            {
                push_char(&mut out, digits[t]);
                t += 1;
            }
        }
    }
    Some(out)
}

/// Relies on `String::push`: appends exactly the given character at
/// the end.
pub assume_specification[ String::push ](s: &mut String, c: char)
    ensures
        final (s)@ == old(s)@.push(c),
;

/// Append one character to a string.
pub(crate) fn push_char(out: &mut String, c: char)
    ensures
        final (out)@ == old(out)@.push(c),
{
    out.push(c);
}


impl PExpr {
    /// The textual form: binary operators fully parenthesized, `exp`
    /// as a call, constants in their shortest round-tripping decimal
    /// form.  `None` only if a constant found no such rendering, which
    /// does not happen for binary64 values.  For a printable tree —
    /// finite constants, valid identifiers — the text re-parses to the
    /// very same tree (`prints_to`, the parser round trip).
    pub fn to_text(&self) -> (r: Option<String>)
        ensures
            r matches Some(t) ==> t@.len() > 0,
            r matches Some(t) ==> (printable(self@) ==> prints_to(self@, t@)),
        decreases self,
    {
        match self {
            PExpr::Constant(c) => {
                match to_text_num(*c) {
                    Some(t) => {
                        if t.unicode_len() > 0 {
                            proof {
                                if printable(self@) {
                                    lemma_constant_prints(*c, t@);
                                }
                            }
                            Some(t)
                        } else {
                            None
                        }
                    },
                    None => None,
                }
            },
            PExpr::Variable(x) => {
                let t = x.clone();
                if t.unicode_len() > 0 {
                    proof {
                        if printable(self@) {
                            lemma_variable_prints(x@);
                        }
                    }
                    Some(t)
                } else {
                    None
                }
            },
            PExpr::Add(a, b) => {
                let ra = a.to_text();
                let rb = b.to_text();
                let ghost rav = ra;
                let ghost rbv = rb;
                let r = join_op(ra, " + ", rb);
                proof {
                    if r is Some && printable(self@) {
                        let ta = rav.unwrap()@;
                        let tb = rbv.unwrap()@;
                        reveal_strlit("(");
                        reveal_strlit(")");
                        reveal_strlit(" + ");
                        assert(r.unwrap()@ =~= seq!['('] + ta + seq![' ', '+', ' '] + tb + seq![
                            ')',
                        ]);
                        lemma_binary_prints(self@, (*a)@, (*b)@, ta, tb, r.unwrap()@);
                    }
                }
                r
            },
            PExpr::Sub(a, b) => {
                let ra = a.to_text();
                let rb = b.to_text();
                let ghost rav = ra;
                let ghost rbv = rb;
                let r = join_op(ra, " - ", rb);
                proof {
                    if r is Some && printable(self@) {
                        let ta = rav.unwrap()@;
                        let tb = rbv.unwrap()@;
                        reveal_strlit("(");
                        reveal_strlit(")");
                        reveal_strlit(" - ");
                        assert(r.unwrap()@ =~= seq!['('] + ta + seq![' ', '-', ' '] + tb + seq![
                            ')',
                        ]);
                        lemma_binary_prints(self@, (*a)@, (*b)@, ta, tb, r.unwrap()@);
                    }
                }
                r
            },
            PExpr::Mul(a, b) => {
                let ra = a.to_text();
                let rb = b.to_text();
                let ghost rav = ra;
                let ghost rbv = rb;
                let r = join_op(ra, " * ", rb);
                proof {
                    if r is Some && printable(self@) {
                        let ta = rav.unwrap()@;
                        let tb = rbv.unwrap()@;
                        reveal_strlit("(");
                        reveal_strlit(")");
                        reveal_strlit(" * ");
                        assert(r.unwrap()@ =~= seq!['('] + ta + seq![' ', '*', ' '] + tb + seq![
                            ')',
                        ]);
                        lemma_binary_prints(self@, (*a)@, (*b)@, ta, tb, r.unwrap()@);
                    }
                }
                r
            },
            PExpr::Div(a, b) => {
                let ra = a.to_text();
                let rb = b.to_text();
                let ghost rav = ra;
                let ghost rbv = rb;
                let r = join_op(ra, " / ", rb);
                proof {
                    if r is Some && printable(self@) {
                        let ta = rav.unwrap()@;
                        let tb = rbv.unwrap()@;
                        reveal_strlit("(");
                        reveal_strlit(")");
                        reveal_strlit(" / ");
                        assert(r.unwrap()@ =~= seq!['('] + ta + seq![' ', '/', ' '] + tb + seq![
                            ')',
                        ]);
                        lemma_binary_prints(self@, (*a)@, (*b)@, ta, tb, r.unwrap()@);
                    }
                }
                r
            },
            PExpr::Pow(a, b) => {
                let ra = a.to_text();
                let rb = b.to_text();
                let ghost rav = ra;
                let ghost rbv = rb;
                let r = join_op(ra, " ^ ", rb);
                proof {
                    if r is Some && printable(self@) {
                        let ta = rav.unwrap()@;
                        let tb = rbv.unwrap()@;
                        reveal_strlit("(");
                        reveal_strlit(")");
                        reveal_strlit(" ^ ");
                        assert(r.unwrap()@ =~= seq!['('] + ta + seq![' ', '^', ' '] + tb + seq![
                            ')',
                        ]);
                        lemma_binary_prints(self@, (*a)@, (*b)@, ta, tb, r.unwrap()@);
                    }
                }
                r
            },
            PExpr::Exp(a) => {
                match a.to_text() {
                    Some(x) => {
                        let ghost tav = x@;
                        let mut out = String::from_str("exp(");
                        out.append(x.as_str());
                        out.append(")");
                        proof {
                            reveal_strlit("exp(");
                            reveal_strlit(")");
                            if printable(self@) {
                                assert(out@ =~= seq!['e', 'x', 'p', '('] + tav + seq![')']);
                                lemma_exp_prints((*a)@, tav, out@);
                                assert(self@ == PExprV::Exp(Box::new((*a)@)));
                            }
                        }
                        Some(out)
                    },
                    None => None,
                }
            },
        }
    }
}

/// Build `(x <op> y)`.
fn join_op(x: Option<String>, op: &str, y: Option<String>) -> (r: Option<String>)
    ensures
        r matches Some(t) ==> t@.len() > 0,
        r matches Some(t) ==> (x matches Some(xs) && y matches Some(ys) && t@ == "("@ + xs@ + op@
            + ys@ + ")"@),
        r is None ==> (x is None || y is None),
    {
    match (x, y) {
        (Some(xs), Some(ys)) => {
            let mut out = String::from_str("(");
            out.append(xs.as_str());
            out.append(op);
            out.append(ys.as_str());
            out.append(")");
            proof {
                reveal_strlit("(");
            }
            Some(out)
        },
        _ => None,
    }
}

// ---------------------------------------------------------------------
// Name resolution.
// ---------------------------------------------------------------------

/// The first position of `x` in `names` at or after `k`.
pub open spec fn spec_lookup_from(names: Seq<Seq<char>>, x: Seq<char>, k: int) -> Option<int>
    decreases names.len() - k,
{
    if !(0 <= k < names.len()) {
        None
    } else if names[k] == x {
        Some(k)
    } else {
        spec_lookup_from(names, x, k + 1)
    }
}

/// The value bound to `x` in the parameter list, front first.
pub open spec fn spec_param_from(params: Seq<(Seq<char>, u64)>, x: Seq<char>, k: int) -> Option<
    u64,
>
    decreases params.len() - k,
{
    if !(0 <= k < params.len()) {
        None
    } else if params[k].0 == x {
        Some(params[k].1)
    } else {
        spec_param_from(params, x, k + 1)
    }
}

/// Resolve a parsed expression against the species registry and the
/// parameter list: known species names become reads of their index,
/// parameter names become constants, anything else fails.
pub open spec fn spec_resolve(
    e: PExprV,
    species: Seq<Seq<char>>,
    params: Seq<(Seq<char>, u64)>,
) -> Option<Expr>
    decreases e,
{
    match e {
        PExprV::Constant(c) => Some(Expr::Constant(c)),
        PExprV::Variable(x) => match spec_lookup_from(species, x, 0) {
            Some(i) => Some(Expr::Concentration(i as usize)),
            None => match spec_param_from(params, x, 0) {
                Some(v) => Some(Expr::Constant(v)),
                None => None,
            },
        },
        PExprV::Add(a, b) => spec_resolve2(
            spec_resolve(*a, species, params),
            spec_resolve(*b, species, params),
            0,
        ),
        PExprV::Sub(a, b) => spec_resolve2(
            spec_resolve(*a, species, params),
            spec_resolve(*b, species, params),
            1,
        ),
        PExprV::Mul(a, b) => spec_resolve2(
            spec_resolve(*a, species, params),
            spec_resolve(*b, species, params),
            2,
        ),
        PExprV::Div(a, b) => spec_resolve2(
            spec_resolve(*a, species, params),
            spec_resolve(*b, species, params),
            3,
        ),
        PExprV::Pow(a, b) => spec_resolve2(
            spec_resolve(*a, species, params),
            spec_resolve(*b, species, params),
            4,
        ),
        PExprV::Exp(a) => match spec_resolve(*a, species, params) {
            Some(x) => Some(Expr::Exp(Box::new(x))),
            None => None,
        },
    }
}

/// Combine two resolved operands under the operator numbered `op`.
pub open spec fn spec_resolve2(a: Option<Expr>, b: Option<Expr>, op: int) -> Option<Expr> {
    match (a, b) {
        (Some(x), Some(y)) => Some(
            if op == 0 {
                Expr::Add(Box::new(x), Box::new(y))
            } else if op == 1 {
                Expr::Sub(Box::new(x), Box::new(y))
            } else if op == 2 {
                Expr::Mul(Box::new(x), Box::new(y))
            } else if op == 3 {
                Expr::Div(Box::new(x), Box::new(y))
            } else if op == 4 {
                Expr::Pow(Box::new(x), Box::new(y))
            } else {
                Expr::Exp(Box::new(x))
            },
        ),
        _ => None,
    }
}

/// The views of a list of names.
pub open spec fn name_views(names: Seq<String>) -> Seq<Seq<char>> {
    names.map_values(|s: String| s@)
}

/// The views of a parameter list.
pub open spec fn param_views(params: Seq<(String, u64)>) -> Seq<(Seq<char>, u64)> {
    params.map_values(|p: (String, u64)| (p.0@, p.1))
}

pub(crate) fn lookup_name(names: &Vec<String>, x: &String) -> (r: Option<usize>)
    ensures
        match r {
            Some(i) => spec_lookup_from(name_views(names@), x@, 0) == Some(i as int) && i
                < names@.len(),
            None => spec_lookup_from(name_views(names@), x@, 0) is None,
        },
{
    let mut k: usize = 0;
    while k < names.len()
        invariant
            k <= names@.len(),
            spec_lookup_from(name_views(names@), x@, 0) == spec_lookup_from(
                name_views(names@),
                x@,
                k as int,
            ),
        decreases names@.len() - k,
    {
        proof {
            assert(name_views(names@)[k as int] == names@[k as int]@);
        }
        if names[k].eq(x) {
            return Some(k);
        }
        k += 1;
    }
    None
}

pub(crate) fn lookup_param(params: &Vec<(String, u64)>, x: &String) -> (r: Option<u64>)
    ensures
        r == spec_param_from(param_views(params@), x@, 0),
{
    let mut k: usize = 0;
    while k < params.len()
        invariant
            k <= params@.len(),
            spec_param_from(param_views(params@), x@, 0) == spec_param_from(
                param_views(params@),
                x@,
                k as int,
            ),
        decreases params@.len() - k,
    {
        proof {
            assert(param_views(params@)[k as int] == (params@[k as int].0@, params@[k as int].1));
        }
        if params[k].0.eq(x) {
            return Some(params[k].1);
        }
        k += 1;
    }
    None
}

impl PExpr {
    /// Resolve names to species indices or parameter constants,
    /// yielding an evaluated expression; an unbound name is an error
    /// naming the parameter.
    pub fn to_expr(&self, species: &Vec<String>, params: &Vec<(String, u64)>) -> (r: Result<
        Expr,
        String,
    >)
        ensures
            r matches Ok(e) ==> spec_resolve(self@, name_views(species@), param_views(params@))
                == Some(e),
            r is Err ==> spec_resolve(self@, name_views(species@), param_views(params@)) is None,
            r matches Ok(e) ==> expr_wf(e, species@.len() as nat),
        decreases self,
    {
        match self {
            PExpr::Constant(c) => Ok(Expr::Constant(*c)),
            PExpr::Variable(x) => {
                match lookup_name(species, x) {
                    Some(i) => Ok(Expr::Concentration(i)),
                    None => {
                        match lookup_param(params, x) {
                            Some(v) => Ok(Expr::Constant(v)),
                            None => {
                                let mut msg = String::from_str("Parameter ");
                                msg.append(x.as_str());
                                msg.append(" should have a value");
                                Err(msg)
                            },
                        }
                    },
                }
            },
            PExpr::Add(a, b) => {
                match (a.to_expr(species, params), b.to_expr(species, params)) {
                    (Ok(x), Ok(y)) => Ok(Expr::Add(Box::new(x), Box::new(y))),
                    (Err(m), _) => Err(m),
                    (_, Err(m)) => Err(m),
                }
            },
            PExpr::Sub(a, b) => {
                match (a.to_expr(species, params), b.to_expr(species, params)) {
                    (Ok(x), Ok(y)) => Ok(Expr::Sub(Box::new(x), Box::new(y))),
                    (Err(m), _) => Err(m),
                    (_, Err(m)) => Err(m),
                }
            },
            PExpr::Mul(a, b) => {
                match (a.to_expr(species, params), b.to_expr(species, params)) {
                    (Ok(x), Ok(y)) => Ok(Expr::Mul(Box::new(x), Box::new(y))),
                    (Err(m), _) => Err(m),
                    (_, Err(m)) => Err(m),
                }
            },
            PExpr::Div(a, b) => {
                match (a.to_expr(species, params), b.to_expr(species, params)) {
                    (Ok(x), Ok(y)) => Ok(Expr::Div(Box::new(x), Box::new(y))),
                    (Err(m), _) => Err(m),
                    (_, Err(m)) => Err(m),
                }
            },
            PExpr::Pow(a, b) => {
                match (a.to_expr(species, params), b.to_expr(species, params)) {
                    (Ok(x), Ok(y)) => Ok(Expr::Pow(Box::new(x), Box::new(y))),
                    (Err(m), _) => Err(m),
                    (_, Err(m)) => Err(m),
                }
            },
            PExpr::Exp(a) => {
                match a.to_expr(species, params) {
                    Ok(x) => Ok(Expr::Exp(Box::new(x))),
                    Err(m) => Err(m),
                }
            },
        }
    }
}


/// A plain decimal token: digits, optionally a dot followed by at
/// least one more digit — exactly what the positional renderer emits.
pub open spec fn num_shape(t: Seq<char>) -> bool {
    let d = spec_digits_end(t, 0);
    &&& t.len() >= 1
    &&& is_digit(t[0])
    &&& (d == t.len() || (0 < d < t.len() && t[d] == '.' && spec_digits_end(t, d + 1) == t.len()
        && spec_digits_end(t, d + 1) > d + 1))
}

/// Decide `num_shape`.
fn check_num_shape(t: &str) -> (r: bool)
    ensures
        r == num_shape(t@),
{
    let n = t.unicode_len();
    if n == 0 {
        return false;
    }
    if !is_digit_exec(t.get_char(0)) {
        return false;
    }
    let d = digits_end(t, 0);
    if d == n {
        return true;
    }
    if !(0 < d && d < n) {
        return false;
    }
    if t.get_char(d) != '.' {
        return false;
    }
    let e = digits_end(t, d + 1);
    e == n && e > d + 1
}


// ---------------------------------------------------------------------
// The parser round trip.
// ---------------------------------------------------------------------

/// A valid identifier: exactly what the variable rule accepts.
pub open spec fn valid_ident(x: Seq<char>) -> bool {
    &&& x.len() >= 1
    &&& is_ident_start(x[0])
    &&& forall|k: int| 0 <= k < x.len() ==> is_ident_char(#[trigger] x[k])
}

/// Every constant is finite and every variable a valid identifier:
/// the expressions whose printed form re-parses (a non-finite constant
/// prints as a word, which reads back as a variable).
pub open spec fn printable(e: PExprV) -> bool
    decreases e,
{
    match e {
        PExprV::Constant(c) => !crate::ieee::is_nan(c) && !crate::ieee::is_inf(c),
        PExprV::Variable(x) => valid_ident(x),
        PExprV::Add(a, b) => printable(*a) && printable(*b),
        PExprV::Sub(a, b) => printable(*a) && printable(*b),
        PExprV::Mul(a, b) => printable(*a) && printable(*b),
        PExprV::Div(a, b) => printable(*a) && printable(*b),
        PExprV::Pow(a, b) => printable(*a) && printable(*b),
        PExprV::Exp(a) => printable(*a),
    }
}

/// `t` re-parses as an atom to exactly `e`, wherever it is embedded
/// with a space, a closing parenthesis or the end after it; moreover it
/// is non-empty and does not start with a space or a closing
/// parenthesis.  This is the printed-form contract of the printer.
pub open spec fn prints_to(e: PExprV, t: Seq<char>) -> bool {
    &&& t.len() >= 1
    &&& !is_space(t[0])
    &&& t[0] != ')'
    &&& forall|s: Seq<char>, i: int|
        (0 <= i && i + t.len() <= s.len() && s.subrange(i, i + t.len()) == t && (i + t.len()
            == s.len() || s[i + t.len()] == ' ' || s[i + t.len()] == ')'))
            ==> #[trigger] spec_atom(s, i) == Some((e, i + t.len()))
}

/// Characters of an embedded subrange, pointwise.
proof fn lemma_embed(s: Seq<char>, t: Seq<char>, i: int)
    requires
        0 <= i,
        i + t.len() <= s.len(),
        s.subrange(i, i + t.len()) == t,
    ensures
        forall|x: int| 0 <= x < t.len() ==> s[i + x] == #[trigger] t[x],
{
    assert forall|x: int| 0 <= x < t.len() implies s[i + x] == #[trigger] t[x] by {
        assert(s.subrange(i, i + t.len())[x] == s[i + x]);
    }
}

/// Scanning digits from `j` stops exactly at the first non-digit.
proof fn lemma_digits_end_stops(s: Seq<char>, j: int, m: int)
    requires
        0 <= j <= m <= s.len(),
        forall|x: int| j <= x < m ==> is_digit(#[trigger] s[x]),
        m == s.len() || !is_digit(s[m]),
    ensures
        spec_digits_end(s, j) == m,
    decreases m - j,
{
    if j < m {
        lemma_digits_end_stops(s, j + 1, m);
    }
}

/// Every character before the scan's stop is a digit.
proof fn lemma_digits_end_prefix(s: Seq<char>, j: int)
    requires
        0 <= j,
    ensures
        forall|x: int| j <= x < spec_digits_end(s, j) ==> is_digit(#[trigger] s[x]),
        j <= spec_digits_end(s, j) <= s.len() || spec_digits_end(s, j) == j,
    decreases s.len() - j,
{
    if 0 <= j < s.len() && is_digit(s[j]) {
        lemma_digits_end_prefix(s, j + 1);
    }
}

/// Scanning identifier characters from `j` stops exactly at the first
/// character that does not continue an identifier.
proof fn lemma_ident_end_stops(s: Seq<char>, j: int, m: int)
    requires
        0 <= j <= m <= s.len(),
        forall|x: int| j <= x < m ==> is_ident_char(#[trigger] s[x]),
        m == s.len() || !is_ident_char(s[m]),
    ensures
        spec_ident_end(s, j) == m,
    decreases m - j,
{
    if j < m {
        lemma_ident_end_stops(s, j + 1, m);
    }
}

/// Skipping spaces is the identity on a non-space position.
proof fn lemma_skip_sp_stops(s: Seq<char>, j: int)
    requires
        0 <= j,
        j == s.len() || (j < s.len() && !is_space(s[j])),
    ensures
        spec_skip_sp(s, j) == j,
{
}

/// Skipping spaces over exactly one space.
proof fn lemma_skip_sp_one(s: Seq<char>, j: int)
    requires
        0 <= j < s.len(),
        is_space(s[j]),
        j + 1 == s.len() || !is_space(s[j + 1]),
    ensures
        spec_skip_sp(s, j) == j + 1,
{
    lemma_skip_sp_stops(s, j + 1);
}

/// A digit or an opening parenthesis starts none of the special words.
proof fn proof_not_word(s: Seq<char>, i1: int)
    requires
        0 <= i1 < s.len(),
        is_digit(s[i1]) || s[i1] == '(',
    ensures
        !spec_ci_at(s, i1, "infinity"@),
        !spec_ci_at(s, i1, "inf"@),
        !spec_ci_at(s, i1, "nan"@),
{
    reveal_strlit("infinity");
    reveal_strlit("inf");
    reveal_strlit("nan");
    if spec_ci_at(s, i1, "infinity"@) {
        assert(lower32(s[i1 + 0]) == ("infinity"@[0] as u32));
        assert(false);
    }
    if spec_ci_at(s, i1, "inf"@) {
        assert(lower32(s[i1 + 0]) == ("inf"@[0] as u32));
        assert(false);
    }
    if spec_ci_at(s, i1, "nan"@) {
        assert(lower32(s[i1 + 0]) == ("nan"@[0] as u32));
        assert(false);
    }
}

/// Re-parsing a printed numeric token at its position yields the very
/// constant, consuming exactly the token.
#[verifier::rlimit(100)]
proof fn lemma_constant_roundtrip(c: u64, t: Seq<char>, s: Seq<char>, i: int)
    requires
        !crate::ieee::is_nan(c),
        !crate::ieee::is_inf(c),
        crate::ieee::sign_of(c) ==> t.len() > 1 && t[0] == '-' && num_shape(
            t.subrange(1, t.len() as int),
        ) && crate::ieee::f64_of_decimal(t.subrange(1, t.len() as int)) == Some(
            crate::ieee::mag_of(c),
        ),
        !crate::ieee::sign_of(c) ==> num_shape(t) && crate::ieee::f64_of_decimal(t) == Some(c),
        0 <= i,
        i + t.len() <= s.len(),
        s.subrange(i, i + t.len()) == t,
        i + t.len() == s.len() || s[i + t.len()] == ' ' || s[i + t.len()] == ')',
    ensures
        spec_constant(s, i) == Some((c, i + t.len())),
{
    lemma_embed(s, t, i);
    let ll = t.len() as int;
    let neg = crate::ieee::sign_of(c);
    let i1: int = if neg {
        i + 1
    } else {
        i
    };
    let t1 = if neg {
        t.subrange(1, ll)
    } else {
        t
    };
    assert(num_shape(t1));
    assert forall|y: int| 0 <= y < t1.len() implies s[i1 + y] == #[trigger] t1[y] by {
        assert(t1[y] == t[(i1 - i) + y]);
    }
    assert(is_digit(s[i1])) by {
        assert(s[i1 + 0] == t1[0]);
    }
    if neg {
        assert(s[i] == '-');
    } else {
        assert(s[i] != '-' && s[i] != '+');
    }
    proof_not_word(s, i1);
    let d1 = spec_digits_end(t1, 0);
    lemma_digits_end_prefix(t1, 0);
    assert(d1 >= 1) by {
        assert(is_digit(t1[0]));
    }
    assert forall|x: int| i1 <= x < i1 + d1 implies is_digit(#[trigger] s[x]) by {
        assert(s[x] == t1[x - i1]);
        assert(is_digit(t1[x - i1]));
    }
    if d1 == t1.len() {
        // digits only
        lemma_digits_end_stops(s, i1, i1 + d1);
        assert(spec_digits_end(s, i1) == i1 + d1);
        assert(i1 + d1 == i + ll);
        if i + ll < s.len() {
            assert(s[i + ll] == ' ' || s[i + ll] == ')');
        }
        assert(s.subrange(i1, i1 + d1) =~= t1);
    } else {
        assert(t1[d1] == '.');
        lemma_digits_end_stops(s, i1, i1 + d1);
        let f_end = spec_digits_end(t1, d1 + 1);
        assert(f_end == t1.len() && f_end > d1 + 1);
        lemma_digits_end_prefix(t1, d1 + 1);
        assert forall|x: int| i1 + d1 + 1 <= x < i1 + f_end implies is_digit(
            #[trigger] s[x],
        ) by {
            assert(s[x] == t1[x - i1]);
            assert(is_digit(t1[x - i1]));
        }
        lemma_digits_end_stops(s, i1 + d1 + 1, i1 + f_end);
        assert(s[i1 + d1] == '.') by {
            assert(s[i1 + d1] == t1[d1]);
        }
        if i + ll < s.len() {
            assert(s[i + ll] == ' ' || s[i + ll] == ')');
        }
        assert(s.subrange(i1, i1 + f_end) =~= t1);
    }
    if neg {
        assert((c & 0x8000_0000_0000_0000u64 == 0x8000_0000_0000_0000u64) ==> ((c
            & 0x7FFF_FFFF_FFFF_FFFFu64) ^ 0x8000_0000_0000_0000u64 == c)) by (bit_vector);
    }
}

/// A printed numeric token re-parses as an atom to its constant.
#[verifier::rlimit(100)]
pub proof fn lemma_constant_prints(c: u64, t: Seq<char>)
    requires
        !crate::ieee::is_nan(c),
        !crate::ieee::is_inf(c),
        crate::ieee::sign_of(c) ==> t.len() > 1 && t[0] == '-' && num_shape(
            t.subrange(1, t.len() as int),
        ) && crate::ieee::f64_of_decimal(t.subrange(1, t.len() as int)) == Some(
            crate::ieee::mag_of(c),
        ),
        !crate::ieee::sign_of(c) ==> num_shape(t) && crate::ieee::f64_of_decimal(t) == Some(c),
    ensures
        prints_to(PExprV::Constant(c), t),
{
    if crate::ieee::sign_of(c) {
        assert(t[0] == '-');
    } else {
        assert(is_digit(t[0]));
    }
    assert forall|s: Seq<char>, i: int|
        (0 <= i && i + t.len() <= s.len() && s.subrange(i, i + t.len()) == t && (i + t.len()
            == s.len() || s[i + t.len()] == ' ' || s[i + t.len()] == ')')) implies #[trigger]
    spec_atom(s, i) == Some((PExprV::Constant(c), i + t.len())) by {
        lemma_embed(s, t, i);
        lemma_constant_roundtrip(c, t, s, i);
        assert(s[i + 0] == t[0]);
        assert(s[i] == '-' || is_digit(s[i]));
        assert(!is_ident_start(s[i]));
        if i + 3 <= s.len() && s[i] == 'e' && s[i + 1] == 'x' && s[i + 2] == 'p' {
            assert(false);
        }
    }
}

/// A valid identifier re-parses as an atom to its variable.
#[verifier::rlimit(100)]
pub proof fn lemma_variable_prints(x: Seq<char>)
    requires
        valid_ident(x),
    ensures
        prints_to(PExprV::Variable(x), x),
{
    assert(!is_space(x[0]) && x[0] != ')');
    assert forall|s: Seq<char>, i: int|
        (0 <= i && i + x.len() <= s.len() && s.subrange(i, i + x.len()) == x && (i + x.len()
            == s.len() || s[i + x.len()] == ' ' || s[i + x.len()] == ')')) implies #[trigger]
    spec_atom(s, i) == Some((PExprV::Variable(x), i + x.len())) by {
        lemma_embed(s, x, i);
        let ll = x.len() as int;
        // the exp-call branch cannot fire: nothing after the word is
        // an opening parenthesis
        if i + 3 <= s.len() && s[i] == 'e' && s[i + 1] == 'x' && s[i + 2] == 'p' {
            if x.len() == 1 {
                assert(i + 1 == s.len() || s[i + 1] == ' ' || s[i + 1] == ')');
                assert(false);
            } else if x.len() == 2 {
                assert(i + 2 == s.len() || s[i + 2] == ' ' || s[i + 2] == ')');
                assert(false);
            } else if x.len() == 3 {
                assert(spec_parens(s, i + 3) is None);
            } else {
                assert(s[i + 3] == x[3]);
                assert(is_ident_char(x[3]));
                assert(spec_parens(s, i + 3) is None);
            }
        }
        assert(is_ident_start(s[i])) by {
            assert(s[i + 0] == x[0]);
        }
        assert forall|y: int| i + 1 <= y < i + ll implies is_ident_char(#[trigger] s[y]) by {
            assert(s[y] == x[y - i]);
            assert(is_ident_char(x[y - i]));
        }
        lemma_ident_end_stops(s, i + 1, i + ll);
        assert(s.subrange(i, i + ll) =~= x);
    }
}

/// The chain walk for one binary operator between two parsed atoms:
/// `atom sp op sp atom` inside parentheses parses to the single node.
#[verifier::rlimit(100)]
proof fn lemma_chain_walk(e: PExprV, a: PExprV, b: PExprV, s: Seq<char>, ia: int, ja: int, jb: int)
    requires
        spec_atom(s, ia) == Some((a, ja)),
        spec_atom(s, ja + 3) == Some((b, jb)),
        0 <= ia < ja,
        ja + 3 < jb <= s.len(),
        s[ja] == ' ',
        s[ja + 1] == op_char(e),
        s[ja + 2] == ' ',
        jb == s.len() || s[jb] == ')',
        !is_space(s[ja + 3]),
        (e matches PExprV::Add(x, y) && *x == a && *y == b) || (e matches PExprV::Sub(x, y) && *x
            == a && *y == b) || (e matches PExprV::Mul(x, y) && *x == a && *y == b) || (
        e matches PExprV::Div(x, y) && *x == a && *y == b) || (e matches PExprV::Pow(x, y) && *x
            == a && *y == b),
    ensures
        spec_expr(s, ia) == Some((e, jb)),
{
    let op = op_char(e);
    let ib = ja + 3;
    lemma_skip_sp_one(s, ja);
    lemma_skip_sp_one(s, ja + 2);
    lemma_skip_sp_stops(s, jb);
    if op == '^' {
        assert(spec_factor(s, ia) == Some((e, jb)));
        assert(spec_term_chain(s, e, jb) == (e, jb));
        assert(spec_term(s, ia) == Some((e, jb)));
        assert(spec_expr_chain(s, e, jb) == (e, jb));
    } else if op == '*' || op == '/' {
        assert(spec_factor(s, ia) == Some((a, ja)));
        assert(spec_factor(s, ib) == Some((b, jb)));
        assert(spec_term_chain(s, e, jb) == (e, jb));
        assert(spec_term_chain(s, a, ja) == (e, jb));
        assert(spec_term(s, ia) == Some((e, jb)));
        assert(spec_expr_chain(s, e, jb) == (e, jb));
    } else {
        assert(spec_factor(s, ia) == Some((a, ja)));
        assert(spec_term_chain(s, a, ja) == (a, ja));
        assert(spec_term(s, ia) == Some((a, ja)));
        assert(spec_factor(s, ib) == Some((b, jb)));
        assert(spec_term_chain(s, b, jb) == (b, jb));
        assert(spec_term(s, ib) == Some((b, jb)));
        assert(spec_expr_chain(s, e, jb) == (e, jb));
        assert(spec_expr_chain(s, a, ja) == (e, jb));
    }
}

/// The infix character of a binary node.
pub open spec fn op_char(e: PExprV) -> char {
    match e {
        PExprV::Add(_, _) => '+',
        PExprV::Sub(_, _) => '-',
        PExprV::Mul(_, _) => '*',
        PExprV::Div(_, _) => '/',
        _ => '^',
    }
}

/// An atom that is a parenthesized expression.
proof fn lemma_atom_via_parens(s: Seq<char>, i: int, e: PExprV, j: int)
    requires
        0 <= i < s.len(),
        s[i] == '(',
        i + 1 < s.len(),
        !is_space(s[i + 1]),
        spec_expr(s, i + 1) == Some((e, j)),
        i + 1 <= j < s.len(),
        s[j] == ')',
    ensures
        spec_atom(s, i) == Some((e, j + 1)),
{
    lemma_skip_sp_stops(s, i + 1);
    lemma_skip_sp_stops(s, j);
    assert(spec_parens(s, i) == Some((e, j + 1)));
    if i + 3 <= s.len() && s[i] == 'e' && s[i + 1] == 'x' && s[i + 2] == 'p' {
        assert(false);
    }
    assert(!is_ident_start(s[i]));
    proof_not_word(s, i);
    lemma_digits_end_stops(s, i, i);
    assert(spec_constant(s, i) is None);
}

/// Printed operands around one infix operator, in parentheses,
/// re-parse as an atom to the single binary node.
#[verifier::rlimit(100)]
pub proof fn lemma_binary_prints(e: PExprV, a: PExprV, b: PExprV, ta: Seq<char>, tb: Seq<char>, t: Seq<char>)
    requires
        prints_to(a, ta),
        prints_to(b, tb),
        t == seq!['('] + ta + seq![' ', op_char(e), ' '] + tb + seq![')'],
        (e matches PExprV::Add(x, y) && *x == a && *y == b) || (e matches PExprV::Sub(x, y) && *x
            == a && *y == b) || (e matches PExprV::Mul(x, y) && *x == a && *y == b) || (
        e matches PExprV::Div(x, y) && *x == a && *y == b) || (e matches PExprV::Pow(x, y) && *x
            == a && *y == b),
    ensures
        prints_to(e, t),
{
    assert(t[0] == '(');
    assert forall|s: Seq<char>, i: int|
        (0 <= i && i + t.len() <= s.len() && s.subrange(i, i + t.len()) == t && (i + t.len()
            == s.len() || s[i + t.len()] == ' ' || s[i + t.len()] == ')')) implies #[trigger]
    spec_atom(s, i) == Some((e, i + t.len())) by {
        lemma_embed(s, t, i);
        let ll = t.len() as int;
        let op = op_char(e);
        let ia = i + 1;
        let ja = ia + ta.len() as int;
        let ib = ja + 3;
        let jb = ib + tb.len() as int;
        assert(s[i] == '(') by {
            assert(s[i + 0] == t[0]);
        }
        assert(s.subrange(ia, ja) =~= ta) by {
            assert forall|x: int| 0 <= x < ta.len() implies s.subrange(ia, ja)[x] == ta[x] by {
                assert(s[ia + x] == t[1 + x]);
                assert(t[1 + x] == ta[x]);
            }
        }
        assert(s[ja] == ' ' && s[ja + 1] == op && s[ja + 2] == ' ') by {
            assert(s[ja] == t[ja - i] && s[ja + 1] == t[ja - i + 1] && s[ja + 2] == t[ja - i + 2]);
            assert(t[ja - i] == ' ' && t[ja - i + 1] == op && t[ja - i + 2] == ' ');
        }
        assert(s.subrange(ib, jb) =~= tb) by {
            assert forall|x: int| 0 <= x < tb.len() implies s.subrange(ib, jb)[x] == tb[x] by {
                assert(s[ib + x] == t[(ib - i) + x]);
                assert(t[(ib - i) + x] == tb[x]);
            }
        }
        assert(s[jb] == ')') by {
            assert(s[jb] == t[ll - 1]);
            assert(t[ll - 1] == ')');
        }
        assert(!is_space(s[ia])) by {
            assert(s[ia + 0] == ta[0]);
        }
        assert(!is_space(s[ib])) by {
            assert(s[ib + 0] == tb[0]);
        }
        assert(spec_atom(s, ia) == Some((a, ja)));
        assert(spec_atom(s, ib) == Some((b, jb)));
        lemma_chain_walk(e, a, b, s, ia, ja, jb);
        lemma_atom_via_parens(s, i, e, jb);
    }
}

/// A printed operand wrapped in an `exp` call re-parses as an atom to
/// the exponential node.
#[verifier::rlimit(100)]
pub proof fn lemma_exp_prints(a: PExprV, ta: Seq<char>, t: Seq<char>)
    requires
        prints_to(a, ta),
        t == seq!['e', 'x', 'p', '('] + ta + seq![')'],
    ensures
        prints_to(PExprV::Exp(Box::new(a)), t),
{
    assert(t[0] == 'e');
    assert forall|s: Seq<char>, i: int|
        (0 <= i && i + t.len() <= s.len() && s.subrange(i, i + t.len()) == t && (i + t.len()
            == s.len() || s[i + t.len()] == ' ' || s[i + t.len()] == ')')) implies #[trigger]
    spec_atom(s, i) == Some((PExprV::Exp(Box::new(a)), i + t.len())) by {
        lemma_embed(s, t, i);
        let ll = t.len() as int;
        let ia = i + 4;
        let ja = ia + ta.len() as int;
        assert(s[i] == 'e' && s[i + 1] == 'x' && s[i + 2] == 'p' && s[i + 3] == '(') by {
            assert(s[i + 0] == t[0] && s[i + 1] == t[1] && s[i + 2] == t[2] && s[i + 3] == t[3]);
        }
        assert(s.subrange(ia, ja) =~= ta) by {
            assert forall|x: int| 0 <= x < ta.len() implies s.subrange(ia, ja)[x] == ta[x] by {
                assert(s[ia + x] == t[4 + x]);
                assert(t[4 + x] == ta[x]);
            }
        }
        assert(s[ja] == ')') by {
            assert(s[ja] == t[ll - 1]);
            assert(t[ll - 1] == ')');
        }
        assert(!is_space(s[ia])) by {
            assert(s[ia + 0] == ta[0]);
        }
        assert(spec_atom(s, ia) == Some((a, ja)));
        lemma_skip_sp_stops(s, ia);
        lemma_skip_sp_stops(s, ja);
        assert(spec_factor(s, ia) == Some((a, ja)));
        assert(spec_term_chain(s, a, ja) == (a, ja));
        assert(spec_term(s, ia) == Some((a, ja)));
        assert(spec_expr_chain(s, a, ja) == (a, ja));
        assert(spec_expr(s, ia) == Some((a, ja)));
        assert(spec_parens(s, i + 3) == Some((a, ja + 1)));
        assert(ja + 1 == i + ll);
    }
}

/// Law (parser round trip): a printed expression re-parses, whole, to
/// a structurally equal tree.
pub proof fn lemma_parse_roundtrip(e: PExprV, t: Seq<char>)
    requires
        prints_to(e, t),
    ensures
        spec_parse(t) == Some(e),
{
    assert(t.subrange(0, t.len() as int) =~= t);
    assert(spec_atom(t, 0) == Some((e, t.len() as int)));
    lemma_skip_sp_stops(t, t.len() as int);
    assert(spec_factor(t, 0) == Some((e, t.len() as int)));
    assert(spec_term_chain(t, e, t.len() as int) == (e, t.len() as int));
    assert(spec_term(t, 0) == Some((e, t.len() as int)));
    assert(spec_expr_chain(t, e, t.len() as int) == (e, t.len() as int));
    assert(spec_expr(t, 0) == Some((e, t.len() as int)));
}

} // verus!
