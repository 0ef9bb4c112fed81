//! Evaluation of templated strings, amount expressions and balance conditions
//! against an execution context.
use vstd::prelude::*;
use vstd::string::*;
use crate::digest::{content_hash, content_hash_of};
use crate::text::{chars_of, dec_int, has_prefix, has_suffix, render_int, starts_with, ends_with, str_eq};

verus! {

/// A value bound in an execution context: a caller input or a step result.
pub enum Datum {
    Text(String),
    Int(i64),
    Bool(bool),
    Null,
    /// Any other value, held as its text form.
    Raw(String),
}

/// The text a value contributes when interpolated.
pub open spec fn render(d: Datum) -> Seq<char> {
    match d {
        Datum::Text(s) => s@,
        Datum::Int(n) => dec_int(n as int),
        Datum::Bool(b) => if b { "true"@ } else { "false"@ },
        Datum::Null => "null"@,
        Datum::Raw(s) => s@,
    }
}

impl Datum {
    /// The text form of the value.
    pub fn render(&self) -> (r: String)
        ensures
            r@ == render(*self),
    {
        match self {
            Datum::Text(s) => s.clone(),
            Datum::Int(n) => render_int(*n),
            Datum::Bool(b) => if *b { String::from_str("true") } else { String::from_str("false") },
            Datum::Null => String::from_str("null"),
            Datum::Raw(s) => s.clone(),
        }
    }

    /// A copy of the value.
    pub fn duplicate(&self) -> (r: Datum)
        ensures
            render(r) == render(*self),
            r is Text <==> self is Text,
            r is Int <==> self is Int,
            r is Bool <==> self is Bool,
            r is Null <==> self is Null,
            r is Raw <==> self is Raw,
            self is Int ==> r == *self,
            self is Bool ==> r == *self,
    {
        match self {
            Datum::Text(s) => Datum::Text(s.clone()),
            Datum::Int(n) => Datum::Int(*n),
            Datum::Bool(b) => Datum::Bool(*b),
            Datum::Null => Datum::Null,
            Datum::Raw(s) => Datum::Raw(s.clone()),
        }
    }
}

/// A context as (name, rendered value) pairs.
pub open spec fn ctx_view(v: Seq<(String, Datum)>) -> Seq<(Seq<char>, Seq<char>)> {
    v.map_values(|p: (String, Datum)| (p.0@, render(p.1)))
}

/// The value of the first pair named `name`.
pub open spec fn lookup(c: Seq<(Seq<char>, Seq<char>)>, name: Seq<char>) -> Option<Seq<char>>
    decreases c.len(),
{
    if c.len() == 0 {
        None
    } else if c[0].0 == name {
        Some(c[0].1)
    } else {
        lookup(c.drop_first(), name)
    }
}

/// A name is resolved among the stored step results first, then the inputs.
pub open spec fn resolve(stored: Seq<(Seq<char>, Seq<char>)>, inputs: Seq<(Seq<char>, Seq<char>)>, name: Seq<char>) -> Option<Seq<char>> {
    match lookup(stored, name) {
        Some(v) => Some(v),
        None => lookup(inputs, name),
    }
}

/// Index of the first `c` in `t`, if any.
pub open spec fn first_index(t: Seq<char>, c: char) -> Option<int>
    decreases t.len(),
{
    if t.len() == 0 {
        None
    } else if t[0] == c {
        Some(0)
    } else {
        match first_index(t.drop_first(), c) {
            Some(i) => Some(i + 1),
            None => None,
        }
    }
}

/// Interpolation, left to right: each `{name}` (up to the first `}`) whose name
/// resolves is replaced by its value; any other character is kept as it is.
/// Replaced text is not scanned again.
pub open spec fn interp(t: Seq<char>, stored: Seq<(Seq<char>, Seq<char>)>, inputs: Seq<(Seq<char>, Seq<char>)>) -> Seq<char>
    decreases t.len(),
{
    if t.len() == 0 {
        Seq::empty()
    } else if t[0] == '{' && first_index(t, '}') is Some && 0 < first_index(t, '}')->Some_0 < t.len()
        && resolve(
        stored,
        inputs,
        t.subrange(1, first_index(t, '}')->Some_0),
    ) is Some {
        let j = first_index(t, '}')->Some_0;
        resolve(stored, inputs, t.subrange(1, j))->Some_0 + interp(t.skip(j + 1), stored, inputs)
    } else {
        seq![t[0]] + interp(t.skip(1), stored, inputs)
    }
}

proof fn lemma_first_index_from(t: Seq<char>, c: char, i: int)
    requires
        0 <= i < t.len(),
        t[i] == c,
        forall|k: int| 0 <= k < i ==> t[k] != c,
    ensures
        first_index(t, c) == Some(i),
    decreases t.len(),
{
    if i > 0 {
        assert forall|k: int| 0 <= k < i - 1 implies t.drop_first()[k] != c by {
            assert(t.drop_first()[k] == t[k + 1]);
        }
        lemma_first_index_from(t.drop_first(), c, i - 1);
    }
}

proof fn lemma_first_index_none(t: Seq<char>, c: char)
    requires
        forall|k: int| 0 <= k < t.len() ==> t[k] != c,
    ensures
        first_index(t, c) is None,
    decreases t.len(),
{
    if t.len() > 0 {
        assert forall|k: int| 0 <= k < t.len() - 1 implies t.drop_first()[k] != c by {
            assert(t.drop_first()[k] == t[k + 1]);
        }
        lemma_first_index_none(t.drop_first(), c);
    }
}

fn lookup_in(c: &Vec<(String, Datum)>, name: &str) -> (r: Option<String>)
    ensures
        match r {
            Some(v) => lookup(ctx_view(c@), name@) == Some(v@),
            None => lookup(ctx_view(c@), name@) is None,
        },
{
    let ghost cv = ctx_view(c@);
    let mut i: usize = 0;
    proof {
        assert(cv.skip(0) =~= cv);
    }
    while i < c.len()
        invariant
            cv == ctx_view(c@),
            i <= c@.len(),
            lookup(cv, name@) == lookup(cv.skip(i as int), name@),
        decreases c@.len() - i,
    {
        proof {
            assert(cv.skip(i as int).drop_first() =~= cv.skip(i + 1));
        }
        if str_eq(c[i].0.as_str(), name) {
            return Some(c[i].1.render());
        }
        i = i + 1;
    }
    proof {
        assert(cv.skip(i as int).len() == 0);
    }
    None
}

/// The value a name resolves to: a stored result, else an input.
pub fn resolve_name(stored: &Vec<(String, Datum)>, inputs: &Vec<(String, Datum)>, name: &str) -> (r: Option<String>)
    ensures
        match r {
            Some(v) => resolve(ctx_view(stored@), ctx_view(inputs@), name@) == Some(v@),
            None => resolve(ctx_view(stored@), ctx_view(inputs@), name@) is None,
        },
{
    match lookup_in(stored, name) {
        Some(v) => Some(v),
        None => lookup_in(inputs, name),
    }
}

/// Interpolates `template` against the stored results and the inputs.
pub fn interpolate(template: &str, inputs: &Vec<(String, Datum)>, stored: &Vec<(String, Datum)>) -> (r: String)
    ensures
        r@ == interp(template@, ctx_view(stored@), ctx_view(inputs@)),
{
    let ghost sv = ctx_view(stored@);
    let ghost iv = ctx_view(inputs@);
    let ghost t = template@;
    let cs = chars_of(template);
    let n = cs.len();
    let mut out = String::new();
    let mut p: usize = 0;
    proof {
        assert(t.skip(0) =~= t);
        assert(out@ + interp(t, sv, iv) =~= interp(t, sv, iv));
    }
    while p < n
        invariant
            template@ == t,
            cs@ == t,
            n == t.len(),
            p <= n,
            sv == ctx_view(stored@),
            iv == ctx_view(inputs@),
            out@ + interp(t.skip(p as int), sv, iv) == interp(t, sv, iv),
        decreases n - p,
    {
        let ghost rest = t.skip(p as int);
        let mut handled = false;
        if cs[p] == '{' {
            let mut q: usize = p + 1;
            while q < n && cs[q] != '}'
                invariant
                    template@ == t,
                    cs@ == t,
                    n == t.len(),
                    p < q <= n,
                    forall|k: int| p < k < q ==> t[k] != '}',
                decreases n - q,
            {
                q = q + 1;
            }
            proof {
                assert(rest[0] == '{');
                assert forall|k: int| 0 <= k < q - p implies rest[k] != '}' by {
                    assert(rest[k] == t[p + k]);
                }
            }
            if q < n {
                proof {
                    assert(rest[q - p] == '}');
                    lemma_first_index_from(rest, '}', q - p);
                    assert(rest.subrange(1, (q - p) as int) =~= t.subrange(p + 1, q as int));
                }
                let name = template.substring_char(p + 1, q);
                match resolve_name(stored, inputs, name) {
                    Some(v) => {
                        proof {
                            assert(rest.skip((q - p) + 1) =~= t.skip(q + 1));
                            assert(interp(rest, sv, iv) == v@ + interp(t.skip(q + 1), sv, iv));
                            assert(out@ + (v@ + interp(t.skip(q + 1), sv, iv)) =~= (out@ + v@) + interp(t.skip(q + 1), sv, iv));
                        }
                        out.append(v.as_str());
                        p = q + 1;
                        handled = true;
                    },
                    None => {},
                }
            } else {
                proof {
                    lemma_first_index_none(rest, '}');
                }
            }
        }
        if !handled {
            proof {
                assert(rest.skip(1) =~= t.skip(p + 1));
                assert(template@.subrange(p as int, p + 1) =~= seq![rest[0]]);
                assert(interp(rest, sv, iv) == seq![rest[0]] + interp(t.skip(p + 1), sv, iv));
                assert(out@ + (seq![rest[0]] + interp(t.skip(p + 1), sv, iv)) =~= (out@ + seq![rest[0]]) + interp(t.skip(p + 1), sv, iv));
            }
            out.append(template.substring_char(p, p + 1));
            p = p + 1;
        }
    }
    proof {
        assert(t.skip(n as int) =~= Seq::<char>::empty());
        assert(out@ + Seq::<char>::empty() =~= out@);
    }
    out
}

/// Why a template step failed.
#[derive(Clone, Copy, Debug, PartialEq, Eq, Structural)]
pub enum SparkError {
    /// No spark or recipe of that name.
    NotFound,
    /// A step lacks a field its type needs.
    MissingField,
    /// A step of an unknown type.
    UnknownOperation,
    /// An amount or condition that does not evaluate.
    InvalidExpression,
    /// A balance check whose condition does not hold.
    ConditionFailed,
    /// The ledger refused a transfer.
    InsufficientBalance,
    /// The ledger refused a non-positive amount.
    InvalidAmount,
    /// A balance would leave the 64-bit range.
    Overflow,
    /// A ledger reference exists but its text is missing.
    Conflict,
    /// A linked spark holds a step that is not a ledger transfer.
    NotBatchable,
}

/// Decimal value of a string of ASCII digits.
pub open spec fn digits_value(s: Seq<char>) -> int
    decreases s.len(),
{
    if s.len() == 0 {
        0
    } else {
        digits_value(s.drop_last()) * 10 + (s.last() as u32 as int - '0' as u32 as int)
    }
}

pub open spec fn all_digits(s: Seq<char>) -> bool {
    forall|i: int| 0 <= i < s.len() ==> '0' <= #[trigger] s[i] <= '9'
}

/// The integer a string denotes: an optional `+` or `-` and one or more ASCII
/// digits, in the 64-bit signed range.
/// Length of the sign prefix of a number: 1 for a leading `+` or `-`, else 0.
pub open spec fn sign_len(s: Seq<char>) -> int {
    if s.len() > 0 && (s[0] == '-' || s[0] == '+') { 1 } else { 0 }
}

pub open spec fn parse_int(s: Seq<char>) -> Option<int> {
    let neg = s.len() > 0 && s[0] == '-';
    let body = s.skip(sign_len(s));
    let v = if neg { -digits_value(body) } else { digits_value(body) };
    if body.len() > 0 && all_digits(body) && i64::MIN <= v <= i64::MAX {
        Some(v)
    } else {
        None
    }
}

/// Parses a decimal integer as `i64::from_str` does.
pub fn parse_i64(s: &str) -> (r: Option<i64>)
    ensures
        match r {
            Some(v) => parse_int(s@) == Some(v as int),
            None => parse_int(s@) is None,
        },
{
    let cs = chars_of(s);
    let n = cs.len();
    if n == 0 {
        return None;
    }
    let neg = cs[0] == '-';
    let start: usize = if cs[0] == '-' || cs[0] == '+' { 1 } else { 0 };
    let ghost body = s@.skip(start as int);
    assert(start == sign_len(s@));
    if start >= n {
        return None;
    }
    let mut acc: i128 = 0;
    let mut i: usize = start;
    proof {
        assert(body.take(0) =~= Seq::<char>::empty());
    }
    while i < n
        invariant
            cs@ == s@,
            n == s@.len(),
            start <= i <= n,
            start == sign_len(s@),
            neg == (s@.len() > 0 && s@[0] == '-'),
            body == s@.skip(start as int),
            all_digits(body.take(i - start)),
            acc == digits_value(body.take(i - start)),
            0 <= acc <= 0x8000_0000_0000_0000,
        decreases n - i,
    {
        let c = cs[i];
        proof {
            assert(body.take(i - start + 1).drop_last() =~= body.take(i - start));
            assert(body[i - start] == c);
        }
        if c < '0' || c > '9' {
            proof {
                assert(!all_digits(body));
            }
            return None;
        }
        let d = (c as u32 - '0' as u32) as i128;
        acc = acc * 10 + d;
        proof {
            assert(all_digits(body.take(i - start + 1)));
        }
        if acc > 0x8000_0000_0000_0000 {
            proof {
                lemma_digits_grow(body, (i - start + 1) as int);
            }
            return None;
        }
        i = i + 1;
    }
    proof {
        assert(body.take(i - start) =~= body);
    }
    if neg {
        Some((0 - acc) as i64)
    } else if acc > i64::MAX as i128 {
        None
    } else {
        Some(acc as i64)
    }
}

proof fn lemma_digits_grow(body: Seq<char>, k: int)
    requires
        0 < k <= body.len(),
        all_digits(body.take(k)),
        digits_value(body.take(k)) > 0x8000_0000_0000_0000,
    ensures
        !all_digits(body) || digits_value(body) > 0x8000_0000_0000_0000,
    decreases body.len() - k,
{
    if k < body.len() && all_digits(body) {
        assert(body.take(k + 1).drop_last() =~= body.take(k));
        assert(all_digits(body.take(k + 1)));
        lemma_digits_grow(body, k + 1);
    } else if k == body.len() {
        assert(body.take(k) =~= body);
    }
}

/// An amount expression of a transfer step.
pub enum AmountExpr {
    /// An integer literal.
    Number(i64),
    /// A number literal that is not a 64-bit integer, as its text; not an amount.
    Decimal(String),
    /// A boolean literal: true is 1, false is 0.
    Bool(bool),
    /// A string, interpolated then evaluated.
    Text(String),
    /// Any other value: not an amount.
    Other,
}

/// The value of an interpolated amount string.
pub open spec fn text_amount(x: Seq<char>, now_ms: int) -> Option<int> {
    if has_prefix(x, "hash("@) && has_suffix(x, ")"@) {
        Some(content_hash_of(x.subrange(5, x.len() - 1)))
    } else if x == "timestamp()"@ {
        Some(now_ms)
    } else if x == "true"@ {
        Some(1)
    } else if x == "false"@ {
        Some(0)
    } else {
        parse_int(x)
    }
}

/// The value of an amount expression; `now_ms` is the current time in
/// milliseconds, read by `timestamp()`.
pub open spec fn amount_value(e: AmountExpr, stored: Seq<(Seq<char>, Seq<char>)>, inputs: Seq<(Seq<char>, Seq<char>)>, now_ms: int) -> Option<int> {
    match e {
        AmountExpr::Number(n) => Some(n as int),
        AmountExpr::Decimal(_) => None,
        AmountExpr::Bool(b) => Some(if b { 1int } else { 0int }),
        AmountExpr::Text(s) => text_amount(interp(s@, stored, inputs), now_ms),
        AmountExpr::Other => None,
    }
}

/// Evaluates an amount expression at the time `now_ms`.
pub fn evaluate_amount_at(expr: &AmountExpr, inputs: &Vec<(String, Datum)>, stored: &Vec<(String, Datum)>, now_ms: i64) -> (r: Result<i64, SparkError>)
    ensures
        match amount_value(*expr, ctx_view(stored@), ctx_view(inputs@), now_ms as int) {
            Some(v) => r == Ok::<i64, SparkError>(v as i64) && v == v as i64,
            None => r == Err::<i64, SparkError>(SparkError::InvalidExpression),
        },
{
    match expr {
        AmountExpr::Number(n) => Ok(*n),
        AmountExpr::Decimal(_) => Err(SparkError::InvalidExpression),
        AmountExpr::Bool(b) => Ok(if *b { 1 } else { 0 }),
        AmountExpr::Text(s) => {
            let x = interpolate(s.as_str(), inputs, stored);
            if starts_with(x.as_str(), "hash(") && ends_with(x.as_str(), ")") {
                let n = x.as_str().unicode_len();
                proof {
                    reveal_strlit("hash(");
                    reveal_strlit(")");
                    assert(x@[4] == x@.subrange(0, 5)[4]);
                    assert(x@[n - 1] == x@.subrange(n - 1, n as int)[0]);
                }
                let inner = x.as_str().substring_char(5, n - 1);
                Ok(content_hash(inner))
            } else if str_eq(x.as_str(), "timestamp()") {
                Ok(now_ms)
            } else if str_eq(x.as_str(), "true") {
                Ok(1)
            } else if str_eq(x.as_str(), "false") {
                Ok(0)
            } else {
                match parse_i64(x.as_str()) {
                    Some(v) => Ok(v),
                    None => Err(SparkError::InvalidExpression),
                }
            }
        },
        AmountExpr::Other => Err(SparkError::InvalidExpression),
    }
}

/// The text form of an amount expression, stored as a blob for text fields.
pub open spec fn amount_text(e: AmountExpr) -> Option<Seq<char>> {
    match e {
        AmountExpr::Number(n) => Some(dec_int(n as int)),
        AmountExpr::Decimal(s) => Some(s@),
        AmountExpr::Bool(b) => Some(if b { "true"@ } else { "false"@ }),
        AmountExpr::Text(s) => Some(s@),
        AmountExpr::Other => None,
    }
}

/// The text form of an amount expression, before interpolation.
pub fn amount_as_text(e: &AmountExpr) -> (r: Option<String>)
    ensures
        match r {
            Some(t) => amount_text(*e) == Some(t@),
            None => amount_text(*e) is None,
        },
{
    match e {
        AmountExpr::Number(n) => Some(render_int(*n)),
        AmountExpr::Decimal(s) => Some(s.clone()),
        AmountExpr::Bool(b) => Some(if *b { String::from_str("true") } else { String::from_str("false") }),
        AmountExpr::Text(s) => Some(s.clone()),
        AmountExpr::Other => None,
    }
}

/// Whether a balance meets a condition: `> 0`, `== <int>` or `>= <int>`. Any
/// other condition is not checked.
pub open spec fn condition_outcome(cond: Seq<char>, balance: int) -> Result<(), SparkError> {
    if cond == "> 0"@ {
        if balance > 0 { Ok(()) } else { Err(SparkError::ConditionFailed) }
    } else if has_prefix(cond, "== "@) {
        match parse_int(cond.skip(3)) {
            None => Err(SparkError::InvalidExpression),
            Some(v) => if balance == v { Ok(()) } else { Err(SparkError::ConditionFailed) },
        }
    } else if has_prefix(cond, ">= "@) {
        match parse_int(cond.skip(3)) {
            None => Err(SparkError::InvalidExpression),
            Some(v) => if balance >= v { Ok(()) } else { Err(SparkError::ConditionFailed) },
        }
    } else {
        Ok(())
    }
}

/// Checks a balance against a condition.
pub fn check_condition(cond: &str, balance: i64) -> (r: Result<(), SparkError>)
    ensures
        r == condition_outcome(cond@, balance as int),
{
    if str_eq(cond, "> 0") {
        if balance > 0 { Ok(()) } else { Err(SparkError::ConditionFailed) }
    } else if starts_with(cond, "== ") || starts_with(cond, ">= ") {
        let n = cond.unicode_len();
        proof {
            reveal_strlit("== ");
            reveal_strlit(">= ");
        }
        let rest = cond.substring_char(3, n);
        proof {
            assert(rest@ =~= cond@.skip(3));
        }
        match parse_i64(rest) {
            None => Err(SparkError::InvalidExpression),
            Some(v) => {
                let ok = if starts_with(cond, "== ") { balance == v } else { balance >= v };
                if ok { Ok(()) } else { Err(SparkError::ConditionFailed) }
            },
        }
    } else {
        Ok(())
    }
}

} // verus!
