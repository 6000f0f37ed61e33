//! Key contexts: boolean expressions over identifiers, such as `editor && mode == insert`.
use vstd::prelude::*;

use crate::error::{KeymapError, KeymapErrorView};
use crate::text::{
    char_is_alphanumeric, char_is_numeric, char_is_whitespace, chars_to_string, str_to_chars,
    char_alphanumeric, char_numeric, unicode_white_space,
};

verus! {

/// A predicate on the context that a key binding applies in.
#[derive(Debug, PartialEq, Eq)]
pub enum KeyContext {
    Ident(String),
    Eq(String, String),
    NEq(String, String),
    Not(Box<KeyContext>),
    And(Box<KeyContext>, Box<KeyContext>),
    Or(Box<KeyContext>, Box<KeyContext>),
}

/// The mathematical value of a `KeyContext`.
pub enum KeyContextView {
    Ident(Seq<char>),
    Eq(Seq<char>, Seq<char>),
    NEq(Seq<char>, Seq<char>),
    Not(Box<KeyContextView>),
    And(Box<KeyContextView>, Box<KeyContextView>),
    Or(Box<KeyContextView>, Box<KeyContextView>),
}

impl KeyContext {
    pub open spec fn view_of(self) -> KeyContextView
        decreases self,
    {
        match self {
            KeyContext::Ident(a) => KeyContextView::Ident(a@),
            KeyContext::Eq(a, b) => KeyContextView::Eq(a@, b@),
            KeyContext::NEq(a, b) => KeyContextView::NEq(a@, b@),
            KeyContext::Not(x) => KeyContextView::Not(Box::new((*x).view_of())),
            KeyContext::And(x, y) => KeyContextView::And(
                Box::new((*x).view_of()),
                Box::new((*y).view_of()),
            ),
            KeyContext::Or(x, y) => KeyContextView::Or(
                Box::new((*x).view_of()),
                Box::new((*y).view_of()),
            ),
        }
    }
}

impl View for KeyContext {
    type V = KeyContextView;

    open spec fn view(&self) -> KeyContextView {
        self.view_of()
    }
}

/// Binding strength of `||`.
pub const PRECEDENCE_OR: u32 = 2;

/// Binding strength of `&&`.
pub const PRECEDENCE_AND: u32 = 3;

/// Binding strength of `==` and `!=`.
pub const PRECEDENCE_EQ: u32 = 4;

/// Binding strength of `!`.
pub const PRECEDENCE_NOT: u32 = 5;

/// The binary operators, in the order the parser tries them.
#[derive(Clone, Copy, Debug, PartialEq, Eq, Structural)]
pub enum Operator {
    And,
    Or,
    Eq,
    NEq,
}

/// A character of an identifier: alphanumeric, or `_`.
pub open spec fn is_ident_char(c: char) -> bool {
    char_alphanumeric(c) || c == '_'
}

/// A character that may start an identifier: one that is not numeric.
pub open spec fn is_ident_start_char(c: char) -> bool {
    !char_numeric(c) && is_ident_char(c)
}

/// The first position at or after `pos` that holds no white space.
pub open spec fn skip_white_space(src: Seq<char>, pos: int) -> int
    decreases src.len() - pos,
{
    if pos < 0 || pos >= src.len() || !unicode_white_space(src[pos]) {
        pos
    } else {
        skip_white_space(src, pos + 1)
    }
}

/// The first position at or after `pos` that holds no identifier character.
pub open spec fn ident_end(src: Seq<char>, pos: int) -> int
    decreases src.len() - pos,
{
    if pos < 0 || pos >= src.len() || !is_ident_char(src[pos]) {
        pos
    } else {
        ident_end(src, pos + 1)
    }
}

pub proof fn lemma_skip_white_space_bounds(src: Seq<char>, pos: int)
    requires
        0 <= pos <= src.len(),
    ensures
        pos <= skip_white_space(src, pos) <= src.len(),
    decreases src.len() - pos,
{
    if pos < src.len() && unicode_white_space(src[pos]) {
        lemma_skip_white_space_bounds(src, pos + 1);
    }
}

pub proof fn lemma_ident_end_bounds(src: Seq<char>, pos: int)
    requires
        0 <= pos <= src.len(),
    ensures
        pos <= ident_end(src, pos) <= src.len(),
    decreases src.len() - pos,
{
    if pos < src.len() && is_ident_char(src[pos]) {
        lemma_ident_end_bounds(src, pos + 1);
    }
}

pub open spec fn starts_with_pair(src: Seq<char>, pos: int, a: char, b: char) -> bool {
    0 <= pos && pos + 1 < src.len() && src[pos] == a && src[pos + 1] == b
}

pub open spec fn operator_precedence(op: Operator) -> u32 {
    match op {
        Operator::And => PRECEDENCE_AND,
        Operator::Or => PRECEDENCE_OR,
        Operator::Eq => PRECEDENCE_EQ,
        Operator::NEq => PRECEDENCE_EQ,
    }
}

/// The first operator, in the order `&&`, `||`, `==`, `!=`, that the text at `pos`
/// starts with and that binds at least as strongly as `min`.
pub open spec fn operator_at(src: Seq<char>, pos: int, min: u32) -> Option<Operator> {
    if starts_with_pair(src, pos, '&', '&') && PRECEDENCE_AND >= min {
        Some(Operator::And)
    } else if starts_with_pair(src, pos, '|', '|') && PRECEDENCE_OR >= min {
        Some(Operator::Or)
    } else if starts_with_pair(src, pos, '=', '=') && PRECEDENCE_EQ >= min {
        Some(Operator::Eq)
    } else if starts_with_pair(src, pos, '!', '=') && PRECEDENCE_EQ >= min {
        Some(Operator::NEq)
    } else {
        None
    }
}

/// The context that `op` builds from its operands; `==` and `!=` take identifiers only.
pub open spec fn combine(op: Operator, lhs: KeyContextView, rhs: KeyContextView) -> Result<
    KeyContextView,
    KeymapErrorView,
> {
    match op {
        Operator::And => Ok(KeyContextView::And(Box::new(lhs), Box::new(rhs))),
        Operator::Or => Ok(KeyContextView::Or(Box::new(lhs), Box::new(rhs))),
        Operator::Eq => match (lhs, rhs) {
            (KeyContextView::Ident(a), KeyContextView::Ident(b)) => Ok(KeyContextView::Eq(a, b)),
            _ => Err(KeymapErrorView::IdentExpected(Box::new(lhs), Box::new(rhs))),
        },
        Operator::NEq => match (lhs, rhs) {
            (KeyContextView::Ident(a), KeyContextView::Ident(b)) => Ok(KeyContextView::NEq(a, b)),
            _ => Err(KeymapErrorView::IdentExpected(Box::new(lhs), Box::new(rhs))),
        },
    }
}

/// A parse result: the context read and the position after it.
pub type ParseResult = Result<(KeyContextView, int), KeymapErrorView>;

/// An operand at `pos`: `!` and an operand, or an identifier; white space after an
/// identifier is skipped.
pub open spec fn parse_primary(src: Seq<char>, pos: int) -> ParseResult
    decreases src.len() - pos, 1int,
{
    if pos < 0 || pos >= src.len() {
        Err(KeymapErrorView::UnexpectedEnd)
    } else {
        let c = src[pos];
        if c == '!' {
            match parse_expr(src, pos + 1, PRECEDENCE_NOT) {
                Ok((v, p)) => Ok((KeyContextView::Not(Box::new(v)), p)),
                Err(e) => Err(e),
            }
        } else if is_ident_start_char(c) {
            let e = ident_end(src, pos);
            Ok((KeyContextView::Ident(src.subrange(pos, e)), skip_white_space(src, e)))
        } else {
            Err(KeymapErrorView::UnexpectedChar(c))
        }
    }
}

/// An expression at `pos` whose operators bind at least as strongly as `min`;
/// operators of equal strength group to the right.
pub open spec fn parse_expr(src: Seq<char>, pos: int, min: u32) -> ParseResult
    decreases src.len() - pos, 2int,
{
    match parse_primary(src, pos) {
        Err(e) => Err(e),
        Ok((lhs, p1)) => if pos < p1 && p1 <= src.len() {
            parse_operators(src, p1, min, lhs)
        } else {
            Err(KeymapErrorView::UnexpectedEnd)
        },
    }
}

/// The rest of an expression whose left operand `lhs` ends at `pos`.
pub open spec fn parse_operators(src: Seq<char>, pos: int, min: u32, lhs: KeyContextView) -> ParseResult
    decreases src.len() - pos, 0int,
{
    if pos < 0 || pos > src.len() {
        Err(KeymapErrorView::UnexpectedEnd)
    } else {
        match operator_at(src, pos, min) {
            None => Ok((lhs, pos)),
            Some(op) => {
                let p = skip_white_space(src, pos + 2);
                proof {
                    lemma_skip_white_space_bounds(src, pos + 2);
                }
                match parse_expr(src, p, min) {
                    Err(e) => Err(e),
                    Ok((rhs, p2)) => match combine(op, lhs, rhs) {
                        Err(e) => Err(e),
                        Ok(l2) => if pos < p2 && p2 <= src.len() {
                            parse_operators(src, p2, min, l2)
                        } else {
                            Err(KeymapErrorView::UnexpectedEnd)
                        },
                    },
                }
            },
        }
    }
}

/// The key context that `source` denotes, or why it denotes none.
pub open spec fn parse_key_context(source: Seq<char>) -> Result<KeyContextView, KeymapErrorView> {
    match parse_expr(source, skip_white_space(source, 0), 0) {
        Err(e) => Err(e),
        Ok((v, p)) => if p < source.len() {
            Err(KeymapErrorView::Unexpected(source.subrange(p, source.len() as int)))
        } else {
            Ok(v)
        },
    }
}

/// Whether `n` is an identifier written in `src`: not empty, starting with an
/// identifier start character, made of identifier characters, and found in `src`.
pub open spec fn is_identifier_in(n: Seq<char>, src: Seq<char>) -> bool {
    &&& n.len() > 0
    &&& is_ident_start_char(n[0])
    &&& forall|i: int| 0 <= i < n.len() ==> is_ident_char(#[trigger] n[i])
    &&& exists|i: int| 0 <= i && i + n.len() <= src.len() && #[trigger] src.subrange(i, i + n.len()) == n
}

/// Whether every name in the context is an identifier written in `src`.
pub open spec fn names_are_identifiers(v: KeyContextView, src: Seq<char>) -> bool
    decreases v,
{
    match v {
        KeyContextView::Ident(a) => is_identifier_in(a, src),
        KeyContextView::Eq(a, b) => is_identifier_in(a, src) && is_identifier_in(b, src),
        KeyContextView::NEq(a, b) => is_identifier_in(a, src) && is_identifier_in(b, src),
        KeyContextView::Not(x) => names_are_identifiers(*x, src),
        KeyContextView::And(x, y) => names_are_identifiers(*x, src) && names_are_identifiers(*y, src),
        KeyContextView::Or(x, y) => names_are_identifiers(*x, src) && names_are_identifiers(*y, src),
    }
}

proof fn lemma_ident_end_chars(src: Seq<char>, pos: int, k: int)
    requires
        0 <= pos <= k < ident_end(src, pos),
    ensures
        is_ident_char(src[k]),
    decreases src.len() - pos,
{
    if k > pos {
        lemma_ident_end_chars(src, pos + 1, k);
    }
}

proof fn lemma_primary_names(src: Seq<char>, pos: int)
    ensures
        parse_primary(src, pos) matches Ok((v, p)) ==> names_are_identifiers(v, src),
    decreases src.len() - pos, 1int,
{
    if 0 <= pos < src.len() {
        let c = src[pos];
        if c == '!' {
            lemma_expr_names(src, pos + 1, PRECEDENCE_NOT);
        } else if is_ident_start_char(c) {
            let e = ident_end(src, pos);
            lemma_ident_end_bounds(src, pos);
            assert(ident_end(src, pos) == ident_end(src, pos + 1));
            lemma_ident_end_bounds(src, pos + 1);
            let n = src.subrange(pos, e);
            assert forall|i: int| 0 <= i < n.len() implies is_ident_char(#[trigger] n[i]) by {
                lemma_ident_end_chars(src, pos, pos + i);
            }
            assert(src.subrange(pos, pos + n.len()) == n);
        }
    }
}

proof fn lemma_expr_names(src: Seq<char>, pos: int, min: u32)
    ensures
        parse_expr(src, pos, min) matches Ok((v, p)) ==> names_are_identifiers(v, src),
    decreases src.len() - pos, 2int,
{
    lemma_primary_names(src, pos);
    match parse_primary(src, pos) {
        Ok((lhs, p1)) => if pos < p1 && p1 <= src.len() {
            lemma_operators_names(src, p1, min, lhs);
        },
        Err(_) => {},
    }
}

proof fn lemma_operators_names(src: Seq<char>, pos: int, min: u32, lhs: KeyContextView)
    requires
        names_are_identifiers(lhs, src),
    ensures
        parse_operators(src, pos, min, lhs) matches Ok((v, p)) ==> names_are_identifiers(v, src),
    decreases src.len() - pos, 0int,
{
    if 0 <= pos <= src.len() {
        match operator_at(src, pos, min) {
            None => {},
            Some(op) => {
                let p = skip_white_space(src, pos + 2);
                lemma_skip_white_space_bounds(src, pos + 2);
                lemma_expr_names(src, p, min);
                match parse_expr(src, p, min) {
                    Err(_) => {},
                    Ok((rhs, p2)) => match combine(op, lhs, rhs) {
                        Err(_) => {},
                        Ok(l2) => if pos < p2 && p2 <= src.len() {
                            lemma_operators_names(src, p2, min, l2);
                        },
                    },
                }
            },
        }
    }
}

/// Every name in a parsed key context, in `Ident`, `Eq` and `NEq` alike, is a
/// non-empty identifier taken from the text.
pub proof fn lemma_parsed_names_are_identifiers(source: Seq<char>)
    ensures
        parse_key_context(source) matches Ok(v) ==> names_are_identifiers(v, source),
{
    lemma_expr_names(source, skip_white_space(source, 0), 0);
}

/// The text of a binary operator.
pub open spec fn operator_text(op: Operator) -> Seq<char> {
    match op {
        Operator::And => seq!['&', '&'],
        Operator::Or => seq!['|', '|'],
        Operator::Eq => seq!['=', '='],
        Operator::NEq => seq!['!', '='],
    }
}

/// An identifier with no white space in it.
pub open spec fn is_plain_identifier(n: Seq<char>) -> bool {
    &&& n.len() > 0
    &&& is_ident_start_char(n[0])
    &&& forall|i: int| 0 <= i < n.len() ==> is_ident_char(#[trigger] n[i]) && !unicode_white_space(n[i])
}

proof fn lemma_ident_end_at(src: Seq<char>, pos: int, q: int)
    requires
        0 <= pos <= q <= src.len(),
        forall|k: int| pos <= k < q ==> is_ident_char(#[trigger] src[k]),
        q == src.len() || !is_ident_char(src[q]),
    ensures
        ident_end(src, pos) == q,
    decreases q - pos,
{
    if pos < q {
        lemma_ident_end_at(src, pos + 1, q);
    }
}

/// An identifier at `pos`, ending at `q`, followed by no white space (or by one
/// space and then no white space): it is read, with the white space after it.
proof fn lemma_primary_identifier(src: Seq<char>, pos: int, n: Seq<char>)
    requires
        is_plain_identifier(n),
        0 <= pos,
        pos + n.len() <= src.len(),
        src.subrange(pos, pos + n.len()) == n,
        pos + n.len() == src.len() || !is_ident_char(src[pos + n.len()]),
    ensures
        parse_primary(src, pos) == Ok::<_, KeymapErrorView>(
            (KeyContextView::Ident(n), skip_white_space(src, pos + n.len())),
        ),
{
    let q = pos + n.len();
    assert forall|k: int| pos <= k < q implies is_ident_char(#[trigger] src[k]) by {
        assert(src[k] == src.subrange(pos, q)[k - pos]);
    }
    assert(src[pos] == n[0]);
    lemma_ident_end_at(src, pos, q);
    assert(src[pos] != '!');
}

/// `!` binds tighter than every binary operator: `!a op b`, for identifiers `a`
/// and `b`, is `op` applied to `!a` and `b` (which `==` and `!=` refuse, taking
/// identifiers only).
pub proof fn lemma_not_binds_tightest(a: Seq<char>, b: Seq<char>, op: Operator)
    requires
        is_plain_identifier(a),
        is_plain_identifier(b),
    ensures
        parse_key_context(seq!['!'] + a + seq![' '] + operator_text(op) + seq![' '] + b) == combine(
            op,
            KeyContextView::Not(Box::new(KeyContextView::Ident(a))),
            KeyContextView::Ident(b),
        ),
{
    let t = operator_text(op);
    let src = seq!['!'] + a + seq![' '] + t + seq![' '] + b;
    let la = a.len() as int;
    let len = src.len() as int;
    assert(len == la + 5 + b.len());
    assert(src[0] == '!');
    assert(src[la + 1] == ' ');
    assert(src[la + 2] == t[0]);
    assert(src[la + 3] == t[1]);
    assert(src[la + 4] == ' ');
    assert(src.subrange(1, 1 + la) =~= a);
    assert(src.subrange(la + 5, len) =~= b);
    assert(src[la + 5] == b[0]);
    // The text starts with `!`.
    assert(skip_white_space(src, 0) == 0);
    // `!` reads `a` alone: no binary operator binds as strongly as `!`.
    lemma_primary_identifier(src, 1, a);
    assert(skip_white_space(src, la + 2) == la + 2);
    assert(skip_white_space(src, la + 1) == la + 2);
    assert(parse_primary(src, 1) == Ok::<_, KeymapErrorView>((KeyContextView::Ident(a), la + 2)));
    assert(operator_at(src, la + 2, PRECEDENCE_NOT) is None);
    assert(parse_operators(src, la + 2, PRECEDENCE_NOT, KeyContextView::Ident(a)) == Ok::<_, KeymapErrorView>(
        (KeyContextView::Ident(a), la + 2),
    ));
    assert(parse_expr(src, 1, PRECEDENCE_NOT) == Ok::<_, KeymapErrorView>((KeyContextView::Ident(a), la + 2)));
    let na = KeyContextView::Not(Box::new(KeyContextView::Ident(a)));
    assert(parse_primary(src, 0) == Ok::<_, KeymapErrorView>((na, la + 2)));
    // Then the operator, and `b` after it.
    assert(operator_at(src, la + 2, 0) == Some(op));
    assert(skip_white_space(src, la + 5) == la + 5);
    assert(skip_white_space(src, la + 4) == la + 5);
    lemma_primary_identifier(src, la + 5, b);
    assert(skip_white_space(src, len) == len);
    assert(parse_primary(src, la + 5) == Ok::<_, KeymapErrorView>((KeyContextView::Ident(b), len)));
    assert(operator_at(src, len, 0) is None);
    assert(parse_operators(src, len, 0, KeyContextView::Ident(b)) == Ok::<_, KeymapErrorView>(
        (KeyContextView::Ident(b), len),
    ));
    assert(parse_expr(src, la + 5, 0) == Ok::<_, KeymapErrorView>((KeyContextView::Ident(b), len)));
    match combine(op, na, KeyContextView::Ident(b)) {
        Ok(l2) => {
            assert(parse_operators(src, len, 0, l2) == Ok::<_, KeymapErrorView>((l2, len)));
        },
        Err(_) => {},
    }
    assert(parse_expr(src, 0, 0) == match combine(op, na, KeyContextView::Ident(b)) {
        Ok(l2) => Ok((l2, len)),
        Err(e) => Err(e),
    });
}

/// Binary operators group to the right, whatever their strength: `a op1 b op2 c`,
/// for identifiers `a`, `b` and `c`, is `op1` applied to `a` and to `b op2 c`.
pub proof fn lemma_operators_group_to_the_right(a: Seq<char>, b: Seq<char>, c: Seq<char>, op1: Operator, op2: Operator)
    requires
        is_plain_identifier(a),
        is_plain_identifier(b),
        is_plain_identifier(c),
    ensures
        parse_key_context(
            a + seq![' '] + operator_text(op1) + seq![' '] + b + seq![' '] + operator_text(op2) + seq![' '] + c,
        ) == match combine(op2, KeyContextView::Ident(b), KeyContextView::Ident(c)) {
            Ok(r) => combine(op1, KeyContextView::Ident(a), r),
            Err(e) => Err(e),
        },
{
    let t1 = operator_text(op1);
    let t2 = operator_text(op2);
    let src = a + seq![' '] + t1 + seq![' '] + b + seq![' '] + t2 + seq![' '] + c;
    let la = a.len() as int;
    let p2 = la + 4 + b.len();
    let len = src.len() as int;
    assert(len == p2 + 4 + c.len());
    assert(src[la] == ' ');
    assert(src[la + 1] == t1[0]);
    assert(src[la + 2] == t1[1]);
    assert(src[la + 3] == ' ');
    assert(src[p2] == ' ');
    assert(src[p2 + 1] == t2[0]);
    assert(src[p2 + 2] == t2[1]);
    assert(src[p2 + 3] == ' ');
    assert(src.subrange(0, la) =~= a);
    assert(src.subrange(la + 4, p2) =~= b);
    assert(src.subrange(p2 + 4, len) =~= c);
    assert(src[0] == a[0]);
    assert(src[la + 4] == b[0]);
    assert(src[p2 + 4] == c[0]);
    let ia = KeyContextView::Ident(a);
    let ib = KeyContextView::Ident(b);
    let ic = KeyContextView::Ident(c);
    assert(skip_white_space(src, 0) == 0);
    // `a`, then the first operator.
    lemma_primary_identifier(src, 0, a);
    assert(skip_white_space(src, la + 1) == la + 1);
    assert(skip_white_space(src, la) == la + 1);
    assert(parse_primary(src, 0) == Ok::<_, KeymapErrorView>((ia, la + 1)));
    assert(operator_at(src, la + 1, 0) == Some(op1));
    // `b`, then the second operator.
    assert(skip_white_space(src, la + 4) == la + 4);
    assert(skip_white_space(src, la + 3) == la + 4);
    lemma_primary_identifier(src, la + 4, b);
    assert(skip_white_space(src, p2 + 1) == p2 + 1);
    assert(skip_white_space(src, p2) == p2 + 1);
    assert(parse_primary(src, la + 4) == Ok::<_, KeymapErrorView>((ib, p2 + 1)));
    assert(operator_at(src, p2 + 1, 0) == Some(op2));
    // `c`, the end.
    assert(skip_white_space(src, p2 + 4) == p2 + 4);
    assert(skip_white_space(src, p2 + 3) == p2 + 4);
    lemma_primary_identifier(src, p2 + 4, c);
    assert(skip_white_space(src, len) == len);
    assert(parse_primary(src, p2 + 4) == Ok::<_, KeymapErrorView>((ic, len)));
    assert(operator_at(src, len, 0) is None);
    assert(parse_operators(src, len, 0, ic) == Ok::<_, KeymapErrorView>((ic, len)));
    assert(parse_expr(src, p2 + 4, 0) == Ok::<_, KeymapErrorView>((ic, len)));
    match combine(op2, ib, ic) {
        Ok(r) => {
            assert(parse_operators(src, len, 0, r) == Ok::<_, KeymapErrorView>((r, len)));
            assert(parse_operators(src, p2 + 1, 0, ib) == Ok::<_, KeymapErrorView>((r, len)));
            assert(parse_expr(src, la + 4, 0) == Ok::<_, KeymapErrorView>((r, len)));
            match combine(op1, ia, r) {
                Ok(l) => {
                    assert(parse_operators(src, len, 0, l) == Ok::<_, KeymapErrorView>((l, len)));
                },
                Err(_) => {},
            }
        },
        Err(_) => {},
    }
}

/// Whether `r` is the executable form of the spec result `s`, positions in bounds.
pub open spec fn result_matches(
    r: Result<(KeyContext, usize), KeymapError>,
    s: ParseResult,
    pos: int,
    len: int,
) -> bool {
    match s {
        Ok((v, p)) => r matches Ok((k, q)) && k@ == v && q == p && pos < q <= len,
        Err(e) => r matches Err(x) && x@ == e,
    }
}

pub fn is_ident_char_exec(c: char) -> (r: bool)
    ensures
        r == is_ident_char(c),
{
    char_is_alphanumeric(c) || c == '_'
}

pub fn is_ident_start_char_exec(c: char) -> (r: bool)
    ensures
        r == is_ident_start_char(c),
{
    !char_is_numeric(c) && is_ident_char_exec(c)
}

fn skip_white_space_exec(src: &Vec<char>, pos: usize) -> (r: usize)
    requires
        pos <= src.len(),
    ensures
        r == skip_white_space(src@, pos as int),
        pos <= r <= src.len(),
{
    let mut i = pos;
    while i < src.len() && char_is_whitespace(src[i])
        invariant
            pos <= i <= src.len(),
            skip_white_space(src@, pos as int) == skip_white_space(src@, i as int),
        decreases src.len() - i,
    {
        i = i + 1;
    }
    i
}

proof fn lemma_skip_white_space_skips(src: Seq<char>, pos: int, k: int)
    requires
        0 <= pos <= k < skip_white_space(src, pos),
    ensures
        unicode_white_space(src[k]),
    decreases src.len() - pos,
{
    if k > pos {
        lemma_skip_white_space_skips(src, pos + 1, k);
    }
}

proof fn lemma_skip_white_space_stops(src: Seq<char>, pos: int)
    requires
        0 <= pos <= src.len(),
    ensures
        skip_white_space(src, pos) < src.len() ==> !unicode_white_space(src[skip_white_space(src, pos)]),
    decreases src.len() - pos,
{
    if pos < src.len() && unicode_white_space(src[pos]) {
        lemma_skip_white_space_stops(src, pos + 1);
    }
}

/// The text without its leading white space: the longest end of it that is empty
/// or starts with a character that is not white space.
pub fn remove_whitespace(source: &str) -> (r: String)
    ensures
        r@ == source@.subrange(skip_white_space(source@, 0), source@.len() as int),
        r@.len() <= source@.len(),
        forall|k: int| 0 <= k < source@.len() - r@.len() ==> unicode_white_space(#[trigger] source@[k]),
        r@.len() > 0 ==> !unicode_white_space(r@[0]),
{
    let src = str_to_chars(source);
    let start = skip_white_space_exec(&src, 0);
    proof {
        lemma_skip_white_space_stops(src@, 0);
        assert forall|k: int| 0 <= k < start implies unicode_white_space(#[trigger] src@[k]) by {
            lemma_skip_white_space_skips(src@, 0, k);
        }
    }
    let rest = subrange_chars(&src, start, src.len());
    chars_to_string(&rest)
}

fn ident_end_exec(src: &Vec<char>, pos: usize) -> (r: usize)
    requires
        pos <= src.len(),
    ensures
        r == ident_end(src@, pos as int),
        pos <= r <= src.len(),
{
    let mut i = pos;
    while i < src.len() && is_ident_char_exec(src[i])
        invariant
            pos <= i <= src.len(),
            ident_end(src@, pos as int) == ident_end(src@, i as int),
        decreases src.len() - i,
    {
        i = i + 1;
    }
    i
}

fn subrange_chars(src: &Vec<char>, from: usize, to: usize) -> (r: Vec<char>)
    requires
        from <= to <= src.len(),
    ensures
        r@ == src@.subrange(from as int, to as int),
{
    let mut r: Vec<char> = Vec::new();
    let mut i = from;
    while i < to
        invariant
            from <= i <= to <= src.len(),
            r@ == src@.subrange(from as int, i as int),
        decreases to - i,
    {
        r.push(src[i]);
        i = i + 1;
        proof {
            assert(src@.subrange(from as int, i as int) =~= src@.subrange(from as int, i - 1).push(
                src@[i - 1],
            ));
        }
    }
    r
}

fn operator_at_exec(src: &Vec<char>, pos: usize, min: u32) -> (r: Option<Operator>)
    requires
        pos <= src.len(),
    ensures
        r == operator_at(src@, pos as int, min),
{
    let two = src.len() > 1 && pos < src.len() - 1;
    if two && src[pos] == '&' && src[pos + 1] == '&' && PRECEDENCE_AND >= min {
        Some(Operator::And)
    } else if two && src[pos] == '|' && src[pos + 1] == '|' && PRECEDENCE_OR >= min {
        Some(Operator::Or)
    } else if two && src[pos] == '=' && src[pos + 1] == '=' && PRECEDENCE_EQ >= min {
        Some(Operator::Eq)
    } else if two && src[pos] == '!' && src[pos + 1] == '=' && PRECEDENCE_EQ >= min {
        Some(Operator::NEq)
    } else {
        None
    }
}

impl KeyContext {
    /// `lhs && rhs`.
    pub fn new_and(self, other: Self) -> (r: Result<Self, KeymapError>)
        ensures
            r matches Ok(k) && k@ == KeyContextView::And(Box::new(self@), Box::new(other@)),
    {
        Ok(KeyContext::And(Box::new(self), Box::new(other)))
    }

    /// `lhs || rhs`.
    pub fn new_or(self, other: Self) -> (r: Result<Self, KeymapError>)
        ensures
            r matches Ok(k) && k@ == KeyContextView::Or(Box::new(self@), Box::new(other@)),
    {
        Ok(KeyContext::Or(Box::new(self), Box::new(other)))
    }

    /// `lhs == rhs`, for two identifiers; otherwise the error holds both operands.
    pub fn new_eq(self, other: Self) -> (r: Result<Self, KeymapError>)
        ensures
            match combine(Operator::Eq, self@, other@) {
                Ok(v) => r matches Ok(k) && k@ == v,
                Err(e) => r matches Err(x) && x@ == e,
            },
    {
        match self {
            KeyContext::Ident(a) => match other {
                KeyContext::Ident(b) => Ok(KeyContext::Eq(a, b)),
                rhs => Err(KeymapError::IdentExpected(Box::new(KeyContext::Ident(a)), Box::new(rhs))),
            },
            lhs => Err(KeymapError::IdentExpected(Box::new(lhs), Box::new(other))),
        }
    }

    /// `lhs != rhs`, for two identifiers; otherwise the error holds both operands.
    pub fn new_neq(self, other: Self) -> (r: Result<Self, KeymapError>)
        ensures
            match combine(Operator::NEq, self@, other@) {
                Ok(v) => r matches Ok(k) && k@ == v,
                Err(e) => r matches Err(x) && x@ == e,
            },
    {
        match self {
            KeyContext::Ident(a) => match other {
                KeyContext::Ident(b) => Ok(KeyContext::NEq(a, b)),
                rhs => Err(KeymapError::IdentExpected(Box::new(KeyContext::Ident(a)), Box::new(rhs))),
            },
            lhs => Err(KeymapError::IdentExpected(Box::new(lhs), Box::new(other))),
        }
    }

    fn combine_exec(op: Operator, lhs: Self, rhs: Self) -> (r: Result<Self, KeymapError>)
        ensures
            match combine(op, lhs@, rhs@) {
                Ok(v) => r matches Ok(k) && k@ == v,
                Err(e) => r matches Err(x) && x@ == e,
            },
    {
        match op {
            Operator::And => lhs.new_and(rhs),
            Operator::Or => lhs.new_or(rhs),
            Operator::Eq => lhs.new_eq(rhs),
            Operator::NEq => lhs.new_neq(rhs),
        }
    }

    /// Parses a whole key context; text left over after the expression is refused.
    pub fn parse(source: &str) -> (r: Result<Self, KeymapError>)
        ensures
            match parse_key_context(source@) {
                Ok(v) => r matches Ok(k) && k@ == v,
                Err(e) => r matches Err(x) && x@ == e,
            },
    {
        let src = str_to_chars(source);
        let start = skip_white_space_exec(&src, 0);
        match Self::parse_expr(&src, start, 0) {
            Err(e) => Err(e),
            Ok((v, p)) => if p < src.len() {
                let rest = subrange_chars(&src, p, src.len());
                Err(KeymapError::Unexpected(chars_to_string(&rest)))
            } else {
                Ok(v)
            },
        }
    }

    /// Parses an expression at `pos` whose operators bind at least as strongly as `min`.
    pub fn parse_expr(src: &Vec<char>, pos: usize, min: u32) -> (r: Result<(Self, usize), KeymapError>)
        requires
            pos <= src.len(),
        ensures
            result_matches(r, parse_expr(src@, pos as int, min), pos as int, src.len() as int),
        decreases src.len() - pos, 2int,
    {
        match Self::parse_primary(src, pos) {
            Err(e) => Err(e),
            Ok((lhs, p1)) => Self::parse_operators(src, p1, min, lhs, pos),
        }
    }

    fn parse_operators(src: &Vec<char>, pos: usize, min: u32, lhs: Self, start: usize) -> (r: Result<
        (Self, usize),
        KeymapError,
    >)
        requires
            start < pos <= src.len(),
        ensures
            match parse_operators(src@, pos as int, min, lhs@) {
                Ok((v, p)) => r matches Ok((k, q)) && k@ == v && q == p && pos <= q <= src.len(),
                Err(e) => r matches Err(x) && x@ == e,
            },
        decreases src.len() - pos, 0int,
    {
        match operator_at_exec(src, pos, min) {
            None => Ok((lhs, pos)),
            Some(op) => {
                let p = skip_white_space_exec(src, pos + 2);
                match Self::parse_expr(src, p, min) {
                    Err(e) => Err(e),
                    Ok((rhs, p2)) => match Self::combine_exec(op, lhs, rhs) {
                        Err(e) => Err(e),
                        Ok(l2) => Self::parse_operators(src, p2, min, l2, pos),
                    },
                }
            },
        }
    }

    /// Parses an operand at `pos`.
    pub fn parse_primary(src: &Vec<char>, pos: usize) -> (r: Result<(Self, usize), KeymapError>)
        requires
            pos <= src.len(),
        ensures
            result_matches(r, parse_primary(src@, pos as int), pos as int, src.len() as int),
        decreases src.len() - pos, 1int,
    {
        if pos >= src.len() {
            return Err(KeymapError::UnexpectedEnd);
        }
        let c = src[pos];
        if c == '!' {
            match Self::parse_expr(src, pos + 1, PRECEDENCE_NOT) {
                Ok((v, p)) => Ok((KeyContext::Not(Box::new(v)), p)),
                Err(e) => Err(e),
            }
        } else if is_ident_start_char_exec(c) {
            let e = ident_end_exec(src, pos);
            proof {
                assert(ident_end(src@, pos as int) == ident_end(src@, pos + 1));
                lemma_ident_end_bounds(src@, pos + 1);
            }
            let ident = subrange_chars(src, pos, e);
            let rest = skip_white_space_exec(src, e);
            Ok((KeyContext::Ident(chars_to_string(&ident)), rest))
        } else {
            Err(KeymapError::UnexpectedChar(c))
        }
    }
}

} // verus!
