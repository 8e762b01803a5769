//! What the operators do with values.

use super::float::{
    float_negation, float_order, negate_float, order_floats, Answers, FloatOp, FloatTable,
    Question, QuestionView,
};
use super::heap::State;
use super::registry::{Decls, Registry};
use super::show::{bool_order, compare_values, compared, label_of, order_bools, type_label};
use super::value::{
    fail, failure, lemma_vals_empty, lemma_vals_push, seen, seen_vals, vals, Halt, Stop, Val,
    Value, World,
};
use crate::ast::{BinOp, UnOp};
use crate::integer::{
    difference, div_rem, from_usize, is_negative, is_zero, negated, order, power, product,
    remainder, sum, to_u32, truncated_quotient, truncated_remainder, Integer,
};
use crate::text::{cat2, cat3, cat5, int_order, order_texts, signed_decimal, text_order, Order};
use crate::token::Span;
use vstd::arithmetic::power::pow;
use vstd::prelude::*;
use vstd::string::*;

verus! {

broadcast use {lemma_vals_push, lemma_vals_empty};

pub open spec fn is_arith(op: BinOp) -> bool {
    match op {
        BinOp::Add => true,
        BinOp::Sub => true,
        BinOp::Mul => true,
        BinOp::Div => true,
        BinOp::Rem => true,
        BinOp::Pow => true,
        _ => false,
    }
}

pub open spec fn is_comparison(op: BinOp) -> bool {
    match op {
        BinOp::Lt => true,
        BinOp::LtEq => true,
        BinOp::Gt => true,
        BinOp::GtEq => true,
        _ => false,
    }
}

/// The sign of an arithmetic operator.
pub open spec fn symbol_of(op: BinOp) -> Seq<char> {
    match op {
        BinOp::Add => "+"@,
        BinOp::Sub => "-"@,
        BinOp::Mul => "*"@,
        BinOp::Div => "/"@,
        BinOp::Rem => "%"@,
        BinOp::Pow => "**"@,
        _ => "?"@,
    }
}

/// The sign of an arithmetic operator.
pub fn binop_symbol(op: BinOp) -> (r: &'static str)
    ensures
        r@ == symbol_of(op),
{
    match op {
        BinOp::Add => "+",
        BinOp::Sub => "-",
        BinOp::Mul => "*",
        BinOp::Div => "/",
        BinOp::Rem => "%",
        BinOp::Pow => "**",
        _ => "?",
    }
}

/// Integer arithmetic. A division must leave nothing over, and an exponent must
/// not be negative.
pub open spec fn int_result(op: BinOp, a: int, b: int, span: Span) -> Result<Val, Halt> {
    match op {
        BinOp::Add => Ok(Val::Int(a + b)),
        BinOp::Sub => Ok(Val::Int(a - b)),
        BinOp::Mul => Ok(Val::Int(a * b)),
        BinOp::Div => if b == 0 {
            Err(failure("division by zero"@, span))
        } else if truncated_remainder(a, b) != 0 {
            Err(
                failure(
                    "Int division `"@ + signed_decimal(a) + " / "@ + signed_decimal(b)
                        + "` is not exact (use Float division)"@,
                    span,
                ),
            )
        } else {
            Ok(Val::Int(truncated_quotient(a, b)))
        },
        BinOp::Rem => if b == 0 {
            Err(failure("remainder by zero"@, span))
        } else {
            Ok(Val::Int(truncated_remainder(a, b)))
        },
        _ => if b < 0 {
            Err(failure("negative Int exponent (use Float)"@, span))
        } else if b > u32::MAX {
            Err(failure("exponent too large"@, span))
        } else {
            Ok(Val::Int(pow(a, b as nat)))
        },
    }
}

/// Integer arithmetic.
pub fn int_arith(op: BinOp, a: &Integer, b: &Integer, span: Span) -> (r: Result<Value, Stop>)
    requires
        is_arith(op),
    ensures
        seen(r) == int_result(op, a@, b@, span),
{
    match op {
        BinOp::Add => Ok(Value::Int(sum(a, b))),
        BinOp::Sub => Ok(Value::Int(difference(a, b))),
        BinOp::Mul => Ok(Value::Int(product(a, b))),
        BinOp::Div => {
            if is_zero(b) {
                return Err(fail("division by zero".to_owned(), span));
            }
            let (q, left) = div_rem(a, b);
            if !is_zero(&left) {
                return Err(
                    fail(
                        cat5(
                            "Int division `",
                            a.to_text().as_str(),
                            " / ",
                            b.to_text().as_str(),
                            "` is not exact (use Float division)",
                        ),
                        span,
                    ),
                );
            }
            Ok(Value::Int(q))
        },
        BinOp::Rem => {
            if is_zero(b) {
                return Err(fail("remainder by zero".to_owned(), span));
            }
            Ok(Value::Int(remainder(a, b)))
        },
        _ => {
            if is_negative(b) {
                return Err(fail("negative Int exponent (use Float)".to_owned(), span));
            }
            match to_u32(b) {
                Some(e) => Ok(Value::Int(power(a, e))),
                None => Err(fail("exponent too large".to_owned(), span)),
            }
        },
    }
}

/// The host's operation for an arithmetic operator.
pub open spec fn host_op(op: BinOp) -> FloatOp {
    match op {
        BinOp::Add => FloatOp::Add,
        BinOp::Sub => FloatOp::Sub,
        BinOp::Mul => FloatOp::Mul,
        BinOp::Div => FloatOp::Div,
        BinOp::Rem => FloatOp::Rem,
        _ => FloatOp::Pow,
    }
}

/// Float arithmetic: what the host answers.
pub open spec fn float_result(ans: Answers, op: FloatOp, a: u64, b: u64) -> Result<u64, Halt> {
    match ans.arith_answer(op, a, b) {
        Some(bits) => Ok(bits),
        None => Err(Halt::Ask(QuestionView::Arith { op, a, b })),
    }
}

/// Float arithmetic: what the host answers.
pub fn float_arith(table: &FloatTable, op: FloatOp, a: u64, b: u64) -> (r: Result<u64, Stop>)
    ensures
        seen(r) == float_result(table@, op, a, b),
{
    match table.find_arith(op, a, b) {
        Some(bits) => Ok(bits),
        None => Err(Stop::Ask(Question::Arith { op, a, b })),
    }
}

fn float_op(op: BinOp) -> (r: FloatOp)
    ensures
        r == host_op(op),
{
    match op {
        BinOp::Add => FloatOp::Add,
        BinOp::Sub => FloatOp::Sub,
        BinOp::Mul => FloatOp::Mul,
        BinOp::Div => FloatOp::Div,
        BinOp::Rem => FloatOp::Rem,
        _ => FloatOp::Pow,
    }
}

/// `l op r` for an arithmetic operator. Integers and floats do not mix, and `+`
/// joins texts.
pub open spec fn arith_result(ans: Answers, op: BinOp, l: Val, r: Val, span: Span) -> Result<
    Val,
    Halt,
> {
    match (l, r) {
        (Val::Int(a), Val::Int(b)) => int_result(op, a, b, span),
        (Val::Float(a), Val::Float(b)) => match float_result(ans, host_op(op), a, b) {
            Ok(bits) => Ok(Val::Float(bits)),
            Err(h) => Err(h),
        },
        (Val::Int(_), Val::Float(_)) => Err(failure(mixed_message(), span)),
        (Val::Float(_), Val::Int(_)) => Err(failure(mixed_message(), span)),
        _ => if l is Str && r is Str && op == BinOp::Add {
            Ok(Val::Str(l->Str_0 + r->Str_0))
        } else {
            Err(
                failure(
                    "cannot apply `"@ + symbol_of(op) + "` to "@ + label_of(l) + " and "@
                        + label_of(r),
                    span,
                ),
            )
        },
    }
}

pub open spec fn mixed_message() -> Seq<char> {
    "mixed Int/Float arithmetic is not allowed (convert explicitly)"@
}

/// `l op r` for an arithmetic operator.
pub fn eval_arith(
    table: &FloatTable,
    op: BinOp,
    l: &Value,
    r: &Value,
    span: Span,
) -> (res: Result<Value, Stop>)
    requires
        is_arith(op),
    ensures
        seen(res) == arith_result(table@, op, l@, r@, span),
{
    match (l, r) {
        (Value::Int(a), Value::Int(b)) => int_arith(op, a, b, span),
        (Value::Float(a), Value::Float(b)) => {
            let bits = float_arith(table, float_op(op), *a, *b)?;
            Ok(Value::Float(bits))
        },
        (Value::Int(_), Value::Float(_)) => Err(
            fail(
                "mixed Int/Float arithmetic is not allowed (convert explicitly)".to_owned(),
                span,
            ),
        ),
        (Value::Float(_), Value::Int(_)) => Err(
            fail(
                "mixed Int/Float arithmetic is not allowed (convert explicitly)".to_owned(),
                span,
            ),
        ),
        _ => {
            if let (Value::Str(a), Value::Str(b)) = (l, r) {
                if op == BinOp::Add {
                    return Ok(Value::Str(cat2(a.as_str(), b.as_str())));
                }
            }
            Err(
                fail(
                    cat2(
                        cat5(
                            "cannot apply `",
                            binop_symbol(op),
                            "` to ",
                            type_label(l),
                            " and ",
                        ).as_str(),
                        type_label(r),
                    ),
                    span,
                ),
            )
        },
    }
}

/// Whether a comparison holds of two things that order so.
pub open spec fn order_holds(op: BinOp, o: Order) -> bool {
    match op {
        BinOp::Lt => o == Order::Less,
        BinOp::LtEq => o == Order::Less || o == Order::Equal,
        BinOp::Gt => o == Order::Greater,
        _ => o == Order::Greater || o == Order::Equal,
    }
}

/// How the operands of a comparison order; `None` where one is NaN. They must be
/// of one type: an integer is not turned into a float.
pub open spec fn operands_order(
    reg: Decls,
    w: World,
    fuel: nat,
    l: Val,
    r: Val,
    span: Span,
) -> Result<Option<Order>, Halt> {
    match (l, r) {
        (Val::Int(a), Val::Int(b)) => Ok(Some(int_order(a, b))),
        (Val::Float(a), Val::Float(b)) => Ok(float_order(a, b)),
        (Val::Str(a), Val::Str(b)) => Ok(Some(text_order(a, b))),
        (Val::Bool(a), Val::Bool(b)) => Ok(Some(bool_order(a, b))),
        _ => if (l is Struct && r is Struct) || (l is Enum && r is Enum) {
            match compared(reg, w, fuel, l, r, span) {
                Ok(o) => Ok(Some(o)),
                Err(h) => Err(h),
            }
        } else {
            Err(failure("cannot compare "@ + label_of(l) + " and "@ + label_of(r), span))
        },
    }
}

/// `l op r` for a comparison: no comparison with a NaN holds.
pub open spec fn compare_result(
    reg: Decls,
    w: World,
    fuel: nat,
    op: BinOp,
    l: Val,
    r: Val,
    span: Span,
) -> Result<Val, Halt> {
    match operands_order(reg, w, fuel, l, r, span) {
        Ok(Some(o)) => Ok(Val::Bool(order_holds(op, o))),
        Ok(None) => Ok(Val::Bool(false)),
        Err(h) => Err(h),
    }
}

/// `l op r` for a comparison.
pub fn eval_compare(
    state: &State,
    reg: &Registry,
    fuel: u64,
    op: BinOp,
    l: &Value,
    r: &Value,
    span: Span,
) -> (res: Result<Value, Stop>)
    requires
        is_comparison(op),
    ensures
        seen(res) == compare_result(
            reg@,
            state@,
            fuel as nat,
            op,
            l@,
            r@,
            span,
        ),
{
    let ord: Option<Order> = match (l, r) {
        (Value::Int(a), Value::Int(b)) => Some(order(a, b)),
        (Value::Float(a), Value::Float(b)) => order_floats(*a, *b),
        (Value::Str(a), Value::Str(b)) => Some(order_texts(a.as_str(), b.as_str())),
        (Value::Bool(a), Value::Bool(b)) => Some(order_bools(*a, *b)),
        (Value::Struct(_), Value::Struct(_)) => Some(
            compare_values(state, reg, fuel, l, r, span)?,
        ),
        (Value::Enum(_), Value::Enum(_)) => Some(compare_values(state, reg, fuel, l, r, span)?),
        _ => {
            return Err(
                fail(
                    cat2(
                        cat3("cannot compare ", type_label(l), " and ").as_str(),
                        type_label(r),
                    ),
                    span,
                ),
            );
        },
    };
    let holds = match ord {
        Some(o) => match op {
            BinOp::Lt => o == Order::Less,
            BinOp::LtEq => o == Order::Less || o == Order::Equal,
            BinOp::Gt => o == Order::Greater,
            _ => o == Order::Greater || o == Order::Equal,
        },
        None => false,
    };
    Ok(Value::Bool(holds))
}

/// The integers from `a` up to `b`, `b` among them where `inclusive`.
pub open spec fn range_items(a: int, b: int, inclusive: bool) -> Seq<Val> {
    let end = if inclusive {
        b + 1
    } else {
        b
    };
    let n: int = if end > a {
        end - a
    } else {
        0
    };
    Seq::new(n as nat, |i: int| Val::Int(a + i))
}

/// The items of a range; its bounds must be integers.
pub open spec fn range_result(op: BinOp, l: Val, r: Val, span: Span) -> Result<Seq<Val>, Halt> {
    match (l, r) {
        (Val::Int(a), Val::Int(b)) => Ok(range_items(a, b, op == BinOp::RangeIncl)),
        _ => Err(
            failure(
                "range bounds must be Int, found "@ + label_of(l) + " and "@ + label_of(r),
                span,
            ),
        ),
    }
}

/// The items of a range.
pub fn eval_range(op: BinOp, l: &Value, r: &Value, span: Span) -> (res: Result<Vec<Value>, Stop>)
    ensures
        seen_vals(res) == range_result(op, l@, r@, span),
{
    match (l, r) {
        (Value::Int(a), Value::Int(b)) => {
            let inclusive = op == BinOp::RangeIncl;
            let one = from_usize(1);
            let end = if inclusive {
                sum(b, &one)
            } else {
                b.clone()
            };
            let mut items: Vec<Value> = Vec::new();
            let mut cur = a.clone();
            let ghost all = range_items(a@, b@, inclusive);
            while order(&cur, &end) == Order::Less
                invariant
                    one@ == 1,
                    all == range_items(a@, b@, inclusive),
                    end@ == (if inclusive { b@ + 1 } else { b@ }),
                    cur@ == a@ + items@.len(),
                    items@.len() <= all.len(),
                    vals(items@) == all.take(items@.len() as int),
                decreases end@ - cur@,
            {
                let ghost k = items@.len() as int;
                items.push(Value::Int(cur.clone()));
                cur = sum(&cur, &one);
                assert(all.take(k + 1) =~= all.take(k).push(all[k]));
            }
            assert(all.take(items@.len() as int) =~= all);
            Ok(items)
        },
        _ => Err(
            fail(
                cat2(
                    cat3("range bounds must be Int, found ", type_label(l), " and ").as_str(),
                    type_label(r),
                ),
                span,
            ),
        ),
    }
}

/// `op v`.
pub open spec fn unary_result(op: UnOp, v: Val, span: Span) -> Result<Val, Halt> {
    match op {
        UnOp::Not => match v {
            Val::Bool(b) => Ok(Val::Bool(!b)),
            other => Err(failure("`not` requires Bool, found "@ + label_of(other), span)),
        },
        UnOp::Neg => match v {
            Val::Int(n) => Ok(Val::Int(-n)),
            Val::Float(bits) => Ok(Val::Float(float_negation(bits))),
            other => Err(
                failure("unary `-` requires Int or Float, found "@ + label_of(other), span),
            ),
        },
    }
}

/// `op v`.
pub fn apply_unary(op: UnOp, v: &Value, span: Span) -> (r: Result<Value, Stop>)
    ensures
        seen(r) == unary_result(op, v@, span),
{
    match op {
        UnOp::Not => match v {
            Value::Bool(b) => Ok(Value::Bool(!*b)),
            other => Err(fail(cat2("`not` requires Bool, found ", type_label(other)), span)),
        },
        UnOp::Neg => match v {
            Value::Int(n) => Ok(Value::Int(negated(n))),
            Value::Float(bits) => Ok(Value::Float(negate_float(*bits))),
            other => Err(
                fail(cat2("unary `-` requires Int or Float, found ", type_label(other)), span),
            ),
        },
    }
}

} // verus!
