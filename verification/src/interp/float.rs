//! Floats. A float is kept as its IEEE 754 double-precision bits. What can be
//! read off the bits (comparing, negating, telling infinities and NaNs) is done
//! here; arithmetic and decimal text are answered by the host, through a table.

use crate::text::{int_order, Order};
use vstd::prelude::*;

verus! {

/// The bit that holds the sign.
pub const SIGN_BIT: u64 = 0x8000_0000_0000_0000;

/// The bits of positive infinity; greater magnitudes are NaNs.
pub const INFINITY_BITS: u64 = 0x7ff0_0000_0000_0000;

/// The bits without the sign.
pub open spec fn magnitude(bits: u64) -> u64 {
    if bits >= SIGN_BIT {
        (bits - SIGN_BIT) as u64
    } else {
        bits
    }
}

pub open spec fn is_nan(bits: u64) -> bool {
    magnitude(bits) > INFINITY_BITS
}

pub open spec fn is_infinite(bits: u64) -> bool {
    magnitude(bits) == INFINITY_BITS
}

/// A number that orders as the float does, and is zero for both zeros.
pub open spec fn float_rank(bits: u64) -> int {
    if bits >= SIGN_BIT {
        -(magnitude(bits) as int)
    } else {
        bits as int
    }
}

/// How two floats order; a NaN orders with nothing.
pub open spec fn float_order(a: u64, b: u64) -> Option<Order> {
    if is_nan(a) || is_nan(b) {
        None
    } else {
        Some(int_order(float_rank(a), float_rank(b)))
    }
}

/// Whether two floats are equal; a NaN equals nothing, and the zeros are equal.
pub open spec fn floats_equal(a: u64, b: u64) -> bool {
    float_order(a, b) == Some(Order::Equal)
}

/// The float with the other sign.
pub open spec fn float_negation(bits: u64) -> u64 {
    if bits >= SIGN_BIT {
        (bits - SIGN_BIT) as u64
    } else {
        (bits + SIGN_BIT) as u64
    }
}

fn drop_sign(bits: u64) -> (r: u64)
    ensures
        r == magnitude(bits),
{
    if bits >= SIGN_BIT {
        bits - SIGN_BIT
    } else {
        bits
    }
}

pub fn nan(bits: u64) -> (r: bool)
    ensures
        r == is_nan(bits),
{
    drop_sign(bits) > INFINITY_BITS
}

pub fn infinite(bits: u64) -> (r: bool)
    ensures
        r == is_infinite(bits),
{
    drop_sign(bits) == INFINITY_BITS
}

/// Order two floats.
pub fn order_floats(a: u64, b: u64) -> (r: Option<Order>)
    ensures
        r == float_order(a, b),
{
    let x = drop_sign(a);
    let y = drop_sign(b);
    if x > INFINITY_BITS || y > INFINITY_BITS {
        return None;
    }
    let a_below = a >= SIGN_BIT;
    let b_below = b >= SIGN_BIT;
    Some(
        if x == 0 && y == 0 {
            Order::Equal
        } else if a_below && b_below {
            if x > y {
                Order::Less
            } else if x == y {
                Order::Equal
            } else {
                Order::Greater
            }
        } else if a_below {
            Order::Less
        } else if b_below {
            Order::Greater
        } else if x < y {
            Order::Less
        } else if x == y {
            Order::Equal
        } else {
            Order::Greater
        },
    )
}

/// Compare two floats for equality.
pub fn equal_floats(a: u64, b: u64) -> (r: bool)
    ensures
        r == floats_equal(a, b),
{
    match order_floats(a, b) {
        Some(Order::Equal) => true,
        _ => false,
    }
}

/// Negate a float.
pub fn negate_float(bits: u64) -> (r: u64)
    ensures
        r == float_negation(bits),
{
    if bits >= SIGN_BIT {
        bits - SIGN_BIT
    } else {
        bits + SIGN_BIT
    }
}

/// Negating twice gives the float back, and negation turns the order round.
pub proof fn law_negation(a: u64, b: u64)
    ensures
        float_negation(float_negation(a)) == a,
        is_nan(float_negation(a)) == is_nan(a),
        float_order(float_negation(a), float_negation(b)) == (match float_order(a, b) {
            Some(o) => Some(o.flipped()),
            None => None,
        }),
{
}

/// The float operations that the host carries out.
#[derive(Debug, Clone, Copy, PartialEq, Eq, Structural)]
pub enum FloatOp {
    Add,
    Sub,
    Mul,
    Div,
    Rem,
    Pow,
}

/// What evaluation may have to ask the host about floats.
#[derive(Debug, PartialEq)]
pub enum Question {
    /// The result of `a op b`.
    Arith { op: FloatOp, a: u64, b: u64 },
    /// The shortest decimal text that reads back as this finite float.
    Text(u64),
}

/// What a `Question` says.
pub enum QuestionView {
    Arith { op: FloatOp, a: u64, b: u64 },
    Text(u64),
}

impl View for Question {
    type V = QuestionView;

    open spec fn view(&self) -> QuestionView {
        match self {
            Question::Arith { op, a, b } => QuestionView::Arith { op: *op, a: *a, b: *b },
            Question::Text(bits) => QuestionView::Text(*bits),
        }
    }
}

/// The host's answers so far.
#[derive(Debug)]
pub struct FloatTable {
    pub arith: Vec<(FloatOp, u64, u64, u64)>,
    pub text: Vec<(u64, String)>,
}

/// What a `FloatTable` says.
pub struct Answers {
    pub arith: Seq<(FloatOp, u64, u64, u64)>,
    pub text: Seq<(u64, Seq<char>)>,
}

pub open spec fn arith_from(
    rows: Seq<(FloatOp, u64, u64, u64)>,
    op: FloatOp,
    a: u64,
    b: u64,
    i: nat,
) -> Option<u64>
    decreases rows.len() - i,
{
    if i >= rows.len() {
        None
    } else if rows[i as int].0 == op && rows[i as int].1 == a && rows[i as int].2 == b {
        Some(rows[i as int].3)
    } else {
        arith_from(rows, op, a, b, i + 1)
    }
}

pub open spec fn row_from<K, T>(rows: Seq<(K, T)>, key: K, i: nat) -> Option<T>
    decreases rows.len() - i,
{
    if i >= rows.len() {
        None
    } else if rows[i as int].0 == key {
        Some(rows[i as int].1)
    } else {
        row_from(rows, key, i + 1)
    }
}

impl Answers {
    /// The answer to `a op b`, if it was given.
    pub open spec fn arith_answer(self, op: FloatOp, a: u64, b: u64) -> Option<u64> {
        arith_from(self.arith, op, a, b, 0)
    }

    /// The text of a float, if it was given.
    pub open spec fn text_answer(self, bits: u64) -> Option<Seq<char>> {
        row_from(self.text, bits, 0)
    }

    /// Every answer here is given there too.
    pub open spec fn within(self, other: Answers) -> bool {
        &&& forall|op: FloatOp, a: u64, b: u64|
            (#[trigger] self.arith_answer(op, a, b)) is Some ==> other.arith_answer(op, a, b)
                == self.arith_answer(op, a, b)
        &&& forall|bits: u64|
            (#[trigger] self.text_answer(bits)) is Some ==> other.text_answer(bits)
                == self.text_answer(bits)
    }
}

impl View for FloatTable {
    type V = Answers;

    open spec fn view(&self) -> Answers {
        Answers {
            arith: self.arith@,
            text: Seq::new(self.text@.len(), |i: int| (self.text@[i].0, self.text@[i].1@)),
        }
    }
}

proof fn lemma_arith_push(
    rows: Seq<(FloatOp, u64, u64, u64)>,
    row: (FloatOp, u64, u64, u64),
    op: FloatOp,
    a: u64,
    b: u64,
    i: nat,
)
    requires
        i <= rows.len(),
    ensures
        arith_from(rows, op, a, b, i) is Some ==> arith_from(rows.push(row), op, a, b, i)
            == arith_from(rows, op, a, b, i),
        arith_from(rows, op, a, b, i) is None ==> arith_from(rows.push(row), op, a, b, i) == (
        if row.0 == op && row.1 == a && row.2 == b {
            Some(row.3)
        } else {
            None
        }),
    decreases rows.len() - i,
{
    let more = rows.push(row);
    if i < rows.len() {
        assert(more[i as int] == rows[i as int]);
        lemma_arith_push(rows, row, op, a, b, i + 1);
    } else {
        assert(more[i as int] == row);
        assert(arith_from(more, op, a, b, i + 1) is None);
    }
}

proof fn lemma_row_push<K, T>(rows: Seq<(K, T)>, row: (K, T), key: K, i: nat)
    requires
        i <= rows.len(),
    ensures
        row_from(rows, key, i) is Some ==> row_from(rows.push(row), key, i) == row_from(
            rows,
            key,
            i,
        ),
        row_from(rows, key, i) is None ==> row_from(rows.push(row), key, i) == (if row.0 == key {
            Some(row.1)
        } else {
            None
        }),
    decreases rows.len() - i,
{
    let more = rows.push(row);
    if i < rows.len() {
        assert(more[i as int] == rows[i as int]);
        lemma_row_push(rows, row, key, i + 1);
    } else {
        assert(more[i as int] == row);
        assert(row_from(more, key, i + 1) is None);
    }
}

impl FloatTable {
    /// A table without answers.
    pub fn new() -> (r: Self)
        ensures
            r@.arith.len() == 0,
            r@.text.len() == 0,
    {
        FloatTable { arith: Vec::new(), text: Vec::new() }
    }

    /// Record that `a op b` is `answer`. An answer given before stays, and nothing
    /// is recorded of any other question.
    pub fn answer_arith(&mut self, op: FloatOp, a: u64, b: u64, answer: u64)
        ensures
            final(self)@.arith_answer(op, a, b) == Some(
                match old(self)@.arith_answer(op, a, b) {
                    Some(was) => was,
                    None => answer,
                },
            ),
            forall|o: FloatOp, x: u64, y: u64|
                !(o == op && x == a && y == b) ==> #[trigger] final(self)@.arith_answer(o, x, y)
                    == old(self)@.arith_answer(o, x, y),
            final(self)@.text == old(self)@.text,
            old(self)@.within(final(self)@),
    {
        proof {
            let rows = self@.arith;
            let row = (op, a, b, answer);
            assert forall|o: FloatOp, x: u64, y: u64|
                arith_from(rows, o, x, y, 0) is Some || !(o == op && x == a && y
                    == b) implies #[trigger] arith_from(rows.push(row), o, x, y, 0) == arith_from(
                rows,
                o,
                x,
                y,
                0,
            ) by {
                lemma_arith_push(rows, row, o, x, y, 0);
            }
            lemma_arith_push(rows, row, op, a, b, 0);
        }
        let ghost before = self@;
        self.arith.push((op, a, b, answer));
        assert(self@.text =~= before.text);
    }

    /// Record the text of a float. An answer given before stays, and nothing is
    /// recorded of any other question.
    pub fn answer_text(&mut self, bits: u64, answer: String)
        ensures
            final(self)@.text_answer(bits) == Some(
                match old(self)@.text_answer(bits) {
                    Some(was) => was,
                    None => answer@,
                },
            ),
            forall|k: u64|
                k != bits ==> #[trigger] final(self)@.text_answer(k) == old(self)@.text_answer(k),
            final(self)@.arith == old(self)@.arith,
            old(self)@.within(final(self)@),
    {
        let ghost before = self@;
        let ghost row = (bits, answer@);
        proof {
            assert forall|k: u64|
                row_from(before.text, k, 0) is Some || k != bits implies #[trigger] row_from(
                before.text.push(row),
                k,
                0,
            ) == row_from(before.text, k, 0) by {
                lemma_row_push(before.text, row, k, 0);
            }
            lemma_row_push(before.text, row, row.0, 0);
        }
        self.text.push((bits, answer));
        assert(self@.text =~= before.text.push(row));
    }

    /// Look up `a op b`.
    pub fn find_arith(&self, op: FloatOp, a: u64, b: u64) -> (r: Option<u64>)
        ensures
            r == self@.arith_answer(op, a, b),
    {
        let mut i: usize = 0;
        while i < self.arith.len()
            invariant
                i <= self.arith.len(),
                arith_from(self@.arith, op, a, b, i as nat) == self@.arith_answer(op, a, b),
            decreases self.arith.len() - i,
        {
            let row = self.arith[i];
            if row.0 == op && row.1 == a && row.2 == b {
                return Some(row.3);
            }
            i = i + 1;
        }
        None
    }

    /// Look up the text of a float.
    pub fn find_text(&self, bits: u64) -> (r: Option<String>)
        ensures
            match r {
                Some(t) => self@.text_answer(bits) == Some(t@),
                None => self@.text_answer(bits) is None,
            },
    {
        let mut i: usize = 0;
        while i < self.text.len()
            invariant
                i <= self.text.len(),
                row_from(self@.text, bits, i as nat) == self@.text_answer(bits),
            decreases self.text.len() - i,
        {
            if self.text[i].0 == bits {
                return Some(self.text[i].1.clone());
            }
            i = i + 1;
        }
        None
    }
}

} // verus!
