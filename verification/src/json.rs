//! JSON values as the dictionaries and the operators' edits carry them.

use vstd::prelude::*;

verus! {

/// How a JSON number is written: a non-negative integer, a negative integer,
/// or anything else.
#[derive(Debug, Clone, Copy, PartialEq, Eq, Structural)]
pub enum NumberKind {
    Pos(u64),
    Neg(i64),
    Float,
}

/// A JSON number: its integer reading, if it has one, and the bit patterns of
/// its nearest double and single.
#[derive(Debug, Clone, Copy, PartialEq, Eq, Structural)]
pub struct Number {
    pub kind: NumberKind,
    pub f64_bits: u64,
    pub f32_bits: u32,
}

impl Number {
    /// The number as an unsigned integer, if it is a non-negative one.
    pub open spec fn unsigned(self) -> Option<u64> {
        match self.kind {
            NumberKind::Pos(v) => Some(v),
            _ => None,
        }
    }

    /// The number as a signed integer, if it is one that fits.
    pub open spec fn signed(self) -> Option<i64> {
        match self.kind {
            NumberKind::Pos(v) => if v <= i64::MAX {
                Some(v as i64)
            } else {
                None
            },
            NumberKind::Neg(v) => Some(v),
            NumberKind::Float => None,
        }
    }

    pub fn as_u64(&self) -> (r: Option<u64>)
        ensures
            r == self.unsigned(),
    {
        match self.kind {
            NumberKind::Pos(v) => Some(v),
            _ => None,
        }
    }

    pub fn as_i64(&self) -> (r: Option<i64>)
        ensures
            r == self.signed(),
    {
        match self.kind {
            NumberKind::Pos(v) => if v <= i64::MAX as u64 {
                Some(v as i64)
            } else {
                None
            },
            NumberKind::Neg(v) => Some(v),
            NumberKind::Float => None,
        }
    }
}

/// A JSON value. Object members keep the order they were written in.
#[derive(Debug)]
pub enum Json {
    Null,
    Bool(bool),
    Num(Number),
    Str(String),
    Array(Vec<Json>),
    Object(Vec<(String, Json)>),
}

impl Json {
    /// The numbers a value holds: itself, or the numbers among its elements.
    pub open spec fn numbers(self) -> Seq<Number> {
        match self {
            Json::Num(n) => seq![n],
            Json::Array(items) => numbers_among(items@),
            _ => Seq::empty(),
        }
    }

    /// The numbers a value holds: itself, or the numbers among its elements.
    pub fn to_numbers(&self) -> (out: Vec<Number>)
        ensures
            out@ == self.numbers(),
    {
        let mut out: Vec<Number> = Vec::new();
        match self {
            Json::Num(n) => {
                out.push(*n);
                assert(out@ =~= self.numbers());
            },
            Json::Array(items) => {
                for i in 0..items.len()
                    invariant
                        out@ == numbers_among(items@.take(i as int)),
                {
                    assert(items@.take(i + 1).drop_last() =~= items@.take(i as int));
                    match &items[i] {
                        Json::Num(n) => {
                            out.push(*n);
                        },
                        _ => {},
                    }
                }
                assert(items@.take(items@.len() as int) =~= items@);
            },
            _ => {},
        }
        out
    }
}

/// The numbers among a list of values, in order.
pub open spec fn numbers_among(items: Seq<Json>) -> Seq<Number>
    decreases items.len(),
{
    if items.len() == 0 {
        Seq::empty()
    } else {
        match items.last() {
            Json::Num(n) => numbers_among(items.drop_last()).push(n),
            _ => numbers_among(items.drop_last()),
        }
    }
}

/// The numbers among the values of two lists follow one another; a value that is a number
/// is one of them, and any other is none.
pub proof fn numbers_keep_their_order(a: Seq<Json>, b: Seq<Json>, n: Number, other: Json)
    requires
        !(other is Num),
    ensures
        numbers_among(a + b) == numbers_among(a) + numbers_among(b),
        numbers_among(seq![Json::Num(n)]) == seq![n],
        numbers_among(seq![other]).len() == 0,
        Json::Num(n).numbers() == seq![n],
    decreases b.len(),
{
    reveal_with_fuel(numbers_among, 2);
    assert(seq![Json::Num(n)].drop_last() =~= Seq::empty());
    assert(numbers_among(seq![Json::Num(n)]) =~= seq![n]);
    assert(seq![other].drop_last() =~= Seq::empty());
    if b.len() == 0 {
        assert(a + b =~= a);
        assert(numbers_among(a) + numbers_among(b) =~= numbers_among(a));
    } else {
        assert((a + b).drop_last() =~= a + b.drop_last());
        numbers_keep_their_order(a, b.drop_last(), n, other);
        assert(numbers_among(a + b) =~= numbers_among(a) + numbers_among(b));
    }
}

/// A number is read as an unsigned integer if and only if it is written as one, and as a
/// signed one if and only if it is an integer that a signed word holds; either way the
/// value is the one written.
pub proof fn integers_are_read_as_written(n: Number)
    ensures
        n.unsigned() matches Some(v) ==> n.kind == NumberKind::Pos(v),
        n.unsigned() is None ==> !(n.kind is Pos),
        match n.kind {
            NumberKind::Pos(v) => if v < 0x8000_0000_0000_0000 {
                n.signed() matches Some(i) && i == v
            } else {
                n.signed() is None
            },
            NumberKind::Neg(v) => n.signed() == Some(v),
            NumberKind::Float => n.signed() is None && n.unsigned() is None,
        },
{
}

} // verus!
