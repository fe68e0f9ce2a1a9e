use std::cmp::Ordering;
use vstd::prelude::*;

verus! {

/// A value that the index can order: the scalar shapes of a JSON record.
///
/// Values of different kinds never compare equal; they are ordered by kind
/// (booleans, then numbers, then text), so every field's entries can be kept
/// in one total order.
#[derive(Clone, Debug, PartialEq, Eq)]
pub enum Scalar {
    Bool(bool),
    /// The IEEE-754 bit pattern of a double; numbers are ordered as
    /// `f64::total_cmp` orders them.
    Number(u64),
    Text(String),
}

/// The mathematical value of a `Scalar`.
pub enum ScalarV {
    Bool(bool),
    Number(u64),
    Text(Seq<char>),
}

impl View for Scalar {
    type V = ScalarV;

    open spec fn view(&self) -> ScalarV {
        match self {
            Scalar::Bool(b) => ScalarV::Bool(*b),
            Scalar::Number(n) => ScalarV::Number(*n),
            Scalar::Text(s) => ScalarV::Text(s@),
        }
    }
}

/// Which predicate a query applies to a field.
#[derive(Clone, Copy, Debug, PartialEq, Eq, Structural)]
pub enum Condition {
    Equal,
    NotEqual,
    Greater,
    Less,
    GreaterOrEqual,
    LessOrEqual,
}

pub open spec fn kind_rank(s: ScalarV) -> int {
    match s {
        ScalarV::Bool(_) => 0,
        ScalarV::Number(_) => 1,
        ScalarV::Text(_) => 2,
    }
}

/// The position of a double's bit pattern in the IEEE-754 total order:
/// positive patterns keep their value, negative ones are reflected below zero.
pub open spec fn number_key(bits: u64) -> int {
    if bits < 0x8000_0000_0000_0000u64 {
        bits as int
    } else {
        0x7fff_ffff_ffff_ffffint - bits as int
    }
}

/// Lexicographic order on characters by code point (the order of `str`).
pub open spec fn text_lt(a: Seq<char>, b: Seq<char>) -> bool
    decreases a.len(),
{
    if a.len() == 0 {
        b.len() > 0
    } else if b.len() == 0 {
        false
    } else if a[0] != b[0] {
        (a[0] as int) < (b[0] as int)
    } else {
        text_lt(a.drop_first(), b.drop_first())
    }
}

/// The strict order of the index.
pub open spec fn scalar_lt(a: ScalarV, b: ScalarV) -> bool {
    if kind_rank(a) != kind_rank(b) {
        kind_rank(a) < kind_rank(b)
    } else {
        match (a, b) {
            (ScalarV::Bool(x), ScalarV::Bool(y)) => !x && y,
            (ScalarV::Number(x), ScalarV::Number(y)) => number_key(x) < number_key(y),
            (ScalarV::Text(x), ScalarV::Text(y)) => text_lt(x, y),
            _ => false,
        }
    }
}

pub open spec fn scalar_order(a: ScalarV, b: ScalarV) -> Ordering {
    if scalar_lt(a, b) {
        Ordering::Less
    } else if a == b {
        Ordering::Equal
    } else {
        Ordering::Greater
    }
}

/// Whether a field value `v` satisfies `cond` against the queried `target`.
pub open spec fn cond_holds(v: ScalarV, cond: Condition, target: ScalarV) -> bool {
    match cond {
        Condition::Equal => v == target,
        Condition::NotEqual => v != target,
        Condition::Greater => scalar_lt(target, v),
        Condition::Less => scalar_lt(v, target),
        Condition::GreaterOrEqual => !scalar_lt(v, target),
        Condition::LessOrEqual => !scalar_lt(target, v),
    }
}

proof fn lemma_text_irreflexive(a: Seq<char>)
    ensures
        !text_lt(a, a),
    decreases a.len(),
{
    if a.len() > 0 {
        lemma_text_irreflexive(a.drop_first());
    }
}

proof fn lemma_text_trans(a: Seq<char>, b: Seq<char>, c: Seq<char>)
    requires
        text_lt(a, b),
        text_lt(b, c),
    ensures
        text_lt(a, c),
    decreases a.len(),
{
    if a.len() > 0 && b.len() > 0 && c.len() > 0 && a[0] == b[0] && b[0] == c[0] {
        lemma_text_trans(a.drop_first(), b.drop_first(), c.drop_first());
    }
}

proof fn lemma_text_total(a: Seq<char>, b: Seq<char>)
    ensures
        a == b || text_lt(a, b) || text_lt(b, a),
    decreases a.len(),
{
    if a.len() > 0 && b.len() > 0 {
        if a[0] == b[0] {
            lemma_text_total(a.drop_first(), b.drop_first());
            if a.drop_first() == b.drop_first() {
                assert(a =~= seq![a[0]] + a.drop_first());
                assert(b =~= seq![b[0]] + b.drop_first());
            }
        } else {
            assert((a[0] as int) != (b[0] as int));
        }
    } else if a.len() == 0 && b.len() == 0 {
        assert(a =~= b);
    }
}

proof fn lemma_text_asym(a: Seq<char>, b: Seq<char>)
    requires
        text_lt(a, b),
    ensures
        !text_lt(b, a),
{
    if text_lt(b, a) {
        lemma_text_trans(a, b, a);
        lemma_text_irreflexive(a);
    }
}

/// The index order is a strict total order.
pub proof fn lemma_scalar_order(a: ScalarV, b: ScalarV, c: ScalarV)
    ensures
        !scalar_lt(a, a),
        scalar_lt(a, b) ==> !scalar_lt(b, a),
        scalar_lt(a, b) && scalar_lt(b, c) ==> scalar_lt(a, c),
        a == b || scalar_lt(a, b) || scalar_lt(b, a),
{
    match a {
        ScalarV::Text(x) => {
            lemma_text_irreflexive(x);
        },
        _ => {},
    }
    match (a, b) {
        (ScalarV::Text(x), ScalarV::Text(y)) => {
            lemma_text_total(x, y);
            if text_lt(x, y) {
                lemma_text_asym(x, y);
            }
        },
        _ => {},
    }
    match (a, b, c) {
        (ScalarV::Text(x), ScalarV::Text(y), ScalarV::Text(z)) => {
            if text_lt(x, y) && text_lt(y, z) {
                lemma_text_trans(x, y, z);
            }
        },
        _ => {},
    }
}

/// Orders two texts by code point.
fn text_cmp(a: &String, b: &String) -> (r: Ordering)
    ensures
        r == scalar_order(ScalarV::Text(a@), ScalarV::Text(b@)),
{
    let la = a.as_str().unicode_len();
    let lb = b.as_str().unicode_len();
    let mut i: usize = 0;
    proof {
        assert(a@.skip(0) =~= a@);
        assert(b@.skip(0) =~= b@);
    }
    while i < la && i < lb
        invariant
            la == a@.len(),
            lb == b@.len(),
            i <= la,
            i <= lb,
            a@.subrange(0, i as int) == b@.subrange(0, i as int),
            text_lt(a@, b@) == text_lt(a@.skip(i as int), b@.skip(i as int)),
            text_lt(b@, a@) == text_lt(b@.skip(i as int), a@.skip(i as int)),
        decreases la - i,
    {
        let ca = a.as_str().get_char(i);
        let cb = b.as_str().get_char(i);
        proof {
            assert(a@.skip(i as int)[0] == ca);
            assert(b@.skip(i as int)[0] == cb);
            assert(a@.skip(i as int).drop_first() =~= a@.skip(i + 1));
            assert(b@.skip(i as int).drop_first() =~= b@.skip(i + 1));
        }
        if ca != cb {
            proof {
                lemma_scalar_order(ScalarV::Text(a@), ScalarV::Text(b@), ScalarV::Text(b@));
            }
            if (ca as u32) < (cb as u32) {
                return Ordering::Less;
            } else {
                return Ordering::Greater;
            }
        }
        proof {
            assert(a@.subrange(0, i + 1) =~= a@.subrange(0, i as int).push(ca));
            assert(b@.subrange(0, i + 1) =~= b@.subrange(0, i as int).push(cb));
        }
        i = i + 1;
    }
    proof {
        lemma_scalar_order(ScalarV::Text(a@), ScalarV::Text(b@), ScalarV::Text(b@));
    }
    if la < lb {
        Ordering::Less
    } else if lb < la {
        Ordering::Greater
    } else {
        proof {
            assert(a@ =~= a@.subrange(0, i as int));
            assert(b@ =~= b@.subrange(0, i as int));
        }
        Ordering::Equal
    }
}

/// Orders two doubles, given by their bit patterns, as `f64::total_cmp` does.
fn number_cmp(a: u64, b: u64) -> (r: Ordering)
    ensures
        r == scalar_order(ScalarV::Number(a), ScalarV::Number(b)),
{
    let neg_a = a >= 0x8000_0000_0000_0000u64;
    let neg_b = b >= 0x8000_0000_0000_0000u64;
    if a == b {
        Ordering::Equal
    } else if neg_a != neg_b {
        if neg_a {
            Ordering::Less
        } else {
            Ordering::Greater
        }
    } else if neg_a {
        if a > b {
            Ordering::Less
        } else {
            Ordering::Greater
        }
    } else {
        if a < b {
            Ordering::Less
        } else {
            Ordering::Greater
        }
    }
}

fn kind_of(v: &Scalar) -> (r: u8)
    ensures
        r == kind_rank(v@),
{
    match v {
        Scalar::Bool(_) => 0,
        Scalar::Number(_) => 1,
        Scalar::Text(_) => 2,
    }
}

/// Compares two scalars in the index order.
pub fn value_cmp(v1: &Scalar, v2: &Scalar) -> (r: Ordering)
    ensures
        r == scalar_order(v1@, v2@),
{
    match (v1, v2) {
        (Scalar::Bool(a), Scalar::Bool(b)) => {
            if *a == *b {
                Ordering::Equal
            } else if !*a {
                Ordering::Less
            } else {
                Ordering::Greater
            }
        },
        (Scalar::Number(a), Scalar::Number(b)) => number_cmp(*a, *b),
        (Scalar::Text(a), Scalar::Text(b)) => text_cmp(a, b),
        _ => {
            if kind_of(v1) < kind_of(v2) {
                Ordering::Less
            } else {
                Ordering::Greater
            }
        },
    }
}

/// Whether `v1` satisfies `cond` against `v2`.
pub fn value_cond(v1: &Scalar, cond: Condition, v2: &Scalar) -> (r: bool)
    ensures
        r == cond_holds(v1@, cond, v2@),
{
    let o = value_cmp(v1, v2);
    proof {
        lemma_scalar_order(v1@, v2@, v2@);
    }
    match cond {
        Condition::Equal => matches!(o, Ordering::Equal),
        Condition::NotEqual => !matches!(o, Ordering::Equal),
        Condition::Greater => matches!(o, Ordering::Greater),
        Condition::Less => matches!(o, Ordering::Less),
        Condition::GreaterOrEqual => !matches!(o, Ordering::Less),
        Condition::LessOrEqual => !matches!(o, Ordering::Greater),
    }
}

impl Scalar {
    /// A copy of this value.
    pub fn copy(&self) -> (r: Scalar)
        ensures
            r@ == self@,
    {
        match self {
            Scalar::Bool(b) => Scalar::Bool(*b),
            Scalar::Number(n) => Scalar::Number(*n),
            Scalar::Text(s) => Scalar::Text(s.clone()),
        }
    }
}

} // verus!
