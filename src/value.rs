use vstd::prelude::*;

verus! {

/// Bits of the single-precision value `1.0`.
pub const ONE_BITS: u32 = 0x3f80_0000;

/// Bits of the single-precision value `0.0`.
pub const ZERO_BITS: u32 = 0;

/// A runtime value: a number (the bits of an `f32`) or a tuple of values.
#[derive(Debug)]
pub enum Value {
    Number(u32),
    Tuple(Vec<Value>),
}

/// The two kinds of value, as named in type errors.
#[derive(Clone, Copy, Debug, PartialEq, Eq, Structural)]
pub enum ValueType {
    Number,
    Tuple,
}

/// The mathematical model of a [`Value`].
pub enum ValueModel {
    Number(u32),
    Tuple(Seq<ValueModel>),
}

/// Whether the bits encode `+0.0` or `-0.0`, the only falsy numbers.
pub open spec fn is_zero_bits(bits: u32) -> bool {
    bits & 0x7fff_ffffu32 == 0
}

/// The number that encodes a boolean: `1.0` or `0.0`.
pub open spec fn bool_bits(b: bool) -> u32 {
    if b {
        ONE_BITS
    } else {
        ZERO_BITS
    }
}

/// Tests for `+0.0` and `-0.0`.
pub fn is_zero(bits: u32) -> (r: bool)
    ensures
        r == is_zero_bits(bits),
{
    bits & 0x7fff_ffffu32 == 0
}

impl Value {
    pub open spec fn view(&self) -> ValueModel
        decreases self,
    {
        match self {
            Value::Number(n) => ValueModel::Number(*n),
            Value::Tuple(items) => ValueModel::Tuple(view_all(items@)),
        }
    }

    /// A deep copy.
    pub fn duplicate(&self) -> (r: Value)
        ensures
            r@ == self@,
        decreases self,
    {
        match self {
            Value::Number(n) => Value::Number(*n),
            Value::Tuple(items) => {
                let mut out: Vec<Value> = Vec::new();
                let mut i: usize = 0;
                while i < items.len()
                    invariant
                        i <= items.len(),
                        self is Tuple,
                        self->Tuple_0 == *items,
                        view_all(out@) == view_all(items@.subrange(0, i as int)),
                    decreases items.len() - i,
                {
                    proof {
                        assert(decreases_to!(*self => self->Tuple_0));
                        assert(decreases_to!(*items => items@));
                    }
                    let v = items[i].duplicate();
                    proof {
                        lemma_view_all_push(out@, v);
                        lemma_view_all_push(items@.subrange(0, i as int), items@[i as int]);
                        assert(items@.subrange(0, i as int).push(items@[i as int])
                            =~= items@.subrange(0, i + 1));
                    }
                    out.push(v);
                    i += 1;
                }
                proof {
                    assert(items@.subrange(0, items.len() as int) =~= items@);
                }
                Value::Tuple(out)
            }
        }
    }
}

/// The models of a sequence of values.
pub open spec fn view_all(s: Seq<Value>) -> Seq<ValueModel>
    decreases s,
{
    if s.len() == 0 {
        Seq::empty()
    } else {
        view_all(s.drop_last()).push(s.last().view())
    }
}

pub proof fn lemma_view_all_push(s: Seq<Value>, v: Value)
    ensures
        view_all(s.push(v)) == view_all(s).push(v@),
{
    assert(s.push(v).drop_last() =~= s);
}

pub proof fn lemma_view_all_len(s: Seq<Value>)
    ensures
        view_all(s).len() == s.len(),
    decreases s.len(),
{
    if s.len() > 0 {
        lemma_view_all_len(s.drop_last());
    }
}

pub proof fn lemma_view_all_index(s: Seq<Value>, i: int)
    requires
        0 <= i < s.len(),
    ensures
        view_all(s).len() == s.len(),
        view_all(s)[i] == s[i]@,
    decreases s.len(),
{
    lemma_view_all_len(s);
    if i < s.len() - 1 {
        lemma_view_all_index(s.drop_last(), i);
    }
}

} // verus!
