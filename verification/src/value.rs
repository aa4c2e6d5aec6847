//! The tagged value tree that archives are made of, and its mathematical
//! model.

use vstd::prelude::*;

verus! {

/// A plain tagged value: the in-memory form of a property-list document.
///
/// `Real` carries the bit pattern of a 64-bit floating point number, and
/// `Date` carries a timestamp as whole seconds and nanoseconds relative to
/// an epoch. The decoder never looks inside either; it only copies them.
/// `Uid` is an integer handle addressing one slot of an archive's object
/// table. `Dictionary` is a mapping whose entries keep their insertion
/// order.
#[derive(Debug)]
pub enum Value {
    Boolean(bool),
    Integer(i128),
    Real(u64),
    Text(String),
    Date(i64, u32),
    Data(Vec<u8>),
    Uid(u64),
    Array(Vec<Value>),
    Dictionary(Vec<(String, Value)>),
}

/// The mathematical model of a [`Value`]: the same tree with every sequence
/// abstracted to a `Seq`.
#[verifier::ext_equal]
pub enum ValueV {
    Boolean(bool),
    Integer(i128),
    Real(u64),
    Text(Seq<char>),
    Date(i64, u32),
    Data(Seq<u8>),
    Uid(u64),
    Array(Seq<ValueV>),
    Dictionary(Seq<(Seq<char>, ValueV)>),
}

impl View for Value {
    type V = ValueV;

    open spec fn view(&self) -> ValueV
        decreases self, 1int,
    {
        match self {
            Value::Boolean(b) => ValueV::Boolean(*b),
            Value::Integer(i) => ValueV::Integer(*i),
            Value::Real(bits) => ValueV::Real(*bits),
            Value::Text(s) => ValueV::Text(s@),
            Value::Date(secs, nanos) => ValueV::Date(*secs, *nanos),
            Value::Data(d) => ValueV::Data(d@),
            Value::Uid(u) => ValueV::Uid(*u),
            Value::Array(vs) => ValueV::Array(seq_v(vs@)),
            Value::Dictionary(es) => ValueV::Dictionary(entries_v(es@)),
        }
    }
}

/// The model of a sequence of values, element by element.
pub open spec fn seq_v(s: Seq<Value>) -> Seq<ValueV>
    decreases s, 0int,
{
    if s.len() == 0 {
        Seq::empty()
    } else {
        seq_v(s.drop_last()).push(s.last()@)
    }
}

/// The model of a sequence of dictionary entries, entry by entry.
pub open spec fn entries_v(s: Seq<(String, Value)>) -> Seq<(Seq<char>, ValueV)>
    decreases s, 0int,
{
    if s.len() == 0 {
        Seq::empty()
    } else {
        entries_v(s.drop_last()).push((s.last().0@, s.last().1@))
    }
}

/// `seq_v` maps the sequence element by element.
pub broadcast proof fn lemma_seq_v(s: Seq<Value>)
    ensures
        (#[trigger] seq_v(s)).len() == s.len(),
        forall|i: int| #![trigger seq_v(s)[i]] #![trigger s[i]@] 0 <= i < s.len() ==> seq_v(s)[i]
            == s[i]@,
    decreases s.len(),
{
    if s.len() > 0 {
        lemma_seq_v(s.drop_last());
        assert(seq_v(s) == seq_v(s.drop_last()).push(s.last()@));
        assert forall|i: int| 0 <= i < s.len() implies seq_v(s)[i] == s[i]@ by {
            if i < s.len() - 1 {
                assert(seq_v(s.drop_last())[i] == s.drop_last()[i]@);
                assert(s.drop_last()[i] == s[i]);
            } else {
                assert(s.last() == s[i]);
            }
        }
    }
}

/// `entries_v` maps the sequence entry by entry.
pub broadcast proof fn lemma_entries_v(s: Seq<(String, Value)>)
    ensures
        (#[trigger] entries_v(s)).len() == s.len(),
        forall|i: int| #![trigger entries_v(s)[i]] #![trigger s[i].0@] #![trigger s[i].1@] 0 <= i
            < s.len() ==> entries_v(s)[i] == (s[i].0@, s[i].1@),
    decreases s.len(),
{
    if s.len() > 0 {
        lemma_entries_v(s.drop_last());
        assert(entries_v(s) == entries_v(s.drop_last()).push((s.last().0@, s.last().1@)));
        assert forall|i: int| 0 <= i < s.len() implies entries_v(s)[i] == (s[i].0@, s[i].1@) by {
            if i < s.len() - 1 {
                assert(entries_v(s.drop_last())[i] == (s.drop_last()[i].0@, s.drop_last()[i].1@));
                assert(s.drop_last()[i] == s[i]);
            } else {
                assert(s.last() == s[i]);
            }
        }
    }
}

impl Value {
    /// A structural copy of the value.
    #[verifier::loop_isolation(false)]
    pub fn duplicate(&self) -> (r: Value)
        ensures
            r@ == self@,
        decreases self,
    {
        broadcast use lemma_seq_v, lemma_entries_v;

        match self {
            Value::Boolean(b) => Value::Boolean(*b),
            Value::Integer(i) => Value::Integer(*i),
            Value::Real(bits) => Value::Real(*bits),
            Value::Text(s) => Value::Text(s.clone()),
            Value::Date(secs, nanos) => Value::Date(*secs, *nanos),
            Value::Data(d) => Value::Data(d.clone()),
            Value::Uid(u) => Value::Uid(*u),
            Value::Array(vs) => {
                let mut out: Vec<Value> = Vec::new();
                let mut i: usize = 0;
                while i < vs.len()
                    invariant
                        i <= vs.len(),
                        out@.len() == i as int,
                        forall|j: int| 0 <= j < i ==> out@[j]@ == vs@[j]@,
                    decreases vs.len() - i,
                {
                    proof {
                        assert(decreases_to!(*self => *vs));
                        assert(decreases_to!(*vs => vs@[i as int]));
                    }
                    out.push(vs[i].duplicate());
                    i = i + 1;
                }
                let r = Value::Array(out);
                proof {
                    assert(r@->Array_0 == seq_v(out@));
                    assert((*self)@->Array_0 == seq_v(vs@));
                    assert(seq_v(out@) =~= seq_v(vs@));
                }
                r
            },
            Value::Dictionary(es) => {
                let mut out: Vec<(String, Value)> = Vec::new();
                let mut i: usize = 0;
                while i < es.len()
                    invariant
                        i <= es.len(),
                        out@.len() == i as int,
                        forall|j: int| 0 <= j < i
                            ==> out@[j].0@ == es@[j].0@ && out@[j].1@ == es@[j].1@,
                    decreases es.len() - i,
                {
                    proof {
                        assert(decreases_to!(*self => *es));
                        assert(decreases_to!(*es => es@[i as int]));
                        assert(decreases_to!(es@[i as int] => es@[i as int].1));
                    }
                    let (k, v) = &es[i];
                    out.push((k.clone(), v.duplicate()));
                    i = i + 1;
                }
                let r = Value::Dictionary(out);
                proof {
                    assert(r@->Dictionary_0 == entries_v(out@));
                    assert((*self)@->Dictionary_0 == entries_v(es@));
                    assert(entries_v(out@) =~= entries_v(es@));
                }
                r
            },
        }
    }
}

/// Structural equality of two values, decided recursively.
#[verifier::loop_isolation(false)]
pub fn value_eq(a: &Value, b: &Value) -> (r: bool)
    ensures
        r == (a@ == b@),
    decreases a,
{
    broadcast use lemma_seq_v, lemma_entries_v;

    match (a, b) {
        (Value::Boolean(x), Value::Boolean(y)) => *x == *y,
        (Value::Integer(x), Value::Integer(y)) => *x == *y,
        (Value::Real(x), Value::Real(y)) => *x == *y,
        (Value::Text(x), Value::Text(y)) => *x == *y,
        (Value::Date(s1, n1), Value::Date(s2, n2)) => *s1 == *s2 && *n1 == *n2,
        (Value::Data(x), Value::Data(y)) => {
            if x.len() != y.len() {
                proof {
                    assert(a@ == ValueV::Data(x@));
                    assert(b@ == ValueV::Data(y@));
                    assert(x@.len() != y@.len());
                }
                return false;
            }
            let mut i: usize = 0;
            while i < x.len()
                invariant
                    i <= x.len(),
                    forall|j: int| 0 <= j < i ==> x@[j] == y@[j],
                decreases x.len() - i,
            {
                if x[i] != y[i] {
                    return false;
                }
                i = i + 1;
            }
            proof {
                assert(x@ =~= y@);
            }
            true
        },
        (Value::Uid(x), Value::Uid(y)) => *x == *y,
        (Value::Array(xs), Value::Array(ys)) => {
            if xs.len() != ys.len() {
                proof {
                    assert(a@ == ValueV::Array(seq_v(xs@)));
                    assert(b@ == ValueV::Array(seq_v(ys@)));
                    assert(seq_v(xs@).len() != seq_v(ys@).len());
                }
                return false;
            }
            let mut i: usize = 0;
            while i < xs.len()
                invariant
                    i <= xs.len(),
                    forall|j: int| 0 <= j < i ==> xs@[j]@ == ys@[j]@,
                decreases xs.len() - i,
            {
                proof {
                    assert(decreases_to!(*a => *xs));
                    assert(decreases_to!(*xs => xs@[i as int]));
                }
                if !value_eq(&xs[i], &ys[i]) {
                    proof {
                        assert(seq_v(xs@)[i as int] != seq_v(ys@)[i as int]);
                    }
                    return false;
                }
                i = i + 1;
            }
            proof {
                assert(seq_v(xs@) =~= seq_v(ys@));
            }
            true
        },
        (Value::Dictionary(xe), Value::Dictionary(ye)) => {
            if xe.len() != ye.len() {
                proof {
                    assert(a@ == ValueV::Dictionary(entries_v(xe@)));
                    assert(b@ == ValueV::Dictionary(entries_v(ye@)));
                    assert(entries_v(xe@).len() != entries_v(ye@).len());
                }
                return false;
            }
            let mut i: usize = 0;
            while i < xe.len()
                invariant
                    i <= xe.len(),
                    forall|j: int| 0 <= j < i ==> xe@[j].0@ == ye@[j].0@ && xe@[j].1@ == ye@[j].1@,
                decreases xe.len() - i,
            {
                proof {
                    assert(decreases_to!(*a => *xe));
                    assert(decreases_to!(*xe => xe@[i as int]));
                    assert(decreases_to!(xe@[i as int] => xe@[i as int].1));
                }
                let (xk, xv) = &xe[i];
                let (yk, yv) = &ye[i];
                if !(*xk == *yk) {
                    proof {
                        assert(entries_v(xe@)[i as int] != entries_v(ye@)[i as int]);
                    }
                    return false;
                }
                if !value_eq(xv, yv) {
                    proof {
                        assert(entries_v(xe@)[i as int] != entries_v(ye@)[i as int]);
                    }
                    return false;
                }
                i = i + 1;
            }
            proof {
                assert(entries_v(xe@) =~= entries_v(ye@));
            }
            true
        },
        _ => false,
    }
}

impl PartialEq for Value {
    fn eq(&self, other: &Self) -> (r: bool) {
        value_eq(self, other)
    }
}

impl vstd::std_specs::cmp::PartialEqSpecImpl for Value {
    open spec fn obeys_eq_spec() -> bool {
        true
    }

    open spec fn eq_spec(&self, other: &Value) -> bool {
        self@ == other@
    }
}

} // verus!
