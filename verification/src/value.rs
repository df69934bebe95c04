//! Bound values and the map from declared symbols to their values.

use vstd::prelude::*;

use crate::text::to_chars;

verus! {

/// The value bound to one declared symbol.
///
/// A flag with no argument is a `Switch`; a flag or positional bound at
/// most once is a `Plain`; a repeatable atom accumulates into a `List`
/// when it carries values and into a `Counted` otherwise.
#[derive(Debug, PartialEq, Eq)]
pub enum Value {
    Switch(bool),
    Plain(Option<String>),
    Counted(u64),
    List(Vec<String>),
}

/// The mathematical value of a `Value`.
pub enum ValueModel {
    Switch(bool),
    Plain(Option<Seq<char>>),
    Counted(int),
    List(Seq<Seq<char>>),
}

impl Value {
    /// The mathematical value of this bound value.
    pub open spec fn model(self) -> ValueModel {
        match self {
            Value::Switch(b) => ValueModel::Switch(b),
            Value::Plain(o) => ValueModel::Plain(
                match o {
                    Option::Some(s) => Option::Some(s@),
                    Option::None => Option::None,
                },
            ),
            Value::Counted(n) => ValueModel::Counted(n as int),
            Value::List(l) => ValueModel::List(l@.map_values(|s: String| s@)),
        }
    }
}

/// The map that a sequence of (name, value) pairs denotes: a later pair
/// with the same name wins.
pub open spec fn pairs_model(pairs: Seq<(String, Value)>) -> Map<Seq<char>, ValueModel>
    decreases pairs.len(),
{
    if pairs.len() == 0 {
        Map::empty()
    } else {
        pairs_model(pairs.drop_last()).insert(pairs.last().0@, pairs.last().1.model())
    }
}

/// The result of a successful match: every declared symbol, mapped to its
/// bound or default value.
#[derive(Debug)]
pub struct ValueMap {
    pairs: Vec<(String, Value)>,
}

impl ValueMap {
    /// The mathematical value of the map.
    pub closed spec fn model(&self) -> Map<Seq<char>, ValueModel> {
        pairs_model(self.pairs@)
    }

    /// An empty map.
    pub fn new() -> (r: ValueMap)
        ensures
            r.model() == Map::<Seq<char>, ValueModel>::empty(),
    {
        ValueMap { pairs: Vec::new() }
    }

    /// Binds `name` to `value`, replacing an earlier binding of `name`.
    pub fn put(&mut self, name: String, value: Value)
        ensures
            final(self).model() == old(self).model().insert(name@, value.model()),
    {
        self.pairs.push((name, value));
        proof {
            assert(self.pairs@.drop_last() =~= old(self).pairs@);
        }
    }

    /// Looks `key` up: the value bound to it, or `None` where the map does
    /// not hold the key.
    pub fn get(&self, key: &str) -> (r: Option<&Value>)
        ensures
            match r {
                Option::Some(v) => self.model().contains_key(key@) && v.model() == self.model()[
                    key@
                ],
                Option::None => !self.model().contains_key(key@),
            },
    {
        let kv = to_chars(key);
        let ks = crate::text::from_chars(&kv);
        let mut idx: usize = self.pairs.len();
        while idx > 0
            invariant
                0 <= idx <= self.pairs@.len(),
                ks@ == key@,
                forall|j: int| idx <= j < self.pairs@.len() ==> (#[trigger] self.pairs@[j]).0@
                    != key@,
            decreases idx,
        {
            if self.pairs[idx - 1].0 == ks {
                proof {
                    lemma_pairs_model_hit(self.pairs@, key@, idx - 1);
                }
                return Some(&self.pairs[idx - 1].1);
            }
            idx = idx - 1;
        }
        proof {
            lemma_pairs_model_miss(self.pairs@, key@);
        }
        None
    }
}

/// The map that an association list denotes, with its pairs as given: a
/// later pair with the same name wins.
pub fn map_from_alist(alist: Vec<(String, Value)>) -> (r: ValueMap)
    ensures
        r.model() == pairs_model(alist@),
{
    ValueMap { pairs: alist }
}

/// Whether two values are equal.
fn value_eq(a: &Value, b: &Value) -> (r: bool)
    ensures
        r == (a.model() == b.model()),
{
    match a {
        Value::Switch(x) => match b {
            Value::Switch(y) => *x == *y,
            _ => false,
        },
        Value::Plain(x) => match b {
            Value::Plain(y) => match x {
                Option::None => matches!(y, Option::None),
                Option::Some(s1) => match y {
                    Option::Some(s2) => s1.eq(s2),
                    Option::None => false,
                },
            },
            _ => false,
        },
        Value::Counted(m) => match b {
            Value::Counted(n) => *m == *n,
            _ => false,
        },
        Value::List(v1) => match b {
            Value::List(v2) => {
                let ghost s1 = crate::text::strings_model(v1@);
                let ghost s2 = crate::text::strings_model(v2@);
                proof {
                    assert(a.model()->List_0 =~= s1);
                    assert(b.model()->List_0 =~= s2);
                    assert(s1.len() == v1@.len() && s2.len() == v2@.len());
                }
                if v1.len() != v2.len() {
                    return false;
                }
                let mut k: usize = 0;
                while k < v1.len()
                    invariant
                        0 <= k <= v1@.len(),
                        v1@.len() == v2@.len(),
                        s1 == crate::text::strings_model(v1@),
                        s2 == crate::text::strings_model(v2@),
                        a.model()->List_0 == s1,
                        b.model()->List_0 == s2,
                        a.model() is List && b.model() is List,
                        s1.len() == v1@.len() && s2.len() == v2@.len(),
                        forall|j: int| 0 <= j < k ==> #[trigger] s1[j] == s2[j],
                    decreases v1@.len() - k,
                {
                    let same = v1[k].eq(&v2[k]);
                    proof {
                        assert(s1[k as int] == v1@[k as int]@ && s2[k as int] == v2@[k as int]@);
                    }
                    if !same {
                        return false;
                    }
                    k = k + 1;
                }
                proof {
                    assert(s1 =~= s2);
                }
                true
            },
            _ => false,
        },
    }
}

/// Whether two value maps bind exactly the same symbols to equal values.
pub fn same_args(expected: &ValueMap, got: &ValueMap) -> (r: bool)
    ensures
        r == (expected.model() == got.model()),
{
    let ghost m1 = expected.model();
    let ghost m2 = got.model();
    if !contained_in(expected, got) {
        return false;
    }
    if !contained_in(got, expected) {
        return false;
    }
    proof {
        assert forall|k: Seq<char>| #[trigger]
            m1.dom().contains(k) <==> m2.dom().contains(k) by {
            assert(m1.contains_key(k) ==> m2.contains_key(k) && m1[k] == m2[k]);
            assert(m2.contains_key(k) ==> m1.contains_key(k) && m2[k] == m1[k]);
        }
        assert(m1.dom() =~= m2.dom());
        assert forall|k: Seq<char>| m1.dom().contains(k) implies m1[k] == #[trigger] m2[k] by {
            assert(m1.contains_key(k) ==> m2.contains_key(k) && m1[k] == m2[k]);
        }
        assert(m1 =~= m2);
    }
    true
}

/// Where some pair holds `key`, the map holds the key.
proof fn lemma_pairs_model_has(pairs: Seq<(String, Value)>, key: Seq<char>, i: int)
    requires
        0 <= i < pairs.len(),
        pairs[i].0@ == key,
    ensures
        pairs_model(pairs).contains_key(key),
    decreases pairs.len(),
{
    if i < pairs.len() - 1 {
        lemma_pairs_model_has(pairs.drop_last(), key, i);
    }
}

/// Whether every symbol of `a` is bound in `b` to an equal value.
fn contained_in(a: &ValueMap, b: &ValueMap) -> (r: bool)
    ensures
        r == (forall|k: Seq<char>| #![trigger a.model().contains_key(k)]
            a.model().contains_key(k) ==> b.model().contains_key(k) && a.model()[k]
                == b.model()[k]),
{
    let ghost m1 = a.model();
    let ghost m2 = b.model();
    let n = a.pairs.len();
    let mut i: usize = 0;
    while i < n
        invariant
            0 <= i <= n,
            n == a.pairs@.len(),
            m1 == a.model(),
            m2 == b.model(),
            forall|j: int|
                0 <= j < i ==> {
                    let k = (#[trigger] a.pairs@[j]).0@;
                    m2.contains_key(k) && m1[k] == m2[k]
                },
        decreases n - i,
    {
        let key = &a.pairs[i].0;
        let ghost k = key@;
        proof {
            lemma_pairs_model_has(a.pairs@, k, i as int);
        }
        let mine = a.get(key.as_str());
        let theirs = b.get(key.as_str());
        let ok = match (mine, theirs) {
            (Option::Some(v1), Option::Some(v2)) => value_eq(v1, v2),
            _ => false,
        };
        if !ok {
            proof {
                assert(m1.contains_key(k) && !(m2.contains_key(k) && m1[k] == m2[k]));
            }
            return false;
        }
        i = i + 1;
    }
    proof {
        assert forall|k: Seq<char>| #![trigger m1.contains_key(k)]
            m1.contains_key(k) implies m2.contains_key(k) && m1[k] == m2[k] by {
            if forall|j: int| 0 <= j < a.pairs@.len() ==> (#[trigger] a.pairs@[j]).0@ != k {
                lemma_pairs_model_miss(a.pairs@, k);
                assert(false);
            }
            assert(exists|j: int| 0 <= j < a.pairs@.len() && (#[trigger] a.pairs@[j]).0@ == k);
            let j = choose|j: int| 0 <= j < a.pairs@.len() && (#[trigger] a.pairs@[j]).0@ == k;
            assert(m2.contains_key(a.pairs@[j].0@) && m1[a.pairs@[j].0@] == m2[a.pairs@[j].0@]);
        }
    }
    true
}

/// Where `pairs[i]` holds `key` and no later pair does, the map holds the
/// value of `pairs[i]` at `key`.
proof fn lemma_pairs_model_hit(pairs: Seq<(String, Value)>, key: Seq<char>, i: int)
    requires
        0 <= i < pairs.len(),
        pairs[i].0@ == key,
        forall|j: int| i < j < pairs.len() ==> (#[trigger] pairs[j]).0@ != key,
    ensures
        pairs_model(pairs).contains_key(key),
        pairs_model(pairs)[key] == pairs[i].1.model(),
    decreases pairs.len(),
{
    if i < pairs.len() - 1 {
        assert(forall|j: int|
            i < j < pairs.drop_last().len() ==> (#[trigger] pairs.drop_last()[j]).0@ != key);
        lemma_pairs_model_hit(pairs.drop_last(), key, i);
    }
}

/// Where no pair holds `key`, the map does not either.
proof fn lemma_pairs_model_miss(pairs: Seq<(String, Value)>, key: Seq<char>)
    requires
        forall|j: int| 0 <= j < pairs.len() ==> (#[trigger] pairs[j]).0@ != key,
    ensures
        !pairs_model(pairs).contains_key(key),
    decreases pairs.len(),
{
    if pairs.len() > 0 {
        lemma_pairs_model_miss(pairs.drop_last(), key);
    }
}

} // verus!
