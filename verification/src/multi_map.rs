//! A map in which a key holds one value or an ordered run of values.

use vstd::prelude::*;
use vstd::std_specs::convert::FromSpecImpl;

verus! {

/// What a key of a `MultiMap` holds: one value, or several in order.
#[derive(Debug, Eq, PartialEq)]
pub enum Value<T> {
    Scalar(T),
    Vector(Vec<T>),
}

/// The mathematical form of a `Value`.
pub enum ValueView<T> {
    Scalar(T),
    Vector(Seq<T>),
}

impl<T> ValueView<T> {
    /// The values held, in order: one for a scalar.
    pub open spec fn items(self) -> Seq<T> {
        match self {
            ValueView::Scalar(t) => seq![t],
            ValueView::Vector(v) => v,
        }
    }

    /// The vector that holds the values of `self` followed by those of
    /// `new`.
    pub open spec fn joined(self, new: ValueView<T>) -> ValueView<T> {
        ValueView::Vector(self.items() + new.items())
    }
}

impl<T> View for Value<T> {
    type V = ValueView<T>;

    open spec fn view(&self) -> ValueView<T> {
        match self {
            Value::Scalar(t) => ValueView::Scalar(*t),
            Value::Vector(v) => ValueView::Vector(v@),
        }
    }
}

impl<T: Default> Default for Value<T> {
    /// The scalar that holds the default of `T`.
    fn default() -> (r: Self)
        ensures
            r matches Value::Scalar(t) && call_ensures(T::default, (), t),
    {
        Value::Scalar(T::default())
    }
}

impl<T> From<T> for Value<T> {
    fn from(value: T) -> (r: Self) {
        Value::Scalar(value)
    }
}

impl<T> FromSpecImpl<T> for Value<T> {
    open spec fn obeys_from_spec() -> bool {
        true
    }

    open spec fn from_spec(value: T) -> Self {
        Value::Scalar(value)
    }
}

impl<T> From<Vec<T>> for Value<T> {
    fn from(value: Vec<T>) -> (r: Self) {
        Value::Vector(value)
    }
}

impl<T> FromSpecImpl<Vec<T>> for Value<T> {
    open spec fn obeys_from_spec() -> bool {
        true
    }

    open spec fn from_spec(value: Vec<T>) -> Self {
        Value::Vector(value)
    }
}

impl<T> Value<T> {

    /// Appends the values of `new` to those of `self`, which becomes a
    /// vector whatever it was.
    pub fn push(&mut self, new: Self)
        ensures
            final(self)@ == old(self)@.joined(new@),
    {
        let mut taken = Value::Vector(Vec::new());
        std::mem::swap(self, &mut taken);
        let mut all: Vec<T> = match taken {
            Value::Scalar(inner) => {
                let mut v = Vec::new();
                v.push(inner);
                v
            },
            Value::Vector(inner) => inner,
        };
        match new {
            Value::Scalar(t) => {
                all.push(t);
            },
            Value::Vector(mut v) => {
                all.append(&mut v);
            },
        }
        proof {
            assert(all@ =~= old(self)@.items() + new@.items());
        }
        *self = Value::Vector(all);
    }

    /// The number of values held.
    pub fn len(&self) -> (n: usize)
        ensures
            n == self@.items().len(),
    {
        match self {
            Value::Scalar(_) => 1,
            Value::Vector(v) => v.len(),
        }
    }

    /// The value at position `idx`, if there is one.
    pub fn get(&self, idx: usize) -> (r: Option<&T>)
        ensures
            match r {
                Some(t) => idx < self@.items().len() && *t == self@.items()[idx as int],
                None => idx >= self@.items().len(),
            },
    {
        match self {
            Value::Scalar(scalar) => {
                if idx == 0 {
                    Some(scalar)
                } else {
                    None
                }
            },
            Value::Vector(vector) => {
                if idx < vector.len() {
                    Some(&vector[idx])
                } else {
                    None
                }
            },
        }
    }

    /// A cursor at the first value.
    pub fn iter(&self) -> (it: ValueIter<'_, T>)
        ensures
            it.items() == self@.items(),
            it.position() == 0,
    {
        ValueIter::new(self)
    }
}

/// A cursor over the values of a `Value`, from the first to the last.
pub struct ValueIter<'a, T> {
    value: &'a Value<T>,
    idx: usize,
}

impl<'a, T> ValueIter<'a, T> {
    /// The values that the cursor runs over.
    pub closed spec fn items(self) -> Seq<T> {
        self.value@.items()
    }

    /// The number of values already handed out.
    pub closed spec fn position(self) -> nat {
        self.idx as nat
    }

    #[verifier::type_invariant]
    spec fn inv(self) -> bool {
        self.idx <= self.value@.items().len()
    }

    pub fn new(value: &'a Value<T>) -> (it: Self)
        ensures
            it.items() == value@.items(),
            it.position() == 0,
    {
        ValueIter { value, idx: 0 }
    }

    /// Hands out the next value and steps past it; `None` once every value
    /// has been handed out.
    pub fn next(&mut self) -> (r: Option<&'a T>)
        ensures
            final(self).items() == old(self).items(),
            match r {
                Some(t) => {
                    &&& old(self).position() < old(self).items().len()
                    &&& *t == old(self).items()[old(self).position() as int]
                    &&& final(self).position() == old(self).position() + 1
                },
                None => {
                    &&& old(self).position() >= old(self).items().len()
                    &&& final(self).position() == old(self).position()
                },
            },
    {
        proof {
            use_type_invariant(&*self);
        }
        let n = self.value.len();
        let res = self.value.get(self.idx);
        if self.idx < n {
            self.idx += 1;
        }
        res
    }

    /// The values not handed out yet, in order.
    pub fn collect(self) -> (rest: Vec<&'a T>)
        ensures
            rest@.len() == self.items().len() - self.position(),
            forall|i: int|
                0 <= i < rest@.len() ==> *#[trigger] rest@[i] == self.items()[self.position() + i],
    {
        proof {
            use_type_invariant(&self);
        }
        let mut rest: Vec<&'a T> = Vec::new();
        let mut i: usize = self.idx;
        let n = self.value.len();
        while i < n
            invariant
                self.idx <= i <= n,
                n == self.value@.items().len(),
                rest@.len() == i - self.idx,
                forall|j: int|
                    0 <= j < rest@.len() ==> *#[trigger] rest@[j] == self.value@.items()[self.idx
                        + j],
            decreases n - i,
        {
            match self.value.get(i) {
                Some(t) => {
                    rest.push(t);
                },
                None => {},
            }
            i += 1;
        }
        rest
    }
}

/// The map that a list of entries stands for: each key with its value, a
/// later entry replacing an earlier one with the same key.
pub open spec fn model<T>(entries: Seq<(String, Value<T>)>) -> Map<Seq<char>, ValueView<T>>
    decreases entries.len(),
{
    if entries.len() == 0 {
        Map::empty()
    } else {
        model(entries.drop_last()).insert(entries.last().0@, entries.last().1@)
    }
}

/// Whether no two entries have the same key.
pub open spec fn distinct_keys<T>(entries: Seq<(String, Value<T>)>) -> bool {
    forall|i: int, j: int|
        0 <= i < j < entries.len() ==> (#[trigger] entries[i]).0@ != (#[trigger] entries[j]).0@
}

/// Whether every entry holds at least one value.
pub open spec fn no_empty_values<T>(entries: Seq<(String, Value<T>)>) -> bool {
    forall|i: int| 0 <= i < entries.len() ==> (#[trigger] entries[i]).1@.items().len() >= 1
}

/// The keys of the model are the keys of the entries.
pub proof fn lemma_model_keys<T>(entries: Seq<(String, Value<T>)>)
    ensures
        forall|k: Seq<char>|
            model(entries).contains_key(k) <==> exists|i: int|
                0 <= i < entries.len() && (#[trigger] entries[i]).0@ == k,
        model(entries).dom().finite(),
    decreases entries.len(),
{
    if entries.len() > 0 {
        let front = entries.drop_last();
        lemma_model_keys(front);
        assert forall|k: Seq<char>| model(entries).contains_key(k) implies exists|i: int|
            0 <= i < entries.len() && (#[trigger] entries[i]).0@ == k by {
            if k == entries.last().0@ {
                assert(entries[entries.len() - 1].0@ == k);
            } else {
                let i = choose|i: int| 0 <= i < front.len() && (#[trigger] front[i]).0@ == k;
                assert(entries[i].0@ == k);
            }
        }
        assert forall|k: Seq<char>|
            (exists|i: int|
                0 <= i < entries.len() && (#[trigger] entries[i]).0@
                    == k) implies model(entries).contains_key(k) by {
            let i = choose|i: int| 0 <= i < entries.len() && (#[trigger] entries[i]).0@ == k;
            if i < entries.len() - 1 {
                assert(front[i].0@ == k);
            }
        }
    }
}

/// With distinct keys the model holds, under the key of each entry, the
/// value of that entry, and has as many keys as there are entries.
pub proof fn lemma_model_distinct<T>(entries: Seq<(String, Value<T>)>)
    requires
        distinct_keys(entries),
    ensures
        forall|i: int|
            0 <= i < entries.len() ==> model(entries).contains_key((#[trigger] entries[i]).0@)
                && model(entries)[entries[i].0@] == entries[i].1@,
        model(entries).dom().finite(),
        model(entries).dom().len() == entries.len(),
    decreases entries.len(),
{
    lemma_model_keys(entries);
    if entries.len() > 0 {
        let front = entries.drop_last();
        assert(distinct_keys(front)) by {
            assert forall|i: int, j: int| 0 <= i < j < front.len() implies (#[trigger] front[i]).0@
                != (#[trigger] front[j]).0@ by {
                assert(entries[i].0@ != entries[j].0@);
            }
        }
        lemma_model_distinct(front);
        lemma_model_keys(front);
        let last_key = entries.last().0@;
        assert(!model(front).contains_key(last_key)) by {
            if model(front).contains_key(last_key) {
                let i = choose|i: int| 0 <= i < front.len() && (#[trigger] front[i]).0@ == last_key;
                assert(entries[i].0@ != entries[entries.len() - 1].0@);
            }
        }
        assert forall|i: int| 0 <= i < entries.len() implies model(entries).contains_key(
            (#[trigger] entries[i]).0@,
        ) && model(entries)[entries[i].0@] == entries[i].1@ by {
            if i < entries.len() - 1 {
                assert(front[i] == entries[i]);
                assert(entries[i].0@ != entries[entries.len() - 1].0@);
            }
        }
    }
}

/// A map from text keys to values, where inserting under a key that is
/// already there appends to what the key holds.
#[derive(Debug)]
pub struct MultiMap<T> {
    entries: Vec<(String, Value<T>)>,
}

impl<T> View for MultiMap<T> {
    type V = Map<Seq<char>, ValueView<T>>;

    closed spec fn view(&self) -> Map<Seq<char>, ValueView<T>> {
        model(self.entries@)
    }
}

impl<T> MultiMap<T> {
    #[verifier::type_invariant]
    spec fn inv(self) -> bool {
        &&& distinct_keys(self.entries@)
        &&& no_empty_values(self.entries@)
    }

    pub fn new_empty() -> (mm: Self)
        ensures
            mm@ == Map::<Seq<char>, ValueView<T>>::empty(),
    {
        MultiMap { entries: Vec::new() }
    }

    /// The map that holds the entries of `entries`, inserted one by one in
    /// their order: entries with the same key are joined under it.
    pub fn from_entries(entries: Vec<(String, Value<T>)>) -> (mm: Self)
        requires
            forall|i: int| 0 <= i < entries@.len() ==> (#[trigger] entries@[i]).1@.items().len() >= 1,
        ensures
            mm@ == inserted_all(Map::empty(), entry_views(entries@)),
    {
        let ghost all = entries@;
        let mut mm = Self::new_empty();
        for entry in it: entries
            invariant
                it.seq() == all,
                forall|i: int| 0 <= i < all.len() ==> (#[trigger] all[i]).1@.items().len() >= 1,
                mm@ == inserted_all(Map::empty(), entry_views(all.take(it.index() as int))),
        {
            let ghost done = all.take(it.index() as int);
            let (key, value) = entry;
            proof {
                let next = all.take(it.index() + 1);
                assert(entry_views(next).drop_last() =~= entry_views(done));
                assert(entry_views(next).last() == (key@, value@));
            }
            mm.insert(key, value);
        }
        proof {
            assert(all.take(all.len() as int) =~= all);
        }
        mm
    }

    /// Every key with what it holds, each key once. Nothing is promised of
    /// the order.
    pub fn entries(&self) -> (all: Vec<(&str, &Value<T>)>)
        ensures
            self@.dom().finite(),
            all@.len() == self@.dom().len(),
            forall|i: int|
                0 <= i < all@.len() ==> self@.contains_key((#[trigger] all@[i]).0@) && all@[i].1@
                    == self@[all@[i].0@],
            forall|i: int, j: int|
                0 <= i < j < all@.len() ==> (#[trigger] all@[i]).0@ != (#[trigger] all@[j]).0@,
    {
        proof {
            use_type_invariant(self);
            lemma_model_distinct(self.entries@);
        }
        let mut all: Vec<(&str, &Value<T>)> = Vec::new();
        let mut i: usize = 0;
        while i < self.entries.len()
            invariant
                i <= self.entries@.len(),
                all@.len() == i,
                forall|j: int|
                    0 <= j < i ==> (#[trigger] all@[j]).0@ == self.entries@[j].0@ && all@[j].1@
                        == self.entries@[j].1@,
            decreases self.entries@.len() - i,
        {
            all.push((self.entries[i].0.as_str(), &self.entries[i].1));
            i += 1;
        }
        proof {
            assert forall|a: int, b: int| 0 <= a < b < all@.len() implies (#[trigger] all@[a]).0@
                != (#[trigger] all@[b]).0@ by {
                assert(self.entries@[a].0@ != self.entries@[b].0@);
            }
        }
        all
    }

    /// The number of keys.
    pub fn len(&self) -> (n: usize)
        ensures
            self@.dom().finite(),
            n == self@.dom().len(),
    {
        proof {
            use_type_invariant(self);
            lemma_model_distinct(self.entries@);
        }
        self.entries.len()
    }

    /// The position of the entry with key `key`, if there is one.
    fn position(&self, key: &str) -> (r: Option<usize>)
        ensures
            match r {
                Some(i) => i < self.entries@.len() && self.entries@[i as int].0@ == key@,
                None => !self@.contains_key(key@),
            },
            r is Some ==> self@.contains_key(key@),
    {
        proof {
            lemma_model_keys(self.entries@);
        }
        let mut i: usize = 0;
        while i < self.entries.len()
            invariant
                i <= self.entries@.len(),
                forall|j: int| 0 <= j < i ==> (#[trigger] self.entries@[j]).0@ != key@,
            decreases self.entries@.len() - i,
        {
            if crate::text::str_eq(self.entries[i].0.as_str(), key) {
                proof {
                    lemma_model_keys(self.entries@);
                    assert(self.entries@[i as int].0@ == key@);
                }
                return Some(i);
            }
            i += 1;
        }
        None
    }

    /// Puts `value` under `key`. Where the key already holds something, the
    /// values of `value` are appended to it, and it becomes a vector.
    pub fn insert(&mut self, key: String, value: Value<T>)
        requires
            value@.items().len() >= 1,
        ensures
            final(self)@ == old(self)@.insert(
                key@,
                if old(self)@.contains_key(key@) {
                    old(self)@[key@].joined(value@)
                } else {
                    value@
                },
            ),
    {
        proof {
            use_type_invariant(&*self);
            lemma_model_distinct(self.entries@);
            lemma_model_keys(self.entries@);
        }
        let ghost before = self.entries@;
        let found = self.position(key.as_str());
        let mut taken = MultiMap { entries: Vec::new() };
        std::mem::swap(self, &mut taken);
        let mut entries = taken.entries;
        match found {
            Some(i) => {
                let mut slot = (String::new(), Value::Vector(Vec::new()));
                std::mem::swap(&mut entries[i], &mut slot);
                let (k, mut current) = slot;
                current.push(value);
                entries[i] = (k, current);
                proof {
                    let after = entries@;
                    assert(after.len() == before.len());
                    assert forall|j: int| 0 <= j < after.len() && j != i implies after[j]
                        == before[j] by {}
                    assert(after[i as int].0@ == key@);
                    assert(after[i as int].1@ == before[i as int].1@.joined(value@));
                    assert(distinct_keys(after)) by {
                        assert forall|a: int, b: int| 0 <= a < b < after.len() implies (
                        #[trigger] after[a]).0@ != (#[trigger] after[b]).0@ by {
                            assert(before[a].0@ != before[b].0@);
                        }
                    }
                    assert(no_empty_values(after)) by {
                        assert forall|j: int| 0 <= j < after.len() implies (
                        #[trigger] after[j]).1@.items().len() >= 1 by {
                            if j != i {
                                assert(before[j].1@.items().len() >= 1);
                            }
                        }
                    }
                    lemma_model_distinct(after);
                    lemma_model_keys(after);
                    let want = old(self)@.insert(key@, old(self)@[key@].joined(value@));
                    assert forall|k: Seq<char>| model(after).contains_key(k) <==> want.contains_key(
                        k,
                    ) by {
                        if model(after).contains_key(k) {
                            let j = choose|j: int|
                                0 <= j < after.len() && (#[trigger] after[j]).0@ == k;
                            assert(before[j].0@ == k);
                        }
                        if want.contains_key(k) && k != key@ {
                            let j = choose|j: int|
                                0 <= j < before.len() && (#[trigger] before[j]).0@ == k;
                            assert(after[j].0@ == k);
                        }
                    }
                    assert forall|k: Seq<char>| model(after).contains_key(k) implies model(
                        after,
                    )[k] == want[k] by {
                        let j = choose|j: int|
                            0 <= j < after.len() && (#[trigger] after[j]).0@ == k;
                        assert(model(after)[k] == after[j].1@);
                        if j != i {
                            assert(before[j].0@ == k);
                            assert(model(before)[k] == before[j].1@);
                        } else {
                            assert(model(before)[key@] == before[i as int].1@);
                        }
                    }
                    assert(model(after) =~= want);
                }
            },
            None => {
                entries.push((key, value));
                proof {
                    let after = entries@;
                    assert(after.drop_last() =~= before);
                    assert(distinct_keys(after)) by {
                        assert forall|a: int, b: int| 0 <= a < b < after.len() implies (
                        #[trigger] after[a]).0@ != (#[trigger] after[b]).0@ by {
                            if b < before.len() {
                                assert(before[a].0@ != before[b].0@);
                            } else {
                                assert(before[a].0@ == after[a].0@);
                            }
                        }
                    }
                    assert(no_empty_values(after)) by {
                        assert forall|j: int| 0 <= j < after.len() implies (
                        #[trigger] after[j]).1@.items().len() >= 1 by {
                            if j < before.len() {
                                assert(before[j].1@.items().len() >= 1);
                            }
                        }
                    }
                }
            },
        }
        *self = MultiMap { entries };
    }

    pub fn insert_scalar(&mut self, key: String, scalar: T)
        ensures
            final(self)@ == old(self)@.insert(
                key@,
                if old(self)@.contains_key(key@) {
                    old(self)@[key@].joined(ValueView::Scalar(scalar))
                } else {
                    ValueView::Scalar(scalar)
                },
            ),
    {
        self.insert(key, Value::from(scalar));
    }

    pub fn insert_vector(&mut self, key: String, vector: Vec<T>)
        requires
            vector@.len() >= 1,
        ensures
            final(self)@ == old(self)@.insert(
                key@,
                if old(self)@.contains_key(key@) {
                    old(self)@[key@].joined(ValueView::Vector(vector@))
                } else {
                    ValueView::Vector(vector@)
                },
            ),
    {
        self.insert(key, Value::from(vector));
    }

    /// What `key` holds, if it holds anything. A key never holds an empty
    /// vector.
    pub fn get(&self, key: &str) -> (r: Option<&Value<T>>)
        ensures
            match r {
                Some(v) => self@.contains_key(key@) && v@ == self@[key@] && v@.items().len() >= 1,
                None => !self@.contains_key(key@),
            },
    {
        proof {
            use_type_invariant(self);
            lemma_model_distinct(self.entries@);
        }
        match self.position(key) {
            Some(i) => Some(&self.entries[i].1),
            None => None,
        }
    }

    /// The one value under `key`. It is an error to ask this of a key that
    /// holds a vector, whatever the vector's length.
    pub fn get_scalar(&self, key: &str) -> (r: Result<Option<&T>, NotScalar>)
        ensures
            match r {
                Ok(Some(t)) => self@.contains_key(key@) && self@[key@] == ValueView::Scalar(*t),
                Ok(None) => !self@.contains_key(key@),
                Err(_) => self@.contains_key(key@) && self@[key@] is Vector,
            },
    {
        match self.get(key) {
            Some(Value::Scalar(scalar)) => Ok(Some(scalar)),
            Some(Value::Vector(_)) => Err(NotScalar {  }),
            None => Ok(None),
        }
    }

    /// The vector under `key`. It is an error to ask this of a key that
    /// holds a scalar.
    pub fn get_vector(&self, key: &str) -> (r: Result<Option<&Vec<T>>, NotVector>)
        ensures
            match r {
                Ok(Some(v)) => self@.contains_key(key@) && self@[key@] == ValueView::Vector(v@)
                    && v@.len() >= 1,
                Ok(None) => !self@.contains_key(key@),
                Err(_) => self@.contains_key(key@) && self@[key@] is Scalar,
            },
    {
        match self.get(key) {
            Some(Value::Scalar(_)) => Err(NotVector {  }),
            Some(Value::Vector(vector)) => Ok(Some(vector)),
            None => Ok(None),
        }
    }

    /// A cursor over the values under `key`, in the order in which they
    /// were inserted.
    pub fn get_value_iter<'a>(&'a self, key: &str) -> (r: Option<ValueIter<'a, T>>)
        ensures
            match r {
                Some(it) => self@.contains_key(key@) && it.items() == self@[key@].items()
                    && it.position() == 0 && it.items().len() >= 1,
                None => !self@.contains_key(key@),
            },
    {
        match self.get(key) {
            Some(v) => Some(v.iter()),
            None => None,
        }
    }
}

/// The error of `get_scalar` on a key that holds a vector.
#[derive(Debug)]
pub struct NotScalar {}

/// The error of `get_vector` on a key that holds a scalar.
#[derive(Debug)]
pub struct NotVector {}

/// What a map holds after `value` was inserted under `key`.
pub open spec fn inserted<T>(
    m: Map<Seq<char>, ValueView<T>>,
    key: Seq<char>,
    value: ValueView<T>,
) -> Map<Seq<char>, ValueView<T>> {
    m.insert(
        key,
        if m.contains_key(key) {
            m[key].joined(value)
        } else {
            value
        },
    )
}

/// The keys and values of a list of entries in their mathematical form.
pub open spec fn entry_views<T>(entries: Seq<(String, Value<T>)>) -> Seq<
    (Seq<char>, ValueView<T>),
> {
    Seq::new(entries.len(), |i: int| (entries[i].0@, entries[i].1@))
}

/// What a map holds after the entries of `entries` were inserted one by
/// one, the first of them first.
pub open spec fn inserted_all<T>(
    m: Map<Seq<char>, ValueView<T>>,
    entries: Seq<(Seq<char>, ValueView<T>)>,
) -> Map<Seq<char>, ValueView<T>>
    decreases entries.len(),
{
    if entries.len() == 0 {
        m
    } else {
        inserted(inserted_all(m, entries.drop_last()), entries.last().0, entries.last().1)
    }
}

/// What a map holds after the values of `values` were inserted under `key`
/// one by one, the first of them first.
pub open spec fn inserted_each<T>(
    m: Map<Seq<char>, ValueView<T>>,
    key: Seq<char>,
    values: Seq<T>,
) -> Map<Seq<char>, ValueView<T>>
    decreases values.len(),
{
    if values.len() == 0 {
        m
    } else {
        inserted(inserted_each(m, key, values.drop_last()), key, ValueView::Scalar(values.last()))
    }
}

/// Values inserted one by one under a key that held nothing are found under
/// that key in the order of their insertion, and nothing else is.
pub proof fn lemma_insertion_order<T>(m: Map<Seq<char>, ValueView<T>>, key: Seq<char>, values: Seq<T>)
    requires
        !m.contains_key(key),
        values.len() >= 1,
    ensures
        inserted_each(m, key, values).contains_key(key),
        inserted_each(m, key, values)[key].items() == values,
    decreases values.len(),
{
    let front = values.drop_last();
    if front.len() == 0 {
        assert(inserted_each(m, key, front) == m);
        assert(seq![values.last()] =~= values);
    } else {
        lemma_insertion_order(m, key, front);
        assert(front + seq![values.last()] =~= values);
    }
}

/// Values inserted one by one under a key that already held something
/// follow what it held, in the order of their insertion.
pub proof fn lemma_insertion_appends<T>(
    m: Map<Seq<char>, ValueView<T>>,
    key: Seq<char>,
    values: Seq<T>,
)
    requires
        m.contains_key(key),
    ensures
        inserted_each(m, key, values).contains_key(key),
        inserted_each(m, key, values)[key].items() == m[key].items() + values,
    decreases values.len(),
{
    if values.len() == 0 {
        assert(m[key].items() + values =~= m[key].items());
    } else {
        let front = values.drop_last();
        lemma_insertion_appends(m, key, front);
        assert((m[key].items() + front) + seq![values.last()] =~= m[key].items() + values);
    }
}

/// Inserting under one key leaves what the other keys hold as it was.
pub proof fn lemma_insertion_elsewhere<T>(
    m: Map<Seq<char>, ValueView<T>>,
    key: Seq<char>,
    values: Seq<T>,
    other: Seq<char>,
)
    requires
        other != key,
    ensures
        inserted_each(m, key, values).contains_key(other) == m.contains_key(other),
        m.contains_key(other) ==> inserted_each(m, key, values)[other] == m[other],
    decreases values.len(),
{
    if values.len() > 0 {
        lemma_insertion_elsewhere(m, key, values.drop_last(), other);
    }
}

} // verus!
