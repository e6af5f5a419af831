use crate::number::Number;
use vstd::prelude::*;

verus! {

/// A value of the dynamic side: a number, a text, a truth value, a container
/// or nothing.
#[derive(Debug)]
pub enum Value {
    /// A number, kept as the decimal text that denotes it.
    Number(Number),
    /// A text.
    String(String),
    /// A truth value.
    Boolean(bool),
    /// A container, which may serve as a list, as a map, or as both.
    List(List),
    /// Nothing.
    Null,
}

/// The one container of the dynamic side.
///
/// It holds slots, which are reached by position, counted from one. Beside
/// them it keeps what was registered under keys: a value that sits in a slot
/// may also be used as a key to look up another value.
#[derive(Debug)]
pub struct List {
    slots: Vec<Value>,
    entries: Vec<(Value, Value)>,
}

/// The mathematical value of a [`Value`]. A number and a text are given by
/// their characters.
pub enum ValueView {
    Number(Seq<char>),
    String(Seq<char>),
    Boolean(bool),
    List(ListView),
    Null,
}

/// The mathematical value of a [`List`]: the slots in order, and the
/// registrations in the order in which they were made.
pub struct ListView {
    pub slots: Seq<ValueView>,
    pub entries: Seq<(ValueView, ValueView)>,
}

/// The value registered last under `key` among `entries`, if there is one.
pub open spec fn registered(entries: Seq<(ValueView, ValueView)>, key: ValueView) -> Option<
    ValueView,
>
    decreases entries.len(),
{
    if entries.len() == 0 {
        None
    } else if entries.last().0 == key {
        Some(entries.last().1)
    } else {
        registered(entries.drop_last(), key)
    }
}

impl ListView {
    /// The container with no slot and no registration.
    pub open spec fn empty() -> ListView {
        ListView { slots: Seq::empty(), entries: Seq::empty() }
    }

    /// The number of slots.
    pub open spec fn len(self) -> nat {
        self.slots.len()
    }

    /// The container with `value` in one more slot at the end.
    pub open spec fn append(self, value: ValueView) -> ListView {
        ListView { slots: self.slots.push(value), entries: self.entries }
    }

    /// The container with `value` registered under `key`.
    pub open spec fn set(self, key: ValueView, value: ValueView) -> ListView {
        ListView { slots: self.slots, entries: self.entries.push((key, value)) }
    }

    /// What a lookup under `key` finds: the value registered last under it.
    pub open spec fn lookup(self, key: ValueView) -> Option<ValueView> {
        registered(self.entries, key)
    }

    /// Some slot holds a value under which a lookup finds something.
    pub open spec fn is_associative(self) -> bool {
        exists|i: int| 0 <= i < self.slots.len() && (#[trigger] self.lookup(self.slots[i])) is Some
    }
}

/// A lookup finds nothing but a value that some registration holds.
pub proof fn lemma_registered_is_entry(entries: Seq<(ValueView, ValueView)>, key: ValueView)
    ensures
        registered(entries, key) matches Some(value) ==> exists|j: int|
            0 <= j < entries.len() && #[trigger] entries[j] == (key, value),
        registered(entries, key) is None ==> forall|j: int|
            0 <= j < entries.len() ==> (#[trigger] entries[j]).0 != key,
    decreases entries.len(),
{
    if entries.len() > 0 && entries.last().0 != key {
        let rest = entries.drop_last();
        lemma_registered_is_entry(rest, key);
        if let Some(value) = registered(rest, key) {
            let j = choose|j: int| 0 <= j < rest.len() && #[trigger] rest[j] == (key, value);
            assert(entries[j] == (key, value));
        } else {
            assert forall|j: int| 0 <= j < entries.len() implies (#[trigger] entries[j]).0
                != key by {
                if j < rest.len() {
                    assert(rest[j] == entries[j]);
                }
            }
        }
    } else if entries.len() > 0 {
        assert(entries[entries.len() - 1] == (key, entries.last().1));
    }
}

impl ListView {
    /// What a lookup finds is a part of the container.
    pub proof fn lemma_lookup_decreases(self, key: ValueView)
        ensures
            self.lookup(key) matches Some(found) ==> decreases_to!(self => found),
    {
        lemma_registered_is_entry(self.entries, key);
        if let Some(found) = self.lookup(key) {
            let j = choose|j: int|
                0 <= j < self.entries.len() && #[trigger] self.entries[j] == (key, found);
            assert(decreases_to!(self.entries => self.entries[j]));
            assert(decreases_to!(self.entries[j] => self.entries[j].1));
        }
    }
}

impl Value {
    /// The mathematical value of the value.
    pub open spec fn model(self) -> ValueView
        decreases self,
    {
        match self {
            Value::Number(number) => ValueView::Number(number@),
            Value::String(text) => ValueView::String(text@),
            Value::Boolean(b) => ValueView::Boolean(b),
            Value::List(list) => ValueView::List(list.model()),
            Value::Null => ValueView::Null,
        }
    }
}

impl List {
    /// The mathematical value of the container.
    pub closed spec fn model(self) -> ListView
        decreases self,
    {
        ListView {
            slots: Seq::new(
                self.slots@.len(),
                |i: int|
                    if 0 <= i < self.slots@.len() {
                        self.slots@[i].model()
                    } else {
                        ValueView::Null
                    },
            ),
            entries: Seq::new(
                self.entries@.len(),
                |i: int|
                    if 0 <= i < self.entries@.len() {
                        (self.entries@[i].0.model(), self.entries@[i].1.model())
                    } else {
                        (ValueView::Null, ValueView::Null)
                    },
            ),
        }
    }
}

impl View for Value {
    type V = ValueView;

    open spec fn view(&self) -> ValueView {
        self.model()
    }
}

impl View for List {
    type V = ListView;

    open spec fn view(&self) -> ListView {
        self.model()
    }
}

impl Value {
    /// Whether two values are the same: of one kind, and equal in what they
    /// hold. Containers are the same where their slots and their
    /// registrations are, one by one.
    pub fn same(&self, other: &Value) -> (r: bool)
        ensures
            r == (self@ == other@),
        decreases self,
    {
        match (self, other) {
            (Value::Number(a), Value::Number(b)) => a.same(b),
            (Value::String(a), Value::String(b)) => *a == *b,
            (Value::Boolean(a), Value::Boolean(b)) => *a == *b,
            (Value::List(a), Value::List(b)) => a.same(b),
            (Value::Null, Value::Null) => true,
            _ => false,
        }
    }
}

impl List {
    /// Whether two containers hold the same slots and the same registrations,
    /// in the same order.
    pub fn same(&self, other: &List) -> (r: bool)
        ensures
            r == (self@ == other@),
        decreases self,
    {
        if self.slots.len() != other.slots.len() || self.entries.len() != other.entries.len() {
            assert(self@.slots.len() != other@.slots.len() || self@.entries.len()
                != other@.entries.len());
            return false;
        }
        let mut i: usize = 0;
        while i < self.slots.len()
            invariant
                i <= self.slots@.len() == other.slots@.len(),
                forall|j: int| 0 <= j < i ==> self@.slots[j] == other@.slots[j],
            decreases self.slots@.len() - i,
        {
            if !self.slots[i].same(&other.slots[i]) {
                assert(self@.slots[i as int] != other@.slots[i as int]);
                return false;
            }
            i += 1;
        }
        let mut k: usize = 0;
        while k < self.entries.len()
            invariant
                k <= self.entries@.len() == other.entries@.len(),
                self@.slots =~= other@.slots,
                forall|j: int| 0 <= j < k ==> self@.entries[j] == other@.entries[j],
            decreases self.entries@.len() - k,
        {
            let same_key = self.entries[k].0.same(&other.entries[k].0);
            let same_value = self.entries[k].1.same(&other.entries[k].1);
            if !same_key || !same_value {
                assert(self@.entries[k as int] != other@.entries[k as int]);
                return false;
            }
            k += 1;
        }
        assert(self@.entries =~= other@.entries);
        true
    }

    /// A container with no slot and no registration.
    pub fn new() -> (list: List)
        ensures
            list@ == ListView::empty(),
    {
        let list = List { slots: Vec::new(), entries: Vec::new() };
        assert(list@.slots =~= Seq::empty());
        assert(list@.entries =~= Seq::empty());
        list
    }

    /// The number of slots.
    pub fn len(&self) -> (n: usize)
        ensures
            n == self@.len(),
    {
        self.slots.len()
    }

    /// Puts `value` into a new slot at the end.
    pub fn append(&mut self, value: Value)
        ensures
            final(self)@ == old(self)@.append(value@),
    {
        self.slots.push(value);
        assert(self@.slots =~= old(self)@.slots.push(value@));
        assert(self@.entries =~= old(self)@.entries);
    }

    /// Registers `value` under `key`. A later lookup under an equal key finds
    /// `value`, until another value is registered under that key.
    pub fn set(&mut self, key: Value, value: Value)
        ensures
            final(self)@ == old(self)@.set(key@, value@),
    {
        self.entries.push((key, value));
        assert(self@.slots =~= old(self)@.slots);
        assert(self@.entries =~= old(self)@.entries.push((key@, value@)));
    }

    /// The value in the slot at `position`, counted from one; `None` where
    /// the container has no such slot.
    pub fn get(&self, position: usize) -> (slot: Option<&Value>)
        ensures
            match slot {
                Some(value) => 1 <= position <= self@.len() && value@ == self@.slots[position - 1],
                None => !(1 <= position <= self@.len()),
            },
    {
        if 1 <= position && position <= self.slots.len() {
            Some(&self.slots[position - 1])
        } else {
            None
        }
    }

    /// The number of registrations that were made, counting those that a
    /// later one under the same key has overtaken.
    pub fn registrations(&self) -> (n: usize)
        ensures
            n == self@.entries.len(),
    {
        self.entries.len()
    }

    /// The key and the value of a registration, by the order in which the
    /// registrations were made, counted from zero.
    pub fn registration(&self, index: usize) -> (pair: Option<(&Value, &Value)>)
        ensures
            match pair {
                Some((key, value)) => index < self@.entries.len() && (key@, value@)
                    == self@.entries[index as int],
                None => index >= self@.entries.len(),
            },
    {
        if index < self.entries.len() {
            Some((&self.entries[index].0, &self.entries[index].1))
        } else {
            None
        }
    }

    /// Looks `key` up: the value registered last under a key that is the
    /// same as `key`, or `None` where nothing is registered under it.
    pub fn lookup(&self, key: &Value) -> (found: Option<&Value>)
        ensures
            match found {
                Some(value) => self@.lookup(key@) == Some(value@),
                None => self@.lookup(key@) is None,
            },
    {
        let mut k: usize = self.entries.len();
        assert(self@.entries.take(k as int) =~= self@.entries);
        while k > 0
            invariant
                k <= self.entries@.len(),
                self@.lookup(key@) == registered(self@.entries.take(k as int), key@),
            decreases k,
        {
            k -= 1;
            assert(self@.entries.take(k + 1).last() == self@.entries[k as int]);
            assert(self@.entries.take(k + 1).drop_last() =~= self@.entries.take(k as int));
            if self.entries[k].0.same(key) {
                return Some(&self.entries[k].1);
            }
        }
        None
    }
}

impl PartialEq for Value {
    fn eq(&self, other: &Value) -> (r: bool) {
        self.same(other)
    }
}

impl vstd::std_specs::cmp::PartialEqSpecImpl for Value {
    open spec fn obeys_eq_spec() -> bool {
        true
    }

    open spec fn eq_spec(&self, other: &Value) -> bool {
        self@ == other@
    }
}

impl PartialEq for List {
    fn eq(&self, other: &List) -> (r: bool) {
        self.same(other)
    }
}

impl vstd::std_specs::cmp::PartialEqSpecImpl for List {
    open spec fn obeys_eq_spec() -> bool {
        true
    }

    open spec fn eq_spec(&self, other: &List) -> bool {
        self@ == other@
    }
}

impl Clone for Value {
    fn clone(&self) -> (copy: Value)
        ensures
            copy@ == self@,
        decreases self,
    {
        match self {
            Value::Number(number) => Value::Number(number.clone()),
            Value::String(text) => Value::String(text.clone()),
            Value::Boolean(b) => Value::Boolean(*b),
            Value::List(list) => Value::List(list.clone()),
            Value::Null => Value::Null,
        }
    }
}

impl Clone for List {
    fn clone(&self) -> (copy: List)
        ensures
            copy@ == self@,
        decreases self,
    {
        let mut slots: Vec<Value> = Vec::new();
        let mut i: usize = 0;
        while i < self.slots.len()
            invariant
                i <= self.slots@.len(),
                slots@.len() == i,
                forall|j: int| 0 <= j < i ==> (#[trigger] slots@[j])@ == self.slots@[j]@,
            decreases self.slots@.len() - i,
        {
            slots.push(self.slots[i].clone());
            i += 1;
        }
        let mut entries: Vec<(Value, Value)> = Vec::new();
        let mut k: usize = 0;
        while k < self.entries.len()
            invariant
                k <= self.entries@.len(),
                entries@.len() == k,
                forall|j: int|
                    0 <= j < k ==> (#[trigger] entries@[j]).0@ == self.entries@[j].0@
                        && entries@[j].1@ == self.entries@[j].1@,
            decreases self.entries@.len() - k,
        {
            entries.push((self.entries[k].0.clone(), self.entries[k].1.clone()));
            k += 1;
        }
        let copy = List { slots, entries };
        assert(copy@.slots =~= self@.slots);
        assert(copy@.entries =~= self@.entries);
        copy
    }
}

} // verus!
