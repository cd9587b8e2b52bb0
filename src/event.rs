//! Field values and the path-addressed event that a mapping reads and writes.
use vstd::prelude::*;

verus! {

/// The model of a `Value`: numbers are kept as the decimal text they were written in.
pub enum ValueView {
    Str(Seq<char>),
    Number(Seq<char>),
    Boolean(bool),
    Null,
}

/// A scalar field value.
#[derive(Debug)]
pub enum Value {
    Str(String),
    /// A number, held as its decimal literal text (`-`? digits, optionally `.` digits).
    Number(String),
    Boolean(bool),
    Null,
}

impl View for Value {
    type V = ValueView;

    open spec fn view(&self) -> ValueView {
        match self {
            Value::Str(s) => ValueView::Str(s@),
            Value::Number(n) => ValueView::Number(n@),
            Value::Boolean(b) => ValueView::Boolean(*b),
            Value::Null => ValueView::Null,
        }
    }
}

impl Value {
    /// An independent copy of this value.
    pub fn duplicate(&self) -> (r: Value)
        ensures
            r@ == self@,
    {
        match self {
            Value::Str(s) => Value::Str(s.clone()),
            Value::Number(n) => Value::Number(n.clone()),
            Value::Boolean(b) => Value::Boolean(*b),
            Value::Null => Value::Null,
        }
    }
}

/// A structured record whose fields are addressed by dot-separated paths.
#[derive(Debug)]
pub struct Event {
    fields: Vec<(String, Value)>,
}

impl View for Event {
    type V = Map<Seq<char>, ValueView>;

    closed spec fn view(&self) -> Map<Seq<char>, ValueView> {
        Map::new(
            |k: Seq<char>| exists|i: int| 0 <= i < self.fields.len() && self.fields[i].0@ == k,
            |k: Seq<char>|
                self.fields[choose|i: int| 0 <= i < self.fields.len() && self.fields[i].0@ == k].1@,
        )
    }
}

impl Event {
    /// Paths are unique among the stored entries.
    pub closed spec fn wf(&self) -> bool {
        forall|i: int, j: int|
            0 <= i < j < self.fields.len() ==> self.fields[i].0@ != self.fields[j].0@
    }

    proof fn lemma_view_at(&self, i: int)
        requires
            self.wf(),
            0 <= i < self.fields.len(),
        ensures
            self@.contains_key(self.fields[i].0@),
            self@[self.fields[i].0@] == self.fields[i].1@,
    {
        let k = self.fields[i].0@;
        assert(self@.contains_key(k));
        let j = choose|j: int| 0 <= j < self.fields.len() && self.fields[j].0@ == k;
        assert(i == j);
    }

    proof fn lemma_view(&self)
        requires
            self.wf(),
        ensures
            forall|i: int|
                0 <= i < self.fields.len() ==> #[trigger] self@.contains_key(self.fields[i].0@)
                    && self@[self.fields[i].0@] == self.fields[i].1@,
            forall|k: Seq<char>|
                #[trigger] self@.contains_key(k) ==> exists|i: int|
                    0 <= i < self.fields.len() && self.fields[i].0@ == k,
    {
        assert forall|i: int| 0 <= i < self.fields.len() implies #[trigger] self@.contains_key(
            self.fields[i].0@,
        ) && self@[self.fields[i].0@] == self.fields[i].1@ by {
            self.lemma_view_at(i);
        }
    }

    /// An event with no fields.
    pub fn new() -> (r: Event)
        ensures
            r.wf(),
            r@ == Map::<Seq<char>, ValueView>::empty(),
    {
        let r = Event { fields: Vec::new() };
        assert(r@ =~= Map::<Seq<char>, ValueView>::empty());
        r
    }

    fn position(&self, path: &String) -> (r: Option<usize>)
        requires
            self.wf(),
        ensures
            match r {
                Some(i) => i < self.fields.len() && self.fields[i as int].0@ == path@,
                None => !self@.contains_key(path@),
            },
    {
        let mut i: usize = 0;
        while i < self.fields.len()
            invariant
                i <= self.fields.len(),
                forall|j: int| 0 <= j < i ==> self.fields[j].0@ != path@,
            decreases self.fields.len() - i,
        {
            if self.fields[i].0 == *path {
                return Some(i);
            }
            i = i + 1;
        }
        None
    }

    /// The value stored at `path`, if any.
    pub fn get(&self, path: &str) -> (r: Option<Value>)
        requires
            self.wf(),
        ensures
            r.is_some() == self@.contains_key(path@),
            r.is_some() ==> r.unwrap()@ == self@[path@],
    {
        let key = String::from_str(path);
        match self.position(&key) {
            Some(i) => {
                proof {
                    self.lemma_view_at(i as int);
                }
                Some(self.fields[i].1.duplicate())
            },
            None => None,
        }
    }

    /// Stores `value` at `path`, replacing what was there.
    pub fn insert(&mut self, path: &str, value: Value)
        requires
            old(self).wf(),
        ensures
            final(self).wf(),
            final(self)@ == old(self)@.insert(path@, value@),
    {
        let ghost pre = *self;
        proof {
            pre.lemma_view();
        }
        let key = String::from_str(path);
        match self.position(&key) {
            Some(i) => {
                self.fields.set(i, (key, value));
                assert(self.wf());
                proof {
                    self.lemma_view();
                    assert(pre@.contains_key(pre.fields[i as int].0@));
                    assert(self@.contains_key(self.fields[i as int].0@));
                    assert forall|k: Seq<char>| #[trigger] self@.contains_key(k) == pre@.insert(path@, value@).contains_key(k) by {
                        if pre@.contains_key(k) {
                            let j = choose|j: int| 0 <= j < pre.fields.len() && pre.fields[j].0@ == k;
                            assert(self.fields[j].0@ == k);
                        }
                        if self@.contains_key(k) {
                            let j = choose|j: int| 0 <= j < self.fields.len() && self.fields[j].0@ == k;
                            assert(pre.fields[j].0@ == k);
                        }
                    }
                    assert forall|k: Seq<char>| #[trigger] self@.contains_key(k) implies self@[k] == pre@.insert(path@, value@)[k] by {
                        let j = choose|j: int| 0 <= j < self.fields.len() && self.fields[j].0@ == k;
                        assert(pre.fields[j].0@ == k);
                    }
                    assert(self@ =~= pre@.insert(path@, value@));
                }
            },
            None => {
                self.fields.push((key, value));
                assert(self.wf());
                proof {
                    self.lemma_view();
                    let last = self.fields.len() - 1;
                    assert(self@.contains_key(self.fields[last].0@));
                    assert forall|k: Seq<char>| #[trigger] self@.contains_key(k) == pre@.insert(path@, value@).contains_key(k) by {
                        if pre@.contains_key(k) {
                            let j = choose|j: int| 0 <= j < pre.fields.len() && pre.fields[j].0@ == k;
                            assert(self.fields[j].0@ == k);
                        }
                        if self@.contains_key(k) {
                            let j = choose|j: int| 0 <= j < self.fields.len() && self.fields[j].0@ == k;
                            if j < pre.fields.len() {
                                assert(pre.fields[j].0@ == k);
                            }
                        }
                    }
                    assert forall|k: Seq<char>| #[trigger] self@.contains_key(k) implies self@[k] == pre@.insert(path@, value@)[k] by {
                        let j = choose|j: int| 0 <= j < self.fields.len() && self.fields[j].0@ == k;
                        if j < pre.fields.len() {
                            assert(pre.fields[j].0@ == k);
                        }
                    }
                    assert(self@ =~= pre@.insert(path@, value@));
                }
            },
        }
    }

    /// A deep, independent copy of this event.
    pub fn snapshot(&self) -> (r: Event)
        requires
            self.wf(),
        ensures
            r.wf(),
            r@ == self@,
    {
        let mut fields: Vec<(String, Value)> = Vec::new();
        let mut i: usize = 0;
        while i < self.fields.len()
            invariant
                i <= self.fields.len(),
                fields.len() == i,
                forall|j: int| 0 <= j < i ==> fields[j].0@ == self.fields[j].0@ && fields[j].1@ == self.fields[j].1@,
            decreases self.fields.len() - i,
        {
            let e = &self.fields[i];
            fields.push((e.0.clone(), e.1.duplicate()));
            i = i + 1;
        }
        let r = Event { fields };
        assert(r.wf());
        proof {
            r.lemma_view();
            self.lemma_view();
            assert forall|k: Seq<char>| #[trigger] r@.contains_key(k) == self@.contains_key(k) by {
                if r@.contains_key(k) {
                    let j = choose|j: int| 0 <= j < r.fields.len() && r.fields[j].0@ == k;
                    assert(self.fields[j].0@ == k);
                }
                if self@.contains_key(k) {
                    let j = choose|j: int| 0 <= j < self.fields.len() && self.fields[j].0@ == k;
                    assert(r.fields[j].0@ == k);
                }
            }
            assert forall|k: Seq<char>| #[trigger] r@.contains_key(k) implies r@[k] == self@[k] by {
                let j = choose|j: int| 0 <= j < r.fields.len() && r.fields[j].0@ == k;
                assert(self.fields[j].0@ == k);
            }
            assert(r@ =~= self@);
        }
        r
    }
}

} // verus!
