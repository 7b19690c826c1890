//! Fields of a submitted form: each name with its values in the order they
//! came.

use vstd::prelude::*;
use crate::text::{decimal_i64, parse_i64, trim, trimmed};

verus! {

/// The values given for `key`, the first entry with that name deciding.
pub open spec fn lookup(fields: Seq<(String, Vec<String>)>, key: Seq<char>) -> Option<Seq<String>>
    decreases fields.len(),
{
    if fields.len() == 0 {
        None
    } else if fields[0].0@ == key {
        Some(fields[0].1@)
    } else {
        lookup(fields.drop_first(), key)
    }
}

/// The numbers among the values, each read after trimming; values that do
/// not read as an `i64` are left out.
pub open spec fn numbers_of(values: Seq<String>) -> Seq<i64>
    decreases values.len(),
{
    if values.len() == 0 {
        Seq::empty()
    } else {
        let rest = numbers_of(values.drop_last());
        match decimal_i64(trimmed(values.last()@)) {
            Some(v) => rest.push(v),
            None => rest,
        }
    }
}

proof fn lemma_lookup_set(fields: Seq<(String, Vec<String>)>, i: int, e: (String, Vec<String>))
    requires
        0 <= i < fields.len(),
        e.0@ == fields[i].0@,
        forall|j: int| 0 <= j < i ==> (#[trigger] fields[j]).0@ != fields[i].0@,
    ensures
        forall|k: Seq<char>|
            #[trigger] lookup(fields.update(i, e), k) == if k == e.0@ {
                Some(e.1@)
            } else {
                lookup(fields, k)
            },
    decreases i,
{
    let u = fields.update(i, e);
    if i > 0 {
        assert(u.drop_first() == fields.drop_first().update(i - 1, e));
        assert forall|j: int| 0 <= j < i - 1 implies (#[trigger] fields.drop_first()[j]).0@
            != fields.drop_first()[i - 1].0@ by {
            assert(fields[j + 1].0@ != fields[i].0@);
        }
        lemma_lookup_set(fields.drop_first(), i - 1, e);
        assert(fields[0].0@ != fields[i].0@);
        assert forall|k: Seq<char>| #[trigger] lookup(u, k) == if k == e.0@ {
            Some(e.1@)
        } else {
            lookup(fields, k)
        } by {
            assert(u[0] == fields[0]);
            assert(lookup(fields.drop_first().update(i - 1, e), k) == if k == e.0@ {
                Some(e.1@)
            } else {
                lookup(fields.drop_first(), k)
            });
        }
    } else {
        assert(u.drop_first() == fields.drop_first());
        assert forall|k: Seq<char>| #[trigger] lookup(u, k) == if k == e.0@ {
            Some(e.1@)
        } else {
            lookup(fields, k)
        } by {
            assert(u[0] == e);
        }
    }
}

proof fn lemma_lookup_push(fields: Seq<(String, Vec<String>)>, e: (String, Vec<String>))
    ensures
        forall|k: Seq<char>|
            #[trigger] lookup(fields.push(e), k) == if lookup(fields, k) is Some {
                lookup(fields, k)
            } else if k == e.0@ {
                Some(e.1@)
            } else {
                None
            },
    decreases fields.len(),
{
    if fields.len() > 0 {
        assert(fields.push(e).drop_first() == fields.drop_first().push(e));
        lemma_lookup_push(fields.drop_first(), e);
    } else {
        assert(fields.push(e).drop_first() == fields);
    }
}

/// The fields of a form.
pub struct FormFields {
    items: Vec<(String, Vec<String>)>,
}

impl FormFields {
    /// The values given for `key`, in order.
    pub closed spec fn values(&self, key: Seq<char>) -> Option<Seq<String>> {
        lookup(self.items@, key)
    }

    /// Whether every name has at least one value.
    pub closed spec fn wf(&self) -> bool {
        forall|i: int| 0 <= i < self.items@.len() ==> (#[trigger] self.items@[i]).1@.len() > 0
    }

    /// A form without fields.
    pub fn new() -> (r: FormFields)
        ensures
            r.wf(),
            forall|k: Seq<char>| #[trigger] r.values(k) is None,
    {
        FormFields { items: Vec::new() }
    }

    fn position(&self, key: &str) -> (r: Option<usize>)
        ensures
            match r {
                Some(i) => {
                    &&& i < self.items@.len()
                    &&& self.items@[i as int].0@ == key@
                    &&& self.values(key@) == Some(self.items@[i as int].1@)
                    &&& forall|j: int| 0 <= j < i ==> (#[trigger] self.items@[j]).0@ != key@
                },
                None => self.values(key@) is None,
            },
    {
        let k = key.to_owned();
        let mut i: usize = 0;
        assert(self.items@.skip(0) == self.items@);
        while i < self.items.len()
            invariant
                i <= self.items@.len(),
                k@ == key@,
                lookup(self.items@, key@) == lookup(self.items@.skip(i as int), key@),
                forall|j: int| 0 <= j < i ==> (#[trigger] self.items@[j]).0@ != key@,
            decreases self.items.len() - i,
        {
            assert(self.items@.skip(i as int)[0] == self.items@[i as int]);
            assert(self.items@.skip(i as int).drop_first() == self.items@.skip(i + 1));
            if self.items[i].0.eq(&k) {
                return Some(i);
            }
            i = i + 1;
        }
        None
    }

    /// Adds a value to the field `name`.
    pub fn add(&mut self, name: &str, value: String)
        requires
            old(self).wf(),
        ensures
            final(self).wf(),
            final(self).values(name@) == Some(
                match old(self).values(name@) {
                    Some(l) => l,
                    None => Seq::<String>::empty(),
                }.push(value),
            ),
            forall|k: Seq<char>| k != name@ ==> #[trigger] final(self).values(k) == old(self).values(k),
    {
        let pos = self.position(name);
        match pos {
            Some(i) => {
                let ghost before = self.items@;
                let (n, mut l) = self.items.remove(i);
                l.push(value);
                self.items.insert(i, (n, l));
                proof {
                    assert(self.items@ == before.update(i as int, (n, l)));
                    lemma_lookup_set(before, i as int, (n, l));
                }
            },
            None => {
                let ghost before = self.items@;
                let mut l: Vec<String> = Vec::new();
                l.push(value);
                let n = name.to_owned();
                let ghost e = (n, l);
                self.items.push((n, l));
                proof {
                    lemma_lookup_push(before, e);
                }
            },
        }
    }

    /// The last value of the field `key`.
    pub fn get_one(&self, key: &str) -> (r: Option<&String>)
        requires
            self.wf(),
        ensures
            match self.values(key@) {
                Some(l) => r == Some(&l.last()),
                None => r is None,
            },
    {
        match self.position(key) {
            Some(i) => {
                let l = &self.items[i].1;
                Some(&l[l.len() - 1])
            },
            None => None,
        }
    }

    /// All values of the field `key`.
    pub fn get_list(&self, key: &str) -> (r: Option<&[String]>)
        ensures
            match self.values(key@) {
                Some(l) => r is Some && r->0@ == l,
                None => r is None,
            },
    {
        match self.position(key) {
            Some(i) => Some(self.items[i].1.as_slice()),
            None => None,
        }
    }

    /// The values of the field `key` that read as numbers.
    pub fn get_list_i64(&self, key: &str) -> (r: Option<Vec<i64>>)
        ensures
            match self.values(key@) {
                Some(l) => r is Some && r->0@ == numbers_of(l),
                None => r is None,
            },
    {
        match self.get_list(key) {
            None => None,
            Some(l) => {
                let mut out: Vec<i64> = Vec::new();
                let mut i: usize = 0;
                while i < l.len()
                    invariant
                        i <= l@.len(),
                        out@ == numbers_of(l@.take(i as int)),
                    decreases l.len() - i,
                {
                    assert(l@.take(i + 1).drop_last() == l@.take(i as int));
                    match parse_i64(trim(l[i].as_str())) {
                        Some(v) => out.push(v),
                        None => {},
                    }
                    i = i + 1;
                }
                assert(l@.take(i as int) == l@);
                Some(out)
            },
        }
    }
}

} // verus!
