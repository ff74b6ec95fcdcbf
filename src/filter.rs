use vstd::prelude::*;
use crate::nits::{NitsCommandType, NitsSender};

verus! {

/// The state of an "all" checkbox over a set of filters.
#[derive(Clone, Copy, Debug, PartialEq, Eq, Structural)]
pub enum CheckboxState {
    Checked,
    Unchecked,
    Indeterminate,
}

/// The flag recorded for `k`, if any.
pub open spec fn filter_get<T>(m: Seq<(T, bool)>, k: T) -> Option<bool> {
    if exists|i: int| 0 <= i < m.len() && m[i].0 == k {
        Some(m[choose|i: int| 0 <= i < m.len() && m[i].0 == k].1)
    } else {
        None
    }
}

/// Whether an item keyed `k` is shown: unknown keys are.
pub open spec fn filter_passes<T>(m: Seq<(T, bool)>, k: T) -> bool {
    match filter_get(m, k) {
        Some(b) => b,
        None => true,
    }
}

pub open spec fn unique_keys<T>(m: Seq<(T, bool)>) -> bool {
    forall|i: int, j: int| 0 <= i < j < m.len() ==> m[i].0 != m[j].0
}

/// A show/hide flag per key, as a list of distinct keys in order of first use.
#[derive(Clone, Debug)]
pub struct FilterUiMap<T> {
    map: Vec<(T, bool)>,
}

impl<T> View for FilterUiMap<T> {
    type V = Seq<(T, bool)>;

    closed spec fn view(&self) -> Seq<(T, bool)> {
        self.map@
    }
}

impl<T: Copy> FilterUiMap<T> {
    pub open spec fn wf(&self) -> bool {
        unique_keys(self@)
    }

    pub fn new() -> (r: Self)
        ensures
            r@ == Seq::<(T, bool)>::empty(),
            r.wf(),
    {
        FilterUiMap { map: Vec::new() }
    }

    /// `Checked` when every flag is set (or there is none), `Unchecked` when
    /// none is, `Indeterminate` otherwise.
    pub fn get_all(&self) -> (r: CheckboxState)
        ensures
            (forall|i: int| 0 <= i < self@.len() ==> self@[i].1) ==> r == CheckboxState::Checked,
            (exists|i: int| 0 <= i < self@.len() && !self@[i].1) && (forall|i: int|
                0 <= i < self@.len() ==> !self@[i].1) ==> r == CheckboxState::Unchecked,
            (exists|i: int| 0 <= i < self@.len() && !self@[i].1) && (exists|i: int|
                0 <= i < self@.len() && self@[i].1) ==> r == CheckboxState::Indeterminate,
    {
        let mut all_true = true;
        let mut all_false = true;
        let mut i: usize = 0;
        while i < self.map.len()
            invariant
                i <= self.map@.len(),
                all_true == (forall|j: int| 0 <= j < i ==> self.map@[j].1),
                all_false == (forall|j: int| 0 <= j < i ==> !self.map@[j].1),
            decreases self.map@.len() - i,
        {
            if self.map[i].1 {
                all_false = false;
            } else {
                all_true = false;
            }
            i = i + 1;
        }
        proof {
            assert(self@ == self.map@);
        }
        if all_true {
            CheckboxState::Checked
        } else if all_false {
            CheckboxState::Unchecked
        } else {
            CheckboxState::Indeterminate
        }
    }

    /// Sets every flag to `value`.
    pub fn set_all(&mut self, value: bool)
        requires
            old(self).wf(),
        ensures
            final(self).wf(),
            final(self)@.len() == old(self)@.len(),
            forall|i: int| 0 <= i < old(self)@.len() ==> #[trigger] final(self)@[i] == (old(self)@[i].0, value),
    {
        let mut i: usize = 0;
        while i < self.map.len()
            invariant
                i <= self.map@.len(),
                self.map@.len() == old(self)@.len(),
                forall|j: int| 0 <= j < i ==> #[trigger] self.map@[j] == (old(self)@[j].0, value),
                forall|j: int| i <= j < self.map@.len() ==> #[trigger] self.map@[j] == old(self)@[j],
            decreases self.map@.len() - i,
        {
            let k = self.map[i].0;
            self.map.set(i, (k, value));
            i = i + 1;
        }
        proof {
            assert forall|a: int, b: int| 0 <= a < b < self@.len() implies self@[a].0 != self@[b].0 by {
                assert(old(self)@[a].0 != old(self)@[b].0);
            }
        }
    }
}

proof fn lemma_filter_get_at<T>(m: Seq<(T, bool)>, i: int)
    requires
        unique_keys(m),
        0 <= i < m.len(),
    ensures
        filter_get(m, m[i].0) == Some(m[i].1),
{
}

/// `set` on a map of unique keys: the key gets `value`, every other key keeps its flag.
proof fn lemma_filter_set<T>(old_m: Seq<(T, bool)>, new_m: Seq<(T, bool)>, key: T, value: bool)
    requires
        unique_keys(old_m),
        (exists|i: int| 0 <= i < old_m.len() && old_m[i].0 == key && new_m == old_m.update(i, (key, value)))
            || ((forall|i: int| 0 <= i < old_m.len() ==> old_m[i].0 != key) && new_m == old_m.push((key, value))),
    ensures
        unique_keys(new_m),
        forall|k: T| #[trigger] filter_get(new_m, k) == if k == key {
            Some(value)
        } else {
            filter_get(old_m, k)
        },
{
    assert(unique_keys(new_m)) by {
        assert forall|a: int, b: int| 0 <= a < b < new_m.len() implies new_m[a].0 != new_m[b].0 by {
            if b < old_m.len() {
                assert(new_m[a].0 == old_m[a].0 && new_m[b].0 == old_m[b].0);
            } else {
                assert(new_m[a].0 == old_m[a].0);
            }
        }
    }
    assert forall|k: T| #[trigger] filter_get(new_m, k) == if k == key {
        Some(value)
    } else {
        filter_get(old_m, k)
    } by {
        if k == key {
            if exists|i: int| 0 <= i < old_m.len() && old_m[i].0 == key && new_m == old_m.update(i, (key, value)) {
                let i = choose|i: int| 0 <= i < old_m.len() && old_m[i].0 == key && new_m == old_m.update(i, (key, value));
                lemma_filter_get_at(new_m, i);
            } else {
                lemma_filter_get_at(new_m, old_m.len() as int);
            }
        } else {
            if exists|i: int| 0 <= i < old_m.len() && old_m[i].0 == k {
                let i = choose|i: int| 0 <= i < old_m.len() && old_m[i].0 == k;
                assert(new_m[i] == old_m[i]);
                lemma_filter_get_at(new_m, i);
                lemma_filter_get_at(old_m, i);
            } else {
                assert forall|i: int| 0 <= i < new_m.len() implies new_m[i].0 != k by {
                    if i < old_m.len() {
                        assert(new_m[i].0 == old_m[i].0);
                    }
                }
            }
        }
    }
}

impl FilterUiMap<NitsSender> {
    fn find(&self, key: &NitsSender) -> (r: Option<usize>)
        ensures
            r matches Some(i) ==> i < self@.len() && self@[i as int].0 == *key,
            r is None ==> forall|i: int| 0 <= i < self@.len() ==> self@[i].0 != *key,
    {
        let mut i: usize = 0;
        while i < self.map.len()
            invariant
                i <= self.map@.len(),
                forall|j: int| 0 <= j < i ==> self.map@[j].0 != *key,
            decreases self.map@.len() - i,
        {
            if self.map[i].0 == *key {
                return Some(i);
            }
            i = i + 1;
        }
        None
    }

    /// The flag of `key`, if one was set.
    pub fn get(&self, key: &NitsSender) -> (r: Option<bool>)
        requires
            self.wf(),
        ensures
            r == filter_get(self@, *key),
    {
        match self.find(key) {
            Some(i) => {
                proof {
                    lemma_filter_get_at(self@, i as int);
                }
                Some(self.map[i].1)
            },
            None => None,
        }
    }

    pub fn set(&mut self, key: NitsSender, value: bool)
        requires
            old(self).wf(),
        ensures
            final(self).wf(),
            forall|k: NitsSender| #[trigger] filter_get(final(self)@, k) == if k == key {
                Some(value)
            } else {
                filter_get(old(self)@, k)
            },
    {
        match self.find(&key) {
            Some(i) => {
                self.map.set(i, (key, value));
            },
            None => {
                self.map.push((key, value));
            },
        }
        proof {
            lemma_filter_set(old(self)@, self@, key, value);
        }
    }

    /// Sets `key` to `default` unless it already has a flag.
    pub fn set_default(&mut self, key: NitsSender, default: bool)
        requires
            old(self).wf(),
        ensures
            final(self).wf(),
            filter_get(old(self)@, key) is Some ==> final(self)@ == old(self)@,
            filter_get(old(self)@, key) is None ==> forall|k: NitsSender| #[trigger] filter_get(final(self)@, k) == if k == key {
                Some(default)
            } else {
                filter_get(old(self)@, k)
            },
    {
        if self.get(&key).is_none() {
            self.set(key, default);
        }
    }
}

impl FilterUiMap<NitsCommandType> {
    fn find(&self, key: &NitsCommandType) -> (r: Option<usize>)
        ensures
            r matches Some(i) ==> i < self@.len() && self@[i as int].0 == *key,
            r is None ==> forall|i: int| 0 <= i < self@.len() ==> self@[i].0 != *key,
    {
        let mut i: usize = 0;
        while i < self.map.len()
            invariant
                i <= self.map@.len(),
                forall|j: int| 0 <= j < i ==> self.map@[j].0 != *key,
            decreases self.map@.len() - i,
        {
            if self.map[i].0 == *key {
                return Some(i);
            }
            i = i + 1;
        }
        None
    }

    /// The flag of `key`, if one was set.
    pub fn get(&self, key: &NitsCommandType) -> (r: Option<bool>)
        requires
            self.wf(),
        ensures
            r == filter_get(self@, *key),
    {
        match self.find(key) {
            Some(i) => {
                proof {
                    lemma_filter_get_at(self@, i as int);
                }
                Some(self.map[i].1)
            },
            None => None,
        }
    }

    pub fn set(&mut self, key: NitsCommandType, value: bool)
        requires
            old(self).wf(),
        ensures
            final(self).wf(),
            forall|k: NitsCommandType| #[trigger] filter_get(final(self)@, k) == if k == key {
                Some(value)
            } else {
                filter_get(old(self)@, k)
            },
    {
        match self.find(&key) {
            Some(i) => {
                self.map.set(i, (key, value));
            },
            None => {
                self.map.push((key, value));
            },
        }
        proof {
            lemma_filter_set(old(self)@, self@, key, value);
        }
    }

    /// Sets `key` to `default` unless it already has a flag.
    pub fn set_default(&mut self, key: NitsCommandType, default: bool)
        requires
            old(self).wf(),
        ensures
            final(self).wf(),
            filter_get(old(self)@, key) is Some ==> final(self)@ == old(self)@,
            filter_get(old(self)@, key) is None ==> forall|k: NitsCommandType| #[trigger] filter_get(final(self)@, k) == if k == key {
                Some(default)
            } else {
                filter_get(old(self)@, k)
            },
    {
        if self.get(&key).is_none() {
            self.set(key, default);
        }
    }
}

} // verus!
