use vstd::prelude::*;
use std::collections::VecDeque;
use vstd::std_specs::iter::IteratorSpec;
use crate::batch::{
    as_mapping, mapping_of, aligned_row, aligned_value, apply_batch, apply_entry, batch_index, batch_ticks, batch_view, channel_index,
    first_index, is_nits_name, lemma_channel_index, lemma_first_index_bound, lookup, nits_channel_name,
    nits_index, nits_name, senders_of, tick_in_range, types_of, unique_names, BatchView, TickView,
    COMMONLINE_CHANNEL,
};

use crate::export::{
    lemma_load_columns, lemma_max_series_len, lemma_present_keys, load_view,
    max_series_len, names_view, present_keys, row_to_batch, rows_view, series_of, table_rows,
};

use crate::nits::{
    decode_tick, sorted_entries, tick_senders, tick_types, NitsCommand, NitsRelativeCarCount, NitsTick,
    CAR_CHANNELS, command_type_of,
};

use crate::queue::{keep_last, lemma_keep_last_append, QueueMaxLen};
use crate::settings::Settings;

verus! {

/// The store as plain values.
pub struct StoreState {
    pub channels: BatchView,
    pub timeline: Seq<TickView>,
    pub senders: Set<int>,
    pub command_types: Set<u8>,
}

/// The store after ingesting batch `b` with retention `cap`; the batch is
/// read as a mapping, so a repeated name counts once, by its last entry.
pub open spec fn ingest_view(v: StoreState, b: BatchView, cap: nat) -> StoreState {
    ingest_entries(v, as_mapping(b), cap)
}

/// The store after ingesting the entries of `b` in order, each as it stands.
pub open spec fn ingest_entries(v: StoreState, b: BatchView, cap: nat) -> StoreState {
    StoreState {
        channels: apply_batch(v.channels, b, cap),
        timeline: keep_last(v.timeline + batch_ticks(b), cap),
        senders: v.senders.union(senders_of(batch_ticks(b))),
        command_types: v.command_types.union(types_of(batch_ticks(b))),
    }
}

/// The store after a change of retention to `cap`.
pub open spec fn resize_view(v: StoreState, cap: nat) -> StoreState {
    let timeline = keep_last(v.timeline, cap);
    StoreState {
        channels: v.channels.map_values(|c: (Seq<char>, Seq<u32>)| (c.0, keep_last(c.1, cap))),
        timeline,
        senders: senders_of(timeline),
        command_types: types_of(timeline),
    }
}

/// Persisted ticks as plain values.
pub open spec fn ticks_view(ts: Seq<(NitsCommand, Vec<(NitsRelativeCarCount, NitsCommand)>)>) -> Seq<TickView> {
    ts.map_values(|t: (NitsCommand, Vec<(NitsRelativeCarCount, NitsCommand)>)| (t.0, t.1@))
}

/// Whether persisted ticks are ones the store could hold: positions in
/// increasing order, each within [-15, 15].
pub open spec fn valid_ticks(ts: Seq<TickView>) -> bool {
    forall|t: int| 0 <= t < ts.len() ==> sorted_entries(#[trigger] ts[t].1) && tick_in_range(ts[t])
}

/// The store: one bounded series per ordinary channel, the bounded timeline
/// of decoded ticks, and the sets of sender positions and command types seen.
pub struct Values {
    values: Vec<(String, QueueMaxLen<u32>)>,
    settings: Settings,
    nits_timeline: QueueMaxLen<NitsTick>,
    /// `nits_senders[k + 15]`: position `k` has sent a command.
    nits_senders: Vec<bool>,
    /// `nits_command_types[c]`: command type `c` has been seen.
    nits_command_types: Vec<bool>,
}

pub open spec fn flags_senders(f: Seq<bool>) -> Set<int> {
    Set::new(|k: int| -15 <= k <= 15 && f[k + 15])
}

pub open spec fn flags_types(f: Seq<bool>) -> Set<u8> {
    Set::new(|c: u8| f[c as int])
}

impl Values {
    /// The channels, in order of creation: name and retained samples.
    pub closed spec fn channels(&self) -> BatchView {
        self.values@.map_values(|e: (String, QueueMaxLen<u32>)| (e.0@, e.1@))
    }

    /// The retained ticks, oldest first.
    pub closed spec fn timeline(&self) -> Seq<TickView> {
        self.nits_timeline@.map_values(|t: NitsTick| t@)
    }

    pub closed spec fn senders(&self) -> Set<int> {
        flags_senders(self.nits_senders@)
    }

    pub closed spec fn command_types(&self) -> Set<u8> {
        flags_types(self.nits_command_types@)
    }

    /// The retention length.
    pub closed spec fn retention(&self) -> nat {
        self.settings.retention_period as nat
    }

    pub open spec fn state(&self) -> StoreState {
        StoreState {
            channels: self.channels(),
            timeline: self.timeline(),
            senders: self.senders(),
            command_types: self.command_types(),
        }
    }

    pub closed spec fn keeps_history(&self) -> bool {
        self.settings.keep_values
    }

    pub closed spec fn wf(&self) -> bool {
        &&& forall|j: int|
            0 <= j < self.values@.len() ==> (#[trigger] self.values@[j]).1.wf()
                && self.values@[j].1.capacity() == self.settings.retention_period
        &&& unique_names(self.channels())
        &&& forall|j: int| 0 <= j < self.channels().len() ==> !is_nits_name(#[trigger] self.channels()[j].0)
        &&& self.nits_timeline.wf()
        &&& self.nits_timeline.capacity() == self.settings.retention_period
        &&& forall|t: int| 0 <= t < self.nits_timeline@.len() ==> (#[trigger] self.nits_timeline@[t]).wf()
            && tick_in_range(self.nits_timeline@[t]@)
        &&& self.nits_senders@.len() == 31
        &&& self.nits_command_types@.len() == 256
    }

    /// An empty store with the retention of `settings`.
    pub fn new(settings: &Settings) -> (r: Self)
        ensures
            r.wf(),
            r.retention() == settings.retention_period,
            r.keeps_history() == settings.keep_values,
            r.channels() == BatchView::empty(),
            r.timeline() == Seq::<TickView>::empty(),
            r.senders() == Set::<int>::empty(),
            r.command_types() == Set::<u8>::empty(),
    {
        let r = Values {
            values: Vec::new(),
            settings: *settings,
            nits_timeline: QueueMaxLen::with_capacity(settings.max_len()),
            nits_senders: vec![false; 31],
            nits_command_types: vec![false; 256],
        };
        proof {
            assert(r.channels() =~= BatchView::empty());
            assert(r.timeline() =~= Seq::<TickView>::empty());
            assert(r.senders() =~= Set::<int>::empty());
            assert(r.command_types() =~= Set::<u8>::empty());
        }
        r
    }

    /// The configuration in force.
    pub fn settings(&self) -> (r: Settings)
        ensures
            r.retention_period == self.retention(),
            r.keep_values == self.keeps_history(),
    {
        self.settings
    }

    /// The retention length.
    pub fn max_len(&self) -> (r: usize)
        ensures
            r == self.retention(),
    {
        self.settings.max_len()
    }

    fn find_key(&self, key: &str) -> (r: Option<usize>)
        requires
            self.wf(),
        ensures
            r matches Some(j) ==> j < self.channels().len() && self.channels()[j as int].0 == key@,
            r is None ==> forall|j: int| 0 <= j < self.channels().len() ==> self.channels()[j].0 != key@,
            r is None <==> channel_index(self.channels(), key@) < 0,
            r matches Some(j) ==> channel_index(self.channels(), key@) == j,
    {
        let k = String::from_str(key);
        let mut j: usize = 0;
        while j < self.values.len()
            invariant
                j <= self.values@.len(),
                k@ == key@,
                self.wf(),
                forall|m: int| 0 <= m < j ==> self.channels()[m].0 != key@,
            decreases self.values@.len() - j,
        {
            if self.values[j].0 == k {
                proof {
                    lemma_channel_index(self.channels(), key@, j as int);
                }
                return Some(j);
            }
            j = j + 1;
        }
        None
    }

    /// Whether a series called `key` exists.
    pub fn contains_key(&self, key: &str) -> (r: bool)
        requires
            self.wf(),
        ensures
            r == exists|j: int| 0 <= j < self.channels().len() && self.channels()[j].0 == key@,
    {
        self.find_key(key).is_some()
    }

    /// The names of all series, in order of creation.
    pub fn keys(&self) -> (r: Vec<String>)
        ensures
            r@.len() == self.channels().len(),
            forall|j: int| 0 <= j < r@.len() ==> r@[j]@ == self.channels()[j].0,
    {
        let mut r: Vec<String> = Vec::new();
        let mut j: usize = 0;
        while j < self.values.len()
            invariant
                j <= self.values@.len(),
                r@.len() == j,
                forall|m: int| 0 <= m < j ==> r@[m]@ == self.channels()[m].0,
            decreases self.values@.len() - j,
        {
            r.push(self.values[j].0.clone());
            j = j + 1;
        }
        r
    }

    /// The retained samples of `key`, oldest first.
    pub fn values_for_key(&self, key: &str) -> (r: Option<&VecDeque<u32>>)
        requires
            self.wf(),
        ensures
            r is None <==> channel_index(self.channels(), key@) < 0,
            r matches Some(q) ==> q@ == self.channels()[channel_index(self.channels(), key@)].1,
    {
        match self.find_key(key) {
            Some(j) => Some(self.values[j].1.vec()),
            None => None,
        }
    }

    /// An iterator over the retained samples of `key`, oldest first.
    pub fn iter_for_key(&self, key: &str) -> (r: Option<std::collections::vec_deque::Iter<'_, u32>>)
        requires
            self.wf(),
        ensures
            r is None <==> channel_index(self.channels(), key@) < 0,
            r matches Some(it) ==> it.remaining() == self.channels()[channel_index(self.channels(), key@)].1.map_values(
                |x: u32| &x,
            ),
    {
        match self.find_key(key) {
            Some(j) => Some(self.values[j].1.iter()),
            None => None,
        }
    }

    /// The most recent sample of `key`.
    pub fn get_last_value_for_key(&self, key: &str) -> (r: Option<u32>)
        requires
            self.wf(),
        ensures
            channel_index(self.channels(), key@) < 0 ==> r is None,
            channel_index(self.channels(), key@) >= 0 ==> {
                let s = self.channels()[channel_index(self.channels(), key@)].1;
                &&& s.len() == 0 ==> r is None
                &&& s.len() > 0 ==> r == Some(s.last())
            },
    {
        match self.find_key(key) {
            Some(j) => match self.values[j].1.back() {
                Some(v) => Some(*v),
                None => None,
            },
            None => None,
        }
    }

    /// The retained ticks, oldest first.
    pub fn get_nits_timeline(&self) -> (r: &VecDeque<NitsTick>)
        ensures
            r@.map_values(|t: NitsTick| t@) == self.timeline(),
    {
        self.nits_timeline.vec()
    }

    /// Every sender position in the index, in increasing order.
    pub fn get_nits_senders(&self) -> (r: Vec<NitsRelativeCarCount>)
        requires
            self.wf(),
        ensures
            forall|i: int, j: int| 0 <= i < j < r@.len() ==> r@[i].0 < r@[j].0,
            forall|k: int| self.senders().contains(k) <==> exists|i: int| 0 <= i < r@.len() && r@[i].0 == k,
    {
        let mut r: Vec<NitsRelativeCarCount> = Vec::new();
        let mut k: i32 = -15;
        while k <= 15
            invariant
                -15 <= k <= 16,
                self.wf(),
                forall|i: int, j: int| 0 <= i < j < r@.len() ==> r@[i].0 < r@[j].0,
                forall|i: int| 0 <= i < r@.len() ==> r@[i].0 < k,
                forall|m: int| -15 <= m < k ==> (self.senders().contains(m) <==> exists|i: int| 0 <= i < r@.len() && r@[i].0 == m),
                forall|i: int| 0 <= i < r@.len() ==> self.senders().contains(r@[i].0 as int),
            decreases 16 - k,
        {
            let ghost r0 = r@;
            let seen = self.nits_senders[(k + 15) as usize];
            if seen {
                r.push(NitsRelativeCarCount(k));
            }
            proof {
                assert forall|m: int| -15 <= m < k + 1 implies (self.senders().contains(m)
                    <==> exists|i: int| 0 <= i < r@.len() && r@[i].0 == m) by {
                    if exists|i: int| 0 <= i < r0.len() && r0[i].0 == m {
                        let i = choose|i: int| 0 <= i < r0.len() && r0[i].0 == m;
                        assert(r@[i] == r0[i]);
                    }
                    if exists|i: int| 0 <= i < r@.len() && r@[i].0 == m {
                        let i = choose|i: int| 0 <= i < r@.len() && r@[i].0 == m;
                        if i < r0.len() {
                            assert(r@[i] == r0[i]);
                        }
                    }
                    if m == k && seen {
                        assert(r@[r0.len() as int].0 == m);
                    }
                }
            }
            k = k + 1;
        }
        r
    }

    /// Every command type in the index, in increasing order.
    pub fn get_nits_command_types(&self) -> (r: Vec<u8>)
        requires
            self.wf(),
        ensures
            forall|i: int, j: int| 0 <= i < j < r@.len() ==> r@[i] < r@[j],
            forall|c: u8| self.command_types().contains(c) <==> exists|i: int| 0 <= i < r@.len() && r@[i] == c,
    {
        let mut r: Vec<u8> = Vec::new();
        let mut c: usize = 0;
        while c < 256
            invariant
                c <= 256,
                self.wf(),
                forall|i: int, j: int| 0 <= i < j < r@.len() ==> r@[i] < r@[j],
                forall|i: int| 0 <= i < r@.len() ==> r@[i] < c,
                forall|m: u8| m < c ==> (self.command_types().contains(m) <==> exists|i: int| 0 <= i < r@.len() && r@[i] == m),
                forall|i: int| 0 <= i < r@.len() ==> self.command_types().contains(r@[i]),
            decreases 256 - c,
        {
            let ghost r0 = r@;
            let seen = self.nits_command_types[c];
            if seen {
                r.push(c as u8);
            }
            proof {
                assert forall|m: u8| m < c + 1 implies (self.command_types().contains(m)
                    <==> exists|i: int| 0 <= i < r@.len() && r@[i] == m) by {
                    if exists|i: int| 0 <= i < r0.len() && r0[i] == m {
                        let i = choose|i: int| 0 <= i < r0.len() && r0[i] == m;
                        assert(r@[i] == r0[i]);
                    }
                    if exists|i: int| 0 <= i < r@.len() && r@[i] == m {
                        let i = choose|i: int| 0 <= i < r@.len() && r@[i] == m;
                        if i < r0.len() {
                            assert(r@[i] == r0[i]);
                        }
                    }
                    if m == c && seen {
                        assert(r@[r0.len() as int] == m);
                    }
                }
            }
            c = c + 1;
        }
        r
    }
}

fn copy_vec<T: Copy>(v: &Vec<T>) -> (r: Vec<T>)
    ensures
        r@ == v@,
{
    let mut r: Vec<T> = Vec::new();
    let mut i: usize = 0;
    while i < v.len()
        invariant
            i <= v@.len(),
            r@ == v@.take(i as int),
        decreases v@.len() - i,
    {
        r.push(v[i]);
        proof {
            assert(r@ =~= v@.take(i + 1));
        }
        i = i + 1;
    }
    proof {
        assert(v@.take(i as int) =~= v@);
    }
    r
}

/// Adds a tick's senders and command types to the index flags.
fn index_tick(senders: &mut Vec<bool>, types: &mut Vec<bool>, tick: &NitsTick)
    requires
        old(senders)@.len() == 31,
        old(types)@.len() == 256,
        tick_in_range(tick@),
    ensures
        final(senders)@.len() == 31,
        final(types)@.len() == 256,
        flags_senders(final(senders)@) == flags_senders(old(senders)@).union(tick_senders(tick@)),
        flags_types(final(types)@) == flags_types(old(types)@).union(tick_types(tick@)),
{
    let ghost s0 = flags_senders(senders@);
    let ghost t0 = flags_types(types@);
    let ghost tv = tick@;
    let ct = tick.commonline().get_command_type();
    types.set(ct as usize, true);
    let ghost g0 = types@;
    let ghost f0 = senders@;
    let cmds = tick.commands();
    let mut e: usize = 0;
    while e < cmds.len()
        invariant
            e <= cmds@.len(),
            cmds@ == tv.1,
            tick_in_range(tv),
            senders@.len() == 31,
            types@.len() == 256,
            forall|k: int|
                -15 <= k <= 15 ==> (#[trigger] senders@[k + 15] <==> (f0[k + 15] || exists|i: int|
                    0 <= i < e && tv.1[i].0.0 == k)),
            forall|c: int|
                0 <= c < 256 ==> (#[trigger] types@[c] <==> (g0[c] || exists|i: int|
                    0 <= i < e && command_type_of(tv.1[i].1.0) == c)),
        decreases cmds@.len() - e,
    {
        let (sender, command) = cmds[e];
        proof {
            assert(-15 <= tv.1[e as int].0.0 <= 15);
        }
        let ghost fs = senders@;
        let ghost gs = types@;
        senders.set((sender.0 + 15) as usize, true);
        let cty = command.get_command_type();
        types.set(cty as usize, true);
        proof {
            assert forall|k: int|
                -15 <= k <= 15 implies (#[trigger] senders@[k + 15] <==> (f0[k + 15] || exists|i: int|
                    0 <= i < e + 1 && tv.1[i].0.0 == k)) by {
                if exists|i: int| 0 <= i < e + 1 && tv.1[i].0.0 == k {
                    let i = choose|i: int| 0 <= i < e + 1 && tv.1[i].0.0 == k;
                    if i < e {
                        assert(fs[k + 15]);
                    }
                }
                if k == sender.0 {
                    assert(tv.1[e as int].0.0 == k);
                }
                if exists|i: int| 0 <= i < e && tv.1[i].0.0 == k {
                    let i = choose|i: int| 0 <= i < e && tv.1[i].0.0 == k;
                    assert(0 <= i < e + 1 && tv.1[i].0.0 == k);
                }
            }
            assert forall|c: int|
                0 <= c < 256 implies (#[trigger] types@[c] <==> (g0[c] || exists|i: int|
                    0 <= i < e + 1 && command_type_of(tv.1[i].1.0) == c)) by {
                if exists|i: int| 0 <= i < e + 1 && command_type_of(tv.1[i].1.0) == c {
                    let i = choose|i: int| 0 <= i < e + 1 && command_type_of(tv.1[i].1.0) == c;
                    if i < e {
                        assert(gs[c]);
                    }
                }
                if c == cty as int {
                    assert(command_type_of(tv.1[e as int].1.0) == c);
                }
                if exists|i: int| 0 <= i < e && command_type_of(tv.1[i].1.0) == c {
                    let i = choose|i: int| 0 <= i < e && command_type_of(tv.1[i].1.0) == c;
                    assert(0 <= i < e + 1 && command_type_of(tv.1[i].1.0) == c);
                }
            }
        }
        e = e + 1;
    }
    proof {
        assert(flags_senders(senders@) =~= s0.union(tick_senders(tv)));
        assert forall|c: u8| #[trigger] flags_types(types@).contains(c) <==> t0.union(tick_types(tv)).contains(c) by {
            assert(types@[c as int] <==> (g0[c as int] || exists|i: int|
                0 <= i < e && command_type_of(tv.1[i].1.0) == c));
        }
        assert(flags_types(types@) =~= t0.union(tick_types(tv)));
    }
}

impl Values {
    /// Extends the series `key`, creating it when new.
    fn push(&mut self, key: &String, values: Vec<u32>)
        requires
            old(self).wf(),
            !is_nits_name(key@),
        ensures
            final(self).wf(),
            final(self).channels() == apply_entry(old(self).channels(), key@, values@, old(self).retention()),
            final(self).timeline() == old(self).timeline(),
            final(self).senders() == old(self).senders(),
            final(self).command_types() == old(self).command_types(),
            final(self).settings == old(self).settings,
    {
        let ghost c0 = self.channels();
        match self.find_key(key.as_str()) {
            Some(j) => {
                self.values[j].1.extend(values);
                proof {
                    assert(self.channels() =~= c0.update(j as int, (key@, keep_last(c0[j as int].1 + values@, self.retention()))));
                }
            },
            None => {
                let mut q: QueueMaxLen<u32> = QueueMaxLen::with_capacity(self.settings.max_len());
                q.extend(values);
                self.values.push((key.clone(), q));
                proof {
                    assert(self.channels() =~= c0.push((key@, keep_last(values@, self.retention()))));
                }
            },
        }
    }

    /// Appends a decoded tick to the timeline and adds its senders and
    /// command types to the indices.
    fn record_tick(&mut self, tick: NitsTick)
        requires
            old(self).wf(),
            tick.wf(),
            tick_in_range(tick@),
        ensures
            final(self).wf(),
            final(self).channels() == old(self).channels(),
            final(self).timeline() == keep_last(old(self).timeline().push(tick@), old(self).retention()),
            final(self).senders() == old(self).senders().union(tick_senders(tick@)),
            final(self).command_types() == old(self).command_types().union(tick_types(tick@)),
            final(self).settings == old(self).settings,
    {
        let ghost tv = tick@;
        index_tick(&mut self.nits_senders, &mut self.nits_command_types, &tick);
        self.nits_timeline.push(tick);
        proof {
            let cap = self.retention();
            assert(self.timeline() =~= keep_last(old(self).timeline().push(tv), cap));
        }
    }

    /// The time-aligned sample of every car channel for commonline position
    /// `i` of `len`; `car[ch]` is where channel `ch` stands in the batch.
    fn aligned_car_row(
        data: &Vec<(String, Vec<u32>)>,
        car: &Vec<Option<usize>>,
        i: usize,
        len: usize,
    ) -> (r: Vec<Option<u32>>)
        requires
            i < len,
            car@.len() == CAR_CHANNELS,
            forall|c: int|
                0 <= c < CAR_CHANNELS ==> match #[trigger] car@[c] {
                    Some(k) => first_index(batch_view(data@), nits_name(c)) == Some(k as int),
                    None => first_index(batch_view(data@), nits_name(c)) is None,
                },
        ensures
            r@ == aligned_row(batch_view(data@), i as int, len as int),
    {
        let ghost bv = batch_view(data@);
        let mut row: Vec<Option<u32>> = Vec::new();
        let mut c: usize = 0;
        while c < CAR_CHANNELS
            invariant
                c <= CAR_CHANNELS,
                i < len,
                car@.len() == CAR_CHANNELS,
                bv == batch_view(data@),
                forall|c: int|
                    0 <= c < CAR_CHANNELS ==> match #[trigger] car@[c] {
                        Some(k) => first_index(bv, nits_name(c)) == Some(k as int),
                        None => first_index(bv, nits_name(c)) is None,
                    },
                row@ == aligned_row(bv, i as int, len as int).take(c as int),
            decreases CAR_CHANNELS - c,
        {
            let v = match car[c] {
                Some(k) => {
                    proof {
                        assert(first_index(bv, nits_name(c as int)) == Some(k as int));
                        assert(k < data@.len()) by {
                            lemma_first_index_bound(bv, nits_name(c as int));
                        }
                    }
                    aligned_value(&data[k].1, i, len)
                },
                None => None,
            };
            row.push(v);
            proof {
                assert(row@ =~= aligned_row(bv, i as int, len as int).take(c + 1));
            }
            c = c + 1;
        }
        proof {
            assert(row@ =~= aligned_row(bv, i as int, len as int));
        }
        row
    }

    /// Ingests a batch of new samples: channel name and samples, oldest
    /// first. The batch is a mapping: where a name repeats, its last entry
    /// counts and the others are ignored. Each sample of the commonline
    /// channel decodes to one tick, read against every car channel
    /// right-aligned to the batch's last instant; the ticks go to the
    /// timeline and their senders and command types to the indices. Every
    /// other channel's series is extended, or created. NITS channels keep
    /// no series.
    pub fn add_data(&mut self, data: Vec<(String, Vec<u32>)>)
        requires
            old(self).wf(),
        ensures
            final(self).wf(),
            final(self).retention() == old(self).retention(),
            final(self).keeps_history() == old(self).keeps_history(),
            final(self).state() == ingest_view(old(self).state(), batch_view(data@), old(self).retention()),
    {
        let entries = mapping_of(&data);
        self.ingest_entries(&entries);
    }

    /// Ingests the entries of a batch in order, each as it stands.
    fn ingest_entries(&mut self, data: &Vec<(String, Vec<u32>)>)
        requires
            old(self).wf(),
        ensures
            final(self).wf(),
            final(self).retention() == old(self).retention(),
            final(self).keeps_history() == old(self).keeps_history(),
            final(self).state() == ingest_entries(old(self).state(), batch_view(data@), old(self).retention()),
    {
        let ghost bv = batch_view(data@);
        let ghost cap = self.retention();
        let ghost c0 = self.channels();
        let ghost tl0 = self.timeline();
        let ghost s0 = self.senders();
        let ghost t0 = self.command_types();
        let ghost ticks = batch_ticks(bv);
        let mut car: Vec<Option<usize>> = Vec::new();
        let mut ch: usize = 0;
        while ch < CAR_CHANNELS
            invariant
                ch <= CAR_CHANNELS,
                car@.len() == ch,
                bv == batch_view(data@),
                forall|c: int|
                    0 <= c < ch ==> match #[trigger] car@[c] {
                        Some(k) => first_index(bv, nits_name(c)) == Some(k as int),
                        None => first_index(bv, nits_name(c)) is None,
                    },
            decreases CAR_CHANNELS - ch,
        {
            car.push(batch_index(data, &nits_channel_name(ch)));
            ch = ch + 1;
        }
        match batch_index(data, &nits_channel_name(COMMONLINE_CHANNEL)) {
            Some(k) => {
                proof {
                    lemma_first_index_bound(bv, nits_name(COMMONLINE_CHANNEL as int));
                }
                let len = data[k].1.len();
                let mut i: usize = 0;
                while i < len
                    invariant
                        self.wf(),
                        i <= len,
                        k < data@.len(),
                        len == data@[k as int].1@.len(),
                        bv == batch_view(data@),
                        lookup(bv, nits_name(COMMONLINE_CHANNEL as int)) == Some(data@[k as int].1@),
                        ticks == batch_ticks(bv),
                        ticks.len() == len,
                        car@.len() == CAR_CHANNELS,
                        forall|c: int|
                            0 <= c < CAR_CHANNELS ==> match #[trigger] car@[c] {
                                Some(k) => first_index(bv, nits_name(c)) == Some(k as int),
                                None => first_index(bv, nits_name(c)) is None,
                            },
                        self.retention() == cap,
                        self.keeps_history() == old(self).keeps_history(),
                        self.channels() == c0,
                        self.timeline() == keep_last(tl0 + ticks.take(i as int), cap),
                        self.senders() == s0.union(senders_of(ticks.take(i as int))),
                        self.command_types() == t0.union(types_of(ticks.take(i as int))),
                    decreases len - i,
                {
                    let row = Self::aligned_car_row(data, &car, i, len);
                    let tick = decode_tick(NitsCommand(data[k].1[i]), &row);
                    let ghost tv = tick@;
                    proof {
                        assert(tv == ticks[i as int]);
                    }
                    self.record_tick(tick);
                    proof {
                        let prev = tl0 + ticks.take(i as int);
                        lemma_keep_last_append(prev, seq![tv], cap);
                        assert(keep_last(prev, cap) + seq![tv] =~= keep_last(prev, cap).push(tv));
                        assert(prev + seq![tv] =~= tl0 + ticks.take(i + 1));
                        assert(ticks.take(i + 1).drop_last() =~= ticks.take(i as int));
                        assert(self.senders() =~= s0.union(senders_of(ticks.take(i + 1))));
                        assert(self.command_types() =~= t0.union(types_of(ticks.take(i + 1))));
                    }
                    i = i + 1;
                }
                proof {
                    assert(ticks.take(len as int) =~= ticks);
                }
            },
            None => {
                proof {
                    assert(ticks =~= Seq::<TickView>::empty());
                    assert(tl0 + ticks =~= tl0);
                    assert(s0.union(senders_of(ticks)) =~= s0);
                    assert(t0.union(types_of(ticks)) =~= t0);
                    assert(keep_last(tl0, cap) == tl0) by {
                        reveal(Values::wf);
                        assert(self.nits_timeline@.len() == tl0.len());
                    }
                }
            },
        }
        self.add_series(data);
    }

    /// Extends, or creates, the series of every ordinary channel of a batch.
    fn add_series(&mut self, data: &Vec<(String, Vec<u32>)>)
        requires
            old(self).wf(),
        ensures
            final(self).wf(),
            final(self).settings == old(self).settings,
            final(self).channels() == apply_batch(old(self).channels(), batch_view(data@), old(self).retention()),
            final(self).timeline() == old(self).timeline(),
            final(self).senders() == old(self).senders(),
            final(self).command_types() == old(self).command_types(),
    {
        let ghost bv = batch_view(data@);
        let ghost cap = self.retention();
        let ghost c0 = self.channels();
        let mut e: usize = 0;
        while e < data.len()
            invariant
                self.wf(),
                e <= data@.len(),
                bv == batch_view(data@),
                self.settings == old(self).settings,
                self.retention() == cap,
                self.channels() == apply_batch(c0, bv.take(e as int), cap),
                self.timeline() == old(self).timeline(),
                self.senders() == old(self).senders(),
                self.command_types() == old(self).command_types(),
            decreases data@.len() - e,
        {
            proof {
                assert(bv.take(e + 1).drop_last() =~= bv.take(e as int));
            }
            if nits_index(&data[e].0).is_none() {
                self.push(&data[e].0, copy_vec(&data[e].1));
            }
            e = e + 1;
        }
        proof {
            assert(bv.take(e as int) =~= bv);
        }
    }

    /// Recomputes both indices from the retained timeline.
    fn update_nits(&mut self)
        requires
            old(self).wf(),
        ensures
            final(self).wf(),
            final(self).channels() == old(self).channels(),
            final(self).timeline() == old(self).timeline(),
            final(self).settings == old(self).settings,
            final(self).senders() == senders_of(old(self).timeline()),
            final(self).command_types() == types_of(old(self).timeline()),
    {
        let ghost tl = self.timeline();
        self.nits_senders = vec![false; 31];
        self.nits_command_types = vec![false; 256];
        proof {
            assert(self.senders() =~= senders_of(tl.take(0)));
            assert(self.command_types() =~= types_of(tl.take(0)));
        }
        let n = self.nits_timeline.len();
        let mut t: usize = 0;
        while t < n
            invariant
                t <= n,
                n == self.nits_timeline@.len(),
                tl == self.timeline(),
                self.values == old(self).values,
                self.settings == old(self).settings,
                self.nits_timeline == old(self).nits_timeline,
                old(self).wf(),
                self.nits_senders@.len() == 31,
                self.nits_command_types@.len() == 256,
                self.senders() == senders_of(tl.take(t as int)),
                self.command_types() == types_of(tl.take(t as int)),
            decreases n - t,
        {
            let tick = self.nits_timeline.get(t).unwrap();
            proof {
                assert(tick_in_range(self.nits_timeline@[t as int]@));
                assert(tl[t as int] == tick@);
            }
            index_tick(&mut self.nits_senders, &mut self.nits_command_types, tick);
            proof {
                assert(tl.take(t + 1).drop_last() =~= tl.take(t as int));
            }
            t = t + 1;
        }
        proof {
            assert(tl.take(n as int) =~= tl);
        }
    }

    /// Changes the retention length: every series and the timeline keep
    /// their last `max_len` entries, and both indices are rebuilt from the
    /// retained timeline.
    pub fn set_max_len(&mut self, max_len: u32)
        requires
            old(self).wf(),
        ensures
            final(self).wf(),
            final(self).retention() == max_len,
            final(self).keeps_history() == old(self).keeps_history(),
            final(self).channels().len() == old(self).channels().len(),
            forall|j: int|
                0 <= j < old(self).channels().len() ==> #[trigger] final(self).channels()[j] == (
                    old(self).channels()[j].0,
                    keep_last(old(self).channels()[j].1, max_len as nat),
                ),
            final(self).timeline() == keep_last(old(self).timeline(), max_len as nat),
            final(self).senders() == senders_of(final(self).timeline()),
            final(self).command_types() == types_of(final(self).timeline()),
            final(self).state() == resize_view(old(self).state(), max_len as nat),
    {
        let ghost c0 = self.channels();
        let ghost tl0 = self.timeline();
        let ghost q0 = self.nits_timeline@;
        let cap = max_len as usize;
        let mut j: usize = 0;
        while j < self.values.len()
            invariant
                j <= self.values@.len(),
                self.values@.len() == c0.len(),
                self.settings == old(self).settings,
                self.nits_timeline == old(self).nits_timeline,
                self.nits_senders == old(self).nits_senders,
                self.nits_command_types == old(self).nits_command_types,
                cap == max_len,
                old(self).wf(),
                forall|m: int| 0 <= m < c0.len() ==> #[trigger] self.values@[m].0@ == c0[m].0,
                forall|m: int|
                    0 <= m < j ==> #[trigger] self.values@[m].1@ == keep_last(c0[m].1, cap as nat)
                        && self.values@[m].1.wf() && self.values@[m].1.capacity() == cap,
                forall|m: int| j <= m < c0.len() ==> #[trigger] self.values@[m].1@ == c0[m].1,
            decreases self.values@.len() - j,
        {
            let ghost v0 = self.values@;
            self.values[j].1.set_max_len(cap);
            proof {
                assert forall|m: int| 0 <= m < c0.len() && m != j implies self.values@[m] == v0[m] by {}
                assert(self.values@[j as int].0 == v0[j as int].0);
            }
            j = j + 1;
        }
        self.nits_timeline.set_max_len(cap);
        self.settings.retention_period = max_len;
        proof {
            assert(self.channels().len() == c0.len());
            assert forall|m: int| 0 <= m < c0.len() implies #[trigger] self.channels()[m] == (
                c0[m].0,
                keep_last(c0[m].1, max_len as nat),
            ) by {}
            assert(self.timeline() =~= keep_last(tl0, max_len as nat));
            assert forall|t: int| 0 <= t < self.nits_timeline@.len() implies (#[trigger] self.nits_timeline@[t]).wf()
                && tick_in_range(self.nits_timeline@[t]@) by {
                assert(self.nits_timeline@[t] == q0[q0.len() - self.nits_timeline@.len() + t]);
            }
            assert forall|i: int, k: int| 0 <= i < k < self.channels().len() implies self.channels()[i].0 != self.channels()[k].0 by {
                assert(c0[i].0 != c0[k].0);
            }
        }
        self.update_nits();
        proof {
            assert(self.channels() =~= c0.map_values(
                |c: (Seq<char>, Seq<u32>)| (c.0, keep_last(c.1, max_len as nat)),
            ));
        }
    }

    /// Applies a new configuration: its retention (see `set_max_len`) and
    /// its history flag.
    pub fn set_settings(&mut self, settings: &Settings)
        requires
            old(self).wf(),
        ensures
            final(self).wf(),
            final(self).retention() == settings.retention_period,
            final(self).keeps_history() == settings.keep_values,
            final(self).channels().len() == old(self).channels().len(),
            forall|j: int|
                0 <= j < old(self).channels().len() ==> #[trigger] final(self).channels()[j] == (
                    old(self).channels()[j].0,
                    keep_last(old(self).channels()[j].1, settings.retention_period as nat),
                ),
            final(self).timeline() == keep_last(old(self).timeline(), settings.retention_period as nat),
            final(self).senders() == senders_of(final(self).timeline()),
            final(self).command_types() == types_of(final(self).timeline()),
    {
        self.settings.keep_values = settings.keep_values;
        self.set_max_len(settings.retention_period);
    }

    /// The table that a CSV export of `keys` holds: the header lists the keys
    /// that name a series, in the given order; row `r` holds each column's
    /// sample at `r` once every series is right-aligned to the longest.
    pub fn csv_table(&self, keys: &Vec<String>) -> (r: (Vec<String>, Vec<Vec<Option<u32>>>))
        requires
            self.wf(),
        ensures
            names_view(r.0@) == present_keys(self.channels(), names_view(keys@)),
            rows_view(r.1@) == table_rows(self.channels(), names_view(r.0@)),
    {
        let ghost chs = self.channels();
        let ghost kv = names_view(keys@);
        let mut header: Vec<String> = Vec::new();
        let mut cols: Vec<usize> = Vec::new();
        let mut n: usize = 0;
        let mut i: usize = 0;
        while i < keys.len()
            invariant
                self.wf(),
                chs == self.channels(),
                kv == names_view(keys@),
                i <= keys@.len(),
                names_view(header@) == present_keys(chs, kv.take(i as int)),
                cols@.len() == header@.len(),
                forall|c: int| 0 <= c < cols@.len() ==> #[trigger] cols@[c] == channel_index(chs, header@[c]@) && cols@[c] < chs.len(),
                n == max_series_len(chs, names_view(header@)),
            decreases keys@.len() - i,
        {
            proof {
                assert(kv.take(i + 1).drop_last() =~= kv.take(i as int));
            }
            match self.find_key(keys[i].as_str()) {
                Some(j) => {
                    let ghost h0 = names_view(header@);
                    header.push(keys[i].clone());
                    cols.push(j);
                    let l = self.values[j].1.len();
                    if l > n {
                        n = l;
                    }
                    proof {
                        assert(names_view(header@) =~= h0.push(kv[i as int]));
                        assert(names_view(header@).drop_last() =~= h0);
                    }
                },
                None => {},
            }
            i = i + 1;
        }
        proof {
            assert(kv.take(i as int) =~= kv);
        }
        let ghost hv = names_view(header@);
        proof {
            lemma_max_series_len(chs, hv);
        }
        let mut rows: Vec<Vec<Option<u32>>> = Vec::new();
        let mut r: usize = 0;
        while r < n
            invariant
                self.wf(),
                chs == self.channels(),
                hv == names_view(header@),
                cols@.len() == hv.len(),
                forall|c: int| 0 <= c < cols@.len() ==> #[trigger] cols@[c] == channel_index(chs, hv[c]) && cols@[c] < chs.len(),
                n == max_series_len(chs, hv),
                forall|c: int| 0 <= c < hv.len() ==> #[trigger] series_of(chs, hv[c]).len() <= n,
                r <= n,
                rows_view(rows@) == table_rows(chs, hv).take(r as int),
            decreases n - r,
        {
            let mut row: Vec<Option<u32>> = Vec::new();
            let mut c: usize = 0;
            while c < cols.len()
                invariant
                    self.wf(),
                    chs == self.channels(),
                    cols@.len() == hv.len(),
                    forall|c: int| 0 <= c < cols@.len() ==> #[trigger] cols@[c] == channel_index(chs, hv[c]) && cols@[c] < chs.len(),
                    forall|c: int| 0 <= c < hv.len() ==> #[trigger] series_of(chs, hv[c]).len() <= n,
                    r < n,
                    c <= cols@.len(),
                    n == max_series_len(chs, hv),
                    row@ == table_rows(chs, hv)[r as int].take(c as int),
                decreases cols@.len() - c,
            {
                let q = &self.values[cols[c]].1;
                proof {
                    assert(series_of(chs, hv[c as int]) == q@);
                    assert(series_of(chs, hv[c as int]).len() <= n);
                }
                let off = n - q.len();
                if r < off {
                    row.push(None);
                } else {
                    row.push(Some(*q.get(r - off).unwrap()));
                }
                proof {
                    assert(row@ =~= table_rows(chs, hv)[r as int].take(c + 1));
                }
                c = c + 1;
            }
            proof {
                assert(row@ =~= table_rows(chs, hv)[r as int]);
            }
            let ghost rows0 = rows@;
            rows.push(row);
            proof {
                assert(rows_view(rows@) =~= rows_view(rows0).push(row@));
                assert(rows_view(rows@) =~= table_rows(chs, hv).take(r + 1));
            }
            r = r + 1;
        }
        proof {
            assert(rows_view(rows@) =~= table_rows(chs, hv));
        }
        (header, rows)
    }

    /// Ingests each row as one batch: every filled cell becomes a single
    /// sample of the channel named above it.
    pub fn load_rows(&mut self, header: &Vec<String>, rows: &Vec<Vec<Option<u32>>>)
        requires
            old(self).wf(),
        ensures
            final(self).wf(),
            final(self).retention() == old(self).retention(),
            final(self).keeps_history() == old(self).keeps_history(),
            final(self).state() == load_view(old(self).state(), names_view(header@), rows_view(rows@), old(self).retention()),
    {
        let ghost hv = names_view(header@);
        let ghost rv = rows_view(rows@);
        let ghost cap = self.retention();
        let mut r: usize = 0;
        while r < rows.len()
            invariant
                self.wf(),
                r <= rows@.len(),
                hv == names_view(header@),
                rv == rows_view(rows@),
                self.retention() == cap,
                self.keeps_history() == old(self).keeps_history(),
                self.state() == load_view(old(self).state(), hv, rv.take(r as int), cap),
            decreases rows@.len() - r,
        {
            let batch = row_to_batch(header, &rows[r]);
            self.add_data(batch);
            proof {
                assert(rv.take(r + 1).drop_last() =~= rv.take(r as int));
            }
            r = r + 1;
        }
        proof {
            assert(rv.take(r as int) =~= rv);
        }
    }

    /// What is persisted of the store. The retention and the channel names
    /// always are; the samples, the timeline and both indices only when the
    /// settings ask to keep history, else they are left empty.
    pub fn snapshot(&self) -> (r: Values)
        requires
            self.wf(),
        ensures
            r.wf(),
            r.retention() == self.retention(),
            r.keeps_history() == self.keeps_history(),
            self.keeps_history() ==> r.state() == self.state(),
            !self.keeps_history() ==> r.state() == (StoreState {
                channels: self.channels().map_values(|c: (Seq<char>, Seq<u32>)| (c.0, Seq::<u32>::empty())),
                timeline: Seq::empty(),
                senders: Set::empty(),
                command_types: Set::empty(),
            }),
    {
        let keep = self.settings.keep_values;
        let cap = self.settings.max_len();
        let ghost chs = self.channels();
        let ghost target = if keep {
            chs
        } else {
            chs.map_values(|c: (Seq<char>, Seq<u32>)| (c.0, Seq::<u32>::empty()))
        };
        let mut values: Vec<(String, QueueMaxLen<u32>)> = Vec::new();
        let mut j: usize = 0;
        while j < self.values.len()
            invariant
                self.wf(),
                chs == self.channels(),
                keep == self.settings.keep_values,
                cap == self.settings.retention_period,
                target == (if keep { chs } else { chs.map_values(|c: (Seq<char>, Seq<u32>)| (c.0, Seq::<u32>::empty())) }),
                j <= self.values@.len(),
                values@.len() == j,
                forall|m: int| 0 <= m < j ==> (#[trigger] values@[m]).1.wf() && values@[m].1.capacity() == cap
                    && (values@[m].0@, values@[m].1@) == target[m],
            decreases self.values@.len() - j,
        {
            let mut q: QueueMaxLen<u32> = QueueMaxLen::with_capacity(cap);
            if keep {
                q.extend(self.values[j].1.to_vec());
                proof {
                    assert(self.values@[j as int].1.wf());
                    assert(Seq::<u32>::empty() + self.values@[j as int].1@ =~= self.values@[j as int].1@);
                }
            }
            values.push((self.values[j].0.clone(), q));
            j = j + 1;
        }
        let mut timeline: QueueMaxLen<NitsTick> = QueueMaxLen::with_capacity(cap);
        let mut senders: Vec<bool> = vec![false; 31];
        let mut types: Vec<bool> = vec![false; 256];
        if keep {
            let ghost tl = self.timeline();
            let n = self.nits_timeline.len();
            let mut t: usize = 0;
            while t < n
                invariant
                    self.wf(),
                    tl == self.timeline(),
                    n == self.nits_timeline@.len(),
                    n <= cap,
                    cap == self.settings.retention_period,
                    t <= n,
                    timeline.wf(),
                    timeline.capacity() == cap,
                    timeline@.len() == t,
                    timeline@.map_values(|x: NitsTick| x@) == tl.take(t as int),
                    forall|m: int| 0 <= m < t ==> (#[trigger] timeline@[m]).wf() && tick_in_range(timeline@[m]@),
                decreases n - t,
            {
                let tick = self.nits_timeline.get(t).unwrap().copy();
                proof {
                    assert(self.nits_timeline@[t as int].wf() && tick_in_range(self.nits_timeline@[t as int]@));
                }
                let ghost before = timeline@;
                timeline.push(tick);
                proof {
                    assert(keep_last(before.push(tick), cap as nat) == before.push(tick));
                    assert(timeline@.map_values(|x: NitsTick| x@) =~= tl.take(t + 1));
                    assert forall|m: int| 0 <= m < t + 1 implies (#[trigger] timeline@[m]).wf() && tick_in_range(timeline@[m]@) by {
                        if m < t {
                            assert(timeline@[m] == before[m]);
                        }
                    }
                }
                t = t + 1;
            }
            proof {
                assert(tl.take(n as int) =~= tl);
            }
            senders = copy_vec(&self.nits_senders);
            types = copy_vec(&self.nits_command_types);
        }
        let r = Values { values, settings: self.settings, nits_timeline: timeline, nits_senders: senders, nits_command_types: types };
        proof {
            assert(r.channels() =~= target);
            if !keep {
                assert(r.timeline() =~= Seq::<TickView>::empty());
                assert(r.senders() =~= Set::<int>::empty());
                assert(r.command_types() =~= Set::<u8>::empty());
            }
            assert forall|i: int, k: int| 0 <= i < k < r.channels().len() implies r.channels()[i].0 != r.channels()[k].0 by {
                assert(chs[i].0 != chs[k].0);
            }
            assert forall|i: int| 0 <= i < r.channels().len() implies !is_nits_name(#[trigger] r.channels()[i].0) by {
                assert(r.channels()[i].0 == chs[i].0);
            }
        }
        r
    }

    /// Rebuilds a store from persisted plain values: the series as
    /// ingesting `channels` into an empty store would leave them (NITS
    /// names are skipped), the last ticks up to the retention, and indices
    /// holding exactly the listed senders and command types. `None` when a
    /// tick or a sender could not have come from the store.
    pub fn restore(
        settings: &Settings,
        channels: &Vec<(String, Vec<u32>)>,
        ticks: &Vec<(NitsCommand, Vec<(NitsRelativeCarCount, NitsCommand)>)>,
        senders: &Vec<NitsRelativeCarCount>,
        command_types: &Vec<u8>,
    ) -> (r: Option<Values>)
        ensures
            r is Some <==> valid_ticks(ticks_view(ticks@)) && forall|i: int|
                0 <= i < senders@.len() ==> -15 <= #[trigger] senders@[i].0 <= 15,
            r matches Some(v) ==> {
                &&& v.wf()
                &&& v.retention() == settings.retention_period
                &&& v.keeps_history() == settings.keep_values
                &&& v.channels() == apply_batch(BatchView::empty(), batch_view(channels@), settings.retention_period as nat)
                &&& v.timeline() == keep_last(ticks_view(ticks@), settings.retention_period as nat)
                &&& v.senders() == Set::new(|k: int| exists|i: int| 0 <= i < senders@.len() && senders@[i].0 == k)
                &&& v.command_types() == Set::new(|c: u8| exists|i: int| 0 <= i < command_types@.len() && command_types@[i] == c)
            },
    {
        let ghost tv = ticks_view(ticks@);
        let ghost cap = settings.retention_period as nat;
        let mut v = Values::new(settings);
        v.add_series(channels);
        proof {
            assert(v.timeline() =~= keep_last(tv.take(0), cap));
        }
        let mut t: usize = 0;
        while t < ticks.len()
            invariant
                v.wf(),
                t <= ticks@.len(),
                tv == ticks_view(ticks@),
                v.retention() == cap,
                v.settings == *settings,
                v.channels() == apply_batch(BatchView::empty(), batch_view(channels@), cap),
                v.timeline() == keep_last(tv.take(t as int), cap),
                v.senders() == Set::<int>::empty(),
                v.command_types() == Set::<u8>::empty(),
                valid_ticks(tv.take(t as int)),
            decreases ticks@.len() - t,
        {
            let tick = match NitsTick::from_parts(ticks[t].0, copy_vec(&ticks[t].1)) {
                Some(tick) => tick,
                None => {
                    proof {
                        assert(!sorted_entries(tv[t as int].1));
                        assert(!valid_ticks(tv));
                    }
                    return None;
                },
            };
            let cmds = tick.commands();
            let mut e: usize = 0;
            while e < cmds.len()
                invariant
                    e <= cmds@.len(),
                    0 <= t < tv.len(),
                    tv == ticks_view(ticks@),
                    cmds@ == tv[t as int].1,
                    forall|i: int| 0 <= i < e ==> -15 <= #[trigger] cmds@[i].0.0 <= 15,
                decreases cmds@.len() - e,
            {
                if cmds[e].0.0 < -15 || cmds[e].0.0 > 15 {
                    proof {
                        assert(!tick_in_range(tv[t as int]));
                        assert(!valid_ticks(tv));
                    }
                    return None;
                }
                e = e + 1;
            }
            let ghost before = v.nits_timeline@;
            v.nits_timeline.push(tick);
            proof {
                let prev = tv.take(t as int);
                lemma_keep_last_append(prev, seq![tv[t as int]], cap);
                assert(prev + seq![tv[t as int]] =~= tv.take(t + 1));
                assert(keep_last(prev, cap) + seq![tv[t as int]] =~= keep_last(prev, cap).push(tv[t as int]));
                assert(v.timeline() =~= keep_last(before.map_values(|x: NitsTick| x@).push(tv[t as int]), cap));
                assert forall|m: int| 0 <= m < v.nits_timeline@.len() implies (#[trigger] v.nits_timeline@[m]).wf()
                    && tick_in_range(v.nits_timeline@[m]@) by {
                    let full = before.push(tick);
                    assert(v.nits_timeline@[m] == full[full.len() - v.nits_timeline@.len() + m]);
                }
                assert(valid_ticks(tv.take(t + 1))) by {
                    assert forall|m: int| 0 <= m < t + 1 implies sorted_entries(#[trigger] tv.take(t + 1)[m].1) && tick_in_range(tv.take(t + 1)[m]) by {
                        if m < t {
                            assert(tv.take(t + 1)[m] == tv.take(t as int)[m]);
                        }
                    }
                }
            }
            t = t + 1;
        }
        proof {
            assert(tv.take(t as int) =~= tv);
        }
        let mut i: usize = 0;
        while i < senders.len()
            invariant
                v.wf(),
                i <= senders@.len(),
                v.retention() == cap,
                v.settings == *settings,
                v.channels() == apply_batch(BatchView::empty(), batch_view(channels@), cap),
                v.timeline() == keep_last(tv, cap),
                valid_ticks(tv),
                v.senders() == Set::new(|k: int| exists|m: int| 0 <= m < i && senders@[m].0 == k),
                v.command_types() == Set::<u8>::empty(),
                forall|m: int| 0 <= m < i ==> -15 <= #[trigger] senders@[m].0 <= 15,
            decreases senders@.len() - i,
        {
            let k = senders[i].0;
            if k < -15 || k > 15 {
                return None;
            }
            let ghost f0 = v.nits_senders@;
            let ghost s_old = v.senders();
            v.nits_senders.set((k + 15) as usize, true);
            proof {
                assert forall|x: int| #[trigger] v.senders().contains(x) <==> Set::new(|k: int| exists|m: int| 0 <= m < i + 1 && senders@[m].0 == k).contains(x) by {
                    if exists|m: int| 0 <= m < i + 1 && senders@[m].0 == x {
                        let m = choose|m: int| 0 <= m < i + 1 && senders@[m].0 == x;
                        if m < i {
                            assert(-15 <= senders@[m].0 <= 15);
                            assert(s_old.contains(x));
                            assert(f0[x + 15]);
                        }
                    }
                    if x == k as int {
                        assert(senders@[i as int].0 == x);
                    }
                    if -15 <= x <= 15 && f0[x + 15] {
                        assert(Set::new(|k: int| exists|m: int| 0 <= m < i && senders@[m].0 == k).contains(x));
                        let m = choose|m: int| 0 <= m < i && senders@[m].0 == x;
                        assert(0 <= m < i + 1 && senders@[m].0 == x);
                    }
                }
                assert(v.senders() =~= Set::new(|k: int| exists|m: int| 0 <= m < i + 1 && senders@[m].0 == k));
            }
            i = i + 1;
        }
        let mut i: usize = 0;
        while i < command_types.len()
            invariant
                v.wf(),
                i <= command_types@.len(),
                v.retention() == cap,
                v.settings == *settings,
                v.channels() == apply_batch(BatchView::empty(), batch_view(channels@), cap),
                v.timeline() == keep_last(tv, cap),
                v.senders() == Set::new(|k: int| exists|m: int| 0 <= m < senders@.len() && senders@[m].0 == k),
                v.command_types() == Set::new(|c: u8| exists|m: int| 0 <= m < i && command_types@[m] == c),
            decreases command_types@.len() - i,
        {
            let c = command_types[i];
            let ghost f0 = v.nits_command_types@;
            let ghost t_old = v.command_types();
            v.nits_command_types.set(c as usize, true);
            proof {
                assert forall|x: u8| #[trigger] v.command_types().contains(x) <==> Set::new(|c: u8| exists|m: int| 0 <= m < i + 1 && command_types@[m] == c).contains(x) by {
                    if exists|m: int| 0 <= m < i + 1 && command_types@[m] == x {
                        let m = choose|m: int| 0 <= m < i + 1 && command_types@[m] == x;
                        if m < i {
                            assert(t_old.contains(x));
                            assert(f0[x as int]);
                        }
                    }
                    if x == c {
                        assert(command_types@[i as int] == x);
                    }
                    if f0[x as int] {
                        assert(Set::new(|c: u8| exists|m: int| 0 <= m < i && command_types@[m] == c).contains(x));
                        let m = choose|m: int| 0 <= m < i && command_types@[m] == x;
                        assert(0 <= m < i + 1 && command_types@[m] == x);
                    }
                }
                assert(v.command_types() =~= Set::new(|c: u8| exists|m: int| 0 <= m < i + 1 && command_types@[m] == c));
            }
            i = i + 1;
        }
        Some(v)
    }
}

/// Ingesting an empty batch changes nothing: no series, not the timeline,
/// neither index.
pub proof fn lemma_empty_batch_changes_nothing(s: Values)
    requires
        s.wf(),
    ensures
        ingest_view(s.state(), Seq::empty(), s.retention()) == s.state(),
{
    let v = s.state();
    let cap = s.retention();
    let b = BatchView::empty();
    assert(v.timeline.len() <= cap);
    assert(batch_ticks(b) =~= Seq::<TickView>::empty());
    assert(v.timeline + batch_ticks(b) =~= v.timeline);
    assert(v.senders.union(senders_of(batch_ticks(b))) =~= v.senders);
    assert(v.command_types.union(types_of(batch_ticks(b))) =~= v.command_types);
}

/// Across any run of ingestions with no change of retention in between,
/// neither index loses a member.
pub proof fn lemma_indices_only_grow(start: StoreState, batches: Seq<BatchView>, cap: nat)
    ensures
        start.senders.subset_of(ingest_all(start, batches, cap).senders),
        start.command_types.subset_of(ingest_all(start, batches, cap).command_types),
    decreases batches.len(),
{
    if batches.len() > 0 {
        lemma_indices_only_grow(start, batches.drop_last(), cap);
    }
}

/// The store after each batch in turn.
pub open spec fn ingest_all(v: StoreState, batches: Seq<BatchView>, cap: nat) -> StoreState
    decreases batches.len(),
{
    if batches.len() == 0 {
        v
    } else {
        ingest_view(ingest_all(v, batches.drop_last(), cap), batches.last(), cap)
    }
}

/// After a change of retention, each index is exactly what a scan of the
/// retained timeline finds: a position or type is in it if and only if some
/// retained tick carries it.
pub proof fn lemma_rebuild_matches_scan(v: StoreState, cap: nat)
    ensures
        forall|k: int|
            resize_view(v, cap).senders.contains(k) <==> exists|t: int|
                0 <= t < resize_view(v, cap).timeline.len() && tick_senders(
                    resize_view(v, cap).timeline[t],
                ).contains(k),
        forall|c: u8|
            resize_view(v, cap).command_types.contains(c) <==> exists|t: int|
                0 <= t < resize_view(v, cap).timeline.len() && tick_types(
                    resize_view(v, cap).timeline[t],
                ).contains(c),
{
    let tl = resize_view(v, cap).timeline;
    lemma_scan(tl);
}

/// `senders_of` and `types_of` hold exactly what some tick carries.
pub proof fn lemma_scan(ts: Seq<TickView>)
    ensures
        forall|k: int|
            senders_of(ts).contains(k) <==> exists|t: int|
                0 <= t < ts.len() && tick_senders(ts[t]).contains(k),
        forall|c: u8|
            types_of(ts).contains(c) <==> exists|t: int|
                0 <= t < ts.len() && tick_types(ts[t]).contains(c),
    decreases ts.len(),
{
    if ts.len() > 0 {
        let p = ts.drop_last();
        lemma_scan(p);
        assert forall|k: int|
            senders_of(ts).contains(k) <==> exists|t: int|
                0 <= t < ts.len() && tick_senders(ts[t]).contains(k) by {
            if exists|t: int| 0 <= t < ts.len() && tick_senders(ts[t]).contains(k) {
                let t = choose|t: int| 0 <= t < ts.len() && tick_senders(ts[t]).contains(k);
                if t < p.len() {
                    assert(p[t] == ts[t]);
                }
            }
            if senders_of(p).contains(k) {
                let t = choose|t: int| 0 <= t < p.len() && tick_senders(p[t]).contains(k);
                assert(ts[t] == p[t]);
            }
        }
        assert forall|c: u8|
            types_of(ts).contains(c) <==> exists|t: int|
                0 <= t < ts.len() && tick_types(ts[t]).contains(c) by {
            if exists|t: int| 0 <= t < ts.len() && tick_types(ts[t]).contains(c) {
                let t = choose|t: int| 0 <= t < ts.len() && tick_types(ts[t]).contains(c);
                if t < p.len() {
                    assert(p[t] == ts[t]);
                }
            }
            if types_of(p).contains(c) {
                let t = choose|t: int| 0 <= t < p.len() && tick_types(p[t]).contains(c);
                assert(ts[t] == p[t]);
            }
        }
    }
}

/// A store with no channels, no ticks and empty indices.
pub open spec fn empty_view() -> StoreState {
    StoreState {
        channels: Seq::empty(),
        timeline: Seq::empty(),
        senders: Set::empty(),
        command_types: Set::empty(),
    }
}

/// Exporting the series of `keys` as a table and loading that table into
/// an empty store of the same retention gives back every exported series;

/// a key listed twice gives two equal columns, which load as one.
pub proof fn lemma_csv_round_trip(s: Values, keys: Seq<Seq<char>>)
    requires
        s.wf(),
    ensures
        forall|c: int|
            0 <= c < present_keys(s.channels(), keys).len() ==> #[trigger] series_of(
                load_view(
                    empty_view(),
                    present_keys(s.channels(), keys),
                    table_rows(s.channels(), present_keys(s.channels(), keys)),
                    s.retention(),
                ).channels,
                present_keys(s.channels(), keys)[c],
            ) == series_of(s.channels(), present_keys(s.channels(), keys)[c]),
{
    let chs = s.channels();
    let cap = s.retention();
    let h = present_keys(chs, keys);
    let rows = table_rows(chs, h);
    let n = max_series_len(chs, h);
    lemma_present_keys(chs, keys);
    lemma_max_series_len(chs, h);
    assert forall|c: int| 0 <= c < h.len() implies !is_nits_name(#[trigger] h[c]) && series_of(chs, h[c]).len() <= cap by {
        let j = channel_index(chs, h[c]);
        assert(chs[j].0 == h[c]);
        assert(s.values@[j].1.wf());
    }
    lemma_load_columns(chs, h, cap, n as int);
    assert(rows.take(n as int) =~= rows);
    assert forall|c: int| 0 <= c < h.len() implies #[trigger] series_of(load_view(empty_view(), h, rows, cap).channels, h[c])
        == series_of(chs, h[c]) by {
        assert(series_of(chs, h[c]).take(series_of(chs, h[c]).len() as int) =~= series_of(chs, h[c]));
    }
}

/// A store's own channels, fed back through `restore` with its retention,
/// come out unchanged, and so does its timeline: reloading a snapshot gives
/// back every name with its samples (empty ones included) and every tick.
pub proof fn lemma_reload_keeps_channels(s: Values)
    requires
        s.wf(),
    ensures
        apply_batch(BatchView::empty(), s.channels(), s.retention()) == s.channels(),
        keep_last(s.timeline(), s.retention()) == s.timeline(),
{
    let chs = s.channels();
    let cap = s.retention();
    assert forall|j: int| 0 <= j < chs.len() implies !is_nits_name(#[trigger] chs[j].0) && chs[j].1.len() <= cap by {
        assert(s.values@[j].1.wf());
    }
    lemma_rebuild_channels(chs, cap);
    assert(s.nits_timeline@.len() <= cap);
}

proof fn lemma_rebuild_channels(chs: BatchView, cap: nat)
    requires
        unique_names(chs),
        forall|j: int| 0 <= j < chs.len() ==> !is_nits_name(#[trigger] chs[j].0) && chs[j].1.len() <= cap,
    ensures
        apply_batch(BatchView::empty(), chs, cap) == chs,
    decreases chs.len(),
{
    if chs.len() > 0 {
        let p = chs.drop_last();
        let (name, vals) = chs.last();
        assert(unique_names(p)) by {
            assert forall|a: int, b: int| 0 <= a < b < p.len() implies p[a].0 != p[b].0 by {
                assert(p[a] == chs[a] && p[b] == chs[b]);
            }
        }
        assert forall|j: int| 0 <= j < p.len() implies !is_nits_name(#[trigger] p[j].0) && p[j].1.len() <= cap by {
            assert(p[j] == chs[j]);
        }
        lemma_rebuild_channels(p, cap);
        assert(!is_nits_name(chs[chs.len() - 1].0));
        assert forall|j: int| 0 <= j < p.len() implies p[j].0 != name by {
            assert(p[j] == chs[j]);
        }
        assert(channel_index(p, name) == -1);
        assert(p.push((name, keep_last(vals, cap))) =~= chs);
    }
}

} // verus!
