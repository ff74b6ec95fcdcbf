use vstd::prelude::*;
use vstd::string::StringExecFns;
use crate::nits::{tick_senders, tick_spec, tick_types, NitsCommand, NitsRelativeCarCount, CAR_CHANNELS};
use crate::queue::keep_last;
use crate::text::digit_char;

verus! {

/// What a tick holds: its commonline command and its per-car commands.
pub type TickView = (NitsCommand, Seq<(NitsRelativeCarCount, NitsCommand)>);

/// A batch as plain values: channel name and new samples, oldest first.
pub type BatchView = Seq<(Seq<char>, Seq<u32>)>;

/// Index of the commonline channel among the NITS channels.
pub const COMMONLINE_CHANNEL: usize = 32;

/// Name of NITS channel `i`: `NITS N` and two decimal digits.
pub open spec fn nits_name(i: int) -> Seq<char> {
    "NITS N"@ + seq![digit_char((i / 10) as nat), digit_char((i % 10) as nat)]
}

/// Whether a channel name is one of the 33 reserved NITS channels.
pub open spec fn is_nits_name(name: Seq<char>) -> bool {
    exists|i: int| 0 <= i <= 32 && name == #[trigger] nits_name(i)
}

pub open spec fn batch_view(b: Seq<(String, Vec<u32>)>) -> BatchView {
    b.map_values(|e: (String, Vec<u32>)| (e.0@, e.1@))
}

/// Index of the first entry of `b` named `name`.
pub open spec fn first_index(b: BatchView, name: Seq<char>) -> Option<int>
    decreases b.len(),
{
    if b.len() == 0 {
        None
    } else {
        match first_index(b.drop_last(), name) {
            Some(i) => Some(i),
            None => if b.last().0 == name {
                Some(b.len() - 1)
            } else {
                None
            },
        }
    }
}

/// The samples of the first entry of `b` named `name`.
pub open spec fn lookup(b: BatchView, name: Seq<char>) -> Option<Seq<u32>> {
    match first_index(b, name) {
        Some(i) => Some(b[i].1),
        None => None,
    }
}

/// The sample of a channel that lines up with position `i` of a commonline
/// batch of `len` samples, when both are right-aligned to a common last
/// instant (the index is clamped at zero).
pub open spec fn aligned_sample(vals: Seq<u32>, i: int, len: int) -> Option<u32> {
    let idx = if i + vals.len() - len < 0 {
        0
    } else {
        i + vals.len() - len
    };
    if idx < vals.len() {
        Some(vals[idx])
    } else {
        None
    }
}

/// The time-aligned sample of every car channel for commonline position `i`.
pub open spec fn aligned_row(b: BatchView, i: int, len: int) -> Seq<Option<u32>> {
    Seq::new(
        CAR_CHANNELS as nat,
        |ch: int|
            match lookup(b, nits_name(ch)) {
                Some(v) => aligned_sample(v, i, len),
                None => None,
            },
    )
}

/// The ticks that a batch decodes to, one per commonline sample.
pub open spec fn batch_ticks(b: BatchView) -> Seq<TickView> {
    match lookup(b, nits_name(COMMONLINE_CHANNEL as int)) {
        Some(cl) => Seq::new(cl.len(), |i: int| tick_spec(cl[i], aligned_row(b, i, cl.len() as int))),
        None => Seq::empty(),
    }
}

/// Index of the channel called `name`, or -1.
pub open spec fn channel_index(chs: BatchView, name: Seq<char>) -> int {
    if exists|j: int| 0 <= j < chs.len() && chs[j].0 == name {
        choose|j: int| 0 <= j < chs.len() && chs[j].0 == name
    } else {
        -1
    }
}

/// The series after one batch entry: NITS channels are left out; an ordinary
/// channel is extended, or created, and keeps its last `cap` samples.
pub open spec fn apply_entry(chs: BatchView, name: Seq<char>, vals: Seq<u32>, cap: nat) -> BatchView {
    if is_nits_name(name) {
        chs
    } else if channel_index(chs, name) >= 0 {
        let j = channel_index(chs, name);
        chs.update(j, (name, keep_last(chs[j].1 + vals, cap)))
    } else {
        chs.push((name, keep_last(vals, cap)))
    }
}

/// The series after every entry of a batch, in order.
pub open spec fn apply_batch(chs: BatchView, b: BatchView, cap: nat) -> BatchView
    decreases b.len(),
{
    if b.len() == 0 {
        chs
    } else {
        let prev = apply_batch(chs, b.drop_last(), cap);
        apply_entry(prev, b.last().0, b.last().1, cap)
    }
}

/// The sender positions seen across a sequence of ticks.
pub open spec fn senders_of(ts: Seq<TickView>) -> Set<int>
    decreases ts.len(),
{
    if ts.len() == 0 {
        Set::empty()
    } else {
        senders_of(ts.drop_last()).union(tick_senders(ts.last()))
    }
}

/// The command types seen across a sequence of ticks.
pub open spec fn types_of(ts: Seq<TickView>) -> Set<u8>
    decreases ts.len(),
{
    if ts.len() == 0 {
        Set::empty()
    } else {
        types_of(ts.drop_last()).union(tick_types(ts.last()))
    }
}

pub open spec fn unique_names(chs: BatchView) -> bool {
    forall|i: int, j: int| 0 <= i < j < chs.len() ==> chs[i].0 != chs[j].0
}

/// Every position of a tick lies in [-15, 15].
pub open spec fn tick_in_range(t: TickView) -> bool {
    forall|i: int| 0 <= i < t.1.len() ==> -15 <= #[trigger] t.1[i].0.0 <= 15
}

pub proof fn lemma_channel_index(chs: BatchView, name: Seq<char>, j: int)
    requires
        unique_names(chs),
        0 <= j < chs.len(),
        chs[j].0 == name,
    ensures
        channel_index(chs, name) == j,
{
}

/// Builds the name of NITS channel `i`.
pub fn nits_channel_name(i: usize) -> (r: String)
    requires
        i < 100,
    ensures
        r@ == nits_name(i as int),
{
    let digits = "0123456789";
    proof {
        reveal_strlit("0123456789");
        reveal_strlit("NITS N");
    }
    let mut s = String::from_str("NITS N");
    s.append(digits.substring_ascii(i / 10, i / 10 + 1));
    s.append(digits.substring_ascii(i % 10, i % 10 + 1));
    proof {
        assert(s@ =~= nits_name(i as int));
    }
    s
}

/// Position of the first entry of `batch` named `name`.
pub(crate) fn batch_index(batch: &Vec<(String, Vec<u32>)>, name: &String) -> (r: Option<usize>)
    ensures
        r matches Some(k) ==> first_index(batch_view(batch@), name@) == Some(k as int),
        r is None ==> first_index(batch_view(batch@), name@) is None,
{
    let ghost bv = batch_view(batch@);
    let mut j: usize = 0;
    while j < batch.len()
        invariant
            j <= batch@.len(),
            bv == batch_view(batch@),
            first_index(bv.take(j as int), name@) is None,
        decreases batch@.len() - j,
    {
        proof {
            assert(bv.take(j + 1).drop_last() =~= bv.take(j as int));
        }
        if batch[j].0 == *name {
            proof {
                lemma_first_index_extend(bv, j + 1, name@);
            }
            return Some(j);
        }
        j = j + 1;
    }
    proof {
        assert(bv.take(j as int) =~= bv);
    }
    None
}

/// Once a prefix holds `name`, the whole sequence finds it at the same place.
proof fn lemma_first_index_extend(b: BatchView, n: int, name: Seq<char>)
    requires
        0 <= n <= b.len(),
        first_index(b.take(n), name) is Some,
    ensures
        first_index(b, name) == first_index(b.take(n), name),
    decreases b.len(),
{
    if n < b.len() {
        assert(b.drop_last().take(n) =~= b.take(n));
        lemma_first_index_extend(b.drop_last(), n, name);
    } else {
        assert(b.take(n) =~= b);
    }
}

pub(crate) proof fn lemma_first_index_bound(b: BatchView, name: Seq<char>)
    ensures
        first_index(b, name) matches Some(i) ==> 0 <= i < b.len() && b[i].0 == name,
    decreases b.len(),
{
    if b.len() > 0 {
        lemma_first_index_bound(b.drop_last(), name);
    }
}

/// Which NITS channel a name denotes, if any.
pub fn nits_index(name: &String) -> (r: Option<usize>)
    ensures
        r matches Some(i) ==> i <= 32 && name@ == nits_name(i as int),
        r is None <==> !is_nits_name(name@),
{
    let mut i: usize = 0;
    while i <= 32
        invariant
            i <= 33,
            forall|m: int| 0 <= m < i ==> name@ != nits_name(m),
        decreases 33 - i,
    {
        if *name == nits_channel_name(i) {
            return Some(i);
        }
        i = i + 1;
    }
    None
}

/// The sample of `vals` that lines up with commonline position `i` of `len`.
pub(crate) fn aligned_value(vals: &Vec<u32>, i: usize, len: usize) -> (r: Option<u32>)
    requires
        i < len,
    ensures
        r == aligned_sample(vals@, i as int, len as int),
{
    let n = vals.len();
    let idx = if n >= len - i {
        n - (len - i)
    } else {
        0
    };
    if idx < n {
        Some(vals[idx])
    } else {
        None
    }
}

/// Whether entry `i` is the last of `b` under its name.
pub open spec fn is_last_of_name(b: BatchView, i: int) -> bool {
    forall|j: int| i < j < b.len() ==> b[j].0 != b[i].0
}

/// The entries among the first `n` of `b` that are the last under their name.
pub open spec fn mapping_prefix(b: BatchView, n: int) -> BatchView
    decreases n,
{
    if n <= 0 {
        Seq::empty()
    } else {
        let p = mapping_prefix(b, n - 1);
        if is_last_of_name(b, n - 1) {
            p.push(b[n - 1])
        } else {
            p
        }
    }
}

/// A batch read as a mapping from name to samples: where a name repeats,
/// its last entry counts, as when the entries are inserted into a map.
pub open spec fn as_mapping(b: BatchView) -> BatchView {
    mapping_prefix(b, b.len() as int)
}

/// The entries of `mapping_prefix` are exactly the last entries of their
/// names, and their names are distinct.
pub proof fn lemma_mapping_prefix(b: BatchView, n: int)
    requires
        0 <= n <= b.len(),
    ensures
        unique_names(mapping_prefix(b, n)),
        forall|k: int|
            #![trigger mapping_prefix(b, n)[k]]
            0 <= k < mapping_prefix(b, n).len() ==> exists|i: int|
                #![trigger b[i]]
                0 <= i < n && is_last_of_name(b, i) && mapping_prefix(b, n)[k] == b[i],
        forall|i: int|
            #![trigger b[i]]
            0 <= i < n && is_last_of_name(b, i) ==> exists|k: int|
                #![trigger mapping_prefix(b, n)[k]]
                0 <= k < mapping_prefix(b, n).len() && mapping_prefix(b, n)[k] == b[i],
    decreases n,
{
    if n > 0 {
        lemma_mapping_prefix(b, n - 1);
        let p = mapping_prefix(b, n - 1);
        let m = mapping_prefix(b, n);
        let last = is_last_of_name(b, n - 1);
        if last {
            assert forall|k: int| 0 <= k < p.len() implies p[k].0 != b[n - 1].0 by {
                let i = choose|i: int| #![trigger b[i]] 0 <= i < n - 1 && is_last_of_name(b, i) && p[k] == b[i];
            }
            assert forall|x: int, y: int| 0 <= x < y < m.len() implies m[x].0 != m[y].0 by {
                if y < p.len() {
                    assert(m[x] == p[x] && m[y] == p[y]);
                } else {
                    assert(m[x] == p[x]);
                }
            }
        } else {
            assert(m == p);
        }
        assert forall|k: int| #![trigger m[k]] 0 <= k < m.len() implies exists|i: int|
            #![trigger b[i]]
            0 <= i < n && is_last_of_name(b, i) && m[k] == b[i] by {
            if k < p.len() {
                assert(m[k] == p[k]);
                let i = choose|i: int| #![trigger b[i]] 0 <= i < n - 1 && is_last_of_name(b, i) && p[k] == b[i];
                assert(0 <= i < n && is_last_of_name(b, i) && m[k] == b[i]);
            } else {
                assert(m[k] == b[n - 1]);
                assert(0 <= n - 1 < n && is_last_of_name(b, n - 1) && m[k] == b[n - 1]);
            }
        }
        assert forall|i: int| #![trigger b[i]] 0 <= i < n && is_last_of_name(b, i) implies exists|k: int|
            #![trigger m[k]]
            0 <= k < m.len() && m[k] == b[i] by {
            if i < n - 1 {
                let k = choose|k: int| #![trigger p[k]] 0 <= k < p.len() && p[k] == b[i];
                assert(m[k] == p[k]);
                assert(0 <= k < m.len() && m[k] == b[i]);
            } else {
                assert(m[p.len() as int] == b[i]);
            }
        }
    }
}

/// In a batch of distinct names, an entry is found where it stands.
pub proof fn lemma_first_index_unique(m: BatchView, k: int)
    requires
        unique_names(m),
        0 <= k < m.len(),
    ensures
        first_index(m, m[k].0) == Some(k),
    decreases m.len(),
{
    let name = m[k].0;
    let p = m.drop_last();
    assert(unique_names(p)) by {
        assert forall|x: int, y: int| 0 <= x < y < p.len() implies p[x].0 != p[y].0 by {
            assert(p[x] == m[x] && p[y] == m[y]);
        }
    }
    lemma_first_index_bound(p, name);
    if k < m.len() - 1 {
        assert(p[k] == m[k]);
        lemma_first_index_unique(p, k);
    } else {
        if first_index(p, name) is Some {
            let i = first_index(p, name)->0;
            assert(m[i] == p[i]);
        }
    }
}

/// Some entry under a name is the last one under it.
pub proof fn lemma_last_of_name_exists(b: BatchView, i0: int)
    requires
        0 <= i0 < b.len(),
    ensures
        exists|i: int| 0 <= i < b.len() && b[i].0 == b[i0].0 && is_last_of_name(b, i),
    decreases b.len() - i0,
{
    if !is_last_of_name(b, i0) {
        let j = choose|j: int| i0 < j < b.len() && b[j].0 == b[i0].0;
        lemma_last_of_name_exists(b, j);
    }
}

/// What the mapping of a batch holds under `name`: the samples of the last
/// entry under it, or nothing when no entry has that name.
pub proof fn lemma_mapping_lookup(b: BatchView, name: Seq<char>)
    ensures
        unique_names(as_mapping(b)),
        (forall|i: int| 0 <= i < b.len() ==> b[i].0 != name) ==> lookup(as_mapping(b), name) is None,
        forall|i: int|
            0 <= i < b.len() && b[i].0 == name && is_last_of_name(b, i) ==> lookup(as_mapping(b), name)
                == Some(b[i].1),
{
    let m = as_mapping(b);
    lemma_mapping_prefix(b, b.len() as int);
    lemma_first_index_bound(m, name);
    if first_index(m, name) is Some {
        let k = first_index(m, name)->0;
        let i = choose|i: int| 0 <= i < b.len() && is_last_of_name(b, i) && m[k] == b[i];
        assert(b[i].0 == name);
    }
    assert forall|i: int| 0 <= i < b.len() && b[i].0 == name && is_last_of_name(b, i) implies lookup(m, name)
        == Some(b[i].1) by {
        let k = choose|k: int| 0 <= k < m.len() && m[k] == b[i];
        lemma_first_index_unique(m, k);
    }
}

/// The batch as a mapping (see `as_mapping`): one entry per name, the last.
pub fn mapping_of(data: &Vec<(String, Vec<u32>)>) -> (r: Vec<(String, Vec<u32>)>)
    ensures
        batch_view(r@) == as_mapping(batch_view(data@)),
{
    let ghost bv = batch_view(data@);
    let mut r: Vec<(String, Vec<u32>)> = Vec::new();
    let mut i: usize = 0;
    while i < data.len()
        invariant
            i <= data@.len(),
            bv == batch_view(data@),
            batch_view(r@) == mapping_prefix(bv, i as int),
        decreases data@.len() - i,
    {
        let mut last = true;
        let mut j: usize = i + 1;
        while j < data.len()
            invariant
                i < j <= data@.len(),
                bv == batch_view(data@),
                last == (forall|x: int| i < x < j ==> bv[x].0 != bv[i as int].0),
            decreases data@.len() - j,
        {
            proof {
                assert(bv[j as int].0 == data@[j as int].0@);
                assert(bv[i as int].0 == data@[i as int].0@);
            }
            if data[j].0 == data[i].0 {
                last = false;
            }
            proof {
                if !last {
                    if data@[j as int].0@ == data@[i as int].0@ {
                        assert(!(forall|x: int| i < x < j + 1 ==> bv[x].0 != bv[i as int].0));
                    }
                }
            }
            j = j + 1;
        }
        if last {
            let ghost r0 = r@;
            let name = data[i].0.clone();
            let samples = copy_samples(&data[i].1);
            r.push((name, samples));
            proof {
                assert(batch_view(r@) =~= batch_view(r0).push(bv[i as int]));
            }
        }
        i = i + 1;
    }
    r
}

fn copy_samples(v: &Vec<u32>) -> (r: Vec<u32>)
    ensures
        r@ == v@,
{
    let mut r: Vec<u32> = Vec::new();
    let mut i: usize = 0;
    while i < v.len()
        invariant
            i <= v@.len(),
            r@ == v@.take(i as int),
        decreases v@.len() - i,
    {
        r.push(v[i]);
        proof {
            assert(r@ =~= v@.take(i + 1));
        }
        i = i + 1;
    }
    proof {
        assert(v@.take(i as int) =~= v@);
    }
    r
}

} // verus!
