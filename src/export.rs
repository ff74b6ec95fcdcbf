use vstd::prelude::*;
use crate::batch::{
    as_mapping, is_last_of_name, lemma_last_of_name_exists, lemma_mapping_lookup, lemma_mapping_prefix,
    apply_batch, apply_entry, batch_view, channel_index, first_index, is_nits_name, lemma_channel_index,
    lemma_first_index_bound, lookup, unique_names, BatchView,
};

use crate::queue::keep_last;
use crate::values::{empty_view, ingest_view, StoreState};

verus! {

/// The views of a list of strings.
pub open spec fn names_view(v: Seq<String>) -> Seq<Seq<char>> {
    v.map_values(|s: String| s@)
}

/// The views of a table's rows.
pub open spec fn rows_view(v: Seq<Vec<Option<u32>>>) -> Seq<Seq<Option<u32>>> {
    v.map_values(|r: Vec<Option<u32>>| r@)
}

/// The keys that name a channel, in the given order.
pub open spec fn present_keys(chs: BatchView, keys: Seq<Seq<char>>) -> Seq<Seq<char>>
    decreases keys.len(),
{
    if keys.len() == 0 {
        Seq::empty()
    } else {
        let p = present_keys(chs, keys.drop_last());
        if channel_index(chs, keys.last()) >= 0 {
            p.push(keys.last())
        } else {
            p
        }
    }
}

/// The samples of channel `name`; empty when there is no such channel.
pub open spec fn series_of(chs: BatchView, name: Seq<char>) -> Seq<u32> {
    if channel_index(chs, name) >= 0 {
        chs[channel_index(chs, name)].1
    } else {
        Seq::empty()
    }
}

/// The length of the longest series among `cols`.
pub open spec fn max_series_len(chs: BatchView, cols: Seq<Seq<char>>) -> nat
    decreases cols.len(),
{
    if cols.len() == 0 {
        0
    } else {
        let p = max_series_len(chs, cols.drop_last());
        let l = series_of(chs, cols.last()).len();
        if p >= l {
            p
        } else {
            l
        }
    }
}

/// Cell `r` of a column holding `s`, in a table of `rows` rows whose
/// columns are right-aligned: blank before the series starts.
pub open spec fn table_cell(s: Seq<u32>, rows: nat, r: int) -> Option<u32> {
    let off = rows - s.len();
    if r < off {
        None
    } else {
        Some(s[r - off])
    }
}

/// The rows of the exported table of `cols`: row `r` holds, for each
/// column, its right-aligned sample at `r`.
pub open spec fn table_rows(chs: BatchView, cols: Seq<Seq<char>>) -> Seq<Seq<Option<u32>>> {
    let n = max_series_len(chs, cols);
    Seq::new(n, |r: int| Seq::new(cols.len(), |c: int| table_cell(series_of(chs, cols[c]), n, r)))
}

/// The first `n` cells of a row as a batch: one single-sample entry per
/// filled cell, under the header's name.
pub open spec fn cells_batch(header: Seq<Seq<char>>, row: Seq<Option<u32>>, n: int) -> BatchView
    decreases n,
{
    if n <= 0 {
        Seq::empty()
    } else {
        let p = cells_batch(header, row, n - 1);
        match row[n - 1] {
            Some(v) => p.push((header[n - 1], seq![v])),
            None => p,
        }
    }
}

/// A row as a batch: one single-sample entry per filled cell; cells past
/// the header, or header names past the row, are ignored. Ingesting it reads
/// it as a mapping (see `ingest_view`), so where the header repeats a name,
/// the last filled cell under it is the one sample that name gets.
pub open spec fn row_batch(header: Seq<Seq<char>>, row: Seq<Option<u32>>) -> BatchView {
    cells_batch(header, row, if header.len() <= row.len() { header.len() as int } else { row.len() as int })
}

/// The store after ingesting each row in turn.
pub open spec fn load_view(v: StoreState, header: Seq<Seq<char>>, rows: Seq<Seq<Option<u32>>>, cap: nat) -> StoreState
    decreases rows.len(),
{
    if rows.len() == 0 {
        v
    } else {
        ingest_view(load_view(v, header, rows.drop_last(), cap), row_batch(header, rows.last()), cap)
    }
}

pub(crate) proof fn lemma_max_series_len(chs: BatchView, cols: Seq<Seq<char>>)
    ensures
        forall|c: int| 0 <= c < cols.len() ==> #[trigger] series_of(chs, cols[c]).len() <= max_series_len(chs, cols),
    decreases cols.len(),
{
    if cols.len() > 0 {
        lemma_max_series_len(chs, cols.drop_last());
        assert forall|c: int| 0 <= c < cols.len() implies #[trigger] series_of(chs, cols[c]).len() <= max_series_len(chs, cols) by {
            if c < cols.len() - 1 {
                assert(cols[c] == cols.drop_last()[c]);
            }
        }
    }
}

/// A row as a batch (see `row_batch`).
pub(crate) fn row_to_batch(header: &Vec<String>, row: &Vec<Option<u32>>) -> (r: Vec<(String, Vec<u32>)>)
    ensures
        batch_view(r@) == row_batch(names_view(header@), row@),
{
    let ghost hv = names_view(header@);
    let n = if header.len() <= row.len() {
        header.len()
    } else {
        row.len()
    };
    let mut r: Vec<(String, Vec<u32>)> = Vec::new();
    let mut c: usize = 0;
    while c < n
        invariant
            c <= n,
            n <= header@.len(),
            n <= row@.len(),
            hv == names_view(header@),
            batch_view(r@) == cells_batch(hv, row@, c as int),
        decreases n - c,
    {
        match row[c] {
            Some(v) => {
                let ghost r0 = r@;
                let one = vec![v];
                let name = header[c].clone();
                proof {
                    assert(one@ =~= seq![v]);
                }
                r.push((name, one));
                proof {
                    assert(batch_view(r@) =~= batch_view(r0).push((hv[c as int], seq![v])));
                    assert(batch_view(r@) =~= cells_batch(hv, row@, c + 1));
                }
            },
            None => {},
        }
        c = c + 1;
    }
    r
}

pub(crate) proof fn lemma_present_keys(chs: BatchView, keys: Seq<Seq<char>>)
    ensures
        forall|c: int|
            0 <= c < present_keys(chs, keys).len() ==> channel_index(chs, #[trigger] present_keys(chs, keys)[c]) >= 0,
    decreases keys.len(),
{
    if keys.len() > 0 {
        lemma_present_keys(chs, keys.drop_last());
        let p = present_keys(chs, keys.drop_last());
        let h = present_keys(chs, keys);
        assert forall|c: int| 0 <= c < h.len() implies channel_index(chs, #[trigger] h[c]) >= 0 by {
            if c < p.len() {
                assert(h[c] == p[c]);
            }
        }
    }
}

/// Extending or creating one ordinary channel touches no other.
proof fn lemma_apply_entry(chs: BatchView, name: Seq<char>, vals: Seq<u32>, cap: nat)
    requires
        unique_names(chs),
        !is_nits_name(name),
    ensures
        unique_names(apply_entry(chs, name, vals, cap)),
        series_of(apply_entry(chs, name, vals, cap), name) == keep_last(series_of(chs, name) + vals, cap),
        forall|y: Seq<char>| y != name ==> #[trigger] series_of(apply_entry(chs, name, vals, cap), y) == series_of(chs, y),
{
    let r = apply_entry(chs, name, vals, cap);
    if channel_index(chs, name) >= 0 {
        let j = channel_index(chs, name);
        assert(unique_names(r)) by {
            assert forall|a: int, b: int| 0 <= a < b < r.len() implies r[a].0 != r[b].0 by {
                assert(r[a].0 == chs[a].0 && r[b].0 == chs[b].0);
            }
        }
        lemma_channel_index(r, name, j);
        assert forall|y: Seq<char>| y != name implies #[trigger] series_of(r, y) == series_of(chs, y) by {
            if channel_index(chs, y) >= 0 {
                let jy = channel_index(chs, y);
                assert(r[jy].0 == y);
                lemma_channel_index(r, y, jy);
            } else {
                assert forall|m: int| 0 <= m < r.len() implies r[m].0 != y by {
                    assert(r[m].0 == chs[m].0);
                }
            }
        }
    } else {
        assert(unique_names(r)) by {
            assert forall|a: int, b: int| 0 <= a < b < r.len() implies r[a].0 != r[b].0 by {
                if b == chs.len() {
                    assert(r[a].0 == chs[a].0);
                }
            }
        }
        lemma_channel_index(r, name, chs.len() as int);
        assert(Seq::<u32>::empty() + vals =~= vals);
        assert forall|y: Seq<char>| y != name implies #[trigger] series_of(r, y) == series_of(chs, y) by {
            if channel_index(chs, y) >= 0 {
                let jy = channel_index(chs, y);
                assert(r[jy].0 == y);
                lemma_channel_index(r, y, jy);
            } else {
                assert forall|m: int| 0 <= m < r.len() implies r[m].0 != y by {
                    if m < chs.len() {
                        assert(r[m].0 == chs[m].0);
                    }
                }
            }
        }
    }
}

/// A batch whose ordinary names are all distinct extends each named
/// channel by its entry and leaves the others alone.
proof fn lemma_apply_distinct(chs: BatchView, b: BatchView, cap: nat)
    requires
        unique_names(chs),
        unique_names(b),
        forall|i: int| 0 <= i < b.len() ==> !is_nits_name(#[trigger] b[i].0),
    ensures
        unique_names(apply_batch(chs, b, cap)),
        forall|y: Seq<char>| #[trigger] series_of(apply_batch(chs, b, cap), y) == match lookup(b, y) {
            Some(v) => keep_last(series_of(chs, y) + v, cap),
            None => series_of(chs, y),
        },
    decreases b.len(),
{
    if b.len() > 0 {
        let p = b.drop_last();
        let x = b.last();
        assert(unique_names(p)) by {
            assert forall|i: int, j: int| 0 <= i < j < p.len() implies p[i].0 != p[j].0 by {
                assert(p[i] == b[i] && p[j] == b[j]);
            }
        }
        assert forall|i: int| 0 <= i < p.len() implies !is_nits_name(#[trigger] p[i].0) by {
            assert(p[i] == b[i]);
        }
        lemma_apply_distinct(chs, p, cap);
        let a = apply_batch(chs, p, cap);
        assert(!is_nits_name(b[b.len() - 1].0));
        lemma_apply_entry(a, x.0, x.1, cap);
        lemma_first_index_bound(p, x.0);
        if first_index(p, x.0) is Some {
            let i = first_index(p, x.0)->0;
            assert(p[i].0 == b[i].0);
        }
        assert forall|y: Seq<char>| #[trigger] series_of(apply_batch(chs, b, cap), y) == match lookup(b, y) {
            Some(v) => keep_last(series_of(chs, y) + v, cap),
            None => series_of(chs, y),
        } by {
            assert(b.drop_last() == p);
            assert(apply_batch(chs, b, cap) == apply_entry(a, x.0, x.1, cap));
            lemma_first_index_bound(p, y);
            if first_index(p, y) is Some {
                let i = first_index(p, y)->0;
                assert(p[i] == b[i]);
            }
            if y != x.0 {
                assert(series_of(apply_batch(chs, b, cap), y) == series_of(a, y));
                assert(lookup(b, y) == lookup(p, y));
            } else {
                assert(first_index(p, y) is None);
                assert(first_index(b, y) == Some(b.len() - 1));
                assert(lookup(b, y) == Some(x.1));
            }
        }
    }
}

/// Entry `e` is the filled cell of some column before `n`, under its name.
pub open spec fn from_cell(h: Seq<Seq<char>>, row: Seq<Option<u32>>, n: int, e: (Seq<char>, Seq<u32>)) -> bool {
    exists|c: int| 0 <= c < n && row[c] is Some && e == (h[c], seq![row[c]->0])
}

/// Some entry of `b` is `name` with the one sample `v`.
pub open spec fn holds_cell(b: BatchView, name: Seq<char>, v: u32) -> bool {
    exists|i: int| 0 <= i < b.len() && b[i] == (name, seq![v])
}

/// The entries of a row's batch are its filled cells under their names.
proof fn lemma_cells_batch(h: Seq<Seq<char>>, row: Seq<Option<u32>>, n: int)
    requires
        0 <= n <= h.len(),
        n <= row.len(),
    ensures
        forall|i: int| 0 <= i < cells_batch(h, row, n).len() ==> from_cell(h, row, n, #[trigger] cells_batch(h, row, n)[i]),
        forall|c: int| 0 <= c < n && #[trigger] row[c] is Some ==> holds_cell(cells_batch(h, row, n), h[c], row[c]->0),
    decreases n,
{
    if n > 0 {
        lemma_cells_batch(h, row, n - 1);
        let p = cells_batch(h, row, n - 1);
        let cb = cells_batch(h, row, n);
        assert forall|i: int| 0 <= i < cb.len() implies from_cell(h, row, n, #[trigger] cb[i]) by {
            if i < p.len() {
                assert(cb[i] == p[i]);
                assert(from_cell(h, row, n - 1, p[i]));
                let c = choose|c: int| 0 <= c < n - 1 && row[c] is Some && p[i] == (h[c], seq![row[c]->0]);
                assert(0 <= c < n && row[c] is Some && cb[i] == (h[c], seq![row[c]->0]));
            } else {
                assert(row[n - 1] is Some);
                assert(cb[i] == (h[n - 1], seq![row[n - 1]->0]));
                assert(0 <= n - 1 < n && row[n - 1] is Some && cb[i] == (h[n - 1], seq![row[n - 1]->0]));
            }
        }
        assert forall|c: int| 0 <= c < n && #[trigger] row[c] is Some implies holds_cell(cb, h[c], row[c]->0) by {
            if c < n - 1 {
                assert(holds_cell(p, h[c], row[c]->0));
                let i = choose|i: int| 0 <= i < p.len() && p[i] == (h[c], seq![row[c]->0]);
                assert(cb[i] == p[i]);
                assert(0 <= i < cb.len() && cb[i] == (h[c], seq![row[c]->0]));
            } else {
                assert(cb[p.len() as int] == (h[c], seq![row[c]->0]));
                assert(0 <= p.len() < cb.len() && cb[p.len() as int] == (h[c], seq![row[c]->0]));
            }
        }
    }
}

/// Under a header whose repeated names hold the same cells, the mapping of
/// a row's batch holds each filled cell once under its name.
proof fn lemma_row_mapping(h: Seq<Seq<char>>, row: Seq<Option<u32>>)
    requires
        row.len() == h.len(),
        forall|c: int| 0 <= c < h.len() ==> !is_nits_name(#[trigger] h[c]),
        forall|c: int, d: int| 0 <= c < h.len() && 0 <= d < h.len() && h[c] == h[d] ==> row[c] == row[d],
    ensures
        unique_names(as_mapping(row_batch(h, row))),
        forall|i: int|
            0 <= i < as_mapping(row_batch(h, row)).len() ==> !is_nits_name(#[trigger] as_mapping(row_batch(h, row))[i].0),
        forall|c: int|
            0 <= c < h.len() ==> #[trigger] lookup(as_mapping(row_batch(h, row)), h[c]) == (if row[c] is Some {
                Some(seq![row[c]->0])
            } else {
                None
            }),
{
    let n = h.len() as int;
    let cb = cells_batch(h, row, n);
    assert(row_batch(h, row) == cb);
    let m = as_mapping(cb);
    lemma_cells_batch(h, row, n);
    lemma_mapping_prefix(cb, cb.len() as int);
    assert forall|i: int| 0 <= i < m.len() implies !is_nits_name(#[trigger] m[i].0) by {
        let j = choose|j: int| #![trigger cb[j]] 0 <= j < cb.len() && is_last_of_name(cb, j) && m[i] == cb[j];
        assert(from_cell(h, row, n, cb[j]));
        let c = choose|c: int| 0 <= c < n && row[c] is Some && cb[j] == (h[c], seq![row[c]->0]);
    }
    assert forall|c: int| 0 <= c < h.len() implies #[trigger] lookup(m, h[c]) == (if row[c] is Some {
        Some(seq![row[c]->0])
    } else {
        None
    }) by {
        lemma_mapping_lookup(cb, h[c]);
        if row[c] is Some {
            assert(holds_cell(cb, h[c], row[c]->0));
            let i0 = choose|i: int| 0 <= i < cb.len() && cb[i] == (h[c], seq![row[c]->0]);
            lemma_last_of_name_exists(cb, i0);
            let i = choose|i: int| 0 <= i < cb.len() && cb[i].0 == cb[i0].0 && is_last_of_name(cb, i);
            assert(from_cell(h, row, n, cb[i]));
            let d = choose|d: int| 0 <= d < n && row[d] is Some && cb[i] == (h[d], seq![row[d]->0]);
            assert(row[d] == row[c]);
        } else {
            assert forall|i: int| 0 <= i < cb.len() implies cb[i].0 != h[c] by {
                assert(from_cell(h, row, n, cb[i]));
                let d = choose|d: int| 0 <= d < n && row[d] is Some && cb[i] == (h[d], seq![row[d]->0]);
                if h[d] == h[c] {
                    assert(row[d] == row[c]);
                }
            }
        }
    }
    lemma_mapping_lookup(cb, Seq::empty());
}

/// The samples of column `s` loaded from the first `r` rows of a table of
/// `n` rows in which it is right-aligned.
pub open spec fn column_prefix(s: Seq<u32>, n: nat, r: int) -> Seq<u32> {
    let k = r - (n - s.len());
    if k <= 0 {
        Seq::empty()
    } else {
        s.take(k)
    }
}

/// After the first `r` rows, every column holds its prefix.
pub(crate) proof fn lemma_load_columns(chs: BatchView, h: Seq<Seq<char>>, cap: nat, r: int)
    requires
        0 <= r <= max_series_len(chs, h),
        forall|c: int| 0 <= c < h.len() ==> !is_nits_name(#[trigger] h[c]) && series_of(chs, h[c]).len() <= cap,
        forall|c: int| 0 <= c < h.len() ==> #[trigger] series_of(chs, h[c]).len() <= max_series_len(chs, h),
    ensures
        unique_names(load_view(empty_view(), h, table_rows(chs, h).take(r), cap).channels),
        forall|c: int| 0 <= c < h.len() ==> #[trigger] series_of(load_view(empty_view(), h, table_rows(chs, h).take(r), cap).channels, h[c])
            == column_prefix(series_of(chs, h[c]), max_series_len(chs, h), r),
    decreases r,
{
    let n = max_series_len(chs, h);
    let rows = table_rows(chs, h);
    if r == 0 {
        assert(rows.take(0) =~= Seq::<Seq<Option<u32>>>::empty());
        assert forall|c: int| 0 <= c < h.len() implies #[trigger] series_of(load_view(empty_view(), h, rows.take(r), cap).channels, h[c])
            == column_prefix(series_of(chs, h[c]), n, r) by {
            assert(load_view(empty_view(), h, rows.take(r), cap).channels == BatchView::empty());
        }
    } else {
        lemma_load_columns(chs, h, cap, r - 1);
        let prev = load_view(empty_view(), h, rows.take(r - 1), cap);
        assert(rows.take(r).drop_last() =~= rows.take(r - 1));
        let row = rows[r - 1];
        assert(row.len() == h.len());
        assert forall|c: int, d: int| 0 <= c < h.len() && 0 <= d < h.len() && h[c] == h[d] implies row[c] == row[d] by {
            assert(row[c] == table_cell(series_of(chs, h[c]), n, r - 1));
            assert(row[d] == table_cell(series_of(chs, h[d]), n, r - 1));
        }
        lemma_row_mapping(h, row);
        let m = as_mapping(row_batch(h, row));
        lemma_apply_distinct(prev.channels, m, cap);
        assert(load_view(empty_view(), h, rows.take(r), cap).channels == apply_batch(prev.channels, m, cap));
        assert forall|c: int| 0 <= c < h.len() implies #[trigger] series_of(load_view(empty_view(), h, rows.take(r), cap).channels, h[c])
            == column_prefix(series_of(chs, h[c]), n, r) by {
            let sc = series_of(chs, h[c]);
            let off = n - sc.len();
            assert(row[c] == table_cell(sc, n, r - 1));
            assert(lookup(m, h[c]) == (if row[c] is Some { Some(seq![row[c]->0]) } else { None }));
            if r - 1 >= off {
                assert(column_prefix(sc, n, r - 1) + seq![sc[r - 1 - off]] =~= column_prefix(sc, n, r));
            } else {
                assert(column_prefix(sc, n, r) =~= column_prefix(sc, n, r - 1));
            }
        }
    }
}

} // verus!
