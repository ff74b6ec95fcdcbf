use vstd::prelude::*;
use vstd::string::{StrSliceExecFns, StringExecFns};

verus! {

/// The cells of a line: the text between commas, in order. A line without
/// a comma is one cell; an empty line is one empty cell.
pub open spec fn split_commas(s: Seq<char>) -> Seq<Seq<char>>
    decreases s.len(),
{
    if s.len() == 0 {
        seq![Seq::empty()]
    } else {
        let p = split_commas(s.drop_last());
        if s.last() == ',' {
            p.push(Seq::empty())
        } else {
            p.update(p.len() - 1, p.last().push(s.last()))
        }
    }
}

/// Cells joined with a comma between each two.
pub open spec fn join_commas(cells: Seq<Seq<char>>) -> Seq<char>
    decreases cells.len(),
{
    if cells.len() == 0 {
        Seq::empty()
    } else if cells.len() == 1 {
        cells[0]
    } else {
        join_commas(cells.drop_last()) + seq![','] + cells.last()
    }
}

pub open spec fn comma_free(s: Seq<char>) -> bool {
    forall|i: int| 0 <= i < s.len() ==> s[i] != ','
}

pub open spec fn strings_view(v: Seq<String>) -> Seq<Seq<char>> {
    v.map_values(|s: String| s@)
}

pub proof fn lemma_split_nonempty(s: Seq<char>)
    ensures
        split_commas(s).len() >= 1,
    decreases s.len(),
{
    if s.len() > 0 {
        lemma_split_nonempty(s.drop_last());
    }
}

/// Splits a line into its cells.
pub fn split_cells(line: &str) -> (r: Vec<String>)
    ensures
        strings_view(r@) == split_commas(line@),
{
    let n = line.unicode_len();
    let mut done: Vec<String> = Vec::new();
    let mut start: usize = 0;
    let mut i: usize = 0;
    proof {
        assert(line@.take(0).len() == 0);
        assert(strings_view(done@) =~= Seq::<Seq<char>>::empty());
        assert(line@.subrange(0, 0) =~= Seq::<char>::empty());
        assert(strings_view(done@).push(line@.subrange(0, 0)) =~= split_commas(line@.take(0)));
    }
    while i < n
        invariant
            n == line@.len(),
            start <= i <= n,
            strings_view(done@).push(line@.subrange(start as int, i as int)) == split_commas(
                line@.take(i as int),
            ),
        decreases n - i,
    {
        let c = line.get_char(i);
        proof {
            assert(line@.take(i + 1).drop_last() =~= line@.take(i as int));
            lemma_split_nonempty(line@.take(i as int));
        }
        if c == ',' {
            let ghost st = start;
            let cell = String::from_str(line.substring_char(start, i));
            let ghost d0 = strings_view(done@);
            done.push(cell);
            start = i + 1;
            proof {
                assert(strings_view(done@) =~= d0.push(line@.subrange(st as int, i as int)));
                assert(line@.subrange(start as int, i + 1) =~= Seq::<char>::empty());
                assert(strings_view(done@).push(line@.subrange(start as int, i + 1)) =~= split_commas(
                    line@.take(i + 1),
                ));
            }
        } else {
            proof {
                let d = strings_view(done@);
                assert(line@.subrange(start as int, i + 1) =~= line@.subrange(start as int, i as int).push(c));
                assert(d.push(line@.subrange(start as int, i + 1)) =~= split_commas(line@.take(i + 1)));
            }
        }
        i = i + 1;
    }
    let ghost d0 = strings_view(done@);
    done.push(String::from_str(line.substring_char(start, n)));
    proof {
        assert(line@.take(n as int) =~= line@);
        assert(strings_view(done@) =~= d0.push(line@.subrange(start as int, n as int)));
    }
    done
}

/// Joins cells into a line, a comma between each two.
pub fn join_cells(cells: &Vec<String>) -> (r: String)
    ensures
        r@ == join_commas(strings_view(cells@)),
{
    let ghost cv = strings_view(cells@);
    let mut s = String::new();
    let mut i: usize = 0;
    while i < cells.len()
        invariant
            i <= cells@.len(),
            cv == strings_view(cells@),
            s@ == join_commas(cv.take(i as int)),
        decreases cells@.len() - i,
    {
        proof {
            assert(cv.take(i + 1).drop_last() =~= cv.take(i as int));
        }
        if i > 0 {
            s.append(",");
            proof {
                reveal_strlit(",");
            }
        }
        s.append(cells[i].as_str());
        proof {
            if i == 0 {
                assert(s@ =~= join_commas(cv.take(1)));
            } else {
                assert(s@ =~= join_commas(cv.take(i + 1)));
            }
        }
        i = i + 1;
    }
    proof {
        assert(cv.take(i as int) =~= cv);
    }
    s
}

proof fn lemma_split_comma_free(a: Seq<char>, b: Seq<char>)
    requires
        comma_free(b),
    ensures
        split_commas(a + seq![','] + b) == split_commas(a).push(b),
        split_commas(b) == seq![b],
    decreases b.len(),
{
    lemma_split_nonempty(a);
    let s = a + seq![','] + b;
    if b.len() == 0 {
        assert(s.drop_last() =~= a);
        assert(s.last() == ',');
        assert(b =~= Seq::<char>::empty());
    } else {
        let b0 = b.drop_last();
        assert(comma_free(b0));
        lemma_split_comma_free(a, b0);
        assert(s.drop_last() =~= a + seq![','] + b0);
        assert(s.last() == b.last());
        assert(b.last() != ',');
        let p = split_commas(a).push(b0);
        assert(p.len() - 1 == split_commas(a).len());
        assert(p.last() == b0);
        assert(b0.push(b.last()) =~= b);
        assert(p.update(p.len() - 1, b) =~= split_commas(a).push(b));
        assert(seq![b0].update(0, b) =~= seq![b]);
    }
}

/// Splitting a joined line gives back the cells, when no cell holds a
/// comma and there is at least one cell.
pub proof fn lemma_split_join(cells: Seq<Seq<char>>)
    requires
        cells.len() >= 1,
        forall|i: int| 0 <= i < cells.len() ==> comma_free(#[trigger] cells[i]),
    ensures
        split_commas(join_commas(cells)) == cells,
    decreases cells.len(),
{
    if cells.len() == 1 {
        lemma_split_comma_free(Seq::empty(), cells[0]);
        assert(seq![cells[0]] =~= cells);
    } else {
        let p = cells.drop_last();
        assert forall|i: int| 0 <= i < p.len() implies comma_free(#[trigger] p[i]) by {
            assert(p[i] == cells[i]);
        }
        lemma_split_join(p);
        lemma_split_comma_free(join_commas(p), cells.last());
        assert(p.push(cells.last()) =~= cells);
    }
}

} // verus!
