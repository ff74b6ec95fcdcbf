use vstd::prelude::*;
use std::collections::VecDeque;
use crate::filter::{filter_passes, FilterUiMap};
use crate::nits::{
    command_type_of, NitsCommand, NitsCommandType, NitsRelativeCarCount, NitsSender, NitsTick,
};

verus! {

/// One row of the timeline display: a command with its sender, a run of
/// ticks that showed nothing, or a separator between ticks.
#[derive(Clone, Copy, Debug, PartialEq, Eq, Structural)]
pub enum TimelineRow {
    Command(NitsSender, NitsCommand),
    Blank(u32),
    Separator,
}

/// The rows of a tick's car commands that pass both filters, in order.
pub open spec fn car_rows(
    cmds: Seq<(NitsRelativeCarCount, NitsCommand)>,
    sf: Seq<(NitsSender, bool)>,
    tf: Seq<(NitsCommandType, bool)>,
) -> Seq<TimelineRow>
    decreases cmds.len(),
{
    if cmds.len() == 0 {
        Seq::empty()
    } else {
        let p = car_rows(cmds.drop_last(), sf, tf);
        let (c, v) = cmds.last();
        if filter_passes(sf, NitsSender::Command(c)) && filter_passes(tf, NitsCommandType(command_type_of(v.0))) {
            p.push(TimelineRow::Command(NitsSender::Command(c), v))
        } else {
            p
        }
    }
}

/// The rows a tick shows: its car commands, then its commonline, each
/// only when both filters pass it.
pub open spec fn tick_rows(
    t: (NitsCommand, Seq<(NitsRelativeCarCount, NitsCommand)>),
    sf: Seq<(NitsSender, bool)>,
    tf: Seq<(NitsCommandType, bool)>,
) -> Seq<TimelineRow> {
    let cl = if filter_passes(sf, NitsSender::CommonLine) && filter_passes(tf, NitsCommandType(command_type_of(t.0.0))) {
        seq![TimelineRow::Command(NitsSender::CommonLine, t.0)]
    } else {
        Seq::empty()
    };
    car_rows(t.1, sf, tf) + cl
}

/// The rows for the first ticks of a timeline of `len`, and the count of
/// trailing ticks that showed nothing and are not yet reported. A run of
/// such ticks becomes one `Blank` row, followed by a separator, when a
/// tick with rows comes; at the last tick it is reported counting that
/// tick too. Ticks with rows are separated from what follows.
pub open spec fn rows_after(
    ticks: Seq<(NitsCommand, Seq<(NitsRelativeCarCount, NitsCommand)>)>,
    len: int,
    sf: Seq<(NitsSender, bool)>,
    tf: Seq<(NitsCommandType, bool)>,
) -> (Seq<TimelineRow>, nat)
    decreases ticks.len(),
{
    if ticks.len() == 0 {
        (Seq::empty(), 0)
    } else {
        let (rows, blank) = rows_after(ticks.drop_last(), len, sf, tf);
        let is_last = ticks.len() >= len;
        let tmp = tick_rows(ticks.last(), sf, tf);
        let (rows1, blank1) = if blank > 0 && tmp.len() > 0 {
            (rows + seq![TimelineRow::Blank(blank as u32), TimelineRow::Separator], 0nat)
        } else if blank > 0 && is_last {
            (rows.push(TimelineRow::Blank((blank + 1) as u32)), 0nat)
        } else {
            (rows, blank)
        };
        if tmp.len() > 0 {
            (rows1 + tmp + if is_last { Seq::empty() } else { seq![TimelineRow::Separator] }, blank1)
        } else {
            (rows1, blank1 + 1)
        }
    }
}

pub open spec fn tick_views(ts: Seq<NitsTick>) -> Seq<(NitsCommand, Seq<(NitsRelativeCarCount, NitsCommand)>)> {
    ts.map_values(|t: NitsTick| t@)
}

proof fn lemma_blank_bound(
    ticks: Seq<(NitsCommand, Seq<(NitsRelativeCarCount, NitsCommand)>)>,
    len: int,
    sf: Seq<(NitsSender, bool)>,
    tf: Seq<(NitsCommandType, bool)>,
)
    ensures
        rows_after(ticks, len, sf, tf).1 <= ticks.len(),
    decreases ticks.len(),
{
    if ticks.len() > 0 {
        lemma_blank_bound(ticks.drop_last(), len, sf, tf);
    }
}

fn tick_row_list(
    tick: &NitsTick,
    sender_filter: &FilterUiMap<NitsSender>,
    command_type_filter: &FilterUiMap<NitsCommandType>,
) -> (r: Vec<TimelineRow>)
    requires
        sender_filter.wf(),
        command_type_filter.wf(),
    ensures
        r@ == tick_rows(tick@, sender_filter@, command_type_filter@),
{
    let cmds = tick.commands();
    let mut rows: Vec<TimelineRow> = Vec::new();
    let mut i: usize = 0;
    while i < cmds.len()
        invariant
            sender_filter.wf(),
            command_type_filter.wf(),
            cmds@ == tick@.1,
            i <= cmds@.len(),
            rows@ == car_rows(cmds@.take(i as int), sender_filter@, command_type_filter@),
        decreases cmds@.len() - i,
    {
        let (c, v) = cmds[i];
        let sender = NitsSender::Command(c);
        let pass_sender = match sender_filter.get(&sender) {
            Some(b) => b,
            None => true,
        };
        let pass_type = match command_type_filter.get(&v.command_type()) {
            Some(b) => b,
            None => true,
        };
        proof {
            assert(cmds@.take(i + 1).drop_last() =~= cmds@.take(i as int));
            assert(cmds@.take(i + 1).last() == cmds@[i as int]);
        }
        if pass_sender && pass_type {
            rows.push(TimelineRow::Command(sender, v));
        }
        i = i + 1;
    }
    proof {
        assert(cmds@.take(i as int) =~= cmds@);
    }
    let cl = *tick.commonline();
    let pass_sender = match sender_filter.get(&NitsSender::CommonLine) {
        Some(b) => b,
        None => true,
    };
    let pass_type = match command_type_filter.get(&cl.command_type()) {
        Some(b) => b,
        None => true,
    };
    if pass_sender && pass_type {
        rows.push(TimelineRow::Command(NitsSender::CommonLine, cl));
    }
    proof {
        assert(rows@ =~= tick_rows(tick@, sender_filter@, command_type_filter@));
    }
    rows
}

/// The rows that show a timeline under the two filters (see `rows_after`).
pub fn get_timeline_rows(
    timeline: &VecDeque<NitsTick>,
    sender_filter: &FilterUiMap<NitsSender>,
    command_type_filter: &FilterUiMap<NitsCommandType>,
) -> (r: Vec<TimelineRow>)
    requires
        timeline@.len() < u32::MAX,
        sender_filter.wf(),
        command_type_filter.wf(),
    ensures
        r@ == rows_after(tick_views(timeline@), timeline@.len() as int, sender_filter@, command_type_filter@).0,
{
    let ghost tv = tick_views(timeline@);
    let ghost sf = sender_filter@;
    let ghost tf = command_type_filter@;
    let len = timeline.len();
    let mut rows: Vec<TimelineRow> = Vec::new();
    let mut blank_count: u32 = 0;
    let mut t: usize = 0;
    while t < len
        invariant
            len == timeline@.len(),
            len < u32::MAX,
            tv == tick_views(timeline@),
            sf == sender_filter@,
            tf == command_type_filter@,
            sender_filter.wf(),
            command_type_filter.wf(),
            t <= len,
            (rows@, blank_count as nat) == rows_after(tv.take(t as int), len as int, sf, tf),
        decreases len - t,
    {
        proof {
            assert(tv.take(t + 1).drop_last() =~= tv.take(t as int));
            lemma_blank_bound(tv.take(t as int), len as int, sf, tf);
        }
        let is_last = t + 1 >= len;
        let tmp = tick_row_list(&timeline[t], sender_filter, command_type_filter);
        if blank_count > 0 {
            if tmp.len() > 0 {
                rows.push(TimelineRow::Blank(blank_count));
                rows.push(TimelineRow::Separator);
                blank_count = 0;
            } else if is_last {
                rows.push(TimelineRow::Blank(blank_count + 1));
                blank_count = 0;
            }
        }
        let ghost rows1 = rows@;
        if tmp.len() > 0 {
            let mut k: usize = 0;
            while k < tmp.len()
                invariant
                    k <= tmp@.len(),
                    rows@ == rows1 + tmp@.take(k as int),
                decreases tmp@.len() - k,
            {
                rows.push(tmp[k]);
                proof {
                    assert(rows@ =~= rows1 + tmp@.take(k + 1));
                }
                k = k + 1;
            }
            proof {
                assert(tmp@.take(k as int) =~= tmp@);
            }
            if !is_last {
                rows.push(TimelineRow::Separator);
            }
        } else {
            blank_count = blank_count + 1;
        }
        proof {
            let prev = rows_after(tv.take(t as int), len as int, sf, tf);
            assert(tv.take(t + 1).last() == tv[t as int]);
            assert(tv[t as int] == timeline@[t as int]@);
            if prev.1 > 0 && tmp@.len() > 0 {
                assert(rows1 =~= prev.0 + seq![TimelineRow::Blank(prev.1 as u32), TimelineRow::Separator]);
            }
            if tmp@.len() > 0 {
                if is_last {
                    assert(rows@ =~= rows1 + tmp@ + Seq::<TimelineRow>::empty());
                } else {
                    assert(rows@ =~= rows1 + tmp@ + seq![TimelineRow::Separator]);
                }
            }
        }
        t = t + 1;
    }
    proof {
        assert(tv.take(len as int) =~= tv);
    }
    rows
}

} // verus!
