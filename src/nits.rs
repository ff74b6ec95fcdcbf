use vstd::prelude::*;
use vstd::string::StringExecFns;
use crate::range_check::{range_check, OutOfRangeError, RangeBound};
use crate::text::{decimal_text, hex_byte, hex_char, i32_text};

verus! {

/// Number of per-car raw command channels; the commonline follows them.
pub const CAR_CHANNELS: usize = 32;

/// Channel slot of the unit itself.
pub const SELF_CHANNEL: u32 = 16;

/// Position of a car relative to the observing unit: negative values are
/// ahead, positive values behind, zero is the unit itself.
#[derive(Clone, Copy, Debug, PartialEq, Eq, Structural, PartialOrd, Ord, Hash)]
pub struct NitsRelativeCarCount(pub i32);

/// The channel slot that carries the command of the car at `rel`, for a
/// train with `front` cars ahead and `back` cars behind; `None` where the
/// inputs are out of range or the slot would be negative.
pub open spec fn channel_number_spec(rel: int, front: int, back: int) -> Option<int> {
    if !(-15 <= rel <= 15 && 0 <= front <= 15 && 0 <= back <= 15) {
        None
    } else if rel < 0 {
        if 1 + front + rel >= 0 {
            Some(1 + front + rel)
        } else {
            None
        }
    } else if rel > 0 {
        Some(31 + rel - back)
    } else {
        Some(16)
    }
}

impl NitsRelativeCarCount {
    pub fn new(value: i32) -> (r: Self)
        ensures
            r.0 == value,
    {
        NitsRelativeCarCount(value)
    }

    pub fn value(&self) -> (r: i32)
        ensures
            r == self.0,
    {
        self.0
    }

    /// The channel slot of this position (see `channel_number_spec`).
    /// The position, then the front count, then the back count are checked
    /// in turn; the first that is out of range is reported.
    pub fn get_channel_number(&self, car_count_front: u32, car_count_back: u32) -> (r: Result<
        u32,
        OutOfRangeError,
    >)
        ensures
            r is Ok <==> channel_number_spec(self.0 as int, car_count_front as int, car_count_back as int) is Some,
            r matches Ok(c) ==> Some(c as int) == channel_number_spec(self.0 as int, car_count_front as int, car_count_back as int),
            r matches Err(e) ==> {
                if !(-15 <= self.0 <= 15) {
                    e.value == self.0 && e.name@ == "NitsRelativeCarCount"@
                } else if !(car_count_front <= 15) {
                    e.value == car_count_front as i32 && e.name@ == "car_count_front"@
                } else if !(car_count_back <= 15) {
                    e.value == car_count_back as i32 && e.name@ == "car_count_back"@
                } else {
                    e.value == self.0 && e.name@ == "NitsRelativeCarCount"@
                }
            },
    {
        let c = self.0;
        range_check(c, "NitsRelativeCarCount", RangeBound::Included(-15), RangeBound::Included(15))?;
        let front = #[verifier::truncate] (car_count_front as i32);
        let back = #[verifier::truncate] (car_count_back as i32);
        proof {
            assert(car_count_front <= 15 ==> front == car_count_front) by (bit_vector)
                requires
                    front == car_count_front as i32,
            ;
            assert(car_count_front > 15 ==> !(0 <= front <= 15)) by (bit_vector)
                requires
                    front == car_count_front as i32,
            ;
            assert(car_count_back <= 15 ==> back == car_count_back) by (bit_vector)
                requires
                    back == car_count_back as i32,
            ;
            assert(car_count_back > 15 ==> !(0 <= back <= 15)) by (bit_vector)
                requires
                    back == car_count_back as i32,
            ;
        }
        range_check(front, "car_count_front", RangeBound::Included(0), RangeBound::Included(15))?;
        range_check(back, "car_count_back", RangeBound::Included(0), RangeBound::Included(15))?;
        if c < 0 {
            // the slot may not fall below zero: at most `front + 1` cars ahead
            range_check(c, "NitsRelativeCarCount", RangeBound::Included(-(front + 1)), RangeBound::Included(15))?;
            Ok((1 + front + c) as u32)
        } else if c > 0 {
            Ok((31 + c - back) as u32)
        } else {
            Ok(SELF_CHANNEL)
        }
    }

    /// `"<n> Front"`, `"<n> Back"` or `"Self"`.
    pub fn label(&self) -> (r: String)
        ensures
            self.0 < 0 ==> r@ == decimal_text(-(self.0 as int)) + " Front"@,
            self.0 > 0 ==> r@ == decimal_text(self.0 as int) + " Back"@,
            self.0 == 0 ==> r@ == "Self"@,
    {
        if self.0 < 0 {
            if self.0 == i32::MIN {
                // its magnitude does not fit in i32: write the sign-less digits
                let t = i32_text(self.0);
                proof {
                    reveal_strlit(" Front");
                    reveal_with_fuel(crate::text::digits_of, 2);
                }
                let digits = t.as_str().substring_char(1, t.as_str().unicode_len());
                let mut s = String::from_str(digits);
                s.append(" Front");
                proof {
                    assert(s@ =~= decimal_text(-(self.0 as int)) + " Front"@);
                }
                s
            } else {
                let mut s = i32_text(-self.0);
                s.append(" Front");
                s
            }
        } else if self.0 > 0 {
            let mut s = i32_text(self.0);
            s.append(" Back");
            s
        } else {
            String::from_str("Self")
        }
    }
}

/// The command type of a NITS word, bits 24 to 31.
#[derive(Clone, Copy, Debug, PartialEq, Eq, Structural, PartialOrd, Ord, Hash)]
pub struct NitsCommandType(pub u8);

impl NitsCommandType {
    /// `"0x"` followed by two lower-case hexadecimal digits.
    pub fn label(&self) -> (r: String)
        ensures
            r@ == "0x"@ + seq![hex_char((self.0 / 16) as nat), hex_char((self.0 % 16) as nat)],
    {
        let mut s = String::from_str("0x");
        s.append(hex_byte(self.0).as_str());
        s
    }
}

pub open spec fn command_type_of(w: u32) -> u8 {
    (w >> 24u32) as u8
}

pub open spec fn payload_of(w: u32) -> u32 {
    w & 0xFF_FFFFu32
}

/// Cars ahead of the unit, carried in the low four bits of a commonline payload.
pub open spec fn front_count_of(payload: u32) -> u32 {
    payload & 15u32
}

/// Cars behind the unit, carried in payload bits 5 to 8.
pub open spec fn back_count_of(payload: u32) -> u32 {
    (payload >> 5u32) & 15u32
}

/// A raw 32-bit NITS word.
#[derive(Clone, Copy, Debug, PartialEq, Eq, Structural)]
pub struct NitsCommand(pub u32);

impl NitsCommand {
    pub fn new(value: u32) -> (r: Self)
        ensures
            r.0 == value,
    {
        NitsCommand(value)
    }

    pub fn value(&self) -> (r: u32)
        ensures
            r == self.0,
    {
        self.0
    }

    pub fn command_type(&self) -> (r: NitsCommandType)
        ensures
            r.0 == command_type_of(self.0),
    {
        NitsCommandType(self.get_command_type())
    }

    pub fn get_command_type(&self) -> (r: u8)
        ensures
            r == command_type_of(self.0),
    {
        (self.0 >> 24) as u8
    }

    pub fn payload(&self) -> (r: u32)
        ensures
            r == payload_of(self.0),
            r < 0x100_0000,
    {
        self.get_payload()
    }

    pub fn get_payload(&self) -> (r: u32)
        ensures
            r == payload_of(self.0),
            r < 0x100_0000,
    {
        let w = self.0;
        let r = w & 0xFF_FFFF;
        assert(r < 0x100_0000) by (bit_vector)
            requires
                r == w & 0xFF_FFFFu32,
        ;
        r
    }

    /// The (front, back) car counts when this word is a commonline command.
    pub fn car_counts(&self) -> (r: (u32, u32))
        ensures
            r.0 == front_count_of(payload_of(self.0)),
            r.1 == back_count_of(payload_of(self.0)),
            r.0 <= 15,
            r.1 <= 15,
    {
        let p = self.get_payload();
        let f = p & 15;
        let b = (p >> 5) & 15;
        assert(f <= 15 && b <= 15) by (bit_vector)
            requires
                f == p & 15u32,
                b == (p >> 5u32) & 15u32,
        ;
        (f, b)
    }
}


/// Entries sorted by strictly increasing relative position.
pub open spec fn sorted_entries(s: Seq<(NitsRelativeCarCount, NitsCommand)>) -> bool {
    forall|i: int, j: int| 0 <= i < j < s.len() ==> s[i].0.0 < s[j].0.0
}

/// Whether `s` associates position `k` with command word `v`.
pub open spec fn has_entry(s: Seq<(NitsRelativeCarCount, NitsCommand)>, k: i32, v: u32) -> bool {
    exists|i: int| 0 <= i < s.len() && s[i].0.0 == k && s[i].1.0 == v
}

/// One decoded instant: the commonline command and, per relative position,
/// the command received from that car, in increasing order of position.
#[derive(Clone, Debug)]
pub struct NitsTick {
    commonline: NitsCommand,
    commands: Vec<(NitsRelativeCarCount, NitsCommand)>,
}

impl View for NitsTick {
    type V = (NitsCommand, Seq<(NitsRelativeCarCount, NitsCommand)>);

    closed spec fn view(&self) -> Self::V {
        (self.commonline, self.commands@)
    }
}

impl NitsTick {
    pub open spec fn wf(&self) -> bool {
        sorted_entries(self@.1)
    }

    pub fn new(commonline: NitsCommand) -> (r: Self)
        ensures
            r@.0 == commonline,
            r@.1 == Seq::<(NitsRelativeCarCount, NitsCommand)>::empty(),
            r.wf(),
    {
        NitsTick { commonline, commands: Vec::new() }
    }

    /// Records `command` as sent from `sender`, replacing an earlier one
    /// from the same position.
    pub fn add_command(&mut self, sender: NitsRelativeCarCount, command: NitsCommand)
        requires
            old(self).wf(),
        ensures
            final(self).wf(),
            final(self)@.0 == old(self)@.0,
            forall|k: i32, v: u32|
                has_entry(final(self)@.1, k, v) <==> ((k == sender.0 && v == command.0) || (k
                    != sender.0 && has_entry(old(self)@.1, k, v))),
    {
        let ghost old_s = self.commands@;
        let mut i: usize = 0;
        while i < self.commands.len() && self.commands[i].0.0 < sender.0
            invariant
                0 <= i <= self.commands@.len(),
                self.commands@ == old_s,
                forall|j: int| 0 <= j < i ==> old_s[j].0.0 < sender.0,
            decreases self.commands@.len() - i,
        {
            i = i + 1;
        }
        if i < self.commands.len() && self.commands[i].0.0 == sender.0 {
            self.commands.set(i, (sender, command));
            proof {
                let s = self.commands@;
                assert forall|k: i32, v: u32|
                    has_entry(s, k, v) <==> ((k == sender.0 && v == command.0) || (k != sender.0
                        && has_entry(old_s, k, v))) by {
                    if has_entry(s, k, v) {
                        let m = choose|m: int| 0 <= m < s.len() && s[m].0.0 == k && s[m].1.0 == v;
                        if m != i {
                            assert(old_s[m] == s[m]);
                        }
                    }
                    if k != sender.0 && has_entry(old_s, k, v) {
                        let m = choose|m: int|
                            0 <= m < old_s.len() && old_s[m].0.0 == k && old_s[m].1.0 == v;
                        assert(s[m] == old_s[m]);
                    }
                    if k == sender.0 && v == command.0 {
                        assert(s[i as int].0.0 == k && s[i as int].1.0 == v);
                    }
                }
            }
        } else {
            self.commands.insert(i, (sender, command));
            proof {
                let s = self.commands@;
                assert(s =~= old_s.insert(i as int, (sender, command)));
                assert forall|k: i32, v: u32|
                    has_entry(s, k, v) <==> ((k == sender.0 && v == command.0) || (k != sender.0
                        && has_entry(old_s, k, v))) by {
                    if has_entry(s, k, v) {
                        let m = choose|m: int| 0 <= m < s.len() && s[m].0.0 == k && s[m].1.0 == v;
                        if m < i {
                            assert(old_s[m] == s[m]);
                        } else if m > i {
                            assert(old_s[m - 1] == s[m]);
                        }
                    }
                    if k != sender.0 && has_entry(old_s, k, v) {
                        let m = choose|m: int|
                            0 <= m < old_s.len() && old_s[m].0.0 == k && old_s[m].1.0 == v;
                        if m < i {
                            assert(s[m] == old_s[m]);
                        } else {
                            assert(s[m + 1] == old_s[m]);
                        }
                    }
                    if k == sender.0 && v == command.0 {
                        assert(s[i as int].0.0 == k && s[i as int].1.0 == v);
                    }
                }
            }
        }
    }

    /// A tick from its parts, when the commands come in strictly
    /// increasing order of position.
    pub fn from_parts(commonline: NitsCommand, commands: Vec<(NitsRelativeCarCount, NitsCommand)>) -> (r: Option<Self>)
        ensures
            r is Some <==> sorted_entries(commands@),
            r matches Some(t) ==> t@ == (commonline, commands@) && t.wf(),
    {
        let mut i: usize = 1;
        while i < commands.len()
            invariant
                1 <= i,
                forall|a: int, b: int| 0 <= a < b < i && b < commands@.len() ==> commands@[a].0.0 < commands@[b].0.0,
            decreases commands@.len() - i,
        {
            if commands[i - 1].0.0 >= commands[i].0.0 {
                return None;
            }
            proof {
                assert forall|a: int, b: int| 0 <= a < b < i + 1 && b < commands@.len() implies commands@[a].0.0 < commands@[b].0.0 by {
                    if b == i as int && a < i - 1 {
                        assert(commands@[a].0.0 < commands@[i - 1].0.0);
                    }
                }
            }
            i = i + 1;
        }
        Some(NitsTick { commonline, commands })
    }

    /// A copy of this tick.
    pub fn copy(&self) -> (r: Self)
        ensures
            r@ == self@,
    {
        let mut commands: Vec<(NitsRelativeCarCount, NitsCommand)> = Vec::new();
        let mut i: usize = 0;
        while i < self.commands.len()
            invariant
                i <= self.commands@.len(),
                commands@ == self.commands@.take(i as int),
            decreases self.commands@.len() - i,
        {
            commands.push(self.commands[i]);
            proof {
                assert(commands@ =~= self.commands@.take(i + 1));
            }
            i = i + 1;
        }
        proof {
            assert(commands@ =~= self.commands@);
        }
        NitsTick { commonline: self.commonline, commands }
    }

    pub fn commonline(&self) -> (r: &NitsCommand)
        ensures
            *r == self@.0,
    {
        &self.commonline
    }

    pub fn commands(&self) -> (r: &Vec<(NitsRelativeCarCount, NitsCommand)>)
        ensures
            r@ == self@.1,
    {
        &self.commands
    }

    pub fn get_commonline(&self) -> (r: &NitsCommand)
        ensures
            *r == self@.0,
    {
        &self.commonline
    }

    pub fn get_commands(&self) -> (r: &Vec<(NitsRelativeCarCount, NitsCommand)>)
        ensures
            r@ == self@.1,
    {
        &self.commands
    }
}

/// The commands of a tick whose commonline announces `front` cars ahead and
/// `back` behind, for the positions from `-front` up to `hi`: each position
/// whose slot holds a sample in `row`, in increasing order.
pub open spec fn decoded_entries(front: int, back: int, row: Seq<Option<u32>>, hi: int) -> Seq<
    (NitsRelativeCarCount, NitsCommand),
>
    decreases hi + front + 1,
{
    if hi < -front {
        Seq::empty()
    } else {
        let prev = decoded_entries(front, back, row, hi - 1);
        match channel_number_spec(hi, front, back) {
            Some(ch) => if 0 <= ch < row.len() && row[ch] is Some {
                prev.push((NitsRelativeCarCount(hi as i32), NitsCommand(row[ch]->0)))
            } else {
                prev
            },
            None => prev,
        }
    }
}

/// The tick decoded from a commonline word and the time-aligned sample of
/// each car channel (`row[ch]`, `None` where the channel sent nothing).
pub open spec fn tick_spec(commonline: u32, row: Seq<Option<u32>>) -> (
    NitsCommand,
    Seq<(NitsRelativeCarCount, NitsCommand)>,
) {
    let p = payload_of(commonline);
    (
        NitsCommand(commonline),
        decoded_entries(front_count_of(p) as int, back_count_of(p) as int, row, back_count_of(p) as int),
    )
}

/// Every position in `decoded_entries` lies in `[-front, hi]`, in increasing order.
pub proof fn lemma_decoded_sorted(front: int, back: int, row: Seq<Option<u32>>, hi: int)
    requires
        0 <= front,
    ensures
        sorted_entries(decoded_entries(front, back, row, hi)),
        forall|i: int|
            0 <= i < decoded_entries(front, back, row, hi).len() ==> -front
                <= #[trigger] decoded_entries(front, back, row, hi)[i].0.0 <= hi,
    decreases hi + front + 1,
{
    if hi >= -front {
        lemma_decoded_sorted(front, back, row, hi - 1);
    }
}

/// Decodes one tick from its commonline word and the time-aligned sample of
/// every car channel; positions whose slot is missing from `row` are left out.
pub fn decode_tick(commonline: NitsCommand, row: &Vec<Option<u32>>) -> (r: NitsTick)
    ensures
        r@ == tick_spec(commonline.0, row@),
        r.wf(),
        forall|i: int| 0 <= i < r@.1.len() ==> -15 <= #[trigger] r@.1[i].0.0 <= 15,
{
    let (front, back) = commonline.car_counts();
    let ghost f = front as int;
    let ghost b = back as int;
    let mut commands: Vec<(NitsRelativeCarCount, NitsCommand)> = Vec::new();
    let mut j: i32 = -(front as i32);
    while j <= back as i32
        invariant
            0 <= f <= 15,
            0 <= b <= 15,
            front == f,
            back == b,
            -f <= j <= b + 1,
            commands@ == decoded_entries(f, b, row@, j - 1),
        decreases b + 1 - j,
    {
        let key = NitsRelativeCarCount(j);
        match key.get_channel_number(front, back) {
            Ok(ch) => {
                if (ch as usize) < row.len() {
                    match row[ch as usize] {
                        Some(c) => {
                            commands.push((key, NitsCommand(c)));
                        },
                        None => {},
                    }
                }
            },
            Err(_) => {},
        }
        j = j + 1;
    }
    proof {
        lemma_decoded_sorted(f, b, row@, b);
    }
    NitsTick { commonline, commands }
}

/// The positions that sent a command in a tick.
pub open spec fn tick_senders(t: (NitsCommand, Seq<(NitsRelativeCarCount, NitsCommand)>)) -> Set<int> {
    Set::new(|k: int| exists|i: int| 0 <= i < t.1.len() && t.1[i].0.0 == k)
}

/// The command types seen in a tick: the commonline's and each car's.
pub open spec fn tick_types(t: (NitsCommand, Seq<(NitsRelativeCarCount, NitsCommand)>)) -> Set<u8> {
    Set::new(
        |c: u8|
            c == command_type_of(t.0.0) || exists|i: int|
                0 <= i < t.1.len() && command_type_of(t.1[i].1.0) == c,
    )
}

/// Who sent a row of the timeline: a car at a relative position, or the commonline.
#[derive(Clone, Copy, Debug, PartialEq, Eq, Structural, PartialOrd, Ord, Hash)]
pub enum NitsSender {
    Command(NitsRelativeCarCount),
    CommonLine,
}

impl NitsSender {
    /// The position's label, or `"Common Line"`.
    pub fn label(&self) -> (r: String)
        ensures
            self matches NitsSender::CommonLine ==> r@ == "Common Line"@,
            self matches NitsSender::Command(c) ==> (c.0 == 0 ==> r@ == "Self"@),
            self matches NitsSender::Command(c) ==> (c.0 > 0 ==> r@ == decimal_text(c.0 as int) + " Back"@),
            self matches NitsSender::Command(c) ==> (c.0 < 0 ==> r@ == decimal_text(-(c.0 as int)) + " Front"@),
    {
        match self {
            NitsSender::Command(c) => c.label(),
            NitsSender::CommonLine => String::from_str("Common Line"),
        }
    }
}

/// The unit itself always sits in slot 16.
pub proof fn lemma_self_slot(front: int, back: int)
    requires
        0 <= front <= 15,
        0 <= back <= 15,
    ensures
        channel_number_spec(0, front, back) == Some(16int),
{
}

/// The car just ahead sits in slot `front`, the car just behind in slot
/// `31 + 1 - back`; positions beyond 15 either way have no slot.
pub proof fn lemma_neighbour_slots(front: int, back: int)
    requires
        0 <= front <= 15,
        0 <= back <= 15,
    ensures
        channel_number_spec(-1, front, back) == Some(front),
        channel_number_spec(1, front, back) == Some(31 + 1 - back),
        channel_number_spec(16, front, back) is None,
        channel_number_spec(-16, front, back) is None,
{
}

} // verus!
