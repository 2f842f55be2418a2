//! The boot-protocol keyboard report: one byte of modifier bits, one
//! reserved byte and six key slots.

use vstd::prelude::*;

verus! {

/// The usage code of the first of the eight modifier keys.
pub const FIRST_MODIFIER: u8 = 0xE0;

/// The usage code of the last of the eight modifier keys.
pub const LAST_MODIFIER: u8 = 0xE7;

/// How many key slots a report has.
pub const SLOTS: usize = 6;

/// Whether `code` is one of the eight modifier keys.
pub open spec fn is_modifier(code: u8) -> bool {
    FIRST_MODIFIER <= code <= LAST_MODIFIER
}

/// Whether `code` takes a key slot: it is a key, and no modifier.
pub open spec fn is_regular(code: u8) -> bool {
    code != 0 && !is_modifier(code)
}

/// The bit of the modifier byte that stands for `code`.
pub open spec fn modifier_bit(code: u8) -> u8 {
    if is_modifier(code) {
        1u8 << ((code - FIRST_MODIFIER) as u8)
    } else {
        0
    }
}

/// The modifier byte of the active keys.
pub open spec fn modifiers(active: Seq<u8>) -> u8
    decreases active.len(),
{
    if active.len() == 0 {
        0
    } else {
        modifiers(active.drop_last()) | modifier_bit(active.last())
    }
}

/// The active keys that take a slot, in the order in which they occur.
pub open spec fn regular(active: Seq<u8>) -> Seq<u8>
    decreases active.len(),
{
    if active.len() == 0 {
        Seq::empty()
    } else if is_regular(active.last()) {
        regular(active.drop_last()).push(active.last())
    } else {
        regular(active.drop_last())
    }
}

/// What key slot `index` holds: the key of that rank among those that take
/// a slot, and zero where there is none.
pub open spec fn slot(active: Seq<u8>, index: int) -> u8 {
    if 0 <= index < regular(active).len() {
        regular(active)[index]
    } else {
        0
    }
}

/// The eight bytes of the report of the active keys. Keys beyond the sixth
/// that takes a slot are left out.
pub open spec fn report_bytes(active: Seq<u8>) -> Seq<u8> {
    seq![
        modifiers(active),
        0u8,
        slot(active, 0),
        slot(active, 1),
        slot(active, 2),
        slot(active, 3),
        slot(active, 4),
        slot(active, 5),
    ]
}

/// A report has eight bytes, the second of them zero, and each key slot is
/// empty or holds a key that is no modifier.
pub proof fn lemma_report_shape(active: Seq<u8>)
    ensures
        report_bytes(active).len() == 8,
        report_bytes(active)[1] == 0,
        forall|i: int|
            2 <= i < 8 ==> (#[trigger] report_bytes(active)[i]) == 0 || is_regular(
                report_bytes(active)[i],
            ),
{
    lemma_regular_holds_regular(active);
}

proof fn lemma_regular_holds_regular(active: Seq<u8>)
    ensures
        forall|i: int| 0 <= i < regular(active).len() ==> is_regular(#[trigger] regular(active)[i]),
    decreases active.len(),
{
    if active.len() > 0 {
        lemma_regular_holds_regular(active.drop_last());
        let before = regular(active.drop_last());
        assert forall|i: int| 0 <= i < regular(active).len() implies is_regular(
            #[trigger] regular(active)[i],
        ) by {
            if i < before.len() {
                assert(regular(active)[i] == before[i]);
            }
        }
    }
}

/// The report is a function of the active keys: the same keys in the same
/// order give the same eight bytes.
pub proof fn lemma_report_deterministic(first: Seq<u8>, second: Seq<u8>)
    requires
        first =~= second,
    ensures
        report_bytes(first) == report_bytes(second),
{
}

/// One more active key adds its bit to the modifier byte where it is a
/// modifier, and goes behind the keys that take a slot where it is one of
/// them; the other part of the report stays as it is.
pub proof fn lemma_report_of_one_more(active: Seq<u8>, code: u8)
    ensures
        !is_regular(code) ==> regular(active.push(code)) == regular(active),
        is_regular(code) ==> regular(active.push(code)) == regular(active).push(code),
        !is_modifier(code) ==> modifiers(active.push(code)) == modifiers(active),
        modifiers(active.push(code)) == modifiers(active) | modifier_bit(code),
{
    assert(active.push(code).drop_last() =~= active);
    assert(active.push(code).last() == code);
    let byte = modifiers(active);
    assert(byte | 0u8 == byte) by (bit_vector);
}

/// One report.
#[derive(Clone, Copy, Debug, PartialEq, Eq)]
pub struct Report {
    bytes: [u8; 8],
}

impl View for Report {
    type V = Seq<u8>;

    /// The bytes of the report, in the order in which they are sent.
    closed spec fn view(&self) -> Seq<u8> {
        self.bytes@
    }
}

impl Report {
    /// The report of no keys.
    pub fn empty() -> (report: Report)
        ensures
            report@ == report_bytes(Seq::empty()),
    {
        let report = Report { bytes: [0u8, 0u8, 0u8, 0u8, 0u8, 0u8, 0u8, 0u8] };
        assert(report.bytes@ =~= report_bytes(Seq::empty()));
        report
    }

    /// The report of the active keys: modifiers set their bit of the first
    /// byte, the other keys fill the six slots in the order in which they
    /// occur, and those that find no slot are left out.
    pub fn of_keys(active: &Vec<u8>) -> (report: Report)
        ensures
            report@ == report_bytes(active@),
    {
        let mut bytes: [u8; 8] = [0u8, 0u8, 0u8, 0u8, 0u8, 0u8, 0u8, 0u8];
        let mut used: usize = 0;
        let mut i: usize = 0;
        while i < active.len()
            invariant
                i <= active@.len(),
                used <= SLOTS,
                used <= regular(active@.take(i as int)).len(),
                used < SLOTS ==> used == regular(active@.take(i as int)).len(),
                bytes@.len() == 8,
                bytes@[0] == modifiers(active@.take(i as int)),
                bytes@[1] == 0,
                forall|j: int|
                    2 <= j < 8 ==> #[trigger] bytes@[j] == slot(active@.take(i as int), j - 2),
            decreases active@.len() - i,
        {
            let code: u8 = active[i];
            proof {
                lemma_report_of_one_more(active@.take(i as int), code);
                assert(active@.take(i + 1) =~= active@.take(i as int).push(code));
            }
            let ghost before = bytes@;
            let ghost taken = regular(active@.take(i as int));
            if FIRST_MODIFIER <= code && code <= LAST_MODIFIER {
                let bit: u8 = 1u8 << (code - FIRST_MODIFIER);
                let merged: u8 = bytes[0] | bit;
                bytes[0] = merged;
                assert(bytes@ =~= before.update(0, merged));
            } else if code != 0 && used < SLOTS {
                bytes[2 + used] = code;
                assert(bytes@ =~= before.update(2 + used, code));
                used += 1;
                assert(regular(active@.take(i + 1)) == taken.push(code));
            } else if code != 0 {
                assert(regular(active@.take(i + 1)) == taken.push(code));
            } else {
                assert(regular(active@.take(i + 1)) == taken);
            }
            i += 1;
        }
        assert(active@.take(i as int) =~= active@);
        let report = Report { bytes };
        assert(report.bytes@ =~= report_bytes(active@));
        report
    }

    /// The bytes of the report, in the order in which they are sent.
    pub fn as_bytes(&self) -> (bytes: [u8; 8])
        ensures
            bytes@ == self@,
    {
        self.bytes
    }

    /// Whether the two reports differ in any byte.
    pub fn differs_from(&self, other: &Report) -> (differs: bool)
        ensures
            differs == (self@ != other@),
    {
        let mut i: usize = 0;
        while i < 8
            invariant
                i <= 8,
                forall|k: int| 0 <= k < i ==> self.bytes@[k] == other.bytes@[k],
            decreases 8 - i,
        {
            if self.bytes[i] != other.bytes[i] {
                return true;
            }
            i += 1;
        }
        assert(self.bytes@ =~= other.bytes@);
        false
    }
}

/// Builds reports and remembers the last one, so that a caller sends a
/// report only when it has changed.
#[derive(Debug)]
pub struct ReportBuilder {
    last: Report,
}

impl ReportBuilder {
    /// The report that was built last.
    pub closed spec fn last(&self) -> Report {
        self.last
    }

    /// A builder whose last report is that of no keys.
    pub fn new() -> (builder: ReportBuilder)
        ensures
            builder.last()@ == report_bytes(Seq::empty()),
    {
        ReportBuilder { last: Report::empty() }
    }

    /// Builds the report of the active keys, and says whether it differs
    /// from the report built before.
    pub fn build(&mut self, active: &Vec<u8>) -> (out: (Report, bool))
        ensures
            out.0@ == report_bytes(active@),
            out.1 == (report_bytes(active@) != old(self).last()@),
            final(self).last() == out.0,
    {
        let report = Report::of_keys(active);
        let changed: bool = report.differs_from(&self.last);
        self.last = report;
        (report, changed)
    }
}

} // verus!
