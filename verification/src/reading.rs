//! Readings: one poll of the device, as entries keyed by registry code, and
//! the adapter that normalises each reading as it passes.

use vstd::prelude::*;
use crate::code::{lemma_order_is_total, RegistryCode};
use crate::normalize::{normalize, spec_normalize, ConversionError};
use crate::value::{Value, ValueView};

verus! {

/// One entry of a reading: a code, its value and the value's physical unit.
#[derive(Clone, Debug, PartialEq, Eq)]
pub struct Entry {
    pub code: RegistryCode,
    pub value: Value,
    pub unit: Option<String>,
}

/// The mathematical content of an `Entry`.
pub struct EntryView {
    pub code: RegistryCode,
    pub value: ValueView,
    pub unit: Option<Seq<char>>,
}

pub open spec fn unit_view(unit: Option<String>) -> Option<Seq<char>> {
    match unit {
        Some(s) => Some(s@),
        None => None,
    }
}

impl View for Entry {
    type V = EntryView;

    open spec fn view(&self) -> EntryView {
        EntryView { code: self.code, value: self.value@, unit: unit_view(self.unit) }
    }
}

/// A copy of a unit.
pub fn copy_unit(unit: &Option<String>) -> (r: Option<String>)
    ensures
        unit_view(r) == unit_view(*unit),
{
    match unit {
        Some(s) => Some(s.clone()),
        None => None,
    }
}

/// One complete poll of the device: a mapping from codes to values, kept in
/// the order of the codes.
#[derive(Clone, Debug, PartialEq, Eq)]
pub struct Reading {
    entries: Vec<Entry>,
}

impl View for Reading {
    type V = Seq<EntryView>;

    closed spec fn view(&self) -> Seq<EntryView> {
        self.entries@.map_values(|e: Entry| e@)
    }
}

/// The entries stand in the strict order of their codes, so no code occurs
/// twice.
pub open spec fn codes_ascend(entries: Seq<EntryView>) -> bool {
    forall|i: int, j: int|
        0 <= i < j < entries.len() ==> (#[trigger] entries[i]).code.spec_precedes(
            (#[trigger] entries[j]).code,
        )
}

/// Whether some entry carries the code.
pub open spec fn has_code(entries: Seq<EntryView>, code: RegistryCode) -> bool {
    exists|i: int| 0 <= i < entries.len() && (#[trigger] entries[i]).code == code
}

/// The codes of the entries, in their order.
pub open spec fn codes_of(entries: Seq<EntryView>) -> Seq<RegistryCode> {
    entries.map_values(|e: EntryView| e.code)
}

impl Reading {
    /// A reading maps each code to one value and lists the codes in order.
    pub open spec fn wf(&self) -> bool {
        codes_ascend(self@)
    }

    pub fn new() -> (r: Reading)
        ensures
            r@ == Seq::<EntryView>::empty(),
            r.wf(),
    {
        let r = Reading { entries: Vec::new() };
        assert(r@ =~= Seq::<EntryView>::empty());
        r
    }

    pub fn len(&self) -> (n: usize)
        ensures
            n == self@.len(),
    {
        self.entries.len()
    }

    pub fn entry(&self, i: usize) -> (e: &Entry)
        requires
            i < self@.len(),
        ensures
            e@ == self@[i as int],
    {
        &self.entries[i]
    }

    /// The place of the entry that carries `code`.
    pub fn position(&self, code: &RegistryCode) -> (r: Option<usize>)
        ensures
            r is Some <==> has_code(self@, *code),
            r matches Some(i) ==> i < self@.len() && self@[i as int].code == *code && forall|
                j: int,
            |
                0 <= j < i ==> (#[trigger] self@[j]).code != *code,
    {
        let mut i: usize = 0;
        while i < self.entries.len()
            invariant
                i <= self.entries.len(),
                forall|j: int| 0 <= j < i ==> (#[trigger] self@[j]).code != *code,
            decreases self.entries.len() - i,
        {
            if self.entries[i].code.same(code) {
                return Some(i);
            }
            i = i + 1;
        }
        None
    }

    /// Sets the value and unit for `code`: the entry that carries the code is
    /// replaced where there is one, else a new entry is put in the code's
    /// place in the order.
    pub fn insert(&mut self, code: RegistryCode, value: Value, unit: Option<String>)
        requires
            old(self).wf(),
        ensures
            final(self).wf(),
            has_code(old(self)@, code) ==> exists|i: int|
                0 <= i < old(self)@.len() && (#[trigger] old(self)@[i]).code == code
                    && final(self)@ == old(self)@.update(
                    i,
                    EntryView { code, value: value@, unit: unit_view(unit) },
                ),
            !has_code(old(self)@, code) ==> exists|i: int|
                0 <= i <= old(self)@.len() && final(self)@ == #[trigger] old(self)@.insert(
                    i,
                    EntryView { code, value: value@, unit: unit_view(unit) },
                ),
    {
        let ghost new_entry = EntryView { code, value: value@, unit: unit_view(unit) };
        let mut p: usize = 0;
        while p < self.entries.len() && self.entries[p].code.precedes(&code)
            invariant
                p <= self.entries.len(),
                *self == *old(self),
                forall|j: int| 0 <= j < p ==> (#[trigger] self@[j]).code.spec_precedes(code),
            decreases self.entries.len() - p,
        {
            p = p + 1;
        }
        if p < self.entries.len() && self.entries[p].code.same(&code) {
            self.entries.set(p, Entry { code, value, unit });
            assert(self@ =~= old(self)@.update(p as int, new_entry));
            assert(old(self)@[p as int].code == code);
            assert forall|i: int, j: int| 0 <= i < j < self@.len() implies (#[trigger] self@[i]).code.spec_precedes(
                (#[trigger] self@[j]).code,
            ) by {
                assert(self@[i].code == old(self)@[i].code);
                assert(self@[j].code == old(self)@[j].code);
            }
        } else {
            let ghost before = old(self)@;
            proof {
                if p < before.len() {
                    lemma_order_is_total(code, before[p as int].code, before[p as int].code);
                    assert(code.spec_precedes(before[p as int].code));
                }
                assert forall|j: int| p <= j < before.len() implies code.spec_precedes(
                    (#[trigger] before[j]).code,
                ) by {
                    if j > p {
                        lemma_order_is_total(code, before[p as int].code, before[j].code);
                    }
                }
                assert forall|j: int| 0 <= j < before.len() implies (#[trigger] before[j]).code
                    != code by {
                    lemma_order_is_total(code, before[j].code, code);
                }
            }
            self.entries.insert(p, Entry { code, value, unit });
            assert(self@ =~= before.insert(p as int, new_entry));
            assert forall|i: int, j: int| 0 <= i < j < self@.len() implies (#[trigger] self@[i]).code.spec_precedes(
                (#[trigger] self@[j]).code,
            ) by {
                if j < p {
                    assert(self@[i] == before[i] && self@[j] == before[j]);
                } else if j == p {
                    assert(self@[i] == before[i]);
                } else if i < p {
                    assert(self@[i] == before[i] && self@[j] == before[j - 1]);
                } else if i == p {
                    assert(self@[j] == before[j - 1]);
                } else {
                    assert(self@[i] == before[i - 1] && self@[j] == before[j - 1]);
                }
            }
        }
    }
}

/// What normalising every entry of a reading yields: the entries with their
/// values normalised, or the error of the first entry that fails.
pub open spec fn spec_normalize_entries(entries: Seq<EntryView>) -> Result<
    Seq<EntryView>,
    ConversionError,
>
    decreases entries.len(),
{
    if entries.len() == 0 {
        Ok(Seq::empty())
    } else {
        match spec_normalize_entries(entries.drop_last()) {
            Err(e) => Err(e),
            Ok(done) => match spec_normalize(entries.last().code, entries.last().value) {
                Err(e) => Err(e),
                Ok(v) => Ok(
                    done.push(
                        EntryView { code: entries.last().code, value: v, unit: entries.last().unit },
                    ),
                ),
            },
        }
    }
}

/// The content of an adapted reading.
pub open spec fn view_reading<E>(r: Result<Reading, E>) -> Result<Seq<EntryView>, E> {
    match r {
        Ok(reading) => Ok(reading@),
        Err(e) => Err(e),
    }
}

/// Normalises every entry of a reading, keeping codes, units and order. The
/// first value that cannot be converted fails the whole reading.
pub fn normalize_reading(reading: &Reading) -> (r: Result<Reading, ConversionError>)
    ensures
        view_reading(r) == spec_normalize_entries(reading@),
        reading.wf() ==> (r matches Ok(out) ==> out.wf()),
{
    let mut out: Vec<Entry> = Vec::new();
    let mut i: usize = 0;
    assert(reading@.take(0) =~= Seq::<EntryView>::empty());
    assert(out@.map_values(|e: Entry| e@) =~= Seq::<EntryView>::empty());
    while i < reading.entries.len()
        invariant
            i <= reading.entries.len(),
            spec_normalize_entries(reading@.take(i as int)) is Ok,
            spec_normalize_entries(reading@.take(i as int)).unwrap() == out@.map_values(
                |e: Entry| e@,
            ),
        decreases reading.entries.len() - i,
    {
        let entry = &reading.entries[i];
        let ghost prefix = reading@.take(i as int + 1);
        proof {
            assert(prefix.drop_last() =~= reading@.take(i as int));
            assert(prefix.last() == entry@);
        }
        match normalize(&entry.code, entry.value.copy()) {
            Ok(value) => {
                let ghost before = out@.map_values(|e: Entry| e@);
                out.push(Entry { code: entry.code, value, unit: copy_unit(&entry.unit) });
                assert(out@.map_values(|e: Entry| e@) =~= before.push(
                    EntryView { code: entry.code, value: value@, unit: unit_view(entry.unit) },
                ));
            },
            Err(e) => {
                proof {
                    lemma_failure_stays(reading@, i as int + 1, e);
                }
                return Err(e);
            },
        }
        i = i + 1;
    }
    assert(reading@.take(i as int) =~= reading@);
    let done = Reading { entries: out };
    assert(done@ == spec_normalize_entries(reading@).unwrap());
    proof {
        if reading.wf() {
            lemma_normalize_entries_wf(reading@);
        }
    }
    Ok(done)
}

/// Once a prefix of the entries fails, every longer prefix fails the same way.
pub proof fn lemma_failure_stays(entries: Seq<EntryView>, n: int, e: ConversionError)
    requires
        0 <= n <= entries.len(),
        spec_normalize_entries(entries.take(n)) == Err::<Seq<EntryView>, ConversionError>(e),
    ensures
        spec_normalize_entries(entries) == Err::<Seq<EntryView>, ConversionError>(e),
    decreases entries.len() - n,
{
    if n < entries.len() {
        assert(entries.take(n + 1).drop_last() =~= entries.take(n));
        lemma_failure_stays(entries, n + 1, e);
    } else {
        assert(entries.take(n) =~= entries);
    }
}

/// A normalised reading has the codes and units of the reading it came from,
/// in the same order, and each value is the normalised value of its entry.
pub proof fn lemma_normalize_entries_pointwise(entries: Seq<EntryView>)
    ensures
        spec_normalize_entries(entries) matches Ok(out) ==> out.len() == entries.len() && forall|
            i: int,
        |
            0 <= i < entries.len() ==> (#[trigger] out[i]).code == entries[i].code && out[i].unit
                == entries[i].unit && spec_normalize(entries[i].code, entries[i].value) == Ok::<
                ValueView,
                ConversionError,
            >(out[i].value),
        spec_normalize_entries(entries) matches Err(e) ==> exists|i: int|
            0 <= i < entries.len() && spec_normalize(
                (#[trigger] entries[i]).code,
                entries[i].value,
            ) == Err::<ValueView, ConversionError>(e),
    decreases entries.len(),
{
    if entries.len() > 0 {
        lemma_normalize_entries_pointwise(entries.drop_last());
        let last = entries.len() - 1;
        match spec_normalize_entries(entries.drop_last()) {
            Err(e) => {
                let i = choose|i: int|
                    0 <= i < entries.drop_last().len() && spec_normalize(
                        (#[trigger] entries.drop_last()[i]).code,
                        entries.drop_last()[i].value,
                    ) == Err::<ValueView, ConversionError>(e);
                assert(entries[i] == entries.drop_last()[i]);
            },
            Ok(done) => {
                match spec_normalize(entries.last().code, entries.last().value) {
                    Err(e) => {
                        assert(entries[last] == entries.last());
                    },
                    Ok(v) => {
                        let out = spec_normalize_entries(entries).unwrap();
                        assert forall|i: int| 0 <= i < entries.len() implies (#[trigger] out[i]).code
                            == entries[i].code && out[i].unit == entries[i].unit && spec_normalize(
                            entries[i].code,
                            entries[i].value,
                        ) == Ok::<ValueView, ConversionError>(out[i].value) by {
                            if i < last {
                                assert(out[i] == done[i]);
                                assert(entries[i] == entries.drop_last()[i]);
                            }
                        }
                    },
                }
            },
        }
    }
}

/// Normalising keeps a reading a mapping in the order of its codes, with the
/// same codes.
pub proof fn lemma_normalize_entries_wf(entries: Seq<EntryView>)
    requires
        codes_ascend(entries),
    ensures
        spec_normalize_entries(entries) matches Ok(out) ==> codes_ascend(out) && codes_of(out)
            == codes_of(entries),
{
    lemma_normalize_entries_pointwise(entries);
    if let Ok(out) = spec_normalize_entries(entries) {
        assert(codes_of(out) =~= codes_of(entries));
        assert forall|i: int, j: int| 0 <= i < j < out.len() implies (#[trigger] out[i]).code.spec_precedes(
            (#[trigger] out[j]).code,
        ) by {
            assert(entries[i].code.spec_precedes(entries[j].code));
        }
    }
}

/// In a well-formed reading no code occurs twice.
pub proof fn lemma_codes_distinct(entries: Seq<EntryView>, i: int, j: int)
    requires
        codes_ascend(entries),
        0 <= i < entries.len(),
        0 <= j < entries.len(),
        entries[i].code == entries[j].code,
    ensures
        i == j,
{
    if i < j {
        assert(entries[i].code.spec_precedes(entries[j].code));
    }
    if j < i {
        assert(entries[j].code.spec_precedes(entries[i].code));
    }
}

} // verus!
