//! The synchronisation loop: every reading after the first updates the
//! entity's cached values and yields one notification per update.
//!
//! Every failure is fatal and none is retried. A value that cannot be
//! converted stops the loop before any property of that reading is written;
//! it is never replaced by a default and the reading's other values are not
//! applied on their own. A code that names no property stops the loop at
//! that entry: the updates before it stay, none after it is made.

use vstd::prelude::*;
use crate::code::RegistryCode;
use crate::entity::{
    has_name, is_first_named, properties_of, with_value, Entity, LookupError, PropertyView,
};
use crate::normalize::ConversionError;
use crate::reading::{normalize_reading, spec_normalize_entries, EntryView, Reading};
use crate::value::{Value, ValueView};

verus! {

/// The message that a property now holds a value.
#[derive(Clone, Debug, PartialEq, Eq)]
pub struct Notification {
    pub name: String,
    pub value: Value,
}

/// The mathematical content of a `Notification`.
pub struct NotificationView {
    pub name: Seq<char>,
    pub value: ValueView,
}

impl View for Notification {
    type V = NotificationView;

    open spec fn view(&self) -> NotificationView {
        NotificationView { name: self.name@, value: self.value@ }
    }
}

/// The views of a list of notifications, in their order.
pub open spec fn notes_view(notes: Seq<Notification>) -> Seq<NotificationView> {
    notes.map_values(|n: Notification| n@)
}

/// The place of the first property with the name.
pub open spec fn index_of(props: Seq<PropertyView>, name: Seq<char>) -> int {
    choose|i: int| is_first_named(props, name, i)
}

/// The first property with a name is where `index_of` says.
pub proof fn lemma_index_of(props: Seq<PropertyView>, name: Seq<char>, i: int)
    requires
        is_first_named(props, name, i),
    ensures
        index_of(props, name) == i,
{
    let k = index_of(props, name);
    assert(is_first_named(props, name, k));
    if k < i {
        assert(props[k].name != name);
    }
    if i < k {
        assert(props[i].name != name);
    }
}

/// Where an entity stands after part of a reading was applied to it.
pub struct Progress {
    pub props: Seq<PropertyView>,
    pub notes: Seq<NotificationView>,
    pub failed: bool,
}

/// One update: the property named by the code takes the value and a
/// notification with that name and value is due. Where no property has the
/// name the update fails and nothing changes; after a failure nothing more is
/// applied.
pub open spec fn spec_update(p: Progress, code: RegistryCode, value: ValueView) -> Progress {
    let name = code.spec_name();
    if p.failed {
        p
    } else if !has_name(p.props, name) {
        Progress { failed: true, ..p }
    } else {
        Progress {
            props: with_value(p.props, index_of(p.props, name), value),
            notes: p.notes.push(NotificationView { name, value }),
            failed: false,
        }
    }
}

/// Applying the entries of a reading, one after the other.
pub open spec fn spec_apply(props: Seq<PropertyView>, entries: Seq<EntryView>) -> Progress
    decreases entries.len(),
{
    if entries.len() == 0 {
        Progress { props, notes: Seq::empty(), failed: false }
    } else {
        spec_update(
            spec_apply(props, entries.drop_last()),
            entries.last().code,
            entries.last().value,
        )
    }
}

/// Writes `value` to the property that `code` names and returns the
/// notification to dispatch. The value is committed before the notification
/// exists, so whoever receives it finds the new value in the entity. An
/// unknown name is an error and leaves the entity as it was.
pub fn update_property(entity: &mut Entity, code: &RegistryCode, value: Value) -> (r: Result<
    Notification,
    LookupError,
>)
    ensures
        r is Ok <==> has_name(old(entity)@, code.spec_name()),
        r matches Ok(note) ==> {
            let i = index_of(old(entity)@, code.spec_name());
            &&& is_first_named(old(entity)@, code.spec_name(), i)
            &&& final(entity)@ == with_value(old(entity)@, i, value@)
            &&& note@ == (NotificationView { name: code.spec_name(), value: value@ })
            &&& final(entity)@[i].value == note@.value
        },
        r is Err ==> final(entity)@ == old(entity)@,
        old(entity).wf() ==> final(entity).wf(),
{
    let name = code.name();
    match entity.find_property(&name) {
        Err(e) => Err(e),
        Ok(index) => {
            proof {
                lemma_index_of(entity@, name@, index as int);
            }
            let note = Notification { name, value: value.copy() };
            let _ = entity.set_cached_value(index, value);
            Ok(note)
        },
    }
}

/// What applying a reading did: the notifications to dispatch, in the order
/// of the updates, and the error that stopped it, if one did.
#[derive(Clone, Debug, PartialEq, Eq)]
pub struct Applied {
    pub notifications: Vec<Notification>,
    pub error: Option<LookupError>,
}

/// Applies a reading to the entity, entry by entry. An entry whose code names
/// no property stops it: the updates before that entry stay, and neither that
/// entry nor any after it is applied.
pub fn apply_reading(entity: &mut Entity, reading: &Reading) -> (r: Applied)
    ensures
        final(entity)@ == spec_apply(old(entity)@, reading@).props,
        notes_view(r.notifications@) == spec_apply(old(entity)@, reading@).notes,
        r.error is Some <==> spec_apply(old(entity)@, reading@).failed,
        old(entity).wf() ==> final(entity).wf(),
{
    let mut notifications: Vec<Notification> = Vec::new();
    let mut i: usize = 0;
    assert(reading@.take(0) =~= Seq::<EntryView>::empty());
    assert(notes_view(notifications@) =~= Seq::<NotificationView>::empty());
    while i < reading.len()
        invariant
            i <= reading@.len(),
            old(entity).wf() ==> entity.wf(),
            spec_apply(old(entity)@, reading@.take(i as int)) == (Progress {
                props: entity@,
                notes: notes_view(notifications@),
                failed: false,
            }),
        decreases reading@.len() - i,
    {
        let entry = reading.entry(i);
        let ghost before = notes_view(notifications@);
        proof {
            assert(reading@.take(i as int + 1).drop_last() =~= reading@.take(i as int));
            assert(reading@.take(i as int + 1).last() == entry@);
        }
        match update_property(entity, &entry.code, entry.value.copy()) {
            Ok(note) => {
                notifications.push(note);
                assert(notes_view(notifications@) =~= before.push(note@));
            },
            Err(e) => {
                proof {
                    lemma_failure_is_final(old(entity)@, reading@, i as int + 1);
                }
                return Applied { notifications, error: Some(e) };
            },
        }
        i = i + 1;
    }
    assert(reading@.take(i as int) =~= reading@);
    Applied { notifications, error: None }
}

/// Once a prefix of a reading has failed, the rest of it changes nothing.
pub proof fn lemma_failure_is_final(props: Seq<PropertyView>, entries: Seq<EntryView>, n: int)
    requires
        0 <= n <= entries.len(),
        spec_apply(props, entries.take(n)).failed,
    ensures
        spec_apply(props, entries) == spec_apply(props, entries.take(n)),
    decreases entries.len() - n,
{
    if n < entries.len() {
        assert(entries.take(n + 1).drop_last() =~= entries.take(n));
        lemma_failure_is_final(props, entries, n + 1);
    } else {
        assert(entries.take(n) =~= entries);
    }
}

/// Two property lists with the same properties but for their values.
pub open spec fn same_shape(a: Seq<PropertyView>, b: Seq<PropertyView>) -> bool {
    &&& a.len() == b.len()
    &&& forall|i: int|
        0 <= i < a.len() ==> {
            &&& (#[trigger] a[i]).name == b[i].name
            &&& a[i].unit == b[i].unit
            &&& a[i].kind == b[i].kind
            &&& a[i].read_only == b[i].read_only
        }
}

/// The property set is fixed: applying a reading never adds, removes or
/// renames a property nor changes a unit, a type or a read-only flag, whether
/// it succeeds or fails.
pub proof fn lemma_apply_keeps_shape(props: Seq<PropertyView>, entries: Seq<EntryView>)
    ensures
        same_shape(spec_apply(props, entries).props, props),
    decreases entries.len(),
{
    if entries.len() > 0 {
        lemma_apply_keeps_shape(props, entries.drop_last());
        let before = spec_apply(props, entries.drop_last());
        let name = entries.last().code.spec_name();
        if !before.failed && has_name(before.props, name) {
            let i = choose|i: int|
                0 <= i < before.props.len() && (#[trigger] before.props[i]).name == name;
            lemma_first_named_exists(before.props, name, i);
            let k = index_of(before.props, name);
            let after = with_value(before.props, k, entries.last().value);
            assert forall|j: int| 0 <= j < after.len() implies {
                &&& (#[trigger] after[j]).name == props[j].name
                &&& after[j].unit == props[j].unit
                &&& after[j].kind == props[j].kind
                &&& after[j].read_only == props[j].read_only
            } by {
                assert(before.props[j].name == props[j].name);
            }
        }
    }
}

/// A step of the loop keeps the property set of a running loop, whatever the
/// element is: only cached values change.
pub proof fn lemma_step_keeps_shape(props: Seq<PropertyView>, event: EventView)
    ensures
        spec_step(Some(props), event).state matches Some(after) && same_shape(after, props),
{
    if let Ok(EventView::Reading(entries)) = spec_adapt(event) {
        lemma_apply_keeps_shape(props, entries);
    }
}

/// The first reading defines the property set: where the loop starts, its
/// properties are those of the normalised first reading, and it starts for
/// every first reading that has an entry and whose values can be converted.
pub proof fn lemma_first_step(raw: Seq<EntryView>)
    ensures
        spec_step(None, EventView::Reading(raw)).stop is None <==> (spec_normalize_entries(raw) matches Ok(
            entries,
        ) && entries.len() > 0),
        spec_step(None, EventView::Reading(raw)).stop is None ==> spec_step(
            None,
            EventView::Reading(raw),
        ).state == Some(properties_of(spec_normalize_entries(raw).unwrap())),
        spec_step(None, EventView::Reading(raw)).stop is Some ==> spec_step(
            None,
            EventView::Reading(raw),
        ).state is None,
{
}

/// Where some property has the name, a first one has it.
pub proof fn lemma_first_named_exists(props: Seq<PropertyView>, name: Seq<char>, i: int)
    requires
        0 <= i < props.len(),
        props[i].name == name,
    ensures
        is_first_named(props, name, index_of(props, name)),
    decreases i,
{
    if exists|j: int| 0 <= j < i && (#[trigger] props[j]).name == name {
        let j = choose|j: int| 0 <= j < i && (#[trigger] props[j]).name == name;
        lemma_first_named_exists(props, name, j);
    } else {
        assert(is_first_named(props, name, i));
    }
}

/// A reading with a single known code leaves exactly one notification, which
/// carries the value that the property then holds.
pub proof fn lemma_single_update(props: Seq<PropertyView>, entry: EntryView)
    requires
        has_name(props, entry.code.spec_name()),
    ensures
        ({
            let done = spec_apply(props, seq![entry]);
            let i = index_of(props, entry.code.spec_name());
            &&& !done.failed
            &&& done.notes == seq![NotificationView { name: entry.code.spec_name(), value: entry.value }]
            &&& is_first_named(props, entry.code.spec_name(), i)
            &&& done.props[i].value == entry.value
        }),
{
    let name = entry.code.spec_name();
    let k = choose|k: int| 0 <= k < props.len() && (#[trigger] props[k]).name == name;
    lemma_first_named_exists(props, name, k);
    let entries = seq![entry];
    assert(entries.drop_last() =~= Seq::<EntryView>::empty());
    assert(entries.last() == entry);
    reveal_with_fuel(spec_apply, 3);
    let done = spec_apply(props, entries);
    assert(done.notes =~= seq![NotificationView { name, value: entry.value }]);
}

/// No stale read after a notification: once an update is committed, a lookup
/// by the notified name finds the property that was written, and that
/// property holds the notified value.
pub proof fn lemma_no_stale_read(props: Seq<PropertyView>, code: RegistryCode, value: ValueView)
    requires
        has_name(props, code.spec_name()),
    ensures
        ({
            let start = Progress { props, notes: Seq::empty(), failed: false };
            let done = spec_update(start, code, value);
            let found = index_of(done.props, code.spec_name());
            &&& !done.failed
            &&& done.notes == seq![NotificationView { name: code.spec_name(), value }]
            &&& is_first_named(done.props, code.spec_name(), found)
            &&& found == index_of(props, code.spec_name())
            &&& done.props[found].value == value
        }),
{
    let name = code.spec_name();
    let k = choose|k: int| 0 <= k < props.len() && (#[trigger] props[k]).name == name;
    lemma_first_named_exists(props, name, k);
    let i = index_of(props, name);
    let after = with_value(props, i, value);
    assert forall|j: int| 0 <= j < i implies (#[trigger] after[j]).name != name by {
        assert(props[j].name != name);
    }
    assert(is_first_named(after, name, i));
    lemma_index_of(after, name, i);
    let start = Progress { props, notes: Seq::<NotificationView>::empty(), failed: false };
    assert(spec_update(start, code, value).notes =~= seq![NotificationView { name, value }]);
}

/// One element of the decoder's sequence, or its end.
#[derive(Clone, Debug, PartialEq, Eq)]
pub enum Event {
    Reading(Reading),
    DecodeError,
    End,
}

/// The mathematical content of an `Event`.
pub enum EventView {
    Reading(Seq<EntryView>),
    DecodeError,
    End,
}

impl View for Event {
    type V = EventView;

    open spec fn view(&self) -> EventView {
        match self {
            Event::Reading(r) => EventView::Reading(r@),
            Event::DecodeError => EventView::DecodeError,
            Event::End => EventView::End,
        }
    }
}

/// Why the loop stops.
#[derive(Clone, Copy, Debug, PartialEq, Eq, Structural)]
pub enum Stop {
    /// The sequence ended before a first reading came.
    NoFirstReading,
    /// The sequence ended while the loop was running.
    SourceEnded,
    /// The decoder reported an error in place of a reading.
    Decode,
    /// A value of the reading could not be converted.
    Conversion(ConversionError),
    /// The first reading had no entry.
    EmptyReading,
    /// A later reading named a code that the first reading did not have.
    UnknownProperty,
}

/// What the caller is to do after a step: dispatch the notifications in
/// their order, then stop if a reason is given.
#[derive(Clone, Debug, PartialEq, Eq)]
pub struct Action {
    pub notifications: Vec<Notification>,
    pub stop: Option<Stop>,
}

/// The adapter on one element: a reading is normalised, anything else is
/// passed on as it came.
pub open spec fn spec_adapt(event: EventView) -> Result<EventView, ConversionError> {
    match event {
        EventView::Reading(raw) => match spec_normalize_entries(raw) {
            Ok(entries) => Ok(EventView::Reading(entries)),
            Err(e) => Err(e),
        },
        other => Ok(other),
    }
}

/// The content of an adapted element.
pub open spec fn view_adapted(r: Result<Event, ConversionError>) -> Result<
    EventView,
    ConversionError,
> {
    match r {
        Ok(event) => Ok(event@),
        Err(e) => Err(e),
    }
}

/// Adapts one element of the decoder's sequence: one element in, one out.
pub fn adapt(event: Event) -> (r: Result<Event, ConversionError>)
    ensures
        view_adapted(r) == spec_adapt(event@),
{
    match event {
        Event::Reading(raw) => match normalize_reading(&raw) {
            Ok(reading) => Ok(Event::Reading(reading)),
            Err(e) => Err(e),
        },
        Event::DecodeError => Ok(Event::DecodeError),
        Event::End => Ok(Event::End),
    }
}

/// The outcome of one step, as mathematical values.
pub struct StepView {
    pub state: Option<Seq<PropertyView>>,
    pub notes: Seq<NotificationView>,
    pub stop: Option<Stop>,
}

/// One step of the loop on an adapted element. Before the first reading the
/// state is `None`: a reading with entries defines the entity and the loop
/// runs. While it runs, a reading is applied to the entity. The end of the
/// sequence and a decoder error stop the loop and change nothing.
pub open spec fn spec_step_adapted(state: Option<Seq<PropertyView>>, event: EventView) -> StepView {
    match event {
        EventView::End => StepView {
            state,
            notes: Seq::empty(),
            stop: Some(if state is None { Stop::NoFirstReading } else { Stop::SourceEnded }),
        },
        EventView::DecodeError => StepView { state, notes: Seq::empty(), stop: Some(Stop::Decode) },
        EventView::Reading(entries) => match state {
            None => if entries.len() == 0 {
                StepView { state, notes: Seq::empty(), stop: Some(Stop::EmptyReading) }
            } else {
                StepView { state: Some(properties_of(entries)), notes: Seq::empty(), stop: None }
            },
            Some(props) => {
                let done = spec_apply(props, entries);
                StepView {
                    state: Some(done.props),
                    notes: done.notes,
                    stop: if done.failed { Some(Stop::UnknownProperty) } else { None },
                }
            },
        },
    }
}

/// One step of the loop on an element as the decoder gave it: the element is
/// adapted first, and a value that cannot be converted stops the loop before
/// anything of that reading is applied.
pub open spec fn spec_step(state: Option<Seq<PropertyView>>, event: EventView) -> StepView {
    match spec_adapt(event) {
        Err(e) => StepView { state, notes: Seq::empty(), stop: Some(Stop::Conversion(e)) },
        Ok(adapted) => spec_step_adapted(state, adapted),
    }
}

/// The loop's state: no entity before the first reading, one entity after.
#[derive(Clone, Debug, PartialEq, Eq)]
pub struct SyncLoop {
    entity: Option<Entity>,
}

impl View for SyncLoop {
    type V = Option<Seq<PropertyView>>;

    closed spec fn view(&self) -> Option<Seq<PropertyView>> {
        match self.entity {
            Some(entity) => Some(entity@),
            None => None,
        }
    }
}

impl SyncLoop {
    /// The loop before the first reading.
    pub fn new() -> (r: SyncLoop)
        ensures
            r@ is None,
    {
        SyncLoop { entity: None }
    }

    /// Whether the first reading has defined the entity.
    pub fn is_running(&self) -> (r: bool)
        ensures
            r == (self@ is Some),
    {
        self.entity.is_some()
    }

    /// The entity, once the loop runs.
    pub fn entity(&self) -> (r: Option<&Entity>)
        ensures
            r is Some <==> self@ is Some,
            r matches Some(entity) ==> self@ == Some(entity@),
    {
        self.entity.as_ref()
    }

    /// Takes one element of the decoder's sequence and says what to do.
    pub fn step(&mut self, event: Event) -> (action: Action)
        ensures
            final(self)@ == spec_step(old(self)@, event@).state,
            notes_view(action.notifications@) == spec_step(old(self)@, event@).notes,
            action.stop == spec_step(old(self)@, event@).stop,
    {
        let mut notifications: Vec<Notification> = Vec::new();
        assert(notes_view(notifications@) =~= Seq::<NotificationView>::empty());
        let adapted = match adapt(event) {
            Err(e) => {
                return Action { notifications, stop: Some(Stop::Conversion(e)) };
            },
            Ok(adapted) => adapted,
        };
        match adapted {
            Event::End => {
                let stop = if self.entity.is_some() {
                    Stop::SourceEnded
                } else {
                    Stop::NoFirstReading
                };
                Action { notifications, stop: Some(stop) }
            },
            Event::DecodeError => Action { notifications, stop: Some(Stop::Decode) },
            Event::Reading(reading) => {
                match self.entity.take() {
                    None => match Entity::initialize(&reading) {
                        Err(_) => Action { notifications, stop: Some(Stop::EmptyReading) },
                        Ok(entity) => {
                            self.entity = Some(entity);
                            Action { notifications, stop: None }
                        },
                    },
                    Some(mut entity) => {
                        let applied = apply_reading(&mut entity, &reading);
                        self.entity = Some(entity);
                        let stop = match applied.error {
                            Some(_) => Some(Stop::UnknownProperty),
                            None => None,
                        };
                        Action { notifications: applied.notifications, stop }
                    },
                }
            },
        }
    }
}

} // verus!
