//! The observable entity: one property per code of the reading that defined
//! it, each with the value last written to it.

use vstd::prelude::*;
use crate::code::{lemma_name_injective, RegistryCode};
use crate::reading::{
    codes_ascend, codes_of, copy_unit, has_code, lemma_codes_distinct, unit_view, EntryView, Reading,
};
use crate::value::{kind_of, Value, ValueKind, ValueView};

verus! {

/// One property of the entity.
#[derive(Clone, Debug, PartialEq, Eq)]
pub struct Property {
    pub name: String,
    pub value: Value,
    pub unit: Option<String>,
    pub read_only: bool,
    pub kind: ValueKind,
}

/// The mathematical content of a `Property`.
pub struct PropertyView {
    pub name: Seq<char>,
    pub value: ValueView,
    pub unit: Option<Seq<char>>,
    pub read_only: bool,
    pub kind: ValueKind,
}

impl View for Property {
    type V = PropertyView;

    open spec fn view(&self) -> PropertyView {
        PropertyView {
            name: self.name@,
            value: self.value@,
            unit: unit_view(self.unit),
            read_only: self.read_only,
            kind: self.kind,
        }
    }
}

/// The property that an entry of the defining reading gives rise to: named by
/// the entry's code, holding its value and unit, read-only, and typed by the
/// value's shape.
pub open spec fn property_of(e: EntryView) -> PropertyView {
    PropertyView {
        name: e.code.spec_name(),
        value: e.value,
        unit: e.unit,
        read_only: true,
        kind: kind_of(e.value),
    }
}

/// The properties that a defining reading gives rise to, in its order.
pub open spec fn properties_of(entries: Seq<EntryView>) -> Seq<PropertyView> {
    entries.map_values(|e: EntryView| property_of(e))
}

/// The names of the properties, in their order.
pub open spec fn names_of(props: Seq<PropertyView>) -> Seq<Seq<char>> {
    props.map_values(|p: PropertyView| p.name)
}

/// Whether some property has the name.
pub open spec fn has_name(props: Seq<PropertyView>, name: Seq<char>) -> bool {
    exists|i: int| 0 <= i < props.len() && (#[trigger] props[i]).name == name
}

/// The place of the first property with the name.
pub open spec fn is_first_named(props: Seq<PropertyView>, name: Seq<char>, i: int) -> bool {
    &&& 0 <= i < props.len()
    &&& props[i].name == name
    &&& forall|j: int| 0 <= j < i ==> (#[trigger] props[j]).name != name
}

/// The properties after the value at `index` was replaced: nothing but that
/// one value differs.
pub open spec fn with_value(props: Seq<PropertyView>, index: int, value: ValueView) -> Seq<
    PropertyView,
> {
    props.update(index, PropertyView { value, ..props[index] })
}

/// The entity could not be built.
#[derive(Clone, Copy, Debug, PartialEq, Eq, Structural)]
pub enum InitError {
    EmptyReading,
}

/// No property has the name that was asked for.
#[derive(Clone, Copy, Debug, PartialEq, Eq, Structural)]
pub enum LookupError {
    UnknownProperty,
}

/// The observable entity. Its properties are written only through
/// `set_cached_value`, which keeps their number, names, units and types.
#[derive(Clone, Debug, PartialEq, Eq)]
pub struct Entity {
    properties: Vec<Property>,
}

impl View for Entity {
    type V = Seq<PropertyView>;

    closed spec fn view(&self) -> Seq<PropertyView> {
        self.properties@.map_values(|p: Property| p@)
    }
}

impl Entity {
    /// Every property is read-only.
    pub open spec fn wf(&self) -> bool {
        forall|i: int| 0 <= i < self@.len() ==> (#[trigger] self@[i]).read_only
    }

    /// Builds the entity from the reading that defines it: one property per
    /// entry, in the reading's order. An empty reading defines nothing and is
    /// refused.
    pub fn initialize(first: &Reading) -> (r: Result<Entity, InitError>)
        ensures
            r is Err <==> first@.len() == 0,
            r matches Ok(entity) ==> entity@ == properties_of(first@) && entity.wf(),
    {
        if first.len() == 0 {
            return Err(InitError::EmptyReading);
        }
        let mut properties: Vec<Property> = Vec::new();
        let mut i: usize = 0;
        while i < first.len()
            invariant
                i <= first@.len(),
                properties@.map_values(|p: Property| p@) == properties_of(first@.take(i as int)),
            decreases first@.len() - i,
        {
            let entry = first.entry(i);
            let ghost before = properties@.map_values(|p: Property| p@);
            properties.push(
                Property {
                    name: entry.code.name(),
                    value: entry.value.copy(),
                    unit: copy_unit(&entry.unit),
                    read_only: true,
                    kind: entry.value.kind(),
                },
            );
            i = i + 1;
            assert(properties@.map_values(|p: Property| p@) =~= before.push(property_of(entry@)));
            assert(properties_of(first@.take(i as int)) =~= before.push(property_of(entry@)));
        }
        assert(first@.take(i as int) =~= first@);
        Ok(Entity { properties })
    }

    pub fn len(&self) -> (n: usize)
        ensures
            n == self@.len(),
    {
        self.properties.len()
    }

    /// The property at `index`, for reading.
    pub fn property(&self, index: usize) -> (p: &Property)
        requires
            index < self@.len(),
        ensures
            p@ == self@[index as int],
    {
        &self.properties[index]
    }

    /// Finds the property with the given name.
    pub fn find_property(&self, name: &String) -> (r: Result<usize, LookupError>)
        ensures
            r is Ok <==> has_name(self@, name@),
            r matches Ok(i) ==> is_first_named(self@, name@, i as int),
    {
        let mut i: usize = 0;
        while i < self.properties.len()
            invariant
                i <= self.properties.len(),
                forall|j: int| 0 <= j < i ==> (#[trigger] self@[j]).name != name@,
            decreases self.properties.len() - i,
        {
            if self.properties[i].name == *name {
                assert(self@[i as int].name == name@);
                return Ok(i);
            }
            i = i + 1;
        }
        Err(LookupError::UnknownProperty)
    }

    /// Replaces the cached value of the property at `index` and hands back the
    /// value that it held.
    pub fn set_cached_value(&mut self, index: usize, value: Value) -> (previous: Value)
        requires
            index < old(self)@.len(),
        ensures
            final(self)@ == with_value(old(self)@, index as int, value@),
            previous@ == old(self)@[index as int].value,
            old(self).wf() ==> final(self).wf(),
    {
        let Property { name, value: previous, unit, read_only, kind } = self.properties.remove(
            index,
        );
        self.properties.insert(index, Property { name, value, unit, read_only, kind });
        assert(self@ =~= with_value(old(self)@, index as int, value@));
        previous
    }

    /// A copy of the value that the property at `index` holds.
    pub fn cached_value(&self, index: usize) -> (v: Value)
        requires
            index < self@.len(),
        ensures
            v@ == self@[index as int].value,
    {
        self.properties[index].value.copy()
    }
}

/// The names of a new entity's properties are the names of the codes of the
/// reading that defined it, one for one and in the same order.
pub proof fn lemma_names_are_code_names(first: Seq<EntryView>)
    ensures
        names_of(properties_of(first)) == codes_of(first).map_values(
            |c: RegistryCode| c.spec_name(),
        ),
{
    assert(names_of(properties_of(first)) =~= codes_of(first).map_values(
        |c: RegistryCode| c.spec_name(),
    ));
}

/// Writing a value keeps the set of properties: their number, names, units,
/// read-only flags and types stay as they were.
pub proof fn lemma_write_keeps_properties(props: Seq<PropertyView>, index: int, value: ValueView)
    requires
        0 <= index < props.len(),
    ensures
        names_of(with_value(props, index, value)) == names_of(props),
        with_value(props, index, value).len() == props.len(),
        with_value(props, index, value)[index].value == value,
        forall|i: int|
            0 <= i < props.len() ==> {
                let p = #[trigger] with_value(props, index, value)[i];
                &&& p.unit == props[i].unit
                &&& p.kind == props[i].kind
                &&& p.read_only == props[i].read_only
                &&& i != index ==> p.value == props[i].value
            },
{
    assert(names_of(with_value(props, index, value)) =~= names_of(props));
}

/// A new entity has a property named after a code exactly when the reading
/// that defined it has an entry for that code.
pub proof fn lemma_property_names_are_codes(first: Seq<EntryView>, code: RegistryCode)
    ensures
        has_name(properties_of(first), code.spec_name()) <==> has_code(first, code),
{
    let props = properties_of(first);
    if has_name(props, code.spec_name()) {
        let i = choose|i: int| 0 <= i < props.len() && (#[trigger] props[i]).name == code.spec_name();
        lemma_name_injective(first[i].code, code);
        assert(first[i].code == code);
    }
    if has_code(first, code) {
        let i = choose|i: int| 0 <= i < first.len() && (#[trigger] first[i]).code == code;
        assert(props[i].name == code.spec_name());
    }
}

/// The properties of a new entity have different names, so a name finds one
/// property only.
pub proof fn lemma_property_names_distinct(first: Seq<EntryView>, i: int, j: int)
    requires
        codes_ascend(first),
        0 <= i < first.len(),
        0 <= j < first.len(),
        properties_of(first)[i].name == properties_of(first)[j].name,
    ensures
        i == j,
{
    lemma_name_injective(first[i].code, first[j].code);
    lemma_codes_distinct(first, i, j);
}

} // verus!
