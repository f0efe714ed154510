//! The record that one source contributes to the batch of a cycle.
use crate::config::{Tag, ValueMapping};
use vstd::prelude::*;

verus! {

/// One averaged value of a point. `bits` is the bit pattern of a 64-bit
/// float.
#[derive(Debug)]
pub struct Field {
    pub name: String,
    pub bits: u64,
}

/// A point as contracts see it.
pub struct PointView {
    /// The measurement name.
    pub measurement: Seq<char>,
    /// Name and value of each tag, in the order of the configuration.
    pub tags: Seq<(Seq<char>, Seq<char>)>,
    /// Name and value of each field, in the order of the mappings.
    pub fields: Seq<(Seq<char>, u64)>,
}

/// The tags of a source as pairs.
pub open spec fn tag_pairs(tags: Seq<Tag>) -> Seq<(Seq<char>, Seq<char>)> {
    tags.map_values(|tag: Tag| (tag.name@, tag.value@))
}

/// The fields of a point as pairs.
pub open spec fn field_pairs(fields: Seq<Field>) -> Seq<(Seq<char>, u64)> {
    fields.map_values(|field: Field| (field.name@, field.bits))
}

/// The point for a source: its measurement name, all its tags, and one field
/// per mapping, named by the mapping and holding the average at the same
/// position.
pub open spec fn point_of(
    measurement: Seq<char>,
    tags: Seq<Tag>,
    mappings: Seq<ValueMapping>,
    averages: Seq<u64>,
) -> PointView {
    PointView {
        measurement,
        tags: tag_pairs(tags),
        fields: Seq::new(mappings.len(), |i: int| (mappings[i].name@, averages[i])),
    }
}

/// A point ready to be written. Once built it does not change. It carries no
/// time of its own: the store takes the time at which it is written.
#[derive(Debug)]
pub struct Point {
    measurement: String,
    tags: Vec<Tag>,
    fields: Vec<Field>,
}

impl View for Point {
    type V = PointView;

    closed spec fn view(&self) -> PointView {
        PointView {
            measurement: self.measurement@,
            tags: tag_pairs(self.tags@),
            fields: field_pairs(self.fields@),
        }
    }
}

impl Point {
    /// The measurement name.
    pub fn measurement(&self) -> (r: &str)
        ensures
            r@ == self@.measurement,
    {
        self.measurement.as_str()
    }

    /// The tags, in the order of the configuration.
    pub fn tags(&self) -> (r: &[Tag])
        ensures
            tag_pairs(r@) == self@.tags,
    {
        self.tags.as_slice()
    }

    /// The fields, in the order of the mappings.
    pub fn fields(&self) -> (r: &[Field])
        ensures
            field_pairs(r@) == self@.fields,
    {
        self.fields.as_slice()
    }
}

/// Builds the point of a source from the averages of a cycle.
///
/// There has to be one average per mapping; with any other number there is no
/// point, so that a point never holds a part of its fields only.
pub fn build_point(
    measurement: &str,
    tags: &[Tag],
    mappings: &[ValueMapping],
    averages: &[u64],
) -> (r: Option<Point>)
    ensures
        r is Some <==> averages@.len() == mappings@.len(),
        r matches Some(point) ==> point@ == point_of(measurement@, tags@, mappings@, averages@),
{
    if averages.len() != mappings.len() {
        return None;
    }
    let mut own_tags: Vec<Tag> = Vec::new();
    let mut t: usize = 0;
    while t < tags.len()
        invariant
            t <= tags.len(),
            own_tags@ == tags@.take(t as int),
        decreases tags.len() - t,
    {
        own_tags.push(tags[t].clone());
        assert(tags@.take(t as int).push(tags@[t as int]) =~= tags@.take(t + 1));
        t += 1;
    }
    assert(tags@.take(t as int) =~= tags@);
    let mut fields: Vec<Field> = Vec::new();
    let mut i: usize = 0;
    while i < mappings.len()
        invariant
            i <= mappings.len(),
            averages@.len() == mappings@.len(),
            fields@.len() == i,
            forall|j: int|
                0 <= j < i ==> (#[trigger] fields@[j]).name@ == mappings@[j].name@ && fields@[j].bits
                    == averages@[j],
        decreases mappings.len() - i,
    {
        fields.push(Field { name: mappings[i].name.clone(), bits: averages[i] });
        i += 1;
    }
    let point = Point { measurement: measurement.to_owned(), tags: own_tags, fields };
    assert(point@.fields =~= point_of(measurement@, tags@, mappings@, averages@).fields);
    Some(point)
}

/// The fields as a store keeps them that holds one value per name: a later
/// field replaces an earlier one of the same name.
pub open spec fn fields_by_name(fields: Seq<(Seq<char>, u64)>) -> Map<Seq<char>, u64>
    decreases fields.len(),
{
    if fields.len() == 0 {
        Map::empty()
    } else {
        fields_by_name(fields.drop_last()).insert(fields.last().0, fields.last().1)
    }
}

/// Whether one of the mappings has this name.
pub open spec fn is_mapped(mappings: Seq<ValueMapping>, name: Seq<char>) -> bool {
    exists|i: int| 0 <= i < mappings.len() && (#[trigger] mappings[i]).name@ == name
}

proof fn lemma_fields_by_name_domain(fields: Seq<(Seq<char>, u64)>, name: Seq<char>)
    ensures
        fields_by_name(fields).dom().contains(name) <==> exists|i: int|
            0 <= i < fields.len() && (#[trigger] fields[i]).0 == name,
    decreases fields.len(),
{
    if fields.len() > 0 {
        let front = fields.drop_last();
        lemma_fields_by_name_domain(front, name);
        if fields_by_name(fields).dom().contains(name) {
            if fields.last().0 == name {
                assert(fields[fields.len() - 1].0 == name);
            } else {
                let i = choose|i: int| 0 <= i < front.len() && (#[trigger] front[i]).0 == name;
                assert(fields[i].0 == name);
            }
        }
        if exists|i: int| 0 <= i < fields.len() && (#[trigger] fields[i]).0 == name {
            let i = choose|i: int| 0 <= i < fields.len() && (#[trigger] fields[i]).0 == name;
            if i < front.len() {
                assert(front[i].0 == name);
            }
        }
    }
}

/// The names under which a point has a field are exactly the names of the
/// mappings of its source: none is missing and none is added.
pub proof fn lemma_field_names_are_mapping_names(
    measurement: Seq<char>,
    tags: Seq<Tag>,
    mappings: Seq<ValueMapping>,
    averages: Seq<u64>,
    name: Seq<char>,
)
    ensures
        fields_by_name(point_of(measurement, tags, mappings, averages).fields).dom().contains(name)
            <==> is_mapped(mappings, name),
{
    let fields = point_of(measurement, tags, mappings, averages).fields;
    lemma_fields_by_name_domain(fields, name);
    if is_mapped(mappings, name) {
        let i = choose|i: int| 0 <= i < mappings.len() && (#[trigger] mappings[i]).name@ == name;
        assert(fields[i].0 == name);
    }
    if exists|i: int| 0 <= i < fields.len() && (#[trigger] fields[i]).0 == name {
        let i = choose|i: int| 0 <= i < fields.len() && (#[trigger] fields[i]).0 == name;
        assert(mappings[i].name@ == name);
    }
}

} // verus!
