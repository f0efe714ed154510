//! Taking a fixed number of documents per cycle from one source and reading
//! the configured values out of each.
//!
//! A sampler does not wait for documents itself. Its owner receives them from
//! the source's queue for as long as [`Sampler::wants_document`] says so, and
//! passes each to [`Sampler::accept`]. The row that comes back holds one
//! reading per mapping, in the order of the mappings, for the owner to add to
//! its running averages. An average is the sum of the readings over their
//! [`divisor`].
use crate::config::ValueMapping;
use crate::json::number_at;
use serde_json::Value;
use vstd::prelude::*;

verus! {

/// Why a document gave no row.
#[derive(Debug, Clone, Copy, PartialEq, Eq, Structural)]
pub enum SampleError {
    /// The path of the mapping with this index leads to nothing in the
    /// document, or to something that is not a number. The configuration does
    /// not fit the source.
    Extraction { mapping: usize },
    /// The sampler had all the documents of its cycle already. The document
    /// was not looked at.
    NotWanted,
}

/// The reading that each mapping finds in `doc`, as a bit pattern, `None` where
/// it finds no number.
pub open spec fn readings(doc: Value, mappings: Seq<ValueMapping>) -> Seq<Option<u64>> {
    Seq::new(mappings.len(), |i: int| number_at(doc, mappings[i].path@))
}

/// Whether every mapping finds a number in `doc`.
pub open spec fn all_present(doc: Value, mappings: Seq<ValueMapping>) -> bool {
    forall|i: int| 0 <= i < mappings.len() ==> (#[trigger] readings(doc, mappings)[i]) is Some
}

/// What a row, or the lack of one, has to be for a document: a row exactly if
/// every mapping finds a number, holding these numbers in the order of the
/// mappings; otherwise the error that names the first mapping that found none.
pub open spec fn is_row_of(
    r: Result<Vec<u64>, SampleError>,
    doc: Value,
    mappings: Seq<ValueMapping>,
) -> bool {
    match r {
        Ok(row) => {
            &&& row@.len() == mappings.len()
            &&& row@.map_values(|bits: u64| Some(bits)) == readings(doc, mappings)
        },
        Err(error) => {
            &&& error matches SampleError::Extraction { mapping }
            &&& mapping < mappings.len()
            &&& readings(doc, mappings)[mapping as int] is None
            &&& forall|j: int| 0 <= j < mapping ==> (#[trigger] readings(doc, mappings)[j]) is Some
        },
    }
}

/// Reads the value of every mapping out of one document.
///
/// Succeeds exactly if every mapping finds a number; the row then holds these
/// numbers in the order of the mappings. Otherwise the error names the first
/// mapping that found none.
pub fn extract_row(doc: &Value, mappings: &[ValueMapping]) -> (r: Result<Vec<u64>, SampleError>)
    ensures
        r is Ok <==> all_present(*doc, mappings@),
        is_row_of(r, *doc, mappings@),
{
    let ghost found = readings(*doc, mappings@);
    let mut row: Vec<u64> = Vec::new();
    let mut i: usize = 0;
    while i < mappings.len()
        invariant
            i <= mappings.len(),
            found == readings(*doc, mappings@),
            row@.len() == i,
            forall|j: int| 0 <= j < i ==> (#[trigger] found[j]) == Some(row@[j]),
        decreases mappings.len() - i,
    {
        match mappings[i].path.get_f64(doc) {
            Some(bits) => row.push(bits),
            None => {
                assert(found[i as int] is None);
                return Err(SampleError::Extraction { mapping: i });
            },
        }
        i += 1;
    }
    assert(row@.map_values(|bits: u64| Some(bits)) =~= found);
    Ok(row)
}

/// The number by which the sum of the readings of a cycle is divided to give
/// their average: the number of readings, but one if there are none, so that a
/// source without readings has the average zero and still has its point.
pub fn divisor(count: usize) -> (r: usize)
    ensures
        r == if count == 0 {
            1
        } else {
            count as int
        },
{
    if count == 0 {
        1
    } else {
        count
    }
}

/// The state of a sampler as contracts see it.
pub struct SamplerState {
    /// How many documents a cycle takes.
    pub sample_count: nat,
    /// How many documents have been taken in this cycle.
    pub taken: nat,
}

/// Counts the documents of one cycle of one source.
pub struct Sampler {
    sample_count: u64,
    taken: u64,
}

impl View for Sampler {
    type V = SamplerState;

    closed spec fn view(&self) -> SamplerState {
        SamplerState { sample_count: self.sample_count as nat, taken: self.taken as nat }
    }
}

impl Sampler {
    #[verifier::type_invariant]
    spec fn within_count(self) -> bool {
        self.taken <= self.sample_count
    }

    /// A sampler at the start of a cycle that takes `sample_count` documents.
    pub fn new(sample_count: u64) -> (r: Sampler)
        ensures
            r@.sample_count == sample_count,
            r@.taken == 0,
    {
        Sampler { sample_count, taken: 0 }
    }

    /// Whether the cycle still lacks documents. It does so until exactly
    /// `sample_count` documents have given a row.
    pub fn wants_document(&self) -> (r: bool)
        ensures
            r == (self@.taken < self@.sample_count),
            self@.taken <= self@.sample_count,
    {
        proof {
            use_type_invariant(self);
        }
        self.taken < self.sample_count
    }

    /// How many documents the cycle still lacks.
    pub fn remaining(&self) -> (r: u64)
        ensures
            r == self@.sample_count - self@.taken,
    {
        proof {
            use_type_invariant(self);
        }
        self.sample_count - self.taken
    }

    /// Takes one document of the cycle and returns its row.
    ///
    /// A sampler that wants no document leaves it alone and says so. Otherwise
    /// the row is as [`extract_row`] gives it, and the document counts only if
    /// it gave a row: a failed extraction leaves the sampler as it was.
    pub fn accept(&mut self, doc: &Value, mappings: &[ValueMapping]) -> (r: Result<
        Vec<u64>,
        SampleError,
    >)
        ensures
            final(self)@.sample_count == old(self)@.sample_count,
            final(self)@.taken == old(self)@.taken + (if r is Ok {
                1nat
            } else {
                0nat
            }),
            old(self)@.taken >= old(self)@.sample_count ==> r == Err::<Vec<u64>, SampleError>(
                SampleError::NotWanted,
            ),
            old(self)@.taken < old(self)@.sample_count ==> (r is Ok <==> all_present(
                *doc,
                mappings@,
            )) && is_row_of(r, *doc, mappings@),
    {
        proof {
            use_type_invariant(&*self);
        }
        if self.taken >= self.sample_count {
            return Err(SampleError::NotWanted);
        }
        let row = extract_row(doc, mappings);
        if row.is_ok() {
            self.taken = self.taken + 1;
        }
        row
    }
}

} // verus!
