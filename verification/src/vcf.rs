//! Variants: the positions at which depth is counted.
use vstd::prelude::*;

verus! {

/// A variant: where it lies, and its reference and alternate bases.
#[derive(Debug, Clone)]
pub struct Variant {
    /// Name of the reference sequence.
    pub chrom: String,
    /// The position, counted from 1.
    pub pos: usize,
    /// The reference base: the first of the record's reference bases.
    pub ref_base: String,
    /// The alternate base: the first base of the record's first alternate allele.
    pub alt_base: String,
}

/// One record of a variant file, as its reader hands it over.
#[derive(Debug, Clone)]
pub struct VcfRecord {
    /// Name of the reference sequence.
    pub chrom: String,
    /// Where the variant starts, counted from 1; `None` where the record
    /// gives no position that can be read.
    pub start: Option<usize>,
    /// The reference bases.
    pub reference_bases: String,
    /// The alternate alleles, in the record's order.
    pub alternate_bases: Vec<String>,
}

/// Why a record gives no variant.
#[derive(Debug, Clone, Copy, PartialEq, Eq, Structural)]
pub enum VariantParseError {
    /// Record `record` (counted from 0) has no position, or position 0.
    UnsetPosition { record: usize },
    /// Record `record` (counted from 0) has no reference base.
    MissingReference { record: usize },
    /// Record `record` (counted from 0) has no alternate allele, or an empty first one.
    MissingAlternate { record: usize },
}

/// The first character of a text, as a text of its own.
pub open spec fn first_char(text: Seq<char>) -> Seq<char>
    recommends
        text.len() > 0,
{
    seq![text[0]]
}

/// The first character of `text` as a text of its own, if `text` has one.
fn leading_char(text: &String) -> (first: Option<String>)
    ensures
        text@.len() == 0 ==> first is None,
        text@.len() > 0 ==> (first matches Some(c) && c@ == first_char(text@)),
{
    let whole = text.as_str();
    if whole.is_empty() {
        None
    } else {
        let first = whole.substring_char(0, 1).to_owned();
        assert(first@ =~= first_char(text@));
        Some(first)
    }
}

impl VcfRecord {
    /// The record has a position of 1 or more.
    pub open spec fn has_position(&self) -> bool {
        self.start matches Some(start) && start >= 1
    }

    /// The record has a reference base.
    pub open spec fn has_reference(&self) -> bool {
        self.reference_bases@.len() > 0
    }

    /// The record has a first alternate allele, and that allele has a base.
    pub open spec fn has_alternate(&self) -> bool {
        self.alternate_bases@.len() > 0 && self.alternate_bases@[0]@.len() > 0
    }

    /// The record gives a variant: it has a position, a reference base and
    /// an alternate base.
    pub open spec fn resolvable(&self) -> bool {
        self.has_position() && self.has_reference() && self.has_alternate()
    }

    /// What is wrong with the record, where it is record `index` of its file.
    pub open spec fn fault(&self, index: usize) -> VariantParseError
        recommends
            !self.resolvable(),
    {
        if !self.has_position() {
            VariantParseError::UnsetPosition { record: index }
        } else if !self.has_reference() {
            VariantParseError::MissingReference { record: index }
        } else {
            VariantParseError::MissingAlternate { record: index }
        }
    }

    /// `variant` is the variant of this record: its name, its position, the
    /// first of its reference bases and the first base of its first
    /// alternate allele. Further bases and further alleles are left out.
    pub open spec fn gives(&self, variant: Variant) -> bool {
        &&& self.resolvable()
        &&& variant.chrom@ == self.chrom@
        &&& Some(variant.pos) == self.start
        &&& variant.ref_base@ == first_char(self.reference_bases@)
        &&& variant.alt_base@ == first_char(self.alternate_bases@[0]@)
    }

    /// Turns the record into a variant, or says what it lacks.
    pub fn to_variant(&self, index: usize) -> (variant: Result<Variant, VariantParseError>)
        ensures
            match variant {
                Ok(v) => self.gives(v),
                Err(e) => !self.resolvable() && e == self.fault(index),
            },
    {
        let pos = match self.start {
            Some(start) => start,
            None => {
                return Err(VariantParseError::UnsetPosition { record: index });
            },
        };
        if pos == 0 {
            return Err(VariantParseError::UnsetPosition { record: index });
        }
        let ref_base = match leading_char(&self.reference_bases) {
            Some(base) => base,
            None => {
                return Err(VariantParseError::MissingReference { record: index });
            },
        };
        if self.alternate_bases.len() == 0 {
            return Err(VariantParseError::MissingAlternate { record: index });
        }
        let alt_base = match leading_char(&self.alternate_bases[0]) {
            Some(base) => base,
            None => {
                return Err(VariantParseError::MissingAlternate { record: index });
            },
        };
        Ok(Variant { chrom: self.chrom.clone(), pos, ref_base, alt_base })
    }
}

/// Record `k` is the first of `records` that gives no variant.
pub open spec fn first_fault(records: Seq<VcfRecord>, k: int) -> bool {
    &&& 0 <= k < records.len()
    &&& !records[k].resolvable()
    &&& forall|j: int| 0 <= j < k ==> (#[trigger] records[j]).resolvable()
}

/// The variants of the records of a variant file, in the file's order.
///
/// The variants are loaded as a whole: the first record that gives none
/// fails the load.
pub fn get_variant(records: &Vec<VcfRecord>) -> (variants: Result<Vec<Variant>, VariantParseError>)
    ensures
        match variants {
            Ok(vs) => {
                &&& vs@.len() == records@.len()
                &&& forall|i: int| 0 <= i < records@.len() ==> (#[trigger] records@[i]).gives(vs@[i])
            },
            Err(e) => exists|k: int| #[trigger]
                first_fault(records@, k) && e == records@[k].fault(k as usize),
        },
{
    let mut variants: Vec<Variant> = Vec::new();
    let mut i: usize = 0;
    while i < records.len()
        invariant
            i <= records@.len(),
            variants@.len() == i,
            forall|j: int| 0 <= j < i ==> (#[trigger] records@[j]).gives(variants@[j]),
        decreases records@.len() - i,
    {
        match records[i].to_variant(i) {
            Ok(variant) => {
                variants.push(variant);
            },
            Err(e) => {
                assert(first_fault(records@, i as int));
                return Err(e);
            },
        }
        i += 1;
    }
    Ok(variants)
}

} // verus!
