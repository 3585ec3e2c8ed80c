//! What a pileup provider hands over: the reads that overlap one reference
//! coordinate, each reduced to the values that depth counting looks at.
use vstd::prelude::*;

verus! {

/// The tag that stands for a read without a cell barcode.
pub open spec fn missing_tag() -> Seq<char> {
    seq!['N', 'A']
}

/// One read of a pileup column, seen at the column's coordinate.
#[derive(Debug, Clone)]
pub struct AlignedRead {
    /// SAM flags of the read.
    pub flags: u16,
    /// Mapping quality of the read.
    pub mapq: u8,
    /// The read has a deletion at this coordinate.
    pub is_del: bool,
    /// The read skips this coordinate (a reference skip counts as a deletion too).
    pub is_refskip: bool,
    /// The base that the read shows at this coordinate, if it shows one.
    pub base: Option<u8>,
    /// An insertion follows this coordinate in the read.
    pub insertion: bool,
    /// The cell barcode tag of the read, if it carries one.
    pub barcode: Option<String>,
}

impl AlignedRead {
    /// The read shows no base here: it is deleted or skipped at this coordinate.
    pub open spec fn is_gap(&self) -> bool {
        self.is_refskip || self.is_del
    }

    /// The barcode of the read, or `NA` where it has none.
    pub open spec fn tag(&self) -> Seq<char> {
        match self.barcode {
            Some(b) => b@,
            None => missing_tag(),
        }
    }

    /// Tells whether the read is deleted or skipped at this coordinate.
    pub fn gap(&self) -> (g: bool)
        ensures
            g == self.is_gap(),
    {
        self.is_refskip || self.is_del
    }

    /// The barcode of the read as text, `NA` where it has none.
    pub fn tag_text(&self) -> (text: String)
        ensures
            text@ == self.tag(),
    {
        match &self.barcode {
            Some(b) => b.clone(),
            None => {
                proof {
                    reveal_strlit("NA");
                }
                let text = String::from_str("NA");
                assert(text@ =~= missing_tag());
                text
            },
        }
    }
}

/// The reads that overlap one coordinate of one reference sequence.
#[derive(Debug, Clone)]
pub struct PileupColumn {
    /// Index of the reference sequence in the header.
    pub tid: u32,
    /// The coordinate, counted from 0.
    pub pos: u32,
    /// The reads of the column, in the provider's order.
    pub alignments: Vec<AlignedRead>,
}

impl PileupColumn {
    /// The number of reads that overlap the coordinate.
    pub fn depth(&self) -> (n: usize)
        ensures
            n == self.alignments@.len(),
    {
        self.alignments.len()
    }
}

/// The reference sequence names of an alignment file, by sequence index.
#[derive(Debug, Clone)]
pub struct Header {
    /// The name of each reference sequence.
    pub names: Vec<String>,
}

impl Header {
    /// The number of reference sequences.
    pub fn target_count(&self) -> (n: usize)
        ensures
            n == self.names@.len(),
    {
        self.names.len()
    }

    /// Tells whether `tid` is the index of a reference sequence.
    pub open spec fn has_target(&self, tid: u32) -> bool {
        (tid as int) < self.names@.len()
    }

    /// The name of reference sequence `tid`.
    pub open spec fn target_name(&self, tid: u32) -> Seq<char>
        recommends
            self.has_target(tid),
    {
        self.names@[tid as int]@
    }
}

} // verus!
