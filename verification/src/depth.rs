//! Depth counting at one position, and the filter that decides which reads count.
use vstd::prelude::*;
use std::path::PathBuf;
use crate::compact::{compact_from_str, compact_text, CompactName};
use crate::pileup::{AlignedRead, Header, PileupColumn};

verus! {

/// Bit `i` of `flags` is set.
pub open spec fn has_bit(flags: u16, i: u16) -> bool {
    (flags >> i) & 1 == 1
}

/// Every bit that is set in `mask` is set in `flags`.
pub open spec fn has_all_bits(flags: u16, mask: u16) -> bool {
    forall|i: u16| i < 16 && has_bit(mask, i) ==> has_bit(flags, i)
}

/// No bit that is set in `mask` is set in `flags`.
pub open spec fn has_no_bit(flags: u16, mask: u16) -> bool {
    forall|i: u16| i < 16 && has_bit(mask, i) ==> !has_bit(flags, i)
}

/// The bits of `mask` that `flags` lacks are none exactly when `flags` has every bit of `mask`.
pub proof fn lemma_has_all_bits(flags: u16, mask: u16)
    ensures
        ((!flags) & mask == 0) <==> has_all_bits(flags, mask),
{
    if (!flags) & mask == 0 {
        assert forall|i: u16| i < 16 && has_bit(mask, i) implies has_bit(flags, i) by {
            assert(((!flags) & mask == 0 && i < 16 && (mask >> i) & 1 == 1) ==> (flags >> i) & 1
                == 1) by (bit_vector);
        }
    }
    if has_all_bits(flags, mask) {
        assert(has_bit(mask, 0u16) ==> has_bit(flags, 0u16));
        assert(has_bit(mask, 1u16) ==> has_bit(flags, 1u16));
        assert(has_bit(mask, 2u16) ==> has_bit(flags, 2u16));
        assert(has_bit(mask, 3u16) ==> has_bit(flags, 3u16));
        assert(has_bit(mask, 4u16) ==> has_bit(flags, 4u16));
        assert(has_bit(mask, 5u16) ==> has_bit(flags, 5u16));
        assert(has_bit(mask, 6u16) ==> has_bit(flags, 6u16));
        assert(has_bit(mask, 7u16) ==> has_bit(flags, 7u16));
        assert(has_bit(mask, 8u16) ==> has_bit(flags, 8u16));
        assert(has_bit(mask, 9u16) ==> has_bit(flags, 9u16));
        assert(has_bit(mask, 10u16) ==> has_bit(flags, 10u16));
        assert(has_bit(mask, 11u16) ==> has_bit(flags, 11u16));
        assert(has_bit(mask, 12u16) ==> has_bit(flags, 12u16));
        assert(has_bit(mask, 13u16) ==> has_bit(flags, 13u16));
        assert(has_bit(mask, 14u16) ==> has_bit(flags, 14u16));
        assert(has_bit(mask, 15u16) ==> has_bit(flags, 15u16));
        assert({
            &&& ((mask >> 0u16) & 1 == 1 ==> (flags >> 0u16) & 1 == 1)
            &&& ((mask >> 1u16) & 1 == 1 ==> (flags >> 1u16) & 1 == 1)
            &&& ((mask >> 2u16) & 1 == 1 ==> (flags >> 2u16) & 1 == 1)
            &&& ((mask >> 3u16) & 1 == 1 ==> (flags >> 3u16) & 1 == 1)
            &&& ((mask >> 4u16) & 1 == 1 ==> (flags >> 4u16) & 1 == 1)
            &&& ((mask >> 5u16) & 1 == 1 ==> (flags >> 5u16) & 1 == 1)
            &&& ((mask >> 6u16) & 1 == 1 ==> (flags >> 6u16) & 1 == 1)
            &&& ((mask >> 7u16) & 1 == 1 ==> (flags >> 7u16) & 1 == 1)
            &&& ((mask >> 8u16) & 1 == 1 ==> (flags >> 8u16) & 1 == 1)
            &&& ((mask >> 9u16) & 1 == 1 ==> (flags >> 9u16) & 1 == 1)
            &&& ((mask >> 10u16) & 1 == 1 ==> (flags >> 10u16) & 1 == 1)
            &&& ((mask >> 11u16) & 1 == 1 ==> (flags >> 11u16) & 1 == 1)
            &&& ((mask >> 12u16) & 1 == 1 ==> (flags >> 12u16) & 1 == 1)
            &&& ((mask >> 13u16) & 1 == 1 ==> (flags >> 13u16) & 1 == 1)
            &&& ((mask >> 14u16) & 1 == 1 ==> (flags >> 14u16) & 1 == 1)
            &&& ((mask >> 15u16) & 1 == 1 ==> (flags >> 15u16) & 1 == 1)
        } ==> (!flags) & mask == 0) by (bit_vector);
    }
}

/// `flags` and `mask` share no bit exactly when `flags` has no bit of `mask`.
pub proof fn lemma_has_no_bit(flags: u16, mask: u16)
    ensures
        (flags & mask == 0) <==> has_no_bit(flags, mask),
{
    let inverse = !flags;
    assert((!inverse) & mask == flags & mask) by (bit_vector)
        requires
            inverse == !flags,
    ;
    assert forall|i: u16| i < 16 implies has_bit(inverse, i) == !has_bit(flags, i) by {
        assert(i < 16 && inverse == !flags ==> (((inverse >> i) & 1 == 1) <==> !((flags >> i) & 1
            == 1))) by (bit_vector);
    }
    lemma_has_all_bits(inverse, mask);
}

/// Anything that can tell which reads of a column count.
pub trait ReadFilter {
    /// The reads that the filter lets through.
    spec fn keeps(&self, read: &AlignedRead) -> bool;

    /// Filters a read: true where it passes, false where it fails.
    fn filter_read(&self, read: &AlignedRead) -> (pass: bool)
        ensures
            pass == self.keeps(read),
    ;
}

/// A filter on the SAM flags and the mapping quality of a read.
#[derive(Debug, Clone, Copy)]
pub struct DefaultReadFilter {
    include_flags: u16,
    exclude_flags: u16,
    min_mapq: u8,
}

impl DefaultReadFilter {
    /// The flags that a read must have, all of them.
    pub closed spec fn include_flags(&self) -> u16 {
        self.include_flags
    }

    /// The flags of which a read may have none.
    pub closed spec fn exclude_flags(&self) -> u16 {
        self.exclude_flags
    }

    /// The least mapping quality that a read must have.
    pub closed spec fn min_mapq(&self) -> u8 {
        self.min_mapq
    }

    /// A read with these flags and this mapping quality passes: it has every
    /// included flag, no excluded flag, and its mapping quality reaches the floor.
    pub open spec fn accepts(&self, flags: u16, mapq: u8) -> bool {
        &&& has_all_bits(flags, self.include_flags())
        &&& has_no_bit(flags, self.exclude_flags())
        &&& mapq >= self.min_mapq()
    }

    /// Creates a filter from the flags to include, the flags to exclude and
    /// the least mapping quality.
    pub fn new(include_flags: u16, exclude_flags: u16, min_mapq: u8) -> (filter: Self)
        ensures
            filter.include_flags() == include_flags,
            filter.exclude_flags() == exclude_flags,
            filter.min_mapq() == min_mapq,
    {
        Self { include_flags, exclude_flags, min_mapq }
    }

    /// Tells whether a read with these flags and this mapping quality passes.
    pub fn passes(&self, flags: u16, mapq: u8) -> (pass: bool)
        ensures
            pass == self.accepts(flags, mapq),
    {
        proof {
            lemma_has_all_bits(flags, self.include_flags);
            lemma_has_no_bit(flags, self.exclude_flags);
        }
        (!flags) & self.include_flags == 0 && flags & self.exclude_flags == 0 && mapq
            >= self.min_mapq
    }
}

impl ReadFilter for DefaultReadFilter {
    open spec fn keeps(&self, read: &AlignedRead) -> bool {
        self.accepts(read.flags, read.mapq)
    }

    /// Filters a read by its SAM flags and its mapping quality.
    fn filter_read(&self, read: &AlignedRead) -> (pass: bool) {
        self.passes(read.flags, read.mapq)
    }
}

/// A filter that includes no flag, excludes no flag and asks for no mapping
/// quality lets every read through.
pub proof fn lemma_open_filter_passes_all(filter: DefaultReadFilter, flags: u16, mapq: u8)
    requires
        filter.include_flags() == 0,
        filter.exclude_flags() == 0,
        filter.min_mapq() == 0,
    ensures
        filter.accepts(flags, mapq),
{
    lemma_no_bit_in_zero();
}

/// No bit is set in zero.
pub proof fn lemma_no_bit_in_zero()
    ensures
        forall|i: u16| i < 16 ==> !has_bit(0u16, i),
{
    assert forall|i: u16| i < 16 implies !has_bit(0u16, i) by {
        assert(i < 16 ==> !((0u16 >> i) & 1 == 1)) by (bit_vector);
    }
}

/// A read fails the filter exactly when it lacks an included flag, has an
/// excluded flag, or its mapping quality is under the floor.
pub proof fn lemma_filter_fails_iff(filter: DefaultReadFilter, flags: u16, mapq: u8)
    ensures
        !filter.accepts(flags, mapq) <==> {
            ||| exists|i: u16| i < 16 && has_bit(filter.include_flags(), i) && !has_bit(flags, i)
            ||| exists|i: u16| i < 16 && has_bit(filter.exclude_flags(), i) && has_bit(flags, i)
            ||| mapq < filter.min_mapq()
        },
{
}

/// What one read says at the position.
#[derive(Debug, Clone, Copy, PartialEq, Eq, Structural)]
pub enum ReadCall {
    /// The read fails the filter.
    Filtered,
    /// The read passes, and is deleted or skipped here.
    Gap,
    /// The read passes and shows the reference base.
    Reference,
    /// The read passes and shows the alternate base (and not the reference base).
    Alternate,
    /// The read passes and shows another base.
    Other,
}

/// The call of a read, given whether the filter keeps it.
pub open spec fn call_of(read: AlignedRead, kept: bool, ref_base: u8, alt_base: u8) -> ReadCall {
    if !kept {
        ReadCall::Filtered
    } else if read.is_gap() {
        ReadCall::Gap
    } else if read.base == Some(ref_base) {
        ReadCall::Reference
    } else if read.base == Some(alt_base) {
        ReadCall::Alternate
    } else {
        ReadCall::Other
    }
}

/// The reads whose call under `filter` is `call`.
pub open spec fn calling<F: ReadFilter>(
    filter: F,
    ref_base: u8,
    alt_base: u8,
    call: ReadCall,
) -> spec_fn(AlignedRead) -> bool {
    |read: AlignedRead| call_of(read, filter.keeps(&read), ref_base, alt_base) == call
}

/// The reads that pass `filter`, show a base, and have an insertion after it.
pub open spec fn inserting<F: ReadFilter>(filter: F) -> spec_fn(AlignedRead) -> bool {
    |read: AlignedRead| filter.keeps(&read) && !read.is_gap() && read.insertion
}

/// The number of `reads` whose call is `call`.
pub open spec fn count_calls<F: ReadFilter>(
    reads: Seq<AlignedRead>,
    filter: F,
    ref_base: u8,
    alt_base: u8,
    call: ReadCall,
) -> nat {
    reads.filter(calling(filter, ref_base, alt_base, call)).len()
}

/// The number of `reads` that show a base with an insertion after it.
pub open spec fn count_insertions<F: ReadFilter>(reads: Seq<AlignedRead>, filter: F) -> nat {
    reads.filter(inserting(filter)).len()
}

/// The tags of the reads that show the alternate base, in the order of the reads.
pub open spec fn supporting_tags<F: ReadFilter>(
    reads: Seq<AlignedRead>,
    filter: F,
    ref_base: u8,
    alt_base: u8,
) -> Seq<Seq<char>> {
    reads.filter(calling(filter, ref_base, alt_base, ReadCall::Alternate)).map_values(
        |read: AlignedRead| read.tag(),
    )
}

/// The tags joined into one text, each followed by a comma.
pub open spec fn joined_tags(tags: Seq<Seq<char>>) -> Seq<char> {
    tags.flat_map(|tag: Seq<char>| tag.push(','))
}

/// The code of the tumor sample, the letter `T`.
pub const TUMOR: u8 = 84;

/// The code of the normal sample, the letter `N`.
pub const NORMAL: u8 = 78;

/// The label of a sample type code: `T` for 84, `N` for 78, `U` for any other.
pub open spec fn tntype_label(tntype: u8) -> Seq<char> {
    if tntype == TUMOR {
        seq!['T']
    } else if tntype == NORMAL {
        seq!['N']
    } else {
        seq!['U']
    }
}

/// The depth counts of one sample at one position.
#[derive(Debug, Clone)]
pub struct PilePosition {
    /// Name of the reference sequence.
    pub chrom: String,
    /// The position, counted from 1.
    pub pos: usize,
    /// The reads that count: those that pass the filter and show a base.
    pub all_depth: usize,
    /// The reads that show the alternate base.
    pub alt_depth: usize,
    /// The reads that show the reference base.
    pub ref_depth: usize,
    /// The reads that show another base.
    pub other_depth: usize,
    /// The reads that fail the filter, are deleted or skipped here, or have
    /// an insertion after this position.
    pub indel_n_lowq: usize,
    /// `T` for the tumor sample, `N` for the normal sample.
    pub tntype: String,
    /// The tags of the reads that show the alternate base, each followed by a comma.
    pub barcode: String,
}

/// A position that can be made from a sequence name and a coordinate.
pub trait Position: Default {
    /// The name of the reference sequence of the position.
    spec fn ref_seq(&self) -> Seq<char>;

    /// The coordinate of the position.
    spec fn coordinate(&self) -> nat;

    /// Every value of the position but its name and its coordinate is zero or empty.
    spec fn is_blank(&self) -> bool;

    /// Creates a position with all other values zeroed.
    fn new(ref_seq: String, pos: u32) -> (position: Self)
        ensures
            position.ref_seq() == ref_seq@,
            position.coordinate() == pos,
            position.is_blank(),
    ;
}

impl Default for PilePosition {
    fn default() -> (position: Self)
        ensures
            position.chrom@.len() == 0,
            position.pos == 0,
            position.is_blank(),
    {
        PilePosition {
            chrom: String::new(),
            pos: 0,
            all_depth: 0,
            alt_depth: 0,
            ref_depth: 0,
            other_depth: 0,
            indel_n_lowq: 0,
            tntype: String::new(),
            barcode: String::new(),
        }
    }
}

impl Position for PilePosition {
    open spec fn ref_seq(&self) -> Seq<char> {
        self.chrom@
    }

    open spec fn coordinate(&self) -> nat {
        self.pos as nat
    }

    open spec fn is_blank(&self) -> bool {
        &&& self.all_depth == 0
        &&& self.alt_depth == 0
        &&& self.ref_depth == 0
        &&& self.other_depth == 0
        &&& self.indel_n_lowq == 0
        &&& self.tntype@.len() == 0
        &&& self.barcode@.len() == 0
    }

    fn new(ref_seq: String, pos: u32) -> (position: Self) {
        let mut position = PilePosition::default();
        position.chrom = ref_seq;
        position.pos = pos as usize;
        position
    }
}

/// A read that counts shows a base: one that passes `filter` and is no gap.
/// Of a read that fails the filter, or is a gap, no base is asked.
pub open spec fn shows_base<F: ReadFilter>(read: AlignedRead, filter: F) -> bool {
    filter.keeps(&read) && !read.is_gap() ==> read.base is Some
}

/// Every read of the column that counts under `filter` shows a base.
pub open spec fn shows_bases<F: ReadFilter>(pileup: PileupColumn, filter: F) -> bool {
    forall|i: int|
        0 <= i < pileup.alignments@.len() ==> shows_base(#[trigger] pileup.alignments@[i], filter)
}

/// Tells whether every read of the column that counts under `filter` shows a base.
pub fn has_bases<F: ReadFilter>(pileup: &PileupColumn, filter: &F) -> (ok: bool)
    ensures
        ok == shows_bases(*pileup, *filter),
{
    let mut i: usize = 0;
    while i < pileup.alignments.len()
        invariant
            i <= pileup.alignments@.len(),
            forall|j: int| 0 <= j < i ==> shows_base(#[trigger] pileup.alignments@[j], *filter),
        decreases pileup.alignments@.len() - i,
    {
        let read = &pileup.alignments[i];
        if read.base.is_none() && !read.gap() && filter.filter_read(read) {
            assert(!shows_base(pileup.alignments@[i as int], *filter));
            return false;
        }
        i += 1;
    }
    true
}

/// One more read adds one to the count of its own call and nothing to the others.
pub proof fn lemma_count_calls_push<F: ReadFilter>(
    reads: Seq<AlignedRead>,
    read: AlignedRead,
    filter: F,
    ref_base: u8,
    alt_base: u8,
    call: ReadCall,
)
    ensures
        count_calls(reads.push(read), filter, ref_base, alt_base, call) == count_calls(
            reads,
            filter,
            ref_base,
            alt_base,
            call,
        ) + if call_of(read, filter.keeps(&read), ref_base, alt_base) == call {
            1int
        } else {
            0int
        },
{
    reads.lemma_filter_len_push(calling(filter, ref_base, alt_base, call), read);
}

/// One more read adds one to the count of insertions exactly when it passes,
/// shows a base and has an insertion after it.
pub proof fn lemma_count_insertions_push<F: ReadFilter>(
    reads: Seq<AlignedRead>,
    read: AlignedRead,
    filter: F,
)
    ensures
        count_insertions(reads.push(read), filter) == count_insertions(reads, filter) + if filter.keeps(
            &read,
        ) && !read.is_gap() && read.insertion {
            1int
        } else {
            0int
        },
{
    reads.lemma_filter_len_push(inserting(filter), read);
}

/// One more read adds its tag and a comma to the joined tags exactly when
/// it shows the alternate base.
pub proof fn lemma_joined_tags_push<F: ReadFilter>(
    reads: Seq<AlignedRead>,
    read: AlignedRead,
    filter: F,
    ref_base: u8,
    alt_base: u8,
)
    ensures
        joined_tags(supporting_tags(reads.push(read), filter, ref_base, alt_base)) == joined_tags(
            supporting_tags(reads, filter, ref_base, alt_base),
        ) + if call_of(read, filter.keeps(&read), ref_base, alt_base) is Alternate {
            read.tag().push(',')
        } else {
            Seq::<char>::empty()
        },
{
    let alternate = calling(filter, ref_base, alt_base, ReadCall::Alternate);
    let tag_of = |read: AlignedRead| read.tag();
    let with_comma = |tag: Seq<char>| tag.push(',');
    let before = supporting_tags(reads, filter, ref_base, alt_base);
    reads.lemma_filter_push(read, alternate);
    if alternate(read) {
        reads.filter(alternate).lemma_push_map_commute(tag_of, read);
        assert(supporting_tags(reads.push(read), filter, ref_base, alt_base) =~= before.push(
            read.tag(),
        ));
        before.lemma_flat_map_push(with_comma, read.tag());
    } else {
        assert(joined_tags(before) + Seq::<char>::empty() =~= joined_tags(before));
    }
}

impl PilePosition {
    /// The four counters leave room for one more read.
    pub open spec fn has_room(&self) -> bool {
        &&& self.alt_depth < usize::MAX
        &&& self.ref_depth < usize::MAX
        &&& self.other_depth < usize::MAX
        &&& self.indel_n_lowq < usize::MAX
    }

    /// The record holds the counts of `reads` under `filter`, for the
    /// reference base `ref_base` and the alternate base `alt_base`.
    ///
    /// A read that fails the filter, or that is a gap, is taken off the depth
    /// and counted as left out. A read with an insertion after its base is
    /// counted as left out too, and stays in the depth.
    pub open spec fn counts<F: ReadFilter>(
        &self,
        reads: Seq<AlignedRead>,
        filter: F,
        ref_base: u8,
        alt_base: u8,
    ) -> bool {
        &&& self.all_depth == reads.len() - count_calls(
            reads,
            filter,
            ref_base,
            alt_base,
            ReadCall::Filtered,
        ) - count_calls(reads, filter, ref_base, alt_base, ReadCall::Gap)
        &&& self.ref_depth == count_calls(reads, filter, ref_base, alt_base, ReadCall::Reference)
        &&& self.alt_depth == count_calls(reads, filter, ref_base, alt_base, ReadCall::Alternate)
        &&& self.other_depth == count_calls(reads, filter, ref_base, alt_base, ReadCall::Other)
        &&& self.indel_n_lowq == count_calls(reads, filter, ref_base, alt_base, ReadCall::Filtered)
            + count_calls(reads, filter, ref_base, alt_base, ReadCall::Gap) + count_insertions(
            reads,
            filter,
        )
        &&& self.barcode@ == joined_tags(supporting_tags(reads, filter, ref_base, alt_base))
    }

    /// The record is that of `pileup`: it names the column's reference
    /// sequence and its position counted from 1, carries the label of
    /// `tntype`, and holds the counts of the column's reads.
    pub open spec fn describes<F: ReadFilter>(
        &self,
        pileup: PileupColumn,
        header: Header,
        filter: F,
        ref_base: u8,
        alt_base: u8,
        tntype: u8,
    ) -> bool {
        &&& self.chrom@ == header.target_name(pileup.tid)
        &&& self.pos == pileup.pos + 1
        &&& self.tntype@ == tntype_label(tntype)
        &&& self.counts(pileup.alignments@, filter, ref_base, alt_base)
    }

    /// The variant allele fraction as an exact fraction: the alternate depth
    /// over the depth. There is none where the depth is zero.
    pub open spec fn spec_vaf(&self) -> Option<(usize, usize)> {
        if self.all_depth > 0 {
            Some((self.alt_depth, self.all_depth))
        } else {
            None
        }
    }

    /// The variant allele fraction, as numerator and denominator; `None`
    /// where the depth is zero and the fraction is not a number.
    pub fn vaf(&self) -> (fraction: Option<(usize, usize)>)
        ensures
            fraction == self.spec_vaf(),
    {
        if self.all_depth > 0 {
            Some((self.alt_depth, self.all_depth))
        } else {
            None
        }
    }

    /// Given a read, updates the counts at this position.
    pub fn update<F: ReadFilter>(
        &mut self,
        read: &AlignedRead,
        read_filter: &F,
        ref_base: u8,
        alt_base: u8,
    )
        requires
            shows_base(*read, *read_filter),
            old(self).has_room(),
            !read_filter.keeps(read) || read.is_gap() ==> old(self).all_depth > 0,
        ensures
            final(self).chrom == old(self).chrom,
            final(self).pos == old(self).pos,
            final(self).tntype == old(self).tntype,
            match call_of(*read, read_filter.keeps(read), ref_base, alt_base) {
                ReadCall::Filtered | ReadCall::Gap => {
                    &&& final(self).all_depth == old(self).all_depth - 1
                    &&& final(self).indel_n_lowq == old(self).indel_n_lowq + 1
                    &&& final(self).ref_depth == old(self).ref_depth
                    &&& final(self).alt_depth == old(self).alt_depth
                    &&& final(self).other_depth == old(self).other_depth
                    &&& final(self).barcode@ == old(self).barcode@
                },
                call => {
                    &&& final(self).all_depth == old(self).all_depth
                    &&& final(self).indel_n_lowq == old(self).indel_n_lowq + if read.insertion {
                        1int
                    } else {
                        0int
                    }
                    &&& final(self).ref_depth == old(self).ref_depth + if call is Reference {
                        1int
                    } else {
                        0int
                    }
                    &&& final(self).alt_depth == old(self).alt_depth + if call is Alternate {
                        1int
                    } else {
                        0int
                    }
                    &&& final(self).other_depth == old(self).other_depth + if call is Other {
                        1int
                    } else {
                        0int
                    }
                    &&& final(self).barcode@ == old(self).barcode@ + if call is Alternate {
                        read.tag().push(',')
                    } else {
                        Seq::<char>::empty()
                    }
                },
            },
    {
        let barcode = read.tag_text();
        if !read_filter.filter_read(read) {
            self.all_depth -= 1;
            self.indel_n_lowq += 1;
            return ;
        }
        // A reference skip is a deletion too, a plain deletion is no skip.
        if read.gap() {
            self.indel_n_lowq += 1;
            self.all_depth -= 1;
        } else {
            let curr_base = read.base.unwrap();
            if curr_base == ref_base {
                self.ref_depth += 1;
            } else if curr_base == alt_base {
                self.alt_depth += 1;
                self.barcode.append(barcode.as_str());
                proof {
                    reveal_strlit(",");
                }
                self.barcode.append(",");
                assert(self.barcode@ =~= old(self).barcode@ + read.tag().push(','));
            } else {
                self.other_depth += 1;
            }
            // An insertion after the base is counted, and the read stays in the depth.
            if read.insertion {
                self.indel_n_lowq += 1;
            }
        }
    }
    /// Counts the reads of one pileup column.
    ///
    /// The depth starts at the number of reads in the column; the position
    /// of the record is counted from 1.
    pub fn from_pileup<F: ReadFilter>(
        pileup: &PileupColumn,
        header: &Header,
        read_filter: &F,
        ref_base: u8,
        alt_base: u8,
        tntype: u8,
    ) -> (position: Self)
        requires
            header.has_target(pileup.tid),
            pileup.pos < u32::MAX,
            shows_bases(*pileup, *read_filter),
        ensures
            position.describes(*pileup, *header, *read_filter, ref_base, alt_base, tntype),
    {
        let name = Self::compact_refseq(header, pileup.tid);
        // the record's position is 1-based
        let mut pos = Self::new(name.text(), pileup.pos + 1);
        pos.all_depth = pileup.depth();
        proof {
            reveal_strlit("T");
            reveal_strlit("N");
            reveal_strlit("U");
        }
        pos.tntype = if tntype == TUMOR {
            String::from_str("T")
        } else if tntype == NORMAL {
            String::from_str("N")
        } else {
            String::from_str("U")
        };
        assert(pos.tntype@ =~= tntype_label(tntype));

        let ghost reads = pileup.alignments@;
        let n = pileup.alignments.len();
        proof {
            assert(reads.take(0) =~= Seq::<AlignedRead>::empty());
            lemma_calls_partition(reads.take(0), *read_filter, ref_base, alt_base);
            reads.take(0).lemma_filter_len(inserting(*read_filter));
            assert(pos.barcode@ =~= joined_tags(
                supporting_tags(reads.take(0), *read_filter, ref_base, alt_base),
            ));
        }
        let mut i: usize = 0;
        while i < n
            invariant
                i <= n,
                n == reads.len(),
                reads == pileup.alignments@,
                shows_bases(*pileup, *read_filter),
                pos.chrom@ == header.target_name(pileup.tid),
                pos.pos == pileup.pos + 1,
                pos.tntype@ == tntype_label(tntype),
                pos.all_depth == (n - i) + pos.ref_depth + pos.alt_depth + pos.other_depth,
                pos.indel_n_lowq <= i,
                // without the reads still to come, the record is that of the reads seen
                (PilePosition { all_depth: (pos.all_depth - (n - i)) as usize, ..pos }).counts(
                    reads.take(i as int),
                    *read_filter,
                    ref_base,
                    alt_base,
                ),
            decreases n - i,
        {
            let read = &pileup.alignments[i];
            proof {
                let seen = reads.take(i as int);
                reads.lemma_take_succ_push(i as int);
                assert(reads.take(i + 1) == seen.push(*read));
                assert(shows_base(*read, *read_filter));
                lemma_count_calls_push(seen, *read, *read_filter, ref_base, alt_base, ReadCall::Filtered);
                lemma_count_calls_push(seen, *read, *read_filter, ref_base, alt_base, ReadCall::Gap);
                lemma_count_calls_push(seen, *read, *read_filter, ref_base, alt_base, ReadCall::Reference);
                lemma_count_calls_push(seen, *read, *read_filter, ref_base, alt_base, ReadCall::Alternate);
                lemma_count_calls_push(seen, *read, *read_filter, ref_base, alt_base, ReadCall::Other);
                lemma_count_insertions_push(seen, *read, *read_filter);
                lemma_joined_tags_push(seen, *read, *read_filter, ref_base, alt_base);
            }
            pos.update(read, read_filter, ref_base, alt_base);
            i += 1;
        }
        assert(reads.take(n as int) =~= reads);
        pos
    }

    /// The name of reference sequence `tid`, as a compact string.
    pub fn compact_refseq(header: &Header, tid: u32) -> (name: CompactName)
        requires
            header.has_target(tid),
        ensures
            compact_text(name) == header.target_name(tid),
    {
        compact_from_str(header.names[tid as usize].as_str())
    }
}

/// Every read has exactly one call: the five counts add up to the number of reads.
pub proof fn lemma_calls_partition<F: ReadFilter>(
    reads: Seq<AlignedRead>,
    filter: F,
    ref_base: u8,
    alt_base: u8,
)
    ensures
        count_calls(reads, filter, ref_base, alt_base, ReadCall::Filtered) + count_calls(
            reads,
            filter,
            ref_base,
            alt_base,
            ReadCall::Gap,
        ) + count_calls(reads, filter, ref_base, alt_base, ReadCall::Reference) + count_calls(
            reads,
            filter,
            ref_base,
            alt_base,
            ReadCall::Alternate,
        ) + count_calls(reads, filter, ref_base, alt_base, ReadCall::Other) == reads.len(),
    decreases reads.len(),
{
    if reads.len() == 0 {
        reads.lemma_filter_len(calling(filter, ref_base, alt_base, ReadCall::Filtered));
        reads.lemma_filter_len(calling(filter, ref_base, alt_base, ReadCall::Gap));
        reads.lemma_filter_len(calling(filter, ref_base, alt_base, ReadCall::Reference));
        reads.lemma_filter_len(calling(filter, ref_base, alt_base, ReadCall::Alternate));
        reads.lemma_filter_len(calling(filter, ref_base, alt_base, ReadCall::Other));
    } else {
        let front = reads.drop_last();
        let read = reads.last();
        assert(reads =~= front.push(read));
        lemma_calls_partition(front, filter, ref_base, alt_base);
        lemma_count_calls_push(front, read, filter, ref_base, alt_base, ReadCall::Filtered);
        lemma_count_calls_push(front, read, filter, ref_base, alt_base, ReadCall::Gap);
        lemma_count_calls_push(front, read, filter, ref_base, alt_base, ReadCall::Reference);
        lemma_count_calls_push(front, read, filter, ref_base, alt_base, ReadCall::Alternate);
        lemma_count_calls_push(front, read, filter, ref_base, alt_base, ReadCall::Other);
    }
}

/// The depth of a record is the number of its base calls, and the reads of
/// the column are conserved: each is a base call or is counted as left out.
/// Only a read with an insertion after its base is counted twice.
pub proof fn lemma_depth_conservation<F: ReadFilter>(
    position: PilePosition,
    reads: Seq<AlignedRead>,
    filter: F,
    ref_base: u8,
    alt_base: u8,
)
    requires
        position.counts(reads, filter, ref_base, alt_base),
    ensures
        position.all_depth == position.ref_depth + position.alt_depth + position.other_depth,
        reads.len() + count_insertions(reads, filter) == position.ref_depth + position.alt_depth
            + position.other_depth + position.indel_n_lowq,
        count_insertions(reads, filter) == 0 ==> reads.len() == position.ref_depth
            + position.alt_depth + position.other_depth + position.indel_n_lowq,
{
    lemma_calls_partition(reads, filter, ref_base, alt_base);
}

/// The depth equals the sum of the four counts exactly when no read is left
/// out: none fails the filter, none is a gap, none has an insertion after
/// its base.
pub proof fn lemma_depth_is_sum_of_counts<F: ReadFilter>(
    position: PilePosition,
    reads: Seq<AlignedRead>,
    filter: F,
    ref_base: u8,
    alt_base: u8,
)
    requires
        position.counts(reads, filter, ref_base, alt_base),
    ensures
        (position.all_depth == position.ref_depth + position.alt_depth + position.other_depth
            + position.indel_n_lowq) <==> (count_calls(
            reads,
            filter,
            ref_base,
            alt_base,
            ReadCall::Filtered,
        ) == 0 && count_calls(reads, filter, ref_base, alt_base, ReadCall::Gap) == 0
            && count_insertions(reads, filter) == 0),
{
    lemma_calls_partition(reads, filter, ref_base, alt_base);
}

/// The fraction of a record is the alternate depth over the depth, it is
/// at most one, and there is one exactly when the depth is not zero.
pub proof fn lemma_vaf_is_fraction_of_depth<F: ReadFilter>(
    position: PilePosition,
    reads: Seq<AlignedRead>,
    filter: F,
    ref_base: u8,
    alt_base: u8,
)
    requires
        position.counts(reads, filter, ref_base, alt_base),
    ensures
        position.spec_vaf() is Some <==> position.all_depth > 0,
        position.spec_vaf() matches Some(fraction) ==> fraction.0 == position.alt_depth
            && fraction.1 == position.all_depth && fraction.0 <= fraction.1,
{
    lemma_calls_partition(reads, filter, ref_base, alt_base);
}

/// `std::path::PathBuf`, carried through as the path of an alignment file.
#[verifier::external_type_specification]
#[verifier::external_body]
pub struct ExPathBuf(PathBuf);

/// Why the depth at a position could not be computed.
#[derive(Debug, Clone, Copy, PartialEq, Eq, Structural)]
pub enum DepthError {
    /// The sample type code is neither 84 (tumor) nor 78 (normal).
    InvalidTntype,
    /// The column names a reference sequence that the header does not hold.
    UnknownSequence,
    /// A read of the column passes the filter, is no gap and yet shows no base.
    MissingBase,
}

/// Column `k` is the first of `pileups` that lies at the 1-based position `pos`.
pub open spec fn first_column_at(pileups: Seq<PileupColumn>, pos: u32, k: int) -> bool {
    &&& 0 <= k < pileups.len()
    &&& pileups[k].pos + 1 == pos
    &&& forall|j: int| 0 <= j < k ==> (#[trigger] pileups[j]).pos + 1 != pos
}

/// Some column of `pileups` lies at the 1-based position `pos`.
pub open spec fn covers(pileups: Seq<PileupColumn>, pos: u32) -> bool {
    exists|k: int| 0 <= k < pileups.len() && (#[trigger] pileups[k]).pos + 1 == pos
}

/// Computes the depth of the tumor and the normal sample at variant positions.
pub struct DepthProcessor<F: ReadFilter + Send> {
    /// Path to the indexed alignment file of the tumor sample.
    pub tumor_reads: PathBuf,
    /// Path to the indexed alignment file of the normal sample.
    pub normal_reads: PathBuf,
    /// The filter that decides which reads count.
    pub read_filter: F,
}

impl<F: ReadFilter + Send> DepthProcessor<F> {
    /// Creates a processor for the two alignment files and a filter.
    pub fn new(tumor_reads: PathBuf, normal_reads: PathBuf, read_filter: F) -> (processor: Self)
        ensures
            processor.tumor_reads == tumor_reads,
            processor.normal_reads == normal_reads,
            processor.read_filter == read_filter,
    {
        Self { tumor_reads, normal_reads, read_filter }
    }

    /// The alignment file to read for a sample type code: the tumor file for
    /// 84, the normal file for 78, and no file for any other code.
    pub fn reads_path(&self, tntype: u8) -> (path: Result<&PathBuf, DepthError>)
        ensures
            tntype == TUMOR ==> path == Ok::<&PathBuf, DepthError>(&self.tumor_reads),
            tntype == NORMAL ==> path == Ok::<&PathBuf, DepthError>(&self.normal_reads),
            tntype != TUMOR && tntype != NORMAL ==> path == Err::<&PathBuf, DepthError>(
                DepthError::InvalidTntype,
            ),
    {
        if tntype == TUMOR {
            Ok(&self.tumor_reads)
        } else if tntype == NORMAL {
            Ok(&self.normal_reads)
        } else {
            Err(DepthError::InvalidTntype)
        }
    }

    /// The range to fetch for the 1-based position `pos`: 0-based, half open,
    /// one coordinate wide. Position 0 names no coordinate.
    pub fn fetch_range(pos: u32) -> (range: Option<(u32, u32)>)
        ensures
            pos == 0 ==> range is None,
            pos > 0 ==> range == Some(((pos - 1) as u32, pos)),
    {
        if pos == 0 {
            None
        } else {
            Some((pos - 1, pos))
        }
    }

    /// Adds to `res` the record of the first of `pileups` that lies at the
    /// 1-based position `pos`.
    ///
    /// Where no column lies there, `res` stays as it was. Where the header
    /// does not hold the column's sequence, or a read that passes the filter
    /// and is no gap shows no base, nothing is added and the error says why.
    pub fn process_region(
        &self,
        pos: u32,
        header: &Header,
        pileups: &Vec<PileupColumn>,
        ref_base: u8,
        alt_base: u8,
        tntype: u8,
        res: &mut Vec<PilePosition>,
    ) -> (done: Result<(), DepthError>)
        ensures
            !covers(pileups@, pos) ==> done is Ok && final(res)@ == old(res)@,
            forall|k: int| #[trigger]
                first_column_at(pileups@, pos, k) ==> {
                    let column = pileups@[k];
                    if !header.has_target(column.tid) {
                        done == Err::<(), DepthError>(DepthError::UnknownSequence) && final(res)@
                            == old(res)@
                    } else if !shows_bases(column, self.read_filter) {
                        done == Err::<(), DepthError>(DepthError::MissingBase) && final(res)@
                            == old(res)@
                    } else {
                        &&& done is Ok
                        &&& final(res)@.len() == old(res)@.len() + 1
                        &&& final(res)@.drop_last() == old(res)@
                        &&& final(res)@.last().describes(
                            column,
                            *header,
                            self.read_filter,
                            ref_base,
                            alt_base,
                            tntype,
                        )
                    }
                },
    {
        let mut i: usize = 0;
        while i < pileups.len()
            invariant
                i <= pileups@.len(),
                forall|j: int| 0 <= j < i ==> (#[trigger] pileups@[j]).pos + 1 != pos,
                *res == *old(res),
            decreases pileups@.len() - i,
        {
            let pileup = &pileups[i];
            if pileup.pos < u32::MAX && pileup.pos + 1 == pos {
                assert(first_column_at(pileups@, pos, i as int));
                assert(forall|k: int| first_column_at(pileups@, pos, k) ==> k == i);
                if pileup.tid as usize >= header.target_count() {
                    return Err(DepthError::UnknownSequence);
                }
                if !has_bases(pileup, &self.read_filter) {
                    return Err(DepthError::MissingBase);
                }
                let position = PilePosition::from_pileup(
                    pileup,
                    header,
                    &self.read_filter,
                    ref_base,
                    alt_base,
                    tntype,
                );
                res.push(position);
                assert(res@.drop_last() =~= old(res)@);
                return Ok(());
            }
            i += 1;
        }
        Ok(())
    }

    /// `output` is what the processor gives for the 1-based position `pos`
    /// and the columns `pileups`.
    ///
    /// A sample type code other than 84 and 78 is an error. Where no column
    /// lies at `pos` there is no record. Otherwise the first column at `pos`
    /// decides: it gives one record, or an error where the header does not
    /// hold its sequence or a read that counts shows no base.
    pub open spec fn yields(
        &self,
        output: Result<Vec<PilePosition>, DepthError>,
        pos: u32,
        header: Header,
        pileups: Seq<PileupColumn>,
        ref_base: u8,
        alt_base: u8,
        tntype: u8,
    ) -> bool {
        if tntype != TUMOR && tntype != NORMAL {
            output == Err::<Vec<PilePosition>, DepthError>(DepthError::InvalidTntype)
        } else {
            &&& !covers(pileups, pos) ==> (output matches Ok(records) && records@.len() == 0)
            &&& forall|k: int| #[trigger]
                first_column_at(pileups, pos, k) ==> {
                    let column = pileups[k];
                    if !header.has_target(column.tid) {
                        output == Err::<Vec<PilePosition>, DepthError>(DepthError::UnknownSequence)
                    } else if !shows_bases(column, self.read_filter) {
                        output == Err::<Vec<PilePosition>, DepthError>(DepthError::MissingBase)
                    } else {
                        &&& output matches Ok(records)
                        &&& records@.len() == 1
                        &&& records@[0].describes(
                            column,
                            header,
                            self.read_filter,
                            ref_base,
                            alt_base,
                            tntype,
                        )
                    }
                }
        }
    }

    /// Computes the record of one sample at the 1-based position `pos` from
    /// the columns that were fetched for it: one record where a column lies
    /// at `pos`, none where the position is not covered.
    pub fn process(
        &self,
        pos: u32,
        header: &Header,
        pileups: &Vec<PileupColumn>,
        ref_base: u8,
        alt_base: u8,
        tntype: u8,
    ) -> (output: Result<Vec<PilePosition>, DepthError>)
        ensures
            self.yields(output, pos, *header, pileups@, ref_base, alt_base, tntype),
            output matches Ok(records) ==> records@.len() <= 1,
    {
        if tntype != TUMOR && tntype != NORMAL {
            return Err(DepthError::InvalidTntype);
        }
        let mut output: Vec<PilePosition> = Vec::new();
        proof {
            lemma_covered_has_first(pileups@, pos);
        }
        match self.process_region(pos, header, pileups, ref_base, alt_base, tntype, &mut output) {
            Ok(()) => Ok(output),
            Err(e) => Err(e),
        }
    }
}

/// A position that some column lies at has a first such column.
pub proof fn lemma_covered_has_first(pileups: Seq<PileupColumn>, pos: u32)
    ensures
        covers(pileups, pos) <==> exists|k: int| first_column_at(pileups, pos, k),
    decreases pileups.len(),
{
    if covers(pileups, pos) {
        let k = choose|k: int| 0 <= k < pileups.len() && (#[trigger] pileups[k]).pos + 1 == pos;
        let front = pileups.take(k);
        if covers(front, pos) {
            lemma_covered_has_first(front, pos);
            let f = choose|f: int| first_column_at(front, pos, f);
            assert(pileups[f] == front[f]);
            assert forall|j: int| 0 <= j < f implies (#[trigger] pileups[j]).pos + 1 != pos by {
                assert(pileups[j] == front[j]);
            }
            assert(first_column_at(pileups, pos, f));
        } else {
            assert forall|j: int| 0 <= j < k implies (#[trigger] pileups[j]).pos + 1 != pos by {
                assert(front[j] == pileups[j]);
            }
            assert(first_column_at(pileups, pos, k));
        }
    }
}

} // verus!
