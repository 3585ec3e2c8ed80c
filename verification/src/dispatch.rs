//! The work of one run: a task for each variant and each sample, the
//! record of each task, and the records of all tasks merged.
use vstd::prelude::*;
use vstd::arithmetic::div_mod::{lemma_fundamental_div_mod, lemma_fundamental_div_mod_converse};
use vstd::utf8::encode_utf8;
use itertools::Itertools;
use crate::depth::{DepthError, DepthProcessor, PilePosition, ReadFilter, NORMAL, TUMOR};
use crate::depth::covers;
use crate::pileup::{Header, PileupColumn};
use crate::vcf::Variant;

verus! {

/// Which of the two samples a task reads.
#[derive(Debug, Clone, Copy, PartialEq, Eq, Structural)]
pub enum SampleType {
    /// The tumor sample.
    Tumor,
    /// The matched normal sample.
    Normal,
}

impl SampleType {
    /// The code of the sample type: 84 for the tumor, 78 for the normal sample.
    pub open spec fn spec_code(&self) -> u8 {
        match self {
            SampleType::Tumor => TUMOR,
            SampleType::Normal => NORMAL,
        }
    }

    /// The code of the sample type: 84 for the tumor, 78 for the normal sample.
    pub fn code(&self) -> (code: u8)
        ensures
            code == self.spec_code(),
    {
        match self {
            SampleType::Tumor => TUMOR,
            SampleType::Normal => NORMAL,
        }
    }

    /// The sample type of a code, if it is the code of one.
    pub fn from_code(code: u8) -> (sample: Option<SampleType>)
        ensures
            code == TUMOR ==> sample == Some(SampleType::Tumor),
            code == NORMAL ==> sample == Some(SampleType::Normal),
            code != TUMOR && code != NORMAL ==> sample is None,
    {
        if code == TUMOR {
            Some(SampleType::Tumor)
        } else if code == NORMAL {
            Some(SampleType::Normal)
        } else {
            None
        }
    }
}

/// The two samples of a run, in the order in which their tasks are made:
/// normal, then tumor.
pub fn sample_types() -> (samples: Vec<SampleType>)
    ensures
        samples@ == seq![SampleType::Normal, SampleType::Tumor],
{
    let mut samples: Vec<SampleType> = Vec::new();
    samples.push(SampleType::Normal);
    samples.push(SampleType::Tumor);
    samples
}

/// `Itertools::cartesian_product` of the variants with the samples, collected:
/// every pair of a variant and a sample, the pairs of one variant together
/// and in the order of the samples, the variants in their own order.
#[verifier::external_body]
fn cartesian_pairs<'a>(variants: &'a Vec<Variant>, samples: &'a Vec<SampleType>) -> (pairs: Vec<
    (&'a Variant, &'a SampleType),
>)
    requires
        variants@.len() * samples@.len() <= usize::MAX,
    ensures
        pairs@.len() == variants@.len() * samples@.len(),
        forall|k: int|
            0 <= k < pairs@.len() ==> (#[trigger] pairs@[k]) == (
                &variants@[k / samples@.len() as int],
                &samples@[k % samples@.len() as int],
            ),
{
    variants.iter().cartesian_product(samples.iter()).collect()
}

/// One unit of work: one variant in one sample.
#[derive(Debug, Clone, Copy)]
pub struct Task<'a> {
    /// The variant whose position is looked at.
    pub variant: &'a Variant,
    /// The sample that is read.
    pub sample: SampleType,
}

/// The variant and the sample of place `k` among the tasks, by their
/// indices, where there are `width` samples: the tasks of one variant stand
/// together, in the order of the samples.
pub open spec fn place_of(k: int, width: int) -> (int, int) {
    (k / width, k % width)
}

/// The variant and the sample of the task at place `k`.
pub open spec fn task_at(variants: Seq<Variant>, samples: Seq<SampleType>, k: int) -> (
    Variant,
    SampleType,
) {
    let (i, j) = place_of(k, samples.len() as int);
    (variants[i], samples[j])
}

/// The tasks of a run: one for each variant and each sample.
///
/// There is no task list where the number of tasks would not fit the
/// machine's word.
pub fn build_tasks<'a>(variants: &'a Vec<Variant>, samples: &'a Vec<SampleType>) -> (tasks: Option<
    Vec<Task<'a>>,
>)
    ensures
        tasks is Some <==> variants@.len() * samples@.len() <= usize::MAX,
        tasks matches Some(list) ==> {
            &&& list@.len() == variants@.len() * samples@.len()
            &&& forall|k: int|
                0 <= k < list@.len() ==> (*(#[trigger] list@[k]).variant, list@[k].sample)
                    == task_at(variants@, samples@, k)
        },
{
    if variants.len().checked_mul(samples.len()).is_none() {
        return None;
    }
    let pairs = cartesian_pairs(variants, samples);
    let mut tasks: Vec<Task<'a>> = Vec::new();
    let mut k: usize = 0;
    while k < pairs.len()
        invariant
            k <= pairs@.len(),
            tasks@.len() == k,
            pairs@.len() == variants@.len() * samples@.len(),
            forall|j: int|
                0 <= j < pairs@.len() ==> (#[trigger] pairs@[j]) == (
                    &variants@[j / samples@.len() as int],
                    &samples@[j % samples@.len() as int],
                ),
            forall|j: int|
                0 <= j < k ==> (*(#[trigger] tasks@[j]).variant, tasks@[j].sample) == task_at(
                    variants@,
                    samples@,
                    j,
                ),
        decreases pairs@.len() - k,
    {
        let pair = &pairs[k];
        tasks.push(Task { variant: pair.0, sample: *pair.1 });
        k += 1;
    }
    Some(tasks)
}

/// Why a task gives no record.
#[derive(Debug, Clone, Copy, PartialEq, Eq, Structural)]
pub enum TaskError {
    /// The variant's position is 0 or beyond what an alignment file can address.
    MalformedRegion,
    /// The variant has no reference base.
    MissingReferenceBase,
    /// The variant has no alternate base.
    MissingAlternateBase,
    /// The columns could not be fetched from the alignment file.
    Fetch,
    /// The depth could not be computed from the columns.
    Depth(DepthError),
}

/// What to fetch and what to count for one variant.
#[derive(Debug, Clone)]
pub struct Region {
    /// Name of the reference sequence.
    pub chrom: String,
    /// The position, counted from 1.
    pub pos: u32,
    /// The first byte of the reference base.
    pub ref_base: u8,
    /// The first byte of the alternate base.
    pub alt_base: u8,
}

/// The first byte of a text in UTF-8, if it has one.
pub open spec fn first_byte(text: Seq<char>) -> Option<u8> {
    let bytes = encode_utf8(text);
    if bytes.len() > 0 {
        Some(bytes[0])
    } else {
        None
    }
}

/// What keeps a variant from being a task, if anything does.
pub open spec fn region_fault(variant: Variant) -> Option<TaskError> {
    if variant.pos == 0 || variant.pos > u32::MAX {
        Some(TaskError::MalformedRegion)
    } else if first_byte(variant.ref_base@) is None {
        Some(TaskError::MissingReferenceBase)
    } else if first_byte(variant.alt_base@) is None {
        Some(TaskError::MissingAlternateBase)
    } else {
        None
    }
}

/// `region` is the region of `variant`: its name and position, and the
/// first byte of its reference bases and of its alternate allele.
pub open spec fn is_region_of(region: Region, variant: Variant) -> bool {
    &&& region.chrom@ == variant.chrom@
    &&& region.pos == variant.pos
    &&& Some(region.ref_base) == first_byte(variant.ref_base@)
    &&& Some(region.alt_base) == first_byte(variant.alt_base@)
}

fn leading_byte(text: &String) -> (byte: Option<u8>)
    ensures
        byte == first_byte(text@),
{
    let bytes = text.as_str().as_bytes();
    if bytes.len() > 0 {
        Some(bytes[0])
    } else {
        None
    }
}

/// The region of a variant, or what keeps the variant from being a task.
pub fn region_of(variant: &Variant) -> (region: Result<Region, TaskError>)
    ensures
        match region {
            Ok(r) => region_fault(*variant) is None && is_region_of(r, *variant),
            Err(e) => region_fault(*variant) == Some(e),
        },
{
    if variant.pos == 0 || variant.pos > u32::MAX as usize {
        return Err(TaskError::MalformedRegion);
    }
    let ref_base = match leading_byte(&variant.ref_base) {
        Some(byte) => byte,
        None => {
            return Err(TaskError::MissingReferenceBase);
        },
    };
    let alt_base = match leading_byte(&variant.alt_base) {
        Some(byte) => byte,
        None => {
            return Err(TaskError::MissingAlternateBase);
        },
    };
    Ok(Region { chrom: variant.chrom.clone(), pos: variant.pos as u32, ref_base, alt_base })
}

/// What was fetched for one task: the header of the sample's alignment
/// file, and the columns of the variant's fetch range.
#[derive(Debug, Clone)]
pub struct Fetched {
    /// The reference sequence names of the alignment file.
    pub header: Header,
    /// The columns of the fetch range, in the provider's order.
    pub pileups: Vec<PileupColumn>,
}

/// `outcome` is the outcome of the task of `variant` in the sample with
/// code `tntype`, given what was fetched for it.
///
/// A variant that is no task fails with its fault, and a sample type code
/// other than 84 and 78 is refused, before anything fetched is looked at.
/// A fetch that failed fails the task with the error of the fetch.
/// Otherwise the outcome is that of the depth processor at the variant's
/// position, for the first byte of its reference and alternate bases.
pub open spec fn is_outcome_of<F: ReadFilter + Send>(
    outcome: Result<Vec<PilePosition>, TaskError>,
    variant: Variant,
    tntype: u8,
    fetched: Result<Fetched, TaskError>,
    processor: DepthProcessor<F>,
) -> bool {
    if let Some(e) = region_fault(variant) {
        outcome == Err::<Vec<PilePosition>, TaskError>(e)
    } else if tntype != TUMOR && tntype != NORMAL {
        outcome == Err::<Vec<PilePosition>, TaskError>(
            TaskError::Depth(DepthError::InvalidTntype),
        )
    } else {
        match fetched {
            Err(e) => outcome == Err::<Vec<PilePosition>, TaskError>(e),
            Ok(found) => match outcome {
                Ok(records) => processor.yields(
                    Ok(records),
                    variant.pos as u32,
                    found.header,
                    found.pileups@,
                    first_byte(variant.ref_base@).unwrap(),
                    first_byte(variant.alt_base@).unwrap(),
                    tntype,
                ),
                Err(TaskError::Depth(e)) => processor.yields(
                    Err(e),
                    variant.pos as u32,
                    found.header,
                    found.pileups@,
                    first_byte(variant.ref_base@).unwrap(),
                    first_byte(variant.alt_base@).unwrap(),
                    tntype,
                ),
                Err(_) => false,
            },
        }
    }
}

/// The records of one task, computed from what was fetched for the
/// variant's position in the sample's alignment file: at most one record.
pub fn get_pile_res<F: ReadFilter + Send>(
    variant: &Variant,
    depth_processer: &DepthProcessor<F>,
    tntype: u8,
    fetched: &Result<Fetched, TaskError>,
) -> (res: Result<Vec<PilePosition>, TaskError>)
    ensures
        is_outcome_of(res, *variant, tntype, *fetched, *depth_processer),
        records_of(res).len() <= 1,
{
    let region = match region_of(variant) {
        Ok(region) => region,
        Err(e) => {
            return Err(e);
        },
    };
    if tntype != TUMOR && tntype != NORMAL {
        return Err(TaskError::Depth(DepthError::InvalidTntype));
    }
    let found = match fetched {
        Ok(found) => found,
        Err(e) => {
            return Err(*e);
        },
    };
    match depth_processer.process(
        region.pos,
        &found.header,
        &found.pileups,
        region.ref_base,
        region.alt_base,
        tntype,
    ) {
        Ok(records) => Ok(records),
        Err(e) => Err(TaskError::Depth(e)),
    }
}

/// The records that the outcome of one task adds to the run: those of a
/// task that succeeded, none of a task that failed.
pub open spec fn records_of(outcome: Result<Vec<PilePosition>, TaskError>) -> Seq<PilePosition> {
    match outcome {
        Ok(records) => records@,
        Err(_) => Seq::empty(),
    }
}

/// The records of all tasks, those of one task after those of the tasks before it.
pub open spec fn merged(outcomes: Seq<Result<Vec<PilePosition>, TaskError>>) -> Seq<PilePosition> {
    outcomes.map_values(|outcome: Result<Vec<PilePosition>, TaskError>| records_of(outcome)).flatten()
}

/// Merges the outcomes of the tasks of a run into one list of records.
///
/// A task that failed adds nothing, so that the run ends with the records
/// of the tasks that succeeded.
pub fn merge(outcomes: Vec<Result<Vec<PilePosition>, TaskError>>) -> (records: Vec<PilePosition>)
    ensures
        records@ == merged(outcomes@),
{
    let mut records: Vec<PilePosition> = Vec::new();
    let ghost all = outcomes@;
    assert(all.take(0) =~= Seq::empty());
    for outcome in it: outcomes
        invariant
            it.seq() == all,
            records@ == merged(all.take(it.index() as int)),
    {
        proof {
            lemma_merged_push(all.take(it.index() as int), outcome);
            all.lemma_take_succ_push(it.index() as int);
        }
        match outcome {
            Ok(mut found) => {
                records.append(&mut found);
            },
            Err(_) => {},
        }
    }
    assert(all.take(all.len() as int) =~= all);
    records
}

/// One more outcome adds its records after those merged so far.
pub proof fn lemma_merged_push(
    outcomes: Seq<Result<Vec<PilePosition>, TaskError>>,
    outcome: Result<Vec<PilePosition>, TaskError>,
)
    ensures
        merged(outcomes.push(outcome)) == merged(outcomes) + records_of(outcome),
{
    let each = |outcome: Result<Vec<PilePosition>, TaskError>| records_of(outcome);
    outcomes.lemma_push_map_commute(each, outcome);
    outcomes.map_values(each).lemma_flatten_push(records_of(outcome));
}

/// The outcomes that hold a record.
pub open spec fn with_record() -> spec_fn(Result<Vec<PilePosition>, TaskError>) -> bool {
    |outcome: Result<Vec<PilePosition>, TaskError>| records_of(outcome).len() > 0
}

/// Where no task gives more than one record, a run has as many records as
/// it has tasks that gave one, and so not more records than tasks: with the
/// two samples, not more than twice the number of variants.
pub proof fn lemma_merged_bound(outcomes: Seq<Result<Vec<PilePosition>, TaskError>>)
    requires
        forall|i: int| 0 <= i < outcomes.len() ==> records_of(#[trigger] outcomes[i]).len() <= 1,
    ensures
        merged(outcomes).len() == outcomes.filter(with_record()).len(),
        merged(outcomes).len() <= outcomes.len(),
    decreases outcomes.len(),
{
    if outcomes.len() == 0 {
        assert(outcomes =~= Seq::empty());
        assert(merged(outcomes) =~= Seq::empty());
        outcomes.lemma_filter_len(with_record());
    } else {
        let front = outcomes.drop_last();
        let last = outcomes.last();
        assert(outcomes =~= front.push(last));
        lemma_merged_bound(front);
        lemma_merged_push(front, last);
        front.lemma_filter_len_push(with_record(), last);
    }
}

/// A task without a record, be it that its position is not covered or that
/// it failed, adds nothing to the run.
pub proof fn lemma_empty_outcome_adds_nothing(
    outcomes: Seq<Result<Vec<PilePosition>, TaskError>>,
    i: int,
)
    requires
        0 <= i < outcomes.len(),
        records_of(outcomes[i]).len() == 0,
    ensures
        merged(outcomes) == merged(outcomes.remove(i)),
    decreases outcomes.len(),
{
    let front = outcomes.drop_last();
    let last = outcomes.last();
    assert(outcomes =~= front.push(last));
    lemma_merged_push(front, last);
    if i == outcomes.len() - 1 {
        assert(outcomes.remove(i) =~= front);
        assert(merged(front) + records_of(last) =~= merged(front));
    } else {
        lemma_empty_outcome_adds_nothing(front, i);
        assert(outcomes.remove(i) =~= front.remove(i).push(last));
        lemma_merged_push(front.remove(i), last);
    }
}

/// Each variant meets each sample in exactly one task: with `m` samples,
/// variant `i` and sample `j` stand at place `i * m + j`, and at no other.
pub proof fn lemma_task_of_pair(
    variants: Seq<Variant>,
    samples: Seq<SampleType>,
    i: int,
    j: int,
)
    requires
        0 <= i < variants.len(),
        0 <= j < samples.len(),
    ensures
        0 <= i * samples.len() + j < variants.len() * samples.len(),
        task_at(variants, samples, i * samples.len() + j) == (variants[i], samples[j]),
        forall|k: int|
            0 <= k < variants.len() * samples.len() && #[trigger] place_of(k, samples.len() as int)
                == (i, j) ==> k == i * samples.len() + j,
{
    let m = samples.len() as int;
    let n = variants.len() as int;
    lemma_fundamental_div_mod_converse(i * m + j, m, i, j);
    assert(i * m + j < n * m) by (nonlinear_arith)
        requires
            0 <= i < n,
            0 <= j < m,
    ;
    assert(0 <= i * m + j) by (nonlinear_arith)
        requires
            0 <= i,
            0 <= j,
            0 < m,
    ;
    assert forall|k: int| 0 <= k < n * m && #[trigger] place_of(k, m) == (i, j) implies k == i * m
        + j by {
        lemma_fundamental_div_mod(k, m);
        assert(m * i == i * m) by (nonlinear_arith);
    }
}

/// The tasks that failed, each with its place among the tasks and its
/// error, in the order of the tasks.
pub open spec fn failures_of(outcomes: Seq<Result<Vec<PilePosition>, TaskError>>) -> Seq<
    (usize, TaskError),
>
    decreases outcomes.len(),
{
    if outcomes.len() == 0 {
        Seq::empty()
    } else {
        let before = failures_of(outcomes.drop_last());
        match outcomes.last() {
            Ok(_) => before,
            Err(e) => before.push(((outcomes.len() - 1) as usize, e)),
        }
    }
}

/// Lists the tasks that failed, once each, so that they can be reported.
pub fn failures(outcomes: &Vec<Result<Vec<PilePosition>, TaskError>>) -> (failed: Vec<
    (usize, TaskError),
>)
    ensures
        failed@ == failures_of(outcomes@),
{
    let mut failed: Vec<(usize, TaskError)> = Vec::new();
    let mut i: usize = 0;
    assert(outcomes@.take(0) =~= Seq::empty());
    while i < outcomes.len()
        invariant
            i <= outcomes@.len(),
            failed@ == failures_of(outcomes@.take(i as int)),
        decreases outcomes@.len() - i,
    {
        proof {
            outcomes@.lemma_take_succ_push(i as int);
            assert(outcomes@.take(i + 1).drop_last() =~= outcomes@.take(i as int));
        }
        match &outcomes[i] {
            Ok(_) => {},
            Err(e) => {
                failed.push((i, *e));
            },
        }
        i += 1;
    }
    assert(outcomes@.take(outcomes@.len() as int) =~= outcomes@);
    failed
}

/// `outcomes` are the outcomes of the tasks of a run, task by task: the
/// tasks of one variant together, in the order of the samples.
pub open spec fn is_run_of<F: ReadFilter + Send>(
    outcomes: Seq<Result<Vec<PilePosition>, TaskError>>,
    variants: Seq<Variant>,
    samples: Seq<SampleType>,
    fetched: Seq<Result<Fetched, TaskError>>,
    processor: DepthProcessor<F>,
) -> bool {
    &&& outcomes.len() == variants.len() * samples.len()
    &&& outcomes.len() == fetched.len()
    &&& forall|k: int|
        0 <= k < outcomes.len() ==> is_outcome_of(
            #[trigger] outcomes[k],
            task_at(variants, samples, k).0,
            task_at(variants, samples, k).1.spec_code(),
            fetched[k],
            processor,
        ) && records_of(outcomes[k]).len() <= 1
}

/// What a run gives.
#[derive(Debug, Clone)]
pub struct RunOutput {
    /// The records of the tasks that gave one, in the order of the tasks.
    pub records: Vec<PilePosition>,
    /// The tasks that failed, each with its place among the tasks and its error.
    pub failed: Vec<(usize, TaskError)>,
}

/// Runs every task of the variants and the samples on what was fetched for
/// it, `fetched[k]` for the task at place `k`, and merges the records.
///
/// A task that fails adds nothing and is listed; the run goes on. There is
/// no run where `fetched` does not hold one entry for each task.
pub fn run<F: ReadFilter + Send>(
    variants: &Vec<Variant>,
    samples: &Vec<SampleType>,
    fetched: &Vec<Result<Fetched, TaskError>>,
    processor: &DepthProcessor<F>,
) -> (output: Option<RunOutput>)
    ensures
        output is Some <==> fetched@.len() == variants@.len() * samples@.len(),
        output matches Some(out) ==> {
            &&& exists|outcomes: Seq<Result<Vec<PilePosition>, TaskError>>|
                {
                    &&& #[trigger] is_run_of(outcomes, variants@, samples@, fetched@, *processor)
                    &&& out.records@ == merged(outcomes)
                    &&& out.failed@ == failures_of(outcomes)
                }
            &&& out.records@.len() <= variants@.len() * samples@.len()
        },
{
    let fetches = fetched.len();
    let tasks = match build_tasks(variants, samples) {
        Some(tasks) => tasks,
        None => {
            return None;
        },
    };
    if fetches != tasks.len() {
        return None;
    }
    let mut outcomes: Vec<Result<Vec<PilePosition>, TaskError>> = Vec::new();
    let mut k: usize = 0;
    while k < tasks.len()
        invariant
            k <= tasks@.len(),
            outcomes@.len() == k,
            tasks@.len() == variants@.len() * samples@.len(),
            tasks@.len() == fetched@.len(),
            forall|j: int|
                0 <= j < tasks@.len() ==> (*(#[trigger] tasks@[j]).variant, tasks@[j].sample)
                    == task_at(variants@, samples@, j),
            forall|j: int|
                0 <= j < k ==> is_outcome_of(
                    #[trigger] outcomes@[j],
                    task_at(variants@, samples@, j).0,
                    task_at(variants@, samples@, j).1.spec_code(),
                    fetched@[j],
                    *processor,
                ) && records_of(outcomes@[j]).len() <= 1,
        decreases tasks@.len() - k,
    {
        let task = &tasks[k];
        let outcome = get_pile_res(task.variant, processor, task.sample.code(), &fetched[k]);
        outcomes.push(outcome);
        k += 1;
    }
    proof {
        assert(is_run_of(outcomes@, variants@, samples@, fetched@, *processor));
        lemma_merged_bound(outcomes@);
    }
    let failed = failures(&outcomes);
    let records = merge(outcomes);
    Some(RunOutput { records, failed })
}

/// The fetch for the task of `variant` went well and found no column at
/// the variant's position.
pub open spec fn uncovered(variant: Variant, fetched: Result<Fetched, TaskError>) -> bool {
    &&& region_fault(variant) is None
    &&& fetched matches Ok(found)
    &&& !covers(found.pileups@, variant.pos as u32)
}

/// A task whose fetch found no column at the variant's position has no record.
pub proof fn lemma_uncovered_task_is_empty<F: ReadFilter + Send>(
    outcome: Result<Vec<PilePosition>, TaskError>,
    variant: Variant,
    tntype: u8,
    fetched: Result<Fetched, TaskError>,
    processor: DepthProcessor<F>,
)
    requires
        is_outcome_of(outcome, variant, tntype, fetched, processor),
        uncovered(variant, fetched),
    ensures
        records_of(outcome).len() == 0,
{
    if tntype != TUMOR && tntype != NORMAL {
        assert(outcome is Err);
    } else {
        let found = fetched->Ok_0;
        match outcome {
            Ok(records) => {
                assert(processor.yields(
                    Ok(records),
                    variant.pos as u32,
                    found.header,
                    found.pileups@,
                    first_byte(variant.ref_base@).unwrap(),
                    first_byte(variant.alt_base@).unwrap(),
                    tntype,
                ));
                assert(records@.len() == 0);
            },
            Err(_) => {},
        }
    }
}

/// A run has at most one record for each variant and each sample: with the
/// tumor and the normal sample, at most twice as many records as variants.
/// A task whose position is not covered adds none.
pub proof fn lemma_run_bound<F: ReadFilter + Send>(
    outcomes: Seq<Result<Vec<PilePosition>, TaskError>>,
    variants: Seq<Variant>,
    samples: Seq<SampleType>,
    fetched: Seq<Result<Fetched, TaskError>>,
    processor: DepthProcessor<F>,
)
    requires
        is_run_of(outcomes, variants, samples, fetched, processor),
    ensures
        merged(outcomes).len() <= variants.len() * samples.len(),
        samples.len() == 2 ==> merged(outcomes).len() <= 2 * variants.len(),
        forall|k: int|
            #![trigger outcomes[k]]
            (0 <= k < outcomes.len() && uncovered(task_at(variants, samples, k).0, fetched[k]))
                ==> (records_of(outcomes[k]).len() == 0 && merged(outcomes) == merged(
                outcomes.remove(k),
            )),
{
    lemma_merged_bound(outcomes);
    assert(variants.len() * 2 == 2 * variants.len()) by (nonlinear_arith);
    assert forall|k: int|
        #![trigger outcomes[k]]
        (0 <= k < outcomes.len() && uncovered(
            task_at(variants, samples, k).0,
            fetched[k],
        )) implies (records_of(outcomes[k]).len() == 0 && merged(outcomes) == merged(
        outcomes.remove(k),
    )) by {
        let task = task_at(variants, samples, k);
        lemma_uncovered_task_is_empty(
            outcomes[k],
            task.0,
            task.1.spec_code(),
            fetched[k],
            processor,
        );
        lemma_empty_outcome_adds_nothing(outcomes, k);
    }
}

} // verus!
