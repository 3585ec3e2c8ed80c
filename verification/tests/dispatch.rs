use depthmate::depth::{DefaultReadFilter, DepthError, DepthProcessor, PilePosition};
use depthmate::dispatch::{
    build_tasks, failures, get_pile_res, merge, region_of, run, sample_types, Fetched, SampleType,
    TaskError,
};
use depthmate::pileup::{AlignedRead, Header, PileupColumn};
use depthmate::vcf::{get_variant, Variant, VariantParseError, VcfRecord};
use std::path::PathBuf;

fn variant(chrom: &str, pos: usize, ref_base: &str, alt_base: &str) -> Variant {
    Variant {
        chrom: String::from(chrom),
        pos,
        ref_base: String::from(ref_base),
        alt_base: String::from(alt_base),
    }
}

fn record(chrom: &str, start: Option<usize>, reference: &str, alts: &[&str]) -> VcfRecord {
    VcfRecord {
        chrom: String::from(chrom),
        start,
        reference_bases: String::from(reference),
        alternate_bases: alts.iter().map(|a| String::from(*a)).collect(),
    }
}

fn read(b: u8) -> AlignedRead {
    AlignedRead {
        flags: 0,
        mapq: 60,
        is_del: false,
        is_refskip: false,
        base: Some(b),
        insertion: false,
        barcode: Some(String::from("CB1")),
    }
}

fn processor() -> DepthProcessor<DefaultReadFilter> {
    DepthProcessor::new(
        PathBuf::from("tumor.bam"),
        PathBuf::from("normal.bam"),
        DefaultReadFilter::new(0, 0, 20),
    )
}

fn header() -> Header {
    Header { names: vec![String::from("chr1")] }
}

fn fetched(pileups: Vec<PileupColumn>) -> Result<Fetched, TaskError> {
    Ok(Fetched { header: header(), pileups })
}

fn found(pos: usize) -> PilePosition {
    let mut p = PilePosition::default();
    p.pos = pos;
    p
}

#[test]
fn records_become_variants_in_order() {
    let records = vec![
        record("chr1", Some(100), "A", &["T"]),
        record("chr2", Some(1), "ACG", &["TTA", "G"]),
    ];
    let variants = get_variant(&records).unwrap();
    assert_eq!(variants.len(), 2);
    assert_eq!(variants[0].chrom, "chr1");
    assert_eq!(variants[0].pos, 100);
    assert_eq!(variants[0].ref_base, "A");
    assert_eq!(variants[0].alt_base, "T");
    assert_eq!(variants[1].chrom, "chr2");
    assert_eq!(variants[1].pos, 1);
    assert_eq!(variants[1].ref_base, "A");
    assert_eq!(variants[1].alt_base, "T");
    assert!(get_variant(&vec![]).unwrap().is_empty());
}

#[test]
fn only_the_first_base_of_the_first_allele_is_kept() {
    let v = record("chr1", Some(7), "GT", &["C", "TTT"]).to_variant(0).unwrap();
    assert_eq!((v.ref_base.as_str(), v.alt_base.as_str()), ("G", "C"));
    let v = record("chr1", Some(7), "c", &["<DEL>"]).to_variant(0).unwrap();
    assert_eq!((v.ref_base.as_str(), v.alt_base.as_str()), ("c", "<"));
    let v = record("chr1", Some(7), "éA", &["ñG"]).to_variant(0).unwrap();
    assert_eq!((v.ref_base.as_str(), v.alt_base.as_str()), ("é", "ñ"));
    let region = region_of(&v).unwrap();
    assert_eq!(region.ref_base, "é".as_bytes()[0]);
}

#[test]
fn record_without_position_fails_the_load() {
    let records = vec![
        record("chr1", Some(100), "A", &["T"]),
        record("chr1", None, "", &["T"]),
        record("chr1", Some(0), "A", &[]),
    ];
    assert_eq!(
        get_variant(&records).unwrap_err(),
        VariantParseError::UnsetPosition { record: 1 }
    );
    let records = vec![record("chr1", Some(0), "A", &["T"])];
    assert_eq!(
        get_variant(&records).unwrap_err(),
        VariantParseError::UnsetPosition { record: 0 }
    );
    assert_eq!(
        records[0].to_variant(5).unwrap_err(),
        VariantParseError::UnsetPosition { record: 5 }
    );
}

#[test]
fn record_without_reference_base_fails_the_load() {
    let records = vec![
        record("chr1", Some(100), "A", &["T"]),
        record("chr1", Some(101), "", &[]),
        record("chr1", None, "A", &["T"]),
    ];
    assert_eq!(
        get_variant(&records).unwrap_err(),
        VariantParseError::MissingReference { record: 1 }
    );
}

#[test]
fn record_without_alternate_fails_the_load() {
    let records = vec![
        record("chr1", Some(100), "A", &["T"]),
        record("chr1", Some(101), "C", &["G"]),
        record("chr1", Some(102), "A", &[]),
    ];
    assert_eq!(
        get_variant(&records).unwrap_err(),
        VariantParseError::MissingAlternate { record: 2 }
    );
    let records = vec![record("chr1", Some(102), "A", &["", "G"])];
    assert_eq!(
        get_variant(&records).unwrap_err(),
        VariantParseError::MissingAlternate { record: 0 }
    );
}

#[test]
fn region_takes_the_first_bases() {
    let region = region_of(&variant("chr7", 100, "ACG", "TG")).unwrap();
    assert_eq!(region.chrom, "chr7");
    assert_eq!(region.pos, 100);
    assert_eq!(region.ref_base, b'A');
    assert_eq!(region.alt_base, b'T');
    let region = region_of(&variant("chr7", u32::MAX as usize, "g", "c")).unwrap();
    assert_eq!(region.pos, u32::MAX);
    assert_eq!(region.ref_base, b'g');
    assert_eq!(region.alt_base, b'c');
}

#[test]
fn variant_that_is_no_task_is_told_why() {
    assert_eq!(region_of(&variant("c", 0, "A", "T")).unwrap_err(), TaskError::MalformedRegion);
    assert_eq!(region_of(&variant("c", 0, "", "")).unwrap_err(), TaskError::MalformedRegion);
    assert_eq!(region_of(&variant("c", 5, "", "T")).unwrap_err(), TaskError::MissingReferenceBase);
    assert_eq!(region_of(&variant("c", 5, "", "")).unwrap_err(), TaskError::MissingReferenceBase);
    assert_eq!(region_of(&variant("c", 5, "A", "")).unwrap_err(), TaskError::MissingAlternateBase);
}

#[test]
fn position_beyond_32_bits_is_malformed() {
    let beyond = (u32::MAX as u64 + 1) as usize;
    if beyond > u32::MAX as usize {
        assert_eq!(
            region_of(&variant("c", beyond, "A", "T")).unwrap_err(),
            TaskError::MalformedRegion
        );
    }
}

#[test]
fn samples_are_normal_then_tumor() {
    assert_eq!(sample_types(), vec![SampleType::Normal, SampleType::Tumor]);
    assert_eq!(SampleType::Tumor.code(), 84);
    assert_eq!(SampleType::Normal.code(), 78);
    assert_eq!(SampleType::from_code(84), Some(SampleType::Tumor));
    assert_eq!(SampleType::from_code(78), Some(SampleType::Normal));
    assert_eq!(SampleType::from_code(85), None);
    assert_eq!(SampleType::from_code(0), None);
}

#[test]
fn every_variant_meets_every_sample() {
    let variants = vec![
        variant("chr1", 10, "A", "T"),
        variant("chr1", 20, "C", "G"),
        variant("chr2", 30, "G", "A"),
    ];
    let samples = sample_types();
    let tasks = build_tasks(&variants, &samples).unwrap();
    assert_eq!(tasks.len(), 6);
    let seen: Vec<(usize, SampleType)> =
        tasks.iter().map(|t| (t.variant.pos, t.sample)).collect();
    assert_eq!(
        seen,
        vec![
            (10, SampleType::Normal),
            (10, SampleType::Tumor),
            (20, SampleType::Normal),
            (20, SampleType::Tumor),
            (30, SampleType::Normal),
            (30, SampleType::Tumor),
        ]
    );
    assert!(std::ptr::eq(tasks[2].variant, &variants[1]));
}

#[test]
fn no_variant_or_no_sample_gives_no_task() {
    let variants = vec![variant("chr1", 10, "A", "T")];
    let no_variant: Vec<Variant> = vec![];
    let samples = sample_types();
    assert!(build_tasks(&no_variant, &samples).unwrap().is_empty());
    let no_sample: Vec<SampleType> = vec![];
    assert!(build_tasks(&variants, &no_sample).unwrap().is_empty());
    let tumor_only = vec![SampleType::Tumor];
    let one = build_tasks(&variants, &tumor_only).unwrap();
    assert_eq!(one.len(), 1);
    assert_eq!(one[0].sample, SampleType::Tumor);
}

#[test]
fn task_counts_the_column_at_its_variant() {
    let v = variant("chr1", 100, "AC", "T");
    let piles = fetched(vec![PileupColumn {
        tid: 0,
        pos: 99,
        alignments: vec![read(b'A'), read(b'T'), read(b'T'), read(b'G')],
    }]);
    let out = get_pile_res(&v, &processor(), 84, &piles).unwrap();
    assert_eq!(out.len(), 1);
    assert_eq!(out[0].chrom, "chr1");
    assert_eq!(out[0].pos, 100);
    assert_eq!(out[0].all_depth, 4);
    assert_eq!(out[0].ref_depth, 1);
    assert_eq!(out[0].alt_depth, 2);
    assert_eq!(out[0].other_depth, 1);
    assert_eq!(out[0].barcode, "CB1,CB1,");
    assert_eq!(out[0].tntype, "T");
}

#[test]
fn task_without_coverage_gives_no_record() {
    let v = variant("chr1", 100, "A", "T");
    assert!(get_pile_res(&v, &processor(), 78, &fetched(vec![])).unwrap().is_empty());
    let elsewhere = fetched(vec![PileupColumn { tid: 0, pos: 100, alignments: vec![read(b'A')] }]);
    assert!(get_pile_res(&v, &processor(), 78, &elsewhere).unwrap().is_empty());
}

#[test]
fn task_fails_with_its_own_fault_or_that_of_the_depth() {
    let piles = fetched(vec![PileupColumn { tid: 3, pos: 99, alignments: vec![read(b'A')] }]);
    let v = variant("chr1", 100, "A", "T");
    assert_eq!(
        get_pile_res(&v, &processor(), 84, &piles).unwrap_err(),
        TaskError::Depth(DepthError::UnknownSequence)
    );
    assert_eq!(
        get_pile_res(&v, &processor(), 1, &piles).unwrap_err(),
        TaskError::Depth(DepthError::InvalidTntype)
    );
    let v = variant("chr1", 0, "A", "T");
    assert_eq!(
        get_pile_res(&v, &processor(), 1, &piles).unwrap_err(),
        TaskError::MalformedRegion
    );
    let v = variant("chr1", 100, "A", "");
    assert_eq!(
        get_pile_res(&v, &processor(), 84, &piles).unwrap_err(),
        TaskError::MissingAlternateBase
    );
}

#[test]
fn failed_fetch_fails_the_task() {
    let v = variant("chr1", 100, "A", "T");
    let failed: Result<Fetched, TaskError> = Err(TaskError::Fetch);
    assert_eq!(get_pile_res(&v, &processor(), 84, &failed).unwrap_err(), TaskError::Fetch);
    // the fault of the variant and a wrong sample code come first
    assert_eq!(
        get_pile_res(&v, &processor(), 2, &failed).unwrap_err(),
        TaskError::Depth(DepthError::InvalidTntype)
    );
    let v = variant("chr1", 100, "", "T");
    assert_eq!(
        get_pile_res(&v, &processor(), 2, &failed).unwrap_err(),
        TaskError::MissingReferenceBase
    );
}

#[test]
fn merge_keeps_the_records_of_the_tasks_in_order() {
    let outcomes = vec![
        Ok(vec![found(1)]),
        Ok(vec![]),
        Err(TaskError::Fetch),
        Ok(vec![found(2), found(3)]),
        Err(TaskError::MalformedRegion),
        Ok(vec![found(4)]),
    ];
    let merged = merge(outcomes);
    let positions: Vec<usize> = merged.iter().map(|p| p.pos).collect();
    assert_eq!(positions, vec![1, 2, 3, 4]);
    assert!(merge(vec![]).is_empty());
    assert!(merge(vec![Err(TaskError::Fetch), Ok(vec![])]).is_empty());
}

#[test]
fn failed_tasks_are_listed_once_each() {
    let outcomes = vec![
        Ok(vec![found(1)]),
        Err(TaskError::Fetch),
        Ok(vec![]),
        Err(TaskError::Depth(DepthError::MissingBase)),
    ];
    assert_eq!(
        failures(&outcomes),
        vec![(1, TaskError::Fetch), (3, TaskError::Depth(DepthError::MissingBase))]
    );
    assert!(failures(&vec![Ok(vec![]), Ok(vec![found(1)])]).is_empty());
    assert!(failures(&vec![]).is_empty());
}

#[test]
fn run_has_at_most_two_records_for_each_variant() {
    let variants = vec![
        variant("chr1", 100, "A", "T"),
        variant("chr1", 200, "C", "G"),
        variant("chr1", 0, "C", "G"),
    ];
    let samples = sample_types();
    let tasks = build_tasks(&variants, &samples).unwrap();
    // the tumor sample covers position 100 only, the normal sample covers none
    let tumor = vec![PileupColumn { tid: 0, pos: 99, alignments: vec![read(b'T'), read(b'A')] }];
    let mut fetches = Vec::new();
    for task in &tasks {
        fetches.push(if task.sample == SampleType::Tumor {
            fetched(tumor.clone())
        } else {
            fetched(vec![])
        });
    }
    let out = run(&variants, &samples, &fetches, &processor()).unwrap();
    assert!(out.records.len() <= 2 * variants.len());
    assert_eq!(out.records.len(), 1);
    assert_eq!(out.records[0].pos, 100);
    assert_eq!(out.records[0].tntype, "T");
    assert_eq!(out.records[0].vaf(), Some((1, 2)));
    assert_eq!(
        out.failed,
        vec![(4, TaskError::MalformedRegion), (5, TaskError::MalformedRegion)]
    );
}

#[test]
fn run_goes_on_after_a_failed_task() {
    let variants = vec![variant("chr1", 10, "A", "T"), variant("chr1", 20, "C", "G")];
    let samples = sample_types();
    let at = |pos: u32, b: u8| PileupColumn { tid: 0, pos, alignments: vec![read(b)] };
    let fetches = vec![
        fetched(vec![at(9, b'A')]),
        Err(TaskError::Fetch),
        fetched(vec![at(19, b'G')]),
        fetched(vec![at(18, b'G'), at(19, b'C'), at(20, b'G')]),
    ];
    let out = run(&variants, &samples, &fetches, &processor()).unwrap();
    let seen: Vec<(usize, &str, usize, usize)> = out
        .records
        .iter()
        .map(|r| (r.pos, r.tntype.as_str(), r.ref_depth, r.alt_depth))
        .collect();
    assert_eq!(seen, vec![(10, "N", 1, 0), (20, "N", 0, 1), (20, "T", 1, 0)]);
    assert_eq!(out.failed, vec![(1, TaskError::Fetch)]);
}

#[test]
fn run_needs_one_fetch_for_each_task() {
    let variants = vec![variant("chr1", 10, "A", "T")];
    let samples = sample_types();
    assert!(run(&variants, &samples, &vec![fetched(vec![])], &processor()).is_none());
    assert!(run(&variants, &samples, &vec![], &processor()).is_none());
    let none: Vec<Variant> = vec![];
    let out = run(&none, &samples, &vec![], &processor()).unwrap();
    assert!(out.records.is_empty());
    assert!(out.failed.is_empty());
}
