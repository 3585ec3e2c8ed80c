use depthmate::cli::Cli;
use depthmate::depth::{DefaultReadFilter, ReadFilter};
use depthmate::pileup::AlignedRead;

fn read(flags: u16, mapq: u8) -> AlignedRead {
    AlignedRead {
        flags,
        mapq,
        is_del: false,
        is_refskip: false,
        base: Some(b'A'),
        insertion: false,
        barcode: None,
    }
}

#[test]
fn open_filter_passes_every_read() {
    let filter = DefaultReadFilter::new(0, 0, 0);
    for flags in [0u16, 1, 4, 0x400, 0x0fff, u16::MAX] {
        for mapq in [0u8, 1, 19, 20, 60, u8::MAX] {
            assert!(filter.passes(flags, mapq));
            assert!(filter.filter_read(&read(flags, mapq)));
        }
    }
}

#[test]
fn default_filter_asks_for_mapq_20() {
    let filter = DefaultReadFilter::new(0, 0, 20);
    assert!(filter.passes(0, 20));
    assert!(filter.passes(u16::MAX, 20));
    assert!(filter.passes(0x400, 255));
    assert!(!filter.passes(0, 19));
    assert!(!filter.passes(0, 0));
}

#[test]
fn included_flags_must_all_be_present() {
    let filter = DefaultReadFilter::new(0b0011, 0, 0);
    assert!(filter.passes(0b0011, 0));
    assert!(filter.passes(0b1111, 0));
    assert!(!filter.passes(0b0001, 0));
    assert!(!filter.passes(0b0010, 0));
    assert!(!filter.passes(0b1100, 0));
    assert!(!filter.passes(0, 0));
}

#[test]
fn excluded_flags_must_all_be_absent() {
    let filter = DefaultReadFilter::new(0, 0x0404, 0);
    assert!(filter.passes(0, 0));
    assert!(filter.passes(0x0003, 0));
    assert!(!filter.passes(0x0400, 0));
    assert!(!filter.passes(0x0004, 0));
    assert!(!filter.passes(0x0404, 0));
    assert!(!filter.passes(u16::MAX, 0));
}

#[test]
fn highest_flag_bit_is_looked_at() {
    let wanted = DefaultReadFilter::new(0x8000, 0, 0);
    assert!(wanted.passes(0x8000, 0));
    assert!(!wanted.passes(0x7fff, 0));
    let unwanted = DefaultReadFilter::new(0, 0x8000, 0);
    assert!(!unwanted.passes(0x8000, 0));
    assert!(unwanted.passes(0x7fff, 0));
}

#[test]
fn filter_combines_flags_and_quality() {
    let filter = DefaultReadFilter::new(0x2, 0x400, 30);
    assert!(filter.passes(0x2, 30));
    assert!(filter.passes(0x3, 31));
    assert!(!filter.passes(0x2, 29));
    assert!(!filter.passes(0x402, 30));
    assert!(!filter.passes(0x1, 30));
}

#[test]
fn filter_read_looks_at_flags_and_quality_of_the_read() {
    let filter = DefaultReadFilter::new(0x1, 0x4, 10);
    assert!(filter.filter_read(&read(0x1, 10)));
    assert!(!filter.filter_read(&read(0x5, 10)));
    assert!(!filter.filter_read(&read(0x0, 10)));
    assert!(!filter.filter_read(&read(0x1, 9)));
}

#[test]
fn settings_default_to_mapq_20_and_one_worker() {
    let cli = Cli::with_defaults(
        String::from("n.bam"),
        String::from("t.bam"),
        String::from("v.vcf"),
        String::from("out.csv"),
    );
    assert_eq!(cli.normal, "n.bam");
    assert_eq!(cli.tumor, "t.bam");
    assert_eq!(cli.vcf, "v.vcf");
    assert_eq!(cli.output, "out.csv");
    assert_eq!(cli.include_flags, 0);
    assert_eq!(cli.exclude_flags, 0);
    assert_eq!(cli.min_mapq, 20);
    assert_eq!(cli.threads, 1);
    let filter = cli.read_filter();
    assert!(filter.passes(0xffff, 20));
    assert!(!filter.passes(0, 19));
}

#[test]
fn settings_hand_their_flags_to_the_filter() {
    let mut cli = Cli::with_defaults(String::new(), String::new(), String::new(), String::new());
    cli.include_flags = 0x2;
    cli.exclude_flags = 0x400;
    cli.min_mapq = 5;
    let filter = cli.read_filter();
    assert!(filter.passes(0x2, 5));
    assert!(!filter.passes(0x2, 4));
    assert!(!filter.passes(0x402, 5));
    assert!(!filter.passes(0x0, 5));
}

#[test]
fn options_that_are_given_replace_the_defaults() {
    let cli = Cli::from_options(
        String::from("n.bam"),
        String::from("t.bam"),
        String::from("v.vcf"),
        String::from("out.csv"),
        Some(0x2),
        None,
        Some(0),
        Some(8),
    );
    assert_eq!(cli.normal, "n.bam");
    assert_eq!(cli.output, "out.csv");
    assert_eq!(cli.include_flags, 0x2);
    assert_eq!(cli.exclude_flags, 0);
    assert_eq!(cli.min_mapq, 0);
    assert_eq!(cli.threads, 8);
    let cli = Cli::from_options(
        String::new(),
        String::new(),
        String::new(),
        String::new(),
        None,
        Some(0x400),
        None,
        None,
    );
    assert_eq!(cli.include_flags, 0);
    assert_eq!(cli.exclude_flags, 0x400);
    assert_eq!(cli.min_mapq, 20);
    assert_eq!(cli.threads, 1);
}
