//! The settings of a run, as given on the command line.
use vstd::prelude::*;
use crate::depth::DefaultReadFilter;

verus! {

/// The settings of a run.
#[derive(Debug)]
pub struct Cli {
    /// Path to the indexed alignment file of the normal sample.
    pub normal: String,
    /// Path to the indexed alignment file of the tumor sample.
    pub tumor: String,
    /// Path to the variant file.
    pub vcf: String,
    /// Path of the table to write.
    pub output: String,
    /// The flags that a read must have, all of them.
    pub include_flags: u16,
    /// The flags of which a read may have none.
    pub exclude_flags: u16,
    /// The least mapping quality of a read that counts.
    pub min_mapq: u8,
    /// The number of workers.
    pub threads: usize,
}

/// The flags to include where none are given: none.
pub const DEFAULT_INCLUDE_FLAGS: u16 = 0;

/// The flags to exclude where none are given: none.
pub const DEFAULT_EXCLUDE_FLAGS: u16 = 0;

/// The least mapping quality where none is given.
pub const DEFAULT_MIN_MAPQ: u8 = 20;

/// The number of workers where none is given: the tasks run one after another.
pub const DEFAULT_THREADS: usize = 1;

/// The value of an option: the one given, or the default.
pub open spec fn given_or<T>(given: Option<T>, default: T) -> T {
    match given {
        Some(value) => value,
        None => default,
    }
}

impl Cli {
    /// The settings for the four paths and the options that were given;
    /// an option that was not given has its default.
    pub fn from_options(
        normal: String,
        tumor: String,
        vcf: String,
        output: String,
        include_flags: Option<u16>,
        exclude_flags: Option<u16>,
        min_mapq: Option<u8>,
        threads: Option<usize>,
    ) -> (cli: Self)
        ensures
            cli.normal == normal,
            cli.tumor == tumor,
            cli.vcf == vcf,
            cli.output == output,
            cli.include_flags == given_or(include_flags, DEFAULT_INCLUDE_FLAGS),
            cli.exclude_flags == given_or(exclude_flags, DEFAULT_EXCLUDE_FLAGS),
            cli.min_mapq == given_or(min_mapq, DEFAULT_MIN_MAPQ),
            cli.threads == given_or(threads, DEFAULT_THREADS),
    {
        Cli {
            normal,
            tumor,
            vcf,
            output,
            include_flags: match include_flags {
                Some(flags) => flags,
                None => DEFAULT_INCLUDE_FLAGS,
            },
            exclude_flags: match exclude_flags {
                Some(flags) => flags,
                None => DEFAULT_EXCLUDE_FLAGS,
            },
            min_mapq: match min_mapq {
                Some(mapq) => mapq,
                None => DEFAULT_MIN_MAPQ,
            },
            threads: match threads {
                Some(threads) => threads,
                None => DEFAULT_THREADS,
            },
        }
    }

    /// The settings for the four paths, with every option at its default:
    /// no flag included, none excluded, mapping quality 20 or more, one worker.
    pub fn with_defaults(normal: String, tumor: String, vcf: String, output: String) -> (cli: Self)
        ensures
            cli.normal == normal,
            cli.tumor == tumor,
            cli.vcf == vcf,
            cli.output == output,
            cli.include_flags == 0,
            cli.exclude_flags == 0,
            cli.min_mapq == 20,
            cli.threads == 1,
    {
        Self::from_options(normal, tumor, vcf, output, None, None, None, None)
    }

    /// The read filter that the settings ask for.
    pub fn read_filter(&self) -> (filter: DefaultReadFilter)
        ensures
            filter.include_flags() == self.include_flags,
            filter.exclude_flags() == self.exclude_flags,
            filter.min_mapq() == self.min_mapq,
    {
        DefaultReadFilter::new(self.include_flags, self.exclude_flags, self.min_mapq)
    }
}

/// With the default settings a read passes exactly when its mapping
/// quality is 20 or more, whatever its flags.
pub proof fn lemma_default_filter(filter: DefaultReadFilter, flags: u16, mapq: u8)
    requires
        filter.include_flags() == 0,
        filter.exclude_flags() == 0,
        filter.min_mapq() == DEFAULT_MIN_MAPQ,
    ensures
        filter.accepts(flags, mapq) <==> mapq >= 20,
{
    crate::depth::lemma_no_bit_in_zero();
}

} // verus!
