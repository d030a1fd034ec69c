//! The values that describe a compression: the chosen level, the outcome of
//! a run, and the status shown to the user.
use vstd::prelude::*;

verus! {

/// How hard Ghostscript is asked to compress.
#[derive(Debug, Clone, Copy, PartialEq, Eq, Structural)]
pub enum CompressionLevel {
    HighQuality,
    Balanced,
    Strong,
}

/// One finished compression: the two files and their sizes in bytes.
#[derive(Debug)]
pub struct CompressionResult {
    pub input: String,
    pub output: String,
    pub input_size: u64,
    pub output_size: u64,
}

/// Where the current compression stands.
#[derive(Debug)]
pub enum CompressionStatus {
    Idle,
    Running,
    Success(Vec<CompressionResult>),
    Error(String),
}

/// `a - b`, or zero when `b` is the larger.
pub open spec fn saturating_difference(a: u64, b: u64) -> nat {
    if a >= b {
        (a - b) as nat
    } else {
        0
    }
}

impl CompressionResult {
    /// Bytes saved by the compression; zero when the output grew.
    pub fn saved_bytes(&self) -> (r: u64)
        ensures
            r == saturating_difference(self.input_size, self.output_size),
    {
        self.input_size.saturating_sub(self.output_size)
    }
}

/// Sum of the input sizes of `results`.
pub open spec fn total_input(results: Seq<CompressionResult>) -> nat
    decreases results.len(),
{
    if results.len() == 0 {
        0
    } else {
        total_input(results.drop_last()) + results.last().input_size as nat
    }
}

/// Sum of the output sizes of `results`.
pub open spec fn total_output(results: Seq<CompressionResult>) -> nat
    decreases results.len(),
{
    if results.len() == 0 {
        0
    } else {
        total_output(results.drop_last()) + results.last().output_size as nat
    }
}

proof fn lemma_totals_grow(results: Seq<CompressionResult>, i: int)
    requires
        0 <= i <= results.len(),
    ensures
        total_input(results.take(i)) <= total_input(results),
        total_output(results.take(i)) <= total_output(results),
    decreases results.len() - i,
{
    if i < results.len() {
        lemma_totals_grow(results, i + 1);
        assert(results.take(i + 1).drop_last() =~= results.take(i));
    } else {
        assert(results.take(i) =~= results);
    }
}

/// The summed input and output sizes of several results.
pub fn total_sizes(results: &Vec<CompressionResult>) -> (r: (u64, u64))
    requires
        total_input(results@) <= u64::MAX,
        total_output(results@) <= u64::MAX,
    ensures
        r.0 == total_input(results@),
        r.1 == total_output(results@),
{
    let mut total_in: u64 = 0;
    let mut total_out: u64 = 0;
    let mut i: usize = 0;
    while i < results.len()
        invariant
            i <= results.len(),
            total_input(results@) <= u64::MAX,
            total_output(results@) <= u64::MAX,
            total_in == total_input(results@.take(i as int)),
            total_out == total_output(results@.take(i as int)),
        decreases results.len() - i,
    {
        proof {
            lemma_totals_grow(results@, i + 1);
            assert(results@.take(i + 1).drop_last() =~= results@.take(i as int));
        }
        total_in = total_in + results[i].input_size;
        total_out = total_out + results[i].output_size;
        i = i + 1;
    }
    assert(results@.take(i as int) =~= results@);
    (total_in, total_out)
}

} // verus!
