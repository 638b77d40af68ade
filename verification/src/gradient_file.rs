//! Reference gradients that the backward pass is held against.
//!
//! A file holds a header and two cases: the derivative alone, and the whole
//! integration. Numbers are kept by their bits.

use vstd::prelude::*;
use crate::bytes::{le4, read_u32};

verus! {

/// The first word of a file.
pub const GRADIENT_MAGIC: u32 = 0x47524144;

/// Why a file cannot be read.
#[derive(Clone, Copy, Debug, PartialEq, Eq, Structural)]
pub enum GradientFileError {
    /// The file ends too early.
    Truncated,
    BadMagic,
    BadVersion,
    /// The case with this number is missing.
    BadCase(u32),
}

/// The derivative and its gradients.
pub struct DerivativeCase {
    pub r: Vec<u32>,
    pub s: Vec<u32>,
    pub gamma_raw: Vec<u32>,
    pub omega: Vec<u32>,
    pub alpha: u32,
    pub beta: u32,
    pub d_dr: Vec<u32>,
    pub d_ds: Vec<u32>,
    pub expected_d_r: Vec<u32>,
    pub expected_d_s: Vec<u32>,
    pub expected_d_gamma_raw: Vec<u32>,
    pub expected_d_omega: Vec<u32>,
    pub expected_d_alpha: u32,
    pub expected_d_beta: u32,
}

/// The whole integration and its gradients.
pub struct IntegrationCase {
    pub input: Vec<u32>,
    pub gamma_raw: Vec<u32>,
    pub omega: Vec<u32>,
    pub alpha: u32,
    pub beta: u32,
    pub d_output: Vec<u32>,
    pub expected_d_input: Vec<u32>,
    pub expected_d_gamma_raw: Vec<u32>,
    pub expected_d_omega: Vec<u32>,
    pub expected_d_alpha: u32,
    pub expected_d_beta: u32,
}

/// Word `i` of a file.
pub open spec fn word(b: Seq<u8>, i: int) -> u32 {
    le4(b, 4 * i) as u32
}

/// The `n` words from word `at` on.
pub open spec fn words(b: Seq<u8>, at: int, n: int) -> Seq<u32> {
    Seq::new(n as nat, |i: int| word(b, at + i))
}

/// What is wrong with a file, in the order in which it is found out.
pub open spec fn fault(b: Seq<u8>, n: int) -> Option<GradientFileError> {
    if b.len() < 4 {
        Some(GradientFileError::Truncated)
    } else if word(b, 0) != GRADIENT_MAGIC {
        Some(GradientFileError::BadMagic)
    } else if b.len() < 8 {
        Some(GradientFileError::Truncated)
    } else if word(b, 1) != 1 {
        Some(GradientFileError::BadVersion)
    } else if b.len() < 12 {
        Some(GradientFileError::Truncated)
    } else if word(b, 2) != 1 {
        Some(GradientFileError::BadCase(1))
    } else if b.len() < 4 * (10 * n + 8) {
        Some(GradientFileError::Truncated)
    } else if word(b, 10 * n + 7) != 2 {
        Some(GradientFileError::BadCase(2))
    } else if b.len() < 4 * (20 * n + 12) {
        Some(GradientFileError::Truncated)
    } else {
        None
    }
}

/// The derivative case stands at word `at`.
pub open spec fn derivative_at(c: DerivativeCase, b: Seq<u8>, at: int, n: int) -> bool {
    &&& c.r@ == words(b, at, n)
    &&& c.s@ == words(b, at + n, n)
    &&& c.gamma_raw@ == words(b, at + 2 * n, n)
    &&& c.omega@ == words(b, at + 3 * n, n)
    &&& c.alpha == word(b, at + 4 * n)
    &&& c.beta == word(b, at + 4 * n + 1)
    &&& c.d_dr@ == words(b, at + 4 * n + 2, n)
    &&& c.d_ds@ == words(b, at + 5 * n + 2, n)
    &&& c.expected_d_r@ == words(b, at + 6 * n + 2, n)
    &&& c.expected_d_s@ == words(b, at + 7 * n + 2, n)
    &&& c.expected_d_gamma_raw@ == words(b, at + 8 * n + 2, n)
    &&& c.expected_d_omega@ == words(b, at + 9 * n + 2, n)
    &&& c.expected_d_alpha == word(b, at + 10 * n + 2)
    &&& c.expected_d_beta == word(b, at + 10 * n + 3)
}

/// The integration case stands at word `at`.
pub open spec fn integration_at(c: IntegrationCase, b: Seq<u8>, at: int, n: int) -> bool {
    &&& c.input@ == words(b, at, 2 * n)
    &&& c.gamma_raw@ == words(b, at + 2 * n, n)
    &&& c.omega@ == words(b, at + 3 * n, n)
    &&& c.alpha == word(b, at + 4 * n)
    &&& c.beta == word(b, at + 4 * n + 1)
    &&& c.d_output@ == words(b, at + 4 * n + 2, 2 * n)
    &&& c.expected_d_input@ == words(b, at + 6 * n + 2, 2 * n)
    &&& c.expected_d_gamma_raw@ == words(b, at + 8 * n + 2, n)
    &&& c.expected_d_omega@ == words(b, at + 9 * n + 2, n)
    &&& c.expected_d_alpha == word(b, at + 10 * n + 2)
    &&& c.expected_d_beta == word(b, at + 10 * n + 3)
}

fn read_word(b: &[u8], i: usize) -> (w: u32)
    requires
        4 * (i + 1) <= b@.len(),
    ensures
        w == word(b@, i as int),
{
    let total: usize = b.len();
    read_u32(b, 4 * i)
}

fn read_words(b: &[u8], at: usize, n: usize) -> (out: Vec<u32>)
    requires
        4 * (at + n) <= b@.len(),
    ensures
        out@ == words(b@, at as int, n as int),
{
    let total: usize = b.len();
    let mut out: Vec<u32> = Vec::new();
    let mut i: usize = 0;
    while i < n
        invariant
            total == b@.len(),
            4 * (at + n) <= total,
            i <= n,
            out@ == words(b@, at as int, i as int),
        decreases n - i,
    {
        out.push(read_word(b, at + i));
        i += 1;
        assert(out@ =~= words(b@, at as int, i as int));
    }
    out
}

/// Checks the header and the case numbers.
fn find_fault(b: &[u8], n: usize) -> (e: Option<GradientFileError>)
    requires
        80 * n + 48 <= usize::MAX,
    ensures
        e == fault(b@, n as int),
{
    let total: usize = b.len();
    if total < 4 {
        return Some(GradientFileError::Truncated);
    }
    if read_word(b, 0) != GRADIENT_MAGIC {
        return Some(GradientFileError::BadMagic);
    }
    if total < 8 {
        return Some(GradientFileError::Truncated);
    }
    if read_word(b, 1) != 1 {
        return Some(GradientFileError::BadVersion);
    }
    if total < 12 {
        return Some(GradientFileError::Truncated);
    }
    if read_word(b, 2) != 1 {
        return Some(GradientFileError::BadCase(1));
    }
    if total < 4 * (10 * n + 8) {
        return Some(GradientFileError::Truncated);
    }
    if read_word(b, 10 * n + 7) != 2 {
        return Some(GradientFileError::BadCase(2));
    }
    if total < 4 * (20 * n + 12) {
        return Some(GradientFileError::Truncated);
    }
    None
}

/// Reads both cases for `n` bands.
pub fn read_gradient_file(b: &[u8], n: usize) -> (result: Result<
    (DerivativeCase, IntegrationCase),
    GradientFileError,
>)
    requires
        80 * n + 48 <= usize::MAX,
    ensures
        match result {
            Ok((d, i)) => {
                &&& fault(b@, n as int) is None
                &&& derivative_at(d, b@, 3, n as int)
                &&& integration_at(i, b@, 10 * n + 8, n as int)
            },
            Err(e) => fault(b@, n as int) == Some(e),
        },
{
    match find_fault(b, n) {
        Some(e) => Err(e),
        None => {
            let at: usize = 3;
            let d = DerivativeCase {
                r: read_words(b, at, n),
                s: read_words(b, at + n, n),
                gamma_raw: read_words(b, at + 2 * n, n),
                omega: read_words(b, at + 3 * n, n),
                alpha: read_word(b, at + 4 * n),
                beta: read_word(b, at + 4 * n + 1),
                d_dr: read_words(b, at + 4 * n + 2, n),
                d_ds: read_words(b, at + 5 * n + 2, n),
                expected_d_r: read_words(b, at + 6 * n + 2, n),
                expected_d_s: read_words(b, at + 7 * n + 2, n),
                expected_d_gamma_raw: read_words(b, at + 8 * n + 2, n),
                expected_d_omega: read_words(b, at + 9 * n + 2, n),
                expected_d_alpha: read_word(b, at + 10 * n + 2),
                expected_d_beta: read_word(b, at + 10 * n + 3),
            };
            let at2: usize = 10 * n + 8;
            let i = IntegrationCase {
                input: read_words(b, at2, 2 * n),
                gamma_raw: read_words(b, at2 + 2 * n, n),
                omega: read_words(b, at2 + 3 * n, n),
                alpha: read_word(b, at2 + 4 * n),
                beta: read_word(b, at2 + 4 * n + 1),
                d_output: read_words(b, at2 + 4 * n + 2, 2 * n),
                expected_d_input: read_words(b, at2 + 6 * n + 2, 2 * n),
                expected_d_gamma_raw: read_words(b, at2 + 8 * n + 2, n),
                expected_d_omega: read_words(b, at2 + 9 * n + 2, n),
                expected_d_alpha: read_word(b, at2 + 10 * n + 2),
                expected_d_beta: read_word(b, at2 + 10 * n + 3),
            };
            Ok((d, i))
        },
    }
}

/// What the comparison of both cases comes to.
pub open spec fn gate_text(derivative_ok: bool, integration_ok: bool) -> Seq<Seq<char>> {
    if derivative_ok && integration_ok {
        seq!["  PASS. Analytical gradients match PyTorch autograd."@]
    } else {
        seq!["  NOT YET. Debug needed."@] + (if derivative_ok {
            Seq::empty()
        } else {
            seq!["  - Derivative backward has issues"@]
        }) + (if integration_ok {
            Seq::empty()
        } else {
            seq!["  - Full ODE backward has issues (may be accumulation)"@]
        })
    }
}

/// The verdict on both cases.
pub fn gate_lines(derivative_ok: bool, integration_ok: bool) -> (out: Vec<&'static str>)
    ensures
        out@.map_values(|s: &'static str| s@) == gate_text(derivative_ok, integration_ok),
{
    let mut out: Vec<&'static str> = Vec::new();
    if derivative_ok && integration_ok {
        out.push("  PASS. Analytical gradients match PyTorch autograd.");
    } else {
        out.push("  NOT YET. Debug needed.");
        if !derivative_ok {
            out.push("  - Derivative backward has issues");
        }
        if !integration_ok {
            out.push("  - Full ODE backward has issues (may be accumulation)");
        }
    }
    assert(out@.map_values(|s: &'static str| s@) =~= gate_text(derivative_ok, integration_ok));
    out
}

} // verus!
