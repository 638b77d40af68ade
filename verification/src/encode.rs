//! Encoding values as band phases, and comparing encoded items pair by pair.
//!
//! Which band gets which phase, which pairs are compared and how the results are
//! written down is decided here; angles and coherences are computed elsewhere.

use vstd::prelude::*;
use vstd::string::*;
use crate::json::{escape, escaped, number, owned, texts};
use crate::parse::{parse_number, parsed, part, pieces, split, trim, trimmed, views};
use crate::relations::{colon_in, CatalogConfig, RelationType};
use crate::text::{append_decimal, chars_of, decimal, string_of};

verus! {

/// The phase that a band is set to.
#[derive(Clone, Copy, Debug, PartialEq, Eq, Structural)]
pub enum Target {
    /// So many eighths of a turn.
    Fixed(i32),
    /// The reference band's phase, turned so many times by the relationship's angle.
    Turned(usize),
}

/// One band and the phase it is set to.
#[derive(Clone, Copy, Debug, PartialEq, Eq, Structural)]
pub struct PhaseStep {
    pub band: usize,
    pub target: Target,
}

/// A band index, cut to the last band.
pub open spec fn clamped(band: usize, n_bands: int) -> int {
    if band < n_bands {
        band as int
    } else {
        n_bands - 1
    }
}

/// The phases that a relationship sets: a quartet balances two bands at rest
/// against two that are an eighth ahead and an eighth behind; an angular
/// relationship turns every band after the first by one more angle.
pub open spec fn steps_of(rel: RelationType, bands: Seq<usize>, n_bands: int) -> Seq<PhaseStep> {
    if rel == RelationType::Quartet {
        if bands.len() >= 4 {
            seq![
                PhaseStep { band: clamped(bands[0], n_bands) as usize, target: Target::Fixed(0) },
                PhaseStep { band: clamped(bands[1], n_bands) as usize, target: Target::Fixed(0) },
                PhaseStep { band: clamped(bands[2], n_bands) as usize, target: Target::Fixed(1) },
                PhaseStep { band: clamped(bands[3], n_bands) as usize, target: Target::Fixed((-1) as i32) },
            ]
        } else {
            Seq::empty()
        }
    } else if bands.len() == 0 {
        Seq::empty()
    } else {
        Seq::new(
            (bands.len() - 1) as nat,
            |i: int|
                PhaseStep {
                    band: clamped(bands[i + 1], n_bands) as usize,
                    target: Target::Turned((i + 1) as usize),
                },
        )
    }
}

fn clamp_band(band: usize, n_bands: usize) -> (b: usize)
    requires
        n_bands > 0,
    ensures
        b == clamped(band, n_bands as int),
{
    if band < n_bands {
        band
    } else {
        n_bands - 1
    }
}

/// The phases that a relationship sets, in the order in which they are set. A band
/// past the last one counts as the last.
pub fn relationship_steps(config: &CatalogConfig, n_bands: usize) -> (steps: Vec<PhaseStep>)
    requires
        n_bands > 0,
    ensures
        steps@ == steps_of(config.rel_type, config.bands@, n_bands as int),
{
    let n: usize = config.bands.len();
    let mut steps: Vec<PhaseStep> = Vec::new();
    if config.rel_type == RelationType::Quartet {
        if n >= 4 {
            let a: usize = clamp_band(config.bands[0], n_bands);
            let b: usize = clamp_band(config.bands[1], n_bands);
            let c: usize = clamp_band(config.bands[2], n_bands);
            let d: usize = clamp_band(config.bands[3], n_bands);
            steps.push(PhaseStep { band: a, target: Target::Fixed(0) });
            steps.push(PhaseStep { band: b, target: Target::Fixed(0) });
            steps.push(PhaseStep { band: c, target: Target::Fixed(1) });
            steps.push(PhaseStep { band: d, target: Target::Fixed(-1) });
        }
        assert(steps@ =~= steps_of(config.rel_type, config.bands@, n_bands as int));
    } else {
        let mut i: usize = 1;
        while i < n
            invariant
                n == config.bands@.len(),
                n_bands > 0,
                1 <= i,
                n > 0 ==> i <= n,
                config.rel_type != RelationType::Quartet,
                n > 0 ==> steps@ == steps_of(
                    config.rel_type,
                    config.bands@,
                    n_bands as int,
                ).take(i - 1),
                n == 0 ==> steps@ == Seq::<PhaseStep>::empty(),
            decreases n - i,
        {
            let band: usize = clamp_band(config.bands[i], n_bands);
            steps.push(PhaseStep { band, target: Target::Turned(i) });
            i += 1;
            assert(steps@ =~= steps_of(config.rel_type, config.bands@, n_bands as int).take(
                i - 1,
            ));
        }
        assert(steps@ =~= steps_of(config.rel_type, config.bands@, n_bands as int));
    }
    steps
}

/// The band that an angular relationship turns the others against.
pub fn reference_band(config: &CatalogConfig, n_bands: usize) -> (band: Option<usize>)
    requires
        n_bands > 0,
    ensures
        band == (if config.rel_type != RelationType::Quartet && config.bands@.len() > 0 {
            Some(clamped(config.bands@[0], n_bands as int) as usize)
        } else {
            None
        }),
{
    if config.rel_type != RelationType::Quartet && config.bands.len() > 0 {
        Some(clamp_band(config.bands[0], n_bands))
    } else {
        None
    }
}

/// The eighths of a fixed target.
pub open spec fn eighths(t: Target) -> int {
    match t {
        Target::Fixed(e) => e as int,
        Target::Turned(_) => 0,
    }
}

/// A quartet is phase matched: the first two phases add up to the same as the other
/// two.
pub proof fn law_quartet_is_phase_matched(bands: Seq<usize>, n_bands: int)
    requires
        bands.len() >= 4,
    ensures
        ({
            let s = steps_of(RelationType::Quartet, bands, n_bands);
            eighths(s[0].target) + eighths(s[1].target) == eighths(s[2].target) + eighths(
                s[3].target,
            )
        }),
{
}

/// Every band that a relationship sets exists.
pub proof fn law_steps_stay_in_range(
    rel: RelationType,
    bands: Seq<usize>,
    n_bands: usize,
    i: int,
)
    requires
        n_bands > 0,
        0 <= i < steps_of(rel, bands, n_bands as int).len(),
    ensures
        steps_of(rel, bands, n_bands as int)[i].band < n_bands,
{
}

/// The phase of one band of an encoded number: the number's residue as a part of the
/// modulus, times the harmonic.
#[derive(Clone, Copy, Debug, PartialEq, Eq, Structural)]
pub struct GridPhase {
    pub residue: u64,
    pub modulus: usize,
    pub harmonic: usize,
}

/// The phases of a number: the first half of the bands carry the harmonics of its
/// residue on one grid, the second half those on the other.
pub open spec fn grid_phases(n: u64, half: int, m1: usize, m2: usize) -> Seq<GridPhase> {
    Seq::new(
        (2 * half) as nat,
        |k: int|
            if k < half {
                GridPhase {
                    residue: (n as int % m1 as int) as u64,
                    modulus: m1,
                    harmonic: (k + 1) as usize,
                }
            } else {
                GridPhase {
                    residue: (n as int % m2 as int) as u64,
                    modulus: m2,
                    harmonic: (k - half + 1) as usize,
                }
            },
    )
}

/// The phases of a number on two grids. With an odd number of bands the last one
/// carries none.
pub fn number_phases(n: u64, n_bands: usize, m1: usize, m2: usize) -> (out: Vec<GridPhase>)
    requires
        m1 > 0,
        m2 > 0,
    ensures
        out@ == grid_phases(n, n_bands as int / 2, m1, m2),
{
    let half: usize = n_bands / 2;
    let r1: u64 = n % (m1 as u64);
    let r2: u64 = n % (m2 as u64);
    let mut out: Vec<GridPhase> = Vec::new();
    let mut h: usize = 0;
    while h < half
        invariant
            m1 > 0,
            r1 == n as int % m1 as int,
            half == n_bands / 2,
            h <= half,
            out@ == grid_phases(n, half as int, m1, m2).take(h as int),
        decreases half - h,
    {
        out.push(GridPhase { residue: r1, modulus: m1, harmonic: h + 1 });
        h += 1;
        assert(out@ =~= grid_phases(n, half as int, m1, m2).take(h as int));
    }
    h = 0;
    while h < half
        invariant
            m2 > 0,
            r2 == n as int % m2 as int,
            half == n_bands / 2,
            h <= half,
            out@ == grid_phases(n, half as int, m1, m2).take(half + h),
        decreases half - h,
    {
        out.push(GridPhase { residue: r2, modulus: m2, harmonic: h + 1 });
        h += 1;
        assert(out@ =~= grid_phases(n, half as int, m1, m2).take(half + h));
    }
    assert(out@ =~= grid_phases(n, half as int, m1, m2));
    out
}

/// Odd neighbouring moduli tell apart all numbers below their product: two numbers
/// with the same residues on both grids are the same number.
pub proof fn law_grids_tell_numbers_apart(m1: int, m2: int, a: int, b: int)
    requires
        m1 > 0,
        m1 % 2 == 1,
        m2 == m1 + 2,
        0 <= a < m1 * m2,
        0 <= b < m1 * m2,
        a % m1 == b % m1,
        a % m2 == b % m2,
    ensures
        a == b,
{
    vstd::arithmetic::div_mod::lemma_fundamental_div_mod(a, m1);
    vstd::arithmetic::div_mod::lemma_fundamental_div_mod(b, m1);
    vstd::arithmetic::div_mod::lemma_fundamental_div_mod(a, m2);
    vstd::arithmetic::div_mod::lemma_fundamental_div_mod(b, m2);
    let k = m1 / 2;
    let d = a - b;
    let x = a / m1 - b / m1;
    let y = a / m2 - b / m2;
    let p = m1 * m2;
    assert(d == m1 * x) by (nonlinear_arith)
        requires
            a == m1 * (a / m1) + a % m1,
            b == m1 * (b / m1) + b % m1,
            a % m1 == b % m1,
            d == a - b,
            x == a / m1 - b / m1,
    ;
    assert(d == m2 * y) by (nonlinear_arith)
        requires
            a == m2 * (a / m2) + a % m2,
            b == m2 * (b / m2) + b % m2,
            a % m2 == b % m2,
            d == a - b,
            y == a / m2 - b / m2,
    ;
    assert(m1 == 2 * k + 1);
    let c = (k + 1) * y - k * x;
    assert((k + 1) * m1 - k * m2 == 1) by (nonlinear_arith)
        requires
            m1 == 2 * k + 1,
            m2 == 2 * k + 3,
    ;
    assert(d * ((k + 1) * m1 - k * m2) == (k + 1) * m1 * d - k * m2 * d) by (nonlinear_arith);
    assert((k + 1) * m1 * d == (k + 1) * y * (m1 * m2)) by (nonlinear_arith)
        requires
            d == m2 * y,
    ;
    assert(k * m2 * d == k * x * (m1 * m2)) by (nonlinear_arith)
        requires
            d == m1 * x,
    ;
    assert(d == c * p) by (nonlinear_arith)
        requires
            d == (k + 1) * y * (m1 * m2) - k * x * (m1 * m2),
            c == (k + 1) * y - k * x,
            p == m1 * m2,
    ;
    assert(c == 0) by (nonlinear_arith)
        requires
            d == c * p,
            -p < d < p,
            p > 0,
    ;
    assert(c * p == 0) by (nonlinear_arith)
        requires
            c == 0,
    ;
}

/// The pairs `(i, j)` with `i < j`, the first `rows` values of `i`.
pub open spec fn pair_rows(n: int, rows: int) -> Seq<(usize, usize)>
    decreases rows,
{
    if rows <= 0 {
        Seq::empty()
    } else {
        pair_rows(n, rows - 1) + Seq::new(
            (n - rows) as nat,
            |k: int| ((rows - 1) as usize, (rows + k) as usize),
        )
    }
}

/// All pairs `(i, j)` with `i < j`, in the order in which they are compared.
pub fn pairs(n: usize) -> (out: Vec<(usize, usize)>)
    ensures
        out@ == pair_rows(n as int, n as int),
{
    let mut out: Vec<(usize, usize)> = Vec::new();
    let mut i: usize = 0;
    while i < n
        invariant
            i <= n,
            out@ == pair_rows(n as int, i as int),
        decreases n - i,
    {
        let ghost before = out@;
        let ghost row = Seq::new((n - i - 1) as nat, |k: int| (i, (i + 1 + k) as usize));
        let mut j: usize = i + 1;
        while j < n
            invariant
                i < j <= n,
                row == Seq::new((n - i - 1) as nat, |k: int| (i, (i + 1 + k) as usize)),
                out@ == before + row.take(j - i - 1),
            decreases n - j,
        {
            out.push((i, j));
            j += 1;
            assert(row.take(j - i - 1) =~= row.take(j - i - 2).push((i, (j - 1) as usize)));
        }
        assert(row.take(n - i - 1) =~= row);
        i += 1;
        assert(out@ =~= pair_rows(n as int, i as int));
    }
    out
}

/// Twice the number of pairs in the first rows.
proof fn lemma_pair_rows_len(n: int, rows: int)
    requires
        0 <= rows <= n,
    ensures
        2 * pair_rows(n, rows).len() == rows * (2 * n - rows - 1),
    decreases rows,
{
    if rows == 0 {
        assert(0 * (2 * n - 1) == 0) by (nonlinear_arith);
    } else {
        lemma_pair_rows_len(n, rows - 1);
        assert((rows - 1) * (2 * n - (rows - 1) - 1) + 2 * (n - rows) == rows * (2 * n - rows
            - 1)) by (nonlinear_arith);
    }
}

/// The place of pair `(i, j)` among the pairs.
pub open spec fn pair_place(n: int, i: int, j: int) -> int {
    i * (2 * n - i - 1) / 2 + (j - i - 1)
}

/// Later rows leave earlier pairs where they are.
proof fn lemma_pair_rows_prefix(n: int, rows: int, more: int, t: int)
    requires
        0 <= rows <= more,
        0 <= t < pair_rows(n, rows).len(),
    ensures
        t < pair_rows(n, more).len(),
        pair_rows(n, more)[t] == pair_rows(n, rows)[t],
    decreases more - rows,
{
    if rows < more {
        lemma_pair_rows_prefix(n, rows, more - 1, t);
    }
}

/// Every pair stands at its place among the pairs.
pub proof fn law_pair_stands_at_its_place(n: usize, i: usize, j: usize)
    requires
        i < j < n,
    ensures
        ({
            let at = pair_place(n as int, i as int, j as int);
            &&& 0 <= at < pair_rows(n as int, n as int).len()
            &&& pair_rows(n as int, n as int)[at] == (i, j)
        }),
{
    lemma_pair_rows_len(n as int, i as int);
    lemma_pair_rows_len(n as int, i + 1);
    let before = pair_rows(n as int, i as int);
    let row = pair_rows(n as int, i + 1);
    let at = pair_place(n as int, i as int, j as int);
    assert(at == before.len() + (j - i - 1));
    assert(row[at] == (i, j));
    lemma_pair_rows_prefix(n as int, i + 1, n as int, at);
}

/// There are as many pairs as a triangle has entries.
pub proof fn law_pair_count(n: usize)
    ensures
        2 * pair_rows(n as int, n as int).len() == n * (n - 1),
{
    lemma_pair_rows_len(n as int, n as int);
    assert(2 * n - n - 1 == n - 1);
}

/// What a cell of the relationship matrix shows.
#[derive(Clone, Copy, Debug, PartialEq, Eq, Structural)]
pub enum Cell {
    /// An item against itself.
    Diagonal,
    /// The report with this index.
    Report(usize),
    /// No report for the pair.
    Unknown,
}

/// The cell of the relationship matrix in row `i` and column `j`: a pair is looked up
/// whichever way round it is asked for.
pub fn matrix_cell(n: usize, i: usize, j: usize, n_reports: usize) -> (cell: Cell)
    requires
        i < n,
        j < n,
        2 * n * n <= usize::MAX,
    ensures
        cell == (if i == j {
            Cell::Diagonal
        } else {
            let at = if i < j {
                pair_place(n as int, i as int, j as int)
            } else {
                pair_place(n as int, j as int, i as int)
            };
            if at < n_reports {
                Cell::Report(at as usize)
            } else {
                Cell::Unknown
            }
        }),
{
    if i == j {
        return Cell::Diagonal;
    }
    let (a, b): (usize, usize) = if i < j {
        (i, j)
    } else {
        (j, i)
    };
    assert(0 <= a * (2 * n - a - 1) && a * (2 * n - a - 1) + 2 * n <= 2 * n * n)
        by (nonlinear_arith)
        requires
            0 <= a,
            a + 1 < n,
    ;
    assert(2 * n <= 2 * n * n) by (nonlinear_arith)
        requires
            n >= 1,
    ;
    let at: usize = a * (2 * n - a - 1) / 2 + (b - a - 1);
    if at < n_reports {
        Cell::Report(at)
    } else {
        Cell::Unknown
    }
}

/// A visible Latin character or a space.
pub open spec fn shows(c: char) -> bool {
    ('!' <= c && c <= '~') || c == ' '
}

/// The label of a token: its character, where it has one that shows, else its number.
pub open spec fn label_of(tok: int, char_map: Option<Seq<char>>) -> Seq<char> {
    match char_map {
        Some(map) => if tok < map.len() && shows(map[tok]) {
            seq![map[tok]]
        } else {
            "t"@ + decimal(tok as nat)
        },
        None => "t"@ + decimal(tok as nat),
    }
}

fn token_label(tok: usize, shown: Option<char>) -> (label: String)
    ensures
        label@ == (match shown {
            Some(c) => seq![c],
            None => "t"@ + decimal(tok as nat),
        }),
{
    match shown {
        Some(c) => {
            let mut label: String = String::new();
            label.push(c);
            assert(label@ =~= seq![c]);
            label
        },
        None => {
            let mut label: String = owned("t");
            append_decimal(&mut label, tok);
            label
        },
    }
}

/// The labels of a vocabulary.
pub fn vocab_labels(vocab: usize, char_map: Option<&Vec<char>>) -> (labels: Vec<String>)
    ensures
        texts(labels@) == Seq::new(
            vocab as nat,
            |t: int|
                label_of(
                    t,
                    match char_map {
                        Some(map) => Some(map@),
                        None => None,
                    },
                ),
        ),
{
    let ghost map = match char_map {
        Some(map) => Some(map@),
        None => None,
    };
    let mut labels: Vec<String> = Vec::new();
    let mut t: usize = 0;
    while t < vocab
        invariant
            t <= vocab,
            map == (match char_map {
                Some(map) => Some(map@),
                None => None,
            }),
            texts(labels@) == Seq::new(t as nat, |k: int| label_of(k, map)),
        decreases vocab - t,
    {
        let shown: Option<char> = match char_map {
            Some(map) => if t < map.len() && (('!' <= map[t] && map[t] <= '~') || map[t] == ' ') {
                Some(map[t])
            } else {
                None
            },
            None => None,
        };
        let ghost before = texts(labels@);
        let label: String = token_label(t, shown);
        assert(label@ == label_of(t as int, map));
        labels.push(label);
        assert(texts(labels@) =~= before.push(label@));
        t += 1;
        assert(texts(labels@) =~= Seq::new(t as nat, |k: int| label_of(k, map)));
    }
    assert(texts(labels@) =~= Seq::new(vocab as nat, |t: int| label_of(t, map)));
    labels
}

/// How often a relationship was matched.
pub open spec fn matches_of(found: Seq<Option<RelationType>>, rel: RelationType) -> nat
    decreases found.len(),
{
    if found.len() == 0 {
        0
    } else {
        matches_of(found.drop_last(), rel) + (if found.last() == Some(rel) {
            1nat
        } else {
            0
        })
    }
}

/// The relationships, numbered.
pub open spec fn relation_at(i: int) -> RelationType {
    if i == 0 {
        RelationType::Conjunction
    } else if i == 1 {
        RelationType::Opposition
    } else if i == 2 {
        RelationType::Trine
    } else if i == 3 {
        RelationType::Square
    } else if i == 4 {
        RelationType::Quintile
    } else if i == 5 {
        RelationType::Sextile
    } else if i == 6 {
        RelationType::SemiSquare
    } else if i == 7 {
        RelationType::SemiSextile
    } else if i == 8 {
        RelationType::Quincunx
    } else if i == 9 {
        RelationType::Sesquiquadrate
    } else if i == 10 {
        RelationType::BiQuintile
    } else {
        RelationType::Quartet
    }
}

fn numbered_relation(i: usize) -> (rel: RelationType)
    ensures
        rel == relation_at(i as int),
{
    match i {
        0 => RelationType::Conjunction,
        1 => RelationType::Opposition,
        2 => RelationType::Trine,
        3 => RelationType::Square,
        4 => RelationType::Quintile,
        5 => RelationType::Sextile,
        6 => RelationType::SemiSquare,
        7 => RelationType::SemiSextile,
        8 => RelationType::Quincunx,
        9 => RelationType::Sesquiquadrate,
        10 => RelationType::BiQuintile,
        _ => RelationType::Quartet,
    }
}

/// Every relationship has a number.
proof fn lemma_relation_numbered(rel: RelationType) -> (i: int)
    ensures
        0 <= i < 12,
        relation_at(i) == rel,
{
    match rel {
        RelationType::Conjunction => 0,
        RelationType::Opposition => 1,
        RelationType::Trine => 2,
        RelationType::Square => 3,
        RelationType::Quintile => 4,
        RelationType::Sextile => 5,
        RelationType::SemiSquare => 6,
        RelationType::SemiSextile => 7,
        RelationType::Quincunx => 8,
        RelationType::Sesquiquadrate => 9,
        RelationType::BiQuintile => 10,
        RelationType::Quartet => 11,
    }
}

fn count_matches(found: &[Option<RelationType>], rel: RelationType) -> (n: usize)
    ensures
        n == matches_of(found@, rel),
{
    let total: usize = found.len();
    let mut n: usize = 0;
    let mut i: usize = 0;
    while i < total
        invariant
            total == found@.len(),
            i <= total,
            n <= i,
            n == matches_of(found@.take(i as int), rel),
        decreases total - i,
    {
        assert(found@.take(i + 1).drop_last() =~= found@.take(i as int));
        match found[i] {
            Some(r) => {
                if r == rel {
                    n += 1;
                }
            },
            None => {},
        }
        i += 1;
    }
    assert(found@.take(total as int) =~= found@);
    n
}

/// Counts ordered from the most frequent down.
pub open spec fn ranked(out: Seq<(RelationType, usize)>) -> bool {
    forall|i: int, j: int| 0 <= i < j < out.len() ==> (#[trigger] out[i]).1 >= (#[trigger] out[j]).1
}

/// Every count belongs to a relationship that occurs, and no relationship occurs
/// twice.
pub open spec fn counts(out: Seq<(RelationType, usize)>, found: Seq<Option<RelationType>>) -> bool {
    &&& forall|i: int|
        0 <= i < out.len() ==> (#[trigger] out[i]).1 == matches_of(found, out[i].0) && out[i].1 > 0
    &&& forall|i: int, j: int|
        0 <= i < j < out.len() ==> (#[trigger] out[i]).0 != (#[trigger] out[j]).0
}

/// A relationship is listed.
pub open spec fn listed(out: Seq<(RelationType, usize)>, rel: RelationType) -> bool {
    exists|i: int| 0 <= i < out.len() && (#[trigger] out[i]).0 == rel
}

/// How often each relationship was matched, from the most frequent down.
pub fn catalog_distribution(found: &[Option<RelationType>]) -> (out: Vec<(RelationType, usize)>)
    ensures
        ranked(out@),
        counts(out@, found@),
        forall|rel: RelationType| matches_of(found@, rel) > 0 ==> #[trigger] listed(out@, rel),
{
    let mut out: Vec<(RelationType, usize)> = Vec::new();
    let mut k: usize = 0;
    while k < 12
        invariant
            k <= 12,
            ranked(out@),
            counts(out@, found@),
            forall|i: int|
                0 <= i < out@.len() ==> exists|q: int|
                    0 <= q < k && #[trigger] relation_at(q) == (#[trigger] out@[i]).0,
            forall|q: int|
                0 <= q < k && matches_of(found@, #[trigger] relation_at(q)) > 0 ==> listed(
                    out@,
                    relation_at(q),
                ),
        decreases 12 - k,
    {
        let rel: RelationType = numbered_relation(k);
        let n: usize = count_matches(found, rel);
        if n > 0 {
            let len: usize = out.len();
            let mut at: usize = 0;
            while at < len && out[at].1 >= n
                invariant
                    len == out@.len(),
                    at <= len,
                    forall|i: int| 0 <= i < at ==> (#[trigger] out@[i]).1 >= n,
                decreases len - at,
            {
                at += 1;
            }
            let ghost before = out@;
            assert forall|i: int| 0 <= i < before.len() implies (#[trigger] before[i]).0 != rel by {
                let q = choose|q: int| 0 <= q < k && #[trigger] relation_at(q) == before[i].0;
            }
            assert(forall|i: int| at <= i < len ==> (#[trigger] before[i]).1 <= n);
            out.insert(at, (rel, n));
            proof {
                lemma_inserted(before, out@, at as int, rel, n, found@);
                assert forall|i: int| 0 <= i < out@.len() implies exists|q: int|
                    0 <= q < k + 1 && #[trigger] relation_at(q) == (#[trigger] out@[i]).0 by {
                    if i < at {
                        assert(out@[i] == before[i]);
                    } else if i > at {
                        assert(out@[i] == before[i - 1]);
                    } else {
                        assert(relation_at(k as int) == out@[i].0);
                    }
                }
                assert forall|q: int|
                    0 <= q < k + 1 && matches_of(found@, #[trigger] relation_at(q)) > 0 implies listed(
                    out@,
                    relation_at(q),
                ) by {
                    if q == k {
                        assert(out@[at as int].0 == rel);
                    } else {
                        assert(listed(before, relation_at(q)));
                        let i = choose|i: int|
                            0 <= i < before.len() && (#[trigger] before[i]).0 == relation_at(q);
                        if i < at {
                            assert(out@[i] == before[i]);
                        } else {
                            assert(out@[i + 1] == before[i]);
                        }
                    }
                }
            }
        }
        k += 1;
    }
    proof {
        assert forall|rel: RelationType| matches_of(found@, rel) > 0 implies #[trigger] listed(
            out@,
            rel,
        ) by {
            let q = lemma_relation_numbered(rel);
            assert(listed(out@, relation_at(q)));
        }
    }
    out
}

/// Putting a new count in its place keeps the list in order.
proof fn lemma_inserted(
    before: Seq<(RelationType, usize)>,
    after: Seq<(RelationType, usize)>,
    at: int,
    rel: RelationType,
    n: usize,
    found: Seq<Option<RelationType>>,
)
    requires
        0 <= at <= before.len(),
        after == before.insert(at, (rel, n)),
        ranked(before),
        counts(before, found),
        n > 0,
        n == matches_of(found, rel),
        forall|i: int| 0 <= i < at ==> (#[trigger] before[i]).1 >= n,
        forall|i: int| at <= i < before.len() ==> (#[trigger] before[i]).1 <= n,
        forall|i: int| 0 <= i < before.len() ==> (#[trigger] before[i]).0 != rel,
    ensures
        ranked(after),
        counts(after, found),
{
    assert forall|i: int| 0 <= i < after.len() implies (#[trigger] after[i]) == (if i < at {
        before[i]
    } else if i == at {
        (rel, n)
    } else {
        before[i - 1]
    }) by {}
}

/// A text with the characters escaped that labels of profiles may hold.
pub open spec fn quoted_char(c: char) -> Seq<char> {
    if c == '\\' {
        seq!['\\', '\\']
    } else if c == '"' {
        seq!['\\', '"']
    } else if c == '\n' {
        seq!['\\', 'n']
    } else {
        seq![c]
    }
}

/// A label with its backslashes, quotes and line breaks escaped.
pub open spec fn quoted(s: Seq<char>) -> Seq<char>
    decreases s.len(),
{
    if s.len() == 0 {
        Seq::empty()
    } else {
        quoted(s.drop_last()) + quoted_char(s.last())
    }
}

fn quote(s: &str) -> (out: String)
    ensures
        out@ == quoted(s@),
{
    let chars: Vec<char> = chars_of(s);
    let n: usize = chars.len();
    let mut out: String = String::new();
    let mut i: usize = 0;
    while i < n
        invariant
            chars@ == s@,
            n == chars@.len(),
            i <= n,
            out@ == quoted(s@.take(i as int)),
        decreases n - i,
    {
        let c: char = chars[i];
        let ghost before = out@;
        if c == '\\' {
            out.push('\\');
            out.push('\\');
        } else if c == '"' {
            out.push('\\');
            out.push('"');
        } else if c == '\n' {
            out.push('\\');
            out.push('n');
        } else {
            out.push(c);
        }
        assert(out@ =~= before + quoted_char(c));
        assert(s@.take(i + 1).drop_last() =~= s@.take(i as int));
        i += 1;
    }
    assert(s@.take(n as int) =~= s@);
    out
}

/// A comma where another entry follows.
pub open spec fn comma_if(more: bool) -> Seq<char> {
    if more {
        ","@
    } else {
        ""@
    }
}

fn append_comma(out: &mut String, more: bool)
    ensures
        final(out)@ == old(out)@ + comma_if(more),
{
    if more {
        out.append(",");
    } else {
        out.append("");
    }
}

/// What is known of a pair, with its numbers printed.
pub struct PairResult {
    pub a: String,
    pub b: String,
    pub angle: String,
    pub catalog: Option<RelationType>,
    pub mrl: String,
    pub harmonic: usize,
    pub deform_sim: String,
}

/// The entry of a pair in the relations file.
pub open spec fn pair_text(p: PairResult, more: bool) -> Seq<char> {
    "    {\"a\":\""@ + escaped(p.a@) + "\",\"b\":\""@ + escaped(p.b@) + "\",\"angle\":"@ + p.angle@
        + ",\"catalog\":"@ + (match p.catalog {
        Some(rel) => "\""@ + rel.name_of() + "\""@,
        None => "null"@,
    }) + ",\"mrl\":"@ + p.mrl@ + ",\"harm\":"@ + decimal(p.harmonic as nat)
        + ",\"deform_sim\":"@ + p.deform_sim@ + "}"@ + comma_if(more) + "\n"@
}

/// The entry of a pair in the relations file.
pub fn pair_entry(p: &PairResult, more: bool) -> (out: String)
    ensures
        out@ == pair_text(*p, more),
{
    let catalog: String = match p.catalog {
        Some(rel) => {
            let mut c: String = owned("\"");
            c.append(rel.name());
            c.append("\"");
            c
        },
        None => owned("null"),
    };
    let mut out: String = owned("    {\"a\":\"");
    out.append(escape(p.a.as_str()).as_str());
    out.append("\",\"b\":\"");
    out.append(escape(p.b.as_str()).as_str());
    out.append("\",\"angle\":");
    out.append(p.angle.as_str());
    out.append(",\"catalog\":");
    out.append(catalog.as_str());
    out.append(",\"mrl\":");
    out.append(p.mrl.as_str());
    out.append(",\"harm\":");
    append_decimal(&mut out, p.harmonic);
    out.append(",\"deform_sim\":");
    out.append(p.deform_sim.as_str());
    out.append("}");
    append_comma(&mut out, more);
    out.append("\n");
    out
}

/// How a token's energy changed, with its numbers printed.
pub struct ProfileResult {
    pub label: String,
    pub total_energy_ratio: String,
    pub peak_band: usize,
    pub peak_ratio: String,
    pub damp_band: usize,
    pub damp_ratio: String,
}

/// The entry of a token in the relations file.
pub open spec fn profile_text(p: ProfileResult, more: bool) -> Seq<char> {
    "    {\"token\":\""@ + quoted(p.label@) + "\",\"total_energy_ratio\":"@ + p.total_energy_ratio@
        + ",\"peak_band\":"@ + decimal(p.peak_band as nat) + ",\"peak_ratio\":"@ + p.peak_ratio@
        + ",\"damp_band\":"@ + decimal(p.damp_band as nat) + ",\"damp_ratio\":"@ + p.damp_ratio@
        + "}"@ + comma_if(more) + "\n"@
}

/// The entry of a token in the relations file.
pub fn profile_entry(p: &ProfileResult, more: bool) -> (out: String)
    ensures
        out@ == profile_text(*p, more),
{
    let mut out: String = owned("    {\"token\":\"");
    out.append(quote(p.label.as_str()).as_str());
    out.append("\",\"total_energy_ratio\":");
    out.append(p.total_energy_ratio.as_str());
    out.append(",\"peak_band\":");
    append_decimal(&mut out, p.peak_band);
    out.append(",\"peak_ratio\":");
    out.append(p.peak_ratio.as_str());
    out.append(",\"damp_band\":");
    append_decimal(&mut out, p.damp_band);
    out.append(",\"damp_ratio\":");
    out.append(p.damp_ratio.as_str());
    out.append("}");
    append_comma(&mut out, more);
    out.append("\n");
    out
}

/// The entries of the first `n` relationships of a distribution.
pub open spec fn distribution_text(dist: Seq<(RelationType, usize)>, n: int) -> Seq<char>
    decreases n,
{
    if n <= 0 {
        Seq::empty()
    } else {
        distribution_text(dist, n - 1) + ("    \""@ + dist[n - 1].0.name_of() + "\": "@ + decimal(
            dist[n - 1].1 as nat,
        ) + comma_if(n < dist.len()) + "\n"@)
    }
}

/// The entries of the first `n` pairs.
pub open spec fn pairs_text(p: Seq<PairResult>, n: int) -> Seq<char>
    decreases n,
{
    if n <= 0 {
        Seq::empty()
    } else {
        pairs_text(p, n - 1) + pair_text(p[n - 1], n < p.len())
    }
}

/// The entries of the first `n` tokens.
pub open spec fn profiles_text(p: Seq<ProfileResult>, n: int) -> Seq<char>
    decreases n,
{
    if n <= 0 {
        Seq::empty()
    } else {
        profiles_text(p, n - 1) + profile_text(p[n - 1], n < p.len())
    }
}

/// The relations file of a vocabulary.
pub open spec fn relations_text(
    vocab: nat,
    dist: Seq<(RelationType, usize)>,
    p: Seq<PairResult>,
    profiles: Option<Seq<ProfileResult>>,
) -> Seq<char> {
    "{\n  \"vocab_size\": "@ + decimal(vocab) + ",\n  \"total_pairs\": "@ + decimal(p.len())
        + ",\n"@ + "  \"catalog_distribution\": {\n"@ + distribution_text(dist, dist.len() as int)
        + "  },\n  \"pairs\": [\n"@ + pairs_text(p, p.len() as int) + "  ]"@ + (match profiles {
        Some(q) => ",\n  \"energy_profiles\": [\n"@ + profiles_text(q, q.len() as int) + "  ]"@,
        None => ""@,
    }) + "\n}\n"@
}

fn append_distribution(out: &mut String, dist: &[(RelationType, usize)])
    ensures
        final(out)@ == old(out)@ + distribution_text(dist@, dist@.len() as int),
{
    let n: usize = dist.len();
    let mut i: usize = 0;
    assert(out@ =~= old(out)@ + distribution_text(dist@, 0));
    while i < n
        invariant
            n == dist@.len(),
            i <= n,
            out@ == old(out)@ + distribution_text(dist@, i as int),
        decreases n - i,
    {
        let ghost before = out@;
        let (rel, count): (RelationType, usize) = dist[i];
        out.append("    \"");
        out.append(rel.name());
        out.append("\": ");
        append_decimal(out, count);
        append_comma(out, i + 1 < n);
        out.append("\n");
        i += 1;
        assert(out@ =~= old(out)@ + distribution_text(dist@, i as int));
    }
}

fn append_pairs(out: &mut String, p: &Vec<PairResult>)
    ensures
        final(out)@ == old(out)@ + pairs_text(p@, p@.len() as int),
{
    let n: usize = p.len();
    let mut i: usize = 0;
    assert(out@ =~= old(out)@ + pairs_text(p@, 0));
    while i < n
        invariant
            n == p@.len(),
            i <= n,
            out@ == old(out)@ + pairs_text(p@, i as int),
        decreases n - i,
    {
        out.append(pair_entry(&p[i], i + 1 < n).as_str());
        i += 1;
        assert(out@ =~= old(out)@ + pairs_text(p@, i as int));
    }
}

fn append_profiles(out: &mut String, p: &Vec<ProfileResult>)
    ensures
        final(out)@ == old(out)@ + profiles_text(p@, p@.len() as int),
{
    let n: usize = p.len();
    let mut i: usize = 0;
    assert(out@ =~= old(out)@ + profiles_text(p@, 0));
    while i < n
        invariant
            n == p@.len(),
            i <= n,
            out@ == old(out)@ + profiles_text(p@, i as int),
        decreases n - i,
    {
        out.append(profile_entry(&p[i], i + 1 < n).as_str());
        i += 1;
        assert(out@ =~= old(out)@ + profiles_text(p@, i as int));
    }
}

/// The relations file of a vocabulary. The pairs come in the order in which they are
/// to be written.
pub fn vocab_relations_json(
    vocab: usize,
    dist: &[(RelationType, usize)],
    pairs: &Vec<PairResult>,
    profiles: Option<&Vec<ProfileResult>>,
) -> (out: String)
    ensures
        out@ == relations_text(
            vocab as nat,
            dist@,
            pairs@,
            match profiles {
                Some(q) => Some(q@),
                None => None,
            },
        ),
{
    let mut out: String = owned("{\n  \"vocab_size\": ");
    append_decimal(&mut out, vocab);
    out.append(",\n  \"total_pairs\": ");
    append_decimal(&mut out, pairs.len());
    out.append(",\n");
    out.append("  \"catalog_distribution\": {\n");
    append_distribution(&mut out, dist);
    out.append("  },\n  \"pairs\": [\n");
    append_pairs(&mut out, pairs);
    out.append("  ]");
    let ghost head = out@;
    match profiles {
        Some(q) => {
            out.append(",\n  \"energy_profiles\": [\n");
            append_profiles(&mut out, q);
            out.append("  ]");
            assert(out@ =~= head + (",\n  \"energy_profiles\": [\n"@ + profiles_text(
                q@,
                q@.len() as int,
            ) + "  ]"@));
        },
        None => {
            out.append("");
        },
    }
    out.append("\n}\n");
    out
}

/// A band and the text of its phase, out of one part of a phase list.
pub open spec fn raw_phase_of(piece: Seq<char>) -> Option<(usize, Seq<char>)> {
    let at = colon_in(piece, 0);
    if at >= piece.len() {
        None
    } else {
        match parsed(trimmed(piece.subrange(0, at))) {
            Some(band) => Some((band, trimmed(piece.subrange(at + 1, piece.len() as int)))),
            None => None,
        }
    }
}

/// The bands and phase texts of a phase list.
pub open spec fn raw_phases_of(parts: Seq<Seq<char>>) -> Seq<(usize, Seq<char>)>
    decreases parts.len(),
{
    if parts.len() == 0 {
        Seq::empty()
    } else {
        let rest = raw_phases_of(parts.drop_last());
        match raw_phase_of(parts.last()) {
            Some(r) => rest.push(r),
            None => rest,
        }
    }
}

/// What a list of bands and texts holds.
pub open spec fn raw_views(list: Seq<(usize, String)>) -> Seq<(usize, Seq<char>)> {
    list.map_values(|r: (usize, String)| (r.0, r.1@))
}

fn raw_phase(piece: &[char]) -> (result: Option<(usize, String)>)
    ensures
        match result {
            Some(r) => raw_phase_of(piece@) == Some((r.0, r.1@)),
            None => raw_phase_of(piece@) is None,
        },
{
    let n: usize = piece.len();
    let mut at: usize = 0;
    while at < n && piece[at] != ':'
        invariant
            n == piece@.len(),
            at <= n,
            colon_in(piece@, 0) == colon_in(piece@, at as int),
        decreases n - at,
    {
        at += 1;
    }
    assert(colon_in(piece@, 0) == at);
    if at == n {
        return None;
    }
    let band: Vec<char> = trim(&part(piece, 0, at));
    let phase: Vec<char> = trim(&part(piece, at + 1, n));
    match parse_number(&band) {
        Some(b) => Some((b, string_of(&phase))),
        None => None,
    }
}

/// Reads a phase list such as `10:1.047,20:2.094` into bands and the texts of their
/// phases. Parts without a band are left out.
pub fn parse_raw_phases(s: &str) -> (out: Vec<(usize, String)>)
    ensures
        raw_views(out@) == raw_phases_of(pieces(s@, ',')),
{
    let chars: Vec<char> = chars_of(s);
    let parts: Vec<Vec<char>> = split(&chars, ',');
    let n: usize = parts.len();
    let mut out: Vec<(usize, String)> = Vec::new();
    let mut i: usize = 0;
    assert(raw_views(out@) =~= Seq::<(usize, Seq<char>)>::empty());
    while i < n
        invariant
            n == parts@.len(),
            i <= n,
            raw_views(out@) == raw_phases_of(views(parts@).take(i as int)),
        decreases n - i,
    {
        let ghost all = views(parts@);
        assert(all.take(i + 1).drop_last() =~= all.take(i as int));
        assert(all.take(i + 1).last() == parts@[i as int]@);
        let ghost before = out@;
        match raw_phase(&parts[i]) {
            Some(r) => {
                out.push(r);
                assert(raw_views(out@) =~= raw_views(before).push((r.0, r.1@)));
            },
            None => {},
        }
        i += 1;
    }
    assert(views(parts@).take(n as int) =~= views(parts@));
    out
}

/// The name of a harmonic in a relationship report.
pub open spec fn harmonic_name(n: int) -> Seq<char> {
    if n == 1 {
        "identity"@
    } else if n == 2 {
        "opposition"@
    } else if n == 3 {
        "trine"@
    } else if n == 4 {
        "square"@
    } else if n == 5 {
        "quintile"@
    } else if n == 6 {
        "sextile"@
    } else if n == 8 {
        "semi-square"@
    } else if n == 12 {
        "semi-sextile"@
    } else {
        "other"@
    }
}

/// The name of a harmonic in a relationship report.
pub fn harmonic_label(n: usize) -> (s: &'static str)
    ensures
        s@ == harmonic_name(n as int),
{
    match n {
        1 => "identity",
        2 => "opposition",
        3 => "trine",
        4 => "square",
        5 => "quintile",
        6 => "sextile",
        8 => "semi-square",
        12 => "semi-sextile",
        _ => "other",
    }
}

} // verus!
