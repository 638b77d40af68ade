//! Architecture calculator: which configuration suits a data set.
//!
//! Two bottlenecks have to be met at once: bands, for telling tokens apart, and
//! attention heads, for telling positions apart.

use std::collections::BTreeSet;
use vstd::prelude::*;
use vstd::string::*;
use vstd::utf8::*;
use crate::json::{number, owned, texts};
use crate::text::{append_decimal, chars_of, decimal, digit_char, same_text};

verus! {

/// Fewest bands that are ever recommended.
pub const MIN_BANDS: usize = 42;

/// What a model is trained on.
#[derive(Clone, Copy, Debug, PartialEq, Eq, Structural)]
pub enum TaskType {
    Arithmetic,
    Words,
    Grammar,
    Language,
}

impl TaskType {
    /// The usual window length of a task.
    pub open spec fn seq_of(self) -> int {
        match self {
            TaskType::Arithmetic | TaskType::Words => 16,
            TaskType::Grammar | TaskType::Language => 256,
        }
    }

    /// The usual depth for a task.
    pub open spec fn layers_of(self) -> int {
        match self {
            TaskType::Arithmetic | TaskType::Words => 4,
            TaskType::Grammar => 6,
            TaskType::Language => 8,
        }
    }

    /// The name of a task.
    pub open spec fn name_of(self) -> Seq<char> {
        match self {
            TaskType::Arithmetic => "arithmetic"@,
            TaskType::Words => "words"@,
            TaskType::Grammar => "grammar"@,
            TaskType::Language => "language"@,
        }
    }

    /// The task that a name or its short form stands for.
    pub open spec fn named(s: Seq<char>) -> Option<TaskType> {
        if s == "arithmetic"@ || s == "arith"@ {
            Some(TaskType::Arithmetic)
        } else if s == "words"@ || s == "word"@ {
            Some(TaskType::Words)
        } else if s == "grammar"@ || s == "gram"@ {
            Some(TaskType::Grammar)
        } else if s == "language"@ || s == "lang"@ {
            Some(TaskType::Language)
        } else {
            None
        }
    }

    /// The usual window length of the task.
    pub fn default_seq(&self) -> (n: usize)
        ensures
            n == self.seq_of(),
    {
        match self {
            TaskType::Arithmetic | TaskType::Words => 16,
            TaskType::Grammar | TaskType::Language => 256,
        }
    }

    /// The usual depth for the task.
    pub fn base_layers(&self) -> (n: usize)
        ensures
            n == self.layers_of(),
    {
        match self {
            TaskType::Arithmetic | TaskType::Words => 4,
            TaskType::Grammar => 6,
            TaskType::Language => 8,
        }
    }

    /// The name of the task.
    pub fn name(&self) -> (s: &'static str)
        ensures
            s@ == self.name_of(),
    {
        match self {
            TaskType::Arithmetic => "arithmetic",
            TaskType::Words => "words",
            TaskType::Grammar => "grammar",
            TaskType::Language => "language",
        }
    }

    /// The task of a name or its short form.
    pub fn from_str(s: &str) -> (task: Option<TaskType>)
        ensures
            task == TaskType::named(s@),
    {
        if same_text(s, "arithmetic") || same_text(s, "arith") {
            Some(TaskType::Arithmetic)
        } else if same_text(s, "words") || same_text(s, "word") {
            Some(TaskType::Words)
        } else if same_text(s, "grammar") || same_text(s, "gram") {
            Some(TaskType::Grammar)
        } else if same_text(s, "language") || same_text(s, "lang") {
            Some(TaskType::Language)
        } else {
            None
        }
    }
}

/// A task is found again by its name.
pub proof fn law_task_named_by_name(t: TaskType)
    ensures
        TaskType::named(t.name_of()) == Some(t),
{
    reveal_strlit("arithmetic");
    reveal_strlit("arith");
    reveal_strlit("words");
    reveal_strlit("word");
    reveal_strlit("grammar");
    reveal_strlit("gram");
    reveal_strlit("language");
    reveal_strlit("lang");
    assert("arithmetic"@.len() == 10 && "language"@.len() == 8 && "grammar"@.len() == 7);
    assert("words"@.len() == 5 && "arith"@.len() == 5 && "word"@.len() == 4);
    assert("words"@[0] == 'w' && "arith"@[0] == 'a');
}

/// `d` divides `n`.
pub open spec fn divides(d: int, n: int) -> bool {
    exists|k: int| n == #[trigger] (d * k)
}

/// `d` divides both numbers.
pub open spec fn common(d: int, a: int, b: int) -> bool {
    divides(d, a) && divides(d, b)
}

/// `g` is the greatest common divisor of two numbers: a common divisor that every
/// other divides.
pub open spec fn is_gcd(g: int, a: int, b: int) -> bool {
    &&& common(g, a, b)
    &&& forall|d: int| #[trigger] common(d, a, b) ==> divides(d, g)
}

/// One step of Euclid's algorithm keeps the common divisors.
proof fn lemma_euclid_step(d: int, a: int, b: int)
    requires
        b > 0,
        a >= 0,
    ensures
        common(d, a, b) == common(d, b, a % b),
{
    let q = a / b;
    let r = a % b;
    vstd::arithmetic::div_mod::lemma_fundamental_div_mod(a, b);
    if common(d, a, b) {
        let x = choose|k: int| a == #[trigger] (d * k);
        let y = choose|k: int| b == #[trigger] (d * k);
        assert(r == d * (x - y * q)) by (nonlinear_arith)
            requires
                a == d * x,
                b == d * y,
                a == b * q + r,
        ;
        assert(divides(d, r));
    }
    if common(d, b, r) {
        let x = choose|k: int| b == #[trigger] (d * k);
        let y = choose|k: int| r == #[trigger] (d * k);
        assert(a == d * (x * q + y)) by (nonlinear_arith)
            requires
                b == d * x,
                r == d * y,
                a == b * q + r,
        ;
        assert(divides(d, a));
    }
}

/// The greatest common divisor.
pub fn gcd(a: usize, b: usize) -> (g: usize)
    ensures
        is_gcd(g as int, a as int, b as int),
{
    let mut x: usize = a;
    let mut y: usize = b;
    while y != 0
        invariant
            forall|d: int| #[trigger]
                common(d, a as int, b as int) == common(d, x as int, y as int),
        decreases y,
    {
        let t: usize = y;
        y = x % y;
        proof {
            assert forall|d: int| #[trigger]
                common(d, a as int, b as int) == common(d, t as int, y as int) by {
                lemma_euclid_step(d, x as int, t as int);
            }
        }
        x = t;
    }
    proof {
        assert(x == x * 1);
        assert(0int == x * 0) by (nonlinear_arith);
        assert(divides(x as int, x as int));
        assert(divides(x as int, 0));
        assert(common(x as int, x as int, 0));
        assert(common(x as int, a as int, b as int));
        assert forall|d: int| #[trigger] common(d, a as int, b as int) implies divides(
            d,
            x as int,
        ) by {
            assert(common(d, x as int, 0));
        }
    }
    x
}

/// The least number whose square is at least `v`.
pub open spec fn is_ceil_root(r: int, v: int) -> bool {
    &&& r >= 0
    &&& r * r >= v
    &&& r > 0 ==> (r - 1) * (r - 1) < v
}

/// The square root, rounded up.
fn ceil_root(v: usize) -> (r: usize)
    ensures
        is_ceil_root(r as int, v as int),
        r <= v,
{
    let mut r: usize = 0;
    let wide: u128 = v as u128;
    while (r as u128) * (r as u128) < wide
        invariant
            wide == v,
            0 <= r <= v,
            0 <= r * r <= u128::MAX,
            r > 0 ==> (r - 1) * (r - 1) < v,
        decreases v - r,
    {
        assert(r * r >= r || r == 0) by (nonlinear_arith)
            requires
                r >= 0,
        ;
        assert((r + 1 - 1) * (r + 1 - 1) == r * r);
        r += 1;
        assert(0 <= r * r <= 18446744073709551615 * 18446744073709551615) by (nonlinear_arith)
            requires
                0 <= r <= 18446744073709551615,
        ;
    }
    r
}

/// Two odd neighbours have no common divisor but one.
proof fn lemma_odd_neighbours(m: int)
    requires
        m > 0,
        m % 2 == 1,
    ensures
        is_gcd(1, m, m + 2),
{
    assert(m == 1 * m && m + 2 == 1 * (m + 2));
    assert(divides(1, m) && divides(1, m + 2));
    assert forall|d: int| #[trigger] common(d, m, m + 2) implies divides(d, 1) by {
        let x = choose|k: int| m == #[trigger] (d * k);
        let y = choose|k: int| m + 2 == #[trigger] (d * k);
        let z = y - x;
        assert(d * z == 2) by (nonlinear_arith)
            requires
                m == d * x,
                m + 2 == d * y,
                z == y - x,
        ;
        assert(d == 1 || d == -1 || d == 2 || d == -2) by (nonlinear_arith)
            requires
                d * z == 2,
        ;
        if d == 2 || d == -2 {
            assert(m % 2 == 0) by (nonlinear_arith)
                requires
                    m == d * x,
                    d == 2 || d == -2,
            ;
        }
        if d == 1 {
            assert(1 == d * 1);
        } else {
            assert(1 == d * (-1));
        }
    }
}

/// Two coprime moduli that tell all tokens of a vocabulary apart: the first is
/// the vocabulary's root, made odd, the second is two more.
pub fn find_coprime_moduli(vocab_size: usize) -> (m: (usize, usize))
    ensures
        m.0 % 2 == 1,
        is_ceil_root(m.0 as int, vocab_size as int) || is_ceil_root(m.0 - 1, vocab_size as int),
        m.1 == m.0 + 2,
        is_gcd(1, m.0 as int, m.1 as int),
        m.0 * m.1 >= vocab_size,
{
    let root: usize = ceil_root(vocab_size);
    assert(root <= usize::MAX - 3) by (nonlinear_arith)
        requires
            root > 0 ==> (root - 1) * (root - 1) < usize::MAX,
            usize::MAX >= 65535,
    ;
    let m1: usize = if root % 2 == 0 {
        root + 1
    } else {
        root
    };
    let m2: usize = m1 + 2;
    proof {
        lemma_odd_neighbours(m1 as int);
        assert(m1 * m2 >= root * root) by (nonlinear_arith)
            requires
                m1 >= root >= 0,
                m2 >= root,
        ;
    }
    (m1, m2)
}

/// Bands that carry some phase on both grids: on each grid one half-band in every
/// modulus is dead.
pub fn compute_active_bands(n_bands: usize, m1: usize, m2: usize) -> (active: usize)
    requires
        m1 > 0,
        m2 > 0,
    ensures
        active == n_bands - (n_bands / 2) / m1 - (n_bands / 2) / m2,
{
    let half: usize = n_bands / 2;
    assert(half / m1 <= half && half / m2 <= half) by (nonlinear_arith)
        requires
            m1 > 0,
            m2 > 0,
            half >= 0,
    ;
    n_bands - half / m1 - half / m2
}

/// Band counts that were tried out.
pub open spec fn practical_bands() -> Seq<int> {
    seq![42, 64, 84, 96, 128, 192, 256, 384, 512]
}

/// The least practical band count that is enough: out of the tried ones, or past
/// them a multiple of 64.
pub open spec fn practical(min_bands: int) -> int {
    if min_bands <= 42 {
        42
    } else if min_bands <= 64 {
        64
    } else if min_bands <= 84 {
        84
    } else if min_bands <= 96 {
        96
    } else if min_bands <= 128 {
        128
    } else if min_bands <= 192 {
        192
    } else if min_bands <= 256 {
        256
    } else if min_bands <= 384 {
        384
    } else if min_bands <= 512 {
        512
    } else {
        ((min_bands + 63) / 64) * 64
    }
}

/// The least practical band count that is enough.
pub fn next_practical(min_bands: usize) -> (n: usize)
    requires
        min_bands <= usize::MAX - 63,
    ensures
        n == practical(min_bands as int),
{
    let table: [usize; 9] = [42, 64, 84, 96, 128, 192, 256, 384, 512];
    let mut i: usize = 0;
    while i < 9
        invariant
            table@ == seq![42usize, 64, 84, 96, 128, 192, 256, 384, 512],
            i <= 9,
            forall|k: int| 0 <= k < i ==> #[trigger] table@[k] < min_bands,
        decreases 9 - i,
    {
        if table[i] >= min_bands {
            assert(forall|k: int| 0 <= k < i ==> #[trigger] table@[k] < min_bands);
            proof {
                lemma_practical_entry(min_bands as int, table@, i as int);
            }
            return table[i];
        }
        i += 1;
    }
    assert(table@[8] == 512);
    ((min_bands + 63) / 64) * 64
}

/// The first tried count that is enough is the practical one.
proof fn lemma_practical_entry(min_bands: int, table: Seq<usize>, i: int)
    requires
        table == seq![42usize, 64, 84, 96, 128, 192, 256, 384, 512],
        0 <= i < 9,
        table[i] >= min_bands,
        forall|k: int| 0 <= k < i ==> #[trigger] table[k] < min_bands,
    ensures
        table[i] == practical(min_bands),
{
    if i > 0 {
        assert(table[i - 1] < min_bands);
    }
}

/// The practical band count is enough, and no tried count below it would be.
pub proof fn law_practical_is_least(min_bands: int, i: int)
    requires
        min_bands >= 0,
        0 <= i < practical_bands().len(),
    ensures
        practical(min_bands) >= min_bands,
        practical(min_bands) >= 42,
        practical_bands()[i] >= min_bands ==> practical(min_bands) <= practical_bands()[i],
{
}

/// Heads that share the embedding evenly, with at least 16 entries each.
pub open spec fn heads_fit(dim: int, h: int) -> bool {
    dim % h == 0 && dim / h >= 16
}

/// The head count is the least, from `min_heads` up, that fits; `min_heads` itself
/// where none does.
pub open spec fn is_head_choice(dim: int, min_heads: int, h: int) -> bool {
    if heads_fit(dim, h) {
        &&& h >= min_heads
        &&& forall|k: int| min_heads <= k < h ==> !#[trigger] heads_fit(dim, k)
    } else {
        &&& h == min_heads
        &&& forall|k: int| min_heads <= k ==> !#[trigger] heads_fit(dim, k)
    }
}

/// Number of heads and entries per head.
pub fn find_head_config(dim: usize, min_heads: usize) -> (config: (usize, usize))
    requires
        min_heads > 0,
    ensures
        is_head_choice(dim as int, min_heads as int, config.0 as int),
        config.1 == dim / config.0,
{
    let mut h: usize = min_heads;
    loop
        invariant
            0 < min_heads <= h,
            forall|k: int| min_heads <= k < h ==> !#[trigger] heads_fit(dim as int, k),
        decreases (if h <= dim { dim - h + 1 } else { 0 }),
    {
        if dim % h == 0 {
            let hd: usize = dim / h;
            if hd >= 16 {
                assert(heads_fit(dim as int, h as int));
                return (h, hd);
            }
        }
        assert(!heads_fit(dim as int, h as int));
        if h >= dim {
            proof {
                assert forall|k: int| min_heads <= k implies !#[trigger] heads_fit(
                    dim as int,
                    k,
                ) by {
                    if k > h {
                        lemma_more_heads_than_entries(dim as int, k);
                    }
                }
            }
            return (min_heads, dim / min_heads);
        }
        h += 1;
    }
}

/// More heads than entries never fit.
proof fn lemma_more_heads_than_entries(dim: int, k: int)
    requires
        0 <= dim < k,
    ensures
        !heads_fit(dim, k),
{
    assert(dim / k == 0) by (nonlinear_arith)
        requires
            0 <= dim < k,
    ;
}

/// Estimated parameters of a block: attention, oscillators, regulator, norms and output
/// projection.
pub open spec fn block_estimate(n_bands: int) -> int {
    let dim = 2 * n_bands;
    4 * dim * dim + (2 + n_bands) + 4 * dim + 4 * dim + dim * dim
}

/// Estimated parameters of a model without an output head.
pub open spec fn params_estimate(n_bands: int, n_layers: int) -> int {
    block_estimate(n_bands) * n_layers + n_bands
}

/// Estimated parameters of a model; heads do not change the count.
pub fn estimate_params(n_bands: usize, n_head: usize, n_layers: usize) -> (n: usize)
    requires
        block_estimate(n_bands as int) <= usize::MAX,
        params_estimate(n_bands as int, n_layers as int) <= usize::MAX,
    ensures
        n == params_estimate(n_bands as int, n_layers as int),
{
    let ghost b = n_bands as int;
    assert(4 * (2 * b) * (2 * b) >= 8 * b && (2 * b) * 4 * (2 * b) == 4 * (2 * b) * (2 * b) && (2
        * b) * (2 * b) >= 0) by (nonlinear_arith)
        requires
            b >= 0,
    ;
    assert(block_estimate(b) * n_layers >= 0) by (nonlinear_arith)
        requires
            block_estimate(b) >= 0,
            n_layers >= 0,
    ;
    let dim: usize = n_bands * 2;
    let per_block: usize = 4 * dim * dim + (2 + n_bands) + 4 * dim + 4 * dim + dim * dim;
    per_block * n_layers + n_bands
}

/// The last three digits of a number.
pub open spec fn three_digits(n: nat) -> Seq<char> {
    seq![
        digit_char((n / 100 % 10) as int),
        digit_char((n / 10 % 10) as int),
        digit_char((n % 10) as int),
    ]
}

/// A number with a comma before every group of three digits.
pub open spec fn grouped(n: nat) -> Seq<char>
    decreases n,
{
    if n < 1000 {
        decimal(n)
    } else {
        grouped(n / 1000) + seq![','] + three_digits(n)
    }
}

fn append_grouped(out: &mut String, n: usize)
    ensures
        final(out)@ == old(out)@ + grouped(n as nat),
    decreases n,
{
    if n < 1000 {
        append_decimal(out, n);
    } else {
        append_grouped(out, n / 1000);
        out.push(',');
        out.push((48u8 + (n / 100 % 10) as u8) as char);
        out.push((48u8 + (n / 10 % 10) as u8) as char);
        out.push((48u8 + (n % 10) as u8) as char);
        assert(out@ =~= old(out)@ + grouped(n as nat));
    }
}

/// A number with commas between thousands.
pub fn format_number(n: usize) -> (out: String)
    ensures
        out@ == grouped(n as nat),
{
    let mut out: String = String::new();
    append_grouped(&mut out, n);
    assert(out@ =~= grouped(n as nat));
    out
}

/// A text without its commas.
pub open spec fn without_commas(s: Seq<char>) -> Seq<char>
    decreases s.len(),
{
    if s.len() == 0 {
        Seq::empty()
    } else if s.last() == ',' {
        without_commas(s.drop_last())
    } else {
        without_commas(s.drop_last()).push(s.last())
    }
}

proof fn lemma_without_commas_append(a: Seq<char>, b: Seq<char>)
    ensures
        without_commas(a + b) == without_commas(a) + without_commas(b),
    decreases b.len(),
{
    if b.len() == 0 {
        assert(a + b =~= a);
        assert(without_commas(a) + without_commas(b) =~= without_commas(a));
    } else {
        lemma_without_commas_append(a, b.drop_last());
        assert((a + b).drop_last() =~= a + b.drop_last());
        assert(without_commas(a + b) =~= without_commas(a) + without_commas(b));
    }
}

proof fn lemma_decimal_has_no_comma(n: nat)
    ensures
        without_commas(decimal(n)) == decimal(n),
    decreases n,
{
    let d = decimal(n);
    reveal_with_fuel(without_commas, 2);
    if n < 10 {
        assert(d.drop_last() =~= Seq::empty());
        assert(without_commas(d) =~= d);
    } else {
        lemma_decimal_has_no_comma(n / 10);
        assert(d.drop_last() =~= decimal(n / 10));
        assert(without_commas(d) =~= d);
    }
}

/// Without its commas a grouped number is the plain number.
pub proof fn law_commas_only_separate(n: nat)
    ensures
        without_commas(grouped(n)) == decimal(n),
    decreases n,
{
    if n < 1000 {
        lemma_decimal_has_no_comma(n);
    } else {
        law_commas_only_separate(n / 1000);
        let head = grouped(n / 1000);
        let tail = three_digits(n);
        lemma_without_commas_append(head + seq![','], tail);
        lemma_without_commas_append(head, seq![',']);
        assert(without_commas(seq![',']) =~= Seq::<char>::empty()) by {
            reveal_with_fuel(without_commas, 2);
            assert(seq![','].drop_last() =~= Seq::<char>::empty());
        }
        reveal_with_fuel(without_commas, 4);
        assert(tail.drop_last() =~= seq![tail[0], tail[1]]);
        assert(tail.drop_last().drop_last() =~= seq![tail[0]]);
        assert(tail.drop_last().drop_last().drop_last() =~= Seq::<char>::empty());
        assert(without_commas(tail) =~= tail);
        assert(n / 10 / 10 == n / 100 && n / 10 / 10 / 10 == n / 1000);
        reveal_with_fuel(decimal, 4);
        assert(decimal(n) == decimal(n / 10).push(tail[2]));
        assert(decimal(n / 10) == decimal(n / 100).push(tail[1]));
        assert(decimal(n / 100) == decimal(n / 1000).push(tail[0]));
        assert(decimal(n) =~= decimal(n / 1000) + tail);
        assert(without_commas(grouped(n)) =~= decimal(n / 1000) + tail);
    }
}

/// What a data set looks like.
pub struct DataProfile {
    pub file_path: String,
    /// Length of the text in bytes.
    pub corpus_chars: usize,
    /// Number of different characters.
    pub vocab_size: usize,
    pub task: TaskType,
    pub task_overridden: bool,
}

/// Where the line that starts at `at` ends.
pub open spec fn line_end(s: Seq<char>, at: int) -> int
    decreases s.len() - at,
{
    if at >= s.len() {
        s.len() as int
    } else if s[at] == '\n' {
        at
    } else {
        line_end(s, at + 1)
    }
}

/// The line that starts at `at`, without its line ending.
pub open spec fn line_at(s: Seq<char>, at: int) -> Seq<char> {
    let end = line_end(s, at);
    if at < end < s.len() && s[end - 1] == '\r' {
        s.subrange(at, end - 1)
    } else {
        s.subrange(at, end)
    }
}

/// A short line with an equals sign.
pub open spec fn short_equation(line: Seq<char>) -> bool {
    encode_utf8(line).len() < 20 && line.contains('=')
}

/// The first `n` lines from `at` on are all short lines with an equals sign.
pub open spec fn short_equations(s: Seq<char>, at: int, n: int) -> bool
    decreases n,
{
    n <= 0 || at >= s.len() || {
        &&& short_equation(line_at(s, at))
        &&& short_equations(s, line_end(s, at) + 1, n - 1)
    }
}

/// The task that a text looks like.
pub open spec fn detected(s: Seq<char>, vocab_size: int) -> TaskType {
    if vocab_size <= 20 && s.contains('+') && s.contains('=') {
        TaskType::Arithmetic
    } else if vocab_size <= 40 && short_equations(s, 0, 100) {
        TaskType::Words
    } else if (encode_utf8(s).len() as usize) < 5_000_000 {
        TaskType::Grammar
    } else {
        TaskType::Language
    }
}

/// Whether a character occurs in a text.
fn has_char(s: &[char], c: char) -> (found: bool)
    ensures
        found == s@.contains(c),
{
    let n: usize = s.len();
    let mut i: usize = 0;
    while i < n
        invariant
            n == s@.len(),
            i <= n,
            forall|k: int| 0 <= k < i ==> #[trigger] s@[k] != c,
        decreases n - i,
    {
        if s[i] == c {
            return true;
        }
        i += 1;
    }
    false
}

/// Whether the part of a text from `at` up to `end` is a short line with an equals
/// sign.
fn is_short_equation(s: &[char], at: usize, end: usize) -> (ok: bool)
    requires
        at <= end <= s@.len(),
    ensures
        ok == short_equation(s@.subrange(at as int, end as int)),
{
    let ghost line = s@.subrange(at as int, end as int);
    let total: usize = s.len();
    let mut count: usize = 0;
    let mut found: bool = false;
    let mut i: usize = at;
    assert(line.skip(0) =~= line);
    while i < end
        invariant
            total == s@.len(),
            at <= i <= end <= total,
            line == s@.subrange(at as int, end as int),
            count < 20,
            count + encode_utf8(line.skip(i - at)).len() == encode_utf8(line).len(),
            found == line.take(i - at).contains('='),
        decreases end - i,
    {
        let c: char = s[i];
        let code: u32 = c as u32;
        let width: usize = if code <= 0x7F {
            1
        } else if code <= 0x7FF {
            2
        } else if code <= 0xFFFF {
            3
        } else {
            4
        };
        proof {
            let rest = line.skip(i - at);
            assert(rest[0] == c);
            assert(rest.drop_first() =~= line.skip(i - at + 1));
            char_is_scalar(c);
            assert(encode_scalar(c as u32).len() == width);
            let before = line.take(i - at);
            let after = line.take(i - at + 1);
            assert(after =~= before.push(c));
            if c == '=' {
                assert(after[i - at] == '=');
            } else if found {
                let k = choose|k: int| 0 <= k < before.len() && before[k] == '=';
                assert(after[k] == '=');
            } else {
                assert forall|k: int| 0 <= k < after.len() implies after[k] != '=' by {
                    if k < before.len() {
                        assert(before[k] == after[k]);
                    }
                }
            }
        }
        count += width;
        if c == '=' {
            found = true;
        }
        if count >= 20 {
            return false;
        }
        i += 1;
    }
    assert(line.skip(end - at) =~= Seq::<char>::empty());
    assert(line.take(end - at) =~= line);
    found
}

/// The task that a text looks like: small vocabulary with sums, small vocabulary
/// with short equations, or by size.
pub fn detect_task_type(data: &str, vocab_size: usize) -> (task: TaskType)
    ensures
        task == detected(data@, vocab_size as int),
{
    let s: Vec<char> = chars_of(data);
    if vocab_size <= 20 && has_char(&s, '+') && has_char(&s, '=') {
        return TaskType::Arithmetic;
    }
    if vocab_size <= 40 {
        let total: usize = s.len();
        let mut at: usize = 0;
        let mut left: usize = 100;
        let mut all: bool = true;
        while left > 0 && at < total && all
            invariant
                s@ == data@,
                total == s@.len(),
                left <= 100,
                at <= total,
                short_equations(s@, 0, 100) == (all && short_equations(
                    s@,
                    at as int,
                    left as int,
                )),
            decreases left,
        {
            let mut end: usize = at;
            while end < total && s[end] != '\n'
                invariant
                    total == s@.len(),
                    at <= end <= total,
                    line_end(s@, at as int) == line_end(s@, end as int),
                decreases total - end,
            {
                end += 1;
            }
            let stop: usize = if at < end && end < total && s[end - 1] == '\r' {
                end - 1
            } else {
                end
            };
            assert(line_end(s@, at as int) == end);
            assert(short_equations(s@, at as int, left as int) == (short_equation(
                line_at(s@, at as int),
            ) && short_equations(s@, end + 1, left - 1)));
            all = is_short_equation(&s, at, stop);
            assert(all == short_equation(line_at(s@, at as int)));
            left -= 1;
            if end < total {
                at = end + 1;
            } else {
                at = total;
            }
        }
        if all {
            return TaskType::Words;
        }
    }
    if data.len() < 5_000_000 {
        TaskType::Grammar
    } else {
        TaskType::Language
    }
}

/// Number of different characters of a text.
fn count_chars(text: &str) -> (n: usize)
    ensures
        n == text@.to_set().len(),
{
    broadcast use vstd::std_specs::btree::group_btree_axioms;

    let mut seen: BTreeSet<u32> = BTreeSet::new();
    let ghost code = |c: char| c as u32;
    let ghost done = Seq::<char>::empty();
    assert(done.to_set().map(code) =~= Set::<u32>::empty());
    for c in it: text.chars()
        invariant
            code == (|c: char| c as u32),
            done == it.seq().take(it.index()),
            seen@ == done.to_set().map(code),
    {
        proof {
            let next = done.push(c);
            assert(it.seq().take(it.index() + 1) =~= next);
            assert(next.to_set() =~= done.to_set().insert(c)) by {
                assert forall|x: char| next.contains(x) == (done.contains(x) || x == c) by {
                    if done.contains(x) {
                        let k = choose|k: int| 0 <= k < done.len() && done[k] == x;
                        assert(next[k] == x);
                    }
                    assert(next[done.len() as int] == c);
                }
            }
            assert(done.to_set().insert(c).map(code) =~= done.to_set().map(code).insert(
                c as u32,
            )) by {
                done.to_set().lemma_set_map_insert_commute(c, code);
            }
            done = next;
        }
        seen.insert(c as u32);
    }
    proof {
        assert(done =~= text@);
        vstd::seq_lib::seq_to_set_is_finite(text@);
        assert forall|x: char, y: char| #[trigger] code(x) == #[trigger] code(y) implies x == y by {
            char_u32_cast(x, x as u32);
            char_u32_cast(y, y as u32);
        }
        vstd::set_lib::lemma_map_size(text@.to_set(), seen@, code);
    }
    seen.len()
}

/// Looks over a text that was read from `path`.
pub fn analyze_data(path: &str, text: &str, task_override: Option<TaskType>) -> (profile:
    DataProfile)
    ensures
        profile.file_path@ == path@,
        profile.corpus_chars == encode_utf8(text@).len() as usize,
        profile.vocab_size == text@.to_set().len(),
        profile.task == (match task_override {
            Some(task) => task,
            None => detected(text@, text@.to_set().len() as int),
        }),
        profile.task_overridden == task_override.is_some(),
{
    let corpus_chars: usize = text.len();
    let vocab_size: usize = count_chars(text);
    let task_overridden: bool = task_override.is_some();
    let task: TaskType = match task_override {
        Some(task) => task,
        None => detect_task_type(text, vocab_size),
    };
    DataProfile { file_path: owned(path), corpus_chars, vocab_size, task, task_overridden }
}

/// A recommended configuration.
pub struct Recommendation {
    pub m1: usize,
    pub m2: usize,
    pub n_bands: usize,
    pub active_bands: usize,
    pub seq_len: usize,
    pub n_head: usize,
    pub head_dim: usize,
    pub n_layers: usize,
    pub max_useful_layers: usize,
    pub phase1_iters: usize,
    pub phase2_iters: usize,
    pub compute_tier: &'static str,
    pub gpu_flag: bool,
    pub params: usize,
}

/// The larger of two numbers.
pub open spec fn at_least(a: int, b: int) -> int {
    if a >= b {
        a
    } else {
        b
    }
}

/// The smaller of two numbers.
pub open spec fn at_most(a: int, b: int) -> int {
    if a <= b {
        a
    } else {
        b
    }
}

/// Fewest heads for a window: four, and one for every 32 positions.
pub open spec fn min_heads(seq_len: int) -> int {
    at_least(4, (seq_len + 31) / 32)
}

/// Windows of a corpus; one where the window length is zero.
pub open spec fn windows_of(corpus: int, seq_len: int) -> int {
    if seq_len > 0 {
        corpus / seq_len
    } else {
        1
    }
}

/// Where the computation should run.
pub open spec fn tier_of(n_bands: int) -> Seq<char> {
    if n_bands <= 127 {
        "CPU"@
    } else if n_bands <= 255 {
        "CPU or GPU (similar performance)"@
    } else {
        "GPU (--gpu)"@
    }
}

/// The estimates of a model with a practical number of bands fit machine numbers.
pub open spec fn in_reach(min_bands: int) -> bool {
    let n = practical(at_least(min_bands, 42));
    &&& min_bands <= usize::MAX - 63
    &&& block_estimate(n) <= usize::MAX
    &&& params_estimate(n, 8) <= usize::MAX
}

/// Recommends a configuration. `min_bands_raw` is the number of bands that the
/// vocabulary asks for, after dead bands and head room.
pub fn compute_recommendation(
    profile: &DataProfile,
    seq_override: Option<usize>,
    min_bands_raw: usize,
) -> (rec: Recommendation)
    requires
        in_reach(min_bands_raw as int),
    ensures
        rec.suits(*profile, seq_override, min_bands_raw as int),
{
    let (m1, m2) = find_coprime_moduli(profile.vocab_size);
    let wanted: usize = if min_bands_raw >= MIN_BANDS {
        min_bands_raw
    } else {
        MIN_BANDS
    };
    let n_bands: usize = next_practical(wanted);
    let active_bands: usize = compute_active_bands(n_bands, m1, m2);
    let seq_len: usize = match seq_override {
        Some(n) => n,
        None => profile.task.default_seq(),
    };
    let for_positions: usize = seq_len / 32 + if seq_len % 32 == 0 {
        0usize
    } else {
        1usize
    };
    let heads: usize = if for_positions > 4 {
        for_positions
    } else {
        4
    };
    proof {
        let b = n_bands as int;
        assert(4 * (2 * b) * (2 * b) >= 0) by (nonlinear_arith);
    }
    let dim: usize = n_bands * 2;
    let (n_head, head_dim) = find_head_config(dim, heads);
    let max_useful_layers: usize = 2 + active_bands / 20;
    let base: usize = profile.task.base_layers();
    let n_layers: usize = if base <= max_useful_layers {
        base
    } else {
        max_useful_layers
    };
    let windows: usize = if seq_len > 0 {
        profile.corpus_chars / seq_len
    } else {
        1
    };
    let phase2_iters: usize = if windows >= 50_000 {
        500_000
    } else if windows * 10 >= 40_000 {
        windows * 10
    } else {
        40_000
    };
    let (compute_tier, gpu_flag): (&'static str, bool) = if n_bands <= 127 {
        ("CPU", false)
    } else if n_bands <= 255 {
        ("CPU or GPU (similar performance)", false)
    } else {
        ("GPU (--gpu)", true)
    };
    proof {
        let block = block_estimate(n_bands as int);
        let b = n_bands as int;
        assert(4 * (2 * b) * (2 * b) >= 0) by (nonlinear_arith);
        assert(block * n_layers <= block * 8) by (nonlinear_arith)
            requires
                block >= 0,
                n_layers <= 8,
        ;
    }
    let params: usize = estimate_params(n_bands, n_head, n_layers);
    Recommendation {
        m1,
        m2,
        n_bands,
        active_bands,
        seq_len,
        n_head,
        head_dim,
        n_layers,
        max_useful_layers,
        phase1_iters: 10_000,
        phase2_iters,
        compute_tier,
        gpu_flag,
        params,
    }
}

impl Recommendation {
    /// The moduli are odd neighbours at the vocabulary's root, and cover the vocabulary.
    pub open spec fn moduli_from(&self, vocab_size: int) -> bool {
        &&& self.m1 % 2 == 1
        &&& is_ceil_root(self.m1 as int, vocab_size) || is_ceil_root(self.m1 - 1, vocab_size)
        &&& self.m2 == self.m1 + 2
        &&& self.m1 * self.m2 >= vocab_size
    }

    /// The configuration for data that ask for `min_bands` bands.
    pub open spec fn suits(
        &self,
        profile: DataProfile,
        seq_override: Option<usize>,
        min_bands: int,
    ) -> bool {
        &&& self.moduli_from(profile.vocab_size as int)
        &&& self.n_bands == practical(at_least(min_bands, 42))
        &&& self.active_bands == self.n_bands - (self.n_bands / 2) / self.m1 - (self.n_bands / 2)
            / self.m2
        &&& self.seq_len == (match seq_override {
            Some(n) => n as int,
            None => profile.task.seq_of(),
        })
        &&& is_head_choice(2 * self.n_bands, min_heads(self.seq_len as int), self.n_head as int)
        &&& self.head_dim == (2 * self.n_bands) / (self.n_head as int)
        &&& self.max_useful_layers == 2 + self.active_bands / 20
        &&& self.n_layers == at_most(profile.task.layers_of(), self.max_useful_layers as int)
        &&& self.phase1_iters == 10_000
        &&& self.phase2_iters == at_most(
            at_least(windows_of(profile.corpus_chars as int, self.seq_len as int) * 10, 40_000),
            500_000,
        )
        &&& self.compute_tier@ == tier_of(self.n_bands as int)
        &&& self.gpu_flag == (self.n_bands >= 256)
        &&& self.params == params_estimate(self.n_bands as int, self.n_layers as int)
    }
}

/// Ratios of a recommendation, printed, and whether each is past its threshold.
pub struct Ratios {
    /// Tokens per effective dimension, with two decimals.
    pub tokens_per_dim: String,
    pub crowded: bool,
    /// Share of active bands, in whole percent.
    pub band_utilisation: String,
    pub saturated: bool,
    /// Positions per head, as a whole number.
    pub pos_per_head: String,
    pub diffuse: bool,
}

/// One text, where a condition holds.
pub open spec fn text_if(holds: bool, text: Seq<char>) -> Seq<Seq<char>> {
    if holds {
        seq![text]
    } else {
        Seq::empty()
    }
}

/// How often a window is seen.
pub open spec fn exposures_of(corpus: int, seq_len: int) -> int {
    if seq_len > 0 {
        windows_of(corpus, seq_len) / seq_len
    } else {
        0
    }
}

/// The warnings about a recommendation.
pub open spec fn warning_texts(
    rec: Recommendation,
    base_layers: int,
    corpus: int,
    ratios: Ratios,
) -> Seq<Seq<char>> {
    let windows = windows_of(corpus, rec.seq_len as int);
    text_if(
        ratios.crowded,
        "tokens_per_dim = "@ + ratios.tokens_per_dim@
            + " (>= 0.50) — discrimination may be insufficient"@,
    ) + text_if(
        ratios.saturated,
        "band_utilisation = "@ + ratios.band_utilisation@
            + "% (>= 85%) — consider more bands"@,
    ) + text_if(
        ratios.diffuse,
        "positions_per_head = "@ + ratios.pos_per_head@
            + " (>= 40) — attention may be too diffuse"@,
    ) + text_if(
        rec.head_dim < 16,
        "head_dim = "@ + decimal(rec.head_dim as nat)
            + " (< 16) — attention heads may lack capacity"@,
    ) + text_if(
        rec.n_layers < base_layers,
        "layers capped at "@ + decimal(rec.n_layers as nat) + " (max useful) vs "@ + decimal(
            base_layers as nat,
        ) + " (task default) — need more bands for deeper model"@,
    ) + text_if(
        exposures_of(corpus, rec.seq_len as int) < 10 && corpus > 0,
        "exposures_per_window ~"@ + decimal(at_least(windows, 1) as nat)
            + " (< 10) — corpus may be too small for seq="@ + decimal(rec.seq_len as nat),
    )
}

/// A text out of three parts.
fn three(a: &str, b: &str, c: &str) -> (out: String)
    ensures
        out@ == a@ + b@ + c@,
{
    let mut out: String = String::from_str(a);
    out.append(b);
    out.append(c);
    out
}

fn push_text(out: &mut Vec<String>, text: String)
    ensures
        texts(final(out)@) == texts(old(out)@) + seq![text@],
{
    out.push(text);
    assert(texts(out@) =~= texts(old(out)@) + seq![text@]);
}

/// The warnings about a recommendation.
pub fn warnings(rec: &Recommendation, profile: &DataProfile, ratios: &Ratios) -> (out: Vec<String>)
    ensures
        texts(out@) == warning_texts(
            *rec,
            profile.task.layers_of(),
            profile.corpus_chars as int,
            *ratios,
        ),
{
    let mut out: Vec<String> = Vec::new();
    assert(texts(out@) =~= Seq::<Seq<char>>::empty());
    let ghost w1 = text_if(
        ratios.crowded,
        "tokens_per_dim = "@ + ratios.tokens_per_dim@
            + " (>= 0.50) — discrimination may be insufficient"@,
    );
    if ratios.crowded {
        let t: String = three(
            "tokens_per_dim = ",
            ratios.tokens_per_dim.as_str(),
            " (>= 0.50) — discrimination may be insufficient",
        );
        push_text(&mut out, t);
    }
    assert(texts(out@) =~= w1);
    let ghost w2 = text_if(
        ratios.saturated,
        "band_utilisation = "@ + ratios.band_utilisation@
            + "% (>= 85%) — consider more bands"@,
    );
    if ratios.saturated {
        let t: String = three(
            "band_utilisation = ",
            ratios.band_utilisation.as_str(),
            "% (>= 85%) — consider more bands",
        );
        push_text(&mut out, t);
    }
    assert(texts(out@) =~= w1 + w2);
    let ghost w3 = text_if(
        ratios.diffuse,
        "positions_per_head = "@ + ratios.pos_per_head@
            + " (>= 40) — attention may be too diffuse"@,
    );
    if ratios.diffuse {
        let t: String = three(
            "positions_per_head = ",
            ratios.pos_per_head.as_str(),
            " (>= 40) — attention may be too diffuse",
        );
        push_text(&mut out, t);
    }
    assert(texts(out@) =~= w1 + w2 + w3);
    let ghost w4 = text_if(
        rec.head_dim < 16,
        "head_dim = "@ + decimal(rec.head_dim as nat)
            + " (< 16) — attention heads may lack capacity"@,
    );
    if rec.head_dim < 16 {
        let t: String = three(
            "head_dim = ",
            number(rec.head_dim).as_str(),
            " (< 16) — attention heads may lack capacity",
        );
        push_text(&mut out, t);
    }
    assert(texts(out@) =~= w1 + w2 + w3 + w4);
    let base: usize = profile.task.base_layers();
    let ghost w5 = text_if(
        rec.n_layers < base,
        "layers capped at "@ + decimal(rec.n_layers as nat) + " (max useful) vs "@ + decimal(
            base as nat,
        ) + " (task default) — need more bands for deeper model"@,
    );
    if rec.n_layers < base {
        let mut t: String = three(
            "layers capped at ",
            number(rec.n_layers).as_str(),
            " (max useful) vs ",
        );
        append_decimal(&mut t, base);
        t.append(" (task default) — need more bands for deeper model");
        push_text(&mut out, t);
    }
    assert(texts(out@) =~= w1 + w2 + w3 + w4 + w5);
    let windows: usize = if rec.seq_len > 0 {
        profile.corpus_chars / rec.seq_len
    } else {
        1
    };
    let exposures: usize = if rec.seq_len > 0 {
        windows / rec.seq_len
    } else {
        0
    };
    let seen: usize = if windows >= 1 {
        windows
    } else {
        1
    };
    if exposures < 10 && profile.corpus_chars > 0 {
        let mut t: String = three(
            "exposures_per_window ~",
            number(seen).as_str(),
            " (< 10) — corpus may be too small for seq=",
        );
        append_decimal(&mut t, rec.seq_len);
        push_text(&mut out, t);
    }
    out
}

/// The lines of the command that trains a recommended model.
pub open spec fn command_texts(
    file_path: Seq<char>,
    rec: Recommendation,
    iters: nat,
    resume: bool,
    health_interval: nat,
) -> Seq<Seq<char>> {
    seq!["  wave-engine "@ + file_path + " \\"@] + text_if(
        resume,
        "    --resume checkpoint.bin \\"@,
    ) + seq![
        "    --n-bands "@ + decimal(rec.n_bands as nat) + " --n-head "@ + decimal(
            rec.n_head as nat,
        ) + " --layers "@ + decimal(rec.n_layers as nat) + " --seq "@ + decimal(
            rec.seq_len as nat,
        ) + " \\"@,
        "    --alpha 0.1 --beta 0.2 --out-proj-groups 1 \\"@,
        "    --iters "@ + decimal(iters) + " --lr 3e-4 --phase-native"@ + (if rec.gpu_flag {
            " --gpu"@
        } else {
            ""@
        }) + " \\"@,
        "    --rk4-weights dyn --harmonics dyn \\"@,
        "    --health-interval "@ + decimal(health_interval),
    ]
}

/// The lines of the command that trains a recommended model: a quick check, or the
/// full run that resumes it.
pub fn command_lines(
    file_path: &str,
    rec: &Recommendation,
    iters: usize,
    resume: bool,
    health_interval: usize,
) -> (out: Vec<String>)
    ensures
        texts(out@) == command_texts(
            file_path@,
            *rec,
            iters as nat,
            resume,
            health_interval as nat,
        ),
{
    let mut out: Vec<String> = Vec::new();
    push_text(&mut out, three("  wave-engine ", file_path, " \\"));
    if resume {
        push_text(&mut out, owned("    --resume checkpoint.bin \\"));
    }
    let mut dims: String = three("    --n-bands ", number(rec.n_bands).as_str(), " --n-head ");
    append_decimal(&mut dims, rec.n_head);
    dims.append(" --layers ");
    append_decimal(&mut dims, rec.n_layers);
    dims.append(" --seq ");
    append_decimal(&mut dims, rec.seq_len);
    dims.append(" \\");
    push_text(&mut out, dims);
    push_text(&mut out, owned("    --alpha 0.1 --beta 0.2 --out-proj-groups 1 \\"));
    let gpu: &str = if rec.gpu_flag {
        " --gpu"
    } else {
        ""
    };
    let mut run: String = three("    --iters ", number(iters).as_str(), " --lr 3e-4 --phase-native");
    run.append(gpu);
    run.append(" \\");
    push_text(&mut out, run);
    push_text(&mut out, owned("    --rk4-weights dyn --harmonics dyn \\"));
    let mut health: String = owned("    --health-interval ");
    append_decimal(&mut health, health_interval);
    push_text(&mut out, health);
    assert(texts(out@) =~= command_texts(
        file_path@,
        *rec,
        iters as nat,
        resume,
        health_interval as nat,
    ));
    out
}

/// The recommended heads share a window so that no head has more than 32
/// positions.
pub proof fn law_heads_cover_window(dim: int, seq_len: int, n_head: int)
    requires
        seq_len >= 0,
        is_head_choice(dim, min_heads(seq_len), n_head),
    ensures
        seq_len <= 32 * n_head,
        n_head >= 4,
{
}

} // verus!
