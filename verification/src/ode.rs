//! Which bands of the ODE act on which, how an integration is split, and what is kept
//! of it for the backward pass.

use vstd::prelude::*;

verus! {

/// Two different bands at most two apart.
pub open spec fn coupled(j: int, k: int) -> bool {
    j != k && -2 <= j - k <= 2
}

/// The bands that act on band `k`, from the lowest up.
pub open spec fn neighbours_of(k: int, n: int) -> Seq<usize> {
    (if k >= 2 {
        seq![(k - 2) as usize]
    } else {
        Seq::empty()
    }) + (if k >= 1 {
        seq![(k - 1) as usize]
    } else {
        Seq::empty()
    }) + (if k + 1 < n {
        seq![(k + 1) as usize]
    } else {
        Seq::empty()
    }) + (if k + 2 < n {
        seq![(k + 2) as usize]
    } else {
        Seq::empty()
    })
}

/// The bands whose energy shifts the phase of band `k`: the two on either side, as far
/// as they exist.
pub fn neighbours(k: usize, n: usize) -> (out: Vec<usize>)
    requires
        k < n,
        n <= usize::MAX - 2,
    ensures
        out@ == neighbours_of(k as int, n as int),
{
    let mut out: Vec<usize> = Vec::new();
    if k >= 2 {
        out.push(k - 2);
    }
    if k >= 1 {
        out.push(k - 1);
    }
    if k + 1 < n {
        out.push(k + 1);
    }
    if k + 2 < n {
        out.push(k + 2);
    }
    assert(out@ =~= neighbours_of(k as int, n as int));
    out
}

/// A band acts on another exactly when they are different and at most two apart; so
/// bands act on each other or not at all.
pub proof fn law_coupling_is_mutual(j: usize, k: usize, n: usize)
    requires
        j < n,
        k < n,
    ensures
        neighbours_of(k as int, n as int).contains(j) == coupled(j as int, k as int),
        neighbours_of(k as int, n as int).contains(j) == neighbours_of(
            j as int,
            n as int,
        ).contains(k),
{
    lemma_neighbour(j, k, n);
    lemma_neighbour(k, j, n);
}

proof fn lemma_neighbour(j: usize, k: usize, n: usize)
    requires
        j < n,
        k < n,
    ensures
        neighbours_of(k as int, n as int).contains(j) == coupled(j as int, k as int),
{
    let s = neighbours_of(k as int, n as int);
    let a = if k >= 2 {
        1int
    } else {
        0
    };
    let b = if k >= 1 {
        1int
    } else {
        0
    };
    let c = if k + 1 < n {
        1int
    } else {
        0
    };
    if coupled(j as int, k as int) {
        if j + 2 == k {
            assert(s[0] == j);
        } else if j + 1 == k {
            assert(s[a] == j);
        } else if j == k + 1 {
            assert(s[a + b] == j);
        } else {
            assert(s[a + b + c] == j);
        }
    }
}

/// Four bands that exchange energy.
#[derive(Clone, Copy, Debug, PartialEq, Eq, Structural)]
pub struct Quartet {
    pub a: usize,
    pub b: usize,
    pub c: usize,
    pub d: usize,
}

/// The quartets whose inner pair ends at bands 2 to `n - 2`, then those whose inner pair
/// starts at bands 1 to `n - 3`; none with four bands or fewer.
pub open spec fn quartets_of(n: int) -> Seq<Quartet> {
    if n <= 4 {
        Seq::empty()
    } else {
        Seq::new(
            (n - 3) as nat,
            |i: int|
                Quartet {
                    a: i as usize,
                    b: (i + 3) as usize,
                    c: (i + 1) as usize,
                    d: (i + 2) as usize,
                },
        ) + Seq::new(
            (n - 3) as nat,
            |i: int|
                Quartet {
                    a: i as usize,
                    b: (i + 3) as usize,
                    c: (i + 1) as usize,
                    d: (i + 2) as usize,
                },
        )
    }
}

/// The quartets of four-wave mixing, in the order in which they act.
pub fn quartets(n: usize) -> (out: Vec<Quartet>)
    ensures
        out@ == quartets_of(n as int),
{
    let mut out: Vec<Quartet> = Vec::new();
    if n <= 4 {
        assert(out@ =~= quartets_of(n as int));
        return out;
    }
    let mut k: usize = 2;
    while k < n - 1
        invariant
            n > 4,
            2 <= k <= n - 1,
            out@ == quartets_of(n as int).take(k - 2),
        decreases n - 1 - k,
    {
        out.push(Quartet { a: k - 2, b: k + 1, c: k - 1, d: k });
        k += 1;
        assert(out@ =~= quartets_of(n as int).take(k - 2));
    }
    k = 1;
    while k < n - 2
        invariant
            n > 4,
            1 <= k <= n - 2,
            out@ == quartets_of(n as int).take(n - 3 + k - 1),
        decreases n - 2 - k,
    {
        out.push(Quartet { a: k - 1, b: k + 2, c: k, d: k + 1 });
        k += 1;
        assert(out@ =~= quartets_of(n as int).take(n - 3 + k - 1));
    }
    assert(out@ =~= quartets_of(n as int));
    out
}

/// Every quartet is phase matched, made of four different bands, and exists.
pub proof fn law_quartets_are_matched(n: usize, i: int)
    requires
        0 <= i < quartets_of(n as int).len(),
    ensures
        ({
            let q = quartets_of(n as int)[i];
            &&& q.a + q.b == q.c + q.d
            &&& q.a < q.c < q.d < q.b < n
        }),
{
}

/// The harmonics of band `k` at which distortion shows: three, five and seven times the
/// band's frequency, folded back, without the band itself.
pub open spec fn distortion_bands_of(k: int, n: int) -> Seq<usize> {
    let h3 = (3 * (k + 1)) % n;
    let h5 = (5 * (k + 1)) % n;
    let h7 = (7 * (k + 1)) % n;
    (if h3 == k {
        Seq::empty()
    } else {
        seq![h3 as usize]
    }) + (if h5 == k {
        Seq::empty()
    } else {
        seq![h5 as usize]
    }) + (if h7 == k {
        Seq::empty()
    } else {
        seq![h7 as usize]
    })
}

/// The bands at which the distortion of band `k` shows.
pub fn distortion_bands(k: usize, n: usize) -> (out: Vec<usize>)
    requires
        k < n,
        7 * n <= usize::MAX,
    ensures
        out@ == distortion_bands_of(k as int, n as int),
        forall|i: int| 0 <= i < out@.len() ==> #[trigger] out@[i] < n && out@[i] != k,
{
    let h3: usize = (3 * (k + 1)) % n;
    let h5: usize = (5 * (k + 1)) % n;
    let h7: usize = (7 * (k + 1)) % n;
    let mut out: Vec<usize> = Vec::new();
    if h3 != k {
        out.push(h3);
    }
    if h5 != k {
        out.push(h5);
    }
    if h7 != k {
        out.push(h7);
    }
    assert(out@ =~= distortion_bands_of(k as int, n as int));
    out
}

} // verus!
