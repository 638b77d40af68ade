//! Token cache: encode once, load at once on later runs.
//!
//! A cache holds the magic, the vocabulary size, the number of tokens, its key, and the
//! tokens, four bytes each. The key is the size of the data file that the cache was made from
//! and a hash of the tokenizer's path; the cache is stale when either is another.

use vstd::prelude::*;
use vstd::string::*;
use crate::bytes::{
    holds_at, le4, le4_bytes, le8, le8_bytes, law_read_u32_undoes_push, law_read_u64_undoes_push,
    push_u32, push_u64, read_u32, read_u64, WORD,
};

verus! {

/// Bytes before the tokens.
pub const HEADER_LEN: usize = 36;

/// The first four bytes of a cache.
pub open spec fn magic() -> Seq<u8> {
    seq![87u8, 84u8, 79u8, 75u8]
}

/// The first `n` tokens, four bytes each.
pub open spec fn token_bytes(tokens: Seq<usize>, n: int) -> Seq<u8>
    decreases n,
{
    if n <= 0 {
        Seq::empty()
    } else {
        token_bytes(tokens, n - 1) + le4_bytes(tokens[n - 1] as int % 4294967296)
    }
}

/// What one more byte of a path makes of its hash: mixed in, and spread by a product of which the
/// last eight bytes stay.
pub open spec fn hash_step(hash: u64, byte: u8) -> u64 {
    (((hash ^ byte as u64) as int * 0x100_0000_01b3) % 0x1_0000_0000_0000_0000) as u64
}

/// The hash of a tokenizer's path. It depends on the bytes of the path alone.
pub open spec fn path_hash_of(path: Seq<u8>) -> u64
    decreases path.len(),
{
    if path.len() == 0 {
        0xcbf2_9ce4_8422_2325
    } else {
        hash_step(path_hash_of(path.drop_last()), path.last())
    }
}

/// The hash of a tokenizer's path.
pub fn path_hash(path: &[u8]) -> (hash: u64)
    ensures
        hash == path_hash_of(path@),
{
    let n: usize = path.len();
    let mut hash: u64 = 0xcbf2_9ce4_8422_2325;
    let mut i: usize = 0;
    assert(path@.take(0) =~= Seq::empty());
    while i < n
        invariant
            n == path@.len(),
            i <= n,
            hash == path_hash_of(path@.take(i as int)),
        decreases n - i,
    {
        let mixed: u64 = hash ^ path[i] as u64;
        let spread: u128 = mixed as u128 * 0x100_0000_01b3;
        hash = (spread % 0x1_0000_0000_0000_0000) as u64;
        i += 1;
        assert(path@.take(i as int).drop_last() =~= path@.take(i - 1));
    }
    assert(path@.take(n as int) =~= path@);
    hash
}

/// The bytes of a cache.
pub open spec fn cache_bytes(
    tokens: Seq<usize>,
    vocab_size: int,
    file_size: int,
    tokenizer: int,
) -> Seq<u8> {
    magic() + le8_bytes(vocab_size) + le8_bytes(tokens.len() as int) + le8_bytes(file_size)
        + le8_bytes(tokenizer) + token_bytes(tokens, tokens.len() as int)
}

/// The bytes are a whole cache made from a data file of this size with the tokenizer of this
/// hash.
pub open spec fn fresh(b: Seq<u8>, actual_size: Option<u64>, tokenizer: u64) -> bool {
    &&& b.len() >= 36
    &&& b.subrange(0, 4) == magic()
    &&& actual_size == Some(le8(b, 20) as u64)
    &&& tokenizer == le8(b, 28)
    &&& 36 + 4 * le8(b, 12) <= b.len()
}

/// The tokens of a cache.
pub open spec fn cached_tokens(b: Seq<u8>) -> Seq<usize> {
    Seq::new(le8(b, 12) as nat, |i: int| le4(b, 36 + 4 * i) as usize)
}

/// The path of the cache that belongs to a data file.
pub fn cache_path_for(data_path: &str, use_bpe: bool) -> (path: String)
    ensures
        path@ == data_path@ + (if use_bpe {
            ".bpe.tokens"@
        } else {
            ".char.tokens"@
        }),
{
    let mut path: String = String::from_str(data_path);
    if use_bpe {
        path.append(".bpe.tokens");
    } else {
        path.append(".char.tokens");
    }
    path
}

/// Reads the tokens and the vocabulary size out of a cache. There are none when
/// the cache is cut short, is no cache, or is stale; `actual_size` is the size of
/// the data file, if it could be found out, and `tokenizer` a hash of the tokenizer's path.
pub fn load_cache(b: &[u8], actual_size: Option<u64>, tokenizer: u64) -> (result: Option<
    (Vec<usize>, usize),
>)
    ensures
        match result {
            Some((tokens, vocab_size)) => {
                &&& fresh(b@, actual_size, tokenizer)
                &&& tokens@ == cached_tokens(b@)
                &&& vocab_size == le8(b@, 4) as usize
            },
            None => !fresh(b@, actual_size, tokenizer),
        },
{
    let total: usize = b.len();
    if total < HEADER_LEN {
        return None;
    }
    if b[0] != 87 || b[1] != 84 || b[2] != 79 || b[3] != 75 {
        proof {
            let m = b@.subrange(0, 4);
            assert(m[0] == b@[0] && m[1] == b@[1] && m[2] == b@[2] && m[3] == b@[3]);
        }
        return None;
    }
    assert(b@.subrange(0, 4) =~= magic());
    let vocab_size: u64 = read_u64(b, 4);
    let n_tokens: u64 = read_u64(b, 12);
    let file_size: u64 = read_u64(b, 20);
    match actual_size {
        Some(size) => {
            if size != file_size {
                return None;
            }
        },
        None => {
            return None;
        },
    }
    let hash: u64 = read_u64(b, 28);
    if hash != tokenizer {
        return None;
    }
    let room: usize = (total - HEADER_LEN) / 4;
    if n_tokens > room as u64 {
        return None;
    }
    let n: usize = n_tokens as usize;
    let mut tokens: Vec<usize> = Vec::new();
    let mut i: usize = 0;
    while i < n
        invariant
            total == b@.len(),
            n == le8(b@, 12),
            36 + 4 * n <= total,
            i <= n,
            tokens@ == cached_tokens(b@).subrange(0, i as int),
        decreases n - i,
    {
        let t: u32 = read_u32(b, HEADER_LEN + 4 * i);
        tokens.push(t as usize);
        i += 1;
        assert(tokens@ =~= cached_tokens(b@).subrange(0, i as int));
    }
    assert(tokens@ =~= cached_tokens(b@));
    Some((tokens, vocab_size as usize))
}

/// The bytes of a cache of these tokens; a data file whose size is unknown counts
/// as empty.
pub fn save_cache(
    tokens: &[usize],
    vocab_size: usize,
    file_size: Option<u64>,
    tokenizer: u64,
) -> (b: Vec<u8>)
    ensures
        b@ == cache_bytes(
            tokens@,
            vocab_size as int,
            match file_size {
                Some(size) => size as int,
                None => 0,
            },
            tokenizer as int,
        ),
{
    let n: usize = tokens.len();
    let size: u64 = match file_size {
        Some(size) => size,
        None => 0,
    };
    let mut b: Vec<u8> = Vec::new();
    b.push(87);
    b.push(84);
    b.push(79);
    b.push(75);
    assert(b@ =~= magic());
    push_u64(&mut b, vocab_size as u64);
    push_u64(&mut b, n as u64);
    push_u64(&mut b, size);
    push_u64(&mut b, tokenizer);
    let ghost head = b@;
    let mut i: usize = 0;
    assert(b@ =~= head + token_bytes(tokens@, 0));
    while i < n
        invariant
            n == tokens@.len(),
            i <= n,
            b@ == head + token_bytes(tokens@, i as int),
        decreases n - i,
    {
        push_u32(&mut b, (tokens[i] as u64 % WORD) as u32);
        i += 1;
        assert(b@ =~= head + token_bytes(tokens@, i as int));
    }
    b
}

proof fn lemma_token_bytes_len(tokens: Seq<usize>, n: int)
    requires
        0 <= n,
    ensures
        token_bytes(tokens, n).len() == 4 * n,
    decreases n,
{
    if n > 0 {
        lemma_token_bytes_len(tokens, n - 1);
    }
}

proof fn lemma_token_at(tokens: Seq<usize>, n: int, i: int)
    requires
        0 <= i < n,
    ensures
        holds_at(token_bytes(tokens, n), 4 * i, le4_bytes(tokens[i] as int % 4294967296)),
    decreases n,
{
    let rest = token_bytes(tokens, n - 1);
    let last = le4_bytes(tokens[n - 1] as int % 4294967296);
    let all = token_bytes(tokens, n);
    lemma_token_bytes_len(tokens, n - 1);
    if i == n - 1 {
        assert(all.subrange(4 * i, 4 * i + 4) =~= last);
    } else {
        lemma_token_at(tokens, n - 1, i);
        assert(all.subrange(4 * i, 4 * i + 4) =~= rest.subrange(4 * i, 4 * i + 4));
    }
}

proof fn lemma_le8_len(v: int)
    ensures
        le8_bytes(v).len() == 8,
{
}

/// Where the parts of a cache stand.
proof fn lemma_parts(
    m: Seq<u8>,
    x: Seq<u8>,
    y: Seq<u8>,
    z: Seq<u8>,
    t: Seq<u8>,
    rest: Seq<u8>,
)
    requires
        m.len() == 4,
        x.len() == 8,
        y.len() == 8,
        z.len() == 8,
        t.len() == 8,
    ensures
        (m + x + y + z + t + rest).len() == 36 + rest.len(),
        (m + x + y + z + t + rest).subrange(0, 4) == m,
        holds_at(m + x + y + z + t + rest, 4, x),
        holds_at(m + x + y + z + t + rest, 12, y),
        holds_at(m + x + y + z + t + rest, 20, z),
        holds_at(m + x + y + z + t + rest, 28, t),
        holds_at(m + x + y + z + t + rest, 36, rest),
{
    let b = m + x + y + z + t + rest;
    assert(b.subrange(0, 4) =~= m);
    assert(b.subrange(4, 12) =~= x);
    assert(b.subrange(12, 20) =~= y);
    assert(b.subrange(20, 28) =~= z);
    assert(b.subrange(28, 36) =~= t);
    assert(b.subrange(36, 36 + rest.len() as int) =~= rest);
}

/// The four numbers of a header, read where they stand.
#[verifier::spinoff_prover]
proof fn lemma_fields(b: Seq<u8>, vocab_size: int, n: int, file_size: int, tokenizer: int)
    requires
        0 <= vocab_size < 18446744073709551616,
        0 <= n < 18446744073709551616,
        0 <= file_size < 18446744073709551616,
        0 <= tokenizer < 18446744073709551616,
        holds_at(b, 4, le8_bytes(vocab_size)),
        holds_at(b, 12, le8_bytes(n)),
        holds_at(b, 20, le8_bytes(file_size)),
        holds_at(b, 28, le8_bytes(tokenizer)),
    ensures
        le8(b, 4) == vocab_size,
        le8(b, 12) == n,
        le8(b, 20) == file_size,
        le8(b, 28) == tokenizer,
{
    law_read_u64_undoes_push(b, 4, vocab_size);
    law_read_u64_undoes_push(b, 12, n);
    law_read_u64_undoes_push(b, 20, file_size);
    law_read_u64_undoes_push(b, 28, tokenizer);
}

/// What the header of a cache holds.
#[verifier::spinoff_prover]
proof fn lemma_header(tokens: Seq<usize>, vocab_size: int, file_size: int, tokenizer: int)
    requires
        0 <= vocab_size < 18446744073709551616,
        0 <= file_size < 18446744073709551616,
        0 <= tokenizer < 18446744073709551616,
        tokens.len() < 18446744073709551616,
    ensures
        ({
            let b = cache_bytes(tokens, vocab_size, file_size, tokenizer);
            &&& b.len() == 36 + 4 * tokens.len()
            &&& b.subrange(0, 4) == magic()
            &&& le8(b, 4) == vocab_size
            &&& le8(b, 12) == tokens.len()
            &&& le8(b, 20) == file_size
            &&& le8(b, 28) == tokenizer
            &&& holds_at(b, 36, token_bytes(tokens, tokens.len() as int))
        }),
{
    let b = cache_bytes(tokens, vocab_size, file_size, tokenizer);
    let n = tokens.len() as int;
    lemma_token_bytes_len(tokens, n);
    lemma_le8_len(vocab_size);
    lemma_le8_len(n);
    lemma_le8_len(file_size);
    lemma_le8_len(tokenizer);
    lemma_parts(
        magic(),
        le8_bytes(vocab_size),
        le8_bytes(n),
        le8_bytes(file_size),
        le8_bytes(tokenizer),
        token_bytes(tokens, n),
    );
    lemma_fields(b, vocab_size, n, file_size, tokenizer);
}

/// A token stands in the cache where it is read.
proof fn lemma_cached_token(b: Seq<u8>, tokens: Seq<usize>, i: int)
    requires
        0 <= i < tokens.len(),
        tokens[i] < 4294967296,
        holds_at(b, 36, token_bytes(tokens, tokens.len() as int)),
    ensures
        le4(b, 36 + 4 * i) == tokens[i],
{
    let n = tokens.len() as int;
    let all = token_bytes(tokens, n);
    let part = le4_bytes(tokens[i] as int % 4294967296);
    lemma_token_bytes_len(tokens, n);
    lemma_token_at(tokens, n, i);
    assert(part.len() == 4);
    assert(b.subrange(36, 36 + all.len() as int).subrange(4 * i, 4 * i + 4) =~= b.subrange(
        36 + 4 * i,
        36 + 4 * i + 4,
    ));
    law_read_u32_undoes_push(b, 36 + 4 * i, tokens[i] as int % 4294967296);
}

/// A cache gives back the tokens and the vocabulary size it was made from, as long
/// as the data file keeps its size, the tokenizer is the same and every token fits in four bytes.
pub proof fn law_load_undoes_save(
    tokens: Seq<usize>,
    vocab_size: usize,
    file_size: u64,
    tokenizer: u64,
)
    requires
        tokens.len() <= usize::MAX,
        forall|i: int| 0 <= i < tokens.len() ==> #[trigger] tokens[i] < 4294967296,
    ensures
        ({
            let b = cache_bytes(tokens, vocab_size as int, file_size as int, tokenizer as int);
            &&& fresh(b, Some(file_size), tokenizer)
            &&& cached_tokens(b) == tokens
            &&& le8(b, 4) as usize == vocab_size
        }),
{
    let b = cache_bytes(tokens, vocab_size as int, file_size as int, tokenizer as int);
    let n = tokens.len() as int;
    lemma_header(tokens, vocab_size as int, file_size as int, tokenizer as int);
    assert forall|i: int| 0 <= i < n implies #[trigger] cached_tokens(b)[i] == tokens[i] by {
        lemma_cached_token(b, tokens, i);
    }
    assert(cached_tokens(b) =~= tokens);
}

/// A cache is not read once the data file has another size or is gone, or the tokenizer is
/// another.
pub proof fn law_stale_cache_refused(
    tokens: Seq<usize>,
    vocab_size: usize,
    file_size: u64,
    tokenizer: u64,
    actual_size: Option<u64>,
    actual_tokenizer: u64,
)
    requires
        tokens.len() <= usize::MAX,
        actual_size != Some(file_size) || actual_tokenizer != tokenizer,
    ensures
        !fresh(
            cache_bytes(tokens, vocab_size as int, file_size as int, tokenizer as int),
            actual_size,
            actual_tokenizer,
        ),
{
    lemma_header(tokens, vocab_size as int, file_size as int, tokenizer as int);
}

} // verus!
