//! Erasure coding for Polygone-Drive.
//!
//! The data chunks are padded with zero chunks up to the number of data
//! shards, and parity shards are appended; each parity shard folds every
//! data chunk, scaled by a per-row coefficient, into one byte vector.

use vstd::prelude::*;

pub mod gf256;

verus! {

/// The multiplication of two bytes, wrapping at 256.
pub open spec fn byte_mul(x: u8, c: u8) -> u8 {
    ((x as nat * c as nat) % 256) as u8
}

/// Coefficient of parity row `row`: `2^(row mod 8) * 3`, wrapping at 256.
pub open spec fn row_coefficient(row: int) -> u8 {
    ((vstd::arithmetic::power2::pow2((row % 8) as nat) * 3) % 256) as u8
}

/// The data shards after padding: the chunks, then zero chunks of the
/// first chunk's length until there are `data_shards` of them.
pub open spec fn padded_chunks(data: Seq<Seq<u8>>, data_shards: int) -> Seq<Seq<u8>> {
    if data.len() < data_shards {
        data + Seq::new((data_shards - data.len()) as nat, |k: int| Seq::new(data[0].len(), |i: int| 0u8))
    } else {
        data
    }
}

/// Byte `i` of a parity shard: the xor, over all chunks long enough to have
/// a byte `i`, of that byte times the coefficient.
pub open spec fn parity_byte(chunks: Seq<Seq<u8>>, coef: u8, i: int) -> u8
    decreases chunks.len(),
{
    if chunks.len() == 0 {
        0u8
    } else {
        let prev = parity_byte(chunks.drop_last(), coef, i);
        if i < chunks.last().len() {
            prev ^ byte_mul(chunks.last()[i], coef)
        } else {
            prev
        }
    }
}

/// The parity shard of row `row` over the padded chunks.
pub open spec fn parity_shard(chunks: Seq<Seq<u8>>, shard_size: nat, row: int) -> Seq<u8> {
    Seq::new(shard_size, |i: int| parity_byte(chunks, row_coefficient(row), i))
}

/// All shards that `encode` produces from non-empty data.
pub open spec fn encoded_shards(data: Seq<Seq<u8>>, data_shards: int, parity_shards: int) -> Seq<Seq<u8>> {
    let padded = padded_chunks(data, data_shards);
    padded + Seq::new(parity_shards as nat, |p: int| parity_shard(padded, data[0].len(), p + 1))
}

/// The byte contents of a sequence of shards.
pub open spec fn shard_views(v: Seq<Vec<u8>>) -> Seq<Seq<u8>> {
    v.map_values(|x: Vec<u8>| x@)
}

/// What `decode` hands back: the first `data_shards` shards.
pub open spec fn decoded_shards(shards: Seq<Seq<u8>>, data_shards: int) -> Seq<Seq<u8>> {
    shards.take(data_shards)
}

pub(crate) proof fn lemma_shard_views_push(v: Seq<Vec<u8>>, x: Vec<u8>)
    ensures
        shard_views(v.push(x)) == shard_views(v).push(x@),
{
    assert(shard_views(v.push(x)) =~= shard_views(v).push(x@));
}

fn copy_bytes(src: &Vec<u8>) -> (r: Vec<u8>)
    ensures
        r@ == src@,
{
    let mut r: Vec<u8> = Vec::with_capacity(src.len());
    let mut i: usize = 0;
    while i < src.len()
        invariant
            i <= src.len(),
            r@ == src@.take(i as int),
        decreases src.len() - i,
    {
        r.push(src[i]);
        i = i + 1;
        assert(r@ == src@.take(i as int));
    }
    assert(src@.take(src.len() as int) == src@);
    r
}

fn zero_bytes(n: usize) -> (r: Vec<u8>)
    ensures
        r@ == Seq::new(n as nat, |i: int| 0u8),
{
    let mut r: Vec<u8> = Vec::with_capacity(n);
    let mut i: usize = 0;
    while i < n
        invariant
            i <= n,
            r@ == Seq::new(i as nat, |k: int| 0u8),
        decreases n - i,
    {
        r.push(0u8);
        i = i + 1;
        assert(r@ == Seq::new(i as nat, |k: int| 0u8));
    }
    r
}

proof fn lemma_shl_one_is_pow2(k: u8)
    requires
        k < 8,
    ensures
        (1u8 << k) as nat == vstd::arithmetic::power2::pow2(k as nat),
{
    vstd::arithmetic::power2::lemma2_to64();
    if k == 0 { assert(1u8 << 0u8 == 1u8) by (bit_vector); }
    else if k == 1 { assert(1u8 << 1u8 == 2u8) by (bit_vector); }
    else if k == 2 { assert(1u8 << 2u8 == 4u8) by (bit_vector); }
    else if k == 3 { assert(1u8 << 3u8 == 8u8) by (bit_vector); }
    else if k == 4 { assert(1u8 << 4u8 == 16u8) by (bit_vector); }
    else if k == 5 { assert(1u8 << 5u8 == 32u8) by (bit_vector); }
    else if k == 6 { assert(1u8 << 6u8 == 64u8) by (bit_vector); }
    else { assert(1u8 << 7u8 == 128u8) by (bit_vector); }
}

/// The coefficient of a parity row of the code.
fn vdm_element(row: usize, _col: usize) -> (r: u8)
    ensures
        r == row_coefficient(row as int),
{
    let k = (row % 8) as u8;
    proof { lemma_shl_one_is_pow2(k); }
    (1u8 << k).wrapping_mul(3)
}

/// Folds `data`, scaled by `coefficient`, into `result` byte by byte.
fn xor_encode(result: &mut Vec<u8>, data: &Vec<u8>, coefficient: u8)
    ensures
        final(result)@.len() == old(result)@.len(),
        forall|i: int| 0 <= i < old(result)@.len() ==> #[trigger] final(result)@[i] == (
            if i < data@.len() { old(result)@[i] ^ byte_mul(data@[i], coefficient) } else { old(result)@[i] }),
{
    let n = if result.len() < data.len() { result.len() } else { data.len() };
    let mut i: usize = 0;
    while i < n
        invariant
            n <= result@.len(),
            n <= data@.len(),
            n == old(result)@.len() || n == data@.len(),
            i <= n,
            result@.len() == old(result)@.len(),
            forall|k: int| 0 <= k < i ==> #[trigger] result@[k] == old(result)@[k] ^ byte_mul(data@[k], coefficient),
            forall|k: int| i <= k < result@.len() ==> #[trigger] result@[k] == old(result)@[k],
        decreases n - i,
    {
        let v = result[i] ^ data[i].wrapping_mul(coefficient);
        result.set(i, v);
        i = i + 1;
    }
}

/// Encode data chunks with parity shards.
///
/// Errors when there is no chunk at all. Otherwise the result is the
/// chunks, padded with zero chunks up to `data_shards`, followed by
/// `parity_shards` parity shards of the first chunk's length.
pub fn encode(data: &[Vec<u8>], data_shards: u8, parity_shards: u8) -> (r: core::result::Result<Vec<Vec<u8>>, String>)
    ensures
        match r {
            Err(e) => data@.len() == 0 && e@ == "No data to encode"@,
            Ok(shards) => data@.len() > 0
                && shard_views(shards@) == encoded_shards(shard_views(data@), data_shards as int, parity_shards as int),
        },
{
    let n = data.len();
    if n == 0 {
        return Err("No data to encode".to_string());
    }
    let ghost d = shard_views(data@);
    let shard_size = data[0].len();
    let mut padded: Vec<Vec<u8>> = Vec::new();
    let mut j: usize = 0;
    while j < n
        invariant
            n == data@.len(),
            d == shard_views(data@),
            j <= n,
            shard_views(padded@) == d.take(j as int),
        decreases n - j,
    {
        let c = copy_bytes(&data[j]);
        proof { lemma_shard_views_push(padded@, c); }
        padded.push(c);
        j = j + 1;
        assert(shard_views(padded@) =~= d.take(j as int));
    }
    assert(d.take(n as int) =~= d);
    let ghost zero = Seq::new(shard_size as nat, |i: int| 0u8);
    while padded.len() < data_shards as usize
        invariant
            n == d.len(),
            n > 0,
            shard_size == d[0].len(),
            zero == Seq::new(shard_size as nat, |i: int| 0u8),
            padded@.len() >= n,
            padded@.len() <= n || padded@.len() <= data_shards,
            shard_views(padded@) == d + Seq::new((padded@.len() - n) as nat, |k: int| zero),
        decreases data_shards as usize - padded.len(),
    {
        let z = zero_bytes(shard_size);
        proof { lemma_shard_views_push(padded@, z); }
        padded.push(z);
        assert(shard_views(padded@) =~= d + Seq::new((padded@.len() - n) as nat, |k: int| zero));
    }
    let ghost pd = shard_views(padded@);
    assert(pd =~= padded_chunks(d, data_shards as int));
    let mut result: Vec<Vec<u8>> = Vec::new();
    let mut j: usize = 0;
    while j < padded.len()
        invariant
            pd == shard_views(padded@),
            j <= padded@.len(),
            shard_views(result@) == pd.take(j as int),
        decreases padded.len() - j,
    {
        let c = copy_bytes(&padded[j]);
        proof { lemma_shard_views_push(result@, c); }
        result.push(c);
        j = j + 1;
        assert(shard_views(result@) =~= pd.take(j as int));
    }
    assert(pd.take(pd.len() as int) =~= pd);
    let mut p: u8 = 0;
    while p < parity_shards
        invariant
            pd == shard_views(padded@),
            pd == padded_chunks(d, data_shards as int),
            n == d.len(),
            n > 0,
            shard_size == d[0].len(),
            p <= parity_shards,
            shard_views(result@) == pd + Seq::new(p as nat, |q: int| parity_shard(pd, shard_size as nat, q + 1)),
        decreases parity_shards - p,
    {
        let mut parity = zero_bytes(shard_size);
        let coefficient = vdm_element(p as usize + 1, shard_size);
        let mut k: usize = 0;
        while k < padded.len()
            invariant
                pd == shard_views(padded@),
                k <= pd.len(),
                parity@.len() == shard_size,
                forall|i: int| 0 <= i < shard_size ==> #[trigger] parity@[i] == parity_byte(pd.take(k as int), coefficient, i),
            decreases padded.len() - k,
        {
            let ghost before = parity@;
            xor_encode(&mut parity, &padded[k], coefficient);
            proof {
                assert(pd.take(k + 1).drop_last() =~= pd.take(k as int));
                assert forall|i: int| 0 <= i < shard_size implies #[trigger] parity@[i] == parity_byte(pd.take(k + 1), coefficient, i) by {
                    assert(before[i] == parity_byte(pd.take(k as int), coefficient, i));
                }
            }
            k = k + 1;
        }
        assert(pd.take(pd.len() as int) =~= pd);
        assert(parity@ =~= parity_shard(pd, shard_size as nat, p as int + 1));
        proof { lemma_shard_views_push(result@, parity); }
        result.push(parity);
        p = p + 1;
        assert(shard_views(result@) =~= pd + Seq::new(p as nat, |q: int| parity_shard(pd, shard_size as nat, q + 1)));
    }
    assert(shard_views(result@) =~= encoded_shards(d, data_shards as int, parity_shards as int));
    Ok(result)
}

/// Read the data shards back: errors when fewer than `data_shards` shards
/// are given, and otherwise returns the first `data_shards` of them. The
/// shards carry no positions, so this gives back the data exactly when the
/// first `data_shards` shards of the encoding are the ones given (see
/// `law_positionless_shards_cannot_be_recovered` for why no decoder of
/// this shape can do more).
pub fn decode(shards: &[Vec<u8>], data_shards: u8) -> (r: core::result::Result<Vec<Vec<u8>>, String>)
    ensures
        match r {
            Err(e) => shards@.len() < data_shards && e@ == "Not enough shards to recover data"@,
            Ok(data) => shards@.len() >= data_shards
                && shard_views(data@) == decoded_shards(shard_views(shards@), data_shards as int),
        },
{
    if shards.len() < data_shards as usize {
        return Err("Not enough shards to recover data".to_string());
    }
    let ghost s = shard_views(shards@);
    let mut data: Vec<Vec<u8>> = Vec::new();
    let mut j: usize = 0;
    while j < data_shards as usize
        invariant
            s == shard_views(shards@),
            data_shards <= s.len(),
            j <= data_shards,
            shard_views(data@) == s.take(j as int),
        decreases data_shards as usize - j,
    {
        let c = copy_bytes(&shards[j]);
        proof { lemma_shard_views_push(data@, c); }
        data.push(c);
        j = j + 1;
        assert(shard_views(data@) =~= s.take(j as int));
    }
    Ok(data)
}

/// Recovery from surviving shards needs their positions: two different
/// one-chunk inputs, coded with one data and one parity shard, leave the
/// same single surviving shard when the first loses its data shard and the
/// second its parity shard. So no function of the surviving shards alone
/// (such as `decode`) gives back the data after every loss of up to the
/// parity count of shards.
pub proof fn law_positionless_shards_cannot_be_recovered()
    ensures
        encoded_shards(seq![seq![1u8]], 1, 1) == seq![seq![1u8], seq![6u8]],
        encoded_shards(seq![seq![6u8]], 1, 1) == seq![seq![6u8], seq![36u8]],
        encoded_shards(seq![seq![1u8]], 1, 1).remove(0) == encoded_shards(seq![seq![6u8]], 1, 1).remove(1),
        seq![seq![1u8]] != seq![seq![6u8]],
{
    vstd::arithmetic::power2::lemma2_to64();
    assert(row_coefficient(1) == 6u8);
    assert(byte_mul(1u8, 6u8) == 6u8);
    assert(byte_mul(6u8, 6u8) == 36u8);
    assert(0u8 ^ 6u8 == 6u8) by (bit_vector);
    assert(0u8 ^ 36u8 == 36u8) by (bit_vector);
    let a = seq![seq![1u8]];
    let b = seq![seq![6u8]];
    assert(padded_chunks(a, 1) == a);
    assert(padded_chunks(b, 1) == b);
    assert(a.drop_last() =~= Seq::<Seq<u8>>::empty());
    assert(b.drop_last() =~= Seq::<Seq<u8>>::empty());
    assert(parity_byte(a.drop_last(), 6u8, 0) == 0u8);
    assert(parity_byte(b.drop_last(), 6u8, 0) == 0u8);
    assert(a.last()[0] == 1u8);
    assert(b.last()[0] == 6u8);
    assert(parity_byte(a, 6u8, 0) == 6u8);
    assert(parity_byte(b, 6u8, 0) == 36u8);
    assert(parity_shard(a, 1, 1) =~= seq![6u8]);
    assert(parity_shard(b, 1, 1) =~= seq![36u8]);
    assert(encoded_shards(a, 1, 1) =~= seq![seq![1u8], seq![6u8]]);
    assert(encoded_shards(b, 1, 1) =~= seq![seq![6u8], seq![36u8]]);
    assert(seq![seq![1u8], seq![6u8]].remove(0) =~= seq![seq![6u8]]);
    assert(seq![seq![6u8], seq![36u8]].remove(1) =~= seq![seq![6u8]]);
    assert(a[0][0] != b[0][0]);
}

/// Whether data survives the loss of `lost_shards` out of `total_shards`
/// shards of which `parity_shards` are parity: exactly when no more shards
/// are lost than there are parity shards.
pub fn can_recover(total_shards: usize, lost_shards: usize, parity_shards: u8) -> (r: bool)
    requires
        lost_shards <= total_shards,
        parity_shards <= total_shards,
    ensures
        r == (lost_shards <= parity_shards),
{
    let available = total_shards - lost_shards;
    available >= (total_shards - parity_shards as usize)
}

/// Minimum number of shards needed to rebuild data.
pub fn min_shards_needed(total_shards: u8, parity_shards: u8) -> (r: u8)
    requires
        parity_shards <= total_shards,
    ensures
        r == total_shards - parity_shards,
{
    total_shards - parity_shards
}

/// Decoding what `encode` produced gives back the data chunks, padded
/// with zero chunks up to `data_shards`, whenever there are at most
/// `data_shards` chunks; with exactly that many, the chunks themselves.
pub proof fn law_decode_inverts_encode(data: Seq<Seq<u8>>, data_shards: u8, parity_shards: u8)
    requires
        0 < data.len() <= data_shards,
    ensures
        decoded_shards(encoded_shards(data, data_shards as int, parity_shards as int), data_shards as int)
            == padded_chunks(data, data_shards as int),
        data.len() == data_shards ==>
            decoded_shards(encoded_shards(data, data_shards as int, parity_shards as int), data_shards as int) == data,
{
    let e = encoded_shards(data, data_shards as int, parity_shards as int);
    assert(padded_chunks(data, data_shards as int).len() == data_shards);
    assert(e.take(data_shards as int) =~= padded_chunks(data, data_shards as int));
}

/// `encode` yields one shard per padded data chunk plus one per parity row.
pub proof fn law_encode_shard_count(data: Seq<Seq<u8>>, data_shards: u8, parity_shards: u8)
    requires
        0 < data.len(),
    ensures
        encoded_shards(data, data_shards as int, parity_shards as int).len()
            == (if data.len() < data_shards { data_shards as int } else { data.len() as int }) + parity_shards,
{
}

/// The first shards that `encode` produces are the data chunks themselves.
pub proof fn law_encode_is_systematic(data: Seq<Seq<u8>>, data_shards: u8, parity_shards: u8, i: int)
    requires
        0 <= i < data.len(),
    ensures
        encoded_shards(data, data_shards as int, parity_shards as int)[i] == data[i],
{
}

} // verus!
