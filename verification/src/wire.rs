//! The byte-level encoding shared by the agent channel: 32-bit
//! big-endian integers, length-prefixed byte strings, and the
//! `length ++ payload` framing of ssh-agent messages.
use vstd::prelude::*;

verus! {

/// The value of four big-endian bytes.
pub open spec fn spec_be32_val(b0: u8, b1: u8, b2: u8, b3: u8) -> u32 {
    ((b0 as u32) << 24) | ((b1 as u32) << 16) | ((b2 as u32) << 8) | (b3 as u32)
}

/// The four big-endian bytes of a 32-bit value.
pub open spec fn spec_be32(x: u32) -> Seq<u8> {
    seq![(x >> 24) as u8, ((x >> 16) & 0xff) as u8, ((x >> 8) & 0xff) as u8, (x & 0xff) as u8]
}

/// Encoding then decoding a 32-bit value gives it back.
pub proof fn lemma_be32_round_trip(x: u32)
    ensures
        spec_be32(x).len() == 4,
        spec_be32_val(spec_be32(x)[0], spec_be32(x)[1], spec_be32(x)[2], spec_be32(x)[3]) == x,
{
    assert(((((x >> 24) as u8) as u32) << 24) | (((((x >> 16) & 0xff) as u8) as u32) << 16) | (((((
    x >> 8) & 0xff) as u8) as u32) << 8) | (((x & 0xff) as u8) as u32) == x) by (bit_vector);
}

/// Decoding four bytes then re-encoding gives the same bytes.
pub proof fn lemma_be32_val_round_trip(b0: u8, b1: u8, b2: u8, b3: u8)
    ensures
        spec_be32(spec_be32_val(b0, b1, b2, b3)) == seq![b0, b1, b2, b3],
{
    let x = spec_be32_val(b0, b1, b2, b3);
    assert((((b0 as u32) << 24) | ((b1 as u32) << 16) | ((b2 as u32) << 8) | (b3 as u32)) >> 24
        == b0 as u32) by (bit_vector);
    assert(((((b0 as u32) << 24) | ((b1 as u32) << 16) | ((b2 as u32) << 8) | (b3 as u32)) >> 16)
        & 0xff == b1 as u32) by (bit_vector);
    assert(((((b0 as u32) << 24) | ((b1 as u32) << 16) | ((b2 as u32) << 8) | (b3 as u32)) >> 8)
        & 0xff == b2 as u32) by (bit_vector);
    assert((((b0 as u32) << 24) | ((b1 as u32) << 16) | ((b2 as u32) << 8) | (b3 as u32)) & 0xff
        == b3 as u32) by (bit_vector);
    assert(spec_be32(x) =~= seq![b0, b1, b2, b3]);
}

/// Appends the four big-endian bytes of `x` to `buf`.
pub fn append_be32(buf: &mut Vec<u8>, x: u32)
    ensures
        final (buf)@ == old(buf)@ + spec_be32(x),
{
    buf.push(#[verifier::truncate] ((x >> 24) as u8));
    buf.push(#[verifier::truncate] (((x >> 16) & 0xff) as u8));
    buf.push(#[verifier::truncate] (((x >> 8) & 0xff) as u8));
    buf.push(#[verifier::truncate] ((x & 0xff) as u8));
    proof {
        assert(buf@ =~= old(buf)@ + spec_be32(x));
    }
}

/// Reads a big-endian u32 at `pos`; `None` exactly when fewer than four
/// bytes remain.
pub fn read_be32(data: &[u8], pos: usize) -> (r: Option<(u32, usize)>)
    ensures
        match r {
            Some(vp) => pos + 4 <= data@.len() && vp.1 == pos + 4 && vp.0 == spec_be32_val(
                data@[pos as int],
                data@[pos as int + 1],
                data@[pos as int + 2],
                data@[pos as int + 3],
            ),
            None => pos + 4 > data@.len(),
        },
{
    let n = data.len();
    if n < 4 || pos > n - 4 {
        return None;
    }
    let b0 = data[pos];
    let b1 = data[pos + 1];
    let b2 = data[pos + 2];
    let b3 = data[pos + 3];
    let v: u32 = ((b0 as u32) << 24) | ((b1 as u32) << 16) | ((b2 as u32) << 8) | (b3 as u32);
    Some((v, pos + 4))
}

/// A length-prefixed byte string: four big-endian length bytes followed
/// by the payload itself.
pub open spec fn spec_lp(d: Seq<u8>) -> Seq<u8>
    recommends
        d.len() < 0x1_0000_0000,
{
    spec_be32(d.len() as u32) + d
}

/// Appends `data` to `buf` as a length-prefixed string, as the agent
/// protocol's `write_string` does.
pub fn append_lp(buf: &mut Vec<u8>, data: &[u8])
    requires
        data@.len() < 0x1_0000_0000,
    ensures
        final (buf)@ == old(buf)@ + spec_lp(data@),
{
    append_be32(buf, data.len() as u32);
    let mut i: usize = 0;
    let n = data.len();
    while i < n
        invariant
            n == data@.len(),
            0 <= i <= n,
            buf@ =~= old(buf)@ + spec_be32(data@.len() as u32) + data@.take(i as int),
        decreases n - i,
    {
        buf.push(data[i]);
        proof {
            assert(data@.take(i as int).push(data@[i as int]) =~= data@.take(i as int + 1));
        }
        i = i + 1;
    }
    proof {
        assert(data@.take(n as int) =~= data@);
        assert(buf@ =~= old(buf)@ + spec_lp(data@));
    }
}

/// Copies `data[from..to]` into a fresh vector.
pub fn slice_range_to_vec(data: &[u8], from: usize, to: usize) -> (r: Vec<u8>)
    requires
        from <= to <= data@.len(),
    ensures
        r@ == data@.subrange(from as int, to as int),
{
    let mut out: Vec<u8> = Vec::new();
    let mut i: usize = from;
    while i < to
        invariant
            from <= i <= to <= data@.len(),
            out@ =~= data@.subrange(from as int, i as int),
        decreases to - i,
    {
        out.push(data[i]);
        proof {
            assert(data@.subrange(from as int, i as int).push(data@[i as int]) =~= data@.subrange(
                from as int,
                i as int + 1,
            ));
        }
        i = i + 1;
    }
    out
}

/// Whether a well-formed length-prefixed string starts at `pos` of
/// `data`, and where its payload lies if so.
pub open spec fn spec_lp_at(data: Seq<u8>, pos: int) -> bool {
    &&& pos + 4 <= data.len()
    &&& pos + 4 + spec_be32_val(data[pos], data[pos + 1], data[pos + 2], data[pos + 3])
        <= data.len()
}

/// The payload of the length-prefixed string at `pos`.
pub open spec fn spec_lp_payload(data: Seq<u8>, pos: int) -> Seq<u8>
    recommends
        spec_lp_at(data, pos),
{
    data.subrange(
        pos + 4,
        pos + 4 + spec_be32_val(data[pos], data[pos + 1], data[pos + 2], data[pos + 3]),
    )
}

/// The position just past the length-prefixed string at `pos`.
pub open spec fn spec_lp_end(data: Seq<u8>, pos: int) -> int
    recommends
        spec_lp_at(data, pos),
{
    pos + 4 + spec_be32_val(data[pos], data[pos + 1], data[pos + 2], data[pos + 3])
}

/// Reads the length-prefixed string at `pos`, as the agent protocol's
/// `read_string` does; `None` exactly when the length header or the
/// payload runs past the end of `data`.
pub fn read_lp(data: &[u8], pos: usize) -> (r: Option<(Vec<u8>, usize)>)
    ensures
        match r {
            Some(pe) => {
                &&& spec_lp_at(data@, pos as int)
                &&& pe.0@ == spec_lp_payload(data@, pos as int)
                &&& pe.1 == spec_lp_end(data@, pos as int)
            },
            None => !spec_lp_at(data@, pos as int),
        },
{
    let n = data.len();
    match read_be32(data, pos) {
        None => None,
        Some((len, after)) => {
            let len_us = len as usize;
            if len_us > n - after {
                return None;
            }
            let payload = slice_range_to_vec(data, after, after + len_us);
            Some((payload, after + len_us))
        },
    }
}

/// Putting a payload behind a length prefix and reading it back yields
/// the payload and consumes exactly the prefix plus the payload,
/// whatever bytes follow.
pub proof fn lemma_lp_round_trip(payload: Seq<u8>, rest: Seq<u8>)
    requires
        payload.len() < 0x1_0000_0000,
    ensures
        spec_lp_at(spec_lp(payload) + rest, 0),
        spec_lp_payload(spec_lp(payload) + rest, 0) == payload,
        spec_lp_end(spec_lp(payload) + rest, 0) == 4 + payload.len(),
{
    let whole = spec_lp(payload) + rest;
    lemma_be32_round_trip(payload.len() as u32);
    assert(whole[0] == spec_be32(payload.len() as u32)[0]);
    assert(whole[1] == spec_be32(payload.len() as u32)[1]);
    assert(whole[2] == spec_be32(payload.len() as u32)[2]);
    assert(whole[3] == spec_be32(payload.len() as u32)[3]);
    assert(spec_be32_val(whole[0], whole[1], whole[2], whole[3]) == payload.len());
    assert(spec_lp_payload(whole, 0) =~= payload);
}

} // verus!
