//! Binary wire format: big-endian integers, the five-byte frame header, the
//! positive-acknowledgement frame and the `[key][len][value]` triple layout
//! used by transfers, dumps and bulk writes.
//!
//! A frame is `[opcode: u8][length: u32 big-endian][payload]` where `length`
//! counts the whole frame, header included. The positive acknowledgement is
//! the fixed seven-byte frame with opcode 0 and body `ok`.

use vstd::prelude::*;

verus! {

/// The eight big-endian bytes of `x`.
pub open spec fn spec_u64_be(x: u64) -> Seq<u8> {
    seq![
        ((x >> 56) & 0xff) as u8,
        ((x >> 48) & 0xff) as u8,
        ((x >> 40) & 0xff) as u8,
        ((x >> 32) & 0xff) as u8,
        ((x >> 24) & 0xff) as u8,
        ((x >> 16) & 0xff) as u8,
        ((x >> 8) & 0xff) as u8,
        (x & 0xff) as u8,
    ]
}

/// The value read from eight big-endian bytes.
pub open spec fn spec_u64_from_be(s: Seq<u8>) -> u64
    recommends
        s.len() == 8,
{
    (((s[0] as u64) << 56) | ((s[1] as u64) << 48) | ((s[2] as u64) << 40) | ((s[3] as u64) << 32)
        | ((s[4] as u64) << 24) | ((s[5] as u64) << 16) | ((s[6] as u64) << 8) | (s[7] as u64))
}

/// The four big-endian bytes of `x`.
pub open spec fn spec_u32_be(x: u32) -> Seq<u8> {
    seq![
        ((x >> 24) & 0xff) as u8,
        ((x >> 16) & 0xff) as u8,
        ((x >> 8) & 0xff) as u8,
        (x & 0xff) as u8,
    ]
}

/// The value read from four big-endian bytes.
pub open spec fn spec_u32_from_be(s: Seq<u8>) -> u32
    recommends
        s.len() == 4,
{
    (((s[0] as u32) << 24) | ((s[1] as u32) << 16) | ((s[2] as u32) << 8) | (s[3] as u32))
}

/// Reading back the big-endian bytes of a `u64` yields the value again.
pub proof fn lemma_u64_be_roundtrip(x: u64)
    ensures
        spec_u64_from_be(spec_u64_be(x)) == x,
{
    assert((((((x >> 56) & 0xff) as u8) as u64) << 56) | (((((x >> 48) & 0xff) as u8) as u64)
        << 48) | (((((x >> 40) & 0xff) as u8) as u64) << 40) | (((((x >> 32) & 0xff) as u8) as u64)
        << 32) | (((((x >> 24) & 0xff) as u8) as u64) << 24) | (((((x >> 16) & 0xff) as u8) as u64)
        << 16) | (((((x >> 8) & 0xff) as u8) as u64) << 8) | (((x & 0xff) as u8) as u64) == x)
        by (bit_vector);
}

/// Reading back the big-endian bytes of a `u32` yields the value again.
pub proof fn lemma_u32_be_roundtrip(x: u32)
    ensures
        spec_u32_from_be(spec_u32_be(x)) == x,
{
    assert((((((x >> 24) & 0xff) as u8) as u32) << 24) | (((((x >> 16) & 0xff) as u8) as u32)
        << 16) | (((((x >> 8) & 0xff) as u8) as u32) << 8) | (((x & 0xff) as u8) as u32) == x)
        by (bit_vector);
}

/// The big-endian bytes of `x` as a vector.
pub fn u64_be_bytes(x: u64) -> (r: Vec<u8>)
    ensures
        r@ == spec_u64_be(x),
{
    proof {
        assert((x >> 56) & 0xff < 256 && (x >> 48) & 0xff < 256 && (x >> 40) & 0xff < 256 && (x
            >> 32) & 0xff < 256 && (x >> 24) & 0xff < 256 && (x >> 16) & 0xff < 256 && (x >> 8)
            & 0xff < 256 && x & 0xff < 256) by (bit_vector);
    }
    let mut r: Vec<u8> = Vec::new();
    r.push(((x >> 56) & 0xff) as u8);
    r.push(((x >> 48) & 0xff) as u8);
    r.push(((x >> 40) & 0xff) as u8);
    r.push(((x >> 32) & 0xff) as u8);
    r.push(((x >> 24) & 0xff) as u8);
    r.push(((x >> 16) & 0xff) as u8);
    r.push(((x >> 8) & 0xff) as u8);
    r.push((x & 0xff) as u8);
    proof {
        assert(r@ =~= spec_u64_be(x));
    }
    r
}

/// The big-endian bytes of `x` as a vector.
pub fn u32_be_bytes(x: u32) -> (r: Vec<u8>)
    ensures
        r@ == spec_u32_be(x),
{
    proof {
        assert((x >> 24) & 0xff < 256 && (x >> 16) & 0xff < 256 && (x >> 8) & 0xff < 256 && x
            & 0xff < 256) by (bit_vector);
    }
    let mut r: Vec<u8> = Vec::new();
    r.push(((x >> 24) & 0xff) as u8);
    r.push(((x >> 16) & 0xff) as u8);
    r.push(((x >> 8) & 0xff) as u8);
    r.push((x & 0xff) as u8);
    proof {
        assert(r@ =~= spec_u32_be(x));
    }
    r
}

/// Reads the big-endian `u64` stored at offset `i` of `msg`.
pub fn read_u64_at(msg: &Vec<u8>, i: usize) -> (r: u64)
    requires
        i + 8 <= msg@.len(),
    ensures
        r == spec_u64_from_be(msg@.subrange(i as int, i + 8)),
{
    let n: usize = msg.len();
    assert(i + 8 <= n);
    let r: u64 = ((msg[i] as u64) << 56) | ((msg[i + 1] as u64) << 48) | ((msg[i + 2] as u64)
        << 40) | ((msg[i + 3] as u64) << 32) | ((msg[i + 4] as u64) << 24) | ((msg[i + 5] as u64)
        << 16) | ((msg[i + 6] as u64) << 8) | (msg[i + 7] as u64);
    proof {
        let s = msg@.subrange(i as int, i + 8);
        assert(s[0] == msg@[i as int] && s[1] == msg@[i + 1] && s[2] == msg@[i + 2] && s[3] == msg@[
            i + 3] && s[4] == msg@[i + 4] && s[5] == msg@[i + 5] && s[6] == msg@[i + 6] && s[7]
            == msg@[i + 7]);
    }
    r
}

/// Reads the big-endian `u32` stored at offset `i` of `msg`.
pub fn read_u32_at(msg: &Vec<u8>, i: usize) -> (r: u32)
    requires
        i + 4 <= msg@.len(),
    ensures
        r == spec_u32_from_be(msg@.subrange(i as int, i + 4)),
{
    let n: usize = msg.len();
    assert(i + 4 <= n);
    let r: u32 = ((msg[i] as u32) << 24) | ((msg[i + 1] as u32) << 16) | ((msg[i + 2] as u32) << 8)
        | (msg[i + 3] as u32);
    proof {
        let s = msg@.subrange(i as int, i + 4);
        assert(s[0] == msg@[i as int] && s[1] == msg@[i + 1] && s[2] == msg@[i + 2] && s[3] == msg@[
            i + 3]);
    }
    r
}

/// The big-endian bytes of a `u64` are the only eight bytes that read back as
/// that value.
pub proof fn lemma_u64_from_be_roundtrip(s: Seq<u8>)
    requires
        s.len() == 8,
    ensures
        spec_u64_be(spec_u64_from_be(s)) == s,
{
    let b0 = s[0];
    let b1 = s[1];
    let b2 = s[2];
    let b3 = s[3];
    let b4 = s[4];
    let b5 = s[5];
    let b6 = s[6];
    let b7 = s[7];
    let x = spec_u64_from_be(s);
    assert(x == ((b0 as u64) << 56) | ((b1 as u64) << 48) | ((b2 as u64) << 40) | ((b3 as u64)
        << 32) | ((b4 as u64) << 24) | ((b5 as u64) << 16) | ((b6 as u64) << 8) | (b7 as u64));
    assert({
        let y = ((b0 as u64) << 56) | ((b1 as u64) << 48) | ((b2 as u64) << 40) | ((b3 as u64)
            << 32) | ((b4 as u64) << 24) | ((b5 as u64) << 16) | ((b6 as u64) << 8) | (b7 as u64);
        ((y >> 56) & 0xff) as u8 == b0 && ((y >> 48) & 0xff) as u8 == b1 && ((y >> 40) & 0xff) as u8
            == b2 && ((y >> 32) & 0xff) as u8 == b3 && ((y >> 24) & 0xff) as u8 == b4 && ((y >> 16)
            & 0xff) as u8 == b5 && ((y >> 8) & 0xff) as u8 == b6 && (y & 0xff) as u8 == b7
    }) by (bit_vector);
    assert(spec_u64_be(x) =~= s);
}

/// The big-endian bytes of a `u32` are the only four bytes that read back as
/// that value.
pub proof fn lemma_u32_from_be_roundtrip(s: Seq<u8>)
    requires
        s.len() == 4,
    ensures
        spec_u32_be(spec_u32_from_be(s)) == s,
{
    let b0 = s[0];
    let b1 = s[1];
    let b2 = s[2];
    let b3 = s[3];
    let x = spec_u32_from_be(s);
    assert(x == ((b0 as u32) << 24) | ((b1 as u32) << 16) | ((b2 as u32) << 8) | (b3 as u32));
    assert({
        let y = ((b0 as u32) << 24) | ((b1 as u32) << 16) | ((b2 as u32) << 8) | (b3 as u32);
        ((y >> 24) & 0xff) as u8 == b0 && ((y >> 16) & 0xff) as u8 == b1 && ((y >> 8) & 0xff) as u8
            == b2 && (y & 0xff) as u8 == b3
    }) by (bit_vector);
    assert(spec_u32_be(x) =~= s);
}

/// The wire form of one key-value pair: key, value length, value bytes.
pub open spec fn spec_pair(key: u64, val: Seq<u8>) -> Seq<u8>
    recommends
        val.len() <= u32::MAX,
{
    spec_u64_be(key) + spec_u32_be(val.len() as u32) + val
}

/// The wire form of a sequence of key-value pairs, one after the other.
pub open spec fn spec_pairs(ps: Seq<(u64, Seq<u8>)>) -> Seq<u8>
    decreases ps.len(),
{
    if ps.len() == 0 {
        Seq::empty()
    } else {
        spec_pair(ps[0].0, ps[0].1) + spec_pairs(ps.drop_first())
    }
}

/// A pair vector seen as a sequence of (key, value bytes).
pub open spec fn pairs_view(s: Seq<(u64, Vec<u8>)>) -> Seq<(u64, Seq<u8>)> {
    s.map_values(|p: (u64, Vec<u8>)| (p.0, p.1@))
}

/// Every value is short enough for its length to fit the wire's `u32` field.
pub open spec fn wf_pairs(ps: Seq<(u64, Seq<u8>)>) -> bool {
    forall|i: int| 0 <= i < ps.len() ==> (#[trigger] ps[i]).1.len() <= u32::MAX
}

/// Appending a pair appends its wire form.
pub proof fn lemma_spec_pairs_push(q: Seq<(u64, Seq<u8>)>, p: (u64, Seq<u8>))
    ensures
        spec_pairs(q.push(p)) == spec_pairs(q) + spec_pair(p.0, p.1),
    decreases q.len(),
{
    if q.len() == 0 {
        assert(q.push(p).drop_first() =~= Seq::<(u64, Seq<u8>)>::empty());
        assert(q.push(p)[0] == p);
        assert(spec_pairs(q.push(p)) == spec_pair(p.0, p.1) + spec_pairs(
            Seq::<(u64, Seq<u8>)>::empty()));
        assert(spec_pairs(q.push(p)) =~= spec_pairs(q) + spec_pair(p.0, p.1));
    } else {
        lemma_spec_pairs_push(q.drop_first(), p);
        assert(q.push(p).drop_first() =~= q.drop_first().push(p));
        assert(q.push(p)[0] == q[0]);
        assert(spec_pairs(q.push(p)) =~= spec_pairs(q) + spec_pair(p.0, p.1));
    }
}

/// A non-empty pair encoding determines its first pair and where it ends.
pub proof fn lemma_pairs_decomp(q: Seq<(u64, Seq<u8>)>, rem: Seq<u8>)
    requires
        wf_pairs(q),
        spec_pairs(q) == rem,
        rem.len() > 0,
    ensures
        q.len() > 0,
        rem.len() >= 12 + q[0].1.len(),
        spec_u64_from_be(rem.subrange(0, 8)) == q[0].0,
        spec_u32_from_be(rem.subrange(8, 12)) == q[0].1.len() as u32,
        rem.subrange(12, 12 + q[0].1.len() as int) == q[0].1,
        spec_pairs(q.drop_first()) == rem.skip(12 + q[0].1.len() as int),
{
    assert(q.len() > 0);
    let vlen = q[0].1.len() as int;
    assert(rem == spec_pair(q[0].0, q[0].1) + spec_pairs(q.drop_first()));
    assert(rem.len() >= 12 + vlen);
    assert(rem.subrange(0, 8) =~= spec_u64_be(q[0].0));
    lemma_u64_be_roundtrip(q[0].0);
    assert(rem.subrange(8, 12) =~= spec_u32_be(q[0].1.len() as u32));
    lemma_u32_be_roundtrip(q[0].1.len() as u32);
    assert(rem.subrange(12, 12 + vlen) =~= q[0].1);
    assert(rem.skip(12 + vlen) =~= spec_pairs(q.drop_first()));
}

/// The triple layout is unambiguous: equal encodings come from equal pair
/// sequences.
pub proof fn lemma_pairs_inj(q1: Seq<(u64, Seq<u8>)>, q2: Seq<(u64, Seq<u8>)>)
    requires
        wf_pairs(q1),
        wf_pairs(q2),
        spec_pairs(q1) == spec_pairs(q2),
    ensures
        q1 == q2,
    decreases q1.len(),
{
    let rem = spec_pairs(q1);
    if rem.len() == 0 {
        if q1.len() > 0 {
            lemma_pairs_decomp(q1, rem);
        }
        if q2.len() > 0 {
            lemma_pairs_decomp(q2, rem);
        }
        assert(q1 =~= q2);
    } else {
        lemma_pairs_decomp(q1, rem);
        lemma_pairs_decomp(q2, rem);
        assert(q1[0].1.len() == q2[0].1.len()) by {
            assert(q1[0].1.len() as u32 == q2[0].1.len() as u32);
        }
        assert(q1[0] == q2[0]);
        assert(wf_pairs(q1.drop_first()));
        assert(wf_pairs(q2.drop_first()));
        lemma_pairs_inj(q1.drop_first(), q2.drop_first());
        assert(q1.len() == q2.len());
        assert forall|i: int| 0 <= i < q1.len() implies q1[i] == q2[i] by {
            if i > 0 {
                assert(q1.drop_first()[i - 1] == q1[i]);
                assert(q2.drop_first()[i - 1] == q2[i]);
            }
        }
        assert(q1 =~= q2);
    }
}

/// Encodes the pairs in order as `[key][len][value]` triples.
pub fn encode_kv_pairs(pairs: &Vec<(u64, Vec<u8>)>) -> (r: Vec<u8>)
    requires
        wf_pairs(pairs_view(pairs@)),
    ensures
        r@ == spec_pairs(pairs_view(pairs@)),
{
    let mut out: Vec<u8> = Vec::new();
    let mut i: usize = 0;
    while i < pairs.len()
        invariant
            i <= pairs@.len(),
            wf_pairs(pairs_view(pairs@)),
            out@ == spec_pairs(pairs_view(pairs@).take(i as int)),
        decreases pairs@.len() - i,
    {
        proof {
            assert(pairs_view(pairs@)[i as int] == (pairs@[i as int].0, pairs@[i as int].1@));
        }
        let key: u64 = pairs[i].0;
        let vlen: usize = pairs[i].1.len();
        let mut key_bytes = u64_be_bytes(key);
        out.append(&mut key_bytes);
        let mut len_bytes = u32_be_bytes(vlen as u32);
        out.append(&mut len_bytes);
        append_bytes(&mut out, &pairs[i].1);
        proof {
            let pv = pairs_view(pairs@);
            lemma_spec_pairs_push(pv.take(i as int), pv[i as int]);
            assert(pv.take(i + 1) =~= pv.take(i as int).push(pv[i as int]));
            assert(out@ =~= spec_pairs(pv.take(i + 1)));
        }
        i = i + 1;
    }
    proof {
        assert(pairs_view(pairs@).take(pairs@.len() as int) =~= pairs_view(pairs@));
    }
    out
}

/// Decodes the `[key][len][value]` triples that fill `msg` from `start` to its
/// end. Succeeds exactly when the bytes are such an encoding, and then returns
/// the encoded pairs.
pub fn decode_kv_pairs(msg: &Vec<u8>, start: usize) -> (r: Option<Vec<(u64, Vec<u8>)>>)
    requires
        start <= msg@.len(),
    ensures
        r matches Some(ps) ==> msg@.skip(start as int) == spec_pairs(pairs_view(ps@)) && wf_pairs(
            pairs_view(ps@),
        ),
        r is None ==> forall|q: Seq<(u64, Seq<u8>)>|
            wf_pairs(q) ==> msg@.skip(start as int) != spec_pairs(q),
{
    let n: usize = msg.len();
    let mut out: Vec<(u64, Vec<u8>)> = Vec::new();
    let mut i: usize = start;
    while i < n
        invariant
            start <= i <= n == msg@.len(),
            msg@.subrange(start as int, i as int) == spec_pairs(pairs_view(out@)),
            wf_pairs(pairs_view(out@)),
            forall|q: Seq<(u64, Seq<u8>)>|
                wf_pairs(q) && msg@.skip(start as int) == spec_pairs(q) ==> exists|
                    q2: Seq<(u64, Seq<u8>)>,
                |
                    wf_pairs(q2) && msg@.skip(i as int) == spec_pairs(q2),
        decreases n - i,
    {
        if n - i < 12 {
            proof {
                assert forall|q: Seq<(u64, Seq<u8>)>| wf_pairs(q) implies msg@.skip(start as int)
                    != spec_pairs(q) by {
                    if msg@.skip(start as int) == spec_pairs(q) {
                        let q2 = choose|q2: Seq<(u64, Seq<u8>)>|
                            wf_pairs(q2) && msg@.skip(i as int) == spec_pairs(q2);
                        lemma_pairs_decomp(q2, msg@.skip(i as int));
                    }
                }
            }
            return None;
        }
        let key = read_u64_at(msg, i);
        let vlen32 = read_u32_at(msg, i + 8);
        let vlen = vlen32 as usize;
        proof {
            assert(msg@.subrange(i as int, i + 8) =~= msg@.skip(i as int).subrange(0, 8));
            assert(msg@.subrange(i + 8, i + 12) =~= msg@.skip(i as int).subrange(8, 12));
        }
        if vlen > n - (i + 12) {
            proof {
                assert forall|q: Seq<(u64, Seq<u8>)>| wf_pairs(q) implies msg@.skip(start as int)
                    != spec_pairs(q) by {
                    if msg@.skip(start as int) == spec_pairs(q) {
                        let q2 = choose|q2: Seq<(u64, Seq<u8>)>|
                            wf_pairs(q2) && msg@.skip(i as int) == spec_pairs(q2);
                        lemma_pairs_decomp(q2, msg@.skip(i as int));
                    }
                }
            }
            return None;
        }
        let value = copy_range(msg, i + 12, i + 12 + vlen);
        proof {
            let pv = pairs_view(out@);
            let p: (u64, Seq<u8>) = (key, value@);
            lemma_spec_pairs_push(pv, p);
            assert(pairs_view(out@.push((key, value))) =~= pv.push(p));
            lemma_u64_from_be_roundtrip(msg@.subrange(i as int, i + 8));
            lemma_u32_from_be_roundtrip(msg@.subrange(i + 8, i + 12));
            assert(spec_pair(key, value@) =~= msg@.subrange(i as int, i + 12 + vlen));
            assert(msg@.subrange(start as int, i + 12 + vlen) =~= msg@.subrange(
                start as int,
                i as int,
            ) + msg@.subrange(i as int, i + 12 + vlen));
            assert(msg@.subrange(start as int, i + 12 + vlen) == spec_pairs(
                pairs_view(out@.push((key, value)))));
            assert forall|q: Seq<(u64, Seq<u8>)>|
                wf_pairs(q) && msg@.skip(start as int) == spec_pairs(q) implies exists|
                q2: Seq<(u64, Seq<u8>)>,
            |
                wf_pairs(q2) && msg@.skip((i + 12 + vlen) as int) == spec_pairs(q2) by {
                let q2 = choose|q2: Seq<(u64, Seq<u8>)>|
                    wf_pairs(q2) && msg@.skip(i as int) == spec_pairs(q2);
                lemma_pairs_decomp(q2, msg@.skip(i as int));
                let q3 = q2.drop_first();
                assert(wf_pairs(q3));
                assert(q2[0].1.len() == vlen);
                assert(msg@.skip((i + 12 + vlen) as int) =~= msg@.skip(i as int).skip(
                    12 + q2[0].1.len() as int));
                assert(wf_pairs(q3) && msg@.skip((i + 12 + vlen) as int) == spec_pairs(q3));
            }
        }
        out.push((key, value));
        i = i + 12 + vlen;
    }
    proof {
        assert(msg@.skip(start as int) =~= msg@.subrange(start as int, n as int));
    }
    Some(out)
}

/// The frame with the given opcode and payload; its length field counts the
/// five header bytes as well.
pub open spec fn spec_frame(op: u8, body: Seq<u8>) -> Seq<u8>
    recommends
        body.len() + 5 <= u32::MAX,
{
    seq![op] + spec_u32_be((body.len() + 5) as u32) + body
}

/// The fixed seven-byte positive acknowledgement: opcode 0, length 7, `ok`.
pub open spec fn ack_bytes() -> Seq<u8> {
    seq![0u8, 0u8, 0u8, 0u8, 7u8, 111u8, 107u8]
}

/// Appends every byte of `src` to `out`.
pub fn append_bytes(out: &mut Vec<u8>, src: &Vec<u8>)
    ensures
        final(out)@ == old(out)@ + src@,
{
    let mut j: usize = 0;
    while j < src.len()
        invariant
            j <= src@.len(),
            out@ == old(out)@ + src@.take(j as int),
        decreases src@.len() - j,
    {
        out.push(src[j]);
        proof {
            assert(old(out)@ + src@.take(j + 1) =~= (old(out)@ + src@.take(j as int)).push(
                src@[j as int]));
        }
        j = j + 1;
    }
    proof {
        assert(old(out)@ + src@.take(src@.len() as int) =~= old(out)@ + src@);
    }
}

/// Copies `msg[from..to]` into a fresh vector.
pub fn copy_range(msg: &Vec<u8>, from: usize, to: usize) -> (r: Vec<u8>)
    requires
        from <= to <= msg@.len(),
    ensures
        r@ == msg@.subrange(from as int, to as int),
{
    let mut r: Vec<u8> = Vec::new();
    let mut j: usize = from;
    while j < to
        invariant
            from <= j <= to <= msg@.len(),
            r@ == msg@.subrange(from as int, j as int),
        decreases to - j,
    {
        r.push(msg[j]);
        proof {
            assert(msg@.subrange(from as int, j + 1) =~= msg@.subrange(from as int, j as int).push(
                msg@[j as int]));
        }
        j = j + 1;
    }
    r
}

/// Builds the frame with the given opcode around the payload.
pub fn make_frame(op: u8, body: Vec<u8>) -> (r: Vec<u8>)
    requires
        body@.len() + 5 <= u32::MAX,
    ensures
        r@ == spec_frame(op, body@),
{
    let mut r: Vec<u8> = Vec::new();
    r.push(op);
    let mut len_bytes = u32_be_bytes((body.len() + 5) as u32);
    r.append(&mut len_bytes);
    append_bytes(&mut r, &body);
    proof {
        assert(r@ =~= spec_frame(op, body@));
    }
    r
}

/// The positive-acknowledgement frame, byte for byte.
pub fn ack_frame() -> (r: Vec<u8>)
    ensures
        r@ == ack_bytes(),
{
    let mut r: Vec<u8> = Vec::new();
    r.push(0);
    r.push(0);
    r.push(0);
    r.push(0);
    r.push(7);
    r.push(111);
    r.push(107);
    proof {
        assert(r@ =~= ack_bytes());
    }
    r
}

/// True exactly when `msg` is the positive-acknowledgement frame.
pub fn is_ack(msg: &Vec<u8>) -> (r: bool)
    ensures
        r == (msg@ == ack_bytes()),
{
    if msg.len() != 7 {
        return false;
    }
    let r = msg[0] == 0 && msg[1] == 0 && msg[2] == 0 && msg[3] == 0 && msg[4] == 7 && msg[5] == 111
        && msg[6] == 107;
    proof {
        if r {
            assert(msg@ =~= ack_bytes());
        }
    }
    r
}

} // verus!
