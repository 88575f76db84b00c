//! The CRC-32 checksum that ENet offers for datagrams.
use vstd::prelude::*;
use crate::os::{be32, htonl};

verus! {

/// One bit step of the reflected CRC-32 (polynomial 0xEDB88320).
pub open spec fn crc_bit(c: u32) -> u32 {
    if c & 1 != 0 {
        (c >> 1) ^ 0xEDB88320u32
    } else {
        c >> 1
    }
}

/// Eight bit steps of the CRC-32.
pub open spec fn crc_steps8(c: u32) -> u32 {
    crc_bit(crc_bit(crc_bit(crc_bit(crc_bit(crc_bit(crc_bit(crc_bit(c))))))))
}

/// The CRC-32 register after taking in byte `b`.
pub open spec fn crc_byte(c: u32, b: u8) -> u32 {
    crc_steps8(c ^ (b as u32))
}

/// The CRC-32 register after taking in the bytes `s`, starting from `c`.
pub open spec fn crc_update(c: u32, s: Seq<u8>) -> u32
    decreases s.len(),
{
    if s.len() == 0 {
        c
    } else {
        crc_byte(crc_update(c, s.drop_last()), s.last())
    }
}

/// The CRC-32 checksum of the bytes `s`: the register started at all ones, complemented
/// at the end.
pub open spec fn crc32_of(s: Seq<u8>) -> u32 {
    !crc_update(0xFFFFFFFFu32, s)
}

/// The bytes of several buffers, one after the other.
pub open spec fn buffers_bytes(bufs: Seq<&[u8]>) -> Seq<u8> {
    bufs.map_values(|b: &[u8]| b@).flatten()
}

proof fn lemma_crc_table_step(x: u32)
    ensures
        crc_steps8(x) == (x >> 8) ^ crc_steps8(x & 0xff),
{
    assert(crc_steps8(x) == (x >> 8) ^ crc_steps8(x & 0xff)) by (bit_vector);
}

/// The table of the CRC-32 of each single byte value.
fn crc_table() -> (t: Vec<u32>)
    ensures
        t@.len() == 256,
        forall|i: int| 0 <= i < 256 ==> t@[i] == crc_steps8(i as u32),
{
    let mut t: Vec<u32> = Vec::new();
    let mut i: u32 = 0;
    while i < 256
        invariant
            i <= 256,
            t@.len() == i,
            forall|j: int| 0 <= j < i ==> t@[j] == crc_steps8(j as u32),
        decreases 256 - i,
    {
        let mut c = i;
        let mut k: u32 = 0;
        while k < 8
            invariant
                k <= 8,
                i < 256,
                c == if k == 0 {
                    i
                } else if k == 1 {
                    crc_bit(i)
                } else if k == 2 {
                    crc_bit(crc_bit(i))
                } else if k == 3 {
                    crc_bit(crc_bit(crc_bit(i)))
                } else if k == 4 {
                    crc_bit(crc_bit(crc_bit(crc_bit(i))))
                } else if k == 5 {
                    crc_bit(crc_bit(crc_bit(crc_bit(crc_bit(i)))))
                } else if k == 6 {
                    crc_bit(crc_bit(crc_bit(crc_bit(crc_bit(crc_bit(i))))))
                } else if k == 7 {
                    crc_bit(crc_bit(crc_bit(crc_bit(crc_bit(crc_bit(crc_bit(i)))))))
                } else {
                    crc_steps8(i)
                },
            decreases 8 - k,
        {
            c = if c & 1 != 0 {
                (c >> 1) ^ 0xEDB88320u32
            } else {
                c >> 1
            };
            k = k + 1;
        }
        t.push(c);
        i = i + 1;
    }
    t
}

/// ENet's implementation of the CRC-32 checksum over several buffers taken one after the
/// other, in network byte order.
pub fn crc32(in_buffers: Vec<&[u8]>) -> (r: u32)
    ensures
        r == be32(crc32_of(buffers_bytes(in_buffers@))),
{
    let table = crc_table();
    let mut crc: u32 = 0xFFFFFFFF;
    let ghost bufs = in_buffers@.map_values(|b: &[u8]| b@);
    let mut i: usize = 0;
    assert(bufs.take(0).flatten() =~= Seq::<u8>::empty());
    while i < in_buffers.len()
        invariant
            i <= in_buffers@.len(),
            bufs == in_buffers@.map_values(|b: &[u8]| b@),
            table@.len() == 256,
            forall|j: int| 0 <= j < 256 ==> table@[j] == crc_steps8(j as u32),
            crc == crc_update(0xFFFFFFFFu32, bufs.take(i as int).flatten()),
        decreases in_buffers@.len() - i,
    {
        let data: &[u8] = in_buffers[i];
        let ghost prefix = bufs.take(i as int).flatten();
        let mut j: usize = 0;
        assert(prefix + data@.take(0) =~= prefix);
        while j < data.len()
            invariant
                j <= data@.len(),
                table@.len() == 256,
                forall|k: int| 0 <= k < 256 ==> table@[k] == crc_steps8(k as u32),
                crc == crc_update(0xFFFFFFFFu32, prefix + data@.take(j as int)),
            decreases data@.len() - j,
        {
            let b = data[j];
            let x = crc ^ (b as u32);
            let idx = (crc & 0xff) ^ (b as u32);
            assert(idx == x & 0xff) by (bit_vector)
                requires
                    idx == (crc & 0xff) ^ (b as u32),
                    x == crc ^ (b as u32),
                    b < 256,
            ;
            assert(idx < 256) by (bit_vector)
                requires
                    idx == x & 0xff,
            ;
            assert(crc >> 8 == x >> 8) by (bit_vector)
                requires
                    x == crc ^ (b as u32),
                    b < 256,
            ;
            proof {
                lemma_crc_table_step(x);
            }
            crc = (crc >> 8) ^ table[idx as usize];
            let ghost next = prefix + data@.take(j + 1);
            assert(next.drop_last() =~= prefix + data@.take(j as int));
            assert(next.last() == b);
            assert(crc == crc_byte(crc_update(0xFFFFFFFFu32, next.drop_last()), next.last()));
            j = j + 1;
        }
        assert(data@.take(data@.len() as int) =~= data@);
        assert(bufs.take(i + 1) =~= bufs.take(i as int).push(data@));
        proof {
            bufs.take(i as int).lemma_flatten_push(data@);
        }
        i = i + 1;
    }
    assert(bufs.take(in_buffers@.len() as int) =~= bufs);
    htonl(!crc)
}

} // verus!
