//! The read-only memory image of the analysed binary.
use vstd::prelude::*;
use crate::ir::Error;

verus! {

/// A contiguous part of the image: `bytes` from `base_address` on.
#[derive(Debug, PartialEq)]
pub struct MemorySegment {
    pub base_address: u64,
    pub bytes: Vec<u8>,
}

/// The loaded segments of the binary; the first segment that holds an
/// address is the one read.
#[derive(Debug, PartialEq)]
pub struct RuntimeMemoryImage {
    pub memory_segments: Vec<MemorySegment>,
}

pub open spec fn in_segment(seg: MemorySegment, address: int) -> bool {
    seg.base_address <= address < seg.base_address + seg.bytes.len()
}

/// The index of the first segment that holds `address`.
pub open spec fn segment_index(segs: Seq<MemorySegment>, address: int) -> Option<int>
    decreases segs.len(),
{
    if segs.len() == 0 {
        None
    } else {
        match segment_index(segs.drop_last(), address) {
            Some(i) => Some(i),
            None => if in_segment(segs.last(), address) {
                Some(segs.len() - 1)
            } else {
                None
            },
        }
    }
}

/// The position of the first zero byte at or after `from`.
pub open spec fn first_zero_from(bytes: Seq<u8>, from: int) -> Option<int>
    decreases bytes.len() - from,
{
    if from < 0 || from >= bytes.len() {
        None
    } else if bytes[from] == 0 {
        Some(from)
    } else {
        first_zero_from(bytes, from + 1)
    }
}

/// The bytes from `address` up to the next zero byte of the same segment.
pub open spec fn c_string_at(img: RuntimeMemoryImage, address: int) -> Option<Seq<u8>> {
    match segment_index(img.memory_segments@, address) {
        Some(i) => {
            let seg = img.memory_segments@[i];
            let off = address - seg.base_address;
            match first_zero_from(seg.bytes@, off) {
                Some(z) => Some(seg.bytes@.subrange(off, z)),
                None => None,
            }
        },
        None => None,
    }
}

proof fn lemma_segment_index_valid(segs: Seq<MemorySegment>, address: int)
    requires
        segment_index(segs, address) is Some,
    ensures
        0 <= segment_index(segs, address)->0 < segs.len(),
        in_segment(segs[segment_index(segs, address)->0], address),
    decreases segs.len(),
{
    if segment_index(segs.drop_last(), address) is Some {
        lemma_segment_index_valid(segs.drop_last(), address);
    }
}

proof fn lemma_segment_index_prefix(segs: Seq<MemorySegment>, address: int, j: int)
    requires
        0 <= j <= segs.len(),
        segment_index(segs.take(j), address) is None,
        forall|k: int| j <= k < segs.len() ==> !in_segment(#[trigger] segs[k], address),
    ensures
        segment_index(segs, address) is None,
    decreases segs.len() - j,
{
    if j < segs.len() {
        assert(segs.take(j + 1).drop_last() =~= segs.take(j));
        lemma_segment_index_prefix(segs, address, j + 1);
    } else {
        assert(segs.take(j) =~= segs);
    }
}

impl RuntimeMemoryImage {
    /// The index of the first segment that holds `address`.
    fn find_segment(&self, address: u64) -> (r: Option<usize>)
        ensures
            match segment_index(self.memory_segments@, address as int) {
                Some(i) => r is Some && r->0 as int == i,
                None => r is None,
            },
    {
        let ghost segs = self.memory_segments@;
        let mut i: usize = 0;
        while i < self.memory_segments.len()
            invariant
                segs == self.memory_segments@,
                i <= segs.len(),
                segment_index(segs.take(i as int), address as int) is None,
            decreases segs.len() - i,
        {
            proof {
                assert(segs.take(i + 1).drop_last() =~= segs.take(i as int));
                assert(segs.take(i + 1).last() == segs[i as int]);
            }
            let seg = &self.memory_segments[i];
            if seg.base_address <= address && (address - seg.base_address) < seg.bytes.len() as u64 {
                proof {
                    lemma_segment_index_extends(segs, address as int, i as int + 1);
                }
                return Some(i);
            }
            i = i + 1;
        }
        proof {
            assert(segs.take(i as int) =~= segs);
        }
        None
    }

    /// Whether the image holds `address`.
    pub fn is_mapped(&self, address: u64) -> (r: bool)
        ensures
            r == (segment_index(self.memory_segments@, address as int) is Some),
    {
        self.find_segment(address).is_some()
    }

    /// The bytes from `address` up to, not including, the next zero byte.
    /// An address outside the image, or a string that runs to the end of
    /// its segment, is an error.
    pub fn read_string_until_null_terminator(&self, address: u64) -> (r: Result<Vec<u8>, Error>)
        ensures
            match c_string_at(*self, address as int) {
                Some(b) => r is Ok && r->Ok_0@ == b,
                None => r == Err::<Vec<u8>, Error>(Error::MemoryReadOutOfBounds),
            },
    {
        let idx = match self.find_segment(address) {
            Some(i) => i,
            None => return Err(Error::MemoryReadOutOfBounds),
        };
        proof {
            lemma_segment_index_valid(self.memory_segments@, address as int);
            assert(idx as int == segment_index(self.memory_segments@, address as int)->0);
        }
        let seg = &self.memory_segments[idx];
        assert(in_segment(*seg, address as int));
        let off = (address - seg.base_address) as usize;
        let mut out: Vec<u8> = Vec::new();
        let mut k: usize = off;
        while k < seg.bytes.len()
            invariant
                segment_index(self.memory_segments@, address as int) is Some,
                *seg == self.memory_segments@[segment_index(self.memory_segments@, address as int)->0],
                off as int == address - seg.base_address,
                off <= k <= seg.bytes.len(),
                out@ == seg.bytes@.subrange(off as int, k as int),
                first_zero_from(seg.bytes@, off as int) == first_zero_from(seg.bytes@, k as int),
            decreases seg.bytes.len() - k,
        {
            if seg.bytes[k] == 0 {
                assert(first_zero_from(seg.bytes@, k as int) == Some(k as int));
                assert(c_string_at(*self, address as int) == Some(seg.bytes@.subrange(off as int, k as int)));
                return Ok(out);
            }
            out.push(seg.bytes[k]);
            k = k + 1;
            assert(out@ =~= seg.bytes@.subrange(off as int, k as int));
        }
        Err(Error::MemoryReadOutOfBounds)
    }
}

proof fn lemma_segment_index_extends(segs: Seq<MemorySegment>, address: int, j: int)
    requires
        1 <= j <= segs.len(),
        segment_index(segs.take(j - 1), address) is None,
        in_segment(segs[j - 1], address),
    ensures
        segment_index(segs, address) == Some(j - 1),
    decreases segs.len() - j,
{
    assert(segs.take(j).drop_last() =~= segs.take(j - 1));
    assert(segs.take(j).last() == segs[j - 1]);
    assert(segment_index(segs.take(j), address) == Some(j - 1));
    if j < segs.len() {
        assert(segs.take(j + 1).drop_last() =~= segs.take(j));
        lemma_segment_index_keeps(segs, address, j + 1, j - 1);
    } else {
        assert(segs.take(j) =~= segs);
    }
}

proof fn lemma_segment_index_keeps(segs: Seq<MemorySegment>, address: int, j: int, i: int)
    requires
        1 <= j <= segs.len(),
        segment_index(segs.take(j - 1), address) == Some(i),
    ensures
        segment_index(segs, address) == Some(i),
    decreases segs.len() - j,
{
    assert(segs.take(j).drop_last() =~= segs.take(j - 1));
    if j < segs.len() {
        lemma_segment_index_keeps(segs, address, j + 1, i);
    } else {
        assert(segs.take(j) =~= segs);
    }
}

} // verus!
