//! Block devices: the error type, the device interface, byte-granular
//! reads across blocks and an in-memory device.
use vstd::prelude::*;

verus! {

#[derive(Clone, Copy, Debug, PartialEq, Eq, Structural)]
pub enum BlockError {
    InvalidArgument,
    OutOfRange,
    BufferTooSmall,
    AddressOverflow,
    DeviceReadOnly,
}

/// The bytes of block `block` of a device whose blocks are `block_size` long.
pub open spec fn block_slice(contents: Seq<u8>, block_size: int, block: int) -> Seq<u8> {
    contents.subrange(block * block_size, (block + 1) * block_size)
}

/// `contents` with block `block` replaced by `data`.
pub open spec fn replace_block(contents: Seq<u8>, block_size: int, block: int, data: Seq<u8>) -> Seq<u8> {
    contents.subrange(0, block * block_size) + data + contents.subrange((block + 1) * block_size, contents.len() as int)
}

/// A device addressed in fixed-size blocks.
///
/// A device whose bytes live in memory says so through `spec_tracks_contents`,
/// and then its reads and writes are stated over `spec_contents`; a device
/// behind hardware states only the checks it makes on its arguments.
pub trait BlockDevice {
    spec fn spec_wf(&self) -> bool;

    spec fn spec_block_size(&self) -> usize;

    spec fn spec_block_count(&self) -> u64;

    spec fn spec_read_only(&self) -> bool;

    spec fn spec_tracks_contents(&self) -> bool;

    spec fn spec_contents(&self) -> Seq<u8>;

    proof fn lemma_contents_len(&self)
        requires
            self.spec_wf(),
        ensures
            self.spec_block_size() > 0,
            self.spec_tracks_contents() ==> self.spec_contents().len() == self.spec_block_size() * self.spec_block_count();

    fn block_size(&self) -> (size: usize)
        requires
            self.spec_wf(),
        ensures
            size == self.spec_block_size();

    fn block_count(&self) -> (count: u64)
        requires
            self.spec_wf(),
        ensures
            count == self.spec_block_count();

    /// Reads block `block` into `output`, which must be one block long.
    fn read_block(&mut self, block: u64, output: &mut [u8]) -> (result: Result<(), BlockError>)
        requires
            old(self).spec_wf(),
        ensures
            final(self).spec_wf(),
            final(output)@.len() == old(output)@.len(),
            final(self).spec_block_size() == old(self).spec_block_size(),
            final(self).spec_block_count() == old(self).spec_block_count(),
            final(self).spec_read_only() == old(self).spec_read_only(),
            final(self).spec_tracks_contents() == old(self).spec_tracks_contents(),
            final(self).spec_contents() == old(self).spec_contents(),
            result is Ok ==> old(output)@.len() == old(self).spec_block_size() && block < old(self).spec_block_count(),
            old(self).spec_tracks_contents() ==> (result is Ok <==> (old(output)@.len() == old(self).spec_block_size()
                && block < old(self).spec_block_count())),
            old(self).spec_tracks_contents() && result is Ok ==> final(output)@ == block_slice(
                old(self).spec_contents(), old(self).spec_block_size() as int, block as int),
            old(self).spec_tracks_contents() && result is Err ==> final(output)@ == old(output)@;

    /// Writes `input`, one block long, to block `block`.
    fn write_block(&mut self, block: u64, input: &[u8]) -> (result: Result<(), BlockError>)
        requires
            old(self).spec_wf(),
        ensures
            final(self).spec_wf(),
            final(self).spec_block_size() == old(self).spec_block_size(),
            final(self).spec_block_count() == old(self).spec_block_count(),
            final(self).spec_read_only() == old(self).spec_read_only(),
            final(self).spec_tracks_contents() == old(self).spec_tracks_contents(),
            old(self).spec_read_only() ==> result == Err::<(), BlockError>(BlockError::DeviceReadOnly),
            result is Ok ==> !old(self).spec_read_only() && input@.len() == old(self).spec_block_size()
                && block < old(self).spec_block_count(),
            old(self).spec_tracks_contents() ==> (result is Ok <==> (!old(self).spec_read_only()
                && input@.len() == old(self).spec_block_size() && block < old(self).spec_block_count())),
            old(self).spec_tracks_contents() && result is Ok ==> final(self).spec_contents() == replace_block(
                old(self).spec_contents(), old(self).spec_block_size() as int, block as int, input@),
            result is Err ==> final(self).spec_contents() == old(self).spec_contents();

    fn is_read_only(&self) -> (read_only: bool)
        requires
            self.spec_wf(),
        ensures
            read_only == self.spec_read_only();

    /// Whether this device is a partition of another device.
    fn is_partition(&self) -> (partition: bool);
}

/// A RAM-backed block device.
pub struct MemoryBlockDevice {
    block_size: usize,
    block_count: u64,
    data: Vec<u8>,
    read_only: bool,
}

impl MemoryBlockDevice {
    /// A zero-filled device of `block_count` blocks of `block_size` bytes;
    /// refused when a block is empty or the whole does not fit in memory.
    pub fn new(block_size: usize, block_count: u64) -> (result: Result<MemoryBlockDevice, BlockError>)
        ensures
            result matches Ok(device) ==> {
                &&& device.spec_wf()
                &&& device.spec_block_size() == block_size
                &&& device.spec_block_count() == block_count
                &&& !device.spec_read_only()
                &&& device.spec_tracks_contents()
                &&& device.spec_contents() == Seq::new((block_size * block_count) as nat, |i: int| 0u8)
            },
            result matches Err(error) ==> error == BlockError::InvalidArgument,
            result is Err <==> (block_size == 0 || block_size as int * block_count as int > usize::MAX),
    {
        if block_size == 0 {
            return Err(BlockError::InvalidArgument);
        }
        if block_count > usize::MAX as u64 {
            assert(block_size as int * block_count as int > usize::MAX) by (nonlinear_arith)
                requires block_size >= 1, block_count as int > usize::MAX as int;
            return Err(BlockError::InvalidArgument);
        }
        let total = match block_size.checked_mul(block_count as usize) {
            Some(total) => total,
            None => {
                return Err(BlockError::InvalidArgument);
            },
        };
        let mut data: Vec<u8> = Vec::new();
        let mut i: usize = 0;
        while i < total
            invariant
                i <= total,
                data@.len() == i,
                forall|k: int| 0 <= k < i ==> #[trigger] data@[k] == 0,
            decreases total - i,
        {
            data.push(0);
            i = i + 1;
        }
        proof {
            assert(data@ =~= Seq::new((block_size * block_count) as nat, |i: int| 0u8));
        }
        Ok(MemoryBlockDevice { block_size, block_count, data, read_only: false })
    }

    /// The same device, refusing writes from now on.
    pub fn into_read_only(self) -> (device: MemoryBlockDevice)
        ensures
            device.spec_wf() == self.spec_wf(),
            device.spec_block_size() == self.spec_block_size(),
            device.spec_block_count() == self.spec_block_count(),
            device.spec_contents() == self.spec_contents(),
            device.spec_read_only(),
    {
        MemoryBlockDevice { read_only: true, ..self }
    }
}

proof fn lemma_block_bounds(block: int, block_size: int, block_count: int)
    requires
        0 <= block < block_count,
        block_size > 0,
    ensures
        0 <= block * block_size,
        block * block_size + block_size == (block + 1) * block_size,
        (block + 1) * block_size <= block_count * block_size,
        block_count * block_size == block_size * block_count,
{
    assert(block_count * block_size == block_size * block_count) by (nonlinear_arith);
    assert((block + 1) * block_size <= block_count * block_size) by (nonlinear_arith)
        requires block < block_count, block_size > 0;
    assert(0 <= block * block_size) by (nonlinear_arith)
        requires 0 <= block, block_size > 0;
    assert(block * block_size + block_size == (block + 1) * block_size) by (nonlinear_arith);
}

/// A read of a block gives back what the last write to it wrote, a write
/// leaves every other block as it was, and the device keeps its size.
pub proof fn lemma_read_after_write(
    contents: Seq<u8>,
    block_size: int,
    block_count: int,
    block: int,
    other: int,
    data: Seq<u8>,
)
    requires
        block_size > 0,
        contents.len() == block_size * block_count,
        0 <= block < block_count,
        0 <= other < block_count,
        data.len() == block_size,
    ensures
        replace_block(contents, block_size, block, data).len() == contents.len(),
        block_slice(replace_block(contents, block_size, block, data), block_size, block) == data,
        other != block ==> block_slice(replace_block(contents, block_size, block, data), block_size, other)
            == block_slice(contents, block_size, other),
{
    lemma_block_bounds(block, block_size, block_count);
    lemma_block_bounds(other, block_size, block_count);
    let written = replace_block(contents, block_size, block, data);
    assert(block_slice(written, block_size, block) =~= data);
    if other < block {
        assert((other + 1) * block_size <= block * block_size) by (nonlinear_arith)
            requires other + 1 <= block, block_size > 0;
        assert(block_slice(written, block_size, other) =~= block_slice(contents, block_size, other));
    } else if other > block {
        assert((block + 1) * block_size <= other * block_size) by (nonlinear_arith)
            requires block + 1 <= other, block_size > 0;
        assert(block_slice(written, block_size, other) =~= block_slice(contents, block_size, other));
    }
}

impl BlockDevice for MemoryBlockDevice {
    closed spec fn spec_wf(&self) -> bool {
        &&& self.block_size > 0
        &&& self.data@.len() == self.block_size * self.block_count
    }

    closed spec fn spec_block_size(&self) -> usize {
        self.block_size
    }

    closed spec fn spec_block_count(&self) -> u64 {
        self.block_count
    }

    closed spec fn spec_read_only(&self) -> bool {
        self.read_only
    }

    closed spec fn spec_tracks_contents(&self) -> bool {
        true
    }

    closed spec fn spec_contents(&self) -> Seq<u8> {
        self.data@
    }

    proof fn lemma_contents_len(&self) {
    }

    fn block_size(&self) -> (size: usize) {
        self.block_size
    }

    fn block_count(&self) -> (count: u64) {
        self.block_count
    }

    fn read_block(&mut self, block: u64, output: &mut [u8]) -> (result: Result<(), BlockError>) {
        if output.len() != self.block_size {
            return Err(BlockError::BufferTooSmall);
        }
        if block >= self.block_count {
            return Err(BlockError::OutOfRange);
        }
        let length = self.data.len();
        proof {
            lemma_block_bounds(block as int, self.block_size as int, self.block_count as int);
            assert(block <= length) by (nonlinear_arith)
                requires block < self.block_count, self.block_size >= 1, length == self.block_size * self.block_count;
        }
        let start = block as usize * self.block_size;
        let mut k: usize = 0;
        while k < self.block_size
            invariant
                k <= self.block_size,
                output@.len() == self.block_size,
                start == block * self.block_size,
                start + self.block_size <= self.data@.len(),
                self.data@.len() == length,
                forall|t: int| 0 <= t < k ==> #[trigger] output@[t] == self.data@[start + t],
            decreases self.block_size - k,
        {
            output[k] = self.data[start + k];
            k = k + 1;
        }
        proof {
            assert(output@ =~= block_slice(self.data@, self.block_size as int, block as int));
        }
        Ok(())
    }

    fn write_block(&mut self, block: u64, input: &[u8]) -> (result: Result<(), BlockError>) {
        if self.read_only {
            return Err(BlockError::DeviceReadOnly);
        }
        if input.len() != self.block_size {
            return Err(BlockError::BufferTooSmall);
        }
        if block >= self.block_count {
            return Err(BlockError::OutOfRange);
        }
        let length = self.data.len();
        proof {
            lemma_block_bounds(block as int, self.block_size as int, self.block_count as int);
            assert(block <= length) by (nonlinear_arith)
                requires block < self.block_count, self.block_size >= 1, length == self.block_size * self.block_count;
        }
        let start = block as usize * self.block_size;
        let ghost before = self.data@;
        let mut k: usize = 0;
        while k < self.block_size
            invariant
                k <= self.block_size,
                input@.len() == self.block_size,
                self.block_size == old(self).block_size,
                self.block_count == old(self).block_count,
                self.read_only == old(self).read_only,
                before == old(self).data@,
                start == block * self.block_size,
                start + self.block_size <= self.data@.len(),
                self.data@.len() == length,
                self.data@.len() == before.len(),
                forall|t: int| 0 <= t < start ==> #[trigger] self.data@[t] == before[t],
                forall|t: int| start + self.block_size <= t < before.len() ==> #[trigger] self.data@[t] == before[t],
                forall|t: int| start + k <= t < start + self.block_size ==> #[trigger] self.data@[t] == before[t],
                forall|t: int| 0 <= t < k ==> #[trigger] self.data@[start + t] == input@[t],
            decreases self.block_size - k,
        {
            self.data.set(start + k, input[k]);
            k = k + 1;
        }
        proof {
            let replaced = replace_block(before, self.block_size as int, block as int, input@);
            assert forall|t: int| 0 <= t < self.data@.len() implies #[trigger] self.data@[t] == replaced[t] by {
                if start <= t < start + self.block_size {
                    assert(self.data@[start + (t - start)] == input@[t - start]);
                }
            }
            assert(self.data@ =~= replaced);
        }
        Ok(())
    }

    fn is_read_only(&self) -> (read_only: bool) {
        self.read_only
    }

    fn is_partition(&self) -> (partition: bool) {
        false
    }
}

/// The number of bytes that a read of `length` bytes at byte `offset` gets
/// from a device of `total` bytes.
pub open spec fn read_at_count(total: int, offset: int, length: int) -> int {
    if offset >= total {
        0
    } else if length <= total - offset {
        length
    } else {
        total - offset
    }
}

/// Whether `buffer` agrees with `entry_view` from byte `from` on.
pub open spec fn final_view_tail(buffer: Seq<u8>, from: int, entry_view: Seq<u8>) -> bool {
    buffer.subrange(from, entry_view.len() as int) == entry_view.subrange(from, entry_view.len() as int)
}

/// Reads `buffer.len()` bytes starting at byte `offset`, block by block.
/// Returns how many bytes were read: fewer when the device ends first.
pub fn read_at<D: BlockDevice>(device: &mut D, offset: u64, buffer: &mut [u8]) -> (result: Result<usize, BlockError>)
    requires
        old(device).spec_wf(),
    ensures
        final(device).spec_wf(),
        final(buffer)@.len() == old(buffer)@.len(),
        final(device).spec_block_size() == old(device).spec_block_size(),
        final(device).spec_block_count() == old(device).spec_block_count(),
        final(device).spec_read_only() == old(device).spec_read_only(),
        final(device).spec_tracks_contents() == old(device).spec_tracks_contents(),
        final(device).spec_contents() == old(device).spec_contents(),
        offset + old(buffer)@.len() > u64::MAX ==> result == Err::<usize, BlockError>(BlockError::AddressOverflow),
        result matches Ok(count) ==> count <= old(buffer)@.len() && final_view_tail(final(buffer)@, count as int, old(buffer)@),
        old(device).spec_tracks_contents() ==> ({
            let total = old(device).spec_block_size() * old(device).spec_block_count();
            let count = read_at_count(total, offset as int, old(buffer)@.len() as int);
            offset + old(buffer)@.len() <= u64::MAX ==> result == Ok::<usize, BlockError>(count as usize)
                && forall|t: int| 0 <= t < count ==> #[trigger] final(buffer)@[t] == old(device).spec_contents()[offset + t]
        }),
{
    proof {
        device.lemma_contents_len();
    }
    if offset.checked_add(buffer.len() as u64).is_none() {
        return Err(BlockError::AddressOverflow);
    }
    let block_size = device.block_size();
    let block_count = device.block_count();
    let ghost contents = device.spec_contents();
    let ghost entry_view = buffer@;
    let ghost total: int = block_size * block_count;
    let mut scratch: Vec<u8> = Vec::new();
    let mut i: usize = 0;
    while i < block_size
        invariant
            i <= block_size,
            scratch@.len() == i,
        decreases block_size - i,
    {
        scratch.push(0);
        i = i + 1;
    }
    let mut done: usize = 0;
    let mut ended = false;
    while done < buffer.len() && !ended
        invariant
            done <= buffer@.len(),
            buffer@.len() == entry_view.len(),
            entry_view == old(buffer)@,
            offset + entry_view.len() <= u64::MAX,
            scratch@.len() == block_size,
            block_size > 0,
            block_size == device.spec_block_size(),
            block_count == device.spec_block_count(),
            device.spec_wf(),
            device.spec_block_size() == old(device).spec_block_size(),
            device.spec_block_count() == old(device).spec_block_count(),
            device.spec_read_only() == old(device).spec_read_only(),
            device.spec_tracks_contents() == old(device).spec_tracks_contents(),
            device.spec_contents() == contents,
            contents == old(device).spec_contents(),
            total == block_size * block_count,
            device.spec_tracks_contents() ==> contents.len() == total,
            forall|t: int| done <= t < entry_view.len() ==> #[trigger] buffer@[t] == entry_view[t],
            device.spec_tracks_contents() ==> forall|t: int| 0 <= t < done ==> #[trigger] buffer@[t] == contents[offset + t],
            offset + done <= total || done == 0,
            ended ==> offset + done >= total,
        decreases (buffer@.len() - done) * 2 + (if ended { 0int } else { 1int }),
    {
        let position = offset + done as u64;
        let block = position / block_size as u64;
        if block >= block_count {
            assert(position >= total) by (nonlinear_arith)
                requires block as int == (position as int) / (block_size as int), block >= block_count, block_size > 0,
                    total == block_size * block_count;
            ended = true;
        } else {
            let within = (position % block_size as u64) as usize;
            proof {
                assert(block * block_size + within == position && within < block_size) by (nonlinear_arith)
                    requires block as int == (position as int) / (block_size as int), within as int == (position as int) % (block_size as int),
                        block_size > 0;
                lemma_block_bounds(block as int, block_size as int, block_count as int);
            }
            device.read_block(block, scratch.as_mut_slice())?;
            let ghost start_done = done;
            let ghost pre = buffer@;
            let mut k = within;
            while k < block_size && done < buffer.len()
                invariant
                    within <= k <= block_size,
                    within < block_size,
                    start_done < entry_view.len(),
                    start_done <= done <= buffer@.len(),
                    done - start_done == k - within,
                    buffer@.len() == entry_view.len(),
                    scratch@.len() == block_size,
                    forall|t: int| done <= t < entry_view.len() ==> #[trigger] buffer@[t] == pre[t],
                    forall|t: int| 0 <= t < start_done ==> #[trigger] buffer@[t] == pre[t],
                    forall|t: int| start_done <= t < done ==> #[trigger] buffer@[t] == scratch@[within + t - start_done],
                decreases block_size - k,
            {
                buffer[done] = scratch[k];
                done = done + 1;
                k = k + 1;
            }
            proof {
                if device.spec_tracks_contents() {
                    assert forall|t: int| 0 <= t < done implies #[trigger] buffer@[t] == contents[offset + t] by {
                        if t >= start_done {
                            assert(buffer@[t] == scratch@[within + t - start_done]);
                            assert(scratch@ == block_slice(contents, block_size as int, block as int));
                        }
                    }
                }
            }
        }
    }
    proof {
        assert(final_view_tail(buffer@, done as int, entry_view)) by {
            assert(buffer@.subrange(done as int, entry_view.len() as int) =~= entry_view.subrange(done as int, entry_view.len() as int));
        }
    }
    Ok(done)
}

} // verus!
