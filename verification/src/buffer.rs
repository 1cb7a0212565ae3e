//! The node buffer: the labels of one layer, in node order.
//!
//! The labels live in two tiers. A prefix has been flushed to the backing
//! file; the rest is resident in a write buffer of bounded size. The buffer
//! itself touches no file: it hands every block that is due for the file to
//! its caller, and answers a lookup either with the label or with the place
//! in the file where the label was written.

use vstd::prelude::*;
use crate::error::Error;

verus! {

/// The size of a node label in bytes.
pub const NODE_SIZE: usize = 32;

/// The block size that a node buffer uses unless it is told otherwise.
pub const WRITE_BUFFER_SIZE: usize = 134217728;

/// The labels that a run of bytes holds, one for every 32 bytes.
pub open spec fn labels_of(bytes: Seq<u8>) -> Seq<Seq<u8>> {
    Seq::new(bytes.len() / 32, |i: int| bytes.subrange(32 * i, 32 * i + 32))
}

/// Appending one label to a run of whole labels appends it to the labels
/// that the run holds.
pub proof fn lemma_labels_push(bytes: Seq<u8>, label: Seq<u8>)
    requires
        bytes.len() % 32 == 0,
        label.len() == 32,
    ensures
        labels_of(bytes + label) == labels_of(bytes).push(label),
{
    let joined = bytes + label;
    let count = (bytes.len() / 32) as int;
    assert(joined.len() / 32 == count + 1);
    assert forall|i: int| 0 <= i < count + 1 implies labels_of(joined)[i] == labels_of(
        bytes,
    ).push(label)[i] by {
        if i < count {
            assert(joined.subrange(32 * i, 32 * i + 32) =~= bytes.subrange(32 * i, 32 * i + 32));
        } else {
            assert(joined.subrange(32 * i, 32 * i + 32) =~= label);
        }
    }
    assert(labels_of(joined) =~= labels_of(bytes).push(label));
}

/// Two runs of whole labels that hold the same labels are the same bytes.
pub proof fn lemma_labels_injective(a: Seq<u8>, b: Seq<u8>)
    requires
        a.len() % 32 == 0,
        b.len() % 32 == 0,
        labels_of(a) == labels_of(b),
    ensures
        a == b,
{
    assert(labels_of(a).len() == a.len() / 32);
    assert(labels_of(b).len() == b.len() / 32);
    assert(a.len() == b.len());
    assert forall|k: int| 0 <= k < a.len() implies a[k] == b[k] by {
        let i = k / 32;
        let j = k % 32;
        assert(labels_of(a)[i] == labels_of(b)[i]);
        assert(a.subrange(32 * i, 32 * i + 32)[j] == a[k]);
        assert(b.subrange(32 * i, 32 * i + 32)[j] == b[k]);
    }
    assert(a =~= b);
}

/// Copies the 32 bytes that start at `start` out of `data`.
pub fn copy_label(data: &[u8], start: usize) -> (label: [u8; 32])
    requires
        start + 32 <= data@.len(),
    ensures
        label@ == data@.subrange(start as int, start + 32),
{
    let len: usize = data.len();
    let mut label = [0u8; 32];
    let mut i: usize = 0;
    while i < 32
        invariant
            i <= 32,
            start + 32 <= len == data@.len(),
            forall|k: int| 0 <= k < i ==> label@[k] == data@[start + k],
        decreases 32 - i,
    {
        label[i] = data[start + i];
        i += 1;
    }
    assert(label@ =~= data@.subrange(start as int, start + 32));
    label
}

/// Appends the 32 bytes of a label to a run of bytes.
fn push_label(bytes: &mut Vec<u8>, label: &[u8; 32])
    ensures
        final(bytes)@ == old(bytes)@ + label@,
{
    let ghost before = bytes@;
    let mut i: usize = 0;
    while i < 32
        invariant
            i <= 32,
            bytes@ == before + label@.subrange(0, i as int),
        decreases 32 - i,
    {
        bytes.push(label[i]);
        i += 1;
        assert(bytes@ =~= before + label@.subrange(0, i as int));
    }
    assert(label@.subrange(0, 32) =~= label@);
}

/// Where a node buffer keeps a label.
#[derive(Clone, Copy, Debug, PartialEq, Eq)]
pub enum Location {
    /// The label is still in the write buffer: here it is.
    Resident([u8; 32]),
    /// The label has been flushed: it stands at this byte offset of the
    /// backing file.
    Flushed { offset: u64 },
}

/// The labels of one layer: a prefix that has been handed out for the backing
/// file, and a resident rest.
pub struct NodesFile {
    /// The size at which the write buffer is flushed.
    capacity: usize,
    /// The offset up to which the labels have been handed out for the file.
    written_offset: usize,
    /// The labels that have not been handed out yet.
    write_buffer: Vec<u8>,
    /// Everything handed out so far, in order.
    flushed: Ghost<Seq<u8>>,
}

impl View for NodesFile {
    type V = Seq<Seq<u8>>;

    /// The labels appended so far, by node index.
    open spec fn view(&self) -> Seq<Seq<u8>> {
        labels_of(self.bytes())
    }
}

impl NodesFile {
    /// The size at which the write buffer is flushed.
    pub closed spec fn capacity(&self) -> nat {
        self.capacity as nat
    }

    /// The bytes handed out for the backing file so far, in order. A caller
    /// that writes every block it is handed to the end of the file has a file
    /// with these contents.
    pub closed spec fn flushed(&self) -> Seq<u8> {
        self.flushed@
    }

    /// The number of bytes handed out for the backing file: the watermark.
    pub open spec fn written_offset(&self) -> nat {
        self.flushed().len()
    }

    /// The bytes that are still in the write buffer.
    pub closed spec fn resident(&self) -> Seq<u8> {
        self.write_buffer@
    }

    /// All bytes appended so far.
    pub open spec fn bytes(&self) -> Seq<u8> {
        self.flushed() + self.resident()
    }

    /// The invariant of the two tiers: both hold whole labels, the watermark
    /// is the length of the flushed tier, and the write buffer is never full.
    pub closed spec fn wf(&self) -> bool {
        &&& self.capacity > 0
        &&& self.capacity % 32 == 0
        &&& self.flushed@.len() == self.written_offset
        &&& self.written_offset % 32 == 0
        &&& self.write_buffer@.len() % 32 == 0
        &&& self.write_buffer@.len() < self.capacity
        &&& self.written_offset + self.write_buffer@.len() <= usize::MAX
    }

    /// What the invariant says of the public quantities.
    pub proof fn lemma_wf(&self)
        requires
            self.wf(),
        ensures
            self.capacity() > 0,
            self.capacity() % 32 == 0,
            self.flushed().len() == self.written_offset(),
            self.written_offset() % 32 == 0,
            self.resident().len() % 32 == 0,
            self.resident().len() < self.capacity(),
            self.bytes().len() <= usize::MAX,
            self@.len() * 32 == self.bytes().len(),
    {
    }

    /// Where a label stands: below the watermark in the flushed bytes, at 32
    /// times its index; from the watermark on in the resident bytes.
    pub proof fn lemma_tiers(self, i: int)
        requires
            self.wf(),
            0 <= i < self@.len(),
        ensures
            32 * i < self.written_offset() ==> 32 * i + 32 <= self.written_offset()
                && self.flushed().subrange(32 * i, 32 * i + 32) == self@[i],
            32 * i >= self.written_offset() ==> self.resident().subrange(
                32 * i - self.written_offset(),
                32 * i - self.written_offset() + 32,
            ) == self@[i],
    {
        let w = self.written_offset() as int;
        if 32 * i < w {
            assert(self.flushed().subrange(32 * i, 32 * i + 32) =~= self.bytes().subrange(
                32 * i,
                32 * i + 32,
            ));
        } else {
            assert(self.resident().subrange(32 * i - w, 32 * i - w + 32)
                =~= self.bytes().subrange(32 * i, 32 * i + 32));
        }
    }

    /// A label that has been appended reads back as it was written, from
    /// whichever tier holds it: below the watermark it stands in the flushed
    /// bytes at 32 times its index, from the watermark on in the resident
    /// bytes. Appending one more label changes none of the earlier ones.
    pub proof fn lemma_round_trip(self, after: NodesFile, label: Seq<u8>, block: Option<Vec<u8>>, i: int)
        requires
            self.wf(),
            label.len() == 32,
            self.appended(after, label, block),
            0 <= i <= self@.len(),
        ensures
            after@.len() == self@.len() + 1,
            after@[i] == if i == self@.len() {
                label
            } else {
                self@[i]
            },
            32 * i < after.written_offset() ==> after.flushed().subrange(32 * i, 32 * i + 32)
                == after@[i],
            32 * i >= after.written_offset() ==> after.resident().subrange(
                32 * i - after.written_offset(),
                32 * i - after.written_offset() + 32,
            ) == after@[i],
    {
        self.lemma_wf();
        after.lemma_wf();
        after.lemma_tiers(i);
    }

    /// An empty buffer that flushes whenever `capacity` bytes are resident.
    /// The capacity has to be a positive multiple of the node size.
    pub fn new(capacity: usize) -> (result: Result<NodesFile, Error>)
        ensures
            result is Ok <==> capacity > 0 && capacity % 32 == 0,
            result matches Ok(file) ==> {
                &&& file.wf()
                &&& file.capacity() == capacity
                &&& file.written_offset() == 0
                &&& file.flushed() == Seq::<u8>::empty()
                &&& file.resident() == Seq::<u8>::empty()
                &&& file@ == Seq::<Seq<u8>>::empty()
            },
            result matches Err(e) ==> e == Error::BlockSize,
    {
        if capacity == 0 || capacity % NODE_SIZE != 0 {
            return Err(Error::BlockSize);
        }
        let file = NodesFile {
            capacity,
            written_offset: 0,
            write_buffer: Vec::new(),
            flushed: Ghost(Seq::empty()),
        };
        assert(file.bytes() =~= Seq::<u8>::empty());
        assert(file@ =~= Seq::<Seq<u8>>::empty());
        Ok(file)
    }

    /// The number of labels appended so far.
    pub fn len(&self) -> (count: usize)
        requires
            self.wf(),
        ensures
            count == self@.len(),
    {
        (self.written_offset + self.write_buffer.len()) / NODE_SIZE
    }

    /// What appending `label` makes of a buffer, and which block it hands
    /// back: the label becomes the last one; if it fills the write buffer, the
    /// whole write buffer is the block, the flushed tier grows by it and
    /// nothing stays resident; otherwise there is no block and the label
    /// stays resident.
    pub open spec fn appended(
        self,
        after: NodesFile,
        label: Seq<u8>,
        block: Option<Vec<u8>>,
    ) -> bool {
        &&& after.wf()
        &&& after.capacity() == self.capacity()
        &&& after@ == self@.push(label)
        &&& after.bytes() == self.bytes() + label
        &&& block is Some <==> self.resident().len() + 32 == self.capacity()
        &&& block matches Some(b) ==> {
            &&& b@ == self.resident() + label
            &&& after.flushed() == self.flushed() + b@
            &&& after.resident() == Seq::<u8>::empty()
        }
        &&& block is None ==> {
            &&& after.flushed() == self.flushed()
            &&& after.resident() == self.resident() + label
        }
    }

    /// Appends the label of the next node. When that fills the write buffer,
    /// the whole buffer is handed back as one block for the end of the backing
    /// file, the buffer is emptied and the watermark moves on by the block.
    pub fn append(&mut self, node: &[u8; 32]) -> (block: Option<Vec<u8>>)
        requires
            old(self).wf(),
            old(self).bytes().len() + 32 <= usize::MAX,
        ensures
            old(self).appended(*final(self), node@, block),
    {
        proof {
            lemma_labels_push(self.bytes(), node@);
        }
        push_label(&mut self.write_buffer, node);
        assert(self.bytes() =~= old(self).bytes() + node@);
        if self.write_buffer.len() == self.capacity {
            let mut block: Vec<u8> = Vec::new();
            core::mem::swap(&mut self.write_buffer, &mut block);
            self.written_offset = self.written_offset + self.capacity;
            self.flushed = Ghost(self.flushed@ + block@);
            assert(self.bytes() =~= old(self).bytes() + node@);
            Some(block)
        } else {
            None
        }
    }

    /// Hands back whatever is resident, however little, as one last block for
    /// the end of the backing file. Without this the tail of a layer that
    /// does not fill a whole block would never reach the file.
    pub fn flush(&mut self) -> (block: Vec<u8>)
        requires
            old(self).wf(),
        ensures
            final(self).wf(),
            final(self).capacity() == old(self).capacity(),
            final(self)@ == old(self)@,
            block@ == old(self).resident(),
            final(self).flushed() == old(self).bytes(),
            final(self).resident() == Seq::<u8>::empty(),
    {
        let mut block: Vec<u8> = Vec::new();
        core::mem::swap(&mut self.write_buffer, &mut block);
        self.written_offset = self.written_offset + block.len();
        self.flushed = Ghost(self.flushed@ + block@);
        assert(self.bytes() =~= old(self).bytes());
        block
    }

    /// Looks up the label of a node. A label below the watermark is in the
    /// backing file, at 32 times the node index; any other label that has
    /// been appended is resident and is copied out.
    pub fn at(&self, node: usize) -> (result: Result<Location, Error>)
        requires
            self.wf(),
        ensures
            result is Ok <==> node < self@.len(),
            result matches Err(e) ==> e == Error::NotWritten,
            result matches Ok(Location::Flushed { offset }) ==> {
                &&& offset == 32 * node
                &&& offset + 32 <= self.written_offset()
                &&& self.flushed().subrange(offset as int, offset + 32) == self@[node as int]
            },
            result matches Ok(Location::Resident(label)) ==> {
                &&& 32 * node >= self.written_offset()
                &&& label@ == self@[node as int]
            },
    {
        if node >= self.len() {
            return Err(Error::NotWritten);
        }
        let pos = node * NODE_SIZE;
        if pos < self.written_offset {
            assert(self.flushed@.subrange(pos as int, pos + 32) =~= self.bytes().subrange(
                32 * node,
                32 * node + 32,
            ));
            Ok(Location::Flushed { offset: pos as u64 })
        } else {
            let buffer_pos = pos - self.written_offset;
            let label = copy_label(self.write_buffer.as_slice(), buffer_pos);
            assert(label@ =~= self.bytes().subrange(32 * node, 32 * node + 32));
            Ok(Location::Resident(label))
        }
    }
}

} // verus!
