use vstd::prelude::*;

verus! {

/// How an open file is written.
#[derive(Debug, Clone, Copy, PartialEq, Eq, Structural)]
pub enum WriteOp {
    /// Each byte goes to the serial line; the write returns 0.
    Serial,
}

/// How an open file is read.
#[derive(Debug, Clone, Copy, PartialEq, Eq, Structural)]
pub enum ReadOp {
    /// Reading is not supported; the read returns -1.
    Unsupported,
}

/// The operations of an open file.
#[derive(Clone, Copy)]
pub struct FileOps {
    pub write: WriteOp,
    pub read: ReadOp,
}

/// An open file: its operations, its offset and a word for its driver.
pub struct OpenFile {
    pub ops: FileOps,
    offset: u64,
    private: u64,
}

/// The operations of the serial console.
pub fn serial_ops() -> (r: FileOps)
    ensures
        r.write == WriteOp::Serial,
        r.read == ReadOp::Unsupported,
{
    FileOps { write: WriteOp::Serial, read: ReadOp::Unsupported }
}

/// The console: the serial line, at offset 0, with driver word 0.
pub fn console_file() -> (r: OpenFile)
    ensures
        r.spec_ops().write == WriteOp::Serial,
        r.spec_ops().read == ReadOp::Unsupported,
        r.spec_offset() == 0,
        r.spec_private() == 0,
{
    OpenFile { ops: serial_ops(), offset: 0, private: 0 }
}

fn serial_write(buf: &[u8]) -> (r: (i64, Vec<u8>))
    ensures
        r.0 == 0,
        r.1@ == buf@,
{
    let mut out: Vec<u8> = Vec::new();
    let mut i: usize = 0;
    while i < buf.len()
        invariant
            i <= buf.len(),
            out@ == buf@.subrange(0, i as int),
        decreases buf.len() - i,
    {
        out.push(buf[i]);
        i = i + 1;
        assert(out@ =~= buf@.subrange(0, i as int));
    }
    assert(buf@.subrange(0, buf.len() as int) =~= buf@);
    (0, out)
}

fn serial_read() -> (r: i64)
    ensures
        r == -1,
{
    -1
}

impl OpenFile {
    pub closed spec fn spec_ops(&self) -> FileOps {
        self.ops
    }

    pub closed spec fn spec_offset(&self) -> u64 {
        self.offset
    }

    /// The word the file keeps for its driver.
    pub closed spec fn spec_private(&self) -> u64 {
        self.private
    }

    /// Writes `buf` through the file's write operation: the result, and the bytes
    /// that go to the serial line.
    pub fn write(&mut self, buf: &[u8]) -> (r: (i64, Vec<u8>))
        ensures
            old(self).spec_ops().write == WriteOp::Serial ==> r.0 == 0 && r.1@ == buf@,
            final(self).spec_ops() == old(self).spec_ops(),
            final(self).spec_offset() == old(self).spec_offset(),
            final(self).spec_private() == old(self).spec_private(),
    {
        match self.ops.write {
            WriteOp::Serial => serial_write(buf),
        }
    }

    /// Reads through the file's read operation.
    pub fn read(&mut self, len: usize) -> (r: i64)
        ensures
            old(self).spec_ops().read == ReadOp::Unsupported ==> r == -1,
            final(self).spec_ops() == old(self).spec_ops(),
            final(self).spec_offset() == old(self).spec_offset(),
            final(self).spec_private() == old(self).spec_private(),
    {
        match self.ops.read {
            ReadOp::Unsupported => serial_read(),
        }
    }
}

} // verus!
