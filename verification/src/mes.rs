//! UK2 `MES` program container and byte reader.
use vstd::prelude::*;

verus! {

/// Length of the `<< UK2 TEXT Ver1.00 >>\0` header; code starts here.
pub const MES_CODE_OFFSET: usize = 23;

/// The 23-byte MES header `<< UK2 TEXT Ver1.00 >>\0`.
pub const MES_MAGIC: [u8; 23] = [
    0x3c, 0x3c, 0x20, 0x55, 0x4b, 0x32, 0x20, 0x54, 0x45, 0x58, 0x54, 0x20, 0x56, 0x65, 0x72,
    0x31, 0x2e, 0x30, 0x30, 0x20, 0x3e, 0x3e, 0x00,
];

/// Byte `i` of the MES header.
pub open spec fn mes_magic_byte(i: int) -> u8 {
    MES_MAGIC@[i]
}

/// A byte sequence that starts with the MES header.
pub open spec fn is_mes(bytes: Seq<u8>) -> bool {
    &&& bytes.len() >= MES_CODE_OFFSET
    &&& forall|i: int| 0 <= i < MES_CODE_OFFSET ==> bytes[i] == #[trigger] mes_magic_byte(i)
}

/// Errors of the MES container and reader.
#[derive(Debug, Clone, Copy, PartialEq, Eq)]
pub enum MesError {
    /// Fewer bytes than the header.
    TooShort,
    /// The header is not `<< UK2 TEXT Ver1.00 >>\0`.
    BadMagic,
    /// A reader was placed beyond the end of the file.
    OffsetBeyondEnd,
    /// The reader ran out of bytes.
    UnexpectedEnd,
}

/// A loaded MES program: the whole file, header included.
#[derive(Debug, Clone, PartialEq, Eq)]
pub struct MesProgram {
    bytes: Vec<u8>,
}

impl MesProgram {
    /// Programs are only built from bytes that carry the MES header.
    pub closed spec fn wf(self) -> bool {
        is_mes(self.bytes@)
    }

    /// A well-formed program's bytes carry the MES header.
    pub proof fn lemma_wf(self)
        requires
            self.wf(),
        ensures
            is_mes(self.view_bytes()),
    {
    }

    /// The whole file.
    pub closed spec fn view_bytes(self) -> Seq<u8> {
        self.bytes@
    }

    /// Validates the header and keeps the file.
    pub fn from_bytes(bytes: Vec<u8>) -> (res: Result<Self, MesError>)
        ensures
            bytes@.len() < MES_CODE_OFFSET ==> res == Err::<Self, MesError>(MesError::TooShort),
            bytes@.len() >= MES_CODE_OFFSET && !is_mes(bytes@) ==> res == Err::<Self, MesError>(
                MesError::BadMagic,
            ),
            is_mes(bytes@) ==> res is Ok && res.unwrap().view_bytes() == bytes@ && res.unwrap().wf(),
    {
        if bytes.len() < MES_CODE_OFFSET {
            return Err(MesError::TooShort);
        }
        let mut i: usize = 0;
        while i < MES_CODE_OFFSET
            invariant
                bytes@.len() >= MES_CODE_OFFSET,
                i <= MES_CODE_OFFSET,
                forall|j: int| 0 <= j < i ==> bytes@[j] == #[trigger] mes_magic_byte(j),
            decreases MES_CODE_OFFSET - i,
        {
            if bytes[i] != MES_MAGIC[i] {
                assert(bytes@[i as int] != mes_magic_byte(i as int));
                return Err(MesError::BadMagic);
            }
            i = i + 1;
        }
        Ok(MesProgram { bytes })
    }

    /// The whole file.
    pub fn bytes(&self) -> (res: &[u8])
        ensures
            res@ == self.view_bytes(),
    {
        self.bytes.as_slice()
    }

    /// The bytecode after the header.
    pub fn code(&self) -> (res: &[u8])
        requires
            self.wf(),
        ensures
            res@ == self.view_bytes().subrange(MES_CODE_OFFSET as int, self.view_bytes().len() as int),
    {
        vstd::slice::slice_subrange(self.bytes.as_slice(), MES_CODE_OFFSET, self.bytes.len())
    }

    /// Length of the whole file.
    pub fn len(&self) -> (res: usize)
        ensures
            res == self.view_bytes().len(),
    {
        self.bytes.len()
    }

    /// Whether the program holds no bytecode after its header.
    pub fn is_empty(&self) -> (res: bool)
        requires
            self.wf(),
        ensures
            res == (self.view_bytes().len() == MES_CODE_OFFSET),
    {
        self.bytes.len() == MES_CODE_OFFSET
    }

    /// A reader positioned at `at`.
    pub fn reader_at(&self, at: usize) -> (res: Result<MesReader<'_>, MesError>)
        ensures
            at <= self.view_bytes().len() ==> res is Ok && res.unwrap().data() == self.view_bytes()
                && res.unwrap().pos() == at && res.unwrap().valid(),
            at > self.view_bytes().len() ==> res == Err::<MesReader<'_>, MesError>(
                MesError::OffsetBeyondEnd,
            ),
    {
        MesReader::new(self.bytes.as_slice(), at)
    }
}

/// A forward byte reader over MES bytes.
#[derive(Debug, Clone)]
pub struct MesReader<'a> {
    bytes: &'a [u8],
    at: usize,
}

impl<'a> MesReader<'a> {
    /// The bytes being read.
    pub closed spec fn data(self) -> Seq<u8> {
        self.bytes@
    }

    /// The current position.
    pub closed spec fn pos(self) -> int {
        self.at as int
    }

    /// Readers never stand beyond the end of their bytes.
    pub closed spec fn valid(self) -> bool {
        self.at <= self.bytes@.len()
    }

    pub proof fn lemma_valid(self)
        requires
            self.valid(),
        ensures
            0 <= self.pos() <= self.data().len(),
    {
    }

    /// A reader at `at`, refused beyond the end.
    pub fn new(bytes: &'a [u8], at: usize) -> (res: Result<Self, MesError>)
        ensures
            at <= bytes@.len() ==> res is Ok && res.unwrap().data() == bytes@ && res.unwrap().pos()
                == at && res.unwrap().valid(),
            at > bytes@.len() ==> res == Err::<Self, MesError>(MesError::OffsetBeyondEnd),
    {
        if at > bytes.len() {
            return Err(MesError::OffsetBeyondEnd);
        }
        Ok(MesReader { bytes, at })
    }

    /// Current position.
    pub fn position(&self) -> (res: usize)
        ensures
            res == self.pos(),
    {
        self.at
    }

    /// Reads one byte.
    pub fn byte(&mut self) -> (res: Result<u8, MesError>)
        requires
            old(self).valid(),
        ensures
            final(self).valid(),
            final(self).data() == old(self).data(),
            old(self).pos() < old(self).data().len() ==> res == Ok::<u8, MesError>(
                old(self).data()[old(self).pos()],
            ) && final(self).pos() == old(self).pos() + 1,
            old(self).pos() >= old(self).data().len() ==> res == Err::<u8, MesError>(
                MesError::UnexpectedEnd,
            ) && final(self).pos() == old(self).pos(),
    {
        if self.at >= self.bytes.len() {
            return Err(MesError::UnexpectedEnd);
        }
        let b = self.bytes[self.at];
        self.at = self.at + 1;
        Ok(b)
    }

    /// Reads a little-endian word.
    pub fn u16(&mut self) -> (res: Result<u16, MesError>)
        requires
            old(self).valid(),
        ensures
            final(self).valid(),
            final(self).data() == old(self).data(),
            old(self).pos() + 2 <= old(self).data().len() ==> res == Ok::<u16, MesError>(
                le16(old(self).data()[old(self).pos()], old(self).data()[old(self).pos() + 1]),
            ) && final(self).pos() == old(self).pos() + 2,
            old(self).pos() + 2 > old(self).data().len() ==> res is Err,
    {
        let lo = self.byte()?;
        let hi = self.byte()?;
        Ok(lo as u16 + (hi as u16) * 256)
    }
}

/// Little-endian word of two bytes.
pub open spec fn le16(lo: u8, hi: u8) -> u16 {
    (lo as int + 256 * hi as int) as u16
}

} // verus!
