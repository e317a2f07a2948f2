//! Values with a fixed byte layout under which they are stored.

use vstd::prelude::*;

verus! {

/// Why bytes did not decode to a value.
#[derive(Clone, Copy, Debug, PartialEq, Eq, Structural)]
pub enum StoredValueError {
    /// The bytes end before the value does.
    UnexpectedEof,
    /// The bytes hold a tagged shard prefix that is not valid.
    InvalidShardPrefix,
    /// The bytes hold flags that no value has.
    InvalidFlags,
}

/// A value that is stored as a byte string of fixed layout.
pub trait StoredValue: Sized {
    /// Whether the value is well formed, so that it can be read back.
    spec fn storable(&self) -> bool;

    /// The bytes under which the value is stored.
    spec fn encoding(&self) -> Seq<u8>;

    /// The value that the front of `data` stands for, or why it stands for
    /// none. Bytes behind the value are not looked at.
    spec fn decoding(data: Seq<u8>) -> Result<Self, StoredValueError>;

    /// Reading back what was written gives the value that was written,
    /// whatever follows it.
    proof fn lemma_decoding_of_encoding(self, rest: Seq<u8>)
        requires
            self.storable(),
        ensures
            Self::decoding(self.encoding() + rest) == Ok::<Self, StoredValueError>(self),
    ;

    /// What was read is well formed, and writing it gives back the bytes it
    /// was read from.
    proof fn lemma_encoding_of_decoding(data: Seq<u8>)
        requires
            Self::decoding(data) is Ok,
        ensures
            Self::decoding(data).unwrap().storable(),
            Self::decoding(data).unwrap().encoding().len() <= data.len(),
            Self::decoding(data).unwrap().encoding() == data.subrange(
                0,
                Self::decoding(data).unwrap().encoding().len() as int,
            ),
    ;

    /// Appends the stored form of the value to `buffer`.
    fn serialize(&self, buffer: &mut Vec<u8>)
        ensures
            final(buffer)@ == old(buffer)@ + self.encoding(),
    ;

    /// Reads a value from `data`, starting at `pos`.
    fn deserialize(data: &[u8], pos: usize) -> (r: Result<Self, StoredValueError>)
        ensures
            pos <= data@.len() ==> r == Self::decoding(data@.skip(pos as int)),
            pos > data@.len() ==> r == Err::<Self, StoredValueError>(
                StoredValueError::UnexpectedEof,
            ),
    ;

    /// Reads a value from the front of `data`.
    fn from_slice(data: &[u8]) -> (r: Result<Self, StoredValueError>)
        ensures
            r == Self::decoding(data@),
    {
        assert(data@.skip(0) =~= data@);
        Self::deserialize(data, 0)
    }

    /// The stored form of the value.
    fn to_vec(&self) -> (out: Vec<u8>)
        ensures
            out@ == self.encoding(),
    {
        let mut out = Vec::new();
        self.serialize(&mut out);
        assert(out@ =~= self.encoding());
        out
    }
}

} // verus!
