use vstd::prelude::*;

verus! {

/// Errors raised while decoding or skipping one node of a record batch.
///
/// The `Missing*` variants report format corruption: a required entry was
/// absent from its queue, or a buffer descriptor did not cover the bytes the
/// declared row count requires.  `ChildCountMismatch` and `InvalidStructure`
/// report a structural mismatch between the decoded data and the declared
/// logical type.  A corrupted batch is never retried here: the error aborts
/// the decode of that batch and is surfaced to the caller.
#[derive(Clone, Copy, PartialEq, Eq, Structural, Debug)]
pub enum IpcError {
    /// The field-node queue was exhausted before this node could pop its
    /// descriptor: the file or stream is corrupted.
    MissingFieldNode,
    /// A pre-newest-version union expected a validity placeholder buffer and
    /// the buffer queue was exhausted.
    MissingValidityBuffer,
    /// The types buffer of a union was absent from the buffer queue.
    MissingTypesBuffer,
    /// The offsets buffer of a dense union was absent from the buffer queue.
    MissingOffsetsBuffer,
    /// The values buffer of a primitive array was absent from the buffer
    /// queue.
    MissingValuesBuffer,
    /// A buffer descriptor declares fewer bytes than the row count requires,
    /// or reaches outside the batch body.
    BufferOutOfBounds,
    /// The logical type and its parallel schema-shaped field tree disagree on
    /// the number of children.
    ChildCountMismatch,
    /// Union construction failed validation: offsets present in sparse mode
    /// or absent in dense mode, buffer lengths disagreeing, a type tag
    /// selecting no child, an offset outside its child, or a sparse child
    /// whose length differs from the union's.
    InvalidStructure,
}

impl IpcError {
    /// Whether this error reports a corrupted stream (a queue exhausted
    /// early or a buffer descriptor out of bounds) rather than a structural
    /// mismatch with the declared type.
    pub open spec fn spec_is_corrupted_stream(self) -> bool {
        match self {
            IpcError::MissingFieldNode => true,
            IpcError::MissingValidityBuffer => true,
            IpcError::MissingTypesBuffer => true,
            IpcError::MissingOffsetsBuffer => true,
            IpcError::MissingValuesBuffer => true,
            IpcError::BufferOutOfBounds => true,
            IpcError::ChildCountMismatch => false,
            IpcError::InvalidStructure => false,
        }
    }

    /// Exec mirror of [`IpcError::spec_is_corrupted_stream`].
    pub fn is_corrupted_stream(&self) -> (r: bool)
        ensures
            r == self.spec_is_corrupted_stream(),
    {
        match self {
            IpcError::MissingFieldNode => true,
            IpcError::MissingValidityBuffer => true,
            IpcError::MissingTypesBuffer => true,
            IpcError::MissingOffsetsBuffer => true,
            IpcError::MissingValuesBuffer => true,
            IpcError::BufferOutOfBounds => true,
            IpcError::ChildCountMismatch => false,
            IpcError::InvalidStructure => false,
        }
    }

    /// A short description of the error, for reporting outside the library.
    pub fn message(&self) -> &'static str {
        match self {
            IpcError::MissingFieldNode => "IPC: unable to fetch a field node: the file or stream is corrupted",
            IpcError::MissingValidityBuffer => "IPC: missing validity buffer",
            IpcError::MissingTypesBuffer => "IPC: missing types buffer",
            IpcError::MissingOffsetsBuffer => "IPC: missing offsets buffer",
            IpcError::MissingValuesBuffer => "IPC: missing values buffer",
            IpcError::BufferOutOfBounds => "IPC: a buffer is out of the bounds of the batch body",
            IpcError::ChildCountMismatch => "IPC: the schema tree and the logical type disagree on the number of union children",
            IpcError::InvalidStructure => "union of invalid structure",
        }
    }
}

} // verus!
