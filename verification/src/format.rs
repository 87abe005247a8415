use vstd::prelude::*;

verus! {

/// One entry of the pre-order field-node queue: the metadata of one array of
/// the logical type tree, carrying its declared row length and null count.
/// Populated once per record batch and consumed exactly once.
#[derive(Clone, Copy, PartialEq, Eq, Structural, Debug)]
pub struct FieldNode {
    pub length: usize,
    pub null_count: usize,
}

/// One entry of the buffer queue: a contiguous byte range within the record
/// batch's body, consumed in the same pre-order discipline as the field
/// nodes.
#[derive(Clone, Copy, PartialEq, Eq, Structural, Debug)]
pub struct BufferDesc {
    pub offset: usize,
    pub length: usize,
}

/// Format revision of the stream.  Revisions before the newest emit a
/// validity placeholder buffer for every node, unions included, even though
/// unions are never themselves nullable.
#[derive(Clone, Copy, PartialEq, Eq, Structural, Debug)]
pub enum Version {
    V1,
    V2,
    V3,
    V4,
    V5,
}

impl Version {
    /// The newest revision drops the validity placeholder slot of union
    /// nodes.
    pub open spec fn spec_is_newest(self) -> bool {
        self is V5
    }

    /// Exec mirror of [`Version::spec_is_newest`].
    pub fn is_newest(&self) -> (r: bool)
        ensures
            r == self.spec_is_newest(),
    {
        matches!(self, Version::V5)
    }
}

/// How a union lays its children out: sparse children all share the union's
/// length and are selected positionally; dense children have independent
/// lengths and rows are selected through an offsets buffer.
#[derive(Clone, Copy, PartialEq, Eq, Structural, Debug)]
pub enum UnionMode {
    Sparse,
    Dense,
}

impl UnionMode {
    pub open spec fn spec_is_sparse(self) -> bool {
        self is Sparse
    }

    /// Exec mirror of [`UnionMode::spec_is_sparse`].
    pub fn is_sparse(&self) -> (r: bool)
        ensures
            r == self.spec_is_sparse(),
    {
        matches!(self, UnionMode::Sparse)
    }
}

/// The closed set of node kinds of the logical type tree.  Each kind owns a
/// fixed buffer-consumption rule; the union kind is one arm.
#[derive(PartialEq, Eq, Debug)]
pub enum DataType {
    /// An array of all-null rows: it owns a field node but no physical
    /// buffers.
    Null,
    /// A fixed-width array of 32-bit signed integers with an optional
    /// validity bitmap.
    Primitive,
    /// A tagged union over the declared child types.
    Union(UnionType),
}

/// The declared shape of a union: its layout mode and its child types, in
/// declaration order.  The type tag of row `i` selects the child at that
/// index.
#[derive(PartialEq, Eq, Debug)]
pub struct UnionType {
    pub mode: UnionMode,
    pub fields: Vec<DataType>,
}

/// Schema-shaped tree parallel to the logical type tree, carrying per-field
/// dictionary identifiers.  It is consumed structurally (zipped child by
/// child), and its child count must match the logical type's exactly.
#[derive(PartialEq, Eq, Debug)]
pub struct IpcField {
    pub fields: Vec<IpcField>,
    pub dictionary_id: Option<i64>,
}

/// The row count a node materializes: its declared length, clamped by the
/// optional row-count limit (the limit wins if smaller).
pub open spec fn clamped_length(length: usize, limit: Option<usize>) -> nat {
    match limit {
        Some(l) => if l < length {
            l as nat
        } else {
            length as nat
        },
        None => length as nat,
    }
}

} // verus!
