use vstd::prelude::*;

use crate::format::{DataType, UnionMode, UnionType, Version};

verus! {

// The queue-synchronized traversal protocol: every kind-specific decoder
// pops from the front of the shared field-node queue and buffer queue, and
// the number of entries it pops is a fixed function of the node kind, the
// format version and the kind's mode flags — never of the buffer contents.
// The functions below state those counts; the read and the skip path each
// promise, in their contracts, to advance the queues by exactly these
// amounts on success.

/// How many validity placeholder buffers a union node carries: one under
/// revisions before the newest, none under the newest.
pub open spec fn union_validity_slots(version: Version) -> nat {
    if version.spec_is_newest() {
        0
    } else {
        1
    }
}

/// How many offsets buffers a union node carries: one in dense mode, none in
/// sparse mode.
pub open spec fn union_offsets_slots(mode: UnionMode) -> nat {
    if mode.spec_is_sparse() {
        0
    } else {
        1
    }
}

/// Field nodes the read path consumes for one node of the given type: one
/// for the node itself, plus the nodes of the whole child subtree.
pub open spec fn read_nodes_consumed(dtype: DataType) -> nat
    decreases dtype, 0int,
{
    match dtype {
        DataType::Null => 1,
        DataType::Primitive => 1,
        DataType::Union(u) => 1 + read_nodes_consumed_children(u.fields@),
    }
}

/// Field nodes the read path consumes for a sequence of sibling children, in
/// declaration order.
pub open spec fn read_nodes_consumed_children(fields: Seq<DataType>) -> nat
    decreases fields, 1int,
{
    if fields.len() == 0 {
        0
    } else {
        read_nodes_consumed(fields[0]) + read_nodes_consumed_children(fields.skip(1))
    }
}

/// Buffers the read path consumes for one node of the given type.  A
/// primitive node owns a validity buffer and a values buffer.  A union node
/// owns its version-dependent validity placeholder, always a types buffer,
/// and an offsets buffer exactly in dense mode, followed by the buffers of
/// its child subtree.
pub open spec fn read_buffers_consumed(dtype: DataType, version: Version) -> nat
    decreases dtype, 0int,
{
    match dtype {
        DataType::Null => 0,
        DataType::Primitive => 2,
        DataType::Union(u) => union_validity_slots(version) + 1 + union_offsets_slots(u.mode)
            + read_buffers_consumed_children(u.fields@, version),
    }
}

/// Buffers the read path consumes for a sequence of sibling children.
pub open spec fn read_buffers_consumed_children(fields: Seq<DataType>, version: Version) -> nat
    decreases fields, 1int,
{
    if fields.len() == 0 {
        0
    } else {
        read_buffers_consumed(fields[0], version) + read_buffers_consumed_children(
            fields.skip(1),
            version,
        )
    }
}

/// Field nodes the skip path consumes for one node of the given type.
pub open spec fn skip_nodes_consumed(dtype: DataType) -> nat
    decreases dtype, 0int,
{
    match dtype {
        DataType::Null => 1,
        DataType::Primitive => 1,
        DataType::Union(u) => 1 + skip_nodes_consumed_children(u.fields@),
    }
}

/// Field nodes the skip path consumes for a sequence of sibling children.
pub open spec fn skip_nodes_consumed_children(fields: Seq<DataType>) -> nat
    decreases fields, 1int,
{
    if fields.len() == 0 {
        0
    } else {
        skip_nodes_consumed(fields[0]) + skip_nodes_consumed_children(fields.skip(1))
    }
}

/// Buffers the skip path consumes for one node of the given type.
pub open spec fn skip_buffers_consumed(dtype: DataType, version: Version) -> nat
    decreases dtype, 0int,
{
    match dtype {
        DataType::Null => 0,
        DataType::Primitive => 2,
        DataType::Union(u) => union_validity_slots(version) + 1 + union_offsets_slots(u.mode)
            + skip_buffers_consumed_children(u.fields@, version),
    }
}

/// Buffers the skip path consumes for a sequence of sibling children.
pub open spec fn skip_buffers_consumed_children(fields: Seq<DataType>, version: Version) -> nat
    decreases fields, 1int,
{
    if fields.len() == 0 {
        0
    } else {
        skip_buffers_consumed(fields[0], version) + skip_buffers_consumed_children(
            fields.skip(1),
            version,
        )
    }
}

/// Law: a sparse union never owns an offsets buffer and a dense union
/// always owns exactly one, whatever the version: beyond its validity
/// placeholder, its types buffer and its children's own shares, a dense
/// union's decode consumes one buffer more than a sparse one's.
pub proof fn lemma_union_offsets_consumption(u: UnionType, version: Version)
    ensures
        u.mode is Sparse ==> read_buffers_consumed(DataType::Union(u), version)
            == union_validity_slots(version) + 1 + read_buffers_consumed_children(
            u.fields@,
            version,
        ),
        u.mode is Dense ==> read_buffers_consumed(DataType::Union(u), version)
            == union_validity_slots(version) + 2 + read_buffers_consumed_children(
            u.fields@,
            version,
        ),
{
}

/// Law: for the same logical type and format version, the read path and the
/// skip path consume exactly the same number of field-node queue entries and
/// of buffer queue entries, whatever the queue and buffer contents.  A skip
/// that drifted from the read arithmetic would desynchronize every column
/// decoded after the skipped one.
pub proof fn lemma_read_skip_consume_equal(dtype: DataType, version: Version)
    ensures
        read_nodes_consumed(dtype) == skip_nodes_consumed(dtype),
        read_buffers_consumed(dtype, version) == skip_buffers_consumed(dtype, version),
    decreases dtype, 0int,
{
    match dtype {
        DataType::Null => {},
        DataType::Primitive => {},
        DataType::Union(u) => {
            lemma_read_skip_consume_equal_children(u.fields@, version);
        },
    }
}

/// Law: the agreement of [`lemma_read_skip_consume_equal`], stated for a
/// sequence of sibling children.
pub proof fn lemma_read_skip_consume_equal_children(fields: Seq<DataType>, version: Version)
    ensures
        read_nodes_consumed_children(fields) == skip_nodes_consumed_children(fields),
        read_buffers_consumed_children(fields, version) == skip_buffers_consumed_children(
            fields,
            version,
        ),
    decreases fields, 1int,
{
    if fields.len() > 0 {
        lemma_read_skip_consume_equal(fields[0], version);
        lemma_read_skip_consume_equal_children(fields.skip(1), version);
    }
}

} // verus!
