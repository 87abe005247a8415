use vstd::prelude::*;

use std::collections::VecDeque;

use crate::array::{
    lemma_models_of_push, models_of, ArrayModel, ArrayValue, NullArray, NullModel, PrimitiveArray,
    PrimitiveModel, UnionArray, UnionModel,
};
use crate::bytes::{bytes_at, decode_bytes, decode_i32s, decode_i8s, desc_covers, i32s_at, i8s_at};
use crate::error::IpcError;
use crate::format::{clamped_length, BufferDesc, DataType, FieldNode, IpcField, UnionType, Version};
use crate::protocol::{
    read_buffers_consumed, read_buffers_consumed_children, read_nodes_consumed,
    read_nodes_consumed_children, union_offsets_slots, union_validity_slots,
};

verus! {

/// Bytes a validity bitmap covers: one bit per row.
pub open spec fn bitmap_bytes(rows: nat) -> nat {
    (rows + 7) / 8
}

/// What reading one all-null node yields: its field node alone — a null
/// node owns no physical buffers — with its declared length clamped by the
/// optional limit.
pub open spec fn spec_read_null(nodes: Seq<FieldNode>, limit: Option<usize>) -> Result<
    ArrayModel,
    IpcError,
> {
    if nodes.len() == 0 {
        Err(IpcError::MissingFieldNode)
    } else {
        Ok(ArrayModel::Null(NullModel { length: clamped_length(nodes[0].length, limit) }))
    }
}

/// What reading one primitive node yields from the given queue and body
/// contents: its field node, then its validity buffer (read only when the
/// node declares nulls), then its values buffer, in this order, or the
/// first error this order meets.
pub open spec fn spec_read_primitive(
    nodes: Seq<FieldNode>,
    bufs: Seq<BufferDesc>,
    body: Seq<u8>,
    little_endian: bool,
    limit: Option<usize>,
) -> Result<ArrayModel, IpcError> {
    if nodes.len() == 0 {
        Err(IpcError::MissingFieldNode)
    } else {
        let node = nodes[0];
        let rows = clamped_length(node.length, limit);
        if bufs.len() == 0 {
            Err(IpcError::MissingValidityBuffer)
        } else {
            let vdesc = bufs[0];
            if node.null_count > 0 && !desc_covers(vdesc, bitmap_bytes(rows), body.len()) {
                Err(IpcError::BufferOutOfBounds)
            } else {
                let validity = if node.null_count > 0 {
                    Some(bytes_at(body, vdesc.offset as int, bitmap_bytes(rows)))
                } else {
                    None
                };
                if bufs.len() < 2 {
                    Err(IpcError::MissingValuesBuffer)
                } else {
                    let ddesc = bufs[1];
                    if !desc_covers(ddesc, 4 * rows, body.len()) {
                        Err(IpcError::BufferOutOfBounds)
                    } else {
                        Ok(
                            ArrayModel::Primitive(
                                PrimitiveModel {
                                    validity,
                                    values: i32s_at(body, ddesc.offset as int, rows, little_endian),
                                },
                            ),
                        )
                    }
                }
            }
        }
    }
}

/// What reading one union node yields: its field node, the validity
/// placeholder buffer under pre-newest versions, the types buffer, the
/// offsets buffer in dense mode, the children in declaration order, and the
/// validated construction — or the first error this order meets.
pub open spec fn spec_read_union(
    u: UnionType,
    ipc: IpcField,
    nodes: Seq<FieldNode>,
    bufs: Seq<BufferDesc>,
    body: Seq<u8>,
    little_endian: bool,
    limit: Option<usize>,
    version: Version,
) -> Result<ArrayModel, IpcError>
    decreases u, 0int,
{
    if nodes.len() == 0 {
        Err(IpcError::MissingFieldNode)
    } else {
        let rows = clamped_length(nodes[0].length, limit);
        let nodes1 = nodes.skip(1);
        if !version.spec_is_newest() && bufs.len() == 0 {
            Err(IpcError::MissingValidityBuffer)
        } else {
            let bufs1 = if version.spec_is_newest() {
                bufs
            } else {
                bufs.skip(1)
            };
            if bufs1.len() == 0 {
                Err(IpcError::MissingTypesBuffer)
            } else if !desc_covers(bufs1[0], rows, body.len()) {
                Err(IpcError::BufferOutOfBounds)
            } else {
                let types = i8s_at(body, bufs1[0].offset as int, rows);
                let bufs2 = bufs1.skip(1);
                if u.mode is Dense && bufs2.len() == 0 {
                    Err(IpcError::MissingOffsetsBuffer)
                } else if u.mode is Dense && !desc_covers(bufs2[0], 4 * rows, body.len()) {
                    Err(IpcError::BufferOutOfBounds)
                } else {
                    let offsets = if u.mode is Dense {
                        Some(i32s_at(body, bufs2[0].offset as int, rows, little_endian))
                    } else {
                        None
                    };
                    let bufs3 = if u.mode is Dense {
                        bufs2.skip(1)
                    } else {
                        bufs2
                    };
                    if u.fields@.len() != ipc.fields@.len() {
                        Err(IpcError::ChildCountMismatch)
                    } else {
                        match spec_read_children(
                            u.fields@,
                            ipc.fields@,
                            nodes1,
                            bufs3,
                            body,
                            little_endian,
                            version,
                        ) {
                            Err(e) => Err(e),
                            Ok(children) => {
                                let m = UnionModel { mode: u.mode, types, offsets, fields: children };
                                if m.wf() {
                                    Ok(ArrayModel::Union(m))
                                } else {
                                    Err(IpcError::InvalidStructure)
                                }
                            },
                        }
                    }
                }
            }
        }
    }
}

/// What reading a sequence of sibling children yields, each child consuming
/// its fixed share of the queues before the next starts.  Children are read
/// with no row-count limit: their own declared lengths are authoritative.
pub open spec fn spec_read_children(
    fields: Seq<DataType>,
    ipcs: Seq<IpcField>,
    nodes: Seq<FieldNode>,
    bufs: Seq<BufferDesc>,
    body: Seq<u8>,
    little_endian: bool,
    version: Version,
) -> Result<Seq<ArrayModel>, IpcError>
    decreases fields, 2int,
{
    if fields.len() == 0 {
        Ok(Seq::empty())
    } else {
        match spec_read(fields[0], ipcs[0], nodes, bufs, body, little_endian, None, version) {
            Err(e) => Err(e),
            Ok(m) => match spec_read_children(
                fields.skip(1),
                ipcs.skip(1),
                nodes.skip(read_nodes_consumed(fields[0]) as int),
                bufs.skip(read_buffers_consumed(fields[0], version) as int),
                body,
                little_endian,
                version,
            ) {
                Err(e) => Err(e),
                Ok(ms) => Ok(seq![m] + ms),
            },
        }
    }
}

/// What reading one node of any kind yields: the dispatch over the closed
/// set of node kinds.
pub open spec fn spec_read(
    dtype: DataType,
    ipc: IpcField,
    nodes: Seq<FieldNode>,
    bufs: Seq<BufferDesc>,
    body: Seq<u8>,
    little_endian: bool,
    limit: Option<usize>,
    version: Version,
) -> Result<ArrayModel, IpcError>
    decreases dtype, 1int,
{
    match dtype {
        DataType::Null => spec_read_null(nodes, limit),
        DataType::Primitive => spec_read_primitive(nodes, bufs, body, little_endian, limit),
        DataType::Union(u) => spec_read_union(
            u,
            ipc,
            nodes,
            bufs,
            body,
            little_endian,
            limit,
            version,
        ),
    }
}

/// How many field nodes and buffers reading one all-null node removes,
/// whatever the outcome.
pub open spec fn spec_read_null_used(nodes: Seq<FieldNode>) -> (nat, nat) {
    if nodes.len() == 0 {
        (0, 0)
    } else {
        (1, 0)
    }
}

/// How many field nodes and buffers reading one primitive node removes,
/// whatever the outcome: every pop up to and excluding the first one that
/// finds its queue empty; a buffer whose descriptor is out of bounds is
/// popped before the failure is reported.
pub open spec fn spec_read_primitive_used(
    nodes: Seq<FieldNode>,
    bufs: Seq<BufferDesc>,
    body: Seq<u8>,
    limit: Option<usize>,
) -> (nat, nat) {
    if nodes.len() == 0 {
        (0, 0)
    } else {
        let rows = clamped_length(nodes[0].length, limit);
        if bufs.len() == 0 {
            (1, 0)
        } else if nodes[0].null_count > 0 && !desc_covers(bufs[0], bitmap_bytes(rows), body.len()) {
            (1, 1)
        } else if bufs.len() < 2 {
            (1, 1)
        } else {
            (1, 2)
        }
    }
}

/// How many field nodes and buffers reading one union node removes,
/// whatever the outcome: its own pops in order up to the first exhausted
/// queue or out-of-bounds descriptor, then whatever its children removed
/// before the first failing one.
pub open spec fn spec_read_union_used(
    u: UnionType,
    ipc: IpcField,
    nodes: Seq<FieldNode>,
    bufs: Seq<BufferDesc>,
    body: Seq<u8>,
    little_endian: bool,
    limit: Option<usize>,
    version: Version,
) -> (nat, nat)
    decreases u, 0int,
{
    if nodes.len() == 0 {
        (0, 0)
    } else {
        let rows = clamped_length(nodes[0].length, limit);
        let vs = union_validity_slots(version);
        if !version.spec_is_newest() && bufs.len() == 0 {
            (1, 0)
        } else {
            let bufs1 = if version.spec_is_newest() {
                bufs
            } else {
                bufs.skip(1)
            };
            if bufs1.len() == 0 {
                (1, vs)
            } else if !desc_covers(bufs1[0], rows, body.len()) {
                (1, vs + 1)
            } else {
                let bufs2 = bufs1.skip(1);
                if u.mode is Dense && bufs2.len() == 0 {
                    (1, vs + 1)
                } else if u.mode is Dense && !desc_covers(bufs2[0], 4 * rows, body.len()) {
                    (1, vs + 2)
                } else {
                    let own = vs + 1 + union_offsets_slots(u.mode);
                    if u.fields@.len() != ipc.fields@.len() {
                        (1, own)
                    } else {
                        let c = spec_read_children_used(
                            u.fields@,
                            ipc.fields@,
                            nodes.skip(1),
                            bufs.skip(own as int),
                            body,
                            little_endian,
                            version,
                        );
                        (1 + c.0, own + c.1)
                    }
                }
            }
        }
    }
}

/// How many field nodes and buffers reading a sequence of sibling children
/// removes, whatever the outcome.
pub open spec fn spec_read_children_used(
    fields: Seq<DataType>,
    ipcs: Seq<IpcField>,
    nodes: Seq<FieldNode>,
    bufs: Seq<BufferDesc>,
    body: Seq<u8>,
    little_endian: bool,
    version: Version,
) -> (nat, nat)
    decreases fields, 2int,
{
    if fields.len() == 0 {
        (0, 0)
    } else {
        match spec_read(fields[0], ipcs[0], nodes, bufs, body, little_endian, None, version) {
            Err(_) => spec_read_used(
                fields[0],
                ipcs[0],
                nodes,
                bufs,
                body,
                little_endian,
                None,
                version,
            ),
            Ok(_) => {
                let n = read_nodes_consumed(fields[0]);
                let b = read_buffers_consumed(fields[0], version);
                let c = spec_read_children_used(
                    fields.skip(1),
                    ipcs.skip(1),
                    nodes.skip(n as int),
                    bufs.skip(b as int),
                    body,
                    little_endian,
                    version,
                );
                (n + c.0, b + c.1)
            },
        }
    }
}

/// How many field nodes and buffers reading one node of any kind removes,
/// whatever the outcome: the dispatch over the closed set of node kinds.
pub open spec fn spec_read_used(
    dtype: DataType,
    ipc: IpcField,
    nodes: Seq<FieldNode>,
    bufs: Seq<BufferDesc>,
    body: Seq<u8>,
    little_endian: bool,
    limit: Option<usize>,
    version: Version,
) -> (nat, nat)
    decreases dtype, 1int,
{
    match dtype {
        DataType::Null => spec_read_null_used(nodes),
        DataType::Primitive => spec_read_primitive_used(nodes, bufs, body, limit),
        DataType::Union(u) => spec_read_union_used(
            u,
            ipc,
            nodes,
            bufs,
            body,
            little_endian,
            limit,
            version,
        ),
    }
}

/// Extending the decoded prefix by one child adds that child's fixed share
/// to the prefix's consumption.
proof fn lemma_read_consumed_children_snoc(s: Seq<DataType>, i: int, version: Version)
    requires
        0 <= i < s.len(),
    ensures
        read_nodes_consumed_children(s.take(i + 1)) == read_nodes_consumed_children(s.take(i))
            + read_nodes_consumed(s[i]),
        read_buffers_consumed_children(s.take(i + 1), version) == read_buffers_consumed_children(
            s.take(i),
            version,
        ) + read_buffers_consumed(s[i], version),
    decreases i,
{
    if i == 0 {
        assert(s.take(1) =~= seq![s[0]]);
        assert(s.take(1).skip(1) =~= Seq::<DataType>::empty());
        assert(s.take(0) =~= Seq::<DataType>::empty());
    } else {
        lemma_read_consumed_children_snoc(s.skip(1), i - 1, version);
        assert(s.take(i + 1)[0] == s[0]);
        assert(s.take(i)[0] == s[0]);
        assert(s.take(i + 1).skip(1) =~= s.skip(1).take(i));
        assert(s.take(i).skip(1) =~= s.skip(1).take(i - 1));
        assert(s.skip(1)[i - 1] == s[i]);
    }
}

/// Law: the read path fails with the corrupted-format error when a union
/// faces an empty field-node queue, whatever the other inputs hold.
pub proof fn lemma_read_union_empty_nodes_fails(
    u: UnionType,
    ipc: IpcField,
    bufs: Seq<BufferDesc>,
    body: Seq<u8>,
    little_endian: bool,
    limit: Option<usize>,
    version: Version,
)
    ensures
        spec_read_union(u, ipc, Seq::empty(), bufs, body, little_endian, limit, version) == Err::<
            ArrayModel,
            IpcError,
        >(IpcError::MissingFieldNode),
        spec_read_union_used(u, ipc, Seq::empty(), bufs, body, little_endian, limit, version) == ((
            0nat,
            0nat,
        )),
{
}

/// Reads one all-null node: pops its field node — a null node owns no
/// physical buffers — exactly as [`spec_read_null`] states.
pub fn read_null(field_nodes: &mut VecDeque<FieldNode>, limit: Option<usize>) -> (r: Result<
    NullArray,
    IpcError,
>)
    ensures
        spec_read_null_used(old(field_nodes)@).0 <= old(field_nodes)@.len(),
        final(field_nodes)@ == old(field_nodes)@.skip(
            spec_read_null_used(old(field_nodes)@).0 as int,
        ),
        match r {
            Ok(arr) => {
                &&& spec_read_null(old(field_nodes)@, limit) == Ok::<ArrayModel, IpcError>(
                    ArrayModel::Null(NullModel { length: arr.length as nat }),
                )
                &&& old(field_nodes)@.len() >= 1
                &&& final(field_nodes)@ == old(field_nodes)@.skip(1)
            },
            Err(e) => spec_read_null(old(field_nodes)@, limit) == Err::<ArrayModel, IpcError>(e),
        },
{
    let node = match field_nodes.pop_front() {
        Some(n) => n,
        None => {
            proof {
                assert(field_nodes@ =~= old(field_nodes)@.skip(0));
            }
            return Err(IpcError::MissingFieldNode);
        },
    };
    proof {
        assert(field_nodes@ =~= old(field_nodes)@.skip(1));
    }
    let rows: usize = match limit {
        Some(l) => if l < node.length {
            l
        } else {
            node.length
        },
        None => node.length,
    };
    Ok(NullArray { length: rows })
}

/// Reads one primitive node: pops its field node and its two buffers and
/// materializes the values, exactly as [`spec_read_primitive`] states.
pub fn read_primitive(
    field_nodes: &mut VecDeque<FieldNode>,
    buffers: &mut VecDeque<BufferDesc>,
    body: &[u8],
    is_little_endian: bool,
    limit: Option<usize>,
) -> (r: Result<PrimitiveArray, IpcError>)
    ensures
        spec_read_primitive_used(old(field_nodes)@, old(buffers)@, body@, limit).0 <= old(
            field_nodes,
        )@.len(),
        spec_read_primitive_used(old(field_nodes)@, old(buffers)@, body@, limit).1 <= old(
            buffers,
        )@.len(),
        final(field_nodes)@ == old(field_nodes)@.skip(
            spec_read_primitive_used(old(field_nodes)@, old(buffers)@, body@, limit).0 as int,
        ),
        final(buffers)@ == old(buffers)@.skip(
            spec_read_primitive_used(old(field_nodes)@, old(buffers)@, body@, limit).1 as int,
        ),
        match r {
            Ok(arr) => {
                &&& spec_read_primitive(
                    old(field_nodes)@,
                    old(buffers)@,
                    body@,
                    is_little_endian,
                    limit,
                ) == Ok::<ArrayModel, IpcError>(ArrayModel::Primitive(arr@))
                &&& old(field_nodes)@.len() >= 1
                &&& final(field_nodes)@ == old(field_nodes)@.skip(1)
                &&& old(buffers)@.len() >= 2
                &&& final(buffers)@ == old(buffers)@.skip(2)
            },
            Err(e) => spec_read_primitive(
                old(field_nodes)@,
                old(buffers)@,
                body@,
                is_little_endian,
                limit,
            ) == Err::<ArrayModel, IpcError>(e),
        },
{
    let node = match field_nodes.pop_front() {
        Some(n) => n,
        None => {
            proof {
                assert(field_nodes@ =~= old(field_nodes)@.skip(0));
                assert(buffers@ =~= old(buffers)@.skip(0));
            }
            return Err(IpcError::MissingFieldNode);
        },
    };
    let rows: usize = match limit {
        Some(l) => if l < node.length {
            l
        } else {
            node.length
        },
        None => node.length,
    };
    assert(rows as nat == clamped_length(node.length, limit));
    let vdesc = match buffers.pop_front() {
        Some(d) => d,
        None => {
            proof {
                assert(field_nodes@ =~= old(field_nodes)@.skip(1));
                assert(buffers@ =~= old(buffers)@.skip(0));
            }
            return Err(IpcError::MissingValidityBuffer);
        },
    };
    proof {
        assert(field_nodes@ =~= old(field_nodes)@.skip(1));
        assert(buffers@ =~= old(buffers)@.skip(1));
    }
    let validity: Option<Vec<u8>> = if node.null_count > 0 {
        let nbytes: usize = rows / 8 + if rows % 8 > 0 {
            1
        } else {
            0
        };
        assert(nbytes as nat == bitmap_bytes(rows as nat));
        match decode_bytes(&vdesc, nbytes, body) {
            Ok(v) => Some(v),
            Err(e) => {
                return Err(e);
            },
        }
    } else {
        None
    };
    let ddesc = match buffers.pop_front() {
        Some(d) => d,
        None => {
            return Err(IpcError::MissingValuesBuffer);
        },
    };
    proof {
        assert(buffers@ =~= old(buffers)@.skip(2));
    }
    let values = match decode_i32s(&ddesc, rows, body, is_little_endian) {
        Ok(v) => v,
        Err(e) => {
            return Err(e);
        },
    };
    Ok(PrimitiveArray { validity, values })
}

/// Reads one node of any kind by dispatching on its logical type, exactly
/// as [`spec_read`] states.  On success the two shared queues advance by
/// exactly the fixed share of the node's whole subtree; the variadic-count
/// queue is passed through unchanged.
pub fn read(
    field_nodes: &mut VecDeque<FieldNode>,
    variadic_buffer_counts: &mut VecDeque<usize>,
    dtype: &DataType,
    ipc_field: &IpcField,
    buffers: &mut VecDeque<BufferDesc>,
    body: &[u8],
    is_little_endian: bool,
    limit: Option<usize>,
    version: Version,
) -> (r: Result<ArrayValue, IpcError>)
    ensures
        final(variadic_buffer_counts)@ == old(variadic_buffer_counts)@,
        spec_read_used(
            *dtype,
            *ipc_field,
            old(field_nodes)@,
            old(buffers)@,
            body@,
            is_little_endian,
            limit,
            version,
        ).0 <= old(field_nodes)@.len(),
        spec_read_used(
            *dtype,
            *ipc_field,
            old(field_nodes)@,
            old(buffers)@,
            body@,
            is_little_endian,
            limit,
            version,
        ).1 <= old(buffers)@.len(),
        final(field_nodes)@ == old(field_nodes)@.skip(
            spec_read_used(
                *dtype,
                *ipc_field,
                old(field_nodes)@,
                old(buffers)@,
                body@,
                is_little_endian,
                limit,
                version,
            ).0 as int,
        ),
        final(buffers)@ == old(buffers)@.skip(
            spec_read_used(
                *dtype,
                *ipc_field,
                old(field_nodes)@,
                old(buffers)@,
                body@,
                is_little_endian,
                limit,
                version,
            ).1 as int,
        ),
        match r {
            Ok(av) => {
                &&& spec_read(
                    *dtype,
                    *ipc_field,
                    old(field_nodes)@,
                    old(buffers)@,
                    body@,
                    is_little_endian,
                    limit,
                    version,
                ) == Ok::<ArrayModel, IpcError>(av@)
                &&& old(field_nodes)@.len() >= read_nodes_consumed(*dtype)
                &&& final(field_nodes)@ == old(field_nodes)@.skip(read_nodes_consumed(*dtype) as int)
                &&& old(buffers)@.len() >= read_buffers_consumed(*dtype, version)
                &&& final(buffers)@ == old(buffers)@.skip(
                    read_buffers_consumed(*dtype, version) as int,
                )
            },
            Err(e) => spec_read(
                *dtype,
                *ipc_field,
                old(field_nodes)@,
                old(buffers)@,
                body@,
                is_little_endian,
                limit,
                version,
            ) == Err::<ArrayModel, IpcError>(e),
        },
    decreases *dtype, 1int,
{
    let r = match dtype {
        DataType::Null => match read_null(field_nodes, limit) {
            Ok(nl) => Ok(ArrayValue::Null(nl)),
            Err(e) => Err(e),
        },
        DataType::Primitive => match read_primitive(
            field_nodes,
            buffers,
            body,
            is_little_endian,
            limit,
        ) {
            Ok(p) => Ok(ArrayValue::Primitive(p)),
            Err(e) => Err(e),
        },
        DataType::Union(_) => match read_union(
            field_nodes,
            variadic_buffer_counts,
            dtype,
            ipc_field,
            buffers,
            body,
            is_little_endian,
            limit,
            version,
        ) {
            Ok(u) => Ok(ArrayValue::Union(u)),
            Err(e) => Err(e),
        },
    };
    proof {
        if dtype is Null {
            assert(buffers@ =~= old(buffers)@.skip(0));
        }
    }
    r
}

/// Reads one union node: pops its own field node, its version-dependent
/// validity placeholder, its types buffer and (dense mode) its offsets
/// buffer, recurses into each child through the generic dispatcher, and
/// validates the construction — exactly as [`spec_read_union`] states.
///
/// On success the union's materialized length is its declared length
/// clamped by `limit` (the limit wins if smaller), the two shared queues
/// advance by exactly the fixed share of the union's whole subtree, and the
/// variadic-count queue is passed through unchanged.  On failure the
/// contract still pins the queues exactly: [`spec_read_union_used`] states
/// how many entries each pop removed before the failure, so an empty
/// field-node queue, in particular, leaves both queues untouched, and every
/// outcome only ever removes entries from the front.
#[verifier::rlimit(100)]
#[verifier::spinoff_prover]
pub fn read_union(
    field_nodes: &mut VecDeque<FieldNode>,
    variadic_buffer_counts: &mut VecDeque<usize>,
    dtype: &DataType,
    ipc_field: &IpcField,
    buffers: &mut VecDeque<BufferDesc>,
    body: &[u8],
    is_little_endian: bool,
    limit: Option<usize>,
    version: Version,
) -> (r: Result<UnionArray, IpcError>)
    requires
        *dtype is Union,
    ensures
        final(variadic_buffer_counts)@ == old(variadic_buffer_counts)@,
        spec_read_union_used(
            dtype->Union_0,
            *ipc_field,
            old(field_nodes)@,
            old(buffers)@,
            body@,
            is_little_endian,
            limit,
            version,
        ).0 <= old(field_nodes)@.len(),
        spec_read_union_used(
            dtype->Union_0,
            *ipc_field,
            old(field_nodes)@,
            old(buffers)@,
            body@,
            is_little_endian,
            limit,
            version,
        ).1 <= old(buffers)@.len(),
        final(field_nodes)@ == old(field_nodes)@.skip(
            spec_read_union_used(
                dtype->Union_0,
                *ipc_field,
                old(field_nodes)@,
                old(buffers)@,
                body@,
                is_little_endian,
                limit,
                version,
            ).0 as int,
        ),
        final(buffers)@ == old(buffers)@.skip(
            spec_read_union_used(
                dtype->Union_0,
                *ipc_field,
                old(field_nodes)@,
                old(buffers)@,
                body@,
                is_little_endian,
                limit,
                version,
            ).1 as int,
        ),
        match r {
            Ok(arr) => {
                &&& spec_read_union(
                    dtype->Union_0,
                    *ipc_field,
                    old(field_nodes)@,
                    old(buffers)@,
                    body@,
                    is_little_endian,
                    limit,
                    version,
                ) == Ok::<ArrayModel, IpcError>(ArrayModel::Union(arr@))
                &&& arr@.wf()
                &&& old(field_nodes)@.len() >= 1
                &&& arr@.len() == clamped_length(old(field_nodes)@[0].length, limit)
                &&& old(field_nodes)@.len() >= read_nodes_consumed(*dtype)
                &&& final(field_nodes)@ == old(field_nodes)@.skip(read_nodes_consumed(*dtype) as int)
                &&& old(buffers)@.len() >= read_buffers_consumed(*dtype, version)
                &&& final(buffers)@ == old(buffers)@.skip(
                    read_buffers_consumed(*dtype, version) as int,
                )
            },
            Err(e) => spec_read_union(
                dtype->Union_0,
                *ipc_field,
                old(field_nodes)@,
                old(buffers)@,
                body@,
                is_little_endian,
                limit,
                version,
            ) == Err::<ArrayModel, IpcError>(e),
        },
    decreases *dtype, 0int,
{
    let u = match dtype {
        DataType::Union(x) => x,
        DataType::Null | DataType::Primitive => {
            proof {
                assert(false);
            }
            return Err(IpcError::InvalidStructure);
        },
    };
    let node = match field_nodes.pop_front() {
        Some(n) => n,
        None => {
            proof {
                assert(field_nodes@ =~= old(field_nodes)@.skip(0));
                assert(buffers@ =~= old(buffers)@.skip(0));
            }
            return Err(IpcError::MissingFieldNode);
        },
    };
    let rows: usize = match limit {
        Some(l) => if l < node.length {
            l
        } else {
            node.length
        },
        None => node.length,
    };
    assert(rows as nat == clamped_length(node.length, limit));
    if !version.is_newest() {
        match buffers.pop_front() {
            Some(_) => {},
            None => {
                proof {
                    assert(field_nodes@ =~= old(field_nodes)@.skip(1));
                    assert(buffers@ =~= old(buffers)@.skip(0));
                }
                return Err(IpcError::MissingValidityBuffer);
            },
        }
    }
    let tdesc = match buffers.pop_front() {
        Some(d) => d,
        None => {
            proof {
                assert(field_nodes@ =~= old(field_nodes)@.skip(1));
                assert(buffers@ =~= old(buffers)@.skip(union_validity_slots(version) as int));
            }
            return Err(IpcError::MissingTypesBuffer);
        },
    };
    proof {
        assert(field_nodes@ =~= old(field_nodes)@.skip(1));
        assert(buffers@ =~= old(buffers)@.skip((union_validity_slots(version) + 1) as int));
    }
    let types = match decode_i8s(&tdesc, rows, body) {
        Ok(v) => v,
        Err(e) => {
            return Err(e);
        },
    };
    let offsets: Option<Vec<i32>> = if !u.mode.is_sparse() {
        let odesc = match buffers.pop_front() {
            Some(d) => d,
            None => {
                proof {
                    assert(buffers@ =~= old(buffers)@.skip(
                        (union_validity_slots(version) + 1) as int,
                    ));
                }
                return Err(IpcError::MissingOffsetsBuffer);
            },
        };
        proof {
            assert(buffers@ =~= old(buffers)@.skip((union_validity_slots(version) + 2) as int));
        }
        match decode_i32s(&odesc, rows, body, is_little_endian) {
            Ok(v) => Some(v),
            Err(e) => {
                return Err(e);
            },
        }
    } else {
        None
    };
    if u.fields.len() != ipc_field.fields.len() {
        return Err(IpcError::ChildCountMismatch);
    }
    let ghost nodes_mid = field_nodes@;
    let ghost bufs_mid = buffers@;
    let ghost typesg = types@;
    let ghost offsetsg: Option<Seq<i32>> = match &offsets {
        Some(o) => Some(o@),
        None => None,
    };
    proof {
        assert(nodes_mid =~= old(field_nodes)@.skip(1));
        assert(bufs_mid =~= old(buffers)@.skip(
            (union_validity_slots(version) + 1 + union_offsets_slots(u.mode)) as int,
        ));
    }
    let n = u.fields.len();
    let mut children: Vec<ArrayValue> = Vec::new();
    let mut j: usize = 0;
    proof {
        assert(u.fields@.take(0) =~= Seq::<DataType>::empty());
        assert(u.fields@.skip(0) =~= u.fields@);
        assert(ipc_field.fields@.skip(0) =~= ipc_field.fields@);
        assert(nodes_mid.skip(0) =~= nodes_mid);
        assert(bufs_mid.skip(0) =~= bufs_mid);
        let r0 = spec_read_children(
            u.fields@,
            ipc_field.fields@,
            nodes_mid,
            bufs_mid,
            body@,
            is_little_endian,
            version,
        );
        if r0 is Ok {
            assert(models_of(children@) + r0->Ok_0 =~= r0->Ok_0);
        }
    }
    while j < n
        invariant
            j <= n,
            *dtype == DataType::Union(*u),
            n == u.fields@.len(),
            n == ipc_field.fields@.len(),
            children@.len() == j,
            variadic_buffer_counts@ == old(variadic_buffer_counts)@,
            nodes_mid.len() >= read_nodes_consumed_children(u.fields@.take(j as int)),
            field_nodes@ == nodes_mid.skip(
                read_nodes_consumed_children(u.fields@.take(j as int)) as int,
            ),
            bufs_mid.len() >= read_buffers_consumed_children(u.fields@.take(j as int), version),
            buffers@ == bufs_mid.skip(
                read_buffers_consumed_children(u.fields@.take(j as int), version) as int,
            ),
            spec_read_children(
                u.fields@,
                ipc_field.fields@,
                nodes_mid,
                bufs_mid,
                body@,
                is_little_endian,
                version,
            ) == (match spec_read_children(
                u.fields@.skip(j as int),
                ipc_field.fields@.skip(j as int),
                field_nodes@,
                buffers@,
                body@,
                is_little_endian,
                version,
            ) {
                Err(e) => Err::<Seq<ArrayModel>, IpcError>(e),
                Ok(rest) => Ok(models_of(children@) + rest),
            }),
            (match spec_read_children(
                u.fields@,
                ipc_field.fields@,
                nodes_mid,
                bufs_mid,
                body@,
                is_little_endian,
                version,
            ) {
                Err(e) => spec_read_union(
                    *u,
                    *ipc_field,
                    old(field_nodes)@,
                    old(buffers)@,
                    body@,
                    is_little_endian,
                    limit,
                    version,
                ) == Err::<ArrayModel, IpcError>(e),
                Ok(ch) => spec_read_union(
                    *u,
                    *ipc_field,
                    old(field_nodes)@,
                    old(buffers)@,
                    body@,
                    is_little_endian,
                    limit,
                    version,
                ) == ({
                    let m = UnionModel { mode: u.mode, types: typesg, offsets: offsetsg, fields: ch };
                    if m.wf() {
                        Ok::<ArrayModel, IpcError>(ArrayModel::Union(m))
                    } else {
                        Err::<ArrayModel, IpcError>(IpcError::InvalidStructure)
                    }
                }),
            }),
            spec_read_union_used(
                *u,
                *ipc_field,
                old(field_nodes)@,
                old(buffers)@,
                body@,
                is_little_endian,
                limit,
                version,
            ).0 == 1 + spec_read_children_used(
                u.fields@,
                ipc_field.fields@,
                nodes_mid,
                bufs_mid,
                body@,
                is_little_endian,
                version,
            ).0,
            spec_read_union_used(
                *u,
                *ipc_field,
                old(field_nodes)@,
                old(buffers)@,
                body@,
                is_little_endian,
                limit,
                version,
            ).1 == union_validity_slots(version) + 1 + union_offsets_slots(u.mode)
                + spec_read_children_used(
                u.fields@,
                ipc_field.fields@,
                nodes_mid,
                bufs_mid,
                body@,
                is_little_endian,
                version,
            ).1,
            spec_read_children_used(
                u.fields@,
                ipc_field.fields@,
                nodes_mid,
                bufs_mid,
                body@,
                is_little_endian,
                version,
            ).0 == read_nodes_consumed_children(u.fields@.take(j as int))
                + spec_read_children_used(
                u.fields@.skip(j as int),
                ipc_field.fields@.skip(j as int),
                field_nodes@,
                buffers@,
                body@,
                is_little_endian,
                version,
            ).0,
            spec_read_children_used(
                u.fields@,
                ipc_field.fields@,
                nodes_mid,
                bufs_mid,
                body@,
                is_little_endian,
                version,
            ).1 == read_buffers_consumed_children(u.fields@.take(j as int), version)
                + spec_read_children_used(
                u.fields@.skip(j as int),
                ipc_field.fields@.skip(j as int),
                field_nodes@,
                buffers@,
                body@,
                is_little_endian,
                version,
            ).1,
            typesg.len() == clamped_length(old(field_nodes)@[0].length, limit),
            old(field_nodes)@.len() >= 1,
            nodes_mid == old(field_nodes)@.skip(1),
            bufs_mid == old(buffers)@.skip(
                (union_validity_slots(version) + 1 + union_offsets_slots(u.mode)) as int,
            ),
            old(buffers)@.len() >= union_validity_slots(version) + 1 + union_offsets_slots(u.mode),
        decreases n - j,
    {
        let ghost nodes_pre = field_nodes@;
        let ghost bufs_pre = buffers@;
        let ghost children_pre = children@;
        let child = &u.fields[j];
        let ipc_child = &ipc_field.fields[j];
        proof {
            assert(u.fields@.skip(j as int)[0] == u.fields@[j as int]);
            assert(ipc_field.fields@.skip(j as int)[0] == ipc_field.fields@[j as int]);
        }
        let av = match read(
            field_nodes,
            variadic_buffer_counts,
            child,
            ipc_child,
            buffers,
            body,
            is_little_endian,
            None,
            version,
        ) {
            Ok(av) => av,
            Err(e) => {
                proof {
                    let uc = spec_read_used(
                        u.fields@[j as int],
                        ipc_field.fields@[j as int],
                        nodes_pre,
                        bufs_pre,
                        body@,
                        is_little_endian,
                        None,
                        version,
                    );
                    assert(spec_read_children_used(
                        u.fields@.skip(j as int),
                        ipc_field.fields@.skip(j as int),
                        nodes_pre,
                        bufs_pre,
                        body@,
                        is_little_endian,
                        version,
                    ) == uc);
                    assert(field_nodes@ =~= old(field_nodes)@.skip(
                        spec_read_union_used(
                            *u,
                            *ipc_field,
                            old(field_nodes)@,
                            old(buffers)@,
                            body@,
                            is_little_endian,
                            limit,
                            version,
                        ).0 as int,
                    ));
                    assert(buffers@ =~= old(buffers)@.skip(
                        spec_read_union_used(
                            *u,
                            *ipc_field,
                            old(field_nodes)@,
                            old(buffers)@,
                            body@,
                            is_little_endian,
                            limit,
                            version,
                        ).1 as int,
                    ));
                }
                return Err(e);
            },
        };
        children.push(av);
        proof {
            lemma_models_of_push(children_pre, av);
            lemma_read_consumed_children_snoc(u.fields@, j as int, version);
            assert(u.fields@.skip(j as int).skip(1) =~= u.fields@.skip(j as int + 1));
            assert(ipc_field.fields@.skip(j as int).skip(1) =~= ipc_field.fields@.skip(
                j as int + 1,
            ));
            assert(nodes_pre.skip(read_nodes_consumed(u.fields@[j as int]) as int) =~= nodes_mid.skip(
                read_nodes_consumed_children(u.fields@.take(j as int + 1)) as int,
            ));
            assert(bufs_pre.skip(read_buffers_consumed(u.fields@[j as int], version) as int)
                =~= bufs_mid.skip(
                read_buffers_consumed_children(u.fields@.take(j as int + 1), version) as int,
            ));
            let r2 = spec_read_children(
                u.fields@.skip(j as int + 1),
                ipc_field.fields@.skip(j as int + 1),
                field_nodes@,
                buffers@,
                body@,
                is_little_endian,
                version,
            );
            if r2 is Ok {
                let rest = r2->Ok_0;
                assert(models_of(children_pre) + (seq![av@] + rest) =~= models_of(
                    children_pre.push(av),
                ) + rest);
            }
        }
        j = j + 1;
    }
    proof {
        assert(u.fields@.take(n as int) =~= u.fields@);
        assert(u.fields@.skip(n as int) =~= Seq::<DataType>::empty());
        assert(ipc_field.fields@.skip(n as int) =~= Seq::<IpcField>::empty());
        assert(models_of(children@) + Seq::<ArrayModel>::empty() =~= models_of(children@));
        assert(field_nodes@ =~= old(field_nodes)@.skip(read_nodes_consumed(*dtype) as int));
        assert(buffers@ =~= old(buffers)@.skip(read_buffers_consumed(*dtype, version) as int));
        assert(spec_read_union_used(
            *u,
            *ipc_field,
            old(field_nodes)@,
            old(buffers)@,
            body@,
            is_little_endian,
            limit,
            version,
        ).0 == read_nodes_consumed(*dtype));
        assert(spec_read_union_used(
            *u,
            *ipc_field,
            old(field_nodes)@,
            old(buffers)@,
            body@,
            is_little_endian,
            limit,
            version,
        ).1 == read_buffers_consumed(*dtype, version));
    }
    let ghost childreng = children@;
    let result = match UnionArray::try_new(u, types, children, offsets) {
        Ok(arr) => arr,
        Err(e) => {
            return Err(e);
        },
    };
    Ok(result)
}

} // verus!
