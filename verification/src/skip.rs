use vstd::prelude::*;

use std::collections::VecDeque;

use crate::error::IpcError;
use crate::format::{BufferDesc, DataType, FieldNode, UnionType, Version};
use crate::protocol::{
    skip_buffers_consumed, skip_buffers_consumed_children, skip_nodes_consumed,
    skip_nodes_consumed_children, union_offsets_slots, union_validity_slots,
};

verus! {

// The skip path: when a projection prunes a column, its queue entries must
// still be consumed — with exactly the same arithmetic as the read path —
// so that the queues remain correctly positioned for the columns decoded
// afterwards in the same batch.  Nothing is materialized and the batch body
// is never touched.

/// What skipping one all-null node does to the queues: its field node is
/// discarded; a null node owns no physical buffers.
pub open spec fn spec_skip_null(nodes: Seq<FieldNode>) -> Result<(), IpcError> {
    if nodes.len() == 0 {
        Err(IpcError::MissingFieldNode)
    } else {
        Ok(())
    }
}

/// What skipping one primitive node does to the queues: its field node and
/// its two buffer entries are discarded, or the first missing entry is
/// reported.
pub open spec fn spec_skip_primitive(nodes: Seq<FieldNode>, bufs: Seq<BufferDesc>) -> Result<
    (),
    IpcError,
> {
    if nodes.len() == 0 {
        Err(IpcError::MissingFieldNode)
    } else if bufs.len() == 0 {
        Err(IpcError::MissingValidityBuffer)
    } else if bufs.len() < 2 {
        Err(IpcError::MissingValuesBuffer)
    } else {
        Ok(())
    }
}

/// What skipping one union node does to the queues: its field node, its
/// version-dependent validity placeholder, its types buffer, its offsets
/// buffer exactly in dense mode, and then every child in declaration order
/// — the same consumption arithmetic as the read path.
pub open spec fn spec_skip_union(
    u: UnionType,
    nodes: Seq<FieldNode>,
    bufs: Seq<BufferDesc>,
    version: Version,
) -> Result<(), IpcError>
    decreases u, 0int,
{
    if nodes.len() == 0 {
        Err(IpcError::MissingFieldNode)
    } else {
        let nodes1 = nodes.skip(1);
        if !version.spec_is_newest() && bufs.len() == 0 {
            Err(IpcError::MissingValidityBuffer)
        } else {
            let bufs1 = if version.spec_is_newest() {
                bufs
            } else {
                bufs.skip(1)
            };
            if bufs1.len() == 0 {
                Err(IpcError::MissingTypesBuffer)
            } else {
                let bufs2 = bufs1.skip(1);
                if u.mode is Dense && bufs2.len() == 0 {
                    Err(IpcError::MissingOffsetsBuffer)
                } else {
                    let bufs3 = if u.mode is Dense {
                        bufs2.skip(1)
                    } else {
                        bufs2
                    };
                    spec_skip_children(u.fields@, nodes1, bufs3, version)
                }
            }
        }
    }
}

/// What skipping a sequence of sibling children does to the queues, each
/// child consuming its fixed share before the next starts.
pub open spec fn spec_skip_children(
    fields: Seq<DataType>,
    nodes: Seq<FieldNode>,
    bufs: Seq<BufferDesc>,
    version: Version,
) -> Result<(), IpcError>
    decreases fields, 2int,
{
    if fields.len() == 0 {
        Ok(())
    } else {
        match spec_skip(fields[0], nodes, bufs, version) {
            Err(e) => Err(e),
            Ok(()) => spec_skip_children(
                fields.skip(1),
                nodes.skip(skip_nodes_consumed(fields[0]) as int),
                bufs.skip(skip_buffers_consumed(fields[0], version) as int),
                version,
            ),
        }
    }
}

/// What skipping one node of any kind does to the queues: the dispatch over
/// the closed set of node kinds.
pub open spec fn spec_skip(
    dtype: DataType,
    nodes: Seq<FieldNode>,
    bufs: Seq<BufferDesc>,
    version: Version,
) -> Result<(), IpcError>
    decreases dtype, 1int,
{
    match dtype {
        DataType::Null => spec_skip_null(nodes),
        DataType::Primitive => spec_skip_primitive(nodes, bufs),
        DataType::Union(u) => spec_skip_union(u, nodes, bufs, version),
    }
}

/// How many field nodes and buffers skipping one all-null node removes,
/// whatever the outcome: nothing from an empty queue, its one field node
/// otherwise.
pub open spec fn spec_skip_null_used(nodes: Seq<FieldNode>) -> (nat, nat) {
    if nodes.len() == 0 {
        (0, 0)
    } else {
        (1, 0)
    }
}

/// How many field nodes and buffers skipping one primitive node removes,
/// whatever the outcome: every pop up to and excluding the first one that
/// finds its queue empty.
pub open spec fn spec_skip_primitive_used(nodes: Seq<FieldNode>, bufs: Seq<BufferDesc>) -> (
    nat,
    nat,
) {
    if nodes.len() == 0 {
        (0, 0)
    } else if bufs.len() == 0 {
        (1, 0)
    } else if bufs.len() < 2 {
        (1, 1)
    } else {
        (1, 2)
    }
}

/// How many field nodes and buffers skipping one union node removes,
/// whatever the outcome: its own pops in order up to the first exhausted
/// queue, then whatever its children removed before the first failing one.
pub open spec fn spec_skip_union_used(
    u: UnionType,
    nodes: Seq<FieldNode>,
    bufs: Seq<BufferDesc>,
    version: Version,
) -> (nat, nat)
    decreases u, 0int,
{
    if nodes.len() == 0 {
        (0, 0)
    } else {
        let vs = union_validity_slots(version);
        if !version.spec_is_newest() && bufs.len() == 0 {
            (1, 0)
        } else {
            let bufs1 = if version.spec_is_newest() {
                bufs
            } else {
                bufs.skip(1)
            };
            if bufs1.len() == 0 {
                (1, vs)
            } else {
                let bufs2 = bufs1.skip(1);
                if u.mode is Dense && bufs2.len() == 0 {
                    (1, vs + 1)
                } else {
                    let own = vs + 1 + union_offsets_slots(u.mode);
                    let c = spec_skip_children_used(
                        u.fields@,
                        nodes.skip(1),
                        bufs.skip(own as int),
                        version,
                    );
                    (1 + c.0, own + c.1)
                }
            }
        }
    }
}

/// How many field nodes and buffers skipping a sequence of sibling
/// children removes, whatever the outcome.
pub open spec fn spec_skip_children_used(
    fields: Seq<DataType>,
    nodes: Seq<FieldNode>,
    bufs: Seq<BufferDesc>,
    version: Version,
) -> (nat, nat)
    decreases fields, 2int,
{
    if fields.len() == 0 {
        (0, 0)
    } else {
        match spec_skip(fields[0], nodes, bufs, version) {
            Err(_) => spec_skip_used(fields[0], nodes, bufs, version),
            Ok(()) => {
                let n = skip_nodes_consumed(fields[0]);
                let b = skip_buffers_consumed(fields[0], version);
                let c = spec_skip_children_used(
                    fields.skip(1),
                    nodes.skip(n as int),
                    bufs.skip(b as int),
                    version,
                );
                (n + c.0, b + c.1)
            },
        }
    }
}

/// How many field nodes and buffers skipping one node of any kind removes,
/// whatever the outcome: the dispatch over the closed set of node kinds.
pub open spec fn spec_skip_used(
    dtype: DataType,
    nodes: Seq<FieldNode>,
    bufs: Seq<BufferDesc>,
    version: Version,
) -> (nat, nat)
    decreases dtype, 1int,
{
    match dtype {
        DataType::Null => spec_skip_null_used(nodes),
        DataType::Primitive => spec_skip_primitive_used(nodes, bufs),
        DataType::Union(u) => spec_skip_union_used(u, nodes, bufs, version),
    }
}

/// Extending the skipped prefix by one child adds that child's fixed share
/// to the prefix's consumption.
proof fn lemma_skip_consumed_children_snoc(s: Seq<DataType>, i: int, version: Version)
    requires
        0 <= i < s.len(),
    ensures
        skip_nodes_consumed_children(s.take(i + 1)) == skip_nodes_consumed_children(s.take(i))
            + skip_nodes_consumed(s[i]),
        skip_buffers_consumed_children(s.take(i + 1), version) == skip_buffers_consumed_children(
            s.take(i),
            version,
        ) + skip_buffers_consumed(s[i], version),
    decreases i,
{
    if i == 0 {
        assert(s.take(1) =~= seq![s[0]]);
        assert(s.take(1).skip(1) =~= Seq::<DataType>::empty());
        assert(s.take(0) =~= Seq::<DataType>::empty());
    } else {
        lemma_skip_consumed_children_snoc(s.skip(1), i - 1, version);
        assert(s.take(i + 1)[0] == s[0]);
        assert(s.take(i)[0] == s[0]);
        assert(s.take(i + 1).skip(1) =~= s.skip(1).take(i));
        assert(s.take(i).skip(1) =~= s.skip(1).take(i - 1));
        assert(s.skip(1)[i - 1] == s[i]);
    }
}

/// Law: the skip path fails with the corrupted-format error, and consumes
/// nothing it does not have, when a union faces an empty field-node queue.
pub proof fn lemma_skip_union_empty_nodes_fails(
    u: UnionType,
    bufs: Seq<BufferDesc>,
    version: Version,
)
    ensures
        spec_skip_union(u, Seq::empty(), bufs, version) == Err::<(), IpcError>(
            IpcError::MissingFieldNode,
        ),
        spec_skip_union_used(u, Seq::empty(), bufs, version) == ((0nat, 0nat)),
{
}

/// Skips one all-null node: discards its field node alone, exactly as
/// [`spec_skip_null`] states.
pub fn skip_null(field_nodes: &mut VecDeque<FieldNode>) -> (r: Result<(), IpcError>)
    ensures
        spec_skip_null_used(old(field_nodes)@).0 <= old(field_nodes)@.len(),
        final(field_nodes)@ == old(field_nodes)@.skip(
            spec_skip_null_used(old(field_nodes)@).0 as int,
        ),
        match r {
            Ok(()) => {
                &&& spec_skip_null(old(field_nodes)@) == Ok::<(), IpcError>(())
                &&& old(field_nodes)@.len() >= 1
                &&& final(field_nodes)@ == old(field_nodes)@.skip(1)
            },
            Err(e) => spec_skip_null(old(field_nodes)@) == Err::<(), IpcError>(e),
        },
{
    if field_nodes.pop_front().is_none() {
        proof {
            assert(field_nodes@ =~= old(field_nodes)@.skip(0));
        }
        return Err(IpcError::MissingFieldNode);
    }
    proof {
        assert(field_nodes@ =~= old(field_nodes)@.skip(1));
    }
    Ok(())
}

/// Skips one primitive node: discards its field node and its two buffer
/// entries, exactly as [`spec_skip_primitive`] states.
pub fn skip_primitive(
    field_nodes: &mut VecDeque<FieldNode>,
    buffers: &mut VecDeque<BufferDesc>,
) -> (r: Result<(), IpcError>)
    ensures
        spec_skip_primitive_used(old(field_nodes)@, old(buffers)@).0 <= old(field_nodes)@.len(),
        spec_skip_primitive_used(old(field_nodes)@, old(buffers)@).1 <= old(buffers)@.len(),
        final(field_nodes)@ == old(field_nodes)@.skip(
            spec_skip_primitive_used(old(field_nodes)@, old(buffers)@).0 as int,
        ),
        final(buffers)@ == old(buffers)@.skip(
            spec_skip_primitive_used(old(field_nodes)@, old(buffers)@).1 as int,
        ),
        match r {
            Ok(()) => {
                &&& spec_skip_primitive(old(field_nodes)@, old(buffers)@) == Ok::<(), IpcError>(())
                &&& old(field_nodes)@.len() >= 1
                &&& final(field_nodes)@ == old(field_nodes)@.skip(1)
                &&& old(buffers)@.len() >= 2
                &&& final(buffers)@ == old(buffers)@.skip(2)
            },
            Err(e) => spec_skip_primitive(old(field_nodes)@, old(buffers)@) == Err::<(), IpcError>(
                e,
            ),
        },
{
    if field_nodes.pop_front().is_none() {
        proof {
            assert(field_nodes@ =~= old(field_nodes)@.skip(0));
            assert(buffers@ =~= old(buffers)@.skip(0));
        }
        return Err(IpcError::MissingFieldNode);
    }
    if buffers.pop_front().is_none() {
        proof {
            assert(field_nodes@ =~= old(field_nodes)@.skip(1));
            assert(buffers@ =~= old(buffers)@.skip(0));
        }
        return Err(IpcError::MissingValidityBuffer);
    }
    if buffers.pop_front().is_none() {
        proof {
            assert(field_nodes@ =~= old(field_nodes)@.skip(1));
            assert(buffers@ =~= old(buffers)@.skip(1));
        }
        return Err(IpcError::MissingValuesBuffer);
    }
    proof {
        assert(field_nodes@ =~= old(field_nodes)@.skip(1));
        assert(buffers@ =~= old(buffers)@.skip(2));
    }
    Ok(())
}

/// Skips one node of any kind by dispatching on its logical type, exactly
/// as [`spec_skip`] states.  On success the two shared queues advance by
/// exactly the fixed share of the node's whole subtree — the same share the
/// read path consumes — and the variadic-count queue is passed through
/// unchanged.
pub fn skip(
    field_nodes: &mut VecDeque<FieldNode>,
    dtype: &DataType,
    buffers: &mut VecDeque<BufferDesc>,
    variadic_buffer_counts: &mut VecDeque<usize>,
    version: Version,
) -> (r: Result<(), IpcError>)
    ensures
        final(variadic_buffer_counts)@ == old(variadic_buffer_counts)@,
        spec_skip_used(*dtype, old(field_nodes)@, old(buffers)@, version).0 <= old(
            field_nodes,
        )@.len(),
        spec_skip_used(*dtype, old(field_nodes)@, old(buffers)@, version).1 <= old(buffers)@.len(),
        final(field_nodes)@ == old(field_nodes)@.skip(
            spec_skip_used(*dtype, old(field_nodes)@, old(buffers)@, version).0 as int,
        ),
        final(buffers)@ == old(buffers)@.skip(
            spec_skip_used(*dtype, old(field_nodes)@, old(buffers)@, version).1 as int,
        ),
        match r {
            Ok(()) => {
                &&& spec_skip(*dtype, old(field_nodes)@, old(buffers)@, version) == Ok::<
                    (),
                    IpcError,
                >(())
                &&& old(field_nodes)@.len() >= skip_nodes_consumed(*dtype)
                &&& final(field_nodes)@ == old(field_nodes)@.skip(skip_nodes_consumed(*dtype) as int)
                &&& old(buffers)@.len() >= skip_buffers_consumed(*dtype, version)
                &&& final(buffers)@ == old(buffers)@.skip(
                    skip_buffers_consumed(*dtype, version) as int,
                )
            },
            Err(e) => spec_skip(*dtype, old(field_nodes)@, old(buffers)@, version) == Err::<
                (),
                IpcError,
            >(e),
        },
    decreases *dtype, 1int,
{
    let r = match dtype {
        DataType::Null => skip_null(field_nodes),
        DataType::Primitive => skip_primitive(field_nodes, buffers),
        DataType::Union(_) => skip_union(
            field_nodes,
            dtype,
            buffers,
            variadic_buffer_counts,
            version,
        ),
    };
    proof {
        if dtype is Null {
            assert(buffers@ =~= old(buffers)@.skip(0));
        }
    }
    r
}

/// Skips one union node: discards its own field node, its version-dependent
/// validity placeholder, its types buffer and (dense mode) its offsets
/// buffer, then recurses into every child through the generic skip
/// dispatcher — exactly as [`spec_skip_union`] states.  A sparse union
/// carries no offsets buffer in the stream, so the skip path consumes one
/// fewer buffer for it, mirroring the read path's arithmetic.  On failure
/// the contract still pins the queues exactly: [`spec_skip_union_used`]
/// states how many entries each pop removed before the failure, so an
/// empty field-node queue leaves both queues untouched, a missing validity
/// placeholder costs exactly the one field node, and every outcome only
/// ever removes entries from the front.
pub fn skip_union(
    field_nodes: &mut VecDeque<FieldNode>,
    dtype: &DataType,
    buffers: &mut VecDeque<BufferDesc>,
    variadic_buffer_counts: &mut VecDeque<usize>,
    version: Version,
) -> (r: Result<(), IpcError>)
    requires
        *dtype is Union,
    ensures
        final(variadic_buffer_counts)@ == old(variadic_buffer_counts)@,
        spec_skip_union_used(dtype->Union_0, old(field_nodes)@, old(buffers)@, version).0 <= old(
            field_nodes,
        )@.len(),
        spec_skip_union_used(dtype->Union_0, old(field_nodes)@, old(buffers)@, version).1 <= old(
            buffers,
        )@.len(),
        final(field_nodes)@ == old(field_nodes)@.skip(
            spec_skip_union_used(dtype->Union_0, old(field_nodes)@, old(buffers)@, version).0 as int,
        ),
        final(buffers)@ == old(buffers)@.skip(
            spec_skip_union_used(dtype->Union_0, old(field_nodes)@, old(buffers)@, version).1 as int,
        ),
        match r {
            Ok(()) => {
                &&& spec_skip_union(dtype->Union_0, old(field_nodes)@, old(buffers)@, version)
                    == Ok::<(), IpcError>(())
                &&& old(field_nodes)@.len() >= skip_nodes_consumed(*dtype)
                &&& final(field_nodes)@ == old(field_nodes)@.skip(skip_nodes_consumed(*dtype) as int)
                &&& old(buffers)@.len() >= skip_buffers_consumed(*dtype, version)
                &&& final(buffers)@ == old(buffers)@.skip(
                    skip_buffers_consumed(*dtype, version) as int,
                )
            },
            Err(e) => spec_skip_union(dtype->Union_0, old(field_nodes)@, old(buffers)@, version)
                == Err::<(), IpcError>(e),
        },
    decreases *dtype, 0int,
{
    let u = match dtype {
        DataType::Union(x) => x,
        DataType::Null | DataType::Primitive => {
            proof {
                assert(false);
            }
            return Err(IpcError::InvalidStructure);
        },
    };
    if field_nodes.pop_front().is_none() {
        proof {
            assert(field_nodes@ =~= old(field_nodes)@.skip(0));
            assert(buffers@ =~= old(buffers)@.skip(0));
        }
        return Err(IpcError::MissingFieldNode);
    }
    if !version.is_newest() {
        if buffers.pop_front().is_none() {
            proof {
                assert(field_nodes@ =~= old(field_nodes)@.skip(1));
                assert(buffers@ =~= old(buffers)@.skip(0));
            }
            return Err(IpcError::MissingValidityBuffer);
        }
    }
    if buffers.pop_front().is_none() {
        proof {
            assert(field_nodes@ =~= old(field_nodes)@.skip(1));
            assert(buffers@ =~= old(buffers)@.skip(union_validity_slots(version) as int));
        }
        return Err(IpcError::MissingTypesBuffer);
    }
    if !u.mode.is_sparse() {
        if buffers.pop_front().is_none() {
            proof {
                assert(field_nodes@ =~= old(field_nodes)@.skip(1));
                assert(buffers@ =~= old(buffers)@.skip(
                    (union_validity_slots(version) + 1) as int,
                ));
            }
            return Err(IpcError::MissingOffsetsBuffer);
        }
    }
    let ghost nodes_mid = field_nodes@;
    let ghost bufs_mid = buffers@;
    proof {
        assert(nodes_mid =~= old(field_nodes)@.skip(1));
        assert(bufs_mid =~= old(buffers)@.skip(
            (union_validity_slots(version) + 1 + union_offsets_slots(u.mode)) as int,
        ));
    }
    let n = u.fields.len();
    let mut j: usize = 0;
    proof {
        assert(u.fields@.take(0) =~= Seq::<DataType>::empty());
        assert(u.fields@.skip(0) =~= u.fields@);
        assert(nodes_mid.skip(0) =~= nodes_mid);
        assert(bufs_mid.skip(0) =~= bufs_mid);
    }
    while j < n
        invariant
            j <= n,
            *dtype == DataType::Union(*u),
            n == u.fields@.len(),
            variadic_buffer_counts@ == old(variadic_buffer_counts)@,
            nodes_mid.len() >= skip_nodes_consumed_children(u.fields@.take(j as int)),
            field_nodes@ == nodes_mid.skip(
                skip_nodes_consumed_children(u.fields@.take(j as int)) as int,
            ),
            bufs_mid.len() >= skip_buffers_consumed_children(u.fields@.take(j as int), version),
            buffers@ == bufs_mid.skip(
                skip_buffers_consumed_children(u.fields@.take(j as int), version) as int,
            ),
            spec_skip_children(u.fields@, nodes_mid, bufs_mid, version) == spec_skip_children(
                u.fields@.skip(j as int),
                field_nodes@,
                buffers@,
                version,
            ),
            spec_skip_union(*u, old(field_nodes)@, old(buffers)@, version) == spec_skip_children(
                u.fields@,
                nodes_mid,
                bufs_mid,
                version,
            ),
            spec_skip_union_used(*u, old(field_nodes)@, old(buffers)@, version).0 == 1
                + spec_skip_children_used(u.fields@, nodes_mid, bufs_mid, version).0,
            spec_skip_union_used(*u, old(field_nodes)@, old(buffers)@, version).1
                == union_validity_slots(version) + 1 + union_offsets_slots(u.mode)
                + spec_skip_children_used(u.fields@, nodes_mid, bufs_mid, version).1,
            spec_skip_children_used(u.fields@, nodes_mid, bufs_mid, version).0
                == skip_nodes_consumed_children(u.fields@.take(j as int))
                + spec_skip_children_used(
                u.fields@.skip(j as int),
                field_nodes@,
                buffers@,
                version,
            ).0,
            spec_skip_children_used(u.fields@, nodes_mid, bufs_mid, version).1
                == skip_buffers_consumed_children(u.fields@.take(j as int), version)
                + spec_skip_children_used(
                u.fields@.skip(j as int),
                field_nodes@,
                buffers@,
                version,
            ).1,
            nodes_mid == old(field_nodes)@.skip(1),
            bufs_mid == old(buffers)@.skip(
                (union_validity_slots(version) + 1 + union_offsets_slots(u.mode)) as int,
            ),
            old(field_nodes)@.len() >= 1,
            old(buffers)@.len() >= union_validity_slots(version) + 1 + union_offsets_slots(u.mode),
        decreases n - j,
    {
        let ghost nodes_pre = field_nodes@;
        let ghost bufs_pre = buffers@;
        let child = &u.fields[j];
        proof {
            assert(u.fields@.skip(j as int)[0] == u.fields@[j as int]);
        }
        match skip(field_nodes, child, buffers, variadic_buffer_counts, version) {
            Ok(()) => {},
            Err(e) => {
                proof {
                    let uc = spec_skip_used(u.fields@[j as int], nodes_pre, bufs_pre, version);
                    assert(spec_skip_children_used(
                        u.fields@.skip(j as int),
                        nodes_pre,
                        bufs_pre,
                        version,
                    ) == uc);
                    assert(field_nodes@ =~= old(field_nodes)@.skip(
                        spec_skip_union_used(*u, old(field_nodes)@, old(buffers)@, version).0 as int,
                    ));
                    assert(buffers@ =~= old(buffers)@.skip(
                        spec_skip_union_used(*u, old(field_nodes)@, old(buffers)@, version).1 as int,
                    ));
                }
                return Err(e);
            },
        }
        proof {
            lemma_skip_consumed_children_snoc(u.fields@, j as int, version);
            assert(u.fields@.skip(j as int).skip(1) =~= u.fields@.skip(j as int + 1));
            assert(nodes_pre.skip(skip_nodes_consumed(u.fields@[j as int]) as int) =~= nodes_mid.skip(
                skip_nodes_consumed_children(u.fields@.take(j as int + 1)) as int,
            ));
            assert(bufs_pre.skip(skip_buffers_consumed(u.fields@[j as int], version) as int)
                =~= bufs_mid.skip(
                skip_buffers_consumed_children(u.fields@.take(j as int + 1), version) as int,
            ));
        }
        j = j + 1;
    }
    proof {
        assert(u.fields@.take(n as int) =~= u.fields@);
        assert(u.fields@.skip(n as int) =~= Seq::<DataType>::empty());
        assert(final(field_nodes)@ =~= old(field_nodes)@.skip(skip_nodes_consumed(*dtype) as int));
        assert(final(buffers)@ =~= old(buffers)@.skip(
            skip_buffers_consumed(*dtype, version) as int,
        ));
    }
    Ok(())
}

} // verus!
