use vstd::prelude::*;

use crate::array::ArrayModel;
use crate::bytes::{
    i32_bytes, i8_bytes, lemma_i32_bytes_round_trip, lemma_i8_bytes_round_trip,
};
use crate::error::IpcError;
use crate::format::{BufferDesc, DataType, FieldNode, IpcField, UnionType, Version};
use crate::protocol::{
    read_buffers_consumed, read_buffers_consumed_children, read_nodes_consumed,
    read_nodes_consumed_children,
};
use crate::read::{bitmap_bytes, spec_read, spec_read_children, spec_read_union};

verus! {

// The write path, stated in specification only: what queue entries, buffer
// descriptors and body bytes a decoded array corresponds to.  Its purpose
// is the round-trip law at the bottom of this file — re-encoding what a
// decode yielded and decoding it again gives the identical value — which
// pins the decoder against the wire layout in both directions.

/// Whether a decoded model has the shape of the given logical type, child
/// by child.
pub open spec fn matches_type(m: ArrayModel, dtype: DataType) -> bool
    decreases dtype, 0int,
{
    match dtype {
        DataType::Null => m is Null,
        DataType::Primitive => m is Primitive,
        DataType::Union(u) => m matches ArrayModel::Union(um) && um.mode == u.mode
            && matches_children(um.fields, u.fields@),
    }
}

/// Whether a sequence of decoded children has the shape of the given child
/// types, pointwise.
pub open spec fn matches_children(ms: Seq<ArrayModel>, fields: Seq<DataType>) -> bool
    decreases fields, 1int,
{
    &&& ms.len() == fields.len()
    &&& (fields.len() > 0 ==> matches_type(ms[0], fields[0]) && matches_children(
        ms.skip(1),
        fields.skip(1),
    ))
}

/// Whether a schema-shaped field tree agrees with a logical type on every
/// child count, all the way down.
pub open spec fn ipc_matches(dtype: DataType, ipc: IpcField) -> bool
    decreases dtype, 0int,
{
    match dtype {
        DataType::Null => true,
        DataType::Primitive => true,
        DataType::Union(u) => ipc.fields@.len() == u.fields@.len() && ipc_children_match(
            u.fields@,
            ipc.fields@,
        ),
    }
}

/// The agreement of [`ipc_matches`], pointwise over sibling children.
pub open spec fn ipc_children_match(fields: Seq<DataType>, ipcs: Seq<IpcField>) -> bool
    decreases fields, 1int,
{
    fields.len() > 0 ==> ipc_matches(fields[0], ipcs[0]) && ipc_children_match(
        fields.skip(1),
        ipcs.skip(1),
    )
}

/// Deep well-formedness of a decoded model: every union satisfies
/// [`crate::array::UnionModel::wf`], every validity bitmap has exactly the
/// bytes its row count covers, and every length fits the machine's counts,
/// so that the model is encodable at all.
pub open spec fn deep_wf(m: ArrayModel) -> bool
    decreases m, 0int,
{
    match m {
        ArrayModel::Null(nl) => nl.length <= usize::MAX,
        ArrayModel::Primitive(p) => {
            &&& 4 * p.values.len() <= usize::MAX
            &&& (p.validity matches Some(v) ==> v.len() == bitmap_bytes(p.values.len()))
        },
        ArrayModel::Union(um) => {
            &&& um.wf()
            &&& um.types.len() <= usize::MAX
            &&& (um.offsets matches Some(o) ==> 4 * o.len() <= usize::MAX)
            &&& deep_wf_children(um.fields)
        },
    }
}

/// Deep well-formedness of a sequence of sibling children.
pub open spec fn deep_wf_children(ms: Seq<ArrayModel>) -> bool
    decreases ms, 1int,
{
    ms.len() > 0 ==> deep_wf(ms[0]) && deep_wf_children(ms.skip(1))
}

/// The field nodes that encode a model: one per array of its subtree, in
/// pre-order.
pub open spec fn enc_nodes(m: ArrayModel) -> Seq<FieldNode>
    decreases m, 0int,
{
    match m {
        ArrayModel::Null(nl) => seq![FieldNode { length: nl.length as usize, null_count: 0 }],
        ArrayModel::Primitive(p) => seq![
            FieldNode {
                length: p.values.len() as usize,
                null_count: if p.validity is Some {
                    1
                } else {
                    0
                },
            },
        ],
        ArrayModel::Union(um) => seq![
            FieldNode { length: um.types.len() as usize, null_count: 0 },
        ] + enc_nodes_children(um.fields),
    }
}

/// The field nodes that encode a sequence of sibling children.
pub open spec fn enc_nodes_children(ms: Seq<ArrayModel>) -> Seq<FieldNode>
    decreases ms, 1int,
{
    if ms.len() == 0 {
        Seq::empty()
    } else {
        enc_nodes(ms[0]) + enc_nodes_children(ms.skip(1))
    }
}

/// The body bytes that encode a model: its own buffers back to back, then
/// its children's, in pre-order.
pub open spec fn enc_body(m: ArrayModel, little_endian: bool) -> Seq<u8>
    decreases m, 0int,
{
    match m {
        ArrayModel::Null(_) => Seq::empty(),
        ArrayModel::Primitive(p) => (match p.validity {
            Some(v) => v,
            None => Seq::empty(),
        }) + i32_bytes(p.values, little_endian),
        ArrayModel::Union(um) => i8_bytes(um.types) + (match um.offsets {
            Some(o) => i32_bytes(o, little_endian),
            None => Seq::empty(),
        }) + enc_body_children(um.fields, little_endian),
    }
}

/// The body bytes that encode a sequence of sibling children.
pub open spec fn enc_body_children(ms: Seq<ArrayModel>, little_endian: bool) -> Seq<u8>
    decreases ms, 1int,
{
    if ms.len() == 0 {
        Seq::empty()
    } else {
        enc_body(ms[0], little_endian) + enc_body_children(ms.skip(1), little_endian)
    }
}

/// The buffer descriptors that encode a model whose body bytes start at
/// `base`: a validity placeholder for a union under pre-newest versions,
/// then one descriptor per buffer of the subtree, each pointing at its
/// bytes.
pub open spec fn enc_bufs(m: ArrayModel, version: Version, little_endian: bool, base: int) -> Seq<BufferDesc>
    decreases m, 0int,
{
    match m {
        ArrayModel::Null(_) => Seq::empty(),
        ArrayModel::Primitive(p) => {
            let vlen = match p.validity {
                Some(v) => v.len(),
                None => 0,
            };
            seq![
                BufferDesc { offset: base as usize, length: vlen as usize },
                BufferDesc {
                    offset: (base + vlen) as usize,
                    length: (4 * p.values.len()) as usize,
                },
            ]
        },
        ArrayModel::Union(um) => {
            let tl = um.types.len() as int;
            let ol: int = match um.offsets {
                Some(o) => 4 * o.len() as int,
                None => 0,
            };
            (if version.spec_is_newest() {
                Seq::<BufferDesc>::empty()
            } else {
                seq![BufferDesc { offset: base as usize, length: 0 }]
            }) + seq![BufferDesc { offset: base as usize, length: um.types.len() as usize }] + (
            match um.offsets {
                Some(o) => seq![
                    BufferDesc { offset: (base + tl) as usize, length: (4 * o.len()) as usize },
                ],
                None => Seq::<BufferDesc>::empty(),
            }) + enc_bufs_children(um.fields, version, little_endian, base + tl + ol)
        },
    }
}

/// The buffer descriptors that encode a sequence of sibling children, each
/// child's body following the previous one's.
pub open spec fn enc_bufs_children(
    ms: Seq<ArrayModel>,
    version: Version,
    little_endian: bool,
    base: int,
) -> Seq<BufferDesc>
    decreases ms, 1int,
{
    if ms.len() == 0 {
        Seq::empty()
    } else {
        enc_bufs(ms[0], version, little_endian, base) + enc_bufs_children(
            ms.skip(1),
            version,
            little_endian,
            base + enc_body(ms[0], little_endian).len(),
        )
    }
}

/// An encoded subtree holds exactly as many field nodes and buffer
/// descriptors as the read path consumes for its type — the encoder obeys
/// the same fixed consumption arithmetic as the decoder.
pub proof fn lemma_enc_counts(
    m: ArrayModel,
    dtype: DataType,
    version: Version,
    little_endian: bool,
    base: int,
)
    requires
        deep_wf(m),
        matches_type(m, dtype),
    ensures
        enc_nodes(m).len() == read_nodes_consumed(dtype),
        enc_bufs(m, version, little_endian, base).len() == read_buffers_consumed(dtype, version),
    decreases dtype, 0int,
{
    match dtype {
        DataType::Null => {},
        DataType::Primitive => {},
        DataType::Union(u) => {
            let um = m->Union_0;
            let tl = um.types.len() as int;
            let ol: int = match um.offsets {
                Some(o) => 4 * o.len() as int,
                None => 0,
            };
            lemma_enc_counts_children(um.fields, u.fields@, version, little_endian, base + tl + ol);
        },
    }
}

/// The agreement of [`lemma_enc_counts`], over sibling children.
pub proof fn lemma_enc_counts_children(
    ms: Seq<ArrayModel>,
    fields: Seq<DataType>,
    version: Version,
    little_endian: bool,
    base: int,
)
    requires
        deep_wf_children(ms),
        matches_children(ms, fields),
    ensures
        enc_nodes_children(ms).len() == read_nodes_consumed_children(fields),
        enc_bufs_children(ms, version, little_endian, base).len()
            == read_buffers_consumed_children(fields, version),
    decreases fields, 1int,
{
    if fields.len() > 0 {
        lemma_enc_counts(ms[0], fields[0], version, little_endian, base);
        lemma_enc_counts_children(
            ms.skip(1),
            fields.skip(1),
            version,
            little_endian,
            base + enc_body(ms[0], little_endian).len(),
        );
    }
}

/// Law (round trip): decoding the encoding of a deeply well-formed model,
/// under the type and schema tree it matches, yields exactly that model —
/// whatever else follows it in the two queues and whatever bytes surround
/// its body.
/// The round trip of one encoded all-null node.
proof fn lemma_round_trip_null(
    m: ArrayModel,
    ipc: IpcField,
    version: Version,
    little_endian: bool,
    nodes_rest: Seq<FieldNode>,
    bufs_rest: Seq<BufferDesc>,
    prefix: Seq<u8>,
    suffix: Seq<u8>,
)
    requires
        deep_wf(m),
        m is Null,
    ensures
        spec_read(
            DataType::Null,
            ipc,
            enc_nodes(m) + nodes_rest,
            enc_bufs(m, version, little_endian, prefix.len() as int) + bufs_rest,
            prefix + enc_body(m, little_endian) + suffix,
            little_endian,
            None,
            version,
        ) == Ok::<ArrayModel, IpcError>(m),
{
    let nl = m->Null_0;
    let nodes = enc_nodes(m) + nodes_rest;
    assert(nodes[0] == FieldNode { length: nl.length as usize, null_count: 0 });
}

/// The round trip of one encoded primitive node: its validity bitmap and
/// its values buffer decode back byte for byte.
#[verifier::spinoff_prover]
proof fn lemma_round_trip_primitive(
    m: ArrayModel,
    ipc: IpcField,
    version: Version,
    little_endian: bool,
    nodes_rest: Seq<FieldNode>,
    bufs_rest: Seq<BufferDesc>,
    prefix: Seq<u8>,
    suffix: Seq<u8>,
)
    requires
        deep_wf(m),
        m is Primitive,
        prefix.len() + enc_body(m, little_endian).len() <= usize::MAX,
    ensures
        spec_read(
            DataType::Primitive,
            ipc,
            enc_nodes(m) + nodes_rest,
            enc_bufs(m, version, little_endian, prefix.len() as int) + bufs_rest,
            prefix + enc_body(m, little_endian) + suffix,
            little_endian,
            None,
            version,
        ) == Ok::<ArrayModel, IpcError>(m),
{
    let base = prefix.len() as int;
    let p = m->Primitive_0;
    let nodes = enc_nodes(m) + nodes_rest;
    let bufs = enc_bufs(m, version, little_endian, base) + bufs_rest;
    let body = prefix + enc_body(m, little_endian) + suffix;
    let vbytes: Seq<u8> = match p.validity {
        Some(v) => v,
        None => Seq::empty(),
    };
    let vlen = vbytes.len() as int;
    let rows = p.values.len();
    assert(nodes[0] == FieldNode {
        length: rows as usize,
        null_count: if p.validity is Some {
            1
        } else {
            0
        },
    });
    assert(bufs[0] == BufferDesc { offset: base as usize, length: vbytes.len() as usize });
    assert(bufs[1] == BufferDesc {
        offset: (base + vlen) as usize,
        length: (4 * rows) as usize,
    });
    if p.validity is Some {
        assert(crate::bytes::bytes_at(body, base, bitmap_bytes(rows)) =~= p.validity->0);
    }
    lemma_i32_bytes_round_trip(p.values, prefix + vbytes, suffix, little_endian);
    assert((prefix + vbytes) + i32_bytes(p.values, little_endian) + suffix =~= body);
    assert(crate::bytes::i32s_at(body, base + vlen, rows, little_endian) == p.values);
}

/// The round trip of one encoded union node: its types buffer, its offsets
/// buffer in dense mode, and each of its children decode back in turn.
#[verifier::rlimit(100)]
#[verifier::spinoff_prover]
proof fn lemma_round_trip_union(
    m: ArrayModel,
    u: UnionType,
    ipc: IpcField,
    version: Version,
    little_endian: bool,
    nodes_rest: Seq<FieldNode>,
    bufs_rest: Seq<BufferDesc>,
    prefix: Seq<u8>,
    suffix: Seq<u8>,
)
    requires
        deep_wf(m),
        matches_type(m, DataType::Union(u)),
        ipc_matches(DataType::Union(u), ipc),
        prefix.len() + enc_body(m, little_endian).len() <= usize::MAX,
    ensures
        spec_read_union(
            u,
            ipc,
            enc_nodes(m) + nodes_rest,
            enc_bufs(m, version, little_endian, prefix.len() as int) + bufs_rest,
            prefix + enc_body(m, little_endian) + suffix,
            little_endian,
            None,
            version,
        ) == Ok::<ArrayModel, IpcError>(m),
    decreases u, 0int,
{
    let base = prefix.len() as int;
    let nodes = enc_nodes(m) + nodes_rest;
    let bufs = enc_bufs(m, version, little_endian, base) + bufs_rest;
    let body = prefix + enc_body(m, little_endian) + suffix;
    let um = m->Union_0;
    let tb = i8_bytes(um.types);
    let ob: Seq<u8> = match um.offsets {
        Some(o) => i32_bytes(o, little_endian),
        None => Seq::empty(),
    };
    let cb = enc_body_children(um.fields, little_endian);
    let tl = um.types.len() as int;
    let ol: int = match um.offsets {
        Some(o) => 4 * o.len() as int,
        None => 0,
    };
    let rows = um.types.len();
    assert(nodes[0] == FieldNode { length: rows as usize, null_count: 0 });
    assert(nodes.skip(1) =~= enc_nodes_children(um.fields) + nodes_rest);
    let tdesc = BufferDesc { offset: base as usize, length: rows as usize };
    let cdescs = enc_bufs_children(um.fields, version, little_endian, base + tl + ol);
    let odescs: Seq<BufferDesc> = match um.offsets {
        Some(o) => seq![
            BufferDesc { offset: (base + tl) as usize, length: (4 * o.len()) as usize },
        ],
        None => Seq::empty(),
    };
    let bufs1 = if version.spec_is_newest() {
        bufs
    } else {
        bufs.skip(1)
    };
    assert(bufs1 =~= seq![tdesc] + odescs + (cdescs + bufs_rest));
    assert(bufs1[0] == tdesc);
    lemma_i8_bytes_round_trip(um.types, prefix, ob + cb + suffix);
    assert(prefix + tb + (ob + cb + suffix) =~= body);
    assert(crate::bytes::i8s_at(body, base, rows) == um.types);
    let bufs2 = bufs1.skip(1);
    assert(bufs2 =~= odescs + (cdescs + bufs_rest));
    if um.mode is Dense {
        let o = um.offsets->0;
        assert(bufs2[0] == BufferDesc {
            offset: (base + tl) as usize,
            length: (4 * o.len()) as usize,
        });
        lemma_i32_bytes_round_trip(o, prefix + tb, cb + suffix, little_endian);
        assert((prefix + tb) + i32_bytes(o, little_endian) + (cb + suffix) =~= body);
        assert(crate::bytes::i32s_at(body, base + tl, rows, little_endian) == o);
    }
    let bufs3 = if um.mode is Dense {
        bufs2.skip(1)
    } else {
        bufs2
    };
    assert(bufs3 =~= cdescs + bufs_rest);
    assert((prefix + tb + ob).len() == base + tl + ol);
    assert(prefix + tb + ob + cb + suffix =~= body);
    lemma_round_trip_children(
        um.fields,
        u.fields@,
        ipc.fields@,
        version,
        little_endian,
        nodes_rest,
        bufs_rest,
        prefix + tb + ob,
        suffix,
    );
    assert(spec_read_children(
        u.fields@,
        ipc.fields@,
        enc_nodes_children(um.fields) + nodes_rest,
        cdescs + bufs_rest,
        body,
        little_endian,
        version,
    ) == Ok::<Seq<ArrayModel>, IpcError>(um.fields));
}

/// Law (round trip): decoding the encoding of a deeply well-formed model,
/// under the type and schema tree it matches, yields exactly that model —
/// whatever else follows it in the two queues and whatever bytes surround
/// its body.
pub proof fn lemma_round_trip(
    m: ArrayModel,
    dtype: DataType,
    ipc: IpcField,
    version: Version,
    little_endian: bool,
    nodes_rest: Seq<FieldNode>,
    bufs_rest: Seq<BufferDesc>,
    prefix: Seq<u8>,
    suffix: Seq<u8>,
)
    requires
        deep_wf(m),
        matches_type(m, dtype),
        ipc_matches(dtype, ipc),
        prefix.len() + enc_body(m, little_endian).len() <= usize::MAX,
    ensures
        spec_read(
            dtype,
            ipc,
            enc_nodes(m) + nodes_rest,
            enc_bufs(m, version, little_endian, prefix.len() as int) + bufs_rest,
            prefix + enc_body(m, little_endian) + suffix,
            little_endian,
            None,
            version,
        ) == Ok::<ArrayModel, IpcError>(m),
    decreases dtype, 1int,
{
    match dtype {
        DataType::Null => {
            lemma_round_trip_null(
                m, ipc, version, little_endian, nodes_rest, bufs_rest, prefix, suffix,
            );
        },
        DataType::Primitive => {
            lemma_round_trip_primitive(
                m, ipc, version, little_endian, nodes_rest, bufs_rest, prefix, suffix,
            );
        },
        DataType::Union(u) => {
            lemma_round_trip_union(
                m, u, ipc, version, little_endian, nodes_rest, bufs_rest, prefix, suffix,
            );
        },
    }
}

/// The round trip of [`lemma_round_trip`], over sibling children: each
/// encoded child decodes back in turn, consuming exactly its own share.
pub proof fn lemma_round_trip_children(
    ms: Seq<ArrayModel>,
    fields: Seq<DataType>,
    ipcs: Seq<IpcField>,
    version: Version,
    little_endian: bool,
    nodes_rest: Seq<FieldNode>,
    bufs_rest: Seq<BufferDesc>,
    prefix: Seq<u8>,
    suffix: Seq<u8>,
)
    requires
        deep_wf_children(ms),
        matches_children(ms, fields),
        ipc_children_match(fields, ipcs),
        ipcs.len() == fields.len(),
        prefix.len() + enc_body_children(ms, little_endian).len() <= usize::MAX,
    ensures
        spec_read_children(
            fields,
            ipcs,
            enc_nodes_children(ms) + nodes_rest,
            enc_bufs_children(ms, version, little_endian, prefix.len() as int) + bufs_rest,
            prefix + enc_body_children(ms, little_endian) + suffix,
            little_endian,
            version,
        ) == Ok::<Seq<ArrayModel>, IpcError>(ms),
    decreases fields, 2int,
{
    let base = prefix.len() as int;
    if fields.len() == 0 {
        assert(ms =~= Seq::<ArrayModel>::empty());
    } else {
        let m0 = ms[0];
        let eb0 = enc_body(m0, little_endian);
        let nodes_tail = enc_nodes_children(ms.skip(1)) + nodes_rest;
        let bufs_tail = enc_bufs_children(ms.skip(1), version, little_endian, base + eb0.len())
            + bufs_rest;
        let body = prefix + enc_body_children(ms, little_endian) + suffix;
        assert(enc_nodes_children(ms) + nodes_rest =~= enc_nodes(m0) + nodes_tail);
        assert(enc_bufs_children(ms, version, little_endian, base) + bufs_rest =~= enc_bufs(
            m0,
            version,
            little_endian,
            base,
        ) + bufs_tail);
        assert(body =~= prefix + eb0 + (enc_body_children(ms.skip(1), little_endian) + suffix));
        lemma_round_trip(
            m0,
            fields[0],
            ipcs[0],
            version,
            little_endian,
            nodes_tail,
            bufs_tail,
            prefix,
            enc_body_children(ms.skip(1), little_endian) + suffix,
        );
        lemma_enc_counts(m0, fields[0], version, little_endian, base);
        assert((enc_nodes(m0) + nodes_tail).skip(read_nodes_consumed(fields[0]) as int)
            =~= nodes_tail);
        assert((enc_bufs(m0, version, little_endian, base) + bufs_tail).skip(
            read_buffers_consumed(fields[0], version) as int,
        ) =~= bufs_tail);
        lemma_round_trip_children(
            ms.skip(1),
            fields.skip(1),
            ipcs.skip(1),
            version,
            little_endian,
            nodes_rest,
            bufs_rest,
            prefix + eb0,
            suffix,
        );
        assert((prefix + eb0) + enc_body_children(ms.skip(1), little_endian) + suffix =~= body);
        assert(seq![ms[0]] + ms.skip(1) =~= ms);
    }
}

/// Law (round trip, at the union): for every deeply well-formed union
/// model, decoding its own encoding under its type and matching schema
/// tree yields it back identically — identical types buffer, identical
/// offsets buffer in dense mode and its absence in sparse mode, and
/// identical child arrays.
pub proof fn lemma_union_round_trip(
    m: ArrayModel,
    u: UnionType,
    ipc: IpcField,
    version: Version,
    little_endian: bool,
)
    requires
        deep_wf(m),
        matches_type(m, DataType::Union(u)),
        ipc_matches(DataType::Union(u), ipc),
        enc_body(m, little_endian).len() <= usize::MAX,
    ensures
        spec_read_union(
            u,
            ipc,
            enc_nodes(m),
            enc_bufs(m, version, little_endian, 0),
            enc_body(m, little_endian),
            little_endian,
            None,
            version,
        ) == Ok::<ArrayModel, IpcError>(m),
{
    lemma_round_trip(
        m,
        DataType::Union(u),
        ipc,
        version,
        little_endian,
        Seq::empty(),
        Seq::empty(),
        Seq::empty(),
        Seq::empty(),
    );
    assert(enc_nodes(m) + Seq::<FieldNode>::empty() =~= enc_nodes(m));
    assert(enc_bufs(m, version, little_endian, 0) + Seq::<BufferDesc>::empty() =~= enc_bufs(
        m,
        version,
        little_endian,
        0,
    ));
    assert(Seq::<u8>::empty() + enc_body(m, little_endian) + Seq::<u8>::empty() =~= enc_body(
        m,
        little_endian,
    ));
}

/// Whatever a successful decode yields is deeply well-formed and has the
/// shape of the type and schema tree it was decoded under — so the
/// round-trip law applies to every decode result.
pub proof fn lemma_read_deep_wf(
    dtype: DataType,
    ipc: IpcField,
    nodes: Seq<FieldNode>,
    bufs: Seq<BufferDesc>,
    body: Seq<u8>,
    little_endian: bool,
    limit: Option<usize>,
    version: Version,
)
    ensures
        spec_read(dtype, ipc, nodes, bufs, body, little_endian, limit, version) matches Ok(m)
            ==> deep_wf(m) && matches_type(m, dtype) && ipc_matches(dtype, ipc),
    decreases dtype, 1int,
{
    let r = spec_read(dtype, ipc, nodes, bufs, body, little_endian, limit, version);
    if r is Ok {
        match dtype {
            DataType::Null => {},
            DataType::Primitive => {},
            DataType::Union(u) => {
                let bufs1 = if version.spec_is_newest() {
                    bufs
                } else {
                    bufs.skip(1)
                };
                let bufs2 = bufs1.skip(1);
                let bufs3 = if u.mode is Dense {
                    bufs2.skip(1)
                } else {
                    bufs2
                };
                lemma_read_children_deep_wf(
                    u.fields@,
                    ipc.fields@,
                    nodes.skip(1),
                    bufs3,
                    body,
                    little_endian,
                    version,
                );
            },
        }
    }
}

/// The agreement of [`lemma_read_deep_wf`], over sibling children.
pub proof fn lemma_read_children_deep_wf(
    fields: Seq<DataType>,
    ipcs: Seq<IpcField>,
    nodes: Seq<FieldNode>,
    bufs: Seq<BufferDesc>,
    body: Seq<u8>,
    little_endian: bool,
    version: Version,
)
    ensures
        spec_read_children(fields, ipcs, nodes, bufs, body, little_endian, version) matches Ok(ms)
            ==> deep_wf_children(ms) && matches_children(ms, fields) && ipc_children_match(
            fields,
            ipcs,
        ),
    decreases fields, 2int,
{
    let r = spec_read_children(fields, ipcs, nodes, bufs, body, little_endian, version);
    if fields.len() > 0 && r is Ok {
        lemma_read_deep_wf(fields[0], ipcs[0], nodes, bufs, body, little_endian, None, version);
        lemma_read_children_deep_wf(
            fields.skip(1),
            ipcs.skip(1),
            nodes.skip(read_nodes_consumed(fields[0]) as int),
            bufs.skip(read_buffers_consumed(fields[0], version) as int),
            body,
            little_endian,
            version,
        );
        let ms = r->Ok_0;
        let m0 = spec_read(
            fields[0],
            ipcs[0],
            nodes,
            bufs,
            body,
            little_endian,
            None,
            version,
        )->Ok_0;
        let rest = spec_read_children(
            fields.skip(1),
            ipcs.skip(1),
            nodes.skip(read_nodes_consumed(fields[0]) as int),
            bufs.skip(read_buffers_consumed(fields[0], version) as int),
            body,
            little_endian,
            version,
        )->Ok_0;
        assert(ms == seq![m0] + rest);
        assert(ms[0] == m0);
        assert(ms.skip(1) =~= rest);
    }
}

/// Law (round trip, end to end): whatever a successful union decode
/// yielded, re-encoding it and decoding the re-encoding — under the same
/// type, schema tree and version — yields the identical value: identical
/// types buffer, identical offsets buffer in dense mode or its absence in
/// sparse mode, and identical child arrays.  The one hypothesis is that
/// the re-encoded body fits the machine's counts.
pub proof fn lemma_decode_encode_decode(
    u: UnionType,
    ipc: IpcField,
    nodes: Seq<FieldNode>,
    bufs: Seq<BufferDesc>,
    body: Seq<u8>,
    little_endian: bool,
    limit: Option<usize>,
    version: Version,
)
    requires
        spec_read_union(u, ipc, nodes, bufs, body, little_endian, limit, version) is Ok,
        enc_body(
            spec_read_union(u, ipc, nodes, bufs, body, little_endian, limit, version)->Ok_0,
            little_endian,
        ).len() <= usize::MAX,
    ensures
        ({
            let m = spec_read_union(u, ipc, nodes, bufs, body, little_endian, limit, version)->Ok_0;
            spec_read_union(
                u,
                ipc,
                enc_nodes(m),
                enc_bufs(m, version, little_endian, 0),
                enc_body(m, little_endian),
                little_endian,
                None,
                version,
            ) == Ok::<ArrayModel, IpcError>(m)
        }),
{
    let m = spec_read_union(u, ipc, nodes, bufs, body, little_endian, limit, version)->Ok_0;
    lemma_read_deep_wf(
        DataType::Union(u),
        ipc,
        nodes,
        bufs,
        body,
        little_endian,
        limit,
        version,
    );
    lemma_union_round_trip(m, u, ipc, version, little_endian);
}

} // verus!
