use std::collections::VecDeque;

use ipc_union::array::{ArrayValue, UnionArray};
use ipc_union::error::IpcError;
use ipc_union::format::{BufferDesc, DataType, FieldNode, IpcField, UnionMode, UnionType, Version};
use ipc_union::read::{read, read_union};
use ipc_union::skip::{skip_union};

fn leaf_ipc() -> IpcField {
    IpcField { fields: vec![], dictionary_id: None }
}

fn union_ipc(n: usize) -> IpcField {
    IpcField { fields: (0..n).map(|_| leaf_ipc()).collect(), dictionary_id: None }
}

struct Stream {
    nodes: VecDeque<FieldNode>,
    bufs: VecDeque<BufferDesc>,
    body: Vec<u8>,
}

impl Stream {
    fn new() -> Self {
        Stream { nodes: VecDeque::new(), bufs: VecDeque::new(), body: Vec::new() }
    }

    fn push_node(&mut self, length: usize, null_count: usize) {
        self.nodes.push_back(FieldNode { length, null_count });
    }

    fn push_raw(&mut self, bytes: &[u8]) {
        let offset = self.body.len();
        self.body.extend_from_slice(bytes);
        self.bufs.push_back(BufferDesc { offset, length: bytes.len() });
    }

    fn push_i8s(&mut self, vals: &[i8]) {
        let bytes: Vec<u8> = vals.iter().map(|v| *v as u8).collect();
        self.push_raw(&bytes);
    }

    fn push_i32s(&mut self, vals: &[i32], le: bool) {
        let mut bytes = Vec::new();
        for v in vals {
            if le {
                bytes.extend_from_slice(&v.to_le_bytes());
            } else {
                bytes.extend_from_slice(&v.to_be_bytes());
            }
        }
        self.push_raw(&bytes);
    }

    fn push_primitive(&mut self, vals: &[i32], le: bool) {
        self.push_node(vals.len(), 0);
        self.push_raw(&[]);
        self.push_i32s(vals, le);
    }
}

fn encode_value(av: &ArrayValue, version: Version, le: bool, s: &mut Stream) {
    match av {
        ArrayValue::Null(n) => {
            s.push_node(n.length, 0);
        },
        ArrayValue::Primitive(p) => {
            s.push_node(p.values.len(), if p.validity.is_some() { 1 } else { 0 });
            match &p.validity {
                Some(v) => s.push_raw(v),
                None => s.push_raw(&[]),
            }
            s.push_i32s(&p.values, le);
        },
        ArrayValue::Union(u) => encode_union_value(u, version, le, s),
    }
}

fn encode_union_value(u: &UnionArray, version: Version, le: bool, s: &mut Stream) {
    s.push_node(u.types.len(), 0);
    if !matches!(version, Version::V5) {
        s.push_raw(&[]);
    }
    s.push_i8s(&u.types);
    if let Some(o) = &u.offsets {
        s.push_i32s(o, le);
    }
    for f in &u.fields {
        encode_value(f, version, le, s);
    }
}

fn dtype_of(av: &ArrayValue) -> DataType {
    match av {
        ArrayValue::Null(_) => DataType::Null,
        ArrayValue::Primitive(_) => DataType::Primitive,
        ArrayValue::Union(u) => DataType::Union(UnionType {
            mode: u.mode,
            fields: u.fields.iter().map(dtype_of).collect(),
        }),
    }
}

fn union_dtype(mode: UnionMode, fields: Vec<DataType>) -> DataType {
    DataType::Union(UnionType { mode, fields })
}

fn decode(
    s: &mut Stream,
    dtype: &DataType,
    ipc: &IpcField,
    le: bool,
    limit: Option<usize>,
    version: Version,
) -> Result<UnionArray, IpcError> {
    let mut variadic: VecDeque<usize> = VecDeque::new();
    read_union(
        &mut s.nodes,
        &mut variadic,
        dtype,
        ipc,
        &mut s.bufs,
        &s.body,
        le,
        limit,
        version,
    )
}

fn dense_scenario_stream() -> (Stream, DataType, IpcField) {
    let mut s = Stream::new();
    s.push_node(3, 0);
    s.push_i8s(&[0, 1, 0]);
    s.push_i32s(&[0, 0, 1], true);
    s.push_primitive(&[10, 20], true);
    s.push_primitive(&[99], true);
    let dtype = union_dtype(UnionMode::Dense, vec![DataType::Primitive, DataType::Primitive]);
    (s, dtype, union_ipc(2))
}

#[test]
fn dense_scenario_materializes_rows() {
    let (mut s, dtype, ipc) = dense_scenario_stream();
    let arr = decode(&mut s, &dtype, &ipc, true, None, Version::V5).unwrap();
    assert_eq!(arr.types, vec![0, 1, 0]);
    assert_eq!(arr.offsets, Some(vec![0, 0, 1]));
    let mut rows = Vec::new();
    for row in 0..3 {
        let (child, child_row) = arr.selected(row);
        match &arr.fields[child] {
            ArrayValue::Primitive(p) => rows.push(p.values[child_row]),
            _ => panic!("expected a primitive child"),
        }
    }
    assert_eq!(rows, vec![10, 99, 20]);
    assert_eq!(s.nodes.len(), 0);
    assert_eq!(s.bufs.len(), 0);
}

#[test]
fn pre_newest_sparse_discards_placeholder() {
    let mut s = Stream::new();
    s.push_node(2, 0);
    s.push_raw(&[0xAA]);
    s.push_i8s(&[0, 1]);
    s.push_node(2, 0);
    s.push_node(2, 0);
    let dtype = union_dtype(UnionMode::Sparse, vec![DataType::Null, DataType::Null]);
    let ipc = union_ipc(2);
    let bufs_before = s.bufs.len();
    let arr = decode(&mut s, &dtype, &ipc, true, None, Version::V4).unwrap();
    assert_eq!(bufs_before - s.bufs.len(), 2);
    assert_eq!(arr.types, vec![0, 1]);
    assert!(arr.offsets.is_none());
}

#[test]
fn sparse_reads_no_offsets_buffer() {
    let mut s = Stream::new();
    s.push_node(3, 0);
    s.push_i8s(&[0, 1, 0]);
    s.push_node(3, 0);
    s.push_node(3, 0);
    let dtype = union_dtype(UnionMode::Sparse, vec![DataType::Null, DataType::Null]);
    let bufs_before = s.bufs.len();
    let arr = decode(&mut s, &dtype, &union_ipc(2), true, None, Version::V5).unwrap();
    assert_eq!(bufs_before - s.bufs.len(), 1);
    assert!(arr.offsets.is_none());
}

#[test]
fn dense_reads_one_more_buffer_than_sparse() {
    let mut s = Stream::new();
    s.push_node(3, 0);
    s.push_i8s(&[0, 1, 0]);
    s.push_i32s(&[0, 0, 1], true);
    s.push_node(2, 0);
    s.push_node(2, 0);
    let dtype = union_dtype(UnionMode::Dense, vec![DataType::Null, DataType::Null]);
    let bufs_before = s.bufs.len();
    let arr = decode(&mut s, &dtype, &union_ipc(2), true, None, Version::V5).unwrap();
    assert_eq!(bufs_before - s.bufs.len(), 2);
    assert_eq!(arr.offsets, Some(vec![0, 0, 1]));
}

#[test]
fn pre_newest_adds_one_buffer_in_each_mode() {
    for (mode, own) in [(UnionMode::Sparse, 1usize), (UnionMode::Dense, 2usize)] {
        let mut s = Stream::new();
        s.push_node(3, 0);
        s.push_raw(&[]);
        s.push_i8s(&[0, 1, 0]);
        if matches!(mode, UnionMode::Dense) {
            s.push_i32s(&[0, 0, 1], true);
        }
        s.push_node(3, 0);
        s.push_node(3, 0);
        let dtype = union_dtype(mode, vec![DataType::Null, DataType::Null]);
        let bufs_before = s.bufs.len();
        decode(&mut s, &dtype, &union_ipc(2), true, None, Version::V4).unwrap();
        assert_eq!(bufs_before - s.bufs.len(), own + 1);
    }
}

#[test]
fn limit_truncates_length_but_not_buffers() {
    let mut s = Stream::new();
    s.push_node(10, 0);
    s.push_i8s(&[0; 10]);
    s.push_i32s(&[0; 10], true);
    s.push_node(1, 0);
    s.push_node(0, 0);
    let dtype = union_dtype(UnionMode::Dense, vec![DataType::Null, DataType::Null]);
    let bufs_before = s.bufs.len();
    let arr = decode(&mut s, &dtype, &union_ipc(2), true, Some(4), Version::V5).unwrap();
    assert_eq!(arr.len(), 4);
    assert_eq!(arr.types.len(), 4);
    assert_eq!(arr.offsets.as_ref().unwrap().len(), 4);
    assert_eq!(bufs_before - s.bufs.len(), 2);
    assert_eq!(s.nodes.len(), 0);
}

#[test]
fn read_union_empty_node_queue_is_corrupted_format() {
    let mut s = Stream::new();
    s.push_raw(&[1, 2, 3]);
    let bufs_before = s.bufs.clone();
    let dtype = union_dtype(UnionMode::Dense, vec![]);
    let err = decode(&mut s, &dtype, &union_ipc(0), true, None, Version::V5).unwrap_err();
    assert_eq!(err, IpcError::MissingFieldNode);
    assert!(err.is_corrupted_stream());
    assert_eq!(s.bufs, bufs_before);
    assert!(s.nodes.is_empty());
}

#[test]
fn skip_union_empty_node_queue_is_corrupted_format() {
    let mut nodes: VecDeque<FieldNode> = VecDeque::new();
    let mut bufs: VecDeque<BufferDesc> = VecDeque::new();
    bufs.push_back(BufferDesc { offset: 0, length: 4 });
    let bufs_before = bufs.clone();
    let mut variadic: VecDeque<usize> = VecDeque::new();
    let dtype = union_dtype(UnionMode::Dense, vec![]);
    let err = skip_union(&mut nodes, &dtype, &mut bufs, &mut variadic, Version::V5).unwrap_err();
    assert_eq!(err, IpcError::MissingFieldNode);
    assert!(err.is_corrupted_stream());
    assert_eq!(bufs, bufs_before);
}

#[test]
fn skip_union_missing_validity_consumes_one_node() {
    let mut nodes: VecDeque<FieldNode> = VecDeque::new();
    nodes.push_back(FieldNode { length: 2, null_count: 0 });
    nodes.push_back(FieldNode { length: 9, null_count: 0 });
    let mut bufs: VecDeque<BufferDesc> = VecDeque::new();
    let mut variadic: VecDeque<usize> = VecDeque::new();
    let dtype = union_dtype(UnionMode::Sparse, vec![]);
    let err = skip_union(&mut nodes, &dtype, &mut bufs, &mut variadic, Version::V4).unwrap_err();
    assert_eq!(err, IpcError::MissingValidityBuffer);
    assert_eq!(nodes.len(), 1);
    assert_eq!(nodes.front(), Some(&FieldNode { length: 9, null_count: 0 }));
    assert!(bufs.is_empty());
}

#[test]
fn skip_union_missing_offsets_consumes_node_and_types() {
    let mut nodes: VecDeque<FieldNode> = VecDeque::new();
    nodes.push_back(FieldNode { length: 2, null_count: 0 });
    let mut bufs: VecDeque<BufferDesc> = VecDeque::new();
    bufs.push_back(BufferDesc { offset: 0, length: 2 });
    let mut variadic: VecDeque<usize> = VecDeque::new();
    let dtype = union_dtype(UnionMode::Dense, vec![]);
    let err = skip_union(&mut nodes, &dtype, &mut bufs, &mut variadic, Version::V5).unwrap_err();
    assert_eq!(err, IpcError::MissingOffsetsBuffer);
    assert!(nodes.is_empty());
    assert!(bufs.is_empty());
}

#[test]
fn skip_consumes_as_much_as_read() {
    for version in [Version::V4, Version::V5] {
        for mode in [UnionMode::Sparse, UnionMode::Dense] {
            let mut s = Stream::new();
            let rows = 3;
            s.push_node(rows, 0);
            if !matches!(version, Version::V5) {
                s.push_raw(&[]);
            }
            s.push_i8s(&[0, 1, 0]);
            if matches!(mode, UnionMode::Dense) {
                s.push_i32s(&[0, 0, 1], true);
            }
            s.push_primitive(&[7, 8, 9], true);
            s.push_node(3, 0);
            let dtype = union_dtype(mode, vec![DataType::Primitive, DataType::Null]);
            let ipc = union_ipc(2);

            let mut nodes_for_skip = s.nodes.clone();
            let mut bufs_for_skip = s.bufs.clone();
            let nodes_before = s.nodes.len();
            let bufs_before = s.bufs.len();

            decode(&mut s, &dtype, &ipc, true, None, version).unwrap();
            let read_nodes = nodes_before - s.nodes.len();
            let read_bufs = bufs_before - s.bufs.len();

            let mut variadic: VecDeque<usize> = VecDeque::new();
            skip_union(&mut nodes_for_skip, &dtype, &mut bufs_for_skip, &mut variadic, version)
                .unwrap();
            let skip_nodes = nodes_before - nodes_for_skip.len();
            let skip_bufs = bufs_before - bufs_for_skip.len();

            assert_eq!(read_nodes, skip_nodes);
            assert_eq!(read_bufs, skip_bufs);
        }
    }
}

#[test]
fn skip_leaves_queues_positioned_for_next_column() {
    let mut s = Stream::new();
    s.push_node(2, 0);
    s.push_i8s(&[0, 1]);
    s.push_i32s(&[0, 0], true);
    s.push_primitive(&[1], true);
    s.push_primitive(&[2], true);
    let sentinel_node = FieldNode { length: 77, null_count: 0 };
    s.nodes.push_back(sentinel_node);
    let sentinel_buf = BufferDesc { offset: 0, length: 77 };
    s.bufs.push_back(sentinel_buf);
    let dtype = union_dtype(UnionMode::Dense, vec![DataType::Primitive, DataType::Primitive]);
    let mut variadic: VecDeque<usize> = VecDeque::new();
    skip_union(&mut s.nodes, &dtype, &mut s.bufs, &mut variadic, Version::V5).unwrap();
    assert_eq!(s.nodes.front(), Some(&sentinel_node));
    assert_eq!(s.bufs.front(), Some(&sentinel_buf));
    assert_eq!(s.nodes.len(), 1);
    assert_eq!(s.bufs.len(), 1);
}

#[test]
fn skip_handles_sparse_unions() {
    let mut s = Stream::new();
    s.push_node(2, 0);
    s.push_raw(&[]);
    s.push_i8s(&[0, 1]);
    s.push_node(2, 0);
    let dtype = union_dtype(UnionMode::Sparse, vec![DataType::Null]);
    let bufs_before = s.bufs.len();
    let mut variadic: VecDeque<usize> = VecDeque::new();
    skip_union(&mut s.nodes, &dtype, &mut s.bufs, &mut variadic, Version::V4).unwrap();
    assert_eq!(bufs_before - s.bufs.len(), 2);
    assert_eq!(s.nodes.len(), 0);
}

fn union_dtype_of(u: &UnionArray) -> DataType {
    DataType::Union(UnionType { mode: u.mode, fields: u.fields.iter().map(dtype_of).collect() })
}

#[test]
fn round_trip_dense_union() {
    let (mut s, dtype, ipc) = dense_scenario_stream();
    let first = decode(&mut s, &dtype, &ipc, true, None, Version::V5).unwrap();
    assert_eq!(union_dtype_of(&first), dtype);
    let mut reenc = Stream::new();
    encode_union_value(&first, Version::V5, true, &mut reenc);
    let second = decode(&mut reenc, &dtype, &ipc, true, None, Version::V5).unwrap();
    assert_eq!(first, second);
}

#[test]
fn round_trip_sparse_union_pre_newest() {
    let mut s = Stream::new();
    s.push_node(3, 0);
    s.push_raw(&[]);
    s.push_i8s(&[1, 0, 1]);
    s.push_primitive(&[4, 5, 6], true);
    s.push_primitive(&[-1, -2, -3], true);
    let dtype = union_dtype(UnionMode::Sparse, vec![DataType::Primitive, DataType::Primitive]);
    let ipc = union_ipc(2);
    let first = decode(&mut s, &dtype, &ipc, true, None, Version::V4).unwrap();
    let mut reenc = Stream::new();
    encode_union_value(&first, Version::V4, true, &mut reenc);
    let second = decode(&mut reenc, &dtype, &ipc, true, None, Version::V4).unwrap();
    assert_eq!(first.types, second.types);
    assert_eq!(first.offsets, second.offsets);
    assert_eq!(first.fields, second.fields);
}

#[test]
fn big_endian_values_decode() {
    let mut s = Stream::new();
    s.push_node(2, 0);
    s.push_i8s(&[0, 0]);
    s.push_i32s(&[0, 1], false);
    s.push_node(2, 0);
    s.push_raw(&[]);
    s.push_i32s(&[1 << 20, -2], false);
    let dtype = union_dtype(UnionMode::Dense, vec![DataType::Primitive]);
    let arr = decode(&mut s, &dtype, &union_ipc(1), false, None, Version::V5).unwrap();
    match &arr.fields[0] {
        ArrayValue::Primitive(p) => assert_eq!(p.values, vec![1 << 20, -2]),
        _ => panic!("expected a primitive child"),
    }
}

#[test]
fn primitive_validity_bitmap_is_read() {
    let mut s = Stream::new();
    s.push_node(1, 0);
    s.push_i8s(&[0]);
    s.push_i32s(&[0], true);
    s.push_node(3, 1);
    s.push_raw(&[0b0000_0101]);
    s.push_i32s(&[5, 0, 7], true);
    let dtype = union_dtype(UnionMode::Dense, vec![DataType::Primitive]);
    let arr = decode(&mut s, &dtype, &union_ipc(1), true, None, Version::V5).unwrap();
    match &arr.fields[0] {
        ArrayValue::Primitive(p) => {
            assert_eq!(p.validity, Some(vec![0b0000_0101]));
            assert_eq!(p.values, vec![5, 0, 7]);
        },
        _ => panic!("expected a primitive child"),
    }
}

#[test]
fn missing_validity_placeholder_pre_newest() {
    let mut s = Stream::new();
    s.push_node(2, 0);
    let dtype = union_dtype(UnionMode::Sparse, vec![]);
    let err = decode(&mut s, &dtype, &union_ipc(0), true, None, Version::V4).unwrap_err();
    assert_eq!(err, IpcError::MissingValidityBuffer);
}

#[test]
fn missing_types_buffer() {
    let mut s = Stream::new();
    s.push_node(2, 0);
    let dtype = union_dtype(UnionMode::Sparse, vec![]);
    let err = decode(&mut s, &dtype, &union_ipc(0), true, None, Version::V5).unwrap_err();
    assert_eq!(err, IpcError::MissingTypesBuffer);
}

#[test]
fn missing_offsets_buffer() {
    let mut s = Stream::new();
    s.push_node(2, 0);
    s.push_i8s(&[0, 0]);
    let dtype = union_dtype(UnionMode::Dense, vec![]);
    let err = decode(&mut s, &dtype, &union_ipc(0), true, None, Version::V5).unwrap_err();
    assert_eq!(err, IpcError::MissingOffsetsBuffer);
}

#[test]
fn missing_values_buffer_in_child() {
    let mut s = Stream::new();
    s.push_node(1, 0);
    s.push_i8s(&[0]);
    s.push_i32s(&[0], true);
    s.push_node(1, 0);
    s.push_raw(&[]);
    let dtype = union_dtype(UnionMode::Dense, vec![DataType::Primitive]);
    let err = decode(&mut s, &dtype, &union_ipc(1), true, None, Version::V5).unwrap_err();
    assert_eq!(err, IpcError::MissingValuesBuffer);
}

#[test]
fn types_buffer_too_small_is_out_of_bounds() {
    let mut s = Stream::new();
    s.push_node(3, 0);
    s.push_i8s(&[0, 0]);
    let dtype = union_dtype(UnionMode::Sparse, vec![]);
    let err = decode(&mut s, &dtype, &union_ipc(0), true, None, Version::V5).unwrap_err();
    assert_eq!(err, IpcError::BufferOutOfBounds);
    assert!(err.is_corrupted_stream());
}

#[test]
fn child_count_mismatch_between_type_and_schema() {
    let mut s = Stream::new();
    s.push_node(1, 0);
    s.push_i8s(&[0]);
    s.push_i32s(&[0], true);
    s.push_node(1, 0);
    s.push_node(1, 0);
    let dtype = union_dtype(UnionMode::Dense, vec![DataType::Null, DataType::Null]);
    let err = decode(&mut s, &dtype, &union_ipc(1), true, None, Version::V5).unwrap_err();
    assert_eq!(err, IpcError::ChildCountMismatch);
    assert!(!err.is_corrupted_stream());
}

#[test]
fn type_tag_out_of_range_is_invalid_structure() {
    let mut s = Stream::new();
    s.push_node(1, 0);
    s.push_i8s(&[5]);
    s.push_i32s(&[0], true);
    s.push_node(1, 0);
    s.push_node(1, 0);
    let dtype = union_dtype(UnionMode::Dense, vec![DataType::Null, DataType::Null]);
    let err = decode(&mut s, &dtype, &union_ipc(2), true, None, Version::V5).unwrap_err();
    assert_eq!(err, IpcError::InvalidStructure);
}

#[test]
fn sparse_child_length_mismatch_is_invalid_structure() {
    let mut s = Stream::new();
    s.push_node(3, 0);
    s.push_i8s(&[0, 0, 0]);
    s.push_node(2, 0);
    let dtype = union_dtype(UnionMode::Sparse, vec![DataType::Null]);
    let err = decode(&mut s, &dtype, &union_ipc(1), true, None, Version::V5).unwrap_err();
    assert_eq!(err, IpcError::InvalidStructure);
}

#[test]
fn dense_offset_out_of_child_bounds_is_invalid_structure() {
    let mut s = Stream::new();
    s.push_node(1, 0);
    s.push_i8s(&[0]);
    s.push_i32s(&[3], true);
    s.push_primitive(&[1, 2], true);
    let dtype = union_dtype(UnionMode::Dense, vec![DataType::Primitive]);
    let err = decode(&mut s, &dtype, &union_ipc(1), true, None, Version::V5).unwrap_err();
    assert_eq!(err, IpcError::InvalidStructure);
}

#[test]
fn try_new_rejects_offsets_on_sparse() {
    let decl = UnionType { mode: UnionMode::Sparse, fields: vec![DataType::Null] };
    let child = ArrayValue::Null(ipc_union::array::NullArray { length: 1 });
    let err = UnionArray::try_new(&decl, vec![0], vec![child], Some(vec![0])).unwrap_err();
    assert_eq!(err, IpcError::InvalidStructure);
}

#[test]
fn read_dispatches_null_nodes() {
    let mut nodes: VecDeque<FieldNode> = VecDeque::new();
    nodes.push_back(FieldNode { length: 5, null_count: 5 });
    let mut bufs: VecDeque<BufferDesc> = VecDeque::new();
    let mut variadic: VecDeque<usize> = VecDeque::new();
    let body: Vec<u8> = Vec::new();
    let av = read(
        &mut nodes,
        &mut variadic,
        &DataType::Null,
        &leaf_ipc(),
        &mut bufs,
        &body,
        true,
        Some(2),
        Version::V5,
    )
    .unwrap();
    match av {
        ArrayValue::Null(n) => assert_eq!(n.length, 2),
        _ => panic!("expected a null array"),
    }
}

#[test]
fn error_messages_name_the_missing_element() {
    assert!(IpcError::MissingValidityBuffer.message().contains("validity"));
    assert!(IpcError::MissingOffsetsBuffer.message().contains("offsets"));
    assert!(IpcError::MissingTypesBuffer.message().contains("types"));
}
