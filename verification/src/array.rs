use vstd::prelude::*;

use crate::error::IpcError;
use crate::format::{UnionMode, UnionType};

verus! {

/// A decoded array of all-null rows: nothing but a length.
#[derive(PartialEq, Eq, Debug)]
pub struct NullArray {
    pub length: usize,
}

/// A decoded fixed-width array of 32-bit signed values, with its raw
/// validity bitmap when the node declared nulls.
#[derive(PartialEq, Eq, Debug)]
pub struct PrimitiveArray {
    pub validity: Option<Vec<u8>>,
    pub values: Vec<i32>,
}

/// A decoded tagged-union array: its layout mode, one type tag per row
/// selecting a child, the offsets buffer (dense mode only), and the decoded
/// child arrays in declaration order.
#[derive(PartialEq, Eq, Debug)]
pub struct UnionArray {
    pub mode: UnionMode,
    pub types: Vec<i8>,
    pub offsets: Option<Vec<i32>>,
    pub fields: Vec<ArrayValue>,
}

/// A decoded array of any node kind of the closed set.
#[derive(PartialEq, Eq, Debug)]
pub enum ArrayValue {
    Null(NullArray),
    Primitive(PrimitiveArray),
    Union(UnionArray),
}

/// Mathematical model of a decoded primitive array.
pub struct PrimitiveModel {
    pub validity: Option<Seq<u8>>,
    pub values: Seq<i32>,
}

/// Mathematical model of a decoded union array.
pub struct UnionModel {
    pub mode: UnionMode,
    pub types: Seq<i8>,
    pub offsets: Option<Seq<i32>>,
    pub fields: Seq<ArrayModel>,
}

/// Mathematical model of a decoded array of all-null rows.
pub struct NullModel {
    pub length: nat,
}

/// Mathematical model of a decoded array of any kind.
pub enum ArrayModel {
    Null(NullModel),
    Primitive(PrimitiveModel),
    Union(UnionModel),
}

/// The model of one decoded array.
pub open spec fn model_of(a: ArrayValue) -> ArrayModel
    decreases a, 0int,
{
    match a {
        ArrayValue::Null(nl) => ArrayModel::Null(NullModel { length: nl.length as nat }),
        ArrayValue::Primitive(p) => ArrayModel::Primitive(
            PrimitiveModel {
                validity: match p.validity {
                    Some(v) => Some(v@),
                    None => None,
                },
                values: p.values@,
            },
        ),
        ArrayValue::Union(u) => ArrayModel::Union(
            UnionModel {
                mode: u.mode,
                types: u.types@,
                offsets: match u.offsets {
                    Some(o) => Some(o@),
                    None => None,
                },
                fields: models_of(u.fields@),
            },
        ),
    }
}

/// The models of a sequence of decoded arrays, element by element.
pub open spec fn models_of(s: Seq<ArrayValue>) -> Seq<ArrayModel>
    decreases s, 1int,
{
    if s.len() == 0 {
        Seq::empty()
    } else {
        seq![model_of(s[0])] + models_of(s.skip(1))
    }
}

/// `models_of` maps the sequence element by element.
pub proof fn lemma_models_of_index(s: Seq<ArrayValue>)
    ensures
        models_of(s).len() == s.len(),
        forall|i: int| 0 <= i < s.len() ==> models_of(s)[i] == model_of(s[i]),
    decreases s,
{
    if s.len() > 0 {
        lemma_models_of_index(s.skip(1));
    }
}

/// Appending one array appends its model.
pub proof fn lemma_models_of_push(s: Seq<ArrayValue>, a: ArrayValue)
    ensures
        models_of(s.push(a)) == models_of(s).push(model_of(a)),
{
    lemma_models_of_index(s);
    lemma_models_of_index(s.push(a));
    assert forall|i: int| 0 <= i < s.len() + 1 implies models_of(s.push(a))[i] == models_of(
        s,
    ).push(model_of(a))[i] by {
        if i < s.len() {
            assert(s.push(a)[i] == s[i]);
        } else {
            assert(s.push(a)[i] == a);
        }
    }
    assert(models_of(s.push(a)) =~= models_of(s).push(model_of(a)));
}

impl View for PrimitiveArray {
    type V = PrimitiveModel;

    open spec fn view(&self) -> PrimitiveModel {
        PrimitiveModel {
            validity: match self.validity {
                Some(v) => Some(v@),
                None => None,
            },
            values: self.values@,
        }
    }
}

impl View for UnionArray {
    type V = UnionModel;

    open spec fn view(&self) -> UnionModel {
        UnionModel {
            mode: self.mode,
            types: self.types@,
            offsets: match self.offsets {
                Some(o) => Some(o@),
                None => None,
            },
            fields: models_of(self.fields@),
        }
    }
}

impl View for ArrayValue {
    type V = ArrayModel;

    open spec fn view(&self) -> ArrayModel {
        model_of(*self)
    }
}

impl ArrayModel {
    /// The row count of a decoded array: a primitive has one row per value,
    /// a union one row per type tag.
    pub open spec fn len(self) -> nat {
        match self {
            ArrayModel::Null(nl) => nl.length,
            ArrayModel::Primitive(p) => p.values.len(),
            ArrayModel::Union(u) => u.types.len(),
        }
    }
}

impl UnionModel {
    /// The row count of the union: one row per type tag.
    pub open spec fn len(self) -> nat {
        self.types.len()
    }

    /// Internal consistency of a decoded union.  The offsets buffer exists
    /// exactly in dense mode and is as long as the types buffer; every type
    /// tag selects a declared child; in dense mode every offset indexes
    /// within the child its tag selects; in sparse mode every child has the
    /// union's own length.
    pub open spec fn wf(self) -> bool {
        &&& self.mode is Dense <==> self.offsets is Some
        &&& (self.offsets matches Some(o) ==> o.len() == self.types.len())
        &&& forall|i: int|
            0 <= i < self.types.len() ==> 0 <= #[trigger] self.types[i] < self.fields.len()
        &&& self.mode is Dense ==> forall|i: int|
            0 <= i < self.types.len() ==> 0 <= #[trigger] self.offsets->0[i]
                < self.fields[self.types[i] as int].len()
        &&& self.mode is Sparse ==> forall|j: int|
            0 <= j < self.fields.len() ==> (#[trigger] self.fields[j].len()) == self.types.len()
    }

    /// The child that row `row` of the union selects.
    pub open spec fn selected_child(self, row: int) -> int {
        self.types[row] as int
    }

    /// The row within the selected child where row `row` of the union
    /// lives: through the offsets buffer in dense mode, positionally in
    /// sparse mode.
    pub open spec fn selected_row(self, row: int) -> int {
        if self.mode is Dense {
            self.offsets->0[row] as int
        } else {
            row
        }
    }
}

impl ArrayValue {
    /// The row count of this array.
    pub fn len(&self) -> (r: usize)
        ensures
            r == self@.len(),
    {
        match self {
            ArrayValue::Null(nl) => nl.length,
            ArrayValue::Primitive(p) => p.values.len(),
            ArrayValue::Union(u) => u.types.len(),
        }
    }
}

impl UnionArray {
    /// The row count of this union: one row per type tag.
    pub fn len(&self) -> (r: usize)
        ensures
            r == self@.types.len(),
    {
        self.types.len()
    }

    /// Builds a union from its parts, validating internal consistency: the
    /// child count must equal the declared variant count, and the parts must
    /// satisfy [`UnionModel::wf`].  Any violation is a structural type
    /// error, reported as [`IpcError::InvalidStructure`].
    pub fn try_new(
        decl: &UnionType,
        types: Vec<i8>,
        fields: Vec<ArrayValue>,
        offsets: Option<Vec<i32>>,
    ) -> (r: Result<UnionArray, IpcError>)
        ensures
            ({
                let m = UnionModel {
                    mode: decl.mode,
                    types: types@,
                    offsets: match offsets {
                        Some(o) => Some(o@),
                        None => None,
                    },
                    fields: models_of(fields@),
                };
                match r {
                    Ok(arr) => arr@ == m && m.wf() && fields@.len() == decl.fields@.len(),
                    Err(e) => e == IpcError::InvalidStructure && !(m.wf()
                        && fields@.len() == decl.fields@.len()),
                }
            }),
    {
        proof {
            lemma_models_of_index(fields@);
        }
        let ghost m = UnionModel {
            mode: decl.mode,
            types: types@,
            offsets: match &offsets {
                Some(o) => Some(o@),
                None => None,
            },
            fields: models_of(fields@),
        };
        if fields.len() != decl.fields.len() {
            return Err(IpcError::InvalidStructure);
        }
        let rows = types.len();
        match (&offsets, decl.mode.is_sparse()) {
            (Some(_), true) => {
                return Err(IpcError::InvalidStructure);
            },
            (None, false) => {
                return Err(IpcError::InvalidStructure);
            },
            _ => {},
        }
        if let Some(o) = &offsets {
            if o.len() != rows {
                return Err(IpcError::InvalidStructure);
            }
        }
        let mut i: usize = 0;
        while i < rows
            invariant
                i <= rows,
                rows == types@.len(),
                m.types == types@,
                m.mode == decl.mode,
                m.fields == models_of(fields@),
                m.fields.len() == fields@.len(),
                forall|k: int| 0 <= k < fields@.len() ==> m.fields[k] == model_of(fields@[k]),
                forall|k: int| 0 <= k < i ==> 0 <= #[trigger] types@[k] < fields@.len(),
                m.mode is Dense <==> offsets is Some,
                offsets matches Some(o) ==> m.offsets == Some(o@) && o@.len() == rows,
                offsets is None ==> m.offsets is None,
                m.mode is Dense ==> forall|k: int|
                    0 <= k < i ==> 0 <= #[trigger] m.offsets->0[k]
                        < m.fields[types@[k] as int].len(),
            decreases rows - i,
        {
            let t = types[i];
            if t < 0 || t as usize >= fields.len() {
                proof {
                    assert(!(0 <= m.types[i as int] < m.fields.len()));
                }
                return Err(IpcError::InvalidStructure);
            }
            if let Some(o) = &offsets {
                let off = o[i];
                let child_len = fields[t as usize].len();
                if off < 0 || off as usize >= child_len {
                    proof {
                        assert(m.offsets->0[i as int] == off);
                        assert(m.fields[m.types[i as int] as int].len() == child_len);
                    }
                    return Err(IpcError::InvalidStructure);
                }
            }
            i = i + 1;
        }
        if offsets.is_none() {
            let mut j: usize = 0;
            while j < fields.len()
                invariant
                    j <= fields@.len(),
                    rows == types@.len(),
                    m.types == types@,
                    m.mode == decl.mode,
                    m.mode is Sparse,
                    m.offsets is None,
                    m.fields == models_of(fields@),
                    m.fields.len() == fields@.len(),
                    forall|k: int| 0 <= k < fields@.len() ==> m.fields[k] == model_of(fields@[k]),
                    forall|k: int| 0 <= k < j ==> (#[trigger] m.fields[k].len()) == rows,
                decreases fields@.len() - j,
            {
                if fields[j].len() != rows {
                    proof {
                        assert(m.fields[j as int].len() != rows);
                    }
                    return Err(IpcError::InvalidStructure);
                }
                j = j + 1;
            }
        }
        Ok(UnionArray { mode: decl.mode, types, offsets, fields })
    }

    /// Where row `row` of a well-formed union lives: the selected child's
    /// index and the row within that child.
    pub fn selected(&self, row: usize) -> (r: (usize, usize))
        requires
            self@.wf(),
            row < self@.len(),
        ensures
            r.0 == self@.selected_child(row as int),
            r.1 == self@.selected_row(row as int),
            r.0 < self@.fields.len(),
            r.1 < self@.fields[r.0 as int].len(),
    {
        proof {
            lemma_models_of_index(self.fields@);
        }
        let t = self.types[row];
        assert(0 <= self@.types[row as int] < self@.fields.len());
        let child: usize = t as usize;
        let child_row: usize = match &self.offsets {
            Some(o) => {
                assert(0 <= self@.offsets->0[row as int] < self@.fields[self@.types[row as int] as int].len());
                o[row] as usize
            },
            None => {
                assert(self@.fields[self@.types[row as int] as int].len() == self@.types.len());
                row
            },
        };
        (child, child_row)
    }
}

} // verus!
