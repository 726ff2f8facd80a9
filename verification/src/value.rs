use vstd::prelude::*;

verus! {

/// A wire value: the closed set of kinds the format can carry.
///
/// Text is held as its sequence of characters and a float as the bit pattern
/// of the IEEE-754 double it stands for, so that the whole tree is made of
/// exactly the data the byte-level codec is specified over.
#[derive(Debug, PartialEq, Eq)]
pub enum Value {
    /// The none sentinel: absence, the unit type, a record with no fields.
    NoneVal,
    /// A logic (boolean) value.
    Logic(bool),
    /// The wire format's single ordinary integer width.
    Integer(i32),
    /// The bit pattern of a 64-bit IEEE-754 double.
    Float(u64),
    /// A single character.
    Char(char),
    /// A text string, as its characters.
    Str(Vec<char>),
    /// A raw binary blob.
    Binary(Vec<u8>),
    /// An ordered sequence: blocks carry sequences, records and maps.
    Block(Vec<Value>),
    /// A paren: the container kind reserved for tagged-union encodings.
    Paren(Vec<Value>),
}

/// The mathematical model of a wire value: what [`Value`] looks like to a
/// specification, with sequences in place of vectors.
#[verifier::ext_equal]
pub enum ValueModel {
    NoneVal,
    Logic(bool),
    Integer(i32),
    Float(u64),
    Char(char),
    Str(Seq<char>),
    Binary(Seq<u8>),
    Block(Seq<ValueModel>),
    Paren(Seq<ValueModel>),
}

/// The model of an executable value tree.
pub open spec fn view_value(v: Value) -> ValueModel
    decreases v,
{
    match v {
        Value::NoneVal => ValueModel::NoneVal,
        Value::Logic(b) => ValueModel::Logic(b),
        Value::Integer(i) => ValueModel::Integer(i),
        Value::Float(bits) => ValueModel::Float(bits),
        Value::Char(c) => ValueModel::Char(c),
        Value::Str(s) => ValueModel::Str(s@),
        Value::Binary(b) => ValueModel::Binary(b@),
        Value::Block(vs) => ValueModel::Block(view_elems(vs)),
        Value::Paren(vs) => ValueModel::Paren(view_elems(vs)),
    }
}

/// The models of a container's elements.
pub open spec fn view_elems(vs: Vec<Value>) -> Seq<ValueModel>
    decreases vs,
{
    Seq::new(
        vs@.len(),
        |i: int|
            if 0 <= i < vs@.len() {
                view_value(vs@[i])
            } else {
                ValueModel::NoneVal
            },
    )
}

impl View for Value {
    type V = ValueModel;

    open spec fn view(&self) -> ValueModel {
        view_value(*self)
    }
}

/// The largest count the format's 32-bit length fields can carry.
pub const MAX_LENGTH: u32 = 0x7FFF_FFFF;

/// Well-formedness: every string, blob and container is small enough for its
/// length to be written into the format's 32-bit length field.
pub open spec fn wf(m: ValueModel) -> bool
    decreases m,
{
    match m {
        ValueModel::Str(s) => s.len() <= MAX_LENGTH,
        ValueModel::Binary(b) => b.len() <= MAX_LENGTH,
        ValueModel::Block(vs) => vs.len() <= MAX_LENGTH && (forall|i: int|
            0 <= i < vs.len() ==> wf(#[trigger] vs[i])),
        ValueModel::Paren(vs) => vs.len() <= MAX_LENGTH && (forall|i: int|
            0 <= i < vs.len() ==> wf(#[trigger] vs[i])),
        _ => true,
    }
}

/// Element-wise well-formedness of a container's elements is well-formedness
/// of their models.
pub proof fn lemma_all_wf_elems(vs: Vec<Value>)
    ensures
        (forall|i: int| 0 <= i < vs@.len() ==> wf(#[trigger] view_value(vs@[i]))) <==> (forall|
            i: int,
        |
            0 <= i < view_elems(vs).len() ==> wf(#[trigger] view_elems(vs)[i])),
{
    if forall|i: int| 0 <= i < vs@.len() ==> wf(#[trigger] view_value(vs@[i])) {
        assert forall|i: int| 0 <= i < view_elems(vs).len() implies wf(
            #[trigger] view_elems(vs)[i],
        ) by {
            assert(wf(view_value(vs@[i])));
        }
    }
    if forall|i: int| 0 <= i < view_elems(vs).len() ==> wf(#[trigger] view_elems(vs)[i]) {
        assert forall|i: int| 0 <= i < vs@.len() implies wf(#[trigger] view_value(vs@[i])) by {
            assert(wf(view_elems(vs)[i]));
        }
    }
}

impl Value {
    /// Decides well-formedness of a value tree.
    pub fn is_wf(&self) -> (b: bool)
        ensures
            b == wf(self@),
        decreases *self,
    {
        match self {
            Value::Str(s) => s.len() <= MAX_LENGTH as usize,
            Value::Binary(b) => b.len() <= MAX_LENGTH as usize,
            Value::Block(vs) => {
                let r = Self::all_wf(vs);
                proof {
                    lemma_all_wf_elems(*vs);
                }
                r
            },
            Value::Paren(vs) => {
                let r = Self::all_wf(vs);
                proof {
                    lemma_all_wf_elems(*vs);
                }
                r
            },
            _ => true,
        }
    }

    /// Decides well-formedness of every element of a container, and that the
    /// container itself is not too long.
    fn all_wf(vs: &Vec<Value>) -> (b: bool)
        ensures
            b == (vs@.len() <= MAX_LENGTH && (forall|i: int|
                0 <= i < vs@.len() ==> wf(#[trigger] view_value(vs@[i])))),
        decreases *vs,
    {
        if vs.len() > MAX_LENGTH as usize {
            return false;
        }
        let mut i: usize = 0;
        while i < vs.len()
            invariant
                0 <= i <= vs@.len(),
                forall|j: int| 0 <= j < i ==> wf(#[trigger] view_value(vs@[j])),
            decreases vs@.len() - i,
        {
            if !vs[i].is_wf() {
                return false;
            }
            i = i + 1;
        }
        true
    }
}

} // verus!
