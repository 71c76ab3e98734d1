//! The typed scalar `Ele`, the homogeneous column `Column` and the data frame
//! that query results travel in.

use vstd::prelude::*;

verus! {

/// The type tag of an element.
#[derive(Clone, Copy, Debug, PartialEq, Eq, Structural)]
pub enum EleType {
    Nil,
    BOOL,
    I32,
    I64,
    F32,
    F64,
    Text,
    Url,
    DataTime,
}

/// A single-precision number as the library holds it: the IEEE 754 bit
/// pattern, and the decimal text that its producer rendered it to. The
/// library itself does no floating-point arithmetic.
#[derive(Debug, PartialEq, Eq)]
pub struct Real32 {
    pub bits: u32,
    pub text: String,
}

/// A double-precision number as the library holds it: the IEEE 754 bit
/// pattern, and the decimal text that its producer rendered it to.
#[derive(Debug, PartialEq, Eq)]
pub struct Real64 {
    pub bits: u64,
    pub text: String,
}

impl Clone for Real32 {
    fn clone(&self) -> (r: Self)
        ensures
            r == *self,
    {
        Real32 { bits: self.bits, text: self.text.clone() }
    }
}

impl Clone for Real64 {
    fn clone(&self) -> (r: Self)
        ensures
            r == *self,
    {
        Real64 { bits: self.bits, text: self.text.clone() }
    }
}

/// A tagged scalar value.
#[derive(Debug, PartialEq)]
pub enum Ele {
    Nil,
    BOOL(bool),
    I32(i32),
    I64(i64),
    F32(Real32),
    F64(Real64),
    Text(String),
    Url(String),
    /// Microseconds since the UNIX epoch.
    DataTime(u64),
}

/// What an element is, with its texts as sequences of characters.
pub enum EleView {
    Nil,
    Bool(bool),
    I32(i32),
    I64(i64),
    F32(u32, Seq<char>),
    F64(u64, Seq<char>),
    Text(Seq<char>),
    Url(Seq<char>),
    DataTime(u64),
}

impl View for Ele {
    type V = EleView;

    open spec fn view(&self) -> EleView {
        match *self {
            Ele::Nil => EleView::Nil,
            Ele::BOOL(b) => EleView::Bool(b),
            Ele::I32(x) => EleView::I32(x),
            Ele::I64(x) => EleView::I64(x),
            Ele::F32(x) => EleView::F32(x.bits, x.text@),
            Ele::F64(x) => EleView::F64(x.bits, x.text@),
            Ele::Text(s) => EleView::Text(s@),
            Ele::Url(s) => EleView::Url(s@),
            Ele::DataTime(t) => EleView::DataTime(t),
        }
    }
}

impl Clone for Ele {
    fn clone(&self) -> (r: Self)
        ensures
            r == *self,
    {
        match self {
            Ele::Nil => Ele::Nil,
            Ele::BOOL(b) => Ele::BOOL(*b),
            Ele::I32(x) => Ele::I32(*x),
            Ele::I64(x) => Ele::I64(*x),
            Ele::F32(x) => Ele::F32(x.clone()),
            Ele::F64(x) => Ele::F64(x.clone()),
            Ele::Text(s) => Ele::Text(s.clone()),
            Ele::Url(s) => Ele::Url(s.clone()),
            Ele::DataTime(t) => Ele::DataTime(*t),
        }
    }
}

impl Ele {
    /// The type tag of this element.
    pub fn kind(&self) -> (r: EleType)
        ensures
            r == kind_of(self@),
    {
        match self {
            Ele::Nil => EleType::Nil,
            Ele::BOOL(_) => EleType::BOOL,
            Ele::I32(_) => EleType::I32,
            Ele::I64(_) => EleType::I64,
            Ele::F32(_) => EleType::F32,
            Ele::F64(_) => EleType::F64,
            Ele::Text(_) => EleType::Text,
            Ele::Url(_) => EleType::Url,
            Ele::DataTime(_) => EleType::DataTime,
        }
    }
}

/// The type tag that goes with each variant.
pub open spec fn kind_of(e: EleView) -> EleType {
    match e {
        EleView::Nil => EleType::Nil,
        EleView::Bool(_) => EleType::BOOL,
        EleView::I32(_) => EleType::I32,
        EleView::I64(_) => EleType::I64,
        EleView::F32(_, _) => EleType::F32,
        EleView::F64(_, _) => EleType::F64,
        EleView::Text(_) => EleType::Text,
        EleView::Url(_) => EleType::Url,
        EleView::DataTime(_) => EleType::DataTime,
    }
}

/// A homogeneous column of values.
#[derive(Debug, PartialEq)]
pub enum Column {
    Nil,
    SeqBOOL(Vec<bool>),
    SeqI32(Vec<i32>),
    SeqI64(Vec<i64>),
    SeqF32(Vec<Real32>),
    SeqF64(Vec<Real64>),
    SeqText(Vec<String>),
    SeqDateTime(Vec<u64>),
}

impl Clone for Column {
    fn clone(&self) -> (r: Self)
        ensures
            r.cells() == self.cells(),
            r is Nil <==> *self is Nil,
    {
        let r = match self {
            Column::Nil => Column::Nil,
            Column::SeqBOOL(v) => Column::SeqBOOL(v.clone()),
            Column::SeqI32(v) => Column::SeqI32(v.clone()),
            Column::SeqI64(v) => Column::SeqI64(v.clone()),
            Column::SeqF32(v) => Column::SeqF32(v.clone()),
            Column::SeqF64(v) => Column::SeqF64(v.clone()),
            Column::SeqText(v) => Column::SeqText(v.clone()),
            Column::SeqDateTime(v) => Column::SeqDateTime(v.clone()),
        };
        proof {
            assert(r.cells() =~= self.cells());
        }
        r
    }
}

impl Column {
    /// The cells of the column, each as the element that `get` hands out.
    pub open spec fn cells(&self) -> Seq<EleView> {
        match *self {
            Column::Nil => Seq::empty(),
            Column::SeqBOOL(v) => Seq::new(v@.len(), |i: int| EleView::Bool(v@[i])),
            Column::SeqI32(v) => Seq::new(v@.len(), |i: int| EleView::I32(v@[i])),
            Column::SeqI64(v) => Seq::new(v@.len(), |i: int| EleView::I64(v@[i])),
            Column::SeqF32(v) => Seq::new(v@.len(), |i: int| EleView::F32(v@[i].bits, v@[i].text@)),
            Column::SeqF64(v) => Seq::new(v@.len(), |i: int| EleView::F64(v@[i].bits, v@[i].text@)),
            Column::SeqText(v) => Seq::new(v@.len(), |i: int| EleView::Text(v@[i]@)),
            Column::SeqDateTime(v) => Seq::new(v@.len(), |i: int| EleView::DataTime(v@[i])),
        }
    }

    /// The number of cells.
    pub fn len(&self) -> (n: usize)
        ensures
            n == self.cells().len(),
    {
        match self {
            Column::SeqBOOL(v) => v.len(),
            Column::SeqI32(v) => v.len(),
            Column::SeqI64(v) => v.len(),
            Column::SeqF32(v) => v.len(),
            Column::SeqF64(v) => v.len(),
            Column::SeqText(v) => v.len(),
            Column::SeqDateTime(v) => v.len(),
            Column::Nil => 0,
        }
    }

    /// Whether the column has no cell.
    pub fn is_empty(&self) -> (r: bool)
        ensures
            r == (self.cells().len() == 0),
    {
        self.len() == 0
    }

    /// The cell at `idx`, or `Nil` beyond the end.
    pub fn get(&self, idx: usize) -> (r: Ele)
        ensures
            r@ == if idx < self.cells().len() {
                self.cells()[idx as int]
            } else {
                EleView::Nil
            },
    {
        if idx >= self.len() {
            return Ele::Nil;
        }
        match self {
            Column::SeqBOOL(v) => Ele::BOOL(v[idx]),
            Column::SeqI32(v) => Ele::I32(v[idx]),
            Column::SeqI64(v) => Ele::I64(v[idx]),
            Column::SeqF32(v) => Ele::F32(v[idx].clone()),
            Column::SeqF64(v) => Ele::F64(v[idx].clone()),
            Column::SeqText(v) => Ele::Text(v[idx].clone()),
            Column::SeqDateTime(v) => Ele::DataTime(v[idx]),
            Column::Nil => Ele::Nil,
        }
    }
}

/// A query result: named columns.
#[derive(Debug, PartialEq)]
pub struct DataFrame {
    pub names: Vec<String>,
    pub cols: Vec<Column>,
}

impl Clone for DataFrame {
    fn clone(&self) -> (r: Self)
        ensures
            r.names@ == self.names@,
            r.cols@.len() == self.cols@.len(),
            forall|i: int| 0 <= i < r.cols@.len() ==> (#[trigger] r.cols@[i]).cells() == self.cols@[i].cells(),
    {
        DataFrame { names: self.names.clone(), cols: self.cols.clone() }
    }
}

impl DataFrame {
    /// Every column has as many cells as every other.
    pub open spec fn aligned(&self) -> bool {
        forall|i: int, j: int|
            0 <= i < self.cols@.len() && 0 <= j < self.cols@.len() ==> (#[trigger] self.cols@[i].cells()).len()
                == (#[trigger] self.cols@[j].cells()).len()
    }

    /// A frame of the given names and columns.
    pub fn new(names: Vec<String>, cols: Vec<Column>) -> (r: Self)
        ensures
            r.names == names,
            r.cols == cols,
    {
        DataFrame { names, cols }
    }

    /// The number of rows: the length of the longest column.
    pub fn rows(&self) -> (n: usize)
        ensures
            forall|i: int| 0 <= i < self.cols@.len() ==> (#[trigger] self.cols@[i].cells()).len() <= n,
            self.cols@.len() == 0 ==> n == 0,
            self.cols@.len() > 0 ==> exists|i: int|
                0 <= i < self.cols@.len() && (#[trigger] self.cols@[i].cells()).len() == n,
    {
        let mut n: usize = 0;
        let mut i: usize = 0;
        while i < self.cols.len()
            invariant
                i <= self.cols@.len(),
                forall|k: int| 0 <= k < i ==> (#[trigger] self.cols@[k].cells()).len() <= n,
                i == 0 ==> n == 0,
                i > 0 ==> exists|k: int| 0 <= k < i && (#[trigger] self.cols@[k].cells()).len() == n,
            decreases self.cols@.len() - i,
        {
            let m = self.cols[i].len();
            if m > n || i == 0 {
                n = m;
            }
            i += 1;
        }
        n
    }
}

/// A value of the host program as the probe describes it.
#[derive(Clone, Debug, Default, PartialEq, Eq)]
pub struct Value {
    pub id: u64,
    pub class: String,
    pub shape: Option<String>,
    pub dtype: Option<String>,
    pub device: Option<String>,
    pub value: Option<String>,
}

} // verus!
