//! Conversions between native values and `Ele`, and the textual rendering of
//! elements.

use crate::ele::{Ele, EleView, Real32, Real64};
use crate::text::{decimal, decimal_text, signed_decimal, signed_decimal_text};
use vstd::prelude::*;

verus! {

/// Why an element could not be projected to a native type.
#[derive(Clone, Copy, Debug, PartialEq, Eq, Structural)]
pub enum ProtoError {
    /// The variant cannot represent the requested type.
    WrongElementType,
}

/// What chrono writes, as an RFC 3339 date and time in UTC, for the instant
/// `micros` microseconds from the UNIX epoch; `None` where chrono cannot hold
/// that instant.
pub uninterp spec fn rfc3339_utc(micros: i64) -> Option<Seq<char>>;

/// Calls chrono's `DateTime::<Utc>::from_timestamp_micros`, which gives `None`
/// for an instant out of chrono's range and never panics, and on the date it
/// gives chrono's `DateTime::to_rfc3339`. The contract only names the text:
/// the same instant always gives the same text.
#[verifier::external_body]
fn write_rfc3339(micros: i64) -> (r: Option<String>)
    ensures
        r is Some <==> rfc3339_utc(micros) is Some,
        r is Some ==> r->0@ == rfc3339_utc(micros)->0,
{
    match chrono::DateTime::<chrono::Utc>::from_timestamp_micros(micros) {
        Some(date) => Some(date.to_rfc3339()),
        None => None,
    }
}

/// The text of a timestamp, given what the calendar wrote for it: that text,
/// or the decimal count of microseconds where the calendar cannot hold it.
pub open spec fn datetime_text(micros: u64, written: Option<Seq<char>>) -> Seq<char> {
    match written {
        Some(s) => s,
        None => decimal(micros as nat),
    }
}

/// The text of a timestamp of `micros` microseconds since the UNIX epoch.
pub open spec fn datetime_view(micros: u64) -> Seq<char> {
    datetime_text(
        micros,
        if micros <= i64::MAX {
            rfc3339_utc(micros as i64)
        } else {
            None
        },
    )
}

/// The textual rendering of an element.
pub open spec fn lossy_text(e: EleView) -> Seq<char> {
    match e {
        EleView::Nil => "nil"@,
        EleView::Bool(b) => if b {
            "True"@
        } else {
            "False"@
        },
        EleView::I32(x) => signed_decimal(x as int),
        EleView::I64(x) => signed_decimal(x as int),
        EleView::F32(_, t) => t,
        EleView::F64(_, t) => t,
        EleView::Text(s) => s,
        EleView::Url(s) => s,
        EleView::DataTime(t) => datetime_view(t),
    }
}

/// The text of a timestamp, given what the calendar wrote for it.
pub fn datetime_text_from(micros: u64, written: Option<String>) -> (r: String)
    ensures
        r@ == datetime_text(
            micros,
            match written {
                Some(s) => Some(s@),
                None => None,
            },
        ),
{
    match written {
        Some(s) => s,
        None => decimal_text(micros),
    }
}

/// The text of a timestamp of `micros` microseconds since the UNIX epoch: an
/// RFC 3339 date and time in UTC.
pub fn datetime_to_text(micros: u64) -> (r: String)
    ensures
        r@ == datetime_view(micros),
{
    if micros <= 9223372036854775807u64 {
        let written = write_rfc3339(micros as i64);
        datetime_text_from(micros, written)
    } else {
        datetime_text_from(micros, None)
    }
}

impl Ele {
    /// The element as text: `nil`, `True` or `False`, the decimal numeral of
    /// a number, the text of a text or an address, the RFC 3339 date and
    /// time of a timestamp.
    pub fn to_text(&self) -> (r: String)
        ensures
            r@ == lossy_text(self@),
    {
        self.to_string_lossy()
    }
}

/// A total injection of a native value into `Ele`.
pub trait ToEle: Sized {
    /// The element that this value becomes.
    spec fn ele_view(self) -> EleView;

    fn to_ele(self) -> (r: Ele)
        ensures
            r@ == self.ele_view(),
    ;
}

impl ToEle for Ele {
    open spec fn ele_view(self) -> EleView {
        self@
    }

    fn to_ele(self) -> (r: Ele) {
        self
    }
}

impl ToEle for bool {
    open spec fn ele_view(self) -> EleView {
        EleView::Bool(self)
    }

    fn to_ele(self) -> (r: Ele) {
        Ele::BOOL(self)
    }
}

impl ToEle for i32 {
    open spec fn ele_view(self) -> EleView {
        EleView::I32(self)
    }

    fn to_ele(self) -> (r: Ele) {
        Ele::I32(self)
    }
}

impl ToEle for i64 {
    open spec fn ele_view(self) -> EleView {
        EleView::I64(self)
    }

    fn to_ele(self) -> (r: Ele) {
        Ele::I64(self)
    }
}

impl ToEle for Real32 {
    open spec fn ele_view(self) -> EleView {
        EleView::F32(self.bits, self.text@)
    }

    fn to_ele(self) -> (r: Ele) {
        Ele::F32(self)
    }
}

impl ToEle for Real64 {
    open spec fn ele_view(self) -> EleView {
        EleView::F64(self.bits, self.text@)
    }

    fn to_ele(self) -> (r: Ele) {
        Ele::F64(self)
    }
}

impl ToEle for String {
    open spec fn ele_view(self) -> EleView {
        EleView::Text(self@)
    }

    fn to_ele(self) -> (r: Ele) {
        Ele::Text(self)
    }
}

impl<'a> ToEle for &'a str {
    open spec fn ele_view(self) -> EleView {
        EleView::Text(self@)
    }

    fn to_ele(self) -> (r: Ele) {
        Ele::Text(self.to_owned())
    }
}

/// A partial projection of `Ele` to a native type.
pub trait FromEle: Sized {
    /// Whether `r` is what projecting `e` gives.
    spec fn projects(e: EleView, r: Result<Self, ProtoError>) -> bool;

    fn from_ele(ele: &Ele) -> (r: Result<Self, ProtoError>)
        ensures
            Self::projects(ele@, r),
    ;
}

impl FromEle for String {
    open spec fn projects(e: EleView, r: Result<Self, ProtoError>) -> bool {
        r is Ok && r->Ok_0@ == lossy_text(e)
    }

    fn from_ele(ele: &Ele) -> (r: Result<Self, ProtoError>) {
        Ok(
            match ele {
                Ele::Text(s) => s.clone(),
                Ele::Url(s) => s.clone(),
                Ele::BOOL(b) => if *b {
                    "True".to_owned()
                } else {
                    "False".to_owned()
                },
                Ele::I32(i) => signed_decimal_text(*i as i64),
                Ele::I64(i) => signed_decimal_text(*i),
                Ele::F32(x) => x.text.clone(),
                Ele::F64(x) => x.text.clone(),
                Ele::DataTime(t) => datetime_to_text(*t),
                Ele::Nil => "nil".to_owned(),
            },
        )
    }
}

impl FromEle for i32 {
    open spec fn projects(e: EleView, r: Result<Self, ProtoError>) -> bool {
        match e {
            EleView::I32(x) => r == Ok::<i32, ProtoError>(x),
            EleView::I64(x) => if i32::MIN <= x <= i32::MAX {
                r == Ok::<i32, ProtoError>(x as i32)
            } else {
                r == Err::<i32, ProtoError>(ProtoError::WrongElementType)
            },
            _ => r == Err::<i32, ProtoError>(ProtoError::WrongElementType),
        }
    }

    fn from_ele(ele: &Ele) -> (r: Result<Self, ProtoError>) {
        match ele {
            Ele::I32(x) => Ok(*x),
            Ele::I64(x) => {
                if *x >= -2147483648i64 && *x <= 2147483647i64 {
                    Ok(*x as i32)
                } else {
                    Err(ProtoError::WrongElementType)
                }
            },
            _ => Err(ProtoError::WrongElementType),
        }
    }
}

impl FromEle for i64 {
    open spec fn projects(e: EleView, r: Result<Self, ProtoError>) -> bool {
        match e {
            EleView::I32(x) => r == Ok::<i64, ProtoError>(x as i64),
            EleView::I64(x) => r == Ok::<i64, ProtoError>(x),
            _ => r == Err::<i64, ProtoError>(ProtoError::WrongElementType),
        }
    }

    fn from_ele(ele: &Ele) -> (r: Result<Self, ProtoError>) {
        match ele {
            Ele::I32(x) => Ok(*x as i64),
            Ele::I64(x) => Ok(*x),
            _ => Err(ProtoError::WrongElementType),
        }
    }
}

impl FromEle for bool {
    open spec fn projects(e: EleView, r: Result<Self, ProtoError>) -> bool {
        match e {
            EleView::Bool(b) => r == Ok::<bool, ProtoError>(b),
            _ => r == Err::<bool, ProtoError>(ProtoError::WrongElementType),
        }
    }

    fn from_ele(ele: &Ele) -> (r: Result<Self, ProtoError>) {
        match ele {
            Ele::BOOL(b) => Ok(*b),
            _ => Err(ProtoError::WrongElementType),
        }
    }
}

impl FromEle for Option<String> {
    open spec fn projects(e: EleView, r: Result<Self, ProtoError>) -> bool {
        &&& r is Ok
        &&& e is Nil ==> r->Ok_0 is None
        &&& !(e is Nil) ==> r->Ok_0 is Some && r->Ok_0->0@ == lossy_text(e)
    }

    fn from_ele(ele: &Ele) -> (r: Result<Self, ProtoError>) {
        match ele {
            Ele::Nil => Ok(None),
            _ => {
                let s = String::from_ele(ele);
                match s {
                    Ok(text) => Ok(Some(text)),
                    Err(e) => Err(e),
                }
            },
        }
    }
}

/// Widening always succeeds, narrowing exactly within range: a 64-bit
/// element projects to itself as a 64-bit number, and to a 32-bit number
/// exactly when it lies in the range of 32 bits; a 32-bit element projects
/// to both.
pub proof fn law_narrowing(x: i64, y: i32, r64: Result<i64, ProtoError>, r32: Result<i32, ProtoError>)
    ensures
        <i64 as FromEle>::projects(EleView::I64(x), r64) <==> r64 == Ok::<i64, ProtoError>(x),
        <i64 as FromEle>::projects(EleView::I32(y), r64) <==> r64 == Ok::<i64, ProtoError>(y as i64),
        <i32 as FromEle>::projects(EleView::I32(y), r32) <==> r32 == Ok::<i32, ProtoError>(y),
        <i32 as FromEle>::projects(EleView::I64(x), r32) ==> (r32 is Ok <==> i32::MIN <= x <= i32::MAX),
        <i32 as FromEle>::projects(EleView::I64(x), r32) && r32 is Ok ==> r32->Ok_0 == x,
        <i32 as FromEle>::projects(EleView::I64(x), r32) && r32 is Err ==> r32->Err_0
            == ProtoError::WrongElementType,
        x == i32::MAX + 1 && <i32 as FromEle>::projects(EleView::I64(x), r32) ==> r32 is Err,
{
}

/// Convenient readings of an element.
pub trait EleExt: View<V = EleView> {
    /// The element as text, whatever its variant.
    fn to_string_lossy(&self) -> (r: String)
        ensures
            r@ == lossy_text(self@),
    ;

    /// The element projected to `T`.
    fn try_into<T: FromEle>(&self) -> (r: Result<T, ProtoError>)
        ensures
            T::projects(self@, r),
    ;

    /// The text of a `Text` or `Url` element.
    fn as_str(&self) -> (r: Option<&str>)
        ensures
            match self@ {
                EleView::Text(s) => r is Some && r->0@ == s,
                EleView::Url(s) => r is Some && r->0@ == s,
                _ => r is None,
            },
    ;

    /// The number of an integer element.
    fn as_i64(&self) -> (r: Option<i64>)
        ensures
            match self@ {
                EleView::I32(x) => r == Some(x as i64),
                EleView::I64(x) => r == Some(x),
                _ => r is None,
            },
    ;

    /// The truth value of a boolean element.
    fn as_bool(&self) -> (r: Option<bool>)
        ensures
            match self@ {
                EleView::Bool(b) => r == Some(b),
                _ => r is None,
            },
    ;
}

impl EleExt for Ele {
    fn to_string_lossy(&self) -> (r: String) {
        match String::from_ele(self) {
            Ok(s) => s,
            Err(_) => String::new(),
        }
    }

    fn try_into<T: FromEle>(&self) -> (r: Result<T, ProtoError>) {
        T::from_ele(self)
    }

    fn as_str(&self) -> (r: Option<&str>) {
        match self {
            Ele::Text(s) => Some(s.as_str()),
            Ele::Url(s) => Some(s.as_str()),
            _ => None,
        }
    }

    fn as_i64(&self) -> (r: Option<i64>) {
        match self {
            Ele::I32(x) => Some(*x as i64),
            Ele::I64(x) => Some(*x),
            _ => None,
        }
    }

    fn as_bool(&self) -> (r: Option<bool>) {
        match self {
            Ele::BOOL(b) => Some(*b),
            _ => None,
        }
    }
}

} // verus!
