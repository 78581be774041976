//! The plain values a request body is made of.
//!
//! A body is a record: named fields in declaration order, each holding a
//! byte string, an unsigned integer or a truth value.  Field values also
//! have a string form, used when a URL or header placeholder names a body
//! field.

use vstd::prelude::*;

verus! {

/// One plain field value.
#[derive(Debug, Clone, PartialEq, Eq)]
pub enum FieldValue {
    /// A byte string.
    Text(Vec<u8>),
    /// An unsigned integer.
    Unsigned(u64),
    /// A truth value.
    Boolean(bool),
}

/// The mathematical model of a [`FieldValue`].
#[verifier::ext_equal]
pub enum FieldValueModel {
    /// A byte string.
    Text(Seq<u8>),
    /// An unsigned integer.
    Unsigned(u64),
    /// A truth value.
    Boolean(bool),
}

impl View for FieldValue {
    type V = FieldValueModel;

    open spec fn view(&self) -> FieldValueModel {
        match self {
            FieldValue::Text(t) => FieldValueModel::Text(t@),
            FieldValue::Unsigned(n) => FieldValueModel::Unsigned(*n),
            FieldValue::Boolean(b) => FieldValueModel::Boolean(*b),
        }
    }
}

/// One named field of a record.
#[derive(Debug, Clone, PartialEq, Eq)]
pub struct Field {
    /// The field's name.
    pub name: Vec<u8>,
    /// The field's value.
    pub value: FieldValue,
}

/// The mathematical model of a [`Field`].
#[verifier::ext_equal]
pub struct FieldModel {
    /// The field's name.
    pub name: Seq<u8>,
    /// The field's value.
    pub value: FieldValueModel,
}

impl View for Field {
    type V = FieldModel;

    open spec fn view(&self) -> FieldModel {
        FieldModel { name: self.name@, value: self.value@ }
    }
}

/// A record: named fields in declaration order.
#[derive(Debug, Clone, PartialEq, Eq)]
pub struct Record {
    /// The fields, in declaration order.
    pub fields: Vec<Field>,
}

impl View for Record {
    type V = Seq<FieldModel>;

    open spec fn view(&self) -> Seq<FieldModel> {
        self.fields@.map_values(|f: Field| f@)
    }
}

/// The decimal digits of `n`, most significant first, no leading zero.
pub open spec fn dec_digits(n: nat) -> Seq<u8>
    decreases n,
{
    if n < 10 {
        Seq::empty().push((48 + n) as u8)
    } else {
        dec_digits(n / 10).push((48 + n % 10) as u8)
    }
}

/// Every byte written by `dec_digits` is a decimal digit.
pub proof fn lemma_dec_digits_decimal(n: nat)
    ensures
        forall|i: int| 0 <= i < dec_digits(n).len() ==> 48 <= #[trigger] dec_digits(n)[i] <= 57,
    decreases n,
{
    if n >= 10 {
        lemma_dec_digits_decimal(n / 10);
        let whole = dec_digits(n);
        let pre = dec_digits(n / 10);
        assert forall|i: int| 0 <= i < whole.len() implies 48 <= #[trigger] whole[i] <= 57 by {
            if i < pre.len() {
                assert(whole[i] == pre[i]);
            }
        }
    }
}

/// The bytes of the word `true`.
pub open spec fn true_bytes() -> Seq<u8> {
    seq![116u8, 114, 117, 101]
}

/// The bytes of the word `false`.
pub open spec fn false_bytes() -> Seq<u8> {
    seq![102u8, 97, 108, 115, 101]
}

/// The string form of a field value: text as it stands, integers in
/// decimal, truth values as `true` or `false`.
pub open spec fn value_bytes(v: FieldValueModel) -> Seq<u8> {
    match v {
        FieldValueModel::Text(t) => t,
        FieldValueModel::Unsigned(n) => dec_digits(n as nat),
        FieldValueModel::Boolean(b) => if b {
            true_bytes()
        } else {
            false_bytes()
        },
    }
}

/// Writes `n` in decimal.
pub fn u64_digits(n: u64) -> (r: Vec<u8>)
    ensures
        r@ == dec_digits(n as nat),
    decreases n,
{
    if n < 10 {
        let mut v: Vec<u8> = Vec::new();
        v.push(48 + n as u8);
        proof {
            assert(v@ =~= dec_digits(n as nat));
        }
        v
    } else {
        proof {
            assert(n as nat / 10 < n as nat) by (nonlinear_arith)
                requires n >= 10;
        }
        let mut v = u64_digits(n / 10);
        v.push(48 + (n % 10) as u8);
        proof {
            assert(v@ =~= dec_digits(n as nat));
        }
        v
    }
}

/// Writes a field value in its string form.
pub fn field_value_bytes(v: &FieldValue) -> (r: Vec<u8>)
    ensures
        r@ == value_bytes(v@),
{
    match v {
        FieldValue::Text(t) => t.clone(),
        FieldValue::Unsigned(n) => u64_digits(*n),
        FieldValue::Boolean(b) => {
            let mut out: Vec<u8> = Vec::new();
            if *b {
                out.push(116);
                out.push(114);
                out.push(117);
                out.push(101);
                proof {
                    assert(out@ =~= true_bytes());
                }
            } else {
                out.push(102);
                out.push(97);
                out.push(108);
                out.push(115);
                out.push(101);
                proof {
                    assert(out@ =~= false_bytes());
                }
            }
            out
        },
    }
}

} // verus!
