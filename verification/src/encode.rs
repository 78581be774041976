//! Body and credential encodings.
//!
//! Records are encoded as flat JSON objects or as URL-encoded form pairs,
//! both in field-declaration order.  Basic credentials are encoded in
//! base64 with the standard alphabet and padding.

use vstd::prelude::*;
use crate::value::{
    dec_digits, false_bytes, true_bytes, u64_digits, value_bytes, Field, FieldModel, FieldValue,
    FieldValueModel, Record,
};

verus! {

/// A hexadecimal digit in lower case.
pub open spec fn hex_lower(n: u8) -> u8 {
    if n < 10 {
        (48 + n) as u8
    } else {
        (87 + n) as u8
    }
}

/// A hexadecimal digit in upper case.
pub open spec fn hex_upper(n: u8) -> u8 {
    if n < 10 {
        (48 + n) as u8
    } else {
        (55 + n) as u8
    }
}

/// How one byte is written inside a JSON string: quote and backslash are
/// escaped, control bytes take the `\u00XX` form, all else stands as is.
pub open spec fn json_escape_byte(b: u8) -> Seq<u8> {
    if b == 34 {
        seq![92u8, 34]
    } else if b == 92 {
        seq![92u8, 92]
    } else if b < 32 {
        seq![92u8, 117, 48, 48, hex_lower(b / 16), hex_lower(b % 16)]
    } else {
        seq![b]
    }
}

/// A byte string written inside a JSON string, byte by byte.
pub open spec fn json_escape(s: Seq<u8>) -> Seq<u8>
    decreases s.len(),
{
    if s.len() == 0 {
        Seq::empty()
    } else {
        json_escape_byte(s[0]) + json_escape(s.drop_first())
    }
}

/// A byte string as a quoted JSON string.
pub open spec fn json_string(s: Seq<u8>) -> Seq<u8> {
    seq![34u8] + json_escape(s) + seq![34u8]
}

/// A field value as a JSON value.
pub open spec fn json_value(v: FieldValueModel) -> Seq<u8> {
    match v {
        FieldValueModel::Text(t) => json_string(t),
        FieldValueModel::Unsigned(n) => dec_digits(n as nat),
        FieldValueModel::Boolean(b) => if b {
            true_bytes()
        } else {
            false_bytes()
        },
    }
}

/// One JSON object member: quoted name, colon, value.
pub open spec fn json_member(f: FieldModel) -> Seq<u8> {
    json_string(f.name) + seq![58u8] + json_value(f.value)
}

/// The members of a JSON object, comma-separated, in declaration order.
pub open spec fn json_members(fs: Seq<FieldModel>) -> Seq<u8>
    decreases fs.len(),
{
    if fs.len() == 0 {
        Seq::empty()
    } else if fs.len() == 1 {
        json_member(fs[0])
    } else {
        json_member(fs[0]) + seq![44u8] + json_members(fs.drop_first())
    }
}

/// A record as a flat JSON object.
pub open spec fn json_record(fs: Seq<FieldModel>) -> Seq<u8> {
    seq![123u8] + json_members(fs) + seq![125u8]
}

/// How one byte is written in a URL-encoded form: alphanumerics and
/// `* - . _` stand as is, a space becomes `+`, all else is
/// percent-encoded in upper-case hexadecimal.
pub open spec fn form_escape_byte(b: u8) -> Seq<u8> {
    if (48 <= b <= 57) || (65 <= b <= 90) || (97 <= b <= 122) || b == 42 || b == 45 || b == 46
        || b == 95 {
        seq![b]
    } else if b == 32 {
        seq![43u8]
    } else {
        seq![37u8, hex_upper(b / 16), hex_upper(b % 16)]
    }
}

/// A byte string written URL-encoded, byte by byte.
pub open spec fn form_escape(s: Seq<u8>) -> Seq<u8>
    decreases s.len(),
{
    if s.len() == 0 {
        Seq::empty()
    } else {
        form_escape_byte(s[0]) + form_escape(s.drop_first())
    }
}

/// One form pair: encoded name, equals sign, encoded value in string form.
pub open spec fn form_member(f: FieldModel) -> Seq<u8> {
    form_escape(f.name) + seq![61u8] + form_escape(value_bytes(f.value))
}

/// The pairs of a URL-encoded form, joined by `&`, in declaration order.
pub open spec fn form_record(fs: Seq<FieldModel>) -> Seq<u8>
    decreases fs.len(),
{
    if fs.len() == 0 {
        Seq::empty()
    } else if fs.len() == 1 {
        form_member(fs[0])
    } else {
        form_member(fs[0]) + seq![38u8] + form_record(fs.drop_first())
    }
}

/// The base64 alphabet, for a six-bit group.
pub open spec fn base64_char(n: u8) -> u8 {
    if n < 26 {
        (65 + n) as u8
    } else if n < 52 {
        (71 + n) as u8
    } else if n < 62 {
        (n - 4) as u8
    } else if n == 62 {
        43u8
    } else {
        47u8
    }
}

/// A byte string in base64 with the standard alphabet, `=`-padded.
pub open spec fn base64(s: Seq<u8>) -> Seq<u8>
    decreases s.len(),
{
    if s.len() == 0 {
        Seq::empty()
    } else if s.len() == 1 {
        seq![
            base64_char(s[0] >> 2),
            base64_char((s[0] & 3) << 4),
            61u8,
            61u8,
        ]
    } else if s.len() == 2 {
        seq![
            base64_char(s[0] >> 2),
            base64_char(((s[0] & 3) << 4) | (s[1] >> 4)),
            base64_char((s[1] & 15) << 2),
            61u8,
        ]
    } else {
        seq![
            base64_char(s[0] >> 2),
            base64_char(((s[0] & 3) << 4) | (s[1] >> 4)),
            base64_char(((s[1] & 15) << 2) | (s[2] >> 6)),
            base64_char(s[2] & 63),
        ] + base64(s.skip(3))
    }
}

/// Writes a hexadecimal digit in lower case.
fn hex_lower_digit(n: u8) -> (r: u8)
    requires
        n < 16,
    ensures
        r == hex_lower(n),
{
    if n < 10 {
        48 + n
    } else {
        87 + n
    }
}

/// Writes a hexadecimal digit in upper case.
fn hex_upper_digit(n: u8) -> (r: u8)
    requires
        n < 16,
    ensures
        r == hex_upper(n),
{
    if n < 10 {
        48 + n
    } else {
        55 + n
    }
}

/// Writes the bytes of `s` from position `i` on, JSON-escaped.
fn json_escape_from(s: &Vec<u8>, i: usize) -> (out: Vec<u8>)
    requires
        i <= s.len(),
    ensures
        out@ == json_escape(s@.skip(i as int)),
    decreases s.len() - i,
{
    proof {
        if i < s.len() {
            assert(s@.skip(i as int)[0] == s@[i as int]);
            assert(s@.skip(i as int).drop_first() =~= s@.skip(i as int + 1));
        } else {
            assert(s@.skip(i as int) =~= Seq::<u8>::empty());
        }
    }
    if i >= s.len() {
        Vec::new()
    } else {
        let b = s[i];
        let mut out: Vec<u8> = Vec::new();
        if b == 34 {
            out.push(92);
            out.push(34);
            proof {
                assert(out@ =~= json_escape_byte(b));
            }
        } else if b == 92 {
            out.push(92);
            out.push(92);
            proof {
                assert(out@ =~= json_escape_byte(b));
            }
        } else if b < 32 {
            out.push(92);
            out.push(117);
            out.push(48);
            out.push(48);
            out.push(hex_lower_digit(b / 16));
            out.push(hex_lower_digit(b % 16));
            proof {
                assert(out@ =~= json_escape_byte(b));
            }
        } else {
            out.push(b);
            proof {
                assert(out@ =~= json_escape_byte(b));
            }
        }
        let mut rest = json_escape_from(s, i + 1);
        out.append(&mut rest);
        proof {
            assert(out@ == json_escape_byte(s@[i as int]) + json_escape(s@.skip(i as int + 1)));
        }
        out
    }
}

/// Writes a byte string as a quoted JSON string.
pub fn json_string_bytes(s: &Vec<u8>) -> (out: Vec<u8>)
    ensures
        out@ == json_string(s@),
{
    let mut out: Vec<u8> = Vec::new();
    out.push(34);
    let mut mid = json_escape_from(s, 0);
    proof {
        assert(s@.skip(0) =~= s@);
    }
    out.append(&mut mid);
    out.push(34);
    proof {
        assert(out@ =~= json_string(s@));
    }
    out
}

/// Writes a field value as a JSON value.
pub fn json_value_bytes(v: &FieldValue) -> (out: Vec<u8>)
    ensures
        out@ == json_value(v@),
{
    match v {
        FieldValue::Text(t) => json_string_bytes(t),
        FieldValue::Unsigned(n) => u64_digits(*n),
        FieldValue::Boolean(_) => crate::value::field_value_bytes(v),
    }
}

/// Writes the members of a record from position `i` on.
fn json_members_from(r: &Record, i: usize) -> (out: Vec<u8>)
    requires
        i <= r.fields.len(),
    ensures
        out@ == json_members(r@.skip(i as int)),
    decreases r.fields.len() - i,
{
    proof {
        if i < r.fields.len() {
            assert(r@.skip(i as int)[0] == r@[i as int]);
            assert(r@.skip(i as int).drop_first() =~= r@.skip(i as int + 1));
            assert(r@[i as int] == r.fields@[i as int]@);
        } else {
            assert(r@.skip(i as int) =~= Seq::<FieldModel>::empty());
        }
    }
    if i >= r.fields.len() {
        Vec::new()
    } else {
        let f = &r.fields[i];
        let mut out = json_string_bytes(&f.name);
        out.push(58);
        let mut val = json_value_bytes(&f.value);
        out.append(&mut val);
        proof {
            assert(out@ =~= json_member(r@[i as int]));
        }
        if i + 1 < r.fields.len() {
            out.push(44);
            let mut rest = json_members_from(r, i + 1);
            out.append(&mut rest);
            proof {
                assert(out@ =~= json_member(r@[i as int]) + seq![44u8] + json_members(
                    r@.skip(i as int + 1),
                ));
                assert(r@.skip(i as int).len() != 1);
            }
        } else {
            proof {
                assert(r@.skip(i as int).len() == 1);
            }
        }
        out
    }
}

/// Writes a record as a flat JSON object, fields in declaration order.
pub fn json_encode(r: &Record) -> (out: Vec<u8>)
    ensures
        out@ == json_record(r@),
{
    let mut out: Vec<u8> = Vec::new();
    out.push(123);
    let mut mid = json_members_from(r, 0);
    proof {
        assert(r@.skip(0) =~= r@);
    }
    out.append(&mut mid);
    out.push(125);
    proof {
        assert(out@ =~= json_record(r@));
    }
    out
}

/// Writes the bytes of `s` from position `i` on, URL-encoded.
fn form_escape_from(s: &Vec<u8>, i: usize) -> (out: Vec<u8>)
    requires
        i <= s.len(),
    ensures
        out@ == form_escape(s@.skip(i as int)),
    decreases s.len() - i,
{
    proof {
        if i < s.len() {
            assert(s@.skip(i as int)[0] == s@[i as int]);
            assert(s@.skip(i as int).drop_first() =~= s@.skip(i as int + 1));
        } else {
            assert(s@.skip(i as int) =~= Seq::<u8>::empty());
        }
    }
    if i >= s.len() {
        Vec::new()
    } else {
        let b = s[i];
        let mut out: Vec<u8> = Vec::new();
        if (48 <= b && b <= 57) || (65 <= b && b <= 90) || (97 <= b && b <= 122) || b == 42
            || b == 45 || b == 46 || b == 95 {
            out.push(b);
            proof {
                assert(out@ =~= form_escape_byte(b));
            }
        } else if b == 32 {
            out.push(43);
            proof {
                assert(out@ =~= form_escape_byte(b));
            }
        } else {
            out.push(37);
            out.push(hex_upper_digit(b / 16));
            out.push(hex_upper_digit(b % 16));
            proof {
                assert(out@ =~= form_escape_byte(b));
            }
        }
        let mut rest = form_escape_from(s, i + 1);
        out.append(&mut rest);
        proof {
            assert(out@ == form_escape_byte(s@[i as int]) + form_escape(s@.skip(i as int + 1)));
        }
        out
    }
}

/// Writes the form pairs of a record from position `i` on.
fn form_record_from(r: &Record, i: usize) -> (out: Vec<u8>)
    requires
        i <= r.fields.len(),
    ensures
        out@ == form_record(r@.skip(i as int)),
    decreases r.fields.len() - i,
{
    proof {
        if i < r.fields.len() {
            assert(r@.skip(i as int)[0] == r@[i as int]);
            assert(r@.skip(i as int).drop_first() =~= r@.skip(i as int + 1));
            assert(r@[i as int] == r.fields@[i as int]@);
        } else {
            assert(r@.skip(i as int) =~= Seq::<FieldModel>::empty());
        }
    }
    if i >= r.fields.len() {
        Vec::new()
    } else {
        let f = &r.fields[i];
        let mut out = form_escape_from(&f.name, 0);
        proof {
            assert(f.name@.skip(0) =~= f.name@);
        }
        out.push(61);
        let sval = crate::value::field_value_bytes(&f.value);
        let mut val = form_escape_from(&sval, 0);
        proof {
            assert(sval@.skip(0) =~= sval@);
        }
        out.append(&mut val);
        proof {
            assert(out@ =~= form_member(r@[i as int]));
        }
        if i + 1 < r.fields.len() {
            out.push(38);
            let mut rest = form_record_from(r, i + 1);
            out.append(&mut rest);
            proof {
                assert(out@ =~= form_member(r@[i as int]) + seq![38u8] + form_record(
                    r@.skip(i as int + 1),
                ));
                assert(r@.skip(i as int).len() != 1);
            }
        } else {
            proof {
                assert(r@.skip(i as int).len() == 1);
            }
        }
        out
    }
}

/// Writes a record as a URL-encoded form, pairs in declaration order.
pub fn form_encode(r: &Record) -> (out: Vec<u8>)
    ensures
        out@ == form_record(r@),
{
    let out = form_record_from(r, 0);
    proof {
        assert(r@.skip(0) =~= r@);
    }
    out
}

/// Writes a six-bit group in the base64 alphabet.
fn base64_digit(n: u8) -> (r: u8)
    requires
        n < 64,
    ensures
        r == base64_char(n),
{
    if n < 26 {
        65 + n
    } else if n < 52 {
        71 + n
    } else if n < 62 {
        n - 4
    } else if n == 62 {
        43
    } else {
        47
    }
}

/// Writes the bytes of `s` from position `i` on in base64.
fn base64_from(s: &Vec<u8>, i: usize) -> (out: Vec<u8>)
    requires
        i <= s.len(),
    ensures
        out@ == base64(s@.skip(i as int)),
    decreases s.len() - i,
{
    let remaining = s.len() - i;
    proof {
        assert(s@.skip(i as int).len() == remaining);
        if remaining > 0 {
            assert(s@.skip(i as int)[0] == s@[i as int]);
        }
        if remaining > 1 {
            assert(s@.skip(i as int)[1] == s@[i as int + 1]);
        }
        if remaining > 2 {
            assert(s@.skip(i as int)[2] == s@[i as int + 2]);
        }
    }
    if remaining == 0 {
        proof {
            assert(s@.skip(i as int) =~= Seq::<u8>::empty());
        }
        Vec::new()
    } else if remaining == 1 {
        let b0 = s[i];
        proof {
            assert((b0 >> 2) < 64 && ((b0 & 3) << 4) < 64) by (bit_vector);
        }
        let mut out: Vec<u8> = Vec::new();
        out.push(base64_digit(b0 >> 2));
        out.push(base64_digit((b0 & 3) << 4));
        out.push(61);
        out.push(61);
        proof {
            assert(out@ =~= base64(s@.skip(i as int)));
        }
        out
    } else if remaining == 2 {
        let b0 = s[i];
        let b1 = s[i + 1];
        proof {
            assert((b0 >> 2) < 64 && (((b0 & 3) << 4) | (b1 >> 4)) < 64 && ((b1 & 15) << 2)
                < 64) by (bit_vector);
        }
        let mut out: Vec<u8> = Vec::new();
        out.push(base64_digit(b0 >> 2));
        out.push(base64_digit(((b0 & 3) << 4) | (b1 >> 4)));
        out.push(base64_digit((b1 & 15) << 2));
        out.push(61);
        proof {
            assert(out@ =~= base64(s@.skip(i as int)));
        }
        out
    } else {
        let b0 = s[i];
        let b1 = s[i + 1];
        let b2 = s[i + 2];
        proof {
            assert((b0 >> 2) < 64 && (((b0 & 3) << 4) | (b1 >> 4)) < 64 && (((b1 & 15) << 2) | (
            b2 >> 6)) < 64 && (b2 & 63) < 64) by (bit_vector);
        }
        let mut out: Vec<u8> = Vec::new();
        out.push(base64_digit(b0 >> 2));
        out.push(base64_digit(((b0 & 3) << 4) | (b1 >> 4)));
        out.push(base64_digit(((b1 & 15) << 2) | (b2 >> 6)));
        out.push(base64_digit(b2 & 63));
        let mut rest = base64_from(s, i + 3);
        out.append(&mut rest);
        proof {
            assert(s@.skip(i as int).skip(3) =~= s@.skip(i as int + 3));
            assert(out@ =~= base64(s@.skip(i as int)));
        }
        out
    }
}

/// Writes a byte string in base64 with the standard alphabet and padding.
pub fn base64_encode(s: &Vec<u8>) -> (out: Vec<u8>)
    ensures
        out@ == base64(s@),
{
    let out = base64_from(s, 0);
    proof {
        assert(s@.skip(0) =~= s@);
    }
    out
}

} // verus!
