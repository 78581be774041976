//! Decoding a response body as a flat record.
//!
//! The decoder accepts exactly the canonical flat-object encodings that
//! [`crate::encode::json_record`] produces: a candidate record is read by
//! recursive descent and then held against the input by re-encoding it;
//! only a byte-for-byte match is returned.  So whatever the decoder
//! returns encodes back, byte for byte, to the input.

use vstd::prelude::*;
use crate::encode::{json_record, json_encode};
use crate::template::eq_bytes;
use crate::value::{Field, FieldModel, FieldValue, FieldValueModel, Record};

verus! {

/// The value of one hexadecimal digit, either case.
pub open spec fn spec_hex(b: u8) -> Option<u8> {
    if 48 <= b <= 57 {
        Some((b - 48) as u8)
    } else if 97 <= b <= 102 {
        Some((b - 87) as u8)
    } else if 65 <= b <= 70 {
        Some((b - 55) as u8)
    } else {
        None
    }
}

/// What the grammar reads as a string body from `i` (just after the
/// opening quote): the unescaped content and the position after the
/// closing quote, or `None` where the grammar rejects.
pub open spec fn spec_read_string(s: Seq<u8>, i: int) -> Option<(Seq<u8>, int)>
    decreases s.len() - i,
{
    if i < 0 || i >= s.len() {
        None
    } else if s[i] == 34 {
        Some((Seq::empty(), i + 1))
    } else if s[i] == 92 {
        if i + 1 >= s.len() {
            None
        } else if s[i + 1] == 34 || s[i + 1] == 92 {
            match spec_read_string(s, i + 2) {
                Option::Some(p) => Some((Seq::empty().push(s[i + 1]) + p.0, p.1)),
                Option::None => None,
            }
        } else if s[i + 1] == 117 {
            if i + 6 > s.len() {
                None
            } else {
                match (spec_hex(s[i + 2]), spec_hex(s[i + 3]), spec_hex(s[i + 4]), spec_hex(
                    s[i + 5],
                )) {
                    (
                        Option::Some(h0),
                        Option::Some(h1),
                        Option::Some(h2),
                        Option::Some(h3),
                    ) => if h0 != 0 || h1 != 0 {
                        None
                    } else {
                        match spec_read_string(s, i + 6) {
                            Option::Some(p) => Some(
                                (Seq::empty().push((h2 * 16 + h3) as u8) + p.0, p.1),
                            ),
                            Option::None => None,
                        }
                    },
                    _ => None,
                }
            }
        } else {
            None
        }
    } else if s[i] < 32 {
        None
    } else {
        match spec_read_string(s, i + 1) {
            Option::Some(p) => Some((Seq::empty().push(s[i]) + p.0, p.1)),
            Option::None => None,
        }
    }
}

/// A read string ends strictly after where it began, within the input.
pub proof fn lemma_read_string_bounds(s: Seq<u8>, i: int)
    requires
        spec_read_string(s, i) is Some,
    ensures
        i < spec_read_string(s, i).unwrap().1 <= s.len(),
    decreases s.len() - i,
{
    if i < 0 || i >= s.len() {
    } else if s[i] == 34 {
    } else if s[i] == 92 {
        if s[i + 1] == 34 || s[i + 1] == 92 {
            lemma_read_string_bounds(s, i + 2);
        } else if s[i + 1] == 117 {
            lemma_read_string_bounds(s, i + 6);
        }
    } else {
        lemma_read_string_bounds(s, i + 1);
    }
}

/// What the grammar reads as an unsigned number continuing from `i` with
/// the digits already read worth `acc`: `None` where the value passes the
/// largest representable one.
pub open spec fn spec_read_number(s: Seq<u8>, i: int, acc: nat) -> Option<(u64, int)>
    decreases s.len() - i,
{
    if 0 <= i < s.len() && 48 <= s[i] <= 57 {
        let acc2: nat = (acc * 10 + (s[i] - 48)) as nat;
        if acc2 > u64::MAX {
            None
        } else {
            spec_read_number(s, i + 1, acc2)
        }
    } else {
        Some((acc as u64, i))
    }
}

/// A read number never ends before where it began, within the input.
pub proof fn lemma_read_number_bounds(s: Seq<u8>, i: int, acc: nat)
    requires
        0 <= i <= s.len(),
        spec_read_number(s, i, acc) is Some,
    ensures
        i <= spec_read_number(s, i, acc).unwrap().1 <= s.len(),
    decreases s.len() - i,
{
    if 0 <= i < s.len() && 48 <= s[i] <= 57 {
        let acc2: nat = (acc * 10 + (s[i] - 48)) as nat;
        if acc2 <= u64::MAX {
            lemma_read_number_bounds(s, i + 1, acc2);
        }
    }
}

/// What the grammar reads as one JSON value from `i`: a string, an
/// unsigned number, `true` or `false`, and the position after it.
pub open spec fn spec_read_value(s: Seq<u8>, i: int) -> Option<(FieldValueModel, int)> {
    if i < 0 || i >= s.len() {
        None
    } else if s[i] == 34 {
        match spec_read_string(s, i + 1) {
            Option::Some(p) => Some((FieldValueModel::Text(p.0), p.1)),
            Option::None => None,
        }
    } else if s[i] == 116 {
        if i + 4 <= s.len() && s[i + 1] == 114 && s[i + 2] == 117 && s[i + 3] == 101 {
            Some((FieldValueModel::Boolean(true), i + 4))
        } else {
            None
        }
    } else if s[i] == 102 {
        if i + 5 <= s.len() && s[i + 1] == 97 && s[i + 2] == 108 && s[i + 3] == 115 && s[i + 4]
            == 101 {
            Some((FieldValueModel::Boolean(false), i + 5))
        } else {
            None
        }
    } else if 48 <= s[i] <= 57 {
        match spec_read_number(s, i, 0) {
            Option::Some(p) => Some((FieldValueModel::Unsigned(p.0), p.1)),
            Option::None => None,
        }
    } else {
        None
    }
}

/// A read value ends strictly after where it began, within the input.
pub proof fn lemma_read_value_bounds(s: Seq<u8>, i: int)
    requires
        spec_read_value(s, i) is Some,
    ensures
        i < spec_read_value(s, i).unwrap().1 <= s.len(),
{
    if 0 <= i < s.len() {
        if s[i] == 34 {
            lemma_read_string_bounds(s, i + 1);
        } else if 48 <= s[i] <= 57 && !(s[i] == 116 || s[i] == 102) {
            let acc2: nat = (0 * 10 + (s[i] - 48)) as nat;
            if acc2 <= u64::MAX {
                lemma_read_number_bounds(s, i + 1, acc2);
            }
        }
    }
}

/// What the grammar reads as the members of an object from `i` (at the
/// first member's opening quote) up to, but not including, the closing
/// brace: names, colons, values, comma-separated.
pub open spec fn spec_read_members(s: Seq<u8>, i: int) -> Option<(Seq<FieldModel>, int)>
    decreases s.len() - i,
{
    if i < 0 || i >= s.len() || s[i] != 34 {
        None
    } else {
        match spec_read_string(s, i + 1) {
            Option::None => None,
            Option::Some((name, j)) => if !(j < s.len() && s[j] == 58) {
                None
            } else {
                match spec_read_value(s, j + 1) {
                    Option::None => None,
                    Option::Some((value, m)) => {
                        proof {
                            lemma_read_string_bounds(s, i + 1);
                            lemma_read_value_bounds(s, j + 1);
                        }
                        let field = FieldModel { name, value };
                        if m < s.len() && s[m] == 44 {
                            match spec_read_members(s, m + 1) {
                                Option::Some(p) => Some(
                                    (Seq::empty().push(field) + p.0, p.1),
                                ),
                                Option::None => None,
                            }
                        } else {
                            Some((Seq::empty().push(field), m))
                        }
                    },
                }
            },
        }
    }
}

/// The record the grammar assigns to a whole body: a flat object whose
/// members fill the input exactly.
pub open spec fn spec_read_record(s: Seq<u8>) -> Option<Seq<FieldModel>> {
    if s.len() < 2 || s[0] != 123 {
        None
    } else if s.len() == 2 && s[1] == 125 {
        Some(Seq::empty())
    } else {
        match spec_read_members(s, 1) {
            Option::Some((fields, e)) => if e == s.len() - 1 && s[e] == 125 {
                Some(fields)
            } else {
                None
            },
            Option::None => None,
        }
    }
}

/// The decoder accepts an input exactly where the grammar reads a record
/// from it and that record's canonical encoding is the input itself.
pub open spec fn json_parse_spec(s: Seq<u8>) -> Option<Seq<FieldModel>> {
    match spec_read_record(s) {
        Option::Some(fields) => if json_record(fields) == s {
            Some(fields)
        } else {
            None
        },
        Option::None => None,
    }
}

/// Prepends already-read content to the outcome of reading the rest of
/// a string.
pub open spec fn prepend_read(pre: Seq<u8>, rest: Option<(Seq<u8>, int)>) -> Option<
    (Seq<u8>, int),
> {
    match rest {
        Option::Some(p) => Some((pre + p.0, p.1)),
        Option::None => None,
    }
}

/// Prepends already-read members to the outcome of reading the rest.
pub open spec fn prepend_fields(
    pre: Seq<FieldModel>,
    rest: Option<(Seq<FieldModel>, int)>,
) -> Option<(Seq<FieldModel>, int)> {
    match rest {
        Option::Some(p) => Some((pre + p.0, p.1)),
        Option::None => None,
    }
}

/// Reads the value of one hexadecimal digit.
fn hex_nibble(b: u8) -> (r: Option<u8>)
    ensures
        r == spec_hex(b),
        r matches Some(v) ==> v < 16,
{
    if 48 <= b && b <= 57 {
        Some(b - 48)
    } else if 97 <= b && b <= 102 {
        Some(b - 87)
    } else if 65 <= b && b <= 70 {
        Some(b - 55)
    } else {
        None
    }
}

/// Reads a JSON string body from `i` (just after the opening quote) to
/// its closing quote.  Returns the unescaped content and the position
/// after the closing quote.
fn read_string(s: &Vec<u8>, i: usize) -> (r: Option<(Vec<u8>, usize)>)
    requires
        i <= s.len(),
    ensures
        match r {
            Option::Some(p) => i < p.1 <= s.len() && spec_read_string(s@, i as int) == Some(
                (p.0@, p.1 as int),
            ),
            Option::None => spec_read_string(s@, i as int) is None,
        },
{
    let mut content: Vec<u8> = Vec::new();
    proof {
        match spec_read_string(s@, i as int) {
            Option::Some(p) => {
                assert(Seq::<u8>::empty() + p.0 =~= p.0);
            },
            Option::None => {},
        }
        if spec_read_string(s@, i as int) is Some {
            lemma_read_string_bounds(s@, i as int);
        }
    }
    let mut idx: usize = i;
    while idx < s.len()
        invariant
            i <= idx <= s.len(),
            prepend_read(content@, spec_read_string(s@, idx as int)) == spec_read_string(
                s@,
                i as int,
            ),
        decreases s.len() - idx,
    {
        let ghost pre = content@;
        let b = s[idx];
        if b == 34 {
            proof {
                assert(pre + Seq::<u8>::empty() =~= pre);
                lemma_read_string_bounds(s@, i as int);
            }
            return Some((content, idx + 1));
        } else if b == 92 {
            if idx + 1 >= s.len() {
                return None;
            }
            let esc = s[idx + 1];
            if esc == 34 || esc == 92 {
                content.push(esc);
                proof {
                    match spec_read_string(s@, idx as int + 2) {
                        Option::Some(p) => {
                            assert(pre.push(esc) + p.0 =~= pre + (Seq::empty().push(esc)
                                + p.0));
                        },
                        Option::None => {},
                    }
                }
                idx = idx + 2;
            } else if esc == 117 {
                if s.len() - idx < 6 {
                    return None;
                }
                let h0 = match hex_nibble(s[idx + 2]) {
                    Option::Some(v) => v,
                    Option::None => {
                        return None;
                    },
                };
                let h1 = match hex_nibble(s[idx + 3]) {
                    Option::Some(v) => v,
                    Option::None => {
                        return None;
                    },
                };
                let h2 = match hex_nibble(s[idx + 4]) {
                    Option::Some(v) => v,
                    Option::None => {
                        return None;
                    },
                };
                let h3 = match hex_nibble(s[idx + 5]) {
                    Option::Some(v) => v,
                    Option::None => {
                        return None;
                    },
                };
                if h0 != 0 || h1 != 0 {
                    return None;
                }
                content.push(h2 * 16 + h3);
                proof {
                    match spec_read_string(s@, idx as int + 6) {
                        Option::Some(p) => {
                            assert(pre.push((h2 * 16 + h3) as u8) + p.0 =~= pre + (Seq::empty().push(
                                (h2 * 16 + h3) as u8,
                            ) + p.0));
                        },
                        Option::None => {},
                    }
                }
                idx = idx + 6;
            } else {
                return None;
            }
        } else if b < 32 {
            return None;
        } else {
            content.push(b);
            proof {
                match spec_read_string(s@, idx as int + 1) {
                    Option::Some(p) => {
                        assert(pre.push(b) + p.0 =~= pre + (Seq::empty().push(b) + p.0));
                    },
                    Option::None => {},
                }
            }
            idx = idx + 1;
        }
    }
    None
}

/// Reads one JSON value (string, unsigned number, `true` or `false`)
/// from `i`.  Returns the value and the position after it.
fn read_value(s: &Vec<u8>, i: usize) -> (r: Option<(FieldValue, usize)>)
    requires
        i <= s.len(),
    ensures
        match r {
            Option::Some(p) => i < p.1 <= s.len() && spec_read_value(s@, i as int) == Some(
                (p.0@, p.1 as int),
            ),
            Option::None => spec_read_value(s@, i as int) is None,
        },
{
    if i >= s.len() {
        return None;
    }
    let b = s[i];
    if b == 34 {
        match read_string(s, i + 1) {
            Option::Some((content, j)) => Some((FieldValue::Text(content), j)),
            Option::None => None,
        }
    } else if b == 116 {
        if s.len() - i >= 4 && s[i + 1] == 114 && s[i + 2] == 117 && s[i + 3] == 101 {
            Some((FieldValue::Boolean(true), i + 4))
        } else {
            None
        }
    } else if b == 102 {
        if s.len() - i >= 5 && s[i + 1] == 97 && s[i + 2] == 108 && s[i + 3] == 115 && s[i
            + 4] == 101 {
            Some((FieldValue::Boolean(false), i + 5))
        } else {
            None
        }
    } else if 48 <= b && b <= 57 {
        let mut acc: u128 = 0;
        let mut idx: usize = i;
        while idx < s.len() && 48 <= s[idx] && s[idx] <= 57
            invariant
                i <= idx <= s.len(),
                acc <= u64::MAX as u128,
                spec_read_number(s@, i as int, 0) == spec_read_number(
                    s@,
                    idx as int,
                    acc as nat,
                ),
            decreases s.len() - idx,
        {
            acc = acc * 10 + ((s[idx] - 48) as u128);
            if acc > u64::MAX as u128 {
                return None;
            }
            idx = idx + 1;
        }
        proof {
            if spec_read_number(s@, i as int, 0) is Some {
                lemma_read_number_bounds(s@, i as int, 0);
                let acc2: nat = (0 * 10 + (s@[i as int] - 48)) as nat;
                if acc2 <= u64::MAX {
                    lemma_read_number_bounds(s@, i as int + 1, acc2);
                }
            }
        }
        Some((FieldValue::Unsigned(acc as u64), idx))
    } else {
        None
    }
}

/// Reads the members of a JSON object from `i` (at the first member's
/// opening quote) up to, but not including, the closing brace.
fn read_members(s: &Vec<u8>, i: usize) -> (r: Option<(Vec<Field>, usize)>)
    requires
        i <= s.len(),
    ensures
        match r {
            Option::Some(p) => i < p.1 <= s.len() && spec_read_members(s@, i as int) == Some(
                (p.0@.map_values(|f: Field| f@), p.1 as int),
            ),
            Option::None => spec_read_members(s@, i as int) is None,
        },
{
    let mut fields: Vec<Field> = Vec::new();
    proof {
        match spec_read_members(s@, i as int) {
            Option::Some(p) => {
                assert(Seq::<FieldModel>::empty() + p.0 =~= p.0);
            },
            Option::None => {},
        }
        assert(fields@.map_values(|f: Field| f@) =~= Seq::<FieldModel>::empty());
    }
    let mut idx: usize = i;
    loop
        invariant
            i <= idx <= s.len(),
            prepend_fields(
                fields@.map_values(|f: Field| f@),
                spec_read_members(s@, idx as int),
            ) == spec_read_members(s@, i as int),
        decreases s.len() - idx,
    {
        let ghost pre = fields@.map_values(|f: Field| f@);
        if idx >= s.len() || s[idx] != 34 {
            return None;
        }
        let (name, j) = match read_string(s, idx + 1) {
            Option::Some(p) => p,
            Option::None => {
                return None;
            },
        };
        if j >= s.len() || s[j] != 58 {
            return None;
        }
        let (value, m) = match read_value(s, j + 1) {
            Option::Some(p) => p,
            Option::None => {
                return None;
            },
        };
        let ghost fm = FieldModel { name: name@, value: value@ };
        fields.push(Field { name, value });
        proof {
            assert(fields@.map_values(|f: Field| f@) =~= pre.push(fm));
        }
        if m < s.len() && s[m] == 44 {
            proof {
                match spec_read_members(s@, m as int + 1) {
                    Option::Some(p) => {
                        assert(pre.push(fm) + p.0 =~= pre + (Seq::empty().push(fm) + p.0));
                    },
                    Option::None => {},
                }
            }
            idx = m + 1;
        } else {
            proof {
                assert(spec_read_members(s@, idx as int) == Some(
                    (Seq::empty().push(fm), m as int),
                ));
                assert(pre + Seq::empty().push(fm) =~= pre.push(fm));
            }
            return Some((fields, m));
        }
    }
}

/// Decodes a flat JSON object into a record of plain values.  Accepts
/// exactly the canonical encodings: whatever is returned re-encodes,
/// byte for byte, to the input.
pub fn json_parse(s: &Vec<u8>) -> (r: Option<Record>)
    ensures
        match r {
            Option::Some(rec) => json_parse_spec(s@) == Some(rec@) && json_record(rec@)
                == s@,
            Option::None => json_parse_spec(s@) is None,
        },
{
    if s.len() < 2 || s[0] != 123 {
        return None;
    }
    let candidate: Record;
    if s.len() == 2 && s[1] == 125 {
        candidate = Record { fields: Vec::new() };
        proof {
            assert(candidate@ =~= Seq::<FieldModel>::empty());
        }
    } else {
        let (fields, e) = match read_members(s, 1) {
            Option::Some(p) => p,
            Option::None => {
                return None;
            },
        };
        if e != s.len() - 1 || s[e] != 125 {
            return None;
        }
        candidate = Record { fields };
    }
    let encoded = json_encode(&candidate);
    proof {
        assert(spec_read_record(s@) == Some(candidate@));
    }
    if eq_bytes(&encoded, s) {
        Some(candidate)
    } else {
        None
    }
}


/// The value of a run of decimal digit bytes appended to digits already
/// worth `acc`, read left to right.
pub open spec fn digits_value(digits: Seq<u8>, acc: nat) -> nat
    decreases digits.len(),
{
    if digits.len() == 0 {
        acc
    } else {
        digits_value(digits.drop_first(), (acc * 10 + (digits[0] - 48)) as nat)
    }
}

/// Appending one digit multiplies the value by ten and adds the digit.
proof fn lemma_digits_value_push(digits: Seq<u8>, d: u8, acc: nat)
    requires
        48 <= d <= 57,
        forall|k: int| 0 <= k < digits.len() ==> 48 <= #[trigger] digits[k] <= 57,
    ensures
        digits_value(digits.push(d), acc) == digits_value(digits, acc) * 10 + (d - 48),
    decreases digits.len(),
{
    if digits.len() == 0 {
        assert(digits.push(d)[0] == d);
        assert(digits.push(d).drop_first() =~= Seq::<u8>::empty());
        let acc2: nat = (acc * 10 + (d - 48)) as nat;
        assert(digits_value(digits.push(d), acc) == digits_value(Seq::<u8>::empty(), acc2));
        assert(digits_value(Seq::<u8>::empty(), acc2) == acc2);
        assert(acc2 == acc * 10 + (d - 48));
    } else {
        let acc2: nat = (acc * 10 + (digits[0] - 48)) as nat;
        assert(digits.push(d)[0] == digits[0]);
        assert(digits.push(d).drop_first() =~= digits.drop_first().push(d));
        lemma_digits_value_push(digits.drop_first(), d, acc2);
        assert(digits_value(digits.push(d), acc) == digits_value(
            digits.drop_first().push(d),
            acc2,
        ));
        assert(digits_value(digits, acc) == digits_value(digits.drop_first(), acc2));
    }
}

/// The decimal digits of `n` read back left to right are worth `n`.
proof fn lemma_digits_value_of(n: nat)
    ensures
        digits_value(crate::value::dec_digits(n), 0) == n,
    decreases n,
{
    crate::value::lemma_dec_digits_decimal(n);
    if n < 10 {
        let ds = crate::value::dec_digits(n);
        assert(ds[0] == (48 + n) as u8);
        assert(ds.drop_first() =~= Seq::<u8>::empty());
        let acc2: nat = ((0 as nat) * 10 + (ds[0] - 48)) as nat;
        assert(digits_value(ds, 0) == digits_value(Seq::<u8>::empty(), acc2));
        assert(acc2 == n);
    } else {
        lemma_digits_value_of(n / 10);
        crate::value::lemma_dec_digits_decimal(n / 10);
        lemma_digits_value_push(
            crate::value::dec_digits(n / 10),
            (48 + n % 10) as u8,
            0,
        );
        assert(digits_value(crate::value::dec_digits(n), 0) == (n / 10) * 10 + ((48 + n % 10)
            as u8 - 48));
        assert((n / 10) * 10 + n % 10 == n);
    }
}

/// Reading digits never shrinks the value carried so far.
proof fn lemma_digits_value_grows(digits: Seq<u8>, acc: nat)
    requires
        forall|k: int| 0 <= k < digits.len() ==> 48 <= #[trigger] digits[k] <= 57,
    ensures
        digits_value(digits, acc) >= acc,
    decreases digits.len(),
{
    if digits.len() > 0 {
        lemma_digits_value_grows(digits.drop_first(), (acc * 10 + (digits[0] - 48)) as nat);
    }
}

/// The grammar reads a whole canonical digit run back to its value.
proof fn lemma_number_read_back(p: Seq<u8>, digits: Seq<u8>, u: Seq<u8>, acc: nat)
    requires
        digits.len() > 0,
        forall|k: int| 0 <= k < digits.len() ==> 48 <= #[trigger] digits[k] <= 57,
        u.len() == 0 || !(48 <= u[0] <= 57),
        digits_value(digits, acc) <= u64::MAX,
    ensures
        spec_read_number(p + digits + u, p.len() as int, acc) == Some(
            (digits_value(digits, acc) as u64, (p.len() + digits.len()) as int),
        ),
    decreases digits.len(),
{
    let s = p + digits + u;
    let i = p.len() as int;
    assert(s[i] == digits[0]);
    let acc2: nat = (acc * 10 + (digits[0] - 48)) as nat;
    lemma_digits_value_grows(digits.drop_first(), acc2);
    assert(digits_value(digits, acc) == digits_value(digits.drop_first(), acc2));
    if digits.len() == 1 {
        assert(digits.drop_first() =~= Seq::<u8>::empty());
        if i + 1 < s.len() {
            assert(s[i + 1] == u[0]);
        }
    } else {
        let p2 = p + digits.take(1);
        assert(p2 + digits.drop_first() + u =~= s);
        assert(p2.len() == p.len() + 1);
        lemma_number_read_back(p2, digits.drop_first(), u, acc2);
    }
}


/// The grammar reads an escaped string body back to its content: after a
/// canonical escape run and the closing quote, it yields exactly the
/// original bytes and stops after the quote.
proof fn lemma_string_read_back(p: Seq<u8>, t: Seq<u8>, u: Seq<u8>)
    ensures
        spec_read_string(p + crate::encode::json_escape(t) + seq![34u8] + u, p.len() as int)
            == Some((t, p.len() + crate::encode::json_escape(t).len() + 1int)),
    decreases t.len(),
{
    let e = crate::encode::json_escape(t);
    let s = p + e + seq![34u8] + u;
    let i = p.len() as int;
    if t.len() == 0 {
        assert(e =~= Seq::<u8>::empty());
        assert(s[i] == 34);
        assert(spec_read_string(s, i) == Some((Seq::<u8>::empty(), i + 1)));
        assert(t =~= Seq::<u8>::empty());
    } else {
        let b = t[0];
        let head = crate::encode::json_escape_byte(b);
        let rest = crate::encode::json_escape(t.drop_first());
        assert(e == head + rest);
        let p2 = p + head;
        assert(p2 + rest + seq![34u8] + u =~= s);
        lemma_string_read_back(p2, t.drop_first(), u);
        assert(forall|k: int| 0 <= k < head.len() ==> s[i + k] == #[trigger] head[k]);
        if b == 34 {
            assert(s[i] == 92 && s[i + 1] == 34);
            assert(Seq::empty().push(s[i + 1]) + t.drop_first() =~= t);
        } else if b == 92 {
            assert(s[i] == 92 && s[i + 1] == 92);
            assert(Seq::empty().push(s[i + 1]) + t.drop_first() =~= t);
        } else if b < 32 {
            assert(s[i] == 92 && s[i + 1] == 117 && s[i + 2] == 48 && s[i + 3] == 48);
            assert(s[i + 4] == crate::encode::hex_lower(b / 16));
            assert(s[i + 5] == crate::encode::hex_lower(b % 16));
            assert(b / 16 < 2);
            assert(b % 16 < 16);
            assert(spec_hex(s[i + 2]) == Some(0u8));
            assert(spec_hex(s[i + 3]) == Some(0u8));
            assert(spec_hex(s[i + 4]) == Some((b / 16) as u8));
            assert(spec_hex(s[i + 5]) == Some((b % 16) as u8));
            assert((b / 16) * 16 + (b % 16) == b) by (nonlinear_arith);
            assert(i + 6 <= s.len());
            assert(Seq::empty().push(((b / 16) * 16 + (b % 16)) as u8) + t.drop_first()
                =~= t);
        } else {
            assert(s[i] == b);
            assert(Seq::empty().push(s[i]) + t.drop_first() =~= t);
        }
    }
}


/// The grammar reads a canonically encoded JSON value back to the value.
proof fn lemma_value_read_back(p: Seq<u8>, v: FieldValueModel, u: Seq<u8>)
    requires
        u.len() > 0,
        !(48 <= u[0] <= 57),
    ensures
        spec_read_value(p + crate::encode::json_value(v) + u, p.len() as int) == Some(
            (v, p.len() + crate::encode::json_value(v).len() as int),
        ),
{
    let e = crate::encode::json_value(v);
    let s = p + e + u;
    let i = p.len() as int;
    match v {
        FieldValueModel::Text(t) => {
            assert(e == crate::encode::json_string(t));
            assert(s[i] == 34);
            let p2 = p + seq![34u8];
            assert(p2 + crate::encode::json_escape(t) + seq![34u8] + u =~= s);
            lemma_string_read_back(p2, t, u);
        },
        FieldValueModel::Unsigned(n) => {
            let digits = crate::value::dec_digits(n as nat);
            assert(e == digits);
            crate::value::lemma_dec_digits_decimal(n as nat);
            assert(s[i] == digits[0]);
            assert(48 <= s[i] <= 57);
            lemma_digits_value_of(n as nat);
            lemma_number_read_back(p, digits, u, 0);
        },
        FieldValueModel::Boolean(b) => {
            if b {
                assert(e == crate::value::true_bytes());
                assert(s[i] == 116 && s[i + 1] == 114 && s[i + 2] == 117 && s[i + 3] == 101);
                assert(i + 4 <= s.len());
            } else {
                assert(e == crate::value::false_bytes());
                assert(s[i] == 102 && s[i + 1] == 97 && s[i + 2] == 108 && s[i + 3] == 115
                    && s[i + 4] == 101);
                assert(i + 5 <= s.len());
            }
        },
    }
}

/// The grammar reads canonically encoded members back to the fields.
#[verifier::rlimit(60)]
proof fn lemma_members_read_back(p: Seq<u8>, fs: Seq<FieldModel>, u: Seq<u8>)
    requires
        fs.len() > 0,
        u.len() > 0,
        u[0] != 44,
        !(48 <= u[0] <= 57),
    ensures
        spec_read_members(p + crate::encode::json_members(fs) + u, p.len() as int) == Some(
            (fs, p.len() + crate::encode::json_members(fs).len() as int),
        ),
    decreases fs.len(),
{
    let e = crate::encode::json_members(fs);
    let s = p + e + u;
    let i = p.len() as int;
    let f = fs[0];
    let member = crate::encode::json_member(f);
    assert(member == crate::encode::json_string(f.name) + seq![58u8] + crate::encode::json_value(
        f.value,
    ));
    if fs.len() == 1 {
        assert(e == member);
        assert(s[i] == 34);
        let p2 = p + seq![34u8];
        let u2 = seq![58u8] + crate::encode::json_value(f.value) + u;
        assert(p2 + crate::encode::json_escape(f.name) + seq![34u8] + u2 =~= s);
        lemma_string_read_back(p2, f.name, u2);
        let j = p2.len() + crate::encode::json_escape(f.name).len() + 1int;
        assert(j == p.len() + crate::encode::json_string(f.name).len());
        assert(s[j] == 58);
        let p3 = p + crate::encode::json_string(f.name) + seq![58u8];
        assert(p3 + crate::encode::json_value(f.value) + u =~= s);
        lemma_value_read_back(p3, f.value, u);
        let m = p3.len() + crate::encode::json_value(f.value).len() as int;
        assert(m == p.len() + e.len());
        assert(m < s.len() ==> s[m] == u[0]);
        assert(Seq::empty().push(FieldModel { name: f.name, value: f.value }) =~= fs);
    } else {
        assert(e == member + seq![44u8] + crate::encode::json_members(fs.drop_first()));
        assert(s[i] == 34);
        let p2 = p + seq![34u8];
        let u2 = seq![58u8] + crate::encode::json_value(f.value) + (seq![44u8]
            + crate::encode::json_members(fs.drop_first()) + u);
        assert(p2 + crate::encode::json_escape(f.name) + seq![34u8] + u2 =~= s);
        lemma_string_read_back(p2, f.name, u2);
        let j = p2.len() + crate::encode::json_escape(f.name).len() + 1int;
        assert(j == p.len() + crate::encode::json_string(f.name).len());
        assert(s[j] == 58);
        let p3 = p + crate::encode::json_string(f.name) + seq![58u8];
        let u3 = seq![44u8] + crate::encode::json_members(fs.drop_first()) + u;
        assert(p3 + crate::encode::json_value(f.value) + u3 =~= s);
        lemma_value_read_back(p3, f.value, u3);
        let m = p3.len() + crate::encode::json_value(f.value).len() as int;
        assert(m == p.len() + member.len());
        assert(s[m] == 44);
        let p4 = p + member + seq![44u8];
        assert(p4 + crate::encode::json_members(fs.drop_first()) + u =~= s);
        lemma_members_read_back(p4, fs.drop_first(), u);
        assert(Seq::empty().push(FieldModel { name: f.name, value: f.value })
            + fs.drop_first() =~= fs);
    }
}

/// Every canonical encoding decodes, and to the record it encodes: the
/// decoder accepts exactly the image of the encoder, so encoding then
/// decoding gives the record back.
pub proof fn lemma_canonical_encoding_decodes(fs: Seq<FieldModel>)
    ensures
        json_parse_spec(json_record(fs)) == Some(fs),
{
    let s = json_record(fs);
    let e = crate::encode::json_members(fs);
    assert(s == seq![123u8] + e + seq![125u8]);
    assert(s[0] == 123);
    if fs.len() == 0 {
        assert(e =~= Seq::<u8>::empty());
        assert(s.len() == 2 && s[1] == 125);
        assert(spec_read_record(s) == Some(Seq::<FieldModel>::empty()));
        assert(fs =~= Seq::<FieldModel>::empty());
    } else {
        let f = fs[0];
        assert(crate::encode::json_string(f.name).len() >= 2);
        assert(crate::encode::json_member(f).len() >= 3);
        assert(e.len() >= 3);
        assert(s.len() > 2);
        lemma_members_read_back(seq![123u8], fs, seq![125u8]);
        assert(spec_read_members(s, 1) == Some((fs, 1 + e.len() as int)));
        assert(1 + e.len() == s.len() - 1);
        assert(s[s.len() - 1] == 125);
    }
}

} // verus!
