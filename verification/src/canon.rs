//! The canonicalizer: the deterministic byte encoding of a record.
//!
//! A record is encoded as structured text with two-space indentation, stable
//! field order equal to insertion order, and a fixed escape and number
//! format. These bytes are the exact input to signing and verification, so
//! they must be bit-identical across independent implementations; the spec
//! functions here pin every byte.

use vstd::prelude::*;
use vstd::utf8::encode_utf8;
use crate::value::{
    FieldsV, Record, Value, ValueV, has_key, key_index, keys_unique, lemma_view_fields,
    lemma_view_values, set_key, strip_key, view_fields, view_values,
};

verus! {

/// The byte of a lowercase hexadecimal digit.
pub open spec fn hex_digit(n: u8) -> u8 {
    if n < 10 {
        (48 + n) as u8
    } else {
        (87 + n) as u8
    }
}

/// The escape of one byte of a string's content: quote and backslash are
/// escaped, the named control characters use their short escapes, the other
/// control bytes use a four-digit escape, and everything else stands as is.
pub open spec fn esc_byte(b: u8) -> Seq<u8> {
    if b == 34 {
        seq![92u8, 34u8]
    } else if b == 92 {
        seq![92u8, 92u8]
    } else if b == 8 {
        seq![92u8, 98u8]
    } else if b == 12 {
        seq![92u8, 102u8]
    } else if b == 10 {
        seq![92u8, 110u8]
    } else if b == 13 {
        seq![92u8, 114u8]
    } else if b == 9 {
        seq![92u8, 116u8]
    } else if b < 32 {
        seq![92u8, 117u8, 48u8, 48u8, hex_digit(b / 16), hex_digit(b % 16)]
    } else {
        seq![b]
    }
}

/// The escapes of a byte sequence, concatenated.
pub open spec fn esc_bytes(s: Seq<u8>) -> Seq<u8>
    decreases s,
{
    if s.len() == 0 {
        Seq::empty()
    } else {
        esc_byte(s[0]) + esc_bytes(s.subrange(1, s.len() as int))
    }
}

/// A quoted string: its UTF-8 bytes, escaped, between double quotes.
pub open spec fn quoted(s: Seq<char>) -> Seq<u8> {
    seq![34u8] + esc_bytes(encode_utf8(s)) + seq![34u8]
}

/// The decimal digits of a natural number, most significant first.
pub open spec fn dec_digits(n: nat) -> Seq<u8>
    decreases n,
{
    if n < 10 {
        seq![(48 + n) as u8]
    } else {
        dec_digits(n / 10) + seq![(48 + n % 10) as u8]
    }
}

/// The decimal encoding of an integer, with a leading minus when negative.
pub open spec fn int_bytes(i: int) -> Seq<u8> {
    if i >= 0 {
        dec_digits(i as nat)
    } else {
        seq![45u8] + dec_digits((-i) as nat)
    }
}

/// `n` space bytes.
pub open spec fn spaces(n: nat) -> Seq<u8> {
    Seq::new(n, |i: int| 32u8)
}

/// The canonical bytes of a value at indentation depth `ind`.
pub open spec fn canon_value(v: ValueV, ind: nat) -> Seq<u8>
    decreases v,
{
    match v {
        ValueV::Null => seq![110u8, 117u8, 108u8, 108u8],
        ValueV::Bool(b) => if b {
            seq![116u8, 114u8, 117u8, 101u8]
        } else {
            seq![102u8, 97u8, 108u8, 115u8, 101u8]
        },
        ValueV::Int(i) => int_bytes(i),
        ValueV::Str(s) => quoted(s),
        ValueV::Arr(items) => if items.len() == 0 {
            seq![91u8, 93u8]
        } else {
            seq![91u8, 10u8] + canon_items(items, (ind + 2) as nat) + seq![10u8] + spaces(ind)
                + seq![93u8]
        },
        ValueV::Obj(fields) => if fields.len() == 0 {
            seq![123u8, 125u8]
        } else {
            seq![123u8, 10u8] + canon_fields(fields, (ind + 2) as nat) + seq![10u8] + spaces(ind)
                + seq![125u8]
        },
    }
}

/// The items of a non-empty array: each on its own indented line, separated
/// by a comma and a newline.
pub open spec fn canon_items(items: Seq<ValueV>, ind: nat) -> Seq<u8>
    decreases items,
{
    if items.len() == 0 {
        Seq::empty()
    } else if items.len() == 1 {
        spaces(ind) + canon_value(items[0], ind)
    } else {
        spaces(ind) + canon_value(items[0], ind) + seq![44u8, 10u8] + canon_items(
            items.subrange(1, items.len() as int),
            ind,
        )
    }
}

/// The fields of a non-empty object: each `"name": value` on its own
/// indented line, separated by a comma and a newline.
pub open spec fn canon_fields(fields: FieldsV, ind: nat) -> Seq<u8>
    decreases fields,
{
    if fields.len() == 0 {
        Seq::empty()
    } else {
        let entry = spaces(ind) + quoted(fields[0].0) + seq![58u8, 32u8] + canon_value(
            fields[0].1,
            ind,
        );
        if fields.len() == 1 {
            entry
        } else {
            entry + seq![44u8, 10u8] + canon_fields(fields.subrange(1, fields.len() as int), ind)
        }
    }
}

/// The canonical bytes of a record with the named field excluded: the bytes
/// that get signed and verified.
pub open spec fn canon_record(fields: FieldsV, exclude: Seq<char>) -> Seq<u8> {
    canon_value(ValueV::Obj(strip_key(fields, exclude)), 0)
}

pub proof fn lemma_esc_bytes_snoc(s: Seq<u8>, b: u8)
    ensures
        esc_bytes(s.push(b)) == esc_bytes(s) + esc_byte(b),
    decreases s,
{
    let sp = s.push(b);
    assert(esc_bytes(Seq::<u8>::empty()) == Seq::<u8>::empty());
    if s.len() == 0 {
        assert(sp.len() == 1 && sp[0] == b);
        assert(sp.subrange(1, sp.len() as int) =~= Seq::<u8>::empty());
        assert(esc_bytes(sp) =~= esc_bytes(s) + esc_byte(b));
    } else {
        assert(sp.subrange(1, sp.len() as int) =~= s.subrange(1, s.len() as int).push(b));
        lemma_esc_bytes_snoc(s.subrange(1, s.len() as int), b);
        assert(esc_bytes(sp) =~= esc_bytes(s) + esc_byte(b));
    }
}

pub proof fn lemma_canon_items_snoc(items: Seq<ValueV>, v: ValueV, ind: nat)
    requires
        items.len() >= 1,
    ensures
        canon_items(items.push(v), ind) == canon_items(items, ind) + seq![44u8, 10u8] + spaces(ind)
            + canon_value(v, ind),
    decreases items,
{
    let ip = items.push(v);
    let rest = items.subrange(1, items.len() as int);
    assert(ip.subrange(1, ip.len() as int) =~= rest.push(v));
    if items.len() == 1 {
        assert(rest.push(v) =~= seq![v]);
        assert(canon_items(seq![v], ind) == spaces(ind) + canon_value(v, ind));
        assert(canon_items(ip, ind) =~= canon_items(items, ind) + seq![44u8, 10u8] + spaces(ind)
            + canon_value(v, ind));
    } else {
        lemma_canon_items_snoc(rest, v, ind);
        assert(canon_items(ip, ind) =~= canon_items(items, ind) + seq![44u8, 10u8] + spaces(ind)
            + canon_value(v, ind));
    }
}

pub proof fn lemma_canon_fields_snoc(fields: FieldsV, f: (Seq<char>, ValueV), ind: nat)
    requires
        fields.len() >= 1,
    ensures
        canon_fields(fields.push(f), ind) == canon_fields(fields, ind) + seq![44u8, 10u8] + spaces(
            ind,
        ) + quoted(f.0) + seq![58u8, 32u8] + canon_value(f.1, ind),
    decreases fields,
{
    let fp = fields.push(f);
    let rest = fields.subrange(1, fields.len() as int);
    assert(fp.subrange(1, fp.len() as int) =~= rest.push(f));
    if fields.len() == 1 {
        assert(rest.push(f) =~= seq![f]);
        assert(canon_fields(seq![f], ind) == spaces(ind) + quoted(f.0) + seq![58u8, 32u8]
            + canon_value(f.1, ind));
        assert(canon_fields(fp, ind) =~= canon_fields(fields, ind) + seq![44u8, 10u8] + spaces(ind)
            + quoted(f.0) + seq![58u8, 32u8] + canon_value(f.1, ind));
    } else {
        lemma_canon_fields_snoc(rest, f, ind);
        assert(canon_fields(fp, ind) =~= canon_fields(fields, ind) + seq![44u8, 10u8] + spaces(ind)
            + quoted(f.0) + seq![58u8, 32u8] + canon_value(f.1, ind));
    }
}

/// Append the contents of `s` to `out`.
fn push_all(out: &mut Vec<u8>, s: &Vec<u8>)
    ensures
        final(out)@ == old(out)@ + s@,
{
    let n = s.len();
    for i in 0..n
        invariant
            n == s.len(),
            out@ == old(out)@ + s@.subrange(0, i as int),
    {
        out.push(s[i]);
        proof {
            assert(s@.subrange(0, i + 1) =~= s@.subrange(0, i as int).push(s@[i as int]));
        }
    }
    proof {
        assert(s@.subrange(0, n as int) =~= s@);
    }
}

/// Append the decimal digits of `n` to `out`.
fn write_u64(n: u64, out: &mut Vec<u8>)
    ensures
        final(out)@ == old(out)@ + dec_digits(n as nat),
    decreases n,
{
    if n < 10 {
        out.push(48 + n as u8);
    } else {
        write_u64(n / 10, out);
        out.push(48 + (n % 10) as u8);
    }
}

/// Append the decimal encoding of `i` to `out`.
fn write_int(i: i64, out: &mut Vec<u8>)
    ensures
        final(out)@ == old(out)@ + int_bytes(i as int),
{
    if i < 0 {
        out.push(45);
        let mag: u64 = if i == i64::MIN {
            9223372036854775808u64
        } else {
            (-i) as u64
        };
        proof {
            assert(mag as nat == (-(i as int)) as nat);
        }
        write_u64(mag, out);
    } else {
        write_u64(i as u64, out);
    }
}

/// Append the quoted, escaped form of `s` to `out`.
#[verifier::rlimit(50)]
fn write_quoted(s: &str, out: &mut Vec<u8>)
    ensures
        final(out)@ == old(out)@ + quoted(s@),
{
    out.push(34);
    let bs = s.as_bytes_vec();
    let n = bs.len();
    for i in 0..n
        invariant
            n == bs.len(),
            bs@ == encode_utf8(s@),
            out@ == old(out)@ + seq![34u8] + esc_bytes(bs@.subrange(0, i as int)),
    {
        let b = bs[i];
        if b == 34 {
            out.push(92);
            out.push(34);
        } else if b == 92 {
            out.push(92);
            out.push(92);
        } else if b == 8 {
            out.push(92);
            out.push(98);
        } else if b == 12 {
            out.push(92);
            out.push(102);
        } else if b == 10 {
            out.push(92);
            out.push(110);
        } else if b == 13 {
            out.push(92);
            out.push(114);
        } else if b == 9 {
            out.push(92);
            out.push(116);
        } else if b < 32 {
            out.push(92);
            out.push(117);
            out.push(48);
            out.push(48);
            out.push(if b / 16 < 10 {
                48 + b / 16
            } else {
                87 + b / 16
            });
            out.push(if b % 16 < 10 {
                48 + b % 16
            } else {
                87 + b % 16
            });
        } else {
            out.push(b);
        }
        proof {
            lemma_esc_bytes_snoc(bs@.subrange(0, i as int), b);
            assert(bs@.subrange(0, i + 1) =~= bs@.subrange(0, i as int).push(b));
            assert(out@ =~= old(out)@ + seq![34u8] + esc_bytes(bs@.subrange(0, i + 1)));
        }
    }
    out.push(34);
    proof {
        assert(bs@.subrange(0, n as int) =~= bs@);
        assert(out@ =~= old(out)@ + quoted(s@));
    }
}

/// Append the canonical bytes of `v` at indentation `ind` to `out`;
/// `indent` holds `ind` spaces.
/// Append the canonical bytes of an array's items to `out`.
#[verifier::loop_isolation(false)]
#[verifier::rlimit(50)]
fn write_arr(items: &Vec<Value>, indent: &Vec<u8>, Ghost(ind): Ghost<nat>, out: &mut Vec<u8>)
    requires
        indent@ == spaces(ind),
    ensures
        final(out)@ == old(out)@ + canon_value(ValueV::Arr(view_values(items@)), ind),
    decreases items@,
{
    let ghost itemsv = view_values(items@);
    proof {
        lemma_view_values(items@);
    }
    if items.len() == 0 {
        out.push(91);
        out.push(93);
        proof {
            assert(out@ =~= old(out)@ + canon_value(ValueV::Arr(itemsv), ind));
        }
    } else {
        out.push(91);
        out.push(10);
        let mut ind2 = indent.clone();
        ind2.push(32);
        ind2.push(32);
        proof {
            assert(ind2@ =~= spaces(ind + 2));
        }
        let n = items.len();
        for i in 0..n
            invariant
                i > 0 ==> out@ == old(out)@ + seq![91u8, 10u8] + canon_items(
                    itemsv.subrange(0, i as int),
                    (ind + 2) as nat,
                ),
                i == 0 ==> out@ == old(out)@ + seq![91u8, 10u8],
            decreases n - i,
        {
            if i > 0 {
                out.push(44);
                out.push(10);
            }
            push_all(out, &ind2);
            proof {
                assert(decreases_to!(items@ => items@[i as int]));
            }
            write_value(&items[i], &ind2, Ghost((ind + 2) as nat), out);
            proof {
                if i > 0 {
                    lemma_canon_items_snoc(
                        itemsv.subrange(0, i as int),
                        itemsv[i as int],
                        (ind + 2) as nat,
                    );
                }
                assert(itemsv.subrange(0, i + 1) =~= itemsv.subrange(0, i as int).push(
                    itemsv[i as int],
                ));
                assert(out@ =~= old(out)@ + seq![91u8, 10u8] + canon_items(
                    itemsv.subrange(0, i + 1),
                    (ind + 2) as nat,
                ));
            }
        }
        out.push(10);
        push_all(out, indent);
        out.push(93);
        proof {
            assert(itemsv.subrange(0, n as int) =~= itemsv);
            assert(out@ =~= old(out)@ + canon_value(ValueV::Arr(itemsv), ind));
        }
    }
}

/// Append the canonical bytes of an object's fields to `out`.
#[verifier::loop_isolation(false)]
#[verifier::rlimit(50)]
fn write_obj(fields: &Vec<(String, Value)>, indent: &Vec<u8>, Ghost(ind): Ghost<nat>, out: &mut Vec<u8>)
    requires
        indent@ == spaces(ind),
    ensures
        final(out)@ == old(out)@ + canon_value(ValueV::Obj(view_fields(fields@)), ind),
    decreases fields@,
{
    let ghost fieldsv = view_fields(fields@);
    proof {
        lemma_view_fields(fields@);
    }
    if fields.len() == 0 {
        out.push(123);
        out.push(125);
        proof {
            assert(out@ =~= old(out)@ + canon_value(ValueV::Obj(fieldsv), ind));
        }
    } else {
        out.push(123);
        out.push(10);
        let mut ind2 = indent.clone();
        ind2.push(32);
        ind2.push(32);
        proof {
            assert(ind2@ =~= spaces(ind + 2));
        }
        let n = fields.len();
        for i in 0..n
            invariant
                i > 0 ==> out@ == old(out)@ + seq![123u8, 10u8] + canon_fields(
                    fieldsv.subrange(0, i as int),
                    (ind + 2) as nat,
                ),
                i == 0 ==> out@ == old(out)@ + seq![123u8, 10u8],
            decreases n - i,
        {
            if i > 0 {
                out.push(44);
                out.push(10);
            }
            push_all(out, &ind2);
            write_quoted(fields[i].0.as_str(), out);
            out.push(58);
            out.push(32);
            proof {
                assert(decreases_to!(fields@ => fields@[i as int]));
                assert(decreases_to!(fields@[i as int] => fields@[i as int].1));
            }
            write_value(&fields[i].1, &ind2, Ghost((ind + 2) as nat), out);
            proof {
                if i > 0 {
                    lemma_canon_fields_snoc(
                        fieldsv.subrange(0, i as int),
                        fieldsv[i as int],
                        (ind + 2) as nat,
                    );
                }
                assert(fieldsv.subrange(0, i + 1) =~= fieldsv.subrange(0, i as int).push(
                    fieldsv[i as int],
                ));
                assert(out@ =~= old(out)@ + seq![123u8, 10u8] + canon_fields(
                    fieldsv.subrange(0, i + 1),
                    (ind + 2) as nat,
                ));
            }
        }
        out.push(10);
        push_all(out, indent);
        out.push(125);
        proof {
            assert(fieldsv.subrange(0, n as int) =~= fieldsv);
            assert(out@ =~= old(out)@ + canon_value(ValueV::Obj(fieldsv), ind));
        }
    }
}

/// Append the canonical bytes of `v` at indentation `ind` to `out`;
/// `indent` holds `ind` spaces.
fn write_value(v: &Value, indent: &Vec<u8>, Ghost(ind): Ghost<nat>, out: &mut Vec<u8>)
    requires
        indent@ == spaces(ind),
    ensures
        final(out)@ == old(out)@ + canon_value(v@, ind),
    decreases v,
{
    match v {
        Value::Null => {
            out.push(110);
            out.push(117);
            out.push(108);
            out.push(108);
            proof {
                assert(out@ =~= old(out)@ + canon_value(v@, ind));
            }
        },
        Value::Bool(b) => {
            if *b {
                out.push(116);
                out.push(114);
                out.push(117);
                out.push(101);
            } else {
                out.push(102);
                out.push(97);
                out.push(108);
                out.push(115);
                out.push(101);
            }
            proof {
                assert(out@ =~= old(out)@ + canon_value(v@, ind));
            }
        },
        Value::Int(i) => {
            write_int(*i, out);
        },
        Value::Str(s) => {
            write_quoted(s.as_str(), out);
        },
        Value::Arr(items) => {
            proof {
                assert(decreases_to!(*v => *items));
                assert(decreases_to!(*items => items@));
            }
            write_arr(items, indent, Ghost(ind), out);
        },
        Value::Obj(fields) => {
            proof {
                assert(decreases_to!(*v => *fields));
                assert(decreases_to!(*fields => fields@));
            }
            write_obj(fields, indent, Ghost(ind), out);
        },
    }
}

/// Stripping a name distributes over appending one field.
pub proof fn lemma_strip_snoc(fields: FieldsV, f: (Seq<char>, ValueV), name: Seq<char>)
    ensures
        strip_key(fields.push(f), name) == strip_key(fields, name) + if f.0 == name {
            Seq::<(Seq<char>, ValueV)>::empty()
        } else {
            seq![f]
        },
    decreases fields,
{
    let fp = fields.push(f);
    assert(strip_key(Seq::<(Seq<char>, ValueV)>::empty(), name) == Seq::<(
        Seq<char>,
        ValueV,
    )>::empty());
    if fields.len() == 0 {
        assert(fp.subrange(1, fp.len() as int) =~= Seq::<(Seq<char>, ValueV)>::empty());
        if f.0 == name {
            assert(strip_key(fp, name) =~= strip_key(fields, name));
        } else {
            assert(strip_key(fp, name) =~= strip_key(fields, name) + seq![f]);
        }
    } else {
        assert(fp.subrange(1, fp.len() as int) =~= fields.subrange(1, fields.len() as int).push(
            f,
        ));
        lemma_strip_snoc(fields.subrange(1, fields.len() as int), f, name);
        if f.0 == name {
            assert(strip_key(fp, name) =~= strip_key(fields, name));
        } else {
            assert(strip_key(fp, name) =~= strip_key(fields, name) + seq![f]);
        }
    }
}

/// The canonical bytes of `rec` with the field named `exclude` left out
/// entirely. The record itself is not changed.
pub fn canonicalize(rec: &Record, exclude: &str) -> (out: Vec<u8>)
    ensures
        out@ == canon_record(rec@, exclude@),
{
    let mut body: Vec<u8> = Vec::new();
    let mut count: usize = 0;
    let n = rec.len();
    let ghost fieldsv = rec@;
    for i in 0..n
        invariant
            n == rec@.len(),
            fieldsv == rec@,
            count == strip_key(fieldsv.subrange(0, i as int), exclude@).len(),
            count == 0 ==> body@ == Seq::<u8>::empty() && strip_key(
                fieldsv.subrange(0, i as int),
                exclude@,
            ) =~= Seq::<(Seq<char>, ValueV)>::empty(),
            count > 0 ==> body@ == canon_fields(
                strip_key(fieldsv.subrange(0, i as int), exclude@),
                2,
            ),
            count <= i,
        decreases n - i,
    {
        let ghost prefix = fieldsv.subrange(0, i as int);
        let ghost stripped = strip_key(prefix, exclude@);
        let f = rec.field_at(i);
        if !crate::value::str_eq(f.0.as_str(), exclude) {
            if count > 0 {
                body.push(44);
                body.push(10);
            }
            body.push(32);
            body.push(32);
            write_quoted(f.0.as_str(), &mut body);
            body.push(58);
            body.push(32);
            let indent2: Vec<u8> = vec![32, 32];
            proof {
                assert(indent2@ =~= spaces(2));
            }
            write_value(&f.1, &indent2, Ghost(2nat), &mut body);
            count = count + 1;
        }
        proof {
            lemma_strip_snoc(prefix, fieldsv[i as int], exclude@);
            assert(fieldsv.subrange(0, i + 1) =~= prefix.push(fieldsv[i as int]));
            let strippedp = strip_key(fieldsv.subrange(0, i + 1), exclude@);
            if f.0@ == exclude@ {
                assert(strippedp =~= stripped);
            } else {
                assert(strippedp =~= stripped.push(fieldsv[i as int]));
                if stripped.len() == 0 {
                    assert(strippedp =~= seq![fieldsv[i as int]]);
                    assert(spaces(2) =~= seq![32u8, 32u8]);
                    assert(body@ =~= canon_fields(strippedp, 2));
                } else {
                    lemma_canon_fields_snoc(stripped, fieldsv[i as int], 2);
                    assert(spaces(2) =~= seq![32u8, 32u8]);
                    assert(body@ =~= canon_fields(strippedp, 2));
                }
            }
        }
    }
    proof {
        assert(fieldsv.subrange(0, n as int) =~= fieldsv);
    }
    let mut out: Vec<u8> = Vec::new();
    if count == 0 {
        out.push(123);
        out.push(125);
        proof {
            assert(out@ =~= canon_record(rec@, exclude@));
        }
    } else {
        out.push(123);
        out.push(10);
        push_all(&mut out, &body);
        out.push(10);
        out.push(125);
        proof {
            assert(spaces(0) =~= Seq::<u8>::empty());
            assert(out@ =~= canon_record(rec@, exclude@));
        }
    }
    out
}

/// Setting a field and then excluding it leaves the canonical bytes as if
/// the field had never been set: the `"signature"` field is pure metadata
/// for the bytes that get signed.
pub proof fn lemma_set_then_strip(fields: FieldsV, name: Seq<char>, v: ValueV)
    requires
        keys_unique(fields),
    ensures
        strip_key(set_key(fields, name, v), name) == strip_key(fields, name),
        canon_record(set_key(fields, name, v), name) == canon_record(fields, name),
    decreases fields,
{
    crate::value::lemma_key_index(fields, name);
    if !has_key(fields, name) {
        lemma_strip_snoc(fields, (name, v), name);
        assert(strip_key(set_key(fields, name, v), name) =~= strip_key(fields, name));
    } else {
        let k = key_index(fields, name);
        let updated = fields.update(k, (name, v));
        assert(set_key(fields, name, v) == updated);
        let rest = fields.subrange(1, fields.len() as int);
        if fields[0].0 == name {
            assert(k == 0);
            assert(updated[0].0 == name);
            assert(updated.subrange(1, updated.len() as int) =~= rest);
            assert(strip_key(updated, name) == strip_key(rest, name));
        } else {
            assert(k >= 1);
            assert(updated[0] == fields[0]);
            assert(keys_unique(rest)) by {
                assert(forall|i: int| 0 <= i < rest.len() ==> rest[i] == fields[i + 1]);
            }
            assert(has_key(rest, name)) by {
                assert(rest[k - 1] == fields[k]);
            }
            crate::value::lemma_key_index(rest, name);
            assert(key_index(fields, name) == 1 + key_index(rest, name));
            assert(key_index(rest, name) == k - 1);
            assert(updated.subrange(1, updated.len() as int) =~= rest.update(k - 1, (name, v)));
            lemma_set_then_strip(rest, name, v);
            assert(set_key(rest, name, v) == rest.update(k - 1, (name, v)));
            assert(strip_key(updated, name) == seq![updated[0]] + strip_key(
                rest.update(k - 1, (name, v)),
                name,
            ));
            assert(strip_key(fields, name) == seq![fields[0]] + strip_key(rest, name));
            assert(strip_key(updated, name) =~= strip_key(fields, name));
        }
    }
}

/// Adding a field to a record that lacked it and then removing it again
/// yields the record exactly as it was.
pub proof fn lemma_add_remove_identity(fields: FieldsV, name: Seq<char>, v: ValueV)
    requires
        keys_unique(fields),
        !has_key(fields, name),
    ensures
        strip_key(set_key(fields, name, v), name) == fields,
        canon_record(set_key(fields, name, v), name) == canon_record(fields, name),
{
    lemma_set_then_strip(fields, name, v);
    crate::value::lemma_strip_absent(fields, name);
}

/// Signature field isolation: two records that agree on everything but the
/// excluded field produce the same canonical bytes.
pub proof fn lemma_signature_isolation(f1: FieldsV, f2: FieldsV, name: Seq<char>)
    requires
        strip_key(f1, name) == strip_key(f2, name),
    ensures
        canon_record(f1, name) == canon_record(f2, name),
{
}

} // verus!
