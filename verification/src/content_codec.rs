//! Reading payloads back from their canonical bytes.

use vstd::prelude::*;
use vstd::bytes::{
    lemma_auto_spec_u32_to_from_le_bytes, lemma_auto_spec_u64_to_from_le_bytes,
    spec_u32_from_le_bytes, spec_u32_to_le_bytes, spec_u64_from_le_bytes, spec_u64_to_le_bytes,
    u32_from_le_bytes, u64_from_le_bytes,
};
use vstd::slice::{slice_subrange, slice_to_vec};
use crate::content::{
    canonical_bytes, field_map, fields_bytes, fields_ordered, has_key, key_index, lemma_field_at,
    value_bytes, ContentEnvelope, ContentKind, EnvelopeView, Field, FieldValue,
    ValueView,
};
use crate::error::{Serialization, StoreError};

verus! {

/// The value at the start of `b`, and the number of bytes that it takes.
pub open spec fn read_value(b: Seq<u8>) -> Result<(ValueView, int), Serialization> {
    if b.len() < 1 {
        Err(Serialization::Truncated)
    } else if b[0] == 0 {
        if b.len() < 2 {
            Err(Serialization::Truncated)
        } else if b[1] > 1 {
            Err(Serialization::Malformed)
        } else {
            Ok((ValueView::Flag(b[1] == 1), 2))
        }
    } else if b[0] == 1 {
        if b.len() < 9 {
            Err(Serialization::Truncated)
        } else {
            Ok((ValueView::Number(spec_u64_from_le_bytes(b.subrange(1, 9))), 9))
        }
    } else if b[0] == 2 {
        if b.len() < 9 {
            Err(Serialization::Truncated)
        } else if b.len() - 9 < spec_u64_from_le_bytes(b.subrange(1, 9)) {
            Err(Serialization::Truncated)
        } else {
            Ok(
                (
                    ValueView::Bytes(b.subrange(9, 9 + spec_u64_from_le_bytes(b.subrange(1, 9)))),
                    9 + spec_u64_from_le_bytes(b.subrange(1, 9)),
                ),
            )
        }
    } else {
        Err(Serialization::Malformed)
    }
}

/// The `count` fields at the start of `b`, whose keys must increase from
/// above `floor`, and the number of bytes that they take.
pub open spec fn read_fields(b: Seq<u8>, count: nat, floor: int) -> Result<
    (Seq<(u32, ValueView)>, int),
    Serialization,
>
    decreases count,
{
    if count == 0 {
        Ok((Seq::<(u32, ValueView)>::empty(), 0))
    } else if b.len() < 4 {
        Err(Serialization::Truncated)
    } else {
        let key = spec_u32_from_le_bytes(b.subrange(0, 4));
        if key == floor {
            Err(Serialization::DuplicateKey(key))
        } else if key < floor {
            Err(Serialization::Malformed)
        } else {
            match read_value(b.skip(4)) {
                Err(e) => Err(e),
                Ok((v, used)) => match read_fields(b.skip(4 + used), (count - 1) as nat, key as int) {
                    Err(e) => Err(e),
                    Ok((rest, more)) => Ok((seq![(key, v)] + rest, 4 + used + more)),
                },
            }
        }
    }
}

/// The fields of a list of keys and values, by key.
pub open spec fn map_of(p: Seq<(u32, ValueView)>) -> Map<u32, ValueView> {
    Map::new(
        |k: u32| exists|i: int| 0 <= i < p.len() && (#[trigger] p[i]).0 == k,
        |k: u32| p[choose|i: int| 0 <= i < p.len() && (#[trigger] p[i]).0 == k].1,
    )
}

/// The payload that the bytes `b` stand for: the kind, the version and the
/// number of fields, each in a fixed width, and then the fields in strictly
/// increasing order of key, with nothing after them.
pub open spec fn read_envelope(b: Seq<u8>) -> Result<EnvelopeView, Serialization> {
    if b.len() < 16 {
        Err(Serialization::Truncated)
    } else {
        match ContentKind::with_code(spec_u32_from_le_bytes(b.subrange(0, 4))) {
            None => Err(Serialization::Malformed),
            Some(kind) => match read_fields(
                b.skip(16),
                spec_u64_from_le_bytes(b.subrange(8, 16)) as nat,
                -1,
            ) {
                Err(e) => Err(e),
                Ok((fields, used)) => if 16 + used != b.len() {
                    Err(Serialization::TrailingBytes)
                } else {
                    Ok(
                        EnvelopeView {
                            kind,
                            version: spec_u32_from_le_bytes(b.subrange(4, 8)),
                            fields: map_of(fields),
                        },
                    )
                },
            },
        }
    }
}

/// The keys and values of a field list, in its order.
pub open spec fn pairs(s: Seq<Field>) -> Seq<(u32, ValueView)> {
    Seq::new(s.len(), |i: int| (s[i].key, s[i].value@))
}

proof fn lemma_map_of_pairs(s: Seq<Field>)
    requires
        fields_ordered(s),
    ensures
        map_of(pairs(s)) == field_map(s),
{
    let p = pairs(s);
    assert forall|k: u32| #[trigger] map_of(p).contains_key(k) <==> field_map(s).contains_key(k) by {
        if map_of(p).contains_key(k) {
            let i = choose|i: int| 0 <= i < p.len() && (#[trigger] p[i]).0 == k;
            assert(s[i].key == k);
        }
        if has_key(s, k) {
            let i = key_index(s, k);
            assert(p[i].0 == k);
        }
    }
    assert forall|k: u32| #[trigger] map_of(p).contains_key(k) implies map_of(p)[k] == field_map(
        s,
    )[k] by {
        let i = choose|i: int| 0 <= i < p.len() && (#[trigger] p[i]).0 == k;
        assert(s[i].key == k);
        lemma_field_at(s, i);
    }
    assert(map_of(p) =~= field_map(s));
}

/// What is read so far, followed by what the rest gives.
spec fn extend(
    acc: Seq<(u32, ValueView)>,
    used: int,
    r: Result<(Seq<(u32, ValueView)>, int), Serialization>,
) -> Result<(Seq<(u32, ValueView)>, int), Serialization> {
    match r {
        Ok((rest, more)) => Ok((acc + rest, used + more)),
        Err(e) => Err(e),
    }
}

fn decode_value(bytes: &[u8], pos: usize) -> (r: Result<(FieldValue, usize), Serialization>)
    requires
        pos <= bytes@.len(),
    ensures
        match r {
            Ok((v, next)) => pos <= next <= bytes@.len() && read_value(bytes@.skip(pos as int))
                == Ok::<(ValueView, int), Serialization>((v@, next - pos)),
            Err(e) => read_value(bytes@.skip(pos as int)) == Err::<(ValueView, int), Serialization>(
                e,
            ),
        },
{
    let len = bytes.len();
    let ghost b = bytes@.skip(pos as int);
    if len - pos < 1 {
        return Err(Serialization::Truncated);
    }
    let tag = bytes[pos];
    assert(b[0] == tag);
    if tag == 0 {
        if len - pos < 2 {
            return Err(Serialization::Truncated);
        }
        let flag = bytes[pos + 1];
        assert(b[1] == flag);
        if flag > 1 {
            return Err(Serialization::Malformed);
        }
        Ok((FieldValue::Flag(flag == 1), pos + 2))
    } else if tag == 1 {
        if len - pos < 9 {
            return Err(Serialization::Truncated);
        }
        let n = u64_from_le_bytes(slice_subrange(bytes, pos + 1, pos + 9));
        proof {
            assert(b.subrange(1, 9) =~= bytes@.subrange(pos + 1, pos + 9));
        }
        Ok((FieldValue::Number(n), pos + 9))
    } else if tag == 2 {
        if len - pos < 9 {
            return Err(Serialization::Truncated);
        }
        let n = u64_from_le_bytes(slice_subrange(bytes, pos + 1, pos + 9));
        proof {
            assert(b.subrange(1, 9) =~= bytes@.subrange(pos + 1, pos + 9));
        }
        if ((len - pos - 9) as u64) < n {
            return Err(Serialization::Truncated);
        }
        let size = n as usize;
        let data = slice_to_vec(slice_subrange(bytes, pos + 9, pos + 9 + size));
        proof {
            assert(b.subrange(9, 9 + n) =~= bytes@.subrange(pos + 9, pos + 9 + size));
        }
        Ok((FieldValue::Bytes(data), pos + 9 + size))
    } else {
        Err(Serialization::Malformed)
    }
}

impl ContentEnvelope {
    /// Reads a payload from its canonical bytes. It fails where the bytes
    /// end too early or go on too long, name no kind or no sort of value,
    /// or do not list the fields in strictly increasing order of key.
    pub fn decode(bytes: &[u8]) -> (r: Result<ContentEnvelope, StoreError>)
        ensures
            match r {
                Ok(e) => e.wf() && read_envelope(bytes@) == Ok::<EnvelopeView, Serialization>(e@),
                Err(err) => err matches StoreError::SerializationError(s) && read_envelope(bytes@)
                    == Err::<EnvelopeView, Serialization>(s),
            },
    {
        let len = bytes.len();
        if len < 16 {
            return Err(StoreError::SerializationError(Serialization::Truncated));
        }
        let code = u32_from_le_bytes(slice_subrange(bytes, 0, 4));
        let kind = match ContentKind::from_code(code) {
            Some(k) => k,
            None => {
                return Err(StoreError::SerializationError(Serialization::Malformed));
            },
        };
        let version = u32_from_le_bytes(slice_subrange(bytes, 4, 8));
        let count = u64_from_le_bytes(slice_subrange(bytes, 8, 16));
        let ghost body = bytes@.skip(16);
        let mut fields: Vec<Field> = Vec::new();
        let mut remaining: u64 = count;
        let mut pos: usize = 16;
        let mut floor: Option<u32> = None;
        proof {
            assert(pairs(fields@) =~= Seq::<(u32, ValueView)>::empty());
            let inner = read_fields(body, count as nat, -1);
            match inner {
                Ok((rest, more)) => {
                    assert(pairs(fields@) + rest =~= rest);
                },
                Err(_) => {},
            }
        }
        while remaining > 0
            invariant
                16 <= pos <= len,
                len == bytes@.len(),
                body == bytes@.skip(16),
                ContentKind::with_code(spec_u32_from_le_bytes(bytes@.subrange(0, 4))) == Some(kind),
                version == spec_u32_from_le_bytes(bytes@.subrange(4, 8)),
                count == spec_u64_from_le_bytes(bytes@.subrange(8, 16)),
                fields_ordered(fields@),
                floor is None ==> fields@.len() == 0,
                floor matches Some(top) ==> forall|k: int|
                    0 <= k < fields@.len() ==> (#[trigger] fields@[k]).key <= top,
                read_fields(body, count as nat, -1) == extend(
                    pairs(fields@),
                    pos - 16,
                    read_fields(
                        bytes@.skip(pos as int),
                        remaining as nat,
                        match floor {
                            Some(top) => top as int,
                            None => -1,
                        },
                    ),
                ),
            decreases remaining,
        {
            let ghost cur = bytes@.skip(pos as int);
            let ghost low: int = match floor {
                Some(top) => top as int,
                None => -1,
            };
            let ghost acc = pairs(fields@);
            if len - pos < 4 {
                return Err(StoreError::SerializationError(Serialization::Truncated));
            }
            let key = u32_from_le_bytes(slice_subrange(bytes, pos, pos + 4));
            proof {
                assert(cur.subrange(0, 4) =~= bytes@.subrange(pos as int, pos + 4));
            }
            match floor {
                Some(top) => {
                    if key == top {
                        return Err(StoreError::SerializationError(Serialization::DuplicateKey(key)));
                    }
                    if key < top {
                        return Err(StoreError::SerializationError(Serialization::Malformed));
                    }
                },
                None => {},
            }
            let (value, next) = match decode_value(bytes, pos + 4) {
                Ok(found) => found,
                Err(e) => {
                    proof {
                        assert(cur.skip(4) =~= bytes@.skip(pos + 4));
                    }
                    return Err(StoreError::SerializationError(e));
                },
            };
            proof {
                assert(cur.skip(4) =~= bytes@.skip(pos + 4));
                let used = next - (pos + 4);
                assert(cur.skip(4 + used) =~= bytes@.skip(next as int));
                let tail = read_fields(bytes@.skip(next as int), (remaining - 1) as nat, key as int);
                let grown = acc.push((key, value@));
                match tail {
                    Ok((rest, more)) => {
                        assert(acc + (seq![(key, value@)] + rest) =~= grown + rest);
                    },
                    Err(_) => {},
                }
            }
            let ghost before = fields@;
            fields.push(Field { key, value });
            proof {
                assert(pairs(fields@) =~= acc.push((key, value@)));
                assert forall|i: int, j: int| 0 <= i < j < fields@.len() implies (
                #[trigger] fields@[i]).key < (#[trigger] fields@[j]).key by {
                    if j < before.len() {
                        assert(before[i].key < before[j].key);
                    } else {
                        assert(before[i].key <= low);
                    }
                }
            }
            floor = Some(key);
            pos = next;
            remaining = remaining - 1;
        }
        proof {
            assert(pairs(fields@) + Seq::<(u32, ValueView)>::empty() =~= pairs(fields@));
            lemma_map_of_pairs(fields@);
        }
        if pos != len {
            return Err(StoreError::SerializationError(Serialization::TrailingBytes));
        }
        Ok(ContentEnvelope { kind, version, fields })
    }
}

/// The bytes of one field: its key and its value.
spec fn field_bytes(f: Field) -> Seq<u8> {
    spec_u32_to_le_bytes(f.key) + value_bytes(f.value@)
}

proof fn lemma_fields_from_left(s: Seq<Field>)
    requires
        s.len() > 0,
    ensures
        fields_bytes(s) == field_bytes(s[0]) + fields_bytes(s.skip(1)),
    decreases s.len(),
{
    if s.len() == 1 {
        assert(s.drop_last() =~= Seq::<Field>::empty());
        assert(s.skip(1) =~= Seq::<Field>::empty());
        assert(fields_bytes(s) =~= field_bytes(s[0]) + fields_bytes(s.skip(1)));
    } else {
        let front = s.drop_last();
        lemma_fields_from_left(front);
        assert(s.skip(1).drop_last() =~= front.skip(1));
        assert(s.skip(1).last() == s.last());
        assert(front[0] == s[0]);
        assert(fields_bytes(s) =~= field_bytes(s[0]) + fields_bytes(s.skip(1)));
    }
}

proof fn lemma_read_value(v: FieldValue, tail: Seq<u8>)
    ensures
        read_value(value_bytes(v@) + tail) == Ok::<(ValueView, int), Serialization>(
            (v@, value_bytes(v@).len() as int),
        ),
{
    lemma_auto_spec_u64_to_from_le_bytes();
    let b = value_bytes(v@) + tail;
    match v {
        FieldValue::Flag(x) => {
            assert(b[0] == 0 && b[1] == if x { 1u8 } else { 0u8 });
        },
        FieldValue::Number(n) => {
            assert(b[0] == 1);
            assert(b.subrange(1, 9) =~= spec_u64_to_le_bytes(n));
        },
        FieldValue::Bytes(data) => {
            let n = data.len() as u64;
            assert(n == data@.len());
            assert(b[0] == 2);
            assert(b.subrange(1, 9) =~= spec_u64_to_le_bytes(n));
            assert(b.subrange(9, 9 + n) =~= data@);
        },
    }
}

proof fn lemma_read_fields(s: Seq<Field>, floor: int, tail: Seq<u8>)
    requires
        fields_ordered(s),
        s.len() > 0 ==> floor < s[0].key,
    ensures
        read_fields(fields_bytes(s) + tail, s.len(), floor) == Ok::<
            (Seq<(u32, ValueView)>, int),
            Serialization,
        >((pairs(s), fields_bytes(s).len() as int)),
    decreases s.len(),
{
    if s.len() == 0 {
        assert(pairs(s) =~= Seq::<(u32, ValueView)>::empty());
    } else {
        lemma_auto_spec_u32_to_from_le_bytes();
        lemma_fields_from_left(s);
        let first = s[0];
        let rest = s.skip(1);
        let b = fields_bytes(s) + tail;
        let vb = value_bytes(first.value@);
        let after = fields_bytes(rest) + tail;
        assert(b =~= spec_u32_to_le_bytes(first.key) + (vb + after));
        assert(b.subrange(0, 4) =~= spec_u32_to_le_bytes(first.key));
        assert(b.skip(4) =~= vb + after);
        lemma_read_value(first.value, after);
        assert(b.skip(4 + vb.len() as int) =~= after);
        assert(fields_ordered(rest)) by {
            assert forall|i: int, j: int| 0 <= i < j < rest.len() implies (#[trigger] rest[i]).key
                < (#[trigger] rest[j]).key by {
                assert(s[i + 1].key < s[j + 1].key);
            }
        }
        if rest.len() > 0 {
            assert(s[0].key < s[1].key);
            assert(rest[0] == s[1]);
        }
        lemma_read_fields(rest, first.key as int, tail);
        assert(seq![(first.key, first.value@)] + pairs(rest) =~= pairs(s));
        assert(fields_bytes(s).len() == 4 + vb.len() + fields_bytes(rest).len());
    }
}

/// The canonical bytes of a payload are read back as that payload.
pub proof fn decode_of_encode(e: &ContentEnvelope)
    requires
        e.wf(),
    ensures
        read_envelope(canonical_bytes(e@)) == Ok::<EnvelopeView, Serialization>(e@),
{
    lemma_auto_spec_u32_to_from_le_bytes();
    lemma_auto_spec_u64_to_from_le_bytes();
    e.lemma_canonical();
    let s = e.spec_fields();
    let k = spec_u32_to_le_bytes(e@.kind.spec_code());
    let v = spec_u32_to_le_bytes(e@.version);
    let count = e.fields.len() as u64;
    assert(count == s.len());
    let c = spec_u64_to_le_bytes(count);
    let b = canonical_bytes(e@);
    assert(b =~= k + v + c + fields_bytes(s));
    assert(b.subrange(0, 4) =~= k);
    assert(b.subrange(4, 8) =~= v);
    assert(b.subrange(8, 16) =~= c);
    assert(b.skip(16) =~= fields_bytes(s) + Seq::<u8>::empty());
    lemma_read_fields(s, -1, Seq::<u8>::empty());
    lemma_map_of_pairs(s);
    assert(ContentKind::with_code(e@.kind.spec_code()) == Some(e@.kind));
}

} // verus!
