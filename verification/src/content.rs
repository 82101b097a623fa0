//! Stored content: typed, versioned payloads in canonical form.

use vstd::prelude::*;
use vstd::bytes::{spec_u32_to_le_bytes, spec_u64_to_le_bytes, u32_to_le_bytes, u64_to_le_bytes};
use crate::digest::{blake3_hash, ContentHash};
use crate::error::{Serialization, StoreError};

verus! {

/// The kinds of content that the store holds.
#[derive(Clone, Copy, Debug, PartialEq, Eq, Structural, Hash)]
pub enum ContentKind {
    Any,
    AttributePrototype,
    Component,
    DeprecatedAction,
    DeprecatedActionBatch,
    DeprecatedActionPrototype,
    DeprecatedActionRunner,
    Func,
    FuncArgument,
    InputSocket,
    Module,
    Prop,
    Schema,
    SchemaVariant,
    Secret,
    StaticArgumentValue,
    Validation,
    OutputSocket,
}

impl ContentKind {
    /// The number that stands for the kind in canonical bytes: its place in
    /// the list of kinds, from 0. Kinds are only ever added at the end.
    pub open spec fn spec_code(self) -> u32 {
        match self {
            ContentKind::Any => 0,
            ContentKind::AttributePrototype => 1,
            ContentKind::Component => 2,
            ContentKind::DeprecatedAction => 3,
            ContentKind::DeprecatedActionBatch => 4,
            ContentKind::DeprecatedActionPrototype => 5,
            ContentKind::DeprecatedActionRunner => 6,
            ContentKind::Func => 7,
            ContentKind::FuncArgument => 8,
            ContentKind::InputSocket => 9,
            ContentKind::Module => 10,
            ContentKind::Prop => 11,
            ContentKind::Schema => 12,
            ContentKind::SchemaVariant => 13,
            ContentKind::Secret => 14,
            ContentKind::StaticArgumentValue => 15,
            ContentKind::Validation => 16,
            ContentKind::OutputSocket => 17,
        }
    }

    pub fn code(&self) -> (c: u32)
        ensures
            c == self.spec_code(),
    {
        match self {
            ContentKind::Any => 0,
            ContentKind::AttributePrototype => 1,
            ContentKind::Component => 2,
            ContentKind::DeprecatedAction => 3,
            ContentKind::DeprecatedActionBatch => 4,
            ContentKind::DeprecatedActionPrototype => 5,
            ContentKind::DeprecatedActionRunner => 6,
            ContentKind::Func => 7,
            ContentKind::FuncArgument => 8,
            ContentKind::InputSocket => 9,
            ContentKind::Module => 10,
            ContentKind::Prop => 11,
            ContentKind::Schema => 12,
            ContentKind::SchemaVariant => 13,
            ContentKind::Secret => 14,
            ContentKind::StaticArgumentValue => 15,
            ContentKind::Validation => 16,
            ContentKind::OutputSocket => 17,
        }
    }

    /// The kind that `code` stands for, if it stands for one.
    pub open spec fn with_code(code: u32) -> Option<ContentKind> {
        if code == 0 {
            Some(ContentKind::Any)
        } else if code == 1 {
            Some(ContentKind::AttributePrototype)
        } else if code == 2 {
            Some(ContentKind::Component)
        } else if code == 3 {
            Some(ContentKind::DeprecatedAction)
        } else if code == 4 {
            Some(ContentKind::DeprecatedActionBatch)
        } else if code == 5 {
            Some(ContentKind::DeprecatedActionPrototype)
        } else if code == 6 {
            Some(ContentKind::DeprecatedActionRunner)
        } else if code == 7 {
            Some(ContentKind::Func)
        } else if code == 8 {
            Some(ContentKind::FuncArgument)
        } else if code == 9 {
            Some(ContentKind::InputSocket)
        } else if code == 10 {
            Some(ContentKind::Module)
        } else if code == 11 {
            Some(ContentKind::Prop)
        } else if code == 12 {
            Some(ContentKind::Schema)
        } else if code == 13 {
            Some(ContentKind::SchemaVariant)
        } else if code == 14 {
            Some(ContentKind::Secret)
        } else if code == 15 {
            Some(ContentKind::StaticArgumentValue)
        } else if code == 16 {
            Some(ContentKind::Validation)
        } else if code == 17 {
            Some(ContentKind::OutputSocket)
        } else {
            None
        }
    }

    /// The kind that `code` stands for, if it stands for one.
    pub fn from_code(code: u32) -> (k: Option<ContentKind>)
        ensures
            k == Self::with_code(code),
            k matches Some(kind) ==> kind.spec_code() == code,
            k is None <==> code > 17,
    {
        match code {
            0 => Some(ContentKind::Any),
            1 => Some(ContentKind::AttributePrototype),
            2 => Some(ContentKind::Component),
            3 => Some(ContentKind::DeprecatedAction),
            4 => Some(ContentKind::DeprecatedActionBatch),
            5 => Some(ContentKind::DeprecatedActionPrototype),
            6 => Some(ContentKind::DeprecatedActionRunner),
            7 => Some(ContentKind::Func),
            8 => Some(ContentKind::FuncArgument),
            9 => Some(ContentKind::InputSocket),
            10 => Some(ContentKind::Module),
            11 => Some(ContentKind::Prop),
            12 => Some(ContentKind::Schema),
            13 => Some(ContentKind::SchemaVariant),
            14 => Some(ContentKind::Secret),
            15 => Some(ContentKind::StaticArgumentValue),
            16 => Some(ContentKind::Validation),
            17 => Some(ContentKind::OutputSocket),
            _ => None,
        }
    }
}

/// The value of one field of a payload.
#[derive(Debug, PartialEq, Eq)]
pub enum FieldValue {
    Flag(bool),
    Number(u64),
    Bytes(Vec<u8>),
}

/// What a field value is.
pub ghost enum ValueView {
    Flag(bool),
    Number(u64),
    Bytes(Seq<u8>),
}

impl View for FieldValue {
    type V = ValueView;

    open spec fn view(&self) -> ValueView {
        match self {
            FieldValue::Flag(b) => ValueView::Flag(*b),
            FieldValue::Number(n) => ValueView::Number(*n),
            FieldValue::Bytes(v) => ValueView::Bytes(v@),
        }
    }
}

fn copy_bytes(src: &Vec<u8>) -> (out: Vec<u8>)
    ensures
        out@ == src@,
{
    let mut out: Vec<u8> = Vec::new();
    let mut i: usize = 0;
    while i < src.len()
        invariant
            i <= src@.len(),
            out@ == src@.take(i as int),
        decreases src@.len() - i,
    {
        out.push(src[i]);
        proof {
            assert(src@.take(i as int).push(src@[i as int]) =~= src@.take(i + 1));
        }
        i += 1;
    }
    proof {
        assert(src@.take(src@.len() as int) =~= src@);
    }
    out
}

fn bytes_same(a: &Vec<u8>, b: &Vec<u8>) -> (r: bool)
    ensures
        r == (a@ == b@),
{
    if a.len() != b.len() {
        return false;
    }
    let mut i: usize = 0;
    while i < a.len()
        invariant
            i <= a@.len(),
            a@.len() == b@.len(),
            forall|k: int| 0 <= k < i ==> a@[k] == b@[k],
        decreases a@.len() - i,
    {
        if a[i] != b[i] {
            return false;
        }
        i += 1;
    }
    assert(a@ =~= b@);
    true
}

impl FieldValue {
    /// A copy of the value.
    pub fn duplicate(&self) -> (v: FieldValue)
        ensures
            v@ == self@,
    {
        match self {
            FieldValue::Flag(b) => FieldValue::Flag(*b),
            FieldValue::Number(n) => FieldValue::Number(*n),
            FieldValue::Bytes(v) => FieldValue::Bytes(copy_bytes(v)),
        }
    }

    pub fn same_as(&self, other: &FieldValue) -> (r: bool)
        ensures
            r == (self@ == other@),
    {
        match (self, other) {
            (FieldValue::Flag(a), FieldValue::Flag(b)) => *a == *b,
            (FieldValue::Number(a), FieldValue::Number(b)) => *a == *b,
            (FieldValue::Bytes(a), FieldValue::Bytes(b)) => bytes_same(a, b),
            _ => false,
        }
    }
}

/// One field of a payload: a numbered key and its value.
#[derive(Debug, PartialEq, Eq)]
pub struct Field {
    pub key: u32,
    pub value: FieldValue,
}

/// Keys strictly increasing.
pub open spec fn fields_ordered(s: Seq<Field>) -> bool {
    forall|i: int, j: int| 0 <= i < j < s.len() ==> (#[trigger] s[i]).key < (#[trigger] s[j]).key
}

pub open spec fn has_key(s: Seq<Field>, key: u32) -> bool {
    exists|i: int| 0 <= i < s.len() && (#[trigger] s[i]).key == key
}

pub open spec fn key_index(s: Seq<Field>, key: u32) -> int {
    choose|i: int| 0 <= i < s.len() && (#[trigger] s[i]).key == key
}

/// The fields of a list, by key. Of fields with the same key the map holds one.
pub open spec fn field_map(s: Seq<Field>) -> Map<u32, ValueView> {
    Map::new(|key: u32| has_key(s, key), |key: u32| s[key_index(s, key)].value@)
}

pub(crate) proof fn lemma_field_at(s: Seq<Field>, i: int)
    requires
        fields_ordered(s),
        0 <= i < s.len(),
    ensures
        has_key(s, s[i].key),
        key_index(s, s[i].key) == i,
        field_map(s).contains_key(s[i].key),
        field_map(s)[s[i].key] == s[i].value@,
{
    assert(s[i].key == s[i].key);
    let k = key_index(s, s[i].key);
    if k < i {
        assert(s[k].key < s[i].key);
    }
    if i < k {
        assert(s[i].key < s[k].key);
    }
}

proof fn lemma_field_insert(s: Seq<Field>, p: int, f: Field)
    requires
        fields_ordered(s),
        0 <= p <= s.len(),
        forall|k: int| 0 <= k < p ==> (#[trigger] s[k]).key < f.key,
        forall|k: int| p <= k < s.len() ==> f.key < (#[trigger] s[k]).key,
    ensures
        fields_ordered(s.insert(p, f)),
        field_map(s.insert(p, f)) == field_map(s).insert(f.key, f.value@),
{
    let t = s.insert(p, f);
    assert forall|i: int, j: int| 0 <= i < j < t.len() implies (#[trigger] t[i]).key < (
    #[trigger] t[j]).key by {
        let a = if i < p { s[i] } else if i == p { f } else { s[i - 1] };
        let b = if j < p { s[j] } else if j == p { f } else { s[j - 1] };
        assert(t[i] == a);
        assert(t[j] == b);
        if i < p && j < p {
            assert(s[i].key < s[j].key);
        } else if i > p && j > p {
            assert(s[i - 1].key < s[j - 1].key);
        } else if i < p && j > p {
            assert(s[i].key < f.key);
            assert(f.key < s[j - 1].key);
        }
    }
    assert forall|key: u32| #[trigger] field_map(t).contains_key(key) <==> field_map(s).insert(
        f.key,
        f.value@,
    ).contains_key(key) by {
        if has_key(t, key) {
            let k = key_index(t, key);
            if k < p {
                assert(s[k].key == key);
            } else if k > p {
                assert(s[k - 1].key == key);
            }
        }
        if key == f.key {
            assert(t[p].key == key);
        } else if has_key(s, key) {
            let k = key_index(s, key);
            if k < p {
                assert(t[k].key == key);
            } else {
                assert(t[k + 1].key == key);
            }
        }
    }
    assert forall|key: u32| #[trigger] field_map(t).contains_key(key) implies field_map(t)[key]
        == field_map(s).insert(f.key, f.value@)[key] by {
        let k = key_index(t, key);
        lemma_field_at(t, k);
        if k < p {
            assert(t[k] == s[k]);
            lemma_field_at(s, k);
        } else if k > p {
            assert(t[k] == s[k - 1]);
            lemma_field_at(s, k - 1);
        } else {
            assert(t[k] == f);
        }
    }
    assert(field_map(t) =~= field_map(s).insert(f.key, f.value@));
}

proof fn lemma_field_update(s: Seq<Field>, p: int, f: Field)
    requires
        fields_ordered(s),
        0 <= p < s.len(),
        f.key == s[p].key,
    ensures
        fields_ordered(s.update(p, f)),
        field_map(s.update(p, f)) == field_map(s).insert(f.key, f.value@),
{
    let t = s.update(p, f);
    assert forall|i: int, j: int| 0 <= i < j < t.len() implies (#[trigger] t[i]).key < (
    #[trigger] t[j]).key by {
        assert(s[i].key < s[j].key);
    }
    assert forall|key: u32| #[trigger] field_map(t).contains_key(key) <==> field_map(s).insert(
        f.key,
        f.value@,
    ).contains_key(key) by {
        if has_key(t, key) {
            let k = key_index(t, key);
            assert(s[k].key == key);
        }
        if key == f.key {
            assert(t[p].key == key);
        } else if has_key(s, key) {
            let k = key_index(s, key);
            assert(t[k].key == key);
        }
    }
    assert forall|key: u32| #[trigger] field_map(t).contains_key(key) implies field_map(t)[key]
        == field_map(s).insert(f.key, f.value@)[key] by {
        let k = key_index(t, key);
        lemma_field_at(t, k);
        if k != p {
            assert(t[k] == s[k]);
            lemma_field_at(s, k);
        }
    }
    assert(field_map(t) =~= field_map(s).insert(f.key, f.value@));
}

proof fn lemma_field_remove(s: Seq<Field>, p: int)
    requires
        fields_ordered(s),
        0 <= p < s.len(),
    ensures
        fields_ordered(s.remove(p)),
        field_map(s.remove(p)) == field_map(s).remove(s[p].key),
{
    let t = s.remove(p);
    assert forall|i: int, j: int| 0 <= i < j < t.len() implies (#[trigger] t[i]).key < (
    #[trigger] t[j]).key by {
        let i0 = if i < p { i } else { i + 1 };
        let j0 = if j < p { j } else { j + 1 };
        assert(t[i] == s[i0]);
        assert(t[j] == s[j0]);
        assert(s[i0].key < s[j0].key);
    }
    assert forall|key: u32| #[trigger] field_map(t).contains_key(key) <==> field_map(s).remove(
        s[p].key,
    ).contains_key(key) by {
        if has_key(t, key) {
            let k = key_index(t, key);
            let k0 = if k < p { k } else { k + 1 };
            assert(t[k] == s[k0]);
            assert(s[k0].key == key);
            if k0 < p {
                assert(s[k0].key < s[p].key);
            } else {
                assert(s[p].key < s[k0].key);
            }
        }
        if key != s[p].key && has_key(s, key) {
            let k = key_index(s, key);
            if k < p {
                assert(t[k].key == key);
            } else {
                assert(t[k - 1].key == key);
            }
        }
    }
    assert forall|key: u32| #[trigger] field_map(t).contains_key(key) implies field_map(t)[key]
        == field_map(s).remove(s[p].key)[key] by {
        let k = key_index(t, key);
        lemma_field_at(t, k);
        let k0 = if k < p { k } else { k + 1 };
        assert(t[k] == s[k0]);
        lemma_field_at(s, k0);
    }
    assert(field_map(t) =~= field_map(s).remove(s[p].key));
}

/// Two ordered field lists that hold the same fields agree position by position.
proof fn lemma_fields_unique(a: Seq<Field>, b: Seq<Field>)
    requires
        fields_ordered(a),
        fields_ordered(b),
        field_map(a) == field_map(b),
    ensures
        a.len() == b.len(),
        forall|i: int|
            0 <= i < a.len() ==> (#[trigger] a[i]).key == b[i].key && a[i].value@ == b[i].value@,
    decreases a.len(),
{
    if a.len() == 0 {
        if b.len() > 0 {
            lemma_field_at(b, 0);
            assert(has_key(a, b[0].key));
        }
    } else {
        let la = a.len() - 1;
        lemma_field_at(a, la);
        assert(has_key(b, a[la].key));
        let lb = b.len() - 1;
        lemma_field_at(b, lb);
        assert(has_key(a, b[lb].key));
        let ka = key_index(a, b[lb].key);
        let kb = key_index(b, a[la].key);
        if ka < la {
            assert(a[ka].key < a[la].key);
        }
        if kb < lb {
            assert(b[kb].key < b[lb].key);
        }
        assert(a[la].key == b[lb].key);
        lemma_field_remove(a, la);
        lemma_field_remove(b, lb);
        assert(a.remove(la) =~= a.drop_last());
        assert(b.remove(lb) =~= b.drop_last());
        let a1 = a.drop_last();
        let b1 = b.drop_last();
        lemma_fields_unique(a1, b1);
        assert forall|i: int| 0 <= i < a.len() implies (#[trigger] a[i]).key == b[i].key
            && a[i].value@ == b[i].value@ by {
            if i < la {
                assert(a1[i].key == b1[i].key);
                assert(a1[i] == a[i]);
                assert(b1[i] == b[i]);
            }
        }
    }
}

/// The bytes of a value: one byte that tells flag, number or bytes, then the
/// flag as one byte, the number as eight bytes, least significant first, or
/// the bytes after their number.
pub open spec fn value_bytes(v: ValueView) -> Seq<u8> {
    match v {
        ValueView::Flag(b) => seq![0u8, if b { 1u8 } else { 0u8 }],
        ValueView::Number(n) => seq![1u8] + spec_u64_to_le_bytes(n),
        ValueView::Bytes(s) => seq![2u8] + spec_u64_to_le_bytes(s.len() as u64) + s,
    }
}

pub open spec fn fields_bytes(s: Seq<Field>) -> Seq<u8>
    decreases s.len(),
{
    if s.len() == 0 {
        Seq::<u8>::empty()
    } else {
        fields_bytes(s.drop_last()) + spec_u32_to_le_bytes(s.last().key) + value_bytes(
            s.last().value@,
        )
    }
}

/// The bytes of a payload: kind, version, number of fields, fields.
pub open spec fn payload_bytes(kind: ContentKind, version: u32, s: Seq<Field>) -> Seq<u8> {
    spec_u32_to_le_bytes(kind.spec_code()) + spec_u32_to_le_bytes(version) + spec_u64_to_le_bytes(
        s.len() as u64,
    ) + fields_bytes(s)
}

proof fn lemma_fields_bytes_agree(a: Seq<Field>, b: Seq<Field>)
    requires
        a.len() == b.len(),
        forall|i: int|
            0 <= i < a.len() ==> (#[trigger] a[i]).key == b[i].key && a[i].value@ == b[i].value@,
    ensures
        fields_bytes(a) == fields_bytes(b),
    decreases a.len(),
{
    if a.len() > 0 {
        let a1 = a.drop_last();
        let b1 = b.drop_last();
        assert forall|i: int| 0 <= i < a1.len() implies (#[trigger] a1[i]).key == b1[i].key
            && a1[i].value@ == b1[i].value@ by {
            assert(a1[i] == a[i]);
            assert(b1[i] == b[i]);
        }
        lemma_fields_bytes_agree(a1, b1);
        assert(a[a.len() - 1].key == b[a.len() - 1].key);
    }
}

/// What a payload is: its kind, its version and its fields by key.
pub ghost struct EnvelopeView {
    pub kind: ContentKind,
    pub version: u32,
    pub fields: Map<u32, ValueView>,
}

/// The one ordered field list that holds exactly the fields `m`.
pub open spec fn canonical_fields(m: Map<u32, ValueView>) -> Seq<Field> {
    choose|s: Seq<Field>| fields_ordered(s) && field_map(s) == m
}

/// The canonical bytes of a payload: its fields in increasing order of key,
/// every number in a fixed width.
pub open spec fn canonical_bytes(v: EnvelopeView) -> Seq<u8> {
    payload_bytes(v.kind, v.version, canonical_fields(v.fields))
}

/// The hash of a payload: the digest of its canonical bytes.
pub open spec fn content_hash_of(v: EnvelopeView) -> Seq<u8> {
    blake3_hash(canonical_bytes(v))
}

/// A typed, versioned payload. Its fields are kept in order of key, so that
/// payloads with the same fields are the same whatever the order in which
/// the fields were set.
#[derive(Debug, PartialEq, Eq)]
pub struct ContentEnvelope {
    pub(crate) kind: ContentKind,
    pub(crate) version: u32,
    pub(crate) fields: Vec<Field>,
}

impl View for ContentEnvelope {
    type V = EnvelopeView;

    open(crate) spec fn view(&self) -> EnvelopeView {
        EnvelopeView { kind: self.kind, version: self.version, fields: field_map(self.fields@) }
    }
}

impl ContentEnvelope {
    pub open(crate) spec fn wf(&self) -> bool {
        fields_ordered(self.fields@)
    }

    /// The fields in the order in which the payload keeps them.
    pub open(crate) spec fn spec_fields(&self) -> Seq<Field> {
        self.fields@
    }

    /// The bytes of a payload are the canonical bytes of what it is.
    pub proof fn lemma_canonical(&self)
        requires
            self.wf(),
        ensures
            payload_bytes(self@.kind, self@.version, self.spec_fields()) == canonical_bytes(self@),
    {
        let c = canonical_fields(self@.fields);
        assert(fields_ordered(self.fields@) && field_map(self.fields@) == self@.fields);
        lemma_fields_unique(c, self.fields@);
        lemma_fields_bytes_agree(c, self.fields@);
    }

    /// A payload of this kind and version without fields.
    pub fn new(kind: ContentKind, version: u32) -> (e: ContentEnvelope)
        ensures
            e.wf(),
            e@ == (EnvelopeView { kind, version, fields: Map::<u32, ValueView>::empty() }),
    {
        let e = ContentEnvelope { kind, version, fields: Vec::new() };
        assert(e@.fields =~= Map::<u32, ValueView>::empty());
        e
    }

    pub fn kind(&self) -> (k: ContentKind)
        ensures
            k == self@.kind,
    {
        self.kind
    }

    pub fn version(&self) -> (v: u32)
        ensures
            v == self@.version,
    {
        self.version
    }

    /// Number of fields.
    pub fn len(&self) -> (n: usize)
        ensures
            n == self.spec_fields().len(),
    {
        self.fields.len()
    }

    /// Where the field `key` stands, or would stand.
    fn position(&self, key: u32) -> (pos: usize)
        requires
            self.wf(),
        ensures
            pos <= self.fields@.len(),
            forall|k: int| 0 <= k < pos ==> (#[trigger] self.fields@[k]).key < key,
            forall|k: int| pos <= k < self.fields@.len() ==> key <= (#[trigger] self.fields@[k]).key,
            self@.fields.contains_key(key) <==> (pos < self.fields@.len()
                && self.fields@[pos as int].key == key),
            self@.fields.contains_key(key) ==> self@.fields[key] == self.fields@[pos as int].value@,
    {
        let mut lo: usize = 0;
        let mut hi: usize = self.fields.len();
        while lo < hi
            invariant
                lo <= hi <= self.fields@.len(),
                fields_ordered(self.fields@),
                forall|k: int| 0 <= k < lo ==> (#[trigger] self.fields@[k]).key < key,
                forall|k: int|
                    hi <= k < self.fields@.len() ==> key <= (#[trigger] self.fields@[k]).key,
            decreases hi - lo,
        {
            let mid = lo + (hi - lo) / 2;
            if self.fields[mid].key < key {
                proof {
                    assert forall|k: int| 0 <= k < mid + 1 implies (#[trigger] self.fields@[k]).key
                        < key by {
                        if k < mid {
                            assert(self.fields@[k].key < self.fields@[mid as int].key);
                        }
                    }
                }
                lo = mid + 1;
            } else {
                proof {
                    assert forall|k: int| mid <= k < self.fields@.len() implies key <= (
                    #[trigger] self.fields@[k]).key by {
                        if k > mid {
                            assert(self.fields@[mid as int].key < self.fields@[k].key);
                        }
                    }
                }
                hi = mid;
            }
        }
        proof {
            let s = self.fields@;
            if has_key(s, key) {
                let k = key_index(s, key);
                assert(s[k].key == key);
                if k < lo {
                    assert(s[k].key < key);
                }
                if k > lo {
                    assert(s[lo as int].key < s[k].key);
                    assert(key <= s[lo as int].key);
                }
                lemma_field_at(s, lo as int);
            }
            if lo < s.len() && s[lo as int].key == key {
                lemma_field_at(s, lo as int);
            }
        }
        lo
    }

    /// The value of the field `key`, if the payload has the field.
    pub fn get(&self, key: u32) -> (r: Option<&FieldValue>)
        requires
            self.wf(),
        ensures
            r is Some == self@.fields.contains_key(key),
            r is Some ==> r->0@ == self@.fields[key],
    {
        let pos = self.position(key);
        if pos < self.fields.len() && self.fields[pos].key == key {
            Some(&self.fields[pos].value)
        } else {
            None
        }
    }

    /// Gives the field `key` this value, whether or not the payload has the field.
    pub fn set(&mut self, key: u32, value: FieldValue)
        requires
            old(self).wf(),
        ensures
            final(self).wf(),
            final(self)@ == (EnvelopeView {
                kind: old(self)@.kind,
                version: old(self)@.version,
                fields: old(self)@.fields.insert(key, value@),
            }),
    {
        let pos = self.position(key);
        let ghost before = self.fields@;
        let field = Field { key, value };
        if pos < self.fields.len() && self.fields[pos].key == key {
            proof {
                lemma_field_update(before, pos as int, field);
            }
            self.fields[pos] = field;
        } else {
            proof {
                lemma_field_insert(before, pos as int, field);
            }
            self.fields.insert(pos, field);
        }
    }

    /// Takes the field `key` out; does nothing if the payload has no such field.
    pub fn unset(&mut self, key: u32)
        requires
            old(self).wf(),
        ensures
            final(self).wf(),
            final(self)@ == (EnvelopeView {
                kind: old(self)@.kind,
                version: old(self)@.version,
                fields: old(self)@.fields.remove(key),
            }),
    {
        let pos = self.position(key);
        let ghost before = self.fields@;
        if pos < self.fields.len() && self.fields[pos].key == key {
            proof {
                lemma_field_remove(before, pos as int);
            }
            self.fields.remove(pos);
        } else {
            assert(self@.fields.remove(key) =~= self@.fields);
        }
    }

    /// The payload of this kind and version with the given fields, whatever
    /// their order. It fails where two of them have the same key.
    pub fn from_fields(kind: ContentKind, version: u32, fields: Vec<Field>) -> (r: Result<
        ContentEnvelope,
        StoreError,
    >)
        ensures
            r is Ok <==> fields@.map_values(|f: Field| f.key).no_duplicates(),
            r matches Ok(e) ==> {
                &&& e.wf()
                &&& e@.kind == kind
                &&& e@.version == version
                &&& forall|i: int|
                    0 <= i < fields@.len() ==> e@.fields.contains_key((#[trigger] fields@[i]).key)
                        && e@.fields[fields@[i].key] == fields@[i].value@
                &&& forall|key: u32| #[trigger]
                    e@.fields.contains_key(key) ==> exists|i: int|
                        0 <= i < fields@.len() && (#[trigger] fields@[i]).key == key
            },
            r matches Err(err) ==> exists|i: int, j: int|
                0 <= i < j < fields@.len() && (#[trigger] fields@[i]).key == (
                #[trigger] fields@[j]).key && err == StoreError::SerializationError(
                    Serialization::DuplicateKey(fields@[i].key),
                ),
    {
        let mut e = ContentEnvelope::new(kind, version);
        let ghost keys = fields@.map_values(|f: Field| f.key);
        let mut i: usize = 0;
        while i < fields.len()
            invariant
                i <= fields@.len(),
                e.wf(),
                e@.kind == kind,
                e@.version == version,
                keys == fields@.map_values(|f: Field| f.key),
                forall|a: int, b: int| 0 <= a < b < i ==> fields@[a].key != fields@[b].key,
                forall|k: int|
                    0 <= k < i ==> e@.fields.contains_key((#[trigger] fields@[k]).key)
                        && e@.fields[fields@[k].key] == fields@[k].value@,
                forall|key: u32| #[trigger]
                    e@.fields.contains_key(key) ==> exists|k: int|
                        0 <= k < i && (#[trigger] fields@[k]).key == key,
            decreases fields@.len() - i,
        {
            let key = fields[i].key;
            if e.get(key).is_some() {
                proof {
                    let k = choose|k: int| 0 <= k < i && (#[trigger] fields@[k]).key == key;
                    assert(keys[k] == keys[i as int]);
                }
                return Err(StoreError::SerializationError(Serialization::DuplicateKey(key)));
            }
            let ghost before = e@.fields;
            e.set(key, fields[i].value.duplicate());
            proof {
                assert forall|k: int| 0 <= k < i + 1 implies e@.fields.contains_key(
                    (#[trigger] fields@[k]).key,
                ) && e@.fields[fields@[k].key] == fields@[k].value@ by {
                    if k < i {
                        assert(before.contains_key(fields@[k].key));
                    }
                }
                assert forall|key2: u32| #[trigger] e@.fields.contains_key(key2) implies exists|
                    k: int,
                | 0 <= k < i + 1 && (#[trigger] fields@[k]).key == key2 by {
                    if key2 == key {
                        assert(fields@[i as int].key == key2);
                    } else {
                        let k = choose|k: int| 0 <= k < i && (#[trigger] fields@[k]).key == key2;
                        assert(fields@[k].key == key2);
                    }
                }
                assert forall|a: int, b: int| 0 <= a < b < i + 1 implies fields@[a].key
                    != fields@[b].key by {
                    if b == i {
                        assert(before.contains_key(fields@[a].key));
                    }
                }
            }
            i += 1;
        }
        proof {
            assert forall|a: int, b: int| 0 <= a < keys.len() && 0 <= b < keys.len() && a
                != b implies keys[a] != keys[b] by {
                if a < b {
                    assert(fields@[a].key != fields@[b].key);
                } else {
                    assert(fields@[b].key != fields@[a].key);
                }
            }
        }
        Ok(e)
    }

    /// Whether two payloads are the same: same kind, same version, same fields.
    pub fn same_as(&self, other: &ContentEnvelope) -> (r: bool)
        requires
            self.wf(),
            other.wf(),
        ensures
            r == (self@ == other@),
    {
        if self.kind != other.kind || self.version != other.version || self.fields.len()
            != other.fields.len() {
            proof {
                if self@ == other@ {
                    lemma_fields_unique(self.fields@, other.fields@);
                }
            }
            return false;
        }
        let mut i: usize = 0;
        while i < self.fields.len()
            invariant
                i <= self.fields@.len(),
                self.fields@.len() == other.fields@.len(),
                self.wf(),
                other.wf(),
                self.kind == other.kind,
                self.version == other.version,
                forall|k: int|
                    0 <= k < i ==> (#[trigger] self.fields@[k]).key == other.fields@[k].key
                        && self.fields@[k].value@ == other.fields@[k].value@,
            decreases self.fields@.len() - i,
        {
            if self.fields[i].key != other.fields[i].key || !self.fields[i].value.same_as(
                &other.fields[i].value,
            ) {
                proof {
                    if self@ == other@ {
                        lemma_fields_unique(self.fields@, other.fields@);
                        assert(self.fields@[i as int].key == other.fields@[i as int].key);
                    }
                }
                return false;
            }
            i += 1;
        }
        proof {
            lemma_fields_agree(self.fields@, other.fields@);
        }
        true
    }

    /// The canonical bytes of the payload.
    pub fn encode(&self) -> (out: Vec<u8>)
        requires
            self.wf(),
        ensures
            out@ == canonical_bytes(self@),
    {
        let mut out: Vec<u8> = Vec::new();
        put_u32(&mut out, self.kind.code());
        put_u32(&mut out, self.version);
        put_u64(&mut out, self.fields.len() as u64);
        let ghost head = out@;
        let mut i: usize = 0;
        proof {
            assert(head + fields_bytes(self.fields@.take(0)) =~= head);
        }
        while i < self.fields.len()
            invariant
                i <= self.fields@.len(),
                out@ == head + fields_bytes(self.fields@.take(i as int)),
            decreases self.fields@.len() - i,
        {
            put_u32(&mut out, self.fields[i].key);
            put_value(&mut out, &self.fields[i].value);
            proof {
                let next = self.fields@.take(i + 1);
                assert(next.drop_last() =~= self.fields@.take(i as int));
                assert(next.last() == self.fields@[i as int]);
                assert(out@ =~= head + fields_bytes(next));
            }
            i += 1;
        }
        proof {
            assert(self.fields@.take(self.fields@.len() as int) =~= self.fields@);
            assert(head =~= spec_u32_to_le_bytes(self.kind.spec_code()) + spec_u32_to_le_bytes(
                self.version,
            ) + spec_u64_to_le_bytes(self.fields@.len() as u64));
            assert(out@ =~= payload_bytes(self.kind, self.version, self.fields@));
            self.lemma_canonical();
        }
        out
    }

    /// The hash under which the store files the payload.
    pub fn hash(&self) -> (h: ContentHash)
        requires
            self.wf(),
        ensures
            h@ == content_hash_of(self@),
    {
        let bytes = self.encode();
        ContentHash::new(bytes.as_slice())
    }

    /// A copy of the payload.
    pub fn duplicate(&self) -> (e: ContentEnvelope)
        requires
            self.wf(),
        ensures
            e.wf(),
            e@ == self@,
    {
        let mut fields: Vec<Field> = Vec::new();
        let mut i: usize = 0;
        while i < self.fields.len()
            invariant
                i <= self.fields@.len(),
                fields@.len() == i,
                forall|k: int|
                    0 <= k < i ==> (#[trigger] fields@[k]).key == self.fields@[k].key
                        && fields@[k].value@ == self.fields@[k].value@,
            decreases self.fields@.len() - i,
        {
            fields.push(Field { key: self.fields[i].key, value: self.fields[i].value.duplicate() });
            i += 1;
        }
        proof {
            lemma_fields_agree(fields@, self.fields@);
            assert forall|a: int, b: int| 0 <= a < b < fields@.len() implies (
            #[trigger] fields@[a]).key < (#[trigger] fields@[b]).key by {
                assert(self.fields@[a].key < self.fields@[b].key);
            }
        }
        ContentEnvelope { kind: self.kind, version: self.version, fields }
    }
}

proof fn lemma_fields_agree(a: Seq<Field>, b: Seq<Field>)
    requires
        fields_ordered(b),
        a.len() == b.len(),
        forall|i: int|
            0 <= i < a.len() ==> (#[trigger] a[i]).key == b[i].key && a[i].value@ == b[i].value@,
    ensures
        field_map(a) == field_map(b),
{
    assert forall|i: int, j: int| 0 <= i < j < a.len() implies (#[trigger] a[i]).key < (
    #[trigger] a[j]).key by {
        assert(b[i].key < b[j].key);
    }
    assert forall|key: u32| #[trigger] field_map(a).contains_key(key) <==> field_map(
        b,
    ).contains_key(key) by {
        if has_key(a, key) {
            let k = key_index(a, key);
            assert(b[k].key == key);
        }
        if has_key(b, key) {
            let k = key_index(b, key);
            assert(a[k].key == key);
        }
    }
    assert forall|key: u32| #[trigger] field_map(a).contains_key(key) implies field_map(a)[key]
        == field_map(b)[key] by {
        let k = key_index(a, key);
        lemma_field_at(a, k);
        assert(b[k].key == key);
        lemma_field_at(b, k);
    }
    assert(field_map(a) =~= field_map(b));
}

fn put_u32(out: &mut Vec<u8>, x: u32)
    ensures
        final(out)@ == old(out)@ + spec_u32_to_le_bytes(x),
{
    let mut b = u32_to_le_bytes(x);
    out.append(&mut b);
}

fn put_u64(out: &mut Vec<u8>, x: u64)
    ensures
        final(out)@ == old(out)@ + spec_u64_to_le_bytes(x),
{
    let mut b = u64_to_le_bytes(x);
    out.append(&mut b);
}

fn put_value(out: &mut Vec<u8>, value: &FieldValue)
    ensures
        final(out)@ == old(out)@ + value_bytes(value@),
{
    match value {
        FieldValue::Flag(b) => {
            out.push(0u8);
            out.push(if *b { 1u8 } else { 0u8 });
            proof {
                assert(out@ =~= old(out)@ + value_bytes(value@));
            }
        },
        FieldValue::Number(n) => {
            out.push(1u8);
            put_u64(out, *n);
            proof {
                assert(out@ =~= old(out)@ + value_bytes(value@));
            }
        },
        FieldValue::Bytes(v) => {
            out.push(2u8);
            put_u64(out, v.len() as u64);
            let mut i: usize = 0;
            let ghost head = out@;
            while i < v.len()
                invariant
                    i <= v@.len(),
                    out@ == head + v@.take(i as int),
                decreases v@.len() - i,
            {
                out.push(v[i]);
                proof {
                    assert(v@.take(i as int).push(v@[i as int]) =~= v@.take(i + 1));
                    assert(out@ =~= head + v@.take(i + 1));
                }
                i += 1;
            }
            proof {
                assert(v@.take(v@.len() as int) =~= v@);
                assert(out@ =~= old(out)@ + value_bytes(value@));
            }
        },
    }
}

} // verus!
