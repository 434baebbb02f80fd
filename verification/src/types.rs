//! Identifiers, property values and property maps.
use crate::text::{chars_of, concat_vec, decimal, i64_to_chars, signed_decimal, str_eq, string_from_chars, u64_to_chars};
use vstd::prelude::*;

verus! {

/// Identifier of a vertex.
#[derive(Clone, Copy, PartialEq, Eq, Structural, Debug, Hash, PartialOrd, Ord)]
pub struct VertexId {
    pub id: u64,
}

impl VertexId {
    pub fn from_u64(id: u64) -> (r: VertexId)
        ensures
            r.id == id,
    {
        VertexId { id }
    }

    pub fn as_u64(&self) -> (r: u64)
        ensures
            r == self.id,
    {
        self.id
    }
}

/// Identifier of an edge.
#[derive(Clone, Copy, PartialEq, Eq, Structural, Debug, Hash, PartialOrd, Ord)]
pub struct EdgeId {
    pub id: u64,
}

impl EdgeId {
    pub fn from_u64(id: u64) -> (r: EdgeId)
        ensures
            r.id == id,
    {
        EdgeId { id }
    }

    pub fn as_u64(&self) -> (r: u64)
        ensures
            r == self.id,
    {
        self.id
    }
}

/// A double-precision number, held as its IEEE-754 bit pattern, with the text
/// that `Display` prints for it.
#[derive(Clone, Debug, PartialEq)]
pub struct FloatValue {
    pub bits: u64,
    pub text: String,
}

/// The value of a vertex or edge property.
#[derive(Clone, Debug, PartialEq)]
pub enum PropertyValue {
    Null,
    Bool(bool),
    Int(i64),
    Float(FloatValue),
    String(String),
    Bytes(Vec<u8>),
}

/// The mathematical model of a property value.
pub enum PropValue {
    Null,
    Bool(bool),
    Int(i64),
    Float(u64, Seq<char>),
    Text(Seq<char>),
    Bytes(Seq<u8>),
}

impl View for PropertyValue {
    type V = PropValue;

    open spec fn view(&self) -> PropValue {
        match self {
            PropertyValue::Null => PropValue::Null,
            PropertyValue::Bool(b) => PropValue::Bool(*b),
            PropertyValue::Int(i) => PropValue::Int(*i),
            PropertyValue::Float(f) => PropValue::Float(f.bits, f.text@),
            PropertyValue::String(s) => PropValue::Text(s@),
            PropertyValue::Bytes(b) => PropValue::Bytes(b@),
        }
    }
}

pub open spec fn f64_sign_bit() -> u64 {
    0x8000_0000_0000_0000u64
}

/// The bit pattern is a NaN: all exponent bits set and a nonzero fraction.
pub open spec fn is_nan_bits(b: u64) -> bool {
    let mag = b & 0x7fff_ffff_ffff_ffffu64;
    mag > 0x7ff0_0000_0000_0000u64
}

/// For the bit pattern of a non-NaN double, an integer that orders doubles as
/// their values do: IEEE-754 orders non-NaN values by sign and then by the
/// magnitude bits, and both zeros map to 0.
pub open spec fn float_order_key(b: u64) -> int {
    let mag = (b & 0x7fff_ffff_ffff_ffffu64) as int;
    if b & f64_sign_bit() != 0 {
        -mag
    } else {
        mag
    }
}

/// `==` on two doubles: false where either is NaN, and `-0.0 == 0.0`.
pub open spec fn float_eq(a: u64, b: u64) -> bool {
    !is_nan_bits(a) && !is_nan_bits(b) && float_order_key(a) == float_order_key(b)
}

/// `<` on two doubles: false where either is NaN.
pub open spec fn float_lt(a: u64, b: u64) -> bool {
    !is_nan_bits(a) && !is_nan_bits(b) && float_order_key(a) < float_order_key(b)
}

/// `==` on property values, as the derived `PartialEq` compares them (floats by
/// IEEE-754 equality).
pub open spec fn value_equal(a: PropValue, b: PropValue) -> bool {
    match (a, b) {
        (PropValue::Float(x, _), PropValue::Float(y, _)) => float_eq(x, y),
        (PropValue::Float(_, _), _) => false,
        (_, PropValue::Float(_, _)) => false,
        _ => a == b,
    }
}

pub fn float_bits_is_nan(b: u64) -> (r: bool)
    ensures
        r == is_nan_bits(b),
{
    (b & 0x7fff_ffff_ffff_ffffu64) > 0x7ff0_0000_0000_0000u64
}

/// Compares two doubles given by their bit patterns: -1, 0 or 1 as `a < b`,
/// neither, or `a > b`.
pub fn compare_float_bits(a: u64, b: u64) -> (r: i32)
    ensures
        r == -1 <==> float_lt(a, b),
        r == 1 <==> float_lt(b, a),
        r == 0 <==> !float_lt(a, b) && !float_lt(b, a),
{
    if float_bits_is_nan(a) || float_bits_is_nan(b) {
        return 0;
    }
    let ma = a & 0x7fff_ffff_ffff_ffffu64;
    let mb = b & 0x7fff_ffff_ffff_ffffu64;
    let na = (a & 0x8000_0000_0000_0000u64) != 0;
    let nb = (b & 0x8000_0000_0000_0000u64) != 0;
    // keys: na ? -ma : ma
    let lt = if na && nb {
        mb < ma
    } else if na && !nb {
        !(ma == 0 && mb == 0)
    } else if !na && nb {
        false
    } else {
        ma < mb
    };
    let gt = if na && nb {
        ma < mb
    } else if na && !nb {
        false
    } else if !na && nb {
        !(ma == 0 && mb == 0)
    } else {
        mb < ma
    };
    if lt {
        -1
    } else if gt {
        1
    } else {
        0
    }
}

/// Whether two byte vectors are equal.
pub fn bytes_eq(a: &Vec<u8>, b: &Vec<u8>) -> (r: bool)
    ensures
        r == (a@ == b@),
{
    if a.len() != b.len() {
        return false;
    }
    let mut i: usize = 0;
    while i < a.len()
        invariant
            a.len() == b.len(),
            i <= a.len(),
            forall|k: int| 0 <= k < i ==> a@[k] == b@[k],
        decreases a.len() - i,
    {
        if a[i] != b[i] {
            return false;
        }
        i = i + 1;
    }
    assert(a@ =~= b@);
    true
}

/// A copy of a byte vector.
pub fn copy_bytes(a: &Vec<u8>) -> (r: Vec<u8>)
    ensures
        r@ == a@,
{
    let mut r: Vec<u8> = Vec::new();
    let mut i: usize = 0;
    while i < a.len()
        invariant
            i <= a.len(),
            r@ == a@.subrange(0, i as int),
        decreases a.len() - i,
    {
        r.push(a[i]);
        i = i + 1;
        assert(r@ =~= a@.subrange(0, i as int));
    }
    assert(a@.subrange(0, a.len() as int) =~= a@);
    r
}

impl FloatValue {
    /// A copy of this value.
    pub fn duplicate(&self) -> (r: FloatValue)
        ensures
            r.bits == self.bits,
            r.text@ == self.text@,
    {
        FloatValue { bits: self.bits, text: self.text.clone() }
    }
}

impl PropertyValue {
    /// A copy of this value.
    pub fn duplicate(&self) -> (r: PropertyValue)
        ensures
            r@ == self@,
    {
        match self {
            PropertyValue::Null => PropertyValue::Null,
            PropertyValue::Bool(b) => PropertyValue::Bool(*b),
            PropertyValue::Int(i) => PropertyValue::Int(*i),
            PropertyValue::Float(f) => PropertyValue::Float(f.duplicate()),
            PropertyValue::String(s) => PropertyValue::String(s.clone()),
            PropertyValue::Bytes(b) => PropertyValue::Bytes(copy_bytes(b)),
        }
    }

    /// `==` on property values.
    pub fn equals(&self, other: &PropertyValue) -> (r: bool)
        ensures
            r == value_equal(self@, other@),
    {
        match (self, other) {
            (PropertyValue::Null, PropertyValue::Null) => true,
            (PropertyValue::Bool(a), PropertyValue::Bool(b)) => *a == *b,
            (PropertyValue::Int(a), PropertyValue::Int(b)) => *a == *b,
            (PropertyValue::Float(a), PropertyValue::Float(b)) => compare_float_bits(a.bits, b.bits)
                == 0 && !float_bits_is_nan(a.bits) && !float_bits_is_nan(b.bits),
            (PropertyValue::String(a), PropertyValue::String(b)) => *a == *b,
            (PropertyValue::Bytes(a), PropertyValue::Bytes(b)) => bytes_eq(a, b),
            _ => false,
        }
    }

    /// The text of a string value.
    pub fn as_string(&self) -> (r: Option<&String>)
        ensures
            match self@ {
                PropValue::Text(t) => r is Some && r->0@ == t,
                _ => r is None,
            },
    {
        match self {
            PropertyValue::String(s) => Some(s),
            _ => None,
        }
    }
}

/// The text that `Display` prints for a property value: `null`, `true` or
/// `false`, the decimal integer, the float's text, the string itself, or the
/// byte count as `<n bytes>`.
pub open spec fn value_text(v: PropValue) -> Seq<char> {
    match v {
        PropValue::Null => seq!['n', 'u', 'l', 'l'],
        PropValue::Bool(b) => if b {
            seq!['t', 'r', 'u', 'e']
        } else {
            seq!['f', 'a', 'l', 's', 'e']
        },
        PropValue::Int(i) => signed_decimal(i as int),
        PropValue::Float(_, t) => t,
        PropValue::Text(t) => t,
        PropValue::Bytes(b) => seq!['<'] + decimal(b.len()) + seq![' ', 'b', 'y', 't', 'e', 's', '>'],
    }
}

impl PropertyValue {
    /// The display text of this value, as characters.
    pub fn text_chars(&self) -> (r: Vec<char>)
        ensures
            r@ == value_text(self@),
    {
        match self {
            PropertyValue::Null => {
                let mut r = Vec::new();
                r.push('n');
                r.push('u');
                r.push('l');
                r.push('l');
                assert(r@ =~= seq!['n', 'u', 'l', 'l']);
                r
            },
            PropertyValue::Bool(b) => {
                let mut r = Vec::new();
                if *b {
                    r.push('t');
                    r.push('r');
                    r.push('u');
                    r.push('e');
                    assert(r@ =~= seq!['t', 'r', 'u', 'e']);
                } else {
                    r.push('f');
                    r.push('a');
                    r.push('l');
                    r.push('s');
                    r.push('e');
                    assert(r@ =~= seq!['f', 'a', 'l', 's', 'e']);
                }
                r
            },
            PropertyValue::Int(i) => i64_to_chars(*i),
            PropertyValue::Float(f) => chars_of(f.text.as_str()),
            PropertyValue::String(s) => chars_of(s.as_str()),
            PropertyValue::Bytes(b) => {
                let mut r = Vec::new();
                r.push('<');
                let n = u64_to_chars(b.len() as u64);
                let r = concat_vec(&r, &n);
                let mut tail = Vec::new();
                tail.push(' ');
                tail.push('b');
                tail.push('y');
                tail.push('t');
                tail.push('e');
                tail.push('s');
                tail.push('>');
                let r2 = concat_vec(&r, &tail);
                assert(tail@ =~= seq![' ', 'b', 'y', 't', 'e', 's', '>']);
                r2
            },
        }
    }

    /// The display text of this value.
    pub fn to_string(&self) -> (r: String)
        ensures
            r@ == value_text(self@),
    {
        let v = self.text_chars();
        string_from_chars(&v)
    }
}

/// The value under `key` in a list of (name, value) entries.
pub open spec fn prop_lookup(ps: Seq<(Seq<char>, PropValue)>, key: Seq<char>) -> Option<PropValue> {
    if exists|i: int| 0 <= i < ps.len() && (#[trigger] ps[i]).0 == key {
        Some(ps[choose|i: int| 0 <= i < ps.len() && (#[trigger] ps[i]).0 == key].1)
    } else {
        None
    }
}

/// The entries with `key` set to `v`: the entry named `key` gets the new value
/// in its place, or a new entry goes last.
pub open spec fn entry_set(ps: Seq<(Seq<char>, PropValue)>, key: Seq<char>, v: PropValue) -> Seq<(Seq<char>, PropValue)> {
    if exists|i: int| 0 <= i < ps.len() && (#[trigger] ps[i]).0 == key {
        ps.update(choose|i: int| 0 <= i < ps.len() && (#[trigger] ps[i]).0 == key, (key, v))
    } else {
        ps.push((key, v))
    }
}

/// A value set under a name is what a lookup of that name gives back, and
/// every other name looks up as before, in a list of entries whose names are
/// distinct.
pub proof fn lemma_entry_set_read_back(ps: Seq<(Seq<char>, PropValue)>, key: Seq<char>, v: PropValue, other: Seq<char>)
    requires
        forall|i: int, j: int| 0 <= i < j < ps.len() ==> ps[i].0 != ps[j].0,
    ensures
        prop_lookup(entry_set(ps, key, v), key) == Some(v),
        other != key ==> prop_lookup(entry_set(ps, key, v), other) == prop_lookup(ps, other),
        forall|i: int, j: int| 0 <= i < j < entry_set(ps, key, v).len() ==> entry_set(ps, key, v)[i].0 != entry_set(ps, key, v)[j].0,
{
    let qs = entry_set(ps, key, v);
    if exists|i: int| 0 <= i < ps.len() && (#[trigger] ps[i]).0 == key {
        let p = choose|i: int| 0 <= i < ps.len() && (#[trigger] ps[i]).0 == key;
        assert(qs == ps.update(p, (key, v)));
        assert(qs[p].0 == key);
        let q = choose|i: int| 0 <= i < qs.len() && (#[trigger] qs[i]).0 == key;
        assert(q == p);
        if other != key {
            if exists|i: int| 0 <= i < ps.len() && (#[trigger] ps[i]).0 == other {
                let a = choose|i: int| 0 <= i < ps.len() && (#[trigger] ps[i]).0 == other;
                assert(qs[a] == ps[a]);
                let b = choose|i: int| 0 <= i < qs.len() && (#[trigger] qs[i]).0 == other;
                assert(b != p);
                assert(qs[b] == ps[b]);
            } else {
                assert forall|i: int| 0 <= i < qs.len() implies (#[trigger] qs[i]).0 != other by {
                    if i != p {
                        assert(qs[i] == ps[i]);
                    }
                }
            }
        }
    } else {
        assert(qs == ps.push((key, v)));
        assert(qs[ps.len() as int].0 == key);
        let q = choose|i: int| 0 <= i < qs.len() && (#[trigger] qs[i]).0 == key;
        assert(q == ps.len());
        if other != key {
            if exists|i: int| 0 <= i < ps.len() && (#[trigger] ps[i]).0 == other {
                let a = choose|i: int| 0 <= i < ps.len() && (#[trigger] ps[i]).0 == other;
                assert(qs[a] == ps[a]);
                let b = choose|i: int| 0 <= i < qs.len() && (#[trigger] qs[i]).0 == other;
                assert(qs[b] == ps[b]);
            } else {
                assert forall|i: int| 0 <= i < qs.len() implies (#[trigger] qs[i]).0 != other by {
                    if i < ps.len() {
                        assert(qs[i] == ps[i]);
                    }
                }
            }
        }
    }
}

/// A map from property names to values. Each name occurs at most once; the
/// entries keep the order in which their names were first inserted.
#[derive(Debug, PartialEq)]
pub struct Properties {
    entries: Vec<(String, PropertyValue)>,
}

impl Properties {
    /// The entries as (name, value) models, in order.
    pub closed spec fn entries_model(&self) -> Seq<(Seq<char>, PropValue)> {
        self.entries@.map_values(|e: (String, PropertyValue)| (e.0@, e.1@))
    }

    /// No name occurs twice.
    pub open spec fn keys_distinct(s: Seq<(Seq<char>, PropValue)>) -> bool {
        forall|i: int, j: int| 0 <= i < j < s.len() ==> s[i].0 != s[j].0
    }

    #[verifier::type_invariant]
    spec fn inv(self) -> bool {
        Self::keys_distinct(self.entries_model())
    }

    /// Whether `k` names an entry.
    pub open spec fn spec_has(&self, k: Seq<char>) -> bool {
        exists|i: int| 0 <= i < self.entries_model().len() && #[trigger] self.entries_model()[i].0 == k
    }

    /// The position of the entry named `k`.
    pub open spec fn spec_index_of(&self, k: Seq<char>) -> int {
        choose|i: int| 0 <= i < self.entries_model().len() && #[trigger] self.entries_model()[i].0 == k
    }
}

impl View for Properties {
    type V = Map<Seq<char>, PropValue>;

    open spec fn view(&self) -> Map<Seq<char>, PropValue> {
        Map::new(|k: Seq<char>| self.spec_has(k), |k: Seq<char>| self.entries_model()[self.spec_index_of(k)].1)
    }
}

impl Properties {
    /// An empty map.
    pub fn new() -> (r: Properties)
        ensures
            r@ == Map::<Seq<char>, PropValue>::empty(),
            r.entries_model().len() == 0,
    {
        let r = Properties { entries: Vec::new() };
        assert(r.entries_model() =~= Seq::<(Seq<char>, PropValue)>::empty());
        assert(r@ =~= Map::<Seq<char>, PropValue>::empty());
        r
    }

    /// The number of entries.
    pub fn len(&self) -> (r: usize)
        ensures
            r == self.entries_model().len(),
            r == self@.len(),
    {
        proof {
            use_type_invariant(self);
            self.lemma_dom_len();
        }
        self.entries.len()
    }

    pub fn is_empty(&self) -> (r: bool)
        ensures
            r == (self@.len() == 0),
    {
        self.len() == 0
    }

    proof fn lemma_dom_len(&self)
        requires
            Self::keys_distinct(self.entries_model()),
        ensures
            self@.dom().finite(),
            self@.len() == self.entries_model().len(),
    {
        let s = self.entries_model();
        let ks = s.map_values(|e: (Seq<char>, PropValue)| e.0);
        assert(ks.no_duplicates()) by {
            assert forall|i: int, j: int| 0 <= i < ks.len() && 0 <= j < ks.len() && i != j implies ks[i] != ks[j] by {
                if i < j {
                } else {
                }
            }
        }
        assert(self@.dom() =~= ks.to_set()) by {
            assert forall|k: Seq<char>| self@.dom().contains(k) implies ks.to_set().contains(k) by {
                let i = self.spec_index_of(k);
                assert(ks[i] == k);
            }
            assert forall|k: Seq<char>| ks.to_set().contains(k) implies self@.dom().contains(k) by {
                let i = choose|i: int| 0 <= i < ks.len() && ks[i] == k;
                assert(s[i].0 == k);
            }
        }
        ks.unique_seq_to_set();
    }

    /// The position of the entry named `key`, if any.
    fn find(&self, key: &str) -> (r: Option<usize>)
        ensures
            match r {
                Some(i) => i < self.entries_model().len() && self.entries_model()[i as int].0 == key@,
                None => !self.spec_has(key@),
            },
    {
        let mut i: usize = 0;
        while i < self.entries.len()
            invariant
                i <= self.entries.len(),
                forall|j: int| 0 <= j < i ==> self.entries_model()[j].0 != key@,
            decreases self.entries.len() - i,
        {
            if str_eq(self.entries[i].0.as_str(), key) {
                assert(self.entries_model()[i as int].0 == self.entries@[i as int].0@);
                return Some(i);
            }
            assert(self.entries_model()[i as int].0 == self.entries@[i as int].0@);
            i = i + 1;
        }
        None
    }

    proof fn lemma_index_of(&self, i: int)
        requires
            Self::keys_distinct(self.entries_model()),
            0 <= i < self.entries_model().len(),
        ensures
            self.spec_has(self.entries_model()[i].0),
            self.spec_index_of(self.entries_model()[i].0) == i,
            self@.contains_key(self.entries_model()[i].0),
            self@[self.entries_model()[i].0] == self.entries_model()[i].1,
    {
        let k = self.entries_model()[i].0;
        assert(self.spec_has(k));
        let j = self.spec_index_of(k);
        if j != i {
            if j < i {
            } else {
            }
        }
    }

    /// The value of the entry named `key`.
    pub fn get(&self, key: &str) -> (r: Option<&PropertyValue>)
        ensures
            match r {
                Some(v) => self@.contains_key(key@) && self@[key@] == v@,
                None => !self@.contains_key(key@),
            },
            prop_lookup(self.entries_model(), key@) == match r {
                Some(v) => Some(v@),
                None => None::<PropValue>,
            },
    {
        proof {
            use_type_invariant(self);
        }
        match self.find(key) {
            Some(i) => {
                proof {
                    self.lemma_index_of(i as int);
                    let ps = self.entries_model();
                    assert(ps[i as int].0 == key@);
                    let j = choose|j: int| 0 <= j < ps.len() && (#[trigger] ps[j]).0 == key@;
                    if j != i as int {
                        if j < i {
                        } else {
                        }
                    }
                }
                Some(&self.entries[i].1)
            },
            None => None,
        }
    }

    /// Whether an entry is named `key`.
    pub fn contains_key(&self, key: &str) -> (r: bool)
        ensures
            r == self@.contains_key(key@),
    {
        self.find(key).is_some()
    }

    /// Sets the entry named `key` to `value`, returning the value it replaced.
    pub fn insert(&mut self, key: String, value: PropertyValue) -> (r: Option<PropertyValue>)
        ensures
            final(self)@ == old(self)@.insert(key@, value@),
            final(self).entries_model() == entry_set(old(self).entries_model(), key@, value@),
            match r {
                Some(v) => old(self)@.contains_key(key@) && v@ == old(self)@[key@],
                None => !old(self)@.contains_key(key@),
            },
    {
        proof {
            use_type_invariant(&*self);
        }
        let ghost old_self = *self;
        let ghost kv = key@;
        let ghost vv = value@;
        let pos = self.find(key.as_str());
        let mut entries: Vec<(String, PropertyValue)> = Vec::new();
        std::mem::swap(&mut entries, &mut self.entries);
        let ghost m = entries@.map_values(|e: (String, PropertyValue)| (e.0@, e.1@));
        assert(m == old_self.entries_model());
        let result = match pos {
            Some(i) => {
                proof {
                    old_self.lemma_index_of(i as int);
                }
                let old_entry = entries.remove(i);
                entries.insert(i, (key, value));
                Some(old_entry.1)
            },
            None => {
                entries.push((key, value));
                None
            },
        };
        let ghost m2 = entries@.map_values(|e: (String, PropertyValue)| (e.0@, e.1@));
        proof {
            match pos {
                Some(i) => {
                    assert(m2 =~= m.update(i as int, (kv, vv)));
                    assert(m[i as int].0 == kv);
                    let j = choose|j: int| 0 <= j < m.len() && (#[trigger] m[j]).0 == kv;
                    if j != i as int {
                        if j < i {
                        } else {
                        }
                    }
                    assert(m2 == entry_set(m, kv, vv));
                },
                None => {
                    assert(m2 =~= m.push((kv, vv)));
                    assert(!exists|j: int| 0 <= j < m.len() && (#[trigger] m[j]).0 == kv) by {
                        if exists|j: int| 0 <= j < m.len() && (#[trigger] m[j]).0 == kv {
                            let j = choose|j: int| 0 <= j < m.len() && (#[trigger] m[j]).0 == kv;
                            assert(old_self.spec_has(kv));
                        }
                    }
                    assert(m2 == entry_set(m, kv, vv));
                },
            }
            assert(Self::keys_distinct(m2));
        }
        self.entries = entries;
        proof {
            assert(self.entries_model() == m2);
            assert(self@ =~= old_self@.insert(kv, vv)) by {
                assert forall|k: Seq<char>| #[trigger] self@.contains_key(k) == old_self@.insert(kv, vv).contains_key(k) by {
                    if k == kv {
                        match pos {
                            Some(i) => assert(m2[i as int].0 == kv),
                            None => assert(m2[m.len() as int].0 == kv),
                        }
                    } else if old_self@.contains_key(k) {
                        let j = old_self.spec_index_of(k);
                        assert(m2[j].0 == k);
                    } else if self@.contains_key(k) {
                        let j = self.spec_index_of(k);
                        assert(m[j].0 == k);
                    }
                }
                assert forall|k: Seq<char>| #[trigger] self@.contains_key(k) implies self@[k] == old_self@.insert(kv, vv)[k] by {
                    let j = self.spec_index_of(k);
                    self.lemma_index_of(j);
                    if k != kv {
                        old_self.lemma_index_of(j);
                    }
                }
            }
        }
        result
    }

    /// Removes the entry named `key`, returning its value.
    pub fn remove(&mut self, key: &str) -> (r: Option<PropertyValue>)
        ensures
            final(self)@ == old(self)@.remove(key@),
            match r {
                Some(v) => old(self)@.contains_key(key@) && v@ == old(self)@[key@],
                None => !old(self)@.contains_key(key@),
            },
    {
        proof {
            use_type_invariant(&*self);
        }
        let ghost old_self = *self;
        let ghost kv = key@;
        match self.find(key) {
            None => {
                assert(old_self@.remove(kv) =~= old_self@);
                None
            },
            Some(i) => {
                proof {
                    old_self.lemma_index_of(i as int);
                }
                let mut entries: Vec<(String, PropertyValue)> = Vec::new();
                std::mem::swap(&mut entries, &mut self.entries);
                let ghost m = entries@.map_values(|e: (String, PropertyValue)| (e.0@, e.1@));
                let removed = entries.remove(i);
                let ghost m2 = entries@.map_values(|e: (String, PropertyValue)| (e.0@, e.1@));
                proof {
                    assert(m2 =~= m.remove(i as int));
                    assert(Self::keys_distinct(m2)) by {
                        assert forall|a: int, b: int| 0 <= a < b < m2.len() implies m2[a].0 != m2[b].0 by {
                            let a2 = if a < i { a } else { a + 1 };
                            let b2 = if b < i { b } else { b + 1 };
                            assert(m2[a] == m[a2]);
                            assert(m2[b] == m[b2]);
                        }
                    }
                }
                self.entries = entries;
                proof {
                    assert(self.entries_model() == m2);
                    assert(self@ =~= old_self@.remove(kv)) by {
                        assert forall|k: Seq<char>| #[trigger] self@.contains_key(k) == old_self@.remove(kv).contains_key(k) by {
                            if self@.contains_key(k) {
                                let j = self.spec_index_of(k);
                                let j2 = if j < i { j } else { j + 1 };
                                assert(m[j2].0 == k);
                                assert(k != kv);
                            }
                            if old_self@.contains_key(k) && k != kv {
                                let j = old_self.spec_index_of(k);
                                assert(j != i);
                                let j2 = if j < i { j } else { j - 1 };
                                assert(m2[j2].0 == k);
                            }
                        }
                        assert forall|k: Seq<char>| #[trigger] self@.contains_key(k) implies self@[k] == old_self@.remove(kv)[k] by {
                            let j = self.spec_index_of(k);
                            self.lemma_index_of(j);
                            let j2 = if j < i { j } else { j + 1 };
                            assert(m[j2] == m2[j]);
                            old_self.lemma_index_of(j2);
                        }
                    }
                }
                Some(removed.1)
            },
        }
    }

    /// The name of the entry at position `i`.
    pub fn key_at(&self, i: usize) -> (r: &String)
        requires
            i < self.entries_model().len(),
        ensures
            r@ == self.entries_model()[i as int].0,
            self@.contains_key(r@),
            self@[r@] == self.entries_model()[i as int].1,
    {
        proof {
            use_type_invariant(self);
            self.lemma_index_of(i as int);
        }
        &self.entries[i].0
    }

    /// The value of the entry at position `i`.
    pub fn value_at(&self, i: usize) -> (r: &PropertyValue)
        requires
            i < self.entries_model().len(),
        ensures
            r@ == self.entries_model()[i as int].1,
            self@.contains_key(self.entries_model()[i as int].0),
            self@[self.entries_model()[i as int].0] == r@,
    {
        proof {
            use_type_invariant(self);
            self.lemma_index_of(i as int);
        }
        &self.entries[i].1
    }

    /// A copy of this map.
    pub fn duplicate(&self) -> (r: Properties)
        ensures
            r@ == self@,
            r.entries_model() == self.entries_model(),
    {
        proof {
            use_type_invariant(self);
        }
        let mut entries: Vec<(String, PropertyValue)> = Vec::new();
        let mut i: usize = 0;
        while i < self.entries.len()
            invariant
                i <= self.entries.len(),
                entries@.map_values(|e: (String, PropertyValue)| (e.0@, e.1@))
                    == self.entries_model().subrange(0, i as int),
            decreases self.entries.len() - i,
        {
            let ghost before = entries@;
            let k = self.entries[i].0.clone();
            let v = self.entries[i].1.duplicate();
            assert(k@ == self.entries_model()[i as int].0);
            assert(v@ == self.entries_model()[i as int].1);
            entries.push((k, v));
            assert(entries@.map_values(|e: (String, PropertyValue)| (e.0@, e.1@)) =~= before.map_values(|e: (String, PropertyValue)| (e.0@, e.1@)).push((k@, v@)));
            i = i + 1;
            assert(entries@.map_values(|e: (String, PropertyValue)| (e.0@, e.1@))
                =~= self.entries_model().subrange(0, i as int));
        }
        assert(self.entries_model().subrange(0, i as int) =~= self.entries_model());
        assert(Self::keys_distinct(entries@.map_values(|e: (String, PropertyValue)| (e.0@, e.1@))));
        let r = Properties { entries };
        assert(r@ =~= self@);
        r
    }
}

impl Properties {
    /// A copy holding only the entries whose names are listed, in order.
    pub fn filtered(&self, keys: &Vec<String>) -> (r: Properties)
        ensures
            r.entries_model() == self.entries_model().filter(
                |e: (Seq<char>, PropValue)| keys@.map_values(|s: String| s@).contains(e.0),
            ),
    {
        proof {
            use_type_invariant(self);
        }
        let ghost ks = keys@.map_values(|s: String| s@);
        let ghost pred = |e: (Seq<char>, PropValue)| ks.contains(e.0);
        let ghost em = self.entries_model();
        let mut entries: Vec<(String, PropertyValue)> = Vec::new();
        let mut i: usize = 0;
        while i < self.entries.len()
            invariant
                i <= self.entries.len(),
                em == self.entries_model(),
                em.len() == self.entries.len(),
                Self::keys_distinct(em),
                ks == keys@.map_values(|s: String| s@),
                pred == (|e: (Seq<char>, PropValue)| ks.contains(e.0)),
                entries@.map_values(|e: (String, PropertyValue)| (e.0@, e.1@)) == em.take(i as int).filter(pred),
            decreases self.entries.len() - i,
        {
            proof {
                assert(em.take(i + 1).drop_last() =~= em.take(i as int));
                reveal_with_fuel(Seq::filter, 1);
            }
            let name = &self.entries[i].0;
            let mut listed = false;
            let mut j: usize = 0;
            while j < keys.len()
                invariant
                    j <= keys.len(),
                    ks == keys@.map_values(|s: String| s@),
                    listed <==> exists|k: int| 0 <= k < j && ks[k] == name@,
                decreases keys.len() - j,
            {
                assert(ks[j as int] == keys@[j as int]@);
                if str_eq(keys[j].as_str(), name.as_str()) {
                    listed = true;
                }
                j = j + 1;
            }
            assert(listed <==> ks.contains(name@));
            assert(em[i as int] == (name@, self.entries@[i as int].1@));
            if listed {
                let ghost before = entries@.map_values(|e: (String, PropertyValue)| (e.0@, e.1@));
                entries.push((name.clone(), self.entries[i].1.duplicate()));
                assert(entries@.map_values(|e: (String, PropertyValue)| (e.0@, e.1@)) =~= before.push(em[i as int]));
            }
            i = i + 1;
        }
        assert(em.take(em.len() as int) =~= em);
        let ghost fm = entries@.map_values(|e: (String, PropertyValue)| (e.0@, e.1@));
        proof {
            em.filter_lemma(pred);
            assert(Self::keys_distinct(fm)) by {
                assert forall|a: int, b: int| 0 <= a < b < fm.len() implies fm[a].0 != fm[b].0 by {
                    lemma_filter_order(em, pred, a, b);
                }
            }
        }
        Properties { entries }
    }
}

/// Each entry of a filtered sequence is an entry of the unfiltered one.
proof fn lemma_filter_source(s: Seq<(Seq<char>, PropValue)>, pred: spec_fn((Seq<char>, PropValue)) -> bool, a: int) -> (k: int)
    requires
        0 <= a < s.filter(pred).len(),
    ensures
        0 <= k < s.len(),
        s[k] == s.filter(pred)[a],
    decreases s.len(),
{
    reveal_with_fuel(Seq::filter, 1);
    let init = s.drop_last();
    if pred(s.last()) && a == init.filter(pred).len() {
        (s.len() - 1) as int
    } else {
        let k = lemma_filter_source(init, pred, a);
        assert(s[k] == init[k]);
        k
    }
}

/// Two entries of a filtered sequence come from two entries of the
/// unfiltered one in the same order, so they differ where those do.
proof fn lemma_filter_order(s: Seq<(Seq<char>, PropValue)>, pred: spec_fn((Seq<char>, PropValue)) -> bool, a: int, b: int)
    requires
        Properties::keys_distinct(s),
        0 <= a < b < s.filter(pred).len(),
    ensures
        s.filter(pred)[a].0 != s.filter(pred)[b].0,
    decreases s.len(),
{
    reveal_with_fuel(Seq::filter, 1);
    let f = s.filter(pred);
    let init = s.drop_last();
    let fi = init.filter(pred);
    assert(Properties::keys_distinct(init));
    if pred(s.last()) {
        assert(f == fi.push(s.last()));
        if b < fi.len() {
            lemma_filter_order(init, pred, a, b);
        } else {
            let k = lemma_filter_source(init, pred, a);
            assert(s[k] == fi[a]);
        }
    } else {
        assert(f == fi);
        lemma_filter_order(init, pred, a, b);
    }
}

} // verus!
