//! Runtime values.

use vstd::prelude::*;
use vstd::std_specs::cmp::PartialEqSpecImpl;
use crate::float::{equal, float_equal};
use crate::number::{float_text, render_float};
use crate::text::{
    append_chars, chars_of, decimal_text, lex_less, push_decimal, string_of, text_equal, text_less,
};

verus! {

/// A runtime value.
#[derive(Debug)]
pub enum Value {
    Null,
    Bool(bool),
    Int(i64),
    /// A double-precision number, held as its IEEE-754 bit pattern.
    Float(u64),
    String(String),
    List(Vec<Value>),
    Struct(StructMap),
    Enum { name: String, payload: Option<Box<Value>> },
}

/// One named field of a struct value.
#[derive(Debug, Clone)]
pub struct Field {
    pub key: String,
    pub value: Value,
}

/// The fields of a struct value: in strictly ascending key order, so one
/// per key.
#[derive(Debug)]
pub struct StructMap {
    entries: Vec<Field>,
}

/// The mathematical content of a [`Value`].
pub ghost enum ValueView {
    Null,
    Bool(bool),
    Int(i64),
    Float(u64),
    Str(Seq<char>),
    List(Seq<ValueView>),
    Struct(Seq<(Seq<char>, ValueView)>),
    Enum(Seq<char>, Option<Box<ValueView>>),
}

impl Value {
    /// The mathematical content of this value.
    pub open spec fn model(&self) -> ValueView
        decreases self, 0nat,
    {
        match self {
            Value::Null => ValueView::Null,
            Value::Bool(b) => ValueView::Bool(*b),
            Value::Int(n) => ValueView::Int(*n),
            Value::Float(x) => ValueView::Float(*x),
            Value::String(s) => ValueView::Str(s@),
            Value::List(items) => ValueView::List(values_view(items@)),
            Value::Struct(m) => ValueView::Struct(m.fields()),
            Value::Enum { name, payload } => ValueView::Enum(
                name@,
                match payload {
                    Some(p) => Some(Box::new(p.model())),
                    None => None,
                },
            ),
        }
    }
}

impl View for Value {
    type V = ValueView;

    open spec fn view(&self) -> ValueView {
        self.model()
    }
}

/// The contents of each value of `items`, in order.
pub open spec fn values_view(items: Seq<Value>) -> Seq<ValueView>
    decreases items, 1nat,
{
    Seq::new(
        items.len(),
        |i: int|
            if 0 <= i < items.len() {
                items[i].model()
            } else {
                ValueView::Null
            },
    )
}

/// The contents of each field of `entries`, in order.
pub open spec fn fields_view(entries: Seq<Field>) -> Seq<(Seq<char>, ValueView)>
    decreases entries, 1nat,
{
    Seq::new(
        entries.len(),
        |i: int|
            if 0 <= i < entries.len() {
                (entries[i].key@, entries[i].value.model())
            } else {
                (Seq::empty(), ValueView::Null)
            },
    )
}

impl StructMap {
    /// The fields: each key with the content of its value, in key order.
    pub closed spec fn fields(&self) -> Seq<(Seq<char>, ValueView)>
        decreases self, 0nat,
    {
        fields_view(self.entries@)
    }

    /// The keys ascend strictly.
    #[verifier::type_invariant]
    spec fn ascending(&self) -> bool {
        keys_ascend(fields_view(self.entries@))
    }
}

impl View for StructMap {
    type V = Seq<(Seq<char>, ValueView)>;

    open spec fn view(&self) -> Seq<(Seq<char>, ValueView)> {
        self.fields()
    }
}

/// Deep equality of values: numbers of the same tag by their numeric value,
/// lists element by element, structs field by field in key order, enums by
/// name and payload. Values of different tags are never equal.
pub open spec fn values_equal(a: ValueView, b: ValueView) -> bool
    decreases a, 0nat,
{
    match (a, b) {
        (ValueView::Null, ValueView::Null) => true,
        (ValueView::Bool(x), ValueView::Bool(y)) => x == y,
        (ValueView::Int(x), ValueView::Int(y)) => x == y,
        (ValueView::Float(x), ValueView::Float(y)) => equal(x, y),
        (ValueView::Str(x), ValueView::Str(y)) => x == y,
        (ValueView::List(x), ValueView::List(y)) => x.len() == y.len() && lists_equal_from(
            x,
            y,
            0,
        ),
        (ValueView::Struct(x), ValueView::Struct(y)) => x.len() == y.len() && fields_equal_from(
            x,
            y,
            0,
        ),
        (ValueView::Enum(n, p), ValueView::Enum(m, q)) => n == m && match (p, q) {
            (None, None) => true,
            (Some(x), Some(y)) => values_equal(*x, *y),
            _ => false,
        },
        _ => false,
    }
}

/// Whether `x` and `y` hold equal values at every position from `i` on.
pub open spec fn lists_equal_from(x: Seq<ValueView>, y: Seq<ValueView>, i: int) -> bool
    decreases x, x.len() - i,
{
    if i < 0 || i >= x.len() || i >= y.len() {
        true
    } else {
        values_equal(x[i], y[i]) && lists_equal_from(x, y, i + 1)
    }
}

/// Whether `x` and `y` hold the same key with equal values at every position
/// from `i` on.
pub open spec fn fields_equal_from(
    x: Seq<(Seq<char>, ValueView)>,
    y: Seq<(Seq<char>, ValueView)>,
    i: int,
) -> bool
    decreases x, x.len() - i,
{
    if i < 0 || i >= x.len() || i >= y.len() {
        true
    } else {
        x[i].0 == y[i].0 && values_equal(x[i].1, y[i].1) && fields_equal_from(x, y, i + 1)
    }
}

/// The value stored under `key`, looking from position `i` on.
pub open spec fn lookup_from(fields: Seq<(Seq<char>, ValueView)>, key: Seq<char>, i: int) -> Option<
    ValueView,
>
    decreases fields.len() - i,
{
    if i < 0 || i >= fields.len() {
        None
    } else if fields[i].0 == key {
        Some(fields[i].1)
    } else {
        lookup_from(fields, key, i + 1)
    }
}

/// The value stored under `key`.
pub open spec fn lookup(fields: Seq<(Seq<char>, ValueView)>, key: Seq<char>) -> Option<ValueView> {
    lookup_from(fields, key, 0)
}

/// Where `key` goes in `fields`, looking from position `i` on: the position
/// and whether an entry with that key stands there already.
pub open spec fn slot_from(fields: Seq<(Seq<char>, ValueView)>, key: Seq<char>, i: int) -> (
    int,
    bool,
)
    decreases fields.len() - i,
{
    if i < 0 || i >= fields.len() {
        (fields.len() as int, false)
    } else if fields[i].0 == key {
        (i, true)
    } else if lex_less(key, fields[i].0) {
        (i, false)
    } else {
        slot_from(fields, key, i + 1)
    }
}

/// `fields` with `value` stored under `key`: in place of the entry with that
/// key, or else before the first entry with a greater key.
pub open spec fn with_field(
    fields: Seq<(Seq<char>, ValueView)>,
    key: Seq<char>,
    value: ValueView,
) -> Seq<(Seq<char>, ValueView)> {
    let (at, found) = slot_from(fields, key, 0);
    if found {
        fields.update(at, (key, value))
    } else {
        fields.insert(at, (key, value))
    }
}

/// Whether the keys of `fields` ascend strictly.
pub open spec fn keys_ascend(fields: Seq<(Seq<char>, ValueView)>) -> bool {
    forall|i: int, j: int| 0 <= i < j < fields.len() ==> lex_less(fields[i].0, fields[j].0)
}

/// The name of a value's tag.
pub open spec fn kind_name_of(v: ValueView) -> Seq<char> {
    match v {
        ValueView::Null => "null"@,
        ValueView::Bool(_) => "bool"@,
        ValueView::Int(_) => "int"@,
        ValueView::Float(_) => "float"@,
        ValueView::Str(_) => "string"@,
        ValueView::List(_) => "list"@,
        ValueView::Struct(_) => "struct"@,
        ValueView::Enum(_, _) => "enum"@,
    }
}

/// What indexing `target` with `index` finds: a list element by a
/// non-negative integer position, a struct field by its key.
pub open spec fn index_of(target: ValueView, index: ValueView) -> Option<ValueView> {
    match (target, index) {
        (ValueView::List(items), ValueView::Int(i)) => if 0 <= i < items.len() {
            Some(items[i as int])
        } else {
            None
        },
        (ValueView::Struct(fields), ValueView::Str(k)) => lookup(fields, k),
        _ => None,
    }
}

impl StructMap {
    /// A struct without fields.
    pub fn new() -> (m: StructMap)
        ensures
            m@ == Seq::<(Seq<char>, ValueView)>::empty(),
    {
        let m = StructMap { entries: Vec::new() };
        assert(m@ =~= Seq::<(Seq<char>, ValueView)>::empty());
        m
    }

    /// A deep copy of these fields.
    pub fn duplicate(&self) -> (m: StructMap)
        ensures
            m@ == self@,
    {
        proof {
            use_type_invariant(self);
        }
        StructMap { entries: duplicate_fields(&self.entries) }
    }

    /// The number of fields, whose keys ascend.
    pub fn len(&self) -> (n: usize)
        ensures
            n == self@.len(),
            keys_ascend(self@),
    {
        proof {
            use_type_invariant(self);
        }
        self.entries.len()
    }

    /// The keys, in ascending order.
    pub fn keys(&self) -> (r: Vec<String>)
        ensures
            r@.len() == self@.len(),
            forall|i: int| 0 <= i < r@.len() ==> (#[trigger] r@[i])@ == self@[i].0,
            keys_ascend(self@),
    {
        proof {
            use_type_invariant(self);
            lemma_fields_view(self.entries@);
        }
        let mut out: Vec<String> = Vec::new();
        let mut i: usize = 0;
        while i < self.entries.len()
            invariant
                i <= self.entries.len(),
                out@.len() == i,
                self@.len() == self.entries@.len(),
                forall|k: int|
                    0 <= k < self.entries@.len() ==> (#[trigger] self@[k]).0
                        == self.entries@[k].key@,
                forall|k: int| 0 <= k < i ==> (#[trigger] out@[k])@ == self@[k].0,
            decreases self.entries.len() - i,
        {
            assert(self@[i as int].0 == self.entries@[i as int].key@);
            out.push(self.entries[i].key.clone());
            i += 1;
        }
        out
    }

    /// The value stored under `key`, if there is one.
    pub fn get(&self, key: &str) -> (r: Option<&Value>)
        ensures
            match r {
                Some(v) => lookup(self@, key@) == Some(v@),
                None => lookup(self@, key@) is None,
            },
    {
        proof {
            lemma_fields_view(self.entries@);
        }
        let mut i: usize = 0;
        while i < self.entries.len()
            invariant
                i <= self.entries.len(),
                self@.len() == self.entries@.len(),
                forall|k: int|
                    0 <= k < self.entries@.len() ==> #[trigger] self@[k] == (
                        self.entries@[k].key@,
                        self.entries@[k].value@,
                    ),
                lookup(self@, key@) == lookup_from(self@, key@, i as int),
            decreases self.entries.len() - i,
        {
            assert(self@[i as int] == (self.entries@[i as int].key@, self.entries@[i as int].value@));
            if text_equal(self.entries[i].key.as_str(), key) {
                return Some(&self.entries[i].value);
            }
            i += 1;
        }
        None
    }

    /// Stores `value` under `key`, in place of an earlier value for that key.
    /// The keys ascend before and after.
    pub fn insert(&mut self, key: String, value: Value)
        ensures
            final(self)@ == with_field(old(self)@, key@, value@),
            keys_ascend(old(self)@),
            keys_ascend(final(self)@),
    {
        proof {
            use_type_invariant(&*self);
        }
        let mut entries: Vec<Field> = Vec::new();
        proof {
            lemma_fields_view(entries@);
        }
        core::mem::swap(&mut self.entries, &mut entries);
        place(&mut entries, key, value);
        core::mem::swap(&mut self.entries, &mut entries);
    }
}

/// Stores `value` under `key` among `entries`: in place of the entry with
/// that key, or else before the first entry with a greater key.
fn place(entries: &mut Vec<Field>, key: String, value: Value)
    ensures
        fields_view(final(entries)@) == with_field(fields_view(old(entries)@), key@, value@),
        keys_ascend(fields_view(old(entries)@)) ==> keys_ascend(fields_view(final(entries)@)),
{
    let ghost start = entries@;
    let ghost before = fields_view(start);
    proof {
        lemma_fields_view(start);
    }
    let mut i: usize = 0;
    while i < entries.len()
        invariant
            i <= entries.len(),
            entries@ == start,
            start == old(entries)@,
            before == fields_view(start),
            before.len() == start.len(),
            forall|k: int|
                0 <= k < start.len() ==> #[trigger] before[k] == (start[k].key@, start[k].value@),
            slot_from(before, key@, 0) == slot_from(before, key@, i as int),
            forall|k: int| 0 <= k < i ==> before[k].0 != key@ && !lex_less(key@, before[k].0),
        decreases entries.len() - i,
    {
        assert(before[i as int] == (start[i as int].key@, start[i as int].value@));
        if text_equal(entries[i].key.as_str(), key.as_str()) {
            assert(slot_from(before, key@, i as int) == (i as int, true));
            entries[i] = Field { key, value };
            proof {
                lemma_fields_view(entries@);
                assert(fields_view(entries@) =~= before.update(i as int, (key@, value@)));
                lemma_update_keeps_order(before, i as int, key@, value@);
            }
            return ;
        }
        if text_less(key.as_str(), entries[i].key.as_str()) {
            assert(slot_from(before, key@, i as int) == (i as int, false));
            entries.insert(i, Field { key, value });
            proof {
                lemma_fields_view(entries@);
                assert(fields_view(entries@) =~= before.insert(i as int, (key@, value@)));
                lemma_insert_keeps_order(before, i as int, key@, value@);
            }
            return ;
        }
        i += 1;
    }
    assert(slot_from(before, key@, i as int) == (i as int, false));
    entries.push(Field { key, value });
    proof {
        lemma_fields_view(entries@);
        assert(fields_view(entries@) =~= before.insert(before.len() as int, (key@, value@)));
        lemma_insert_keeps_order(before, before.len() as int, key@, value@);
    }
}

/// Strings are totally ordered: of two different strings one comes first, and
/// the order is transitive.
pub proof fn lemma_lex_order(a: Seq<char>, b: Seq<char>, c: Seq<char>)
    ensures
        !lex_less(a, a),
        a != b ==> (lex_less(a, b) || lex_less(b, a)),
        lex_less(a, b) && lex_less(b, c) ==> lex_less(a, c),
{
    lemma_lex_irreflexive(a, 0);
    if a != b {
        assert(a.take(0) =~= b.take(0));
        lemma_lex_total(a, b, 0);
    }
    if lex_less(a, b) && lex_less(b, c) {
        lemma_lex_transitive(a, b, c, 0);
    }
}

proof fn lemma_lex_irreflexive(a: Seq<char>, i: int)
    requires
        0 <= i,
    ensures
        !crate::text::lex_less_from(a, a, i),
    decreases a.len() - i,
{
    if i < a.len() {
        lemma_lex_irreflexive(a, i + 1);
    }
}

proof fn lemma_lex_total(a: Seq<char>, b: Seq<char>, i: int)
    requires
        0 <= i <= a.len(),
        i <= b.len(),
        a != b,
        a.take(i) == b.take(i),
    ensures
        crate::text::lex_less_from(a, b, i) || crate::text::lex_less_from(b, a, i),
    decreases a.len() - i,
{
    if i >= a.len() || i >= b.len() {
        if a.len() == b.len() {
            assert(a.take(i) =~= a);
            assert(b.take(i) =~= b);
        }
    } else if a[i] == b[i] {
        assert(a.take(i + 1) =~= a.take(i).push(a[i]));
        assert(b.take(i + 1) =~= b.take(i).push(b[i]));
        lemma_lex_total(a, b, i + 1);
    } else {
        lemma_char_code(a[i], b[i]);
    }
}

proof fn lemma_char_code(c: char, d: char)
    ensures
        c != d ==> (c as u32) != (d as u32),
{
    assert(((c as u32) as char) == c);
    assert(((d as u32) as char) == d);
}

proof fn lemma_lex_transitive(a: Seq<char>, b: Seq<char>, c: Seq<char>, i: int)
    requires
        0 <= i,
        crate::text::lex_less_from(a, b, i),
        crate::text::lex_less_from(b, c, i),
    ensures
        crate::text::lex_less_from(a, c, i),
    decreases a.len() - i,
{
    if i < a.len() && i < b.len() && i < c.len() && a[i] == b[i] && b[i] == c[i] {
        lemma_lex_transitive(a, b, c, i + 1);
    }
}

proof fn lemma_insert_keeps_order(
    fields: Seq<(Seq<char>, ValueView)>,
    at: int,
    key: Seq<char>,
    value: ValueView,
)
    requires
        0 <= at <= fields.len(),
        forall|k: int| 0 <= k < at ==> fields[k].0 != key && !lex_less(key, fields[k].0),
        at < fields.len() ==> lex_less(key, fields[at].0),
    ensures
        keys_ascend(fields) ==> keys_ascend(fields.insert(at, (key, value))),
{
    if keys_ascend(fields) {
        let out = fields.insert(at, (key, value));
        assert forall|i: int, j: int| 0 <= i < j < out.len() implies lex_less(out[i].0, out[j].0) by {
            if j < at {
                assert(out[i] == fields[i] && out[j] == fields[j]);
            } else if j == at {
                assert(out[i] == fields[i]);
                lemma_lex_order(fields[i].0, key, key);
            } else if i < at {
                assert(out[i] == fields[i] && out[j] == fields[j - 1]);
                if j - 1 == i {
                    lemma_lex_order(fields[i].0, key, key);
                    lemma_lex_order(fields[i].0, key, fields[at].0);
                }
            } else if i == at {
                assert(out[j] == fields[j - 1]);
                if j - 1 > at {
                    lemma_lex_order(key, fields[at].0, fields[j - 1].0);
                }
            } else {
                assert(out[i] == fields[i - 1] && out[j] == fields[j - 1]);
            }
        }
    }
}

proof fn lemma_update_keeps_order(
    fields: Seq<(Seq<char>, ValueView)>,
    at: int,
    key: Seq<char>,
    value: ValueView,
)
    requires
        0 <= at < fields.len(),
        fields[at].0 == key,
    ensures
        keys_ascend(fields) ==> keys_ascend(fields.update(at, (key, value))),
{
    if keys_ascend(fields) {
        let out = fields.update(at, (key, value));
        assert forall|i: int, j: int| 0 <= i < j < out.len() implies lex_less(out[i].0, out[j].0) by {
            assert(out[i].0 == fields[i].0 && out[j].0 == fields[j].0);
        }
    }
}

/// What a lookup from position `i` on finds stands at some position from
/// `i` on.
proof fn lemma_found_somewhere(fields: Seq<(Seq<char>, ValueView)>, key: Seq<char>, i: int) -> (at: int)
    requires
        0 <= i,
        lookup_from(fields, key, i) is Some,
    ensures
        i <= at < fields.len(),
        fields[at] == (key, lookup_from(fields, key, i)->Some_0),
    decreases fields.len() - i,
{
    if fields[i].0 == key {
        i
    } else {
        lemma_found_somewhere(fields, key, i + 1)
    }
}

/// Among ascending keys a lookup finds each entry under its own key.
proof fn lemma_finds_entry(fields: Seq<(Seq<char>, ValueView)>, at: int, i: int)
    requires
        keys_ascend(fields),
        0 <= i <= at < fields.len(),
    ensures
        lookup_from(fields, fields[at].0, i) == Some(fields[at].1),
    decreases at - i,
{
    if i < at {
        lemma_lex_order(fields[i].0, fields[at].0, fields[at].0);
        lemma_finds_entry(fields, at, i + 1);
    }
}

/// Two structs with ascending keys agree up to position `n` where every
/// lookup gives the same in both.
proof fn lemma_same_prefix(
    f: Seq<(Seq<char>, ValueView)>,
    g: Seq<(Seq<char>, ValueView)>,
    n: int,
)
    requires
        keys_ascend(f),
        keys_ascend(g),
        forall|q: Seq<char>| lookup(f, q) == lookup(g, q),
        0 <= n <= f.len(),
    ensures
        n <= g.len(),
        forall|k: int| 0 <= k < n ==> f[k] == g[k],
    decreases n,
{
    if n > 0 {
        lemma_same_prefix(f, g, n - 1);
        let i = n - 1;
        let p = f[i].0;
        lemma_finds_entry(f, i, 0);
        assert(lookup(g, p) == lookup(f, p));
        let j = lemma_found_somewhere(g, p, 0);
        if j < i {
            assert(f[j] == g[j]);
            lemma_lex_order(f[j].0, p, p);
        }
        let q = g[i].0;
        lemma_finds_entry(g, i, 0);
        assert(lookup(f, q) == lookup(g, q));
        let k = lemma_found_somewhere(f, q, 0);
        if k < i {
            assert(f[k] == g[k]);
            lemma_lex_order(g[k].0, q, q);
        }
        if j > i {
            lemma_lex_order(q, p, q);
            if k > i {
                lemma_lex_order(p, q, p);
            }
        }
    }
}

/// Fields with ascending keys are decided by what is found under each key:
/// two structs in which every lookup gives the same are the same struct.
pub proof fn law_fields_decided(f: Seq<(Seq<char>, ValueView)>, g: Seq<(Seq<char>, ValueView)>)
    requires
        keys_ascend(f),
        keys_ascend(g),
        forall|q: Seq<char>| lookup(f, q) == lookup(g, q),
    ensures
        f == g,
{
    lemma_same_prefix(f, g, f.len() as int);
    lemma_same_prefix(g, f, g.len() as int);
    assert(f =~= g);
}

/// A struct holds, under the key that was stored last, the value stored with
/// it, and under every other key what it held before.
pub proof fn law_field_stored(
    fields: Seq<(Seq<char>, ValueView)>,
    key: Seq<char>,
    value: ValueView,
    other: Seq<char>,
)
    ensures
        lookup(with_field(fields, key, value), other) == (if other == key {
            Some(value)
        } else {
            lookup(fields, other)
        }),
{
    lemma_stored_from(fields, key, value, other, 0);
}

proof fn lemma_stored_from(
    fields: Seq<(Seq<char>, ValueView)>,
    key: Seq<char>,
    value: ValueView,
    other: Seq<char>,
    i: int,
)
    requires
        0 <= i <= fields.len(),
        slot_from(fields, key, 0) == slot_from(fields, key, i),
    ensures
        lookup_from(with_field(fields, key, value), other, i) == (if other == key {
            Some(value)
        } else {
            lookup_from(fields, other, i)
        }),
    decreases fields.len() - i,
{
    let out = with_field(fields, key, value);
    if i >= fields.len() {
        assert(out == fields.insert(i, (key, value)));
        assert(out[i] == (key, value));
        assert(lookup_from(out, other, i + 1) is None);
    } else if fields[i].0 == key {
        assert(out == fields.update(i, (key, value)));
        lemma_same_tail(out, fields, other, i + 1, 0);
    } else if lex_less(key, fields[i].0) {
        assert(out == fields.insert(i, (key, value)));
        assert(out[i] == (key, value));
        lemma_same_tail(out, fields, other, i + 1, 1);
    } else {
        assert(slot_from(fields, key, i) == slot_from(fields, key, i + 1));
        lemma_slot_found(fields, key, i + 1);
        assert(out[i] == fields[i]);
        lemma_stored_from(fields, key, value, other, i + 1);
    }
}

/// Two sequences that agree from some position on, the first shifted by
/// `shift`, give the same lookups from there.
proof fn lemma_same_tail(
    f: Seq<(Seq<char>, ValueView)>,
    g: Seq<(Seq<char>, ValueView)>,
    key: Seq<char>,
    i: int,
    shift: int,
)
    requires
        0 <= shift <= i,
        f.len() == g.len() + shift,
        forall|k: int| i <= k < f.len() ==> f[k] == g[k - shift],
    ensures
        lookup_from(f, key, i) == lookup_from(g, key, i - shift),
    decreases f.len() - i,
{
    if i < f.len() {
        assert(f[i] == g[i - shift]);
        if f[i].0 != key {
            lemma_same_tail(f, g, key, i + 1, shift);
        }
    }
}

/// The keys of a struct stay ascending when a field is stored.
pub proof fn law_field_keeps_order(fields: Seq<(Seq<char>, ValueView)>, key: Seq<char>, value: ValueView)
    requires
        keys_ascend(fields),
    ensures
        keys_ascend(with_field(fields, key, value)),
{
    lemma_slot_found(fields, key, 0);
    let (at, found) = slot_from(fields, key, 0);
    if found {
        lemma_update_keeps_order(fields, at, key, value);
    } else {
        lemma_insert_keeps_order(fields, at, key, value);
    }
}

/// A slot found from position `i` on: no entry between `i` and the slot has
/// the key or a greater one; an entry that stands at the slot has the key
/// where the key was found, and a greater one where it was not.
proof fn lemma_slot_found(fields: Seq<(Seq<char>, ValueView)>, key: Seq<char>, i: int)
    requires
        0 <= i <= fields.len(),
    ensures
        i <= slot_from(fields, key, i).0 <= fields.len(),
        forall|k: int|
            i <= k < slot_from(fields, key, i).0 ==> fields[k].0 != key && !lex_less(
                key,
                fields[k].0,
            ),
        slot_from(fields, key, i).1 ==> slot_from(fields, key, i).0 < fields.len() && fields[slot_from(
            fields,
            key,
            i,
        ).0].0 == key,
        !slot_from(fields, key, i).1 && slot_from(fields, key, i).0 < fields.len() ==> lex_less(
            key,
            fields[slot_from(fields, key, i).0].0,
        ),
    decreases fields.len() - i,
{
    if i < fields.len() && fields[i].0 != key && !lex_less(key, fields[i].0) {
        lemma_slot_found(fields, key, i + 1);
    }
}

/// A struct does not depend on the order in which fields with different
/// keys were stored.
pub proof fn law_field_order(
    fields: Seq<(Seq<char>, ValueView)>,
    first: Seq<char>,
    x: ValueView,
    second: Seq<char>,
    y: ValueView,
)
    requires
        keys_ascend(fields),
        first != second,
    ensures
        with_field(with_field(fields, first, x), second, y) == with_field(
            with_field(fields, second, y),
            first,
            x,
        ),
{
    let f = with_field(with_field(fields, first, x), second, y);
    let g = with_field(with_field(fields, second, y), first, x);
    law_field_keeps_order(fields, first, x);
    law_field_keeps_order(with_field(fields, first, x), second, y);
    law_field_keeps_order(fields, second, y);
    law_field_keeps_order(with_field(fields, second, y), first, x);
    assert forall|q: Seq<char>| lookup(f, q) == lookup(g, q) by {
        law_field_stored(with_field(fields, first, x), second, y, q);
        law_field_stored(fields, first, x, q);
        law_field_stored(with_field(fields, second, y), first, x, q);
        law_field_stored(fields, second, y, q);
    }
    law_fields_decided(f, g);
}

/// Equality of values does not depend on the side a value stands on.
pub proof fn law_equal_symmetric(a: ValueView, b: ValueView)
    ensures
        values_equal(a, b) == values_equal(b, a),
    decreases a, 0nat,
{
    match (a, b) {
        (ValueView::List(x), ValueView::List(y)) => {
            if x.len() == y.len() {
                lemma_lists_symmetric(x, y, 0);
            }
        },
        (ValueView::Struct(x), ValueView::Struct(y)) => {
            if x.len() == y.len() {
                lemma_fields_symmetric(x, y, 0);
            }
        },
        (ValueView::Enum(_, Some(p)), ValueView::Enum(_, Some(q))) => {
            law_equal_symmetric(*p, *q);
        },
        _ => {},
    }
}

proof fn lemma_lists_symmetric(x: Seq<ValueView>, y: Seq<ValueView>, i: int)
    requires
        x.len() == y.len(),
    ensures
        lists_equal_from(x, y, i) == lists_equal_from(y, x, i),
    decreases x, x.len() - i,
{
    if 0 <= i < x.len() {
        law_equal_symmetric(x[i], y[i]);
        lemma_lists_symmetric(x, y, i + 1);
    }
}

proof fn lemma_fields_symmetric(
    x: Seq<(Seq<char>, ValueView)>,
    y: Seq<(Seq<char>, ValueView)>,
    i: int,
)
    requires
        x.len() == y.len(),
    ensures
        fields_equal_from(x, y, i) == fields_equal_from(y, x, i),
    decreases x, x.len() - i,
{
    if 0 <= i < x.len() {
        law_equal_symmetric(x[i].1, y[i].1);
        lemma_fields_symmetric(x, y, i + 1);
    }
}

/// Element `i` of a list's content is the content of element `i`.
pub proof fn lemma_values_view(items: Seq<Value>)
    ensures
        values_view(items).len() == items.len(),
        forall|i: int| 0 <= i < items.len() ==> #[trigger] values_view(items)[i] == items[i]@,
{
}

/// Field `i` of a struct's content is the key and content of field `i`.
pub proof fn lemma_fields_view(entries: Seq<Field>)
    ensures
        fields_view(entries).len() == entries.len(),
        forall|i: int|
            0 <= i < entries.len() ==> #[trigger] fields_view(entries)[i] == (
                entries[i].key@,
                entries[i].value@,
            ),
{
}

fn duplicate_all(items: &Vec<Value>) -> (out: Vec<Value>)
    ensures
        values_view(out@) == values_view(items@),
    decreases items,
{
    let mut out: Vec<Value> = Vec::new();
    let mut i: usize = 0;
    while i < items.len()
        invariant
            i <= items.len(),
            out@.len() == i,
            forall|k: int| 0 <= k < i ==> out@[k]@ == items@[k]@,
        decreases items.len() - i,
    {
        assert(decreases_to!(*items => items@[i as int]));
        out.push(items[i].duplicate());
        i += 1;
    }
    proof {
        lemma_values_view(out@);
        lemma_values_view(items@);
        assert(values_view(out@) =~= values_view(items@));
    }
    out
}

fn duplicate_fields(entries: &Vec<Field>) -> (out: Vec<Field>)
    ensures
        fields_view(out@) == fields_view(entries@),
    decreases entries,
{
    let mut out: Vec<Field> = Vec::new();
    let mut i: usize = 0;
    while i < entries.len()
        invariant
            i <= entries.len(),
            out@.len() == i,
            forall|k: int|
                0 <= k < i ==> out@[k].key@ == entries@[k].key@ && out@[k].value@
                    == entries@[k].value@,
        decreases entries.len() - i,
    {
        assert(decreases_to!(*entries => entries@[i as int]));
        assert(decreases_to!(entries@[i as int] => entries@[i as int].value));
        out.push(Field { key: entries[i].key.clone(), value: entries[i].value.duplicate() });
        i += 1;
    }
    proof {
        lemma_fields_view(out@);
        lemma_fields_view(entries@);
        assert(fields_view(out@) =~= fields_view(entries@));
    }
    out
}

impl Value {
    /// A deep copy of this value.
    pub fn duplicate(&self) -> (r: Value)
        ensures
            r@ == self@,
        decreases self,
    {
        match self {
            Value::Null => Value::Null,
            Value::Bool(b) => Value::Bool(*b),
            Value::Int(n) => Value::Int(*n),
            Value::Float(x) => Value::Float(*x),
            Value::String(s) => Value::String(s.clone()),
            Value::List(items) => {
                assert(decreases_to!(*self => (*self)->List_0));
                Value::List(duplicate_all(items))
            },
            Value::Struct(m) => {
                assert(decreases_to!(*self => (*self)->Struct_0));
                assert(decreases_to!(*m => m.entries));
                proof {
                    use_type_invariant(m);
                }
                let copy = StructMap { entries: duplicate_fields(&m.entries) };
                assert(copy.fields() == m.fields());
                Value::Struct(copy)
            },
            Value::Enum { name, payload } => Value::Enum {
                name: name.clone(),
                payload: match payload {
                    Some(p) => Some(Box::new((&**p).duplicate())),
                    None => None,
                },
            },
        }
    }
}

impl Clone for StructMap {
    fn clone(&self) -> (m: StructMap)
        ensures
            m@ == self@,
    {
        self.duplicate()
    }
}

impl Clone for Value {
    fn clone(&self) -> (r: Value)
        ensures
            r@ == self@,
    {
        self.duplicate()
    }
}

impl Value {
    /// The name of this value's tag.
    pub fn kind_name(&self) -> (r: &'static str)
        ensures
            r@ == kind_name_of(self@),
    {
        match self {
            Value::Null => "null",
            Value::Bool(_) => "bool",
            Value::Int(_) => "int",
            Value::Float(_) => "float",
            Value::String(_) => "string",
            Value::List(_) => "list",
            Value::Struct(_) => "struct",
            Value::Enum { .. } => "enum",
        }
    }

    pub fn as_bool(&self) -> (r: Option<bool>)
        ensures
            r == (match self@ {
                ValueView::Bool(b) => Some(b),
                _ => None,
            }),
    {
        if let Value::Bool(b) = self {
            Some(*b)
        } else {
            None
        }
    }

    pub fn as_int(&self) -> (r: Option<i64>)
        ensures
            r == (match self@ {
                ValueView::Int(n) => Some(n),
                _ => None,
            }),
    {
        if let Value::Int(n) = self {
            Some(*n)
        } else {
            None
        }
    }

    /// The bit pattern of a `Float`.
    pub fn as_float(&self) -> (r: Option<u64>)
        ensures
            r == (match self@ {
                ValueView::Float(x) => Some(x),
                _ => None,
            }),
    {
        if let Value::Float(x) = self {
            Some(*x)
        } else {
            None
        }
    }

    pub fn as_string(&self) -> (r: Option<&str>)
        ensures
            match self@ {
                ValueView::Str(s) => r is Some && r->0@ == s,
                _ => r is None,
            },
    {
        if let Value::String(s) = self {
            Some(s.as_str())
        } else {
            None
        }
    }

    /// The field `key` of a struct.
    pub fn get_field(&self, key: &str) -> (r: Option<&Value>)
        ensures
            match self@ {
                ValueView::Struct(fields) => match r {
                    Some(v) => lookup(fields, key@) == Some(v@),
                    None => lookup(fields, key@) is None,
                },
                _ => r is None,
            },
    {
        match self {
            Value::Struct(m) => m.get(key),
            _ => None,
        }
    }

    /// The element of a list at an integer position, or the field of a struct
    /// under a string key.
    pub fn get_index(&self, idx: &Value) -> (r: Option<&Value>)
        ensures
            match r {
                Some(v) => index_of(self@, idx@) == Some(v@),
                None => index_of(self@, idx@) is None,
            },
    {
        match (self, idx) {
            (Value::List(items), Value::Int(i)) => {
                proof {
                    lemma_values_view(items@);
                }
                if *i >= 0 && (*i as u64) < (items.len() as u64) {
                    Some(&items[*i as usize])
                } else {
                    None
                }
            },
            (Value::Struct(m), Value::String(k)) => m.get(k.as_str()),
            _ => None,
        }
    }

    /// Deep equality, as `==` of the expression language has it.
    pub fn equals(&self, other: &Value) -> (r: bool)
        ensures
            r == values_equal(self@, other@),
        decreases self,
    {
        match (self, other) {
            (Value::Null, Value::Null) => true,
            (Value::Bool(a), Value::Bool(b)) => {
                let x: bool = *a;
                let y: bool = *b;
                x == y
            },
            (Value::Int(a), Value::Int(b)) => {
                let x: i64 = *a;
                let y: i64 = *b;
                x == y
            },
            (Value::Float(a), Value::Float(b)) => float_equal(*a, *b),
            (Value::String(a), Value::String(b)) => text_equal(a.as_str(), b.as_str()),
            (Value::List(a), Value::List(b)) => {
                assert(decreases_to!(*self => (*self)->List_0));
                let r = lists_equal(a, b);
                proof {
                    lemma_values_view(a@);
                    lemma_values_view(b@);
                }
                assert(r == values_equal(self@, other@));
                r
            },
            (Value::Struct(a), Value::Struct(b)) => {
                assert(decreases_to!(*self => (*self)->Struct_0));
                assert(decreases_to!(*a => a.entries));
                let r = fields_equal(&a.entries, &b.entries);
                proof {
                    lemma_fields_view(a.entries@);
                    lemma_fields_view(b.entries@);
                    assert(a.fields() == fields_view(a.entries@));
                    assert(b.fields() == fields_view(b.entries@));
                }
                assert(r == values_equal(self@, other@));
                r
            },
            (Value::Enum { name: n, payload: p }, Value::Enum { name: m, payload: q }) => {
                if !text_equal(n.as_str(), m.as_str()) {
                    return false;
                }
                match (p, q) {
                    (None, None) => true,
                    (Some(x), Some(y)) => (&**x).equals(&**y),
                    (Some(x), None) => false,
                    (None, Some(y)) => false,
                }
            },
            _ => false,
        }
    }
}

fn lists_equal(a: &Vec<Value>, b: &Vec<Value>) -> (r: bool)
    ensures
        r == (a@.len() == b@.len() && lists_equal_from(values_view(a@), values_view(b@), 0)),
    decreases a,
{
    if a.len() != b.len() {
        return false;
    }
    proof {
        lemma_values_view(a@);
        lemma_values_view(b@);
    }
    let mut i: usize = 0;
    while i < a.len()
        invariant
            i <= a.len(),
            a.len() == b.len(),
            values_view(a@).len() == a@.len(),
            values_view(b@).len() == b@.len(),
            forall|k: int| 0 <= k < a@.len() ==> #[trigger] values_view(a@)[k] == a@[k]@,
            forall|k: int| 0 <= k < b@.len() ==> #[trigger] values_view(b@)[k] == b@[k]@,
            lists_equal_from(values_view(a@), values_view(b@), 0) == lists_equal_from(
                values_view(a@),
                values_view(b@),
                i as int,
            ),
        decreases a.len() - i,
    {
        assert(decreases_to!(*a => a@[i as int]));
        assert(values_view(a@)[i as int] == a@[i as int]@);
        assert(values_view(b@)[i as int] == b@[i as int]@);
        if !a[i].equals(&b[i]) {
            return false;
        }
        i += 1;
    }
    true
}

fn fields_equal(a: &Vec<Field>, b: &Vec<Field>) -> (r: bool)
    ensures
        r == (a@.len() == b@.len() && fields_equal_from(fields_view(a@), fields_view(b@), 0)),
    decreases a,
{
    if a.len() != b.len() {
        return false;
    }
    proof {
        lemma_fields_view(a@);
        lemma_fields_view(b@);
    }
    let mut i: usize = 0;
    while i < a.len()
        invariant
            i <= a.len(),
            a.len() == b.len(),
            fields_view(a@).len() == a@.len(),
            fields_view(b@).len() == b@.len(),
            forall|k: int|
                0 <= k < a@.len() ==> #[trigger] fields_view(a@)[k] == (a@[k].key@, a@[k].value@),
            forall|k: int|
                0 <= k < b@.len() ==> #[trigger] fields_view(b@)[k] == (b@[k].key@, b@[k].value@),
            fields_equal_from(fields_view(a@), fields_view(b@), 0) == fields_equal_from(
                fields_view(a@),
                fields_view(b@),
                i as int,
            ),
        decreases a.len() - i,
    {
        assert(decreases_to!(*a => a@[i as int]));
        assert(decreases_to!(a@[i as int] => a@[i as int].value));
        assert(fields_view(a@)[i as int] == (a@[i as int].key@, a@[i as int].value@));
        assert(fields_view(b@)[i as int] == (b@[i as int].key@, b@[i as int].value@));
        if !text_equal(a[i].key.as_str(), b[i].key.as_str()) {
            return false;
        }
        if !a[i].value.equals(&b[i].value) {
            return false;
        }
        i += 1;
    }
    true
}

impl PartialEq for Value {
    fn eq(&self, other: &Value) -> (r: bool) {
        self.equals(other)
    }
}

impl PartialEqSpecImpl for Value {
    open spec fn obeys_eq_spec() -> bool {
        true
    }

    open spec fn eq_spec(&self, other: &Value) -> bool {
        values_equal(self@, other@)
    }
}

/// The decimal notation of an Int.
pub open spec fn int_text(n: i64) -> Seq<char> {
    if n < 0 {
        "-"@ + decimal_text((-(n as int)) as nat)
    } else {
        decimal_text(n as nat)
    }
}

/// The characters of `s` from position `i` on as they stand inside a string
/// literal: a backslash before every double quote and every backslash.
pub open spec fn escaped(s: Seq<char>, i: int) -> Seq<char>
    decreases s.len() - i,
{
    if i < 0 || i >= s.len() {
        Seq::empty()
    } else if s[i] == '"' || s[i] == '\\' {
        seq!['\\', s[i]] + escaped(s, i + 1)
    } else {
        seq![s[i]] + escaped(s, i + 1)
    }
}

/// How a value is written: `null`, `true` or `false`, a number in decimal, a
/// string between double quotes with its quotes and backslashes escaped, a
/// list as `[a, b]`, a struct as
/// `{k: v, l: w}` in the order of its fields, an enum as `Name` or
/// `Name(payload)`.
pub open spec fn render(v: ValueView) -> Seq<char>
    decreases v, 0nat,
{
    match v {
        ValueView::Null => "null"@,
        ValueView::Bool(b) => if b {
            "true"@
        } else {
            "false"@
        },
        ValueView::Int(n) => int_text(n),
        ValueView::Float(x) => float_text(x),
        ValueView::Str(s) => "\""@ + escaped(s, 0) + "\""@,
        ValueView::List(items) => "["@ + render_items(items, 0) + "]"@,
        ValueView::Struct(fields) => "{"@ + render_fields(fields, 0) + "}"@,
        ValueView::Enum(name, payload) => match payload {
            Some(p) => name + "("@ + render(*p) + ")"@,
            None => name,
        },
    }
}

/// The items of `items` from position `i` on as they are written, each but
/// the first after a comma and a space.
pub open spec fn render_items(items: Seq<ValueView>, i: int) -> Seq<char>
    decreases items, items.len() - i,
{
    if i < 0 || i >= items.len() {
        Seq::empty()
    } else if i == 0 {
        render(items[i]) + render_items(items, i + 1)
    } else {
        ", "@ + render(items[i]) + render_items(items, i + 1)
    }
}

/// The fields of `fields` from position `i` on as they are written: the
/// key, a colon, a space and the value, each field but the first after a
/// comma and a space.
pub open spec fn render_fields(fields: Seq<(Seq<char>, ValueView)>, i: int) -> Seq<char>
    decreases fields, fields.len() - i,
{
    if i < 0 || i >= fields.len() {
        Seq::empty()
    } else if i == 0 {
        fields[i].0 + ": "@ + render(fields[i].1) + render_fields(fields, i + 1)
    } else {
        ", "@ + fields[i].0 + ": "@ + render(fields[i].1) + render_fields(fields, i + 1)
    }
}

fn push_text(out: &mut Vec<char>, text: &str)
    ensures
        final(out)@ == old(out)@ + text@,
{
    let chars = chars_of(text);
    append_chars(out, &chars);
}

fn push_escaped(out: &mut Vec<char>, text: &str)
    ensures
        final(out)@ == old(out)@ + escaped(text@, 0),
{
    let chars = chars_of(text);
    let mut i: usize = 0;
    while i < chars.len()
        invariant
            i <= chars.len(),
            chars@ == text@,
            out@ + escaped(text@, i as int) == old(out)@ + escaped(text@, 0),
        decreases chars.len() - i,
    {
        let ghost before = out@;
        let c = chars[i];
        if c == '"' || c == '\\' {
            out.push('\\');
        }
        out.push(c);
        assert(out@ + escaped(text@, i + 1) =~= before + escaped(text@, i as int));
        i += 1;
    }
    assert(out@ + escaped(text@, i as int) =~= out@);
}

fn push_int(out: &mut Vec<char>, n: i64)
    ensures
        final(out)@ == old(out)@ + int_text(n),
{
    if n < 0 {
        push_text(out, "-");
        let magnitude: u64 = if n == i64::MIN {
            0x8000_0000_0000_0000u64
        } else {
            (-n) as u64
        };
        push_decimal(out, magnitude);
        assert(out@ =~= old(out)@ + ("-"@ + decimal_text((-(n as int)) as nat)));
    } else {
        push_decimal(out, n as u64);
    }
}

fn push_items(out: &mut Vec<char>, items: &Vec<Value>)
    ensures
        final(out)@ == old(out)@ + render_items(values_view(items@), 0),
    decreases items,
{
    proof {
        lemma_values_view(items@);
    }
    let ghost all = values_view(items@);
    let mut i: usize = 0;
    while i < items.len()
        invariant
            i <= items.len(),
            all == values_view(items@),
            all.len() == items@.len(),
            forall|k: int| 0 <= k < items@.len() ==> #[trigger] all[k] == items@[k]@,
            old(out)@ + render_items(all, 0) == out@ + render_items(all, i as int),
        decreases items.len() - i,
    {
        let ghost before = out@;
        assert(decreases_to!(*items => items@[i as int]));
        assert(all[i as int] == items@[i as int]@);
        if i > 0 {
            push_text(out, ", ");
        }
        items[i].render_into(out);
        proof {
            let tail = render_items(all, i + 1);
            let item = render(all[i as int]);
            if i > 0 {
                assert(before + (", "@ + item + tail) =~= (before + ", "@ + item) + tail);
            } else {
                assert(before + (item + tail) =~= (before + item) + tail);
            }
        }
        i += 1;
    }
    assert(out@ + Seq::<char>::empty() =~= out@);
}

fn push_fields(out: &mut Vec<char>, entries: &Vec<Field>)
    ensures
        final(out)@ == old(out)@ + render_fields(fields_view(entries@), 0),
    decreases entries,
{
    proof {
        lemma_fields_view(entries@);
    }
    let ghost all = fields_view(entries@);
    let mut i: usize = 0;
    while i < entries.len()
        invariant
            i <= entries.len(),
            all == fields_view(entries@),
            all.len() == entries@.len(),
            forall|k: int|
                0 <= k < entries@.len() ==> #[trigger] all[k] == (
                    entries@[k].key@,
                    entries@[k].value@,
                ),
            old(out)@ + render_fields(all, 0) == out@ + render_fields(all, i as int),
        decreases entries.len() - i,
    {
        let ghost before = out@;
        assert(decreases_to!(*entries => entries@[i as int]));
        assert(decreases_to!(entries@[i as int] => entries@[i as int].value));
        assert(all[i as int] == (entries@[i as int].key@, entries@[i as int].value@));
        if i > 0 {
            push_text(out, ", ");
        }
        push_text(out, entries[i].key.as_str());
        push_text(out, ": ");
        entries[i].value.render_into(out);
        proof {
            let tail = render_fields(all, i + 1);
            let key = all[i as int].0;
            let item = render(all[i as int].1);
            if i > 0 {
                assert(before + (", "@ + key + ": "@ + item + tail) =~= (before + ", "@ + key
                    + ": "@ + item) + tail);
            } else {
                assert(before + (key + ": "@ + item + tail) =~= (before + key + ": "@ + item)
                    + tail);
            }
        }
        i += 1;
    }
    assert(out@ + Seq::<char>::empty() =~= out@);
}

impl Value {
    /// Appends this value, as it is written, to `out`.
    pub fn render_into(&self, out: &mut Vec<char>)
        ensures
            final(out)@ == old(out)@ + render(self@),
        decreases self,
    {
        match self {
            Value::Null => push_text(out, "null"),
            Value::Bool(b) => {
                if *b {
                    push_text(out, "true")
                } else {
                    push_text(out, "false")
                }
            },
            Value::Int(n) => push_int(out, *n),
            Value::Float(x) => {
                let text = render_float(*x);
                append_chars(out, &text);
            },
            Value::String(s) => {
                push_text(out, "\"");
                push_escaped(out, s.as_str());
                push_text(out, "\"");
                assert(out@ =~= old(out)@ + ("\""@ + escaped(s@, 0) + "\""@));
            },
            Value::List(items) => {
                assert(decreases_to!(*self => (*self)->List_0));
                push_text(out, "[");
                push_items(out, items);
                push_text(out, "]");
                assert(out@ =~= old(out)@ + ("["@ + render_items(values_view(items@), 0) + "]"@));
            },
            Value::Struct(m) => {
                assert(decreases_to!(*self => (*self)->Struct_0));
                assert(decreases_to!(*m => m.entries));
                push_text(out, "{");
                push_fields(out, &m.entries);
                push_text(out, "}");
                assert(m.fields() == fields_view(m.entries@));
                assert(out@ =~= old(out)@ + ("{"@ + render_fields(fields_view(m.entries@), 0)
                    + "}"@));
            },
            Value::Enum { name, payload } => {
                push_text(out, name.as_str());
                match payload {
                    Some(p) => {
                        push_text(out, "(");
                        (&**p).render_into(out);
                        push_text(out, ")");
                        assert(out@ =~= old(out)@ + (name@ + "("@ + render(p@) + ")"@));
                    },
                    None => {},
                }
            },
        }
    }

    /// This value as it is written.
    pub fn to_text(&self) -> (s: String)
        ensures
            s@ == render(self@),
    {
        let mut out: Vec<char> = Vec::new();
        self.render_into(&mut out);
        assert(out@ =~= render(self@));
        string_of(&out)
    }
}

} // verus!
