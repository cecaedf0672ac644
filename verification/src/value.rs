//! The value domain: what a variable can hold, the heap that lists, records
//! and compiled patterns live in, and the arithmetic of values.

use vstd::prelude::*;
use crate::error::Error;
use crate::ident::{Ident, Str};
use crate::pattern::compile::Compiled;
use crate::pattern::display::{ast_text, plain_texts};
use crate::text::{int_text, push_int, push_str};

verus! {

pub type Nil = ();

pub type Int = i32;

/// A handle to a list on the heap. Two handles name the same list exactly
/// when they are equal; a mutation through one is seen through the other.
#[derive(Copy, Clone, Debug, PartialEq, Eq, Structural)]
pub struct List {
    pub index: usize,
}

/// A handle to a record on the heap.
#[derive(Copy, Clone, Debug, PartialEq, Eq, Structural)]
pub struct Record {
    pub index: usize,
}

/// A handle to a compiled pattern on the heap.
#[derive(Copy, Clone, Debug, PartialEq, Eq, Structural)]
pub struct PatternRef {
    pub index: usize,
}

/// A value of the language.
#[derive(Debug, PartialEq)]
pub enum Value {
    Nil(Nil),
    Int(Int),
    Str(Str),
    List(List),
    Record(Record),
    Ident(Ident),
    Pattern(PatternRef),
}

/// Where the shared containers live. A handle is an index into one of the
/// three tables; nothing is ever removed, so a handle stays good.
pub struct Heap {
    pub lists: Vec<Vec<Value>>,
    pub records: Vec<Vec<(Ident, Value)>>,
    pub patterns: Vec<Compiled>,
}

/// The index of the first entry of a record with the key `key`.
pub open spec fn position_of(entries: Seq<(Ident, Value)>, key: Seq<char>) -> Option<int>
    decreases entries.len(),
{
    if entries.len() == 0 {
        None
    } else {
        match position_of(entries.drop_last(), key) {
            Some(i) => Some(i),
            None => if entries.last().0@ == key {
                Some(entries.len() - 1)
            } else {
                None
            },
        }
    }
}

/// What `position_of` returns is the first entry with the key.
pub proof fn position_of_is_first(entries: Seq<(Ident, Value)>, key: Seq<char>)
    ensures
        match position_of(entries, key) {
            Some(i) => 0 <= i < entries.len() && entries[i].0@ == key && forall|j: int|
                0 <= j < i ==> (#[trigger] entries[j]).0@ != key,
            None => forall|j: int| 0 <= j < entries.len() ==> (#[trigger] entries[j]).0@ != key,
        },
    decreases entries.len(),
{
    if entries.len() > 0 {
        position_of_is_first(entries.drop_last(), key);
        match position_of(entries.drop_last(), key) {
            Some(i) => {
                assert(entries.drop_last()[i] == entries[i]);
                assert forall|j: int| 0 <= j < i implies (#[trigger] entries[j]).0@ != key by {
                    assert(entries.drop_last()[j] == entries[j]);
                }
            },
            None => {
                assert forall|j: int| 0 <= j < entries.len() - 1 implies (#[trigger] entries[j]).0@
                    != key by {
                    assert(entries.drop_last()[j] == entries[j]);
                }
            },
        }
    }
}

/// Truncating division, as the machine divides signed integers.
pub open spec fn quotient(l: int, r: int) -> int {
    if l >= 0 {
        l / r
    } else {
        -((-l) / r)
    }
}

/// `text` repeated `n` times.
pub open spec fn repeated(text: Seq<char>, n: nat) -> Seq<char>
    decreases n,
{
    if n == 0 {
        Seq::empty()
    } else {
        repeated(text, (n - 1) as nat) + text
    }
}

impl Heap {
    /// An empty heap.
    pub fn new() -> (h: Heap)
        ensures
            h.lists@.len() == 0,
            h.records@.len() == 0,
            h.patterns@.len() == 0,
    {
        Heap { lists: Vec::new(), records: Vec::new(), patterns: Vec::new() }
    }

    /// How deep the rendering of a value goes into nested containers: as
    /// deep as the heap has containers, which is deep enough for every value
    /// that does not hold itself.
    pub open spec fn depth(self) -> nat {
        if self.lists@.len() + self.records@.len() <= usize::MAX {
            (self.lists@.len() + self.records@.len()) as nat
        } else {
            usize::MAX as nat
        }
    }

    /// Whether the heap differs from `old` by one more list, `items`.
    pub open spec fn with_list(self, old: Heap, items: Seq<Value>) -> bool {
        &&& self.lists@.len() == old.lists@.len() + 1
        &&& forall|i: int| 0 <= i < old.lists@.len() ==> self.lists@[i] == old.lists@[i]
        &&& self.lists@[old.lists@.len() as int]@ == items
        &&& self.records == old.records
        &&& self.patterns == old.patterns
    }

    /// Puts a list on the heap and hands out its handle.
    pub fn alloc_list(&mut self, items: Vec<Value>) -> (l: List)
        ensures
            l.index == old(self).lists@.len(),
            final(self).with_list(*old(self), items@),
    {
        let index = self.lists.len();
        self.lists.push(items);
        List { index }
    }

    /// Puts an empty record on the heap and hands out its handle.
    pub fn alloc_record(&mut self) -> (r: Record)
        ensures
            r.index == old(self).records@.len(),
            final(self).records@ == old(self).records@.push(final(self).records@.last()),
            final(self).records@.last()@.len() == 0,
            final(self).lists == old(self).lists,
            final(self).patterns == old(self).patterns,
    {
        let index = self.records.len();
        self.records.push(Vec::new());
        Record { index }
    }

    /// Puts a compiled pattern on the heap and hands out its handle.
    pub fn alloc_pattern(&mut self, pattern: Compiled) -> (p: PatternRef)
        ensures
            p.index == old(self).patterns@.len(),
            final(self).patterns@ == old(self).patterns@.push(pattern),
            final(self).lists == old(self).lists,
            final(self).records == old(self).records,
    {
        let index = self.patterns.len();
        self.patterns.push(pattern);
        PatternRef { index }
    }
}

impl Clone for Value {
    fn clone(&self) -> (r: Self)
        ensures
            r == *self,
    {
        match self {
            Value::Nil(_) => Value::Nil(()),
            Value::Int(i) => Value::Int(*i),
            Value::Str(s) => Value::Str(s.clone()),
            Value::List(l) => Value::List(*l),
            Value::Record(r) => Value::Record(*r),
            Value::Ident(id) => Value::Ident(id.clone()),
            Value::Pattern(p) => Value::Pattern(*p),
        }
    }
}

/// The rendering of a value. Containers are rendered `depth` levels deep; a
/// container below that, or one that the heap does not hold, is elided.
pub open spec fn value_text(v: Value, h: Heap, depth: nat) -> Seq<char>
    decreases depth, 0int, 0nat,
{
    match v {
        Value::Nil(_) => "nil"@,
        Value::Int(i) => int_text(i as int),
        Value::Str(s) => s@,
        Value::Ident(id) => id@,
        Value::List(l) => if depth > 0 && l.index < h.lists@.len() {
            "["@ + items_text(h.lists@[l.index as int]@, h, (depth - 1) as nat) + "]"@
        } else {
            "[...]"@
        },
        Value::Record(r) => if depth > 0 && r.index < h.records@.len() {
            "{ "@ + entries_text(h.records@[r.index as int]@, h, (depth - 1) as nat) + " }"@
        } else {
            "{ ... }"@
        },
        Value::Pattern(p) => if p.index < h.patterns@.len() {
            ast_text(plain_texts(), h.patterns@[p.index as int].ast)
        } else {
            "re/.../"@
        },
    }
}

/// The renderings of the items of a list, separated by `, `.
pub open spec fn items_text(items: Seq<Value>, h: Heap, depth: nat) -> Seq<char>
    decreases depth, 1int, items.len(),
{
    if items.len() == 0 {
        Seq::empty()
    } else if items.len() == 1 {
        value_text(items.last(), h, depth)
    } else {
        items_text(items.drop_last(), h, depth) + ", "@ + value_text(items.last(), h, depth)
    }
}

/// The renderings of the entries of a record, each as `key: value`,
/// separated by `, `.
pub open spec fn entries_text(entries: Seq<(Ident, Value)>, h: Heap, depth: nat) -> Seq<char>
    decreases depth, 1int, entries.len(),
{
    if entries.len() == 0 {
        Seq::empty()
    } else if entries.len() == 1 {
        entries.last().0@ + ": "@ + value_text(entries.last().1, h, depth)
    } else {
        entries_text(entries.drop_last(), h, depth) + ", "@ + entries.last().0@ + ": "@
            + value_text(entries.last().1, h, depth)
    }
}

impl Value {
    /// Whether two values are equal: of the same kind, with equal numbers,
    /// equal texts, or handles to the same container.
    pub open spec fn same(self, other: Value) -> bool {
        match (self, other) {
            (Value::Nil(_), Value::Nil(_)) => true,
            (Value::Int(a), Value::Int(b)) => a == b,
            (Value::Str(a), Value::Str(b)) => a@ == b@,
            (Value::List(a), Value::List(b)) => a.index == b.index,
            (Value::Record(a), Value::Record(b)) => a.index == b.index,
            (Value::Ident(a), Value::Ident(b)) => a@ == b@,
            (Value::Pattern(a), Value::Pattern(b)) => a.index == b.index,
            _ => false,
        }
    }

    /// Tests two values for being equal.
    pub fn equals(&self, other: &Value) -> (r: bool)
        ensures
            r == self.same(*other),
    {
        match (self, other) {
            (Value::Nil(_), Value::Nil(_)) => true,
            (Value::Int(a), Value::Int(b)) => *a == *b,
            (Value::Str(a), Value::Str(b)) => *a == *b,
            (Value::List(a), Value::List(b)) => a.index == b.index,
            (Value::Record(a), Value::Record(b)) => a.index == b.index,
            (Value::Ident(a), Value::Ident(b)) => a.same_as(b),
            (Value::Pattern(a), Value::Pattern(b)) => a.index == b.index,
            _ => false,
        }
    }

    /// The name of the value's type.
    pub open spec fn kind(self) -> Seq<char> {
        match self {
            Value::Nil(_) => "Nil"@,
            Value::Int(_) => "Int"@,
            Value::Str(_) => "Str"@,
            Value::List(_) => "List"@,
            Value::Record(_) => "Record"@,
            Value::Ident(_) => "Ident"@,
            Value::Pattern(_) => "Pattern"@,
        }
    }

    /// The name of the value's type.
    pub fn kind_name(&self) -> (name: &'static str)
        ensures
            name@ == self.kind(),
    {
        match self {
            Value::Nil(_) => "Nil",
            Value::Int(_) => "Int",
            Value::Str(_) => "Str",
            Value::List(_) => "List",
            Value::Record(_) => "Record",
            Value::Ident(_) => "Ident",
            Value::Pattern(_) => "Pattern",
        }
    }

    /// Whether the value counts as true: every value does but nil, zero and
    /// the empty string.
    pub open spec fn truthy(self) -> bool {
        match self {
            Value::Nil(_) => false,
            Value::Int(i) => i != 0,
            Value::Str(s) => s@.len() != 0,
            _ => true,
        }
    }

    /// Tests the value for counting as true.
    pub fn is_truthy(&self) -> (b: bool)
        ensures
            b == self.truthy(),
    {
        match self {
            Value::Nil(_) => false,
            Value::Int(i) => *i != 0,
            Value::Str(s) => !s.as_str().is_empty(),
            _ => true,
        }
    }

    /// The value that stands for a truth value: 1 for true, 0 for false.
    pub fn from_bool(b: bool) -> (v: Value)
        ensures
            v == (if b {
                Value::Int(1)
            } else {
                Value::Int(0)
            }),
    {
        if b {
            Value::Int(1)
        } else {
            Value::Int(0)
        }
    }

    /// A new list on the heap that holds the values of `slice`.
    pub fn from_slice(slice: &[Value], heap: &mut Heap) -> (v: Value)
        ensures
            v == Value::List(List { index: old(heap).lists@.len() as usize }),
            final(heap).with_list(*old(heap), slice@),
    {
        let mut items: Vec<Value> = Vec::new();
        let mut i: usize = 0;
        while i < slice.len()
            invariant
                i <= slice.len(),
                items@ == slice@.take(i as int),
            decreases slice.len() - i,
        {
            items.push(slice[i].clone());
            i = i + 1;
        }
        assert(slice@.take(slice.len() as int) =~= slice@);
        Value::List(heap.alloc_list(items))
    }

    /// Renders the value for a human reader.
    pub fn to_string(&self, heap: &Heap) -> (s: String)
        ensures
            s@ == value_text(*self, *heap, heap.depth()),
    {
        let depth: usize = match heap.lists.len().checked_add(heap.records.len()) {
            Some(depth) => depth,
            None => usize::MAX,
        };
        let mut s = String::new();
        self.render(heap, depth, &mut s);
        s
    }

    /// Appends the rendering of the value, `depth` levels deep, to `out`.
    pub fn render(&self, heap: &Heap, depth: usize, out: &mut String)
        ensures
            final(out)@ == old(out)@ + value_text(*self, *heap, depth as nat),
        decreases depth, 0int, 0nat,
    {
        match self {
            Value::Nil(_) => push_str(out, "nil"),
            Value::Int(i) => push_int(out, *i as i64),
            Value::Str(s) => push_str(out, s.as_str()),
            Value::Ident(id) => push_str(out, id.as_str()),
            Value::List(l) => {
                if depth > 0 && l.index < heap.lists.len() {
                    push_str(out, "[");
                    let items = &heap.lists[l.index];
                    let mut i: usize = 0;
                    while i < items.len()
                        invariant
                            i <= items.len(),
                            depth > 0,
                            out@ == old(out)@ + "["@ + items_text(
                                items@.take(i as int),
                                *heap,
                                (depth - 1) as nat,
                            ),
                        decreases items.len() - i,
                    {
                        proof {
                            assert(items@.take(i + 1).drop_last() =~= items@.take(i as int));
                        }
                        if i > 0 {
                            push_str(out, ", ");
                        }
                        items[i].render(heap, depth - 1, out);
                        i = i + 1;
                    }
                    assert(items@.take(items.len() as int) =~= items@);
                    push_str(out, "]");
                } else {
                    push_str(out, "[...]");
                }
            },
            Value::Record(r) => {
                if depth > 0 && r.index < heap.records.len() {
                    push_str(out, "{ ");
                    let entries = &heap.records[r.index];
                    let mut i: usize = 0;
                    while i < entries.len()
                        invariant
                            i <= entries.len(),
                            depth > 0,
                            out@ == old(out)@ + "{ "@ + entries_text(
                                entries@.take(i as int),
                                *heap,
                                (depth - 1) as nat,
                            ),
                        decreases entries.len() - i,
                    {
                        proof {
                            assert(entries@.take(i + 1).drop_last() =~= entries@.take(i as int));
                        }
                        if i > 0 {
                            push_str(out, ", ");
                        }
                        push_str(out, entries[i].0.as_str());
                        push_str(out, ": ");
                        entries[i].1.render(heap, depth - 1, out);
                        i = i + 1;
                    }
                    assert(entries@.take(entries.len() as int) =~= entries@);
                    push_str(out, " }");
                } else {
                    push_str(out, "{ ... }");
                }
            },
            Value::Pattern(p) => {
                if p.index < heap.patterns.len() {
                    let text = heap.patterns[p.index].to_string();
                    push_str(out, text.as_str());
                } else {
                    push_str(out, "re/.../");
                }
            },
        }
    }
}

/// Whether `e` says that a value of kind `expected` was wanted and one of
/// kind `found` was there.
pub open spec fn is_mismatch(e: Error, expected: Seq<char>, found: Seq<char>) -> bool {
    e matches Error::TypeMismatch { expected: x, found: f } && x@ == expected && f@ == found
}

/// What a value can be taken for.
pub trait Extract: Sized {
    /// The name of the wanted kind.
    spec fn wanted() -> Seq<char>;

    /// What the value is taken for, if it is of the wanted kind.
    spec fn extracted(value: Value) -> Option<Self>;

    /// Takes the value for a `Self`, or fails with a type mismatch that
    /// names the wanted kind and the kind that was found.
    fn extract(value: Value) -> (r: Result<Self, Error>)
        ensures
            match Self::extracted(value) {
                Some(v) => r == Ok::<Self, Error>(v),
                None => r matches Err(e) && is_mismatch(e, Self::wanted(), value.kind()),
            },
    ;
}

impl Extract for Nil {
    open spec fn wanted() -> Seq<char> {
        "Nil"@
    }

    open spec fn extracted(value: Value) -> Option<Nil> {
        match value {
            Value::Nil(n) => Some(n),
            _ => None,
        }
    }

    fn extract(value: Value) -> (r: Result<Nil, Error>) {
        match value {
            Value::Nil(n) => Ok(n),
            other => Err(Error::TypeMismatch { expected: "Nil", found: other.kind_name() }),
        }
    }
}

impl Extract for Int {
    open spec fn wanted() -> Seq<char> {
        "Int"@
    }

    open spec fn extracted(value: Value) -> Option<Int> {
        match value {
            Value::Int(i) => Some(i),
            _ => None,
        }
    }

    fn extract(value: Value) -> (r: Result<Int, Error>) {
        match value {
            Value::Int(i) => Ok(i),
            other => Err(Error::TypeMismatch { expected: "Int", found: other.kind_name() }),
        }
    }
}

impl Extract for Str {
    open spec fn wanted() -> Seq<char> {
        "Str"@
    }

    open spec fn extracted(value: Value) -> Option<Str> {
        match value {
            Value::Str(s) => Some(s),
            _ => None,
        }
    }

    fn extract(value: Value) -> (r: Result<Str, Error>) {
        match value {
            Value::Str(s) => Ok(s),
            other => Err(Error::TypeMismatch { expected: "Str", found: other.kind_name() }),
        }
    }
}

impl Extract for List {
    open spec fn wanted() -> Seq<char> {
        "List"@
    }

    open spec fn extracted(value: Value) -> Option<List> {
        match value {
            Value::List(l) => Some(l),
            _ => None,
        }
    }

    fn extract(value: Value) -> (r: Result<List, Error>) {
        match value {
            Value::List(l) => Ok(l),
            other => Err(Error::TypeMismatch { expected: "List", found: other.kind_name() }),
        }
    }
}

impl Extract for Record {
    open spec fn wanted() -> Seq<char> {
        "Record"@
    }

    open spec fn extracted(value: Value) -> Option<Record> {
        match value {
            Value::Record(r) => Some(r),
            _ => None,
        }
    }

    fn extract(value: Value) -> (r: Result<Record, Error>) {
        match value {
            Value::Record(rec) => Ok(rec),
            other => Err(Error::TypeMismatch { expected: "Record", found: other.kind_name() }),
        }
    }
}

impl Extract for Ident {
    open spec fn wanted() -> Seq<char> {
        "Ident"@
    }

    open spec fn extracted(value: Value) -> Option<Ident> {
        match value {
            Value::Ident(id) => Some(id),
            _ => None,
        }
    }

    fn extract(value: Value) -> (r: Result<Ident, Error>) {
        match value {
            Value::Ident(id) => Ok(id),
            other => Err(Error::TypeMismatch { expected: "Ident", found: other.kind_name() }),
        }
    }
}

impl Extract for PatternRef {
    open spec fn wanted() -> Seq<char> {
        "Pattern"@
    }

    open spec fn extracted(value: Value) -> Option<PatternRef> {
        match value {
            Value::Pattern(p) => Some(p),
            _ => None,
        }
    }

    fn extract(value: Value) -> (r: Result<PatternRef, Error>) {
        match value {
            Value::Pattern(p) => Ok(p),
            other => Err(Error::TypeMismatch { expected: "Pattern", found: other.kind_name() }),
        }
    }
}

impl Extract for bool {
    open spec fn wanted() -> Seq<char> {
        "Anything"@
    }

    open spec fn extracted(value: Value) -> Option<bool> {
        Some(value.truthy())
    }

    fn extract(value: Value) -> (r: Result<bool, Error>) {
        Ok(value.is_truthy())
    }
}

impl Extract for Value {
    open spec fn wanted() -> Seq<char> {
        "Anything"@
    }

    open spec fn extracted(value: Value) -> Option<Value> {
        Some(value)
    }

    fn extract(value: Value) -> (r: Result<Value, Error>) {
        Ok(value)
    }
}

/// What `lhs + rhs` gives. Integers add with wrap-around. A list and a list
/// give a new list of the items of both; a list and another value give a new
/// list of that value alone. A string takes the rendering of the other value
/// at its end. Nothing else adds.
pub open spec fn added(lhs: Value, rhs: Value, before: Heap, after: Heap, r: Result<Value, Error>) -> bool {
    match lhs {
        Value::Int(l) => after == before && (match rhs {
            Value::Int(x) => r == Ok::<Value, Error>(Value::Int(l.wrapping_add(x))),
            _ => r matches Err(e) && is_mismatch(e, "Int"@, rhs.kind()),
        }),
        Value::List(l) => if l.index >= before.lists@.len() {
            after == before && r == Err::<Value, Error>(Error::IndexOutOfBounds)
        } else {
            match rhs {
                Value::List(x) => if x.index >= before.lists@.len() {
                    after == before && r == Err::<Value, Error>(Error::IndexOutOfBounds)
                } else {
                    r == Ok::<Value, Error>(Value::List(List { index: before.lists@.len() as usize }))
                        && after.with_list(
                        before,
                        before.lists@[l.index as int]@ + before.lists@[x.index as int]@,
                    )
                },
                other => r == Ok::<Value, Error>(
                    Value::List(List { index: before.lists@.len() as usize }),
                ) && after.with_list(before, seq![other]),
            }
        },
        Value::Str(l) => after == before && (r matches Ok(Value::Str(s)) && s@ == l@ + value_text(
            rhs,
            before,
            before.depth(),
        )),
        _ => after == before && r == Err::<Value, Error>(Error::IllegalAdd),
    }
}

/// What `lhs - rhs` gives: the difference of two integers, with wrap-around.
pub open spec fn subtracted(lhs: Value, rhs: Value, r: Result<Value, Error>) -> bool {
    match lhs {
        Value::Int(l) => match rhs {
            Value::Int(x) => r == Ok::<Value, Error>(Value::Int(l.wrapping_sub(x))),
            _ => r matches Err(e) && is_mismatch(e, "Int"@, rhs.kind()),
        },
        _ => r matches Err(e) && is_mismatch(e, "Int"@, lhs.kind()),
    }
}

/// What `lhs / rhs` gives. A zero divisor is refused before anything else;
/// then two integers give their truncated quotient, where the least integer
/// divided by -1 wraps around to itself; anything else is a type mismatch
/// that names the kind of the divisor.
pub open spec fn divided(lhs: Value, rhs: Value, r: Result<Value, Error>) -> bool {
    if rhs matches Value::Int(x) && x == 0 {
        r == Err::<Value, Error>(Error::DividedByZero)
    } else {
        match (lhs, rhs) {
            (Value::Int(l), Value::Int(x)) => r == Ok::<Value, Error>(
                Value::Int(
                    if l == i32::MIN && x == -1 {
                        i32::MIN
                    } else {
                        quotient(l as int, x as int) as i32
                    },
                ),
            ),
            _ => r matches Err(e) && is_mismatch(e, "Int"@, rhs.kind()),
        }
    }
}

/// What `lhs * rhs` gives. The right side must be an integer. Integers
/// multiply with wrap-around; a string is repeated that many times, which a
/// negative number refuses; nothing else multiplies.
pub open spec fn multiplied(lhs: Value, rhs: Value, r: Result<Value, Error>) -> bool {
    match rhs {
        Value::Int(x) => match lhs {
            Value::Int(l) => r == Ok::<Value, Error>(Value::Int(l.wrapping_mul(x))),
            Value::Str(l) => if x < 0 {
                r == Err::<Value, Error>(Error::NegativeRepetition)
            } else {
                r matches Ok(Value::Str(s)) && s@ == repeated(l@, x as nat)
            },
            _ => r == Err::<Value, Error>(Error::IllegalMultiply),
        },
        _ => r matches Err(e) && is_mismatch(e, "Int"@, rhs.kind()),
    }
}

/// What `lhs[rhs]` gives: the item of a list at a position, or the value of
/// the first entry of a record with a key.
pub open spec fn indexed(lhs: Value, rhs: Value, h: Heap, r: Result<Value, Error>) -> bool {
    match lhs {
        Value::List(l) => match rhs {
            Value::Int(i) => if i < 0 {
                r == Err::<Value, Error>(Error::NegativeIndex)
            } else if l.index < h.lists@.len() && i < h.lists@[l.index as int]@.len() {
                r == Ok::<Value, Error>(h.lists@[l.index as int]@[i as int])
            } else {
                r == Err::<Value, Error>(Error::IndexOutOfBounds)
            },
            _ => r matches Err(e) && is_mismatch(e, "Int"@, rhs.kind()),
        },
        Value::Record(rec) => match rhs {
            Value::Ident(key) => if rec.index < h.records@.len() && position_of(
                h.records@[rec.index as int]@,
                key@,
            ) is Some {
                r == Ok::<Value, Error>(
                    h.records@[rec.index as int]@[position_of(
                        h.records@[rec.index as int]@,
                        key@,
                    )->0].1,
                )
            } else {
                r == Err::<Value, Error>(Error::IndexOutOfBounds)
            },
            _ => r matches Err(e) && is_mismatch(e, "Ident"@, rhs.kind()),
        },
        _ => r matches Err(e) && is_mismatch(e, "List|Record"@, lhs.kind()),
    }
}

/// Whether `after` is `before` with the list at `index` replaced by `items`.
pub open spec fn list_replaced(before: Heap, after: Heap, index: int, items: Seq<Value>) -> bool {
    &&& after.lists@.len() == before.lists@.len()
    &&& after.lists@[index]@ == items
    &&& forall|j: int| 0 <= j < before.lists@.len() && j != index ==> after.lists@[j] == before.lists@[j]
    &&& after.records == before.records
    &&& after.patterns == before.patterns
}

/// Whether `after` is `before` with the record at `index` replaced by `entries`.
pub open spec fn record_replaced(
    before: Heap,
    after: Heap,
    index: int,
    entries: Seq<(Ident, Value)>,
) -> bool {
    &&& after.records@.len() == before.records@.len()
    &&& after.records@[index]@ == entries
    &&& forall|j: int|
        0 <= j < before.records@.len() && j != index ==> after.records@[j] == before.records@[j]
    &&& after.lists == before.lists
    &&& after.patterns == before.patterns
}

/// What `lhs[key] := val` does: it replaces the item of a list at a position
/// that the list has, or the value of the first entry of a record with the
/// key, or it gives the record a new last entry.
pub open spec fn inserted(
    lhs: Value,
    key: Value,
    val: Value,
    before: Heap,
    after: Heap,
    r: Result<(), Error>,
) -> bool {
    match lhs {
        Value::List(l) => match key {
            Value::Int(i) => if i < 0 {
                after == before && r == Err::<(), Error>(Error::NegativeIndex)
            } else if l.index < before.lists@.len() && i < before.lists@[l.index as int]@.len() {
                r == Ok::<(), Error>(()) && list_replaced(
                    before,
                    after,
                    l.index as int,
                    before.lists@[l.index as int]@.update(i as int, val),
                )
            } else {
                after == before && r == Err::<(), Error>(Error::IndexOutOfBounds)
            },
            _ => after == before && (r matches Err(e) && is_mismatch(e, "Int"@, key.kind())),
        },
        Value::Record(rec) => match key {
            Value::Ident(k) => if rec.index < before.records@.len() {
                let entries = before.records@[rec.index as int]@;
                r == Ok::<(), Error>(()) && record_replaced(
                    before,
                    after,
                    rec.index as int,
                    match position_of(entries, k@) {
                        Some(i) => entries.update(i, (entries[i].0, val)),
                        None => entries.push((k, val)),
                    },
                )
            } else {
                after == before && r == Err::<(), Error>(Error::IndexOutOfBounds)
            },
            _ => after == before && (r matches Err(e) && is_mismatch(e, "Ident"@, key.kind())),
        },
        _ => after == before && (r matches Err(e) && is_mismatch(e, "List|Record"@, lhs.kind())),
    }
}

/// The index of the first entry with the key `key`.
pub fn find_entry(entries: &Vec<(Ident, Value)>, key: &Ident) -> (r: Option<usize>)
    ensures
        r matches Some(i) ==> i < entries@.len() && position_of(entries@, key@) == Some(i as int),
        r is None ==> position_of(entries@, key@) is None,
{
    let mut i: usize = 0;
    while i < entries.len()
        invariant
            i <= entries.len(),
            position_of(entries@.take(i as int), key@) is None,
        decreases entries.len() - i,
    {
        proof {
            assert(entries@.take(i + 1).drop_last() =~= entries@.take(i as int));
        }
        if entries[i].0.same_as(key) {
            proof {
                position_of_extends(entries@, key@, i + 1);
                assert(entries@.take(i + 1).last() == entries@[i as int]);
            }
            return Some(i);
        }
        i = i + 1;
    }
    assert(entries@.take(entries.len() as int) =~= entries@);
    None
}

proof fn position_of_extends(entries: Seq<(Ident, Value)>, key: Seq<char>, n: int)
    requires
        0 <= n <= entries.len(),
        position_of(entries.take(n), key) is Some,
    ensures
        position_of(entries, key) == position_of(entries.take(n), key),
        position_of(entries.take(n), key)->0 < n,
    decreases entries.len() - n,
{
    position_of_is_first(entries.take(n), key);
    if n < entries.len() {
        assert(entries.take(n + 1).drop_last() =~= entries.take(n));
        position_of_extends(entries, key, n + 1);
    } else {
        assert(entries.take(n) =~= entries);
    }
}

impl Value {
    /// `self + rhs`.
    pub fn add(self, rhs: Value, heap: &mut Heap) -> (r: Result<Value, Error>)
        ensures
            added(self, rhs, *old(heap), *final(heap), r),
    {
        match self {
            Value::Int(l) => match rhs {
                Value::Int(x) => Ok(Value::Int(l.wrapping_add(x))),
                other => Err(Error::TypeMismatch { expected: "Int", found: other.kind_name() }),
            },
            Value::List(l) => {
                if l.index >= heap.lists.len() {
                    return Err(Error::IndexOutOfBounds);
                }
                match rhs {
                    Value::List(x) => {
                        if x.index >= heap.lists.len() {
                            return Err(Error::IndexOutOfBounds);
                        }
                        let mut items: Vec<Value> = Vec::new();
                        let left = &heap.lists[l.index];
                        let right = &heap.lists[x.index];
                        let mut i: usize = 0;
                        while i < left.len()
                            invariant
                                i <= left.len(),
                                items@ == left@.take(i as int),
                            decreases left.len() - i,
                        {
                            items.push(left[i].clone());
                            i = i + 1;
                        }
                        let mut j: usize = 0;
                        while j < right.len()
                            invariant
                                j <= right.len(),
                                i == left.len(),
                                items@ == left@.take(i as int) + right@.take(j as int),
                            decreases right.len() - j,
                        {
                            items.push(right[j].clone());
                            j = j + 1;
                        }
                        assert(items@ =~= left@ + right@);
                        Ok(Value::List(heap.alloc_list(items)))
                    },
                    other => {
                        let mut items: Vec<Value> = Vec::new();
                        items.push(other);
                        assert(items@ =~= seq![other]);
                        Ok(Value::List(heap.alloc_list(items)))
                    },
                }
            },
            Value::Str(l) => {
                let mut s = l;
                let text = rhs.to_string(heap);
                push_str(&mut s, text.as_str());
                Ok(Value::Str(s))
            },
            _ => Err(Error::IllegalAdd),
        }
    }

    /// `self - rhs`.
    pub fn sub(self, rhs: Value) -> (r: Result<Value, Error>)
        ensures
            subtracted(self, rhs, r),
    {
        match self {
            Value::Int(l) => match rhs {
                Value::Int(x) => Ok(Value::Int(l.wrapping_sub(x))),
                other => Err(Error::TypeMismatch { expected: "Int", found: other.kind_name() }),
            },
            other => Err(Error::TypeMismatch { expected: "Int", found: other.kind_name() }),
        }
    }

    /// `self / rhs`.
    pub fn div(self, rhs: Value) -> (r: Result<Value, Error>)
        ensures
            divided(self, rhs, r),
    {
        match (self, rhs) {
            (_, Value::Int(0)) => Err(Error::DividedByZero),
            (Value::Int(l), Value::Int(x)) => {
                if l == i32::MIN && x == -1 {
                    Ok(Value::Int(i32::MIN))
                } else {
                    Ok(Value::Int(l / x))
                }
            },
            (_, other) => Err(Error::TypeMismatch { expected: "Int", found: other.kind_name() }),
        }
    }

    /// `self * rhs`.
    pub fn mul(self, rhs: Value) -> (r: Result<Value, Error>)
        ensures
            multiplied(self, rhs, r),
    {
        let times = match rhs {
            Value::Int(x) => x,
            other => {
                return Err(Error::TypeMismatch { expected: "Int", found: other.kind_name() });
            },
        };
        match self {
            Value::Int(l) => Ok(Value::Int(l.wrapping_mul(times))),
            Value::Str(l) => {
                if times < 0 {
                    return Err(Error::NegativeRepetition);
                }
                let mut buf = String::new();
                let mut i: i32 = 0;
                while i < times
                    invariant
                        0 <= i <= times,
                        buf@ == repeated(l@, i as nat),
                    decreases times - i,
                {
                    push_str(&mut buf, l.as_str());
                    i = i + 1;
                }
                Ok(Value::Str(buf))
            },
            _ => Err(Error::IllegalMultiply),
        }
    }

    /// `self[rhs]`.
    pub fn index(self, rhs: Value, heap: &Heap) -> (r: Result<Value, Error>)
        ensures
            indexed(self, rhs, *heap, r),
    {
        match self {
            Value::List(l) => {
                let at = match rhs {
                    Value::Int(i) => i,
                    other => {
                        return Err(Error::TypeMismatch { expected: "Int", found: other.kind_name() });
                    },
                };
                if at < 0 {
                    return Err(Error::NegativeIndex);
                }
                let at: usize = at as usize;
                if l.index < heap.lists.len() && at < heap.lists[l.index].len() {
                    Ok(heap.lists[l.index][at].clone())
                } else {
                    Err(Error::IndexOutOfBounds)
                }
            },
            Value::Record(rec) => {
                let key = match rhs {
                    Value::Ident(key) => key,
                    other => {
                        return Err(
                            Error::TypeMismatch { expected: "Ident", found: other.kind_name() },
                        );
                    },
                };
                if rec.index >= heap.records.len() {
                    return Err(Error::IndexOutOfBounds);
                }
                match find_entry(&heap.records[rec.index], &key) {
                    Some(i) => Ok(heap.records[rec.index][i].1.clone()),
                    None => Err(Error::IndexOutOfBounds),
                }
            },
            other => Err(Error::TypeMismatch { expected: "List|Record", found: other.kind_name() }),
        }
    }

    /// `self[key] := val`.
    pub fn insert(self, key: Value, val: Value, heap: &mut Heap) -> (r: Result<(), Error>)
        ensures
            inserted(self, key, val, *old(heap), *final(heap), r),
    {
        match self {
            Value::List(l) => {
                let at = match key {
                    Value::Int(i) => i,
                    other => {
                        return Err(Error::TypeMismatch { expected: "Int", found: other.kind_name() });
                    },
                };
                if at < 0 {
                    return Err(Error::NegativeIndex);
                }
                let at: usize = at as usize;
                if l.index < heap.lists.len() && at < heap.lists[l.index].len() {
                    heap.lists[l.index][at] = val;
                    Ok(())
                } else {
                    Err(Error::IndexOutOfBounds)
                }
            },
            Value::Record(rec) => {
                let key = match key {
                    Value::Ident(key) => key,
                    other => {
                        return Err(
                            Error::TypeMismatch { expected: "Ident", found: other.kind_name() },
                        );
                    },
                };
                if rec.index >= heap.records.len() {
                    return Err(Error::IndexOutOfBounds);
                }
                match find_entry(&heap.records[rec.index], &key) {
                    Some(i) => {
                        heap.records[rec.index][i].1 = val;
                    },
                    None => {
                        let entries = &mut heap.records[rec.index];
                        entries.push((key, val));
                    },
                }
                Ok(())
            },
            other => Err(Error::TypeMismatch { expected: "List|Record", found: other.kind_name() }),
        }
    }
}

} // verus!
