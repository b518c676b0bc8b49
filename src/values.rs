use vstd::prelude::*;
use vstd::string::*;

use crate::lexer::chars_of;

verus! {

/// A runtime value as a mathematical value.
pub enum Val {
    Null,
    Str(Seq<char>),
    Num(Seq<char>),
    Native(u64),
    Pending(u64),
    Object(Seq<(Seq<char>, Val)>),
    Bool(bool),
}

/// A value of the language.
#[derive(Debug)]
pub enum RuntimeValue {
    Null(Null),
    StringValue(StringValue),
    Number(Number),
    NativeFunction(NativeFunction),
    Future(MakerFuture),
    Object(Object),
    Boolean(Boolean),
}

/// The value of nothing.
#[derive(Debug)]
pub struct Null {}

/// A non-negative number, held as its decimal digits.
#[derive(Debug)]
pub struct Number {
    pub value: String,
}

/// A text value.
#[derive(Debug)]
pub struct StringValue {
    pub value: String,
}

/// A truth value.
#[derive(Debug)]
pub struct Boolean {
    pub value: bool,
}

/// Named values, each name at most once.
#[derive(Debug)]
pub struct Object {
    pub items: Vec<(String, RuntimeValue)>,
}

/// A capability of the host, called by its identifier.
#[derive(Debug)]
pub struct NativeFunction {
    pub id: u64,
}

/// A host operation still in flight, awaited by its identifier.
#[derive(Debug)]
pub struct MakerFuture {
    pub id: u64,
}

impl RuntimeValue {
    pub open spec fn model(&self) -> Val
        decreases self,
    {
        match self {
            RuntimeValue::Null(_) => Val::Null,
            RuntimeValue::StringValue(s) => Val::Str(s.value@),
            RuntimeValue::Number(n) => Val::Num(n.value@),
            RuntimeValue::NativeFunction(f) => Val::Native(f.id),
            RuntimeValue::Future(f) => Val::Pending(f.id),
            RuntimeValue::Object(o) => Val::Object(
                Seq::new(
                    o.items.len() as nat,
                    |k: int|
                        if 0 <= k < o.items.len() {
                            (o.items[k].0@, o.items[k].1.model())
                        } else {
                            (Seq::empty(), Val::Null)
                        },
                ),
            ),
            RuntimeValue::Boolean(b) => Val::Bool(b.value),
        }
    }
}

/// The models of named values.
pub open spec fn entries(v: Seq<(String, RuntimeValue)>) -> Seq<(Seq<char>, Val)> {
    v.map_values(|p: (String, RuntimeValue)| (p.0@, p.1.model()))
}

/// Whether no two entries share a name.
pub open spec fn names_unique(items: Seq<(Seq<char>, Val)>) -> bool {
    forall|i: int, j: int| 0 <= i < j < items.len() ==> (#[trigger] items[i]).0 != (#[trigger] items[j]).0
}

/// Where no entry is named `key`, adding one keeps the names unique.
pub proof fn lemma_lookup_none(items: Seq<(Seq<char>, Val)>, key: Seq<char>)
    ensures
        lookup(items, key) is None ==> forall|k: int| 0 <= k < items.len() ==> (#[trigger] items[k]).0 != key,
    decreases items.len(),
{
    if items.len() > 0 {
        lemma_lookup_none(items.drop_first(), key);
        if lookup(items, key) is None {
            assert forall|k: int| 0 <= k < items.len() implies (#[trigger] items[k]).0 != key by {
                if k > 0 {
                    assert(items[k] == items.drop_first()[k - 1]);
                }
            }
        }
    }
}

/// The value of the entry named `key`; the first one, should names repeat.
pub open spec fn lookup(items: Seq<(Seq<char>, Val)>, key: Seq<char>) -> Option<Val>
    decreases items.len(),
{
    if items.len() == 0 {
        None
    } else if items[0].0 == key {
        Some(items[0].1)
    } else {
        lookup(items.drop_first(), key)
    }
}

/// The name of a value's type.
pub open spec fn type_name_of(v: Val) -> Seq<char> {
    match v {
        Val::Pending(_) => "future"@,
        Val::Native(_) => "native_function"@,
        Val::Null => "null"@,
        Val::Num(_) => "number"@,
        Val::Object(_) => "object"@,
        Val::Str(_) => "string"@,
        Val::Bool(_) => "boolean"@,
    }
}

/// The digits of `d` without its leading zeros.
pub open spec fn significant(d: Seq<char>) -> Seq<char>
    decreases d.len(),
{
    if d.len() > 0 && d[0] == '0' {
        significant(d.drop_first())
    } else {
        d
    }
}

/// Whether a value counts as true in a condition: a number above zero, a non-empty
/// string, `true`.
pub open spec fn truthy(v: Val) -> bool {
    match v {
        Val::Num(d) => significant(d).len() > 0,
        Val::Str(s) => s.len() > 0,
        Val::Bool(b) => b,
        _ => false,
    }
}

/// Equality as `==` computes it: false across kinds; numbers by value, strings by
/// text, booleans by value, null equal to null; false for every other kind.
pub open spec fn values_equal(l: Val, r: Val) -> bool {
    match (l, r) {
        (Val::Num(a), Val::Num(b)) => significant(a) == significant(b),
        (Val::Str(a), Val::Str(b)) => a == b,
        (Val::Bool(a), Val::Bool(b)) => a == b,
        (Val::Null, Val::Null) => true,
        _ => false,
    }
}

/// Values of different kinds are never equal.
pub proof fn cross_kind_values_differ(l: Val, r: Val)
    requires
        type_name_of(l) != type_name_of(r),
    ensures
        !values_equal(l, r),
{
}

/// The text of a value as it is shown.
pub open spec fn shown(v: Val) -> Seq<char> {
    match v {
        Val::Pending(_) => "future"@,
        Val::Native(_) => "function"@,
        Val::Null => "null"@,
        Val::Num(d) => if significant(d).len() == 0 {
            "0"@
        } else {
            significant(d)
        },
        Val::Object(_) => "object"@,
        Val::Str(s) => s,
        Val::Bool(b) => if b {
            "true"@
        } else {
            "false"@
        },
    }
}

proof fn lemma_significant_skip(d: Seq<char>, i: int)
    requires
        0 <= i <= d.len(),
        forall|k: int| 0 <= k < i ==> d[k] == '0',
    ensures
        significant(d) == significant(d.skip(i)),
    decreases i,
{
    if i > 0 {
        assert(d.skip(i) =~= d.drop_first().skip(i - 1));
        lemma_significant_skip(d.drop_first(), i - 1);
    } else {
        assert(d.skip(0) =~= d);
    }
}

/// The index of the first digit of `d` that is not a zero, or its length.
fn first_significant(d: &Vec<char>) -> (r: usize)
    ensures
        r <= d@.len(),
        significant(d@) == d@.skip(r as int),
{
    let mut i: usize = 0;
    while i < d.len() && d[i] == '0'
        invariant
            i <= d@.len(),
            forall|k: int| 0 <= k < i ==> d@[k] == '0',
        decreases d@.len() - i,
    {
        i = i + 1;
    }
    proof {
        lemma_significant_skip(d@, i as int);
        let rest = d@.skip(i as int);
        assert(rest.len() > 0 ==> rest[0] != '0');
    }
    i
}

fn same_tail(a: &Vec<char>, i: usize, b: &Vec<char>, j: usize) -> (r: bool)
    requires
        i <= a@.len(),
        j <= b@.len(),
    ensures
        r == (a@.skip(i as int) == b@.skip(j as int)),
{
    if a.len() - i != b.len() - j {
        proof {
            if a@.skip(i as int) == b@.skip(j as int) {
                assert(a@.skip(i as int).len() == b@.skip(j as int).len());
            }
        }
        return false;
    }
    let n = a.len() - i;
    let mut k: usize = 0;
    while k < n
        invariant
            n == a@.len() - i,
            n == b@.len() - j,
            a@.len() <= usize::MAX,
            b@.len() <= usize::MAX,
            i <= a@.len(),
            j <= b@.len(),
            k <= n,
            forall|m: int| 0 <= m < k ==> #[trigger] a@.skip(i as int)[m] == b@.skip(j as int)[m],
        decreases n - k,
    {
        if a[i + k] != b[j + k] {
            proof {
                assert(a@.skip(i as int)[k as int] != b@.skip(j as int)[k as int]);
            }
            return false;
        }
        k = k + 1;
    }
    assert(a@.skip(i as int) =~= b@.skip(j as int));
    true
}

impl RuntimeValue {
    /// A copy of this value.
    pub fn duplicate(&self) -> (r: RuntimeValue)
        ensures
            r.model() == self.model(),
        decreases self,
    {
        match self {
            RuntimeValue::Null(_) => RuntimeValue::Null(Null {}),
            RuntimeValue::StringValue(s) => RuntimeValue::StringValue(StringValue { value: s.value.clone() }),
            RuntimeValue::Number(n) => RuntimeValue::Number(Number { value: n.value.clone() }),
            RuntimeValue::NativeFunction(f) => RuntimeValue::NativeFunction(NativeFunction { id: f.id }),
            RuntimeValue::Future(f) => RuntimeValue::Future(MakerFuture { id: f.id }),
            RuntimeValue::Boolean(b) => RuntimeValue::Boolean(Boolean { value: b.value }),
            RuntimeValue::Object(o) => {
                let mut items: Vec<(String, RuntimeValue)> = Vec::new();
                let mut i: usize = 0;
                while i < o.items.len()
                    invariant
                        *self == RuntimeValue::Object(*o),
                        i <= o.items@.len(),
                        items@.len() == i,
                        forall|k: int|
                            0 <= k < i ==> (#[trigger] items@[k]).0@ == o.items@[k].0@
                                && items@[k].1.model() == o.items@[k].1.model(),
                    decreases o.items@.len() - i,
                {
                    let name = o.items[i].0.clone();
                    proof {
                        vstd::std_specs::vec::axiom_vec_index_decreases(o.items, i as int);
                        assert(decreases_to!(*self => (*self)->Object_0));
                        assert((*self)->Object_0 == *o);
                        assert(decreases_to!(*o => o.items));
                        assert(decreases_to!(o.items => o.items[i as int]));
                        assert(decreases_to!(o.items[i as int] => o.items[i as int].1));
                    }
                    let value = o.items[i].1.duplicate();
                    items.push((name, value));
                    i = i + 1;
                }
                let r = RuntimeValue::Object(Object { items });
                assert(r.model()->Object_0 =~= self.model()->Object_0);
                r
            },
        }
    }

    /// The name of this value's type.
    pub fn type_label(&self) -> (r: &'static str)
        ensures
            r@ == type_name_of(self.model()),
    {
        proof {
            reveal_strlit("future");
            reveal_strlit("native_function");
            reveal_strlit("null");
            reveal_strlit("number");
            reveal_strlit("object");
            reveal_strlit("string");
            reveal_strlit("boolean");
        }
        match self {
            RuntimeValue::Future(_) => "future",
            RuntimeValue::NativeFunction(_) => "native_function",
            RuntimeValue::Null(_) => "null",
            RuntimeValue::Number(_) => "number",
            RuntimeValue::Object(_) => "object",
            RuntimeValue::StringValue(_) => "string",
            RuntimeValue::Boolean(_) => "boolean",
        }
    }

    /// Whether this value counts as true in a condition.
    pub fn is_truthy(&self) -> (r: bool)
        ensures
            r == truthy(self.model()),
    {
        match self {
            RuntimeValue::Number(v) => {
                let d = chars_of(v.value.as_str());
                let i = first_significant(&d);
                i < d.len()
            },
            RuntimeValue::StringValue(v) => v.value.as_str().unicode_len() != 0,
            RuntimeValue::Boolean(v) => v.value,
            _ => false,
        }
    }

    /// The text of this value as it is shown.
    pub fn to_string(&self) -> (r: String)
        ensures
            r@ == shown(self.model()),
    {
        proof {
            reveal_strlit("future");
            reveal_strlit("function");
            reveal_strlit("null");
            reveal_strlit("0");
            reveal_strlit("object");
            reveal_strlit("true");
            reveal_strlit("false");
        }
        match self {
            RuntimeValue::Future(_) => "future".to_owned(),
            RuntimeValue::NativeFunction(_) => "function".to_owned(),
            RuntimeValue::Null(_) => "null".to_owned(),
            RuntimeValue::Number(v) => {
                let d = chars_of(v.value.as_str());
                let i = first_significant(&d);
                if i == d.len() {
                    "0".to_owned()
                } else {
                    let r = v.value.as_str().substring_char(i, d.len()).to_owned();
                    assert(r@ =~= d@.skip(i as int));
                    r
                }
            },
            RuntimeValue::Object(_) => "object".to_owned(),
            RuntimeValue::StringValue(v) => v.value.clone(),
            RuntimeValue::Boolean(v) => if v.value {
                "true".to_owned()
            } else {
                "false".to_owned()
            },
        }
    }
}

/// Compares two values as `==` does.
pub fn equals(left: &RuntimeValue, right: &RuntimeValue) -> (r: bool)
    ensures
        r == values_equal(left.model(), right.model()),
{
    match (left, right) {
        (RuntimeValue::Number(a), RuntimeValue::Number(b)) => {
            let da = chars_of(a.value.as_str());
            let db = chars_of(b.value.as_str());
            let i = first_significant(&da);
            let j = first_significant(&db);
            same_tail(&da, i, &db, j)
        },
        (RuntimeValue::StringValue(a), RuntimeValue::StringValue(b)) => a.value == b.value,
        (RuntimeValue::Boolean(a), RuntimeValue::Boolean(b)) => a.value == b.value,
        (RuntimeValue::Null(_), RuntimeValue::Null(_)) => true,
        _ => false,
    }
}

/// Finds the value of the first entry named `key`.
pub fn find_entry<'a>(items: &'a Vec<(String, RuntimeValue)>, key: &String) -> (r: Option<&'a RuntimeValue>)
    ensures
        match (r, lookup(entries(items@), key@)) {
            (Some(v), Some(m)) => v.model() == m,
            (None, None) => true,
            _ => false,
        },
{
    let ghost all = entries(items@);
    let mut i: usize = 0;
    assert(all.skip(0) =~= all);
    while i < items.len()
        invariant
            i <= items@.len(),
            all == entries(items@),
            lookup(all, key@) == lookup(all.skip(i as int), key@),
        decreases items@.len() - i,
    {
        let ghost rest = all.skip(i as int);
        assert(rest[0] == all[i as int]);
        if items[i].0 == *key {
            return Some(&items[i].1);
        }
        assert(rest.drop_first() =~= all.skip(i + 1));
        i = i + 1;
    }
    assert(all.skip(i as int).len() == 0);
    None
}

impl Null {
    pub fn make() -> (r: RuntimeValue)
        ensures
            r.model() == Val::Null,
    {
        RuntimeValue::Null(Null {})
    }
}

impl Number {
    pub fn make(value: String) -> (r: RuntimeValue)
        ensures
            r.model() == Val::Num(value@),
    {
        RuntimeValue::Number(Number { value })
    }
}

impl StringValue {
    pub fn make(value: String) -> (r: RuntimeValue)
        ensures
            r.model() == Val::Str(value@),
    {
        RuntimeValue::StringValue(StringValue { value })
    }
}

impl Boolean {
    pub fn make(value: bool) -> (r: RuntimeValue)
        ensures
            r.model() == Val::Bool(value),
    {
        RuntimeValue::Boolean(Boolean { value })
    }
}

impl Object {
    /// Whether no two items share a name.
    pub open spec fn wf(&self) -> bool {
        names_unique(entries(self.items@))
    }

    pub fn make(items: Vec<(String, RuntimeValue)>) -> (r: RuntimeValue)
        requires
            names_unique(entries(items@)),
        ensures
            r.model() == Val::Object(entries(items@)),
    {
        let r = RuntimeValue::Object(Object { items });
        assert(r.model()->Object_0 =~= entries(items@));
        r
    }
}

} // verus!
