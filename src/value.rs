use vstd::prelude::*;

verus! {

broadcast use vstd::std_specs::vec::group_vec_axioms;

/// A dynamically typed value. Numbers are 64-bit integers.
#[derive(Debug, PartialEq)]
pub enum Value {
    Null,
    Bool(bool),
    Integer(i64),
    Text(String),
    Array(Vec<Value>),
    Object(Record),
}

/// An object value: string keys mapped to values, in insertion order.
#[derive(Debug, PartialEq)]
pub struct Record {
    pub entries: Vec<(String, Value)>,
}

/// The mathematical model of a `Value`.
pub enum Val {
    Null,
    Bool(bool),
    Integer(i64),
    Text(Seq<char>),
    Array(Seq<Val>),
    Object(Seq<(Seq<char>, Val)>),
}

/// The model of a record: its entries in order.
pub type Fields = Seq<(Seq<char>, Val)>;

pub open spec fn value_view(v: &Value) -> Val
    decreases v,
{
    match v {
        Value::Null => Val::Null,
        Value::Bool(b) => Val::Bool(*b),
        Value::Integer(n) => Val::Integer(*n),
        Value::Text(s) => Val::Text(s@),
        Value::Array(items) => Val::Array(items_view(items)),
        Value::Object(r) => Val::Object(entries_view(&r.entries)),
    }
}

pub open spec fn items_view(items: &Vec<Value>) -> Seq<Val>
    decreases items,
{
    Seq::new(
        items.len() as nat,
        |i: int|
            if 0 <= i < items.len() {
                value_view(&items[i])
            } else {
                Val::Null
            },
    )
}

pub open spec fn entries_view(e: &Vec<(String, Value)>) -> Fields
    decreases e,
{
    Seq::new(
        e.len() as nat,
        |i: int|
            if 0 <= i < e.len() {
                (e[i].0@, value_view(&e[i].1))
            } else {
                (Seq::empty(), Val::Null)
            },
    )
}

impl View for Value {
    type V = Val;

    open spec fn view(&self) -> Val {
        value_view(self)
    }
}

impl View for Record {
    type V = Fields;

    open spec fn view(&self) -> Fields {
        entries_view(&self.entries)
    }
}


/// Index of the first entry whose key is `k`, searching from `from`; -1 when none.
pub open spec fn find_key<V>(f: Seq<(Seq<char>, V)>, k: Seq<char>, from: int) -> int
    decreases f.len() - from,
{
    if from < 0 || from >= f.len() {
        -1
    } else if f[from].0 == k {
        from
    } else {
        find_key(f, k, from + 1)
    }
}

/// The value that the record model `f` holds under key `k`.
pub open spec fn lookup(f: Fields, k: Seq<char>) -> Option<Val> {
    let i = find_key(f, k, 0);
    if i < 0 {
        None
    } else {
        Some(f[i].1)
    }
}

/// Sets key `k` to `v`: in place where the key is present, else at the end.
pub open spec fn insert_field(f: Fields, k: Seq<char>, v: Val) -> Fields {
    let i = find_key(f, k, 0);
    if i < 0 {
        f.push((k, v))
    } else {
        f.update(i, (k, v))
    }
}

/// The keys of a record model, in order.
pub open spec fn keys_of<V>(f: Seq<(Seq<char>, V)>) -> Seq<Seq<char>> {
    f.map_values(|e: (Seq<char>, V)| e.0)
}

/// No key occurs twice.
pub open spec fn distinct_keys<V>(f: Seq<(Seq<char>, V)>) -> bool {
    forall|i: int, j: int| 0 <= i < j < f.len() ==> f[i].0 != f[j].0
}

/// `l` with the entries of the first `n` entries of `r` set on it in turn.
pub open spec fn merge_prefix(l: Fields, r: Fields, n: int) -> Fields
    decreases n,
{
    if n <= 0 {
        l
    } else {
        let acc = merge_prefix(l, r, n - 1);
        insert_field(acc, r[n - 1].0, r[n - 1].1)
    }
}

/// Record merge: the right-hand entries overwrite the left-hand ones.
pub open spec fn merge_fields(l: Fields, r: Fields) -> Fields {
    merge_prefix(l, r, r.len() as int)
}

pub proof fn lemma_find_key_bounds<V>(f: Seq<(Seq<char>, V)>, k: Seq<char>, from: int)
    ensures
        find_key(f, k, from) == -1 || (from <= find_key(f, k, from) < f.len() && f[find_key(f, k, from)].0 == k),
        find_key(f, k, from) == -1 ==> forall|j: int| 0 <= from <= j < f.len() ==> f[j].0 != k,
    decreases f.len() - from,
{
    if from >= 0 && from < f.len() && f[from].0 != k {
        lemma_find_key_bounds(f, k, from + 1);
    }
}

pub proof fn lemma_insert_field_distinct(f: Fields, k: Seq<char>, v: Val)
    requires
        distinct_keys(f),
    ensures
        distinct_keys(insert_field(f, k, v)),
        lookup(insert_field(f, k, v), k) == Some(v),
{
    lemma_find_key_bounds(f, k, 0);
    let g = insert_field(f, k, v);
    lemma_find_key_bounds(g, k, 0);
    if find_key(f, k, 0) >= 0 {
        assert(g[find_key(f, k, 0)].0 == k);
        assert(forall|j: int| 0 <= j < find_key(f, k, 0) ==> g[j].0 != k) by {
            lemma_find_key_first(f, k, 0);
        }
        lemma_find_key_at(g, k, 0, find_key(f, k, 0));
    } else {
        lemma_find_key_at(g, k, 0, f.len() as int);
    }
}

pub proof fn lemma_find_key_first<V>(f: Seq<(Seq<char>, V)>, k: Seq<char>, from: int)
    requires
        0 <= from,
    ensures
        forall|j: int| from <= j < f.len() && (find_key(f, k, from) == -1 || j < find_key(f, k, from)) ==> f[j].0 != k,
    decreases f.len() - from,
{
    if from < f.len() && f[from].0 != k {
        lemma_find_key_first(f, k, from + 1);
    }
}

/// The search from `from` lands on `at` when `at` holds the key and no entry between does.
pub proof fn lemma_find_key_at<V>(f: Seq<(Seq<char>, V)>, k: Seq<char>, from: int, at: int)
    requires
        0 <= from <= at < f.len(),
        f[at].0 == k,
        forall|j: int| from <= j < at ==> f[j].0 != k,
    ensures
        find_key(f, k, from) == at,
    decreases at - from,
{
    if from < at {
        lemma_find_key_at(f, k, from + 1, at);
    }
}

pub proof fn lemma_merge_prefix_distinct(l: Fields, r: Fields, n: int)
    requires
        distinct_keys(l),
        0 <= n <= r.len(),
    ensures
        distinct_keys(merge_prefix(l, r, n)),
    decreases n,
{
    if n > 0 {
        lemma_merge_prefix_distinct(l, r, n - 1);
        lemma_insert_field_distinct(merge_prefix(l, r, n - 1), r[n - 1].0, r[n - 1].1);
    }
}

impl Clone for Value {
    fn clone(&self) -> (r: Self)
        ensures
            r@ == self@,
    {
        clone_value(self)
    }
}

impl Clone for Record {
    fn clone(&self) -> (r: Self)
        ensures
            r@ == self@,
    {
        clone_record(self)
    }
}

fn clone_value(v: &Value) -> (r: Value)
    ensures
        r@ == v@,
    decreases v,
{
    match v {
        Value::Null => Value::Null,
        Value::Bool(b) => Value::Bool(*b),
        Value::Integer(n) => Value::Integer(*n),
        Value::Text(s) => Value::Text(s.clone()),
        Value::Array(items) => Value::Array(clone_items(items)),
        Value::Object(rec) => Value::Object(clone_record(rec)),
    }
}

fn clone_items(items: &Vec<Value>) -> (r: Vec<Value>)
    ensures
        items_view(&r) == items_view(items),
    decreases items,
{
    let mut out: Vec<Value> = Vec::new();
    let mut i: usize = 0;
    while i < items.len()
        invariant
            i <= items.len(),
            out.len() == i,
            forall|j: int| 0 <= j < i ==> out[j]@ == items[j]@,
        decreases items.len() - i,
    {
        out.push(clone_value(&items[i]));
        i += 1;
    }
    assert(items_view(&out) =~= items_view(items));
    out
}

fn clone_record(rec: &Record) -> (r: Record)
    ensures
        r@ == rec@,
    decreases rec,
{
    let mut out: Vec<(String, Value)> = Vec::new();
    let mut i: usize = 0;
    while i < rec.entries.len()
        invariant
            i <= rec.entries.len(),
            out.len() == i,
            forall|j: int| 0 <= j < i ==> out[j].0@ == rec.entries[j].0@ && out[j].1@ == rec.entries[j].1@,
        decreases rec.entries.len() - i,
    {
        let k = rec.entries[i].0.clone();
        let v = clone_value(&rec.entries[i].1);
        out.push((k, v));
        i += 1;
    }
    let r = Record { entries: out };
    assert(r@ =~= rec@);
    r
}

/// Structural equality of two values.
pub fn values_equal(a: &Value, b: &Value) -> (r: bool)
    ensures
        r == (a@ == b@),
    decreases a,
{
    let r = match (a, b) {
        (Value::Null, Value::Null) => true,
        (Value::Bool(x), Value::Bool(y)) => *x == *y,
        (Value::Integer(x), Value::Integer(y)) => *x == *y,
        (Value::Text(x), Value::Text(y)) => {
            let r = x.eq(y);
            assert(r == (a@ == b@));
            r
        },
        (Value::Array(x), Value::Array(y)) => {
            let r = arrays_equal(x, y);
            assert(r == (a@ == b@));
            r
        },
        (Value::Object(x), Value::Object(y)) => {
            let r = records_equal(x, y);
            assert(r == (a@ == b@));
            r
        },
        _ => false,
    };
    r
}

fn arrays_equal(x: &Vec<Value>, y: &Vec<Value>) -> (r: bool)
    ensures
        r == (items_view(x) == items_view(y)),
    decreases x,
{
    if x.len() != y.len() {
        assert(items_view(x).len() != items_view(y).len());
        return false;
    }
    let mut i: usize = 0;
    while i < x.len()
        invariant
            i <= x.len(),
            x.len() == y.len(),
            forall|j: int| 0 <= j < i ==> x[j]@ == y[j]@,
        decreases x.len() - i,
    {
        if !values_equal(&x[i], &y[i]) {
            assert(items_view(x)[i as int] != items_view(y)[i as int]);
            return false;
        }
        i += 1;
    }
    assert(items_view(x) =~= items_view(y));
    true
}

/// Structural equality of two records, entry by entry in order.
pub fn records_equal(x: &Record, y: &Record) -> (r: bool)
    ensures
        r == (x@ == y@),
    decreases x,
{
    if x.entries.len() != y.entries.len() {
        assert(x@.len() != y@.len());
        return false;
    }
    let mut i: usize = 0;
    while i < x.entries.len()
        invariant
            i <= x.entries.len(),
            x.entries.len() == y.entries.len(),
            forall|j: int| 0 <= j < i ==> x@[j] == y@[j],
        decreases x.entries.len() - i,
    {
        if x.entries[i].0 != y.entries[i].0 {
            assert(x@[i as int] != y@[i as int]);
            return false;
        }
        if !values_equal(&x.entries[i].1, &y.entries[i].1) {
            assert(x@[i as int] != y@[i as int]);
            return false;
        }
        i += 1;
    }
    assert(x@ =~= y@);
    true
}

/// Truthiness: `Null`, `false`, `0`, and the empty text, array and object
/// are false; every other value is true.
pub open spec fn truthy(v: Val) -> bool {
    match v {
        Val::Null => false,
        Val::Bool(b) => b,
        Val::Integer(n) => n != 0,
        Val::Text(t) => t.len() > 0,
        Val::Array(a) => a.len() > 0,
        Val::Object(f) => f.len() > 0,
    }
}

impl Value {
    pub fn is_truthy(&self) -> (r: bool)
        ensures
            r == truthy(self@),
    {
        match self {
            Value::Null => false,
            Value::Bool(b) => *b,
            Value::Integer(n) => *n != 0,
            Value::Text(t) => !t.as_str().is_empty(),
            Value::Array(a) => a.len() > 0,
            Value::Object(r) => r.entries.len() > 0,
        }
    }
}

impl Record {
    /// A record's keys are pairwise distinct.
    pub open spec fn wf(&self) -> bool {
        distinct_keys(self@)
    }

    pub fn new() -> (r: Record)
        ensures
            r@ == Seq::<(Seq<char>, Val)>::empty(),
            r.wf(),
    {
        let r = Record { entries: Vec::new() };
        assert(r@ =~= Seq::<(Seq<char>, Val)>::empty());
        r
    }

    pub fn len(&self) -> (r: usize)
        ensures
            r == self@.len(),
    {
        self.entries.len()
    }

    /// Position of the entry with the given key.
    pub fn position(&self, key: &String) -> (r: Option<usize>)
        ensures
            r is None <==> find_key(self@, key@, 0) == -1,
            r matches Some(i) ==> i == find_key(self@, key@, 0),
    {
        let mut i: usize = 0;
        while i < self.entries.len()
            invariant
                i <= self.entries.len(),
                find_key(self@, key@, 0) == find_key(self@, key@, i as int),
            decreases self.entries.len() - i,
        {
            if self.entries[i].0.eq(key) {
                return Some(i);
            }
            i += 1;
        }
        None
    }

    /// The value held under `key`.
    pub fn get(&self, key: &String) -> (r: Option<&Value>)
        ensures
            r is None <==> lookup(self@, key@) is None,
            r matches Some(v) ==> lookup(self@, key@) == Some(v@),
    {
        proof {
            lemma_find_key_bounds(self@, key@, 0);
        }
        match self.position(key) {
            Some(i) => Some(&self.entries[i].1),
            None => None,
        }
    }

    /// Sets `key` to `value`: in place where the key is present, else at the end.
    pub fn insert(&mut self, key: String, value: Value)
        ensures
            final(self)@ == insert_field(old(self)@, key@, value@),
            old(self).wf() ==> final(self).wf(),
    {
        proof {
            lemma_find_key_bounds(self@, key@, 0);
            if self.wf() {
                lemma_insert_field_distinct(self@, key@, value@);
            }
        }
        let ghost k = key@;
        let ghost v = value@;
        let ghost before = self@;
        match self.position(&key) {
            Some(i) => {
                self.entries[i] = (key, value);
                assert(self@ =~= before.update(i as int, (k, v)));
            },
            None => {
                self.entries.push((key, value));
                assert(self@ =~= before.push((k, v)));
            },
        }
    }

    /// The record `l` with the entries of `r` set on it in order, so that
    /// right-hand keys overwrite left-hand ones.
    pub fn merge(l: &Record, r: &Record) -> (out: Record)
        ensures
            out@ == merge_fields(l@, r@),
            l.wf() ==> out.wf(),
    {
        let mut out = l.clone();
        let mut i: usize = 0;
        proof {
            if l.wf() {
                lemma_merge_prefix_distinct(l@, r@, 0);
            }
        }
        while i < r.entries.len()
            invariant
                i <= r.entries.len(),
                out@ == merge_prefix(l@, r@, i as int),
            decreases r.entries.len() - i,
        {
            let k = r.entries[i].0.clone();
            let v = r.entries[i].1.clone();
            out.insert(k, v);
            i += 1;
        }
        proof {
            if l.wf() {
                lemma_merge_prefix_distinct(l@, r@, r@.len() as int);
            }
        }
        out
    }
}

} // verus!
