//! The XML-RPC value tree and its mathematical model.
use vstd::prelude::*;
use crate::text::{float_text, int_text};

verus! {

/// An XML-RPC data value.
///
/// A double is held as its text, exactly as it stands on the wire;
/// a struct is a list of members in insertion order whose keys are unique.
pub enum Xml {
    I32(i32),
    Double(String),
    String(String),
    Boolean(bool),
    Array(Array),
    Object(Object),
    Base64(Vec<u8>),
    DateTime,
    Null,
}

pub type Array = Vec<Xml>;

pub type Object = Vec<(String, Xml)>;

/// The model of a value: strings become character sequences.
pub enum Value {
    Int(i32),
    Double(Seq<char>),
    Str(Seq<char>),
    Boolean(bool),
    Array(Seq<Value>),
    Struct(Seq<(Seq<char>, Value)>),
    Base64(Seq<u8>),
    DateTime,
    Null,
}

pub open spec fn model(x: Xml) -> Value
    decreases x,
{
    match x {
        Xml::I32(n) => Value::Int(n),
        Xml::Double(t) => Value::Double(t@),
        Xml::String(s) => Value::Str(s@),
        Xml::Boolean(b) => Value::Boolean(b),
        Xml::Array(a) => Value::Array(
            Seq::new(
                a.len() as nat,
                |i: int|
                    if 0 <= i < a.len() {
                        model(a[i])
                    } else {
                        Value::Null
                    },
            ),
        ),
        Xml::Object(o) => Value::Struct(
            Seq::new(
                o.len() as nat,
                |i: int|
                    if 0 <= i < o.len() {
                        (o[i].0@, model(o[i].1))
                    } else {
                        (Seq::empty(), Value::Null)
                    },
            ),
        ),
        Xml::Base64(b) => Value::Base64(b@),
        Xml::DateTime => Value::DateTime,
        Xml::Null => Value::Null,
    }
}

impl View for Xml {
    type V = Value;

    open spec fn view(&self) -> Value {
        model(*self)
    }
}

/// The models of a list of values.
pub open spec fn array_model(a: Seq<Xml>) -> Seq<Value> {
    Seq::new(a.len(), |i: int| a[i]@)
}

/// The models of a list of members.
pub open spec fn object_model(o: Seq<(String, Xml)>) -> Seq<(Seq<char>, Value)> {
    Seq::new(o.len(), |i: int| (o[i].0@, o[i].1@))
}

pub proof fn lemma_model_array(a: Array)
    ensures
        Xml::Array(a)@ == Value::Array(array_model(a@)),
{
    assert(Xml::Array(a)@->Array_0 =~= array_model(a@));
}

pub proof fn lemma_model_object(o: Object)
    ensures
        Xml::Object(o)@ == Value::Struct(object_model(o@)),
{
    assert(Xml::Object(o)@->Struct_0 =~= object_model(o@));
}

/// The index of the first member named `k`, or the number of members.
pub open spec fn key_index(m: Seq<(Seq<char>, Value)>, k: Seq<char>) -> int
    decreases m.len(),
{
    if m.len() == 0 {
        0
    } else if m[0].0 == k {
        0
    } else {
        1 + key_index(m.drop_first(), k)
    }
}

/// The value of the member named `k`.
pub open spec fn lookup(m: Seq<(Seq<char>, Value)>, k: Seq<char>) -> Option<Value> {
    let i = key_index(m, k);
    if i < m.len() {
        Some(m[i].1)
    } else {
        None
    }
}

pub open spec fn keys_unique(m: Seq<(Seq<char>, Value)>) -> bool {
    forall|i: int, j: int| 0 <= i < j < m.len() ==> m[i].0 != m[j].0
}

/// Every struct in the tree has unique keys and every double holds the
/// text of a double.
pub open spec fn well_formed(v: Value) -> bool
    decreases v,
{
    match v {
        Value::Double(t) => float_text(t),
        Value::Array(a) => forall|i: int| 0 <= i < a.len() ==> well_formed(#[trigger] a[i]),
        Value::Struct(m) => keys_unique(m) && forall|i: int|
            0 <= i < m.len() ==> well_formed(#[trigger] m[i].1),
        _ => true,
    }
}


pub proof fn lemma_key_index_bound(m: Seq<(Seq<char>, Value)>, k: Seq<char>)
    ensures
        0 <= key_index(m, k) <= m.len(),
        key_index(m, k) < m.len() ==> m[key_index(m, k)].0 == k,
        forall|j: int| 0 <= j < key_index(m, k) ==> m[j].0 != k,
    decreases m.len(),
{
    if m.len() > 0 && m[0].0 != k {
        lemma_key_index_bound(m.drop_first(), k);
        assert forall|j: int| 0 <= j < key_index(m, k) implies m[j].0 != k by {
            if j > 0 {
                assert(m[j] == m.drop_first()[j - 1]);
            }
        }
    }
}

/// The value of member `k` of a struct; nothing for any other value.
pub open spec fn find_spec(v: Value, k: Seq<char>) -> Option<Value> {
    match v {
        Value::Struct(m) => lookup(m, k),
        _ => None,
    }
}

/// Follows `ks` through nested structs.
pub open spec fn find_path_spec(v: Value, ks: Seq<Seq<char>>) -> Option<Value>
    decreases ks.len(),
{
    if ks.len() == 0 {
        Some(v)
    } else {
        match find_spec(v, ks[0]) {
            Some(w) => find_path_spec(w, ks.drop_first()),
            None => None,
        }
    }
}

/// Depth-first search for member `k`: the struct's own member first, then
/// each member value in order.
pub open spec fn search_spec(v: Value, k: Seq<char>) -> Option<Value>
    decreases v,
{
    match v {
        Value::Struct(m) => match lookup(m, k) {
            Some(w) => Some(w),
            None => search_members(m, k, 0),
        },
        _ => None,
    }
}

/// The first hit of `search_spec` among the member values `m[i..]`.
pub open spec fn search_members(m: Seq<(Seq<char>, Value)>, k: Seq<char>, i: int) -> Option<Value>
    decreases m, m.len() - i,
{
    if i < 0 || i >= m.len() {
        None
    } else {
        match search_spec(m[i].1, k) {
            Some(w) => Some(w),
            None => search_members(m, k, i + 1),
        }
    }
}

pub open spec fn opt_model(r: Option<&Xml>) -> Option<Value> {
    match r {
        Some(x) => Some(x@),
        None => None,
    }
}

/// The position of the member named `key`, or the number of members.
pub fn object_index(o: &Object, key: &String) -> (r: usize)
    ensures
        r == key_index(object_model(o@), key@),
        r <= o@.len(),
{
    let ghost m = object_model(o@);
    assert(m.skip(0) =~= m);
    let mut i: usize = 0;
    while i < o.len()
        invariant
            i <= o@.len(),
            m == object_model(o@),
            key_index(m, key@) == i + key_index(m.skip(i as int), key@),
        decreases o@.len() - i,
    {
        if o[i].0 == *key {
            return i;
        }
        assert(m.skip(i as int).drop_first() =~= m.skip(i + 1));
        i = i + 1;
    }
    i
}

impl Xml {
    /// The value of member `key` when this is a struct.
    pub fn find(&self, key: &str) -> (r: Option<&Xml>)
        ensures
            opt_model(r) == find_spec(self@, key@),
    {
        match self {
            Xml::Object(o) => {
                proof {
                    lemma_model_object(*o);
                }
                let k = String::from_str(key);
                let i = object_index(o, &k);
                if i < o.len() {
                    Some(&o[i].1)
                } else {
                    None
                }
            },
            _ => None,
        }
    }

    /// Follows `keys` through nested structs.
    pub fn find_path(&self, keys: &[&str]) -> (r: Option<&Xml>)
        ensures
            opt_model(r) == find_path_spec(self@, keys@.map_values(|k: &str| k@)),
    {
        let ghost ks = keys@.map_values(|k: &str| k@);
        let mut target = self;
        assert(ks.skip(0) =~= ks);
        let mut i: usize = 0;
        while i < keys.len()
            invariant
                i <= keys@.len(),
                ks == keys@.map_values(|k: &str| k@),
                find_path_spec(self@, ks) == find_path_spec(target@, ks.skip(i as int)),
            decreases keys@.len() - i,
        {
            assert(ks.skip(i as int).drop_first() =~= ks.skip(i + 1));
            match target.find(keys[i]) {
                Some(t) => {
                    target = t;
                },
                None => {
                    return None;
                },
            }
            i = i + 1;
        }
        assert(ks.skip(i as int) =~= Seq::<Seq<char>>::empty());
        Some(target)
    }

    /// Depth-first search for member `key` through nested structs.
    pub fn search(&self, key: &str) -> (r: Option<&Xml>)
        ensures
            opt_model(r) == search_spec(self@, key@),
        decreases self,
    {
        match self {
            Xml::Object(o) => {
                proof {
                    lemma_model_object(*o);
                }
                let ghost m = object_model(o@);
                let k = String::from_str(key);
                let i = object_index(o, &k);
                if i < o.len() {
                    return Some(&o[i].1);
                }
                assert(search_spec(self@, key@) == search_members(m, key@, 0));
                let mut j: usize = 0;
                while j < o.len()
                    invariant
                        j <= o@.len(),
                        m == object_model(o@),
                        search_spec(self@, key@) == search_members(m, key@, j as int),
                        *self == Xml::Object(*o),
                    decreases o@.len() - j,
                {
                    proof {
                        vstd::std_specs::vec::axiom_vec_index_decreases(*o, j as int);
                        assert(*self == Xml::Object(*o));
                        assert(decreases_to!(Xml::Object(*o) => *o));
                        assert(decreases_to!(*o => o@[j as int]));
                        assert(decreases_to!(o@[j as int] => o@[j as int].1));
                        assert(m[j as int].1 == o@[j as int].1@);
                    }
                    let found = o[j].1.search(key);
                    if found.is_some() {
                        return found;
                    }
                    j = j + 1;
                }
                None
            },
            _ => None,
        }
    }

    pub fn is_object(&self) -> (r: bool)
        ensures
            r == self@ is Struct,
    {
        self.as_object().is_some()
    }

    pub fn as_object(&self) -> (r: Option<&Object>)
        ensures
            r matches Some(o) ==> self@ == Value::Struct(object_model(o@)),
            r is None ==> !(self@ is Struct),
    {
        match self {
            Xml::Object(o) => {
                proof {
                    lemma_model_object(*o);
                }
                Some(o)
            },
            _ => None,
        }
    }

    pub fn is_array(&self) -> (r: bool)
        ensures
            r == self@ is Array,
    {
        self.as_array().is_some()
    }

    pub fn as_array(&self) -> (r: Option<&Array>)
        ensures
            r matches Some(a) ==> self@ == Value::Array(array_model(a@)),
            r is None ==> !(self@ is Array),
    {
        match self {
            Xml::Array(a) => {
                proof {
                    lemma_model_array(*a);
                }
                Some(a)
            },
            _ => None,
        }
    }

    pub fn is_string(&self) -> (r: bool)
        ensures
            r == self@ is Str,
    {
        self.as_string().is_some()
    }

    pub fn as_string(&self) -> (r: Option<&str>)
        ensures
            r matches Some(s) ==> self@ == Value::Str(s@),
            r is None ==> !(self@ is Str),
    {
        match self {
            Xml::String(s) => Some(s.as_str()),
            _ => None,
        }
    }

    pub fn is_number(&self) -> (r: bool)
        ensures
            r == (self@ is Int || self@ is Double),
    {
        match self {
            Xml::I32(_) | Xml::Double(_) => true,
            _ => false,
        }
    }

    pub fn is_i32(&self) -> (r: bool)
        ensures
            r == self@ is Int,
    {
        match self {
            Xml::I32(_) => true,
            _ => false,
        }
    }

    pub fn is_f64(&self) -> (r: bool)
        ensures
            r == self@ is Double,
    {
        match self {
            Xml::Double(_) => true,
            _ => false,
        }
    }

    pub fn as_i32(&self) -> (r: Option<i32>)
        ensures
            r matches Some(n) ==> self@ == Value::Int(n),
            r is None ==> !(self@ is Int),
    {
        match self {
            Xml::I32(n) => Some(*n),
            _ => None,
        }
    }

    /// The decimal text of a number: a double as it stands, an integer
    /// written in decimal.
    pub fn as_f64(&self) -> (r: Option<String>)
        ensures
            r matches Some(t) ==> (self@ == Value::Double(t@) || (self@ is Int && t@ == int_text(
                self@->Int_0 as int,
            ))),
            r is None ==> !(self@ is Int || self@ is Double),
    {
        match self {
            Xml::I32(n) => {
                let mut t = String::new();
                crate::text::write_int(&mut t, *n);
                Some(t)
            },
            Xml::Double(t) => Some(t.clone()),
            _ => None,
        }
    }

    pub fn is_boolean(&self) -> (r: bool)
        ensures
            r == self@ is Boolean,
    {
        self.as_boolean().is_some()
    }

    pub fn as_boolean(&self) -> (r: Option<bool>)
        ensures
            r matches Some(b) ==> self@ == Value::Boolean(b),
            r is None ==> !(self@ is Boolean),
    {
        match self {
            Xml::Boolean(b) => Some(*b),
            _ => None,
        }
    }

    pub fn is_null(&self) -> (r: bool)
        ensures
            r == self@ is Null,
    {
        self.as_null().is_some()
    }

    pub fn as_null(&self) -> (r: Option<()>)
        ensures
            r is Some <==> self@ is Null,
    {
        match self {
            Xml::Null => Some(()),
            _ => None,
        }
    }
}

/// A copy of the whole tree.
fn clone_value(v: &Xml) -> (r: Xml)
    ensures
        r@ == v@,
    decreases v,
{
        match v {
            Xml::I32(n) => Xml::I32(*n),
            Xml::Double(t) => Xml::Double(t.clone()),
            Xml::String(s) => Xml::String(s.clone()),
            Xml::Boolean(b) => Xml::Boolean(*b),
            Xml::Array(a) => {
                proof {
                    lemma_model_array(*a);
                }
                let mut out: Vec<Xml> = Vec::new();
                let mut i: usize = 0;
                while i < a.len()
                    invariant
                        i <= a@.len(),
                        *v == Xml::Array(*a),
                        array_model(out@) == array_model(a@).take(i as int),
                    decreases a@.len() - i,
                {
                    proof {
                        vstd::std_specs::vec::axiom_vec_index_decreases(*a, i as int);
                        lemma_model_array(*a);
                        assert(decreases_to!(Xml::Array(*a) => *a));
                    }
                    let ghost before = array_model(out@);
                    let c = clone_value(&a[i]);
                    out.push(c);
                    assert(array_model(out@) =~= before.push(c@));
                    assert(before.push(c@) =~= array_model(a@).take(i + 1));
                    i = i + 1;
                }
                assert(array_model(a@).take(i as int) =~= array_model(a@));
                proof {
                    lemma_model_array(out);
                }
                Xml::Array(out)
            },
            Xml::Object(o) => {
                proof {
                    lemma_model_object(*o);
                }
                let mut out: Vec<(String, Xml)> = Vec::new();
                let mut i: usize = 0;
                while i < o.len()
                    invariant
                        i <= o@.len(),
                        *v == Xml::Object(*o),
                        object_model(out@) == object_model(o@).take(i as int),
                    decreases o@.len() - i,
                {
                    proof {
                        vstd::std_specs::vec::axiom_vec_index_decreases(*o, i as int);
                        lemma_model_object(*o);
                        assert(decreases_to!(Xml::Object(*o) => *o));
                        assert(decreases_to!(o@[i as int] => o@[i as int].1));
                    }
                    let ghost before = object_model(out@);
                    let k = o[i].0.clone();
                    let v = clone_value(&o[i].1);
                    out.push((k, v));
                    assert(object_model(out@) =~= before.push((k@, v@)));
                    assert(before.push((k@, v@)) =~= object_model(o@).take(i + 1));
                    i = i + 1;
                }
                assert(object_model(o@).take(i as int) =~= object_model(o@));
                proof {
                    lemma_model_object(out);
                }
                Xml::Object(out)
            },
            Xml::Base64(b) => {
                let mut out: Vec<u8> = Vec::new();
                let mut i: usize = 0;
                while i < b.len()
                    invariant
                        i <= b@.len(),
                        out@ == b@.take(i as int),
                    decreases b@.len() - i,
                {
                    out.push(b[i]);
                    assert(out@ =~= b@.take(i + 1));
                    i = i + 1;
                }
                assert(b@.take(i as int) =~= b@);
                Xml::Base64(out)
            },
            Xml::DateTime => Xml::DateTime,
            Xml::Null => Xml::Null,
        }
    }

impl Xml {
    /// A copy of the whole tree.
    pub fn clone_tree(&self) -> (r: Xml)
        ensures
            r@ == self@,
    {
        clone_value(self)
    }
}

} // verus!
