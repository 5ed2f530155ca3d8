//! The decoder: a stack machine that projects a value tree into typed
//! values. Each read takes the value on top of the stack; containers put
//! their children back on the stack so that later reads take them in order.
use vstd::prelude::*;
use crate::error::DecoderError;
use crate::text::{chars_of, decimal_in, float_text, int_text, is_float_text, nat_text, parse_decimal, write_int, write_nat};
use crate::value::{array_model, key_index, lemma_model_array, lemma_model_object, object_index, object_model, Value, Xml};

verus! {

/// `s` back to front.
pub open spec fn reversed<A>(s: Seq<A>) -> Seq<A> {
    Seq::new(s.len(), |i: int| s[s.len() - 1 - i])
}

/// The name of a value's kind, as error messages give it.
pub open spec fn kind_name(v: Value) -> Seq<char> {
    match v {
        Value::Int(_) => "Integer"@,
        Value::Double(_) => "Double"@,
        Value::Str(_) => "String"@,
        Value::Boolean(_) => "Boolean"@,
        Value::Array(_) => "Array"@,
        Value::Struct(_) => "Object"@,
        Value::Base64(_) => "Base64"@,
        Value::DateTime => "DateTime"@,
        Value::Null => "Null"@,
    }
}

/// What a read of an empty stack reports as found.
pub open spec fn nothing() -> Seq<char> {
    "nothing"@
}

pub open spec fn is_expected(e: DecoderError, what: Seq<char>, found: Seq<char>) -> bool {
    e matches DecoderError::ExpectedError(w, f) && w@ == what && f@ == found
}

/// The name of a value's kind.
pub fn kind_of(x: &Xml) -> (r: &'static str)
    ensures
        r@ == kind_name(x@),
{
    match x {
        Xml::I32(_) => "Integer",
        Xml::Double(_) => "Double",
        Xml::String(_) => "String",
        Xml::Boolean(_) => "Boolean",
        Xml::Array(a) => {
            proof {
                lemma_model_array(*a);
            }
            "Array"
        },
        Xml::Object(o) => {
            proof {
                lemma_model_object(*o);
            }
            "Object"
        },
        Xml::Base64(_) => "Base64",
        Xml::DateTime => "DateTime",
        Xml::Null => "Null",
    }
}

fn expected(what: &str, found: &str) -> (r: DecoderError)
    ensures
        is_expected(r, what@, found@),
{
    DecoderError::ExpectedError(String::from_str(what), String::from_str(found))
}

/// `r` failed with an "expected, found" error.
pub open spec fn fails_with<T>(r: Result<T, DecoderError>, what: Seq<char>, found: Seq<char>) -> bool {
    r matches Err(e) && is_expected(e, what, found)
}

/// The outcome of a member read on the stack `st`, whose top is a struct
/// with members `m`.
pub open spec fn field_read(
    st: Seq<Value>,
    m: Seq<(Seq<char>, Value)>,
    name: Seq<char>,
    r: Result<bool, DecoderError>,
    after: Seq<Value>,
) -> bool {
    let i = key_index(m, name);
    if i < m.len() {
        r == Ok::<bool, DecoderError>(true) && after == st.drop_last().push(Value::Struct(m.remove(i))).push(
            m[i].1,
        )
    } else {
        r == Ok::<bool, DecoderError>(false) && after == st.drop_last().push(Value::Struct(m)).push(
            Value::Null,
        )
    }
}

/// The entries of a map as they go on the stack: for each entry from the
/// last to the first, its value and then its key, so that reads take the
/// first key first.
pub open spec fn map_frames(m: Seq<(Seq<char>, Value)>) -> Seq<Value> {
    Seq::new(
        (2 * m.len()) as nat,
        |i: int|
            if i % 2 == 0 {
                m[m.len() - 1 - i / 2].1
            } else {
                Value::Str(m[m.len() - 1 - i / 2].0)
            },
    )
}

pub open spec fn names_model(names: Seq<String>) -> Seq<Seq<char>> {
    Seq::new(names.len(), |i: int| names[i]@)
}

/// The index of the first of `ns` equal to `n`, or the length of `ns`.
pub open spec fn name_index(ns: Seq<Seq<char>>, n: Seq<char>) -> int
    decreases ns.len(),
{
    if ns.len() == 0 {
        0
    } else if ns[0] == n {
        0
    } else {
        1 + name_index(ns.drop_first(), n)
    }
}

/// `r` picks the candidate named `n`, or reports `n` as unknown.
pub open spec fn variant_choice(ns: Seq<Seq<char>>, n: Seq<char>, r: Result<usize, DecoderError>) -> bool {
    let i = name_index(ns, n);
    if i < ns.len() {
        r == Ok::<usize, DecoderError>(i as usize)
    } else {
        r matches Err(DecoderError::UnknownVariantError(u)) && u@ == n
    }
}

pub open spec fn is_missing<T>(r: Result<T, DecoderError>, name: Seq<char>) -> bool {
    r matches Err(DecoderError::MissingFieldError(f)) && f@ == name
}

/// The outcome of a variant read on the stack `st`, whose top is a struct
/// with members `m`: `variant` names the variant, `fields` holds its
/// arguments.
pub open spec fn enum_struct_read(
    st: Seq<Value>,
    m: Seq<(Seq<char>, Value)>,
    ns: Seq<Seq<char>>,
    r: Result<usize, DecoderError>,
    after: Seq<Value>,
) -> bool {
    let iv = key_index(m, "variant"@);
    if iv >= m.len() {
        is_missing(r, "variant"@) && after == st.drop_last()
    } else {
        match m[iv].1 {
            Value::Str(s) => {
                let m2 = m.remove(iv);
                let jf = key_index(m2, "fields"@);
                if jf >= m2.len() {
                    is_missing(r, "fields"@) && after == st.drop_last()
                } else {
                    match m2[jf].1 {
                        Value::Array(a) => after == st.drop_last() + reversed(a) && variant_choice(
                            ns,
                            s,
                            r,
                        ),
                        v => fails_with(r, "Array"@, kind_name(v)) && after == st.drop_last(),
                    }
                }
            },
            v => fails_with(r, "String"@, kind_name(v)) && after == st.drop_last(),
        }
    }
}

fn variant_position(names: &Vec<String>, name: &String) -> (r: usize)
    ensures
        r == name_index(names_model(names@), name@),
{
    let ghost ns = names_model(names@);
    assert(ns.skip(0) =~= ns);
    let mut i: usize = 0;
    while i < names.len()
        invariant
            i <= names@.len(),
            ns == names_model(names@),
            name_index(ns, name@) == i + name_index(ns.skip(i as int), name@),
        decreases names@.len() - i,
    {
        if names[i] == *name {
            return i;
        }
        assert(ns.skip(i as int).drop_first() =~= ns.skip(i + 1));
        i = i + 1;
    }
    i
}

/// A structure to decode a value tree into typed values.
pub struct Decoder {
    stack: Vec<Xml>,
}

impl Decoder {
    /// The models of the stack, bottom first.
    pub closed spec fn stack(&self) -> Seq<Value> {
        array_model(self.stack@)
    }

    /// A decoder whose stack holds the root value alone.
    pub fn new(xml: Xml) -> (r: Decoder)
        ensures
            r.stack() == seq![xml@],
    {
        let mut stack: Vec<Xml> = Vec::new();
        stack.push(xml);
        let r = Decoder { stack };
        assert(r.stack() =~= seq![xml@]);
        r
    }

    /// The number of values on the stack.
    pub fn depth(&self) -> (r: usize)
        ensures
            r == self.stack().len(),
    {
        self.stack.len()
    }

    fn push(&mut self, x: Xml)
        ensures
            final(self).stack() == old(self).stack().push(x@),
    {
        self.stack.push(x);
        assert(self.stack() =~= old(self).stack().push(x@));
    }

    fn pop(&mut self) -> (r: Option<Xml>)
        ensures
            old(self).stack().len() == 0 ==> r is None && final(self).stack() == old(self).stack(),
            old(self).stack().len() > 0 ==> (r matches Some(x) && x@ == old(self).stack().last()
                && final(self).stack() == old(self).stack().drop_last()),
    {
        let r = self.stack.pop();
        proof {
            if old(self).stack@.len() > 0 {
                assert(self.stack() =~= old(self).stack().drop_last());
            }
        }
        r
    }

    /// Reads a null.
    pub fn read_nil(&mut self) -> (r: Result<(), DecoderError>)
        ensures
            old(self).stack().len() == 0 ==> fails_with(r, "Null"@, nothing()),
            old(self).stack().len() > 0 ==> final(self).stack() == old(self).stack().drop_last()
                && if old(self).stack().last() is Null {
                r is Ok
            } else {
                fails_with(r, "Null"@, kind_name(old(self).stack().last()))
            },
    {
        match self.pop() {
            None => Err(expected("Null", "nothing")),
            Some(Xml::Null) => Ok(()),
            Some(x) => Err(expected("Null", kind_of(&x))),
        }
    }

    /// Reads a boolean.
    pub fn read_bool(&mut self) -> (r: Result<bool, DecoderError>)
        ensures
            old(self).stack().len() == 0 ==> fails_with(r, "Boolean"@, nothing()),
            old(self).stack().len() > 0 ==> final(self).stack() == old(self).stack().drop_last()
                && match old(self).stack().last() {
                Value::Boolean(b) => r == Ok::<bool, DecoderError>(b),
                v => fails_with(r, "Boolean"@, kind_name(v)),
            },
    {
        match self.pop() {
            None => Err(expected("Boolean", "nothing")),
            Some(Xml::Boolean(b)) => Ok(b),
            Some(x) => Err(expected("Boolean", kind_of(&x))),
        }
    }

    /// Reads a string.
    pub fn read_str(&mut self) -> (r: Result<String, DecoderError>)
        ensures
            old(self).stack().len() == 0 ==> fails_with(r, "String"@, nothing()),
            old(self).stack().len() > 0 ==> final(self).stack() == old(self).stack().drop_last()
                && match old(self).stack().last() {
                Value::Str(s) => r matches Ok(t) && t@ == s,
                v => fails_with(r, "String"@, kind_name(v)),
            },
    {
        match self.pop() {
            None => Err(expected("String", "nothing")),
            Some(Xml::String(s)) => Ok(s),
            Some(x) => Err(expected("String", kind_of(&x))),
        }
    }

    /// Reads a string of exactly one character.
    pub fn read_char(&mut self) -> (r: Result<char, DecoderError>)
        ensures
            old(self).stack().len() == 0 ==> fails_with(r, "String"@, nothing()),
            old(self).stack().len() > 0 ==> final(self).stack() == old(self).stack().drop_last()
                && match old(self).stack().last() {
                Value::Str(s) => if s.len() == 1 {
                    r == Ok::<char, DecoderError>(s[0])
                } else {
                    fails_with(r, "single character string"@, s)
                },
                v => fails_with(r, "String"@, kind_name(v)),
            },
    {
        let s = self.read_str()?;
        let cs = chars_of(s.as_str());
        if cs.len() == 1 {
            Ok(cs[0])
        } else {
            Err(DecoderError::ExpectedError(String::from_str("single character string"), s))
        }
    }

    /// Reads an integer in `lo..=hi`: a 32-bit integer, or a string in
    /// decimal. A double is never taken for an integer.
    pub fn read_integer(&mut self, lo: i128, hi: i128) -> (r: Result<i128, DecoderError>)
        requires
            -0x2_0000_0000_0000_0000 <= lo,
            hi <= 0x2_0000_0000_0000_0000,
        ensures
            old(self).stack().len() == 0 ==> fails_with(r, "Number"@, nothing()),
            old(self).stack().len() > 0 ==> final(self).stack() == old(self).stack().drop_last()
                && match old(self).stack().last() {
                Value::Int(n) => if lo <= n && n <= hi {
                    r == Ok::<i128, DecoderError>(n as i128)
                } else {
                    fails_with(r, "Number"@, int_text(n as int))
                },
                Value::Double(t) => fails_with(r, "Integer"@, t),
                Value::Str(s) => match decimal_in(s, lo as int, hi as int) {
                    Some(n) => r == Ok::<i128, DecoderError>(n as i128),
                    None => fails_with(r, "Number"@, s),
                },
                v => fails_with(r, "Number"@, kind_name(v)),
            },
    {
        match self.pop() {
            None => Err(expected("Number", "nothing")),
            Some(Xml::I32(n)) => {
                if lo <= n as i128 && n as i128 <= hi {
                    Ok(n as i128)
                } else {
                    let mut t = String::new();
                    write_int(&mut t, n);
                    Err(DecoderError::ExpectedError(String::from_str("Number"), t))
                }
            },
            Some(Xml::Double(t)) => Err(DecoderError::ExpectedError(String::from_str("Integer"), t)),
            Some(Xml::String(s)) => {
                let cs = chars_of(s.as_str());
                match parse_decimal(&cs, lo, hi) {
                    Some(n) => Ok(n),
                    None => Err(DecoderError::ExpectedError(String::from_str("Number"), s)),
                }
            },
            Some(x) => Err(expected("Number", kind_of(&x))),
        }
    }

    /// Reads a 32-bit integer.
    pub fn read_i32(&mut self) -> (r: Result<i32, DecoderError>)
        ensures
            old(self).stack().len() == 0 ==> fails_with(r, "Number"@, nothing()),
            old(self).stack().len() > 0 ==> final(self).stack() == old(self).stack().drop_last()
                && match old(self).stack().last() {
                Value::Int(n) => r == Ok::<i32, DecoderError>(n),
                Value::Double(t) => fails_with(r, "Integer"@, t),
                Value::Str(s) => match decimal_in(s, i32::MIN as int, i32::MAX as int) {
                    Some(n) => r == Ok::<i32, DecoderError>(n as i32),
                    None => fails_with(r, "Number"@, s),
                },
                v => fails_with(r, "Number"@, kind_name(v)),
            },
    {
        match self.read_integer(i32::MIN as i128, i32::MAX as i128) {
            Ok(n) => Ok(n as i32),
            Err(e) => Err(e),
        }
    }

    /// Reads a double, as text: a double as it stands, an integer widened, a
    /// string in decimal form or spelling infinity or NaN, and a null as
    /// `NaN`.
    pub fn read_f64(&mut self) -> (r: Result<String, DecoderError>)
        ensures
            old(self).stack().len() == 0 ==> fails_with(r, "Number"@, nothing()),
            old(self).stack().len() > 0 ==> final(self).stack() == old(self).stack().drop_last()
                && match old(self).stack().last() {
                Value::Int(n) => r matches Ok(t) && t@ == int_text(n as int),
                Value::Double(t) => r matches Ok(u) && u@ == t,
                Value::Str(s) => if float_text(s) {
                    r matches Ok(u) && u@ == s
                } else {
                    fails_with(r, "Number"@, s)
                },
                Value::Null => r matches Ok(u) && u@ == "NaN"@,
                v => fails_with(r, "Number"@, kind_name(v)),
            },
    {
        match self.pop() {
            None => Err(expected("Number", "nothing")),
            Some(Xml::I32(n)) => {
                let mut t = String::new();
                write_int(&mut t, n);
                Ok(t)
            },
            Some(Xml::Double(t)) => Ok(t),
            Some(Xml::String(s)) => {
                let cs = chars_of(s.as_str());
                if is_float_text(&cs) {
                    Ok(s)
                } else {
                    Err(DecoderError::ExpectedError(String::from_str("Number"), s))
                }
            },
            Some(Xml::Null) => Ok(String::from_str("NaN")),
            Some(x) => Err(expected("Number", kind_of(&x))),
        }
    }

    /// Whether an optional value is present: a null is taken and means
    /// absent; anything else stays for the inner read.
    pub fn read_option(&mut self) -> (r: Result<bool, DecoderError>)
        ensures
            old(self).stack().len() == 0 ==> fails_with(r, "value"@, nothing()) && final(self).stack()
                == old(self).stack(),
            old(self).stack().len() > 0 ==> if old(self).stack().last() is Null {
                r == Ok::<bool, DecoderError>(false) && final(self).stack() == old(self).stack().drop_last()
            } else {
                r == Ok::<bool, DecoderError>(true) && final(self).stack() == old(self).stack()
            },
    {
        match self.pop() {
            None => Err(expected("value", "nothing")),
            Some(Xml::Null) => Ok(false),
            Some(x) => {
                self.push(x);
                assert(self.stack() =~= old(self).stack());
                Ok(true)
            },
        }
    }

    /// Starts the read of member `name` of the struct on top: the struct,
    /// without that member, stays below the member's value. An absent
    /// member reads as a null, so that an optional field decodes as absent.
    /// Tells whether the member was there.
    pub fn read_struct_field(&mut self, name: &str) -> (r: Result<bool, DecoderError>)
        ensures
            old(self).stack().len() == 0 ==> fails_with(r, "Object"@, nothing()),
            old(self).stack().len() > 0 ==> match old(self).stack().last() {
                Value::Struct(m) => field_read(old(self).stack(), m, name@, r, final(self).stack()),
                v => fails_with(r, "Object"@, kind_name(v)) && final(self).stack() == old(self).stack().drop_last(),
            },
    {
        match self.pop() {
            None => Err(expected("Object", "nothing")),
            Some(Xml::Object(mut o)) => {
                proof {
                    lemma_model_object(o);
                }
                let ghost m = object_model(o@);
                let key = String::from_str(name);
                let i = object_index(&o, &key);
                if i < o.len() {
                    let (_, v) = o.remove(i);
                    assert(object_model(o@) =~= m.remove(i as int));
                    proof {
                        lemma_model_object(o);
                    }
                    self.push(Xml::Object(o));
                    self.push(v);
                    Ok(true)
                } else {
                    self.push(Xml::Object(o));
                    self.push(Xml::Null);
                    Ok(false)
                }
            },
            Some(x) => Err(expected("Object", kind_of(&x))),
        }
    }

    /// The error of a member read whose inner read failed with `e`: for an
    /// absent member, that the member is missing.
    pub fn field_error(present: bool, name: &str, e: DecoderError) -> (r: DecoderError)
        ensures
            present ==> r == e,
            !present ==> (r matches DecoderError::MissingFieldError(n) && n@ == name@),
    {
        if present {
            e
        } else {
            DecoderError::MissingFieldError(String::from_str(name))
        }
    }

    /// Ends the read of a struct: takes what is left of it.
    pub fn read_struct_end(&mut self)
        ensures
            old(self).stack().len() == 0 ==> final(self).stack() == old(self).stack(),
            old(self).stack().len() > 0 ==> final(self).stack() == old(self).stack().drop_last(),
    {
        let _ = self.pop();
    }

    fn push_reversed(&mut self, a: Vec<Xml>)
        ensures
            final(self).stack() == old(self).stack() + reversed(array_model(a@)),
    {
        let ghost am = array_model(a@);
        let ghost n = a@.len();
        let mut a = a;
        while a.len() > 0
            invariant
                a@.len() <= n,
                array_model(a@) == am.take(a@.len() as int),
                am.len() == n,
                self.stack() == old(self).stack() + reversed(am).take(n - a@.len()),
            decreases a@.len(),
        {
            let ghost k = a@.len();
            let ghost olda = a@;
            let x = a.pop().unwrap();
            assert(x == olda[k - 1]);
            assert(array_model(olda)[k - 1] == am.take(k as int)[k - 1]);
            assert(array_model(a@) =~= am.take(a@.len() as int));
            assert(x@ == am[k - 1]);
            self.push(x);
            assert(reversed(am).take(n - a@.len()) =~= reversed(am).take(n - k).push(am[k - 1]));
        }
        assert(reversed(am).take(n as int) =~= reversed(am));
    }

    /// Starts the read of an array: its elements go on the stack so that
    /// the next reads take them in order. Tells how many there are.
    pub fn read_seq(&mut self) -> (r: Result<usize, DecoderError>)
        ensures
            old(self).stack().len() == 0 ==> fails_with(r, "Array"@, nothing()),
            old(self).stack().len() > 0 ==> match old(self).stack().last() {
                Value::Array(a) => r == Ok::<usize, DecoderError>(a.len() as usize) && final(self).stack()
                    == old(self).stack().drop_last() + reversed(a),
                v => fails_with(r, "Array"@, kind_name(v)) && final(self).stack() == old(self).stack().drop_last(),
            },
    {
        match self.pop() {
            None => Err(expected("Array", "nothing")),
            Some(Xml::Array(a)) => {
                proof {
                    lemma_model_array(a);
                }
                let n = a.len();
                self.push_reversed(a);
                Ok(n)
            },
            Some(x) => Err(expected("Array", kind_of(&x))),
        }
    }

    /// Starts the read of a tuple of `len` elements, which is an array of
    /// that length.
    pub fn read_tuple(&mut self, len: usize) -> (r: Result<(), DecoderError>)
        ensures
            old(self).stack().len() == 0 ==> fails_with(r, "Array"@, nothing()),
            old(self).stack().len() > 0 ==> match old(self).stack().last() {
                Value::Array(a) => final(self).stack() == old(self).stack().drop_last() + reversed(a) && if a.len()
                    == len {
                    r is Ok
                } else {
                    fails_with(r, "Tuple"@ + nat_text(len as nat), "Tuple"@ + nat_text(a.len()))
                },
                v => fails_with(r, "Array"@, kind_name(v)) && final(self).stack() == old(self).stack().drop_last(),
            },
    {
        let n = self.read_seq()?;
        if n == len {
            Ok(())
        } else {
            let mut e = String::from_str("Tuple");
            write_nat(&mut e, len as u64);
            let mut f = String::from_str("Tuple");
            write_nat(&mut f, n as u64);
            Err(DecoderError::ExpectedError(e, f))
        }
    }

    /// Starts the read of a map, which is a struct: its entries go on the
    /// stack, each key as a string before its value. Tells how many there
    /// are.
    pub fn read_map(&mut self) -> (r: Result<usize, DecoderError>)
        ensures
            old(self).stack().len() == 0 ==> fails_with(r, "Object"@, nothing()),
            old(self).stack().len() > 0 ==> match old(self).stack().last() {
                Value::Struct(m) => r == Ok::<usize, DecoderError>(m.len() as usize) && final(self).stack()
                    == old(self).stack().drop_last() + map_frames(m),
                v => fails_with(r, "Object"@, kind_name(v)) && final(self).stack() == old(self).stack().drop_last(),
            },
    {
        match self.pop() {
            None => Err(expected("Object", "nothing")),
            Some(Xml::Object(o)) => {
                proof {
                    lemma_model_object(o);
                }
                let ghost m = object_model(o@);
                let ghost base = self.stack();
                let n = o.len();
                let mut o = o;
                while o.len() > 0
                    invariant
                        o@.len() <= n,
                        n == m.len(),
                        object_model(o@) == m.take(o@.len() as int),
                        self.stack() == base + map_frames(m).take(2 * (n - o@.len())),
                    decreases o@.len(),
                {
                    let ghost k = o@.len();
                    let ghost oldo = o@;
                    let (key, v) = o.pop().unwrap();
                    assert((key, v) == oldo[k - 1]);
                    assert(object_model(oldo)[k - 1] == m.take(k as int)[k - 1]);
                    assert(object_model(o@) =~= m.take(o@.len() as int));
                    self.push(v);
                    self.push(Xml::String(key));
                    assert(map_frames(m).take(2 * (n - o@.len())) =~= map_frames(m).take(2 * (n - k)).push(
                        m[k - 1].1,
                    ).push(Value::Str(m[k - 1].0)));
                }
                assert(map_frames(m).take(2 * n) =~= map_frames(m));
                Ok(n)
            },
            Some(x) => Err(expected("Object", kind_of(&x))),
        }
    }

    /// Reads which of `names` a variant is: a bare string names a variant
    /// without arguments; a struct names it in `variant` and holds its
    /// arguments in `fields`, which go on the stack in order.
    pub fn read_enum_variant(&mut self, names: &Vec<String>) -> (r: Result<usize, DecoderError>)
        ensures
            old(self).stack().len() == 0 ==> fails_with(r, "String or Object"@, nothing()),
            old(self).stack().len() > 0 ==> match old(self).stack().last() {
                Value::Str(s) => variant_choice(names_model(names@), s, r) && final(self).stack()
                    == old(self).stack().drop_last(),
                Value::Struct(m) => enum_struct_read(
                    old(self).stack(),
                    m,
                    names_model(names@),
                    r,
                    final(self).stack(),
                ),
                v => fails_with(r, "String or Object"@, kind_name(v)) && final(self).stack()
                    == old(self).stack().drop_last(),
            },
    {
        let name: String = match self.pop() {
            None => {
                return Err(expected("String or Object", "nothing"));
            },
            Some(Xml::String(s)) => s,
            Some(Xml::Object(o)) => {
                proof {
                    lemma_model_object(o);
                }
                let ghost m = object_model(o@);
                let mut o = o;
                let vk = String::from_str("variant");
                let iv = object_index(&o, &vk);
                if iv >= o.len() {
                    return Err(DecoderError::MissingFieldError(vk));
                }
                let (_, vv) = o.remove(iv);
                assert(object_model(o@) =~= m.remove(iv as int));
                let n = match vv {
                    Xml::String(s) => s,
                    other => {
                        return Err(expected("String", kind_of(&other)));
                    },
                };
                let fk = String::from_str("fields");
                let jf = object_index(&o, &fk);
                if jf >= o.len() {
                    return Err(DecoderError::MissingFieldError(fk));
                }
                let (_, fv) = o.remove(jf);
                match fv {
                    Xml::Array(a) => {
                        proof {
                            lemma_model_array(a);
                        }
                        self.push_reversed(a);
                    },
                    other => {
                        return Err(expected("Array", kind_of(&other)));
                    },
                }
                n
            },
            Some(x) => {
                return Err(expected("String or Object", kind_of(&x)));
            },
        };
        let i = variant_position(names, &name);
        if i < names.len() {
            Ok(i)
        } else {
            Err(DecoderError::UnknownVariantError(name))
        }
    }

    /// An error raised by the caller of the decoder.
    pub fn error(&self, err: &str) -> (r: DecoderError)
        ensures
            r matches DecoderError::ApplicationError(m) && m@ == err@,
    {
        DecoderError::ApplicationError(String::from_str(err))
    }
}

} // verus!
