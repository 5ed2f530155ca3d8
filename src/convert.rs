//! The one-way projection of native values into value trees.
use vstd::prelude::*;
use crate::value::{array_model, lemma_model_array, Value, Xml};

verus! {

/// Values that have a value tree.
pub trait ToXml {
    /// The model of the tree of `self`.
    spec fn xml_model(&self) -> Value;

    /// The value tree of `self`.
    fn to_xml(&self) -> (r: Xml)
        ensures
            r@ == self.xml_model(),
    ;
}

impl ToXml for Xml {
    open spec fn xml_model(&self) -> Value {
        self@
    }

    fn to_xml(&self) -> (r: Xml) {
        self.clone_tree()
    }
}

impl ToXml for i32 {
    open spec fn xml_model(&self) -> Value {
        Value::Int(*self)
    }

    fn to_xml(&self) -> (r: Xml) {
        Xml::I32(*self)
    }
}

/// Integers of other widths keep their low 32 bits.
impl ToXml for i64 {
    open spec fn xml_model(&self) -> Value {
        Value::Int(*self as i32)
    }

    fn to_xml(&self) -> (r: Xml) {
        Xml::I32(*self as i32)
    }
}

impl ToXml for u32 {
    open spec fn xml_model(&self) -> Value {
        Value::Int(*self as i32)
    }

    fn to_xml(&self) -> (r: Xml) {
        Xml::I32(*self as i32)
    }
}

impl ToXml for u64 {
    open spec fn xml_model(&self) -> Value {
        Value::Int(*self as i32)
    }

    fn to_xml(&self) -> (r: Xml) {
        Xml::I32(*self as i32)
    }
}

impl ToXml for usize {
    open spec fn xml_model(&self) -> Value {
        Value::Int(*self as i32)
    }

    fn to_xml(&self) -> (r: Xml) {
        Xml::I32(*self as i32)
    }
}

impl ToXml for i8 {
    open spec fn xml_model(&self) -> Value {
        Value::Int(*self as i32)
    }

    fn to_xml(&self) -> (r: Xml) {
        Xml::I32(*self as i32)
    }
}

impl ToXml for i16 {
    open spec fn xml_model(&self) -> Value {
        Value::Int(*self as i32)
    }

    fn to_xml(&self) -> (r: Xml) {
        Xml::I32(*self as i32)
    }
}

impl ToXml for isize {
    open spec fn xml_model(&self) -> Value {
        Value::Int(*self as i32)
    }

    fn to_xml(&self) -> (r: Xml) {
        Xml::I32(*self as i32)
    }
}

impl ToXml for u8 {
    open spec fn xml_model(&self) -> Value {
        Value::Int(*self as i32)
    }

    fn to_xml(&self) -> (r: Xml) {
        Xml::I32(*self as i32)
    }
}

impl ToXml for u16 {
    open spec fn xml_model(&self) -> Value {
        Value::Int(*self as i32)
    }

    fn to_xml(&self) -> (r: Xml) {
        Xml::I32(*self as i32)
    }
}

impl ToXml for str {
    open spec fn xml_model(&self) -> Value {
        Value::Str(self@)
    }

    fn to_xml(&self) -> (r: Xml) {
        Xml::String(String::from_str(self))
    }
}

impl<A: ToXml, B: ToXml, C: ToXml> ToXml for (A, B, C) {
    open spec fn xml_model(&self) -> Value {
        Value::Array(seq![self.0.xml_model(), self.1.xml_model(), self.2.xml_model()])
    }

    fn to_xml(&self) -> (r: Xml) {
        let mut out: Vec<Xml> = Vec::new();
        out.push(self.0.to_xml());
        out.push(self.1.to_xml());
        out.push(self.2.to_xml());
        proof {
            lemma_model_array(out);
        }
        assert(array_model(out@) =~= seq![self.0.xml_model(), self.1.xml_model(), self.2.xml_model()]);
        Xml::Array(out)
    }
}

impl<A: ToXml, B: ToXml, C: ToXml, D: ToXml> ToXml for (A, B, C, D) {
    open spec fn xml_model(&self) -> Value {
        Value::Array(seq![self.0.xml_model(), self.1.xml_model(), self.2.xml_model(), self.3.xml_model()])
    }

    fn to_xml(&self) -> (r: Xml) {
        let mut out: Vec<Xml> = Vec::new();
        out.push(self.0.to_xml());
        out.push(self.1.to_xml());
        out.push(self.2.to_xml());
        out.push(self.3.to_xml());
        proof {
            lemma_model_array(out);
        }
        assert(array_model(out@) =~= seq![self.0.xml_model(), self.1.xml_model(), self.2.xml_model(), self.3.xml_model()]);
        Xml::Array(out)
    }
}

impl ToXml for bool {
    open spec fn xml_model(&self) -> Value {
        Value::Boolean(*self)
    }

    fn to_xml(&self) -> (r: Xml) {
        Xml::Boolean(*self)
    }
}

impl ToXml for String {
    open spec fn xml_model(&self) -> Value {
        Value::Str(self@)
    }

    fn to_xml(&self) -> (r: Xml) {
        Xml::String(self.clone())
    }
}

impl ToXml for () {
    open spec fn xml_model(&self) -> Value {
        Value::Null
    }

    fn to_xml(&self) -> (r: Xml) {
        Xml::Null
    }
}

impl<A: ToXml> ToXml for Option<A> {
    open spec fn xml_model(&self) -> Value {
        match self {
            Some(a) => a.xml_model(),
            None => Value::Null,
        }
    }

    fn to_xml(&self) -> (r: Xml) {
        match self {
            Some(a) => a.to_xml(),
            None => Xml::Null,
        }
    }
}

impl<A: ToXml> ToXml for Vec<A> {
    open spec fn xml_model(&self) -> Value {
        Value::Array(Seq::new(self@.len(), |i: int| self@[i].xml_model()))
    }

    fn to_xml(&self) -> (r: Xml) {
        let ghost want = Seq::new(self@.len(), |i: int| self@[i].xml_model());
        let mut out: Vec<Xml> = Vec::new();
        let mut i: usize = 0;
        while i < self.len()
            invariant
                i <= self@.len(),
                want == Seq::new(self@.len(), |i: int| self@[i].xml_model()),
                array_model(out@) == want.take(i as int),
            decreases self@.len() - i,
        {
            let ghost before = array_model(out@);
            let x = self[i].to_xml();
            out.push(x);
            assert(array_model(out@) =~= before.push(x@));
            assert(before.push(x@) =~= want.take(i + 1));
            i = i + 1;
        }
        assert(want.take(i as int) =~= want);
        proof {
            lemma_model_array(out);
        }
        Xml::Array(out)
    }
}

impl<A: ToXml, B: ToXml> ToXml for (A, B) {
    open spec fn xml_model(&self) -> Value {
        Value::Array(seq![self.0.xml_model(), self.1.xml_model()])
    }

    fn to_xml(&self) -> (r: Xml) {
        let mut out: Vec<Xml> = Vec::new();
        out.push(self.0.to_xml());
        out.push(self.1.to_xml());
        proof {
            lemma_model_array(out);
        }
        assert(array_model(out@) =~= seq![self.0.xml_model(), self.1.xml_model()]);
        Xml::Array(out)
    }
}

} // verus!
