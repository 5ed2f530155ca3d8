//! The wire encoder: typed values and value trees to XML-RPC text.
use vstd::prelude::*;
use crate::error::EncoderError;
use crate::text::{lemma_escape_plain, escape_char, escape_spec, escape_str, int_text, write_int};
use crate::value::{lemma_model_array, lemma_model_object, Value, Xml};

verus! {

pub open spec fn bool_text(b: bool) -> Seq<char> {
    if b {
        "1"@
    } else {
        "0"@
    }
}

/// The wire text of a value.
pub open spec fn wire(v: Value) -> Seq<char>
    decreases v,
{
    match v {
        Value::Null => "<nil/>"@,
        Value::Boolean(b) => "<boolean>"@ + bool_text(b) + "</boolean>"@,
        Value::Int(n) => "<int>"@ + int_text(n as int) + "</int>"@,
        Value::Double(t) => "<double>"@ + t + "</double>"@,
        Value::Str(s) => "<string>"@ + escape_spec(s) + "</string>"@,
        Value::Array(a) => "<array><data>"@ + elements_wire(a, a.len() as int) + "</data></array>"@,
        Value::Struct(m) => "<struct>"@ + members_wire(m, m.len() as int) + "</struct>"@,
        _ => Seq::empty(),
    }
}

/// The wire text of the first `i` elements of an array.
pub open spec fn elements_wire(a: Seq<Value>, i: int) -> Seq<char>
    decreases a, i,
{
    if i <= 0 || i > a.len() {
        Seq::empty()
    } else {
        elements_wire(a, i - 1) + "<value>"@ + wire(a[i - 1]) + "</value>"@
    }
}

/// The wire text of the first `i` members of a struct.
pub open spec fn members_wire(m: Seq<(Seq<char>, Value)>, i: int) -> Seq<char>
    decreases m, i,
{
    if i <= 0 || i > m.len() {
        Seq::empty()
    } else {
        members_wire(m, i - 1) + "<member><name>"@ + escape_spec(m[i - 1].0) + "</name><value>"@
            + wire(m[i - 1].1) + "</value></member>"@
    }
}

/// Whether every value in the tree has a wire form.
pub open spec fn encodable(v: Value) -> bool
    decreases v,
{
    match v {
        Value::Base64(_) | Value::DateTime => false,
        Value::Array(a) => forall|i: int| 0 <= i < a.len() ==> encodable(#[trigger] a[i]),
        Value::Struct(m) => forall|i: int| 0 <= i < m.len() ==> encodable(#[trigger] m[i].1),
        _ => true,
    }
}

/// A structure for serialising values to XML-RPC text.
pub struct Encoder {
    out: String,
}

impl Encoder {
    /// The text written so far.
    pub closed spec fn text(&self) -> Seq<char> {
        self.out@
    }

    /// A new encoder with nothing written.
    pub fn new() -> (r: Encoder)
        ensures
            r.text() == Seq::<char>::empty(),
    {
        Encoder { out: String::new() }
    }

    /// The text written, handed over.
    pub fn into_string(self) -> (r: String)
        ensures
            r@ == self.text(),
    {
        self.out
    }

    pub fn emit_nil(&mut self)
        ensures
            final(self).text() == old(self).text() + "<nil/>"@,
    {
        self.out.append("<nil/>");
    }

    /// XML-RPC integers are 32-bit signed.
    pub fn emit_i32(&mut self, v: i32)
        ensures
            final(self).text() == old(self).text() + "<int>"@ + int_text(v as int) + "</int>"@,
    {
        self.out.append("<int>");
        write_int(&mut self.out, v);
        self.out.append("</int>");
    }

    /// Wider and unsigned integers are cast to 32 bits, keeping the low bits.
    pub fn emit_i64(&mut self, v: i64)
        ensures
            final(self).text() == old(self).text() + "<int>"@ + int_text((v as i32) as int)
                + "</int>"@,
    {
        self.emit_i32(v as i32)
    }

    pub fn emit_isize(&mut self, v: isize)
        ensures
            final(self).text() == old(self).text() + "<int>"@ + int_text((v as i32) as int)
                + "</int>"@,
    {
        self.emit_i32(v as i32)
    }

    pub fn emit_i16(&mut self, v: i16)
        ensures
            final(self).text() == old(self).text() + "<int>"@ + int_text(v as int) + "</int>"@,
    {
        self.emit_i32(v as i32)
    }

    pub fn emit_i8(&mut self, v: i8)
        ensures
            final(self).text() == old(self).text() + "<int>"@ + int_text(v as int) + "</int>"@,
    {
        self.emit_i32(v as i32)
    }

    pub fn emit_u64(&mut self, v: u64)
        ensures
            final(self).text() == old(self).text() + "<int>"@ + int_text((v as i32) as int)
                + "</int>"@,
    {
        self.emit_i32(v as i32)
    }

    pub fn emit_usize(&mut self, v: usize)
        ensures
            final(self).text() == old(self).text() + "<int>"@ + int_text((v as i32) as int)
                + "</int>"@,
    {
        self.emit_i32(v as i32)
    }

    pub fn emit_u32(&mut self, v: u32)
        ensures
            final(self).text() == old(self).text() + "<int>"@ + int_text((v as i32) as int)
                + "</int>"@,
    {
        self.emit_i32(v as i32)
    }

    pub fn emit_u16(&mut self, v: u16)
        ensures
            final(self).text() == old(self).text() + "<int>"@ + int_text(v as int) + "</int>"@,
    {
        self.emit_i32(v as i32)
    }

    pub fn emit_u8(&mut self, v: u8)
        ensures
            final(self).text() == old(self).text() + "<int>"@ + int_text(v as int) + "</int>"@,
    {
        self.emit_i32(v as i32)
    }

    pub fn emit_bool(&mut self, v: bool)
        ensures
            final(self).text() == old(self).text() + "<boolean>"@ + bool_text(v) + "</boolean>"@,
    {
        self.out.append("<boolean>");
        if v {
            self.out.append("1");
        } else {
            self.out.append("0");
        }
        self.out.append("</boolean>");
    }

    /// Writes a double given by its text.
    pub fn emit_f64(&mut self, text: &str)
        ensures
            final(self).text() == old(self).text() + "<double>"@ + text@ + "</double>"@,
    {
        self.out.append("<double>");
        self.out.append(text);
        self.out.append("</double>");
    }

    pub fn emit_str(&mut self, v: &str)
        ensures
            final(self).text() == old(self).text() + "<string>"@ + escape_spec(v@) + "</string>"@,
    {
        self.out.append("<string>");
        escape_str(&mut self.out, v);
        self.out.append("</string>");
    }

    pub fn emit_char(&mut self, v: char)
        ensures
            final(self).text() == old(self).text() + "<string>"@ + escape_spec(seq![v])
                + "</string>"@,
    {
        self.out.append("<string>");
        escape_char(&mut self.out, v);
        self.out.append("</string>");
    }

    pub fn emit_struct_start(&mut self)
        ensures
            final(self).text() == old(self).text() + "<struct>"@,
    {
        self.out.append("<struct>");
    }

    pub fn emit_struct_end(&mut self)
        ensures
            final(self).text() == old(self).text() + "</struct>"@,
    {
        self.out.append("</struct>");
    }

    /// Opens a member: its name, then the start of its value.
    pub fn emit_struct_field_start(&mut self, name: &str)
        ensures
            final(self).text() == old(self).text() + "<member><name>"@ + escape_spec(name@)
                + "</name><value>"@,
    {
        self.out.append("<member><name>");
        escape_str(&mut self.out, name);
        self.out.append("</name><value>");
    }

    pub fn emit_struct_field_end(&mut self)
        ensures
            final(self).text() == old(self).text() + "</value></member>"@,
    {
        self.out.append("</value></member>");
    }

    pub fn emit_seq_start(&mut self)
        ensures
            final(self).text() == old(self).text() + "<array><data>"@,
    {
        self.out.append("<array><data>");
    }

    pub fn emit_seq_end(&mut self)
        ensures
            final(self).text() == old(self).text() + "</data></array>"@,
    {
        self.out.append("</data></array>");
    }

    pub fn emit_seq_elt_start(&mut self)
        ensures
            final(self).text() == old(self).text() + "<value>"@,
    {
        self.out.append("<value>");
    }

    pub fn emit_seq_elt_end(&mut self)
        ensures
            final(self).text() == old(self).text() + "</value>"@,
    {
        self.out.append("</value>");
    }

    /// A variant without arguments is its bare name; one with arguments
    /// opens a struct of two members, `variant` (the name) and `fields`
    /// (the array of arguments, which follow as sequence elements).
    pub fn emit_enum_variant_start(&mut self, name: &str, cnt: usize)
        ensures
            cnt == 0 ==> final(self).text() == old(self).text() + "<string>"@ + escape_spec(name@)
                + "</string>"@,
            cnt > 0 ==> final(self).text() == old(self).text() + "<struct>"@ + member_start(
                "variant"@,
            ) + "<string>"@ + escape_spec(name@) + "</string>"@ + "</value></member>"@
                + member_start("fields"@) + "<array><data>"@,
    {
        if cnt == 0 {
            self.emit_str(name);
        } else {
            self.emit_struct_start();
            self.emit_struct_field_start("variant");
            self.emit_str(name);
            self.emit_struct_field_end();
            self.emit_struct_field_start("fields");
            self.emit_seq_start();
            proof {
                lemma_plain_names();
            }
        }
    }

    /// Closes what `emit_enum_variant_start` opened.
    pub fn emit_enum_variant_end(&mut self, cnt: usize)
        ensures
            cnt == 0 ==> final(self).text() == old(self).text(),
            cnt > 0 ==> final(self).text() == old(self).text() + "</data></array>"@
                + "</value></member>"@ + "</struct>"@,
    {
        if cnt > 0 {
            self.emit_seq_end();
            self.emit_struct_field_end();
            self.emit_struct_end();
        }
    }
}

impl Encoder {
    /// Writes a whole value tree.
    pub fn emit_value(&mut self, v: &Xml) -> (r: Result<(), EncoderError>)
        ensures
            r is Ok <==> encodable(v@),
            r is Ok ==> final(self).text() == old(self).text() + wire(v@),
        decreases v,
    {
        let ghost before = self.text();
        match v {
            Xml::I32(n) => {
                self.emit_i32(*n);
                assert(self.text() =~= before + wire(v@));
                Ok(())
            },
            Xml::Double(t) => {
                self.emit_f64(t.as_str());
                assert(self.text() =~= before + wire(v@));
                Ok(())
            },
            Xml::String(t) => {
                self.emit_str(t.as_str());
                assert(self.text() =~= before + wire(v@));
                Ok(())
            },
            Xml::Boolean(b) => {
                self.emit_bool(*b);
                assert(self.text() =~= before + wire(v@));
                Ok(())
            },
            Xml::Null => {
                self.emit_nil();
                Ok(())
            },
            Xml::Array(a) => {
                proof {
                    lemma_model_array(*a);
                }
                let ghost am = v@->Array_0;
                self.emit_seq_start();
                let mut i: usize = 0;
                while i < a.len()
                    invariant
                        i <= a@.len(),
                        *v == Xml::Array(*a),
                        am == v@->Array_0,
                        am.len() == a@.len(),
                        forall|j: int| 0 <= j < am.len() ==> am[j] == (#[trigger] a@[j])@,
                        forall|j: int| 0 <= j < i ==> encodable(#[trigger] am[j]),
                        self.text() == before + "<array><data>"@ + elements_wire(am, i as int),
                    decreases a@.len() - i,
                {
                    proof {
                        vstd::std_specs::vec::axiom_vec_index_decreases(*a, i as int);
                        assert(decreases_to!(Xml::Array(*a) => *a));
                    }
                    self.emit_seq_elt_start();
                    match self.emit_value(&a[i]) {
                        Err(e) => {
                            return Err(e);
                        },
                        Ok(()) => {},
                    }
                    self.emit_seq_elt_end();
                    assert(self.text() =~= before + "<array><data>"@ + elements_wire(am, i + 1));
                    i = i + 1;
                }
                self.emit_seq_end();
                assert(self.text() =~= before + wire(v@));
                Ok(())
            },
            Xml::Object(o) => {
                proof {
                    lemma_model_object(*o);
                }
                let ghost om = v@->Struct_0;
                self.emit_struct_start();
                let mut i: usize = 0;
                while i < o.len()
                    invariant
                        i <= o@.len(),
                        *v == Xml::Object(*o),
                        om == v@->Struct_0,
                        om.len() == o@.len(),
                        forall|j: int|
                            0 <= j < om.len() ==> om[j] == ((#[trigger] o@[j]).0@, o@[j].1@),
                        forall|j: int| 0 <= j < i ==> encodable(#[trigger] om[j].1),
                        self.text() == before + "<struct>"@ + members_wire(om, i as int),
                    decreases o@.len() - i,
                {
                    proof {
                        vstd::std_specs::vec::axiom_vec_index_decreases(*o, i as int);
                        assert(decreases_to!(Xml::Object(*o) => *o));
                        assert(decreases_to!(o@[i as int] => o@[i as int].1));
                    }
                    self.emit_struct_field_start(o[i].0.as_str());
                    match self.emit_value(&o[i].1) {
                        Err(e) => {
                            assert(om[i as int].1 == o@[i as int].1@);
                            assert(!encodable(v@));
                            return Err(e);
                        },
                        Ok(()) => {},
                    }
                    self.emit_struct_field_end();
                    assert(self.text() =~= before + "<struct>"@ + members_wire(om, i + 1));
                    i = i + 1;
                }
                self.emit_struct_end();
                assert(self.text() =~= before + wire(v@));
                Ok(())
            },
            _ => Err(EncoderError::NotImplemented),
        }
    }
}

/// The wire text of a value tree.
pub fn encode(v: &Xml) -> (r: Result<String, EncoderError>)
    ensures
        r is Ok <==> encodable(v@),
        r matches Ok(s) ==> s@ == wire(v@),
{
    let mut e = Encoder::new();
    match e.emit_value(v) {
        Ok(()) => {
            assert(e.text() =~= wire(v@));
            Ok(e.into_string())
        },
        Err(err) => Err(err),
    }
}

/// A value to be shown in wire form.
pub struct AsXml<'a> {
    inner: &'a Xml,
}

/// Wraps a value to be shown in wire form.
pub fn as_xml<'a>(t: &'a Xml) -> (r: AsXml<'a>)
    ensures
        r.value() == t,
{
    AsXml { inner: t }
}

impl<'a> AsXml<'a> {
    pub closed spec fn value(&self) -> &'a Xml {
        self.inner
    }

    /// The wire text of the wrapped value.
    pub fn to_wire(&self) -> (r: Result<String, EncoderError>)
        ensures
            r is Ok <==> encodable(self.value()@),
            r matches Ok(s) ==> s@ == wire(self.value()@),
    {
        encode(self.inner)
    }
}

/// A struct is written as its members in insertion order: after the first
/// `i` members comes member `i`, its name verbatim when it holds no markup
/// characters, then its value.
pub proof fn lemma_struct_wire_in_order(m: Seq<(Seq<char>, Value)>, i: int)
    requires
        0 <= i < m.len(),
        forall|j: int| 0 <= j < m[i].0.len() ==> #[trigger] m[i].0[j] != '&' && m[i].0[j] != '<' && m[i].0[j]
            != '>',
    ensures
        wire(Value::Struct(m)) == "<struct>"@ + members_wire(m, m.len() as int) + "</struct>"@,
        members_wire(m, i + 1) == members_wire(m, i) + "<member><name>"@ + m[i].0 + "</name><value>"@ + wire(
            m[i].1,
        ) + "</value></member>"@,
{
    lemma_escape_plain(m[i].0);
}

/// The opening of a member named `name`, up to the start of its value.
pub open spec fn member_start(name: Seq<char>) -> Seq<char> {
    "<member><name>"@ + name + "</name><value>"@
}

proof fn lemma_plain_names()
    ensures
        escape_spec("variant"@) == "variant"@,
        escape_spec("fields"@) == "fields"@,
{
    reveal_strlit("variant");
    reveal_strlit("fields");
    lemma_escape_plain("variant"@);
    lemma_escape_plain("fields"@);
}

} // verus!
