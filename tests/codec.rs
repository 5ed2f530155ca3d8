use xmlrpc::{
    encode, error_str, Builder, Decoder, DecoderError, Encoder, EncoderError, ErrorCode,
    ParserError, ReaderEvent, Request, Response, Tag, ToXml, Xml, XmlEvent,
};

fn s(t: &str) -> String {
    t.to_string()
}

fn obj(members: Vec<(&str, Xml)>) -> Xml {
    Xml::Object(members.into_iter().map(|(k, v)| (s(k), v)).collect())
}

fn parse(text: &str) -> Xml {
    match Xml::from_str(text) {
        Ok(x) => x,
        Err(e) => panic!("parse failed: {:?}", e),
    }
}

#[test]
fn encode_int_literal() {
    let mut e = Encoder::new();
    e.emit_i32(42);
    assert_eq!(e.into_string(), "<int>42</int>");
    assert_eq!(encode(&Xml::I32(42)).unwrap(), "<int>42</int>");
}

#[test]
fn encode_bool_literal() {
    assert_eq!(encode(&Xml::Boolean(true)).unwrap(), "<boolean>1</boolean>");
    assert_eq!(encode(&Xml::Boolean(false)).unwrap(), "<boolean>0</boolean>");
}

#[test]
fn encode_array_literal() {
    let a = Xml::Array(vec![Xml::I32(1), Xml::I32(2)]);
    assert_eq!(
        encode(&a).unwrap(),
        "<array><data><value><int>1</int></value><value><int>2</int></value></data></array>"
    );
}

#[test]
fn parse_array_literal() {
    let x = parse("<array><data><value><int>1</int></value><value><int>2</int></value></data></array>");
    let a = x.as_array().unwrap();
    assert_eq!(a.len(), 2);
    assert_eq!(a[0].as_i32(), Some(1));
    assert_eq!(a[1].as_i32(), Some(2));
}

#[test]
fn escape_round_trip() {
    let text = encode(&Xml::String(s("a&b<c>"))).unwrap();
    assert_eq!(text, "<string>a&amp;b&lt;c&gt;</string>");
    assert_eq!(parse(&text).as_string(), Some("a&b<c>"));
}

#[test]
fn emit_char_escapes() {
    let mut e = Encoder::new();
    e.emit_char('<');
    e.emit_char('x');
    assert_eq!(e.into_string(), "<string>&lt;</string><string>x</string>");
}

#[test]
fn scalar_round_trips() {
    for n in [0, 42, -7, i32::MIN, i32::MAX] {
        let mut d = Decoder::new(parse(&encode(&Xml::I32(n)).unwrap()));
        assert_eq!(d.read_i32(), Ok(n));
    }
    for b in [true, false] {
        let mut d = Decoder::new(parse(&encode(&Xml::Boolean(b)).unwrap()));
        assert_eq!(d.read_bool(), Ok(b));
    }
    for t in ["", " ", "hello world", "x<y>&z", "\u{e9}t\u{e9}"] {
        let mut d = Decoder::new(parse(&encode(&Xml::String(s(t))).unwrap()));
        assert_eq!(d.read_str(), Ok(s(t)));
    }
    for t in ["3.25", "-0.5", "1e-7", "12"] {
        let mut d = Decoder::new(parse(&encode(&Xml::Double(s(t))).unwrap()));
        assert_eq!(d.read_f64(), Ok(s(t)));
    }
    let mut d = Decoder::new(parse(&encode(&Xml::Null).unwrap()));
    assert_eq!(d.read_nil(), Ok(()));
}

#[test]
fn struct_keeps_member_order() {
    let v = obj(vec![("b", Xml::I32(1)), ("a", Xml::I32(2))]);
    assert_eq!(
        encode(&v).unwrap(),
        "<struct><member><name>b</name><value><int>1</int></value></member>\
         <member><name>a</name><value><int>2</int></value></member></struct>"
    );
}

#[test]
fn struct_decode_by_name() {
    let text = encode(&obj(vec![("b", Xml::I32(1)), ("a", Xml::I32(2))])).unwrap();
    let mut d = Decoder::new(parse(&text));
    assert_eq!(d.read_struct_field("a"), Ok(true));
    assert_eq!(d.read_i32(), Ok(2));
    assert_eq!(d.read_struct_field("b"), Ok(true));
    assert_eq!(d.read_i32(), Ok(1));
    d.read_struct_end();
    assert_eq!(d.depth(), 0);
}

#[test]
fn array_order_round_trip() {
    let a = Xml::Array(vec![Xml::I32(3), Xml::I32(1), Xml::I32(2)]);
    let mut d = Decoder::new(parse(&encode(&a).unwrap()));
    assert_eq!(d.read_seq(), Ok(3));
    assert_eq!(d.read_i32(), Ok(3));
    assert_eq!(d.read_i32(), Ok(1));
    assert_eq!(d.read_i32(), Ok(2));
    assert_eq!(d.depth(), 0);
}

#[test]
fn nested_round_trip() {
    let v = obj(vec![
        ("list", Xml::Array(vec![Xml::String(s("p")), obj(vec![("q", Xml::Null)])])),
        ("e", Xml::Boolean(true)),
    ]);
    let text = encode(&v).unwrap();
    let back = parse(&text);
    assert_eq!(encode(&back).unwrap(), text);
    assert_eq!(back.find_path(&["list"]).unwrap().as_array().unwrap().len(), 2);
    assert_eq!(back.find("e").unwrap().as_boolean(), Some(true));
}

#[test]
fn pretty_printed_document() {
    let x = parse("<?xml version=\"1.0\"?>\n<array>\n  <data>\n    <value><i4>5</i4></value>\n  </data>\n</array>\n");
    assert_eq!(x.as_array().unwrap()[0].as_i32(), Some(5));
}

#[test]
fn missing_optional_field_is_absent() {
    let mut d = Decoder::new(obj(vec![("a", Xml::I32(1))]));
    assert_eq!(d.read_struct_field("b"), Ok(false));
    assert_eq!(d.read_option(), Ok(false));
    assert_eq!(d.read_struct_field("a"), Ok(true));
    assert_eq!(d.read_option(), Ok(true));
    assert_eq!(d.read_i32(), Ok(1));
}

#[test]
fn missing_value_is_syntax_error() {
    let r = Xml::from_str("<struct><member><name>a</name></member></struct>");
    assert_eq!(r.err(), Some(ParserError::SyntaxError(ErrorCode::InvalidSyntax)));
}

#[test]
fn unknown_variant() {
    let mut d = Decoder::new(Xml::String(s("Bogus")));
    let names = vec![s("Foo"), s("Bar")];
    assert_eq!(d.read_enum_variant(&names), Err(DecoderError::UnknownVariantError(s("Bogus"))));
}

#[test]
fn variant_with_fields() {
    let mut e = Encoder::new();
    e.emit_enum_variant_start("Kangaroo", 2);
    e.emit_seq_elt_start();
    e.emit_i32(34);
    e.emit_seq_elt_end();
    e.emit_seq_elt_start();
    e.emit_str("William");
    e.emit_seq_elt_end();
    e.emit_enum_variant_end(2);
    let text = e.into_string();
    assert_eq!(
        text,
        "<struct><member><name>variant</name><value><string>Kangaroo</string></value></member>\
         <member><name>fields</name><value><array><data><value><int>34</int></value>\
         <value><string>William</string></value></data></array></value></member></struct>"
    );
    let mut d = Decoder::new(parse(&text));
    let names = vec![s("Bunny"), s("Kangaroo")];
    assert_eq!(d.read_enum_variant(&names), Ok(1));
    assert_eq!(d.read_i32(), Ok(34));
    assert_eq!(d.read_str(), Ok(s("William")));
}

#[test]
fn bare_variant() {
    let mut e = Encoder::new();
    e.emit_enum_variant_start("Bunny", 0);
    e.emit_enum_variant_end(0);
    let text = e.into_string();
    assert_eq!(text, "<string>Bunny</string>");
    let mut d = Decoder::new(parse(&text));
    assert_eq!(d.read_enum_variant(&vec![s("Bunny")]), Ok(0));
}

#[test]
fn variant_struct_errors() {
    let mut d = Decoder::new(obj(vec![("fields", Xml::Array(vec![]))]));
    assert_eq!(d.read_enum_variant(&vec![s("A")]), Err(DecoderError::MissingFieldError(s("variant"))));
    let mut d = Decoder::new(obj(vec![("variant", Xml::String(s("A")))]));
    assert_eq!(d.read_enum_variant(&vec![s("A")]), Err(DecoderError::MissingFieldError(s("fields"))));
    let mut d = Decoder::new(Xml::I32(1));
    assert_eq!(
        d.read_enum_variant(&vec![s("A")]),
        Err(DecoderError::ExpectedError(s("String or Object"), s("Integer")))
    );
}

#[test]
fn expected_errors() {
    let mut d = Decoder::new(Xml::I32(1));
    assert_eq!(d.read_bool(), Err(DecoderError::ExpectedError(s("Boolean"), s("Integer"))));
    let mut d = Decoder::new(Xml::Double(s("1.5")));
    assert_eq!(d.read_i32(), Err(DecoderError::ExpectedError(s("Integer"), s("1.5"))));
    let mut d = Decoder::new(Xml::String(s("12x")));
    assert_eq!(d.read_i32(), Err(DecoderError::ExpectedError(s("Number"), s("12x"))));
    let mut d = Decoder::new(Xml::String(s("ab")));
    assert_eq!(d.read_char(), Err(DecoderError::ExpectedError(s("single character string"), s("ab"))));
    let mut d = Decoder::new(Xml::Null);
    assert_eq!(d.read_str(), Err(DecoderError::ExpectedError(s("String"), s("Null"))));
    assert_eq!(d.read_str(), Err(DecoderError::ExpectedError(s("String"), s("nothing"))));
}

#[test]
fn integer_reads() {
    let mut d = Decoder::new(Xml::String(s("-300")));
    assert_eq!(d.read_i32(), Ok(-300));
    let mut d = Decoder::new(Xml::String(s("+18446744073709551615")));
    assert_eq!(d.read_integer(0, u64::MAX as i128), Ok(u64::MAX as i128));
    let mut d = Decoder::new(Xml::I32(-1));
    assert_eq!(d.read_integer(0, 255), Err(DecoderError::ExpectedError(s("Number"), s("-1"))));
    let mut d = Decoder::new(Xml::String(s("99999999999")));
    assert_eq!(d.read_i32(), Err(DecoderError::ExpectedError(s("Number"), s("99999999999"))));
}

#[test]
fn double_reads() {
    let mut d = Decoder::new(Xml::I32(7));
    assert_eq!(d.read_f64(), Ok(s("7")));
    let mut d = Decoder::new(Xml::Null);
    assert_eq!(d.read_f64(), Ok(s("NaN")));
    let mut d = Decoder::new(Xml::String(s("2.5e3")));
    assert_eq!(d.read_f64(), Ok(s("2.5e3")));
    let mut d = Decoder::new(Xml::String(s("2.5.3")));
    assert_eq!(d.read_f64(), Err(DecoderError::ExpectedError(s("Number"), s("2.5.3"))));
}

#[test]
fn char_read() {
    let mut d = Decoder::new(parse(&encode(&Xml::String(s("\u{e9}"))).unwrap()));
    assert_eq!(d.read_char(), Ok('\u{e9}'));
}

#[test]
fn map_read_order() {
    let mut d = Decoder::new(obj(vec![("x", Xml::I32(1)), ("y", Xml::I32(2))]));
    assert_eq!(d.read_map(), Ok(2));
    assert_eq!(d.read_str(), Ok(s("x")));
    assert_eq!(d.read_i32(), Ok(1));
    assert_eq!(d.read_str(), Ok(s("y")));
    assert_eq!(d.read_i32(), Ok(2));
    assert_eq!(d.depth(), 0);
}

#[test]
fn tuple_length() {
    let mut d = Decoder::new(Xml::Array(vec![Xml::I32(1)]));
    assert_eq!(d.read_tuple(1), Ok(()));
    let mut d = Decoder::new(Xml::Array(vec![Xml::I32(1)]));
    assert_eq!(d.read_tuple(2), Err(DecoderError::ExpectedError(s("Tuple2"), s("Tuple1"))));
}

#[test]
fn field_and_application_errors() {
    assert_eq!(
        Decoder::field_error(false, "age", DecoderError::ApplicationError(s("x"))),
        DecoderError::MissingFieldError(s("age"))
    );
    let e = DecoderError::ApplicationError(s("x"));
    assert_eq!(Decoder::field_error(true, "age", e.clone()), e);
    let d = Decoder::new(Xml::Null);
    assert_eq!(d.error("bad"), DecoderError::ApplicationError(s("bad")));
}

#[test]
fn builder_eof_errors() {
    let b = Builder::from_tokens(vec![Some(XmlEvent::Start(Tag::Array)), Some(XmlEvent::Start(Tag::Data))]);
    assert_eq!(b.build().err(), Some(ParserError::SyntaxError(ErrorCode::EOFWhileParsingArray)));
    let b = Builder::from_tokens(vec![Some(XmlEvent::Start(Tag::Struct))]);
    assert_eq!(b.build().err(), Some(ParserError::SyntaxError(ErrorCode::EOFWhileParsingObject)));
    let b = Builder::from_tokens(vec![Some(XmlEvent::Start(Tag::String))]);
    assert_eq!(b.build().err(), Some(ParserError::SyntaxError(ErrorCode::EOFWhileParsingString)));
    let b = Builder::from_tokens(vec![]);
    assert_eq!(b.build().err(), Some(ParserError::SyntaxError(ErrorCode::EOFWhileParsingValue)));
}

#[test]
fn builder_value_positions() {
    let b = Builder::from_tokens(vec![
        Some(XmlEvent::Start(Tag::Int)),
        Some(XmlEvent::I32Value(9)),
        Some(XmlEvent::End(Tag::Int)),
    ]);
    let (r, q) = b.build_value(0);
    assert_eq!(r.unwrap().as_i32(), Some(9));
    assert_eq!(q, 2);
}

#[test]
fn unsupported_types_rejected() {
    assert_eq!(
        Xml::from_str("<base64>AAAA</base64>").err(),
        Some(ParserError::SyntaxError(ErrorCode::NotImplemented))
    );
    assert_eq!(encode(&Xml::DateTime).err(), Some(EncoderError::NotImplemented));
    assert_eq!(encode(&Xml::Array(vec![Xml::Base64(vec![1])])).err(), Some(EncoderError::NotImplemented));
}

#[test]
fn tokenizer_failure_is_kept() {
    match Xml::from_str("<int>1</string>") {
        Err(ParserError::IoError(m)) => assert!(!m.is_empty()),
        _ => panic!("expected a tokenizer failure"),
    }
}

#[test]
fn trailing_tokens_rejected() {
    assert_eq!(
        Xml::from_events(&vec![
            ReaderEvent::StartElement(s("nil")),
            ReaderEvent::EndElement(s("nil")),
            ReaderEvent::StartElement(s("nil")),
            ReaderEvent::EndElement(s("nil")),
            ReaderEvent::EndDocument,
        ])
        .err(),
        Some(ParserError::SyntaxError(ErrorCode::InvalidSyntax))
    );
}

#[test]
fn bad_scalar_text_rejected() {
    assert_eq!(
        Xml::from_str("<boolean>2</boolean>").err(),
        Some(ParserError::SyntaxError(ErrorCode::InvalidSyntax))
    );
    assert_eq!(
        Xml::from_str("<int>4294967296</int>").err(),
        Some(ParserError::SyntaxError(ErrorCode::InvalidSyntax))
    );
    assert_eq!(Xml::from_str("<double>1.2.3</double>").err(), Some(ParserError::SyntaxError(ErrorCode::InvalidSyntax)));
}

#[test]
fn lookups() {
    let v = obj(vec![("a", obj(vec![("b", Xml::I32(5))])), ("c", Xml::Null)]);
    assert_eq!(v.find("c").map(|x| x.is_null()), Some(true));
    assert!(v.find("b").is_none());
    assert_eq!(v.find_path(&["a", "b"]).and_then(|x| x.as_i32()), Some(5));
    assert!(v.find_path(&["a", "z"]).is_none());
    assert_eq!(v.search("b").and_then(|x| x.as_i32()), Some(5));
    assert!(v.search("z").is_none());
    assert!(Xml::I32(1).find("a").is_none());
    assert!(v.is_object() && !v.is_array() && !v.is_string());
    assert!(Xml::I32(1).is_number() && Xml::I32(1).is_i32() && !Xml::I32(1).is_f64());
    assert!(Xml::Double(s("1.0")).is_f64());
    assert_eq!(Xml::I32(-4).as_f64(), Some(s("-4")));
    assert_eq!(Xml::Boolean(false).as_boolean(), Some(false));
    assert_eq!(Xml::Null.as_null(), Some(()));
}

#[test]
fn error_strings() {
    assert_eq!(error_str(ErrorCode::InvalidSyntax), "invalid syntax");
    assert_eq!(error_str(ErrorCode::EOFWhileParsingArray), "EOF While parsing array");
}

#[test]
fn request_envelope() {
    let r = Request::new("sum").argument(&Xml::I32(1)).unwrap().argument_wire("<int>2</int>").finalize();
    assert_eq!(r.method, "sum");
    assert_eq!(
        r.body,
        "<?xml version=\"1.0\"?><methodCall><methodName>sum</methodName><params>\
         <param><int>1</int></param><param><int>2</int></param></params></methodCall>"
    );
}

#[test]
fn response_payload() {
    let body = "<?xml version=\"1.0\"?>\n<methodResponse>\n  <params>\n    <param>\n      \
                <value><string>ok</string></value>\n    </param>\n    <param>\n      \
                <value><int>3</int></value>\n    </param>\n  </params>\n</methodResponse>\n";
    let r = Response::new(body);
    assert_eq!(r.result(0).unwrap().as_string(), Some("ok"));
    assert_eq!(r.result(1).unwrap().as_i32(), Some(3));
    assert_eq!(
        r.result(2).err(),
        Some(DecoderError::ParseError(ParserError::SyntaxError(ErrorCode::EOFWhileParsingValue)))
    );
}

#[test]
fn native_values_to_xml() {
    assert_eq!(encode(&vec![1i32, 2].to_xml()).unwrap(), encode(&Xml::Array(vec![Xml::I32(1), Xml::I32(2)])).unwrap());
    assert_eq!(encode(&Some(true).to_xml()).unwrap(), "<boolean>1</boolean>");
    assert_eq!(encode(&None::<i32>.to_xml()).unwrap(), "<nil/>");
    assert_eq!(encode(&().to_xml()).unwrap(), "<nil/>");
    assert_eq!(
        encode(&(s("a"), 5u32).to_xml()).unwrap(),
        "<array><data><value><string>a</string></value><value><int>5</int></value></data></array>"
    );
    assert_eq!(u64::MAX.to_xml().as_i32(), Some(-1));
    assert_eq!(4294967298i64.to_xml().as_i32(), Some(2));
    assert_eq!(7usize.to_xml().as_i32(), Some(7));
}

#[test]
fn clone_tree_copies() {
    let v = obj(vec![("k", Xml::Array(vec![Xml::Base64(vec![1, 2]), Xml::DateTime, Xml::Double(s("0.5"))]))]);
    let c = v.clone_tree();
    let a = c.find("k").unwrap().as_array().unwrap();
    assert_eq!(a.len(), 3);
    assert!(matches!(&a[0], Xml::Base64(b) if b == &vec![1u8, 2]));
    assert!(matches!(&a[1], Xml::DateTime));
    assert_eq!(a[2].as_f64(), Some(s("0.5")));
}

#[test]
fn as_xml_shows_wire_text() {
    let v = Xml::String(s("<"));
    assert_eq!(xmlrpc::as_xml(&v).to_wire().unwrap(), "<string>&lt;</string>");
}

#[test]
fn repeated_key_keeps_place_takes_last_value() {
    let x = parse(
        "<struct><member><name>a</name><value><int>1</int></value></member>\
         <member><name>b</name><value><int>2</int></value></member>\
         <member><name>a</name><value><int>3</int></value></member></struct>",
    );
    assert_eq!(
        encode(&x).unwrap(),
        "<struct><member><name>a</name><value><int>3</int></value></member>\
         <member><name>b</name><value><int>2</int></value></member></struct>"
    );
}

#[test]
fn array_skips_stray_tokens() {
    let x = parse("<array><data><foo/><value><nil/></value></data></array>");
    assert_eq!(x.as_array().unwrap().len(), 1);
    assert!(x.as_array().unwrap()[0].is_null());
}

#[test]
fn member_without_name_text_is_syntax_error() {
    let r = Xml::from_str("<struct><member><name></name><value><int>1</int></value></member></struct>");
    assert_eq!(r.err(), Some(ParserError::SyntaxError(ErrorCode::InvalidSyntax)));
}

#[test]
fn empty_name_token_is_a_key() {
    let b = Builder::from_tokens(vec![
        Some(XmlEvent::Start(Tag::Struct)),
        Some(XmlEvent::Start(Tag::Member)),
        Some(XmlEvent::Start(Tag::Name)),
        Some(XmlEvent::NameValue(s(""))),
        Some(XmlEvent::End(Tag::Name)),
        Some(XmlEvent::Start(Tag::Value)),
        Some(XmlEvent::Start(Tag::Nil)),
        Some(XmlEvent::End(Tag::Nil)),
        Some(XmlEvent::End(Tag::Value)),
        Some(XmlEvent::End(Tag::Member)),
        Some(XmlEvent::End(Tag::Struct)),
    ]);
    let x = b.build().unwrap();
    assert!(x.find("").unwrap().is_null());
}

#[test]
fn non_finite_double_strings() {
    for t in ["inf", "-inf", "+Infinity", "NaN", "nan", "-INF"] {
        let mut d = Decoder::new(Xml::String(s(t)));
        assert_eq!(d.read_f64(), Ok(s(t)));
        assert!(t.parse::<f64>().is_ok());
    }
    let mut d = Decoder::new(Xml::String(s("infinit")));
    assert_eq!(d.read_f64(), Err(DecoderError::ExpectedError(s("Number"), s("infinit"))));
}

#[test]
fn non_finite_doubles_parse() {
    for t in ["inf", "-Infinity", "NaN", "+nan"] {
        let x = parse(&format!("<double>{}</double>", t));
        assert_eq!(x.as_f64(), Some(s(t)));
    }
    assert_eq!(
        Xml::from_str("<double>infinit</double>").err(),
        Some(ParserError::SyntaxError(ErrorCode::InvalidSyntax))
    );
}

#[test]
fn more_native_values_to_xml() {
    assert_eq!((-3i8).to_xml().as_i32(), Some(-3));
    assert_eq!(300i16.to_xml().as_i32(), Some(300));
    assert_eq!(255u8.to_xml().as_i32(), Some(255));
    assert_eq!(65535u16.to_xml().as_i32(), Some(65535));
    assert_eq!((-9isize).to_xml().as_i32(), Some(-9));
    assert_eq!("a<b".to_xml().as_string(), Some("a<b"));
    assert_eq!(encode(&(1i32, true, s("x")).to_xml()).unwrap(),
        "<array><data><value><int>1</int></value><value><boolean>1</boolean></value><value><string>x</string></value></data></array>");
    assert_eq!((1i32, 2i32, 3i32, 4i32).to_xml().as_array().unwrap().len(), 4);
}
