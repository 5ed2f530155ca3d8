//! The round trip: the tokens of an encoded value build that value again.
use vstd::prelude::*;
use crate::builder::{insert_member, parse_document, parse_elements, parse_events, parse_members, parse_name, parse_value};
use crate::encoder::encodable;
use crate::token::{tag_of, text_token, tokens_from, tokenize_spec, Event, Tag, Tok};
use crate::text::{int_text, lemma_int_text_round_trip};
use crate::encoder::bool_text;
use crate::value::{keys_unique, lemma_key_index_bound, well_formed, Value};

verus! {

pub open spec fn st(g: Tag) -> Option<Tok> {
    Some(Tok::Start(g))
}

pub open spec fn en(g: Tag) -> Option<Tok> {
    Some(Tok::End(g))
}

/// The tokens of character data: none for empty text.
pub open spec fn text_toks(t: Option<Tok>, s: Seq<char>) -> Seq<Option<Tok>> {
    if s.len() == 0 {
        Seq::empty()
    } else {
        seq![t]
    }
}

/// The token stream that the wire text of a value stands for.
pub open spec fn value_toks(v: Value) -> Seq<Option<Tok>>
    decreases v,
{
    match v {
        Value::Null => seq![st(Tag::Nil), en(Tag::Nil)],
        Value::Boolean(b) => seq![st(Tag::Boolean), Some(Tok::Bool(b)), en(Tag::Boolean)],
        Value::Int(n) => seq![st(Tag::Int), Some(Tok::Int(n)), en(Tag::Int)],
        Value::Double(t) => seq![st(Tag::Double), Some(Tok::Double(t)), en(Tag::Double)],
        Value::Str(s) => seq![st(Tag::String)] + text_toks(Some(Tok::Str(s)), s) + seq![en(Tag::String)],
        Value::Array(a) => seq![st(Tag::Array), st(Tag::Data)] + elements_toks(a, 0) + seq![en(Tag::Data), en(Tag::Array)],
        Value::Struct(m) => seq![st(Tag::Struct)] + members_toks(m, 0) + seq![en(Tag::Struct)],
        _ => Seq::empty(),
    }
}

/// The tokens of the elements `a[i..]`.
pub open spec fn elements_toks(a: Seq<Value>, i: int) -> Seq<Option<Tok>>
    decreases a, a.len() - i,
{
    if i < 0 || i >= a.len() {
        Seq::empty()
    } else {
        seq![st(Tag::Value)] + value_toks(a[i]) + seq![en(Tag::Value)] + elements_toks(a, i + 1)
    }
}

/// The tokens of the members `m[i..]`.
pub open spec fn members_toks(m: Seq<(Seq<char>, Value)>, i: int) -> Seq<Option<Tok>>
    decreases m, m.len() - i,
{
    if i < 0 || i >= m.len() {
        Seq::empty()
    } else {
        seq![st(Tag::Member), st(Tag::Name)] + text_toks(Some(Tok::Name(m[i].0)), m[i].0) + seq![en(Tag::Name), st(Tag::Value)]
            + value_toks(m[i].1) + seq![en(Tag::Value), en(Tag::Member)] + members_toks(m, i + 1)
    }
}

/// `ts` holds `part` from position `p` on.
pub open spec fn holds_at<A>(ts: Seq<A>, p: int, part: Seq<A>) -> bool {
    0 <= p && p + part.len() <= ts.len() && ts.subrange(p, p + part.len()) == part
}

proof fn lemma_holds_index<A>(ts: Seq<A>, p: int, part: Seq<A>, j: int)
    requires
        holds_at(ts, p, part),
        0 <= j < part.len(),
    ensures
        ts[p + j] == part[j],
{
    assert(ts.subrange(p, p + part.len())[j] == ts[p + j]);
}

proof fn lemma_holds_split<A>(ts: Seq<A>, p: int, a: Seq<A>, b: Seq<A>)
    requires
        holds_at(ts, p, a + b),
    ensures
        holds_at(ts, p, a),
        holds_at(ts, p + a.len(), b),
{
    assert forall|j: int| 0 <= j < (a + b).len() implies ts[p + j] == (a + b)[j] by {
        lemma_holds_index(ts, p, a + b, j);
    }
    assert(ts.subrange(p, p + a.len()) =~= a);
    assert forall|j: int| 0 <= j < b.len() implies ts.subrange(p + a.len(), p + a.len() + b.len())[j] == b[j] by {
        assert(ts[p + a.len() + j] == (a + b)[a.len() + j]);
    }
    assert(ts.subrange(p + a.len(), p + a.len() + b.len()) =~= b);
}

proof fn lemma_insert_new(acc: Seq<(Seq<char>, Value)>, k: Seq<char>, v: Value)
    requires
        forall|j: int| 0 <= j < acc.len() ==> (#[trigger] acc[j]).0 != k,
    ensures
        insert_member(acc, k, v) == acc.push((k, v)),
{
    lemma_key_index_bound(acc, k);
}

/// Every struct key in the tree holds text. (An empty key is written as an
/// empty `name` element, which gives no name token, so it does not read
/// back.)
pub open spec fn keys_named(v: Value) -> bool
    decreases v,
{
    match v {
        Value::Array(a) => forall|i: int| 0 <= i < a.len() ==> keys_named(#[trigger] a[i]),
        Value::Struct(m) => forall|i: int|
            0 <= i < m.len() ==> (#[trigger] m[i]).0.len() > 0 && keys_named(m[i].1),
        _ => true,
    }
}

/// The builder reads the tokens of a value back as that value, ending on
/// its last token.
pub proof fn lemma_parse_value_toks(ts: Seq<Option<Tok>>, p: int, v: Value)
    requires
        well_formed(v),
        encodable(v),
        keys_named(v),
        holds_at(ts, p, value_toks(v)),
    ensures
        value_toks(v).len() >= 2,
        parse_value(ts, p) == (Ok::<Value, crate::token::Fault>(v), p + value_toks(v).len() - 1),
    decreases v, 2int,
{
    let vt = value_toks(v);
    lemma_holds_index(ts, p, vt, 0);
    lemma_holds_index(ts, p, vt, 1);
    match v {
        Value::Null => {},
        Value::Boolean(_) | Value::Int(_) | Value::Double(_) => {
            lemma_holds_index(ts, p, vt, 2);
        },
        Value::Str(s) => {
            if s.len() > 0 {
                lemma_holds_index(ts, p, vt, 2);
            } else {
                assert(s =~= Seq::<char>::empty());
            }
        },
        Value::Array(a) => {
            let rest = elements_toks(a, 0) + seq![en(Tag::Data), en(Tag::Array)];
            assert(vt =~= seq![st(Tag::Array), st(Tag::Data)] + rest);
            lemma_holds_split(ts, p, seq![st(Tag::Array), st(Tag::Data)], rest);
            assert(parse_elements(ts, p + 1, Seq::empty()) == parse_elements(ts, p + 2, Seq::empty()));
            lemma_parse_elements_toks(ts, p + 2, a, 0, Seq::empty());
            assert(Seq::<Value>::empty() + a.subrange(0, a.len() as int) =~= a);
        },
        Value::Struct(m) => {
            let rest = members_toks(m, 0) + seq![en(Tag::Struct)];
            assert(vt =~= seq![st(Tag::Struct)] + rest);
            lemma_holds_split(ts, p, seq![st(Tag::Struct)], rest);
            assert(m.subrange(0, 0) =~= Seq::<(Seq<char>, Value)>::empty());
            lemma_parse_members_toks(ts, p + 1, m, 0);
        },
        _ => {},
    }
}

proof fn lemma_parse_elements_toks(ts: Seq<Option<Tok>>, q: int, a: Seq<Value>, i: int, acc: Seq<Value>)
    requires
        0 <= i <= a.len(),
        forall|j: int| 0 <= j < a.len() ==> well_formed(#[trigger] a[j]) && encodable(a[j]) && keys_named(a[j]),
        holds_at(ts, q, elements_toks(a, i) + seq![en(Tag::Data), en(Tag::Array)]),
    ensures
        parse_elements(ts, q, acc) == (
            Ok::<Value, crate::token::Fault>(Value::Array(acc + a.subrange(i, a.len() as int))),
            q + elements_toks(a, i).len() + 1,
        ),
    decreases a, a.len() - i, 1int,
{
    let et = elements_toks(a, i);
    let part = et + seq![en(Tag::Data), en(Tag::Array)];
    if i == a.len() {
        assert(et =~= Seq::<Option<Tok>>::empty());
        lemma_holds_index(ts, q, part, 0);
        lemma_holds_index(ts, q, part, 1);
        assert(a.subrange(i, a.len() as int) =~= Seq::<Value>::empty());
        assert(acc + Seq::<Value>::empty() =~= acc);
        assert(parse_elements(ts, q + 1, acc) == (Ok::<Value, crate::token::Fault>(Value::Array(acc)), q + 1));
    } else {
        let vt = value_toks(a[i]);
        let tail = seq![en(Tag::Value)] + elements_toks(a, i + 1) + seq![en(Tag::Data), en(Tag::Array)];
        assert(part =~= seq![st(Tag::Value)] + (vt + tail));
        lemma_holds_split(ts, q, seq![st(Tag::Value)], vt + tail);
        lemma_holds_split(ts, q + 1, vt, tail);
        lemma_holds_index(ts, q, part, 0);
        lemma_parse_value_toks(ts, q + 1, a[i]);
        let r = q + vt.len();
        lemma_holds_index(ts, q + 1 + vt.len(), tail, 0);
        assert(tail =~= seq![en(Tag::Value)] + (elements_toks(a, i + 1) + seq![en(Tag::Data), en(Tag::Array)]));
        lemma_holds_split(ts, q + 1 + vt.len(), seq![en(Tag::Value)], elements_toks(a, i + 1) + seq![en(Tag::Data), en(Tag::Array)]);
        lemma_parse_elements_toks(ts, r + 2, a, i + 1, acc.push(a[i]));
        assert(acc.push(a[i]) + a.subrange(i + 1, a.len() as int) =~= acc + a.subrange(i, a.len() as int));
    }
}

proof fn lemma_parse_members_toks(ts: Seq<Option<Tok>>, q: int, m: Seq<(Seq<char>, Value)>, i: int)
    requires
        0 <= i <= m.len(),
        keys_unique(m),
        forall|j: int| 0 <= j < m.len() ==> (#[trigger] m[j]).0.len() > 0 && well_formed(m[j].1) && encodable(m[j].1)
            && keys_named(m[j].1),
        holds_at(ts, q, members_toks(m, i) + seq![en(Tag::Struct)]),
    ensures
        parse_members(ts, q, m.subrange(0, i)) == (
            Ok::<Value, crate::token::Fault>(Value::Struct(m)),
            q + members_toks(m, i).len(),
        ),
    decreases m, m.len() - i, 1int,
{
    let mt = members_toks(m, i);
    let part = mt + seq![en(Tag::Struct)];
    let acc = m.subrange(0, i);
    if i == m.len() {
        assert(mt =~= Seq::<Option<Tok>>::empty());
        lemma_holds_index(ts, q, part, 0);
        assert(acc =~= m);
    } else {
        let k = m[i].0;
        let v = m[i].1;
        let nt = text_toks(Some(Tok::Name(k)), k);
        let vt = value_toks(v);
        let head = seq![st(Tag::Member), st(Tag::Name)] + nt + seq![en(Tag::Name), st(Tag::Value)];
        let tail = seq![en(Tag::Value), en(Tag::Member)] + members_toks(m, i + 1) + seq![en(Tag::Struct)];
        assert(part =~= head + (vt + tail));
        lemma_holds_split(ts, q, head, vt + tail);
        lemma_holds_split(ts, q + head.len(), vt, tail);
        lemma_holds_index(ts, q, head, 0);
        lemma_holds_index(ts, q, head, 1);
        lemma_holds_index(ts, q, head, 2);
        lemma_holds_index(ts, q, head, 3);
        assert(m[i].0.len() > 0);
        let e = q + 3;
        lemma_holds_index(ts, q, head, 4);
        assert(parse_name(ts, q + 2) == Ok::<(Seq<char>, int), crate::token::Fault>((k, q + 3)));
        assert(head.len() == e - q + 2);
        lemma_parse_value_toks(ts, e + 2, v);
        let r = e + 1 + vt.len();
        lemma_holds_index(ts, e + 2 + vt.len(), tail, 0);
        lemma_holds_index(ts, e + 2 + vt.len(), tail, 1);
        assert(tail =~= seq![en(Tag::Value), en(Tag::Member)] + (members_toks(m, i + 1) + seq![en(Tag::Struct)]));
        lemma_holds_split(ts, e + 2 + vt.len(), seq![en(Tag::Value), en(Tag::Member)], members_toks(m, i + 1) + seq![en(Tag::Struct)]);
        assert forall|j: int| 0 <= j < acc.len() implies (#[trigger] acc[j]).0 != k by {
            assert(acc[j] == m[j]);
        }
        lemma_insert_new(acc, k, v);
        assert(acc.push((k, v)) =~= m.subrange(0, i + 1));
        lemma_parse_members_toks(ts, r + 3, m, i + 1);
    }
}

/// Building the token stream of an encoded value gives the value back.
pub proof fn lemma_build_round_trip(v: Value)
    requires
        well_formed(v),
        encodable(v),
        keys_named(v),
    ensures
        parse_document(value_toks(v)) == Ok::<Value, crate::token::Fault>(v),
{
    assert(value_toks(v).subrange(0, value_toks(v).len() as int) =~= value_toks(v));
    lemma_parse_value_toks(value_toks(v), 0, v);
}

proof fn lemma_tag_names()
    ensures
        tag_of("struct"@) == Some(Tag::Struct),
        tag_of("member"@) == Some(Tag::Member),
        tag_of("name"@) == Some(Tag::Name),
        tag_of("value"@) == Some(Tag::Value),
        tag_of("array"@) == Some(Tag::Array),
        tag_of("data"@) == Some(Tag::Data),
        tag_of("boolean"@) == Some(Tag::Boolean),
        tag_of("int"@) == Some(Tag::Int),
        tag_of("double"@) == Some(Tag::Double),
        tag_of("string"@) == Some(Tag::String),
        tag_of("nil"@) == Some(Tag::Nil),
{
    reveal_strlit("struct");
    reveal_strlit("member");
    reveal_strlit("name");
    reveal_strlit("value");
    reveal_strlit("array");
    reveal_strlit("data");
    reveal_strlit("boolean");
    reveal_strlit("int");
    reveal_strlit("i4");
    reveal_strlit("double");
    reveal_strlit("string");
    reveal_strlit("nil");
    reveal_strlit("base64");
    reveal_strlit("dateTime.iso8601");
    reveal_strlit("params");
    reveal_strlit("param");
    assert("member"@[0] != "struct"@[0]);
    assert("name"@.len() != "struct"@.len());
    assert("name"@.len() != "member"@.len());
    assert("value"@.len() != "struct"@.len());
    assert("value"@.len() != "member"@.len());
    assert("value"@.len() != "name"@.len());
    assert("array"@.len() != "struct"@.len());
    assert("array"@.len() != "member"@.len());
    assert("array"@.len() != "name"@.len());
    assert("array"@[0] != "value"@[0]);
    assert("data"@.len() != "struct"@.len());
    assert("data"@.len() != "member"@.len());
    assert("data"@[0] != "name"@[0]);
    assert("data"@.len() != "value"@.len());
    assert("data"@.len() != "array"@.len());
    assert("boolean"@.len() != "struct"@.len());
    assert("boolean"@.len() != "member"@.len());
    assert("boolean"@.len() != "name"@.len());
    assert("boolean"@.len() != "value"@.len());
    assert("boolean"@.len() != "array"@.len());
    assert("boolean"@.len() != "data"@.len());
    assert("int"@.len() != "struct"@.len());
    assert("int"@.len() != "member"@.len());
    assert("int"@.len() != "name"@.len());
    assert("int"@.len() != "value"@.len());
    assert("int"@.len() != "array"@.len());
    assert("int"@.len() != "data"@.len());
    assert("int"@.len() != "boolean"@.len());
    assert("double"@[0] != "struct"@[0]);
    assert("double"@[0] != "member"@[0]);
    assert("double"@.len() != "name"@.len());
    assert("double"@.len() != "value"@.len());
    assert("double"@.len() != "array"@.len());
    assert("double"@.len() != "data"@.len());
    assert("double"@.len() != "boolean"@.len());
    assert("double"@.len() != "int"@.len());
    assert("double"@.len() != "i4"@.len());
    assert("string"@[3] != "struct"@[3]);
    assert("string"@[0] != "member"@[0]);
    assert("string"@.len() != "name"@.len());
    assert("string"@.len() != "value"@.len());
    assert("string"@.len() != "array"@.len());
    assert("string"@.len() != "data"@.len());
    assert("string"@.len() != "boolean"@.len());
    assert("string"@.len() != "int"@.len());
    assert("string"@.len() != "i4"@.len());
    assert("string"@[0] != "double"@[0]);
    assert("nil"@.len() != "struct"@.len());
    assert("nil"@.len() != "member"@.len());
    assert("nil"@.len() != "name"@.len());
    assert("nil"@.len() != "value"@.len());
    assert("nil"@.len() != "array"@.len());
    assert("nil"@.len() != "data"@.len());
    assert("nil"@.len() != "boolean"@.len());
    assert("nil"@[0] != "int"@[0]);
    assert("nil"@.len() != "i4"@.len());
    assert("nil"@.len() != "double"@.len());
    assert("nil"@.len() != "string"@.len());
}

proof fn lemma_scalar_texts(b: bool, n: i32)
    ensures
        text_token(bool_text(b), Some(Tag::Boolean)) == Some(Tok::Bool(b)),
        text_token(int_text(n as int), Some(Tag::Int)) == Some(Tok::Int(n)),
{
    reveal_strlit("0");
    reveal_strlit("1");
    lemma_int_text_round_trip(n as int);
}

/// The events of character data: none for empty text.
pub open spec fn text_events(s: Seq<char>) -> Seq<Event> {
    if s.len() == 0 {
        Seq::empty()
    } else {
        seq![Event::Text(s)]
    }
}

/// The tokenizer events that the wire text of a value stands for.
pub open spec fn value_events(v: Value) -> Seq<Event>
    decreases v,
{
    match v {
        Value::Null => seq![Event::Open("nil"@), Event::Close("nil"@)],
        Value::Boolean(b) => seq![Event::Open("boolean"@), Event::Text(bool_text(b)), Event::Close("boolean"@)],
        Value::Int(n) => seq![Event::Open("int"@), Event::Text(int_text(n as int)), Event::Close("int"@)],
        Value::Double(t) => seq![Event::Open("double"@), Event::Text(t), Event::Close("double"@)],
        Value::Str(s) => seq![Event::Open("string"@)] + text_events(s) + seq![Event::Close("string"@)],
        Value::Array(a) => seq![Event::Open("array"@), Event::Open("data"@)] + elements_events(a, 0) + seq![
            Event::Close("data"@),
            Event::Close("array"@),
        ],
        Value::Struct(m) => seq![Event::Open("struct"@)] + members_events(m, 0) + seq![Event::Close("struct"@)],
        _ => Seq::empty(),
    }
}

/// The events of the elements `a[i..]`.
pub open spec fn elements_events(a: Seq<Value>, i: int) -> Seq<Event>
    decreases a, a.len() - i,
{
    if i < 0 || i >= a.len() {
        Seq::empty()
    } else {
        seq![Event::Open("value"@)] + value_events(a[i]) + seq![Event::Close("value"@)] + elements_events(a, i + 1)
    }
}

/// The events of the members `m[i..]`.
pub open spec fn members_events(m: Seq<(Seq<char>, Value)>, i: int) -> Seq<Event>
    decreases m, m.len() - i,
{
    if i < 0 || i >= m.len() {
        Seq::empty()
    } else {
        seq![Event::Open("member"@), Event::Open("name"@)] + text_events(m[i].0) + seq![
            Event::Close("name"@),
            Event::Open("value"@),
        ] + value_events(m[i].1) + seq![Event::Close("value"@), Event::Close("member"@)] + members_events(m, i + 1)
    }
}

/// The events of a document holding the value alone.
pub open spec fn document_events(v: Value) -> Seq<Event> {
    seq![Event::DocStart] + value_events(v) + seq![Event::DocEnd]
}

/// The tokenizer events of a value give its tokens, whatever came before,
/// and leave no element open for character data.
proof fn lemma_value_events_toks(es: Seq<Event>, i: int, v: Value, open: Option<Tag>)
    requires
        well_formed(v),
        encodable(v),
        holds_at(es, i, value_events(v)),
    ensures
        tokens_from(es, i, open) == value_toks(v) + tokens_from(es, i + value_events(v).len(), None),
    decreases v, 2int,
{
    lemma_tag_names();
    let ve = value_events(v);
    let n = ve.len() as int;
    lemma_holds_index(es, i, ve, 0);
    lemma_holds_index(es, i, ve, 1);
    let rest = tokens_from(es, i + n, None);
    match v {
        Value::Null => {
            assert(tokens_from(es, i + 1, Some(Tag::Nil)) == seq![en(Tag::Nil)] + rest);
            assert(tokens_from(es, i, open) =~= value_toks(v) + rest);
        },
        Value::Boolean(b) => {
            lemma_scalar_texts(b, 0);
            lemma_holds_index(es, i, ve, 2);
            assert(tokens_from(es, i + 2, None) == seq![en(Tag::Boolean)] + rest);
            assert(tokens_from(es, i + 1, Some(Tag::Boolean)) == seq![Some(Tok::Bool(b))] + tokens_from(es, i + 2, None));
            assert(tokens_from(es, i, open) =~= value_toks(v) + rest);
        },
        Value::Int(k) => {
            lemma_scalar_texts(true, k);
            lemma_holds_index(es, i, ve, 2);
            assert(tokens_from(es, i + 2, None) == seq![en(Tag::Int)] + rest);
            assert(tokens_from(es, i + 1, Some(Tag::Int)) == seq![Some(Tok::Int(k))] + tokens_from(es, i + 2, None));
            assert(tokens_from(es, i, open) =~= value_toks(v) + rest);
        },
        Value::Double(t) => {
            lemma_holds_index(es, i, ve, 2);
            assert(tokens_from(es, i + 2, None) == seq![en(Tag::Double)] + rest);
            assert(tokens_from(es, i + 1, Some(Tag::Double)) == seq![Some(Tok::Double(t))] + tokens_from(es, i + 2, None));
            assert(tokens_from(es, i, open) =~= value_toks(v) + rest);
        },
        Value::Str(t) => {
            if t.len() > 0 {
                lemma_holds_index(es, i, ve, 2);
                assert(tokens_from(es, i + 2, None) == seq![en(Tag::String)] + rest);
                assert(tokens_from(es, i + 1, Some(Tag::String)) == seq![Some(Tok::Str(t))] + tokens_from(es, i + 2, None));
            } else {
                assert(tokens_from(es, i + 1, Some(Tag::String)) == seq![en(Tag::String)] + rest);
            }
            assert(tokens_from(es, i, open) =~= value_toks(v) + rest);
        },
        Value::Array(a) => {
            let ee = elements_events(a, 0);
            let tail = seq![Event::Close("data"@), Event::Close("array"@)];
            assert(ve =~= seq![Event::Open("array"@), Event::Open("data"@)] + (ee + tail));
            lemma_holds_split(es, i, seq![Event::Open("array"@), Event::Open("data"@)], ee + tail);
            lemma_holds_split(es, i + 2, ee, tail);
            lemma_elements_events_toks(es, i + 2, a, 0, Some(Tag::Data));
            let j = i + 2 + ee.len();
            lemma_holds_index(es, j, tail, 0);
            lemma_holds_index(es, j, tail, 1);
            let c = if 0 < a.len() {
                None
            } else {
                Some(Tag::Data)
            };
            assert(tokens_from(es, j + 1, None) == seq![en(Tag::Array)] + rest);
            assert(tokens_from(es, j, c) == seq![en(Tag::Data)] + tokens_from(es, j + 1, None));
            assert(tokens_from(es, i + 1, Some(Tag::Array)) == seq![st(Tag::Data)] + tokens_from(es, i + 2, Some(Tag::Data)));
            assert(tokens_from(es, i, open) =~= value_toks(v) + rest);
        },
        Value::Struct(m) => {
            let me = members_events(m, 0);
            let tail = seq![Event::Close("struct"@)];
            assert(ve =~= seq![Event::Open("struct"@)] + (me + tail));
            lemma_holds_split(es, i, seq![Event::Open("struct"@)], me + tail);
            lemma_holds_split(es, i + 1, me, tail);
            lemma_members_events_toks(es, i + 1, m, 0, Some(Tag::Struct));
            let j = i + 1 + me.len();
            lemma_holds_index(es, j, tail, 0);
            let c = if 0 < m.len() {
                None
            } else {
                Some(Tag::Struct)
            };
            assert(tokens_from(es, j, c) == seq![en(Tag::Struct)] + rest);
            assert(tokens_from(es, i, open) =~= value_toks(v) + rest);
        },
        _ => {},
    }
}

proof fn lemma_elements_events_toks(es: Seq<Event>, j: int, a: Seq<Value>, k: int, open: Option<Tag>)
    requires
        0 <= k <= a.len(),
        forall|x: int| 0 <= x < a.len() ==> well_formed(#[trigger] a[x]) && encodable(a[x]),
        holds_at(es, j, elements_events(a, k)),
    ensures
        tokens_from(es, j, open) == elements_toks(a, k) + tokens_from(
            es,
            j + elements_events(a, k).len(),
            if k < a.len() {
                None
            } else {
                open
            },
        ),
    decreases a, a.len() - k, 1int,
{
    lemma_tag_names();
    if k == a.len() {
        assert(elements_toks(a, k) =~= Seq::<Option<Tok>>::empty());
        assert(elements_events(a, k).len() == 0);
    } else {
        let ve = value_events(a[k]);
        let ee = elements_events(a, k);
        let after = elements_events(a, k + 1);
        assert(ee =~= seq![Event::Open("value"@)] + (ve + (seq![Event::Close("value"@)] + after)));
        lemma_holds_split(es, j, seq![Event::Open("value"@)], ve + (seq![Event::Close("value"@)] + after));
        lemma_holds_split(es, j + 1, ve, seq![Event::Close("value"@)] + after);
        lemma_holds_split(es, j + 1 + ve.len(), seq![Event::Close("value"@)], after);
        lemma_holds_index(es, j, seq![Event::Open("value"@)], 0);
        lemma_holds_index(es, j + 1 + ve.len(), seq![Event::Close("value"@)], 0);
        lemma_value_events_toks(es, j + 1, a[k], Some(Tag::Value));
        let j2 = j + 2 + ve.len();
        lemma_elements_events_toks(es, j2, a, k + 1, None);
        assert(tokens_from(es, j2 - 1, None) == seq![en(Tag::Value)] + tokens_from(es, j2, None));
        let fin = tokens_from(es, j + ee.len(), None);
        assert(tokens_from(es, j2, None) == elements_toks(a, k + 1) + fin);
        assert(tokens_from(es, j, open) =~= elements_toks(a, k) + fin);
    }
}

#[verifier::rlimit(40)]
proof fn lemma_members_events_toks(es: Seq<Event>, j: int, m: Seq<(Seq<char>, Value)>, k: int, open: Option<Tag>)
    requires
        0 <= k <= m.len(),
        forall|x: int| 0 <= x < m.len() ==> well_formed(#[trigger] m[x].1) && encodable(m[x].1),
        holds_at(es, j, members_events(m, k)),
    ensures
        tokens_from(es, j, open) == members_toks(m, k) + tokens_from(
            es,
            j + members_events(m, k).len(),
            if k < m.len() {
                None
            } else {
                open
            },
        ),
    decreases m, m.len() - k, 1int,
{
    lemma_tag_names();
    if k == m.len() {
        assert(members_toks(m, k) =~= Seq::<Option<Tok>>::empty());
        assert(members_events(m, k).len() == 0);
    } else {
        let name = m[k].0;
        let te = text_events(name);
        let t = te.len() as int;
        let ve = value_events(m[k].1);
        let me = members_events(m, k);
        let after = members_events(m, k + 1);
        let head = seq![Event::Open("member"@), Event::Open("name"@)] + te + seq![Event::Close("name"@), Event::Open("value"@)];
        let tail = seq![Event::Close("value"@), Event::Close("member"@)];
        assert(me =~= head + (ve + (tail + after)));
        lemma_holds_split(es, j, head, ve + (tail + after));
        lemma_holds_split(es, j + head.len(), ve, tail + after);
        lemma_holds_split(es, j + head.len() + ve.len(), tail, after);
        lemma_holds_index(es, j, head, 0);
        lemma_holds_index(es, j, head, 1);
        lemma_holds_index(es, j, head, 2);
        lemma_holds_index(es, j, head, 3);
        if t > 0 {
            lemma_holds_index(es, j, head, 4);
        }
        let jv = j + 4 + t;
        lemma_value_events_toks(es, jv, m[k].1, Some(Tag::Value));
        let jc = jv + ve.len();
        lemma_holds_index(es, jc, tail, 0);
        lemma_holds_index(es, jc, tail, 1);
        lemma_members_events_toks(es, jc + 2, m, k + 1, None);
        let fin = tokens_from(es, j + me.len(), None);
        let x = members_toks(m, k + 1) + fin;
        assert(tokens_from(es, jc + 2, None) == x);
        let nt = text_toks(Some(Tok::Name(name)), name);
        let vt = value_toks(m[k].1);
        assert(tokens_from(es, jc + 1, None) == seq![en(Tag::Member)] + x);
        let y = seq![en(Tag::Value)] + (seq![en(Tag::Member)] + x);
        assert(tokens_from(es, jc, None) == y);
        let z = seq![st(Tag::Value)] + (vt + y);
        assert(tokens_from(es, jv, Some(Tag::Value)) == vt + y);
        assert(tokens_from(es, jv - 1, None) == z);
        if t > 0 {
            assert(tokens_from(es, j + 3, None) == seq![en(Tag::Name)] + z);
            assert(tokens_from(es, j + 2, Some(Tag::Name)) == nt + (seq![en(Tag::Name)] + z));
        } else {
            assert(tokens_from(es, j + 2, Some(Tag::Name)) == seq![en(Tag::Name)] + z);
            assert(nt =~= Seq::<Option<Tok>>::empty());
            assert(seq![en(Tag::Name)] + z =~= nt + (seq![en(Tag::Name)] + z));
        }
        assert(tokens_from(es, j + 1, Some(Tag::Member)) == seq![st(Tag::Name)] + tokens_from(es, j + 2, Some(Tag::Name)));
        assert(tokens_from(es, j, open) == seq![st(Tag::Member)] + tokens_from(es, j + 1, Some(Tag::Member)));
        let w = seq![st(Tag::Member)] + (seq![st(Tag::Name)] + (nt + (seq![en(Tag::Name)] + z)));
        assert(tokens_from(es, j, open) == w);
        assert(members_toks(m, k) + fin =~= w);
    }
}

/// Encoding a value and parsing it back gives the value: the events of a
/// document holding `v` (one element event for each tag that `wire(v)`
/// writes, one character event for each non-empty text, unescaped) build
/// exactly `v`. This covers every well-formed tree: scalars bit for bit,
/// strings with markup characters, arrays in order, structs member by
/// member in order. That the XML tokenizer gives these events for the text
/// `wire(v)` is its own business and is not stated here.
pub proof fn lemma_round_trip(v: Value)
    requires
        well_formed(v),
        encodable(v),
        keys_named(v),
    ensures
        parse_events(document_events(v)) == Ok::<Value, crate::token::Fault>(v),
{
    let es = document_events(v);
    let ve = value_events(v);
    assert(es =~= seq![Event::DocStart] + (ve + seq![Event::DocEnd]));
    assert(es.subrange(0, es.len() as int) =~= es);
    lemma_holds_split(es, 0, seq![Event::DocStart], ve + seq![Event::DocEnd]);
    lemma_holds_split(es, 1, ve, seq![Event::DocEnd]);
    lemma_holds_index(es, 1 + ve.len() as int, seq![Event::DocEnd], 0);
    lemma_holds_index(es, 0, seq![Event::DocStart], 0);
    lemma_value_events_toks(es, 1, v, None);
    assert(tokens_from(es, 1 + ve.len() as int, None) =~= Seq::<Option<Tok>>::empty());
    assert(tokenize_spec(es) == tokens_from(es, 1, None));
    assert(tokenize_spec(es) =~= value_toks(v));
    lemma_build_round_trip(v);
}

} // verus!
