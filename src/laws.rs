//! Properties that relate several operations of the codec.
use vstd::prelude::*;
use crate::decoder::{field_read, map_frames, reversed};
use crate::builder::{insert_member, measure, parse_document, parse_elements, parse_members, parse_name, parse_scalar, parse_value};
use crate::error::DecoderError;
use crate::text::float_text;
use crate::token::{opened, text_token, tokens_from, Event, Fault, Tag, Tok};
use crate::value::{key_index, keys_unique, lemma_key_index_bound, lookup, well_formed, Value};

verus! {

/// In a struct with unique keys, the member named `k` is the one at its
/// position.
proof fn lemma_key_index_unique(m: Seq<(Seq<char>, Value)>, i: int)
    requires
        keys_unique(m),
        0 <= i < m.len(),
    ensures
        key_index(m, m[i].0) == i,
{
    lemma_key_index_bound(m, m[i].0);
    let j = key_index(m, m[i].0);
    if j < i {
        assert(m[j].0 == m[i].0);
    }
}

/// Members are found by name, whatever their order: two structs with
/// unique keys that hold the same members give the same value for every
/// name.
pub proof fn lemma_lookup_order_independent(
    m1: Seq<(Seq<char>, Value)>,
    m2: Seq<(Seq<char>, Value)>,
    k: Seq<char>,
)
    requires
        keys_unique(m1),
        keys_unique(m2),
        forall|i: int| 0 <= i < m1.len() ==> m2.contains(#[trigger] m1[i]),
        forall|i: int| 0 <= i < m2.len() ==> m1.contains(#[trigger] m2[i]),
    ensures
        lookup(m1, k) == lookup(m2, k),
{
    lemma_key_index_bound(m1, k);
    lemma_key_index_bound(m2, k);
    let i1 = key_index(m1, k);
    let i2 = key_index(m2, k);
    if i1 < m1.len() {
        assert(m2.contains(m1[i1]));
        let j = choose|j: int| 0 <= j < m2.len() && m2[j] == m1[i1];
        lemma_key_index_unique(m2, j);
    } else if i2 < m2.len() {
        assert(m1.contains(m2[i2]));
        let j = choose|j: int| 0 <= j < m1.len() && m1[j] == m2[i2];
        assert(m1[j].0 == k);
        lemma_key_index_unique(m1, j);
    }
}

/// Decoding a field does not depend on the order of the struct's members:
/// reading member `name` from two structs with unique keys that hold the
/// same members succeeds alike and puts the same value on top.
pub proof fn lemma_field_read_order_independent(
    st1: Seq<Value>,
    st2: Seq<Value>,
    m1: Seq<(Seq<char>, Value)>,
    m2: Seq<(Seq<char>, Value)>,
    name: Seq<char>,
    r1: Result<bool, DecoderError>,
    r2: Result<bool, DecoderError>,
    after1: Seq<Value>,
    after2: Seq<Value>,
)
    requires
        keys_unique(m1),
        keys_unique(m2),
        forall|i: int| 0 <= i < m1.len() ==> m2.contains(#[trigger] m1[i]),
        forall|i: int| 0 <= i < m2.len() ==> m1.contains(#[trigger] m2[i]),
        st1.len() > 0 && st1.last() == Value::Struct(m1),
        st2.len() > 0 && st2.last() == Value::Struct(m2),
        field_read(st1, m1, name, r1, after1),
        field_read(st2, m2, name, r2, after2),
    ensures
        r1 == r2,
        after1.last() == after2.last(),
{
    lemma_lookup_order_independent(m1, m2, name);
    lemma_key_index_bound(m1, name);
    lemma_key_index_bound(m2, name);
}

/// An absent optional field decodes as absent: reading a member that the
/// struct lacks reports it absent and leaves a null on top, which an
/// optional read then takes as "no value".
pub proof fn lemma_absent_field_reads_as_null(
    st: Seq<Value>,
    m: Seq<(Seq<char>, Value)>,
    name: Seq<char>,
    r: Result<bool, DecoderError>,
    after: Seq<Value>,
)
    requires
        forall|i: int| 0 <= i < m.len() ==> (#[trigger] m[i]).0 != name,
        st.len() > 0 && st.last() == Value::Struct(m),
        field_read(st, m, name, r, after),
    ensures
        r == Ok::<bool, DecoderError>(false),
        after.len() > 0,
        after.last() is Null,
        after.drop_last().last() == Value::Struct(m),
{
    lemma_key_index_bound(m, name);
}

/// Array order is kept through decoding: after an array read, the `k`-th
/// value taken from the stack is element `k` of the array.
pub proof fn lemma_seq_read_order(rest: Seq<Value>, a: Seq<Value>, k: int)
    requires
        0 <= k < a.len(),
    ensures
        (rest + reversed(a))[rest.len() + a.len() - 1 - k] == a[k],
{
}

/// Map entries come off the stack in the struct's order, each key (as a
/// string) before its value.
pub proof fn lemma_map_read_order(rest: Seq<Value>, m: Seq<(Seq<char>, Value)>, k: int)
    requires
        0 <= k < m.len(),
    ensures
        (rest + map_frames(m))[rest.len() + 2 * m.len() - 1 - 2 * k] == Value::Str(m[k].0),
        (rest + map_frames(m))[rest.len() + 2 * m.len() - 2 - 2 * k] == m[k].1,
{
    let n = m.len() as int;
    assert((2 * n - 1 - 2 * k) / 2 == n - 1 - k);
    assert((2 * n - 2 - 2 * k) / 2 == n - 1 - k);
    assert((2 * n - 1 - 2 * k) % 2 == 1);
    assert((2 * n - 2 - 2 * k) % 2 == 0);
}

/// A double token holds the text of a double.
pub open spec fn float_if_double(t: Option<Tok>) -> bool {
    match t {
        Some(Tok::Double(d)) => float_text(d),
        _ => true,
    }
}

/// Every double token holds the text of a double.
pub open spec fn doubles_float(ts: Seq<Option<Tok>>) -> bool {
    forall|i: int| 0 <= i < ts.len() ==> float_if_double(#[trigger] ts[i])
}

proof fn lemma_insert_member_wf(acc: Seq<(Seq<char>, Value)>, k: Seq<char>, v: Value)
    requires
        keys_unique(acc),
        forall|i: int| 0 <= i < acc.len() ==> well_formed(#[trigger] acc[i].1),
        well_formed(v),
    ensures
        keys_unique(insert_member(acc, k, v)),
        forall|i: int| 0 <= i < insert_member(acc, k, v).len() ==> well_formed(#[trigger] insert_member(acc, k, v)[i].1),
{
    lemma_key_index_bound(acc, k);
    let r = insert_member(acc, k, v);
    let x = key_index(acc, k);
    if x < acc.len() {
        assert forall|i: int, j: int| 0 <= i < j < r.len() implies r[i].0 != r[j].0 by {
            assert(r[i].0 == acc[i].0 && r[j].0 == acc[j].0);
        }
    } else {
        assert forall|i: int, j: int| 0 <= i < j < r.len() implies r[i].0 != r[j].0 by {
            if j < acc.len() {
                assert(r[i] == acc[i] && r[j] == acc[j]);
            } else {
                assert(r[i] == acc[i]);
            }
        }
    }
}

proof fn lemma_parse_value_wf(ts: Seq<Option<Tok>>, p: int)
    requires
        doubles_float(ts),
    ensures
        parse_value(ts, p).0 matches Ok(v) ==> well_formed(v),
    decreases measure(ts, p), 1int,
{
    if 0 <= p < ts.len() {
        match ts[p] {
            Some(Tok::Start(Tag::Struct)) => {
                lemma_parse_members_wf(ts, p + 1, Seq::empty());
            },
            Some(Tok::Start(Tag::Array)) => {
                lemma_parse_elements_wf(ts, p + 1, Seq::empty());
            },
            _ => {
                if p + 1 < ts.len() {
                    assert(float_if_double(ts[p + 1]));
                }
            },
        }
    }
}

proof fn lemma_parse_members_wf(ts: Seq<Option<Tok>>, p: int, acc: Seq<(Seq<char>, Value)>)
    requires
        doubles_float(ts),
        keys_unique(acc),
        forall|i: int| 0 <= i < acc.len() ==> well_formed(#[trigger] acc[i].1),
    ensures
        parse_members(ts, p, acc).0 matches Ok(v) ==> well_formed(v),
    decreases measure(ts, p), 0int,
{
    if 0 <= p < ts.len() && ts[p] != Some(Tok::End(Tag::Struct)) {
        match parse_name(ts, p + 2) {
            Ok((k, e)) => {
                if e + 2 > p {
                    lemma_parse_value_wf(ts, e + 2);
                    let (r, q) = parse_value(ts, e + 2);
                    match r {
                        Ok(v) => {
                            if q + 3 > p {
                                lemma_insert_member_wf(acc, k, v);
                                lemma_parse_members_wf(ts, q + 3, insert_member(acc, k, v));
                            }
                        },
                        Err(_) => {},
                    }
                }
            },
            Err(_) => {},
        }
    }
}

proof fn lemma_parse_elements_wf(ts: Seq<Option<Tok>>, p: int, acc: Seq<Value>)
    requires
        doubles_float(ts),
        forall|i: int| 0 <= i < acc.len() ==> well_formed(#[trigger] acc[i]),
    ensures
        parse_elements(ts, p, acc).0 matches Ok(v) ==> well_formed(v),
    decreases measure(ts, p), 0int,
{
    if 0 <= p < ts.len() {
        match ts[p] {
            Some(Tok::Start(Tag::Value)) => {
                lemma_parse_value_wf(ts, p + 1);
                let (r, q) = parse_value(ts, p + 1);
                match r {
                    Ok(v) => {
                        if q + 2 > p {
                            let a2 = acc.push(v);
                            assert forall|i: int| 0 <= i < a2.len() implies well_formed(#[trigger] a2[i]) by {
                                if i < acc.len() {
                                    assert(a2[i] == acc[i]);
                                }
                            }
                            lemma_parse_elements_wf(ts, q + 2, a2);
                        }
                    },
                    Err(_) => {},
                }
            },
            Some(Tok::End(Tag::Array)) => {},
            Some(Tok::Error(_)) => {},
            _ => {
                lemma_parse_elements_wf(ts, p + 1, acc);
            },
        }
    }
}

/// The builder makes well-formed trees: every struct has unique keys
/// (a repeated key keeps its first place and takes the last value), and
/// every double is the text of a double.
pub proof fn lemma_built_tree_well_formed(ts: Seq<Option<Tok>>)
    requires
        doubles_float(ts),
    ensures
        parse_document(ts) matches Ok(v) ==> well_formed(v),
{
    lemma_parse_value_wf(ts, 0);
}

proof fn lemma_tokens_doubles_float(es: Seq<Event>, i: int, open: Option<Tag>)
    ensures
        doubles_float(tokens_from(es, i, open)),
    decreases es.len() - i,
{
    if 0 <= i < es.len() {
        match es[i] {
            Event::DocStart | Event::Skip => lemma_tokens_doubles_float(es, i + 1, open),
            Event::DocEnd => {},
            Event::Failed(_) => {},
            Event::Open(n) => {
                let t = crate::token::start_token(n);
                lemma_tokens_doubles_float(es, i + 1, opened(t));
                let rest = tokens_from(es, i + 1, opened(t));
                assert forall|j: int| 0 <= j < (seq![t] + rest).len() implies float_if_double(#[trigger] (seq![t] + rest)[j]) by {
                    if j > 0 {
                        assert((seq![t] + rest)[j] == rest[j - 1]);
                    }
                }
            },
            Event::Close(n) => {
                let t = crate::token::end_token(n);
                lemma_tokens_doubles_float(es, i + 1, None);
                let rest = tokens_from(es, i + 1, None);
                assert forall|j: int| 0 <= j < (seq![t] + rest).len() implies float_if_double(#[trigger] (seq![t] + rest)[j]) by {
                    if j > 0 {
                        assert((seq![t] + rest)[j] == rest[j - 1]);
                    }
                }
            },
            Event::Text(x) | Event::Blank(x) => {
                lemma_tokens_doubles_float(es, i + 1, None);
                lemma_tokens_doubles_float(es, i + 1, open);
                let t = text_token(x, open);
                let rest = tokens_from(es, i + 1, None);
                assert forall|j: int| 0 <= j < (seq![t] + rest).len() implies float_if_double(#[trigger] (seq![t] + rest)[j]) by {
                    if j > 0 {
                        assert((seq![t] + rest)[j] == rest[j - 1]);
                    }
                }
            },
        }
    }
}

/// Trees parsed from tokenizer events are well formed.
pub proof fn lemma_parsed_events_well_formed(es: Seq<Event>)
    ensures
        crate::builder::parse_events(es) matches Ok(v) ==> well_formed(v),
{
    lemma_tokens_doubles_float(es, 0, None);
    lemma_built_tree_well_formed(crate::token::tokenize_spec(es));
}

proof fn lemma_parse_value_advances(ts: Seq<Option<Tok>>, p: int)
    ensures
        parse_value(ts, p).1 >= p,
    decreases measure(ts, p), 1int,
{
    if 0 <= p < ts.len() {
        match ts[p] {
            Some(Tok::Start(Tag::Struct)) => lemma_parse_members_advances(ts, p + 1, Seq::empty()),
            Some(Tok::Start(Tag::Array)) => lemma_parse_elements_advances(ts, p + 1, Seq::empty()),
            _ => {},
        }
    }
}

proof fn lemma_parse_members_advances(ts: Seq<Option<Tok>>, p: int, acc: Seq<(Seq<char>, Value)>)
    ensures
        parse_members(ts, p, acc).1 >= p,
    decreases measure(ts, p), 0int,
{
    if 0 <= p < ts.len() && ts[p] != Some(Tok::End(Tag::Struct)) {
        match parse_name(ts, p + 2) {
            Ok((k, e)) => {
                if e + 2 > p {
                    lemma_parse_value_advances(ts, e + 2);
                    let (r, q) = parse_value(ts, e + 2);
                    match r {
                        Ok(v) => {
                            if q + 3 > p {
                                lemma_parse_members_advances(ts, q + 3, insert_member(acc, k, v));
                            }
                        },
                        Err(_) => {},
                    }
                }
            },
            Err(_) => {},
        }
    }
}

proof fn lemma_parse_elements_advances(ts: Seq<Option<Tok>>, p: int, acc: Seq<Value>)
    ensures
        parse_elements(ts, p, acc).1 >= p,
    decreases measure(ts, p), 0int,
{
    if 0 <= p < ts.len() {
        match ts[p] {
            Some(Tok::Start(Tag::Value)) => {
                lemma_parse_value_advances(ts, p + 1);
                let (r, q) = parse_value(ts, p + 1);
                match r {
                    Ok(v) => {
                        if q + 2 > p {
                            lemma_parse_elements_advances(ts, q + 2, acc.push(v));
                        }
                    },
                    Err(_) => {},
                }
            },
            Some(Tok::End(Tag::Array)) => {},
            Some(Tok::Error(_)) => {},
            _ => lemma_parse_elements_advances(ts, p + 1, acc),
        }
    }
}

/// The builder never steps back: a member's value read from after its
/// name ends past the member's start, and so does an array element's
/// value. The checks against a backward step in `parse_members` and
/// `parse_elements`, which keep those definitions well founded, never
/// decide anything.
pub proof fn lemma_no_backward_step(ts: Seq<Option<Tok>>, p: int)
    ensures
        parse_name(ts, p + 2) matches Ok((k, e)) ==> e + 2 > p && parse_value(ts, e + 2).1 + 3 > p,
        parse_value(ts, p + 1).1 + 2 > p,
{
    lemma_parse_value_advances(ts, p + 1);
    match parse_name(ts, p + 2) {
        Ok((k, e)) => lemma_parse_value_advances(ts, e + 2),
        Err(_) => {},
    }
}

} // verus!
