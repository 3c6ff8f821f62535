use vstd::prelude::*;
use crate::encodings::{
    base64_text_of, encode_base64, format_iso_datetime, iso_text_of, iso_writable,
};
use crate::event::{
    events_view, lemma_events_view_push, tag_name, tag_str, EventModel, Tag, XmlEvent,
};
use crate::text::{int_text, int_to_text};
use crate::value::{
    lemma_array_elem_decreases, lemma_member_decreases, lemma_view_values_index,
    lemma_view_members_index, lemma_view_members_len, lemma_view_values_len, view_members,
    view_values, Value, ValueModel,
};

verus! {

pub open spec fn tagged(t: Tag, body: Seq<EventModel>) -> Seq<EventModel> {
    seq![EventModel::Start(tag_name(t))] + body + seq![EventModel::End(tag_name(t))]
}

pub open spec fn scalar(t: Tag, text: Seq<char>) -> Seq<EventModel> {
    tagged(t, seq![EventModel::Text(text)])
}

pub open spec fn bool_text(b: bool) -> Seq<char> {
    if b {
        seq!['1']
    } else {
        seq!['0']
    }
}

/// The events that a value is written as: a `<value>` element around the element of its
/// variant.
pub open spec fn value_events(v: ValueModel) -> Seq<EventModel>
    decreases v,
{
    tagged(
        Tag::Value,
        match v {
            ValueModel::Int(i) => scalar(Tag::I4, int_text(i as int)),
            ValueModel::Int64(i) => scalar(Tag::I8, int_text(i as int)),
            ValueModel::Bool(b) => scalar(Tag::Boolean, bool_text(b)),
            ValueModel::Str(s) => scalar(Tag::Str, s),
            ValueModel::Double(s) => scalar(Tag::Double, s),
            ValueModel::DateTime(d) => scalar(Tag::DateTime, iso_text_of(d)),
            ValueModel::Base64(b) => scalar(Tag::Base64, base64_text_of(b)),
            ValueModel::Struct(m) => tagged(Tag::Struct, members_events(m)),
            ValueModel::Array(a) => tagged(Tag::Array, tagged(Tag::Data, values_events(a))),
            ValueModel::Nil => tagged(Tag::Nil, Seq::empty()),
        },
    )
}

/// The events of struct members, in order: each a `<member>` of a `<name>` and a `<value>`.
pub open spec fn members_events(m: Seq<(Seq<char>, ValueModel)>) -> Seq<EventModel>
    decreases m,
{
    if m.len() == 0 {
        Seq::empty()
    } else {
        members_events(m.drop_last()) + member_events(m.last())
    }
}

/// The events of one struct member: a `<member>` of a `<name>` and a `<value>`.
pub open spec fn member_events(x: (Seq<char>, ValueModel)) -> Seq<EventModel>
    decreases x,
{
    tagged(Tag::Member, scalar(Tag::Name, x.0) + value_events(x.1))
}

/// The events of array elements, in order.
pub open spec fn values_events(a: Seq<ValueModel>) -> Seq<EventModel>
    decreases a,
{
    if a.len() == 0 {
        Seq::empty()
    } else {
        values_events(a.drop_last()) + value_events(a.last())
    }
}

/// Whether every date and time in `v` can be written (see [`iso_writable`]).
pub open spec fn writable(v: ValueModel) -> bool
    decreases v,
{
    match v {
        ValueModel::DateTime(d) => iso_writable(d),
        ValueModel::Struct(m) => members_writable(m),
        ValueModel::Array(a) => values_writable(a),
        _ => true,
    }
}

pub open spec fn members_writable(m: Seq<(Seq<char>, ValueModel)>) -> bool
    decreases m,
{
    m.len() == 0 || (writable(m[0].1) && members_writable(m.subrange(1, m.len() as int)))
}

pub open spec fn values_writable(a: Seq<ValueModel>) -> bool
    decreases a,
{
    a.len() == 0 || (writable(a[0]) && values_writable(a.subrange(1, a.len() as int)))
}

proof fn lemma_members_writable(m: Seq<(Seq<char>, ValueModel)>, i: int)
    requires
        members_writable(m),
        0 <= i < m.len(),
    ensures
        writable(m[i].1),
    decreases i,
{
    if i > 0 {
        let r = m.subrange(1, m.len() as int);
        assert(r[i - 1] == m[i]);
        lemma_members_writable(r, i - 1);
    }
}

proof fn lemma_values_writable(a: Seq<ValueModel>, i: int)
    requires
        values_writable(a),
        0 <= i < a.len(),
    ensures
        writable(a[i]),
    decreases i,
{
    if i > 0 {
        let r = a.subrange(1, a.len() as int);
        assert(r[i - 1] == a[i]);
        lemma_values_writable(r, i - 1);
    }
}

fn push_start(out: &mut Vec<XmlEvent>, t: Tag)
    ensures
        events_view(final(out)@) == events_view(old(out)@) + seq![EventModel::Start(tag_name(t))],
{
    let e = XmlEvent::Start(String::from_str(tag_str(t)));
    proof {
        lemma_events_view_push(out@, e);
    }
    out.push(e);
    assert(events_view(final(out)@) =~= events_view(old(out)@) + seq![EventModel::Start(tag_name(t))]);
}

fn push_end(out: &mut Vec<XmlEvent>, t: Tag)
    ensures
        events_view(final(out)@) == events_view(old(out)@) + seq![EventModel::End(tag_name(t))],
{
    let e = XmlEvent::End(String::from_str(tag_str(t)));
    proof {
        lemma_events_view_push(out@, e);
    }
    out.push(e);
    assert(events_view(final(out)@) =~= events_view(old(out)@) + seq![EventModel::End(tag_name(t))]);
}

fn push_scalar(out: &mut Vec<XmlEvent>, t: Tag, text: String)
    ensures
        events_view(final(out)@) == events_view(old(out)@) + scalar(t, text@),
{
    push_start(out, t);
    let e = XmlEvent::Text(text);
    proof {
        lemma_events_view_push(out@, e);
    }
    out.push(e);
    push_end(out, t);
    assert(events_view(final(out)@) =~= events_view(old(out)@) + scalar(t, text@));
}

/// Appends the events of `v` to `out`.
pub fn write_value(v: &Value, out: &mut Vec<XmlEvent>)
    requires
        writable(v@),
    ensures
        events_view(final(out)@) == events_view(old(out)@) + value_events(v@),
    decreases v,
{
    let ghost start = events_view(out@);
    push_start(out, Tag::Value);
    let ghost inner_start = events_view(out@);
    match v {
        Value::Int(i) => push_scalar(out, Tag::I4, int_to_text(*i as i64)),
        Value::Int64(i) => push_scalar(out, Tag::I8, int_to_text(*i)),
        Value::Bool(b) => {
            let s = if *b {
                proof { reveal_strlit("1"); }
                String::from_str("1")
            } else {
                proof { reveal_strlit("0"); }
                String::from_str("0")
            };
            assert(s@ =~= bool_text(*b));
            push_scalar(out, Tag::Boolean, s);
        },
        Value::String(s) => push_scalar(out, Tag::Str, s.clone()),
        Value::Double(s) => push_scalar(out, Tag::Double, s.clone()),
        Value::DateTime(d) => push_scalar(out, Tag::DateTime, format_iso_datetime(*d)),
        Value::Base64(b) => push_scalar(out, Tag::Base64, encode_base64(b.as_slice())),
        Value::Struct(m) => {
            push_start(out, Tag::Struct);
            let ghost body_start = events_view(out@);
            let mut i: usize = 0;
            proof {
                lemma_view_members_len(m@);
                assert(m@.take(0) =~= Seq::<(String, Value)>::empty());
                assert(body_start =~= body_start + members_events(view_members(m@.take(0))));
            }
            while i < m.len()
                invariant
                    0 <= i <= m@.len(),
                    events_view(out@) == body_start + members_events(view_members(m@.take(i as int))),
                    body_start == inner_start + seq![EventModel::Start(tag_name(Tag::Struct))],
                    *v == Value::Struct(*m),
                    writable(v@),
                decreases m.len() - i,
            {
                push_start(out, Tag::Member);
                push_scalar(out, Tag::Name, m[i].0.clone());
                proof {
                    lemma_member_decreases(*m, i as int);
                    lemma_view_members_index(m@, i as int);
                    let vm = view_members(m@);
                    assert(v@ == ValueModel::Struct(vm));
                    lemma_members_writable(vm, i as int);
                }
                write_value(&m[i].1, out);
                push_end(out, Tag::Member);
                proof {
                    let t = m@.take(i + 1);
                    assert(t.drop_last() =~= m@.take(i as int));
                    lemma_view_members_len(t);
                    lemma_view_members_index(t, i as int);
                    assert(view_members(t) == view_members(t.drop_last()).push((t.last().0@, t.last().1.view())));
                    assert(view_members(t).drop_last() =~= view_members(m@.take(i as int)));
                    let x = view_members(t).last();
                    assert(member_events(x) == tagged(
                        Tag::Member,
                        scalar(Tag::Name, x.0) + value_events(x.1),
                    ));
                    assert(events_view(out@) =~= body_start + members_events(view_members(t)));
                }
                i = i + 1;
            }
            assert(m@.take(m@.len() as int) =~= m@);
            push_end(out, Tag::Struct);
        },
        Value::Array(a) => {
            push_start(out, Tag::Array);
            push_start(out, Tag::Data);
            let ghost body_start = events_view(out@);
            let mut i: usize = 0;
            proof {
                lemma_view_values_len(a@);
                assert(a@.take(0) =~= Seq::<Value>::empty());
                assert(body_start =~= body_start + values_events(view_values(a@.take(0))));
            }
            while i < a.len()
                invariant
                    0 <= i <= a@.len(),
                    events_view(out@) == body_start + values_events(view_values(a@.take(i as int))),
                    body_start == inner_start + seq![EventModel::Start(tag_name(Tag::Array))]
                        + seq![EventModel::Start(tag_name(Tag::Data))],
                    *v == Value::Array(*a),
                    writable(v@),
                decreases a.len() - i,
            {
                proof {
                    lemma_array_elem_decreases(*a, i as int);
                    lemma_view_values_index(a@, i as int);
                    assert(v@ == ValueModel::Array(view_values(a@)));
                    lemma_values_writable(view_values(a@), i as int);
                }
                write_value(&a[i], out);
                proof {
                    let t = a@.take(i + 1);
                    assert(t.drop_last() =~= a@.take(i as int));
                    assert(view_values(t) == view_values(t.drop_last()).push(t.last().view()));
                    lemma_view_values_len(t);
                    assert(view_values(t).drop_last() =~= view_values(a@.take(i as int)));
                    assert(events_view(out@) =~= body_start + values_events(view_values(t)));
                }
                i = i + 1;
            }
            assert(a@.take(a@.len() as int) =~= a@);
            push_end(out, Tag::Data);
            push_end(out, Tag::Array);
        },
        Value::Nil => {
            push_start(out, Tag::Nil);
            push_end(out, Tag::Nil);
        },
    }
    push_end(out, Tag::Value);
    assert(events_view(final(out)@) =~= start + value_events(v@));
}

/// The events that `v` is written as.
pub fn serialize(v: &Value) -> (r: Vec<XmlEvent>)
    requires
        writable(v@),
    ensures
        events_view(r@) == value_events(v@),
{
    let mut out: Vec<XmlEvent> = Vec::new();
    write_value(v, &mut out);
    assert(events_view(out@) =~= value_events(v@));
    out
}

} // verus!
