use vstd::prelude::*;
use crate::de::{
    deserialize_spec, parse_elems, parse_members, parse_typed, parse_value, scalar_value,
    tag_lookup, text_at, DeError,
};
use crate::event::{lemma_tag_names_distinct, tag_name, EventModel, Tag};
use crate::ser::{bool_text, member_events, members_events, scalar, tagged, value_events, values_events};
use crate::text::{
    dec_digits, int_text, is_digit, is_double_literal, is_ws, lemma_dec_digits,
    lemma_int_text_round_trip, lit_run, lit_step, trim, trim_end, trim_start,
};
use crate::value::{insert_member_spec, member_index, names_unique, ValueModel};

verus! {

/// Whether the struct and array nesting of `v` fits within `fuel` levels.
pub open spec fn fits(v: ValueModel, fuel: nat) -> bool
    decreases v,
{
    match v {
        ValueModel::Struct(m) => fuel > 0 && members_fit(m, (fuel - 1) as nat),
        ValueModel::Array(a) => fuel > 0 && values_fit(a, (fuel - 1) as nat),
        _ => true,
    }
}

pub open spec fn members_fit(m: Seq<(Seq<char>, ValueModel)>, fuel: nat) -> bool
    decreases m,
{
    m.len() == 0 || (fits(m[0].1, fuel) && members_fit(m.subrange(1, m.len() as int), fuel))
}

pub open spec fn values_fit(a: Seq<ValueModel>, fuel: nat) -> bool
    decreases a,
{
    a.len() == 0 || (fits(a[0], fuel) && values_fit(a.subrange(1, a.len() as int), fuel))
}

/// Whether this library states the events of `v` exactly and reads them back: `v` holds no
/// date and time and no binary data (whose texts an outside crate writes), every double is a
/// decimal literal, and the member names of every struct are unique.
pub open spec fn exactly_encoded(v: ValueModel) -> bool
    decreases v,
{
    match v {
        ValueModel::DateTime(_) => false,
        ValueModel::Base64(_) => false,
        ValueModel::Double(s) => is_double_literal(s),
        ValueModel::Struct(m) => names_unique(m) && members_exactly_encoded(m),
        ValueModel::Array(a) => values_exactly_encoded(a),
        _ => true,
    }
}

pub open spec fn members_exactly_encoded(m: Seq<(Seq<char>, ValueModel)>) -> bool
    decreases m,
{
    m.len() == 0 || (exactly_encoded(m[0].1) && members_exactly_encoded(
        m.subrange(1, m.len() as int),
    ))
}

pub open spec fn values_exactly_encoded(a: Seq<ValueModel>) -> bool
    decreases a,
{
    a.len() == 0 || (exactly_encoded(a[0]) && values_exactly_encoded(a.subrange(1, a.len() as int)))
}

proof fn lemma_members_events_front(m: Seq<(Seq<char>, ValueModel)>)
    requires
        m.len() > 0,
    ensures
        members_events(m) == member_events(m[0]) + members_events(m.subrange(1, m.len() as int)),
    decreases m.len(),
{
    let r = m.subrange(1, m.len() as int);
    assert(members_events(m) == members_events(m.drop_last()) + member_events(m.last()));
    if m.len() == 1 {
        assert(m.drop_last() =~= Seq::<(Seq<char>, ValueModel)>::empty());
        assert(r =~= Seq::<(Seq<char>, ValueModel)>::empty());
        assert(members_events(m) =~= member_events(m[0]) + members_events(r));
    } else {
        lemma_members_events_front(m.drop_last());
        assert(m.drop_last().subrange(1, m.len() - 1) =~= r.drop_last());
        assert(members_events(r) == members_events(r.drop_last()) + member_events(r.last()));
        assert(members_events(m) =~= member_events(m[0]) + members_events(r));
    }
}

proof fn lemma_values_events_front(a: Seq<ValueModel>)
    requires
        a.len() > 0,
    ensures
        values_events(a) == value_events(a[0]) + values_events(a.subrange(1, a.len() as int)),
    decreases a.len(),
{
    let r = a.subrange(1, a.len() as int);
    assert(values_events(a) == values_events(a.drop_last()) + value_events(a.last()));
    if a.len() == 1 {
        assert(a.drop_last() =~= Seq::<ValueModel>::empty());
        assert(r =~= Seq::<ValueModel>::empty());
        assert(values_events(a) =~= value_events(a[0]) + values_events(r));
    } else {
        lemma_values_events_front(a.drop_last());
        assert(a.drop_last().subrange(1, a.len() - 1) =~= r.drop_last());
        assert(values_events(r) == values_events(r.drop_last()) + value_events(r.last()));
        assert(values_events(a) =~= value_events(a[0]) + values_events(r));
    }
}

/// A window of the events that lies inside a known window.
proof fn lemma_window(e: Seq<EventModel>, p: int, big: Seq<EventModel>, off: int, part: Seq<EventModel>)
    requires
        0 <= p,
        0 <= off,
        off + part.len() <= big.len(),
        p + big.len() <= e.len(),
        e.subrange(p, p + big.len()) == big,
        forall|k: int| 0 <= k < part.len() ==> part[k] == big[off + k],
    ensures
        e.subrange(p + off, p + off + part.len()) == part,
{
    assert forall|k: int| 0 <= k < part.len() implies e.subrange(
        p + off,
        p + off + part.len(),
    )[k] == part[k] by {
        assert(e[p + off + k] == e.subrange(p, p + big.len())[off + k]);
    }
    assert(e.subrange(p + off, p + off + part.len()) =~= part);
}

proof fn lemma_tag_lookup(t: Tag)
    ensures
        tag_lookup(tag_name(t)) == Some(t),
{
    lemma_tag_names_distinct(t, Tag::Value);
    lemma_tag_names_distinct(t, Tag::I4);
    lemma_tag_names_distinct(t, Tag::Int);
    lemma_tag_names_distinct(t, Tag::I8);
    lemma_tag_names_distinct(t, Tag::Boolean);
    lemma_tag_names_distinct(t, Tag::Str);
    lemma_tag_names_distinct(t, Tag::Double);
    lemma_tag_names_distinct(t, Tag::DateTime);
    lemma_tag_names_distinct(t, Tag::Base64);
    lemma_tag_names_distinct(t, Tag::Struct);
    lemma_tag_names_distinct(t, Tag::Member);
    lemma_tag_names_distinct(t, Tag::Name);
    lemma_tag_names_distinct(t, Tag::Array);
    lemma_tag_names_distinct(t, Tag::Data);
    lemma_tag_names_distinct(t, Tag::Nil);
}

proof fn lemma_lit_run_dead(s: Seq<char>)
    ensures
        lit_run(9, s) == 9,
    decreases s.len(),
{
    if s.len() > 0 {
        lemma_lit_run_dead(s.drop_first());
    }
}

proof fn lemma_literal_no_ws(q: u8, s: Seq<char>)
    requires
        lit_run(q, s) == 2 || lit_run(q, s) == 4 || lit_run(q, s) == 6 || lit_run(q, s) == 8,
    ensures
        forall|i: int| 0 <= i < s.len() ==> !is_ws(#[trigger] s[i]),
    decreases s.len(),
{
    if s.len() > 0 {
        if is_ws(s[0]) {
            assert(lit_step(q, s[0]) == 9);
            lemma_lit_run_dead(s.drop_first());
        } else {
            lemma_literal_no_ws(lit_step(q, s[0]), s.drop_first());
            assert forall|i: int| 0 <= i < s.len() implies !is_ws(#[trigger] s[i]) by {
                if i > 0 {
                    assert(s[i] == s.drop_first()[i - 1]);
                }
            }
        }
    }
}

proof fn lemma_trim_no_ws(s: Seq<char>)
    requires
        forall|i: int| 0 <= i < s.len() ==> !is_ws(#[trigger] s[i]),
    ensures
        trim(s) == s,
{
    assert(trim_start(s) == s);
    if s.len() > 0 {
        assert(!is_ws(s[s.len() - 1]));
    }
    assert(trim_end(s) == s);
}

proof fn lemma_int_text_no_ws(n: int)
    ensures
        forall|i: int| 0 <= i < int_text(n).len() ==> !is_ws(#[trigger] int_text(n)[i]),
{
    let s = int_text(n);
    if n < 0 {
        lemma_dec_digits((-n) as nat);
        let d = dec_digits((-n) as nat);
        assert forall|i: int| 0 <= i < s.len() implies !is_ws(#[trigger] s[i]) by {
            if i > 0 {
                assert(s[i] == d[i - 1]);
                assert(is_digit(d[i - 1]));
            }
        }
    } else {
        lemma_dec_digits(n as nat);
        let d = dec_digits(n as nat);
        assert forall|i: int| 0 <= i < s.len() implies !is_ws(#[trigger] s[i]) by {
            assert(is_digit(d[i]));
        }
    }
}

/// The value element of a scalar whose text reads back as the value.
proof fn lemma_parse_scalar(e: Seq<EventModel>, p: int, v: ValueModel, t: Tag, text: Seq<char>)
    requires
        0 <= p,
        p + 5 <= e.len(),
        value_events(v) == tagged(Tag::Value, scalar(t, text)),
        e.subrange(p, p + 5) == value_events(v),
        t != Tag::Value,
        t is I4 || t is I8 || t is Boolean || t is Str || t is Double,
        scalar_value(t, text) == Ok::<ValueModel, DeError>(v),
    ensures
        parse_value(e, p, 0) == Ok::<(ValueModel, int), (DeError, int)>((v, p + 5)),
        forall|f: nat| parse_value(e, p, f) == Ok::<(ValueModel, int), (DeError, int)>((v, p + 5)),
{
    let ev = value_events(v);
    assert(ev =~= seq![
        EventModel::Start(tag_name(Tag::Value)),
        EventModel::Start(tag_name(t)),
        EventModel::Text(text),
        EventModel::End(tag_name(t)),
        EventModel::End(tag_name(Tag::Value)),
    ]);
    assert(e[p] == ev[0]);
    assert(e[p + 1] == ev[1]);
    assert(e[p + 2] == ev[2]);
    assert(e[p + 3] == ev[3]);
    assert(e[p + 4] == ev[4]);
    lemma_tag_lookup(t);
    assert(text_at(e, p + 2) == (text, p + 3));
    assert forall|f: nat| parse_value(e, p, f) == Ok::<(ValueModel, int), (DeError, int)>((v, p + 5)) by {
        assert(parse_typed(e, p + 1, f) == Ok::<(ValueModel, int), (DeError, int)>((v, p + 4)));
    }
}

/// Reading the events of `v` at `p` gives `v` back where its nesting fits `fuel`, and
/// `DepthExceeded` where it does not.
proof fn lemma_parse_events(e: Seq<EventModel>, p: int, v: ValueModel, fuel: nat)
    requires
        0 <= p,
        p + value_events(v).len() <= e.len(),
        e.subrange(p, p + value_events(v).len()) == value_events(v),
        exactly_encoded(v),
    ensures
        match parse_value(e, p, fuel) {
            Ok(r) => fits(v, fuel) && r == (v, p + value_events(v).len()),
            Err(x) => !fits(v, fuel) && x.0 == DeError::DepthExceeded,
        },
    decreases v, 2int,
{
    match v {
        ValueModel::Int(i) => {
            lemma_int_text_no_ws(i as int);
            lemma_trim_no_ws(int_text(i as int));
            lemma_int_text_round_trip(i as int);
            lemma_parse_scalar(e, p, v, Tag::I4, int_text(i as int));
        },
        ValueModel::Int64(i) => {
            lemma_int_text_no_ws(i as int);
            lemma_trim_no_ws(int_text(i as int));
            lemma_int_text_round_trip(i as int);
            lemma_parse_scalar(e, p, v, Tag::I8, int_text(i as int));
        },
        ValueModel::Bool(b) => {
            lemma_trim_no_ws(bool_text(b));
            lemma_parse_scalar(e, p, v, Tag::Boolean, bool_text(b));
        },
        ValueModel::Str(s) => {
            lemma_parse_scalar(e, p, v, Tag::Str, s);
        },
        ValueModel::Double(s) => {
            lemma_literal_no_ws(0, s);
            lemma_trim_no_ws(s);
            lemma_parse_scalar(e, p, v, Tag::Double, s);
        },
        ValueModel::Nil => {
            let ev = value_events(v);
            assert(ev =~= seq![
                EventModel::Start(tag_name(Tag::Value)),
                EventModel::Start(tag_name(Tag::Nil)),
                EventModel::End(tag_name(Tag::Nil)),
                EventModel::End(tag_name(Tag::Value)),
            ]);
            assert(e[p] == ev[0]);
            assert(e[p + 1] == ev[1]);
            assert(e[p + 2] == ev[2]);
            assert(e[p + 3] == ev[3]);
            lemma_tag_lookup(Tag::Nil);
            assert(parse_typed(e, p + 1, fuel) == Ok::<(ValueModel, int), (DeError, int)>((v, p + 3)));
        },
        ValueModel::Struct(_) => {
            lemma_parse_container_events(e, p, v, fuel);
        },
        ValueModel::Array(_) => {
            lemma_parse_container_events(e, p, v, fuel);
        },
        ValueModel::DateTime(_) => {},
        ValueModel::Base64(_) => {},
    }
}

proof fn lemma_parse_container_events(e: Seq<EventModel>, p: int, v: ValueModel, fuel: nat)
    requires
        0 <= p,
        p + value_events(v).len() <= e.len(),
        e.subrange(p, p + value_events(v).len()) == value_events(v),
        exactly_encoded(v),
        v is Struct || v is Array,
    ensures
        match parse_value(e, p, fuel) {
            Ok(r) => fits(v, fuel) && r == (v, p + value_events(v).len()),
            Err(x) => !fits(v, fuel) && x.0 == DeError::DepthExceeded,
        },
    decreases v, 1int,
{
    let ev = value_events(v);
    match v {
        ValueModel::Struct(m) => {
            let body = members_events(m);
            let lm = body.len() as int;
            assert(ev =~= seq![
                EventModel::Start(tag_name(Tag::Value)),
                EventModel::Start(tag_name(Tag::Struct)),
            ] + body + seq![
                EventModel::End(tag_name(Tag::Struct)),
                EventModel::End(tag_name(Tag::Value)),
            ]);
            assert(e[p] == ev[0]);
            assert(e[p + 1] == ev[1]);
            assert(e[p + 2 + lm] == ev[2 + lm]);
            assert(e[p + 3 + lm] == ev[3 + lm]);
            lemma_tag_lookup(Tag::Struct);
            if fuel > 0 {
                lemma_window(e, p, ev, 2, body);
                assert(Seq::<(Seq<char>, ValueModel)>::empty() + m =~= m);
                lemma_parse_members(e, p + 2, m, (fuel - 1) as nat, Seq::empty());
            }
        },
        ValueModel::Array(a) => {
            let body = values_events(a);
            let la = body.len() as int;
            assert(ev =~= seq![
                EventModel::Start(tag_name(Tag::Value)),
                EventModel::Start(tag_name(Tag::Array)),
                EventModel::Start(tag_name(Tag::Data)),
            ] + body + seq![
                EventModel::End(tag_name(Tag::Data)),
                EventModel::End(tag_name(Tag::Array)),
                EventModel::End(tag_name(Tag::Value)),
            ]);
            assert(e[p] == ev[0]);
            assert(e[p + 1] == ev[1]);
            assert(e[p + 2] == ev[2]);
            assert(e[p + 3 + la] == ev[3 + la]);
            assert(e[p + 4 + la] == ev[4 + la]);
            assert(e[p + 5 + la] == ev[5 + la]);
            lemma_tag_lookup(Tag::Array);
            if fuel > 0 {
                lemma_window(e, p, ev, 3, body);
                assert(Seq::<ValueModel>::empty() + a =~= a);
                lemma_parse_elems(e, p + 3, a, (fuel - 1) as nat, Seq::empty());
            }
        },
        _ => {},
    }
}

proof fn lemma_parse_members(
    e: Seq<EventModel>,
    p: int,
    m: Seq<(Seq<char>, ValueModel)>,
    fuel: nat,
    acc: Seq<(Seq<char>, ValueModel)>,
)
    requires
        0 <= p,
        p + members_events(m).len() < e.len(),
        e.subrange(p, p + members_events(m).len()) == members_events(m),
        e[p + members_events(m).len()] == EventModel::End(tag_name(Tag::Struct)),
        members_exactly_encoded(m),
        names_unique(acc + m),
    ensures
        match parse_members(e, p, fuel, acc) {
            Ok(r) => members_fit(m, fuel) && r == (acc + m, p + members_events(m).len()),
            Err(x) => !members_fit(m, fuel) && x.0 == DeError::DepthExceeded,
        },
    decreases m, 0int,
{
    if m.len() == 0 {
        assert(acc + m =~= acc);
    } else {
        lemma_members_events_front(m);
        let x = m[0];
        let rest = m.subrange(1, m.len() as int);
        let ve = value_events(x.1);
        let lv = ve.len() as int;
        let me = member_events(x);
        assert(me =~= seq![
            EventModel::Start(tag_name(Tag::Member)),
            EventModel::Start(tag_name(Tag::Name)),
            EventModel::Text(x.0),
            EventModel::End(tag_name(Tag::Name)),
        ] + ve + seq![EventModel::End(tag_name(Tag::Member))]);
        let all = members_events(m);
        assert(all == me + members_events(rest));
        assert(e[p] == all[0]);
        assert(e[p + 1] == all[1]);
        assert(e[p + 2] == all[2]);
        assert(e[p + 3] == all[3]);
        assert(ve[0] == EventModel::Start(tag_name(Tag::Value)));
        assert(e[p + 4] == all[4]);
        assert(e[p + 4 + lv] == all[4 + lv]);
        lemma_window(e, p, all, 4, ve);
        assert(text_at(e, p + 2) == (x.0, p + 3));
        lemma_parse_events(e, p + 4, x.1, fuel);
        if fits(x.1, fuel) {
            assert(member_index(acc, x.0) is None) by {
                assert((acc + m)[acc.len() as int] == x);
                assert forall|i: int| 0 <= i < acc.len() implies acc[i].0 != x.0 by {
                    assert((acc + m)[i] == acc[i]);
                }
            }
            assert(insert_member_spec(acc, x.0, x.1) == acc.push(x));
            let acc2 = acc.push(x);
            assert(acc2 + rest =~= acc + m);
            let q = p + 5 + lv;
            lemma_window(e, p, all, 5 + lv, members_events(rest));
            lemma_parse_members(e, q, rest, fuel, acc2);
        }
    }
}

proof fn lemma_parse_elems(
    e: Seq<EventModel>,
    p: int,
    a: Seq<ValueModel>,
    fuel: nat,
    acc: Seq<ValueModel>,
)
    requires
        0 <= p,
        p + values_events(a).len() < e.len(),
        e.subrange(p, p + values_events(a).len()) == values_events(a),
        e[p + values_events(a).len()] == EventModel::End(tag_name(Tag::Data)),
        values_exactly_encoded(a),
    ensures
        match parse_elems(e, p, fuel, acc) {
            Ok(r) => values_fit(a, fuel) && r == (acc + a, p + values_events(a).len()),
            Err(x) => !values_fit(a, fuel) && x.0 == DeError::DepthExceeded,
        },
    decreases a, 0int,
{
    if a.len() == 0 {
        assert(acc + a =~= acc);
    } else {
        lemma_values_events_front(a);
        let x = a[0];
        let rest = a.subrange(1, a.len() as int);
        let ve = value_events(x);
        let lv = ve.len() as int;
        let all = values_events(a);
        assert(all == ve + values_events(rest));
        assert(ve[0] == EventModel::Start(tag_name(Tag::Value)));
        assert(e[p] == all[0]);
        lemma_window(e, p, all, 0, ve);
        lemma_parse_events(e, p, x, fuel);
        if fits(x, fuel) {
            let acc2 = acc.push(x);
            assert(acc2 + rest =~= acc + a);
            let q = p + lv;
            lemma_window(e, p, all, lv, values_events(rest));
            lemma_parse_elems(e, q, rest, fuel, acc2);
        }
    }
}

/// Reading back the events that a value is written as gives the value, wherever its
/// nesting fits the allowed depth and its encoding is stated exactly.
pub proof fn lemma_round_trip(v: ValueModel, max_depth: nat)
    requires
        exactly_encoded(v),
        fits(v, max_depth),
    ensures
        deserialize_spec(value_events(v), max_depth) == Ok::<ValueModel, (DeError, int)>(v),
{
    let e = value_events(v);
    assert(e.subrange(0, e.len() as int) =~= e);
    lemma_parse_events(e, 0, v, max_depth);
}

/// A struct read back from its events has as many members as it was written with, and each
/// member written, name and value, is among them.
pub proof fn lemma_struct_members_kept(m: Seq<(Seq<char>, ValueModel)>, max_depth: nat)
    requires
        exactly_encoded(ValueModel::Struct(m)),
        fits(ValueModel::Struct(m), max_depth),
    ensures
        deserialize_spec(value_events(ValueModel::Struct(m)), max_depth) matches Ok(
            ValueModel::Struct(back),
        ) && back.len() == m.len() && forall|i: int| 0 <= i < m.len() ==> back.contains(m[i]),
{
    lemma_round_trip(ValueModel::Struct(m), max_depth);
    assert forall|i: int| 0 <= i < m.len() implies m.contains(#[trigger] m[i]) by {
        assert(m[i] == m[i]);
    }
}

/// A value nested deeper than the allowed depth is refused with `DepthExceeded`.
pub proof fn lemma_depth_bound(v: ValueModel, max_depth: nat)
    requires
        exactly_encoded(v),
        !fits(v, max_depth),
    ensures
        deserialize_spec(value_events(v), max_depth) matches Err(x) && x.0 == DeError::DepthExceeded,
{
    let e = value_events(v);
    assert(e.subrange(0, e.len() as int) =~= e);
    lemma_parse_events(e, 0, v, max_depth);
}

} // verus!
