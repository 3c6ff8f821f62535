use vstd::prelude::*;
use crate::encodings::{base64_bytes_of, decode_base64, iso_datetime_of, parse_iso_datetime};
use crate::event::{events_view, tag_name, tag_str, EventModel, Tag, XmlEvent};
use crate::text::{
    bool_of_text, check_double_literal, is_double_literal, parse_int_in_range, parse_int_text,
    strip_ws, strip_ws_chars, trim, trim_text,
};
use crate::value::{
    insert_member, insert_member_spec, lemma_view_values_push, names_unique, str_eq, view_members, view_values, Value,
    ValueModel,
};

verus! {

/// Why a document does not read as a value.
#[derive(Clone, Copy, Debug, PartialEq, Eq, Structural)]
pub enum DeError {
    /// The text of `<i4>`, `<int>` or `<i8>` is not a base-10 integer of that width.
    IntegerFormat,
    /// The text of `<boolean>` is not `0` or `1`.
    BooleanFormat,
    /// The text of `<double>` is not a decimal floating-point literal.
    DoubleFormat,
    /// The text of `<dateTime.iso8601>` is not an ISO-8601 date and time.
    DateTimeFormat,
    /// The text of `<base64>` is not valid base64.
    Base64Format,
    /// A `<member>` lacks its `<name>` or its `<value>`.
    StructFormat,
    /// An element whose name the grammar does not have where it stands.
    UnknownTag,
    /// An element that the grammar asks for is missing or not closed.
    MissingElement,
    /// Structs and arrays are nested deeper than allowed.
    DepthExceeded,
}

/// A failure to read a document: what went wrong, and the position of the event at which
/// it was found.
#[derive(Clone, Copy, Debug, PartialEq, Eq, Structural)]
pub struct ParseError {
    pub kind: DeError,
    pub position: usize,
}

/// How deep structs and arrays may nest in a document that [`deserialize`] reads.
pub const MAX_DEPTH: usize = 64;

pub open spec fn start_at(e: Seq<EventModel>, p: int, t: Tag) -> bool {
    0 <= p < e.len() && e[p] == EventModel::Start(tag_name(t))
}

pub open spec fn end_at(e: Seq<EventModel>, p: int, t: Tag) -> bool {
    0 <= p < e.len() && e[p] == EventModel::End(tag_name(t))
}

/// The character data at `p`, if any, and the position after it.
pub open spec fn text_at(e: Seq<EventModel>, p: int) -> (Seq<char>, int) {
    if 0 <= p < e.len() && e[p] is Text {
        (e[p]->Text_0, p + 1)
    } else {
        (Seq::empty(), p)
    }
}

/// The tag that an element name stands for.
pub open spec fn tag_lookup(s: Seq<char>) -> Option<Tag> {
    if s == tag_name(Tag::Value) {
        Some(Tag::Value)
    } else if s == tag_name(Tag::I4) {
        Some(Tag::I4)
    } else if s == tag_name(Tag::Int) {
        Some(Tag::Int)
    } else if s == tag_name(Tag::I8) {
        Some(Tag::I8)
    } else if s == tag_name(Tag::Boolean) {
        Some(Tag::Boolean)
    } else if s == tag_name(Tag::Str) {
        Some(Tag::Str)
    } else if s == tag_name(Tag::Double) {
        Some(Tag::Double)
    } else if s == tag_name(Tag::DateTime) {
        Some(Tag::DateTime)
    } else if s == tag_name(Tag::Base64) {
        Some(Tag::Base64)
    } else if s == tag_name(Tag::Struct) {
        Some(Tag::Struct)
    } else if s == tag_name(Tag::Member) {
        Some(Tag::Member)
    } else if s == tag_name(Tag::Name) {
        Some(Tag::Name)
    } else if s == tag_name(Tag::Array) {
        Some(Tag::Array)
    } else if s == tag_name(Tag::Data) {
        Some(Tag::Data)
    } else if s == tag_name(Tag::Nil) {
        Some(Tag::Nil)
    } else {
        None
    }
}

pub open spec fn is_scalar(t: Tag) -> bool {
    t is I4 || t is Int || t is I8 || t is Boolean || t is Str || t is Double || t is DateTime
        || t is Base64
}

/// The value that the text of a scalar element stands for.
pub open spec fn scalar_value(t: Tag, text: Seq<char>) -> Result<ValueModel, DeError> {
    match t {
        Tag::I4 | Tag::Int => match parse_int_text(trim(text)) {
            Some(n) => if i32::MIN <= n <= i32::MAX {
                Ok(ValueModel::Int(n as i32))
            } else {
                Err(DeError::IntegerFormat)
            },
            None => Err(DeError::IntegerFormat),
        },
        Tag::I8 => match parse_int_text(trim(text)) {
            Some(n) => if i64::MIN <= n <= i64::MAX {
                Ok(ValueModel::Int64(n as i64))
            } else {
                Err(DeError::IntegerFormat)
            },
            None => Err(DeError::IntegerFormat),
        },
        Tag::Boolean => if trim(text) == seq!['1'] {
            Ok(ValueModel::Bool(true))
        } else if trim(text) == seq!['0'] {
            Ok(ValueModel::Bool(false))
        } else {
            Err(DeError::BooleanFormat)
        },
        Tag::Str => Ok(ValueModel::Str(text)),
        Tag::Double => if is_double_literal(trim(text)) {
            Ok(ValueModel::Double(trim(text)))
        } else {
            Err(DeError::DoubleFormat)
        },
        Tag::DateTime => match iso_datetime_of(trim(text)) {
            Some(d) => Ok(ValueModel::DateTime(d)),
            None => Err(DeError::DateTimeFormat),
        },
        Tag::Base64 => match base64_bytes_of(strip_ws(text)) {
            Some(b) => Ok(ValueModel::Base64(b)),
            None => Err(DeError::Base64Format),
        },
        _ => Err(DeError::UnknownTag),
    }
}

/// Reads the `<value>` element at `p`, with `fuel` levels of struct and array nesting
/// allowed; gives the value and the position after the element.
pub open spec fn parse_value(e: Seq<EventModel>, p: int, fuel: nat) -> Result<
    (ValueModel, int),
    (DeError, int),
>
    decreases fuel, e.len() - p, 2int,
{
    if !start_at(e, p, Tag::Value) || p + 1 >= e.len() {
        Err((DeError::MissingElement, p))
    } else {
        match e[p + 1] {
            EventModel::Text(t) => if end_at(e, p + 2, Tag::Value) {
                Ok((ValueModel::Str(t), p + 3))
            } else {
                Err((DeError::MissingElement, p + 2))
            },
            EventModel::End(n) => if n == tag_name(Tag::Value) {
                Ok((ValueModel::Str(Seq::empty()), p + 2))
            } else {
                Err((DeError::MissingElement, p + 1))
            },
            EventModel::Start(_) => match parse_typed(e, p + 1, fuel) {
                Ok((v, q)) => if end_at(e, q, Tag::Value) {
                    Ok((v, q + 1))
                } else {
                    Err((DeError::MissingElement, q))
                },
                Err(x) => Err(x),
            },
        }
    }
}

/// Reads the element of a variant, which opens at `p`.
pub open spec fn parse_typed(e: Seq<EventModel>, p: int, fuel: nat) -> Result<
    (ValueModel, int),
    (DeError, int),
>
    decreases fuel, e.len() - p, 1int,
{
    if !(0 <= p < e.len() && e[p] is Start) {
        Err((DeError::MissingElement, p))
    } else {
        match tag_lookup(e[p]->Start_0) {
            None => Err((DeError::UnknownTag, p)),
            Some(t) => if is_scalar(t) {
                let (text, q) = text_at(e, p + 1);
                if !end_at(e, q, t) {
                    Err((DeError::MissingElement, q))
                } else {
                    match scalar_value(t, text) {
                        Ok(v) => Ok((v, q + 1)),
                        Err(x) => Err((x, p)),
                    }
                }
            } else if t == Tag::Nil {
                if end_at(e, p + 1, Tag::Nil) {
                    Ok((ValueModel::Nil, p + 2))
                } else {
                    Err((DeError::MissingElement, p + 1))
                }
            } else if t == Tag::Struct {
                if fuel == 0 {
                    Err((DeError::DepthExceeded, p))
                } else {
                    match parse_members(e, p + 1, (fuel - 1) as nat, Seq::empty()) {
                        Ok((m, q)) => if end_at(e, q, Tag::Struct) {
                            Ok((ValueModel::Struct(m), q + 1))
                        } else {
                            Err((DeError::MissingElement, q))
                        },
                        Err(x) => Err(x),
                    }
                }
            } else if t == Tag::Array {
                if fuel == 0 {
                    Err((DeError::DepthExceeded, p))
                } else if !start_at(e, p + 1, Tag::Data) {
                    Err((DeError::MissingElement, p + 1))
                } else {
                    match parse_elems(e, p + 2, (fuel - 1) as nat, Seq::empty()) {
                        Ok((a, q)) => if end_at(e, q, Tag::Data) && end_at(e, q + 1, Tag::Array) {
                            Ok((ValueModel::Array(a), q + 2))
                        } else {
                            Err((DeError::MissingElement, q))
                        },
                        Err(x) => Err(x),
                    }
                }
            } else {
                Err((DeError::UnknownTag, p))
            },
        }
    }
}

/// Reads the `<member>` elements from `p` on, adding each to `acc`; a later member replaces
/// an earlier one of the same name.
pub open spec fn parse_members(
    e: Seq<EventModel>,
    p: int,
    fuel: nat,
    acc: Seq<(Seq<char>, ValueModel)>,
) -> Result<(Seq<(Seq<char>, ValueModel)>, int), (DeError, int)>
    decreases fuel, e.len() - p, 3int,
{
    if !start_at(e, p, Tag::Member) {
        Ok((acc, p))
    } else if !start_at(e, p + 1, Tag::Name) {
        Err((DeError::StructFormat, p))
    } else {
        let (n, q) = text_at(e, p + 2);
        if !end_at(e, q, Tag::Name) || !start_at(e, q + 1, Tag::Value) {
            Err((DeError::StructFormat, p))
        } else {
            match parse_value(e, q + 1, fuel) {
                Err(x) => Err(x),
                Ok((v, r)) => if !end_at(e, r, Tag::Member) || r < p {
                    Err((DeError::StructFormat, p))
                } else {
                    parse_members(e, r + 1, fuel, insert_member_spec(acc, n, v))
                },
            }
        }
    }
}

/// Reads the `<value>` elements from `p` on, appending each to `acc`.
pub open spec fn parse_elems(e: Seq<EventModel>, p: int, fuel: nat, acc: Seq<ValueModel>) -> Result<
    (Seq<ValueModel>, int),
    (DeError, int),
>
    decreases fuel, e.len() - p, 3int,
{
    if !start_at(e, p, Tag::Value) {
        Ok((acc, p))
    } else {
        match parse_value(e, p, fuel) {
            Err(x) => Err(x),
            Ok((v, r)) => if r <= p || r > e.len() {
                Err((DeError::MissingElement, p))
            } else {
                parse_elems(e, r, fuel, acc.push(v))
            },
        }
    }
}

/// What a whole document reads as, with `max_depth` levels of nesting allowed.
pub open spec fn deserialize_spec(e: Seq<EventModel>, max_depth: nat) -> Result<
    ValueModel,
    (DeError, int),
> {
    match parse_value(e, 0, max_depth) {
        Ok((v, q)) => if q == e.len() {
            Ok(v)
        } else {
            Err((DeError::MissingElement, q))
        },
        Err(x) => Err(x),
    }
}

pub open spec fn value_result(r: Result<(Value, usize), ParseError>, s: Result<(ValueModel, int), (DeError, int)>) -> bool {
    match r {
        Ok((v, q)) => s == Ok::<(ValueModel, int), (DeError, int)>((v@, q as int)),
        Err(x) => s == Err::<(ValueModel, int), (DeError, int)>((x.kind, x.position as int)),
    }
}

fn start_is(e: &Vec<XmlEvent>, p: usize, t: Tag) -> (r: bool)
    ensures
        r == start_at(events_view(e@), p as int, t),
{
    if p >= e.len() {
        return false;
    }
    match &e[p] {
        XmlEvent::Start(n) => str_eq(n.as_str(), tag_str(t)),
        _ => false,
    }
}

fn end_is(e: &Vec<XmlEvent>, p: usize, t: Tag) -> (r: bool)
    ensures
        r == end_at(events_view(e@), p as int, t),
{
    if p >= e.len() {
        return false;
    }
    match &e[p] {
        XmlEvent::End(n) => str_eq(n.as_str(), tag_str(t)),
        _ => false,
    }
}

fn text_of(e: &Vec<XmlEvent>, p: usize) -> (r: (String, usize))
    ensures
        (r.0@, r.1 as int) == text_at(events_view(e@), p as int),
{
    if p < e.len() {
        match &e[p] {
            XmlEvent::Text(t) => {
                return (t.clone(), p + 1);
            },
            _ => {},
        }
    }
    (String::new(), p)
}

/// The tag that an element name stands for.
fn lookup_tag(s: &str) -> (r: Option<Tag>)
    ensures
        r == tag_lookup(s@),
{
    if str_eq(s, tag_str(Tag::Value)) {
        Some(Tag::Value)
    } else if str_eq(s, tag_str(Tag::I4)) {
        Some(Tag::I4)
    } else if str_eq(s, tag_str(Tag::Int)) {
        Some(Tag::Int)
    } else if str_eq(s, tag_str(Tag::I8)) {
        Some(Tag::I8)
    } else if str_eq(s, tag_str(Tag::Boolean)) {
        Some(Tag::Boolean)
    } else if str_eq(s, tag_str(Tag::Str)) {
        Some(Tag::Str)
    } else if str_eq(s, tag_str(Tag::Double)) {
        Some(Tag::Double)
    } else if str_eq(s, tag_str(Tag::DateTime)) {
        Some(Tag::DateTime)
    } else if str_eq(s, tag_str(Tag::Base64)) {
        Some(Tag::Base64)
    } else if str_eq(s, tag_str(Tag::Struct)) {
        Some(Tag::Struct)
    } else if str_eq(s, tag_str(Tag::Member)) {
        Some(Tag::Member)
    } else if str_eq(s, tag_str(Tag::Name)) {
        Some(Tag::Name)
    } else if str_eq(s, tag_str(Tag::Array)) {
        Some(Tag::Array)
    } else if str_eq(s, tag_str(Tag::Data)) {
        Some(Tag::Data)
    } else if str_eq(s, tag_str(Tag::Nil)) {
        Some(Tag::Nil)
    } else {
        None
    }
}

/// The value that the text of a scalar element stands for.
pub fn scalar_from_text(t: Tag, text: String) -> (r: Result<Value, DeError>)
    ensures
        match r {
            Ok(v) => scalar_value(t, text@) == Ok::<ValueModel, DeError>(v@),
            Err(x) => scalar_value(t, text@) == Err::<ValueModel, DeError>(x),
        },
{
    match t {
        Tag::I4 | Tag::Int => match parse_int_in_range(trim_text(text.as_str()), i32::MIN as i64, i32::MAX as i64) {
            Some(n) => Ok(Value::Int(n as i32)),
            None => Err(DeError::IntegerFormat),
        },
        Tag::I8 => match parse_int_in_range(trim_text(text.as_str()), i64::MIN, i64::MAX) {
            Some(n) => Ok(Value::Int64(n)),
            None => Err(DeError::IntegerFormat),
        },
        Tag::Boolean => match bool_of_text(trim_text(text.as_str())) {
            Some(b) => Ok(Value::Bool(b)),
            None => Err(DeError::BooleanFormat),
        },
        Tag::Str => Ok(Value::String(text)),
        Tag::Double => {
            let lit = trim_text(text.as_str());
            if check_double_literal(lit) {
                Ok(Value::Double(String::from_str(lit)))
            } else {
                Err(DeError::DoubleFormat)
            }
        },
        Tag::DateTime => match parse_iso_datetime(trim_text(text.as_str())) {
            Some(d) => Ok(Value::DateTime(d)),
            None => Err(DeError::DateTimeFormat),
        },
        Tag::Base64 => match decode_base64(&strip_ws_chars(text.as_str())) {
            Some(b) => Ok(Value::Base64(b)),
            None => Err(DeError::Base64Format),
        },
        _ => Err(DeError::UnknownTag),
    }
}

fn read_value(e: &Vec<XmlEvent>, p: usize, fuel: usize) -> (r: Result<(Value, usize), ParseError>)
    ensures
        value_result(r, parse_value(events_view(e@), p as int, fuel as nat)),
        r matches Ok((_, q)) ==> p < q <= e.len(),
    decreases fuel, e.len() - p, 2int,
{
    if !start_is(e, p, Tag::Value) || p + 1 >= e.len() {
        return Err(ParseError { kind: DeError::MissingElement, position: p });
    }
    match &e[p + 1] {
        XmlEvent::Text(t) => {
            if end_is(e, p + 2, Tag::Value) {
                Ok((Value::String(t.clone()), p + 3))
            } else {
                Err(ParseError { kind: DeError::MissingElement, position: p + 2 })
            }
        },
        XmlEvent::End(n) => {
            if str_eq(n.as_str(), tag_str(Tag::Value)) {
                let s = String::new();
                assert(s@ =~= Seq::<char>::empty());
                Ok((Value::String(s), p + 2))
            } else {
                Err(ParseError { kind: DeError::MissingElement, position: p + 1 })
            }
        },
        XmlEvent::Start(_) => {
            match read_typed(e, p + 1, fuel) {
                Ok((v, q)) => {
                    if end_is(e, q, Tag::Value) {
                        Ok((v, q + 1))
                    } else {
                        Err(ParseError { kind: DeError::MissingElement, position: q })
                    }
                },
                Err(x) => Err(x),
            }
        },
    }
}

fn read_typed(e: &Vec<XmlEvent>, p: usize, fuel: usize) -> (r: Result<(Value, usize), ParseError>)
    requires
        p < e.len(),
    ensures
        value_result(r, parse_typed(events_view(e@), p as int, fuel as nat)),
        r matches Ok((_, q)) ==> p < q <= e.len(),
    decreases fuel, e.len() - p, 1int,
{
    let name = match &e[p] {
        XmlEvent::Start(n) => n,
        _ => {
            return Err(ParseError { kind: DeError::MissingElement, position: p });
        },
    };
    let t = match lookup_tag(name.as_str()) {
        Some(t) => t,
        None => {
            return Err(ParseError { kind: DeError::UnknownTag, position: p });
        },
    };
    match t {
        Tag::I4 | Tag::Int | Tag::I8 | Tag::Boolean | Tag::Str | Tag::Double | Tag::DateTime
        | Tag::Base64 => {
            let (text, q) = text_of(e, p + 1);
            if !end_is(e, q, t) {
                return Err(ParseError { kind: DeError::MissingElement, position: q });
            }
            match scalar_from_text(t, text) {
                Ok(v) => Ok((v, q + 1)),
                Err(x) => Err(ParseError { kind: x, position: p }),
            }
        },
        Tag::Nil => {
            if end_is(e, p + 1, Tag::Nil) {
                Ok((Value::Nil, p + 2))
            } else {
                Err(ParseError { kind: DeError::MissingElement, position: p + 1 })
            }
        },
        Tag::Struct => {
            if fuel == 0 {
                return Err(ParseError { kind: DeError::DepthExceeded, position: p });
            }
            match read_members(e, p + 1, fuel - 1) {
                Ok((m, q)) => {
                    if end_is(e, q, Tag::Struct) {
                        Ok((Value::Struct(m), q + 1))
                    } else {
                        Err(ParseError { kind: DeError::MissingElement, position: q })
                    }
                },
                Err(x) => Err(x),
            }
        },
        Tag::Array => {
            if fuel == 0 {
                return Err(ParseError { kind: DeError::DepthExceeded, position: p });
            }
            if !start_is(e, p + 1, Tag::Data) {
                return Err(ParseError { kind: DeError::MissingElement, position: p + 1 });
            }
            match read_elems(e, p + 2, fuel - 1) {
                Ok((a, q)) => {
                    if end_is(e, q, Tag::Data) && end_is(e, q + 1, Tag::Array) {
                        Ok((Value::Array(a), q + 2))
                    } else {
                        Err(ParseError { kind: DeError::MissingElement, position: q })
                    }
                },
                Err(x) => Err(x),
            }
        },
        _ => Err(ParseError { kind: DeError::UnknownTag, position: p }),
    }
}

fn read_members(e: &Vec<XmlEvent>, from: usize, fuel: usize) -> (r: Result<(Vec<(String, Value)>, usize), ParseError>)
    requires
        from <= e.len(),
    ensures
        match r {
            Ok((m, q)) => parse_members(events_view(e@), from as int, fuel as nat, Seq::empty())
                == Ok::<(Seq<(Seq<char>, ValueModel)>, int), (DeError, int)>((view_members(m@), q as int))
                && from <= q <= e.len(),
            Err(x) => parse_members(events_view(e@), from as int, fuel as nat, Seq::empty())
                == Err::<(Seq<(Seq<char>, ValueModel)>, int), (DeError, int)>((x.kind, x.position as int)),
        },
    decreases fuel, e.len() - from, 3int,
{
    let ghost ev = events_view(e@);
    let mut acc: Vec<(String, Value)> = Vec::new();
    let mut p: usize = from;
    proof {
        assert(view_members(acc@) =~= Seq::<(Seq<char>, ValueModel)>::empty());
    }
    loop
        invariant
            ev == events_view(e@),
            from <= p <= e.len(),
            names_unique(view_members(acc@)),
            parse_members(ev, p as int, fuel as nat, view_members(acc@))
                == parse_members(ev, from as int, fuel as nat, Seq::empty()),
        decreases e.len() - p,
    {
        if !start_is(e, p, Tag::Member) {
            return Ok((acc, p));
        }
        if !start_is(e, p + 1, Tag::Name) {
            return Err(ParseError { kind: DeError::StructFormat, position: p });
        }
        let (name, q) = text_of(e, p + 2);
        if !end_is(e, q, Tag::Name) || !start_is(e, q + 1, Tag::Value) {
            return Err(ParseError { kind: DeError::StructFormat, position: p });
        }
        let (v, r) = match read_value(e, q + 1, fuel) {
            Ok(x) => x,
            Err(x) => {
                return Err(x);
            },
        };
        if !end_is(e, r, Tag::Member) || r < p {
            return Err(ParseError { kind: DeError::StructFormat, position: p });
        }
        insert_member(&mut acc, name, v);
        p = r + 1;
    }
}

fn read_elems(e: &Vec<XmlEvent>, from: usize, fuel: usize) -> (r: Result<(Vec<Value>, usize), ParseError>)
    requires
        from <= e.len(),
    ensures
        match r {
            Ok((a, q)) => parse_elems(events_view(e@), from as int, fuel as nat, Seq::empty())
                == Ok::<(Seq<ValueModel>, int), (DeError, int)>((view_values(a@), q as int))
                && from <= q <= e.len(),
            Err(x) => parse_elems(events_view(e@), from as int, fuel as nat, Seq::empty())
                == Err::<(Seq<ValueModel>, int), (DeError, int)>((x.kind, x.position as int)),
        },
    decreases fuel, e.len() - from, 3int,
{
    let ghost ev = events_view(e@);
    let mut acc: Vec<Value> = Vec::new();
    let mut p: usize = from;
    proof {
        assert(view_values(acc@) =~= Seq::<ValueModel>::empty());
    }
    loop
        invariant
            ev == events_view(e@),
            from <= p <= e.len(),
            parse_elems(ev, p as int, fuel as nat, view_values(acc@))
                == parse_elems(ev, from as int, fuel as nat, Seq::empty()),
        decreases e.len() - p,
    {
        if !start_is(e, p, Tag::Value) {
            return Ok((acc, p));
        }
        let (v, r) = match read_value(e, p, fuel) {
            Ok(x) => x,
            Err(x) => {
                return Err(x);
            },
        };
        if r <= p || r > e.len() {
            return Err(ParseError { kind: DeError::MissingElement, position: p });
        }
        proof {
            lemma_view_values_push(acc@, v);
        }
        acc.push(v);
        p = r;
    }
}

/// Reads a whole document as one value, with `max_depth` levels of struct and array nesting
/// allowed.
pub fn deserialize_with_depth(events: &Vec<XmlEvent>, max_depth: usize) -> (r: Result<Value, ParseError>)
    ensures
        match r {
            Ok(v) => deserialize_spec(events_view(events@), max_depth as nat) == Ok::<ValueModel, (DeError, int)>(v@),
            Err(x) => deserialize_spec(events_view(events@), max_depth as nat) == Err::<ValueModel, (DeError, int)>((x.kind, x.position as int)),
        },
{
    match read_value(events, 0, max_depth) {
        Ok((v, q)) => {
            if q == events.len() {
                Ok(v)
            } else {
                Err(ParseError { kind: DeError::MissingElement, position: q })
            }
        },
        Err(x) => Err(x),
    }
}

/// Reads a whole document as one value, with [`MAX_DEPTH`] levels of nesting allowed.
pub fn deserialize(events: &Vec<XmlEvent>) -> (r: Result<Value, ParseError>)
    ensures
        match r {
            Ok(v) => deserialize_spec(events_view(events@), MAX_DEPTH as nat) == Ok::<ValueModel, (DeError, int)>(v@),
            Err(x) => deserialize_spec(events_view(events@), MAX_DEPTH as nat) == Err::<ValueModel, (DeError, int)>((x.kind, x.position as int)),
        },
{
    deserialize_with_depth(events, MAX_DEPTH)
}

} // verus!
