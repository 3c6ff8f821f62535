use vstd::prelude::*;

verus! {

/// One structural event of an XML document: an opening tag, character data, or a closing
/// tag. Character data is held unescaped.
#[derive(Debug, PartialEq, Eq)]
pub enum XmlEvent {
    Start(String),
    Text(String),
    End(String),
}

/// The mathematical model of an [`XmlEvent`].
pub enum EventModel {
    Start(Seq<char>),
    Text(Seq<char>),
    End(Seq<char>),
}

impl View for XmlEvent {
    type V = EventModel;

    open spec fn view(&self) -> EventModel {
        match self {
            XmlEvent::Start(t) => EventModel::Start(t@),
            XmlEvent::Text(t) => EventModel::Text(t@),
            XmlEvent::End(t) => EventModel::End(t@),
        }
    }
}

pub open spec fn events_view(e: Seq<XmlEvent>) -> Seq<EventModel> {
    e.map_values(|x: XmlEvent| x@)
}

pub proof fn lemma_events_view_push(e: Seq<XmlEvent>, x: XmlEvent)
    ensures
        events_view(e.push(x)) == events_view(e).push(x@),
{
    assert(events_view(e.push(x)) =~= events_view(e).push(x@));
}

/// The element names of the wire grammar.
#[derive(Clone, Copy, Debug, PartialEq, Eq, Structural)]
pub enum Tag {
    Value,
    I4,
    Int,
    I8,
    Boolean,
    Str,
    Double,
    DateTime,
    Base64,
    Struct,
    Member,
    Name,
    Array,
    Data,
    Nil,
}

pub open spec fn tag_name(t: Tag) -> Seq<char> {
    match t {
        Tag::Value => seq!['v', 'a', 'l', 'u', 'e'],
        Tag::I4 => seq!['i', '4'],
        Tag::Int => seq!['i', 'n', 't'],
        Tag::I8 => seq!['i', '8'],
        Tag::Boolean => seq!['b', 'o', 'o', 'l', 'e', 'a', 'n'],
        Tag::Str => seq!['s', 't', 'r', 'i', 'n', 'g'],
        Tag::Double => seq!['d', 'o', 'u', 'b', 'l', 'e'],
        Tag::DateTime => seq![
            'd', 'a', 't', 'e', 'T', 'i', 'm', 'e', '.', 'i', 's', 'o', '8', '6', '0', '1',
        ],
        Tag::Base64 => seq!['b', 'a', 's', 'e', '6', '4'],
        Tag::Struct => seq!['s', 't', 'r', 'u', 'c', 't'],
        Tag::Member => seq!['m', 'e', 'm', 'b', 'e', 'r'],
        Tag::Name => seq!['n', 'a', 'm', 'e'],
        Tag::Array => seq!['a', 'r', 'r', 'a', 'y'],
        Tag::Data => seq!['d', 'a', 't', 'a'],
        Tag::Nil => seq!['n', 'i', 'l'],
    }
}

/// The element name of a tag.
pub fn tag_str(t: Tag) -> (r: &'static str)
    ensures
        r@ == tag_name(t),
{
    match t {
        Tag::Value => {
            proof { reveal_strlit("value"); }
            "value"
        },
        Tag::I4 => {
            proof { reveal_strlit("i4"); }
            "i4"
        },
        Tag::Int => {
            proof { reveal_strlit("int"); }
            "int"
        },
        Tag::I8 => {
            proof { reveal_strlit("i8"); }
            "i8"
        },
        Tag::Boolean => {
            proof { reveal_strlit("boolean"); }
            "boolean"
        },
        Tag::Str => {
            proof { reveal_strlit("string"); }
            "string"
        },
        Tag::Double => {
            proof { reveal_strlit("double"); }
            "double"
        },
        Tag::DateTime => {
            proof { reveal_strlit("dateTime.iso8601"); }
            "dateTime.iso8601"
        },
        Tag::Base64 => {
            proof { reveal_strlit("base64"); }
            "base64"
        },
        Tag::Struct => {
            proof { reveal_strlit("struct"); }
            "struct"
        },
        Tag::Member => {
            proof { reveal_strlit("member"); }
            "member"
        },
        Tag::Name => {
            proof { reveal_strlit("name"); }
            "name"
        },
        Tag::Array => {
            proof { reveal_strlit("array"); }
            "array"
        },
        Tag::Data => {
            proof { reveal_strlit("data"); }
            "data"
        },
        Tag::Nil => {
            proof { reveal_strlit("nil"); }
            "nil"
        },
    }
}

/// Distinct tags have distinct names.
pub proof fn lemma_tag_names_distinct(a: Tag, b: Tag)
    ensures
        tag_name(a) == tag_name(b) ==> a == b,
{
    if tag_name(a) == tag_name(b) && a != b {
        let x = tag_name(a);
        let y = tag_name(b);
        assert(x.len() == y.len());
        assert(x[0] == y[0]);
        if x.len() > 1 {
            assert(x[1] == y[1]);
        }
        if x.len() > 2 {
            assert(x[2] == y[2]);
        }
        if x.len() > 3 {
            assert(x[3] == y[3]);
        }
    }
}

} // verus!
