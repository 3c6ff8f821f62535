use vstd::prelude::*;
use crate::text::{check_double_literal, is_double_literal};

verus! {

/// A calendar date in one of the three ISO-8601 forms.
#[derive(Clone, Copy, Debug, PartialEq, Eq, Structural)]
pub enum Date {
    /// Year, month and day.
    YMD { year: i32, month: u32, day: u32 },
    /// Year, week of the year and day of the week.
    Week { year: i32, ww: u32, d: u32 },
    /// Year and day of the year.
    Ordinal { year: i32, ddd: u32 },
}

/// A time of day with its offset from UTC.
#[derive(Clone, Copy, Debug, PartialEq, Eq, Structural)]
pub struct Time {
    pub hour: u32,
    pub minute: u32,
    pub second: u32,
    pub millisecond: u32,
    pub tz_offset_hours: i32,
    pub tz_offset_minutes: i32,
}

/// An ISO-8601 date and time.
#[derive(Clone, Copy, Debug, PartialEq, Eq, Structural)]
pub struct DateTime {
    pub date: Date,
    pub time: Time,
}

/// Any single XML-RPC value.
#[derive(Debug, PartialEq)]
pub enum Value {
    /// A 32-bit signed integer (`<i4>` or `<int>`).
    Int(i32),
    /// A 64-bit signed integer (`<i8>`).
    Int64(i64),
    /// A boolean (`<boolean>`, `0` or `1`).
    Bool(bool),
    /// A string (`<string>`).
    String(String),
    /// A double-precision number (`<double>`), held as its decimal literal.
    Double(String),
    /// An ISO-8601 date and time (`<dateTime.iso8601>`).
    DateTime(DateTime),
    /// Binary data (`<base64>`).
    Base64(Vec<u8>),
    /// Named members (`<struct>`); names are unique.
    Struct(Vec<(String, Value)>),
    /// An ordered list of values (`<array>`).
    Array(Vec<Value>),
    /// The empty value (`<nil/>`).
    Nil,
}

/// The mathematical model of a [`Value`].
pub enum ValueModel {
    Int(i32),
    Int64(i64),
    Bool(bool),
    Str(Seq<char>),
    Double(Seq<char>),
    DateTime(DateTime),
    Base64(Seq<u8>),
    Struct(Seq<(Seq<char>, ValueModel)>),
    Array(Seq<ValueModel>),
    Nil,
}

pub open spec fn view_values(s: Seq<Value>) -> Seq<ValueModel>
    decreases s,
{
    if s.len() == 0 {
        Seq::empty()
    } else {
        view_values(s.drop_last()).push(s.last().view())
    }
}

pub open spec fn view_members(s: Seq<(String, Value)>) -> Seq<(Seq<char>, ValueModel)>
    decreases s,
{
    if s.len() == 0 {
        Seq::empty()
    } else {
        view_members(s.drop_last()).push((s.last().0@, s.last().1.view()))
    }
}

impl View for Value {
    type V = ValueModel;

    open spec fn view(&self) -> ValueModel
        decreases self,
    {
        match self {
            Value::Int(i) => ValueModel::Int(*i),
            Value::Int64(i) => ValueModel::Int64(*i),
            Value::Bool(b) => ValueModel::Bool(*b),
            Value::String(s) => ValueModel::Str(s@),
            Value::Double(s) => ValueModel::Double(s@),
            Value::DateTime(d) => ValueModel::DateTime(*d),
            Value::Base64(b) => ValueModel::Base64(b@),
            Value::Struct(m) => ValueModel::Struct(view_members(m@)),
            Value::Array(a) => ValueModel::Array(view_values(a@)),
            Value::Nil => ValueModel::Nil,
        }
    }
}

impl Value {
    /// The payload of an `Int`; `None` for every other variant, `Int64` included.
    pub fn as_i32(&self) -> (r: Option<i32>)
        ensures
            r == (match self@ {
                ValueModel::Int(i) => Some(i),
                _ => None,
            }),
    {
        match self {
            Value::Int(i) => Some(*i),
            _ => None,
        }
    }

    /// A `Double` of the decimal literal `lit`; `None` where `lit` is not one.
    pub fn double_from_literal(lit: String) -> (r: Option<Value>)
        ensures
            r is Some <==> is_double_literal(lit@),
            r matches Some(v) ==> v@ == ValueModel::Double(lit@),
    {
        if check_double_literal(lit.as_str()) {
            Some(Value::Double(lit))
        } else {
            None
        }
    }

    /// A `Struct` of `members` in order, where a later member replaces an earlier one of the
    /// same name.
    pub fn struct_from_members(members: Vec<(String, Value)>) -> (r: Value)
        ensures
            r@ == ValueModel::Struct(members_inserted(view_members(members@))),
            names_unique(members_inserted(view_members(members@))),
    {
        let ghost src = view_members(members@);
        proof {
            lemma_view_members_len(members@);
        }
        let mut out: Vec<(String, Value)> = Vec::new();
        let ghost orig = members@;
        let mut rest = members;
        let n = rest.len();
        proof {
            assert(view_members(out@) =~= Seq::<(Seq<char>, ValueModel)>::empty());
            assert(src.take(0) =~= Seq::<(Seq<char>, ValueModel)>::empty());
            assert(orig.skip(0) =~= orig);
        }
        while rest.len() > 0
            invariant
                n == src.len(),
                n == orig.len(),
                src == view_members(orig),
                rest@.len() <= n,
                rest@ == orig.skip(n - rest@.len()),
                names_unique(view_members(out@)),
                view_members(out@) == members_inserted(src.take(n - rest@.len())),
            decreases rest.len(),
        {
            let ghost i = n - rest@.len();
            let (name, v) = rest.remove(0);
            proof {
                assert(rest@ =~= orig.skip(i + 1));
                lemma_view_members_index(orig, i);
                assert(src[i] == (name@, v@));
                assert(src.take(i + 1).drop_last() =~= src.take(i));
            }
            insert_member(&mut out, name, v);
        }
        proof {
            assert(src.take(n as int) =~= src);
        }
        Value::Struct(out)
    }

    /// The payload of an `Int64`; `None` for every other variant, `Int` included.
    pub fn as_i64(&self) -> (r: Option<i64>)
        ensures
            r == (match self@ {
                ValueModel::Int64(i) => Some(i),
                _ => None,
            }),
    {
        match self {
            Value::Int64(i) => Some(*i),
            _ => None,
        }
    }

    /// The payload of a `Bool`; `None` for every other variant.
    pub fn as_bool(&self) -> (r: Option<bool>)
        ensures
            r == (match self@ {
                ValueModel::Bool(b) => Some(b),
                _ => None,
            }),
    {
        match self {
            Value::Bool(b) => Some(*b),
            _ => None,
        }
    }

    /// The text of a `String`; `None` for every other variant.
    pub fn as_str(&self) -> (r: Option<&str>)
        ensures
            r is Some <==> self@ is Str,
            r matches Some(s) ==> self@ == ValueModel::Str(s@),
    {
        match self {
            Value::String(s) => Some(s.as_str()),
            _ => None,
        }
    }

    /// The decimal literal of a `Double`; `None` for every other variant.
    pub fn as_double_literal(&self) -> (r: Option<&str>)
        ensures
            r is Some <==> self@ is Double,
            r matches Some(s) ==> self@ == ValueModel::Double(s@),
    {
        match self {
            Value::Double(s) => Some(s.as_str()),
            _ => None,
        }
    }

    /// The payload of a `DateTime`; `None` for every other variant.
    pub fn as_datetime(&self) -> (r: Option<DateTime>)
        ensures
            r == (match self@ {
                ValueModel::DateTime(d) => Some(d),
                _ => None,
            }),
    {
        match self {
            Value::DateTime(d) => Some(*d),
            _ => None,
        }
    }

    /// The bytes of a `Base64`; `None` for every other variant.
    pub fn as_bytes(&self) -> (r: Option<&[u8]>)
        ensures
            r is Some <==> self@ is Base64,
            r matches Some(b) ==> self@ == ValueModel::Base64(b@),
    {
        match self {
            Value::Base64(b) => Some(b.as_slice()),
            _ => None,
        }
    }

    /// The members of a `Struct`; `None` for every other variant.
    pub fn as_struct(&self) -> (r: Option<&Vec<(String, Value)>>)
        ensures
            r is Some <==> self@ is Struct,
            r matches Some(m) ==> self@ == ValueModel::Struct(view_members(m@)),
    {
        match self {
            Value::Struct(m) => Some(m),
            _ => None,
        }
    }

    /// The elements of an `Array`; `None` for every other variant.
    pub fn as_array(&self) -> (r: Option<&[Value]>)
        ensures
            r is Some <==> self@ is Array,
            r matches Some(a) ==> self@ == ValueModel::Array(view_values(a@)),
    {
        match self {
            Value::Array(a) => Some(a.as_slice()),
            _ => None,
        }
    }
}

/// A native type that can be taken out of one variant of [`Value`].
pub trait FromValue: Sized {
    /// Whether `v` bears the variant that this type is taken from.
    spec fn accepts(v: ValueModel) -> bool;

    /// The value that `self` is the payload of.
    spec fn as_model(&self) -> ValueModel;

    /// The payload of `v`, or `None` where `v` bears another variant.
    fn from_value(v: &Value) -> (r: Option<Self>)
        ensures
            r is Some <==> Self::accepts(v@),
            r matches Some(x) ==> x.as_model() == v@,
    ;
}

impl FromValue for i32 {
    open spec fn accepts(v: ValueModel) -> bool {
        v is Int
    }

    open spec fn as_model(&self) -> ValueModel {
        ValueModel::Int(*self)
    }

    fn from_value(v: &Value) -> (r: Option<i32>) {
        v.as_i32()
    }
}

impl FromValue for i64 {
    open spec fn accepts(v: ValueModel) -> bool {
        v is Int64
    }

    open spec fn as_model(&self) -> ValueModel {
        ValueModel::Int64(*self)
    }

    fn from_value(v: &Value) -> (r: Option<i64>) {
        v.as_i64()
    }
}

impl FromValue for bool {
    open spec fn accepts(v: ValueModel) -> bool {
        v is Bool
    }

    open spec fn as_model(&self) -> ValueModel {
        ValueModel::Bool(*self)
    }

    fn from_value(v: &Value) -> (r: Option<bool>) {
        v.as_bool()
    }
}

impl FromValue for String {
    open spec fn accepts(v: ValueModel) -> bool {
        v is Str
    }

    open spec fn as_model(&self) -> ValueModel {
        ValueModel::Str(self@)
    }

    fn from_value(v: &Value) -> (r: Option<String>) {
        match v {
            Value::String(s) => Some(s.clone()),
            _ => None,
        }
    }
}

impl FromValue for DateTime {
    open spec fn accepts(v: ValueModel) -> bool {
        v is DateTime
    }

    open spec fn as_model(&self) -> ValueModel {
        ValueModel::DateTime(*self)
    }

    fn from_value(v: &Value) -> (r: Option<DateTime>) {
        v.as_datetime()
    }
}

impl FromValue for Vec<u8> {
    open spec fn accepts(v: ValueModel) -> bool {
        v is Base64
    }

    open spec fn as_model(&self) -> ValueModel {
        ValueModel::Base64(self@)
    }

    fn from_value(v: &Value) -> (r: Option<Vec<u8>>) {
        match v {
            Value::Base64(b) => {
                let c = b.clone();
                assert(c@ =~= b@);
                Some(c)
            },
            _ => None,
        }
    }
}

/// Destructures the first two values of `values` into a pair of native types; `None` where
/// fewer than two values are given or either of them bears another variant.
pub fn try_collect_value<A: FromValue, B: FromValue>(values: &[Value]) -> (r: Option<(A, B)>)
    ensures
        r is Some <==> (values@.len() >= 2 && A::accepts(values@[0]@) && B::accepts(
            values@[1]@,
        )),
        r matches Some(p) ==> p.0.as_model() == values@[0]@ && p.1.as_model() == values@[1]@,
{
    if values.len() < 2 {
        return None;
    }
    let a = match A::from_value(&values[0]) {
        Some(a) => a,
        None => return None,
    };
    let b = match B::from_value(&values[1]) {
        Some(b) => b,
        None => return None,
    };
    Some((a, b))
}

pub open spec fn names_unique(m: Seq<(Seq<char>, ValueModel)>) -> bool {
    forall|i: int, j: int| 0 <= i < m.len() && 0 <= j < m.len() && i != j ==> m[i].0 != m[j].0
}

/// The index of the member called `name`, if there is one.
pub open spec fn member_index(m: Seq<(Seq<char>, ValueModel)>, name: Seq<char>) -> Option<int> {
    if exists|i: int| 0 <= i < m.len() && m[i].0 == name {
        Some(choose|i: int| 0 <= i < m.len() && m[i].0 == name)
    } else {
        None
    }
}

/// Adding a member: a member of the same name is replaced in place, else the member is
/// appended.
pub open spec fn insert_member_spec(
    m: Seq<(Seq<char>, ValueModel)>,
    name: Seq<char>,
    v: ValueModel,
) -> Seq<(Seq<char>, ValueModel)> {
    match member_index(m, name) {
        Some(i) => m.update(i, (name, v)),
        None => m.push((name, v)),
    }
}

/// Members added one after another from the empty struct.
pub open spec fn members_inserted(m: Seq<(Seq<char>, ValueModel)>) -> Seq<(Seq<char>, ValueModel)>
    decreases m.len(),
{
    if m.len() == 0 {
        Seq::empty()
    } else {
        insert_member_spec(members_inserted(m.drop_last()), m.last().0, m.last().1)
    }
}

/// Adding a member whose name is taken replaces the earlier member: afterwards the name
/// stands for the value added last, and names stay unique.
pub proof fn lemma_last_member_wins(m: Seq<(Seq<char>, ValueModel)>, name: Seq<char>, v: ValueModel)
    requires
        names_unique(m),
    ensures
        member_index(insert_member_spec(m, name, v), name) matches Some(i)
            && insert_member_spec(m, name, v)[i] == (name, v),
        insert_member_spec(m, name, v).len() == if member_index(m, name) is Some {
            m.len()
        } else {
            m.len() + 1
        },
{
    let r = insert_member_spec(m, name, v);
    match member_index(m, name) {
        Some(i) => {
            assert(r[i] == (name, v));
            let c = choose|c: int| 0 <= c < r.len() && r[c].0 == name;
            if c != i {
                assert(m[c].0 == r[c].0);
                assert(m[i].0 == name);
            }
        },
        None => {
            let n = m.len() as int;
            assert(r[n] == (name, v));
            let c = choose|c: int| 0 <= c < r.len() && r[c].0 == name;
            if c != n {
                assert(m[c].0 == r[c].0);
            }
        },
    }
}

/// Adds `value` under `name` to the members `m`; a later member replaces an earlier one of
/// the same name.
pub fn insert_member(m: &mut Vec<(String, Value)>, name: String, value: Value)
    requires
        names_unique(view_members(old(m)@)),
    ensures
        view_members(final(m)@) == insert_member_spec(view_members(old(m)@), name@, value@),
        names_unique(view_members(final(m)@)),
{
    proof {
        lemma_view_members_len(m@);
    }
    let ghost vm = view_members(m@);
    let ghost nv = name@;
    let ghost vv = value@;
    let mut i: usize = 0;
    while i < m.len()
        invariant
            0 <= i <= m.len(),
            m@ == old(m)@,
            vm == view_members(m@),
            vm.len() == m@.len(),
            names_unique(vm),
            nv == name@,
            vv == value@,
            forall|k: int| 0 <= k < i ==> vm[k].0 != nv,
        decreases m.len() - i,
    {
        proof {
            lemma_view_members_index(m@, i as int);
        }
        if str_eq(m[i].0.as_str(), name.as_str()) {
            let ghost old_m = m@;
            let entry = (name, value);
            m.set(i, entry);
            proof {
                assert(vm[i as int].0 == nv);
                let c = choose|c: int| 0 <= c < vm.len() && vm[c].0 == nv;
                assert(c == i as int);
                assert(member_index(vm, nv) == Some(i as int));
                lemma_view_members_update(old_m, i as int, entry);
                let u = vm.update(i as int, (nv, vv));
                assert forall|a: int, b: int|
                    0 <= a < u.len() && 0 <= b < u.len() && a != b implies u[a].0 != u[b].0 by {
                    if a != i as int && b != i as int {
                        assert(vm[a].0 != vm[b].0);
                    } else if a == i as int {
                        assert(vm[i as int].0 != vm[b].0);
                    } else {
                        assert(vm[i as int].0 != vm[a].0);
                    }
                }
            }
            return;
        }
        i = i + 1;
    }
    let ghost old_m = m@;
    m.push((name, value));
    proof {
        assert(member_index(vm, nv) is None);
        assert(m@.drop_last() =~= old_m);
        assert(view_members(m@) == vm.push((nv, vv)));
        assert(names_unique(vm.push((nv, vv))));
    }
}

pub proof fn lemma_view_members_len(s: Seq<(String, Value)>)
    ensures
        view_members(s).len() == s.len(),
    decreases s.len(),
{
    if s.len() > 0 {
        lemma_view_members_len(s.drop_last());
        assert(view_members(s) == view_members(s.drop_last()).push((s.last().0@, s.last().1.view())));
    } else {
        assert(view_members(s) == Seq::<(Seq<char>, ValueModel)>::empty());
    }
}

pub proof fn lemma_view_members_index(s: Seq<(String, Value)>, i: int)
    requires
        0 <= i < s.len(),
    ensures
        view_members(s)[i] == (s[i].0@, s[i].1@),
        view_members(s).len() == s.len(),
    decreases s.len(),
{
    lemma_view_members_len(s);
    assert(view_members(s) == view_members(s.drop_last()).push((s.last().0@, s.last().1.view())));
    if i < s.len() - 1 {
        lemma_view_members_index(s.drop_last(), i);
    }
}

pub proof fn lemma_view_members_update(s: Seq<(String, Value)>, i: int, e: (String, Value))
    requires
        0 <= i < s.len(),
    ensures
        view_members(s.update(i, e)) == view_members(s).update(i, (e.0@, e.1@)),
    decreases s.len(),
{
    lemma_view_members_len(s);
    lemma_view_members_len(s.update(i, e));
    if i < s.len() - 1 {
        assert(s.update(i, e).drop_last() =~= s.drop_last().update(i, e));
        lemma_view_members_update(s.drop_last(), i, e);
    } else {
        assert(s.update(i, e).drop_last() =~= s.drop_last());
    }
    let u = s.update(i, e);
    assert(view_members(u) == view_members(u.drop_last()).push((u.last().0@, u.last().1.view())));
    assert(view_members(s) == view_members(s.drop_last()).push((s.last().0@, s.last().1.view())));
    assert(view_members(s.update(i, e)) =~= view_members(s).update(i, (e.0@, e.1@)));
}

pub proof fn lemma_view_values_len(s: Seq<Value>)
    ensures
        view_values(s).len() == s.len(),
    decreases s.len(),
{
    if s.len() > 0 {
        lemma_view_values_len(s.drop_last());
        assert(view_values(s) == view_values(s.drop_last()).push(s.last().view()));
    } else {
        assert(view_values(s) == Seq::<ValueModel>::empty());
    }
}

pub proof fn lemma_view_values_index(s: Seq<Value>, i: int)
    requires
        0 <= i < s.len(),
    ensures
        view_values(s)[i] == s[i]@,
        view_values(s).len() == s.len(),
    decreases s.len(),
{
    lemma_view_values_len(s);
    assert(view_values(s) == view_values(s.drop_last()).push(s.last().view()));
    if i < s.len() - 1 {
        lemma_view_values_index(s.drop_last(), i);
    }
}

pub proof fn lemma_view_values_push(s: Seq<Value>, v: Value)
    ensures
        view_values(s.push(v)) == view_values(s).push(v@),
{
    assert(s.push(v).drop_last() =~= s);
    let t = s.push(v);
    assert(view_values(t) == view_values(t.drop_last()).push(t.last().view()));
}

/// Whether two strings hold the same characters.
pub fn str_eq(a: &str, b: &str) -> (r: bool)
    ensures
        r == (a@ == b@),
{
    let n = a.unicode_len();
    if n != b.unicode_len() {
        return false;
    }
    let mut i: usize = 0;
    while i < n
        invariant
            n == a@.len(),
            n == b@.len(),
            0 <= i <= n,
            forall|k: int| 0 <= k < i ==> a@[k] == b@[k],
        decreases n - i,
    {
        if a.get_char(i) != b.get_char(i) {
            return false;
        }
        i = i + 1;
    }
    assert(a@ =~= b@);
    true
}

} // verus!

verus! {

pub proof fn lemma_array_elem_decreases(a: Vec<Value>, i: int)
    requires
        0 <= i < a.len(),
    ensures
        decreases_to!(Value::Array(a) => a@[i]),
{
    vstd::std_specs::vec::axiom_vec_index_decreases(a, i);
    let v = Value::Array(a);
    assert(decreases_to!(v => v->Array_0));
}

pub proof fn lemma_member_decreases(m: Vec<(String, Value)>, i: int)
    requires
        0 <= i < m.len(),
    ensures
        decreases_to!(Value::Struct(m) => m@[i].1),
{
    vstd::std_specs::vec::axiom_vec_index_decreases(m, i);
    let v = Value::Struct(m);
    assert(decreases_to!(v => v->Struct_0));
    assert(decreases_to!(m[i] => m[i].1));
}

} // verus!
