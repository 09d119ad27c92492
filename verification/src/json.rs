//! The payload of an event: a JSON value, held as plain data.
//!
//! An event's payload is free-form on purpose, and the daemon reads a handful
//! of fields out of it (`entry`, `title`, `via`, ...). This is the value those
//! reads are stated over. Converting to and from the text that travels on the
//! wire and sits in the database happens at the edge of the daemon.

use vstd::prelude::*;

use crate::text::str_eq;

verus! {

/// A JSON value.
///
/// Numbers that fit an `i64` are `Int`; any other number keeps the text it
/// was written as, so it survives a round trip without being reinterpreted.
#[derive(Debug, PartialEq)]
pub enum Value {
    /// `null`.
    Null,
    /// `true` or `false`.
    Bool(bool),
    /// A whole number that fits an `i64`.
    Int(i64),
    /// Any other number, as written.
    Number(String),
    /// A string.
    Str(String),
    /// An array.
    Array(Vec<Value>),
    /// An object, as its members in order.
    Object(Vec<(String, Value)>),
}

/// The first member named `key` among `members`.
pub open spec fn member(members: Seq<(String, Value)>, key: Seq<char>) -> Option<Value>
    decreases members.len(),
{
    if members.len() == 0 {
        None
    } else if members[0].0@ == key {
        Some(members[0].1)
    } else {
        member(members.drop_first(), key)
    }
}

/// What `value[key]` names: the member of an object, or nothing.
pub open spec fn field(value: Value, key: Seq<char>) -> Option<Value> {
    match value {
        Value::Object(members) => member(members@, key),
        _ => None,
    }
}

/// `field(value, key)` read as an integer, as `serde_json`'s `as_i64` would.
pub open spec fn field_i64(value: Value, key: Seq<char>) -> Option<i64> {
    match field(value, key) {
        Some(Value::Int(n)) => Some(n),
        _ => None,
    }
}

/// `field(value, key)` read as a string.
pub open spec fn field_str(value: Value, key: Seq<char>) -> Option<Seq<char>> {
    match field(value, key) {
        Some(Value::Str(s)) => Some(s@),
        _ => None,
    }
}

/// `field(value, key)` read as a boolean.
pub open spec fn field_bool(value: Value, key: Seq<char>) -> Option<bool> {
    match field(value, key) {
        Some(Value::Bool(b)) => Some(b),
        _ => None,
    }
}

/// Whether `value` is an object with a member named `key`.
pub open spec fn has_field(value: Value, key: Seq<char>) -> bool {
    field(value, key) is Some
}

proof fn lemma_member_skip(members: Seq<(String, Value)>, i: int, key: Seq<char>)
    requires
        0 <= i <= members.len(),
        forall|j: int| 0 <= j < i ==> (#[trigger] members[j]).0@ != key,
    ensures
        member(members, key) == member(members.skip(i), key),
    decreases i,
{
    if i > 0 {
        assert(members[0].0@ != key);
        let t = members.drop_first();
        assert(member(members, key) == member(t, key));
        assert forall|j: int| 0 <= j < i - 1 implies (#[trigger] t[j]).0@ != key by {
            assert(t[j] == members[j + 1]);
        }
        lemma_member_skip(t, i - 1, key);
        assert(t.skip(i - 1) =~= members.skip(i));
    } else {
        assert(members.skip(0) =~= members);
    }
}

impl Value {
    /// An empty object, `{}`.
    pub fn empty_object() -> (r: Value)
        ensures
            r matches Value::Object(m) && m@.len() == 0,
    {
        Value::Object(Vec::new())
    }

    /// The member named `key`, when this is an object that has one.
    pub fn get(&self, key: &str) -> (r: Option<&Value>)
        ensures
            match r {
                Some(v) => field(*self, key@) == Some(*v),
                None => field(*self, key@) is None,
            },
    {
        match self {
            Value::Object(members) => {
                let mut i: usize = 0;
                assert(members@.skip(0) =~= members@);
                while i < members.len()
                    invariant
                        i <= members@.len(),
                        field(*self, key@) == member(members@, key@),
                        forall|j: int| 0 <= j < i ==> (#[trigger] members@[j]).0@ != key@,
                    decreases members@.len() - i,
                {
                    if str_eq(members[i].0.as_str(), key) {
                        proof {
                            lemma_member_skip(members@, i as int, key@);
                            let sk = members@.skip(i as int);
                            assert(sk[0] == members@[i as int]);
                            assert(sk[0].0@ == key@);
                            assert(member(sk, key@) == Some(sk[0].1));
                        }
                        return Some(&members[i].1);
                    }
                    i = i + 1;
                }
                proof {
                    lemma_member_skip(members@, i as int, key@);
                }
                None
            },
            _ => None,
        }
    }

    /// This value as an integer, if it is one.
    pub fn as_i64(&self) -> (r: Option<i64>)
        ensures
            r == (match *self {
                Value::Int(n) => Some(n),
                _ => None::<i64>,
            }),
    {
        match self {
            Value::Int(n) => Some(*n),
            _ => None,
        }
    }

    /// This value as a string, if it is one.
    pub fn as_str(&self) -> (r: Option<&String>)
        ensures
            match *self {
                Value::Str(s) => r == Some(&s),
                _ => r is None,
            },
    {
        match self {
            Value::Str(s) => Some(s),
            _ => None,
        }
    }

    /// This value as a boolean, if it is one.
    pub fn as_bool(&self) -> (r: Option<bool>)
        ensures
            r == (match *self {
                Value::Bool(b) => Some(b),
                _ => None::<bool>,
            }),
    {
        match self {
            Value::Bool(b) => Some(*b),
            _ => None,
        }
    }

    /// `self[key]` as an integer.
    pub fn get_i64(&self, key: &str) -> (r: Option<i64>)
        ensures
            r == field_i64(*self, key@),
    {
        match self.get(key) {
            Some(v) => v.as_i64(),
            None => None,
        }
    }

    /// `self[key]` as a string.
    pub fn get_str(&self, key: &str) -> (r: Option<String>)
        ensures
            match r {
                Some(s) => field_str(*self, key@) == Some(s@),
                None => field_str(*self, key@) is None,
            },
    {
        match self.get(key) {
            Some(v) => match v.as_str() {
                Some(s) => Some(s.clone()),
                None => None,
            },
            None => None,
        }
    }

    /// `self[key]` as a boolean.
    pub fn get_bool(&self, key: &str) -> (r: Option<bool>)
        ensures
            r == field_bool(*self, key@),
    {
        match self.get(key) {
            Some(v) => v.as_bool(),
            None => None,
        }
    }

    /// Add a member named `key`, unless this object already has one.
    ///
    /// A value that is not an object is left as it is.
    pub fn insert_if_absent(&mut self, key: String, v: Value)
        ensures
            match *old(self) {
                Value::Object(m) => if member(m@, key@) is Some {
                    *final(self) == *old(self)
                } else {
                    *final(self) matches Value::Object(n) && n@ == m@.push((key, v))
                },
                _ => *final(self) == *old(self),
            },
            has_field(*old(self), key@) ==> field(*final(self), key@) == field(*old(self), key@),
            (*old(self) is Object && !has_field(*old(self), key@)) ==> field(*final(self), key@)
                == Some(v),
            forall|k: Seq<char>| k != key@ ==> field(*final(self), k) == field(*old(self), k),
    {
        if self.get(key.as_str()).is_some() {
            return ;
        }
        match self {
            Value::Object(members) => {
                let ghost before = members@;
                let ghost key_view = key@;
                members.push((key, v));
                proof {
                    lemma_member_none(before, key_view);
                    assert forall|j: int| 0 <= j < before.len() implies (#[trigger] members@[j]).0@
                        != key_view by {
                        assert(members@[j] == before[j]);
                    }
                    lemma_member_skip(members@, before.len() as int, key_view);
                    assert(members@.skip(before.len() as int)[0] == (key, v));
                    assert forall|k: Seq<char>| k != key_view implies member(members@, k) == member(
                        before,
                        k,
                    ) by {
                        lemma_member_prefix(before, key, v, k);
                    }
                }
            },
            _ => {},
        }
    }
}

proof fn lemma_member_prefix(before: Seq<(String, Value)>, key: String, v: Value, k: Seq<char>)
    requires
        k != key@,
    ensures
        member(before.push((key, v)), k) == member(before, k),
    decreases before.len(),
{
    let p = before.push((key, v));
    if before.len() == 0 {
        assert(p[0] == (key, v));
        assert(p.drop_first() =~= Seq::<(String, Value)>::empty());
        assert(member(p, k) == member(p.drop_first(), k));
    } else {
        assert(p[0] == before[0]);
        assert(p.drop_first() =~= before.drop_first().push((key, v)));
        lemma_member_prefix(before.drop_first(), key, v, k);
        if before[0].0@ != k {
            assert(member(p, k) == member(p.drop_first(), k));
            assert(member(before, k) == member(before.drop_first(), k));
        }
    }
}

proof fn lemma_member_none(members: Seq<(String, Value)>, key: Seq<char>)
    requires
        member(members, key) is None,
    ensures
        forall|j: int| 0 <= j < members.len() ==> (#[trigger] members[j]).0@ != key,
    decreases members.len(),
{
    if members.len() > 0 {
        let t = members.drop_first();
        lemma_member_none(t, key);
        assert forall|j: int| 0 <= j < members.len() implies (#[trigger] members[j]).0@ != key by {
            if j > 0 {
                assert(members[j] == t[j - 1]);
            }
        }
    }
}

} // verus!
