//! A configuration value tree: the part of a parsed configuration file
//! that the library reads. The surrounding I/O layer converts a parsed
//! file into this shape; everything read out of it is verified here.
use vstd::prelude::*;

verus! {

/// One configuration value: a string, a boolean, an integer, a table of
/// named values, or anything else (kept only for structure).
#[derive(Debug)]
pub enum Value {
    Str(String),
    Bool(bool),
    Int(i64),
    Table(Vec<(String, Value)>),
    Other,
}

/// The first value under `key` in a list of table entries.
pub open spec fn spec_lookup(entries: Seq<(String, Value)>, key: Seq<char>) -> Option<Value>
    decreases entries.len(),
{
    if entries.len() == 0 {
        None
    } else if entries[0].0@ == key {
        Some(entries[0].1)
    } else {
        spec_lookup(entries.drop_first(), key)
    }
}

/// The value under `key`, when this value is a table that has it.
pub open spec fn spec_get(v: Value, key: Seq<char>) -> Option<Value> {
    match v {
        Value::Table(entries) => spec_lookup(entries@, key),
        _ => None,
    }
}

impl Value {
    /// Looks `key` up in a table; `None` on any other kind of value.
    pub fn get<'a>(&'a self, key: &str) -> (r: Option<&'a Value>)
        ensures
            match r {
                Some(v) => spec_get(*self, key@) == Some(*v),
                None => spec_get(*self, key@) is None,
            },
    {
        match self {
            Value::Table(entries) => {
                let k: String = key.to_owned();
                let n: usize = entries.len();
                proof {
                    assert(entries@.subrange(0, n as int) =~= entries@);
                }
                let mut i: usize = 0;
                while i < n
                    invariant
                        i <= n == entries@.len(),
                        k@ == key@,
                        spec_get(*self, key@) == spec_lookup(entries@, key@),
                        spec_lookup(entries@, key@) == spec_lookup(
                            entries@.subrange(i as int, n as int),
                            key@,
                        ),
                    decreases n - i,
                {
                    proof {
                        assert(entries@.subrange(i as int, n as int).drop_first()
                            =~= entries@.subrange(i + 1, n as int));
                        assert(entries@.subrange(i as int, n as int)[0] == entries@[i as int]);
                        assert(entries@.subrange(i as int, n as int).len() > 0);
                        assert(spec_lookup(entries@.subrange(i as int, n as int), key@) == (
                        if entries@[i as int].0@ == key@ {
                            Some(entries@[i as int].1)
                        } else {
                            spec_lookup(entries@.subrange(i + 1, n as int), key@)
                        }));
                    }
                    if entries[i].0.eq(&k) {
                        proof {
                            assert(spec_get(*self, key@) == spec_lookup(entries@, key@));
                            assert(entries@[i as int].0@ == key@);
                            assert(spec_lookup(entries@, key@) == Some(entries@[i as int].1));
                        }
                        return Some(&entries[i].1);
                    }
                    i = i + 1;
                }
                None
            },
            _ => None,
        }
    }

    /// The held string, when this value is one.
    pub fn as_str<'a>(&'a self) -> (r: Option<&'a String>)
        ensures
            match r {
                Some(s) => self matches Value::Str(t) && t == *s,
                None => !(self matches Value::Str(_)),
            },
    {
        match self {
            Value::Str(s) => Some(s),
            _ => None,
        }
    }

    /// The held boolean, when this value is one.
    pub fn as_bool(&self) -> (r: Option<bool>)
        ensures
            match r {
                Some(b) => *self == Value::Bool(b),
                None => !(self matches Value::Bool(_)),
            },
    {
        match self {
            Value::Bool(b) => Some(*b),
            _ => None,
        }
    }

    /// The table entries, when this value is a table.
    pub fn as_table<'a>(&'a self) -> (r: Option<&'a Vec<(String, Value)>>)
        ensures
            match r {
                Some(es) => self matches Value::Table(t) && t == *es,
                None => !(self matches Value::Table(_)),
            },
    {
        match self {
            Value::Table(es) => Some(es),
            _ => None,
        }
    }
}

} // verus!
