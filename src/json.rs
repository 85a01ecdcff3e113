use vstd::prelude::*;

verus! {

/// An open JSON value as it crosses the wire. Integers that fit an `i64` are
/// held as such; any other number keeps its decimal text.
#[derive(Debug)]
pub enum JsonValue {
    Null,
    Bool(bool),
    Int(i64),
    Number(String),
    Str(String),
    Array(Vec<JsonValue>),
    Object(Vec<(String, JsonValue)>),
}

/// The value of the first member named `key`.
pub open spec fn lookup(entries: Seq<(String, JsonValue)>, key: Seq<char>) -> Option<JsonValue>
    decreases entries.len(),
{
    if entries.len() == 0 {
        None
    } else if entries[0].0@ == key {
        Some(entries[0].1)
    } else {
        lookup(entries.drop_first(), key)
    }
}

/// The value of member `key` of an object; `None` for a missing member or a
/// value that is no object.
pub open spec fn member(v: JsonValue, key: Seq<char>) -> Option<JsonValue> {
    match v {
        JsonValue::Object(entries) => lookup(entries@, key),
        _ => None,
    }
}

/// Whether no two of `keys` are the same text.
pub open spec fn distinct_keys(keys: Seq<String>) -> bool {
    forall|i: int, j: int| 0 <= i < keys.len() && 0 <= j < keys.len() && i != j ==> keys[i]@ != keys[j]@
}

/// Takes out of an object's members the value of the first member named by
/// each of `keys`.
pub fn take_members(entries: Vec<(String, JsonValue)>, keys: &Vec<String>) -> (r: Vec<Option<JsonValue>>)
    requires
        distinct_keys(keys@),
    ensures
        r@.len() == keys@.len(),
        forall|j: int| 0 <= j < keys@.len() ==> r@[j] == lookup(entries@, keys@[j]@),
{
    let ghost s = entries@;
    let mut entries = entries;
    let mut found: Vec<Option<JsonValue>> = Vec::new();
    let mut j: usize = 0;
    while j < keys.len()
        invariant
            j <= keys@.len(),
            found@.len() == j,
            forall|i: int| 0 <= i < j ==> found@[i] is None,
        decreases keys@.len() - j,
    {
        found.push(None);
        j = j + 1;
    }
    assert(s.subrange(s.len() as int, s.len() as int).len() == 0);
    while entries.len() > 0
        invariant
            entries@ == s.take(entries@.len() as int),
            entries@.len() <= s.len(),
            found@.len() == keys@.len(),
            distinct_keys(keys@),
            forall|i: int| 0 <= i < keys@.len() ==> found@[i] == lookup(s.subrange(entries@.len() as int, s.len() as int), keys@[i]@),
        decreases entries@.len(),
    {
        let ghost n = entries@.len();
        let ghost prev = found@;
        let (k, v) = entries.pop().unwrap();
        proof {
            assert(s.subrange(n - 1, s.len() as int)[0] == s[n - 1]);
            assert(s.subrange(n - 1, s.len() as int).drop_first() =~= s.subrange(n as int, s.len() as int));
            assert(entries@ =~= s.take(n - 1));
        }
        let mut i: usize = 0;
        let mut hit = false;
        while i < keys.len() && !hit
            invariant
                i <= keys@.len(),
                hit ==> i < keys@.len() && keys@[i as int]@ == k@,
                !hit ==> forall|m: int| 0 <= m < i ==> keys@[m]@ != k@,
            decreases keys@.len() - i, if hit { 0int } else { 1int },
        {
            if keys[i] == k {
                hit = true;
            } else {
                i = i + 1;
            }
        }
        if hit {
            found.set(i, Some(v));
        }
    }
    assert(s.subrange(0, s.len() as int) =~= s);
    found
}

} // verus!
