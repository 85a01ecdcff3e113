use vstd::prelude::*;
use crate::json::{JsonValue, lookup, member};
use crate::linecache::{StyleSpan, LineData, LineMeta, UpdateOp, LineView, MetaView, OpView, ops_view};

verus! {

/// The first member named `key` at position `i`, no earlier one named so.
proof fn lemma_lookup_at(entries: Seq<(String, JsonValue)>, key: Seq<char>, i: int)
    requires
        0 <= i < entries.len(),
        entries[i].0@ == key,
        forall|j: int| 0 <= j < i ==> (#[trigger] entries[j]).0@ != key,
    ensures
        lookup(entries, key) == Some(entries[i].1),
    decreases i,
{
    if i > 0 {
        lemma_lookup_at(entries.drop_first(), key, i - 1);
    }
}

proof fn lemma_lookup_none(entries: Seq<(String, JsonValue)>, key: Seq<char>)
    requires
        forall|j: int| 0 <= j < entries.len() ==> (#[trigger] entries[j]).0@ != key,
    ensures
        lookup(entries, key) is None,
    decreases entries.len(),
{
    if entries.len() > 0 {
        lemma_lookup_none(entries.drop_first(), key);
    }
}

/// The member `key` of `v`, borrowed.
pub fn get_member<'a>(v: &'a JsonValue, key: &str) -> (r: Option<&'a JsonValue>)
    ensures
        match r {
            Some(x) => member(*v, key@) == Some(*x),
            None => member(*v, key@) is None,
        },
{
    match v {
        JsonValue::Object(entries) => {
            assert(member(*v, key@) == lookup(entries@, key@));
            let wanted = key.to_owned();
            let mut i: usize = 0;
            while i < entries.len()
                invariant
                    i <= entries@.len(),
                    wanted@ == key@,
                    member(*v, key@) == lookup(entries@, key@),
                    forall|j: int| 0 <= j < i ==> (#[trigger] entries@[j]).0@ != key@,
                decreases entries@.len() - i,
            {
                if entries[i].0 == wanted {
                    assert(entries@[i as int].0@ == key@);
                    proof { lemma_lookup_at(entries@, key@, i as int); }
                    let e = &entries[i];
                    assert(e.1 == entries@[i as int].1);
                    return Some(&e.1);
                }
                i = i + 1;
            }
            proof { lemma_lookup_none(entries@, key@); }
            None
        },
        _ => None,
    }
}

/// A non-negative integer that fits a `usize`.
pub open spec fn count_of(v: Option<JsonValue>) -> Option<nat> {
    match v {
        Some(JsonValue::Int(i)) => if 0 <= i && i <= usize::MAX { Some(i as nat) } else { None },
        _ => None,
    }
}

/// The items of an array member; a missing member counts as empty.
pub open spec fn list_of(v: Option<JsonValue>) -> Option<Seq<JsonValue>> {
    match v {
        None => Some(Seq::empty()),
        Some(JsonValue::Array(items)) => Some(items@),
        _ => None,
    }
}

/// The items of an array member that must be present.
pub open spec fn array_of(v: Option<JsonValue>) -> Option<Seq<JsonValue>> {
    match v {
        Some(JsonValue::Array(items)) => Some(items@),
        _ => None,
    }
}

pub open spec fn is_u64(v: JsonValue) -> bool {
    v matches JsonValue::Int(i) && i >= 0
}

pub open spec fn int_value(v: JsonValue) -> int {
    match v {
        JsonValue::Int(i) => i as int,
        _ => 0,
    }
}

/// The integers of an array whose items are all non-negative integers.
pub open spec fn u64s_of(items: Seq<JsonValue>) -> Option<Seq<u64>> {
    if forall|i: int| 0 <= i < items.len() ==> is_u64(#[trigger] items[i]) {
        Some(Seq::new(items.len(), |i: int| int_value(items[i]) as u64))
    } else {
        None
    }
}

/// Style spans from a flat list of (start, length, style id) triples.
pub open spec fn spans_of(ints: Seq<u64>) -> Option<Seq<StyleSpan>> {
    if ints.len() % 3 == 0 {
        Some(Seq::new(ints.len() / 3, |i: int| StyleSpan { start: ints[3 * i], len: ints[3 * i + 1], style_id: ints[3 * i + 2] }))
    } else {
        None
    }
}

/// The cursors and styles of a line object.
pub open spec fn meta_of(v: JsonValue) -> Option<MetaView> {
    match list_of(member(v, "cursor"@)) {
        Some(cs) => match u64s_of(cs) {
            Some(cursors) => match list_of(member(v, "styles"@)) {
                Some(ss) => match u64s_of(ss) {
                    Some(flat) => match spans_of(flat) {
                        Some(styles) => Some(MetaView { cursors, styles }),
                        None => None,
                    },
                    None => None,
                },
                None => None,
            },
            None => None,
        },
        None => None,
    }
}

/// A line object with its text.
pub open spec fn line_of(v: JsonValue) -> Option<LineView> {
    match member(v, "text"@) {
        Some(JsonValue::Str(t)) => match meta_of(v) {
            Some(m) => Some(LineView::Valid { text: t@, cursors: m.cursors, styles: m.styles }),
            None => None,
        },
        _ => None,
    }
}

pub open spec fn lines_of(items: Seq<JsonValue>) -> Option<Seq<LineView>> {
    if forall|i: int| 0 <= i < items.len() ==> (#[trigger] line_of(items[i])) is Some {
        Some(Seq::new(items.len(), |i: int| line_of(items[i])->0))
    } else {
        None
    }
}

pub open spec fn metas_of(items: Seq<JsonValue>) -> Option<Seq<MetaView>> {
    if forall|i: int| 0 <= i < items.len() ==> (#[trigger] meta_of(items[i])) is Some {
        Some(Seq::new(items.len(), |i: int| meta_of(items[i])->0))
    } else {
        None
    }
}


/// One operation object of an update batch.
pub open spec fn op_of(v: JsonValue) -> Option<OpView> {
    match member(v, "op"@) {
        Some(JsonValue::Str(name)) => if name@ == "copy"@ {
            match count_of(member(v, "n"@)) {
                Some(n) => Some(OpView::Copy(n)),
                None => None,
            }
        } else if name@ == "skip"@ {
            match count_of(member(v, "n"@)) {
                Some(n) => Some(OpView::Skip(n)),
                None => None,
            }
        } else if name@ == "invalidate"@ {
            match count_of(member(v, "n"@)) {
                Some(n) => Some(OpView::Invalidate(n)),
                None => None,
            }
        } else if name@ == "ins"@ {
            match (count_of(member(v, "n"@)), array_of(member(v, "lines"@))) {
                (Some(n), Some(items)) => match lines_of(items) {
                    Some(ls) => if ls.len() == n { Some(OpView::Insert(ls)) } else { None },
                    None => None,
                },
                _ => None,
            }
        } else if name@ == "update"@ {
            match (count_of(member(v, "n"@)), array_of(member(v, "lines"@))) {
                (Some(n), Some(items)) => match metas_of(items) {
                    Some(ms) => if ms.len() == n { Some(OpView::Update(ms)) } else { None },
                    None => None,
                },
                _ => None,
            }
        } else {
            None
        },
        _ => None,
    }
}

pub open spec fn ops_of(items: Seq<JsonValue>) -> Option<Seq<OpView>> {
    if forall|i: int| 0 <= i < items.len() ==> (#[trigger] op_of(items[i])) is Some {
        Some(Seq::new(items.len(), |i: int| op_of(items[i])->0))
    } else {
        None
    }
}

/// The batch of an `update` notification's params: `update.ops`.
pub open spec fn batch_of(params: JsonValue) -> Option<Seq<OpView>> {
    match member(params, "update"@) {
        Some(u) => match member(u, "ops"@) {
            Some(JsonValue::Array(items)) => ops_of(items@),
            _ => None,
        },
        None => None,
    }
}

/// The view id of a notification's params.
pub open spec fn view_id_of(params: JsonValue) -> Option<Seq<char>> {
    match member(params, "view_id"@) {
        Some(JsonValue::Str(s)) => Some(s@),
        _ => None,
    }
}

fn decode_count(v: Option<&JsonValue>) -> (r: Option<usize>)
    ensures
        match r {
            Some(n) => count_of(match v { Some(x) => Some(*x), None => None }) == Some(n as nat),
            None => count_of(match v { Some(x) => Some(*x), None => None }) is None,
        },
{
    match v {
        Some(JsonValue::Int(i)) => {
            if *i >= 0 && (*i as u64) <= usize::MAX as u64 {
                Some(*i as usize)
            } else {
                None
            }
        },
        _ => None,
    }
}

fn decode_u64s(v: Option<&JsonValue>) -> (r: Option<Vec<u64>>)
    ensures
        match list_of(match v { Some(x) => Some(*x), None => None }) {
            Some(items) => match r {
                Some(out) => u64s_of(items) == Some(out@),
                None => u64s_of(items) is None,
            },
            None => r is None,
        },
{
    match v {
        None => {
            let out: Vec<u64> = Vec::new();
            assert(out@ =~= Seq::new(0, |i: int| int_value(Seq::<JsonValue>::empty()[i]) as u64));
            Some(out)
        },
        Some(JsonValue::Array(items)) => {
            let mut out: Vec<u64> = Vec::new();
            let mut i: usize = 0;
            while i < items.len()
                invariant
                    i <= items@.len(),
                    list_of(match v { Some(x) => Some(*x), None => None }) == Some(items@),
                    out@.len() == i,
                    forall|j: int| 0 <= j < i ==> is_u64(#[trigger] items@[j]),
                    forall|j: int| 0 <= j < i ==> out@[j] == int_value(#[trigger] items@[j]) as u64,
                decreases items@.len() - i,
            {
                match &items[i] {
                    JsonValue::Int(x) => {
                        if *x >= 0 {
                            out.push(*x as u64);
                        } else {
                            assert(!is_u64(items@[i as int]));
                            return None;
                        }
                    },
                    _ => {
                        assert(!is_u64(items@[i as int]));
                        return None;
                    },
                }
                i = i + 1;
            }
            assert(out@ =~= Seq::new(items@.len(), |j: int| int_value(items@[j]) as u64));
            Some(out)
        },
        _ => None,
    }
}

fn spans_from(flat: &Vec<u64>) -> (r: Option<Vec<StyleSpan>>)
    ensures
        match r {
            Some(out) => spans_of(flat@) == Some(out@),
            None => spans_of(flat@) is None,
        },
{
    if flat.len() % 3 != 0 {
        return None;
    }
    let total = flat.len();
    let n = total / 3;
    let mut out: Vec<StyleSpan> = Vec::new();
    let mut i: usize = 0;
    let mut k: usize = 0;
    while i < n
        invariant
            i <= n,
            k == 3 * i,
            n == flat@.len() / 3,
            total == flat@.len(),
            flat@.len() % 3 == 0,
            out@.len() == i,
            forall|j: int| 0 <= j < i ==> #[trigger] out@[j] == (StyleSpan { start: flat@[3 * j], len: flat@[3 * j + 1], style_id: flat@[3 * j + 2] }),
        decreases n - i,
    {
        assert(k + 3 <= flat@.len()) by (nonlinear_arith)
            requires k == 3 * i, i < n, n == flat@.len() / 3, flat@.len() % 3 == 0;
        assert(k + 3 <= flat@.len());
        let start = flat[k];
        let len = flat[k + 1];
        let style_id = flat[k + 2];
        out.push(StyleSpan { start, len, style_id });
        i = i + 1;
        k = k + 3;
    }
    assert(out@ =~= Seq::new(flat@.len() / 3, |j: int| StyleSpan { start: flat@[3 * j], len: flat@[3 * j + 1], style_id: flat@[3 * j + 2] }));
    Some(out)
}

/// Reads the cursors and styles of a line object.
pub fn decode_meta(v: &JsonValue) -> (r: Option<LineMeta>)
    ensures
        match r {
            Some(m) => meta_of(*v) == Some(m@),
            None => meta_of(*v) is None,
        },
{
    let cursors = match decode_u64s(get_member(v, "cursor")) {
        Some(c) => c,
        None => return None,
    };
    let flat = match decode_u64s(get_member(v, "styles")) {
        Some(f) => f,
        None => return None,
    };
    let styles = match spans_from(&flat) {
        Some(s) => s,
        None => return None,
    };
    Some(LineMeta { cursors, styles })
}

/// Reads a line object.
pub fn decode_line(v: &JsonValue) -> (r: Option<LineData>)
    ensures
        match r {
            Some(d) => line_of(*v) == Some(d@),
            None => line_of(*v) is None,
        },
{
    let text = match get_member(v, "text") {
        Some(JsonValue::Str(t)) => t.clone(),
        _ => return None,
    };
    match decode_meta(v) {
        Some(m) => Some(LineData { text, cursors: m.cursors, styles: m.styles }),
        None => None,
    }
}


fn decode_lines(items: &Vec<JsonValue>) -> (r: Option<Vec<LineData>>)
    ensures
        match r {
            Some(out) => lines_of(items@) == Some(out@.map_values(|l: LineData| l@)),
            None => lines_of(items@) is None,
        },
{
    let mut out: Vec<LineData> = Vec::new();
    let mut i: usize = 0;
    while i < items.len()
        invariant
            i <= items@.len(),
            out@.len() == i,
            forall|j: int| 0 <= j < i ==> (#[trigger] line_of(items@[j])) is Some,
            forall|j: int| 0 <= j < i ==> Some((#[trigger] out@[j])@) == line_of(items@[j]),
        decreases items@.len() - i,
    {
        match decode_line(&items[i]) {
            Some(d) => out.push(d),
            None => return None,
        }
        i = i + 1;
    }
    assert(out@.map_values(|l: LineData| l@) =~= Seq::new(items@.len(), |j: int| line_of(items@[j])->0));
    Some(out)
}

fn decode_metas(items: &Vec<JsonValue>) -> (r: Option<Vec<LineMeta>>)
    ensures
        match r {
            Some(out) => metas_of(items@) == Some(out@.map_values(|m: LineMeta| m@)),
            None => metas_of(items@) is None,
        },
{
    let mut out: Vec<LineMeta> = Vec::new();
    let mut i: usize = 0;
    while i < items.len()
        invariant
            i <= items@.len(),
            out@.len() == i,
            forall|j: int| 0 <= j < i ==> (#[trigger] meta_of(items@[j])) is Some,
            forall|j: int| 0 <= j < i ==> Some((#[trigger] out@[j])@) == meta_of(items@[j]),
        decreases items@.len() - i,
    {
        match decode_meta(&items[i]) {
            Some(m) => out.push(m),
            None => return None,
        }
        i = i + 1;
    }
    assert(out@.map_values(|m: LineMeta| m@) =~= Seq::new(items@.len(), |j: int| meta_of(items@[j])->0));
    Some(out)
}

/// The items of the array member `key`.
fn array_member<'a>(v: &'a JsonValue, key: &str) -> (r: Option<&'a Vec<JsonValue>>)
    ensures
        match r {
            Some(items) => array_of(member(*v, key@)) == Some(items@),
            None => array_of(member(*v, key@)) is None,
        },
{
    match get_member(v, key) {
        Some(JsonValue::Array(items)) => Some(items),
        _ => None,
    }
}

/// Reads one operation object of an update batch.
pub fn decode_op(v: &JsonValue) -> (r: Option<UpdateOp>)
    ensures
        match r {
            Some(op) => op_of(*v) == Some(op@),
            None => op_of(*v) is None,
        },
{
    let name = match get_member(v, "op") {
        Some(JsonValue::Str(name)) => name,
        _ => return None,
    };
    let n = decode_count(get_member(v, "n"));
    if *name == "copy".to_owned() {
        match n {
            Some(n) => Some(UpdateOp::Copy(n)),
            None => None,
        }
    } else if *name == "skip".to_owned() {
        match n {
            Some(n) => Some(UpdateOp::Skip(n)),
            None => None,
        }
    } else if *name == "invalidate".to_owned() {
        match n {
            Some(n) => Some(UpdateOp::Invalidate(n)),
            None => None,
        }
    } else if *name == "ins".to_owned() {
        match (n, array_member(v, "lines")) {
            (Some(n), Some(items)) => match decode_lines(items) {
                Some(lines) => if lines.len() == n { Some(UpdateOp::Insert(lines)) } else { None },
                None => None,
            },
            _ => None,
        }
    } else if *name == "update".to_owned() {
        match (n, array_member(v, "lines")) {
            (Some(n), Some(items)) => match decode_metas(items) {
                Some(metas) => if metas.len() == n { Some(UpdateOp::Update(metas)) } else { None },
                None => None,
            },
            _ => None,
        }
    } else {
        None
    }
}

/// Reads the batch of an `update` notification's params.
pub fn decode_batch(params: &JsonValue) -> (r: Option<Vec<UpdateOp>>)
    ensures
        match r {
            Some(ops) => batch_of(*params) == Some(ops_view(ops@)),
            None => batch_of(*params) is None,
        },
{
    let items = match get_member(params, "update") {
        Some(u) => match get_member(u, "ops") {
            Some(JsonValue::Array(items)) => items,
            _ => return None,
        },
        None => return None,
    };
    let mut out: Vec<UpdateOp> = Vec::new();
    let mut i: usize = 0;
    while i < items.len()
        invariant
            i <= items@.len(),
            out@.len() == i,
            batch_of(*params) == ops_of(items@),
            forall|j: int| 0 <= j < i ==> (#[trigger] op_of(items@[j])) is Some,
            forall|j: int| 0 <= j < i ==> Some((#[trigger] out@[j])@) == op_of(items@[j]),
        decreases items@.len() - i,
    {
        match decode_op(&items[i]) {
            Some(op) => out.push(op),
            None => return None,
        }
        i = i + 1;
    }
    assert(ops_view(out@) =~= Seq::new(items@.len(), |j: int| op_of(items@[j])->0));
    Some(out)
}

/// Reads the view id of a notification's params.
pub fn decode_view_id(params: &JsonValue) -> (r: Option<String>)
    ensures
        match r {
            Some(id) => view_id_of(*params) == Some(id@),
            None => view_id_of(*params) is None,
        },
{
    match get_member(params, "view_id") {
        Some(JsonValue::Str(s)) => Some(s.clone()),
        _ => None,
    }
}

} // verus!
