use vstd::prelude::*;
use crate::json::JsonValue;
use crate::linecache::{Line, LineCache, LineView, apply_batch, lines_view, ops_view};
use crate::decode::{batch_of, view_id_of, decode_batch, decode_view_id};
use crate::channel::CoreMsg;

verus! {

/// What the UI layer must do after a message was handled.
#[derive(Debug)]
pub enum Action {
    /// The view's lines changed: repaint it.
    Repaint(String),
    /// The view's cache fell out of step with the core and was emptied: ask
    /// the core for its lines again.
    Resync(String),
    /// A notification for a view that is not open; it was dropped.
    UnknownView(String),
    /// An `update` notification whose params could not be read; it was dropped.
    Malformed,
    /// Any other notification, for the UI layer's own callbacks.
    Forward(String),
    /// Run the deferred task with this token.
    RunIdle(u64),
}

pub struct ViewEntry {
    pub view_id: String,
    pub cache: LineCache,
}

/// The open views and their line caches, owned by the UI thread.
pub struct Controller {
    views: Vec<ViewEntry>,
}

pub open spec fn ids_unique(views: Seq<(Seq<char>, Seq<LineView>)>) -> bool {
    forall|i: int, j: int| 0 <= i < views.len() && 0 <= j < views.len() && i != j ==> (#[trigger] views[i]).0 != (#[trigger] views[j]).0
}

pub open spec fn has_view(views: Seq<(Seq<char>, Seq<LineView>)>, id: Seq<char>) -> bool {
    exists|i: int| 0 <= i < views.len() && (#[trigger] views[i]).0 == id
}

pub open spec fn view_index(views: Seq<(Seq<char>, Seq<LineView>)>, id: Seq<char>) -> int {
    choose|i: int| 0 <= i < views.len() && (#[trigger] views[i]).0 == id
}

/// The views and the action after an `update` notification with `params`.
pub open spec fn after_update(views: Seq<(Seq<char>, Seq<LineView>)>, params: JsonValue) -> (Seq<(Seq<char>, Seq<LineView>)>, Option<bool>) {
    match (view_id_of(params), batch_of(params)) {
        (Some(id), Some(ops)) => if has_view(views, id) {
            let p = view_index(views, id);
            match apply_batch(views[p].1, ops) {
                Some(lines) => (views.update(p, (id, lines)), Some(true)),
                None => (views.update(p, (id, Seq::empty())), Some(false)),
            }
        } else {
            (views, None)
        },
        _ => (views, None),
    }
}

/// The params of a `new_view` request: the file to open, if any.
pub fn new_view_params(path: Option<String>) -> (r: JsonValue)
    ensures
        r matches JsonValue::Object(m) && match path {
            Some(p) => m@.len() == 1 && m@[0].0@ == "file_path"@ && m@[0].1 == JsonValue::Str(p),
            None => m@.len() == 0,
        },
{
    let mut m: Vec<(String, JsonValue)> = Vec::new();
    match path {
        Some(p) => m.push(("file_path".to_owned(), JsonValue::Str(p))),
        None => {},
    }
    JsonValue::Object(m)
}

/// The params of an `edit` notification: an edit command for one view.
pub fn edit_params(view_id: String, method: String, params: JsonValue) -> (r: JsonValue)
    ensures
        r matches JsonValue::Object(m) && m@.len() == 3
            && m@[0].0@ == "view_id"@ && m@[0].1 == JsonValue::Str(view_id)
            && m@[1].0@ == "method"@ && m@[1].1 == JsonValue::Str(method)
            && m@[2].0@ == "params"@ && m@[2].1 == params,
{
    let mut m: Vec<(String, JsonValue)> = Vec::new();
    m.push(("view_id".to_owned(), JsonValue::Str(view_id)));
    m.push(("method".to_owned(), JsonValue::Str(method)));
    m.push(("params".to_owned(), params));
    JsonValue::Object(m)
}

impl View for Controller {
    type V = Seq<(Seq<char>, Seq<LineView>)>;

    closed spec fn view(&self) -> Seq<(Seq<char>, Seq<LineView>)> {
        self.views@.map_values(|e: ViewEntry| (e.view_id@, e.cache@))
    }
}

impl Controller {
    pub fn new() -> (r: Controller)
        ensures
            r@ == Seq::<(Seq<char>, Seq<LineView>)>::empty(),
    {
        let r = Controller { views: Vec::new() };
        assert(r@ =~= Seq::<(Seq<char>, Seq<LineView>)>::empty());
        r
    }

    pub closed spec fn wf(&self) -> bool {
        ids_unique(self@)
    }

    fn find(&self, id: &String) -> (r: Option<usize>)
        requires
            self.wf(),
        ensures
            match r {
                Some(i) => i < self@.len() && self@[i as int].0 == id@ && has_view(self@, id@) && view_index(self@, id@) == i,
                None => !has_view(self@, id@),
            },
    {
        let mut i: usize = 0;
        while i < self.views.len()
            invariant
                i <= self.views@.len(),
                self.wf(),
                forall|j: int| 0 <= j < i ==> (#[trigger] self@[j]).0 != id@,
            decreases self.views@.len() - i,
        {
            if self.views[i].view_id == *id {
                proof {
                    assert(self@[i as int].0 == id@);
                    let p = view_index(self@, id@);
                    assert(0 <= p < self@.len() && self@[p].0 == id@);
                    if p != i as int {
                        assert(self@[p].0 != self@[i as int].0);
                    }
                }
                return Some(i);
            }
            i = i + 1;
        }
        None
    }

    /// Whether a view with this id is open.
    pub fn contains(&self, id: &String) -> (r: bool)
        requires
            self.wf(),
        ensures
            r == has_view(self@, id@),
    {
        self.find(id).is_some()
    }

    /// Copies of the lines `start..end` of a view, cut to its height; `None`
    /// when the view is not open.
    pub fn get_lines(&self, id: &String, start: usize, end: usize) -> (r: Option<Vec<Line>>)
        requires
            self.wf(),
        ensures
            match r {
                Some(lines) => has_view(self@, id@) && {
                    let cache = self@[view_index(self@, id@)].1;
                    let hi = if end <= cache.len() { end as int } else { cache.len() as int };
                    let lo = if start <= hi { start as int } else { hi };
                    lines_view(lines@) == cache.subrange(lo, hi)
                },
                None => !has_view(self@, id@),
            },
    {
        match self.find(id) {
            Some(i) => Some(self.views[i].cache.get_lines(start, end)),
            None => None,
        }
    }

    /// Opens a view with an empty cache, once the core has acknowledged it;
    /// a view already open is left as it is.
    pub fn open_view(&mut self, id: String)
        requires
            old(self).wf(),
        ensures
            final(self).wf(),
            has_view(old(self)@, id@) ==> final(self)@ == old(self)@,
            !has_view(old(self)@, id@) ==> final(self)@ == old(self)@.push((id@, Seq::<LineView>::empty())),
    {
        if self.find(&id).is_some() {
            return;
        }
        let ghost old_v = self@;
        let ghost idv = id@;
        self.views.push(ViewEntry { view_id: id, cache: LineCache::new() });
        assert(self@ =~= old_v.push((idv, Seq::<LineView>::empty())));
        assert forall|i: int, j: int| 0 <= i < self@.len() && 0 <= j < self@.len() && i != j
            implies (#[trigger] self@[i]).0 != (#[trigger] self@[j]).0 by {
            if i < old_v.len() && j < old_v.len() {
                assert(self@[i] == old_v[i] && self@[j] == old_v[j]);
            } else if i < old_v.len() {
                assert(self@[i] == old_v[i]);
            } else if j < old_v.len() {
                assert(self@[j] == old_v[j]);
            }
        }
    }

    /// Closes a view; returns whether it was open.
    pub fn close_view(&mut self, id: &String) -> (r: bool)
        requires
            old(self).wf(),
        ensures
            final(self).wf(),
            r == has_view(old(self)@, id@),
            r ==> final(self)@ == old(self)@.remove(view_index(old(self)@, id@)),
            !r ==> final(self)@ == old(self)@,
    {
        match self.find(id) {
            Some(i) => {
                let ghost old_v = self@;
                self.views.remove(i);
                assert(self@ =~= old_v.remove(i as int));
                assert forall|a: int, b: int| 0 <= a < self@.len() && 0 <= b < self@.len() && a != b
                    implies (#[trigger] self@[a]).0 != (#[trigger] self@[b]).0 by {
                    let a0 = if a < i { a } else { a + 1 };
                    let b0 = if b < i { b } else { b + 1 };
                    assert(self@[a] == old_v[a0]);
                    assert(self@[b] == old_v[b0]);
                }
                true
            },
            None => false,
        }
    }

    /// Applies an `update` notification to its view. `Some(true)`: applied;
    /// `Some(false)`: the batch read past the old cache, which is now empty;
    /// `None`: unreadable params or no such view, nothing changed.
    pub fn apply_update(&mut self, params: &JsonValue) -> (r: Option<bool>)
        requires
            old(self).wf(),
        ensures
            final(self).wf(),
            (final(self)@, r) == after_update(old(self)@, *params),
    {
        let id = match decode_view_id(params) {
            Some(id) => id,
            None => return None,
        };
        let ops = match decode_batch(params) {
            Some(ops) => ops,
            None => return None,
        };
        let i = match self.find(&id) {
            Some(i) => i,
            None => return None,
        };
        let ghost old_v = self@;
        let mut entry = self.views.remove(i);
        let res = entry.cache.apply_update(&ops);
        let ok = match res {
            Ok(()) => true,
            Err(_) => {
                entry.cache.clear();
                false
            },
        };
        self.views.insert(i, entry);
        proof {
            let p = view_index(old_v, id@);
            assert(p == i);
            let newe = if ok { (id@, apply_batch(old_v[p].1, ops_view(ops@))->0) } else { (id@, Seq::<LineView>::empty()) };
            assert(self@ =~= old_v.update(p, newe));
            assert forall|a: int, b: int| 0 <= a < self@.len() && 0 <= b < self@.len() && a != b
                implies (#[trigger] self@[a]).0 != (#[trigger] self@[b]).0 by {
                assert(self@[a].0 == old_v[a].0);
                assert(self@[b].0 == old_v[b].0);
            }
        }
        Some(ok)
    }

    /// Handles one message on the UI thread.
    pub fn handle_msg(&mut self, msg: CoreMsg) -> (r: Action)
        requires
            old(self).wf(),
        ensures
            final(self).wf(),
            match msg {
                CoreMsg::Idle(t) => (r matches Action::RunIdle(u) && u == t) && final(self)@ == old(self)@,
                CoreMsg::Notification { method, params } => if method@ == "update"@ {
                    &&& final(self)@ == after_update(old(self)@, params).0
                    &&& match after_update(old(self)@, params).1 {
                        Some(true) => r matches Action::Repaint(id) && view_id_of(params) == Some(id@),
                        Some(false) => r matches Action::Resync(id) && view_id_of(params) == Some(id@),
                        None => match view_id_of(params) {
                            Some(v) => if batch_of(params) is Some {
                                r matches Action::UnknownView(id) && id@ == v
                            } else {
                                r is Malformed
                            },
                            None => r is Malformed,
                        },
                    }
                } else {
                    final(self)@ == old(self)@ && (r matches Action::Forward(m) && m == method)
                },
            },
    {
        match msg {
            CoreMsg::Idle(t) => Action::RunIdle(t),
            CoreMsg::Notification { method, params } => {
                if method == "update".to_owned() {
                    match self.apply_update(&params) {
                        Some(true) => match decode_view_id(&params) {
                            Some(id) => Action::Repaint(id),
                            None => Action::Malformed,
                        },
                        Some(false) => match decode_view_id(&params) {
                            Some(id) => Action::Resync(id),
                            None => Action::Malformed,
                        },
                        None => match decode_view_id(&params) {
                            Some(id) => if decode_batch(&params).is_some() {
                                Action::UnknownView(id)
                            } else {
                                Action::Malformed
                            },
                            None => Action::Malformed,
                        },
                    }
                } else {
                    Action::Forward(method)
                }
            },
        }
    }
}

} // verus!
