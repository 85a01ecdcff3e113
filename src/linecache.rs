use vstd::prelude::*;

verus! {

/// One styled span of a line: `len` characters starting at `start` carry `style_id`.
#[derive(Clone, Copy, Debug, PartialEq, Eq, Structural)]
pub struct StyleSpan {
    pub start: u64,
    pub len: u64,
    pub style_id: u64,
}

/// The content of a line that the core has sent.
#[derive(Debug)]
pub struct LineData {
    pub text: String,
    pub cursors: Vec<u64>,
    pub styles: Vec<StyleSpan>,
}

/// The metadata that an `update` operation replaces on an existing line.
#[derive(Debug)]
pub struct LineMeta {
    pub cursors: Vec<u64>,
    pub styles: Vec<StyleSpan>,
}

/// One entry of the cache: a known line, or a placeholder whose content is unknown.
#[derive(Debug)]
pub enum Line {
    Valid(LineData),
    Invalid,
}

/// One verb of an update batch.
#[derive(Debug)]
pub enum UpdateOp {
    /// Reuse the next `n` entries of the old cache.
    Copy(usize),
    /// Advance the old-cache cursor by `n` without emitting.
    Skip(usize),
    /// Emit `n` placeholders.
    Invalidate(usize),
    /// Emit the given lines.
    Insert(Vec<LineData>),
    /// Reuse the text of the next entries, with the given metadata.
    Update(Vec<LineMeta>),
}

/// Raised when a batch reads past the end of the old cache.
#[derive(Clone, Copy, Debug, PartialEq, Eq, Structural)]
pub enum CacheError {
    OutOfRange,
}

pub ghost enum LineView {
    Valid { text: Seq<char>, cursors: Seq<u64>, styles: Seq<StyleSpan> },
    Invalid,
}

pub ghost struct MetaView {
    pub cursors: Seq<u64>,
    pub styles: Seq<StyleSpan>,
}

pub ghost enum OpView {
    Copy(nat),
    Skip(nat),
    Invalidate(nat),
    Insert(Seq<LineView>),
    Update(Seq<MetaView>),
}

impl View for LineData {
    type V = LineView;

    open spec fn view(&self) -> LineView {
        LineView::Valid { text: self.text@, cursors: self.cursors@, styles: self.styles@ }
    }
}

impl View for LineMeta {
    type V = MetaView;

    open spec fn view(&self) -> MetaView {
        MetaView { cursors: self.cursors@, styles: self.styles@ }
    }
}

impl View for Line {
    type V = LineView;

    open spec fn view(&self) -> LineView {
        match self {
            Line::Valid(d) => d@,
            Line::Invalid => LineView::Invalid,
        }
    }
}

impl View for UpdateOp {
    type V = OpView;

    open spec fn view(&self) -> OpView {
        match self {
            UpdateOp::Copy(n) => OpView::Copy(*n as nat),
            UpdateOp::Skip(n) => OpView::Skip(*n as nat),
            UpdateOp::Invalidate(n) => OpView::Invalidate(*n as nat),
            UpdateOp::Insert(lines) => OpView::Insert(lines@.map_values(|l: LineData| l@)),
            UpdateOp::Update(metas) => OpView::Update(metas@.map_values(|m: LineMeta| m@)),
        }
    }
}

pub open spec fn lines_view(lines: Seq<Line>) -> Seq<LineView> {
    lines.map_values(|l: Line| l@)
}

pub open spec fn ops_view(ops: Seq<UpdateOp>) -> Seq<OpView> {
    ops.map_values(|o: UpdateOp| o@)
}

/// How many old entries are left to read from `cursor` on.
pub open spec fn remaining(old: Seq<LineView>, cursor: nat) -> nat {
    if cursor <= old.len() { (old.len() - cursor) as nat } else { 0 }
}

/// A line with its metadata replaced; a placeholder stays a placeholder.
pub open spec fn with_meta(line: LineView, meta: MetaView) -> LineView {
    match line {
        LineView::Valid { text, .. } => LineView::Valid {
            text,
            cursors: meta.cursors,
            styles: meta.styles,
        },
        LineView::Invalid => LineView::Invalid,
    }
}

/// The effect of one operation on the read cursor and the cache being built;
/// `None` when it reads past the end of the old cache.
pub open spec fn step(old: Seq<LineView>, cursor: nat, built: Seq<LineView>, op: OpView) -> Option<(nat, Seq<LineView>)> {
    match op {
        OpView::Copy(n) => if n <= remaining(old, cursor) {
            Some(((cursor + n) as nat, built + old.subrange(cursor as int, (cursor + n) as int)))
        } else {
            None
        },
        OpView::Skip(n) => Some((
            if n <= remaining(old, cursor) { (cursor + n) as nat } else { old.len() },
            built,
        )),
        OpView::Invalidate(n) => Some((cursor, built + Seq::new(n, |i: int| LineView::Invalid))),
        OpView::Insert(lines) => Some((cursor, built + lines)),
        OpView::Update(metas) => if metas.len() <= remaining(old, cursor) {
            Some((
                (cursor + metas.len()) as nat,
                built + Seq::new(metas.len(), |i: int| with_meta(old[cursor + i], metas[i])),
            ))
        } else {
            None
        },
    }
}

/// The cursor and cache after running `ops` in order from an empty cache.
pub open spec fn run(old: Seq<LineView>, ops: Seq<OpView>) -> Option<(nat, Seq<LineView>)>
    decreases ops.len(),
{
    if ops.len() == 0 {
        Some((0, Seq::empty()))
    } else {
        match run(old, ops.drop_last()) {
            Some((cursor, built)) => step(old, cursor, built, ops.last()),
            None => None,
        }
    }
}

/// The cache that applying `ops` to `old` produces, or `None` when the batch
/// reads past the end of `old`.
pub open spec fn apply_batch(old: Seq<LineView>, ops: Seq<OpView>) -> Option<Seq<LineView>> {
    match run(old, ops) {
        Some((_, built)) => Some(built),
        None => None,
    }
}

/// The read cursor after running `ops` (0 when they fail).
pub open spec fn cursor_after(old: Seq<LineView>, ops: Seq<OpView>) -> nat {
    match run(old, ops) {
        Some((cursor, _)) => cursor,
        None => 0,
    }
}

/// The cache built by running `ops` (empty when they fail).
pub open spec fn built_after(old: Seq<LineView>, ops: Seq<OpView>) -> Seq<LineView> {
    match run(old, ops) {
        Some((_, built)) => built,
        None => Seq::empty(),
    }
}

/// Whether any operation of the batch reads past the end of the old cache.
pub open spec fn batch_fails(old: Seq<LineView>, ops: Seq<OpView>) -> bool {
    run(old, ops) is None
}


impl LineData {
    /// A copy of this line.
    pub fn duplicate(&self) -> (r: LineData)
        ensures
            r@ == self@,
    {
        let cursors = self.cursors.clone();
        let styles = self.styles.clone();
        assert(cursors@ =~= self.cursors@);
        assert(styles@ =~= self.styles@);
        LineData { text: self.text.clone(), cursors, styles }
    }
}

impl Line {
    /// A copy of this entry.
    pub fn duplicate(&self) -> (r: Line)
        ensures
            r@ == self@,
    {
        match self {
            Line::Valid(d) => Line::Valid(d.duplicate()),
            Line::Invalid => Line::Invalid,
        }
    }

    pub fn is_valid(&self) -> (r: bool)
        ensures
            r == (self@ != LineView::Invalid),
    {
        match self {
            Line::Valid(_) => true,
            Line::Invalid => false,
        }
    }

    /// This entry with its cursors and styles taken from `meta`.
    fn with_meta_of(&self, meta: &LineMeta) -> (r: Line)
        ensures
            r@ == with_meta(self@, meta@),
    {
        match self {
            Line::Valid(d) => {
                let cursors = meta.cursors.clone();
                let styles = meta.styles.clone();
                assert(cursors@ =~= meta.cursors@);
                assert(styles@ =~= meta.styles@);
                Line::Valid(LineData { text: d.text.clone(), cursors, styles })
            },
            Line::Invalid => Line::Invalid,
        }
    }
}

/// `a..b` is a maximal run of placeholders in `lines`.
pub open spec fn is_invalid_run(lines: Seq<LineView>, a: int, b: int) -> bool {
    &&& 0 <= a < b <= lines.len()
    &&& forall|k: int| a <= k < b ==> lines[k] == LineView::Invalid
    &&& a == 0 || lines[a - 1] != LineView::Invalid
    &&& b == lines.len() || lines[b] != LineView::Invalid
}

/// The locally materialised lines of one view.
pub struct LineCache {
    lines: Vec<Line>,
}

impl View for LineCache {
    type V = Seq<LineView>;

    closed spec fn view(&self) -> Seq<LineView> {
        lines_view(self.lines@)
    }
}

impl LineCache {
    /// An empty cache.
    pub fn new() -> (r: LineCache)
        ensures
            r@ == Seq::<LineView>::empty(),
    {
        let r = LineCache { lines: Vec::new() };
        assert(r@ =~= Seq::<LineView>::empty());
        r
    }

    /// The number of entries.
    pub fn height(&self) -> (r: usize)
        ensures
            r == self@.len(),
    {
        self.lines.len()
    }

    /// Drops every entry.
    pub fn clear(&mut self)
        ensures
            final(self)@ == Seq::<LineView>::empty(),
    {
        self.lines = Vec::new();
        assert(self@ =~= Seq::<LineView>::empty());
    }

    /// Copies of the entries in `start..end`, cut to the cache's height.
    pub fn get_lines(&self, start: usize, end: usize) -> (r: Vec<Line>)
        ensures
            lines_view(r@) == self@.subrange(
                if start <= end && start <= self@.len() { start as int } else if end <= self@.len() { end as int } else { self@.len() as int },
                if end <= self@.len() { end as int } else { self@.len() as int },
            ),
    {
        let len = self.lines.len();
        let hi = if end <= len { end } else { len };
        let lo = if start <= hi { start } else { hi };
        let mut r: Vec<Line> = Vec::new();
        let mut i: usize = lo;
        while i < hi
            invariant
                lo <= i <= hi,
                hi <= self.lines@.len(),
                lines_view(r@) == self@.subrange(lo as int, i as int),
            decreases hi - i,
        {
            let e = self.lines[i].duplicate();
            proof { lemma_push_view(r@, e); }
            r.push(e);
            i = i + 1;
            assert(lines_view(r@) =~= self@.subrange(lo as int, i as int));
        }
        r
    }

    /// The maximal runs of placeholders, as half-open index ranges in order.
    pub fn invalid_ranges(&self) -> (r: Vec<(usize, usize)>)
        ensures
            forall|i: int| 0 <= i < r@.len() ==> is_invalid_run(self@, (#[trigger] r@[i]).0 as int, r@[i].1 as int),
            forall|i: int| 0 <= i < r@.len() - 1 ==> (#[trigger] r@[i]).1 < r@[i + 1].0,
            forall|k: int| 0 <= k < self@.len() && self@[k] == LineView::Invalid
                ==> exists|i: int| 0 <= i < r@.len() && (#[trigger] r@[i]).0 <= k < r@[i].1,
    {
        let len = self.lines.len();
        let mut r: Vec<(usize, usize)> = Vec::new();
        let mut start: Option<usize> = None;
        let mut i: usize = 0;
        while i < len
            invariant
                i <= len,
                len == self@.len(),
                forall|j: int| 0 <= j < r@.len() ==> is_invalid_run(self@, (#[trigger] r@[j]).0 as int, r@[j].1 as int),
                forall|j: int| 0 <= j < r@.len() - 1 ==> (#[trigger] r@[j]).1 < r@[j + 1].0,
                forall|j: int| 0 <= j < r@.len() ==> (#[trigger] r@[j]).1 <= i,
                match start {
                    Some(st) => st < i && (st == 0 || self@[st - 1] != LineView::Invalid)
                        && (forall|k: int| st <= k < i ==> self@[k] == LineView::Invalid)
                        && (r@.len() > 0 ==> r@[r@.len() - 1].1 < st),
                    None => i == 0 || self@[i - 1] != LineView::Invalid,
                },
                forall|k: int| 0 <= k < i && self@[k] == LineView::Invalid
                    ==> (exists|j: int| 0 <= j < r@.len() && (#[trigger] r@[j]).0 <= k < r@[j].1)
                        || (start matches Some(st) && st <= k),
            decreases len - i,
        {
            let valid = self.lines[i].is_valid();
            assert(self@[i as int] == self.lines@[i as int]@);
            match start {
                Some(st) => {
                    if valid {
                        let ghost old_r = r@;
                        r.push((st, i));
                        start = None;
                        assert(r@[r@.len() - 1] == (st, i));
                        assert forall|j: int| 0 <= j < r@.len() implies is_invalid_run(self@, (#[trigger] r@[j]).0 as int, r@[j].1 as int) by {
                            if j < old_r.len() {
                                assert(r@[j] == old_r[j]);
                            }
                        }
                        assert forall|k: int| 0 <= k < i + 1 && self@[k] == LineView::Invalid
                            implies exists|j: int| 0 <= j < r@.len() && (#[trigger] r@[j]).0 <= k < r@[j].1 by {
                            if st <= k {
                                assert(r@[r@.len() - 1].0 <= k < r@[r@.len() - 1].1);
                            } else {
                                let j = choose|j: int| 0 <= j < old_r.len() && (#[trigger] old_r[j]).0 <= k < old_r[j].1;
                                assert(r@[j] == old_r[j]);
                            }
                        }
                    }
                },
                None => {
                    if !valid {
                        start = Some(i);
                    }
                },
            }
            i = i + 1;
        }
        if let Some(st) = start {
            let ghost old_r = r@;
            r.push((st, len));
            assert forall|j: int| 0 <= j < r@.len() implies is_invalid_run(self@, (#[trigger] r@[j]).0 as int, r@[j].1 as int) by {
                if j < old_r.len() {
                    assert(r@[j] == old_r[j]);
                }
            }
            assert forall|k: int| 0 <= k < self@.len() && self@[k] == LineView::Invalid
                implies exists|j: int| 0 <= j < r@.len() && (#[trigger] r@[j]).0 <= k < r@[j].1 by {
                if st <= k {
                    assert(r@[r@.len() - 1].0 <= k < r@[r@.len() - 1].1);
                } else {
                    let j = choose|j: int| 0 <= j < old_r.len() && (#[trigger] old_r[j]).0 <= k < old_r[j].1;
                    assert(r@[j] == old_r[j]);
                }
            }
        }
        r
    }

    /// Applies a batch of operations. On success the cache is replaced by the
    /// cache the batch builds; on failure it is left as it was.
    pub fn apply_update(&mut self, ops: &Vec<UpdateOp>) -> (r: Result<(), CacheError>)
        ensures
            r is Ok <==> !batch_fails(old(self)@, ops_view(ops@)),
            r is Ok ==> Some(final(self)@) == apply_batch(old(self)@, ops_view(ops@)),
            r is Err ==> r == Err::<(), CacheError>(CacheError::OutOfRange) && final(self)@ == old(self)@,
    {
        let ghost old_v = self@;
        let ghost opsv = ops_view(ops@);
        let old_len = self.lines.len();
        let mut built: Vec<Line> = Vec::new();
        let mut cursor: usize = 0;
        let mut k: usize = 0;
        assert(opsv.take(0) =~= Seq::<OpView>::empty());
        assert(lines_view(built@) =~= Seq::<LineView>::empty());
        while k < ops.len()
            invariant
                0 <= k <= ops.len(),
                old_v == self@,
                old_len == old_v.len(),
                opsv == ops_view(ops@),
                cursor <= old_len,
                run(old_v, opsv.take(k as int)) == Some((cursor as nat, lines_view(built@))),
            decreases ops.len() - k,
        {
            proof {
                assert(opsv.take(k + 1).drop_last() =~= opsv.take(k as int));
                assert(opsv.take(k + 1).last() == ops@[k as int]@);
            }
            let ghost built0 = lines_view(built@);
            let op = &ops[k];
            match op {
                UpdateOp::Copy(n) => {
                    let n = *n;
                    if n > old_len - cursor {
                        assert(run(old_v, opsv.take(k + 1)) is None);
                        proof { self.fail_lemma(opsv, k as int); }
                        return Err(CacheError::OutOfRange);
                    }
                    let mut j: usize = 0;
                    while j < n
                        invariant
                            j <= n,
                            cursor + n <= old_len,
                            old_len == self.lines@.len(),
                            lines_view(built@) == built0 + old_v.subrange(cursor as int, cursor + j),
                            old_v == lines_view(self.lines@),
                        decreases n - j,
                    {
                        let e = self.lines[cursor + j].duplicate();
                        proof { lemma_push_view(built@, e); }
                        built.push(e);
                        j = j + 1;
                        assert(lines_view(built@) =~= built0 + old_v.subrange(cursor as int, cursor + j));
                    }
                    cursor = cursor + n;
                },
                UpdateOp::Skip(n) => {
                    let n = *n;
                    if n <= old_len - cursor {
                        cursor = cursor + n;
                    } else {
                        cursor = old_len;
                    }
                },
                UpdateOp::Invalidate(n) => {
                    let n = *n;
                    let mut j: usize = 0;
                    while j < n
                        invariant
                            j <= n,
                            lines_view(built@) == built0 + Seq::new(j as nat, |i: int| LineView::Invalid),
                        decreases n - j,
                    {
                        proof { lemma_push_view(built@, Line::Invalid); }
                        built.push(Line::Invalid);
                        j = j + 1;
                        assert(lines_view(built@) =~= built0 + Seq::new(j as nat, |i: int| LineView::Invalid));
                    }
                },
                UpdateOp::Insert(lines) => {
                    let mut j: usize = 0;
                    while j < lines.len()
                        invariant
                            j <= lines.len(),
                            lines_view(built@) == built0 + lines@.map_values(|l: LineData| l@).take(j as int),
                        decreases lines.len() - j,
                    {
                        let d = lines[j].duplicate();
                        proof { lemma_push_view(built@, Line::Valid(d)); }
                        built.push(Line::Valid(d));
                        j = j + 1;
                        assert(lines_view(built@) =~= built0 + lines@.map_values(|l: LineData| l@).take(j as int));
                    }
                    assert(lines@.map_values(|l: LineData| l@).take(j as int) =~= lines@.map_values(|l: LineData| l@));
                },
                UpdateOp::Update(metas) => {
                    let n = metas.len();
                    if n > old_len - cursor {
                        assert(run(old_v, opsv.take(k + 1)) is None);
                        proof { self.fail_lemma(opsv, k as int); }
                        return Err(CacheError::OutOfRange);
                    }
                    let ghost mv = metas@.map_values(|m: LineMeta| m@);
                    let mut j: usize = 0;
                    while j < n
                        invariant
                            j <= n,
                            n == metas.len(),
                            mv == metas@.map_values(|m: LineMeta| m@),
                            cursor + n <= old_len,
                            old_len == self.lines@.len(),
                            old_v == lines_view(self.lines@),
                            lines_view(built@) == built0 + Seq::new(j as nat, |i: int| with_meta(old_v[cursor + i], mv[i])),
                        decreases n - j,
                    {
                        let e = self.lines[cursor + j].with_meta_of(&metas[j]);
                        proof { lemma_push_view(built@, e); }
                        built.push(e);
                        j = j + 1;
                        assert(lines_view(built@) =~= built0 + Seq::new(j as nat, |i: int| with_meta(old_v[cursor + i], mv[i])));
                    }
                    cursor = cursor + n;
                },
            }
            k = k + 1;
        }
        assert(opsv.take(k as int) =~= opsv);
        self.lines = built;
        Ok(())
    }

    /// Once a prefix of the batch fails, the whole batch fails.
    proof fn fail_lemma(&self, opsv: Seq<OpView>, k: int)
        requires
            0 <= k < opsv.len(),
            run(self@, opsv.take(k + 1)) is None,
        ensures
            batch_fails(self@, opsv),
    {
        lemma_fail_extends(self@, opsv, k + 1);
    }
}

/// `invalidate(n)` emits `n` placeholders and leaves the read cursor where it
/// was, whatever the old cache holds.
pub proof fn lemma_invalidate_keeps_cursor(old: Seq<LineView>, ops: Seq<OpView>, n: nat)
    requires
        run(old, ops) is Some,
    ensures
        run(old, ops.push(OpView::Invalidate(n))) == Some((
            cursor_after(old, ops),
            built_after(old, ops) + Seq::new(n, |i: int| LineView::Invalid),
        )),
{
    assert(ops.push(OpView::Invalidate(n)).drop_last() =~= ops);
}

/// A `copy(n)` or `update(n)` that asks for more entries than remain after the
/// operations before it makes the batch fail, whatever comes after it.
pub proof fn lemma_overrun_fails(old: Seq<LineView>, ops: Seq<OpView>, op: OpView, rest: Seq<OpView>)
    requires
        run(old, ops) is Some,
        match op {
            OpView::Copy(n) => n > remaining(old, cursor_after(old, ops)),
            OpView::Update(metas) => metas.len() > remaining(old, cursor_after(old, ops)),
            _ => false,
        },
    ensures
        batch_fails(old, ops.push(op) + rest),
{
    let all = ops.push(op) + rest;
    assert(all.take(ops.len() as int + 1).drop_last() =~= ops);
    assert(all.take(ops.len() as int + 1).last() == op);
    lemma_fail_extends(old, all, ops.len() as int + 1);
}

proof fn lemma_push_view(lines: Seq<Line>, e: Line)
    ensures
        lines_view(lines.push(e)) == lines_view(lines).push(e@),
{
    assert(lines_view(lines.push(e)) =~= lines_view(lines).push(e@));
}

/// A batch whose prefix reads past the end of the old cache fails as a whole.
pub proof fn lemma_fail_extends(old: Seq<LineView>, ops: Seq<OpView>, k: int)
    requires
        0 <= k <= ops.len(),
        run(old, ops.take(k)) is None,
    ensures
        batch_fails(old, ops),
    decreases ops.len() - k,
{
    if k < ops.len() {
        assert(ops.take(k + 1).drop_last() =~= ops.take(k));
        lemma_fail_extends(old, ops, k + 1);
    } else {
        assert(ops.take(k) =~= ops);
    }
}

} // verus!
