use gxi::linecache::{CacheError, Line, LineCache, LineData, LineMeta, StyleSpan, UpdateOp};

fn data(text: &str) -> LineData {
    LineData { text: text.to_string(), cursors: vec![], styles: vec![] }
}

fn texts(lines: &[Line]) -> Vec<Option<String>> {
    lines
        .iter()
        .map(|l| match l {
            Line::Valid(d) => Some(d.text.clone()),
            Line::Invalid => None,
        })
        .collect()
}

fn cache_of(names: &[&str]) -> LineCache {
    let mut c = LineCache::new();
    let lines = names.iter().map(|n| data(n)).collect();
    c.apply_update(&vec![UpdateOp::Insert(lines)]).unwrap();
    c
}

fn all(c: &LineCache) -> Vec<Option<String>> {
    texts(&c.get_lines(0, c.height()))
}

fn some(names: &[&str]) -> Vec<Option<String>> {
    names.iter().map(|n| Some(n.to_string())).collect()
}

#[test]
fn mixed_verbs_keep_read_cursor() {
    let mut c = cache_of(&["L0", "L1", "L2", "L3", "L4", "L5"]);
    let ops = vec![
        UpdateOp::Copy(3),
        UpdateOp::Insert(vec![data("A"), data("B")]),
        UpdateOp::Skip(1),
        UpdateOp::Copy(1),
    ];
    assert_eq!(c.apply_update(&ops), Ok(()));
    assert_eq!(all(&c), some(&["L0", "L1", "L2", "A", "B", "L4"]));
}

#[test]
fn invalidate_does_not_advance_cursor() {
    let mut c = cache_of(&["X", "Y"]);
    let ops = vec![UpdateOp::Invalidate(2), UpdateOp::Copy(2)];
    assert_eq!(c.apply_update(&ops), Ok(()));
    assert_eq!(all(&c), vec![None, None, Some("X".to_string()), Some("Y".to_string())]);
}

#[test]
fn invalidate_on_empty_cache() {
    let mut c = LineCache::new();
    assert_eq!(c.apply_update(&vec![UpdateOp::Invalidate(2)]), Ok(()));
    assert_eq!(c.height(), 2);
    assert_eq!(all(&c), vec![None, None]);
}

#[test]
fn copy_past_end_fails_and_keeps_cache() {
    let mut c = cache_of(&["a", "b", "c"]);
    let ops = vec![UpdateOp::Copy(2), UpdateOp::Copy(2)];
    assert_eq!(c.apply_update(&ops), Err(CacheError::OutOfRange));
    assert_eq!(all(&c), some(&["a", "b", "c"]));
}

#[test]
fn update_past_end_fails_and_keeps_cache() {
    let mut c = cache_of(&["a"]);
    let meta = || LineMeta { cursors: vec![0], styles: vec![] };
    let ops = vec![UpdateOp::Update(vec![meta(), meta()])];
    assert_eq!(c.apply_update(&ops), Err(CacheError::OutOfRange));
    assert_eq!(all(&c), some(&["a"]));
}

#[test]
fn update_replaces_metadata_only() {
    let mut c = cache_of(&["a", "b"]);
    let span = StyleSpan { start: 0, len: 1, style_id: 7 };
    let ops = vec![UpdateOp::Update(vec![LineMeta { cursors: vec![1], styles: vec![span] }]), UpdateOp::Copy(1)];
    assert_eq!(c.apply_update(&ops), Ok(()));
    let lines = c.get_lines(0, 2);
    match &lines[0] {
        Line::Valid(d) => {
            assert_eq!(d.text, "a");
            assert_eq!(d.cursors, vec![1]);
            assert_eq!(d.styles, vec![span]);
        }
        Line::Invalid => panic!("expected a valid line"),
    }
    assert_eq!(texts(&lines[1..]), some(&["b"]));
}

#[test]
fn update_of_placeholder_stays_placeholder() {
    let mut c = LineCache::new();
    c.apply_update(&vec![UpdateOp::Invalidate(1)]).unwrap();
    let ops = vec![UpdateOp::Update(vec![LineMeta { cursors: vec![0], styles: vec![] }])];
    assert_eq!(c.apply_update(&ops), Ok(()));
    assert_eq!(all(&c), vec![None]);
}

#[test]
fn skip_past_end_then_empty_copy() {
    let mut c = cache_of(&["a"]);
    let ops = vec![UpdateOp::Skip(5), UpdateOp::Copy(0)];
    assert_eq!(c.apply_update(&ops), Ok(()));
    assert_eq!(c.height(), 0);
}

#[test]
fn get_lines_is_cut_to_height() {
    let c = cache_of(&["a", "b", "c"]);
    assert_eq!(texts(&c.get_lines(1, 10)), some(&["b", "c"]));
    assert_eq!(texts(&c.get_lines(5, 10)), Vec::<Option<String>>::new());
    assert_eq!(texts(&c.get_lines(2, 1)), Vec::<Option<String>>::new());
}

#[test]
fn clear_empties_cache() {
    let mut c = cache_of(&["a"]);
    c.clear();
    assert_eq!(c.height(), 0);
}

#[test]
fn invalid_ranges_are_maximal_runs() {
    let mut c = LineCache::new();
    let ops = vec![
        UpdateOp::Invalidate(2),
        UpdateOp::Insert(vec![data("a")]),
        UpdateOp::Invalidate(1),
        UpdateOp::Insert(vec![data("b"), data("c")]),
        UpdateOp::Invalidate(3),
    ];
    c.apply_update(&ops).unwrap();
    assert_eq!(c.invalid_ranges(), vec![(0, 2), (3, 4), (6, 9)]);
    assert_eq!(cache_of(&["x"]).invalid_ranges(), Vec::<(usize, usize)>::new());
}
