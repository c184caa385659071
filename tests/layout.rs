use migemo_everything::layout::{code_point_widths, layout_text, TextLayout};

fn uniform_widths(n: usize, w: i32) -> Vec<i32> {
    (1..=n as i32).map(|i| i * w).collect()
}

fn joined(l: &TextLayout) -> String {
    l.segments.iter().map(|s| s.text.as_str()).collect()
}

#[test]
fn truncation_example() {
    let text = "abcdefghij";
    let l = layout_text(text, &vec![], &uniform_widths(10, 10), 55, 20);
    assert_eq!(l.max_fit, 5);
    assert!(l.truncated);
    assert_eq!(l.effective, 3);
    assert_eq!(joined(&l), "abc");
    assert_eq!(l.segments.len(), 1);
    assert_eq!(l.segments[0].x, 0);
    assert_eq!(l.segments[0].width, 30);
    assert_eq!(l.ellipsis_x, Some(30));
}

#[test]
fn layout_whole_text_fits() {
    let l = layout_text("abc", &vec![], &vec![10, 20, 30], 100, 20);
    assert_eq!(l.max_fit, 3);
    assert!(!l.truncated);
    assert_eq!(l.effective, 3);
    assert_eq!(joined(&l), "abc");
    assert_eq!(l.drawn, 3);
    assert_eq!(l.cursor, 30);
    assert_eq!(l.ellipsis_x, None);
}

#[test]
fn layout_alternating_segments() {
    let l = layout_text("foobarbaz", &vec![(0, 3), (6, 9)], &uniform_widths(9, 10), 1000, 20);
    assert_eq!(l.segments.len(), 3);
    let texts: Vec<&str> = l.segments.iter().map(|s| s.text.as_str()).collect();
    assert_eq!(texts, vec!["foo", "bar", "baz"]);
    let states: Vec<bool> = l.segments.iter().map(|s| s.highlighted).collect();
    assert_eq!(states, vec![true, false, true]);
    let xs: Vec<i32> = l.segments.iter().map(|s| s.x).collect();
    assert_eq!(xs, vec![0, 30, 60]);
    assert_eq!((l.segments[1].start, l.segments[1].end), (3, 6));
}

#[test]
fn layout_cut_inside_highlight() {
    // 9 characters of 10 px in 65 px with a 20 px ellipsis: 4 characters stay.
    let l = layout_text("foobarbaz", &vec![(2, 5)], &uniform_widths(9, 10), 65, 20);
    assert!(l.truncated);
    assert_eq!(l.max_fit, 6);
    assert_eq!(l.effective, 4);
    let texts: Vec<&str> = l.segments.iter().map(|s| s.text.as_str()).collect();
    assert_eq!(texts, vec!["fo", "ob"]);
    assert_eq!(l.segments[1].highlighted, true);
    assert_eq!(l.ellipsis_x, Some(40));
}

#[test]
fn layout_zero_budget() {
    let l = layout_text("abc", &vec![(0, 1)], &vec![10, 20, 30], 0, 20);
    assert_eq!(l.max_fit, 0);
    assert!(l.truncated);
    assert_eq!(l.effective, 0);
    assert!(l.segments.is_empty());
    assert_eq!(l.ellipsis_x, None);
}

#[test]
fn layout_no_room_for_ellipsis() {
    let l = layout_text("abc", &vec![], &vec![10, 20, 30], 15, 20);
    assert_eq!(l.max_fit, 1);
    assert!(l.truncated);
    assert_eq!(l.effective, 0);
    assert!(l.segments.is_empty());
    assert_eq!(l.ellipsis_x, None);
}

#[test]
fn layout_ellipsis_alone() {
    let l = layout_text("abc", &vec![], &vec![10, 20, 30], 25, 20);
    assert_eq!(l.effective, 0);
    assert!(l.segments.is_empty());
    assert_eq!(l.ellipsis_x, Some(0));
}

#[test]
fn layout_empty_text() {
    let l = layout_text("", &vec![], &vec![], 100, 20);
    assert!(!l.truncated);
    assert_eq!(l.effective, 0);
    assert!(l.segments.is_empty());
    assert_eq!(l.ellipsis_x, None);
}

#[test]
fn layout_zero_width_run_stops_walk() {
    // The second run adds no width, so the walk ends before it.
    let l = layout_text("ab", &vec![(1, 2)], &vec![10, 10], 100, 20);
    assert_eq!(l.effective, 2);
    assert_eq!(joined(&l), "a");
    assert_eq!(l.drawn, 1);
}

#[test]
fn layout_segments_spell_a_prefix() {
    let text = "report-2024.pdf";
    let widths = uniform_widths(15, 7);
    for budget in [0, 10, 35, 50, 77, 104, 105, 200] {
        let l = layout_text(text, &vec![(0, 6), (7, 11)], &widths, budget, 12);
        let prefix: String = text.chars().take(l.effective).collect();
        assert_eq!(joined(&l), prefix);
        for pair in l.segments.windows(2) {
            assert_ne!(pair[0].highlighted, pair[1].highlighted);
        }
    }
}

#[test]
fn widths_per_code_point() {
    // "a" is one UTF-16 unit, the emoji two, "b" one.
    let text = "a\u{1F600}b";
    let units = vec![7, 12, 19, 25];
    assert_eq!(code_point_widths(text, &units), vec![7, 19, 25]);
    assert_eq!(code_point_widths("", &vec![]), Vec::<i32>::new());
    assert_eq!(code_point_widths("日本", &vec![12, 24]), vec![12, 24]);
}
