use komorebi::container::{Container, ID_LEN};
use komorebi::window::{Window, WindowCommand};

fn window(hwnd: isize, exe: &str) -> Window {
    Window::new(hwnd, Some(exe.to_string()))
}

fn stack(windows: Vec<Window>) -> Container {
    let mut container = Container::default();
    for w in windows {
        container.add_window(w);
    }
    container
}

fn visible(container: &Container) -> Vec<isize> {
    container.windows().iter().filter(|w| w.is_visible()).map(|w| w.hwnd).collect()
}

fn handles(container: &Container) -> Vec<isize> {
    container.windows().iter().map(|w| w.hwnd).collect()
}

#[test]
fn default_is_empty_with_a_fresh_tag() {
    let container = Container::default();
    assert!(container.windows().is_empty());
    assert_eq!(container.focused_window_idx(), None);
    assert!(container.focused_window().is_none());
    assert_eq!(container.id().chars().count(), ID_LEN);
    assert_eq!(ID_LEN, 21);
    assert!(container
        .id()
        .chars()
        .all(|c| c.is_ascii_alphanumeric() || c == '_' || c == '-'));
}

#[test]
fn two_containers_get_different_tags() {
    let a = Container::default();
    let b = Container::default();
    assert_ne!(a.id(), b.id());
}

#[test]
fn new_window_starts_visible() {
    let w = window(7, "a.exe");
    assert!(w.is_visible());
    assert_eq!(w.hwnd, 7);
    assert_eq!(w.exe(), Some(&"a.exe".to_string()));
    let gone = Window::new(8, None);
    assert_eq!(gone.exe(), None);
}

#[test]
fn window_requests_name_the_window() {
    let mut w = window(5, "a.exe");
    assert_eq!(w.hide_window(), WindowCommand::Hide { hwnd: 5 });
    assert!(!w.is_visible());
    assert_eq!(w.restore(), WindowCommand::Restore { hwnd: 5 });
    assert!(w.is_visible());
    assert_eq!(
        w.hide_with_border(true),
        WindowCommand::HideWithBorder { hwnd: 5, border: true }
    );
    assert!(!w.is_visible());
    assert_eq!(
        w.restore_with_border(false),
        WindowCommand::RestoreWithBorder { hwnd: 5, border: false }
    );
    assert!(w.is_visible());
    assert_eq!(w.exe(), Some(&"a.exe".to_string()));
}

#[test]
fn remove_focused_of_two_focuses_the_other() {
    let mut container = stack(vec![window(1, "a.exe"), window(2, "b.exe")]);
    assert_eq!(container.focused_window_idx(), Some(1));
    assert_eq!(visible(&container), vec![2]);

    let removed = container.remove_focused_window();
    assert_eq!(removed.map(|w| w.hwnd), Some(2));
    assert_eq!(container.focused_window_idx(), Some(0));
    assert!(!container.contains_window(2));
    assert_eq!(handles(&container), vec![1]);

    container.load_focused_window();
    assert_eq!(visible(&container), vec![1]);
}

#[test]
fn add_two_then_remove_first() {
    let mut container = Container::default();

    let commands = container.add_window(window(1, "a.exe"));
    assert!(commands.is_empty());
    assert_eq!(container.focused_window_idx(), Some(0));
    assert_eq!(visible(&container), vec![1]);

    let commands = container.add_window(window(2, "b.exe"));
    assert_eq!(commands, vec![WindowCommand::Hide { hwnd: 1 }]);
    assert_eq!(container.focused_window_idx(), Some(1));
    assert_eq!(visible(&container), vec![2]);
    assert!(!container.windows()[0].is_visible());

    let removed = container.remove_window_by_idx(0);
    assert_eq!(removed.map(|w| w.hwnd), Some(1));
    assert_eq!(container.focused_window_idx(), Some(0));
    assert_eq!(handles(&container), vec![2]);

    let commands = container.load_focused_window();
    assert_eq!(
        commands,
        vec![WindowCommand::RestoreWithBorder { hwnd: 2, border: false }]
    );
    assert_eq!(visible(&container), vec![2]);
}

#[test]
fn add_hides_every_earlier_member_front_to_back() {
    let mut container = stack(vec![window(1, "a.exe"), window(2, "b.exe")]);
    container.load_focused_window();
    let commands = container.add_window(window(3, "c.exe"));
    assert_eq!(
        commands,
        vec![WindowCommand::Hide { hwnd: 1 }, WindowCommand::Hide { hwnd: 2 }]
    );
    assert_eq!(visible(&container), vec![3]);
    assert_eq!(container.focused_window_idx(), Some(2));
    assert_eq!(container.focused_window().map(|w| w.hwnd), Some(3));
}

#[test]
fn add_leaves_a_hidden_newcomer_hidden() {
    let mut container = stack(vec![window(1, "a.exe")]);
    let mut late = window(2, "b.exe");
    late.hide_window();
    container.add_window(late);
    assert_eq!(visible(&container), Vec::<isize>::new());
    assert_eq!(container.focused_window_idx(), Some(1));
}

#[test]
fn remove_first_of_one_leaves_empty() {
    let mut container = stack(vec![window(1, "a.exe")]);
    let removed = container.remove_window_by_idx(0);
    assert_eq!(removed.map(|w| w.hwnd), Some(1));
    assert!(container.windows().is_empty());
    assert_eq!(container.focused_window_idx(), None);
    assert!(container.focused_window().is_none());
}

#[test]
fn remove_first_of_three_focuses_index_zero() {
    let mut container = stack(vec![window(1, "a"), window(2, "b"), window(3, "c")]);
    assert_eq!(container.focused_window_idx(), Some(2));
    container.remove_window_by_idx(0);
    assert_eq!(container.focused_window_idx(), Some(0));
    assert_eq!(handles(&container), vec![2, 3]);
}

#[test]
fn remove_focuses_the_index_before() {
    let mut container = stack(vec![window(1, "a"), window(2, "b"), window(3, "c"), window(4, "d")]);
    let removed = container.remove_window_by_idx(2);
    assert_eq!(removed.map(|w| w.hwnd), Some(3));
    assert_eq!(container.focused_window_idx(), Some(1));
    assert_eq!(handles(&container), vec![1, 2, 4]);
}

#[test]
fn remove_out_of_range_takes_nothing_and_clamps_the_cursor() {
    let mut container = stack(vec![window(1, "a"), window(2, "b"), window(3, "c")]);
    container.focus_window(0);
    let removed = container.remove_window_by_idx(7);
    assert!(removed.is_none());
    assert_eq!(handles(&container), vec![1, 2, 3]);
    assert_eq!(container.focused_window_idx(), Some(2));

    let removed = container.remove_window_by_idx(3);
    assert!(removed.is_none());
    assert_eq!(container.focused_window_idx(), Some(2));
}

#[test]
fn remove_on_empty_is_absorbed() {
    let mut container = Container::default();
    assert!(container.remove_window_by_idx(0).is_none());
    assert!(container.remove_window_by_idx(9).is_none());
    assert!(container.remove_focused_window().is_none());
    assert_eq!(container.focused_window_idx(), None);
    assert!(container.windows().is_empty());
}

#[test]
fn focus_clamps_to_the_last_member() {
    let mut container = stack(vec![window(1, "a"), window(2, "b"), window(3, "c")]);
    container.focus_window(1);
    assert_eq!(container.focused_window_idx(), Some(1));
    container.focus_window(3);
    assert_eq!(container.focused_window_idx(), Some(2));
    container.focus_window(usize::MAX);
    assert_eq!(container.focused_window_idx(), Some(2));
    container.focus_window(0);
    assert_eq!(container.focused_window_idx(), Some(0));
}

#[test]
fn focus_on_empty_stays_absent() {
    let mut container = Container::default();
    container.focus_window(0);
    assert_eq!(container.focused_window_idx(), None);
    container.focus_window(4);
    assert_eq!(container.focused_window_idx(), None);
    assert!(container.focused_window().is_none());
}

#[test]
fn focus_alone_shows_nothing() {
    let mut container = stack(vec![window(1, "a"), window(2, "b")]);
    container.focus_window(0);
    assert_eq!(visible(&container), vec![2]);
    container.load_focused_window();
    assert_eq!(visible(&container), vec![1]);
}

#[test]
fn hide_without_omit_hides_all_last_to_first() {
    let mut container = stack(vec![window(1, "a"), window(2, "b"), window(3, "c")]);
    let commands = container.hide_windows(None);
    assert_eq!(
        commands,
        vec![
            WindowCommand::Hide { hwnd: 3 },
            WindowCommand::Hide { hwnd: 2 },
            WindowCommand::Hide { hwnd: 1 },
        ]
    );
    assert_eq!(visible(&container), Vec::<isize>::new());
    assert_eq!(container.focused_window_idx(), Some(2));
    assert_eq!(handles(&container), vec![1, 2, 3]);
}

#[test]
fn hide_with_omit_leaves_that_member_untouched() {
    let mut container = stack(vec![window(1, "a"), window(2, "b"), window(3, "c")]);
    let commands = container.hide_windows(Some(3));
    assert_eq!(
        commands,
        vec![WindowCommand::Hide { hwnd: 2 }, WindowCommand::Hide { hwnd: 1 }]
    );
    assert_eq!(visible(&container), vec![3]);

    container.load_focused_window();
    container.focus_window(0);
    container.load_focused_window();
    assert_eq!(visible(&container), vec![1]);
    let commands = container.hide_windows(Some(2));
    assert_eq!(
        commands,
        vec![WindowCommand::Hide { hwnd: 3 }, WindowCommand::Hide { hwnd: 1 }]
    );
    assert_eq!(visible(&container), Vec::<isize>::new());
}

#[test]
fn hide_with_absent_omit_hides_all() {
    let mut container = stack(vec![window(1, "a"), window(2, "b")]);
    let commands = container.hide_windows(Some(99));
    assert_eq!(
        commands,
        vec![WindowCommand::Hide { hwnd: 2 }, WindowCommand::Hide { hwnd: 1 }]
    );
    assert_eq!(visible(&container), Vec::<isize>::new());
}

#[test]
fn hide_on_empty_and_single() {
    let mut empty = Container::default();
    assert!(empty.hide_windows(Some(1)).is_empty());
    assert!(empty.hide_windows(None).is_empty());

    let mut one = stack(vec![window(1, "a")]);
    assert!(one.hide_windows(Some(1)).is_empty());
    assert_eq!(visible(&one), vec![1]);
    assert_eq!(one.hide_windows(None), vec![WindowCommand::Hide { hwnd: 1 }]);
    assert_eq!(visible(&one), Vec::<isize>::new());
}

#[test]
fn restore_shows_only_the_focused_member() {
    let mut container = stack(vec![window(1, "a"), window(2, "b"), window(3, "c")]);
    container.hide_windows(None);
    container.focus_window(1);
    let command = container.restore();
    assert_eq!(command, Some(WindowCommand::Restore { hwnd: 2 }));
    assert_eq!(visible(&container), vec![2]);
}

#[test]
fn restore_on_empty_does_nothing() {
    let mut container = Container::default();
    assert_eq!(container.restore(), None);
    assert!(container.windows().is_empty());
}

#[test]
fn policy_shows_focused_and_hides_others_in_order() {
    let mut container = stack(vec![window(1, "a"), window(2, "b"), window(3, "c")]);
    container.focus_window(1);
    let commands = container.load_focused_window();
    assert_eq!(
        commands,
        vec![
            WindowCommand::HideWithBorder { hwnd: 1, border: false },
            WindowCommand::RestoreWithBorder { hwnd: 2, border: false },
            WindowCommand::HideWithBorder { hwnd: 3, border: false },
        ]
    );
    assert_eq!(visible(&container), vec![2]);
}

#[test]
fn policy_is_idempotent() {
    let mut container = stack(vec![window(1, "a"), window(2, "b"), window(3, "c")]);
    container.focus_window(0);
    let first = container.load_focused_window();
    let once = container.clone();
    let second = container.load_focused_window();
    assert_eq!(first, second);
    assert_eq!(container, once);
    assert_eq!(visible(&container), vec![1]);
}

#[test]
fn policy_on_empty_makes_no_request() {
    let mut container = Container::default();
    assert!(container.load_focused_window().is_empty());
}

#[test]
fn lookups_on_empty_find_nothing() {
    let container = Container::default();
    assert_eq!(container.idx_from_exe("a.exe"), None);
    assert_eq!(container.hwnd_from_exe("a.exe"), None);
    assert_eq!(container.idx_for_window(1), None);
    assert!(!container.contains_window(1));
}

#[test]
fn lookup_by_process_finds_the_first_match() {
    let container = stack(vec![
        window(10, "a.exe"),
        window(20, "b.exe"),
        window(30, "b.exe"),
        window(40, "c.exe"),
    ]);
    assert_eq!(container.idx_from_exe("b.exe"), Some(1));
    assert_eq!(container.hwnd_from_exe("b.exe"), Some(20));
    assert_eq!(container.idx_from_exe("a.exe"), Some(0));
    assert_eq!(container.hwnd_from_exe("c.exe"), Some(40));
    assert_eq!(container.idx_from_exe("d.exe"), None);
    assert_eq!(container.hwnd_from_exe("d.exe"), None);
}

#[test]
fn lookup_by_process_is_exact_and_case_sensitive() {
    let container = stack(vec![window(10, "Code.exe")]);
    assert_eq!(container.idx_from_exe("code.exe"), None);
    assert_eq!(container.idx_from_exe("Code"), None);
    assert_eq!(container.idx_from_exe("Code.exe "), None);
    assert_eq!(container.idx_from_exe(""), None);
    assert_eq!(container.hwnd_from_exe("Code.exe"), Some(10));
}

#[test]
fn lookup_by_process_skips_failed_probes() {
    let container = stack(vec![
        Window::new(10, None),
        window(20, "a.exe"),
        Window::new(30, None),
    ]);
    assert_eq!(container.idx_from_exe("a.exe"), Some(1));
    assert_eq!(container.hwnd_from_exe("a.exe"), Some(20));
    assert_eq!(container.idx_from_exe(""), None);
}

#[test]
fn contains_and_index_by_handle() {
    let container = stack(vec![window(10, "a"), window(20, "b"), window(10, "c")]);
    assert!(container.contains_window(10));
    assert!(container.contains_window(20));
    assert!(!container.contains_window(30));
    assert!(!container.contains_window(-10));
    assert_eq!(container.idx_for_window(10), Some(0));
    assert_eq!(container.idx_for_window(20), Some(1));
    assert_eq!(container.idx_for_window(30), None);
    for h in [10, 20, 30, 0, -1] {
        assert_eq!(container.contains_window(h), container.idx_for_window(h).is_some());
        assert_eq!(
            container.contains_window(h),
            container.windows().iter().any(|w| w.hwnd == h)
        );
    }
}

#[test]
fn negative_and_extreme_handles() {
    let container = stack(vec![window(isize::MIN, "a"), window(isize::MAX, "b")]);
    assert_eq!(container.idx_for_window(isize::MAX), Some(1));
    assert_eq!(container.idx_for_window(isize::MIN), Some(0));
    assert!(container.contains_window(isize::MIN));
}

#[test]
fn from_parts_keeps_members_and_clamps_the_cursor() {
    let container = Container::from_parts(
        "tag".to_string(),
        vec![window(1, "a"), window(2, "b")],
        1,
    );
    assert_eq!(container.id(), "tag");
    assert_eq!(handles(&container), vec![1, 2]);
    assert_eq!(container.focused_window_idx(), Some(1));

    let clamped = Container::from_parts("tag".to_string(), vec![window(1, "a")], 5);
    assert_eq!(clamped.focused_window_idx(), Some(0));

    let empty = Container::from_parts(String::new(), vec![], 3);
    assert_eq!(empty.focused_window_idx(), None);
    assert!(empty.windows().is_empty());
}
