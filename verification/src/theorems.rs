//! What holds of the window stack whatever its members are, stated over its model.

use crate::container::ContainerView;
use crate::window::{WindowCommand, WindowView};
use vstd::prelude::*;

verus! {

/// After a window that is on screen is added, it is the one member on screen: it sits at
/// the tail under the cursor, and every earlier member is hidden and otherwise unchanged.
pub proof fn lemma_added_window_alone_visible(c: ContainerView, window: WindowView)
    requires
        window.visible,
    ensures
        c.added(window).windows.len() == c.windows.len() + 1,
        c.added(window).windows.last() == window,
        c.added(window).cursor() == Some(c.windows.len() as int),
        c.added(window).one_visible(c.windows.len() as int),
        forall|i: int|
            0 <= i < c.windows.len() ==> #[trigger] c.added(window).windows[i]
                == c.windows[i].with_visible(false),
{
}

/// Adding a window never leaves two members on screen, whatever the window's own state.
pub proof fn lemma_added_at_most_one_visible(c: ContainerView, window: WindowView)
    ensures
        c.added(window).at_most_one_visible(),
        c.added(window).wf(),
{
}

/// Taking the first member out of a stack leaves the cursor on index 0 when members
/// remain, and leaves the stack empty with no cursor when it was the only one.
pub proof fn lemma_remove_first(c: ContainerView)
    requires
        c.windows.len() > 0,
    ensures
        c.removed_at(0).windows == c.windows.drop_first(),
        c.windows.len() > 1 ==> c.removed_at(0).cursor() == Some(0int),
        c.windows.len() == 1 ==> c.removed_at(0).windows.len() == 0 && c.removed_at(0).cursor()
            is None,
        c.removed_at(0).wf(),
{
    assert(c.windows.remove(0) =~= c.windows.drop_first());
}

/// Taking a member out leaves a cursor at rest and keeps every other member, in order
/// and unchanged. An index that names no member takes nothing out.
pub proof fn lemma_remove_keeps_the_rest(c: ContainerView, idx: int)
    requires
        0 <= idx,
    ensures
        c.removed_at(idx).wf(),
        c.removed_at(idx).id == c.id,
        idx >= c.windows.len() ==> c.removed_at(idx).windows == c.windows,
        idx < c.windows.len() ==> {
            &&& c.removed_at(idx).windows.len() == c.windows.len() - 1
            &&& forall|i: int| 0 <= i < idx ==> #[trigger] c.removed_at(idx).windows[i] == c.windows[i]
            &&& forall|i: int|
                idx <= i < c.windows.len() - 1 ==> #[trigger] c.removed_at(idx).windows[i]
                    == c.windows[i + 1]
        },
        c.at_most_one_visible() ==> c.removed_at(idx).at_most_one_visible(),
{
    if idx < c.windows.len() && c.at_most_one_visible() {
        let after = c.removed_at(idx);
        assert forall|i: int, j: int|
            0 <= i < after.windows.len() && 0 <= j < after.windows.len() && (
            #[trigger] after.windows[i]).visible && (#[trigger] after.windows[j]).visible implies i
            == j by {
            let from_i = if i < idx {
                i
            } else {
                i + 1
            };
            let from_j = if j < idx {
                j
            } else {
                j + 1
            };
            assert(c.windows[from_i].visible && c.windows[from_j].visible);
        }
    }
}

/// Hiding with a handle to spare leaves every member with that handle untouched and
/// hides every other member; when no member has the handle, all are hidden. This holds
/// for a stack of any size, the empty one included.
pub proof fn lemma_hide_spares_exactly_the_omitted(c: ContainerView, hwnd: isize)
    ensures
        c.hidden_except(Some(hwnd)).windows.len() == c.windows.len(),
        c.hidden_except(Some(hwnd)).id == c.id,
        c.hidden_except(Some(hwnd)).focused == c.focused,
        forall|i: int|
            0 <= i < c.windows.len() && c.windows[i].hwnd == hwnd ==> #[trigger] c.hidden_except(
                Some(hwnd),
            ).windows[i] == c.windows[i],
        forall|i: int|
            0 <= i < c.windows.len() && c.windows[i].hwnd != hwnd ==> #[trigger] c.hidden_except(
                Some(hwnd),
            ).windows[i] == c.windows[i].with_visible(false),
        !c.has_handle(hwnd) ==> c.hidden_except(Some(hwnd)).all_hidden(),
        c.at_most_one_visible() ==> c.hidden_except(Some(hwnd)).at_most_one_visible(),
{
    if c.at_most_one_visible() {
        let after = c.hidden_except(Some(hwnd));
        assert forall|i: int, j: int|
            0 <= i < after.windows.len() && 0 <= j < after.windows.len() && (
            #[trigger] after.windows[i]).visible && (#[trigger] after.windows[j]).visible implies i
            == j by {
            assert(c.windows[i].visible && c.windows[j].visible);
        }
    }
    if !c.has_handle(hwnd) {
        let after = c.hidden_except(Some(hwnd));
        assert forall|i: int| 0 <= i < after.windows.len() implies !(
        #[trigger] after.windows[i]).visible by {
            assert(c.windows[i].hwnd != hwnd);
        }
    }
}

/// Hiding with no handle to spare hides every member.
pub proof fn lemma_hide_all(c: ContainerView)
    ensures
        c.hidden_except(None).all_hidden(),
        c.hidden_except(None).windows.len() == c.windows.len(),
        c.hidden_except(None).at_most_one_visible(),
{
}

/// Every request made while hiding asks a member to leave the screen, and none is made
/// for the spared handle.
pub proof fn lemma_hide_commands_only_hide(c: ContainerView, omit: Option<isize>, k: int)
    requires
        0 <= k < c.hide_commands(omit).len(),
    ensures
        c.hide_commands(omit)[k] is Hide,
        c.has_handle(c.hide_commands(omit)[k]->Hide_hwnd),
        omit != Some(c.hide_commands(omit)[k]->Hide_hwnd),
{
    let kept = |w: WindowView| omit != Some(w.hwnd);
    let survivors = c.windows.reverse().filter(kept);
    c.windows.reverse().lemma_filter_pred(kept, k);
    let w = survivors[k];
    assert(survivors.contains(w));
    c.windows.reverse().lemma_filter_contains_rev(kept, w);
    let at = choose|i: int| 0 <= i < c.windows.reverse().len() && c.windows.reverse()[i] == w;
    assert(c.windows[c.windows.len() - 1 - at] == w);
}

/// With nothing spared, hiding makes one request per member, last member first.
pub proof fn lemma_hide_all_commands(c: ContainerView)
    ensures
        c.hide_commands(None).len() == c.windows.len(),
        forall|k: int|
            0 <= k < c.windows.len() ==> #[trigger] c.hide_commands(None)[k] == (
            WindowCommand::Hide { hwnd: c.windows[c.windows.len() - 1 - k].hwnd }),
{
    let kept = |w: WindowView| None::<isize> != Some(w.hwnd);
    let reversed = c.windows.reverse();
    lemma_filter_keeps_all(reversed, kept);
}

/// A filter that every element passes changes nothing.
proof fn lemma_filter_keeps_all<A>(s: Seq<A>, pred: spec_fn(A) -> bool)
    requires
        forall|i: int| 0 <= i < s.len() ==> pred(#[trigger] s[i]),
    ensures
        s.filter(pred) == s,
    decreases s.len(),
{
    reveal(Seq::filter);
    if s.len() > 0 {
        lemma_filter_keeps_all(s.drop_last(), pred);
        assert(s.drop_last().push(s.last()) =~= s);
    }
}

/// The focus policy puts exactly the focused member on screen; on an empty stack, or
/// with the cursor absent, it leaves no member on screen.
pub proof fn lemma_policy_shows_the_focused(c: ContainerView)
    ensures
        c.focus_shown().windows.len() == c.windows.len(),
        c.focus_shown().focused == c.focused,
        c.focus_shown().id == c.id,
        c.focus_shown().at_most_one_visible(),
        match c.cursor() {
            Some(i) => c.focus_shown().one_visible(i),
            None => c.focus_shown().all_hidden(),
        },
        forall|i: int|
            0 <= i < c.windows.len() ==> (#[trigger] c.focus_shown().windows[i]).hwnd
                == c.windows[i].hwnd && c.focus_shown().windows[i].exe == c.windows[i].exe,
{
}

/// Applying the focus policy twice is the same as applying it once: the second pass
/// changes no member and makes the same requests.
pub proof fn lemma_policy_idempotent(c: ContainerView)
    ensures
        c.focus_shown().focus_shown() == c.focus_shown(),
        c.focus_shown().policy_commands() == c.policy_commands(),
{
    assert(c.focus_shown().focus_shown().windows =~= c.focus_shown().windows);
    assert(c.focus_shown().policy_commands() =~= c.policy_commands());
}

/// Restoring a stack in which everything is hidden puts exactly the focused member on
/// screen.
pub proof fn lemma_restore_after_hide(c: ContainerView)
    requires
        c.all_hidden(),
        c.cursor() is Some,
    ensures
        c.restored().one_visible(c.focused),
        c.restored().windows.len() == c.windows.len(),
{
}

/// After a member is taken out and the focus policy is applied, the stack is empty or
/// has exactly the member under the cursor on screen.
pub proof fn lemma_remove_then_policy(c: ContainerView, idx: int)
    requires
        0 <= idx,
    ensures
        c.removed_at(idx).focus_shown().windows.len() == 0 || c.removed_at(
            idx,
        ).focus_shown().one_visible(c.removed_at(idx).focused),
{
}

/// Restoring keeps the stack at one member on screen when that member is the focused
/// one already.
pub proof fn lemma_restore_of_the_visible(c: ContainerView)
    requires
        c.cursor() is Some,
        c.one_visible(c.focused),
    ensures
        c.restored() == c,
{
    assert(c.restored().windows =~= c.windows);
}

/// Restoring an empty stack changes nothing and makes no request.
pub proof fn lemma_restore_empty(c: ContainerView)
    requires
        c.windows.len() == 0,
    ensures
        c.restored() == c,
        c.restore_command() is None,
{
}

/// Moving the cursor shows and hides nothing, and always leaves the cursor at rest.
pub proof fn lemma_refocus_changes_only_the_cursor(c: ContainerView, idx: int)
    requires
        0 <= idx,
    ensures
        c.refocused(idx).windows == c.windows,
        c.refocused(idx).id == c.id,
        c.refocused(idx).wf(),
        idx < c.windows.len() ==> c.refocused(idx).cursor() == Some(idx),
        c.windows.len() > 0 && idx >= c.windows.len() ==> c.refocused(idx).cursor() == Some(
            c.windows.len() - 1,
        ),
        c.windows.len() == 0 ==> c.refocused(idx).cursor() is None,
{
}

/// A lookup by process name has one answer: on an empty stack it is `None`, and where
/// some member runs `exe` it is the first such index.
pub proof fn lemma_first_running_unique(
    c: ContainerView,
    exe: Seq<char>,
    found: Option<int>,
    other: Option<int>,
)
    requires
        c.is_first_running(exe, found),
        c.is_first_running(exe, other),
    ensures
        found == other,
        c.windows.len() == 0 ==> found is None,
        forall|i: int|
            0 <= i < c.windows.len() && (#[trigger] c.windows[i]).runs(exe) ==> found is Some
                && found.unwrap() <= i,
{
    if found is Some && other is Some {
        let a = found.unwrap();
        let b = other.unwrap();
        if a < b {
            assert(!c.windows[a].runs(exe));
        } else if b < a {
            assert(!c.windows[b].runs(exe));
        }
    } else if found is Some {
        assert(!c.windows[found.unwrap()].runs(exe));
    } else if other is Some {
        assert(!c.windows[other.unwrap()].runs(exe));
    }
    assert forall|i: int| 0 <= i < c.windows.len() && (#[trigger] c.windows[i]).runs(
        exe,
    ) implies found is Some && found.unwrap() <= i by {
        if found is Some {
            if i < found.unwrap() {
                assert(!c.windows[i].runs(exe));
            }
        }
    }
}

/// A lookup by handle has one answer, and it finds an index exactly when the stack
/// contains the handle.
pub proof fn lemma_first_with_handle_unique(
    c: ContainerView,
    hwnd: isize,
    found: Option<int>,
    other: Option<int>,
)
    requires
        c.is_first_with_handle(hwnd, found),
        c.is_first_with_handle(hwnd, other),
    ensures
        found == other,
        found is Some <==> c.has_handle(hwnd),
{
    if found is Some && other is Some {
        let a = found.unwrap();
        let b = other.unwrap();
        if a < b {
            assert(c.windows[a].hwnd != hwnd);
        } else if b < a {
            assert(c.windows[b].hwnd != hwnd);
        }
    } else if found is Some {
        assert(c.windows[found.unwrap()].hwnd != hwnd);
    } else if other is Some {
        assert(c.windows[other.unwrap()].hwnd != hwnd);
    }
    if found is Some {
        assert(c.windows[found.unwrap()].hwnd == hwnd);
    }
}

} // verus!
