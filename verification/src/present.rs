//! The list presenter: pure rendering of item sets into user-facing text
//! and selectable controls, for the toggle view, the delete-select view
//! and the plain-text share view.
//!
//! Rendering is deterministic: the same items, mode and selection give
//! byte-identical output.

use vstd::prelude::*;

use crate::idset::IdSet;
use crate::items::{Item, ItemView};
use crate::messages;
use crate::numtext::{dec_int, fmt_i64};

verus! {

/// One tappable control: its label and the callback payload it carries.
pub struct Control {
    pub label: String,
    pub data: String,
}

/// Mathematical image of a [`Control`].
pub ghost struct ControlView {
    pub label: Seq<char>,
    pub data: Seq<char>,
}

impl View for Control {
    type V = ControlView;

    open spec fn view(&self) -> ControlView {
        ControlView { label: self.label@, data: self.data@ }
    }
}

impl DeepView for Control {
    type V = ControlView;

    open spec fn deep_view(&self) -> ControlView {
        self.view()
    }
}

/// Whether every item of the list is checked off.
pub open spec fn all_done(items: Seq<ItemView>) -> bool {
    forall|i: int| 0 <= i < items.len() ==> items[i].done
}

/// One line of the rendered list.
pub open spec fn list_line(it: ItemView) -> Seq<char> {
    (if it.done {
        "✅ "@
    } else {
        "🛒 "@
    }) + it.text + "\n"@
}

/// The item lines of the rendered list, in order.
pub open spec fn list_lines(items: Seq<ItemView>) -> Seq<char>
    decreases items.len(),
{
    if items.len() == 0 {
        Seq::empty()
    } else {
        list_lines(items.drop_last()) + list_line(items.last())
    }
}

/// The full rendered list text: the lines, plus the all-done trailer when
/// every item is checked off.
pub open spec fn list_text(items: Seq<ItemView>) -> Seq<char> {
    list_lines(items) + (if items.len() > 0 && all_done(items) {
        "✅ All items checked off.\n"@
    } else {
        Seq::empty()
    })
}

/// The label of an item's toggle control.
pub open spec fn toggle_label(it: ItemView) -> Seq<char> {
    if it.done {
        "✅ "@ + it.text
    } else {
        it.text
    }
}

/// The label of an item's delete-select control, driven by membership in
/// the selection.
pub open spec fn select_label(it: ItemView, selected: Set<int>) -> Seq<char> {
    if selected.contains(it.id) {
        "☑️ "@ + it.text
    } else {
        "❌ "@ + it.text
    }
}

/// The rendered toggle view: one line and one control per item, the
/// control's payload carrying the item id; a trailing all-done marker
/// distinguishes a fully checked list.
pub fn format_list(items: &Vec<Item>) -> (r: (String, Vec<Control>))
    ensures
        r.0@ == list_text(items.deep_view()),
        r.1@.len() == items@.len(),
        forall|i: int| 0 <= i < items@.len() ==> (#[trigger] r.1@[i])@.label == toggle_label(
            items.deep_view()[i],
        ),
        forall|i: int| 0 <= i < items@.len() ==> (#[trigger] r.1@[i])@.data == dec_int(
            items.deep_view()[i].id,
        ),
{
    let ghost views = items.deep_view();
    let mut done_all = true;
    let mut i: usize = 0;
    while i < items.len()
        invariant
            0 <= i <= items@.len(),
            views == items.deep_view(),
            done_all == all_done(views.take(i as int)),
        decreases items@.len() - i,
    {
        let keep = done_all && items[i].done;
        proof {
            assert(views.take(i + 1) =~= views.take(i as int).push(views[i as int]));
            assert(all_done(views.take(i + 1)) == (all_done(views.take(i as int))
                && views[i as int].done)) by {
                let t1 = views.take(i + 1);
                let t0 = views.take(i as int);
                assert(forall|j: int| 0 <= j < i ==> t1[j] == t0[j]);
                assert(t1[i as int] == views[i as int]);
                if all_done(t0) && views[i as int].done {
                    assert(forall|j: int| 0 <= j < i + 1 ==> (#[trigger] t1[j]).done);
                }
                if all_done(t1) {
                    assert(forall|j: int| 0 <= j < i ==> (#[trigger] t0[j]).done);
                    assert(t1[i as int].done);
                }
            }
        }
        done_all = keep;
        i = i + 1;
    }
    proof {
        assert(views.take(views.len() as int) =~= views);
    }
    let mut text = String::new();
    let mut controls: Vec<Control> = Vec::new();
    let mut i: usize = 0;
    proof {
        assert(text@ =~= list_lines(views.take(0)));
    }
    while i < items.len()
        invariant
            0 <= i <= items@.len(),
            views == items.deep_view(),
            text@ == list_lines(views.take(i as int)),
            controls@.len() == i,
            forall|j: int| 0 <= j < i ==> (#[trigger] controls@[j])@.label == toggle_label(
                views[j],
            ),
            forall|j: int| 0 <= j < i ==> (#[trigger] controls@[j])@.data == dec_int(
                views[j].id,
            ),
        decreases items@.len() - i,
    {
        let it = &items[i];
        let ghost prev = text@;
        if it.done {
            text.append("✅ ");
        } else {
            text.append("🛒 ");
        }
        text.append(it.text.as_str());
        text.append("\n");
        let label = if it.done {
            let mut l = String::new();
            l.append("✅ ");
            l.append(it.text.as_str());
            l
        } else {
            it.text.clone()
        };
        let data = fmt_i64(it.id.0);
        controls.push(Control { label, data });
        proof {
            assert(views[i as int] == items@[i as int]@);
            assert(views.take(i + 1) =~= views.take(i as int).push(views[i as int]));
            assert(list_lines(views.take(i + 1)) == list_lines(views.take(i as int))
                + list_line(views[i as int])) by {
                assert(views.take(i + 1).drop_last() =~= views.take(i as int));
                assert(views.take(i + 1).last() == views[i as int]);
            }
            assert(text@ =~= list_lines(views.take(i + 1)));
        }
        i = i + 1;
    }
    proof {
        assert(views.take(views.len() as int) =~= views);
    }
    if done_all && items.len() > 0 {
        text.append("✅ All items checked off.\n");
    } else {
        proof {
            assert(text@ =~= text@ + Seq::<char>::empty());
        }
    }
    (text, controls)
}

/// The rendered delete-select view: the fixed prompt as text, one control
/// per item marked by selection membership, and a trailing confirm
/// control.
pub fn format_delete_list(items: &Vec<Item>, selected: &IdSet) -> (r: (String, Vec<Control>))
    ensures
        r.0@ == messages::DELETE_SELECT_PROMPT@,
        r.1@.len() == items@.len() + 1,
        forall|i: int| 0 <= i < items@.len() ==> (#[trigger] r.1@[i])@.label == select_label(
            items.deep_view()[i],
            selected@,
        ),
        forall|i: int| 0 <= i < items@.len() ==> (#[trigger] r.1@[i])@.data == "delete_"@
            + dec_int(items.deep_view()[i].id),
        r.1@[items@.len() as int]@.label == messages::DELETE_DONE_LABEL@,
        r.1@[items@.len() as int]@.data == "delete_done"@,
{
    let ghost views = items.deep_view();
    let text = messages::DELETE_SELECT_PROMPT.to_owned();
    let mut controls: Vec<Control> = Vec::new();
    let mut i: usize = 0;
    while i < items.len()
        invariant
            0 <= i <= items@.len(),
            views == items.deep_view(),
            controls@.len() == i,
            forall|j: int| 0 <= j < i ==> (#[trigger] controls@[j])@.label == select_label(
                views[j],
                selected@,
            ),
            forall|j: int| 0 <= j < i ==> (#[trigger] controls@[j])@.data == "delete_"@
                + dec_int(views[j].id),
        decreases items@.len() - i,
    {
        let it = &items[i];
        let mut label = String::new();
        if selected.contains(it.id) {
            label.append("☑️ ");
        } else {
            label.append("❌ ");
        }
        label.append(it.text.as_str());
        let mut data = String::new();
        data.append("delete_");
        data.append(fmt_i64(it.id.0).as_str());
        proof {
            assert(views[i as int] == items@[i as int]@);
        }
        controls.push(Control { label, data });
        i = i + 1;
    }
    let mut done_label = String::new();
    done_label.append(messages::DELETE_DONE_LABEL);
    let mut done_data = String::new();
    done_data.append("delete_done");
    controls.push(Control { label: done_label, data: done_data });
    (text, controls)
}

/// One line of the plain-text share view.
pub open spec fn plain_line(it: ItemView) -> Seq<char> {
    "• "@ + it.text + "\n"@
}

/// The plain-text share view: bulleted item texts, no controls.
pub open spec fn plain_text(items: Seq<ItemView>) -> Seq<char>
    decreases items.len(),
{
    if items.len() == 0 {
        Seq::empty()
    } else {
        plain_text(items.drop_last()) + plain_line(items.last())
    }
}

/// Render the list as newline-joined bulleted lines, for share and export.
pub fn format_plain_list(items: &Vec<Item>) -> (r: String)
    ensures
        r@ == plain_text(items.deep_view()),
{
    let ghost views = items.deep_view();
    let mut text = String::new();
    let mut i: usize = 0;
    proof {
        assert(text@ =~= plain_text(views.take(0)));
    }
    while i < items.len()
        invariant
            0 <= i <= items@.len(),
            views == items.deep_view(),
            text@ == plain_text(views.take(i as int)),
        decreases items@.len() - i,
    {
        let it = &items[i];
        text.append("• ");
        text.append(it.text.as_str());
        text.append("\n");
        proof {
            assert(views[i as int] == items@[i as int]@);
            assert(views.take(i + 1) =~= views.take(i as int).push(views[i as int]));
            assert(plain_text(views.take(i + 1)) == plain_text(views.take(i as int))
                + plain_line(views[i as int])) by {
                assert(views.take(i + 1).drop_last() =~= views.take(i as int));
                assert(views.take(i + 1).last() == views[i as int]);
            }
            assert(text@ =~= plain_text(views.take(i + 1)));
        }
        i = i + 1;
    }
    proof {
        assert(views.take(views.len() as int) =~= views);
    }
    text
}

} // verus!
