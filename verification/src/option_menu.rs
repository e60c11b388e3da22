//! Entries of option menus.

use vstd::prelude::*;

verus! {

/// Entry in an option menu.
pub struct OptionMenuItem {
    /// Option menu text.
    pub label: String,
    /// Whether item is selectable.
    pub disabled: bool,
    /// Whether item is selected.
    pub selected: bool,
}

/// Index of the last selected item.
pub open spec fn last_selected_index(selected: Seq<bool>) -> Option<int>
    decreases selected.len(),
{
    if selected.len() == 0 {
        None
    } else if selected.last() {
        Some(selected.len() - 1)
    } else {
        last_selected_index(selected.drop_last())
    }
}

/// Selection flags of the items, in order.
pub open spec fn selection_flags(items: Seq<OptionMenuItem>) -> Seq<bool> {
    items.map_values(|item: OptionMenuItem| item.selected)
}

/// Index of the item a new option menu starts with selected: the last one
/// marked as selected.
pub fn initial_selection(items: &Vec<OptionMenuItem>) -> (index: Option<usize>)
    ensures
        match index {
            Some(i) => last_selected_index(selection_flags(items@)) == Some(i as int),
            None => last_selected_index(selection_flags(items@)) is None,
        },
{
    let mut selection: Option<usize> = None;
    let mut i: usize = 0;
    while i < items.len()
        invariant
            i <= items.len(),
            match selection {
                Some(s) => last_selected_index(selection_flags(items@).take(i as int)) == Some(
                    s as int,
                ),
                None => last_selected_index(selection_flags(items@).take(i as int)) is None,
            },
        decreases items.len() - i,
    {
        proof {
            let flags = selection_flags(items@);
            assert(flags.take(i + 1).drop_last() =~= flags.take(i as int));
            assert(flags.take(i + 1).last() == items@[i as int].selected);
        }
        if items[i].selected {
            selection = Some(i);
        }
        i = i + 1;
    }
    assert(selection_flags(items@).take(items.len() as int) =~= selection_flags(items@));
    selection
}

} // verus!
