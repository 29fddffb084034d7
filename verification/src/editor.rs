//! The decisions of the parameter editor: what one row of the editor does
//! to its parameter and to the selected link target, given what its
//! widgets reported.
use vstd::prelude::*;
use crate::gadget::{is_free_link, link_target, Link, Parameter, BITS_ZERO};

verus! {

/// What the widgets of one parameter's row reported in one frame.
#[derive(Clone, Copy)]
pub struct RowInput {
    /// The "Unlink" button of a linked parameter was clicked.
    pub unlink: bool,
    /// The value that the value field of a free parameter holds after any
    /// dragging, if the field was shown.
    pub value: Option<u32>,
    /// The "Select" button of a free parameter was clicked.
    pub select: bool,
    /// The button that links the parameter to the selected name was
    /// clicked.
    pub link: bool,
}

/// The views of an optional string.
pub open spec fn opt_view(o: Option<String>) -> Option<Seq<char>> {
    match o {
        Some(s) => Some(s@),
        None => None,
    }
}

/// The link after the row's own widgets: a linked parameter that is
/// unlinked becomes free with value 0; a free parameter takes the value
/// of its field.
pub open spec fn widget_link(l: Link, input: RowInput) -> Link {
    if is_free_link(l) {
        match input.value {
            Some(v) => Link::Value(v),
            None => l,
        }
    } else if input.unlink {
        Link::Value(BITS_ZERO)
    } else {
        l
    }
}

/// The selection after the row: selecting a free parameter selects the
/// row's name.
pub open spec fn widget_selection(
    l: Link,
    row_name: Seq<char>,
    selection: Option<Seq<char>>,
    input: RowInput,
) -> Option<Seq<char>> {
    if is_free_link(l) && input.select {
        Some(row_name)
    } else {
        selection
    }
}

/// Apply what the widgets of the row of parameter `p`, found under
/// `row_name`, reported: unlink, set the dragged value, select the row's
/// name as link target, and link the parameter to the selected name.
pub fn edit_row(
    p: &mut Parameter,
    row_name: &String,
    selection: &mut Option<String>,
    input: RowInput,
)
    ensures
        final(p).name == old(p).name,
        final(p).slot == old(p).slot,
        opt_view(*final(selection)) == widget_selection(
            old(p).link,
            row_name@,
            opt_view(*old(selection)),
            input,
        ),
        input.link && opt_view(*final(selection)) is Some ==> {
            &&& final(p).link is Link
            &&& link_target(final(p).link) == opt_view(*final(selection))->0
        },
        !(input.link && opt_view(*final(selection)) is Some) ==> final(p).link == widget_link(
            old(p).link,
            input,
        ),
        is_free_link(old(p).link) && input.select ==> opt_view(*final(selection)) == Some(
            row_name@,
        ),
        !(is_free_link(old(p).link) && input.select) ==> opt_view(*final(selection)) == opt_view(
            *old(selection),
        ),
        is_free_link(old(p).link) && !(input.link && opt_view(*final(selection)) is Some) ==> match input.value {
            Some(v) => final(p).link == Link::Value(v),
            None => final(p).link == old(p).link,
        },
        !is_free_link(old(p).link) && !(input.link && opt_view(*final(selection)) is Some) ==> if input.unlink {
            final(p).link == Link::Value(BITS_ZERO)
        } else {
            final(p).link == old(p).link
        },
{
    if p.is_free() {
        if let Some(v) = input.value {
            p.set_value(v);
        }
        if input.select {
            *selection = Some(row_name.clone());
        }
    } else if input.unlink {
        p.set_value(BITS_ZERO);
    }
    if input.link {
        match selection {
            Some(name) => {
                p.set_link(name.as_str());
            },
            None => {},
        }
    }
}

} // verus!
