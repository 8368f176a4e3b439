//! What the picker draws, as text and geometry: the footer hint line built
//! from the actual keymap, the text of each tree row, and the popup's
//! placement on the screen.

use vstd::prelude::*;
use crate::keymap::{binding_label, Action, Keymap};
use crate::text::{decimal, decimal_string, opt_text, spaces};
use crate::tree::{AgentStatus, Row, RowKind};

verus! {

/// One footer entry: a key label and what it does.
pub open spec fn footer_entry(
    b: Seq<(Seq<crate::keymap::KeyPress>, Action)>,
    a: Action,
    name: Seq<char>,
) -> Seq<(Seq<char>, Seq<char>)> {
    match binding_label(b, a) {
        Some(k) => seq![(k, name)],
        None => Seq::empty(),
    }
}

/// The footer entries a keymap gives: movement (`up/down`, or whichever of
/// the two is bound), then expand, collapse, accept and cancel, each only
/// when bound.
pub open spec fn footer_entries(b: Seq<(Seq<crate::keymap::KeyPress>, Action)>) -> Seq<
    (Seq<char>, Seq<char>),
> {
    let moves = match (binding_label(b, Action::Up), binding_label(b, Action::Down)) {
        (Some(up), Some(down)) => seq![(up + "/"@ + down, "move"@)],
        (Some(k), None) => seq![(k, "move"@)],
        (None, Some(k)) => seq![(k, "move"@)],
        (None, None) => Seq::empty(),
    };
    moves + footer_entry(b, Action::Expand, "expand"@) + footer_entry(b, Action::Collapse, "collapse"@)
        + footer_entry(b, Action::Accept, "accept"@) + footer_entry(b, Action::Cancel, "cancel"@)
}

/// The footer line: each entry as `key action`, separated by three spaces.
pub open spec fn footer_line(entries: Seq<(Seq<char>, Seq<char>)>) -> Seq<char>
    decreases entries.len(),
{
    if entries.len() == 0 {
        Seq::empty()
    } else if entries.len() == 1 {
        entries[0].0 + " "@ + entries[0].1
    } else {
        footer_line(entries.drop_last()) + "   "@ + entries.last().0 + " "@ + entries.last().1
    }
}

/// Footer entries as `(key label, action label)` pairs, e.g. `("↑/↓", "move")`.
pub struct FooterHints {
    pub entries: Vec<(String, String)>,
}

/// The texts of footer entries.
pub open spec fn entry_texts(entries: Seq<(String, String)>) -> Seq<(Seq<char>, Seq<char>)> {
    entries.map_values(|e: (String, String)| (e.0@, e.1@))
}

/// Adds the entry of `action`, if it is bound.
fn push_entry(entries: &mut Vec<(String, String)>, keymap: &Keymap, action: Action, name: &str)
    ensures
        entry_texts(final(entries)@) == entry_texts(old(entries)@) + footer_entry(
            keymap@,
            action,
            name@,
        ),
{
    match keymap.first_binding_label(action) {
        Some(key) => {
            let ghost before = entry_texts(entries@);
            entries.push((key, String::from_str(name)));
            assert(entry_texts(entries@) =~= before + footer_entry(keymap@, action, name@));
        },
        None => {
            assert(entry_texts(entries@) =~= entry_texts(entries@) + footer_entry(
                keymap@,
                action,
                name@,
            ));
        },
    }
}

impl FooterHints {
    /// Reads the first bound key of each action out of the keymap, so the
    /// hint line reflects the user's configuration, not the defaults.
    pub fn from_keymap(keymap: &Keymap) -> (h: FooterHints)
        ensures
            entry_texts(h.entries@) == footer_entries(keymap@),
    {
        let mut entries: Vec<(String, String)> = Vec::new();
        let up = keymap.first_binding_label(Action::Up);
        let down = keymap.first_binding_label(Action::Down);
        match (up, down) {
            (Some(up), Some(down)) => {
                let mut key = up;
                key.append("/");
                key.append(down.as_str());
                entries.push((key, String::from_str("move")));
            },
            (Some(key), None) => {
                entries.push((key, String::from_str("move")));
            },
            (None, Some(key)) => {
                entries.push((key, String::from_str("move")));
            },
            (None, None) => {},
        }
        let ghost moves = entry_texts(entries@);
        push_entry(&mut entries, keymap, Action::Expand, "expand");
        push_entry(&mut entries, keymap, Action::Collapse, "collapse");
        push_entry(&mut entries, keymap, Action::Accept, "accept");
        push_entry(&mut entries, keymap, Action::Cancel, "cancel");
        assert(entry_texts(entries@) =~= footer_entries(keymap@));
        FooterHints { entries }
    }

    /// The hint line: `key action` entries separated by three spaces.
    pub fn line(&self) -> (s: String)
        ensures
            s@ == footer_line(entry_texts(self.entries@)),
    {
        let ghost es = entry_texts(self.entries@);
        let mut s = String::new();
        let mut i: usize = 0;
        while i < self.entries.len()
            invariant
                es == entry_texts(self.entries@),
                i <= es.len(),
                s@ == footer_line(es.take(i as int)),
            decreases es.len() - i,
        {
            assert(es.take(i + 1).drop_last() =~= es.take(i as int));
            assert(es[i as int] == (self.entries@[i as int].0@, self.entries@[i as int].1@));
            if i > 0 {
                s.append("   ");
            } else {
                assert(s@ =~= Seq::<char>::empty());
            }
            s.append(self.entries[i].0.as_str());
            s.append(" ");
            s.append(self.entries[i].1.as_str());
            i = i + 1;
        }
        assert(es.take(es.len() as int) =~= es);
        s
    }
}

/// The word for an agent status.
pub open spec fn status_text(status: AgentStatus) -> Seq<char> {
    match status {
        AgentStatus::Idle => "idle"@,
        AgentStatus::Working => "working"@,
        AgentStatus::Blocked => "blocked"@,
        AgentStatus::Done => "done"@,
        AgentStatus::Unknown => "unknown"@,
    }
}

/// The word for an agent status.
pub fn status_label(status: AgentStatus) -> (s: &'static str)
    ensures
        s@ == status_text(status),
{
    match status {
        AgentStatus::Idle => "idle",
        AgentStatus::Working => "working",
        AgentStatus::Blocked => "blocked",
        AgentStatus::Done => "done",
        AgentStatus::Unknown => "unknown",
    }
}

/// The left part of a row: the current-row marker, indentation, the
/// expansion glyph, and the label.
pub open spec fn row_left(r: Row) -> Seq<char> {
    (if r.is_current {
        "→"@
    } else {
        " "@
    }) + " "@ + Seq::new(2 * r.depth as nat, |_i: int| ' ') + (if r.expandable {
        if r.expanded {
            "▼ "@
        } else {
            "▶ "@
        }
    } else if r.kind == RowKind::Pane {
        Seq::empty()
    } else {
        "· "@
    }) + r.label@
}

/// The right part of a row: the agent (or `shell`) and status for a pane,
/// the pane count and status for a workspace or tab.
pub open spec fn row_right(r: Row) -> Seq<char> {
    if r.kind == RowKind::Pane {
        (match opt_text(r.agent) {
            Some(a) => a,
            None => "shell"@,
        }) + "  "@ + status_text(r.agent_status)
    } else {
        decimal(r.pane_count as nat) + " "@ + (if r.pane_count == 1 {
            "pane"@
        } else {
            "panes"@
        }) + "  "@ + status_text(r.agent_status)
    }
}

/// A row laid out in `width` columns: left part, padding, right part when
/// both fit with two columns to spare; otherwise the left part alone, cut at
/// `width`.
pub open spec fn row_line(r: Row, width: nat) -> Seq<char> {
    let left = row_left(r);
    let right = row_right(r);
    if left.len() + right.len() + 2 <= width {
        left + Seq::new((width - left.len() - right.len()) as nat, |_i: int| ' ') + right
    } else if left.len() <= width {
        left
    } else {
        left.take(width as int)
    }
}

/// The text of one tree row in `width` columns.
pub fn row_text(row: &Row, width: usize) -> (s: String)
    ensures
        s@ == row_line(*row, width as nat),
{
    let mut left = String::new();
    if row.is_current {
        left.append("→");
    } else {
        left.append(" ");
    }
    left.append(" ");
    let indent = spaces(2 * row.depth as usize);
    left.append(indent.as_str());
    if row.expandable {
        if row.expanded {
            left.append("▼ ");
        } else {
            left.append("▶ ");
        }
    } else if row.kind != RowKind::Pane {
        left.append("· ");
    }
    left.append(row.label.as_str());
    assert(left@ =~= row_left(*row));
    let mut right = String::new();
    if row.kind == RowKind::Pane {
        match &row.agent {
            Some(a) => right.append(a.as_str()),
            None => right.append("shell"),
        }
        right.append("  ");
        right.append(status_label(row.agent_status));
    } else {
        let count = decimal_string(row.pane_count);
        right.append(count.as_str());
        right.append(" ");
        if row.pane_count == 1 {
            right.append("pane");
        } else {
            right.append("panes");
        }
        right.append("  ");
        right.append(status_label(row.agent_status));
    }
    assert(right@ =~= row_right(*row));
    let left_cols = left.as_str().unicode_len();
    let right_cols = right.as_str().unicode_len();
    if left_cols <= width && right_cols <= width - left_cols && 2 <= width - left_cols - right_cols {
        let padding = spaces(width - left_cols - right_cols);
        let mut s = left;
        s.append(padding.as_str());
        s.append(right.as_str());
        s
    } else if left_cols <= width {
        left
    } else {
        let cut = left.as_str().substring_char(0, width);
        String::from_str(cut)
    }
}

/// A rectangle of terminal cells.
#[derive(Clone, Copy, Debug, PartialEq, Eq, Structural)]
pub struct Rect {
    pub x: u16,
    pub y: u16,
    pub width: u16,
    pub height: u16,
}

/// `a + b`, capped at `u16::MAX`.
pub open spec fn sat_add(a: u16, b: u16) -> u16 {
    if a + b > u16::MAX {
        u16::MAX
    } else {
        (a + b) as u16
    }
}

/// `a - b`, floored at zero.
pub open spec fn sat_sub(a: u16, b: u16) -> u16 {
    if a >= b {
        (a - b) as u16
    } else {
        0
    }
}

/// The smaller of two numbers.
pub open spec fn min16(a: u16, b: u16) -> u16 {
    if a <= b {
        a
    } else {
        b
    }
}

/// The larger of two numbers.
pub open spec fn max16(a: u16, b: u16) -> u16 {
    if a >= b {
        a
    } else {
        b
    }
}

/// A rectangle at `(x, y)`, its size clamped so that it ends within the
/// coordinate range.
pub open spec fn new_rect(x: u16, y: u16, width: u16, height: u16) -> Rect {
    Rect {
        x,
        y,
        width: min16(width, (u16::MAX - x) as u16),
        height: min16(height, (u16::MAX - y) as u16),
    }
}

/// The first column right of `r`.
pub open spec fn right_of(r: Rect) -> u16 {
    sat_add(r.x, r.width)
}

/// The first row below `r`.
pub open spec fn bottom_of(r: Rect) -> u16 {
    sat_add(r.y, r.height)
}

/// The cells two rectangles share (empty, with a corner where they would
/// meet, when they do not overlap).
pub open spec fn intersect(a: Rect, b: Rect) -> Rect {
    let x1 = max16(a.x, b.x);
    let y1 = max16(a.y, b.y);
    let x2 = min16(right_of(a), right_of(b));
    let y2 = min16(bottom_of(a), bottom_of(b));
    Rect { x: x1, y: y1, width: sat_sub(x2, x1), height: sat_sub(y2, y1) }
}

/// The horizontal margin of the popup in an area `width` columns wide.
pub open spec fn margin_x(width: u16) -> u16 {
    max16((width / 16) as u16, 2)
}

/// The vertical margin of the popup in an area `height` rows high.
pub open spec fn margin_y(height: u16) -> u16 {
    max16((height / 10) as u16, 1)
}

/// The popup within `area`: margins of a sixteenth of the width (at least
/// 2) and a tenth of the height (at least 1), a size of at least 4 by 4,
/// clipped to the area.
pub open spec fn popup_of(area: Rect) -> Rect {
    let mx = margin_x(area.width);
    let my = margin_y(area.height);
    let width = max16(sat_sub(area.width, (mx * 2) as u16), 4);
    let height = max16(sat_sub(area.height, (my * 2) as u16), 4);
    intersect(new_rect((area.x + mx) as u16, (area.y + my) as u16, width, height), area)
}

impl Rect {
    /// A rectangle at `(x, y)`, its size clamped so that it ends within the
    /// coordinate range.
    pub fn new(x: u16, y: u16, width: u16, height: u16) -> (r: Rect)
        ensures
            r == new_rect(x, y, width, height),
    {
        let max_width = u16::MAX - x;
        let max_height = u16::MAX - y;
        Rect {
            x,
            y,
            width: if width > max_width {
                max_width
            } else {
                width
            },
            height: if height > max_height {
                max_height
            } else {
                height
            },
        }
    }

    /// The first column right of the rectangle.
    pub fn right(self) -> (r: u16)
        ensures
            r == right_of(self),
    {
        self.x.saturating_add(self.width)
    }

    /// The first row below the rectangle.
    pub fn bottom(self) -> (r: u16)
        ensures
            r == bottom_of(self),
    {
        self.y.saturating_add(self.height)
    }

    /// The cells this rectangle shares with `other`.
    pub fn intersection(self, other: Rect) -> (r: Rect)
        ensures
            r == intersect(self, other),
    {
        let x1 = if self.x >= other.x {
            self.x
        } else {
            other.x
        };
        let y1 = if self.y >= other.y {
            self.y
        } else {
            other.y
        };
        let (ra, rb) = (self.right(), other.right());
        let x2 = if ra <= rb {
            ra
        } else {
            rb
        };
        let (ba, bb) = (self.bottom(), other.bottom());
        let y2 = if ba <= bb {
            ba
        } else {
            bb
        };
        Rect { x: x1, y: y1, width: x2.saturating_sub(x1), height: y2.saturating_sub(y1) }
    }
}

/// The horizontal margin of the popup in an area `width` columns wide.
pub fn margin_x_of(width: u16) -> (m: u16)
    ensures
        m == margin_x(width),
{
    if width / 16 >= 2 {
        width / 16
    } else {
        2
    }
}

/// The vertical margin of the popup in an area `height` rows high.
pub fn margin_y_of(height: u16) -> (m: u16)
    ensures
        m == margin_y(height),
{
    if height / 10 >= 1 {
        height / 10
    } else {
        1
    }
}

/// The centered popup, with the same margins as the host's own navigator
/// so that the picker keeps the geometry users know.
pub fn popup_rect(area: Rect) -> (r: Rect)
    requires
        area.x + margin_x(area.width) <= u16::MAX,
        area.y + margin_y(area.height) <= u16::MAX,
    ensures
        r == popup_of(area),
{
    let mx = margin_x_of(area.width);
    let my = margin_y_of(area.height);
    let w0 = area.width.saturating_sub(mx * 2);
    let width = if w0 >= 4 {
        w0
    } else {
        4
    };
    let h0 = area.height.saturating_sub(my * 2);
    let height = if h0 >= 4 {
        h0
    } else {
        4
    };
    Rect::new(area.x + mx, area.y + my, width, height).intersection(area)
}


/// A row never takes more than the columns it is given, and takes exactly
/// that many when its right part fits.
pub proof fn law_row_fits_its_width(r: Row, width: nat)
    ensures
        row_line(r, width).len() <= width,
        row_left(r).len() + row_right(r).len() + 2 <= width ==> row_line(r, width).len() == width,
{
}

/// The popup lies inside the area it is placed in.
pub proof fn law_popup_stays_inside_the_area(area: Rect)
    requires
        area.x + margin_x(area.width) <= u16::MAX,
        area.y + margin_y(area.height) <= u16::MAX,
        area.width >= 2,
        area.height >= 1,
    ensures
        popup_of(area).x >= area.x,
        popup_of(area).y >= area.y,
        popup_of(area).x + popup_of(area).width <= right_of(area),
        popup_of(area).y + popup_of(area).height <= bottom_of(area),
{
}

/// An action with no binding gets no footer entry: the footer names only
/// keys that the keymap really has.
pub proof fn law_unbound_actions_stay_out_of_the_footer(
    b: Seq<(Seq<crate::keymap::KeyPress>, Action)>,
    a: Action,
    name: Seq<char>,
)
    requires
        binding_label(b, a) is None,
        (a == Action::Expand && name == "expand"@) || (a == Action::Collapse && name
            == "collapse"@) || (a == Action::Accept && name == "accept"@) || (a == Action::Cancel
            && name == "cancel"@),
    ensures
        forall|i: int| 0 <= i < footer_entries(b).len() ==> (#[trigger] footer_entries(b)[i]).1 != name,
{
    reveal_strlit("move");
    reveal_strlit("expand");
    reveal_strlit("collapse");
    reveal_strlit("accept");
    reveal_strlit("cancel");
    let names = seq!["move"@, "expand"@, "collapse"@, "accept"@, "cancel"@];
    assert(names[0].len() == 4 && names[2].len() == 8);
    assert(names[1][0] != names[3][0] && names[1][0] != names[4][0] && names[3][0] != names[4][0]);
    assert(forall|x: int, y: int| 0 <= x < 5 && 0 <= y < 5 && x != y ==> names[x] != names[y]);
    let e = footer_entries(b);
    assert forall|i: int| 0 <= i < e.len() implies (#[trigger] e[i]).1 != name by {
        let moves = match (binding_label(b, Action::Up), binding_label(b, Action::Down)) {
            (Some(up), Some(down)) => seq![(up + "/"@ + down, "move"@)],
            (Some(k), None) => seq![(k, "move"@)],
            (None, Some(k)) => seq![(k, "move"@)],
            (None, None) => Seq::<(Seq<char>, Seq<char>)>::empty(),
        };
        let x1 = footer_entry(b, Action::Expand, "expand"@);
        let x2 = footer_entry(b, Action::Collapse, "collapse"@);
        let x3 = footer_entry(b, Action::Accept, "accept"@);
        let x4 = footer_entry(b, Action::Cancel, "cancel"@);
        assert(e == moves + x1 + x2 + x3 + x4);
        let n0 = moves.len();
        let n1 = n0 + x1.len();
        let n2 = n1 + x2.len();
        let n3 = n2 + x3.len();
        if i < n0 {
            assert(e[i] == moves[i]);
            assert(moves[i].1 == "move"@);
        } else if i < n1 {
            assert(e[i] == x1[i - n0]);
        } else if i < n2 {
            assert(e[i] == x2[i - n1]);
        } else if i < n3 {
            assert(e[i] == x3[i - n2]);
        } else {
            assert(e[i] == x4[i - n3]);
        }
    }
}

/// A row whose left part fits its width starts with the current-row marker
/// (`→` on the current pane, else a blank), a blank, two blanks per level
/// of depth, then, for a branch with children, `▼` when it is expanded and
/// `▶` when it is collapsed (`·` for a branch without children, nothing for
/// a pane) and a blank, then the label. When the right part fits as well,
/// the row ends with it, and the right part ends with the status word.
pub proof fn law_row_shows_marker_indent_glyph_and_label(r: Row, width: nat)
    requires
        row_left(r).len() <= width,
    ensures
        ({
            let s = row_line(r, width);
            let d = 2 * r.depth as int;
            let l = r.label@;
            &&& s[0] == (if r.is_current { '→' } else { ' ' })
            &&& s[1] == ' '
            &&& forall|i: int| 2 <= i < 2 + d ==> s[i] == ' '
            &&& r.expandable ==> {
                &&& s[2 + d] == (if r.expanded { '▼' } else { '▶' })
                &&& s[3 + d] == ' '
                &&& s.subrange(4 + d, 4 + d + l.len()) == l
            }
            &&& !r.expandable && r.kind != RowKind::Pane ==> {
                &&& s[2 + d] == '·'
                &&& s[3 + d] == ' '
                &&& s.subrange(4 + d, 4 + d + l.len()) == l
            }
            &&& !r.expandable && r.kind == RowKind::Pane ==> s.subrange(2 + d, 2 + d + l.len()) == l
            &&& row_left(r).len() + row_right(r).len() + 2 <= width ==> s.skip(
                width - row_right(r).len(),
            ) == row_right(r)
            &&& row_right(r).skip(row_right(r).len() - status_text(r.agent_status).len())
                == status_text(r.agent_status)
        }),
{
    reveal_strlit("→");
    reveal_strlit(" ");
    reveal_strlit("▼ ");
    reveal_strlit("▶ ");
    reveal_strlit("· ");
    reveal_strlit("  ");
    let s = row_line(r, width);
    let left = row_left(r);
    let d = 2 * r.depth as int;
    let l = r.label@;
    assert(s.take(left.len() as int) == left) by {
        if left.len() + row_right(r).len() + 2 <= width {
            assert(s.take(left.len() as int) =~= left);
        }
    }
    let marker = if r.is_current { "→"@ } else { " "@ };
    let indent = Seq::new(d as nat, |_i: int| ' ');
    let glyph = if r.expandable {
        if r.expanded { "▼ "@ } else { "▶ "@ }
    } else if r.kind == RowKind::Pane {
        Seq::<char>::empty()
    } else {
        "· "@
    };
    assert(left == marker + " "@ + indent + glyph + l);
    assert forall|i: int| 0 <= i < left.len() implies s[i] == left[i] by {
        assert(s.take(left.len() as int)[i] == s[i]);
    }
    assert(left[0] == marker[0]);
    assert(left[1] == ' ');
    assert forall|i: int| 2 <= i < 2 + d implies s[i] == ' ' by {
        assert(left[i] == indent[i - 2]);
    }
    assert(s.subrange(2 + d + glyph.len(), 2 + d + glyph.len() + l.len()) =~= l) by {
        assert forall|i: int| 0 <= i < l.len() implies s[2 + d + glyph.len() + i] == l[i] by {
            assert(left[2 + d + glyph.len() + i] == l[i]);
        }
    }
    if glyph.len() == 2 {
        assert(left[2 + d] == glyph[0]);
        assert(left[3 + d] == glyph[1]);
    }
    let right = row_right(r);
    if left.len() + right.len() + 2 <= width {
        assert(s.skip(width - right.len()) =~= right);
    }
    let st = status_text(r.agent_status);
    assert(right.skip(right.len() - st.len()) =~= st);
}

/// In an area with room for it, the popup is centred: it starts a
/// sixteenth of the width in (at least 2 columns) and a tenth of the height
/// down (at least 1 row), and leaves the same margins on the far sides.
pub proof fn law_popup_is_centred_with_the_navigator_margins(area: Rect)
    requires
        ({
            let mx = if area.width / 16 >= 2 { area.width / 16 } else { 2 };
            let my = if area.height / 10 >= 1 { area.height / 10 } else { 1 };
            &&& area.x + area.width <= u16::MAX
            &&& area.y + area.height <= u16::MAX
            &&& area.width >= 2 * mx + 4
            &&& area.height >= 2 * my + 4
        }),
    ensures
        ({
            let mx = if area.width / 16 >= 2 { area.width / 16 } else { 2 };
            let my = if area.height / 10 >= 1 { area.height / 10 } else { 1 };
            let r = popup_of(area);
            &&& r.x == area.x + mx
            &&& r.y == area.y + my
            &&& r.x + r.width + mx == area.x + area.width
            &&& r.y + r.height + my == area.y + area.height
        }),
{
}

/// The footer has an entry for every bound action: movement first, named
/// by the first `up` and `down` keys, then each of expand, collapse, accept
/// and cancel that has a binding, named by its first key.
pub proof fn law_bound_actions_are_in_the_footer(
    b: Seq<(Seq<crate::keymap::KeyPress>, Action)>,
    a: Action,
    name: Seq<char>,
)
    requires
        (a == Action::Expand && name == "expand"@) || (a == Action::Collapse && name
            == "collapse"@) || (a == Action::Accept && name == "accept"@) || (a == Action::Cancel
            && name == "cancel"@),
    ensures
        binding_label(b, a) matches Some(k) ==> footer_entries(b).contains((k, name)),
        (binding_label(b, Action::Up), binding_label(b, Action::Down)) matches (Some(u), Some(d))
            ==> footer_entries(b)[0] == (u + "/"@ + d, "move"@),
{
    let moves = match (binding_label(b, Action::Up), binding_label(b, Action::Down)) {
        (Some(up), Some(down)) => seq![(up + "/"@ + down, "move"@)],
        (Some(k), None) => seq![(k, "move"@)],
        (None, Some(k)) => seq![(k, "move"@)],
        (None, None) => Seq::<(Seq<char>, Seq<char>)>::empty(),
    };
    let x1 = footer_entry(b, Action::Expand, "expand"@);
    let x2 = footer_entry(b, Action::Collapse, "collapse"@);
    let x3 = footer_entry(b, Action::Accept, "accept"@);
    let x4 = footer_entry(b, Action::Cancel, "cancel"@);
    let e = footer_entries(b);
    assert(e == moves + x1 + x2 + x3 + x4);
    let n0 = moves.len() as int;
    let n1 = n0 + x1.len();
    let n2 = n1 + x2.len();
    let n3 = n2 + x3.len();
    if let Some(k) = binding_label(b, a) {
        if a == Action::Expand {
            assert(e[n0] == x1[0]);
        } else if a == Action::Collapse {
            assert(e[n1] == x2[0]);
        } else if a == Action::Accept {
            assert(e[n2] == x3[0]);
        } else {
            assert(e[n3] == x4[0]);
        }
    }
}

/// The right part of a workspace or tab row starts with its pane count in
/// decimal and the word `pane`, plural unless the count is one; that of a
/// pane row starts with its agent, or `shell` when it runs none.
pub proof fn law_right_part_counts_panes_or_names_the_agent(r: Row)
    ensures
        r.kind != RowKind::Pane ==> {
            let n = decimal(r.pane_count as nat);
            let right = row_right(r);
            &&& right.take(n.len() + 5int) == n + " pane"@
            &&& (right[n.len() + 5int] == 's') == (r.pane_count != 1)
        },
        r.kind == RowKind::Pane ==> {
            let a = match opt_text(r.agent) {
                Some(x) => x,
                None => "shell"@,
            };
            row_right(r).take(a.len() as int) == a
        },
{
    reveal_strlit(" ");
    reveal_strlit("pane");
    reveal_strlit("panes");
    reveal_strlit(" pane");
    reveal_strlit("  ");
    let right = row_right(r);
    if r.kind != RowKind::Pane {
        let n = decimal(r.pane_count as nat);
        let word = if r.pane_count == 1 { "pane"@ } else { "panes"@ };
        assert(right == n + " "@ + word + "  "@ + status_text(r.agent_status));
        assert(right.take(n.len() + 5int) =~= n + " pane"@);
        assert(right[n.len() + 5int] == (n + " "@ + word + "  "@ + status_text(r.agent_status))[n.len() + 5int]);
    } else {
        let a = match opt_text(r.agent) {
            Some(x) => x,
            None => "shell"@,
        };
        assert(right.take(a.len() as int) =~= a);
    }
}

} // verus!
