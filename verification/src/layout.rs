//! Screen geometry: where the overlays go and how far the body scrolls.
//! Cells are counted in `u16`, as terminals count them.

use vstd::prelude::*;

verus! {

/// A rectangle of terminal cells.
#[derive(Debug, Clone, Copy, PartialEq, Eq, Structural)]
pub struct Area {
    pub x: u16,
    pub y: u16,
    pub width: u16,
    pub height: u16,
}

/// The smaller of two numbers.
pub open spec fn min_of(a: int, b: int) -> int {
    if a < b {
        a
    } else {
        b
    }
}

/// `a - b`, or 0 when `b` is larger.
pub open spec fn sat_sub(a: int, b: int) -> int {
    if a > b {
        a - b
    } else {
        0
    }
}

/// An area lies within what `u16` coordinates can address.
pub open spec fn addressable(a: Area) -> bool {
    a.x + a.width <= u16::MAX && a.y + a.height <= u16::MAX
}

/// A `width` by `height` box centred in `area`, shrunk to fit it.
pub fn centered(width: u16, height: u16, area: Area) -> (r: Area)
    requires
        addressable(area),
    ensures
        r.width == min_of(width as int, area.width as int),
        r.height == min_of(height as int, area.height as int),
        r.x == area.x + (area.width - r.width) / 2,
        r.y == area.y + (area.height - r.height) / 2,
        addressable(r),
{
    let w = if width < area.width {
        width
    } else {
        area.width
    };
    let h = if height < area.height {
        height
    } else {
        area.height
    };
    Area { x: area.x + (area.width - w) / 2, y: area.y + (area.height - h) / 2, width: w, height: h }
}

/// The first body row shown so that the cursor's row (`cursor_row`, cut
/// to 16 bits as the screen counts rows) is on the last of the
/// `visible_height` rows (at least one) when it is further down.
pub fn body_scroll(cursor_row: usize, visible_height: u16) -> (r: u16)
    ensures
        r == sat_sub(
            cursor_row as int % 0x10000,
            (if visible_height > 0 {
                visible_height as int
            } else {
                1
            }) - 1,
        ),
{
    let row: u16 = (cursor_row % 0x10000) as u16;
    let h: u16 = if visible_height > 0 {
        visible_height
    } else {
        1
    };
    if row > h - 1 {
        row - (h - 1)
    } else {
        0
    }
}

/// The widest of `widths` (each cut to 16 bits as the screen counts
/// columns), or 10 when there are none, kept within 10 to 50.
pub open spec fn content_width(widths: Seq<usize>) -> int {
    let widest = if widths.len() == 0 {
        10
    } else {
        max_width(widths)
    };
    if widest < 10 {
        10
    } else if widest > 50 {
        50
    } else {
        widest
    }
}

/// The largest of `widths`, each cut to 16 bits.
pub open spec fn max_width(widths: Seq<usize>) -> int
    decreases widths.len(),
{
    if widths.len() == 0 {
        0
    } else {
        let rest = max_width(widths.drop_last());
        let w = widths.last() as int % 0x10000;
        if widths.len() == 1 || w > rest {
            w
        } else {
            rest
        }
    }
}

/// Where the recipient suggestions drop down: just under row `row` of the
/// compose header, from column `x`, as wide as the widest suggestion plus
/// its border and as tall as the list plus its border, cut to what the
/// screen (`screen_width` by `screen_height`) has left; nothing when that
/// leaves no room for a bordered box.
pub open spec fn popup_area(
    x: int,
    y: int,
    screen_width: int,
    screen_height: int,
    widths: Seq<usize>,
) -> Option<(int, int, int, int)> {
    let width = min_of(content_width(widths) + 2, sat_sub(screen_width, x));
    let height = min_of(widths.len() as int + 2, sat_sub(screen_height, y));
    if width < 3 || height < 3 {
        None
    } else {
        Some((x, y, width, height))
    }
}

/// The suggestions' box (see `popup_area`): `x` and `y` are the cell just
/// below the focused field's text, `widths` the shown width of each
/// suggestion.
pub fn suggestion_popup(x: u16, y: u16, screen_width: u16, screen_height: u16, widths: &Vec<usize>) -> (r:
    Option<Area>)
    requires
        widths@.len() + 2 <= u16::MAX,
    ensures
        match popup_area(x as int, y as int, screen_width as int, screen_height as int, widths@) {
            Some((px, py, w, h)) => r == Some(Area { x: px as u16, y: py as u16, width: w as u16, height: h as u16 }),
            None => r is None,
        },
{
    let mut widest: u16 = 0;
    let mut i: usize = 0;
    while i < widths.len()
        invariant
            i <= widths@.len(),
            widest as int == (if i == 0 {
                0
            } else {
                max_width(widths@.take(i as int))
            }),
        decreases widths@.len() - i,
    {
        proof {
            assert(widths@.take(i + 1).drop_last() =~= widths@.take(i as int));
            assert(widths@.take(i + 1).last() == widths@[i as int]);
        }
        let w: u16 = (widths[i] % 0x10000) as u16;
        if i == 0 || w > widest {
            widest = w;
        }
        i += 1;
    }
    proof {
        assert(widths@.take(widths@.len() as int) =~= widths@);
    }
    let content: u16 = if widths.len() == 0 {
        10
    } else if widest < 10 {
        10
    } else if widest > 50 {
        50
    } else {
        widest
    };
    let room_w: u16 = if screen_width > x {
        screen_width - x
    } else {
        0
    };
    let room_h: u16 = if screen_height > y {
        screen_height - y
    } else {
        0
    };
    let width: u16 = if content + 2 < room_w {
        content + 2
    } else {
        room_w
    };
    let rows: u16 = (widths.len() + 2) as u16;
    let height: u16 = if rows < room_h {
        rows
    } else {
        room_h
    };
    if width < 3 || height < 3 {
        None
    } else {
        Some(Area { x, y, width, height })
    }
}

} // verus!
