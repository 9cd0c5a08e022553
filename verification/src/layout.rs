//! Where things go on the screen: the room that the bars need, and areas
//! placed in the middle of, or below, another area.

use vstd::prelude::*;

verus! {

/// The number of bars, and the width of their area in cells.
pub const WIDTH: u16 = 32;

/// The height of the area of the bars in cells; a cell shows four levels.
pub const HEIGHT: u16 = WIDTH / 4;

/// A rectangle of cells on the screen.
#[derive(Debug, Clone, Copy, PartialEq, Eq, Structural)]
pub struct Area {
    /// The column of the left edge.
    pub x: u16,
    /// The row of the upper edge.
    pub y: u16,
    /// The number of columns.
    pub width: u16,
    /// The number of rows.
    pub height: u16,
}

/// Why there is no room for the bars.
#[derive(Debug, Clone, Copy, PartialEq, Eq, Structural)]
pub enum SizeError {
    /// The screen has fewer columns than there are bars.
    WidthTooSmall,
    /// The screen has fewer rows than the tallest bar needs.
    HeightTooSmall,
}

impl SizeError {
    /// The complaint in words.
    pub fn message(&self) -> (words: &'static str)
        ensures
            words@ == match *self {
                SizeError::WidthTooSmall => "width is too small"@,
                SizeError::HeightTooSmall => "height is too small"@,
            },
    {
        match *self {
            SizeError::WidthTooSmall => "width is too small",
            SizeError::HeightTooSmall => "height is too small",
        }
    }
}

/// The room that the bars take on a screen of the size of `s`, or the reason
/// why they do not fit; the width is looked at first.
pub open spec fn room(s: Area) -> Result<(u16, u16), SizeError> {
    if s.width < WIDTH {
        Err(SizeError::WidthTooSmall)
    } else if s.height < HEIGHT {
        Err(SizeError::HeightTooSmall)
    } else {
        Ok((WIDTH, HEIGHT))
    }
}

/// Tells how much room the bars take on a screen of the size of `s`, or why
/// they do not fit.
pub fn blocks_size(s: Area) -> (size: Result<(u16, u16), SizeError>)
    ensures
        size == room(s),
{
    if s.width < WIDTH {
        return Err(SizeError::WidthTooSmall);
    }
    if s.height < HEIGHT {
        return Err(SizeError::HeightTooSmall);
    }
    Ok((WIDTH, HEIGHT))
}

/// The width and height that `ratatui::layout::Rect::new` gives a rectangle
/// asked for with more than `u16::MAX` cells.
pub uninterp spec fn clipped(width: u16, height: u16) -> (u16, u16);

/// The rectangle that `ratatui::layout::Rect::new` makes of the four numbers.
pub open spec fn framed(x: u16, y: u16, width: u16, height: u16) -> Area {
    if width * height <= u16::MAX {
        Area { x, y, width, height }
    } else {
        Area { x, y, width: clipped(width, height).0, height: clipped(width, height).1 }
    }
}

/// Makes a rectangle with `ratatui::layout::Rect::new` and hands out its
/// four fields. That function keeps `x` and `y`. It keeps `width` and
/// `height` where the rectangle has at most `u16::MAX` cells; where it has
/// more, it computes a smaller width and height from the two alone.
#[verifier::external_body]
fn new_area(x: u16, y: u16, width: u16, height: u16) -> (area: Area)
    ensures
        area.x == x,
        area.y == y,
        width * height <= u16::MAX ==> area.width == width && area.height == height,
        width * height > u16::MAX ==> (area.width, area.height) == clipped(width, height),
{
    let rect = ratatui::layout::Rect::new(x, y, width, height);
    Area { x: rect.x, y: rect.y, width: rect.width, height: rect.height }
}

/// The area of the given width and height in the middle of `s`, if `s` is
/// large enough.
pub open spec fn centered(width: u16, height: u16, s: Area) -> Option<Area> {
    if s.width < width || s.height < height {
        None
    } else {
        Some(framed(((s.width - width) / 2) as u16, ((s.height - height) / 2) as u16, width, height))
    }
}

/// Places an area of the given width and height in the middle of `s`,
/// counted from the corner of the screen; `None` where `s` is too small.
pub fn center_area(width: u16, height: u16, s: Area) -> (area: Option<Area>)
    ensures
        area == centered(width, height, s),
{
    if s.width < width || s.height < height {
        return None;
    }
    let x_position = (s.width - width) / 2;
    let y_position = (s.height - height) / 2;
    Some(new_area(x_position, y_position, width, height))
}

/// Places an area of the given height right below `s`, narrower than `s`
/// by `width_padding` on either side.
pub fn next_area_vertical(s: Area, height: u16, width_padding: u16) -> (area: Area)
    requires
        s.x + width_padding <= u16::MAX,
        s.y + s.height <= u16::MAX,
        width_padding * 2 <= s.width,
    ensures
        area == framed(
            (s.x + width_padding) as u16,
            (s.y + s.height) as u16,
            (s.width - width_padding * 2) as u16,
            height,
        ),
{
    new_area(s.x + width_padding, s.y + s.height, s.width - width_padding * 2, height)
}

} // verus!
