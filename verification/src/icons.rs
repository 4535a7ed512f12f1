//! The strokes that the icons of the footer are drawn with.

use vstd::prelude::*;

use crate::chrome::{line, Icon, Line};
use crate::geometry::Rect;

verus! {

/// A stroke of an icon.
#[derive(Clone, Copy, Debug, PartialEq, Eq, Structural)]
pub enum Stroke {
    Line(Line),
    /// The outline of the ellipse in a rectangle.
    Ring(Rect),
}

/// The rectangle of a circle.
pub open spec fn around(cx: int, cy: int, radius: int) -> Rect {
    Rect {
        left: (cx - radius) as i64,
        top: (cy - radius) as i64,
        right: (cx + radius) as i64,
        bottom: (cy + radius) as i64,
    }
}

/// The stroke between two points that are given from the centre of the icon.
pub open spec fn stroke(cx: int, cy: int, x1: int, y1: int, x2: int, y2: int) -> Stroke {
    Stroke::Line(line(cx + x1, cy + y1, cx + x2, cy + y2))
}

/// The strokes of an icon around its centre. The moon is a filled shape and
/// has none; of the power icon this is the stem, without the arc around it.
pub open spec fn icon_shape(icon: Icon, cx: int, cy: int) -> Seq<Stroke> {
    match icon {
        Icon::Trash => seq![
            stroke(cx, cy, -3, -9, 4, -9),
            stroke(cx, cy, -8, -6, 9, -6),
            stroke(cx, cy, -7, -6, -5, 8),
            stroke(cx, cy, -5, 8, 6, 8),
            stroke(cx, cy, 6, 8, 8, -6),
        ],
        Icon::Cog => seq![
            Stroke::Ring(around(cx, cy, 7)),
            Stroke::Ring(around(cx, cy, 2)),
            stroke(cx, cy, 0, -6, 0, -10),
            stroke(cx, cy, 0, 6, 0, 10),
            stroke(cx, cy, -6, 0, -10, 0),
            stroke(cx, cy, 6, 0, 10, 0),
        ],
        Icon::Info => seq![
            Stroke::Ring(around(cx, cy, 9)),
            stroke(cx, cy, 0, -5, 0, -4),
            stroke(cx, cy, 0, -1, 0, 5),
        ],
        Icon::Sun => seq![
            Stroke::Ring(around(cx, cy, 4)),
            stroke(cx, cy, 0, -6, 0, -9),
            stroke(cx, cy, 0, 6, 0, 9),
            stroke(cx, cy, -6, 0, -9, 0),
            stroke(cx, cy, 6, 0, 9, 0),
            stroke(cx, cy, -4, -4, -6, -6),
            stroke(cx, cy, 4, -4, 6, -6),
            stroke(cx, cy, -4, 4, -6, 6),
            stroke(cx, cy, 4, 4, 6, 6),
        ],
        Icon::Power => seq![stroke(cx, cy, 0, -9, 0, 0)],
        Icon::Moon => seq![],
    }
}

/// Whether a centre is far enough from the ends of the coordinates.
pub open spec fn central(c: i64) -> bool {
    -0x100_0000_0000 <= c <= 0x100_0000_0000
}

fn push_line(out: &mut Vec<Stroke>, cx: i64, cy: i64, from: (i64, i64), to: (i64, i64))
    requires
        central(cx),
        central(cy),
        -16 <= from.0 <= 16,
        -16 <= from.1 <= 16,
        -16 <= to.0 <= 16,
        -16 <= to.1 <= 16,
    ensures
        final(out)@ == old(out)@.push(
            stroke(
                cx as int,
                cy as int,
                from.0 as int,
                from.1 as int,
                to.0 as int,
                to.1 as int,
            ),
        ),
{
    out.push(Stroke::Line(Line { x1: cx + from.0, y1: cy + from.1, x2: cx + to.0, y2: cy + to.1 }));
}

fn push_ring(out: &mut Vec<Stroke>, cx: i64, cy: i64, radius: i64)
    requires
        central(cx),
        central(cy),
        0 <= radius <= 16,
    ensures
        final(out)@ == old(out)@.push(Stroke::Ring(around(cx as int, cy as int, radius as int))),
{
    out.push(
        Stroke::Ring(
            Rect { left: cx - radius, top: cy - radius, right: cx + radius, bottom: cy + radius },
        ),
    );
}

/// The strokes of an icon around its centre.
pub fn icon_strokes(icon: Icon, cx: i64, cy: i64) -> (r: Vec<Stroke>)
    requires
        central(cx),
        central(cy),
    ensures
        r@ == icon_shape(icon, cx as int, cy as int),
{
    let mut out: Vec<Stroke> = Vec::new();
    match icon {
        Icon::Trash => {
            push_line(&mut out, cx, cy, (-3, -9), (4, -9));
            push_line(&mut out, cx, cy, (-8, -6), (9, -6));
            push_line(&mut out, cx, cy, (-7, -6), (-5, 8));
            push_line(&mut out, cx, cy, (-5, 8), (6, 8));
            push_line(&mut out, cx, cy, (6, 8), (8, -6));
        },
        Icon::Cog => {
            push_ring(&mut out, cx, cy, 7);
            push_ring(&mut out, cx, cy, 2);
            push_line(&mut out, cx, cy, (0, -6), (0, -10));
            push_line(&mut out, cx, cy, (0, 6), (0, 10));
            push_line(&mut out, cx, cy, (-6, 0), (-10, 0));
            push_line(&mut out, cx, cy, (6, 0), (10, 0));
        },
        Icon::Info => {
            push_ring(&mut out, cx, cy, 9);
            push_line(&mut out, cx, cy, (0, -5), (0, -4));
            push_line(&mut out, cx, cy, (0, -1), (0, 5));
        },
        Icon::Sun => {
            push_ring(&mut out, cx, cy, 4);
            push_line(&mut out, cx, cy, (0, -6), (0, -9));
            push_line(&mut out, cx, cy, (0, 6), (0, 9));
            push_line(&mut out, cx, cy, (-6, 0), (-9, 0));
            push_line(&mut out, cx, cy, (6, 0), (9, 0));
            push_line(&mut out, cx, cy, (-4, -4), (-6, -6));
            push_line(&mut out, cx, cy, (4, -4), (6, -6));
            push_line(&mut out, cx, cy, (-4, 4), (-6, 6));
            push_line(&mut out, cx, cy, (4, 4), (6, 6));
        },
        Icon::Power => {
            push_line(&mut out, cx, cy, (0, -9), (0, 0));
        },
        Icon::Moon => {},
    }
    assert(out@ =~= icon_shape(icon, cx as int, cy as int));
    out
}

/// The disc of the moon, and the disc that is cut out of it.
pub fn moon_discs(cx: i64, cy: i64) -> (r: (Rect, Rect))
    requires
        central(cx),
        central(cy),
    ensures
        r.0 == around(cx as int, cy as int, 8),
        r.1 == around(cx + 5, cy as int, 8),
{
    (
        Rect { left: cx - 8, top: cy - 8, right: cx + 8, bottom: cy + 8 },
        Rect { left: cx - 3, top: cy - 8, right: cx + 13, bottom: cy + 8 },
    )
}

/// The icons around their centre: the bin with its handle, lid and sides; the
/// cog with two rings and four teeth; the ring of the information sign with its
/// dot and stem; the sun with a disc and eight rays; the stem of the power sign.
pub proof fn law_icon_shapes(cx: int, cy: int)
    requires
        -0x100_0000_0000 <= cx <= 0x100_0000_0000,
        -0x100_0000_0000 <= cy <= 0x100_0000_0000,
    ensures
        icon_shape(Icon::Trash, cx, cy).len() == 5,
        icon_shape(Icon::Trash, cx, cy)[0] matches Stroke::Line(l) && (l.x1, l.y1) == (
            (cx - 3) as i64,
            (cy - 9) as i64,
        ) && (l.x2, l.y2) == ((cx + 4) as i64, (cy - 9) as i64),
        icon_shape(Icon::Trash, cx, cy)[1] matches Stroke::Line(l) && (l.x1, l.y1) == (
            (cx - 8) as i64,
            (cy - 6) as i64,
        ) && (l.x2, l.y2) == ((cx + 9) as i64, (cy - 6) as i64),
        icon_shape(Icon::Trash, cx, cy)[2] matches Stroke::Line(l) && (l.x1, l.y1) == (
            (cx - 7) as i64,
            (cy - 6) as i64,
        ) && (l.x2, l.y2) == ((cx - 5) as i64, (cy + 8) as i64),
        icon_shape(Icon::Trash, cx, cy)[3] matches Stroke::Line(l) && (l.x1, l.y1) == (
            (cx - 5) as i64,
            (cy + 8) as i64,
        ) && (l.x2, l.y2) == ((cx + 6) as i64, (cy + 8) as i64),
        icon_shape(Icon::Trash, cx, cy)[4] matches Stroke::Line(l) && (l.x1, l.y1) == (
            (cx + 6) as i64,
            (cy + 8) as i64,
        ) && (l.x2, l.y2) == ((cx + 8) as i64, (cy - 6) as i64),
        icon_shape(Icon::Cog, cx, cy).len() == 6,
        icon_shape(Icon::Cog, cx, cy)[0] matches Stroke::Ring(r) && r.left == cx - 7 && r.top == cy
            - 7 && r.right == cx + 7 && r.bottom == cy + 7,
        icon_shape(Icon::Cog, cx, cy)[1] matches Stroke::Ring(r) && r.left == cx - 2 && r.top == cy
            - 2 && r.right == cx + 2 && r.bottom == cy + 2,
        icon_shape(Icon::Cog, cx, cy)[2] matches Stroke::Line(l) && (l.x1, l.y1) == (
            (cx) as i64,
            (cy - 6) as i64,
        ) && (l.x2, l.y2) == ((cx) as i64, (cy - 10) as i64),
        icon_shape(Icon::Cog, cx, cy)[3] matches Stroke::Line(l) && (l.x1, l.y1) == (
            (cx) as i64,
            (cy + 6) as i64,
        ) && (l.x2, l.y2) == ((cx) as i64, (cy + 10) as i64),
        icon_shape(Icon::Cog, cx, cy)[4] matches Stroke::Line(l) && (l.x1, l.y1) == (
            (cx - 6) as i64,
            (cy) as i64,
        ) && (l.x2, l.y2) == ((cx - 10) as i64, (cy) as i64),
        icon_shape(Icon::Cog, cx, cy)[5] matches Stroke::Line(l) && (l.x1, l.y1) == (
            (cx + 6) as i64,
            (cy) as i64,
        ) && (l.x2, l.y2) == ((cx + 10) as i64, (cy) as i64),
        icon_shape(Icon::Info, cx, cy).len() == 3,
        icon_shape(Icon::Info, cx, cy)[0] matches Stroke::Ring(r) && r.left == cx - 9 && r.top == cy
            - 9 && r.right == cx + 9 && r.bottom == cy + 9,
        icon_shape(Icon::Info, cx, cy)[1] matches Stroke::Line(l) && (l.x1, l.y1) == (
            (cx) as i64,
            (cy - 5) as i64,
        ) && (l.x2, l.y2) == ((cx) as i64, (cy - 4) as i64),
        icon_shape(Icon::Info, cx, cy)[2] matches Stroke::Line(l) && (l.x1, l.y1) == (
            (cx) as i64,
            (cy - 1) as i64,
        ) && (l.x2, l.y2) == ((cx) as i64, (cy + 5) as i64),
        icon_shape(Icon::Sun, cx, cy).len() == 9,
        icon_shape(Icon::Sun, cx, cy)[0] matches Stroke::Ring(r) && r.left == cx - 4 && r.top == cy
            - 4 && r.right == cx + 4 && r.bottom == cy + 4,
        icon_shape(Icon::Sun, cx, cy)[1] matches Stroke::Line(l) && (l.x1, l.y1) == (
            (cx) as i64,
            (cy - 6) as i64,
        ) && (l.x2, l.y2) == ((cx) as i64, (cy - 9) as i64),
        icon_shape(Icon::Sun, cx, cy)[2] matches Stroke::Line(l) && (l.x1, l.y1) == (
            (cx) as i64,
            (cy + 6) as i64,
        ) && (l.x2, l.y2) == ((cx) as i64, (cy + 9) as i64),
        icon_shape(Icon::Sun, cx, cy)[3] matches Stroke::Line(l) && (l.x1, l.y1) == (
            (cx - 6) as i64,
            (cy) as i64,
        ) && (l.x2, l.y2) == ((cx - 9) as i64, (cy) as i64),
        icon_shape(Icon::Sun, cx, cy)[4] matches Stroke::Line(l) && (l.x1, l.y1) == (
            (cx + 6) as i64,
            (cy) as i64,
        ) && (l.x2, l.y2) == ((cx + 9) as i64, (cy) as i64),
        icon_shape(Icon::Sun, cx, cy)[5] matches Stroke::Line(l) && (l.x1, l.y1) == (
            (cx - 4) as i64,
            (cy - 4) as i64,
        ) && (l.x2, l.y2) == ((cx - 6) as i64, (cy - 6) as i64),
        icon_shape(Icon::Sun, cx, cy)[6] matches Stroke::Line(l) && (l.x1, l.y1) == (
            (cx + 4) as i64,
            (cy - 4) as i64,
        ) && (l.x2, l.y2) == ((cx + 6) as i64, (cy - 6) as i64),
        icon_shape(Icon::Sun, cx, cy)[7] matches Stroke::Line(l) && (l.x1, l.y1) == (
            (cx - 4) as i64,
            (cy + 4) as i64,
        ) && (l.x2, l.y2) == ((cx - 6) as i64, (cy + 6) as i64),
        icon_shape(Icon::Sun, cx, cy)[8] matches Stroke::Line(l) && (l.x1, l.y1) == (
            (cx + 4) as i64,
            (cy + 4) as i64,
        ) && (l.x2, l.y2) == ((cx + 6) as i64, (cy + 6) as i64),
        icon_shape(Icon::Power, cx, cy).len() == 1,
        icon_shape(Icon::Power, cx, cy)[0] matches Stroke::Line(l) && (l.x1, l.y1) == (
            (cx) as i64,
            (cy - 9) as i64,
        ) && (l.x2, l.y2) == ((cx) as i64, (cy) as i64),
        icon_shape(Icon::Moon, cx, cy).len() == 0,
{
}

/// An icon moves with its centre, and is otherwise the same wherever it is.
pub proof fn law_icons_move(icon: Icon, cx: int, cy: int, dx: int, dy: int, k: int)
    requires
        -0x100_0000_0000 <= cx <= 0x100_0000_0000,
        -0x100_0000_0000 <= cy <= 0x100_0000_0000,
        -0x100_0000_0000 <= cx + dx <= 0x100_0000_0000,
        -0x100_0000_0000 <= cy + dy <= 0x100_0000_0000,
        0 <= k < icon_shape(icon, cx, cy).len(),
    ensures
        icon_shape(icon, cx + dx, cy + dy).len() == icon_shape(icon, cx, cy).len(),
        icon_shape(icon, cx, cy)[k] matches Stroke::Line(a) ==> (icon_shape(icon, cx + dx, cy + dy)[k]
            matches Stroke::Line(b) && b.x1 == a.x1 + dx && b.y1 == a.y1 + dy && b.x2 == a.x2 + dx
            && b.y2 == a.y2 + dy),
        icon_shape(icon, cx, cy)[k] matches Stroke::Ring(a) ==> (icon_shape(icon, cx + dx, cy + dy)[k]
            matches Stroke::Ring(b) && b.left == a.left + dx && b.top == a.top + dy && b.right
            == a.right + dx && b.bottom == a.bottom + dy),
{
}

} // verus!
