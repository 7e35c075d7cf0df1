//! Where an item sits inside the space it is laid out in.  The plugins draw in
//! bottom-up coordinates (y grows upward), so "top" is the far end vertically.
use vstd::prelude::*;

verus! {

/// The side of the free space an item is pushed to.
#[derive(Clone, Copy, Debug, PartialEq, Eq, Structural)]
pub enum Placement {
    Start,
    Center,
    End,
}

impl Placement {
    /// The share of the free space that lies before the item, in halves.
    pub open spec fn spec_halves(self) -> int {
        match self {
            Placement::Start => 0,
            Placement::Center => 1,
            Placement::End => 2,
        }
    }

    /// The share of the free space that lies before the item, in halves: the
    /// item's offset is `halves() * free / 2`.
    pub fn halves(&self) -> (h: u32)
        ensures
            h == self.spec_halves(),
    {
        match self {
            Placement::Start => 0,
            Placement::Center => 1,
            Placement::End => 2,
        }
    }
}

/// Horizontal placement for the text alignment menu (left, center, right,
/// justify).  Justified lines are set flush left; unknown codes center.
pub open spec fn spec_text_h_placement(alignment: u32) -> Placement {
    if alignment == 0 {
        Placement::Start
    } else if alignment == 2 {
        Placement::End
    } else if alignment == 3 {
        Placement::Start
    } else {
        Placement::Center
    }
}

pub fn text_h_placement(alignment: u32) -> (p: Placement)
    ensures
        p == spec_text_h_placement(alignment),
{
    match alignment {
        0 => Placement::Start,
        2 => Placement::End,
        3 => Placement::Start,
        _ => Placement::Center,
    }
}

/// Horizontal placement for the left / center / right menu; unknown codes center.
pub open spec fn spec_h_placement(align: u32) -> Placement {
    if align == 0 {
        Placement::Start
    } else if align == 2 {
        Placement::End
    } else {
        Placement::Center
    }
}

pub fn h_placement(align: u32) -> (p: Placement)
    ensures
        p == spec_h_placement(align),
{
    match align {
        0 => Placement::Start,
        2 => Placement::End,
        _ => Placement::Center,
    }
}

/// Vertical placement, in bottom-up coordinates, for the top / center /
/// bottom menu: top is the far end, bottom the near one; unknown codes center.
pub open spec fn spec_v_placement(align: u32) -> Placement {
    if align == 0 {
        Placement::End
    } else if align == 2 {
        Placement::Start
    } else {
        Placement::Center
    }
}

pub fn v_placement(align: u32) -> (p: Placement)
    ensures
        p == spec_v_placement(align),
{
    match align {
        0 => Placement::End,
        2 => Placement::Start,
        _ => Placement::Center,
    }
}

/// An item placed in free space that is not negative never leaves the space:
/// its offset lies between zero and the whole free space.
pub proof fn law_placement_within(p: Placement, free: int)
    requires
        free >= 0,
    ensures
        0 <= p.spec_halves() * free <= 2 * free,
{
    assert(0 <= p.spec_halves() <= 2);
    assert(0 <= p.spec_halves() * free <= 2 * free) by (nonlinear_arith)
        requires
            0 <= p.spec_halves() <= 2,
            free >= 0,
    ;
}

/// Top and bottom are mirror images: their offsets add up to the whole free space.
pub proof fn law_vertical_mirror(align: u32)
    ensures
        spec_v_placement(0).spec_halves() + spec_v_placement(2).spec_halves() == 2,
        align != 0 && align != 2 ==> spec_v_placement(align) == Placement::Center,
{
}

/// Each menu maps its codes to the placements it names, and every code it
/// does not know to the center.
pub proof fn law_menu_codes(code: u32)
    ensures
        spec_h_placement(0) == Placement::Start,
        spec_h_placement(1) == Placement::Center,
        spec_h_placement(2) == Placement::End,
        code != 0 && code != 2 ==> spec_h_placement(code) == Placement::Center,
        spec_v_placement(0) == Placement::End,
        spec_v_placement(1) == Placement::Center,
        spec_v_placement(2) == Placement::Start,
        code != 0 && code != 2 ==> spec_v_placement(code) == Placement::Center,
        spec_text_h_placement(0) == Placement::Start,
        spec_text_h_placement(1) == Placement::Center,
        spec_text_h_placement(2) == Placement::End,
        spec_text_h_placement(3) == Placement::Start,
        code > 3 ==> spec_text_h_placement(code) == Placement::Center,
{
}

/// Start, center and end leave none, half and all of the free space before
/// the item.
pub proof fn law_halves(free: int)
    ensures
        Placement::Start.spec_halves() * free == 0,
        Placement::Center.spec_halves() * free == free,
        Placement::End.spec_halves() * free == 2 * free,
{
}

} // verus!
