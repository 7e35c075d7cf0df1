//! The text bitmap and the order in which its layers are painted.
use vstd::prelude::*;

verus! {

/// A rendered text bitmap: `width` by `height` RGBA pixels, four bytes each.
pub struct TextRenderer {
    pub width: usize,
    pub height: usize,
    pub pixels: Vec<u8>,
}

impl TextRenderer {
    /// The buffer holds exactly four bytes per pixel.
    pub open spec fn wf(&self) -> bool {
        self.pixels@.len() == self.width * self.height * 4
    }

    /// The bitmap for an empty text: every pixel fully transparent.
    pub fn transparent(width: usize, height: usize) -> (r: Self)
        requires
            width * height * 4 <= usize::MAX,
        ensures
            r.width == width,
            r.height == height,
            r.wf(),
            forall|i: int| 0 <= i < r.pixels@.len() ==> r.pixels@[i] == 0,
    {
        assert(width * height <= width * height * 4) by (nonlinear_arith)
            requires
                width * height * 4 <= usize::MAX,
        ;
        let len: usize = width * height * 4;
        let mut pixels: Vec<u8> = Vec::with_capacity(len);
        while pixels.len() < len
            invariant
                pixels@.len() <= len,
                forall|i: int| 0 <= i < pixels@.len() ==> pixels@[i] == 0,
            decreases len - pixels@.len(),
        {
            pixels.push(0);
        }
        TextRenderer { width, height, pixels }
    }
}

/// One layer of the text, painted over the layers before it.
#[derive(Clone, Copy, Debug, PartialEq, Eq, Structural)]
pub enum DrawPass {
    /// The text filled with the shadow color, moved by the shadow offset.
    Shadow,
    /// The text filled with the fill color.
    Fill,
    /// The outline of the text in the stroke color, with the line width
    /// multiplied by `width_factor`; when `inside_only`, it only paints where
    /// something was painted before (a source-atop blend).
    Stroke { width_factor: u32, inside_only: bool },
}

pub const STROKE_CENTER: u32 = 0;
pub const STROKE_OUTSIDE: u32 = 1;
pub const STROKE_INSIDE: u32 = 2;

/// The layers, bottom first.  The shadow comes first when enabled.  A centered
/// stroke is painted at its width and covered by the fill; an outside stroke
/// is painted at twice its width so that the fill covers its inner half; an
/// inside stroke is painted at twice its width over the fill and kept to the
/// pixels already painted.  Any other stroke position paints the fill alone.
pub open spec fn spec_passes(shadow: bool, stroke: bool, stroke_position: u32) -> Seq<DrawPass> {
    let head = if shadow { seq![DrawPass::Shadow] } else { Seq::<DrawPass>::empty() };
    let body = if !stroke {
        seq![DrawPass::Fill]
    } else if stroke_position == STROKE_CENTER {
        seq![DrawPass::Stroke { width_factor: 1, inside_only: false }, DrawPass::Fill]
    } else if stroke_position == STROKE_OUTSIDE {
        seq![DrawPass::Stroke { width_factor: 2, inside_only: false }, DrawPass::Fill]
    } else if stroke_position == STROKE_INSIDE {
        seq![DrawPass::Fill, DrawPass::Stroke { width_factor: 2, inside_only: true }]
    } else {
        seq![DrawPass::Fill]
    };
    head + body
}

/// The layers to paint for the given shadow and stroke settings, bottom first.
pub fn draw_passes(shadow: bool, stroke: bool, stroke_position: u32) -> (p: Vec<DrawPass>)
    ensures
        p@ == spec_passes(shadow, stroke, stroke_position),
{
    let mut p: Vec<DrawPass> = Vec::new();
    if shadow {
        p.push(DrawPass::Shadow);
    }
    let ghost head = p@;
    if !stroke {
        p.push(DrawPass::Fill);
    } else {
        match stroke_position {
            STROKE_CENTER => {
                p.push(DrawPass::Stroke { width_factor: 1, inside_only: false });
                p.push(DrawPass::Fill);
            },
            STROKE_OUTSIDE => {
                p.push(DrawPass::Stroke { width_factor: 2, inside_only: false });
                p.push(DrawPass::Fill);
            },
            STROKE_INSIDE => {
                p.push(DrawPass::Fill);
                p.push(DrawPass::Stroke { width_factor: 2, inside_only: true });
            },
            _ => {
                p.push(DrawPass::Fill);
            },
        }
    }
    assert(p@ == spec_passes(shadow, stroke, stroke_position));
    p
}

/// The number of layers in `s` equal to `d`.
pub open spec fn count_pass(s: Seq<DrawPass>, d: DrawPass) -> nat
    decreases s.len(),
{
    if s.len() == 0 {
        0
    } else {
        count_pass(s.drop_last(), d) + if s.last() == d { 1nat } else { 0nat }
    }
}

/// The text is filled exactly once, whatever the settings; the shadow is
/// painted below everything else and only when enabled; a stroke is painted
/// exactly when one is enabled at a known position, and only the inside stroke
/// goes over the fill.
pub proof fn law_passes(shadow: bool, stroke: bool, stroke_position: u32)
    ensures
        count_pass(spec_passes(shadow, stroke, stroke_position), DrawPass::Fill) == 1,
        shadow <==> spec_passes(shadow, stroke, stroke_position)[0] == DrawPass::Shadow,
        forall|i: int| 0 < i < spec_passes(shadow, stroke, stroke_position).len()
            ==> spec_passes(shadow, stroke, stroke_position)[i] != DrawPass::Shadow,
        spec_passes(shadow, stroke, stroke_position).len()
            == (if shadow { 1int } else { 0int }) + (if stroke && stroke_position <= 2 { 2int } else { 1int }),
        (stroke && stroke_position == STROKE_INSIDE) <==> spec_passes(shadow, stroke, stroke_position).last()
            is Stroke,
{
    let s = spec_passes(shadow, stroke, stroke_position);
    reveal_with_fuel(count_pass, 4);
    assert(s.len() <= 3);
    if s.len() == 3 {
        assert(s.drop_last().drop_last().drop_last() == Seq::<DrawPass>::empty());
    } else if s.len() == 2 {
        assert(s.drop_last().drop_last() == Seq::<DrawPass>::empty());
    } else {
        assert(s.drop_last() == Seq::<DrawPass>::empty());
    }
}

/// Each stroke position paints the layers it is named for, whatever the shadow
/// setting: the last layer is the fill, except for the inside stroke, which is
/// painted last at twice its width and kept to the pixels already painted;
/// a centered stroke comes right before the fill at its own width, an outside
/// stroke right before the fill at twice its width.
pub proof fn law_stroke_positions(shadow: bool, stroke: bool, stroke_position: u32)
    ensures
        stroke && stroke_position == STROKE_INSIDE ==> {
            let s = spec_passes(shadow, stroke, stroke_position);
            &&& s.last() == DrawPass::Stroke { width_factor: 2, inside_only: true }
            &&& s[s.len() - 2] == DrawPass::Fill
        },
        stroke && stroke_position == STROKE_CENTER ==> {
            let s = spec_passes(shadow, stroke, stroke_position);
            &&& s.last() == DrawPass::Fill
            &&& s[s.len() - 2] == DrawPass::Stroke { width_factor: 1, inside_only: false }
        },
        stroke && stroke_position == STROKE_OUTSIDE ==> {
            let s = spec_passes(shadow, stroke, stroke_position);
            &&& s.last() == DrawPass::Fill
            &&& s[s.len() - 2] == DrawPass::Stroke { width_factor: 2, inside_only: false }
        },
        !(stroke && stroke_position <= 2) ==> spec_passes(shadow, stroke, stroke_position).last() == DrawPass::Fill,
        !(stroke && stroke_position <= 2) ==> forall|i: int| 0 <= i < spec_passes(shadow, stroke, stroke_position).len()
            ==> !(spec_passes(shadow, stroke, stroke_position)[i] is Stroke),
        forall|i: int| 0 <= i < spec_passes(shadow, stroke, stroke_position).len()
            ==> (spec_passes(shadow, stroke, stroke_position)[i] is Stroke ==> stroke),
{
}

} // verus!
