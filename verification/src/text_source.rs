//! The text source's parameter layout and the state it keeps between frames:
//! the text itself, the line shown while cycling on the beat, and whether the
//! cached bitmap must be drawn again.
use vstd::prelude::*;
use vstd::arithmetic::div_mod::lemma_add_mod_noop;
use vstd::arithmetic::div_mod::lemma_small_mod;
use crate::text_lines::{chars_of, has_nul, line_at, line_count, law_lines_have_no_newline, split_lines};

verus! {

pub const PARAM_TEXT: usize = 0;
pub const PARAM_TEXT_FILE: usize = 1;
pub const PARAM_TEXT_TRANSFORM: usize = 2;
pub const PARAM_BEAT_CYCLE: usize = 3;
pub const PARAM_CYCLE_DURATION: usize = 4;
pub const PARAM_CYCLE_MODE: usize = 5;
pub const PARAM_CYCLE_RESET: usize = 6;
pub const PARAM_FONT: usize = 7;
pub const PARAM_FONT_SIZE: usize = 8;
pub const PARAM_TRACKING: usize = 9;
pub const PARAM_LEADING: usize = 10;
pub const PARAM_ALIGNMENT: usize = 11;
pub const PARAM_V_ALIGN: usize = 12;
pub const PARAM_POSITION_X: usize = 13;
pub const PARAM_POSITION_Y: usize = 14;
pub const PARAM_FILL_R: usize = 15;
pub const PARAM_FILL_G: usize = 16;
pub const PARAM_FILL_B: usize = 17;
pub const PARAM_FILL_A: usize = 18;
pub const PARAM_STROKE: usize = 19;
pub const PARAM_STROKE_POSITION: usize = 20;
pub const PARAM_STROKE_WIDTH: usize = 21;
pub const PARAM_STROKE_R: usize = 22;
pub const PARAM_STROKE_G: usize = 23;
pub const PARAM_STROKE_B: usize = 24;
pub const PARAM_STROKE_A: usize = 25;
pub const PARAM_DROP_SHADOW: usize = 26;
pub const PARAM_SHADOW_X: usize = 27;
pub const PARAM_SHADOW_Y: usize = 28;
pub const PARAM_SHADOW_R: usize = 29;
pub const PARAM_SHADOW_G: usize = 30;
pub const PARAM_SHADOW_B: usize = 31;
pub const PARAM_SHADOW_A: usize = 32;
pub const NUM_PARAMS: usize = 33;

pub const CYCLE_MODE_LOOP: u32 = 0;
pub const CYCLE_MODE_HOLD: u32 = 1;
pub const CYCLE_MODE_BLACK: u32 = 2;

pub const CYCLE_QUARTER_BEAT: u32 = 0;
pub const CYCLE_HALF_BEAT: u32 = 1;
pub const CYCLE_1_BEAT: u32 = 2;
pub const CYCLE_2_BEATS: u32 = 3;
pub const CYCLE_1_BAR: u32 = 4;
pub const CYCLE_2_BARS: u32 = 5;
pub const CYCLE_4_BARS: u32 = 6;
pub const CYCLE_8_BARS: u32 = 7;

/// Length of a cycle step, in sixteenths of a bar (a bar being four beats),
/// for each option of the cycle-duration menu; an unknown option means one bar.
pub open spec fn spec_cycle_sixteenths(option: u32) -> u32 {
    if option == CYCLE_QUARTER_BEAT {
        1
    } else if option == CYCLE_HALF_BEAT {
        2
    } else if option == CYCLE_1_BEAT {
        4
    } else if option == CYCLE_2_BEATS {
        8
    } else if option == CYCLE_1_BAR {
        16
    } else if option == CYCLE_2_BARS {
        32
    } else if option == CYCLE_4_BARS {
        64
    } else if option == CYCLE_8_BARS {
        128
    } else {
        16
    }
}

/// The cycle duration of a menu option in sixteenths of a bar; the duration in
/// bars is this value divided by 16, which every option gives exactly.
pub fn cycle_duration_sixteenths(option: u32) -> (n: u32)
    ensures
        n == spec_cycle_sixteenths(option),
{
    match option {
        CYCLE_QUARTER_BEAT => 1,
        CYCLE_HALF_BEAT => 2,
        CYCLE_1_BEAT => 4,
        CYCLE_2_BEATS => 8,
        CYCLE_1_BAR => 16,
        CYCLE_2_BARS => 32,
        CYCLE_4_BARS => 64,
        CYCLE_8_BARS => 128,
        _ => 16,
    }
}

/// Each option of the duration menu lasts twice as long as the one before it.
pub proof fn law_cycle_duration_doubles(option: u32)
    requires
        option < CYCLE_8_BARS,
    ensures
        spec_cycle_sixteenths((option + 1) as u32) == 2 * spec_cycle_sixteenths(option),
{
}

/// What the text source remembers between frames.
pub struct TextStateView {
    pub text: Seq<char>,
    pub current_line: int,
    pub dirty: bool,
}

impl TextStateView {
    /// The stored text is short enough to count its lines in a `usize`, holds
    /// no NUL (it is handed to the host as a C string), and the line index
    /// can always be advanced by one.
    pub open spec fn inv(self) -> bool {
        &&& self.text.len() < usize::MAX
        &&& !self.text.contains('\0')
        &&& 0 <= self.current_line < usize::MAX
    }

    /// The state after the host sets text parameter `index` to `value`: only
    /// the text parameter is stored, and only when it holds no NUL.
    pub open spec fn after_text_param(self, index: int, value: Seq<char>) -> TextStateView {
        if index == PARAM_TEXT && !value.contains('\0') {
            TextStateView { text: value, dirty: true, ..self }
        } else {
            self
        }
    }

    /// The state after a numeric parameter changed.
    pub open spec fn after_param(self) -> TextStateView {
        TextStateView { dirty: true, ..self }
    }

    /// The state after the host's bar clock wrapped while beat cycling is on:
    /// a text of several lines moves on to the next line, wrapping after the last.
    pub open spec fn after_bar_wrap(self) -> TextStateView {
        let n = split_lines(self.text).len();
        if n > 1 {
            TextStateView { current_line: (self.current_line + 1) % (n as int), dirty: true, ..self }
        } else {
            self
        }
    }

    /// Whether a frame of `width` by `height` pixels draws the text anew.
    pub open spec fn render_due(self, width: int, height: int) -> bool {
        self.dirty && width > 0 && height > 0
    }

    /// The state after a frame of `width` by `height` pixels.
    pub open spec fn after_frame(self, width: int, height: int) -> TextStateView {
        if self.render_due(width, height) {
            TextStateView { dirty: false, ..self }
        } else {
            self
        }
    }

    /// The text drawn: with beat cycling on and several lines, only the current
    /// line; otherwise the whole text.
    pub open spec fn shown_text(self, beat_cycle: bool) -> Seq<char> {
        let lines = split_lines(self.text);
        if beat_cycle && lines.len() > 1 {
            lines[self.current_line % (lines.len() as int)]
        } else {
            self.text
        }
    }

    /// The state after `n` bar wraps.
    pub open spec fn after_bar_wraps(self, n: nat) -> TextStateView
        decreases n,
    {
        if n == 0 {
            self
        } else {
            self.after_bar_wraps((n - 1) as nat).after_bar_wrap()
        }
    }
}

/// The text source's frame-to-frame state.
pub struct TextState {
    text: String,
    current_line: usize,
    dirty: bool,
}

impl View for TextState {
    type V = TextStateView;

    closed spec fn view(&self) -> TextStateView {
        TextStateView {
            text: self.text@,
            current_line: self.current_line as int,
            dirty: self.dirty,
        }
    }
}

impl TextState {
    /// The state always satisfies `TextStateView::inv`.
    #[verifier::type_invariant]
    spec fn well_formed(&self) -> bool {
        self@.inv()
    }

    /// A fresh source shows "Hello World" and has not drawn anything yet.
    pub fn new() -> (s: Self)
        ensures
            s@.text == "Hello World"@,
            s@.current_line == 0,
            s@.dirty,
            s@.inv(),
    {
        let text = "Hello World".to_owned();
        proof {
            reveal_strlit("Hello World");
            assert(!text@.contains('\0')) by {
                assert forall|i: int| 0 <= i < text@.len() implies text@[i] != '\0' by {}
            }
        }
        TextState { text, current_line: 0, dirty: true }
    }

    /// The stored text.
    pub fn text(&self) -> (t: &str)
        ensures
            t@ == self@.text,
    {
        self.text.as_str()
    }

    /// The index of the line shown while beat cycling.
    pub fn current_line(&self) -> (n: usize)
        ensures
            n == self@.current_line,
    {
        self.current_line
    }

    /// Whether the cached bitmap is out of date.
    pub fn is_dirty(&self) -> (d: bool)
        ensures
            d == self@.dirty,
    {
        self.dirty
    }

    /// The value of text parameter `index`: the text for the text parameter,
    /// nothing for any other index.
    pub fn get_text_param(&self, index: usize) -> (r: Option<&str>)
        ensures
            index == PARAM_TEXT ==> (r matches Some(t) && t@ == self@.text),
            index != PARAM_TEXT ==> r is None,
    {
        if index == PARAM_TEXT {
            Some(self.text.as_str())
        } else {
            None
        }
    }

    /// The host sets text parameter `index` to `value`.
    pub fn set_text_param(&mut self, index: usize, value: &str)
        requires
            value@.len() < usize::MAX,
        ensures
            final(self)@ == old(self)@.after_text_param(index as int, value@),
            final(self)@.inv(),
    {
        proof {
            use_type_invariant(&*self);
        }
        if index == PARAM_TEXT {
            let chars = chars_of(value);
            if !has_nul(&chars) {
                self.text = value.to_owned();
                self.dirty = true;
            }
        }
    }

    /// A numeric parameter changed: the bitmap must be drawn again.
    pub fn param_changed(&mut self)
        ensures
            final(self)@ == old(self)@.after_param(),
            final(self)@.inv(),
    {
        proof {
            use_type_invariant(&*self);
        }
        self.dirty = true;
    }

    /// The host's bar clock wrapped while beat cycling is on.
    pub fn on_bar_wrap(&mut self)
        ensures
            final(self)@ == old(self)@.after_bar_wrap(),
            final(self)@.inv(),
    {
        proof {
            use_type_invariant(&*self);
        }
        let n = line_count(self.text.as_str());
        if n > 1 {
            self.current_line = (self.current_line + 1) % n;
            self.dirty = true;
        }
    }

    /// A frame of `width` by `height` pixels begins; returns whether the text
    /// must be drawn into the bitmap for it.
    pub fn take_render(&mut self, width: usize, height: usize) -> (r: bool)
        ensures
            r == old(self)@.render_due(width as int, height as int),
            final(self)@ == old(self)@.after_frame(width as int, height as int),
            final(self)@.inv(),
    {
        proof {
            use_type_invariant(&*self);
        }
        if self.dirty && width > 0 && height > 0 {
            self.dirty = false;
            true
        } else {
            false
        }
    }

    /// The text to draw, given whether beat cycling is on.
    pub fn display_text(&self, beat_cycle: bool) -> (t: String)
        ensures
            t@ == self@.shown_text(beat_cycle),
    {
        proof {
            use_type_invariant(self);
        }
        if beat_cycle {
            let n = line_count(self.text.as_str());
            if n > 1 {
                return line_at(self.text.as_str(), self.current_line % n);
            }
        }
        self.text.clone()
    }
}

/// A frame never draws twice without a change in between: right after a
/// frame, a second frame of the same size has nothing to draw.
pub proof fn law_render_once(s: TextStateView, width: int, height: int)
    ensures
        !s.after_frame(width, height).render_due(width, height),
{
}

/// Accepting new text, changing a parameter, or moving to another line always
/// leads to a redraw on the next frame that has pixels.
pub proof fn law_changes_redraw(s: TextStateView, index: int, value: Seq<char>, width: int, height: int)
    requires
        width > 0,
        height > 0,
    ensures
        (index == PARAM_TEXT && !value.contains('\0')) ==> s.after_text_param(index, value).render_due(width, height),
        s.after_param().render_due(width, height),
        split_lines(s.text).len() > 1 ==> s.after_bar_wrap().render_due(width, height),
{
}

/// Text without a NUL given to the text parameter is stored as given: the
/// line index is kept and the next frame with pixels draws it.
pub proof fn law_accepted_text_is_stored(s: TextStateView, value: Seq<char>, width: int, height: int)
    requires
        !value.contains('\0'),
        width > 0,
        height > 0,
    ensures
        s.after_text_param(PARAM_TEXT as int, value).text == value,
        s.after_text_param(PARAM_TEXT as int, value).current_line == s.current_line,
        s.after_text_param(PARAM_TEXT as int, value).render_due(width, height),
        s.after_text_param(PARAM_TEXT as int, value).after_frame(width, height).text == value,
{
}

/// Starting from line 0, `n` bar wraps show line `n` modulo the number of lines.
pub proof fn law_cycle_position(s: TextStateView, n: nat)
    requires
        s.current_line == 0,
        split_lines(s.text).len() > 1,
    ensures
        s.after_bar_wraps(n).text == s.text,
        s.after_bar_wraps(n).current_line == (n as int) % (split_lines(s.text).len() as int),
        s.after_bar_wraps(n).shown_text(true) == split_lines(s.text)[(n as int) % (split_lines(s.text).len() as int)],
    decreases n,
{
    let m = split_lines(s.text).len() as int;
    if n > 0 {
        law_cycle_position(s, (n - 1) as nat);
        let prev = s.after_bar_wraps((n - 1) as nat);
        lemma_add_mod_noop(n - 1, 1, m);
        lemma_small_mod(1, m as nat);
        assert(((n - 1) % m) % m == (n - 1) % m) by {
            lemma_small_mod(((n - 1) % m) as nat, m as nat);
        }
    } else {
        lemma_small_mod(0, m as nat);
    }
    let last = s.after_bar_wraps(n);
    lemma_small_mod((last.current_line) as nat, m as nat);
}

/// Whatever line is shown while cycling, it is one line of the text: it holds no newline.
pub proof fn law_shown_line_is_single(s: TextStateView)
    requires
        0 <= s.current_line,
        split_lines(s.text).len() > 1,
    ensures
        !s.shown_text(true).contains('\n'),
{
    let m = split_lines(s.text).len() as int;
    law_lines_have_no_newline(s.text, s.current_line % m);
}

/// Setting the text parameter never stores a NUL, and other indices leave the
/// state as it was.
pub proof fn law_text_param(s: TextStateView, index: int, value: Seq<char>)
    requires
        s.inv(),
        value.len() < usize::MAX,
    ensures
        s.after_text_param(index, value).inv(),
        index != PARAM_TEXT ==> s.after_text_param(index, value) == s,
        value.contains('\0') ==> s.after_text_param(index, value) == s,
{
}

/// With beat cycling off the whole stored text is drawn, whatever the current
/// line; with a single line it is drawn either way.
pub proof fn law_whole_text_unless_cycling(s: TextStateView, beat_cycle: bool)
    ensures
        s.shown_text(false) == s.text,
        split_lines(s.text).len() <= 1 ==> s.shown_text(beat_cycle) == s.text,
{
}

/// Each option of the duration menu means the duration it is labelled with,
/// and an unknown option means one bar.
pub proof fn law_cycle_duration_options(option: u32)
    ensures
        spec_cycle_sixteenths(CYCLE_QUARTER_BEAT) == 1,
        spec_cycle_sixteenths(CYCLE_1_BEAT) == 4,
        spec_cycle_sixteenths(CYCLE_1_BAR) == 16,
        spec_cycle_sixteenths(CYCLE_8_BARS) == 128,
        option > CYCLE_8_BARS ==> spec_cycle_sixteenths(option) == 16,
{
}

/// Nothing is drawn into an empty viewport, and nothing is drawn again while
/// nothing has changed.
pub proof fn law_render_needs_change_and_pixels(s: TextStateView, width: int, height: int)
    ensures
        (width <= 0 || height <= 0) ==> !s.render_due(width, height),
        !s.dirty ==> !s.render_due(width, height),
        (width <= 0 || height <= 0) ==> s.after_frame(width, height) == s,
{
}

/// Only the redraw flag moves on a parameter change or a frame: the text and
/// the line index stay; a bar wrap never changes the text and leaves a single
/// line where it is.
pub proof fn law_what_each_event_keeps(s: TextStateView, width: int, height: int)
    ensures
        s.after_param().text == s.text && s.after_param().current_line == s.current_line,
        s.after_frame(width, height).text == s.text,
        s.after_frame(width, height).current_line == s.current_line,
        s.after_bar_wrap().text == s.text,
        split_lines(s.text).len() <= 1 ==> s.after_bar_wrap() == s,
{
}

/// While beat cycling, the line shown after a bar wrap is the line after the
/// one shown before it, and the first line follows the last.
pub proof fn law_wrap_shows_next_line(s: TextStateView)
    requires
        0 <= s.current_line,
        split_lines(s.text).len() > 1,
    ensures
        ({
            let lines = split_lines(s.text);
            let n = lines.len() as int;
            let shown = s.current_line % n;
            s.after_bar_wrap().shown_text(true) == lines[if shown + 1 < n { shown + 1 } else { 0 }]
        }),
{
    let n = split_lines(s.text).len() as int;
    let c = s.current_line;
    lemma_add_mod_noop(c, 1, n);
    lemma_small_mod(1, n as nat);
    let next = (c + 1) % n;
    lemma_small_mod(next as nat, n as nat);
    if c % n + 1 < n {
        lemma_small_mod((c % n + 1) as nat, n as nat);
    } else {
        assert(c % n + 1 == n);
        vstd::arithmetic::div_mod::lemma_mod_self_0(n);
    }
}

} // verus!
