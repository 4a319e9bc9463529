//! Animations: when each of them runs, and what it was made of.

use ratatui::buffer::{Buffer, Cell};
use tachyonfx::Effect;
use vstd::prelude::*;

use crate::layout::Area;

verus! {

/// `tachyonfx::Effect`, an animation that draws over a buffer.
#[verifier::external_type_specification]
#[verifier::external_body]
pub struct ExEffect(tachyonfx::Effect);

/// `ratatui::buffer::Buffer`, the cells of a screen.
#[verifier::external_type_specification]
#[verifier::external_body]
pub struct ExBuffer(ratatui::buffer::Buffer);

/// `ratatui::buffer::Cell`, one cell of a screen.
#[verifier::external_type_specification]
#[verifier::external_body]
pub struct ExCell(ratatui::buffer::Cell);

/// The cells of a screen, by column and line.
pub uninterp spec fn screen_cells(buf: Buffer) -> Map<(u16, u16), Cell>;

/// Whether two screens differ at most in the given areas.
pub open spec fn same_outside(
    before: Map<(u16, u16), Cell>,
    after: Map<(u16, u16), Cell>,
    areas: Seq<Area>,
) -> bool {
    &&& after.dom() == before.dom()
    &&& forall|place: (u16, u16)| #[trigger]
        before.contains_key(place) && (forall|i: int|
            0 <= i < areas.len() ==> !(#[trigger] areas[i]).covers(place)) ==> after[place]
            == before[place]
}

/// Whether a screen may look like `after` once an animation has been drawn over
/// `area` of a screen that looked like `before`, with `millis` milliseconds gone.
pub uninterp spec fn may_draw(
    before: Map<(u16, u16), Cell>,
    state: EffectState,
    area: Area,
    millis: u32,
    after: Map<(u16, u16), Cell>,
) -> bool;

/// The way that a slide takes.
#[derive(Debug, Clone, Copy, PartialEq, Eq, Structural)]
pub enum Motion {
    LeftToRight,
    RightToLeft,
    UpToDown,
    DownToUp,
}

/// How the speed of an animation changes.
#[derive(Debug, Clone, Copy, PartialEq, Eq, Structural)]
pub enum Easing {
    Linear,
    CubicInOut,
}

/// What shows behind sliding cells.
#[derive(Debug, Clone, Copy, PartialEq, Eq, Structural)]
pub enum Backdrop {
    Reset,
    White,
}

/// A slide: what it was made with, and the milliseconds that are left of it.
pub struct Slide {
    pub motion: Motion,
    pub gradient: u16,
    pub randomness: u16,
    pub behind: Backdrop,
    pub easing: Easing,
    pub total: u32,
    pub remaining: u32,
}

/// A fade of the foreground from or to a palette colour.
pub struct Fade {
    pub inward: bool,
    pub color: u8,
    pub easing: Easing,
    pub total: u32,
    pub remaining: u32,
}

/// An animation, as far as this library knows it.
pub enum EffectState {
    Slide(Slide),
    Fade(Fade),
    /// Animations one after the other, and which of them is on.
    Sequence { parts: Seq<EffectState>, current: nat },
    Repeating(Box<EffectState>),
    Other,
}

/// What an animation was made of and how far it has come.
pub uninterp spec fn effect_state(effect: Effect) -> EffectState;

impl EffectState {
    /// Whether the animation can be drawn and rewound: one that this library
    /// made, with slides that leave nothing to chance.
    pub open spec fn known(self) -> bool
        decreases self,
    {
        match self {
            EffectState::Slide(s) => s.randomness == 0,
            EffectState::Fade(_) => true,
            EffectState::Sequence { parts, .. } => forall|i: int|
                0 <= i < parts.len() ==> (#[trigger] parts[i]).known(),
            EffectState::Repeating(inner) => inner.known(),
            EffectState::Other => false,
        }
    }

    /// Rewinding gives every part its whole time back, and a sequence begins anew.
    pub open spec fn rewound(self) -> EffectState
        decreases self,
    {
        match self {
            EffectState::Slide(s) => EffectState::Slide(Slide { remaining: s.total, ..s }),
            EffectState::Fade(f) => EffectState::Fade(Fade { remaining: f.total, ..f }),
            EffectState::Sequence { parts, .. } => EffectState::Sequence {
                parts: all_rewound(parts),
                current: 0,
            },
            EffectState::Repeating(inner) => EffectState::Repeating(Box::new(inner.rewound())),
            EffectState::Other => self,
        }
    }

    /// What is left of the animation after `millis`, and the time it had no use for. A
    /// slide and a fade hand on what is over. A sequence gives each part what the one
    /// before had no use for, and goes on to the next where a part is at its end. A
    /// repeated animation begins anew where time is over, and keeps that time.
    pub open spec fn passed(self, millis: u32) -> (EffectState, Option<u32>)
        decreases self, 0int,
    {
        match self {
            EffectState::Slide(s) => (
                EffectState::Slide(Slide { remaining: time_left(s.remaining, millis), ..s }),
                time_over(s.remaining, millis),
            ),
            EffectState::Fade(f) => (
                EffectState::Fade(Fade { remaining: time_left(f.remaining, millis), ..f }),
                time_over(f.remaining, millis),
            ),
            EffectState::Sequence { parts, current } => {
                let (parts, current, over) = parts_passed(parts, current, Some(millis));
                (EffectState::Sequence { parts, current }, over)
            },
            EffectState::Repeating(inner) => {
                let (after, over) = inner.passed(millis);
                let after = if over is Some {
                    after.rewound()
                } else {
                    after
                };
                (EffectState::Repeating(Box::new(after)), None)
            },
            EffectState::Other => (self, None),
        }
    }

    /// What is left of the animation after `millis`.
    pub open spec fn drawn(self, millis: u32) -> EffectState {
        self.passed(millis).0
    }

    /// Whether the animation still runs: a slide or a fade while it has time, a
    /// sequence up to its last part, and a repeated animation always.
    pub open spec fn has_time(self) -> bool {
        match self {
            EffectState::Slide(s) => s.remaining > 0,
            EffectState::Fade(f) => f.remaining > 0,
            EffectState::Sequence { parts, current } => current < parts.len(),
            EffectState::Repeating(_) => true,
            EffectState::Other => false,
        }
    }
}

/// The time that is left after `millis` of it.
pub open spec fn time_left(remaining: u32, millis: u32) -> u32 {
    if remaining >= millis {
        (remaining - millis) as u32
    } else {
        0
    }
}

/// The time that is over after `remaining` of it, where there was more than that.
pub open spec fn time_over(remaining: u32, millis: u32) -> Option<u32> {
    if remaining >= millis {
        None
    } else {
        Some((millis - remaining) as u32)
    }
}

/// The parts of a sequence after the time `left` from part `current` on, the part that
/// is on then, and the time that is over.
pub open spec fn parts_passed(parts: Seq<EffectState>, current: nat, left: Option<u32>) -> (
    Seq<EffectState>,
    nat,
    Option<u32>,
)
    decreases parts, parts.len() - current,
{
    match left {
        Some(millis) if current < parts.len() => {
            let (part, over) = parts[current as int].passed(millis);
            if part.has_time() {
                (parts.update(current as int, part), current, over)
            } else {
                let (rest, next, over) = parts_passed(parts, current + 1, over);
                (rest.update(current as int, part), next, over)
            }
        },
        _ => (parts, current, left),
    }
}

/// All of some animations, rewound.
pub open spec fn all_rewound(parts: Seq<EffectState>) -> Seq<EffectState>
    decreases parts,
{
    if parts.len() == 0 {
        Seq::empty()
    } else {
        all_rewound(parts.drop_last()).push(parts.last().rewound())
    }
}

/// Rewinding leaves an animation known.
pub(crate) proof fn lemma_rewound_known(state: EffectState)
    requires
        state.known(),
    ensures
        state.rewound().known(),
    decreases state,
{
    match state {
        EffectState::Sequence { parts, .. } => {
            lemma_all_rewound(parts);
        },
        EffectState::Repeating(inner) => {
            lemma_rewound_known(*inner);
        },
        _ => {},
    }
}

proof fn lemma_all_rewound(parts: Seq<EffectState>)
    requires
        forall|i: int| 0 <= i < parts.len() ==> (#[trigger] parts[i]).known(),
    ensures
        all_rewound(parts).len() == parts.len(),
        forall|i: int|
            0 <= i < parts.len() ==> (#[trigger] all_rewound(parts)[i]).known()
                && all_rewound(parts)[i] == parts[i].rewound(),
    decreases parts,
{
    if parts.len() > 0 {
        let rest = parts.drop_last();
        assert forall|i: int| 0 <= i < rest.len() implies (#[trigger] rest[i]).known() by {
            assert(parts[i].known());
        }
        lemma_all_rewound(rest);
        assert(parts[parts.len() - 1].known());
        lemma_rewound_known(parts.last());
        assert forall|i: int| 0 <= i < parts.len() implies (#[trigger] all_rewound(
            parts,
        )[i]).known() && all_rewound(parts)[i] == parts[i].rewound() by {
            if i < rest.len() {
                assert(all_rewound(parts)[i] == all_rewound(rest)[i]);
                assert(rest[i] == parts[i]);
            }
        }
    }
}

/// Time that passes leaves an animation known and made of the same, and where time is
/// over the animation is at its end.
proof fn lemma_passed(state: EffectState, millis: u32)
    requires
        state.known(),
    ensures
        state.passed(millis).0.known(),
        state.passed(millis).0.rewound() == state.rewound(),
        state.passed(millis).1 is Some ==> !state.passed(millis).0.has_time(),
    decreases state, 0int,
{
    match state {
        EffectState::Sequence { parts, current } => {
            lemma_parts_passed(parts, current, Some(millis));
            let after = parts_passed(parts, current, Some(millis)).0;
            lemma_all_rewound(parts);
            lemma_all_rewound(after);
            assert forall|i: int| 0 <= i < parts.len() implies (#[trigger] all_rewound(after)[i])
                == all_rewound(parts)[i] by {
                assert(after[i].rewound() == parts[i].rewound());
            }
            assert(all_rewound(after) =~= all_rewound(parts));
        },
        EffectState::Repeating(inner) => {
            lemma_passed(*inner, millis);
            let after = inner.passed(millis).0;
            lemma_rewound_known(after);
            rewinding_twice_is_rewinding_once(after);
        },
        _ => {},
    }
}

proof fn lemma_parts_passed(parts: Seq<EffectState>, current: nat, left: Option<u32>)
    requires
        forall|i: int| 0 <= i < parts.len() ==> (#[trigger] parts[i]).known(),
    ensures
        parts_passed(parts, current, left).0.len() == parts.len(),
        forall|i: int|
            0 <= i < parts.len() ==> (#[trigger] parts_passed(parts, current, left).0[i]).known()
                && parts_passed(parts, current, left).0[i].rewound() == parts[i].rewound(),
        parts_passed(parts, current, left).2 is Some ==> parts_passed(parts, current, left).1
            >= parts.len(),
    decreases parts, parts.len() - current,
{
    if let Some(millis) = left {
        if current < parts.len() {
            lemma_passed(parts[current as int], millis);
            let (part, over) = parts[current as int].passed(millis);
            if !part.has_time() {
                lemma_parts_passed(parts, current + 1, over);
            }
        }
    }
}

/// `tachyonfx::fx::slide_in`: a slide with its whole time before it.
#[verifier::external_body]
fn slide_in(
    motion: Motion,
    gradient: u16,
    randomness: u16,
    behind: Backdrop,
    millis: u32,
    easing: Easing,
) -> (effect: Effect)
    ensures
        effect_state(effect) == EffectState::Slide(
            Slide {
                motion,
                gradient,
                randomness,
                behind,
                easing,
                total: millis,
                remaining: millis,
            },
        ),
{
    let motion = match motion {
        Motion::LeftToRight => tachyonfx::Motion::LeftToRight,
        Motion::RightToLeft => tachyonfx::Motion::RightToLeft,
        Motion::UpToDown => tachyonfx::Motion::UpToDown,
        Motion::DownToUp => tachyonfx::Motion::DownToUp,
    };
    let behind = match behind {
        Backdrop::Reset => ratatui::style::Color::Reset,
        Backdrop::White => ratatui::style::Color::White,
    };
    let easing = match easing {
        Easing::Linear => tachyonfx::Interpolation::Linear,
        Easing::CubicInOut => tachyonfx::Interpolation::CubicInOut,
    };
    tachyonfx::fx::slide_in(motion, gradient, randomness, behind, (millis, easing))
}

/// `tachyonfx::fx::fade_from_fg` with a palette colour: a fade with its whole time
/// before it.
#[verifier::external_body]
fn fade_from_fg(color: u8, millis: u32, easing: Easing) -> (effect: Effect)
    ensures
        effect_state(effect) == EffectState::Fade(
            Fade { inward: true, color, easing, total: millis, remaining: millis },
        ),
{
    let easing = match easing {
        Easing::Linear => tachyonfx::Interpolation::Linear,
        Easing::CubicInOut => tachyonfx::Interpolation::CubicInOut,
    };
    tachyonfx::fx::fade_from_fg(ratatui::style::Color::Indexed(color), (millis, easing))
}

/// `tachyonfx::fx::fade_to_fg` with a palette colour: a fade with its whole time
/// before it.
#[verifier::external_body]
fn fade_to_fg(color: u8, millis: u32, easing: Easing) -> (effect: Effect)
    ensures
        effect_state(effect) == EffectState::Fade(
            Fade { inward: false, color, easing, total: millis, remaining: millis },
        ),
{
    let easing = match easing {
        Easing::Linear => tachyonfx::Interpolation::Linear,
        Easing::CubicInOut => tachyonfx::Interpolation::CubicInOut,
    };
    tachyonfx::fx::fade_to_fg(ratatui::style::Color::Indexed(color), (millis, easing))
}

/// `tachyonfx::fx::sequence`: the animations one after the other.
#[verifier::external_body]
fn sequence(effects: &[Effect]) -> (effect: Effect)
    ensures
        effect_state(effect) == (EffectState::Sequence {
            parts: effects@.map_values(|part: Effect| effect_state(part)),
            current: 0,
        }),
{
    tachyonfx::fx::sequence(effects)
}

/// `tachyonfx::fx::repeating`: the animation again and again, without end.
#[verifier::external_body]
fn repeating(inner: Effect) -> (effect: Effect)
    ensures
        effect_state(effect) == EffectState::Repeating(Box::new(effect_state(inner))),
{
    tachyonfx::fx::repeating(inner)
}

/// `tachyonfx::Effect::reset`: every part has its whole time before it again, and a
/// sequence begins with its first.
#[verifier::external_body]
fn reset(effect: &mut Effect)
    requires
        effect_state(*old(effect)).known(),
    ensures
        effect_state(*final(effect)) == effect_state(*old(effect)).rewound(),
{
    effect.reset();
}

/// `tachyonfx::Effect::running`: a slide or a fade runs while it has time, a sequence
/// until all of its parts have run, a repeated animation always.
#[verifier::external_body]
fn still_running(effect: &Effect) -> (res: bool)
    ensures
        effect_state(*effect).known() ==> res == effect_state(*effect).has_time(),
{
    effect.running()
}

/// `tachyonfx::EffectRenderer::render_effect` on a buffer, whose cells cover its
/// area: draws one step. It changes no cell outside `area`, and of the animation only
/// the times. How the cells inside look is left unsaid, beyond that they are an outcome
/// of this call: it goes through powers of floating point numbers, whose precision is
/// not fixed.
#[verifier::external_body]
fn render(buf: &mut Buffer, effect: &mut Effect, area: Area, millis: u32)
    requires
        effect_state(*old(effect)).known(),
    ensures
        may_draw(
            screen_cells(*old(buf)),
            effect_state(*old(effect)),
            area,
            millis,
            screen_cells(*final(buf)),
        ),
        same_outside(screen_cells(*old(buf)), screen_cells(*final(buf)), seq![area]),
        effect_state(*final(effect)) == effect_state(*old(effect)).drawn(millis),
{
    let Area { x, y, width, height } = area;
    let rect = ratatui::layout::Rect { x, y, width, height };
    let millis = tachyonfx::Duration::from_millis(millis);
    tachyonfx::EffectRenderer::render_effect(buf, effect, rect, millis);
}

/// `tachyonfx::Effect::clone`: the same animation, as far as it has come.
pub assume_specification[ <Effect as Clone>::clone ](effect: &Effect) -> (res: Effect)
    ensures
        effect_state(*effect).known() ==> effect_state(res) == effect_state(*effect),
;

/// An animation and whether it is switched on and has come to its end.
#[derive(Debug)]
pub struct TuiEffect {
    pub effect: Effect,
    pub started: bool,
    pub finished: bool,
}

/// An animation and its switches.
pub struct EffectModel {
    pub state: EffectState,
    pub started: bool,
    pub finished: bool,
}

impl EffectModel {
    /// Switched on and not at its end.
    pub open spec fn running(self) -> bool {
        self.started && !self.finished
    }

    /// Switched on, from the start. That it has come to its end once is kept.
    pub open spec fn start(self) -> EffectModel {
        EffectModel { started: true, state: self.state.rewound(), ..self }
    }

    /// Switched off.
    pub open spec fn stop(self) -> EffectModel {
        EffectModel { started: false, ..self }
    }

    /// Switched on or off. What has come to its end starts anew or stays as it
    /// is; anything else goes on or stops.
    pub open spec fn set_running(self, value: bool) -> EffectModel {
        if self.finished {
            if value {
                self.start()
            } else {
                self
            }
        } else {
            EffectModel { started: value, ..self }
        }
    }

    /// One drawing step of `millis` milliseconds: nothing while it is off; what
    /// has come to its end is switched off; else it draws, and is at its end when
    /// no time is left.
    pub open spec fn update(self, millis: u32) -> EffectModel {
        if !self.started {
            self
        } else if self.finished {
            self.stop()
        } else {
            let state = self.state.drawn(millis);
            EffectModel { state, finished: !state.has_time(), ..self }
        }
    }

    /// Whether one drawing step over `area` may turn a screen into another: what does
    /// not run draws nothing, and what runs draws in its area alone.
    pub open spec fn paints(
        self,
        before: Map<(u16, u16), Cell>,
        area: Area,
        millis: u32,
        after: Map<(u16, u16), Cell>,
    ) -> bool {
        if self.running() {
            &&& may_draw(before, self.state, area, millis, after)
            &&& same_outside(before, after, seq![area])
        } else {
            after == before
        }
    }
}

impl View for TuiEffect {
    type V = EffectModel;

    open spec fn view(&self) -> EffectModel {
        EffectModel {
            state: effect_state(self.effect),
            started: self.started,
            finished: self.finished,
        }
    }
}

impl TuiEffect {
    /// An animation, switched off.
    pub fn new(effect: Effect) -> (res: TuiEffect)
        ensures
            res.effect == effect,
            res@ == (EffectModel {
                state: effect_state(effect),
                started: false,
                finished: false,
            }),
    {
        TuiEffect { effect, started: false, finished: false }
    }

    /// Whether the animation is switched on.
    pub fn started(&self) -> (res: bool)
        ensures
            res == self@.started,
    {
        self.started
    }

    /// Whether the animation has come to its end once.
    pub fn finished(&self) -> (res: bool)
        ensures
            res == self@.finished,
    {
        self.finished
    }

    /// Takes note of whether the animation still runs.
    pub fn settle(&mut self, running: bool)
        ensures
            final(self).effect == old(self).effect,
            final(self)@ == (EffectModel { finished: !running, ..old(self)@ }),
    {
        self.finished = !running;
    }

    /// Draws one step over `area` of `buf`, if the animation is running.
    pub fn update(&mut self, buf: &mut Buffer, area: Area, dt: u32)
        requires
            old(self)@.state.known(),
        ensures
            final(self)@ == old(self)@.update(dt),
            old(self)@.paints(screen_cells(*old(buf)), area, dt, screen_cells(*final(buf))),
            final(self)@.state.known(),
            !old(self)@.running() ==> *final(buf) == *old(buf),
            !old(self)@.running() ==> final(self).effect == old(self).effect,
    {
        if !self.started() {
            return ;
        }
        if self.finished() {
            self.started = false;
            return ;
        }
        proof {
            lemma_passed(effect_state(self.effect), dt);
        }
        render(buf, &mut self.effect, area, dt);
        let running = still_running(&self.effect);
        self.settle(running);
    }

    /// Switches the animation on, from the start.
    pub fn start(&mut self) -> (res: &mut TuiEffect)
        requires
            old(self)@.state.known(),
        ensures
            res@ == old(self)@.start(),
            res@.state.known(),
            *final(self) == *final(res),
    {
        proof {
            lemma_rewound_known(effect_state(self.effect));
        }
        self.started = true;
        reset(&mut self.effect);
        self
    }

    /// Switches the animation off.
    pub fn stop(&mut self) -> (res: &mut TuiEffect)
        ensures
            res@ == old(self)@.stop(),
            res.effect == old(self).effect,
            *final(self) == *final(res),
    {
        self.started = false;
        self
    }

    /// Whether the animation is switched on and not at its end.
    pub fn running(&self) -> (res: bool)
        ensures
            res == self@.running(),
    {
        self.started() && !self.finished()
    }

    /// Switches the animation on or off.
    pub fn set_running(&mut self, value: bool) -> (res: &mut TuiEffect)
        requires
            old(self)@.state.known(),
        ensures
            res@ == old(self)@.set_running(value),
            res@.state.known(),
            *final(self) == *final(res),
    {
        match (self.finished(), value) {
            (true, true) => self.start(),
            (false, true) => {
                self.started = true;
                self
            },
            (true, false) => self,
            (false, false) => self.stop(),
        }
    }
}

impl Clone for TuiEffect {
    fn clone(&self) -> (res: TuiEffect)
        ensures
            self@.state.known() ==> res@ == self@,
    {
        TuiEffect {
            effect: self.effect.clone(),
            started: self.started,
            finished: self.finished,
        }
    }
}

impl vstd::std_specs::convert::FromSpecImpl<Effect> for TuiEffect {
    open spec fn obeys_from_spec() -> bool {
        true
    }

    open spec fn from_spec(effect: Effect) -> TuiEffect {
        TuiEffect { effect, started: false, finished: false }
    }
}

impl From<Effect> for TuiEffect {
    /// An animation, switched off.
    fn from(effect: Effect) -> (res: TuiEffect) {
        TuiEffect::new(effect)
    }
}

/// A slide of the library's own kind, switched off.
pub open spec fn resting_slide(motion: Motion, behind: Backdrop, millis: u32) -> EffectModel {
    EffectModel {
        state: EffectState::Slide(
            Slide {
                motion,
                gradient: 12,
                randomness: 0,
                behind,
                easing: Easing::CubicInOut,
                total: millis,
                remaining: millis,
            },
        ),
        started: false,
        finished: false,
    }
}

/// The process table slides in from above.
#[derive(Debug)]
pub struct TableSlideInEffect(pub TuiEffect);

impl Clone for TableSlideInEffect {
    fn clone(&self) -> (res: TableSlideInEffect)
        ensures
            self.0@.state.known() ==> res.0@ == self.0@,
    {
        TableSlideInEffect(self.0.clone())
    }
}

impl Default for TableSlideInEffect {
    fn default() -> (res: TableSlideInEffect)
        ensures
            res.0@ == resting_slide(Motion::UpToDown, Backdrop::Reset, 500),
    {
        let effect = slide_in(Motion::UpToDown, 12, 0, Backdrop::Reset, 500, Easing::CubicInOut);
        TableSlideInEffect(TuiEffect::new(effect))
    }
}

/// The left part of the bottom line slides in.
#[derive(Debug)]
pub struct ModelineSlideInLeftEffect(pub TuiEffect);

impl Clone for ModelineSlideInLeftEffect {
    fn clone(&self) -> (res: ModelineSlideInLeftEffect)
        ensures
            self.0@.state.known() ==> res.0@ == self.0@,
    {
        ModelineSlideInLeftEffect(self.0.clone())
    }
}

impl Default for ModelineSlideInLeftEffect {
    fn default() -> (res: ModelineSlideInLeftEffect)
        ensures
            res.0@ == resting_slide(Motion::RightToLeft, Backdrop::White, 600),
    {
        let effect = slide_in(Motion::RightToLeft, 12, 0, Backdrop::White, 600, Easing::CubicInOut);
        ModelineSlideInLeftEffect(TuiEffect::new(effect))
    }
}

/// The right part of the bottom line slides in.
#[derive(Debug)]
pub struct ModelineSlideInRightEffect(pub TuiEffect);

impl Clone for ModelineSlideInRightEffect {
    fn clone(&self) -> (res: ModelineSlideInRightEffect)
        ensures
            self.0@.state.known() ==> res.0@ == self.0@,
    {
        ModelineSlideInRightEffect(self.0.clone())
    }
}

impl Default for ModelineSlideInRightEffect {
    fn default() -> (res: ModelineSlideInRightEffect)
        ensures
            res.0@ == resting_slide(Motion::LeftToRight, Backdrop::White, 600),
    {
        let effect = slide_in(Motion::LeftToRight, 12, 0, Backdrop::White, 600, Easing::CubicInOut);
        ModelineSlideInRightEffect(TuiEffect::new(effect))
    }
}

/// The line of a killed process is wiped.
#[derive(Debug)]
pub struct KillEffect(pub TuiEffect);

impl Clone for KillEffect {
    fn clone(&self) -> (res: KillEffect)
        ensures
            self.0@.state.known() ==> res.0@ == self.0@,
    {
        KillEffect(self.0.clone())
    }
}

impl Default for KillEffect {
    fn default() -> (res: KillEffect)
        ensures
            res.0@ == resting_slide(Motion::LeftToRight, Backdrop::White, 600),
    {
        let effect = slide_in(Motion::LeftToRight, 12, 0, Backdrop::White, 600, Easing::CubicInOut);
        KillEffect(TuiEffect::new(effect))
    }
}

/// A slow pulse of the foreground, for a process that uses much.
#[derive(Debug)]
pub struct HighUsagePulseEffect(pub TuiEffect);

impl Clone for HighUsagePulseEffect {
    fn clone(&self) -> (res: HighUsagePulseEffect)
        ensures
            self.0@.state.known() ==> res.0@ == self.0@,
    {
        HighUsagePulseEffect(self.0.clone())
    }
}

/// The pulse: from the palette colour and back to it, five seconds each, without end.
pub open spec fn pulse() -> EffectState {
    EffectState::Repeating(
        Box::new(
            EffectState::Sequence {
                parts: seq![
                    EffectState::Fade(
                        Fade {
                            inward: true,
                            color: 3,
                            easing: Easing::Linear,
                            total: 5000,
                            remaining: 5000,
                        },
                    ),
                    EffectState::Fade(
                        Fade {
                            inward: false,
                            color: 3,
                            easing: Easing::Linear,
                            total: 5000,
                            remaining: 5000,
                        },
                    ),
                ],
                current: 0,
            },
        ),
    )
}

impl Default for HighUsagePulseEffect {
    fn default() -> (res: HighUsagePulseEffect)
        ensures
            res.0@ == (EffectModel { state: pulse(), started: false, finished: false }),
            res.0@.state.known(),
    {
        let mut parts: Vec<Effect> = Vec::new();
        parts.push(fade_from_fg(3, 5000, Easing::Linear));
        parts.push(fade_to_fg(3, 5000, Easing::Linear));
        let effect = sequence(parts.as_slice());
        proof {
            let states = parts@.map_values(|part: Effect| effect_state(part));
            assert(states =~= (*pulse()->Repeating_0)->parts);
            reveal_with_fuel(EffectState::known, 4);
        }
        HighUsagePulseEffect(TuiEffect::new(repeating(effect)))
    }
}

/// The animations of the screen.
#[derive(Debug)]
pub struct TuiEffects {
    pub table_slide_in: TableSlideInEffect,
    pub modeline_slide_in_left: ModelineSlideInLeftEffect,
    pub modeline_slide_in_right: ModelineSlideInRightEffect,
    pub kill_effect: KillEffect,
}

/// The animations of the screen.
pub struct EffectsModel {
    pub table_slide_in: EffectModel,
    pub modeline_slide_in_left: EffectModel,
    pub modeline_slide_in_right: EffectModel,
    pub kill_effect: EffectModel,
}

impl EffectsModel {
    /// All four can be drawn and rewound.
    pub open spec fn wf(self) -> bool {
        &&& self.table_slide_in.state.known()
        &&& self.modeline_slide_in_left.state.known()
        &&& self.modeline_slide_in_right.state.known()
        &&& self.kill_effect.state.known()
    }

    /// Whether anything on the screen moves.
    pub open spec fn running(self) -> bool {
        self.table_slide_in.running() || self.modeline_slide_in_left.running()
            || self.modeline_slide_in_right.running() || self.kill_effect.running()
    }

    /// Whether drawing all four over their areas, one after the other, may lead from a
    /// screen over three others to the last.
    pub open spec fn paint_through(
        self,
        before: Map<(u16, u16), Cell>,
        table: Area,
        left: Area,
        right: Area,
        line: Area,
        millis: u32,
        after: Map<(u16, u16), Cell>,
        second: Map<(u16, u16), Cell>,
        third: Map<(u16, u16), Cell>,
        fourth: Map<(u16, u16), Cell>,
    ) -> bool {
        &&& self.table_slide_in.paints(before, table, millis, second)
        &&& self.modeline_slide_in_left.paints(second, left, millis, third)
        &&& self.modeline_slide_in_right.paints(third, right, millis, fourth)
        &&& self.kill_effect.paints(fourth, line, millis, after)
    }

    /// Whether drawing all four over their areas, one after the other, may turn a
    /// screen into another. A place keeps its cell unless it lies in the area of one
    /// that runs.
    pub open spec fn paint(
        self,
        before: Map<(u16, u16), Cell>,
        table: Area,
        left: Area,
        right: Area,
        line: Area,
        millis: u32,
        after: Map<(u16, u16), Cell>,
    ) -> bool {
        &&& exists|
            second: Map<(u16, u16), Cell>,
            third: Map<(u16, u16), Cell>,
            fourth: Map<(u16, u16), Cell>,
        | #[trigger]
            self.paint_through(
                before,
                table,
                left,
                right,
                line,
                millis,
                after,
                second,
                third,
                fourth,
            )
        &&& after.dom() == before.dom()
        &&& forall|place: (u16, u16)| #[trigger]
            before.contains_key(place) && !(self.table_slide_in.running() && table.covers(place))
                && !(self.modeline_slide_in_left.running() && left.covers(place)) && !(
            self.modeline_slide_in_right.running() && right.covers(place)) && !(
            self.kill_effect.running() && line.covers(place)) ==> after[place] == before[place]
    }

    /// All four, switched off.
    pub open spec fn resting() -> EffectsModel {
        EffectsModel {
            table_slide_in: resting_slide(Motion::UpToDown, Backdrop::Reset, 500),
            modeline_slide_in_left: resting_slide(Motion::RightToLeft, Backdrop::White, 600),
            modeline_slide_in_right: resting_slide(Motion::LeftToRight, Backdrop::White, 600),
            kill_effect: resting_slide(Motion::LeftToRight, Backdrop::White, 600),
        }
    }

    /// What slides in when the screen first shows is switched on.
    pub open spec fn opened(self) -> EffectsModel {
        EffectsModel {
            table_slide_in: self.table_slide_in.start(),
            modeline_slide_in_left: self.modeline_slide_in_left.start(),
            modeline_slide_in_right: self.modeline_slide_in_right.start(),
            ..self
        }
    }
}

impl View for TuiEffects {
    type V = EffectsModel;

    open spec fn view(&self) -> EffectsModel {
        EffectsModel {
            table_slide_in: self.table_slide_in.0@,
            modeline_slide_in_left: self.modeline_slide_in_left.0@,
            modeline_slide_in_right: self.modeline_slide_in_right.0@,
            kill_effect: self.kill_effect.0@,
        }
    }
}

impl Clone for TuiEffects {
    fn clone(&self) -> (res: TuiEffects)
        ensures
            self@.wf() ==> res@ == self@,
    {
        TuiEffects {
            table_slide_in: self.table_slide_in.clone(),
            modeline_slide_in_left: self.modeline_slide_in_left.clone(),
            modeline_slide_in_right: self.modeline_slide_in_right.clone(),
            kill_effect: self.kill_effect.clone(),
        }
    }
}

impl Default for TuiEffects {
    fn default() -> (res: TuiEffects)
        ensures
            res@ == EffectsModel::resting(),
            res@.wf(),
    {
        TuiEffects {
            table_slide_in: TableSlideInEffect::default(),
            modeline_slide_in_left: ModelineSlideInLeftEffect::default(),
            modeline_slide_in_right: ModelineSlideInRightEffect::default(),
            kill_effect: KillEffect::default(),
        }
    }
}

impl TuiEffects {
    /// Whether anything on the screen moves.
    pub fn running(&self) -> (res: bool)
        ensures
            res == self@.running(),
    {
        self.table_slide_in.0.running() || self.modeline_slide_in_left.0.running()
            || self.modeline_slide_in_right.0.running() || self.kill_effect.0.running()
    }

    /// Switches on what slides in when the screen first shows.
    pub fn open(&mut self)
        requires
            old(self)@.wf(),
        ensures
            final(self)@ == old(self)@.opened(),
            final(self)@.wf(),
    {
        self.table_slide_in.0.start();
        self.modeline_slide_in_left.0.start();
        self.modeline_slide_in_right.0.start();
    }
}

/// Steps that together take the whole time of a running slide bring it to its end,
/// and one more step switches it off.
pub proof fn slide_comes_to_its_end(m: EffectModel, first: u32, second: u32, third: u32)
    requires
        m.running(),
        m.state is Slide,
        first < m.state->Slide_0.remaining,
        first + second >= m.state->Slide_0.remaining,
    ensures
        m.update(first).running(),
        m.update(first).update(second).finished,
        !m.update(first).update(second).update(third).started,
        forall|millis: u32|
            m.update(first).update(second).update(third).update(millis) == m.update(first).update(
                second,
            ).update(third),
{
}

/// Rewinding what is rewound changes nothing.
pub proof fn rewinding_twice_is_rewinding_once(state: EffectState)
    requires
        state.known(),
    ensures
        state.rewound().rewound() == state.rewound(),
    decreases state,
{
    match state {
        EffectState::Sequence { parts, .. } => {
            lemma_all_rewound(parts);
            lemma_all_rewound(all_rewound(parts));
            assert forall|i: int| 0 <= i < parts.len() implies (#[trigger] all_rewound(
                all_rewound(parts),
            )[i]) == all_rewound(parts)[i] by {
                assert(parts[i].known());
                rewinding_twice_is_rewinding_once(parts[i]);
            }
            assert(all_rewound(all_rewound(parts)) =~= all_rewound(parts));
        },
        EffectState::Repeating(inner) => {
            rewinding_twice_is_rewinding_once(*inner);
        },
        _ => {},
    }
}

/// A repeated animation runs on, however often it is drawn.
pub proof fn a_repeated_animation_runs_on(m: EffectModel, millis: u32)
    requires
        m.running(),
        m.state is Repeating,
    ensures
        m.update(millis).running(),
        m.update(millis).state is Repeating,
{
}

/// Drawing takes time from an animation and nothing else: rewound, it is what it was
/// before.
pub proof fn drawing_takes_time_alone(m: EffectModel, millis: u32)
    requires
        m.state.known(),
    ensures
        m.update(millis).state.known(),
        m.update(millis).state.rewound() == m.state.rewound(),
{
    lemma_passed(m.state, millis);
}

/// A running sequence hands on the time that a part has no use for: where the part that
/// is on comes to its end with time over, the drawing is that of the sequence with this
/// part at its end and the next one on, by the time that is over.
pub proof fn a_sequence_hands_time_on(parts: Seq<EffectState>, current: nat, millis: u32, over: u32)
    requires
        current < parts.len(),
        !parts[current as int].passed(millis).0.has_time(),
        parts[current as int].passed(millis).1 == Some(over),
    ensures
        (EffectState::Sequence { parts, current }).passed(millis).1 == (EffectState::Sequence {
            parts,
            current: current + 1,
        }).passed(over).1,
        (EffectState::Sequence { parts, current }).drawn(millis)->current
            == (EffectState::Sequence { parts, current: current + 1 }).drawn(over)->current,
        (EffectState::Sequence { parts, current }).drawn(millis)->parts
            == (EffectState::Sequence { parts, current: current + 1 }).drawn(over)->parts.update(
            current as int,
            parts[current as int].drawn(millis),
        ),
{
    reveal_with_fuel(EffectState::passed, 2);
    reveal_with_fuel(parts_passed, 2);
}

/// What has come to its end does not run again: starting it does not clear that.
pub proof fn an_ended_animation_stays_ended(m: EffectModel, millis: u32, value: bool)
    requires
        m.finished,
    ensures
        !m.start().running(),
        !m.set_running(value).running(),
        m.update(millis).finished,
        m.stop().finished,
{
}

/// Starting switches an animation on from its beginning, and stopping switches it off
/// where it is. Neither says whether it has come to its end.
pub proof fn the_switches_of_an_animation(m: EffectModel)
    ensures
        m.start().started && m.start().finished == m.finished,
        m.start().state == m.state.rewound(),
        !m.stop().started && m.stop().finished == m.finished && m.stop().state == m.state,
        m.set_running(true).started,
        m.set_running(true).state == if m.finished {
            m.state.rewound()
        } else {
            m.state
        },
        !m.finished ==> !m.set_running(false).started,
        m.finished ==> m.set_running(false) == m,
        m.set_running(false).state == m.state,
{
}

/// Rewound, a slide and a fade have their whole time before them and are else what they
/// were, a sequence is at its first part with every part rewound, and a repeated
/// animation is rewound inside.
pub proof fn rewinding_gives_the_time_back(state: EffectState, i: int)
    requires
        state.known(),
    ensures
        state matches EffectState::Slide(slide) ==> state.rewound() == EffectState::Slide(
            Slide { remaining: slide.total, ..slide },
        ),
        state matches EffectState::Fade(fade) ==> state.rewound() == EffectState::Fade(
            Fade { remaining: fade.total, ..fade },
        ),
        state matches EffectState::Sequence { parts, current } ==> (
        state.rewound() matches EffectState::Sequence { parts: again, current: at } && at == 0
            && again.len() == parts.len() && (0 <= i < parts.len() ==> again[i]
            == parts[i].rewound())),
        state matches EffectState::Repeating(inner) ==> (
        state.rewound() matches EffectState::Repeating(again) && *again == inner.rewound()),
{
    if let EffectState::Sequence { parts, current } = state {
        lemma_all_rewound(parts);
        if 0 <= i < parts.len() {
            assert(all_rewound(parts)[i] == parts[i].rewound());
        }
    }
}

/// The screen moves while one of its four animations is switched on and not at its end.
pub proof fn the_screen_moves_while_one_runs(effects: TuiEffects, res: bool)
    requires
        call_ensures(TuiEffects::running, (&effects,), res),
    ensures
        res == ({
            ||| effects.table_slide_in.0.started && !effects.table_slide_in.0.finished
            ||| effects.modeline_slide_in_left.0.started
                && !effects.modeline_slide_in_left.0.finished
            ||| effects.modeline_slide_in_right.0.started
                && !effects.modeline_slide_in_right.0.finished
            ||| effects.kill_effect.0.started && !effects.kill_effect.0.finished
        }),
{
}

/// When the screen first shows, three animations are switched on from their beginnings,
/// and the wipe is left alone.
pub proof fn three_animations_open_the_screen(m: EffectsModel)
    ensures
        m.opened().table_slide_in.started && m.opened().table_slide_in.state
            == m.table_slide_in.state.rewound(),
        m.opened().modeline_slide_in_left.started && m.opened().modeline_slide_in_left.state
            == m.modeline_slide_in_left.state.rewound(),
        m.opened().modeline_slide_in_right.started && m.opened().modeline_slide_in_right.state
            == m.modeline_slide_in_right.state.rewound(),
        m.opened().kill_effect == m.kill_effect,
{
}

/// Time that passes is used up or handed on. A slide and a fade use what they have and
/// hand on the rest. A sequence at its end hands all of it on; else it hands on nothing
/// while the part that is on has time left, and changes that part alone. A repeated
/// animation hands on nothing, and begins anew where the one inside does.
pub proof fn time_is_used_or_handed_on(state: EffectState, millis: u32)
    ensures
        state matches EffectState::Slide(slide) ==> (
        state.passed(millis) matches (EffectState::Slide(left), over) && {
            &&& left == (Slide { remaining: left.remaining, ..slide })
            &&& over is Some == (millis > slide.remaining)
            &&& over is None ==> left.remaining + millis == slide.remaining
            &&& over matches Some(rest) ==> left.remaining == 0 && slide.remaining + rest == millis
        }),
        state matches EffectState::Fade(fade) ==> (
        state.passed(millis) matches (EffectState::Fade(left), over) && {
            &&& left == (Fade { remaining: left.remaining, ..fade })
            &&& over is Some == (millis > fade.remaining)
            &&& over is None ==> left.remaining + millis == fade.remaining
            &&& over matches Some(rest) ==> left.remaining == 0 && fade.remaining + rest == millis
        }),
        state matches EffectState::Sequence { parts, current } ==> {
            &&& current >= parts.len() ==> state.passed(millis) == (state, Some(millis))
            &&& current < parts.len() && parts[current as int].passed(millis).0.has_time() ==> {
                let after = state.passed(millis).0;
                &&& after is Sequence && after->current == current
                &&& after->parts == parts.update(
                    current as int,
                    parts[current as int].passed(millis).0,
                )
                &&& state.passed(millis).1 == parts[current as int].passed(millis).1
            }
        },
        state matches EffectState::Repeating(inner) ==> (
        state.passed(millis) matches (EffectState::Repeating(after), over) && over is None && *after
            == if inner.passed(millis).1 is Some {
            inner.passed(millis).0.rewound()
        } else {
            inner.passed(millis).0
        }),
{
    reveal_with_fuel(EffectState::passed, 2);
    reveal_with_fuel(parts_passed, 2);
}

/// Drawing an animation takes time from it while it is switched on and not at its end, and
/// draws in its area alone; else it draws nothing.
pub proof fn an_animation_draws_while_it_runs(
    effect: &mut TuiEffect,
    buf: &mut Buffer,
    area: Area,
    dt: u32,
    place: (u16, u16),
)
    requires
        call_ensures(TuiEffect::update, (effect, buf, area, dt), ()),
        screen_cells(*old(buf)).contains_key(place),
    ensures
        !(old(effect).started && !old(effect).finished) ==> *final(buf) == *old(buf),
        !(area.x <= place.0 < area.x + area.width && area.y <= place.1 < area.y + area.height)
            ==> screen_cells(*final(buf)).contains_key(place) && screen_cells(*final(buf))[place]
            == screen_cells(*old(buf))[place],
        old(effect).started && old(effect).finished ==> !final(effect).started,
        !old(effect).started ==> !final(effect).started && final(effect).finished
            == old(effect).finished,
{
    assert(screen_cells(*old(buf)).dom().contains(place));
}

} // verus!
