//! The steps in which a badge is drawn with the graphics interface of Windows.
//!
//! The interface hands out objects that have to be given back, in the right order: an
//! object that is selected into a device context must not be deleted, and a bitmap that is
//! selected must not be made an icon. The order of the steps is decided here, also where a
//! step fails; carrying them out is up to the caller.

use vstd::prelude::*;

use crate::badge::{Badge, BadgeSpec};
use crate::poll_schedule;

verus! {

/// The two shapes that a badge is made of.
#[derive(Clone, Copy, Debug, PartialEq, Eq, Structural)]
pub enum Shape {
    Outline,
    Fill,
}

/// One step of drawing a badge.
#[derive(Clone, Copy, Debug, PartialEq, Eq, Structural)]
pub enum DrawStep {
    GetScreenDc,
    CreateMemoryDc,
    CreateBitmap,
    /// Delete a bitmap whose pixels cannot be reached.
    DiscardBitmap,
    SelectBitmap,
    ClearPixels,
    SelectNoPen,
    CreateBrush(Shape),
    SelectBrush(Shape),
    FillShape(Shape),
    RestoreBrush(Shape),
    DeleteBrush(Shape),
    RestorePen,
    CreateFont,
    SelectFont,
    DrawText,
    RestoreFont,
    DeleteFont,
    /// Wait until everything has been drawn.
    Flush,
    SetAlpha,
    DeselectBitmap,
    CreateMask,
    CreateIcon,
    DeleteMask,
    DeleteBitmap,
    DeleteMemoryDc,
    ReleaseScreenDc,
    Finished,
}

/// What a step came to.
#[derive(Clone, Copy, Debug, PartialEq, Eq, Structural)]
pub enum Outcome {
    Done,
    /// What was to be made could not be made.
    Failed,
    /// A bitmap was made, but its pixels cannot be reached.
    WithoutPixels,
}

/// How far drawing a badge is: the next step, whether there is a screen device context,
/// and whether there is an icon.
#[derive(Clone, Copy, Debug, PartialEq, Eq, Structural)]
pub struct Drawing {
    pub step: DrawStep,
    pub screen_dc: bool,
    pub icon: bool,
}

/// The number of pixels of a square can be held.
pub open spec fn countable(size: int) -> bool {
    size > 0 && size * size <= usize::MAX
}

/// Drawing before the first step. A badge whose pixels cannot be counted is not drawn.
pub open spec fn drawing_start(badge: Badge) -> Drawing {
    Drawing {
        step: if countable(badge.size) {
            DrawStep::GetScreenDc
        } else {
            DrawStep::Finished
        },
        screen_dc: false,
        icon: false,
    }
}

/// Starts drawing a badge.
pub fn start_drawing(spec: &BadgeSpec) -> (drawing: Drawing)
    ensures
        drawing == drawing_start(spec@),
{
    let step = if poll_schedule::pixel_count(spec.size, spec.size).is_some() {
        DrawStep::GetScreenDc
    } else {
        DrawStep::Finished
    };
    Drawing { step, screen_dc: false, icon: false }
}

/// The step behind a shape.
pub open spec fn after_shape(shape: Shape) -> DrawStep {
    match shape {
        Shape::Outline => DrawStep::CreateBrush(Shape::Fill),
        Shape::Fill => DrawStep::RestorePen,
    }
}

/// The step behind the memory device context, on the way out.
pub open spec fn after_memory_dc(screen_dc: bool) -> DrawStep {
    if screen_dc {
        DrawStep::ReleaseScreenDc
    } else {
        DrawStep::Finished
    }
}

/// The step that follows a step of a given outcome.
pub open spec fn step_after(badge: Badge, drawing: Drawing, outcome: Outcome) -> DrawStep {
    match drawing.step {
        DrawStep::GetScreenDc => DrawStep::CreateMemoryDc,
        DrawStep::CreateMemoryDc => if outcome is Done {
            DrawStep::CreateBitmap
        } else {
            after_memory_dc(drawing.screen_dc)
        },
        DrawStep::CreateBitmap => match outcome {
            Outcome::Done => DrawStep::SelectBitmap,
            Outcome::Failed => DrawStep::DeleteMemoryDc,
            Outcome::WithoutPixels => DrawStep::DiscardBitmap,
        },
        DrawStep::DiscardBitmap => DrawStep::DeleteMemoryDc,
        DrawStep::SelectBitmap => DrawStep::ClearPixels,
        DrawStep::ClearPixels => DrawStep::SelectNoPen,
        DrawStep::SelectNoPen => DrawStep::CreateBrush(
            if badge.outline > 0 {
                Shape::Outline
            } else {
                Shape::Fill
            },
        ),
        DrawStep::CreateBrush(shape) => if outcome is Done {
            DrawStep::SelectBrush(shape)
        } else {
            after_shape(shape)
        },
        DrawStep::SelectBrush(shape) => DrawStep::FillShape(shape),
        DrawStep::FillShape(shape) => DrawStep::RestoreBrush(shape),
        DrawStep::RestoreBrush(shape) => DrawStep::DeleteBrush(shape),
        DrawStep::DeleteBrush(shape) => after_shape(shape),
        DrawStep::RestorePen => if badge.text.len() > 0 {
            DrawStep::CreateFont
        } else {
            DrawStep::Flush
        },
        DrawStep::CreateFont => if outcome is Done {
            DrawStep::SelectFont
        } else {
            DrawStep::Flush
        },
        DrawStep::SelectFont => DrawStep::DrawText,
        DrawStep::DrawText => DrawStep::RestoreFont,
        DrawStep::RestoreFont => DrawStep::DeleteFont,
        DrawStep::DeleteFont => DrawStep::Flush,
        DrawStep::Flush => DrawStep::SetAlpha,
        DrawStep::SetAlpha => DrawStep::DeselectBitmap,
        DrawStep::DeselectBitmap => DrawStep::CreateMask,
        DrawStep::CreateMask => if outcome is Done {
            DrawStep::CreateIcon
        } else {
            DrawStep::DeleteBitmap
        },
        DrawStep::CreateIcon => DrawStep::DeleteMask,
        DrawStep::DeleteMask => DrawStep::DeleteBitmap,
        DrawStep::DeleteBitmap => DrawStep::DeleteMemoryDc,
        DrawStep::DeleteMemoryDc => after_memory_dc(drawing.screen_dc),
        DrawStep::ReleaseScreenDc => DrawStep::Finished,
        DrawStep::Finished => DrawStep::Finished,
    }
}

/// Drawing after its next step.
pub open spec fn draw_next(badge: Badge, drawing: Drawing, outcome: Outcome) -> Drawing {
    Drawing {
        step: step_after(badge, drawing, outcome),
        screen_dc: if drawing.step is GetScreenDc {
            outcome is Done
        } else {
            drawing.screen_dc
        },
        icon: if drawing.step is CreateIcon {
            outcome is Done
        } else {
            drawing.icon
        },
    }
}

/// Decides how drawing a badge goes on behind its next step, of the given outcome. When it
/// is finished, everything that was made on the way has been given back but for the icon.
pub fn draw_badge_icon(spec: &BadgeSpec, drawing: Drawing, outcome: Outcome) -> (next: Drawing)
    ensures
        next == draw_next(spec@, drawing, outcome),
{
    let mut next = drawing;
    let done = matches!(outcome, Outcome::Done);
    let behind_memory_dc = if drawing.screen_dc {
        DrawStep::ReleaseScreenDc
    } else {
        DrawStep::Finished
    };
    next.step =
    match drawing.step {
        DrawStep::GetScreenDc => {
            next.screen_dc = done;
            DrawStep::CreateMemoryDc
        },
        DrawStep::CreateMemoryDc => if done {
            DrawStep::CreateBitmap
        } else {
            behind_memory_dc
        },
        DrawStep::CreateBitmap => match outcome {
            Outcome::Done => DrawStep::SelectBitmap,
            Outcome::Failed => DrawStep::DeleteMemoryDc,
            Outcome::WithoutPixels => DrawStep::DiscardBitmap,
        },
        DrawStep::DiscardBitmap => DrawStep::DeleteMemoryDc,
        DrawStep::SelectBitmap => DrawStep::ClearPixels,
        DrawStep::ClearPixels => DrawStep::SelectNoPen,
        DrawStep::SelectNoPen => if spec.outline > 0 {
            DrawStep::CreateBrush(Shape::Outline)
        } else {
            DrawStep::CreateBrush(Shape::Fill)
        },
        DrawStep::CreateBrush(shape) => if done {
            DrawStep::SelectBrush(shape)
        } else {
            behind_shape(shape)
        },
        DrawStep::SelectBrush(shape) => DrawStep::FillShape(shape),
        DrawStep::FillShape(shape) => DrawStep::RestoreBrush(shape),
        DrawStep::RestoreBrush(shape) => DrawStep::DeleteBrush(shape),
        DrawStep::DeleteBrush(shape) => behind_shape(shape),
        // Drawing empty text would hand over a buffer that is not there, so skip it.
        DrawStep::RestorePen => if spec.text.as_str().is_empty() {
            DrawStep::Flush
        } else {
            DrawStep::CreateFont
        },
        DrawStep::CreateFont => if done {
            DrawStep::SelectFont
        } else {
            DrawStep::Flush
        },
        DrawStep::SelectFont => DrawStep::DrawText,
        DrawStep::DrawText => DrawStep::RestoreFont,
        DrawStep::RestoreFont => DrawStep::DeleteFont,
        DrawStep::DeleteFont => DrawStep::Flush,
        // Drawing calls are batched; they must have landed before the pixels are read.
        DrawStep::Flush => DrawStep::SetAlpha,
        DrawStep::SetAlpha => DrawStep::DeselectBitmap,
        DrawStep::DeselectBitmap => DrawStep::CreateMask,
        DrawStep::CreateMask => if done {
            DrawStep::CreateIcon
        } else {
            DrawStep::DeleteBitmap
        },
        DrawStep::CreateIcon => {
            next.icon = done;
            DrawStep::DeleteMask
        },
        DrawStep::DeleteMask => DrawStep::DeleteBitmap,
        DrawStep::DeleteBitmap => DrawStep::DeleteMemoryDc,
        DrawStep::DeleteMemoryDc => behind_memory_dc,
        DrawStep::ReleaseScreenDc => DrawStep::Finished,
        DrawStep::Finished => DrawStep::Finished,
    };
    next
}

/// The step behind a shape.
fn behind_shape(shape: Shape) -> (step: DrawStep)
    ensures
        step == after_shape(shape),
{
    match shape {
        Shape::Outline => DrawStep::CreateBrush(Shape::Fill),
        Shape::Fill => DrawStep::RestorePen,
    }
}

/// What has been made and not given back, and what is selected.
pub struct Held {
    pub screen_dc: bool,
    pub memory_dc: bool,
    pub bitmap: bool,
    pub bitmap_selected: bool,
    pub no_pen_selected: bool,
    pub brush: bool,
    pub brush_selected: bool,
    pub font: bool,
    pub font_selected: bool,
    pub mask: bool,
    pub icon: bool,
}

impl Held {
    /// Nothing.
    pub open spec fn nothing() -> Held {
        Held {
            screen_dc: false,
            memory_dc: false,
            bitmap: false,
            bitmap_selected: false,
            no_pen_selected: false,
            brush: false,
            brush_selected: false,
            font: false,
            font_selected: false,
            mask: false,
            icon: false,
        }
    }

    /// What a step may be carried out with: what it uses is there, what it makes is not
    /// there yet, and nothing is deleted, or made an icon, while it is selected.
    pub open spec fn allows(self, step: DrawStep) -> bool {
        match step {
            DrawStep::GetScreenDc => !self.screen_dc,
            DrawStep::CreateMemoryDc => !self.memory_dc,
            DrawStep::CreateBitmap => self.memory_dc && !self.bitmap,
            DrawStep::DiscardBitmap => self.bitmap && !self.bitmap_selected,
            DrawStep::SelectBitmap => self.memory_dc && self.bitmap && !self.bitmap_selected,
            DrawStep::ClearPixels => self.bitmap,
            DrawStep::SelectNoPen => self.memory_dc && !self.no_pen_selected,
            DrawStep::CreateBrush(_) => !self.brush,
            DrawStep::SelectBrush(_) => self.memory_dc && self.brush && !self.brush_selected,
            DrawStep::FillShape(_) => self.memory_dc && self.bitmap_selected && self.brush_selected
                && self.no_pen_selected,
            DrawStep::RestoreBrush(_) => self.memory_dc && self.brush_selected,
            DrawStep::DeleteBrush(_) => self.brush && !self.brush_selected,
            DrawStep::RestorePen => self.memory_dc && self.no_pen_selected,
            DrawStep::CreateFont => !self.font,
            DrawStep::SelectFont => self.memory_dc && self.font && !self.font_selected,
            DrawStep::DrawText => self.memory_dc && self.bitmap_selected && self.font_selected,
            DrawStep::RestoreFont => self.memory_dc && self.font_selected,
            DrawStep::DeleteFont => self.font && !self.font_selected,
            DrawStep::Flush => true,
            DrawStep::SetAlpha => self.bitmap,
            DrawStep::DeselectBitmap => self.memory_dc && self.bitmap_selected,
            DrawStep::CreateMask => !self.mask,
            DrawStep::CreateIcon => self.mask && self.bitmap && !self.bitmap_selected && !self.icon,
            DrawStep::DeleteMask => self.mask,
            DrawStep::DeleteBitmap => self.bitmap && !self.bitmap_selected,
            DrawStep::DeleteMemoryDc => self.memory_dc && !self.bitmap_selected
                && !self.no_pen_selected && !self.brush_selected && !self.font_selected,
            DrawStep::ReleaseScreenDc => self.screen_dc,
            DrawStep::Finished => true,
        }
    }

    /// What is held after a step of the given outcome.
    pub open spec fn after(self, step: DrawStep, outcome: Outcome) -> Held {
        let made = outcome is Done;
        match step {
            DrawStep::GetScreenDc => Held { screen_dc: made, ..self },
            DrawStep::CreateMemoryDc => Held { memory_dc: made, ..self },
            DrawStep::CreateBitmap => Held { bitmap: outcome !is Failed, ..self },
            DrawStep::DiscardBitmap => Held { bitmap: false, ..self },
            DrawStep::SelectBitmap => Held { bitmap_selected: true, ..self },
            DrawStep::SelectNoPen => Held { no_pen_selected: true, ..self },
            DrawStep::CreateBrush(_) => Held { brush: made, ..self },
            DrawStep::SelectBrush(_) => Held { brush_selected: true, ..self },
            DrawStep::RestoreBrush(_) => Held { brush_selected: false, ..self },
            DrawStep::DeleteBrush(_) => Held { brush: false, ..self },
            DrawStep::RestorePen => Held { no_pen_selected: false, ..self },
            DrawStep::CreateFont => Held { font: made, ..self },
            DrawStep::SelectFont => Held { font_selected: true, ..self },
            DrawStep::RestoreFont => Held { font_selected: false, ..self },
            DrawStep::DeleteFont => Held { font: false, ..self },
            DrawStep::DeselectBitmap => Held { bitmap_selected: false, ..self },
            DrawStep::CreateMask => Held { mask: made, ..self },
            DrawStep::CreateIcon => Held { icon: made, ..self },
            DrawStep::DeleteMask => Held { mask: false, ..self },
            DrawStep::DeleteBitmap => Held { bitmap: false, ..self },
            DrawStep::DeleteMemoryDc => Held { memory_dc: false, ..self },
            DrawStep::ReleaseScreenDc => Held { screen_dc: false, ..self },
            DrawStep::ClearPixels => self,
            DrawStep::FillShape(_) => self,
            DrawStep::DrawText => self,
            DrawStep::Flush => self,
            DrawStep::SetAlpha => self,
            DrawStep::Finished => self,
        }
    }
}

/// What is held when a step is reached.
spec fn held_at(drawing: Drawing) -> Held {
    let open = Held {
        screen_dc: drawing.screen_dc,
        memory_dc: true,
        icon: drawing.icon,
        ..Held::nothing()
    };
    let drawn = Held { bitmap: true, bitmap_selected: true, ..open };
    let painting = Held { no_pen_selected: true, ..drawn };
    match drawing.step {
        DrawStep::GetScreenDc => Held::nothing(),
        DrawStep::CreateMemoryDc => Held { memory_dc: false, ..open },
        DrawStep::CreateBitmap => open,
        DrawStep::DiscardBitmap => Held { bitmap: true, ..open },
        DrawStep::SelectBitmap => Held { bitmap: true, ..open },
        DrawStep::ClearPixels => drawn,
        DrawStep::SelectNoPen => drawn,
        DrawStep::CreateBrush(_) => painting,
        DrawStep::SelectBrush(_) => Held { brush: true, ..painting },
        DrawStep::FillShape(_) => Held { brush: true, brush_selected: true, ..painting },
        DrawStep::RestoreBrush(_) => Held { brush: true, brush_selected: true, ..painting },
        DrawStep::DeleteBrush(_) => Held { brush: true, ..painting },
        DrawStep::RestorePen => painting,
        DrawStep::CreateFont => drawn,
        DrawStep::SelectFont => Held { font: true, ..drawn },
        DrawStep::DrawText => Held { font: true, font_selected: true, ..drawn },
        DrawStep::RestoreFont => Held { font: true, font_selected: true, ..drawn },
        DrawStep::DeleteFont => Held { font: true, ..drawn },
        DrawStep::Flush => drawn,
        DrawStep::SetAlpha => drawn,
        DrawStep::DeselectBitmap => drawn,
        DrawStep::CreateMask => Held { bitmap: true, ..open },
        DrawStep::CreateIcon => Held { bitmap: true, mask: true, ..open },
        DrawStep::DeleteMask => Held { bitmap: true, mask: true, ..open },
        DrawStep::DeleteBitmap => Held { bitmap: true, ..open },
        DrawStep::DeleteMemoryDc => open,
        DrawStep::ReleaseScreenDc => Held { memory_dc: false, ..open },
        DrawStep::Finished => Held { icon: drawing.icon, ..Held::nothing() },
    }
}

/// There is an icon only behind the step that makes it, and a screen device context is
/// released only if there is one.
spec fn consistent(drawing: Drawing) -> bool {
    &&& drawing.icon ==> {
        ||| drawing.step is DeleteMask
        ||| drawing.step is DeleteBitmap
        ||| drawing.step is DeleteMemoryDc
        ||| drawing.step is ReleaseScreenDc
        ||| drawing.step is Finished
    }
    &&& drawing.step is ReleaseScreenDc ==> drawing.screen_dc
}

/// One step keeps the books.
proof fn lemma_step_is_allowed(badge: Badge, drawing: Drawing, outcome: Outcome)
    requires
        consistent(drawing),
    ensures
        held_at(drawing).allows(drawing.step),
        consistent(draw_next(badge, drawing, outcome)),
        held_at(draw_next(badge, drawing, outcome)) == held_at(drawing).after(
            drawing.step,
            outcome,
        ),
{
}

/// Drawing after steps of the given outcomes.
pub open spec fn drawing_after(badge: Badge, outcomes: Seq<Outcome>) -> Drawing
    decreases outcomes.len(),
{
    if outcomes.len() == 0 {
        drawing_start(badge)
    } else {
        draw_next(badge, drawing_after(badge, outcomes.drop_last()), outcomes.last())
    }
}

/// What is held after steps of the given outcomes.
pub open spec fn held_after(badge: Badge, outcomes: Seq<Outcome>) -> Held
    decreases outcomes.len(),
{
    if outcomes.len() == 0 {
        Held::nothing()
    } else {
        held_after(badge, outcomes.drop_last()).after(
            drawing_after(badge, outcomes.drop_last()).step,
            outcomes.last(),
        )
    }
}

/// The books are kept over all steps.
proof fn lemma_books(badge: Badge, outcomes: Seq<Outcome>)
    ensures
        consistent(drawing_after(badge, outcomes)),
        held_after(badge, outcomes) == held_at(drawing_after(badge, outcomes)),
    decreases outcomes.len(),
{
    if outcomes.len() > 0 {
        lemma_books(badge, outcomes.drop_last());
        lemma_step_is_allowed(
            badge,
            drawing_after(badge, outcomes.drop_last()),
            outcomes.last(),
        );
    }
}

/// Whatever the steps come to: every one of them uses only what is there and deletes
/// nothing that is selected; and when drawing is finished, everything has been given back
/// on every path, but for the icon if one was made.
pub proof fn law_nothing_is_left_behind(badge: Badge, outcomes: Seq<Outcome>)
    ensures
        held_after(badge, outcomes).allows(drawing_after(badge, outcomes).step),
        drawing_after(badge, outcomes).step is Finished ==> held_after(badge, outcomes) == (Held {
            icon: drawing_after(badge, outcomes).icon,
            ..Held::nothing()
        }),
{
    lemma_books(badge, outcomes);
    lemma_step_is_allowed(badge, drawing_after(badge, outcomes), Outcome::Done);
}

/// How many steps are left at most behind the brush of a shape.
pub open spec fn steps_behind(shape: Shape) -> nat {
    match shape {
        Shape::Outline => 22,
        Shape::Fill => 17,
    }
}

/// How many steps are left at most.
pub open spec fn steps_left(step: DrawStep) -> nat {
    match step {
        DrawStep::GetScreenDc => 32,
        DrawStep::CreateMemoryDc => 31,
        DrawStep::CreateBitmap => 30,
        DrawStep::DiscardBitmap => 3,
        DrawStep::SelectBitmap => 29,
        DrawStep::ClearPixels => 28,
        DrawStep::SelectNoPen => 27,
        DrawStep::CreateBrush(shape) => steps_behind(shape) + 4,
        DrawStep::SelectBrush(shape) => steps_behind(shape) + 3,
        DrawStep::FillShape(shape) => steps_behind(shape) + 2,
        DrawStep::RestoreBrush(shape) => steps_behind(shape) + 1,
        DrawStep::DeleteBrush(shape) => steps_behind(shape),
        DrawStep::RestorePen => 16,
        DrawStep::CreateFont => 15,
        DrawStep::SelectFont => 14,
        DrawStep::DrawText => 13,
        DrawStep::RestoreFont => 12,
        DrawStep::DeleteFont => 11,
        DrawStep::Flush => 10,
        DrawStep::SetAlpha => 9,
        DrawStep::DeselectBitmap => 8,
        DrawStep::CreateMask => 7,
        DrawStep::CreateIcon => 6,
        DrawStep::DeleteMask => 5,
        DrawStep::DeleteBitmap => 4,
        DrawStep::DeleteMemoryDc => 2,
        DrawStep::ReleaseScreenDc => 1,
        DrawStep::Finished => 0,
    }
}

/// Every step leaves fewer to come.
proof fn lemma_fewer_left(badge: Badge, drawing: Drawing, outcome: Outcome)
    ensures
        drawing.step is Finished ==> draw_next(badge, drawing, outcome).step is Finished,
        drawing.step !is Finished ==> steps_left(draw_next(badge, drawing, outcome).step)
            < steps_left(drawing.step),
        steps_left(drawing.step) == 0 <==> drawing.step is Finished,
        steps_left(drawing.step) <= 32,
{
    let next = draw_next(badge, drawing, outcome).step;
    let left = steps_left(drawing.step);
    match drawing.step {
        DrawStep::GetScreenDc => {
            assert(steps_left(next) < left);
        },
        DrawStep::CreateMemoryDc => {
            assert(steps_left(next) < left);
        },
        DrawStep::CreateBitmap => {
            assert(steps_left(next) < left);
        },
        DrawStep::DiscardBitmap => {
            assert(steps_left(next) < left);
        },
        DrawStep::SelectBitmap => {
            assert(steps_left(next) < left);
        },
        DrawStep::ClearPixels => {
            assert(steps_left(next) < left);
        },
        DrawStep::SelectNoPen => {
            assert(steps_left(next) < left);
        },
        DrawStep::CreateBrush(_) => {
            assert(steps_left(next) < left);
        },
        DrawStep::SelectBrush(_) => {
            assert(steps_left(next) < left);
        },
        DrawStep::FillShape(_) => {
            assert(steps_left(next) < left);
        },
        DrawStep::RestoreBrush(_) => {
            assert(steps_left(next) < left);
        },
        DrawStep::DeleteBrush(_) => {
            assert(steps_left(next) < left);
        },
        DrawStep::RestorePen => {
            assert(steps_left(next) < left);
        },
        DrawStep::CreateFont => {
            assert(steps_left(next) < left);
        },
        DrawStep::SelectFont => {
            assert(steps_left(next) < left);
        },
        DrawStep::DrawText => {
            assert(steps_left(next) < left);
        },
        DrawStep::RestoreFont => {
            assert(steps_left(next) < left);
        },
        DrawStep::DeleteFont => {
            assert(steps_left(next) < left);
        },
        DrawStep::Flush => {
            assert(steps_left(next) < left);
        },
        DrawStep::SetAlpha => {
            assert(steps_left(next) < left);
        },
        DrawStep::DeselectBitmap => {
            assert(steps_left(next) < left);
        },
        DrawStep::CreateMask => {
            assert(steps_left(next) < left);
        },
        DrawStep::CreateIcon => {
            assert(steps_left(next) < left);
        },
        DrawStep::DeleteMask => {
            assert(steps_left(next) < left);
        },
        DrawStep::DeleteBitmap => {
            assert(steps_left(next) < left);
        },
        DrawStep::DeleteMemoryDc => {
            assert(steps_left(next) < left);
        },
        DrawStep::ReleaseScreenDc => {
            assert(steps_left(next) < left);
        },
        DrawStep::Finished => {},
    }
}

/// Drawing ends: every step leaves fewer to come, and 32 are enough.
pub proof fn law_drawing_ends(badge: Badge, outcomes: Seq<Outcome>)
    ensures
        drawing_after(badge, outcomes).step is Finished || steps_left(
            drawing_after(badge, outcomes).step,
        ) + outcomes.len() <= 32,
        outcomes.len() >= 32 ==> drawing_after(badge, outcomes).step is Finished,
    decreases outcomes.len(),
{
    lemma_fewer_left(badge, drawing_after(badge, outcomes), Outcome::Done);
    if outcomes.len() > 0 {
        let before = outcomes.drop_last();
        law_drawing_ends(badge, before);
        lemma_fewer_left(badge, drawing_after(badge, before), outcomes.last());
    }
}

/// The outcomes when every step succeeds.
pub open spec fn all_done(n: nat) -> Seq<Outcome> {
    Seq::new(n, |i: int| Outcome::Done)
}

/// Where every step succeeds, drawing ends with an icon.
pub proof fn law_success_gives_an_icon(badge: Badge)
    requires
        countable(badge.size),
    ensures
        drawing_after(badge, all_done(32)).step is Finished,
        drawing_after(badge, all_done(32)).icon,
{
    lemma_success(badge, 32);
    law_drawing_ends(badge, all_done(32));
}

/// As long as every step succeeds, the way to the icon is not left.
proof fn lemma_success(badge: Badge, n: nat)
    requires
        countable(badge.size),
    ensures
        ({
            let drawing = drawing_after(badge, all_done(n));
            ||| drawing.icon
            ||| steps_left(drawing.step) >= 6
        }),
    decreases n,
{
    if n > 0 {
        lemma_success(badge, (n - 1) as nat);
        assert(all_done(n).drop_last() =~= all_done((n - 1) as nat));
    }
}

/// A rectangle, and the size of the ellipses that round its corners.
#[derive(Clone, Copy, Debug, PartialEq, Eq, Structural)]
pub struct RoundedRect {
    pub left: i32,
    pub top: i32,
    pub right: i32,
    pub bottom: i32,
    pub ellipse: i32,
}

/// What is taken off a badge on every side for a shape.
pub open spec fn inset(badge: Badge, shape: Shape) -> int {
    match shape {
        Shape::Outline => 0,
        Shape::Fill => badge.outline,
    }
}

/// The diameter of the rounded corners of a shape.
pub open spec fn corner(badge: Badge, shape: Shape) -> int {
    match shape {
        Shape::Outline => (badge.radius + 1) * 2,
        Shape::Fill => (badge.radius - 1) * 2,
    }
}

/// The numbers of the rectangle of a shape can be held.
pub open spec fn drawable(badge: Badge, shape: Shape) -> bool {
    &&& i32::MIN <= badge.size - inset(badge, shape)
    &&& badge.size - inset(badge, shape) + 1 <= i32::MAX
    &&& i32::MIN <= corner(badge, shape) <= i32::MAX
}

/// The rectangle of a shape. Its right and bottom edge are not drawn, so that they are one
/// further.
pub fn shape_rect(spec: &BadgeSpec, shape: Shape) -> (rect: RoundedRect)
    requires
        drawable(spec@, shape),
    ensures
        rect.left == inset(spec@, shape),
        rect.top == inset(spec@, shape),
        rect.right == spec.size - inset(spec@, shape) + 1,
        rect.bottom == spec.size - inset(spec@, shape) + 1,
        rect.ellipse == corner(spec@, shape),
{
    let (margin, radius) = match shape {
        Shape::Outline => (0, spec.radius + 1),
        Shape::Fill => (spec.outline, spec.radius - 1),
    };
    let end = spec.size - margin + 1;
    RoundedRect { left: margin, top: margin, right: end, bottom: end, ellipse: radius * 2 }
}

/// A pixel with its alpha channel set: fully opaque if anything was drawn there, else
/// fully transparent.
pub open spec fn opaque(pixel: u32) -> int {
    if pixel == 0 {
        0
    } else {
        pixel % 0x100_0000 + 0xFF00_0000
    }
}

/// Sets the alpha channel of one pixel.
fn opaque_pixel(pixel: u32) -> (set: u32)
    ensures
        set == opaque(pixel),
{
    if pixel == 0 {
        return 0;
    }
    let set = (pixel & 0x00FF_FFFF) | 0xFF00_0000;
    assert(set == pixel % 0x100_0000 + 0xFF00_0000) by (bit_vector)
        requires
            set == (pixel & 0x00FF_FFFFu32) | 0xFF00_0000u32,
    ;
    set
}

/// Sets the alpha channel of all pixels: a pixel with a colour becomes opaque, the
/// background stays transparent.
pub fn set_alpha(pixels: &mut [u32])
    ensures
        final(pixels)@.len() == old(pixels)@.len(),
        forall|i: int|
            0 <= i < old(pixels)@.len() ==> #[trigger] final(pixels)@[i] == opaque(old(pixels)@[i]),
{
    let mut i: usize = 0;
    while i < pixels.len()
        invariant
            i <= pixels@.len(),
            pixels@.len() == old(pixels)@.len(),
            forall|j: int| 0 <= j < i ==> #[trigger] pixels@[j] == opaque(old(pixels)@[j]),
            forall|j: int|
                i <= j < pixels@.len() ==> #[trigger] pixels@[j] == old(pixels)@[j],
        decreases pixels@.len() - i,
    {
        let set = opaque_pixel(pixels[i]);
        pixels[i] = set;
        i += 1;
    }
}

/// Setting the alpha channel keeps the colour of a pixel that was drawn, and doing it
/// twice changes nothing more.
pub proof fn law_alpha_keeps_colours(pixel: u32)
    ensures
        opaque(pixel) % 0x100_0000 == if pixel == 0 {
            0
        } else {
            pixel as int % 0x100_0000
        },
        0 <= opaque(pixel) <= u32::MAX,
        opaque(opaque(pixel) as u32) == opaque(pixel),
{
}

/// What has been painted: the pixels were cleared, the shapes and the text drawn, and the
/// alpha channel set since.
pub struct Painted {
    pub cleared: bool,
    pub outline: bool,
    pub fill: bool,
    pub text: bool,
    pub alpha: bool,
}

impl Painted {
    /// What has been painted after a step.
    pub open spec fn after(self, step: DrawStep) -> Painted {
        match step {
            DrawStep::ClearPixels => Painted {
                cleared: true,
                outline: false,
                fill: false,
                text: false,
                alpha: false,
            },
            DrawStep::FillShape(Shape::Outline) => Painted {
                outline: true,
                fill: false,
                text: false,
                alpha: false,
                ..self
            },
            DrawStep::FillShape(Shape::Fill) => Painted {
                fill: true,
                text: false,
                alpha: false,
                ..self
            },
            DrawStep::DrawText => Painted { text: true, alpha: false, ..self },
            DrawStep::SetAlpha => Painted { alpha: true, ..self },
            _ => self,
        }
    }
}

/// What has been painted after so many steps that all succeeded. A shape hides what was
/// drawn before it.
pub open spec fn painted_after(badge: Badge, n: nat) -> Painted
    decreases n,
{
    if n == 0 {
        Painted { cleared: false, outline: false, fill: false, text: false, alpha: false }
    } else {
        painted_after(badge, (n - 1) as nat).after(
            drawing_after(badge, all_done((n - 1) as nat)).step,
        )
    }
}

/// What has been painted when a step is reached.
spec fn painted_at(badge: Badge, step: DrawStep) -> Painted {
    let blank = Painted { cleared: false, outline: false, fill: false, text: false, alpha: false };
    let cleared = Painted { cleared: true, ..blank };
    let rimmed = Painted { outline: badge.outline > 0, ..cleared };
    let filled = Painted { fill: true, ..rimmed };
    let lettered = Painted { text: badge.text.len() > 0, ..filled };
    let finished = Painted { alpha: true, ..lettered };
    match step {
        DrawStep::SelectNoPen => cleared,
        DrawStep::CreateBrush(Shape::Outline) => cleared,
        DrawStep::SelectBrush(Shape::Outline) => cleared,
        DrawStep::FillShape(Shape::Outline) => cleared,
        DrawStep::RestoreBrush(Shape::Outline) => rimmed,
        DrawStep::DeleteBrush(Shape::Outline) => rimmed,
        DrawStep::CreateBrush(Shape::Fill) => rimmed,
        DrawStep::SelectBrush(Shape::Fill) => rimmed,
        DrawStep::FillShape(Shape::Fill) => rimmed,
        DrawStep::RestoreBrush(Shape::Fill) => filled,
        DrawStep::DeleteBrush(Shape::Fill) => filled,
        DrawStep::RestorePen => filled,
        DrawStep::CreateFont => filled,
        DrawStep::SelectFont => filled,
        DrawStep::DrawText => filled,
        DrawStep::RestoreFont => lettered,
        DrawStep::DeleteFont => lettered,
        DrawStep::Flush => lettered,
        DrawStep::SetAlpha => lettered,
        DrawStep::DeselectBitmap => finished,
        DrawStep::CreateMask => finished,
        DrawStep::CreateIcon => finished,
        _ => blank,
    }
}

/// The steps up to the icon that are taken where every step succeeds.
spec fn on_the_way(badge: Badge, step: DrawStep) -> bool {
    &&& steps_left(step) >= 6
    &&& (step == DrawStep::CreateBrush(Shape::Outline) || step == DrawStep::SelectBrush(
        Shape::Outline,
    ) || step == DrawStep::FillShape(Shape::Outline) || step == DrawStep::RestoreBrush(
        Shape::Outline,
    ) || step == DrawStep::DeleteBrush(Shape::Outline)) ==> badge.outline > 0
    &&& (step is CreateFont || step is SelectFont || step is DrawText || step is RestoreFont
        || step is DeleteFont) ==> badge.text.len() > 0
}

/// As long as every step succeeds, the books on what was painted are kept.
proof fn lemma_painted(badge: Badge, n: nat)
    requires
        countable(badge.size),
    ensures
        ({
            let drawing = drawing_after(badge, all_done(n));
            &&& !drawing.icon && steps_left(drawing.step) >= 6 ==> on_the_way(badge, drawing.step)
                && painted_after(badge, n) == painted_at(badge, drawing.step)
            &&& drawing.icon || steps_left(drawing.step) >= 6
            &&& drawing.icon ==> steps_left(drawing.step) < 6
        }),
    decreases n,
{
    if n > 0 {
        lemma_painted(badge, (n - 1) as nat);
        assert(all_done(n).drop_last() =~= all_done((n - 1) as nat));
    }
}

/// Where every step succeeds, the icon is made of a badge that was painted in full: on
/// cleared pixels the rim if it has one, over it the fill, over that the text if it has any,
/// and the alpha channel set behind all of it.
pub proof fn law_icon_is_painted_in_full(badge: Badge, n: nat)
    requires
        countable(badge.size),
        drawing_after(badge, all_done(n)).step is CreateIcon,
    ensures
        painted_after(badge, n) == (Painted {
            cleared: true,
            outline: badge.outline > 0,
            fill: true,
            text: badge.text.len() > 0,
            alpha: true,
        }),
{
    lemma_painted(badge, n);
}

/// The rectangle of a shape in numbers: the rim covers the badge, the fill leaves the rim
/// free on every side, and its corners are tighter. Nothing is drawn of a badge without an
/// area.
pub proof fn law_shapes_in_numbers(badge: Badge)
    ensures
        inset(badge, Shape::Outline) == 0,
        inset(badge, Shape::Fill) == badge.outline,
        corner(badge, Shape::Outline) == 2 * badge.radius + 2,
        corner(badge, Shape::Fill) == 2 * badge.radius - 2,
        badge.size <= 0 ==> drawing_start(badge).step is Finished,
        0 < badge.size <= 65_535 ==> drawing_start(badge).step is GetScreenDc,
{
    if 0 < badge.size <= 65_535 {
        assert(badge.size * badge.size <= 65_535 * 65_535) by (nonlinear_arith)
            requires
                0 < badge.size <= 65_535,
        ;
    }
}

/// A pixel becomes opaque exactly if anything was drawn there.
pub proof fn law_drawn_pixels_are_opaque(pixel: u32)
    ensures
        pixel == 0 ==> opaque(pixel) == 0,
        pixel != 0 ==> opaque(pixel) / 0x100_0000 == 0xFF,
{
}

/// What fails costs no more than it has to: without its brush a shape is left out, without
/// its font the text, and all else is still drawn. Without the memory device context, the
/// bitmap, its pixels or the mask there is no icon.
pub proof fn law_failures_cost_as_little_as_possible(badge: Badge, drawing: Drawing)
    ensures
        ({
            let after = |step: DrawStep|
                draw_next(badge, Drawing { step, ..drawing }, Outcome::Failed).step;
            &&& after(DrawStep::GetScreenDc) is CreateMemoryDc
            &&& after(DrawStep::CreateBrush(Shape::Outline)) == DrawStep::CreateBrush(Shape::Fill)
            &&& after(DrawStep::CreateBrush(Shape::Fill)) is RestorePen
            &&& after(DrawStep::CreateFont) is Flush
            &&& after(DrawStep::CreateBitmap) is DeleteMemoryDc
            &&& after(DrawStep::CreateMask) is DeleteBitmap
            &&& steps_left(after(DrawStep::CreateMemoryDc)) <= 1
            &&& drawing.step is CreateIcon ==> !draw_next(badge, drawing, Outcome::Failed).icon
        }),
{
}

} // verus!
