//! How a text box lays out its text.

use crate::metrics::TextMetrics;
use crate::middleware::Middleware;
use crate::middleware::MiddlewareWrapper;
use crate::parser::Parser;
use crate::rendering::cursor::LineCursor;
use crate::rendering::line_iter::count_runs;
use crate::rendering::line_iter::lemma_stretch_uniform;
use crate::rendering::line_iter::layout;
use crate::rendering::line_iter::line_of;
use crate::rendering::line_iter::total_width;
use crate::rendering::line_iter::ElementHandler;
use crate::rendering::line_iter::LayoutInvariantViolation;
use crate::rendering::line_iter::LineElementParser;
use crate::rendering::line_iter::LineEndType;
use crate::rendering::line_iter::LineError;
use crate::rendering::line_iter::LineLayout;
use crate::rendering::line_iter::MeasureLineElementHandler;
use crate::rendering::space_config::SpaceConfig;
use vstd::prelude::*;

verus! {

/// Where the lines stand between the left and the right edge.
#[derive(Clone, Copy, Debug, PartialEq, Eq, Structural)]
pub enum HorizontalAlignment {
    /// Lines start at the left edge.
    Left,
    /// Lines are centered. An odd pixel goes to the right.
    Center,
    /// Lines end at the right edge.
    Right,
    /// Lines start at the left edge and end at the right edge: the free
    /// width is spread over the whitespace. A line without whitespace
    /// starts at the left edge.
    Justified,
}

/// What happens where the text and the box differ in height.
#[derive(Clone, Copy, Debug, PartialEq, Eq, Structural)]
pub enum HeightMode {
    /// The box keeps its height. Lines that do not fit are left out.
    Exact,
    /// The box takes the height of the text. No line is left out.
    FitToText,
    /// The box takes the height of the text, but does not grow. Lines
    /// that do not fit are left out.
    ShrinkToText,
}

/// How wide a tab is.
#[derive(Clone, Copy, Debug, PartialEq, Eq, Structural)]
pub enum TabSize {
    /// A number of pixels.
    Pixels(u32),
    /// A number of spaces.
    Spaces(u32),
}

impl TabSize {
    /// The width of a tab in pixels, at most `u32::MAX`, where a space is
    /// `space_width` pixels wide.
    pub open spec fn spec_into_pixels(self, space_width: u32) -> u32 {
        match self {
            TabSize::Pixels(pixels) => pixels,
            TabSize::Spaces(count) => if count * space_width <= u32::MAX {
                (count * space_width) as u32
            } else {
                u32::MAX
            },
        }
    }

    /// The width of a tab in pixels, at most `u32::MAX`, in the given
    /// font.
    pub fn into_pixels<F: TextMetrics>(self, metrics: &F) -> (pixels: u32)
        ensures
            pixels == self.spec_into_pixels(metrics.width_of(" "@)),
    {
        match self {
            TabSize::Pixels(pixels) => pixels,
            TabSize::Spaces(count) => {
                let space: u32 = metrics.measure(" ");
                match count.checked_mul(space) {
                    Some(pixels) => pixels,
                    None => u32::MAX,
                }
            },
        }
    }
}

/// The settings of a text box.
#[derive(Clone, Copy, Debug, PartialEq, Eq, Structural)]
pub struct TextBoxStyle {
    /// Where the lines stand between the left and the right edge.
    pub alignment: HorizontalAlignment,
    /// What happens where the text and the box differ in height.
    pub height_mode: HeightMode,
    /// The empty rows between two lines.
    pub line_spacing: u32,
    /// The empty rows that follow a line which a break has ended, on top
    /// of the line spacing.
    pub paragraph_spacing: u32,
    /// How wide a tab is.
    pub tab_size: TabSize,
}

/// What the measuring pass has found of a line.
#[derive(Clone, Copy, Debug, PartialEq, Eq, Structural)]
pub struct LineMeasurement {
    /// The width that the line could take.
    pub max_line_width: u32,
    /// The width that the line takes.
    pub width: u32,
    /// The number of whitespace runs on the line, at most `u32::MAX`.
    pub space_runs: u32,
    /// Why the line ended.
    pub line_end_type: LineEndType,
}

/// A number of whitespace runs as a measurement holds it.
pub open spec fn capped_runs(runs: nat) -> u32 {
    if runs <= u32::MAX {
        runs as u32
    } else {
        u32::MAX
    }
}

impl TextBoxStyle {
    /// Left aligned text in a box that keeps its height, without extra
    /// spacing, with tabs of four spaces.
    pub open spec fn spec_default() -> TextBoxStyle {
        TextBoxStyle {
            alignment: HorizontalAlignment::Left,
            height_mode: HeightMode::Exact,
            line_spacing: 0,
            paragraph_spacing: 0,
            tab_size: TabSize::Spaces(4),
        }
    }

    /// Left aligned text in a box that keeps its height, without extra
    /// spacing, with tabs of four spaces.
    pub fn new() -> (style: Self)
        ensures
            style == Self::spec_default(),
    {
        TextBoxStyle {
            alignment: HorizontalAlignment::Left,
            height_mode: HeightMode::Exact,
            line_spacing: 0,
            paragraph_spacing: 0,
            tab_size: TabSize::Spaces(4),
        }
    }

    /// This style with another alignment.
    pub fn alignment(self, alignment: HorizontalAlignment) -> (style: Self)
        ensures
            style == (TextBoxStyle { alignment, ..self }),
    {
        TextBoxStyle { alignment, ..self }
    }

    /// This style with another height mode.
    pub fn height_mode(self, height_mode: HeightMode) -> (style: Self)
        ensures
            style == (TextBoxStyle { height_mode, ..self }),
    {
        TextBoxStyle { height_mode, ..self }
    }

    /// This style with another line spacing.
    pub fn line_spacing(self, line_spacing: u32) -> (style: Self)
        ensures
            style == (TextBoxStyle { line_spacing, ..self }),
    {
        TextBoxStyle { line_spacing, ..self }
    }

    /// This style with another paragraph spacing.
    pub fn paragraph_spacing(self, paragraph_spacing: u32) -> (style: Self)
        ensures
            style == (TextBoxStyle { paragraph_spacing, ..self }),
    {
        TextBoxStyle { paragraph_spacing, ..self }
    }

    /// This style with another tab size.
    pub fn tab_size(self, tab_size: TabSize) -> (style: Self)
        ensures
            style == (TextBoxStyle { tab_size, ..self }),
    {
        TextBoxStyle { tab_size, ..self }
    }

    /// Measures the line that starts with the next token of `plugin`:
    /// lays it out without drawing anything.
    ///
    /// The tokens of the line are taken from `plugin` and `parser`, so
    /// the caller hands in copies of the two that it goes on with.
    pub fn measure_line<'a, M: Middleware<'a>, F: TextMetrics>(
        &self,
        plugin: &mut MiddlewareWrapper<'a, M>,
        metrics: &F,
        parser: &mut Parser<'a>,
        max_line_width: u32,
    ) -> (r: Result<LineMeasurement, LayoutInvariantViolation>)
        ensures
            ({
                let line = line_of(
                    metrics,
                    old(plugin).upcoming(old(parser)@),
                    max_line_width,
                    self.tab_size.spec_into_pixels(metrics.width_of(" "@)),
                );
                match r {
                    Ok(m) => line is Some && m == measurement_of(line->0, max_line_width, 0)
                        && final(plugin).upcoming(final(parser)@) == line->0.rest,
                    Err(_) => line is None,
                }
            }),
    {
        let cursor = LineCursor::new(max_line_width, self.tab_size.into_pixels(metrics));
        measure_from(cursor, plugin, metrics, parser)
    }
}

/// What the measuring pass says of a laid out line that was started at
/// `first` on a line of the given width.
pub open spec fn measurement_of(line: LineLayout, max_line_width: u32, first: u32) -> LineMeasurement {
    LineMeasurement {
        max_line_width,
        width: (first + total_width(line.elements)) as u32,
        space_runs: capped_runs(count_runs(line.elements)),
        line_end_type: line.end,
    }
}

/// Measures the line that starts at the cursor with the next token of
/// `plugin`: lays it out without drawing anything.
///
/// The tokens of the line are taken from `plugin` and `parser`, so the
/// caller hands in copies of the two that it goes on with.
pub fn measure_from<'a, M: Middleware<'a>, F: TextMetrics>(
    cursor: LineCursor,
    plugin: &mut MiddlewareWrapper<'a, M>,
    metrics: &F,
    parser: &mut Parser<'a>,
) -> (r: Result<LineMeasurement, LayoutInvariantViolation>)
    ensures
        ({
            let line = layout(
                metrics,
                old(plugin).upcoming(old(parser)@),
                cursor.spec_width(),
                cursor.spec_tab_width(),
                cursor.spec_position() as nat,
                Seq::empty(),
            );
            match r {
                Ok(m) => {
                    &&& line is Some
                    &&& m == measurement_of(line->0, cursor.spec_width(), cursor.spec_position())
                    &&& cursor.spec_position() + total_width(line->0.elements)
                        <= cursor.spec_width()
                    &&& final(plugin).upcoming(final(parser)@) == line->0.rest
                },
                Err(_) => line is None,
            }
        }),
{
    let max_line_width: u32 = cursor.line_width();
    let mut line = LineElementParser::new(cursor, SpaceConfig::uniform());
    let mut handler = MeasureLineElementHandler::new();
    let ghost whole = layout(
        metrics,
        plugin.upcoming(parser@),
        cursor.spec_width(),
        cursor.spec_tab_width(),
        cursor.spec_position() as nat,
        Seq::empty(),
    );
    match LineElementParser::process(&mut line, parser, plugin, metrics, &mut handler) {
        Ok(end) => {
            proof {
                lemma_stretch_uniform(whole->0.elements);
                assert(handler.received() =~= whole->0.elements);
            }
            Ok(
                LineMeasurement {
                    max_line_width,
                    width: line.cursor.position(),
                    space_runs: handler.space_runs(),
                    line_end_type: end,
                },
            )
        },
        Err(LineError::Layout(violation)) => Err(violation),
        Err(LineError::Handler(_)) => {
            proof {
                assert(false);
            }
            Err(LayoutInvariantViolation {  })
        },
    }
}

} // verus!
