//! Where a measured line starts and how its whitespace is widened.

use crate::metrics::TextMetrics;
use crate::parser::TokenView;
use crate::rendering::line_iter::LineEndType;
use crate::rendering::line_iter::LineLayout;
use crate::rendering::line_iter::RenderElement;
use crate::rendering::line_iter::count_runs;
use crate::rendering::line_iter::lemma_stretch_uniform;
use crate::rendering::line_iter::line_of;
use crate::rendering::line_iter::stretch;
use crate::rendering::line_iter::total_width;
use crate::rendering::line_laws::lemma_line_fits;
use crate::rendering::space_config::SpaceConfig;
use crate::rendering::space_config::lemma_justification_exact;
use crate::rendering::space_config::nth_bonus;
use crate::style::HorizontalAlignment;
use crate::style::LineMeasurement;
use crate::style::measurement_of;
use vstd::prelude::*;

verus! {

impl LineMeasurement {
    /// The width that the line leaves free.
    pub open spec fn deficit(self) -> u32 {
        if self.width <= self.max_line_width {
            (self.max_line_width - self.width) as u32
        } else {
            0
        }
    }
}

impl HorizontalAlignment {
    /// Where a measured line starts, counted from the left edge, and what
    /// its whitespace runs get on top of their own width.
    ///
    /// A right aligned line starts behind the free width, a centered line
    /// behind half of it. A justified line starts at the left edge, and
    /// its runs share the free width: each gets the same part of it, and
    /// what is left over goes to the first runs, a pixel each.
    pub open spec fn spec_place_line(self, measurement: LineMeasurement) -> (u32, SpaceConfig) {
        let deficit = measurement.deficit();
        match self {
            HorizontalAlignment::Left => (0, SpaceConfig::spec_uniform()),
            HorizontalAlignment::Center => (deficit / 2, SpaceConfig::spec_uniform()),
            HorizontalAlignment::Right => (deficit, SpaceConfig::spec_uniform()),
            HorizontalAlignment::Justified => if measurement.space_runs == 0 {
                (0, SpaceConfig::spec_uniform())
            } else {
                (
                    0,
                    SpaceConfig {
                        extra: deficit / measurement.space_runs,
                        remainder: deficit % measurement.space_runs,
                    },
                )
            },
        }
    }

    /// Where a measured line starts, counted from the left edge, and what
    /// its whitespace runs get on top of their own width.
    pub fn place_line(self, measurement: LineMeasurement) -> (r: (u32, SpaceConfig))
        ensures
            r == self.spec_place_line(measurement),
    {
        let deficit: u32 = if measurement.width <= measurement.max_line_width {
            measurement.max_line_width - measurement.width
        } else {
            0
        };
        match self {
            HorizontalAlignment::Left => (0, SpaceConfig::uniform()),
            HorizontalAlignment::Center => (deficit / 2, SpaceConfig::uniform()),
            HorizontalAlignment::Right => (deficit, SpaceConfig::uniform()),
            HorizontalAlignment::Justified => if measurement.space_runs == 0 {
                (0, SpaceConfig::uniform())
            } else {
                (
                    0,
                    SpaceConfig::new(
                        deficit / measurement.space_runs,
                        deficit % measurement.space_runs,
                    ),
                )
            },
        }
    }
}

/// The configuration after `runs` runs have taken their share.
pub open spec fn after_runs(config: SpaceConfig, runs: nat) -> SpaceConfig
    decreases runs,
{
    if runs == 0 {
        config
    } else {
        after_runs(config.rest(), (runs - 1) as nat)
    }
}

/// Taking a share after `runs` runs is the same as taking it first and
/// then letting `runs` runs take theirs; the share that is taken then is
/// that of run number `runs`; and it adds to what the runs before it got.
pub proof fn lemma_after_runs(config: SpaceConfig, runs: nat)
    ensures
        after_runs(config, runs).rest() == after_runs(config, runs + 1),
        after_runs(config, runs).bonus() == nth_bonus(config, runs),
        config.total(runs + 1) == config.total(runs) + nth_bonus(config, runs),
    decreases runs,
{
    if runs > 0 {
        lemma_after_runs(config.rest(), (runs - 1) as nat);
        assert(after_runs(config, runs + 1) == after_runs(config.rest(), runs));
    } else {
        assert(config.rest().total(0) == 0);
        assert(after_runs(config.rest(), 0) == config.rest());
        assert(after_runs(config, 1) == after_runs(config.rest(), 0));
    }
}

/// More runs never get less.
pub proof fn lemma_total_grows(config: SpaceConfig, fewer: nat, more: nat)
    requires
        fewer <= more,
    ensures
        config.total(fewer) <= config.total(more),
    decreases more - fewer,
{
    if fewer < more {
        lemma_total_grows(config, fewer, (more - 1) as nat);
        lemma_after_runs(config, (more - 1) as nat);
    }
}

/// As long as the widened line is not wider than `u32::MAX`, it is as
/// wide as the line itself and the shares of its runs together, and the
/// configuration that is left is the one after that many runs.
pub proof fn lemma_stretch_width(elements: Seq<RenderElement>, config: SpaceConfig)
    requires
        total_width(elements) + config.total(count_runs(elements)) <= u32::MAX,
    ensures
        total_width(stretch(elements, config).0) == total_width(elements) + config.total(
            count_runs(elements),
        ),
        count_runs(stretch(elements, config).0) == count_runs(elements),
        stretch(elements, config).0.len() == elements.len(),
        stretch(elements, config).1 == after_runs(config, count_runs(elements)),
    decreases elements.len(),
{
    if elements.len() > 0 {
        let front = elements.drop_last();
        let runs = count_runs(front);
        lemma_total_grows(config, runs, count_runs(elements));
        lemma_stretch_width(front, config);
        lemma_after_runs(config, runs);
        let shown = stretch(elements, config).0;
        assert(shown.drop_last() =~= stretch(front, config).0);
    }
}

/// Justification is exact: on a justified line with whitespace runs, run
/// number `i` is widened by the free width divided by the number of
/// runs, and by one pixel more if `i` is less than the remainder of that
/// division. Together the runs get the whole free width, so that the
/// widened line is exactly as wide as the line may be.
pub proof fn lemma_justified_line_is_full(
    elements: Seq<RenderElement>,
    max_line_width: u32,
    end: LineEndType,
)
    requires
        total_width(elements) <= max_line_width,
        0 < count_runs(elements) <= u32::MAX,
    ensures
        ({
            let line = LineLayout { elements, end, rest: Seq::empty() };
            let placed = HorizontalAlignment::Justified.spec_place_line(
                measurement_of(line, max_line_width, 0),
            );
            let runs = count_runs(elements);
            let deficit = max_line_width - total_width(elements);
            &&& placed.0 == 0
            &&& placed.1.total(runs) == deficit
            &&& forall|i: nat|
                i < runs ==> #[trigger] nth_bonus(placed.1, i) == deficit / (runs as int) + if i
                    < deficit % (runs as int) {
                    1int
                } else {
                    0int
                }
            &&& total_width(stretch(elements, placed.1).0) == max_line_width
        }),
{
    let runs = count_runs(elements) as u32;
    let deficit = (max_line_width - total_width(elements)) as u32;
    lemma_justification_exact(deficit, runs);
    let config = SpaceConfig { extra: deficit / runs, remainder: deficit % runs };
    lemma_stretch_width(elements, config);
}

/// Justification is exact for every line: a justified line with
/// whitespace runs starts at the left edge and is widened to the full
/// width of the line, run by run as [`lemma_justified_line_is_full`]
/// says.
pub proof fn lemma_justified_layout_is_full<F: TextMetrics>(
    metrics: &F,
    stream: Seq<TokenView>,
    width: u32,
    tab: u32,
)
    requires
        line_of(metrics, stream, width, tab) matches Some(line) && 0 < count_runs(line.elements)
            <= u32::MAX,
    ensures
        ({
            let line = line_of(metrics, stream, width, tab)->0;
            let placed = HorizontalAlignment::Justified.spec_place_line(
                measurement_of(line, width, 0),
            );
            &&& placed.0 == 0
            &&& total_width(line.elements) <= width
            &&& placed.1.total(count_runs(line.elements)) == width - total_width(line.elements)
            &&& total_width(stretch(line.elements, placed.1).0) == width
        }),
{
    let line = line_of(metrics, stream, width, tab)->0;
    assert(total_width(Seq::<RenderElement>::empty()) == 0);
    lemma_line_fits(metrics, stream, width, tab, 0, Seq::empty(), 0);
    lemma_justified_line_is_full(line.elements, width, line.end);
    assert(measurement_of(line, width, 0) == measurement_of(
        LineLayout { elements: line.elements, end: line.end, rest: Seq::empty() },
        width,
        0,
    ));
}

/// A placed line stays within its width: however a line is aligned, the
/// distance of its start from the left edge and its widened elements
/// together are not wider than the line may be.
pub proof fn lemma_placed_line_is_within<F: TextMetrics>(
    metrics: &F,
    stream: Seq<TokenView>,
    width: u32,
    tab: u32,
    alignment: HorizontalAlignment,
)
    requires
        line_of(metrics, stream, width, tab) matches Some(line) && count_runs(line.elements)
            <= u32::MAX,
    ensures
        ({
            let line = line_of(metrics, stream, width, tab)->0;
            let placed = alignment.spec_place_line(measurement_of(line, width, 0));
            placed.0 + total_width(stretch(line.elements, placed.1).0) <= width
        }),
{
    let line = line_of(metrics, stream, width, tab)->0;
    assert(total_width(Seq::<RenderElement>::empty()) == 0);
    lemma_line_fits(metrics, stream, width, tab, 0, Seq::empty(), 0);
    if alignment == HorizontalAlignment::Justified && count_runs(line.elements) > 0 {
        lemma_justified_layout_is_full(metrics, stream, width, tab);
    } else {
        lemma_stretch_uniform(line.elements);
    }
}

} // verus!
