//! Text-mode pie charts: a rasterizer that renders labeled numeric values as
//! a circle of fill glyphs subdivided into angular wedges proportional to
//! each value, with an optional side legend, producing one text row per
//! scanline.
//!
//! All geometry is exact integer arithmetic: angles are measured in
//! thousandths of a degree, scanline widths are correctly rounded integer
//! square roots, and the wedge partition is computed with exact rational
//! rounding, so the partition is provably monotone and closes at exactly a
//! full turn.

use vstd::prelude::*;

pub mod angles;
pub mod geometry;
pub mod partition;
pub mod render;
pub mod text;

use crate::partition::total_of;
use crate::render::row_spec;
use crate::render::values_of;

verus! {

/// A basic terminal colour for a wedge's fill glyph.
#[derive(Clone, Copy, Debug, PartialEq, Eq)]
pub enum Color {
    Black,
    Red,
    Green,
    Yellow,
    Blue,
    Purple,
    Cyan,
    White,
}

/// One labeled slice of the chart: a positive value, an optional colour and
/// the character that fills the slice's wedge.
#[derive(Clone, Debug)]
pub struct Data {
    /// The name shown in the legend.
    pub label: String,
    /// The weight of this slice; wedge sizes are proportional to it.
    pub value: u32,
    /// The colour its glyphs are styled with, if any.
    pub color: Option<Color>,
    /// The character that fills the wedge.
    pub fill: char,
}

/// Why a chart could not be configured or rendered.
#[derive(Clone, Copy, Debug, PartialEq, Eq)]
pub enum ChartError {
    /// The aspect ratio must be strictly positive.
    InvalidAspectRatio,
    /// The data sequence must not be empty.
    EmptyData,
    /// The values must not all be zero.
    ZeroTotal,
}

/// Chart configuration: the circle's radius in scanlines, the horizontal
/// stretch compensating for tall terminal character cells, and whether a
/// legend is drawn beside the circle.
#[derive(PartialEq, Eq, Structural)]
pub struct Chart {
    radius: u16,
    aspect_ratio: u16,
    legend: bool,
}

impl Chart {
    /// The configured radius.
    pub closed spec fn spec_radius(&self) -> u16 {
        self.radius
    }

    /// The configured aspect ratio.
    pub closed spec fn spec_aspect_ratio(&self) -> u16 {
        self.aspect_ratio
    }

    /// Whether the legend is enabled.
    pub closed spec fn spec_legend(&self) -> bool {
        self.legend
    }
}

impl Default for Chart {
    /// The default configuration: radius 8, aspect ratio 2, no legend.
    fn default() -> (c: Self)
        ensures
            c.spec_radius() == 8 && c.spec_aspect_ratio() == 2 && !c.spec_legend(),
    {
        Chart { radius: 8, aspect_ratio: 2, legend: false }
    }
}

impl Chart {
    /// A chart with the default configuration: radius 8, aspect ratio 2, no
    /// legend.
    pub fn new() -> (c: Self)
        ensures
            c.spec_radius() == 8 && c.spec_aspect_ratio() == 2 && !c.spec_legend(),
    {
        Chart::default()
    }

    /// Sets the radius: the rendered chart has `2 * radius + 1` rows.
    pub fn radius(&mut self, radius: u16)
        ensures
            final (self).spec_radius() == radius,
            final (self).spec_aspect_ratio() == old(self).spec_aspect_ratio(),
            final (self).spec_legend() == old(self).spec_legend(),
    {
        self.radius = radius;
    }

    /// Sets the aspect ratio, the horizontal stretch factor. Zero is a
    /// contract violation: it is rejected immediately and the configuration
    /// is left unchanged.
    pub fn aspect_ratio(&mut self, aspect_ratio: u16) -> (r: Result<(), ChartError>)
        ensures
            aspect_ratio == 0 ==> (r matches Err(ChartError::InvalidAspectRatio)) && *final (self)
                == *old(self),
            aspect_ratio > 0 ==> r is Ok && final (self).spec_aspect_ratio() == aspect_ratio,
            final (self).spec_radius() == old(self).spec_radius(),
            final (self).spec_legend() == old(self).spec_legend(),
    {
        if aspect_ratio == 0 {
            Err(ChartError::InvalidAspectRatio)
        } else {
            self.aspect_ratio = aspect_ratio;
            Ok(())
        }
    }

    /// Sets whether a legend is drawn beside the circle.
    pub fn legend(&mut self, legend: bool)
        ensures
            final (self).spec_legend() == legend,
            final (self).spec_radius() == old(self).spec_radius(),
            final (self).spec_aspect_ratio() == old(self).spec_aspect_ratio(),
    {
        self.legend = legend;
    }

    /// Renders the chart to text rows, one per scanline from `-radius` to
    /// `radius`, top to bottom. Succeeds exactly when the data is non-empty
    /// and its values do not all vanish; an empty sequence or a zero total
    /// is a contract violation, rejected before any row is produced.
    pub fn render(&self, data: &Vec<Data>) -> (r: Result<Vec<String>, ChartError>)
        ensures
            r is Ok <==> data@.len() > 0 && total_of(values_of(data@)) > 0,
            (r matches Err(ChartError::EmptyData)) <==> data@.len() == 0,
            (r matches Err(ChartError::ZeroTotal)) <==> (data@.len() > 0 && total_of(
                values_of(data@),
            ) == 0),
            r matches Ok(rows) ==> rows@.len() == 2 * (self.spec_radius() as int) + 1 && (
            forall|k: int|
                0 <= k < rows@.len() ==> rows@[k]@ == row_spec(
                    self.spec_radius() as int,
                    self.spec_aspect_ratio() as int,
                    self.spec_legend(),
                    data@,
                    k - self.spec_radius() as int,
                )),
    {
        crate::render::render_rows(self.radius, self.aspect_ratio, self.legend, data)
    }
}

} // verus!
