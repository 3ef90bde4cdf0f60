//! Derives a named base16 / base24 color scheme from the pixels of an image.
//!
//! The library covers the synthesis pipeline: it scans pixels for the
//! closest match to each of twelve hue anchors, curates the matches against
//! their complements and against the image's dominant colors, picks a
//! background / foreground pair through staged searches, and assembles the
//! named slots of the scheme.
use vstd::prelude::*;

pub mod color;
pub mod curate;
pub mod quantize;
pub mod scan;
pub mod scheme;
pub mod select;

verus! {

/// Why a scheme could not be produced. Every error ends the run.
#[non_exhaustive]
#[derive(Debug)]
pub enum Error {
    /// The image yielded no usable colors.
    NoColors(String),
    /// A color or slot could not be constructed.
    GenerateColors(String),
    /// The requested variant and system are not implemented together.
    UnsupportedSchemeVariant(String),
    /// Any other failure.
    Other(String),
}

/// The scheme system: how many named slots a scheme has.
#[derive(Clone, Copy, Debug, PartialEq, Eq, Structural)]
pub enum SchemeSystem {
    Base16,
    Base24,
    Tinted8,
}

/// Whether the background is the dark or the light anchor.
#[derive(Clone, Copy, Debug, PartialEq, Eq, Structural)]
pub enum SchemeVariant {
    Dark,
    Light,
}

impl SchemeSystem {
    pub open spec fn name(self) -> Seq<char> {
        match self {
            SchemeSystem::Base16 => "base16"@,
            SchemeSystem::Base24 => "base24"@,
            SchemeSystem::Tinted8 => "tinted8"@,
        }
    }

    pub fn as_str(&self) -> (r: &'static str)
        ensures
            r@ == self.name(),
    {
        match self {
            SchemeSystem::Base16 => "base16",
            SchemeSystem::Base24 => "base24",
            SchemeSystem::Tinted8 => "tinted8",
        }
    }
}

impl SchemeVariant {
    pub open spec fn name(self) -> Seq<char> {
        match self {
            SchemeVariant::Dark => "dark"@,
            SchemeVariant::Light => "light"@,
        }
    }

    pub fn as_str(&self) -> (r: &'static str)
        ensures
            r@ == self.name(),
    {
        match self {
            SchemeVariant::Dark => "dark",
            SchemeVariant::Light => "light",
        }
    }
}

} // verus!
