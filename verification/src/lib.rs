//! Core of a terminal image viewer: decides which render path an input takes
//! (from forced type, extension, magic bytes and plugin registrations), maps a
//! resize policy and a terminal size to exact output pixel dimensions,
//! composites transparent images onto a background color, plans the
//! content-addressed cache for office-document conversion and the argv of
//! user-configured plugin commands, and frames an encoded image as the
//! size-bounded escape-sequence chunks of a terminal graphics protocol.
//!
//! File, process and terminal I/O stay outside this crate: callers hand in
//! plain bytes and carry out the external render jobs this crate asks for.
use vstd::prelude::*;

pub mod bitmap;
pub mod color;
pub mod config;
pub mod dims;
pub mod office;
pub mod pages;
pub mod plugin;
pub mod resolve;
pub mod run;
pub mod send;
pub mod util;

verus! {

/// The render path forced by the caller, or `Auto` to detect one from the
/// input's extension and bytes.
#[derive(Debug, Clone, Copy, PartialEq, Eq, Structural)]
pub enum InputType {
    Auto,
    Image,
    Text,
    Svg,
    Pdf,
    Html,
    Office,
}

/// Policy mapping source pixel dimensions to output dimensions given a
/// terminal size.
#[derive(Debug, Clone, Copy, PartialEq, Eq, Structural)]
pub enum ResizeMode {
    /// Keep the source dimensions.
    Original,
    /// Scale (up or down) preserving aspect ratio so the result fits both
    /// terminal dimensions.
    FitTerminal,
    /// Scale the width to the terminal width; derive the height from the
    /// aspect ratio.
    FitWidth,
    /// Scale the height to the terminal height; derive the width from the
    /// aspect ratio.
    FitHeight,
    /// Explicit dimensions; a missing one is derived from the aspect ratio,
    /// and when both are given they are used verbatim.
    Manual { width: Option<u32>, height: Option<u32> },
    /// Keep the source dimensions unless they exceed the terminal in either
    /// direction, in which case behave like `FitTerminal`.
    ClipTerminal,
}

/// Where converted office documents are cached.
#[derive(Debug, Clone, PartialEq)]
pub enum CacheMode {
    /// An ephemeral directory, discarded after the call.
    Disabled,
    /// The platform cache directory.
    Default,
    /// A caller-chosen directory.
    Custom(String),
}

/// An RGBA color; `parse_color` always yields a fully opaque one.
#[derive(Debug, Clone, Copy, PartialEq, Eq, Structural)]
pub struct Rgba {
    pub r: u8,
    pub g: u8,
    pub b: u8,
    pub a: u8,
}

/// The error values the core returns; it never aborts the process.
#[derive(Debug, Clone, Copy, PartialEq, Eq, Structural)]
pub enum KvError {
    /// A source file could not be read.
    OpenError,
    /// No renderer recognized or accepted the bytes.
    DecodeError,
    /// Malformed SVG, PDF or HTML content.
    ParseError,
    /// A page index at or past the page count (`bound` names the count), or
    /// malformed page-range syntax (`bound` is `None`).
    PageRangeError { bound: Option<u16> },
    /// An ill-formed plugin entry: empty command or missing/duplicate
    /// placeholders.
    PluginConfigError,
    /// A plugin process failed to run, exited nonzero, or produced no output.
    PluginExecutionError { exit_code: Option<i32> },
    /// The external office-to-PDF tool failed or left no output file.
    ConversionError,
    /// A malformed hex color string.
    ColorFormatError,
}

/// The immutable per-invocation request bundle, built once by the caller and
/// shared across all inputs of a batch.
pub struct RpixContext {
    pub input_type: InputType,
    pub resize_mode: ResizeMode,
    pub term_width: u32,
    pub term_height: u32,
    /// Zero-indexed page selection for PDF rendering; `None` selects all.
    pub page_indices: Option<Vec<u16>>,
    pub cache_mode: CacheMode,
    /// Background color composited under transparent pixels, when given.
    pub background: Option<Rgba>,
}

} // verus!
