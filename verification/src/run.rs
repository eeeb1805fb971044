//! The decisions of one invocation: which input source is used, the
//! early rejections (conflicting selections, malformed pages or colors, no
//! input at all), and the request context every input of the batch shares.
//! The caller performs the I/O the plan asks for: reading stdin or files,
//! rendering, and writing the transmission; a failure on one file is
//! recorded and the batch continues.
use vstd::prelude::*;
use vstd::string::StringSliceAdditionalSpecFns;

use crate::color::{color_channel, color_ok, parse_color, strip_hashes};
use crate::pages::{pages_ok, pages_set, parse_pages, sorted_strict};
use crate::send::Mode;
use crate::{CacheMode, InputType, ResizeMode, Rgba, RpixContext};

verus! {

/// Everything one invocation was asked to do, as plain values; the
/// caller's argument parser fills it in.
pub struct RunOptions {
    /// Input files, in order; stdin is used instead when input is piped
    /// and the terminal is not forced.
    pub files: Vec<String>,
    /// Explicit output width in pixels.
    pub width: Option<u32>,
    /// Explicit output height in pixels.
    pub height: Option<u32>,
    /// Scale to the terminal width.
    pub fullwidth: bool,
    /// Scale to the terminal height.
    pub fullheight: bool,
    /// Scale to fit the terminal.
    pub resize: bool,
    /// Never scale.
    pub noresize: bool,
    /// Composite onto a background color.
    pub background: bool,
    /// The background color as a hex string.
    pub color: String,
    /// The transmission encoding.
    pub mode: Mode,
    /// Dump the payload to this file instead of framing it.
    pub output: Option<String>,
    /// Overwrite an existing output file.
    pub overwrite: bool,
    /// The forced input type, or auto-detection.
    pub input: InputType,
    /// The 1-indexed page selection string.
    pub pages: String,
    /// Select all pages.
    pub all: bool,
    /// The language for syntax highlighting.
    pub language: Option<String>,
    /// Do not append a newline after each input.
    pub no_newline: bool,
    /// Do not cache office conversions.
    pub no_cache: bool,
    /// Cache office conversions under this directory instead of the
    /// platform cache directory.
    pub cache_dir: Option<String>,
    /// Print each input's name before processing it.
    pub printname: bool,
    /// Ignore piped input and read the listed files.
    pub tty: bool,
    /// Remove all images from the terminal and do nothing else.
    pub remove: bool,
}

/// What one invocation does.
pub enum RunPlan {
    /// Write the delete-all control sequence and exit successfully.
    Remove,
    /// Report `message` on the error stream and exit with `code`.
    Fail { message: String, code: i32 },
    /// Read piped input and process it under the context.
    Stdin { ctx: RpixContext },
    /// Process the listed files in order under the context; a failing
    /// file is reported and the rest still run.
    Files { ctx: RpixContext },
}

/// The resize policy the flags name: explicit dimensions first, then the
/// single-axis and whole-terminal policies, and, with nothing set, the
/// default of scaling down only when the source exceeds the terminal.
pub open spec fn spec_resize_mode(conf: RunOptions) -> ResizeMode {
    if conf.width is Some || conf.height is Some {
        ResizeMode::Manual { width: conf.width, height: conf.height }
    } else if conf.fullwidth {
        ResizeMode::FitWidth
    } else if conf.fullheight {
        ResizeMode::FitHeight
    } else if conf.resize {
        ResizeMode::FitTerminal
    } else if conf.noresize {
        ResizeMode::Original
    } else {
        ResizeMode::ClipTerminal
    }
}

/// The cache mode the flags name.
pub open spec fn spec_cache_mode(conf: RunOptions) -> CacheMode {
    if conf.no_cache {
        CacheMode::Disabled
    } else {
        match conf.cache_dir {
            Some(d) => CacheMode::Custom(d),
            None => CacheMode::Default,
        }
    }
}

/// Whether the page selection is exactly the default first page.
pub open spec fn only_first_page(b: Seq<u8>) -> bool {
    pages_set(b) =~= set![0u16]
}

/// Whether the built context matches the options: the forced input type,
/// the flags' resize and cache modes, the terminal size, the parsed page
/// selection, and the parsed background color when one was asked for.
pub open spec fn ctx_matches(
    ctx: RpixContext,
    conf: RunOptions,
    term_size: (u32, u32),
) -> bool {
    &&& ctx.input_type == conf.input
    &&& ctx.resize_mode == spec_resize_mode(conf)
    &&& ctx.term_width == term_size.0
    &&& ctx.term_height == term_size.1
    &&& ctx.cache_mode == spec_cache_mode(conf)
    &&& (conf.all ==> ctx.page_indices is None)
    &&& (!conf.all ==> match ctx.page_indices {
        None => pages_set(spec_str_bytes(conf.pages@)) =~= Set::empty(),
        Some(v) => sorted_strict(v@) && v@.len() > 0 && forall|y: u16|
            v@.contains(y) == pages_set(spec_str_bytes(conf.pages@)).contains(y),
    })
    &&& (!conf.background ==> ctx.background is None)
    &&& (conf.background ==> match ctx.background {
        Some(c) => {
            let t = strip_hashes(spec_str_bytes(conf.color@));
            c.r as int == color_channel(t, 0) && c.g as int == color_channel(t, 1)
                && c.b as int == color_channel(t, 2) && c.a == 255
        },
        None => false,
    })
}

/// The UTF-8 bytes of a string value's characters.
pub open spec fn spec_str_bytes(s: Seq<char>) -> Seq<u8> {
    vstd::utf8::encode_utf8(s)
}

/// Decide what one invocation does, in the fixed order: the remove flag
/// wins outright; several files cannot share one output file, an
/// all-pages or non-default page selection, or a malformed one; a
/// requested background must parse; then piped input is read unless the
/// terminal is forced, the listed files are processed, and with neither
/// the invocation fails, telling the caller that no input was provided.
pub fn plan_run(conf: &RunOptions, term_size: (u32, u32), is_input_available: bool) -> (r: RunPlan)
    ensures
        ({
            let use_stdin = is_input_available && !conf.tty;
            let many = conf.files@.len() > 1 && !use_stdin;
            let pb = spec_str_bytes(conf.pages@);
            if conf.remove {
                r is Remove
            } else if conf.output is Some && many {
                r matches RunPlan::Fail { message, code } && message@
                    == "Error: Cannot specify multiple files with --output"@ && code == 1
            } else if conf.all && many {
                r matches RunPlan::Fail { message, code } && message@
                    == "Error: Cannot specify multiple files with --all"@ && code == 1
            } else if !conf.all && !pages_ok(pb) {
                r matches RunPlan::Fail { message, code } && message@
                    == "Error: Invalid page range"@ && code == 1
            } else if !conf.all && many && !only_first_page(pb) {
                r matches RunPlan::Fail { message, code } && message@
                    == "Error: Cannot specify multiple files with non-default --pages option"@
                    && code == 1
            } else if conf.background && !color_ok(spec_str_bytes(conf.color@)) {
                r matches RunPlan::Fail { message, code } && message@
                    == "Error: Invalid color format"@ && code == 1
            } else if use_stdin {
                r matches RunPlan::Stdin { ctx } && ctx_matches(ctx, *conf, term_size)
            } else if conf.files@.len() > 0 {
                r matches RunPlan::Files { ctx } && ctx_matches(ctx, *conf, term_size)
            } else {
                r matches RunPlan::Fail { message, code } && message@
                    == "Error: No input files provided and no data piped to stdin."@ && code == 1
            }
        }),
{
    if conf.remove {
        return RunPlan::Remove;
    }
    let use_stdin = is_input_available && !conf.tty;
    let many = conf.files.len() > 1 && !use_stdin;
    if conf.output.is_some() && many {
        return RunPlan::Fail {
            message: str_owned("Error: Cannot specify multiple files with --output"),
            code: 1,
        };
    }
    if conf.all && many {
        return RunPlan::Fail {
            message: str_owned("Error: Cannot specify multiple files with --all"),
            code: 1,
        };
    }
    let page_indices: Option<Vec<u16>> = if conf.all {
        None
    } else {
        match parse_pages(conf.pages.as_str()) {
            Ok(p) => {
                let is_default = match &p {
                    Some(v) => v.len() == 1 && v[0] == 0,
                    None => false,
                };
                proof {
                    let pb = spec_str_bytes(conf.pages@);
                    match &p {
                        Some(v) => {
                            if is_default {
                                assert(v@.contains(0u16)) by {
                                    assert(v@[0] == 0u16);
                                }
                                assert(pages_set(pb) =~= set![0u16]) by {
                                    assert forall|y: u16|
                                        pages_set(pb).contains(y) implies y == 0u16 by {
                                        assert(v@.contains(y));
                                        let idx = choose|idx: int|
                                            0 <= idx < v@.len() && v@[idx] == y;
                                        assert(idx == 0);
                                    }
                                }
                            } else if v@.len() > 1 {
                                assert(v@[0] < v@[1]);
                                assert(v@.contains(v@[0]) && v@.contains(v@[1]));
                                assert(!(pages_set(pb) =~= set![0u16]));
                            } else {
                                assert(v@.contains(v@[0]));
                                assert(v@[0] != 0u16);
                                assert(!(pages_set(pb) =~= set![0u16]));
                            }
                        },
                        None => {
                            assert(!(pages_set(pb) =~= set![0u16])) by {
                                assert(!pages_set(pb).contains(0u16));
                            }
                        },
                    }
                }
                if many && !is_default {
                    return RunPlan::Fail {
                        message: str_owned(
                            "Error: Cannot specify multiple files with non-default --pages option",
                        ),
                        code: 1,
                    };
                }
                p
            },
            Err(_) => {
                return RunPlan::Fail { message: str_owned("Error: Invalid page range"), code: 1 };
            },
        }
    };
    let background: Option<Rgba> = if conf.background {
        match parse_color(conf.color.as_str()) {
            Ok(c) => Some(c),
            Err(_) => {
                return RunPlan::Fail {
                    message: str_owned("Error: Invalid color format"),
                    code: 1,
                };
            },
        }
    } else {
        None
    };
    let resize_mode: ResizeMode = if conf.width.is_some() || conf.height.is_some() {
        ResizeMode::Manual { width: copy_opt_u32(&conf.width), height: copy_opt_u32(&conf.height) }
    } else if conf.fullwidth {
        ResizeMode::FitWidth
    } else if conf.fullheight {
        ResizeMode::FitHeight
    } else if conf.resize {
        ResizeMode::FitTerminal
    } else if conf.noresize {
        ResizeMode::Original
    } else {
        ResizeMode::ClipTerminal
    };
    let cache_mode: CacheMode = if conf.no_cache {
        CacheMode::Disabled
    } else {
        match &conf.cache_dir {
            Some(d) => CacheMode::Custom(d.clone()),
            None => CacheMode::Default,
        }
    };
    let ctx = RpixContext {
        input_type: conf.input,
        resize_mode,
        term_width: term_size.0,
        term_height: term_size.1,
        page_indices,
        cache_mode,
        background,
    };
    if use_stdin {
        RunPlan::Stdin { ctx }
    } else if conf.files.len() > 0 {
        RunPlan::Files { ctx }
    } else {
        RunPlan::Fail {
            message: str_owned("Error: No input files provided and no data piped to stdin."),
            code: 1,
        }
    }
}

/// An owned copy of a string literal.
fn str_owned(s: &str) -> (r: String)
    ensures
        r@ == s@,
{
    s.to_owned()
}

/// A copy of an optional integer.
fn copy_opt_u32(o: &Option<u32>) -> (r: Option<u32>)
    ensures
        r == *o,
{
    match o {
        Some(v) => Some(*v),
        None => None,
    }
}

} // verus!
