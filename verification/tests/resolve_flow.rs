use kv::config::get_config_path;
use kv::office::{office_cache_key, office_conversion_plan, office_file_names};
use kv::plugin::{plan_plugin_command, plugin_outcome, Plugin, PluginConfig};
use kv::resolve::{
    has_extension_or_magic_bytes, html_url, is_html, is_url, is_url_str, resolve,
    route_plugin_output, RenderJob, RenderStep,
};
use kv::run::{plan_run, RunOptions, RunPlan};
use kv::send::Mode;
use kv::{CacheMode, InputType, KvError, ResizeMode, RpixContext};

fn auto_ctx() -> RpixContext {
    RpixContext {
        input_type: InputType::Auto,
        resize_mode: ResizeMode::ClipTerminal,
        term_width: 100,
        term_height: 50,
        page_indices: None,
        cache_mode: CacheMode::Default,
        background: None,
    }
}

fn empty_registry() -> PluginConfig {
    PluginConfig { plugins: Vec::new() }
}

fn plugin(command: &str) -> Plugin {
    Plugin {
        extensions: vec!["xyz".to_string()],
        magic_bytes: None,
        output: InputType::Svg,
        path: command.to_string(),
        placeholder: None,
        output_placeholder: None,
    }
}

fn default_conf() -> RunOptions {
    RunOptions {
        files: vec![],
        width: None,
        height: None,
        fullwidth: false,
        fullheight: false,
        resize: false,
        noresize: false,
        background: false,
        color: "#FFFFFF".to_string(),
        mode: Mode::Png,
        output: None,
        overwrite: false,
        input: InputType::Auto,
        pages: "1".to_string(),
        all: false,
        language: None,
        no_newline: false,
        no_cache: false,
        cache_dir: None,
        printname: true,
        tty: false,
        remove: false,
    }
}

#[test]
fn test_is_url() {
    assert!(is_url(b"http://example.org"));
    assert!(is_url(b"https://example.org"));
    assert!(is_url(b"file:///tmp/x"));
    assert!(!is_url(b"ftp://example.org"));
    assert!(is_url_str("https://example.org"));
    assert!(!is_url_str("example.org"));
}

#[test]
fn test_is_html() {
    let ctx = auto_ctx();
    assert!(is_html(&ctx, "html", b"whatever"));
    assert!(is_html(&ctx, "htm", b"whatever"));
    assert!(is_html(&ctx, "", b"http://example.org"));
    assert!(!is_html(&ctx, "txt", b"plain"));
    let mut forced = auto_ctx();
    forced.input_type = InputType::Html;
    assert!(is_html(&forced, "txt", b"plain"));
}

#[test]
fn test_has_extension_or_magic_bytes() {
    let magic = vec!["89504E47".to_string()];
    let exts = vec!["png".to_string()];
    // the PNG signature decodes from hex and matches the data prefix
    assert!(has_extension_or_magic_bytes(b"\x89PNG\r\n\x1a\n", "", &magic, &exts));
    // extension match alone
    assert!(has_extension_or_magic_bytes(b"not png", "png", &magic, &exts));
    // neither
    assert!(!has_extension_or_magic_bytes(b"not png", "jpg", &magic, &exts));
    // an invalid hex signature is skipped
    assert!(!has_extension_or_magic_bytes(b"zz", "jpg", &vec!["zz".to_string()], &exts));
}

#[test]
fn test_resolve_text_always_data() {
    let mut ctx = auto_ctx();
    ctx.input_type = InputType::Text;
    let reg = empty_registry();
    // forced text returns the bytes verbatim, whatever they hold
    for data in [&b""[..], b"%PDF-1.4", b"<svg/>", b"\xff\xfe\x00garbage"] {
        match resolve(&ctx, &reg, data, "png", 2).unwrap() {
            RenderStep::Data(v) => assert_eq!(v, data.to_vec()),
            _ => panic!("forced text must resolve to Data"),
        }
    }
}

#[test]
fn test_resolve_pdf_magic() {
    let ctx = auto_ctx();
    let reg = empty_registry();
    match resolve(&ctx, &reg, b"%PDF-1.4\ninvalid", "", 2).unwrap() {
        RenderStep::External(RenderJob::Pdf(v)) => assert_eq!(v, b"%PDF-1.4\ninvalid".to_vec()),
        _ => panic!("a %PDF prefix must take the PDF path"),
    }
}

#[test]
fn test_resolve_svg_and_html_signatures() {
    let ctx = auto_ctx();
    let reg = empty_registry();
    assert!(matches!(
        resolve(&ctx, &reg, b"<svg width='1'/>", "", 2).unwrap(),
        RenderStep::External(RenderJob::Svg(_))
    ));
    assert!(matches!(
        resolve(&ctx, &reg, b"<?xml version='1.0'?>", "", 2).unwrap(),
        RenderStep::External(RenderJob::Svg(_))
    ));
    assert!(matches!(
        resolve(&ctx, &reg, b"ordinary", "svg", 2).unwrap(),
        RenderStep::External(RenderJob::Svg(_))
    ));
    assert!(matches!(
        resolve(&ctx, &reg, b"<!DOCTYPE html><body/>", "", 2).unwrap(),
        RenderStep::External(RenderJob::Html(_))
    ));
    assert!(matches!(
        resolve(&ctx, &reg, b"https://example.org", "", 2).unwrap(),
        RenderStep::External(RenderJob::Html(_))
    ));
    assert!(matches!(
        resolve(&ctx, &reg, b"bytes", "docx", 2).unwrap(),
        RenderStep::External(RenderJob::Office(_, _))
    ));
}

#[test]
fn test_resolve_plugin_first_match_wins() {
    let ctx = auto_ctx();
    let mut first = plugin("first-converter");
    first.extensions = vec!["xyz".to_string()];
    let mut second = plugin("second-converter");
    second.extensions = vec!["xyz".to_string()];
    let reg = PluginConfig {
        plugins: vec![("a".to_string(), first), ("b".to_string(), second)],
    };
    match resolve(&ctx, &reg, b"payload", "xyz", 2).unwrap() {
        RenderStep::External(RenderJob::Plugin(i, v)) => {
            assert_eq!(i, 0);
            assert_eq!(v, b"payload".to_vec());
        },
        _ => panic!("a registered extension must dispatch to its plugin"),
    }
}

#[test]
fn test_resolve_auto_decodes_png_round_trip() {
    // a PNG produced by the encoder decodes back to the same pixels
    let img = kv::bitmap::Bitmap { width: 1, height: 1, data: vec![1, 2, 3, 4] };
    let png = kv::send::send_image(&img, true, &Mode::Png).unwrap();
    let ctx = auto_ctx();
    let reg = empty_registry();
    match resolve(&ctx, &reg, &png, "", 2).unwrap() {
        RenderStep::Image(b) => {
            assert_eq!((b.width, b.height), (1, 1));
            assert_eq!(b.data, vec![1, 2, 3, 4]);
        },
        _ => panic!("valid PNG bytes must decode on the auto path"),
    }
}

#[test]
fn test_resolve_auto_fallbacks() {
    let ctx = auto_ctx();
    let reg = empty_registry();
    // multi-line text is data to highlight
    match resolve(&ctx, &reg, b"first line\nsecond line", "", 2).unwrap() {
        RenderStep::Data(v) => assert_eq!(v, b"first line\nsecond line".to_vec()),
        _ => panic!("text with a newline must become Data"),
    }
    // a one-line name of no existing file is data too
    match resolve(&ctx, &reg, b"no-such-file-anywhere", "", 2).unwrap() {
        RenderStep::Data(v) => assert_eq!(v, b"no-such-file-anywhere".to_vec()),
        _ => panic!("a dangling name must become Data"),
    }
    // invalid UTF-8 garbage is a decode error
    assert_eq!(
        resolve(&ctx, &reg, b"\x76\xcf\x00\x01", "", 2).unwrap_err(),
        KvError::DecodeError
    );
    // truly empty input, or whitespace alone, is a decode error
    assert_eq!(resolve(&ctx, &reg, b"", "", 2).unwrap_err(), KvError::DecodeError);
    assert_eq!(resolve(&ctx, &reg, b"  \n\t ", "", 2).unwrap_err(), KvError::DecodeError);
    // a spent redirect budget turns a one-line candidate into a decode error
    assert_eq!(
        resolve(&ctx, &reg, b"no-such-file-anywhere", "", 0).unwrap_err(),
        KvError::DecodeError
    );
}

#[test]
fn test_resolve_redirects_to_existing_file() {
    let mut file = tempfile::NamedTempFile::new().unwrap();
    std::io::Write::write_all(&mut file, b"hello").unwrap();
    let name = file.path().to_str().unwrap().to_string();
    let ctx = auto_ctx();
    let reg = empty_registry();
    let padded = format!("  {name}\n");
    match resolve(&ctx, &reg, padded.as_bytes(), "", 2).unwrap() {
        RenderStep::PathRedirect(p) => assert_eq!(p, name),
        _ => panic!("a one-line name of an existing file must redirect"),
    }
}

#[test]
fn test_route_plugin_output() {
    assert!(matches!(
        route_plugin_output(&InputType::Svg, b"<svg/>".to_vec()).unwrap(),
        RenderStep::External(RenderJob::Svg(_))
    ));
    assert!(matches!(
        route_plugin_output(&InputType::Pdf, b"%PDF".to_vec()).unwrap(),
        RenderStep::External(RenderJob::Pdf(_))
    ));
    assert!(matches!(
        route_plugin_output(&InputType::Html, b"<html>".to_vec()).unwrap(),
        RenderStep::External(RenderJob::Html(_))
    ));
    assert_eq!(
        route_plugin_output(&InputType::Image, b"not an image".to_vec()).unwrap_err(),
        KvError::DecodeError
    );
}

#[test]
fn test_plugin_outcome() {
    assert_eq!(
        plugin_outcome(false, Some(3), b"x".to_vec()).unwrap_err(),
        KvError::PluginExecutionError { exit_code: Some(3) }
    );
    assert_eq!(
        plugin_outcome(true, Some(0), Vec::new()).unwrap_err(),
        KvError::PluginExecutionError { exit_code: None }
    );
    assert_eq!(plugin_outcome(true, Some(0), b"ok".to_vec()).unwrap(), b"ok".to_vec());
}

#[test]
fn test_plan_plugin_command_substitution() {
    let mut p = plugin("convert -i {} -o {{}}");
    p.placeholder = Some("{}".to_string());
    p.output_placeholder = Some("{{}}".to_string());
    let inv = plan_plugin_command(&p, "/tmp/in", "/tmp/out").unwrap();
    assert_eq!(inv.program, "convert");
    assert_eq!(
        inv.args,
        vec![b"-i".to_vec(), b"/tmp/in".to_vec(), b"-o".to_vec(), b"/tmp/out".to_vec()]
    );
    assert!(!inv.pipe_stdin);
    assert!(inv.output_to_file);
}

#[test]
fn test_plan_plugin_command_longest_token_first() {
    // "{{}}" is substituted before "{}", so the longer token is never
    // partially matched by the shorter one
    let mut p = plugin("tool {{}}x{}");
    p.placeholder = Some("{}".to_string());
    p.output_placeholder = Some("{{}}".to_string());
    let inv = plan_plugin_command(&p, "IN", "OUT").unwrap();
    assert_eq!(inv.args, vec![b"OUTxIN".to_vec()]);
}

#[test]
fn test_plan_plugin_command_stdin_stdout() {
    let p = plugin("wc -c");
    let inv = plan_plugin_command(&p, "/tmp/in", "/tmp/out").unwrap();
    assert_eq!(inv.program, "wc");
    assert_eq!(inv.args, vec![b"-c".to_vec()]);
    assert!(inv.pipe_stdin);
    assert!(!inv.output_to_file);
}

#[test]
fn test_plan_plugin_command_rejections() {
    // empty command
    assert_eq!(
        plan_plugin_command(&plugin(""), "i", "o").unwrap_err(),
        KvError::PluginConfigError
    );
    // unsplittable command (unclosed quote)
    assert_eq!(
        plan_plugin_command(&plugin("tool 'oops"), "i", "o").unwrap_err(),
        KvError::PluginConfigError
    );
    // identical placeholders
    let mut same = plugin("tool {}");
    same.placeholder = Some("{}".to_string());
    same.output_placeholder = Some("{}".to_string());
    assert_eq!(plan_plugin_command(&same, "i", "o").unwrap_err(), KvError::PluginConfigError);
    // configured placeholder missing from every argument
    let mut missing = plugin("tool -v");
    missing.placeholder = Some("{}".to_string());
    assert_eq!(plan_plugin_command(&missing, "i", "o").unwrap_err(), KvError::PluginConfigError);
}

#[test]
fn test_office_cache_key() {
    // the SHA-256 of "hello", in lowercase hex
    assert_eq!(
        office_cache_key(b"hello"),
        "2cf24dba5fb0a30e26e83b2ac5b9e29e1b161e5c1fa7425e73043362938b9824"
    );
    // equal bytes, equal keys; different bytes, different keys
    assert_eq!(office_cache_key(b"doc"), office_cache_key(b"doc"));
    assert_ne!(office_cache_key(b"doc"), office_cache_key(b"doc2"));
}

#[test]
fn test_office_file_names() {
    let (pdf, src) = office_file_names("abc123", "docx");
    assert_eq!(pdf, "abc123.pdf");
    assert_eq!(src, "abc123.docx");
}

#[test]
fn test_office_conversion_plan() {
    // a cached PDF under a persistent mode skips the converter
    let hit = office_conversion_plan(&CacheMode::Default, true);
    assert!(hit.persistent && hit.use_cached);
    let miss = office_conversion_plan(&CacheMode::Custom("/tmp/c".to_string()), false);
    assert!(miss.persistent && !miss.use_cached);
    // with caching disabled nothing is reused
    let off = office_conversion_plan(&CacheMode::Disabled, true);
    assert!(!off.persistent && !off.use_cached);
}

#[test]
fn test_get_config_path() {
    assert_eq!(get_config_path("/home/u/.config/kv"), "/home/u/.config/kv/plugins.toml");
}

#[test]
fn test_no_input() {
    let conf = default_conf();
    match plan_run(&conf, (800, 400), false) {
        RunPlan::Fail { message, code } => {
            assert_eq!(message, "Error: No input files provided and no data piped to stdin.");
            assert_eq!(code, 1);
        },
        _ => panic!("no files and no piped input must fail"),
    }
}

#[test]
fn test_plan_run_remove() {
    let mut conf = default_conf();
    conf.remove = true;
    assert!(matches!(plan_run(&conf, (800, 400), true), RunPlan::Remove));
}

#[test]
fn test_plan_run_page_errors() {
    for pages in ["0", "-1"] {
        let mut conf = default_conf();
        conf.pages = pages.to_string();
        match plan_run(&conf, (800, 400), false) {
            RunPlan::Fail { message, code } => {
                assert_eq!(message, "Error: Invalid page range");
                assert_eq!(code, 1);
            },
            _ => panic!("an invalid page selection must fail"),
        }
    }
}

#[test]
fn test_plan_run_multiple_files_with_pages() {
    let mut conf = default_conf();
    conf.files = vec!["a.pdf".to_string(), "b.png".to_string()];
    conf.pages = "2".to_string();
    match plan_run(&conf, (800, 400), false) {
        RunPlan::Fail { message, code } => {
            assert_eq!(
                message,
                "Error: Cannot specify multiple files with non-default --pages option"
            );
            assert_eq!(code, 1);
        },
        _ => panic!("several files with a non-default page selection must fail"),
    }
    // the default selection is fine
    let mut ok = default_conf();
    ok.files = vec!["a.png".to_string(), "b.png".to_string()];
    assert!(matches!(plan_run(&ok, (800, 400), false), RunPlan::Files { .. }));
}

#[test]
fn test_plan_run_stdin_context() {
    let mut conf = default_conf();
    conf.resize = true;
    conf.background = true;
    conf.color = "#102030".to_string();
    match plan_run(&conf, (800, 400), true) {
        RunPlan::Stdin { ctx } => {
            assert_eq!(ctx.resize_mode, ResizeMode::FitTerminal);
            assert_eq!((ctx.term_width, ctx.term_height), (800, 400));
            assert_eq!(ctx.page_indices, Some(vec![0]));
            let c = ctx.background.unwrap();
            assert_eq!((c.r, c.g, c.b, c.a), (0x10, 0x20, 0x30, 255));
        },
        _ => panic!("piped input must be read from stdin"),
    }
}

#[test]
fn test_plan_run_tty_ignores_stdin() {
    let mut conf = default_conf();
    conf.tty = true;
    conf.files = vec!["a.png".to_string()];
    assert!(matches!(plan_run(&conf, (800, 400), true), RunPlan::Files { .. }));
}

#[test]
fn test_html_url() {
    // URL-shaped text travels as it stands
    assert_eq!(
        html_url(b"https://example.org", None).unwrap(),
        b"https://example.org".to_vec()
    );
    // an existing file is loaded by its canonical file:// form
    assert_eq!(
        html_url(b"page.html", Some("/abs/page.html")).unwrap(),
        b"file:///abs/page.html".to_vec()
    );
    // anything else rides as a base64 data URI
    assert_eq!(
        html_url(b"<p>hello</p>", None).unwrap(),
        b"data:text/html;base64,PHA+aGVsbG88L3A+".to_vec()
    );
    // bytes that are not UTF-8 are a parse error
    assert_eq!(html_url(b"\xff\xfe", None).unwrap_err(), KvError::ParseError);
}
