use mdv::cli::{plan_run, Action, Args, ArgsError, CliArg, Command, RunError};
use mdv::daemon::{
    DaemonLauncher, DaemonStopper, LaunchError, LaunchEvent, LaunchStep, ProcessInfo, StopError,
    StopEvent, StopStep,
};
use mdv::history::{add_history, HistoryEntry};
use mdv::html::{document_page, error_document, error_page, home_page, page};
use mdv::markdown::{
    anchor_headings, collect_headings, heading_id, headings_from_events, raw_html_as_text,
    lowercase_anchor_of, render_markdown, render_toc, Heading, MarkdownEvent,
};
use pulldown_cmark::{Event, HeadingLevel, Tag, TagEnd};
use mdv::paths::{
    check_viewable, components, config_dir, extension, image_content_type, history_path, is_markdown_path, path_file_name,
    paths_equal, pid_path, port_path, Component, ViewRefusal,
};
use mdv::server::{listening_message, route_request, Route};
use mdv::text::{decimal_string, parse_i32_chars, parse_u16_chars, trim_chars};
use mdv::url::{encode_path, file_url, home_url, path_href};

fn text_args(arguments: &[&str]) -> Vec<CliArg> {
    arguments.iter().map(|a| CliArg::Text(a.to_string())).collect()
}

fn run_args(arguments: &[&str]) -> Args {
    match Args::parse_from(text_args(arguments)).unwrap() {
        Command::Run(args) => args,
        other => panic!("unexpected {other:?}"),
    }
}

#[test]
fn defaults_without_arguments() {
    assert_eq!(run_args(&[]), Args { start: false, stop: false, port: 8088, file: None });
}

#[test]
fn later_port_overrides_earlier() {
    assert_eq!(run_args(&["-p", "1", "--port", "2", "--port=3"]).port, 3);
    assert_eq!(run_args(&["--port", "+65535"]).port, 65535);
}

#[test]
fn help_and_version_stop_reading() {
    assert_eq!(Args::parse_from(text_args(&["-h", "--unknown"])).unwrap(), Command::Help);
    assert_eq!(Args::parse_from(text_args(&["--version"])).unwrap(), Command::Version);
    assert_eq!(Args::parse_from(text_args(&["-V"])).unwrap(), Command::Version);
}

#[test]
fn double_dash_makes_options_files() {
    let args = run_args(&["--", "--start"]);
    assert!(!args.start);
    assert_eq!(args.file, Some(b"--start".to_vec()));
}

#[test]
fn raw_argument_is_a_file() {
    let args = Args::parse_from(vec![CliArg::Raw(vec![b'-', 0xff])]).unwrap();
    assert_eq!(args, Command::Run(Args { start: false, stop: false, port: 8088, file: Some(vec![b'-', 0xff]) }));
}

#[test]
fn argument_errors_and_messages() {
    let e = Args::parse_from(text_args(&["-p"])).unwrap_err();
    assert_eq!(e, ArgsError::MissingPortValue("-p".to_string()));
    assert_eq!(e.message(), "\"-p\" requires a port");
    let e = Args::parse_from(text_args(&["--port", "70000"])).unwrap_err();
    assert_eq!(e.message(), "invalid port: 70000");
    let e = Args::parse_from(text_args(&["--port=-1"])).unwrap_err();
    assert_eq!(e.message(), "invalid port: -1");
    let e = Args::parse_from(text_args(&["--port="])).unwrap_err();
    assert_eq!(e, ArgsError::InvalidPort(String::new()));
    let e = Args::parse_from(vec![CliArg::Text("-p".into()), CliArg::Raw(vec![0xff])]).unwrap_err();
    assert_eq!(e.message(), "invalid port: \u{fffd}");
    let e = Args::parse_from(text_args(&["-x"])).unwrap_err();
    assert_eq!(e.message(), "unknown option: -x");
    let e = Args::parse_from(text_args(&["a.md", "b.md"])).unwrap_err();
    assert_eq!(e.message(), "only one Markdown file can be specified");
}

#[test]
fn plans_each_kind_of_run() {
    let both = Args { start: true, stop: true, port: 1, file: None };
    assert_eq!(plan_run(&both, false), Err(RunError::StartWithStop));
    assert_eq!(RunError::StartWithStop.message(), "--start and --stop cannot be used together");
    let file_start = Args { start: true, stop: false, port: 1, file: Some(b"a.md".to_vec()) };
    assert_eq!(plan_run(&file_start, false), Err(RunError::FileWithDaemonOption));
    let plain = Args { start: false, stop: false, port: 7, file: None };
    assert_eq!(plan_run(&plain, true), Ok(Action::Serve(7)));
    assert_eq!(plan_run(&plain, false), Ok(Action::Home(7)));
    let stop = Args { start: false, stop: true, port: 7, file: None };
    assert_eq!(plan_run(&stop, false), Ok(Action::Stop));
    let start = Args { start: true, stop: false, port: 7, file: None };
    assert_eq!(plan_run(&start, false), Ok(Action::Start(7)));
    let open = Args { start: false, stop: false, port: 7, file: Some(b"a.md".to_vec()) };
    assert_eq!(plan_run(&open, false), Ok(Action::Open(7, b"a.md".to_vec())));
}

#[test]
fn numbers_parse_like_std() {
    assert_eq!(parse_u16_chars(&['0', '0', '8']), Some(8));
    assert_eq!(parse_u16_chars(&['6', '5', '5', '3', '6']), None);
    assert_eq!(parse_u16_chars(&['+']), None);
    assert_eq!(parse_u16_chars(&[]), None);
    assert_eq!(parse_i32_chars(&['-', '2', '1', '4', '7', '4', '8', '3', '6', '4', '8']), Some(i32::MIN));
    assert_eq!(parse_i32_chars(&['2', '1', '4', '7', '4', '8', '3', '6', '4', '8']), None);
    assert_eq!(parse_i32_chars(&['-']), None);
    assert_eq!(decimal_string(0), "0");
    assert_eq!(decimal_string(65535), "65535");
    assert_eq!(trim_chars(&[' ', '\u{3000}', 'a', ' ', 'b', '\n']), vec!['a', ' ', 'b']);
}

#[test]
fn path_components_follow_std() {
    assert_eq!(
        components(b"/a//b/./c/"),
        vec![
            Component::RootDir,
            Component::Normal(b"a".to_vec()),
            Component::Normal(b"b".to_vec()),
            Component::Normal(b"c".to_vec()),
        ]
    );
    assert_eq!(components(b"./a/.."), vec![Component::CurDir, Component::Normal(b"a".to_vec()), Component::ParentDir]);
    assert_eq!(components(b""), vec![]);
    assert!(paths_equal(b"/a//b/", b"/a/b"));
    assert!(!paths_equal(b"/a/b", b"a/b"));
    assert_eq!(path_file_name(b"/x/mdv"), Some(b"mdv".to_vec()));
    assert_eq!(path_file_name(b"/x/.."), None);
    assert_eq!(path_file_name(b"/"), None);
    assert_eq!(extension(b"/x/.bashrc"), None);
    assert_eq!(extension(b"/x/a.tar.gz"), Some(b"gz".to_vec()));
    assert_eq!(extension(b"/x/a."), Some(Vec::new()));
}

#[test]
fn configuration_paths() {
    assert_eq!(pid_path(b"/c/mdv"), b"/c/mdv/daemon.pid".to_vec());
    assert_eq!(port_path(b"/c/mdv/"), b"/c/mdv/daemon.port".to_vec());
    assert_eq!(history_path(b""), b"history.json".to_vec());
    assert_eq!(config_dir(Some(b"/xdg".to_vec()), Some(b"/home/u".to_vec())), Some(b"/xdg/mdv".to_vec()));
    assert_eq!(config_dir(None, Some(b"/home/u".to_vec())), Some(b"/home/u/.config/mdv".to_vec()));
    assert_eq!(config_dir(None, None), None);
}

#[test]
fn markdown_extensions_in_any_case() {
    assert!(is_markdown_path(b"/a/README.MD"));
    assert!(is_markdown_path(b"/a/notes.markdown"));
    assert!(is_markdown_path(b"/a/x.mdown"));
    assert!(!is_markdown_path(b"/a/x.txt"));
    assert!(!is_markdown_path(b"/a/md"));
}

#[test]
fn image_types_of_each_extension() {
    assert_eq!(image_content_type(b"/a/x.JFIF"), Some("image/jpeg"));
    assert_eq!(image_content_type(b"/a/x.gif"), Some("image/gif"));
    assert_eq!(image_content_type(b"/a/x.webp"), Some("image/webp"));
    assert_eq!(image_content_type(b"/a/x.avif"), Some("image/avif"));
    assert_eq!(image_content_type(b"/a/png"), None);
}

#[test]
fn history_keeps_thirty_distinct_files() {
    let mut entries: Vec<HistoryEntry> = Vec::new();
    for i in 0..40 {
        entries = add_history(&entries, format!("/f/{i}.md").as_bytes());
    }
    assert_eq!(entries.len(), 30);
    assert_eq!(entries[0].path, b"/f/39.md".to_vec());
    assert_eq!(entries[29].path, b"/f/10.md".to_vec());
    let again = add_history(&entries, b"/f//20.md");
    assert_eq!(again.len(), 30);
    assert_eq!(again[0].path, b"/f//20.md".to_vec());
    assert!(again[1..].iter().all(|e| e.path != b"/f/20.md".to_vec()));
    assert_eq!(add_history(&again, b"/f//20.md"), again);
}

#[test]
fn heading_ids_are_lowercase_and_dashed() {
    assert_eq!(heading_id("Hello, World!"), "hello-world");
    assert_eq!(heading_id("  a_b - c  "), "a_b---c");
    assert_eq!(heading_id("???"), "section");
    assert_eq!(heading_id("ÄÖ Ü"), "äö-ü");
}

#[test]
fn repeated_headings_get_numbered_ids() {
    let headings = collect_headings("# Intro\n\n## Intro\n\n# Intro\n\n#### Deep `code`");
    let ids: Vec<&str> = headings.iter().map(|h| h.id.as_str()).collect();
    assert_eq!(ids, vec!["intro", "intro-1", "intro-2", "deep-code"]);
    assert_eq!(headings[3].text, "Deep code");
    assert_eq!(headings[3].level, 4);
    let toc = render_toc(&headings);
    assert!(!toc.contains("toc-level-4"));
    assert!(toc.starts_with("<ul>") && toc.ends_with("</ul>"));
    assert!(toc.contains("<li class=\"toc-level-1\"><a href=\"#intro-2\">Intro</a></li>"));
}

#[test]
fn toc_without_listed_headings() {
    let deep = vec![Heading { level: 5, text: "x".into(), id: "x".into() }];
    assert_eq!(render_toc(&deep), "<p class=\"toc-empty\">No headings</p>");
    assert_eq!(render_toc(&[]), "<p class=\"toc-empty\">No headings</p>");
    let quoted = vec![Heading { level: 1, text: "<a>".into(), id: "a\"b".into() }];
    assert_eq!(
        render_toc(&quoted),
        "<ul><li class=\"toc-level-1\"><a href=\"#a&quot;b\">&lt;a&gt;</a></li></ul>"
    );
}

#[test]
fn urls_of_files_and_home() {
    assert_eq!(home_url(8088), "http://localhost:8088");
    assert_eq!(file_url(9000, b"/a/b c.md"), "http://localhost:9000/a/b%20c%2Emd");
    assert_eq!(file_url(1, &[b'/', 0xff]), "http://localhost:1/%EF%BF%BD");
    assert_eq!(path_href("///x"), "/x");
    assert_eq!(path_href("/"), "/");
    assert_eq!(encode_path("ü/"), "%C3%BC/");
    assert_eq!(listening_message(8088), "mdv daemon listening at http://localhost:8088");
}

#[test]
fn requests_route_to_files() {
    assert_eq!(
        route_request("Users/me/a%20b%2Emd"),
        Route::Document { path: b"/Users/me/a b.md".to_vec() }
    );
    assert_eq!(
        route_request("x/y.PNG"),
        Route::Image { path: b"/x/y.PNG".to_vec(), content_type: "image/png" }
    );
    assert_eq!(route_request("%FF"), Route::BadRequest);
    assert_eq!(route_request("%zz"), Route::Document { path: b"/%zz".to_vec() });
    let href = path_href("/tmp/ü x.md");
    assert_eq!(route_request(&href[1..]), Route::Document { path: "/tmp/ü x.md".as_bytes().to_vec() });
}

#[test]
fn pages_escape_titles_and_messages() {
    let p = page("a<b", "BODY");
    assert!(p.contains("<title>a&lt;b</title>"));
    assert!(p.ends_with("<body>BODY</body></html>"));
    let e = error_page(404, "no <file>");
    assert!(e.contains("<main><h1>404 Not Found</h1><p>no &lt;file&gt;</p></main>"));
    assert!(e.contains("<title>mdv error</title>"));
}

#[test]
fn home_page_lists_files_or_says_none() {
    let empty = home_page(&[], b"/c/mdv", 8088);
    assert!(empty.contains("<li class=\"empty\">No recently opened files yet.</li>"));
    assert!(empty.contains("<span>Data: /c/mdv</span><span>Bound to 127.0.0.1:8088</span>"));
    let listed = home_page(&[b"/d/a b.md".to_vec()], b"/c", 1);
    assert!(listed.contains(
        "<li><a href=\"/d/a%20b%2Emd\"><strong>a b.md</strong><small>/d/a b.md</small></a></li>"
    ));
    assert!(listed.contains("<title>mdv — Local Markdown Viewer</title>"));
}

#[test]
fn document_page_shows_path_and_contents() {
    let d = document_page(b"/d/x&y.md", "# T\n\ntext");
    assert!(d.contains("<title>x&amp;y.md</title>"));
    assert!(d.contains("title=\"/d/x&amp;y.md\">/d/x&amp;y.md</span>"));
    assert!(d.contains("<div class=\"toctitle\">Contents</div><ul><li class=\"toc-level-1\"><a href=\"#t\">T</a></li></ul></nav>"));
    assert!(d.contains("<h1 id=\"t\">T</h1>"));
}

#[test]
fn launcher_reuses_a_running_daemon() {
    let (mut l, step) = DaemonLauncher::new(8088);
    assert_eq!(step, LaunchStep::Probe(8088));
    assert_eq!(l.step(&LaunchEvent::Answered(true)), LaunchStep::Finish(Ok(())));
}

#[test]
fn launcher_refuses_when_another_port_answers() {
    let (mut l, _) = DaemonLauncher::new(8088);
    assert_eq!(l.step(&LaunchEvent::Answered(false)), LaunchStep::ReadRecordedPort);
    assert_eq!(l.step(&LaunchEvent::RecordedPort(Some(" 9000\n".into()))), LaunchStep::Probe(9000));
    let done = l.step(&LaunchEvent::Answered(true));
    assert_eq!(done, LaunchStep::Finish(Err(LaunchError::AlreadyRunning(9000))));
    assert_eq!(
        LaunchError::AlreadyRunning(9000).message(),
        Some("mdv daemon is already running on port 9000".to_string())
    );
}

#[test]
fn launcher_spawns_and_gives_up_after_thirty_probes() {
    let (mut l, _) = DaemonLauncher::new(1);
    l.step(&LaunchEvent::Answered(false));
    assert_eq!(l.step(&LaunchEvent::RecordedPort(Some("junk".into()))), LaunchStep::Spawn(1));
    assert_eq!(l.step(&LaunchEvent::Spawned(true)), LaunchStep::WaitThenProbe(1));
    let mut waits = 1;
    loop {
        match l.step(&LaunchEvent::Answered(false)) {
            LaunchStep::WaitThenProbe(1) => waits += 1,
            LaunchStep::Finish(r) => {
                assert_eq!(r, Err(LaunchError::TimedOut));
                break;
            }
            other => panic!("unexpected {other:?}"),
        }
    }
    assert_eq!(waits, 30);
    assert_eq!(LaunchError::TimedOut.message(), Some("daemon did not start".to_string()));
    let (mut l, _) = DaemonLauncher::new(1);
    l.step(&LaunchEvent::Answered(false));
    l.step(&LaunchEvent::RecordedPort(None));
    assert_eq!(l.step(&LaunchEvent::Spawned(false)), LaunchStep::Finish(Err(LaunchError::SpawnFailed)));
}

#[test]
fn stopper_signals_a_running_mdv() {
    let (mut s, step) = DaemonStopper::new();
    assert_eq!(step, StopStep::ReadPidFile);
    assert_eq!(s.step(&StopEvent::PidFile(Some("4242\n".into()))), StopStep::QueryProcess(4242));
    let info = ProcessInfo { success: true, output: b"/usr/local/bin/mdv\n".to_vec() };
    assert_eq!(s.step(&StopEvent::Process(Some(info))), StopStep::Signal(4242));
    assert_eq!(s.step(&StopEvent::Signalled { sent: false, no_such_process: true }), StopStep::RemoveFiles);
    assert_eq!(s.step(&StopEvent::Removed), StopStep::Finish(Ok(())));
}

#[test]
fn stopper_refuses_bad_pids_and_other_processes() {
    let (mut s, _) = DaemonStopper::new();
    assert_eq!(s.step(&StopEvent::PidFile(Some("1".into()))), StopStep::Finish(Err(StopError::RefusedPid)));
    assert_eq!(StopError::RefusedPid.message(), Some("refusing invalid daemon PID".to_string()));
    let (mut s, _) = DaemonStopper::new();
    assert_eq!(s.step(&StopEvent::PidFile(Some("pid".into()))), StopStep::Finish(Err(StopError::InvalidPid)));
    assert_eq!(StopError::InvalidPid.message(), Some("invalid daemon PID".to_string()));
    let (mut s, _) = DaemonStopper::new();
    s.step(&StopEvent::PidFile(Some("77".into())));
    let info = ProcessInfo { success: true, output: b"bash\n".to_vec() };
    assert_eq!(s.step(&StopEvent::Process(Some(info))), StopStep::Finish(Err(StopError::NotRunning)));
    assert_eq!(
        StopError::NotRunning.message(),
        Some("stale daemon PID file; no mdv process found".to_string())
    );
    let (mut s, _) = DaemonStopper::new();
    s.step(&StopEvent::PidFile(Some("77".into())));
    s.step(&StopEvent::Process(Some(ProcessInfo { success: true, output: b"mdv".to_vec() })));
    assert_eq!(
        s.step(&StopEvent::Signalled { sent: false, no_such_process: false }),
        StopStep::Finish(Err(StopError::SignalFailed))
    );
    let (mut s, _) = DaemonStopper::new();
    assert_eq!(s.step(&StopEvent::PidFile(None)), StopStep::Finish(Err(StopError::PidFileUnreadable)));
}

#[test]
fn anchors_go_to_the_first_plain_heading_tags() {
    let headings = vec![
        Heading { level: 2, text: "A".into(), id: "a".into() },
        Heading { level: 2, text: "B".into(), id: "b\"".into() },
        Heading { level: 3, text: "C".into(), id: "c".into() },
    ];
    let html = anchor_headings("<h2>A</h2><h2>B</h2><h1>X</h1>", &headings);
    assert_eq!(html, "<h2 id=\"a\">A</h2><h2 id=\"b&quot;\">B</h2><h1>X</h1>");
}

#[test]
fn error_document_shows_status_and_escaped_message() {
    let page = error_document("418 I'm a teapot", "a & b");
    assert!(page.contains("<main><h1>418 I'm a teapot</h1><p>a &amp; b</p></main>"));
}

fn heading_start(level: HeadingLevel) -> MarkdownEvent {
    MarkdownEvent::HeadingStart(
        level as u8,
        Event::Start(Tag::Heading { level, id: None, classes: Vec::new(), attrs: Vec::new() }),
    )
}

fn heading_end(level: HeadingLevel) -> MarkdownEvent {
    MarkdownEvent::HeadingEnd(Event::End(TagEnd::Heading(level)))
}

#[test]
fn headings_are_read_from_events() {
    let events = vec![
        MarkdownEvent::Text("outside".into()),
        heading_start(HeadingLevel::H1),
        MarkdownEvent::Text("A ".into()),
        MarkdownEvent::InlineHtml("<b>".into()),
        MarkdownEvent::Code("b".into()),
        MarkdownEvent::Other(Event::SoftBreak),
        heading_end(HeadingLevel::H1),
        heading_end(HeadingLevel::H1),
        heading_start(HeadingLevel::H6),
        MarkdownEvent::Text("a-b".into()),
        heading_end(HeadingLevel::H6),
        heading_start(HeadingLevel::H2),
    ];
    let headings = headings_from_events(&events);
    assert_eq!(
        headings,
        vec![
            Heading { level: 1, text: "A b".into(), id: "a-b".into() },
            Heading { level: 6, text: "a-b".into(), id: "a-b-1".into() },
        ]
    );
}

#[test]
fn raw_html_events_become_text() {
    let events = vec![
        MarkdownEvent::Html("<div>\n".into()),
        MarkdownEvent::InlineHtml("<b>".into()),
        MarkdownEvent::Code("<i>".into()),
        MarkdownEvent::Other(Event::HardBreak),
    ];
    assert_eq!(
        raw_html_as_text(events),
        vec![
            MarkdownEvent::Text("<div>\n".into()),
            MarkdownEvent::Text("<b>".into()),
            MarkdownEvent::Code("<i>".into()),
            MarkdownEvent::Other(Event::HardBreak),
        ]
    );
}

#[test]
fn heading_levels_are_read_from_the_document() {
    let levels: Vec<u8> = collect_headings("# a\n## b\n### c\n#### d\n##### e\n###### f")
        .iter()
        .map(|h| h.level)
        .collect();
    assert_eq!(levels, vec![1, 2, 3, 4, 5, 6]);
    let (body, _) = render_markdown("# T <b>x</b>\n");
    assert!(body.contains("<h1 id=\"t-x\">T &lt;b&gt;x&lt;/b&gt;</h1>"));
}

#[test]
fn unknown_option_refuses_whatever_follows() {
    for rest in [&[][..], &["--help"][..], &["a.md", "--version"][..], &["--", "x"][..]] {
        let mut arguments = vec!["--start", "-p", "9000", "--bogus"];
        arguments.extend_from_slice(rest);
        let e = Args::parse_from(text_args(&arguments)).unwrap_err();
        assert_eq!(e, ArgsError::UnknownOption("--bogus".to_string()));
    }
}

#[test]
fn second_file_refused_whatever_follows() {
    for rest in [&[][..], &["--help"][..], &["-x"][..]] {
        let mut arguments = vec!["a.md", "--port=1", "b.md"];
        arguments.extend_from_slice(rest);
        assert_eq!(Args::parse_from(text_args(&arguments)).unwrap_err(), ArgsError::MultipleFiles);
        let mut after_dashes = vec!["--", "a.md", "--help"];
        after_dashes.extend_from_slice(rest);
        assert_eq!(Args::parse_from(text_args(&after_dashes)).unwrap_err(), ArgsError::MultipleFiles);
    }
    let raw = vec![CliArg::Text("a.md".into()), CliArg::Raw(vec![b'-', 0xff]), CliArg::Text("-h".into())];
    assert_eq!(Args::parse_from(raw).unwrap_err(), ArgsError::MultipleFiles);
}

#[test]
fn links_hold_only_safe_characters() {
    for path in ["a b/ü.md", "/x/../y?z#w", "", "///"] {
        let href = path_href(path);
        assert!(href.starts_with('/') && !href.starts_with("//"));
        assert!(href.chars().all(|c| c.is_ascii_alphanumeric() || c == '/' || c == '%'));
        assert_eq!(path_href(&format!("/{path}")), href);
    }
}

#[test]
fn configuration_files_differ_in_one_directory() {
    let dir = b"/home/u/.config/mdv";
    let files = [pid_path(dir), port_path(dir), history_path(dir)];
    assert_ne!(files[0], files[1]);
    assert_ne!(files[1], files[2]);
    assert_ne!(files[0], files[2]);
    for f in files {
        assert!(f.starts_with(b"/home/u/.config/mdv/"));
        assert!(!f[dir.len() + 1..].contains(&b'/'));
    }
}

#[test]
fn heading_ids_are_fixed_points() {
    for text in ["Hello, World!", "  a_b - c  ", "???", "Über Straße 2", "x--y"] {
        let id = heading_id(text);
        assert_eq!(heading_id(&id), id);
    }
}

#[test]
fn anchors_of_lowercased_text() {
    assert_eq!(lowercase_anchor_of("design"), "design");
    assert_eq!(lowercase_anchor_of("design notes: v2"), "design-notes-v2");
    assert_eq!(lowercase_anchor_of("  -_- "), "-_-");
    assert_eq!(lowercase_anchor_of("!?"), "section");
    assert_eq!(lowercase_anchor_of("über"), "über");
    assert_eq!(heading_id("Design"), lowercase_anchor_of("design"));
}

#[test]
fn only_markdown_files_are_viewable() {
    assert_eq!(check_viewable(b"/a/notes.MD", true), Ok(()));
    assert_eq!(check_viewable(b"/a/notes.md", false), Err(ViewRefusal::NotAFile));
    assert_eq!(check_viewable(b"/a/notes.txt", true), Err(ViewRefusal::NotMarkdown));
    assert_eq!(ViewRefusal::NotAFile.message(), "not a file");
    assert_eq!(ViewRefusal::NotMarkdown.message(), "only Markdown files can be viewed");
}

#[test]
fn stopper_removes_files_only_after_the_checks() {
    let (mut stopper, first) = DaemonStopper::new();
    assert_eq!(first, StopStep::ReadPidFile);
    assert_eq!(stopper.step(&StopEvent::Removed), StopStep::ReadPidFile);
    assert_eq!(stopper.step(&StopEvent::Signalled { sent: true, no_such_process: false }), StopStep::ReadPidFile);
    assert_eq!(stopper.step(&StopEvent::PidFile(Some(" 42\n".to_string()))), StopStep::QueryProcess(42));
    assert_eq!(stopper.step(&StopEvent::Removed), StopStep::QueryProcess(42));
    let ps = ProcessInfo { success: true, output: b"/usr/bin/mdv\n".to_vec() };
    assert_eq!(stopper.step(&StopEvent::Process(Some(ps))), StopStep::Signal(42));
    assert_eq!(stopper.step(&StopEvent::Removed), StopStep::Signal(42));
    assert_eq!(stopper.step(&StopEvent::Signalled { sent: false, no_such_process: true }), StopStep::RemoveFiles);
    assert_eq!(stopper.step(&StopEvent::Removed), StopStep::Finish(Ok(())));
}
