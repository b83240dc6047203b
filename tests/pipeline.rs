use pidcat::adb::{parse_device_line, parse_process_line, process_owners, split_packages, visible_packages};
use pidcat::{
    splice_gc, splice_strict_mode, apply_message_rules, get_active_codes_at_pos, get_adb_command, get_ansi_segments, get_dead_process,
    get_started_process, get_wrapped_indent, insert_ansi_codes_in_range, is_matching_package,
    is_matching_tag, is_native_tags_line, parse_log_line, wrap_text, AdbState, CliArgs, Color,
    ColorTable, LogLevel, ProcessTracker, Sink, State, TagFilter,
};

fn args() -> CliArgs {
    CliArgs {
        packages: vec![],
        adb_path: None,
        use_device: false,
        use_emulator: false,
        device_serial: None,
        all: true,
        keep_logcat: false,
        current_app: false,
        ignore_system_tags: false,
        tag: None,
        ignore_tag: None,
        log_level: LogLevel::VERBOSE,
        regex: None,
        show_pid: false,
        show_package: false,
        always_show_tags: false,
        pid_width: 5,
        package_width: 20,
        tag_width: 0,
        gc_color: false,
        no_color: true,
        output_path: None,
    }
}

fn palette() -> Vec<Color> {
    vec![
        Color::BrightRed,
        Color::BrightBlue,
        Color::BrightCyan,
        Color::BrightGreen,
        Color::BrightYellow,
        Color::BrightMagenta,
    ]
}

fn state(owners: Vec<(String, String)>, catchall: Vec<String>) -> State {
    State {
        tracker: ProcessTracker::new(owners, vec![], catchall),
        last_tag: None,
        log_level: LogLevel::VERBOSE,
        colors: ColorTable::new(palette(), vec![("ActivityManager".to_string(), Color::White)]),
        ignore_filter: TagFilter::new(None),
        tag_filter: TagFilter::new(None),
    }
}

fn plain_sink() -> Vec<Sink> {
    vec![Sink { width: -1, show_colors: true }]
}

#[test]
fn segments_record_codes_and_offsets() {
    let segs = get_ansi_segments("\x1b[31mab\x1b[0mc");
    assert_eq!(segs.len(), 2);
    assert_eq!(segs[0].code, "\x1b[31m");
    assert_eq!(segs[0].visible_pos, 0);
    assert_eq!(segs[1].code, "\x1b[0m");
    assert_eq!(segs[1].visible_pos, 2);
}

#[test]
fn segments_of_plain_text_are_empty() {
    assert!(get_ansi_segments("plain text").is_empty());
}

#[test]
fn active_code_is_latest_until_reset() {
    let segs = get_ansi_segments("\x1b[31ma\x1b[1mb\x1b[0mcd");
    assert_eq!(get_active_codes_at_pos(&segs, 0), Vec::<String>::new());
    assert_eq!(get_active_codes_at_pos(&segs, 1), vec!["\x1b[31m".to_string()]);
    assert_eq!(get_active_codes_at_pos(&segs, 2), vec!["\x1b[1m".to_string()]);
    assert_eq!(get_active_codes_at_pos(&segs, 3), Vec::<String>::new());
}

#[test]
fn codes_go_back_in_place() {
    let segs = get_ansi_segments("ab\x1b[32mcd\x1b[0mef");
    let r = insert_ansi_codes_in_range("cd", &segs, 2, 4, &["\x1b[1m".to_string()]);
    assert_eq!(r, "\x1b[1m\x1b[32mcd");
    let r = insert_ansi_codes_in_range("ef", &segs, 4, 6, &[]);
    assert_eq!(r, "\x1b[0mef");
}

#[test]
fn wrap_splits_plain_text_into_chunks() {
    let r = wrap_text("abcdefg", 3, "|M|", "|L|");
    assert_eq!(r, "abc\x1b[0m|M|def\x1b[0m|L|g\x1b[0m");
}

#[test]
fn wrap_leaves_fitting_text_alone() {
    assert_eq!(wrap_text("\x1b[31mabc\x1b[0m", 3, "|M|", "|L|"), "\x1b[31mabc\x1b[0m");
    assert_eq!(wrap_text("abcdef", 0, "|M|", "|L|"), "abcdef");
}

#[test]
fn wrap_carries_color_across_break() {
    let r = wrap_text("\x1b[31mabcd", 2, "|M|", "|L|");
    assert_eq!(r, "\x1b[31mab\x1b[0m|L|\x1b[31mcd\x1b[0m");
}

#[test]
fn wrapped_indent_unbounded_width_is_identity() {
    let m = "a\tb \x1b[31mred\x1b[0m";
    assert_eq!(get_wrapped_indent(m, true, -1, 10, Color::Black, Color::BrightGreen), m);
}

#[test]
fn wrapped_indent_expands_tabs_and_wraps() {
    let r = get_wrapped_indent("a\tbcdefghij", false, 16, 10, Color::Black, Color::BrightGreen);
    assert_eq!(r, "a    b\x1b[0m\n      \u{2560}\u{2550} cdefgh\x1b[0m\n      \u{255a}\u{2550} ij\x1b[0m");
}

#[test]
fn wrapped_indent_same_colors_use_blank_connector() {
    let r = get_wrapped_indent("abcdef", false, 13, 10, Color::Green, Color::Green);
    let visible = strip_ansi_escapes::strip_str(&r);
    assert_eq!(visible, "abc\n          def");
}

#[test]
fn token_color_is_stable_on_repeat() {
    let mut t = ColorTable::new(palette(), vec![]);
    let a = t.get_token_color("tag");
    let b = t.get_token_color("tag");
    assert_eq!(a, b);
    assert_eq!(a, Color::BrightRed);
}

#[test]
fn exhausted_palette_reuses_least_recent_color() {
    let mut t = ColorTable::new(palette(), vec![]);
    let p = palette();
    for (i, c) in p.iter().enumerate() {
        assert_eq!(t.get_token_color(&format!("t{i}")), *c);
    }
    assert_eq!(t.get_token_color("fresh"), Color::BrightRed);
    assert_eq!(t.get_token_color("t1"), Color::BrightBlue);
    assert_eq!(t.get_token_color("other"), Color::BrightCyan);
}

#[test]
fn seeded_tokens_keep_their_color_and_take_no_slot() {
    let mut t = ColorTable::new(palette(), vec![("DEBUG".to_string(), Color::Yellow)]);
    assert_eq!(t.get_token_color("DEBUG"), Color::Yellow);
    assert_eq!(t.palette, palette());
    assert_eq!(t.get_token_color("x"), Color::BrightRed);
}

#[test]
fn empty_palette_gives_white() {
    let mut t = ColorTable::new(vec![], vec![]);
    assert_eq!(t.get_token_color("x"), Color::White);
    assert!(t.memo.is_empty());
}

#[test]
fn record_line_is_parsed_and_trimmed() {
    let r = parse_log_line("I/MyTag( 1234): hello world").unwrap();
    assert_eq!(r.level, LogLevel::INFO);
    assert_eq!(r.tag, "MyTag");
    assert_eq!(r.owner, "1234");
    assert_eq!(r.message, "hello world");
    let r = parse_log_line("W/Some Tag  (   42):   spaced out  ").unwrap();
    assert_eq!(r.tag, "Some Tag");
    assert_eq!(r.owner, "42");
    assert_eq!(r.message, "spaced out");
}

#[test]
fn tag_is_shortest_before_a_tail() {
    let r = parse_log_line("D/a(b( 7): x( 8): y").unwrap();
    assert_eq!(r.tag, "a(b");
    assert_eq!(r.owner, "7");
    assert_eq!(r.message, "x( 8): y");
}

#[test]
fn non_records_are_rejected() {
    assert!(parse_log_line("").is_none());
    assert!(parse_log_line("--------- beginning of main").is_none());
    assert!(parse_log_line("i/Tag( 1): x").is_none());
    assert!(parse_log_line("X/Tag( 1): x").is_none());
    assert!(parse_log_line("I/( 1): x").is_none());
}

#[test]
fn noise_line_is_recognized() {
    assert!(is_native_tags_line("D/Trace( 1): nativeGetEnabledTags: 0"));
    assert!(!is_native_tags_line("D/Trace( 1): nothing"));
}

#[test]
fn generic_start_shape() {
    let line = "I/ActivityManager(  500): Start proc 5678:com.example.app/u0a123 for activity {com.example.app/.MainActivity}";
    let r = get_started_process(line).unwrap();
    assert_eq!(r.0, "5678");
    assert_eq!(r.1, "");
    assert_eq!(r.2, "");
    assert_eq!(r.3, "com.example.app");
    assert_eq!(r.4, "com.example.app/.MainActivity");
}

#[test]
fn start_shape_with_ids() {
    let line = "I/ActivityManager(  500): Start proc com.example.app for activity com.example.app/.Main: pid=4321 uid=10012 gids={50012, 3003}";
    let r = get_started_process(line).unwrap();
    assert_eq!(r.0, "4321");
    assert_eq!(r.1, "10012");
    assert_eq!(r.2, "{50012, 3003}");
    assert_eq!(r.3, "com.example.app");
    assert_eq!(r.4, "activity com.example.app/.Main");
}

#[test]
fn runtime_start_shape() {
    let line = "E/dalvikvm(  99): >>>>> com.example.app [ userId:0 | appId:10045 ]";
    let r = get_started_process(line).unwrap();
    assert_eq!(r.0, "99");
    assert_eq!(r.1, "10045");
    assert_eq!(r.2, "");
    assert_eq!(r.3, "com.example.app");
    assert_eq!(r.4, "");
    assert!(get_started_process("I/Tag( 1): nothing started").is_none());
}

#[test]
fn package_interest() {
    let named = vec!["com.a:remote".to_string()];
    let catchall = vec!["com.b".to_string()];
    assert!(is_matching_package(&"anything".to_string(), &[], &[]));
    assert!(is_matching_package(&"com.a:remote".to_string(), &named, &catchall));
    assert!(!is_matching_package(&"com.a".to_string(), &named, &catchall));
    assert!(is_matching_package(&"com.b".to_string(), &named, &catchall));
    assert!(is_matching_package(&"com.b:worker".to_string(), &named, &catchall));
    assert!(!is_matching_package(&"com.c".to_string(), &named, &catchall));
}

#[test]
fn tag_filters_literal_pattern_and_broken_pattern() {
    assert!(is_matching_tag("ActivityManager", &["Manager".to_string()]));
    assert!(!is_matching_tag("ActivityManager", &["Window".to_string()]));
    assert!(is_matching_tag("ViewRootImpl", &["^View.*$".to_string()]));
    assert!(!is_matching_tag("MyViewRoot", &["View.*".to_string()]));
    assert!(!is_matching_tag("Tag(", &["Tag(".to_string()]));
    assert!(is_matching_tag("abc", &[" b ".to_string()]));
}

#[test]
fn death_shapes_need_manager_tag_and_tracked_pid() {
    let t = ProcessTracker::new(
        vec![("5678".to_string(), "com.example.app".to_string())],
        vec![],
        vec!["com.example.app".to_string()],
    );
    let die = "Process com.example.app (pid 5678) has died";
    assert_eq!(
        get_dead_process("ActivityManager", die, &t),
        Some(("5678".to_string(), "com.example.app".to_string()))
    );
    assert_eq!(get_dead_process("Other", die, &t), None);
    assert_eq!(get_dead_process("ActivityManager", "Process com.example.app (pid 9) has died", &t), None);
    assert_eq!(
        get_dead_process("ActivityManager", "Killing 5678:com.example.app/u0a1: stop", &t),
        Some(("5678".to_string(), "com.example.app".to_string()))
    );
    assert_eq!(
        get_dead_process("ActivityManager", "No longer want com.example.app (pid 5678): empty", &t),
        Some(("5678".to_string(), "com.example.app".to_string()))
    );
}

#[test]
fn record_round_trip_default_config() {
    let mut s = state(vec![], vec![]);
    let out = s.write_log_line("I/MyTag( 1234): hello world", &args(), &plain_sink());
    assert_eq!(out.len(), 1);
    assert!(out[0].ends_with("hello world\n"));
    assert_eq!(out[0].matches('\n').count(), 1);
    assert_eq!(out[0], " I  hello world\n");
}

#[test]
fn start_line_tracks_and_shows_banner() {
    let mut s = state(vec![], vec!["com.example.app".to_string()]);
    let line = "I/ActivityManager(  500): Start proc 5678:com.example.app/u0a123 for activity {com.example.app/.MainActivity}";
    s.last_tag = Some("X".to_string());
    let out = s.write_log_line(line, &args(), &plain_sink());
    assert_eq!(s.tracker.owner_of("5678"), Some("com.example.app".to_string()));
    assert_eq!(s.tracker.app_pid, Some("5678".to_string()));
    assert_eq!(s.last_tag, None);
    let visible = strip_ansi_escapes::strip_str(&out[0]);
    assert!(visible.contains("Process com.example.app created for com.example.app/.MainActivity"));
    assert!(!visible.contains(" I "));
}

#[test]
fn death_line_untracks_and_resets_last_tag() {
    let mut s = state(
        vec![("5678".to_string(), "com.example.app".to_string())],
        vec!["com.example.app".to_string()],
    );
    s.last_tag = Some("MyTag".to_string());
    let out = s.write_log_line(
        "I/ActivityManager(  500): Process com.example.app (pid 5678) has died",
        &args(),
        &plain_sink(),
    );
    assert_eq!(s.tracker.owner_of("5678"), None);
    assert_eq!(s.last_tag, None);
    let visible = strip_ansi_escapes::strip_str(&out[0]);
    assert!(visible.contains("Process com.example.app (PID: 5678) ended"));
}

#[test]
fn repeated_tag_is_blanked() {
    let mut s = state(vec![], vec![]);
    let mut a = args();
    a.tag_width = 5;
    let first = s.write_log_line("I/MyTag( 1): one", &a, &plain_sink());
    let second = s.write_log_line("I/MyTag( 1): two", &a, &plain_sink());
    assert_eq!(first[0], "MyTag  I  one\n");
    assert_eq!(second[0], "       I  two\n");
    a.always_show_tags = true;
    let third = s.write_log_line("I/MyTag( 1): three", &a, &plain_sink());
    assert_eq!(third[0], "MyTag  I  three\n");
}

#[test]
fn columns_are_truncated_with_ellipsis() {
    let mut s = state(vec![("1234".to_string(), "com.example.longname".to_string())], vec![]);
    let mut a = args();
    a.show_pid = true;
    a.show_package = true;
    a.pid_width = 3;
    a.package_width = 8;
    a.tag_width = 4;
    let out = s.write_log_line("W/LongTag( 1234): msg", &a, &plain_sink());
    assert_eq!(out[0], "12\u{2026} com.exa\u{2026} Lon\u{2026}  W  msg\n");
    let out = s.write_log_line("W/T( 99): m", &a, &plain_sink());
    assert_eq!(out[0], "99  UNKNOWN\u{2026}    T  W  m\n");
}

#[test]
fn filters_drop_records() {
    let mut s = state(vec![], vec![]);
    let mut a = args();
    a.all = false;
    assert_eq!(s.write_log_line("I/T( 1): m", &a, &plain_sink())[0], "");
    a.all = true;
    s.log_level = LogLevel::WARN;
    assert_eq!(s.write_log_line("I/T( 1): m", &a, &plain_sink())[0], "");
    s.log_level = LogLevel::VERBOSE;
    s.ignore_filter = TagFilter::new(Some(vec!["T".to_string()]));
    assert_eq!(s.write_log_line("I/T( 1): m", &a, &plain_sink())[0], "");
    assert_eq!(s.write_log_line("I/T( 1): m", &a, &plain_sink())[0], "");
    assert_eq!(s.write_log_line("I/U( 1): m", &a, &plain_sink())[0], " I  m\n");
    s.ignore_filter = TagFilter::new(None);
    s.tag_filter = TagFilter::new(Some(vec!["Other".to_string()]));
    assert_eq!(s.write_log_line("I/T( 1): m", &a, &plain_sink())[0], "");
    assert_eq!(s.write_log_line("I/Other( 1): m", &a, &plain_sink())[0], " I  m\n");
    s.tag_filter = TagFilter::new(Some(vec![]));
    assert_eq!(s.write_log_line("I/Other( 1): m", &a, &plain_sink())[0], "");
    assert_eq!(s.write_log_line("D/Trace( 1): nativeGetEnabledTags", &args(), &plain_sink())[0], "");
}

#[test]
fn colorless_sink_gets_no_escapes() {
    let mut s = state(vec![], vec![]);
    let mut a = args();
    a.no_color = false;
    let sinks = vec![Sink { width: -1, show_colors: false }];
    let out = s.write_log_line("I/T( 1): \x1b[31mred\x1b[0m text", &a, &sinks);
    assert!(!out[0].contains('\x1b'));
    assert!(out[0].ends_with("red text\n"));
}

#[test]
fn strict_mode_highlight_keeps_text() {
    let mut a = args();
    a.no_color = false;
    let m = "StrictMode policy violation; ~duration=120 ms: android.os";
    let r = apply_message_rules(&a, m);
    assert_eq!(strip_ansi_escapes::strip_str(&r), m);
    assert_eq!(apply_message_rules(&a, "other"), "other");
}

#[test]
fn adb_command_selection() {
    let mut a = args();
    assert_eq!(get_adb_command(&a), vec!["adb".to_string()]);
    a.device_serial = Some("emulator-5554".to_string());
    assert_eq!(get_adb_command(&a), vec!["adb".to_string(), "-s".to_string(), "emulator-5554".to_string()]);
    a.use_emulator = true;
    a.adb_path = Some("/opt/adb".to_string());
    assert_eq!(get_adb_command(&a), vec!["/opt/adb".to_string(), "-e".to_string()]);
    a.use_device = true;
    assert_eq!(get_adb_command(&a), vec!["/opt/adb".to_string(), "-d".to_string()]);
}

#[test]
fn adb_states_parse() {
    assert_eq!(AdbState::parse("device"), Some(AdbState::Device));
    assert_eq!(AdbState::parse("no permissions"), Some(AdbState::NoPermissions));
    assert_eq!(AdbState::parse("bogus"), None);
}

#[test]
fn level_letters_and_order() {
    assert_eq!(LogLevel::from_letter('E'), Some(LogLevel::ERROR));
    assert_eq!(LogLevel::from_letter('Q'), None);
    assert_eq!(LogLevel::FATAL.letter(), 'F');
    assert!(LogLevel::WARN.at_least(LogLevel::INFO));
    assert!(!LogLevel::DEBUG.at_least(LogLevel::INFO));
}

#[test]
fn stripping_commutes_with_wrapping_visibly() {
    let s = "\x1b[31mabc\x1b[0mdef\x1b[1mghij";
    let plain = strip_ansi_escapes::strip_str(s);
    let colored = wrap_text(s, 4, "\n> ", "\n>> ");
    let stripped_first = wrap_text(&plain, 4, "\n> ", "\n>> ");
    assert_eq!(strip_ansi_escapes::strip_str(&colored), strip_ansi_escapes::strip_str(&stripped_first));
    assert_eq!(strip_ansi_escapes::strip_str(&colored), "abcd\n> efgh\n>> ij");
    assert_eq!(wrap_text(&plain, 20, "|", "|"), strip_ansi_escapes::strip_str(&wrap_text(s, 20, "|", "|")));
    let unbounded = get_wrapped_indent(s, true, -1, 10, Color::Black, Color::BrightRed);
    assert_eq!(
        get_wrapped_indent(&plain, true, -1, 10, Color::Black, Color::BrightRed),
        strip_ansi_escapes::strip_str(&unbounded)
    );
}

#[test]
fn process_table_lines() {
    let line = "u0_a123   5678  456   1234567 89012 SyS_epoll_wait 0 S com.example.app";
    assert_eq!(
        parse_process_line(line),
        Some(("5678".to_string(), "com.example.app".to_string()))
    );
    assert_eq!(parse_process_line("USER PID PPID VSZ RSS WCHAN PC NAME"), None);
    let lines = vec![
        line.to_string(),
        "root      1     0     1000  200   do_epoll  0 S init".to_string(),
    ];
    assert_eq!(process_owners(&lines, &["com.example.app".to_string()], false), vec![(
        "5678".to_string(),
        "com.example.app".to_string()
    )]);
    assert_eq!(process_owners(&lines, &[], true).len(), 2);
}

#[test]
fn device_listing_lines() {
    let d = parse_device_line("emulator-5554\tdevice").unwrap();
    assert_eq!(d.device_id, "emulator-5554");
    assert_eq!(d.device_state, AdbState::Device);
    let d = parse_device_line("  R58M  no permissions ").unwrap();
    assert_eq!(d.device_id, "R58M");
    assert_eq!(d.device_state, AdbState::NoPermissions);
    assert!(parse_device_line("   ").is_none());
    assert!(parse_device_line("R58M").is_none());
    assert!(parse_device_line("R58M weird").is_none());
}

#[test]
fn packages_split_into_catchall_and_named() {
    let (catchall, named) = split_packages(&[
        "com.a".to_string(),
        "com.b:remote".to_string(),
        "com.c:".to_string(),
    ]);
    assert_eq!(catchall, vec!["com.a".to_string()]);
    assert_eq!(named, vec!["com.b:remote".to_string(), "com.c".to_string()]);
}

#[test]
fn visible_activity_packages() {
    let dump = "junk\n  VisibleActivityProcess:[ ProcessRecord{a1b2 1234:com.example.app/u0a12} ProcessRecord{ff99 77:com.other/u0a3}]\nmore";
    assert_eq!(visible_packages(dump), Some(vec!["com.example.app".to_string(), "com.other".to_string()]));
    let joined = "VisibleActivityProcess:[ProcessRecord{abc1234:com.x/u0}]";
    assert_eq!(visible_packages(joined), Some(vec!["com.x".to_string()]));
    assert_eq!(visible_packages("VisibleActivityProcess:[]"), None);
    assert_eq!(visible_packages("nothing here"), None);
}

#[test]
fn tag_filter_memo_answers_like_the_filter() {
    let mut f = TagFilter::new(Some(vec!["^Act.*".to_string(), "Window".to_string()]));
    assert!(f.takes("ActivityManager"));
    assert!(f.takes("ActivityManager"));
    assert!(f.takes("MyWindowThing"));
    assert!(!f.takes("Other"));
    assert!(!f.takes("Other"));
    assert_eq!(f.verdicts.len(), 3);
    let mut none = TagFilter::new(None);
    assert!(!none.takes("anything"));
    assert!(none.verdicts.is_empty());
}

#[test]
fn zero_budget_and_empty_text() {
    assert_eq!(get_wrapped_indent("a\tb", true, 12, 20, Color::Black, Color::BrightCyan), "a    b");
    assert_eq!(get_wrapped_indent("", true, 80, 10, Color::Black, Color::BrightCyan), "");
    assert_eq!(wrap_text("", 5, "|", "|"), "");
}

#[test]
fn zero_width_column_does_not_panic() {
    let mut s = state(vec![], vec![]);
    let mut a = args();
    a.show_pid = true;
    a.pid_width = 0;
    let out = s.write_log_line("I/T( 12): m", &a, &plain_sink());
    assert_eq!(out[0], "  I  m\n");
}

#[test]
fn embedded_newline_is_not_a_record() {
    assert!(parse_log_line("I/T( 1): a\nb").is_none());
}

#[test]
fn highlight_splices_put_parts_in_place() {
    let m = "StrictMode policy violation; ~duration=120 ms: x";
    assert_eq!(splice_strict_mode(m, "<A>", "<B>"), "StrictMode policy violation<A><B>: x");
    assert_eq!(splice_strict_mode("other", "<A>", "<B>"), "other");
    let g = "GC_EXPLICIT freed 12K, 5% free 1K/2K, paused 3ms+4ms tail";
    assert_eq!(splice_gc(g, "<F>", "<P>"), "GC_EXPLICIT <F>, 5% free 1K/2K, <P> tail");
    assert_eq!(splice_gc("GC_ nothing", "<F>", "<P>"), "GC_ nothing");
}

#[test]
fn file_sink_gets_plain_record_text() {
    let mut s = state(vec![], vec![]);
    let file = vec![Sink { width: -1, show_colors: false }];
    let out = s.write_log_line("I/MyTag( 1234): hello world", &args(), &file);
    assert_eq!(out[0], " I  hello world\n");
    let mut a = args();
    a.tag_width = 5;
    assert_eq!(s.write_log_line("I/Foo( 1): a", &a, &file)[0], "Foo    I  a\n");
    assert_eq!(s.write_log_line("I/Foo( 1): b", &a, &file)[0], "       I  b\n");
    assert_eq!(s.write_log_line("I/a\u{e9}\u{e9}\u{e9}\u{e9}\u{e9}\u{e9}( 1): c", &a, &file)[0], "a\u{e9}\u{e9}\u{e9}\u{2026}  I  c\n");
}
