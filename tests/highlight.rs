use pidcat::{apply_message_rules, CliArgs, Color, ColorTable, LogLevel, ProcessTracker, Sink, State, TagFilter};

fn args(gc_color: bool) -> CliArgs {
    CliArgs {
        packages: vec![],
        adb_path: None,
        use_device: false,
        use_emulator: false,
        device_serial: None,
        all: true,
        keep_logcat: false,
        current_app: false,
        ignore_system_tags: false,
        tag: None,
        ignore_tag: None,
        log_level: LogLevel::VERBOSE,
        regex: None,
        show_pid: false,
        show_package: false,
        always_show_tags: false,
        pid_width: 5,
        package_width: 20,
        tag_width: 20,
        gc_color,
        no_color: false,
        output_path: None,
    }
}

#[test]
fn strict_mode_parts_are_painted() {
    colored::control::set_override(true);
    let r = apply_message_rules(&args(false), "StrictMode policy violation; ~duration=120 ms: android.os");
    assert_eq!(r, "StrictMode policy violation\x1b[31m; ~duration=\x1b[0m\x1b[33m120 ms\x1b[0m: android.os");
}

#[test]
fn collector_parts_are_painted_when_asked() {
    colored::control::set_override(true);
    let m = "GC_CONCURRENT freed 2049K, 65% free 3571K/9991K, paused 2ms+2ms, total 10ms";
    let r = apply_message_rules(&args(true), m);
    assert_eq!(
        r,
        "GC_CONCURRENT \x1b[32mfreed 2049K\x1b[0m, 65% free 3571K/9991K, \x1b[33mpaused 2ms+2ms\x1b[0m, total 10ms"
    );
    assert_eq!(apply_message_rules(&args(false), m), m);
    let m = "GC_FOR_ALLOC freed <1K, 5% free 1K/2K, paused 3ms";
    let r = apply_message_rules(&args(true), m);
    assert_eq!(r, "GC_FOR_ALLOC \x1b[32mfreed <1K\x1b[0m, 5% free 1K/2K, \x1b[33mpaused 3ms\x1b[0m");
    assert_eq!(apply_message_rules(&args(true), "GC_OTHER freed 1K"), "GC_OTHER freed 1K");
}

#[test]
fn filter_arguments_are_split_and_trimmed() {
    let mut a = args(false);
    a.tag = Some(vec![" A, B ,,".to_string(), "C".to_string()]);
    a.ignore_tag = Some(vec!["x,y".to_string()]);
    let p = a.parse_args();
    assert_eq!(p.tag, Some(vec!["A".to_string(), "B".to_string(), "C".to_string()]));
    assert_eq!(p.ignore_tag, Some(vec!["x".to_string(), "y".to_string()]));
}

#[test]
fn system_tags_join_the_ignored_tags() {
    let mut a = args(false);
    a.ignore_system_tags = true;
    let p = a.parse_args();
    let ignored = p.ignore_tag.unwrap();
    assert!(ignored.contains(&"^HWUI$".to_string()));
    assert!(ignored.contains(&"^VRI\\[.*?\\]$".to_string()));
    assert!(pidcat::is_matching_tag("VRI[MainActivity]", &ignored));
    assert!(!pidcat::is_matching_tag("MyApp", &ignored));
}

#[test]
fn columns_are_painted_in_their_assigned_colors() {
    colored::control::set_override(true);
    let mut st = State {
        tracker: ProcessTracker::new(vec![], vec![], vec![]),
        last_tag: None,
        log_level: LogLevel::VERBOSE,
        colors: ColorTable::new(vec![Color::BrightRed, Color::BrightBlue], vec![]),
        ignore_filter: TagFilter::new(None),
        tag_filter: TagFilter::new(None),
    };
    let mut a = args(false);
    a.show_pid = true;
    a.pid_width = 4;
    a.tag_width = 3;
    let sinks = vec![Sink { width: -1, show_colors: true }];
    let out = st.write_log_line("I/Tag( 12): hi", &a, &sinks);
    assert_eq!(
        out[0],
        "\x1b[91m12  \x1b[0m \x1b[94mTag\x1b[0m \x1b[102;30m I \x1b[0m hi\n"
    );
}
