use vstd::prelude::*;

use crate::ansi::strings_view;
use crate::level::LogLevel;
use crate::text::{chars_of, string_of};
use crate::trim::{trim_chars, trimmed};

verus! {

/// The session's settings: device choice, filters, columns and colors.
pub struct CliArgs {
    /// packages (or `package:process` names) of interest
    pub packages: Vec<String>,
    pub adb_path: Option<String>,
    pub use_device: bool,
    pub use_emulator: bool,
    pub device_serial: Option<String>,
    /// show the records of every process
    pub all: bool,
    pub keep_logcat: bool,
    pub current_app: bool,
    pub ignore_system_tags: bool,
    /// tag filters a record must pass
    pub tag: Option<Vec<String>>,
    /// tag filters that drop a record
    pub ignore_tag: Option<Vec<String>>,
    /// the least severity shown
    pub log_level: LogLevel,
    pub regex: Option<String>,
    pub show_pid: bool,
    pub show_package: bool,
    pub always_show_tags: bool,
    pub pid_width: u8,
    pub package_width: u8,
    pub tag_width: u8,
    pub gc_color: bool,
    pub no_color: bool,
    pub output_path: Option<String>,
}

/// A device as the device listing reports it.
#[derive(Debug)]
pub struct AdbDevice {
    pub device_id: String,
    pub device_state: AdbState,
}

/// The state of a device.
#[derive(Clone, Copy, Debug, PartialEq, Eq, Structural)]
pub enum AdbState {
    Device,
    Emulator,
    Offline,
    UnAuthorized,
    Recovery,
    Sideload,
    NoPermissions,
    NoDevice,
}

/// The device state that the listing word `s` names.
pub open spec fn adb_state_of(s: Seq<char>) -> Option<AdbState> {
    if s == "device"@ {
        Some(AdbState::Device)
    } else if s == "emulator"@ {
        Some(AdbState::Emulator)
    } else if s == "offline"@ {
        Some(AdbState::Offline)
    } else if s == "unauthorized"@ {
        Some(AdbState::UnAuthorized)
    } else if s == "recovery"@ {
        Some(AdbState::Recovery)
    } else if s == "sideload"@ {
        Some(AdbState::Sideload)
    } else if s == "no permissions"@ {
        Some(AdbState::NoPermissions)
    } else if s == "no device"@ {
        Some(AdbState::NoDevice)
    } else {
        None
    }
}

impl AdbState {
    /// The state that the device listing's word `s` names, if any.
    pub fn parse(s: &str) -> (r: Option<AdbState>)
        ensures
            r == adb_state_of(s@),
    {
        let t = s.to_owned();
        if t == "device".to_owned() {
            Some(AdbState::Device)
        } else if t == "emulator".to_owned() {
            Some(AdbState::Emulator)
        } else if t == "offline".to_owned() {
            Some(AdbState::Offline)
        } else if t == "unauthorized".to_owned() {
            Some(AdbState::UnAuthorized)
        } else if t == "recovery".to_owned() {
            Some(AdbState::Recovery)
        } else if t == "sideload".to_owned() {
            Some(AdbState::Sideload)
        } else if t == "no permissions".to_owned() {
            Some(AdbState::NoPermissions)
        } else if t == "no device".to_owned() {
            Some(AdbState::NoDevice)
        } else {
            None
        }
    }
}

/// The device-selection arguments that the settings give.
pub open spec fn adb_selector(args: CliArgs) -> Seq<Seq<char>> {
    if args.use_device {
        seq!["-d"@]
    } else if args.use_emulator {
        seq!["-e"@]
    } else {
        match args.device_serial {
            Some(serial) => seq!["-s"@, serial@],
            None => seq![],
        }
    }
}

/// The base debug-bridge command: the tool's path (`adb` unless set), then the
/// device selection.
pub fn get_adb_command(args: &CliArgs) -> (r: Vec<String>)
    ensures
        crate::ansi::strings_view(r@) == seq![
            match args.adb_path {
                Some(p) => p@,
                None => "adb"@,
            },
        ] + adb_selector(*args),
{
    let adb_path = match &args.adb_path {
        Some(p) => p.clone(),
        None => "adb".to_owned(),
    };
    let mut cmd: Vec<String> = Vec::new();
    cmd.push(adb_path);
    if args.use_device {
        cmd.push("-d".to_owned());
    } else if args.use_emulator {
        cmd.push("-e".to_owned());
    } else if let Some(serial) = &args.device_serial {
        cmd.push("-s".to_owned());
        cmd.push(serial.clone());
    }
    proof {
        assert(crate::ansi::strings_view(cmd@) =~= seq![
            match args.adb_path {
                Some(p) => p@,
                None => "adb"@,
            },
        ] + adb_selector(*args));
    }
    cmd
}

/// The comma-separated fields of `s` from index `i` on, `cur` being the field
/// under way.
pub open spec fn fields_from(s: Seq<char>, i: int, cur: Seq<char>) -> Seq<Seq<char>>
    decreases s.len() - i,
{
    if i < 0 || i >= s.len() {
        seq![cur]
    } else if s[i] == ',' {
        seq![cur] + fields_from(s, i + 1, seq![])
    } else {
        fields_from(s, i + 1, cur.push(s[i]))
    }
}

/// The fields `fs` trimmed, the empty ones left out.
pub open spec fn cleaned(fs: Seq<Seq<char>>) -> Seq<Seq<char>>
    decreases fs.len(),
{
    if fs.len() == 0 {
        seq![]
    } else {
        cleaned(fs.drop_last()) + if trimmed(fs.last()).len() > 0 {
            seq![trimmed(fs.last())]
        } else {
            seq![]
        }
    }
}

/// The filters that the arguments `v` give: each split at commas, trimmed, the
/// empty ones left out.
pub open spec fn split_filters(v: Seq<Seq<char>>) -> Seq<Seq<char>>
    decreases v.len(),
{
    if v.len() == 0 {
        seq![]
    } else {
        split_filters(v.drop_last()) + cleaned(fields_from(v.last(), 0, seq![]))
    }
}

fn comma_fields(s: &Vec<char>) -> (r: Vec<Vec<char>>)
    ensures
        r@.map_values(|f: Vec<char>| f@) == fields_from(s@, 0, seq![]),
{
    let mut out: Vec<Vec<char>> = Vec::new();
    let mut cur: Vec<char> = Vec::new();
    let mut i: usize = 0;
    while i < s.len()
        invariant
            i <= s@.len(),
            out@.map_values(|f: Vec<char>| f@) + fields_from(s@, i as int, cur@) == fields_from(s@, 0, seq![]),
        decreases s@.len() - i,
    {
        let ghost before = out@.map_values(|f: Vec<char>| f@);
        if s[i] == ',' {
            let ghost c = cur@;
            out.push(cur);
            cur = Vec::new();
            proof {
                assert(out@.map_values(|f: Vec<char>| f@) =~= before.push(c));
                assert(out@.map_values(|f: Vec<char>| f@) + fields_from(s@, i + 1, cur@) =~= before + fields_from(
                    s@,
                    i as int,
                    c,
                ));
            }
        } else {
            cur.push(s[i]);
        }
        i += 1;
    }
    let ghost before = out@.map_values(|f: Vec<char>| f@);
    let ghost c = cur@;
    out.push(cur);
    proof {
        assert(out@.map_values(|f: Vec<char>| f@) =~= before + fields_from(s@, i as int, c));
    }
    out
}

fn push_cleaned(dst: &mut Vec<String>, fs: &Vec<Vec<char>>)
    ensures
        strings_view(final(dst)@) == strings_view(old(dst)@) + cleaned(fs@.map_values(|f: Vec<char>| f@)),
{
    let ghost fv = fs@.map_values(|f: Vec<char>| f@);
    let mut i: usize = 0;
    while i < fs.len()
        invariant
            i <= fs@.len(),
            fv == fs@.map_values(|f: Vec<char>| f@),
            strings_view(dst@) == strings_view(old(dst)@) + cleaned(fv.subrange(0, i as int)),
        decreases fs@.len() - i,
    {
        proof {
            assert(fv.subrange(0, i + 1).drop_last() =~= fv.subrange(0, i as int));
        }
        let t = trim_chars(&fs[i]);
        let ghost before = strings_view(dst@);
        if t.len() > 0 {
            dst.push(string_of(t.as_slice()));
            proof {
                assert(strings_view(dst@) =~= before + seq![t@]);
            }
        }
        proof {
            assert(strings_view(dst@) =~= strings_view(old(dst)@) + cleaned(fv.subrange(0, i + 1)));
        }
        i += 1;
    }
    proof {
        assert(fv.subrange(0, fs@.len() as int) =~= fv);
    }
}

fn split_filter_args(v: &Vec<String>) -> (r: Vec<String>)
    ensures
        strings_view(r@) == split_filters(strings_view(v@)),
{
    let ghost sv = strings_view(v@);
    let mut r: Vec<String> = Vec::new();
    let mut i: usize = 0;
    while i < v.len()
        invariant
            i <= v@.len(),
            sv == strings_view(v@),
            strings_view(r@) == split_filters(sv.subrange(0, i as int)),
        decreases v@.len() - i,
    {
        proof {
            assert(sv.subrange(0, i + 1).drop_last() =~= sv.subrange(0, i as int));
        }
        let fs = comma_fields(&chars_of(v[i].as_str()));
        push_cleaned(&mut r, &fs);
        i += 1;
    }
    proof {
        assert(sv.subrange(0, v@.len() as int) =~= sv);
    }
    r
}

/// The whole-tag patterns of the tags that the system logs under.
pub open spec fn system_tag_patterns() -> Seq<Seq<char>> {
    seq![
        "^Tile$"@,
        "^HWUI$"@,
        "^skia$"@,
        "^libc$"@,
        "^libEGL$"@,
        "^Dialog$"@,
        "^System$"@,
        "^OneTrace$"@,
        "^PreCache$"@,
        "^PlayCore$"@,
        "^BpBinder$"@,
        "^VRI\\[.*?\\]$"@,
        "^AudioTrack$"@,
        "^ImeTracker$"@,
        "^cutils-dev$"@,
        "^JavaBinder$"@,
        "^FrameEvents$"@,
        "^QualityInfo$"@,
        "^ViewExtract$"@,
        "^FirebaseApp$"@,
        "^AdrenoUtils$"@,
        "^ViewRootImpl$"@,
        "^nativeloader$"@,
        "^WindowManager$"@,
        "^OverlayHandler$"@,
        "^ActivityThread$"@,
        "^SurfaceControl$"@,
        "^\\[UAH_CLIENT\\]$"@,
        "^DisplayManager$"@,
        "^AdrenoGLES-.*?$"@,
        "^VelocityTracker$"@,
        "^OplusBracketLog$"@,
        "^PipelineWatcher$"@,
        "^AppWidgetManager$"@,
        "^BLASTBufferQueue$"@,
        "^InsetsController$"@,
        "^FirebaseSessions$"@,
        "^ProfileInstaller$"@,
        "^ExtensionsLoader$"@,
        "^SurfaceSyncGroup$"@,
        "^DesktopModeFlags$"@,
        "^AppCompatDelegate$"@,
        "^AppWidgetProvider$"@,
        "^AppWidgetHostView$"@,
        "^ApplicationLoaders$"@,
        "^OplusGraphicsEvent$"@,
        "^OplusAppHeapManager$"@,
        "^FirebaseCrashlytics$"@,
        "^ViewRootImplExtImpl$"@,
        "^BufferQueueConsumer$"@,
        "^BufferQueueProducer$"@,
        "^OplusCursorFeedback$"@,
        "^FirebaseInitProvider$"@,
        "^OplusActivityManager$"@,
        "^CompatChangeReporter$"@,
        "^SessionsDependencies$"@,
        "^OplusInputMethodUtil$"@,
        "^BufferPoolAccessor.*?$"@,
        "^OplusViewDebugManager$"@,
        "^WindowOnBackDispatcher$"@,
        "^CompactWindowAppManager$"@,
        "^OplusScrollToTopManager$"@,
        "^ResourcesManagerExtImpl$"@,
        "^ScrollOptimizationHelper$"@,
        "^OplusActivityThreadExtImpl$"@,
        "^DynamicFramerate\\s*\\[.*?\\]$"@,
        "^OplusViewDragTouchViewHelper$"@,
        "^OplusPredictiveBackController$"@,
        "^OplusSystemUINavigationGesture$"@,
        "^OplusInputMethodManagerInternal$"@,
        "^OplusCustomizeRestrictionManager$"@,
        "^oplus\\.android\\.OplusFrameworkFactoryImpl$"@,
    ]
}

/// The tags that the system logs under, as whole-tag patterns.
pub fn system_tags() -> (r: Vec<String>)
    ensures
        strings_view(r@) == system_tag_patterns(),
{
    let mut r: Vec<String> = Vec::new();
    r.push("^Tile$".to_owned());
    r.push("^HWUI$".to_owned());
    r.push("^skia$".to_owned());
    r.push("^libc$".to_owned());
    r.push("^libEGL$".to_owned());
    r.push("^Dialog$".to_owned());
    r.push("^System$".to_owned());
    r.push("^OneTrace$".to_owned());
    r.push("^PreCache$".to_owned());
    r.push("^PlayCore$".to_owned());
    r.push("^BpBinder$".to_owned());
    r.push("^VRI\\[.*?\\]$".to_owned());
    r.push("^AudioTrack$".to_owned());
    r.push("^ImeTracker$".to_owned());
    r.push("^cutils-dev$".to_owned());
    r.push("^JavaBinder$".to_owned());
    r.push("^FrameEvents$".to_owned());
    r.push("^QualityInfo$".to_owned());
    r.push("^ViewExtract$".to_owned());
    r.push("^FirebaseApp$".to_owned());
    r.push("^AdrenoUtils$".to_owned());
    r.push("^ViewRootImpl$".to_owned());
    r.push("^nativeloader$".to_owned());
    r.push("^WindowManager$".to_owned());
    r.push("^OverlayHandler$".to_owned());
    r.push("^ActivityThread$".to_owned());
    r.push("^SurfaceControl$".to_owned());
    r.push("^\\[UAH_CLIENT\\]$".to_owned());
    r.push("^DisplayManager$".to_owned());
    r.push("^AdrenoGLES-.*?$".to_owned());
    r.push("^VelocityTracker$".to_owned());
    r.push("^OplusBracketLog$".to_owned());
    r.push("^PipelineWatcher$".to_owned());
    r.push("^AppWidgetManager$".to_owned());
    r.push("^BLASTBufferQueue$".to_owned());
    r.push("^InsetsController$".to_owned());
    r.push("^FirebaseSessions$".to_owned());
    r.push("^ProfileInstaller$".to_owned());
    r.push("^ExtensionsLoader$".to_owned());
    r.push("^SurfaceSyncGroup$".to_owned());
    r.push("^DesktopModeFlags$".to_owned());
    r.push("^AppCompatDelegate$".to_owned());
    r.push("^AppWidgetProvider$".to_owned());
    r.push("^AppWidgetHostView$".to_owned());
    r.push("^ApplicationLoaders$".to_owned());
    r.push("^OplusGraphicsEvent$".to_owned());
    r.push("^OplusAppHeapManager$".to_owned());
    r.push("^FirebaseCrashlytics$".to_owned());
    r.push("^ViewRootImplExtImpl$".to_owned());
    r.push("^BufferQueueConsumer$".to_owned());
    r.push("^BufferQueueProducer$".to_owned());
    r.push("^OplusCursorFeedback$".to_owned());
    r.push("^FirebaseInitProvider$".to_owned());
    r.push("^OplusActivityManager$".to_owned());
    r.push("^CompatChangeReporter$".to_owned());
    r.push("^SessionsDependencies$".to_owned());
    r.push("^OplusInputMethodUtil$".to_owned());
    r.push("^BufferPoolAccessor.*?$".to_owned());
    r.push("^OplusViewDebugManager$".to_owned());
    r.push("^WindowOnBackDispatcher$".to_owned());
    r.push("^CompactWindowAppManager$".to_owned());
    r.push("^OplusScrollToTopManager$".to_owned());
    r.push("^ResourcesManagerExtImpl$".to_owned());
    r.push("^ScrollOptimizationHelper$".to_owned());
    r.push("^OplusActivityThreadExtImpl$".to_owned());
    r.push("^DynamicFramerate\\s*\\[.*?\\]$".to_owned());
    r.push("^OplusViewDragTouchViewHelper$".to_owned());
    r.push("^OplusPredictiveBackController$".to_owned());
    r.push("^OplusSystemUINavigationGesture$".to_owned());
    r.push("^OplusInputMethodManagerInternal$".to_owned());
    r.push("^OplusCustomizeRestrictionManager$".to_owned());
    r.push("^oplus\\.android\\.OplusFrameworkFactoryImpl$".to_owned());
    proof {
        assert(strings_view(r@) =~= system_tag_patterns());
    }
    r
}

/// The tag-filter lists of `v`, split: the system tags' patterns added to the
/// ignored tags when asked for, and each list split at commas, trimmed, without
/// empty entries.
pub open spec fn parsed_filters(v: Option<Vec<String>>) -> Option<Seq<Seq<char>>> {
    match v {
        Some(l) => Some(split_filters(strings_view(l@))),
        None => None,
    }
}

impl CliArgs {
    /// The settings with their tag-filter arguments parsed: the system tags'
    /// patterns added to the ignored tags when asked for, and every filter
    /// argument split at commas, trimmed, empty entries dropped. The other
    /// settings are kept.
    pub fn parse_args(self) -> (r: CliArgs)
        ensures
            self.ignore_system_tags ==> opt_strings(r.ignore_tag) == Some(
                split_filters(
                    match self.ignore_tag {
                        Some(v) => strings_view(v@),
                        None => Seq::<Seq<char>>::empty(),
                    } + system_tag_patterns(),
                ),
            ),
            !self.ignore_system_tags ==> opt_strings(r.ignore_tag) == parsed_filters(self.ignore_tag),
            opt_strings(r.tag) == parsed_filters(self.tag),
            r.packages == self.packages,
            r.adb_path == self.adb_path,
            r.use_device == self.use_device,
            r.use_emulator == self.use_emulator,
            r.device_serial == self.device_serial,
            r.all == self.all,
            r.keep_logcat == self.keep_logcat,
            r.current_app == self.current_app,
            r.ignore_system_tags == self.ignore_system_tags,
            r.log_level == self.log_level,
            r.regex == self.regex,
            r.show_pid == self.show_pid,
            r.show_package == self.show_package,
            r.always_show_tags == self.always_show_tags,
            r.pid_width == self.pid_width,
            r.package_width == self.package_width,
            r.tag_width == self.tag_width,
            r.gc_color == self.gc_color,
            r.no_color == self.no_color,
            r.output_path == self.output_path,
    {
        let mut a = self;
        if a.ignore_system_tags {
            let mut all: Vec<String> = match a.ignore_tag {
                Some(v) => v,
                None => Vec::new(),
            };
            let ghost before = strings_view(all@);
            let mut sys = system_tags();
            all.append(&mut sys);
            proof {
                assert(strings_view(all@) =~= before + system_tag_patterns());
            }
            a.ignore_tag = Some(all);
        }
        a.ignore_tag = match a.ignore_tag {
            Some(v) => Some(split_filter_args(&v)),
            None => None,
        };
        a.tag = match a.tag {
            Some(v) => Some(split_filter_args(&v)),
            None => None,
        };
        a
    }
}

/// The character sequences of an optional list of strings.
pub open spec fn opt_strings(v: Option<Vec<String>>) -> Option<Seq<Seq<char>>> {
    match v {
        Some(l) => Some(strings_view(l@)),
        None => None,
    }
}

} // verus!
