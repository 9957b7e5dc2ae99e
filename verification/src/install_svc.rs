//! Installing: the service of the user's session, the entries of the desktop's menu, and the
//! access to the keyboard.

use crate::text;
use vstd::prelude::*;

verus! {

/// The program of a system-wide installation.
pub fn system_bin() -> (r: &'static str)
    ensures
        r@ == "/usr/bin/xai-dict"@,
{
    "/usr/bin/xai-dict"
}

/// The service of a system-wide installation.
pub fn system_unit() -> (r: &'static str)
    ensures
        r@ == "/usr/lib/systemd/user/xai-dict.service"@,
{
    "/usr/lib/systemd/user/xai-dict.service"
}

/// The library directory of a system-wide installation.
pub fn system_libdir() -> (r: &'static str)
    ensures
        r@ == "/usr/lib/xai-dict"@,
{
    "/usr/lib/xai-dict"
}

/// Whether there is a system-wide installation: its program and its service are there.
pub fn system_package_installed(bin: bool, unit: bool) -> (r: bool)
    ensures
        r == (bin && unit),
{
    bin && unit
}

/// A place where the program may be, and whether it is there.
#[derive(Debug, Clone)]
pub struct Place {
    pub path: String,
    pub is_file: bool,
}

/// The path of a place where there is something.
pub open spec fn found(p: Option<Place>) -> Option<Seq<char>> {
    match p {
        Some(x) => if x.is_file {
            Some(x.path@)
        } else {
            None
        },
        None => None,
    }
}

/// The program that the service runs: the one asked for, the system-wide one, the running one
/// unless it is a debug build, cargo's, or the first on the search path.
pub open spec fn chosen_bin(
    asked: Option<Place>,
    system: bool,
    running: Option<Place>,
    cargo: Option<Place>,
    on_path: Option<Seq<char>>,
) -> Option<Seq<char>> {
    if found(asked) is Some {
        found(asked)
    } else if system {
        Some("/usr/bin/xai-dict"@)
    } else if found(running) is Some && !text::has(found(running)->Some_0, "/target/debug/"@) {
        found(running)
    } else if found(cargo) is Some {
        found(cargo)
    } else {
        on_path
    }
}

fn take_found(p: Option<Place>) -> (r: Option<String>)
    ensures
        text::opt_string(r) == found(p),
{
    match p {
        Some(x) => if x.is_file {
            Some(x.path)
        } else {
            None
        },
        None => None,
    }
}

/// Chooses the program that the service runs.
pub fn resolve_bin(
    asked: Option<Place>,
    system: bool,
    running: Option<Place>,
    cargo: Option<Place>,
    on_path: Option<String>,
) -> (r: Option<String>)
    ensures
        text::opt_string(r) == chosen_bin(
            asked,
            system,
            running,
            cargo,
            text::opt_string(on_path),
        ),
{
    match take_found(asked) {
        Some(p) => return Some(p),
        None => {},
    }
    if system {
        return Some(system_bin().to_string());
    }
    match take_found(running) {
        Some(p) => {
            if !text::contains(p.as_str(), "/target/debug/") {
                return Some(p);
            }
        },
        None => {},
    }
    match take_found(cargo) {
        Some(p) => return Some(p),
        None => {},
    }
    on_path
}

/// The service of the user, below the home directory.
pub fn user_unit_path(home: &str) -> (r: String)
    ensures
        r@ == text::below(home@, ".config/systemd/user/xai-dict.service"@),
{
    text::join_path(home, ".config/systemd/user/xai-dict.service")
}

/// Whether a service of the user stands in the way of the system-wide one: it runs another
/// program.
pub open spec fn stale(unit: Seq<char>) -> bool {
    text::has(unit, ".cargo/bin/xai-dict"@) || !text::has(unit, "/usr/bin/xai-dict"@)
}

/// What is done about the service of the user.
#[derive(Debug, Clone)]
pub enum UnitStep {
    /// It stays, or there is none.
    Leave,
    /// It is moved out of the way.
    MoveAway,
    /// It is written.
    Write(String),
}

/// Where the libraries are: the system-wide directory if it is there, otherwise beside the
/// program if the recogniser is there too, otherwise the system-wide one.
pub open spec fn libdir_of(system: bool, bin_dir: Option<Seq<char>>, worker_beside: bool) -> Seq<char> {
    match bin_dir {
        Some(d) => if !system && worker_beside {
            d
        } else {
            "/usr/lib/xai-dict"@
        },
        None => "/usr/lib/xai-dict"@,
    }
}

/// Finds where the libraries are.
pub fn detect_libdir(system: bool, bin_dir: Option<&str>, worker_beside: bool) -> (r: String)
    ensures
        r@ == libdir_of(system, text::opt_str(bin_dir), worker_beside),
{
    match bin_dir {
        Some(d) => {
            if !system && worker_beside {
                return d.to_string();
            }
        },
        None => {},
    }
    system_libdir().to_string()
}

/// The service of the user.
pub open spec fn unit_of(bin: Seq<char>, libdir: Seq<char>) -> Seq<char> {
    "[Unit]\nDescription=xai-dict voice dictation daemon\nDocumentation=https://github.com/gq3171/xai-dict\nAfter=pipewire.service pipewire-pulse.service graphical-session.target\nWants=pipewire.service\n\n[Service]\nType=simple\nExecStart="@ + bin
        + " daemon\nRestart=on-failure\nRestartSec=2\nEnvironment=RUST_LOG=info\nEnvironment=PATH=/usr/local/bin:/usr/bin:/bin\nEnvironment=LD_LIBRARY_PATH="@
        + libdir + "\nEnvironment=XAI_DICT_LIBDIR="@ + libdir
        + "\n# Do not kill daemon when the terminal that ran enable exits\nKillMode=process\n\n[Install]\nWantedBy=default.target\n"@
}

/// Writes the service of the user.
pub fn unit_body(bin: &str, libdir: &str) -> (r: String)
    ensures
        r@ == unit_of(bin@, libdir@),
{
    let mut out = text::cat(
        "[Unit]\nDescription=xai-dict voice dictation daemon\nDocumentation=https://github.com/gq3171/xai-dict\nAfter=pipewire.service pipewire-pulse.service graphical-session.target\nWants=pipewire.service\n\n[Service]\nType=simple\nExecStart=",
        bin,
    );
    out.append(
        " daemon\nRestart=on-failure\nRestartSec=2\nEnvironment=RUST_LOG=info\nEnvironment=PATH=/usr/local/bin:/usr/bin:/bin\nEnvironment=LD_LIBRARY_PATH=",
    );
    out.append(libdir);
    out.append("\nEnvironment=XAI_DICT_LIBDIR=");
    out.append(libdir);
    out.append(
        "\n# Do not kill daemon when the terminal that ran enable exits\nKillMode=process\n\n[Install]\nWantedBy=default.target\n",
    );
    out
}

/// Decides what is done about the service of the user. Where there is a system-wide one, no other
/// is written; `unit` is the text of the user's, if there is one.
pub fn ensure_user_service(system: bool, unit: Option<&str>, bin: &str, libdir: &str) -> (r: UnitStep)
    ensures
        if system {
            match text::opt_str(unit) {
                Some(t) => if stale(t) {
                    r matches UnitStep::MoveAway
                } else {
                    r matches UnitStep::Leave
                },
                None => r matches UnitStep::Leave,
            }
        } else {
            r matches UnitStep::Write(t) && t@ == unit_of(bin@, libdir@)
        },
{
    if !system {
        return UnitStep::Write(unit_body(bin, libdir));
    }
    match unit {
        Some(t) => {
            if text::contains(t, ".cargo/bin/xai-dict") || !text::contains(t, "/usr/bin/xai-dict") {
                return UnitStep::MoveAway;
            }
        },
        None => {},
    }
    UnitStep::Leave
}

/// An entry of the desktop's menu.
#[derive(Debug, Clone)]
pub struct Entry {
    pub name: String,
    pub body: String,
}

/// The entries of the desktop's menu: their names and what they hold.
pub open spec fn entries_of(bin: Seq<char>) -> Seq<(Seq<char>, Seq<char>)> {
    seq![
        (
            "xai-dict-toggle.desktop"@,
            "[Desktop Entry]\nName=xai-dict Toggle\nComment=Start/stop voice dictation\nExec="@
                + bin
                + " toggle\nIcon=audio-input-microphone\nTerminal=false\nType=Application\nCategories=Utility;AudioVideo;\nStartupNotify=false\n"@,
        ),
        (
            "xai-dict-settings.desktop"@,
            "[Desktop Entry]\nName=xai-dict 设置\nName[en]=xai-dict Settings\nComment=Configure voice dictation\nExec="@
                + bin
                + " config gui\nIcon=preferences-desktop-multimedia\nTerminal=false\nType=Application\nCategories=Settings;Utility;AudioVideo;\nStartupNotify=true\n"@,
        ),
        (
            "xai-dict.desktop"@,
            "[Desktop Entry]\nName=xai-dict\nComment=Voice dictation status\nExec="@
                + bin
                + " whoami\nIcon=audio-input-microphone\nTerminal=true\nType=Application\nCategories=Utility;AudioVideo;\n"@,
        ),
    ]
}

/// What entries hold.
pub open spec fn entries_view(v: Seq<Entry>) -> Seq<(Seq<char>, Seq<char>)> {
    v.map_values(|e: Entry| (e.name@, e.body@))
}

fn entry(name: &str, head: &str, bin: &str, tail: &str) -> (r: Entry)
    ensures
        r.name@ == name@,
        r.body@ == head@ + bin@ + tail@,
{
    let mut body = text::cat(head, bin);
    body.append(tail);
    Entry { name: name.to_string(), body }
}

/// Writes the entries of the desktop's menu.
pub fn desktop_entries(bin: &str) -> (r: Vec<Entry>)
    ensures
        entries_view(r@) == entries_of(bin@),
{
    let mut out: Vec<Entry> = Vec::new();
    out.push(
        entry(
            "xai-dict-toggle.desktop",
            "[Desktop Entry]\nName=xai-dict Toggle\nComment=Start/stop voice dictation\nExec=",
            bin,
            " toggle\nIcon=audio-input-microphone\nTerminal=false\nType=Application\nCategories=Utility;AudioVideo;\nStartupNotify=false\n",
        ),
    );
    out.push(
        entry(
            "xai-dict-settings.desktop",
            "[Desktop Entry]\nName=xai-dict 设置\nName[en]=xai-dict Settings\nComment=Configure voice dictation\nExec=",
            bin,
            " config gui\nIcon=preferences-desktop-multimedia\nTerminal=false\nType=Application\nCategories=Settings;Utility;AudioVideo;\nStartupNotify=true\n",
        ),
    );
    out.push(
        entry(
            "xai-dict.desktop",
            "[Desktop Entry]\nName=xai-dict\nComment=Voice dictation status\nExec=",
            bin,
            " whoami\nIcon=audio-input-microphone\nTerminal=true\nType=Application\nCategories=Utility;AudioVideo;\n",
        ),
    );
    assert(entries_view(out@) =~= entries_of(bin@));
    out
}

/// The service of ydotool.
pub fn ydotoold_unit() -> (r: &'static str)
    ensures
        r@ == "[Unit]\nDescription=ydotool daemon (keyboard automation for xai-dict)\n\n[Service]\nType=simple\nExecStart=/usr/bin/ydotoold --socket-path=%t/.ydotool_socket --socket-perm=0600\nRestart=on-failure\nRestartSec=1\n\n[Install]\nWantedBy=default.target\n"@,
{
    "[Unit]\nDescription=ydotool daemon (keyboard automation for xai-dict)\n\n[Service]\nType=simple\nExecStart=/usr/bin/ydotoold --socket-path=%t/.ydotool_socket --socket-perm=0600\nRestart=on-failure\nRestartSec=1\n\n[Install]\nWantedBy=default.target\n"
}

/// What follows on a step of turning the service on.
#[derive(Debug, Clone, Copy, PartialEq, Eq, Structural)]
pub enum Enable {
    /// There is no session to turn it on in: leave it.
    NoSession,
    /// It could not be turned on.
    Failed,
    /// It is on.
    Done,
    /// It is on and is to be started.
    Start,
}

/// What follows on reading the services anew and turning this one on.
pub fn reload_and_enable(reloaded: bool, enabled: bool, start_now: bool) -> (r: Enable)
    ensures
        r == if !reloaded {
            Enable::NoSession
        } else if !enabled {
            Enable::Failed
        } else if start_now {
            Enable::Start
        } else {
            Enable::Done
        },
{
    if !reloaded {
        Enable::NoSession
    } else if !enabled {
        Enable::Failed
    } else if start_now {
        Enable::Start
    } else {
        Enable::Done
    }
}

/// The number in the third field of a line of the groups file, if it is the group `input`.
pub open spec fn input_gid_at(line: Seq<char>) -> Option<nat> {
    if "input:"@.is_prefix_of(line) {
        match text::field_at(line, ':', 2) {
            Some(f) => text::unsigned_value(f, u32::MAX as nat),
            None => None,
        }
    } else {
        None
    }
}

/// The number of the group `input` among the lines of the groups file.
pub open spec fn input_gid(ls: Seq<Seq<char>>) -> Option<nat>
    decreases ls.len(),
{
    if ls.len() == 0 {
        None
    } else if input_gid_at(ls[0]) is Some {
        input_gid_at(ls[0])
    } else {
        input_gid(ls.skip(1))
    }
}

fn find_input_gid(groups: &str) -> (r: Option<u64>)
    ensures
        match input_gid(text::lines_of(groups@)) {
            Some(n) => r is Some && r->Some_0 == n,
            None => r is None,
        },
{
    let ls = text::lines(groups);
    let ghost all = text::texts(ls@);
    let mut i: usize = 0;
    assert(all.skip(0) =~= all);
    while i < ls.len()
        invariant
            i <= ls.len(),
            all == text::texts(ls@),
            all == text::lines_of(groups@),
            input_gid(all) == input_gid(all.skip(i as int)),
        decreases ls.len() - i,
    {
        let line = ls[i].as_str();
        assert(all.skip(i as int)[0] == line@);
        assert(all.skip(i as int).skip(1) =~= all.skip(i as int + 1));
        if text::starts_with(line, "input:") {
            match text::field(line, ':', 2) {
                Some(f) => match text::parse_unsigned(f, 0xffff_ffff) {
                    Some(n) => return Some(n),
                    None => {},
                },
                None => {},
            }
        }
        i += 1;
    }
    None
}

/// Whether a process is in the group `input`, from its status and the groups file; nothing if
/// that cannot be told.
pub open spec fn in_input_group(status: Option<Seq<char>>, groups: Option<Seq<char>>) -> Option<bool> {
    match (status, groups) {
        (Some(s), Some(g)) => match (
            text::line_with(text::lines_of(s), "Groups:"@),
            input_gid(text::lines_of(g)),
        ) {
            (Some(l), Some(gid)) => Some(text::words_of(l).contains(text::decimal(gid))),
            _ => None,
        },
        _ => None,
    }
}

fn has_word(s: &str, word: &str) -> (r: bool)
    ensures
        r == text::words_of(s@).contains(word@),
{
    let ws = text::words(s);
    let ghost all = text::texts(ws@);
    let mut i: usize = 0;
    while i < ws.len()
        invariant
            i <= ws.len(),
            all == text::texts(ws@),
            all == text::words_of(s@),
            forall|k: int| 0 <= k < i ==> all[k] != word@,
        decreases ws.len() - i,
    {
        if text::same(ws[i].as_str(), word) {
            assert(all[i as int] == word@);
            return true;
        }
        i += 1;
    }
    false
}

/// Tells whether this process is in the group `input`.
pub fn check_input_group(status: Option<&str>, groups: Option<&str>) -> (r: Option<bool>)
    ensures
        r == in_input_group(text::opt_str(status), text::opt_str(groups)),
{
    let s = match status {
        Some(t) => t,
        None => return None,
    };
    let g = match groups {
        Some(t) => t,
        None => return None,
    };
    match text::find_line(s, "Groups:") {
        Some(line) => match find_input_gid(g) {
            Some(gid) => {
                let word = text::number(gid);
                Some(has_word(line.as_str(), word.as_str()))
            },
            None => None,
        },
        None => None,
    }
}

/// Whether what a daemon replied shows that it is running.
pub fn probe_daemon_alive(reply: &str) -> (r: bool)
    ensures
        r == text::has(reply@, "OK"@),
{
    text::contains(reply, "OK")
}

/// A service that was written for cargo's program stands in the way once there is a system-wide
/// installation.
pub proof fn cargo_units_are_stale(bin: Seq<char>, libdir: Seq<char>)
    requires
        text::has(bin, ".cargo/bin/xai-dict"@),
    ensures
        stale(unit_of(bin, libdir)),
{
    let unit = unit_of(bin, libdir);
    let pat = ".cargo/bin/xai-dict"@;
    let i = choose|i: int|
        0 <= i && i + pat.len() <= bin.len() && #[trigger] bin.subrange(i, i + pat.len()) == pat;
    let head = "[Unit]\nDescription=xai-dict voice dictation daemon\nDocumentation=https://github.com/gq3171/xai-dict\nAfter=pipewire.service pipewire-pulse.service graphical-session.target\nWants=pipewire.service\n\n[Service]\nType=simple\nExecStart="@;
    let k = head.len() + i;
    assert(unit.subrange(k, k + pat.len()) =~= bin.subrange(i, i + pat.len()));
}

/// The program that is asked for counts if it is there; otherwise the system-wide one, the running one
/// unless it is a debug build, cargo's, and the first on the search path, in this order.
pub proof fn programs_are_chosen_in_order(
    asked: Option<Place>,
    running: Option<Place>,
    cargo: Option<Place>,
    on_path: Option<Seq<char>>,
    p: Place,
    system: bool,
)
    ensures
        p.is_file ==> chosen_bin(Some(p), system, running, cargo, on_path) == Some(p.path@),
        asked is None || !asked->Some_0.is_file ==> {
            &&& chosen_bin(asked, true, running, cargo, on_path) == Some("/usr/bin/xai-dict"@)
            &&& p.is_file && !text::has(p.path@, "/target/debug/"@) ==> chosen_bin(
                asked,
                false,
                Some(p),
                cargo,
                on_path,
            ) == Some(p.path@)
            &&& running is None || !running->Some_0.is_file || text::has(
                running->Some_0.path@,
                "/target/debug/"@,
            ) ==> {
                &&& p.is_file ==> chosen_bin(asked, false, running, Some(p), on_path) == Some(p.path@)
                &&& cargo is None || !cargo->Some_0.is_file ==> chosen_bin(
                    asked,
                    false,
                    running,
                    cargo,
                    on_path,
                ) == on_path
            }
        },
{
}

/// The libraries lie beside the program exactly if there is no system-wide directory and the recogniser
/// lies there too.
pub proof fn libraries_lie_beside_the_program(dir: Seq<char>, system: bool, beside: bool)
    ensures
        libdir_of(false, Some(dir), true) == dir,
        system || !beside ==> libdir_of(system, Some(dir), beside) == "/usr/lib/xai-dict"@,
        libdir_of(system, None, beside) == "/usr/lib/xai-dict"@,
{
}

proof fn lemma_has(head: Seq<char>, pat: Seq<char>, tail: Seq<char>)
    ensures
        text::has(head + pat + tail, pat),
{
    let all = head + pat + tail;
    let k = head.len() as int;
    assert(all.subrange(k, k + pat.len()) =~= pat);
}

/// The service runs the given program as the daemon and is told where its libraries are.
pub proof fn the_service_runs_the_program(bin: Seq<char>, libdir: Seq<char>)
    ensures
        text::has(unit_of(bin, libdir), "ExecStart="@ + bin + " daemon\n"@),
        text::has(unit_of(bin, libdir), "\nEnvironment=XAI_DICT_LIBDIR="@ + libdir + "\n"@),
        text::has(unit_of(bin, libdir), "LD_LIBRARY_PATH="@ + libdir + "\n"@),
{
    let head = "[Unit]\nDescription=xai-dict voice dictation daemon\nDocumentation=https://github.com/gq3171/xai-dict\nAfter=pipewire.service pipewire-pulse.service graphical-session.target\nWants=pipewire.service\n\n[Service]\nType=simple\nExecStart="@;
    let mid = " daemon\nRestart=on-failure\nRestartSec=2\nEnvironment=RUST_LOG=info\nEnvironment=PATH=/usr/local/bin:/usr/bin:/bin\nEnvironment=LD_LIBRARY_PATH="@;
    let dir = "\nEnvironment=XAI_DICT_LIBDIR="@;
    let end = "\n# Do not kill daemon when the terminal that ran enable exits\nKillMode=process\n\n[Install]\nWantedBy=default.target\n"@;
    reveal_strlit("[Unit]\nDescription=xai-dict voice dictation daemon\nDocumentation=https://github.com/gq3171/xai-dict\nAfter=pipewire.service pipewire-pulse.service graphical-session.target\nWants=pipewire.service\n\n[Service]\nType=simple\nExecStart=");
    reveal_strlit(" daemon\nRestart=on-failure\nRestartSec=2\nEnvironment=RUST_LOG=info\nEnvironment=PATH=/usr/local/bin:/usr/bin:/bin\nEnvironment=LD_LIBRARY_PATH=");
    reveal_strlit("\nEnvironment=XAI_DICT_LIBDIR=");
    reveal_strlit("\n# Do not kill daemon when the terminal that ran enable exits\nKillMode=process\n\n[Install]\nWantedBy=default.target\n");
    reveal_strlit("ExecStart=");
    reveal_strlit(" daemon\n");
    reveal_strlit("LD_LIBRARY_PATH=");
    reveal_strlit("\n");
    let unit = unit_of(bin, libdir);
    let (e, d, l, n) = ("ExecStart="@, " daemon\n"@, "LD_LIBRARY_PATH="@, "\n"@);
    assert(head.skip(head.len() - e.len()) =~= e);
    assert(head =~= head.take(head.len() - e.len()) + e);
    assert(mid.take(d.len() as int) =~= d);
    assert(mid =~= d + mid.skip(d.len() as int));
    assert(mid.skip(mid.len() - l.len()) =~= l);
    assert(mid =~= mid.take(mid.len() - l.len()) + l);
    assert(dir =~= n + dir.skip(1));
    assert(end =~= n + end.skip(1));
    let tail = libdir + dir + libdir + end;
    lemma_has(head.take(head.len() - e.len()), e + bin + d, mid.skip(d.len() as int) + tail);
    assert(unit =~= head.take(head.len() - e.len()) + (e + bin + d) + (mid.skip(d.len() as int) + tail));
    lemma_has(head + bin + mid + libdir, dir + libdir + n, end.skip(1));
    assert(unit =~= head + bin + mid + libdir + (dir + libdir + n) + end.skip(1));
    lemma_has(head + bin + mid.take(mid.len() - l.len()), l + libdir + n, dir.skip(1) + libdir + end);
    assert(unit =~= head + bin + mid.take(mid.len() - l.len()) + (l + libdir + n) + (dir.skip(1) + libdir
        + end));
}

/// A service stands in the way exactly if it runs cargo's program or not the system-wide one.
pub proof fn services_stand_in_the_way(head: Seq<char>, tail: Seq<char>, unit: Seq<char>)
    ensures
        stale(head + ".cargo/bin/xai-dict"@ + tail),
        !text::has(unit, "/usr/bin/xai-dict"@) ==> stale(unit),
        text::has(unit, "/usr/bin/xai-dict"@) && !text::has(unit, ".cargo/bin/xai-dict"@) ==> !stale(unit),
{
    lemma_has(head, ".cargo/bin/xai-dict"@, tail);
}

/// Each entry of the menu runs the given program: one toggles, one opens the settings, one shows the
/// status.
pub proof fn entries_run_the_program(bin: Seq<char>)
    ensures
        entries_of(bin).len() == 3,
        entries_of(bin)[0].0 == "xai-dict-toggle.desktop"@,
        entries_of(bin)[1].0 == "xai-dict-settings.desktop"@,
        entries_of(bin)[2].0 == "xai-dict.desktop"@,
        text::has(entries_of(bin)[0].1, "Exec="@ + bin + " toggle\n"@),
        text::has(entries_of(bin)[1].1, "Exec="@ + bin + " config gui\n"@),
        text::has(entries_of(bin)[2].1, "Exec="@ + bin + " whoami\n"@),
{
    reveal_strlit("Exec=");
    reveal_strlit(" toggle\n");
    reveal_strlit(" config gui\n");
    reveal_strlit(" whoami\n");
    reveal_strlit("[Desktop Entry]\nName=xai-dict Toggle\nComment=Start/stop voice dictation\nExec=");
    reveal_strlit(" toggle\nIcon=audio-input-microphone\nTerminal=false\nType=Application\nCategories=Utility;AudioVideo;\nStartupNotify=false\n");
    reveal_strlit("[Desktop Entry]\nName=xai-dict 设置\nName[en]=xai-dict Settings\nComment=Configure voice dictation\nExec=");
    reveal_strlit(" config gui\nIcon=preferences-desktop-multimedia\nTerminal=false\nType=Application\nCategories=Settings;Utility;AudioVideo;\nStartupNotify=true\n");
    reveal_strlit("[Desktop Entry]\nName=xai-dict\nComment=Voice dictation status\nExec=");
    reveal_strlit(" whoami\nIcon=audio-input-microphone\nTerminal=true\nType=Application\nCategories=Utility;AudioVideo;\n");
    lemma_entry(
        "[Desktop Entry]\nName=xai-dict Toggle\nComment=Start/stop voice dictation\nExec="@,
        bin,
        " toggle\nIcon=audio-input-microphone\nTerminal=false\nType=Application\nCategories=Utility;AudioVideo;\nStartupNotify=false\n"@,
        "Exec="@,
        " toggle\n"@,
    );
    lemma_entry(
        "[Desktop Entry]\nName=xai-dict 设置\nName[en]=xai-dict Settings\nComment=Configure voice dictation\nExec="@,
        bin,
        " config gui\nIcon=preferences-desktop-multimedia\nTerminal=false\nType=Application\nCategories=Settings;Utility;AudioVideo;\nStartupNotify=true\n"@,
        "Exec="@,
        " config gui\n"@,
    );
    lemma_entry(
        "[Desktop Entry]\nName=xai-dict\nComment=Voice dictation status\nExec="@,
        bin,
        " whoami\nIcon=audio-input-microphone\nTerminal=true\nType=Application\nCategories=Utility;AudioVideo;\n"@,
        "Exec="@,
        " whoami\n"@,
    );
}

proof fn lemma_entry(head: Seq<char>, bin: Seq<char>, tail: Seq<char>, a: Seq<char>, b: Seq<char>)
    requires
        a.is_suffix_of(head),
        b.is_prefix_of(tail),
    ensures
        text::has(head + bin + tail, a + bin + b),
{
    let h = head.take(head.len() - a.len());
    let t = tail.skip(b.len() as int);
    lemma_has(h, a + bin + b, t);
    assert(head + bin + tail =~= h + (a + bin + b) + t);
}

/// The number of the group is the third field of the first line of that group that gives one; the other
/// groups' lines do not matter.
pub proof fn the_groups_number_is_found(
    before: Seq<Seq<char>>,
    n: nat,
    members: Seq<char>,
    behind: Seq<Seq<char>>,
)
    requires
        forall|i: int| 0 <= i < before.len() ==> !"input:"@.is_prefix_of(#[trigger] before[i]),
        n <= u32::MAX,
        forall|i: int| 0 <= i < members.len() ==> members[i] != ':',
    ensures
        input_gid(
            before.push("input:x:"@ + text::decimal(n) + seq![':'] + members) + behind,
        ) == Some(n),
        input_gid(before) is None,
    decreases before.len(),
{
    let line = "input:x:"@ + text::decimal(n) + seq![':'] + members;
    let all = before.push(line) + behind;
    if before.len() == 0 {
        reveal_strlit("input:");
        reveal_strlit("input:x:");
        assert(all[0] == line);
        let parts = seq![seq!['i', 'n', 'p', 'u', 't'], seq!['x'], text::decimal(n), members];
        text::numbers_read_back(n, u32::MAX as nat, Seq::empty());
        assert forall|i: int, j: int| 0 <= i < parts.len() && 0 <= j < parts[i].len() implies
            #[trigger] parts[i][j] != ':' by {
            if i == 2 {
                assert('0' <= text::decimal(n)[j] && text::decimal(n)[j] <= '9');
            }
        }
        text::fields_are_what_was_joined(parts, ':', 2);
        reveal_with_fuel(text::joined, 5);
        assert(parts.drop_last() =~= seq![seq!['i', 'n', 'p', 'u', 't'], seq!['x'], text::decimal(n)]);
        assert(parts.drop_last().drop_last() =~= seq![seq!['i', 'n', 'p', 'u', 't'], seq!['x']]);
        assert(parts.drop_last().drop_last().drop_last() =~= seq![seq!['i', 'n', 'p', 'u', 't']]);
        assert(text::joined(parts, seq![':']) =~= line);
        assert("input:"@.is_prefix_of(line));
    } else {
        assert(all[0] == before[0]);
        let less = before.skip(1);
        assert(all.skip(1) =~= less.push(line) + behind);
        assert forall|i: int| 0 <= i < less.len() implies !"input:"@.is_prefix_of(#[trigger] less[i]) by {
            assert(less[i] == before[i + 1]);
        }
        the_groups_number_is_found(less, n, members, behind);
    }
}

/// A process is in the group exactly if the group's number is one of the words of the line that lists its
/// groups; nothing is said where either is not known.
pub proof fn membership_is_read_from_the_list(s: Seq<char>, g: Seq<char>, gid: nat)
    ensures
        ({
            let listed = text::line_with(text::lines_of(s), "Groups:"@);
            let number = input_gid(text::lines_of(g));
            &&& listed is Some && number == Some(gid) ==> in_input_group(Some(s), Some(g)) == Some(
                text::words_of(listed->Some_0).contains(text::decimal(gid)),
            )
            &&& listed is None || number is None ==> in_input_group(Some(s), Some(g)) is None
            &&& in_input_group(None, Some(g)) is None
            &&& in_input_group(Some(s), None) is None
        }),
{
}

} // verus!
