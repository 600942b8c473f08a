//! The forms of the product's name, and the crossover from the name that it had before.
use vstd::prelude::*;

use crate::text;
use crate::text::{
    cat, cat3, chars_of, replace, same, split, strip_prefix, substring, to_lowercase,
    trim_end_char,
};

verus! {

/// A letter or a digit of ASCII.
pub open spec fn alphanumeric(c: char) -> bool {
    ('0' <= c <= '9') || ('A' <= c <= 'Z') || ('a' <= c <= 'z')
}

/// The letters and digits of ASCII in a text.
pub open spec fn alphanumerics(s: Seq<char>) -> Seq<char>
    decreases s.len(),
{
    if s.len() == 0 {
        s
    } else {
        let before = alphanumerics(s.drop_last());
        if alphanumeric(s.last()) {
            before.push(s.last())
        } else {
            before
        }
    }
}

/// The letters and digits of ASCII in a text.
pub fn keep_alphanumerics(s: &str) -> (r: String)
    ensures
        r@ == alphanumerics(s@),
{
    let v = chars_of(s);
    let mut out = String::new();
    let mut i: usize = 0;
    assert(out@ =~= alphanumerics(v@.take(0)));
    while i < v.len()
        invariant
            i <= v@.len(),
            out@ == alphanumerics(v@.take(i as int)),
        decreases v@.len() - i,
    {
        assert(v@.take(i + 1).drop_last() == v@.take(i as int));
        let c: char = v[i];
        if ('0' <= c && c <= '9') || ('A' <= c && c <= 'Z') || ('a' <= c && c <= 'z') {
            out.push(c);
        }
        i = i + 1;
    }
    assert(v@.take(i as int) == v@);
    out
}

/// The name of the service, of the classes in the registry and of the address scheme: small
/// letters and digits alone.
pub fn get_app_ident(app_name: &str) -> (r: String)
    ensures
        r@ == alphanumerics(text::lowercase(app_name@)),
{
    keep_alphanumerics(to_lowercase(app_name).as_str())
}

/// An identifier holds letters and digits of ASCII only.
pub proof fn an_identifier_has_no_space(s: Seq<char>)
    ensures
        forall|i: int|
            0 <= i < alphanumerics(s).len() ==> alphanumeric(#[trigger] alphanumerics(s)[i]),
    decreases s.len(),
{
    if s.len() > 0 {
        an_identifier_has_no_space(s.drop_last());
        assert forall|i: int| 0 <= i < alphanumerics(s).len() implies alphanumeric(
            #[trigger] alphanumerics(s)[i],
        ) by {
            if i < alphanumerics(s.drop_last()).len() {
                assert(alphanumerics(s)[i] == alphanumerics(s.drop_last())[i]);
            }
        }
    }
}

/// The name of the installed program, from the stem of the product's files.
pub fn get_app_exe_name(file_base: &str) -> (r: String)
    ensures
        r@ == file_base@ + ".exe"@,
{
    cat(file_base, ".exe")
}

/// The program's name before it was renamed.
pub const LEGACY_EXE_NAME: &'static str = "sulltec-remote.exe";

/// The product's name before it was renamed.
pub const LEGACY_DISPLAY_NAME: &'static str = "SullTec Remote";

/// What is found on the disk of a machine.
pub struct Installed {
    /// The program under its present name.
    pub current: bool,
    /// The program under its former name, in the same directory.
    pub legacy: bool,
}

/// The program's path under its former name.
pub open spec fn legacy_path_v(path: Seq<char>) -> Seq<char> {
    text::trim_end_char_v(path, '\\') + "\\"@ + LEGACY_EXE_NAME@
}

/// The program's path under its former name.
pub fn legacy_path(path: &str) -> (r: String)
    ensures
        r@ == legacy_path_v(path@),
{
    trim_end_char(path, '\\').concat("\\").concat(LEGACY_EXE_NAME)
}

/// The program's path under its former name, where that is what is installed. Where the present
/// one is there too, it is not.
pub fn installed_legacy_exe(path: &str, found: &Installed) -> (r: Option<String>)
    ensures
        text::opt_text(r) == (if !found.current && found.legacy {
            Some(legacy_path_v(path@))
        } else {
            None
        }),
{
    if found.current {
        return None;
    }
    if found.legacy {
        Some(legacy_path(path))
    } else {
        None
    }
}

/// Whether the program is installed under either name.
pub fn is_installed_either_name(path: &str, found: &Installed) -> (r: bool)
    ensures
        r == (found.current || found.legacy),
{
    found.current || installed_legacy_exe(path, found).is_some()
}

/// Whether a machine still has to cross over.
pub open spec fn to_cross(found: Installed) -> bool {
    !found.current && found.legacy
}

/// The commands that stop the program under its former name.
pub open spec fn stop_v() -> Seq<char> {
    "\ntaskkill /F /IM \""@ + LEGACY_EXE_NAME@ + "\"\n"@
}

/// The commands that stop the program under its former name; none on a machine that has crossed
/// over.
pub fn crossover_stop_cmds(path: &str, found: &Installed) -> (r: String)
    ensures
        r@ == (if to_cross(*found) {
            stop_v()
        } else {
            Seq::<char>::empty()
        }),
{
    if installed_legacy_exe(path, found).is_none() {
        return String::new();
    }
    cat3("\ntaskkill /F /IM \"", LEGACY_EXE_NAME, "\"\n")
}

/// A separator of a path.
pub open spec fn separator(c: char) -> bool {
    c == '\\' || c == '/'
}

/// A path begins with a drive, such as `C:`.
pub open spec fn on_drive(path: Seq<char>) -> bool {
    path.len() >= 2 && (('A' <= path[0] <= 'Z') || ('a' <= path[0] <= 'z')) && path[1] == ':'
}

/// A path begins with two separators and a name, such as `\\\\server\\share`.
pub open spec fn on_network(path: Seq<char>) -> bool {
    path.len() >= 3 && separator(path[0]) && separator(path[1]) && !separator(path[2])
}

/// The parts of a path that are not empty.
pub open spec fn filled_parts(parts: Seq<Seq<char>>) -> Seq<Seq<char>>
    decreases parts.len(),
{
    if parts.len() == 0 {
        seq![]
    } else if parts.last().len() > 0 {
        filled_parts(parts.drop_last()).push(parts.last())
    } else {
        filled_parts(parts.drop_last())
    }
}

/// The parts between the separators of a path, behind its drive.
pub open spec fn path_parts(path: Seq<char>) -> Seq<Seq<char>> {
    let rest = if on_drive(path) {
        path.skip(2)
    } else {
        path
    };
    filled_parts(text::split_v(text::replace_v(rest, "/"@, "\\"@), '\\'))
}

/// The last part that is no `.`; no text where that is `..`, which names no file.
pub open spec fn last_name(parts: Seq<Seq<char>>) -> Seq<char>
    decreases parts.len(),
{
    if parts.len() == 0 || parts.last() == ".."@ {
        seq![]
    } else if parts.last() == "."@ {
        last_name(parts.drop_last())
    } else {
        parts.last()
    }
}

/// A path is taken as it is written: only `\\` separates its parts, and `.` is one of them.
pub open spec fn verbatim(path: Seq<char>) -> bool {
    text::prefixed(path, "\\\\?\\"@)
}

/// The parts of a path that is taken as it is written.
pub open spec fn verbatim_parts(path: Seq<char>) -> Seq<Seq<char>> {
    filled_parts(text::split_v(path.skip("\\\\?\\"@.len() as int), '\\'))
}

/// The file that a path names which is taken as it is written. Its drive, its first name, or
/// `UNC` with the names of a server and its share, is no part of it.
pub open spec fn verbatim_file(parts: Seq<Seq<char>>) -> Seq<char> {
    let head: int = if parts.len() > 0 && parts[0] == "UNC"@ {
        3
    } else {
        1
    };
    if parts.len() <= head || parts.last() == "."@ || parts.last() == ".."@ {
        seq![]
    } else {
        parts.last()
    }
}

/// The file that a path names. Separators at its end do not count, a drive and the names of a
/// server and its share are no part of it, and a path that ends in `..` names no file.
pub open spec fn file_of(path: Seq<char>) -> Seq<char> {
    let parts = path_parts(path);
    if verbatim(path) {
        verbatim_file(verbatim_parts(path))
    } else if on_network(path) && parts.len() >= 2 {
        last_name(parts.skip(2))
    } else {
        last_name(parts)
    }
}

proof fn lemma_replace_closed(s: Seq<char>)
    ensures
        text::replace_v(s.push('\\'), "/"@, "\\"@) == text::replace_v(s, "/"@, "\\"@).push('\\'),
    decreases s.len(),
{
    reveal_strlit("/");
    reveal_strlit("\\");
    let t = s.push('\\');
    if s.len() == 0 {
        assert(t.take(1)[0] == '\\' && "/"@[0] == '/');
        assert(!text::prefixed(t, "/"@));
        assert(t.drop_first() =~= s);
        assert(text::replace_v(s, "/"@, "\\"@) == s);
        assert(text::replace_v(t, "/"@, "\\"@) == seq![t[0]] + s);
        assert(text::replace_v(t, "/"@, "\\"@) =~= s.push('\\'));
    } else {
        lemma_replace_closed(s.drop_first());
        assert(t.drop_first() =~= s.drop_first().push('\\'));
        assert(t.skip(1) =~= t.drop_first());
        assert(s.skip(1) =~= s.drop_first());
        assert(t.take(1) =~= s.take(1));
        assert(text::replace_v(t, "/"@, "\\"@) =~= text::replace_v(s, "/"@, "\\"@).push('\\'));
    }
}

proof fn lemma_split_closed(s: Seq<char>, c: char)
    ensures
        text::split_v(s.push(c), c) == text::split_v(s, c).push(Seq::<char>::empty()),
    decreases s.len(),
{
    let t = s.push(c);
    let i = text::index_of(s, c);
    let j = text::index_of(t, c);
    text::lemma_index_of_props(s, c);
    text::lemma_index_of_props(t, c);
    assert(t[s.len() as int] == c);
    if i >= s.len() {
        assert(j == s.len()) by {
            if j < s.len() {
                assert(s[j] == t[j]);
            }
        }
        assert(t.take(j) =~= s);
        assert(t.skip(j + 1) =~= Seq::<char>::empty());
        assert(text::split_v(t.skip(j + 1), c) =~= seq![Seq::<char>::empty()]);
        assert(text::split_v(t, c) =~= text::split_v(s, c).push(Seq::<char>::empty()));
    } else {
        assert(j == i) by {
            assert(t[i] == s[i]);
            if j < i {
                assert(s[j] == t[j]);
            }
        }
        assert(t.take(i) =~= s.take(i));
        assert(t.skip(i + 1) =~= s.skip(i + 1).push(c));
        lemma_split_closed(s.skip(i + 1), c);
        assert(text::split_v(t, c) =~= text::split_v(s, c).push(Seq::<char>::empty()));
    }
}

/// A separator at the end of a path does not change which file it names, but for the one that
/// makes it a path that is taken as it is written.
pub proof fn a_closing_separator_does_not_count(path: Seq<char>)
    requires
        path != "\\\\?"@,
    ensures
        file_of(path.push('\\')) == file_of(path),
{
    let closed = path.push('\\');
    reveal_strlit("\\\\?\\");
    reveal_strlit("\\\\?");
    assert("\\\\?\\"@ =~= "\\\\?"@.push('\\'));
    if verbatim(closed) {
        if path.len() < 4 {
            assert(closed.take(4) =~= closed);
            assert(closed.drop_last() =~= path);
            assert("\\\\?"@.push('\\').drop_last() =~= "\\\\?"@);
        }
        assert(path.take(4) =~= closed.take(4));
        assert(closed.skip(4) =~= path.skip(4).push('\\'));
        lemma_split_closed(path.skip(4), '\\');
        let p = text::split_v(path.skip(4), '\\');
        assert(p.push(Seq::<char>::empty()).drop_last() =~= p);
    } else if verbatim(path) {
        assert(closed.take(4) =~= path.take(4));
    }
    let rest = if on_drive(path) {
        path.skip(2)
    } else {
        path
    };
    assert(on_drive(closed) == on_drive(path));
    assert(on_drive(path) ==> closed.skip(2) =~= rest.push('\\'));
    lemma_replace_closed(rest);
    let flat = text::replace_v(rest, "/"@, "\\"@);
    lemma_split_closed(flat, '\\');
    let parts = text::split_v(flat, '\\');
    assert(parts.push(Seq::<char>::empty()).drop_last() =~= parts);
    assert(path_parts(closed) == path_parts(path));
    if path.len() == 2 {
        assert(closed[2] == '\\');
    }
    assert(on_network(closed) == on_network(path));
}

/// Whether a character separates the parts of a path.
pub fn is_separator(c: char) -> (r: bool)
    ensures
        r == separator(c),
{
    c == '\\' || c == '/'
}

fn filled(parts: Vec<String>) -> (r: Vec<String>)
    ensures
        text::texts(r@) == filled_parts(text::texts(parts@)),
{
    let ghost all = text::texts(parts@);
    let mut out: Vec<String> = Vec::new();
    let mut i: usize = 0;
    assert(text::texts(out@) =~= filled_parts(all.take(0)));
    while i < parts.len()
        invariant
            i <= parts@.len(),
            all == text::texts(parts@),
            text::texts(out@) == filled_parts(all.take(i as int)),
        decreases parts@.len() - i,
    {
        assert(all.take(i + 1).drop_last() == all.take(i as int));
        assert(all.take(i + 1).last() == parts@[i as int]@);
        if !parts[i].as_str().is_empty() {
            let ghost o = out@;
            out.push(parts[i].clone());
            assert(text::texts(out@) =~= text::texts(o).push(parts@[i as int]@));
        }
        i = i + 1;
    }
    assert(all.take(i as int) == all);
    out
}

fn parts_of(path: &str) -> (r: Vec<String>)
    ensures
        text::texts(r@) == path_parts(path@),
{
    proof {
        reveal_strlit("/");
    }
    let v = chars_of(path);
    let drive = v.len() >= 2 && (('A' <= v[0] && v[0] <= 'Z') || ('a' <= v[0] && v[0] <= 'z'))
        && v[1] == ':';
    let rest = if drive {
        substring(&v, 2, v.len())
    } else {
        path.to_owned()
    };
    assert(drive ==> rest@ =~= path@.skip(2));
    filled(split(replace(rest.as_str(), "/", "\\").as_str(), '\\'))
}

/// The file that a path names.
pub fn file_name(path: &str) -> (r: String)
    ensures
        r@ == file_of(path@),
{
    if let Some(rest) = strip_prefix(path, "\\\\?\\") {
        let parts = filled(split(rest.as_str(), '\\'));
        let ghost all = text::texts(parts@);
        assert(all == verbatim_parts(path@));
        assert(parts@.len() > 0 ==> all[0] == parts@[0]@ && all.last() == parts@.last()@);
        let head: usize = if parts.len() > 0 && same(parts[0].as_str(), "UNC") {
            3
        } else {
            1
        };
        if parts.len() <= head {
            return String::new();
        }
        let last = parts[parts.len() - 1].clone();
        if same(last.as_str(), ".") || same(last.as_str(), "..") {
            return String::new();
        }
        return last;
    }
    let v = chars_of(path);
    let parts = parts_of(path);
    let ghost all = text::texts(parts@);
    let network = v.len() >= 3 && is_separator(v[0]) && is_separator(v[1]) && !is_separator(v[2]);
    let from: usize = if network && parts.len() >= 2 {
        2
    } else {
        0
    };
    let ghost below = all.skip(from as int);
    assert(from == 0 ==> below =~= all);
    let mut n: usize = parts.len();
    assert(below.take(n - from) =~= below);
    while n > from
        invariant
            from <= n <= parts@.len(),
            all == text::texts(parts@),
            below == all.skip(from as int),
            last_name(below) == last_name(below.take(n - from)),
            last_name(below) == file_of(path@),
        decreases n,
    {
        let ghost b = below.take(n - from);
        assert(b.last() == parts@[n - 1]@);
        assert(b.drop_last() =~= below.take(n - 1 - from));
        if same(parts[n - 1].as_str(), "..") {
            return String::new();
        }
        if !same(parts[n - 1].as_str(), ".") {
            return parts[n - 1].clone();
        }
        n = n - 1;
    }
    assert(below.take(0) =~= Seq::<Seq<char>>::empty());
    String::new()
}

/// The commands that delete the program under its former name, once the present one is there.
pub open spec fn cleanup_v(path: Seq<char>, current: Seq<char>) -> Seq<char> {
    let dir = text::trim_end_char_v(path, '\\');
    "\nif exist \""@ + dir + "\\"@ + current + "\" if exist \""@ + dir + "\\"@ + LEGACY_EXE_NAME@
        + "\" del /f /q \""@ + dir + "\\"@ + LEGACY_EXE_NAME@ + "\"\n"@
}

/// The commands that delete the program under its former name; none on a machine that has
/// crossed over.
pub fn crossover_cleanup_cmds(path: &str, current_exe: &str, found: &Installed) -> (r: String)
    ensures
        r@ == (if to_cross(*found) {
            cleanup_v(path@, file_of(current_exe@))
        } else {
            Seq::<char>::empty()
        }),
{
    if installed_legacy_exe(path, found).is_none() {
        return String::new();
    }
    let dir = trim_end_char(path, '\\');
    let current = file_name(current_exe);
    "\nif exist \"".to_owned().concat(dir.as_str()).concat("\\").concat(current.as_str()).concat(
        "\" if exist \"",
    ).concat(dir.as_str()).concat("\\").concat(LEGACY_EXE_NAME).concat("\" del /f /q \"").concat(
        dir.as_str(),
    ).concat("\\").concat(LEGACY_EXE_NAME).concat("\"\n")
}

/// Where the start menu is, with the directory of all users' data written out; nothing where
/// that is not known.
pub fn expand_start_menu(start_menu: &str, program_data: Option<&str>) -> (r: Option<String>)
    ensures
        text::opt_text(r) == (match text::opt_str(program_data) {
            Some(pd) => Some(text::replace_v(start_menu@, "%ProgramData%"@, pd)),
            None => None,
        }),
{
    proof {
        reveal_strlit("%ProgramData%");
    }
    match program_data {
        Some(pd) => Some(replace(start_menu, "%ProgramData%", pd)),
        None => None,
    }
}

/// The file name of the shortcut under the former name.
pub fn legacy_shortcut() -> (r: String)
    ensures
        r@ == LEGACY_DISPLAY_NAME@ + ".lnk"@,
{
    cat(LEGACY_DISPLAY_NAME, ".lnk")
}

/// The key under which the former name is listed among the installed programs.
pub open spec fn arp_key(wow: bool) -> Seq<char> {
    (if wow {
        "HKEY_LOCAL_MACHINE\\Software\\Wow6432Node\\Microsoft\\Windows\\CurrentVersion\\Uninstall\\"@
    } else {
        "HKEY_LOCAL_MACHINE\\Software\\Microsoft\\Windows\\CurrentVersion\\Uninstall\\"@
    }) + LEGACY_DISPLAY_NAME@
}

fn arp(wow: bool) -> (r: String)
    ensures
        r@ == arp_key(wow),
{
    let prefix = if wow {
        "HKEY_LOCAL_MACHINE\\Software\\Wow6432Node\\Microsoft\\Windows\\CurrentVersion\\Uninstall\\"
    } else {
        "HKEY_LOCAL_MACHINE\\Software\\Microsoft\\Windows\\CurrentVersion\\Uninstall\\"
    };
    cat(prefix, LEGACY_DISPLAY_NAME)
}

/// The command that deletes a file of the start menu, where it is there.
pub open spec fn delete_shortcut_v(menu: Seq<char>, name: Seq<char>) -> Seq<char> {
    "if exist \""@ + menu + "\\"@ + name + ".lnk\" del /f /q \""@ + menu + "\\"@ + name
        + ".lnk\"\n"@
}

fn delete_shortcut(menu: &str, name: &str) -> (r: String)
    ensures
        r@ == delete_shortcut_v(menu@, name@),
{
    "if exist \"".to_owned().concat(menu).concat("\\").concat(name).concat(
        ".lnk\" del /f /q \"",
    ).concat(menu).concat("\\").concat(name).concat(".lnk\"\n")
}

/// The command that copies a shortcut to the start menu.
pub open spec fn copy_shortcut_v(name: Seq<char>, menu: Seq<char>) -> Seq<char> {
    "copy /Y \"%RUSTDESK_OUTPUT_DIR%\\"@ + name + ".lnk\" \""@ + menu + "\\\"\n"@
}

fn copy_shortcut(name: &str, menu: &str) -> (r: String)
    ensures
        r@ == copy_shortcut_v(name@, menu@),
{
    "copy /Y \"%RUSTDESK_OUTPUT_DIR%\\".to_owned().concat(name).concat(".lnk\" \"").concat(
        menu,
    ).concat("\\\"\n")
}

/// The commands that make the shortcuts again under the present name and remove what is left of
/// the former one.
pub open spec fn repair_v(
    app: Seq<char>,
    menu: Seq<char>,
    mk_shortcut: Seq<char>,
    uninstall_shortcut: Seq<char>,
) -> Seq<char> {
    "\n"@ + mk_shortcut + "\n"@ + uninstall_shortcut + "\nmd \""@ + menu + "\"\n"@
        + copy_shortcut_v(app, menu) + copy_shortcut_v("Uninstall "@ + app, menu)
        + delete_shortcut_v(menu, LEGACY_DISPLAY_NAME@) + delete_shortcut_v(
        menu,
        "Uninstall "@ + LEGACY_DISPLAY_NAME@,
    ) + "reg delete \""@ + arp_key(false) + "\" /f\nreg delete \""@ + arp_key(true) + "\" /f\n"@
}

/// The commands that make the shortcuts again and remove what is left of the former name: where
/// the machine crosses over, and where it has but its shortcut was left behind.
pub fn crossover_repair_cmds(
    app: &str,
    path: &str,
    found: &Installed,
    stale_shortcut: bool,
    start_menu: &str,
    mk_shortcut_cmds: &str,
    uninstall_shortcut_cmds: &str,
) -> (r: String)
    ensures
        r@ == (if to_cross(*found) || stale_shortcut {
            repair_v(app@, start_menu@, mk_shortcut_cmds@, uninstall_shortcut_cmds@)
        } else {
            Seq::<char>::empty()
        }),
{
    if installed_legacy_exe(path, found).is_none() && !stale_shortcut {
        return String::new();
    }
    let uninstall_app = cat("Uninstall ", app);
    let uninstall_legacy = cat("Uninstall ", LEGACY_DISPLAY_NAME);
    "\n".to_owned().concat(mk_shortcut_cmds).concat("\n").concat(uninstall_shortcut_cmds).concat(
        "\nmd \"",
    ).concat(start_menu).concat("\"\n").concat(copy_shortcut(app, start_menu).as_str()).concat(
        copy_shortcut(uninstall_app.as_str(), start_menu).as_str(),
    ).concat(delete_shortcut(start_menu, LEGACY_DISPLAY_NAME).as_str()).concat(
        delete_shortcut(start_menu, uninstall_legacy.as_str()).as_str(),
    ).concat("reg delete \"").concat(arp(false).as_str()).concat("\" /f\nreg delete \"").concat(
        arp(true).as_str(),
    ).concat("\" /f\n")
}

/// The former program is deleted only behind a test that the present one is there: the commands
/// begin with it.
pub proof fn the_delete_is_guarded(path: Seq<char>, current: Seq<char>)
    ensures
        text::prefixed(
            cleanup_v(path, current),
            "\nif exist \""@ + text::trim_end_char_v(path, '\\') + "\\"@ + current + "\" if exist \""@,
        ),
{
    let dir = text::trim_end_char_v(path, '\\');
    let guard = "\nif exist \""@ + dir + "\\"@ + current + "\" if exist \""@;
    let whole = cleanup_v(path, current);
    assert(whole.take(guard.len() as int) =~= guard);
}

/// Stopping the former program deletes nothing.
pub proof fn stopping_deletes_nothing()
    ensures
        !text::occurs(stop_v(), "del "@),
{
    reveal_strlit("\ntaskkill /F /IM \"");
    reveal_strlit("sulltec-remote.exe");
    reveal_strlit("\"\n");
    reveal_strlit("del ");
    let s = stop_v();
    let a = "\ntaskkill /F /IM \""@;
    let b = LEGACY_EXE_NAME@;
    let c = "\"\n"@;
    assert forall|i: int| 0 <= i < a.len() implies #[trigger] a[i] != 'd' by {}
    assert forall|i: int| 0 <= i < b.len() implies #[trigger] b[i] != 'd' by {}
    assert forall|i: int| 0 <= i < c.len() implies #[trigger] c[i] != 'd' by {}
    assert forall|i: int| 0 <= i < s.len() implies #[trigger] s[i] != 'd' by {
        if i < a.len() {
            assert(s[i] == a[i]);
        } else if i < a.len() + b.len() {
            assert(s[i] == b[i - a.len()]);
        } else {
            assert(s[i] == c[i - a.len() - b.len()]);
        }
    }
    if text::occurs(s, "del "@) {
        let k = choose|k: int| 0 <= k <= s.len() && #[trigger] text::prefixed(s.skip(k), "del "@);
        assert(s.skip(k).take(4)[0] == 'd');
        assert(s[k] == 'd');
    }
}

/// An identifier keeps every letter and digit of ASCII, in its order, and nothing else.
pub proof fn an_identifier_keeps_letters_and_digits(s: Seq<char>)
    ensures
        alphanumerics(s) == s.filter(
            |c: char| ('0' <= c <= '9') || ('A' <= c <= 'Z') || ('a' <= c <= 'z'),
        ),
    decreases s.len(),
{
    let g = |c: char| ('0' <= c <= '9') || ('A' <= c <= 'Z') || ('a' <= c <= 'z');
    reveal(Seq::filter);
    if s.len() > 0 {
        an_identifier_keeps_letters_and_digits(s.drop_last());
    }
    assert(alphanumerics(s) =~= s.filter(g));
}

/// The former program stands in the same directory under its former name.
pub proof fn the_former_program_stands_beside(dir: Seq<char>)
    requires
        dir.len() > 0,
        dir.last() != '\\',
    ensures
        legacy_path_v(dir) == dir + "\\"@ + "sulltec-remote.exe"@,
        legacy_path_v(dir.push('\\')) == legacy_path_v(dir),
{
    assert(text::trim_end_char_v(dir, '\\') == dir);
    assert(dir.push('\\').drop_last() =~= dir);
    assert(text::trim_end_char_v(dir.push('\\'), '\\') == text::trim_end_char_v(dir, '\\'));
}

/// A machine crosses over where it has the former program and not the present one.
pub proof fn a_machine_crosses_over_once(found: Installed)
    ensures
        to_cross(found) <==> found.legacy && !found.current,
{
}

/// What is deleted is the former program in the directory, and nothing behind it.
pub proof fn the_former_program_is_deleted(dir: Seq<char>, current: Seq<char>)
    requires
        dir.len() > 0,
        dir.last() != '\\',
    ensures
        text::suffixed(
            cleanup_v(dir, current),
            "\" del /f /q \""@ + dir + "\\"@ + "sulltec-remote.exe"@ + "\"\n"@,
        ),
        stop_v() == "\ntaskkill /F /IM \""@ + "sulltec-remote.exe"@ + "\"\n"@,
{
    assert(text::trim_end_char_v(dir, '\\') == dir);
    let end = "\" del /f /q \""@ + dir + "\\"@ + "sulltec-remote.exe"@ + "\"\n"@;
    let head = "\nif exist \""@ + dir + "\\"@ + current + "\" if exist \""@ + dir + "\\"@
        + "sulltec-remote.exe"@;
    let all = cleanup_v(dir, current);
    assert(all =~= head + end);
    assert(all.skip(all.len() - end.len()) =~= end);
}

/// The last part of a path is the file that it names, whatever directory it stands in.
pub proof fn a_file_is_named_by_the_last_part(dir: Seq<char>, name: Seq<char>)
    requires
        name.len() > 0,
        !name.contains('\\'),
        !name.contains('/'),
        name != "."@,
        name != ".."@,
        dir.len() > 2,
        !separator(dir[0]),
    ensures
        file_of(dir + seq!['\\'] + name) == name,
        file_of(dir + seq!['/'] + name) == name,
{
    let p = dir + seq!['\\'] + name;
    let q = dir + seq!['/'] + name;
    reveal_strlit("\\\\?\\");
    assert(p[0] == dir[0] && q[0] == dir[0] && p[1] == dir[1] && q[1] == dir[1]);
    if verbatim(p) {
        assert(p.take(4)[0] == '\\');
    }
    if verbatim(q) {
        assert(q.take(4)[0] == '\\');
    }
    let rest = if on_drive(p) {
        dir.skip(2)
    } else {
        dir
    };
    assert(on_drive(p) == on_drive(dir) && on_drive(q) == on_drive(dir));
    if on_drive(p) {
        assert(p.skip(2) =~= rest + seq!['\\'] + name);
        assert(q.skip(2) =~= rest + seq!['/'] + name);
    }
    lemma_unified(rest, '\\', name);
    lemma_unified(rest, '/', name);
    let u = text::replace_v(rest, "/"@, "\\"@);
    lemma_last_split(u, name);
    let parts = text::split_v(u + seq!['\\'] + name, '\\');
    assert(parts.last() == name);
    assert(path_parts(p) == filled_parts(parts));
    assert(path_parts(q) == filled_parts(parts));
    assert(filled_parts(parts).last() == name);
    assert(filled_parts(parts).len() > 0);
}

/// Both separators become one, and a name without them stays.
proof fn lemma_unified(a: Seq<char>, c: char, name: Seq<char>)
    requires
        separator(c),
        !name.contains('/'),
    ensures
        text::replace_v(a + seq![c] + name, "/"@, "\\"@) == text::replace_v(a, "/"@, "\\"@)
            + seq!['\\'] + name,
    decreases a.len(),
{
    reveal_strlit("/");
    reveal_strlit("\\");
    let s = a + seq![c] + name;
    assert("/"@ =~= seq!['/']);
    assert("\\"@ =~= seq!['\\']);
    if a.len() == 0 {
        lemma_unchanged(name);
        assert(s.drop_first() =~= name);
        assert(s.skip(1) =~= name);
        assert(s[0] == c);
        assert(s.take(1) =~= seq![c]);
        assert(text::prefixed(s, "/"@) <==> c == '/') by {
            assert(s.take(1)[0] == c);
            assert("/"@[0] == '/');
            if c == '/' {
                assert(s.take(1) =~= "/"@);
            }
        }
        assert(text::replace_v(a, "/"@, "\\"@) == a);
        assert(text::replace_v(s, "/"@, "\\"@) =~= seq!['\\'] + name);
        assert(text::replace_v(a, "/"@, "\\"@) + seq!['\\'] + name =~= seq!['\\'] + name);
    } else {
        let t = a.drop_first();
        lemma_unified(t, c, name);
        assert(s.drop_first() =~= t + seq![c] + name);
        assert(s.skip(1) =~= t + seq![c] + name);
        assert(a.skip(1) =~= t);
        assert(s[0] == a[0]);
        assert(s.take(1) =~= a.take(1));
        assert(text::replace_v(s, "/"@, "\\"@) =~= text::replace_v(a, "/"@, "\\"@) + seq!['\\']
            + name);
    }
}

proof fn lemma_unchanged(s: Seq<char>)
    requires
        !s.contains('/'),
    ensures
        text::replace_v(s, "/"@, "\\"@) == s,
    decreases s.len(),
{
    reveal_strlit("/");
    if s.len() > 0 {
        let t = s.drop_first();
        if t.contains('/') {
            let i = choose|i: int| 0 <= i < t.len() && t[i] == '/';
            assert(s[i + 1] == '/');
        }
        lemma_unchanged(t);
        assert(s[0] != '/');
        if text::prefixed(s, "/"@) {
            assert(s.take(1)[0] == '/');
        }
        assert(text::replace_v(s, "/"@, "\\"@) =~= s);
    }
}

proof fn lemma_last_split(a: Seq<char>, b: Seq<char>)
    requires
        !b.contains('\\'),
    ensures
        text::split_v(a + seq!['\\'] + b, '\\').len() > 0,
        text::split_v(a + seq!['\\'] + b, '\\').last() == b,
    decreases a.len(),
{
    let s = a + seq!['\\'] + b;
    crate::text::lemma_index_of_props(a, '\\');
    let i = text::index_of(a, '\\');
    if i >= a.len() {
        if a.contains('\\') {
            let k = choose|k: int| 0 <= k < a.len() && a[k] == '\\';
            assert(false);
        }
        crate::text::a_text_splits_at_its_separators(a, '\\', b);
        crate::text::a_text_splits_at_its_separators(b, '\\', b);
        assert((seq![a] + seq![b]).last() == b);
    } else {
        let head = a.take(i);
        let tail = a.skip(i + 1);
        if head.contains('\\') {
            let k = choose|k: int| 0 <= k < head.len() && head[k] == '\\';
            assert(a[k] == '\\');
        }
        lemma_last_split(tail, b);
        assert(s =~= head + seq!['\\'] + (tail + seq!['\\'] + b));
        crate::text::a_text_splits_at_its_separators(head, '\\', tail + seq!['\\'] + b);
        let rest = text::split_v(tail + seq!['\\'] + b, '\\');
        assert((seq![head] + rest).last() == rest.last());
    }
}

/// The entries of the former program are taken out of both lists of programs, its shortcuts are
/// deleted where they are there, and those of the present one are made first.
pub proof fn a_repair_puts_the_new_names_first(
    app: Seq<char>,
    menu: Seq<char>,
    mk: Seq<char>,
    un: Seq<char>,
)
    ensures
        text::prefixed(
            repair_v(app, menu, mk, un),
            "\n"@ + mk + "\n"@ + un + "\nmd \""@ + menu + "\"\n"@,
        ),
        text::suffixed(
            repair_v(app, menu, mk, un),
            "reg delete \""@ + arp_key(false) + "\" /f\nreg delete \""@ + arp_key(true) + "\" /f\n"@,
        ),
        text::suffixed(arp_key(false), "\\Uninstall\\SullTec Remote"@),
        text::suffixed(arp_key(true), "\\Uninstall\\SullTec Remote"@),
        arp_key(false) != arp_key(true),
        delete_shortcut_v(menu, app) == "if exist \""@ + menu + "\\"@ + app + ".lnk\" del /f /q \""@
            + menu + "\\"@ + app + ".lnk\"\n"@,
{
    let all = repair_v(app, menu, mk, un);
    let head = "\n"@ + mk + "\n"@ + un + "\nmd \""@ + menu + "\"\n"@;
    assert(all.take(head.len() as int) =~= head);
    let end = "reg delete \""@ + arp_key(false) + "\" /f\nreg delete \""@ + arp_key(true)
        + "\" /f\n"@;
    assert(all.skip(all.len() - end.len()) =~= end);
    reveal_strlit("\\Uninstall\\SullTec Remote");
    reveal_strlit("SullTec Remote");
    reveal_strlit("HKEY_LOCAL_MACHINE\\Software\\Microsoft\\Windows\\CurrentVersion\\Uninstall\\");
    reveal_strlit(
        "HKEY_LOCAL_MACHINE\\Software\\Wow6432Node\\Microsoft\\Windows\\CurrentVersion\\Uninstall\\",
    );
    let tail = "\\Uninstall\\SullTec Remote"@;
    let a = arp_key(false);
    let b = arp_key(true);
    assert(a.skip(a.len() - tail.len()) =~= tail);
    assert(b.skip(b.len() - tail.len()) =~= tail);
    assert(a.len() != b.len());
}

/// A file on a drive goes by its name, whether the drive's letter is large or small.
pub proof fn a_drive_is_no_part_of_the_name(c: char, name: Seq<char>)
    requires
        ('A' <= c <= 'Z') || ('a' <= c <= 'z'),
        name.len() > 0,
        !name.contains('\\'),
        !name.contains('/'),
        name != "."@,
        name != ".."@,
    ensures
        file_of(seq![c, ':'] + name) == name,
{
    let p = seq![c, ':'] + name;
    reveal_strlit("\\\\?\\");
    assert(p[0] == c && p[1] == ':');
    if verbatim(p) {
        assert(p.take(4)[0] == '\\');
    }
    assert(on_drive(p));
    assert(p.skip(2) =~= name);
    lemma_unchanged(name);
    crate::text::a_text_splits_at_its_separators(name, '\\', name);
    let parts = seq![name];
    assert(parts.drop_last() =~= Seq::<Seq<char>>::empty());
    assert(filled_parts(parts.drop_last()) =~= Seq::<Seq<char>>::empty());
    assert(filled_parts(parts) =~= parts);
    assert(path_parts(p) == parts);
    assert(parts.last() == name);
}

/// Of a path that is taken as it is written, the last part is the file, unless it is the drive,
/// the server or the share, or one of the two that name no file.
pub proof fn a_written_path_names_its_last_part(a: Seq<char>, b: Seq<char>, name: Seq<char>)
    requires
        a != "UNC"@,
        name != "."@,
        name != ".."@,
    ensures
        verbatim_file(seq![a, name]) == name,
        verbatim_file(seq![a]).len() == 0,
        verbatim_file(seq![a, "."@]).len() == 0,
        verbatim_file(seq![a, ".."@]).len() == 0,
        verbatim_file(seq!["UNC"@, a, b, name]) == name,
        verbatim_file(seq!["UNC"@, a, name]).len() == 0,
{
}

} // verus!
