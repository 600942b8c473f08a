//! The offer of a portable program to update the installed one.
use vstd::prelude::*;

use crate::text;
use crate::text::{cat, cut_at, from_utf8_lossy, less, trim};

verus! {

/// The build date that a program prints; nothing where it prints none.
pub fn read_installed_build_date(stdout: &[u8]) -> (r: Option<String>)
    ensures
        text::opt_text(r) == (if text::trim_v(text::lossy(stdout@)).len() == 0 {
            None
        } else {
            Some(text::trim_v(text::lossy(stdout@)))
        }),
{
    build_date(from_utf8_lossy(stdout).as_str())
}

/// The build date in what a program printed.
pub fn build_date(printed: &str) -> (r: Option<String>)
    ensures
        text::opt_text(r) == (if text::trim_v(printed@).len() == 0 {
            None
        } else {
            Some(text::trim_v(printed@))
        }),
{
    let v = trim(printed);
    if v.as_str().is_empty() {
        None
    } else {
        Some(v)
    }
}

/// How the program was started.
pub struct Started {
    pub args_empty: bool,
    pub no_server: bool,
    pub quick_support: bool,
    pub elevate: bool,
    pub run_as_system: bool,
}

/// The program was started by a user, without arguments, and not by itself again.
pub open spec fn by_user(s: Started) -> bool {
    s.args_empty && !s.no_server && !s.quick_support && !s.elevate && !s.run_as_system
}

/// A question to the user.
pub struct Prompt {
    pub caption: String,
    pub text: String,
}

/// The installed program is to be updated: a user started this one, another is installed, and
/// this one was built later.
pub open spec fn offered(
    s: Started,
    is_installed_one: bool,
    installed: bool,
    build: Seq<char>,
    installed_build: Option<Seq<char>>,
) -> bool {
    by_user(s) && !is_installed_one && installed && installed_build is Some && text::before(
        installed_build->0,
        build,
    )
}

/// The text of the question.
pub open spec fn prompt_text(app: Seq<char>, installed_build: Seq<char>, version: Seq<char>) -> Seq<
    char,
> {
    "An older "@ + app + " is already installed on this computer (built "@ + installed_build
        + ").\n\nUpdate it to version "@ + text::cut_v(version, '+').0
        + " now? The program will briefly close to apply the update."@
}

/// Whether it is worth looking at the installed program.
pub fn looks_for_installed(s: &Started, is_installed_one: bool, installed: bool) -> (r: bool)
    ensures
        r == (by_user(*s) && !is_installed_one && installed),
{
    if !s.args_empty || s.no_server || s.quick_support || s.elevate || s.run_as_system {
        return false;
    }
    if is_installed_one || !installed {
        return false;
    }
    true
}

/// The question whether the installed program is to be updated, where it is asked. `build` is
/// the date of this build and `installed_build` that of the installed one.
pub fn offer_portable_in_place_update(
    s: &Started,
    is_installed_one: bool,
    installed: bool,
    build: &str,
    installed_build: Option<&str>,
    app: &str,
    version: &str,
) -> (r: Option<Prompt>)
    ensures
        match r {
            Some(p) => offered(*s, is_installed_one, installed, build@, text::opt_str(installed_build))
                && p.caption@ == app@ + " - Update"@ && p.text@ == prompt_text(
                app@,
                text::opt_str(installed_build)->0,
                version@,
            ),
            None => !offered(*s, is_installed_one, installed, build@, text::opt_str(installed_build)),
        },
{
    if !looks_for_installed(s, is_installed_one, installed) {
        return None;
    }
    match installed_build {
        Some(b) => {
            if !less(b, build) {
                return None;
            }
            let text = "An older ".to_owned().concat(app).concat(
                " is already installed on this computer (built ",
            ).concat(b).concat(").\n\nUpdate it to version ").concat(
                cut_at(version, '+').0.as_str(),
            ).concat(" now? The program will briefly close to apply the update.");
            Some(Prompt { caption: cat(app, " - Update"), text })
        },
        None => None,
    }
}

/// Whether the program ends because the update was launched: the user agreed, and the launch
/// with more rights was not declined and did not fail.
pub fn update_launched(agreed: bool, elevated: Option<bool>) -> (r: bool)
    ensures
        r == (agreed && elevated == Some(true)),
{
    agreed && match elevated {
        Some(b) => b,
        None => false,
    }
}

/// An installed program of the same build, or a later one, is never offered an update.
pub proof fn only_older_programs_are_updated(
    s: Started,
    is_installed_one: bool,
    installed: bool,
    build: Seq<char>,
    installed_build: Seq<char>,
)
    requires
        offered(s, is_installed_one, installed, build, Some(installed_build)),
    ensures
        build != installed_build,
        !offered(s, is_installed_one, installed, installed_build, Some(build)),
{
    crate::text::lemma_before_total(build, installed_build);
}

/// An update is offered exactly where a person started another copy than the installed one, and
/// the installed one was built before it.
pub proof fn an_update_is_offered_to_a_person(
    s: Started,
    is_installed_one: bool,
    installed: bool,
    build: Seq<char>,
    former: Seq<char>,
)
    ensures
        offered(s, is_installed_one, installed, build, Some(former)) <==> s.args_empty && !s.no_server
            && !s.quick_support && !s.elevate && !s.run_as_system && !is_installed_one && installed
            && text::before(former, build),
        !offered(s, is_installed_one, installed, build, None),
{
}

/// The prompt names the program, the installed build and the version without its metadata.
pub proof fn a_prompt_names_both_builds(
    app: Seq<char>,
    former: Seq<char>,
    core: Seq<char>,
    meta: Seq<char>,
)
    requires
        !core.contains('+'),
    ensures
        prompt_text(app, former, core + seq!['+'] + meta) == prompt_text(app, former, core),
        prompt_text(app, former, core) == "An older "@ + app
            + " is already installed on this computer (built "@ + former + ").\n\nUpdate it to version "@
            + core + " now? The program will briefly close to apply the update."@,
{
    crate::text::a_text_is_cut_at_the_first_separator(core, '+', meta);
}

} // verus!
